[package]
name = "tejx"
version = "0.2.0"
edition = "2021"
publish = false

[dependencies]
wat = "1"
