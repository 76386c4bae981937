pub mod assemble;
pub mod ast;
pub mod diagnostics;
pub mod driver;
pub mod hir;
pub mod imports;
pub mod lowering;
pub mod mir;
pub mod mir_lowering;
pub mod parser;
pub mod text;
pub mod token;
pub mod types;
