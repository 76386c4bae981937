use tejx::driver::{llvm_ir_file_name, native_output_name, parse_args, wasm_output_name, ArgError, Command};

fn args(list: &[&str]) -> Vec<String> {
    let mut v = vec!["tejxc".to_string()];
    v.extend(list.iter().map(|s| s.to_string()));
    v
}

#[test]
fn help_and_version_win_at_once() {
    assert!(matches!(parse_args(&args(&["-h"])), Ok(Command::Help)));
    assert!(matches!(parse_args(&args(&["a.tx", "--version", "--bogus"])), Ok(Command::Version)));
}

#[test]
fn defaults_with_one_input() {
    match parse_args(&args(&["main.tx"])) {
        Ok(Command::Compile(o)) => {
            assert_eq!(o.input_files, vec!["main.tx".to_string()]);
            assert!(o.async_enabled);
            assert!(!o.emit_mir);
            assert!(o.emit_llvm);
            assert!(!o.target_wasm);
            assert!(!o.compile_only);
            assert!(!o.unsafe_arrays);
            assert_eq!(o.output_name, None);
        },
        other => panic!("unexpected {:?}", other),
    }
}

#[test]
fn all_flags() {
    let a = args(&["--disable-async", "--emit-mir", "-c", "-o", "out", "--target", "wasm", "--unsafe-arrays", "x.tx", "y.tx"]);
    match parse_args(&a) {
        Ok(Command::Compile(o)) => {
            assert_eq!(o.input_files, vec!["x.tx".to_string(), "y.tx".to_string()]);
            assert!(!o.async_enabled);
            assert!(o.emit_mir);
            assert!(o.compile_only);
            assert!(o.target_wasm);
            assert!(o.unsafe_arrays);
            assert_eq!(o.output_name, Some("out".to_string()));
        },
        other => panic!("unexpected {:?}", other),
    }
}

#[test]
fn target_with_equals_sign() {
    match parse_args(&args(&["--target=wasm32-wasm", "a.tx"])) {
        Ok(Command::Compile(o)) => assert!(o.target_wasm),
        other => panic!("unexpected {:?}", other),
    }
    match parse_args(&args(&["--target=native", "a.tx"])) {
        Ok(Command::Compile(o)) => assert!(!o.target_wasm),
        other => panic!("unexpected {:?}", other),
    }
}

#[test]
fn errors() {
    assert!(matches!(parse_args(&args(&["a.tx", "-o"])), Err(ArgError::MissingOutputArgument)));
    match parse_args(&args(&["--fast", "a.tx"])) {
        Err(ArgError::UnknownOption(s)) => assert_eq!(s, "--fast"),
        other => panic!("unexpected {:?}", other),
    }
    assert!(matches!(parse_args(&args(&[])), Err(ArgError::NoInputFiles)));
    assert!(matches!(parse_args(&args(&["-c"])), Err(ArgError::NoInputFiles)));
}

#[test]
fn output_names() {
    assert_eq!(wasm_output_name("dir/prog.tx"), "dir/prog.wasm");
    assert_eq!(wasm_output_name("noext"), "a.wasm");
    assert_eq!(native_output_name("a.b.tx", &None), "a.b");
    assert_eq!(native_output_name("prog", &None), "a.out");
    assert_eq!(native_output_name("prog.tx", &Some("bin".to_string())), "bin");
    assert_eq!(llvm_ir_file_name("prog"), "prog.ll");
}
