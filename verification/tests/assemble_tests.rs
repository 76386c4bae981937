use tejx::assemble::assemble_wat;

#[test]
fn empty_module_assembles_to_wasm_header() {
    let bytes = assemble_wat("(module)").unwrap();
    assert_eq!(bytes, vec![0x00, 0x61, 0x73, 0x6d, 0x01, 0x00, 0x00, 0x00]);
}

#[test]
fn module_with_function_is_not_the_input() {
    let text = "(module (func (export \"f\") (result i32) i32.const 7))";
    let bytes = assemble_wat(text).unwrap();
    assert!(bytes.starts_with(b"\0asm"));
    assert_ne!(bytes, text.as_bytes().to_vec());
}

#[test]
fn malformed_text_is_refused_with_a_message() {
    let err = assemble_wat("(module (func").unwrap_err();
    assert!(!err.message.is_empty());
}

#[test]
fn bare_module_keyword_is_refused() {
    assert!(assemble_wat("module").is_err());
}
