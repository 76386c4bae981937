use vstd::prelude::*;

verus! {

#[verifier::external_type_specification]
#[verifier::external_body]
pub struct ExWatError(wat::Error);

/// Calls `wat::parse_str`, which turns WebAssembly text into the binary format.
/// Trusted. Its outcome is not a function of the text alone (the parser it builds
/// reads a setting of the process environment), so nothing names it; only the two
/// examples of the function's documentation are stated: an empty `(module)` gives the
/// eight-byte header, and a bare `module` is refused.
#[verifier::external_body]
fn wat_parse_str(text: &str) -> (r: Result<Vec<u8>, wat::Error>)
    ensures
        r is Ok <== text@ == "(module)"@,
        r matches Ok(b) ==> (text@ == "(module)"@ ==> b@ == seq![0x00u8, 0x61, 0x73, 0x6d, 0x01, 0x00, 0x00, 0x00]),
        r is Err <== text@ == "module"@,
{
    wat::parse_str(text)
}

/// The `Display` text of a `wat::Error`. Trusted; nothing is stated of the text.
#[verifier::external_body]
fn wat_error_message(e: &wat::Error) -> String {
    format!("{}", e)
}

/// WebAssembly text the assembler refused, with its explanation.
#[derive(Debug)]
pub struct AssembleError {
    pub message: String,
}

/// What the assembler answers for the outcome of turning text into a binary: the
/// bytes as they came, or the error's explanation.
pub fn assembled(parsed: Result<Vec<u8>, wat::Error>) -> (r: Result<Vec<u8>, AssembleError>)
    ensures
        r is Ok <==> parsed is Ok,
        r matches Ok(b) ==> parsed matches Ok(p) && b@ == p@,
{
    match parsed {
        Ok(bytes) => Ok(bytes),
        Err(e) => Err(AssembleError { message: wat_error_message(&e) }),
    }
}

/// Turns the WebAssembly text that code generation produced into a binary module:
/// the text goes to the assembler as it is, and its outcome is answered as
/// `assembled` says.
pub fn assemble_wat(text: &str) -> (r: Result<Vec<u8>, AssembleError>)
    ensures
        r is Ok <== text@ == "(module)"@,
        r matches Ok(b) ==> (text@ == "(module)"@ ==> b@ == seq![0x00u8, 0x61, 0x73, 0x6d, 0x01, 0x00, 0x00, 0x00]),
        r is Err <== text@ == "module"@,
{
    assembled(wat_parse_str(text))
}

} // verus!
