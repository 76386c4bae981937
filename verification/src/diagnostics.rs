use vstd::prelude::*;

verus! {

/// A message about the source, with the place it refers to, and perhaps an error
/// code and a label for the place.
#[derive(Clone, Debug)]
pub struct Diagnostic {
    pub message: String,
    pub line: usize,
    pub column: usize,
    pub filename: String,
    pub code: Option<String>,
    pub label: Option<String>,
}

impl Diagnostic {
    /// A diagnostic with the given text and place, without code or label.
    pub fn new(message: String, line: usize, column: usize, filename: String) -> (d: Diagnostic)
        ensures
            d.message == message,
            d.line == line,
            d.column == column,
            d.filename == filename,
            d.code is None,
            d.label is None,
    {
        Diagnostic { message, line, column, filename, code: None, label: None }
    }

    /// The diagnostic with the error code `code`.
    pub fn with_code(self, code: &str) -> (d: Diagnostic)
        ensures
            d.message == self.message,
            d.line == self.line,
            d.column == self.column,
            d.filename == self.filename,
            d.code matches Some(c) && c@ == code@,
            d.label == self.label,
    {
        Diagnostic { code: Some(String::from_str(code)), ..self }
    }

    /// The diagnostic with the label `label` on its place.
    pub fn with_label(self, label: &str) -> (d: Diagnostic)
        ensures
            d.message == self.message,
            d.line == self.line,
            d.column == self.column,
            d.filename == self.filename,
            d.code == self.code,
            d.label matches Some(l) && l@ == label@,
    {
        Diagnostic { label: Some(String::from_str(label)), ..self }
    }
}

} // verus!
