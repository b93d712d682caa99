use vstd::prelude::*;

verus! {

#[verifier::external_type_specification]
#[verifier::external_body]
pub struct ExIoError(std::io::Error);

/// Errors of the conversion front end: input/output, malformed CSV, and a
/// format tag with no codec.
#[derive(Debug)]
pub enum IoError {
    Io(std::io::Error),
    CsvParseError(String),
    UnknownFormat,
}

} // verus!
