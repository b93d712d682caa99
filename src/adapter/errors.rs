use vstd::prelude::*;
use vstd::string::to_string_from_display_ensures;

verus! {

/// Common error type for adapter operations such as parsing and writing.
#[derive(Debug)]
pub enum AdapterError {
    /// Error occurred while parsing input data.
    ParseError(String),
    /// Error occurred while writing or serializing output data.
    WriteError(String),
}

/// Maps any displayable error into an [`AdapterError::ParseError`].
pub fn map_parse_err<E: std::fmt::Display>(e: E) -> (r: AdapterError)
    ensures
        r matches AdapterError::ParseError(m) && to_string_from_display_ensures::<E>(&e, m),
{
    AdapterError::ParseError(e.to_string())
}

/// Maps any displayable error into an [`AdapterError::WriteError`].
pub fn map_write_err<E: std::fmt::Display>(e: E) -> (r: AdapterError)
    ensures
        r matches AdapterError::WriteError(m) && to_string_from_display_ensures::<E>(&e, m),
{
    AdapterError::WriteError(e.to_string())
}

} // verus!
