use crate::adapter::errors::AdapterError;
use crate::adapter::statement::Statement;
use vstd::prelude::*;

verus! {

/// A common interface for reading and writing financial statements in
/// different data formats. Each format states in its own impl exactly what
/// it reads and writes.
pub trait Adapter {
    /// Reads a [`Statement`] from the text of a document.
    fn read_from(input: &str) -> Result<Statement, AdapterError>;

    /// Writes the provided [`Statement`] as the text of a document.
    fn write_to(st: &Statement) -> Result<String, AdapterError>;
}

} // verus!
