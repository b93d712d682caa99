/// camt.053 XML statements.
pub mod camt;
/// Bank-export CSV statements.
pub mod csv;
/// MT940 line-tagged statements.
pub mod mt940;
/// Writing MT940 and reading it back.
pub mod round_trip;
