/// Errors of the conversion front end.
pub mod errors;
