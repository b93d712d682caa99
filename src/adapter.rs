/// The read/write capability that every format provides.
pub mod adapter;
/// Errors that can occur during parsing and conversion.
pub mod errors;
/// Statement model shared by every codec.
pub mod statement;
