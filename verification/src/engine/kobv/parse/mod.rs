//! Interpreting what KOBV returns; never performs I/O. None of these turns a missing
//! structure into an empty result.
pub mod availability;
pub mod coded;
pub mod marc;
pub mod record;
pub mod sru;
