//! The two catalogues that answer searches.
pub mod kobv;
pub mod voebb;
