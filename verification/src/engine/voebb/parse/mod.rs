//! Interpreting voebb.de's pages. Never performs I/O, and a missing structure is never
//! an empty result.
pub mod detail;
pub mod items;
pub mod facet;
pub mod form;
pub mod noaccess;
pub mod results;
