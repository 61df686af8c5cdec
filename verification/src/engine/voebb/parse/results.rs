//! The rows of a result list, as the engine reads them.
use vstd::prelude::*;
use crate::model::{Record, RecordId};

verus! {

/// One row of a result list: what voebb.de states about a record before its page is
/// fetched.
#[derive(Debug, Clone, PartialEq, Eq)]
pub struct Hit {
    /// The record the row links to.
    pub id: RecordId,
    /// The row's absolute position in the result list, where the row states one.
    pub position: Option<u32>,
    /// The title as the row prints it.
    pub title: String,
    /// The statement of responsibility.
    pub statement: Option<String>,
    pub year: Option<i32>,
    /// The material type, `Medienart`.
    pub media_kind: Option<String>,
    /// The row's traffic light, a summary over every branch of the network.
    pub availability: Option<String>,
    pub shelfmark: Option<String>,
}

/// One page of results.
#[derive(Debug, Clone, PartialEq, Eq)]
pub struct ResultList {
    /// Hits the page states; `None` when the page does not state one, never guessed from
    /// the number of rows.
    pub total: Option<u64>,
    /// The records on this page, without their copies.
    pub records: Vec<Record>,
    /// Whether the page offers a next one.
    pub has_next: bool,
}

} // verus!
