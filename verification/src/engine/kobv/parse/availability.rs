//! The portal's availability answer, as the values the rest of the engine works with.
//!
//! The HTML fragment of the answer carries no ISIL: its item groups are matched against
//! the JSON's per-ISIL lights by key order, which is why `by_isil` keeps that order.
use vstd::prelude::*;
use crate::model::{Isil, Item, Status};

verus! {

/// The parsed availability response for one record.
#[derive(Debug, Clone, PartialEq, Eq)]
pub struct AvailabilityResponse {
    /// The overall traffic light for the record.
    pub overall: Status,
    /// The service's own `hasAvailability` flag. `false` is a note, not an error, and not
    /// an empty item list either.
    pub has_availability: bool,
    /// Per-ISIL traffic lights in the order the JSON listed them: the order is the only
    /// thing that connects them to the item groups.
    pub by_isil: Vec<(Isil, Status)>,
    /// Item groups from the HTML fragment, in document order.
    pub groups: Vec<ItemGroup>,
    /// The service's free-text availability line, when it supplies one.
    pub avail_text: Option<String>,
}

/// One library's block of copies in the HTML fragment.
#[derive(Debug, Clone, PartialEq, Eq)]
pub struct ItemGroup {
    /// The library name as the portal writes it: the fallback key when the positional
    /// match does not apply.
    pub portal_name: String,
    /// The copies.
    pub items: Vec<Item>,
    /// What `data-more` announced beyond the rows present, if anything.
    pub announced_extra: Option<usize>,
}

} // verus!
