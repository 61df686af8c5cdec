//! The English phrases for a count, shared by the error texts and the report wording so
//! that both always say the same thing about the same number.
use vstd::prelude::*;
use crate::text::{concat_owned, decimal, decimal_spec, owned};

verus! {

/// `N <noun>` with the noun in the singular for one and in the plural otherwise.
pub open spec fn counted(count: nat, singular: Seq<char>, plural: Seq<char>) -> Seq<char> {
    if count == 1 {
        seq!['1'] + singular
    } else {
        decimal_spec(count) + plural
    }
}

/// `1 record` / `10 records`, for a count that speaks about the page rather than the
/// catalogue.
pub fn records(count: usize) -> (s: String)
    ensures
        s@ == counted(count as nat, " record"@, " records"@),
{
    phrase(count as u64, " record", " records")
}

/// `1 result` / `774 results`, for a catalogue's hit count.
pub fn results(total: u64) -> (s: String)
    ensures
        s@ == counted(total as nat, " result"@, " results"@),
{
    phrase(total, " result", " results")
}

/// `1 fetched record` / `50 fetched records`, for the window a client-side filter saw.
pub fn fetched_records(count: usize) -> (s: String)
    ensures
        s@ == counted(count as nat, " fetched record"@, " fetched records"@),
{
    phrase(count as u64, " fetched record", " fetched records")
}

fn phrase(count: u64, singular: &str, plural: &str) -> (s: String)
    ensures
        s@ == counted(count as nat, singular@, plural@),
{
    if count == 1 {
        let one = decimal(1);
        proof {
            assert(decimal_spec(1) =~= seq!['1']);
        }
        concat_owned(one, singular)
    } else {
        concat_owned(decimal(count), plural)
    }
}

} // verus!
