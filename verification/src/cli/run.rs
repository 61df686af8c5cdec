//! The decisions of a run that come after the engines have answered: which notes the
//! document carries, which blocks it shows, and why an empty answer is empty.
//!
//! `out` carries the answer and nothing else; the explanation of an empty answer goes
//! where an error goes. Both are the program's business; what is decided here is the
//! content.
use vstd::prelude::*;
use crate::cli::{location_views, string_views, Plan, TooDeep};
use crate::counts::{counted, records};
use crate::error::{EmptyReason, Outcome};
use crate::libraries::LocView;
use crate::model::{
    block_views, AtBlock, AtBlockView, Engine, EngineSearch, Format, Location, LocationRefusal, Note,
    SearchResult, SortKey, WindowInfo,
};
use crate::select::{
    assign_blocks, available_spec, block_page, dedup, dedup_spec, duplicate_message, duplicate_note, filter, filtered_spec,
    hidden_spec, keep_available, location_isils, mark_mine, marked_spec, page_spec, paged_records, record_views, sort, sort_spec,
    take_page, take_page_per_location, unstable_order_note, whole, Filters, Hidden, PageCut, DUPLICATE_RECORDS_DROPPED,
    RESULT_ORDER_UNSTABLE, RESULT_ORDER_UNSTABLE_MESSAGE,
};
use crate::text::{cat, decimal, decimal_spec, flatten, owned, same_text, views};

verus! {

/// The client-side filter that thinned the window, as flag and value: `--format` first,
/// because when both are set it is the one that removes most.
pub open spec fn active_filter_spec(f: Filters) -> Option<(Seq<char>, Seq<char>)> {
    match f.format {
        Some(format) => Some(("--format"@, format.name_spec())),
        None => match f.language {
            Some(code) => Some(("--language"@, code@)),
            None => None,
        },
    }
}

/// The client-side filter that thinned the window, as flag and value.
pub fn active_filter(filters: &Filters) -> (r: Option<(String, String)>)
    ensures
        match r {
            Some((flag, value)) => active_filter_spec(*filters) == Some((flag@, value@)),
            None => active_filter_spec(*filters) is None,
        },
{
    if let Some(format) = filters.format {
        return Some((owned("--format"), owned(format.as_str())));
    }
    match &filters.language {
        Some(code) => Some((owned("--language"), owned(code.as_str()))),
        None => None,
    }
}

/// Whether any block reports hits, or states no count and so might have some.
pub open spec fn counts_hits_spec(at: Seq<AtBlockView>) -> bool {
    exists|i: int|
        0 <= i < at.len() && match (#[trigger] at[i]).total {
            None => true,
            Some(t) => t > 0,
        }
}

/// Whether any of the named locations reports hits at all. A location whose engine
/// could not state a count is read as "might have": claiming the catalogue holds nothing
/// on the strength of a number nobody gave would be worse than vague.
pub fn counts_hits(at: &Vec<AtBlock>) -> (r: bool)
    ensures
        r == counts_hits_spec(block_views(at@)),
{
    let ghost b = block_views(at@);
    let mut i: usize = 0;
    while i < at.len()
        invariant
            i <= at.len(),
            b == block_views(at@),
            forall|k: int| 0 <= k < i ==> ((#[trigger] b[k]).total matches Some(t) && t == 0),
        decreases at.len() - i,
    {
        proof {
            assert(b[i as int] == at@[i as int].view());
        }
        match at[i].total {
            None => {
                return true;
            },
            Some(t) => if t > 0 {
                return true;
            },
        }
        i = i + 1;
    }
    false
}

/// Whether voebb.de said the words found nothing anywhere in its network, and every
/// location of `--at` is one it answers for: a KOBV house beside it has no unrestricted
/// total, and its empty block leaves open that another library could help.
pub open spec fn nothing_in_the_network_spec(notes: Seq<Seq<char>>, locations: Seq<LocView>) -> bool {
    notes.contains("voebb_no_hits_in_network"@) && forall|i: int| 0 <= i < locations.len() ==> (#[trigger] locations[i]).engine
        == Engine::Voebb
}

/// The kinds of a list of notes.
pub open spec fn note_kinds(v: Seq<Note>) -> Seq<Seq<char>> {
    v.map_values(|n: Note| n.kind@)
}

/// Whether the words found nothing anywhere, rather than nothing at these locations.
pub fn nothing_in_the_network(locations: &Vec<Location>, notes: &Vec<Note>) -> (r: bool)
    ensures
        r == nothing_in_the_network_spec(note_kinds(notes@), location_views(locations@)),
{
    let ghost k = note_kinds(notes@);
    let mut stated = false;
    let mut i: usize = 0;
    while i < notes.len() && !stated
        invariant
            i <= notes.len(),
            k == note_kinds(notes@),
            stated ==> k.contains("voebb_no_hits_in_network"@),
            !stated ==> forall|q: int| 0 <= q < i ==> k[q] != "voebb_no_hits_in_network"@,
        decreases notes.len() - i,
    {
        if same_text(notes[i].kind.as_str(), "voebb_no_hits_in_network") {
            proof {
                assert(k[i as int] == "voebb_no_hits_in_network"@);
            }
            stated = true;
        }
        i = i + 1;
    }
    if !stated {
        proof {
            if k.contains("voebb_no_hits_in_network"@) {
                let q = choose|q: int| 0 <= q < k.len() && k[q] == "voebb_no_hits_in_network"@;
                assert(k[q] == "voebb_no_hits_in_network"@);
            }
        }
        return false;
    }
    let ghost ls = location_views(locations@);
    let mut j: usize = 0;
    while j < locations.len()
        invariant
            j <= locations.len(),
            ls == location_views(locations@),
            forall|q: int| 0 <= q < j ==> (#[trigger] ls[q]).engine == Engine::Voebb,
        decreases locations.len() - j,
    {
        proof {
            assert(ls[j as int] == locations@[j as int].view());
        }
        if locations[j].engine != Engine::Voebb {
            return false;
        }
        j = j + 1;
    }
    true
}

/// The last page a run of `matched` records fills at `limit` per page, at least 1.
pub open spec fn last_page(matched: nat, limit: nat) -> nat {
    let a = if matched > u32::MAX { u32::MAX as nat } else { matched };
    let q = a / limit + if a % limit == 0 {
        0nat
    } else {
        1nat
    };
    if q < 1 {
        1
    } else {
        q
    }
}

/// The last page a run of matched records fills.
fn last_page_of(matched: usize, limit: u8) -> (n: u32)
    requires
        limit >= 1,
    ensures
        n == last_page(matched as nat, limit as nat),
{
    let a: u32 = if matched > u32::MAX as usize { u32::MAX } else { matched as u32 };
    let l = limit as u32;
    proof {
        if a % l != 0 {
            assert(l != 1);
            assert(a / l < 0xffff_ffff) by (nonlinear_arith)
                requires
                    l >= 2,
                    a <= 0xffff_ffff,
            ;
        }
    }
    let q = a / l + if a % l == 0 { 0 } else { 1 };
    if q < 1 {
        1
    } else {
        q
    }
}

/// The keys of a list of locations.
pub open spec fn location_keys(ls: Seq<LocView>) -> Seq<Seq<char>> {
    ls.map_values(|l: LocView| l.key)
}

/// Why this search is empty, or that it is not, asked in the order of the questions:
/// records that `--available` judged first, because they exist and are merely out; then
/// a filter whose matches all sit on earlier pages; then a sort whose pages ran out;
/// then a filter that removed every fetched record; then the locations, which hold
/// nothing for hits that exist, or where nothing was found at all — anywhere in the
/// network when voebb.de said so for voebb-only locations; else no hits for the words.
pub open spec fn outcome_holds(plan: Plan, result: SearchResult, unstated: usize, offset: nat, r: Outcome) -> bool {
    let w = result.window;
    let filter = active_filter_spec(plan.filters);
    let locs = location_views(plan.locations@);
    if result.shown > 0 {
        r == Outcome::Found
    } else if w.before_available is Some && w.before_available->0 > 0 {
        r matches Outcome::Empty(EmptyReason::NothingAvailable { total, judged, unstated: u }) && total == result.total
            && judged == w.before_available->0 && u == unstated
    } else if filter is Some && w.after_filter > 0 && offset >= w.after_filter {
        r matches Outcome::Empty(EmptyReason::PastTheLastMatch { matched, filter: f, value, page, last }) && matched
            == w.after_filter && (f@, value@) == filter->0 && page == plan.page.value() && last == last_page(
            w.after_filter as nat,
            plan.limit.value(),
        )
    } else if plan.sort != SortKey::Relevance && w.after_filter > 0 && offset >= w.after_filter {
        r matches Outcome::Empty(EmptyReason::PastTheLastSorted { sorted, sort, page, last }) && sorted == w.after_filter
            && sort@ == plan.sort.name_spec() && page == plan.page.value() && last == last_page(
            w.after_filter as nat,
            plan.limit.value(),
        )
    } else if filter is Some && w.fetched > 0 {
        r matches Outcome::Empty(EmptyReason::FilteredOut { total, fetched, filter: f, value }) && total == result.total
            && fetched == w.fetched && (f@, value@) == filter->0
    } else if locs.len() > 0 {
        if counts_hits_spec(block_views(result.at@)) {
            r matches Outcome::Empty(EmptyReason::NoHoldings { locations }) && string_views(locations@) == location_keys(
                locs,
            )
        } else if nothing_in_the_network_spec(note_kinds(result.notes@), locs) {
            r matches Outcome::Empty(EmptyReason::NoHitsAnywhere { terms, locations }) && terms@ == plan.terms_echo@
                && string_views(locations@) == location_keys(locs)
        } else {
            r matches Outcome::Empty(EmptyReason::NoHitsAtLocations { terms, locations }) && terms@ == plan.terms_echo@
                && string_views(locations@) == location_keys(locs)
        }
    } else {
        r matches Outcome::Empty(EmptyReason::NoHits { terms }) && terms@ == plan.terms_echo@
    }
}

/// The keys of the locations, in the user's order.
fn keys_of(locations: &Vec<Location>) -> (v: Vec<String>)
    ensures
        string_views(v@) == location_keys(location_views(locations@)),
{
    let mut v: Vec<String> = Vec::new();
    let mut i: usize = 0;
    while i < locations.len()
        invariant
            i <= locations.len(),
            string_views(v@) == location_keys(location_views(locations@)).take(i as int),
        decreases locations.len() - i,
    {
        let ghost before = v@;
        v.push(owned(locations[i].key.as_str()));
        proof {
            assert(string_views(v@) =~= string_views(before).push(locations@[i as int].key@));
            assert(location_keys(location_views(locations@)).take(i + 1) =~= location_keys(location_views(locations@)).take(
                i as int,
            ).push(locations@[i as int].key@));
        }
        i = i + 1;
    }
    proof {
        assert(location_keys(location_views(locations@)).take(i as int) =~= location_keys(location_views(locations@)));
    }
    v
}

/// Why this search is empty, or that it is not. Every empty reason is a different next
/// step, which is why they are not one.
pub fn outcome_of(plan: &Plan, result: &SearchResult, unstated: usize) -> (r: Outcome)
    ensures
        outcome_holds(*plan, *result, unstated, PageCut::offset_spec(plan.limit, plan.page, plan.anchored_spec()) as nat, r),
{
    if result.shown > 0 {
        return Outcome::Found;
    }
    if let Some(judged) = result.window.before_available {
        if judged > 0 {
            return Outcome::Empty(EmptyReason::NothingAvailable { total: result.total, judged, unstated });
        }
    }
    let cut = plan.cut();
    let after = result.window.after_filter;
    let limit = plan.limit.get();
    proof {
        assert(PageCut::offset_spec(plan.limit, plan.page, plan.anchored_spec()) >= 0);
    }
    if let Some((filter, value)) = active_filter(&plan.filters) {
        if after > 0 && cut.offset >= after {
            return Outcome::Empty(EmptyReason::PastTheLastMatch {
                matched: after,
                filter,
                value,
                page: plan.page.get(),
                last: last_page_of(after, limit),
            });
        }
    }
    if plan.sort != SortKey::Relevance && after > 0 && cut.offset >= after {
        return Outcome::Empty(EmptyReason::PastTheLastSorted {
            sorted: after,
            sort: owned(plan.sort.as_str()),
            page: plan.page.get(),
            last: last_page_of(after, limit),
        });
    }
    if let Some((filter, value)) = active_filter(&plan.filters) {
        if result.window.fetched > 0 {
            return Outcome::Empty(EmptyReason::FilteredOut {
                total: result.total,
                fetched: result.window.fetched,
                filter,
                value,
            });
        }
    }
    if plan.locations.len() > 0 {
        let locations = keys_of(&plan.locations);
        if counts_hits(&result.at) {
            return Outcome::Empty(EmptyReason::NoHoldings { locations });
        }
        if nothing_in_the_network(&plan.locations, &result.notes) {
            return Outcome::Empty(EmptyReason::NoHitsAnywhere { terms: owned(plan.terms_echo.as_str()), locations });
        }
        return Outcome::Empty(EmptyReason::NoHitsAtLocations { terms: owned(plan.terms_echo.as_str()), locations });
    }
    Outcome::Empty(EmptyReason::NoHits { terms: owned(plan.terms_echo.as_str()) })
}


/// The text of the `--available` note, for `unstated` hidden records of which `online`
/// are electronic titles whose lending platform states nothing.
pub open spec fn unstated_message(unstated: nat, online: nat) -> Seq<char> {
    let o = if online > unstated { unstated } else { online };
    if o == 0 {
        flatten(
            seq![
                "no status was stated for "@,
                decimal_spec(unstated),
                " of the records --available hid; nothing was said about their copies, so they are not known to be on loan"@,
            ],
        )
    } else {
        flatten(
            seq![
                "--available hid "@,
                counted(unstated, " record"@, " records"@),
                " whose status was not read; "@,
                decimal_spec(o),
                " of them "@,
                if o == 1 { "is an"@ } else { "are"@ },
                " electronic titles whose lending platform states no loan status at all \u{2014} none of those is known to be on loan"@,
            ],
        )
    }
}

/// The note that keeps "nothing was said" from reading as "it is out": only when
/// `--available` hid records without a status. The electronic titles are clamped to the
/// hidden ones, so the sentence never claims more records than exist.
pub fn unstated_note(unstated: usize, online: usize) -> (r: Option<Note>)
    ensures
        match r {
            Some(n) => unstated > 0 && n.kind@ == "availability_filter_unstated"@ && n.message@ == unstated_message(
                unstated as nat,
                online as nat,
            ) && n.records@.len() == 0,
            None => unstated == 0,
        },
{
    if unstated == 0 {
        return None;
    }
    let o = if online > unstated { unstated } else { online };
    let message = if o == 0 {
        let n = decimal(unstated as u64);
        let parts = vec![
            "no status was stated for ",
            n.as_str(),
            " of the records --available hid; nothing was said about their copies, so they are not known to be on loan",
        ];
        proof {
            assert(views(parts@) =~= seq![
                "no status was stated for "@,
                decimal_spec(unstated as nat),
                " of the records --available hid; nothing was said about their copies, so they are not known to be on loan"@,
            ]);
        }
        cat(parts)
    } else {
        let hidden = records(unstated);
        let n = decimal(o as u64);
        let verb = if o == 1 { "is an" } else { "are" };
        let parts = vec![
            "--available hid ",
            hidden.as_str(),
            " whose status was not read; ",
            n.as_str(),
            " of them ",
            verb,
            " electronic titles whose lending platform states no loan status at all \u{2014} none of those is known to be on loan",
        ];
        proof {
            assert(views(parts@) =~= seq![
                "--available hid "@,
                counted(unstated as nat, " record"@, " records"@),
                " whose status was not read; "@,
                decimal_spec(o as nat),
                " of them "@,
                if o == 1 { "is an"@ } else { "are"@ },
                " electronic titles whose lending platform states no loan status at all \u{2014} none of those is known to be on loan"@,
            ]);
        }
        cat(parts)
    };
    Some(Note::new("availability_filter_unstated", message))
}

/// How many displayed records were electronic titles that state no loan status: the
/// records named by `voebb_online_state_unstated` notes, a note that names none counting
/// as one.
pub open spec fn unstated_online_spec(notes: Seq<Note>) -> nat
    decreases notes.len(),
{
    if notes.len() == 0 {
        0
    } else {
        let before = unstated_online_spec(notes.drop_last());
        let n = notes.last();
        let add: nat = if n.kind@ == "voebb_online_state_unstated"@ {
            if n.records@.len() > 1 { n.records@.len() } else { 1 }
        } else {
            0
        };
        if before + add > usize::MAX { usize::MAX as nat } else { before + add }
    }
}

/// How many displayed records were electronic titles that state no loan status at all,
/// counted over the notes' records (saturating).
pub fn unstated_online(notes: &Vec<Note>) -> (n: usize)
    ensures
        n == unstated_online_spec(notes@),
{
    let mut n: usize = 0;
    let mut i: usize = 0;
    while i < notes.len()
        invariant
            i <= notes.len(),
            n == unstated_online_spec(notes@.take(i as int)),
        decreases notes.len() - i,
    {
        proof {
            assert(notes@.take(i + 1).drop_last() =~= notes@.take(i as int));
            assert(notes@.take(i + 1).last() == notes@[i as int]);
        }
        if same_text(notes[i].kind.as_str(), "voebb_online_state_unstated") {
            let k = notes[i].records.len();
            let add = if k > 1 { k } else { 1 };
            n = n.saturating_add(add);
        }
        i = i + 1;
    }
    proof {
        assert(notes@.take(i as int) =~= notes@);
    }
    n
}

/// The text of the note for a window filter that matched nothing.
pub open spec fn filter_empty_message(fetched: nat, filter: Seq<char>, value: Seq<char>) -> Seq<char> {
    flatten(
        seq![
            "none of the "@,
            decimal_spec(fetched),
            " fetched records matched "@,
            filter,
            " "@,
            value,
            " \u{2014} the filter runs over the fetched window, so this is not a statement about the whole result"@,
        ],
    )
}

/// The note for a window filter that matched nothing: only when a filter was set, the
/// window held records, and none survived.
pub fn window_filter_note(filters: &Filters, window: &WindowInfo) -> (r: Option<Note>)
    ensures
        match r {
            Some(n) => window.filtered && window.fetched > 0 && window.after_filter == 0 && active_filter_spec(*filters) is Some
                && n.kind@ == "window_filter_empty"@ && n.message@ == filter_empty_message(
                window.fetched as nat,
                (active_filter_spec(*filters)->0).0,
                (active_filter_spec(*filters)->0).1,
            ) && n.records@.len() == 0,
            None => !(window.filtered && window.fetched > 0 && window.after_filter == 0 && active_filter_spec(*filters) is Some),
        },
{
    if !window.filtered || window.fetched == 0 || window.after_filter > 0 {
        return None;
    }
    let (filter, value) = match active_filter(filters) {
        Some(fv) => fv,
        None => {
            return None;
        },
    };
    let n = decimal(window.fetched as u64);
    let parts = vec![
        "none of the ",
        n.as_str(),
        " fetched records matched ",
        filter.as_str(),
        " ",
        value.as_str(),
        " \u{2014} the filter runs over the fetched window, so this is not a statement about the whole result",
    ];
    proof {
        assert(views(parts@) =~= seq![
            "none of the "@,
            decimal_spec(window.fetched as nat),
            " fetched records matched "@,
            filter@,
            " "@,
            value@,
            " \u{2014} the filter runs over the fetched window, so this is not a statement about the whole result"@,
        ]);
    }
    Some(Note::new("window_filter_empty", cat(parts)))
}

/// The keys of the KOBV branch locations.
pub open spec fn kobv_branch_keys(ls: Seq<LocView>) -> Seq<Seq<char>>
    decreases ls.len(),
{
    if ls.len() == 0 {
        Seq::empty()
    } else {
        let before = kobv_branch_keys(ls.drop_last());
        if ls.last().branch is Some && ls.last().engine == Engine::Kobv {
            before.push(ls.last().key)
        } else {
            before
        }
    }
}

/// Keys joined as `--at A, --at B`.
pub open spec fn at_list(keys: Seq<Seq<char>>) -> Seq<char>
    decreases keys.len(),
{
    if keys.len() <= 1 {
        if keys.len() == 1 { "--at "@ + keys[0] } else { Seq::empty() }
    } else {
        at_list(keys.drop_last()) + ", --at "@ + keys.last()
    }
}

/// The KOBV branch locations of this run, named for a note; `None` when there are none.
pub fn branch_names(locations: &Vec<Location>) -> (r: Option<String>)
    ensures
        match r {
            Some(s) => kobv_branch_keys(location_views(locations@)).len() > 0 && s@ == at_list(
                kobv_branch_keys(location_views(locations@)),
            ),
            None => kobv_branch_keys(location_views(locations@)).len() == 0,
        },
{
    let ghost ls = location_views(locations@);
    let mut s = String::new();
    let mut count: usize = 0;
    let mut i: usize = 0;
    while i < locations.len()
        invariant
            i <= locations.len(),
            ls == location_views(locations@),
            count == kobv_branch_keys(ls.take(i as int)).len(),
            count <= i,
            s@ == at_list(kobv_branch_keys(ls.take(i as int))),
        decreases locations.len() - i,
    {
        proof {
            assert(ls.take(i + 1).drop_last() =~= ls.take(i as int));
            assert(ls.take(i + 1).last() == locations@[i as int].view());
        }
        let l = &locations[i];
        if l.branch.is_some() && l.engine == Engine::Kobv {
            let ghost before = kobv_branch_keys(ls.take(i as int));
            if count == 0 {
                crate::text::push_str(&mut s, "--at ");
            } else {
                crate::text::push_str(&mut s, ", --at ");
            }
            crate::text::push_str(&mut s, l.key.as_str());
            proof {
                reveal_strlit("--at ");
                reveal_strlit(", --at ");
                let after = before.push(l.key@);
                assert(after.drop_last() =~= before);
                if count == 0 {
                    assert(before.len() == 0);
                    assert(at_list(before) == Seq::<char>::empty());
                    assert(s@ =~= "--at "@ + l.key@);
                }
            }
            count = count + 1;
        }
        i = i + 1;
    }
    proof {
        assert(ls.take(i as int) =~= ls);
    }
    if count == 0 {
        None
    } else {
        Some(s)
    }
}

/// The sentence a KOBV branch block carries: it is never nothing, because its heading has
/// no total and its page can be shorter than `--limit`.
pub open spec fn branch_message(branches: Seq<char>, elsewhere: nat) -> Seq<char> {
    branches
        + " could only be narrowed from the copies of the records on this page \u{2014} the catalogue filters by institution, not by branch. The block states no total, the page can be shorter than --limit, and nothing here shows that the branch holds no other edition."@
        + if elsewhere == 0 {
        Seq::<char>::empty()
    } else if elsewhere == 1 {
        " 1 record on this page is held by the house but not there"@
    } else {
        " "@ + decimal_spec(elsewhere) + " records on this page are held by the house but not there"@
    }
}

/// What a KOBV branch location has to say about its own block.
pub fn branch_note(locations: &Vec<Location>, elsewhere: usize) -> (r: Option<Note>)
    ensures
        match r {
            Some(n) => kobv_branch_keys(location_views(locations@)).len() > 0 && n.kind@ == "branch_from_copies"@ && n.message@
                == branch_message(at_list(kobv_branch_keys(location_views(locations@))), elsewhere as nat),
            None => kobv_branch_keys(location_views(locations@)).len() == 0,
        },
{
    let branches = branch_names(locations)?;
    let dropped = if elsewhere == 0 {
        String::new()
    } else if elsewhere == 1 {
        owned(" 1 record on this page is held by the house but not there")
    } else {
        let n = decimal(elsewhere as u64);
        let parts = vec![" ", n.as_str(), " records on this page are held by the house but not there"];
        proof {
            assert(views(parts@) =~= seq![" "@, decimal_spec(elsewhere as nat), " records on this page are held by the house but not there"@]);
            reveal_with_fuel(flatten, 4);
        }
        cat(parts)
    };
    let parts = vec![
        branches.as_str(),
        " could only be narrowed from the copies of the records on this page \u{2014} the catalogue filters by institution, not by branch. The block states no total, the page can be shorter than --limit, and nothing here shows that the branch holds no other edition.",
        dropped.as_str(),
    ];
    proof {
        assert(views(parts@) =~= seq![
            branches@,
            " could only be narrowed from the copies of the records on this page \u{2014} the catalogue filters by institution, not by branch. The block states no total, the page can be shorter than --limit, and nothing here shows that the branch holds no other edition."@,
            dropped@,
        ]);
        reveal_with_fuel(flatten, 4);
        if elsewhere == 0 {
            assert(dropped@ =~= Seq::<char>::empty());
        }
    }
    Some(Note::new("branch_from_copies", cat(parts)))
}

/// The sentence for a KOBV branch location under `--no-availability`.
pub open spec fn unfiltered_message(branches: Seq<char>) -> Seq<char> {
    branches
        + " could not be applied: the branch of a copy is only named in the availability answer, and --no-availability did not ask for one. The block is the whole institution's."@
}

/// The same location with `--no-availability`: no copies, so nothing to narrow by.
pub fn unfiltered_branch_note(locations: &Vec<Location>) -> (r: Option<Note>)
    ensures
        match r {
            Some(n) => kobv_branch_keys(location_views(locations@)).len() > 0 && n.kind@ == "branch_needs_copies"@ && n.message@
                == unfiltered_message(at_list(kobv_branch_keys(location_views(locations@)))) && n.records@.len() == 0,
            None => kobv_branch_keys(location_views(locations@)).len() == 0,
        },
{
    let branches = branch_names(locations)?;
    let message = crate::text::concat(
        branches.as_str(),
        " could not be applied: the branch of a copy is only named in the availability answer, and --no-availability did not ask for one. The block is the whole institution's.",
    );
    Some(Note::new("branch_needs_copies", message))
}

/// Which location `--sort availability` judges by: exactly one location means "is it in
/// there"; with several no single one speaks for the record.
pub fn sort_location(locations: &Vec<Location>) -> (r: Option<&Location>)
    ensures
        match r {
            Some(l) => locations@.len() == 1 && *l == locations@[0],
            None => locations@.len() != 1,
        },
{
    if locations.len() == 1 {
        Some(&locations[0])
    } else {
        None
    }
}

/// Why a location has no block from any engine, when it was refused: its engine's every
/// search ran past its last result, or validation found its window too deep.
pub open spec fn refusal_spec(keys: Seq<Seq<char>>, too_deep: Option<Seq<Seq<char>>>, key: Seq<char>) -> Option<LocationRefusal> {
    if keys.contains(key) {
        Some(LocationRefusal::PastTheLastResult)
    } else if too_deep matches Some(t) && t.contains(key) {
        Some(LocationRefusal::WindowTooDeep)
    } else {
        None
    }
}

/// The keys of the refused locations, when validation refused any.
pub open spec fn too_deep_view(t: Option<TooDeep>) -> Option<Seq<Seq<char>>> {
    match t {
        Some(d) => Some(string_views(d.keys@)),
        None => None,
    }
}

/// Whether a list of strings holds this one.
fn holds_key(keys: &Vec<String>, key: &str) -> (r: bool)
    ensures
        r == string_views(keys@).contains(key@),
{
    let mut i: usize = 0;
    while i < keys.len()
        invariant
            i <= keys.len(),
            forall|q: int| 0 <= q < i ==> keys@[q]@ != key@,
        decreases keys.len() - i,
    {
        if same_text(keys[i].as_str(), key) {
            proof {
                assert(string_views(keys@)[i as int] == key@);
            }
            return true;
        }
        i = i + 1;
    }
    proof {
        if string_views(keys@).contains(key@) {
            let q = choose|q: int| 0 <= q < string_views(keys@).len() && string_views(keys@)[q] == key@;
            assert(keys@[q]@ == key@);
        }
    }
    false
}

/// Why a location has no entry of its own from any engine.
pub fn refusal_of(too_deep: &Option<TooDeep>, location: &Location, refused: &Vec<String>) -> (r: Option<LocationRefusal>)
    ensures
        r == refusal_spec(string_views(refused@), too_deep_view(*too_deep), location.key@),
{
    if holds_key(refused, location.key.as_str()) {
        return Some(LocationRefusal::PastTheLastResult);
    }
    match too_deep {
        Some(t) => if t.holds(location.key.as_str()) {
            Some(LocationRefusal::WindowTooDeep)
        } else {
            None
        },
        None => None,
    }
}

/// The keys of the refused locations, in the order the user wrote `--at`.
pub open spec fn too_deep_keys_spec(ls: Seq<LocView>, keys: Seq<Seq<char>>) -> Seq<Seq<char>>
    decreases ls.len(),
{
    if ls.len() == 0 {
        Seq::empty()
    } else {
        let before = too_deep_keys_spec(ls.drop_last(), keys);
        if keys.contains(ls.last().key) {
            before.push(ls.last().key)
        } else {
            before
        }
    }
}

/// The refused locations named for the note, read back off the locations so that the note
/// lists them the way the command line did.
pub fn too_deep_keys<'a>(locations: &'a Vec<Location>, too_deep: &TooDeep) -> (v: Vec<&'a str>)
    ensures
        views(v@) == too_deep_keys_spec(location_views(locations@), string_views(too_deep.keys@)),
{
    let ghost ls = location_views(locations@);
    let mut v: Vec<&str> = Vec::new();
    let mut i: usize = 0;
    proof {
        assert(views(v@) =~= Seq::<Seq<char>>::empty());
    }
    while i < locations.len()
        invariant
            i <= locations.len(),
            ls == location_views(locations@),
            views(v@) == too_deep_keys_spec(ls.take(i as int), string_views(too_deep.keys@)),
        decreases locations.len() - i,
    {
        proof {
            assert(ls.take(i + 1).drop_last() =~= ls.take(i as int));
            assert(ls.take(i + 1).last() == locations@[i as int].view());
        }
        if too_deep.holds(locations[i].key.as_str()) {
            let ghost before = v@;
            v.push(locations[i].key.as_str());
            proof {
                assert(views(v@) =~= views(before).push(locations@[i as int].key@));
            }
        }
        i = i + 1;
    }
    proof {
        assert(ls.take(i as int) =~= ls);
    }
    v
}

/// What one engine's search came to once its window was shaped: the answer, how many
/// records survived the client-side filters before paging, and how many displayed records
/// `--available` judged, when it ran.
#[derive(Debug, Clone, PartialEq, Eq)]
pub struct EngineOutcome {
    pub search: EngineSearch,
    pub after_filter: usize,
    pub before_available: Option<usize>,
    /// What `--available` removed from this engine's page.
    pub hidden: Hidden,
}

/// The sum of the fetched counts.
pub open spec fn fetched_sum(os: Seq<EngineOutcome>) -> nat
    decreases os.len(),
{
    if os.len() == 0 { 0 } else { fetched_sum(os.drop_last()) + os.last().search.fetched as nat }
}

/// The sum of what survived the filters.
pub open spec fn after_filter_sum(os: Seq<EngineOutcome>) -> nat
    decreases os.len(),
{
    if os.len() == 0 { 0 } else { after_filter_sum(os.drop_last()) + os.last().after_filter as nat }
}

/// The sum of the undelivered slots.
pub open spec fn undelivered_sum(os: Seq<EngineOutcome>) -> nat
    decreases os.len(),
{
    if os.len() == 0 { 0 } else { undelivered_sum(os.drop_last()) + os.last().search.undelivered as nat }
}

/// The sum of what `--available` judged, over the engines where it ran; none where it ran
/// nowhere, because a zero would say that it ran.
pub open spec fn judged_sum(os: Seq<EngineOutcome>) -> Option<nat>
    decreases os.len(),
{
    if os.len() == 0 {
        None
    } else {
        match (judged_sum(os.drop_last()), os.last().before_available) {
            (None, None) => None,
            (Some(a), None) => Some(a),
            (None, Some(b)) => Some(b as nat),
            (Some(a), Some(b)) => Some((a + b) as nat),
        }
    }
}

/// Whether the sums of a list of outcomes fit a count.
pub open spec fn sums_fit(os: Seq<EngineOutcome>) -> bool {
    &&& fetched_sum(os) <= usize::MAX
    &&& after_filter_sum(os) <= usize::MAX
    &&& undelivered_sum(os) <= usize::MAX
    &&& (judged_sum(os) matches Some(n) ==> n <= usize::MAX)
}

/// A prefix of outcomes sums to no more than the whole.
proof fn lemma_sums_grow(os: Seq<EngineOutcome>, k: int)
    requires
        0 <= k <= os.len(),
    ensures
        fetched_sum(os.take(k)) <= fetched_sum(os),
        after_filter_sum(os.take(k)) <= after_filter_sum(os),
        undelivered_sum(os.take(k)) <= undelivered_sum(os),
        judged_sum(os.take(k)) matches Some(a) ==> judged_sum(os) matches Some(b) && a <= b,
    decreases os.len() - k,
{
    if k < os.len() {
        lemma_sums_grow(os, k + 1);
        assert(os.take(k + 1).drop_last() =~= os.take(k));
    } else {
        assert(os.take(k) =~= os);
    }
}

/// The window of a search over all its engines: the counts summed, `before_available`
/// summed over the engines where `--available` ran and absent where it ran nowhere.
pub fn window_of(filtered: bool, outcomes: &Vec<EngineOutcome>) -> (w: WindowInfo)
    requires
        sums_fit(outcomes@),
    ensures
        w.fetched == fetched_sum(outcomes@),
        w.after_filter == after_filter_sum(outcomes@),
        w.filtered == filtered,
        w.undelivered == undelivered_sum(outcomes@),
        match (w.before_available, judged_sum(outcomes@)) {
            (Some(a), Some(b)) => a == b,
            (None, None) => true,
            _ => false,
        },
{
    let ghost os = outcomes@;
    let mut fetched: usize = 0;
    let mut after_filter: usize = 0;
    let mut undelivered: usize = 0;
    let mut judged: Option<usize> = None;
    let mut i: usize = 0;
    while i < outcomes.len()
        invariant
            i <= outcomes.len(),
            os == outcomes@,
            sums_fit(os),
            fetched == fetched_sum(os.take(i as int)),
            after_filter == after_filter_sum(os.take(i as int)),
            undelivered == undelivered_sum(os.take(i as int)),
            match (judged, judged_sum(os.take(i as int))) {
                (Some(a), Some(b)) => a == b,
                (None, None) => true,
                _ => false,
            },
        decreases outcomes.len() - i,
    {
        proof {
            assert(os.take(i + 1).drop_last() =~= os.take(i as int));
            assert(os.take(i + 1).last() == os[i as int]);
            lemma_sums_grow(os, i + 1);
        }
        let o = &outcomes[i];
        fetched = fetched + o.search.fetched;
        after_filter = after_filter + o.after_filter;
        undelivered = undelivered + o.search.undelivered;
        judged = match (judged, o.before_available) {
            (None, None) => None,
            (Some(a), None) => Some(a),
            (None, Some(b)) => Some(b),
            (Some(a), Some(b)) => Some(a + b),
        };
        i = i + 1;
    }
    proof {
        assert(os.take(i as int) =~= os);
    }
    WindowInfo { fetched, after_filter, filtered, undelivered, before_available: judged }
}

/// The index of the first outcome of the KOBV engine.
pub open spec fn first_kobv(os: Seq<EngineOutcome>) -> Option<int> {
    if exists|i: int| 0 <= i < os.len() && os[i].search.engine == Engine::Kobv {
        Some(choose|i: int|
            0 <= i < os.len() && os[i].search.engine == Engine::Kobv && forall|j: int| 0 <= j < i ==> (#[trigger] os[j]).search.engine != Engine::Kobv)
    } else {
        None
    }
}

/// The total and the PQF a result states: those of the KOBV search, and none when only
/// voebb.de ran or when the KOBV engine ran several searches and stated no single total.
pub fn kobv_answer(outcomes: &Vec<EngineOutcome>) -> (r: (Option<u64>, Option<String>))
    ensures
        match first_kobv(outcomes@) {
            Some(i) => r.0 == outcomes@[i].search.total && crate::engine::kobv::opt_text(r.1) == crate::engine::kobv::opt_text(outcomes@[i].search.query_echo),
            None => r.0 is None && r.1 is None,
        },
{
    let mut i: usize = 0;
    while i < outcomes.len()
        invariant
            i <= outcomes.len(),
            forall|j: int| 0 <= j < i ==> (#[trigger] outcomes@[j]).search.engine != Engine::Kobv,
        decreases outcomes.len() - i,
    {
        if outcomes[i].search.engine == Engine::Kobv {
            let pqf = match &outcomes[i].search.query_echo {
                Some(q) => Some(owned(q.as_str())),
                None => None,
            };
            proof {
                let w = first_kobv(outcomes@)->Some_0;
                assert(0 <= w < outcomes@.len() && outcomes@[w].search.engine == Engine::Kobv);
                if w < i {
                } else if w > i {
                    assert(outcomes@[i as int].search.engine == Engine::Kobv);
                }
                assert(w == i);
            }
            return (outcomes[i].search.total, pqf);
        }
        i = i + 1;
    }
    (None, None)
}

/// Whether a block is the one of a location: the same key and the same ISIL.
pub open spec fn block_of(b: AtBlockView, l: LocView) -> bool {
    b.key == l.key && b.isil == l.isil
}

/// The first block of a list that belongs to the location.
pub open spec fn first_block(bs: Seq<AtBlockView>, l: LocView) -> Option<int> {
    if exists|j: int| 0 <= j < bs.len() && block_of(bs[j], l) {
        Some(choose|j: int| 0 <= j < bs.len() && block_of(bs[j], l) && forall|m: int| 0 <= m < j ==> !block_of(#[trigger] bs[m], l))
    } else {
        None
    }
}

/// The block an engine reported for the location: the first one, engine by engine.
pub open spec fn reported_block(os: Seq<EngineOutcome>, l: LocView) -> Option<AtBlockView>
    decreases os.len(),
{
    if os.len() == 0 {
        None
    } else {
        let bs = block_views(os[0].search.at@);
        match first_block(bs, l) {
            Some(j) => Some(bs[j]),
            None => reported_block(os.drop_first(), l),
        }
    }
}

/// The block of a location no engine reported on: it states no total and no records, and
/// says why where the location was refused.
pub open spec fn unreported_block(l: LocView, refused: Option<LocationRefusal>) -> AtBlockView {
    AtBlockView {
        key: l.key,
        given: l.given,
        isil: l.isil,
        branch: match l.branch {
            Some(b) => Some(b.kobvid),
            None => None,
        },
        engine: l.engine,
        total: None,
        records: Seq::empty(),
        refused,
    }
}

/// One block per location of `--at`, in the user's order: the one an engine reported,
/// or an empty one that says whether the location was refused.
pub open spec fn at_blocks_spec(ls: Seq<LocView>, os: Seq<EngineOutcome>, refused: Seq<Seq<char>>, too_deep: Option<Seq<Seq<char>>>) -> Seq<AtBlockView> {
    ls.map_values(|l: LocView| match reported_block(os, l) {
        Some(b) => b,
        None => unreported_block(l, refusal_spec(refused, too_deep, l.key)),
    })
}

/// A copy of a block.
fn copy_block(b: &AtBlock) -> (c: AtBlock)
    ensures
        c.view() == b.view(),
{
    let mut records: Vec<crate::model::RecordId> = Vec::new();
    let mut i: usize = 0;
    while i < b.records.len()
        invariant
            i <= b.records.len(),
            crate::model::id_views(records@) == crate::model::id_views(b.records@).take(i as int),
        decreases b.records.len() - i,
    {
        let ghost before = records@;
        let c = b.records[i].copy();
        records.push(c);
        proof {
            assert(crate::model::id_views(records@) =~= crate::model::id_views(before).push(c.id_spec()));
            assert(crate::model::id_views(b.records@).take(i + 1) =~= crate::model::id_views(b.records@).take(i as int).push(b.records@[i as int].id_spec()));
            assert(crate::model::id_views(records@) =~= crate::model::id_views(b.records@).take(i + 1));
        }
        i = i + 1;
    }
    proof {
        assert(crate::model::id_views(b.records@).take(i as int) =~= crate::model::id_views(b.records@));
    }
    let branch = match &b.branch {
        Some(x) => Some(owned(x.as_str())),
        None => None,
    };
    AtBlock {
        key: owned(b.key.as_str()),
        given: owned(b.given.as_str()),
        isil: crate::model::Isil::new(b.isil.as_str()),
        branch,
        engine: b.engine,
        total: b.total,
        records,
        refused: b.refused,
    }
}

/// The block an engine reported for the location, if any.
fn find_block<'a>(outcomes: &'a Vec<EngineOutcome>, location: &Location) -> (r: Option<&'a AtBlock>)
    ensures
        match r {
            Some(b) => reported_block(outcomes@, location.view()) == Some(b.view()),
            None => reported_block(outcomes@, location.view()) is None,
        },
{
    let ghost os = outcomes@;
    let ghost l = location.view();
    let mut k: usize = 0;
    proof {
        assert(os.skip(0) =~= os);
    }
    while k < outcomes.len()
        invariant
            k <= outcomes.len(),
            os == outcomes@,
            l == location.view(),
            reported_block(os, l) == reported_block(os.skip(k as int), l),
        decreases outcomes.len() - k,
    {
        let at = &outcomes[k].search.at;
        let ghost bs = block_views(at@);
        let mut j: usize = 0;
        while j < at.len()
            invariant
                j <= at.len(),
                k < outcomes.len(),
                os == outcomes@,
                *at == outcomes@[k as int].search.at,
                bs == block_views(at@),
                l == location.view(),
                reported_block(os, l) == reported_block(os.skip(k as int), l),
                forall|m: int| 0 <= m < j ==> !block_of(#[trigger] bs[m], l),
            decreases at.len() - j,
        {
            proof {
                assert(bs[j as int] == at@[j as int].view());
            }
            if same_text(at[j].key.as_str(), location.key.as_str()) && same_text(at[j].isil.as_str(), location.isil.as_str()) {
                proof {
                    assert(block_of(bs[j as int], l));
                    let w = first_block(bs, l)->Some_0;
                    if w < j {
                        assert(!block_of(bs[w], l));
                    } else if w > j {
                        assert(!block_of(bs[j as int], l));
                    }
                    assert(os.skip(k as int)[0] == os[k as int]);
                }
                return Some(&at[j]);
            }
            j = j + 1;
        }
        proof {
            assert(first_block(bs, l) is None);
            assert(os.skip(k as int)[0] == os[k as int]);
            assert(os.skip(k as int).drop_first() =~= os.skip(k + 1));
        }
        k = k + 1;
    }
    proof {
        assert(os.skip(k as int).len() == 0);
    }
    None
}

/// One block per location of `--at`, in the order the user wrote them: the block an
/// engine reported, or one that states nothing and says whether the location was refused
/// — past its last result, or too deep to be paged to.
pub fn at_blocks(plan: &Plan, outcomes: &Vec<EngineOutcome>, refused: &Vec<String>) -> (v: Vec<AtBlock>)
    ensures
        block_views(v@) == at_blocks_spec(location_views(plan.locations@), outcomes@, string_views(refused@), too_deep_view(plan.too_deep)),
{
    let ghost ls = location_views(plan.locations@);
    let ghost want = at_blocks_spec(ls, outcomes@, string_views(refused@), too_deep_view(plan.too_deep));
    let mut v: Vec<AtBlock> = Vec::new();
    let mut i: usize = 0;
    while i < plan.locations.len()
        invariant
            i <= plan.locations.len(),
            ls == location_views(plan.locations@),
            want == at_blocks_spec(ls, outcomes@, string_views(refused@), too_deep_view(plan.too_deep)),
            block_views(v@) == want.take(i as int),
        decreases plan.locations.len() - i,
    {
        let location = &plan.locations[i];
        let block = match find_block(outcomes, location) {
            Some(b) => copy_block(b),
            None => AtBlock {
                key: owned(location.key.as_str()),
                given: owned(location.given.as_str()),
                isil: crate::model::Isil::new(location.isil.as_str()),
                branch: match &location.branch {
                    Some(b) => Some(owned(b.kobvid.as_str())),
                    None => None,
                },
                engine: location.engine,
                total: None,
                records: Vec::new(),
                refused: refusal_of(&plan.too_deep, location, refused),
            },
        };
        proof {
            assert(ls[i as int] == location.view());
            assert(block.view().records =~= Seq::<Seq<char>>::empty() || reported_block(outcomes@, location.view()) is Some);
            assert(block.view() == want[i as int]);
        }
        let ghost before = v@;
        v.push(block);
        proof {
            assert(block_views(v@) =~= block_views(before).push(block.view()));
            assert(want.take(i + 1) =~= want.take(i as int).push(want[i as int]));
            assert(block_views(v@) =~= want.take(i + 1));
        }
        i = i + 1;
    }
    proof {
        assert(want.take(i as int) =~= want);
    }
    v
}

/// The cut a plan pages by.
pub open spec fn plan_cut(plan: Plan) -> PageCut {
    PageCut { offset: PageCut::offset_spec(plan.limit, plan.page, plan.anchored_spec()) as usize, len: plan.limit.value() as usize }
}

/// The notes shaping adds to an engine's own: the repeats dropped, a KOBV page past the
/// first whose order is unstable, and branches that need copies no one asked for.
pub open spec fn added_notes(plan: Plan, engine: Engine, locations: Seq<LocView>, dropped: nat) -> Seq<(Seq<char>, Seq<char>, Seq<Seq<char>>)> {
    (if dropped > 0 {
        seq![(DUPLICATE_RECORDS_DROPPED@, duplicate_message(dropped), Seq::<Seq<char>>::empty())]
    } else {
        Seq::empty()
    }) + (if engine == Engine::Kobv && plan.page.value() > 1 {
        seq![(RESULT_ORDER_UNSTABLE@, RESULT_ORDER_UNSTABLE_MESSAGE@, Seq::<Seq<char>>::empty())]
    } else {
        Seq::empty()
    }) + (if kobv_branch_keys(locations).len() > 0 {
        seq![("branch_needs_copies"@, unfiltered_message(at_list(kobv_branch_keys(locations))), Seq::<Seq<char>>::empty())]
    } else {
        Seq::empty()
    })
}

/// What an engine's answer becomes: repeats dropped before anything is counted;
/// `--format` and `--language`; the sort; the page cut, per location when there are
/// locations; `--available`; the invocation's own libraries marked; every block naming
/// the displayed records it holds.
pub open spec fn finished(plan: Plan, engine: Engine, locations: Seq<LocView>, search: EngineSearch, o: EngineOutcome) -> bool {
    let d = dedup_spec(record_views(search.records@));
    let dropped = (search.records@.len() - d.len()) as nat;
    let f = filtered_spec(d, plan.filters);
    let s = sort_spec(f, plan.sort);
    let cut = plan_cut(plan);
    let paged_blocks = if locations.len() == 0 {
        block_views(search.at@)
    } else {
        block_views(search.at@).map_values(|b: AtBlockView| block_page(s, b, cut))
    };
    let paged = if locations.len() == 0 {
        page_spec(s, cut)
    } else {
        paged_records(s, paged_blocks)
    };
    let thinned = if plan.only_available {
        available_spec(paged)
    } else {
        paged
    };
    let shown = thinned.map_values(|r: crate::model::RecordView| marked_spec(r, location_isils(plan.locations@)));
    &&& o.search.engine == search.engine
    &&& o.search.total == search.total
    &&& o.search.undelivered == search.undelivered
    &&& o.search.query_echo == search.query_echo
    &&& o.search.fetched == (if dropped > 0 {
        if search.fetched >= dropped { (search.fetched - dropped) as usize } else { 0usize }
    } else {
        search.fetched
    })
    &&& o.after_filter == f.len()
    &&& o.before_available == (if plan.only_available { Some(paged.len() as usize) } else { None::<usize> })
    &&& (o.hidden.said_no as nat, o.hidden.unstated as nat) == (if plan.only_available { hidden_spec(paged) } else { (0nat, 0nat) })
    &&& record_views(o.search.records@) == shown
    &&& block_views(o.search.at@) == paged_blocks.map_values(|b: AtBlockView| block_page(shown, b, whole()))
    &&& crate::engine::kobv::note_list(o.search.notes@) == crate::engine::kobv::note_list(search.notes@) + added_notes(plan, engine, locations, dropped)
}

/// Finish one engine's answer without asking for availability: drop the repeats, filter,
/// sort, cut the page (per location when there are locations), apply `--available`,
/// mark the invocation's own libraries and name the displayed records in every block.
pub fn finish_engine(plan: &Plan, engine: Engine, locations: &Vec<Location>, search: EngineSearch) -> (o: EngineOutcome)
    requires
        plan.availability == crate::model::AvailabilityMode::Skipped,
    ensures
        finished(*plan, engine, location_views(locations@), search, o),
{
    let ghost orig = search;
    let EngineSearch { engine: answered, total, fetched, undelivered, mut at, records, query_echo, mut notes } = search;
    let ghost n0 = notes@;
    let (deduped, dropped) = dedup(records);
    let mut fetched = fetched;
    let ghost part1: Seq<(Seq<char>, Seq<char>, Seq<Seq<char>>)> = if dropped > 0 {
        seq![(DUPLICATE_RECORDS_DROPPED@, duplicate_message(dropped as nat), Seq::<Seq<char>>::empty())]
    } else {
        Seq::empty()
    };
    if dropped > 0 {
        fetched = if fetched >= dropped { fetched - dropped } else { 0 };
        let d = duplicate_note(dropped);
        notes.push(d);
        proof {
            assert(crate::model::id_views(d.records@) =~= Seq::<Seq<char>>::empty());
            assert(crate::engine::kobv::note_list(notes@) =~= crate::engine::kobv::note_list(n0) + part1);
        }
    } else {
        proof {
            assert(crate::engine::kobv::note_list(notes@) =~= crate::engine::kobv::note_list(n0) + part1);
        }
    }
    let ghost n1 = notes@;
    let ghost part2: Seq<(Seq<char>, Seq<char>, Seq<Seq<char>>)> = if engine == Engine::Kobv && plan.page.value() > 1 {
        seq![(RESULT_ORDER_UNSTABLE@, RESULT_ORDER_UNSTABLE_MESSAGE@, Seq::<Seq<char>>::empty())]
    } else {
        Seq::empty()
    };
    if engine == Engine::Kobv && plan.page.get() > 1 {
        let u = unstable_order_note();
        notes.push(u);
        proof {
            assert(crate::model::id_views(u.records@) =~= Seq::<Seq<char>>::empty());
            assert(crate::engine::kobv::note_list(notes@) =~= crate::engine::kobv::note_list(n1) + part2);
        }
    } else {
        proof {
            assert(crate::engine::kobv::note_list(notes@) =~= crate::engine::kobv::note_list(n1) + part2);
        }
    }
    let ghost n2 = notes@;
    let filtered = filter(deduped, &plan.filters);
    let after_filter = filtered.len();
    let sorted = sort(filtered, plan.sort);
    let cut = plan.cut();
    let ghost s = record_views(sorted@);
    let paged = if locations.len() == 0 {
        take_page(sorted, cut)
    } else {
        take_page_per_location(sorted, &mut at, cut)
    };
    let ghost blocks = block_views(at@);
    let ghost ls = location_views(locations@);
    let ghost part3: Seq<(Seq<char>, Seq<char>, Seq<Seq<char>>)> = if kobv_branch_keys(ls).len() > 0 {
        seq![("branch_needs_copies"@, unfiltered_message(at_list(kobv_branch_keys(ls))), Seq::<Seq<char>>::empty())]
    } else {
        Seq::empty()
    };
    match unfiltered_branch_note(locations) {
        Some(n) => {
            proof {
                assert(crate::model::id_views(n.records@) =~= Seq::<Seq<char>>::empty());
            }
            notes.push(n);
            proof {
                assert(crate::engine::kobv::note_list(notes@) =~= crate::engine::kobv::note_list(n2) + part3);
            }
        },
        None => {
            proof {
                assert(crate::engine::kobv::note_list(notes@) =~= crate::engine::kobv::note_list(n2) + part3);
            }
        },
    }
    let ghost n3 = notes@;
    let mut before_available: Option<usize> = None;
    let mut hidden = Hidden { said_no: 0, unstated: 0 };
    let mut shown = if plan.only_available {
        before_available = Some(paged.len());
        let (kept, removed) = keep_available(paged);
        hidden = removed;
        kept
    } else {
        paged
    };
    mark_mine(&mut shown, &plan.locations);
    assign_blocks(&mut at, &shown);
    let o = EngineOutcome {
        search: EngineSearch { engine: answered, total, fetched, undelivered, at, records: shown, query_echo, notes },
        after_filter,
        before_available,
        hidden,
    };
    proof {
        let nl = crate::engine::kobv::note_list(o.search.notes@);
        assert(added_notes(*plan, engine, location_views(locations@), dropped as nat) == part1 + part2 + part3);
        assert(nl =~= crate::engine::kobv::note_list(n0) + added_notes(*plan, engine, location_views(locations@), dropped as nat));
    }
    o
}

/// Whether `request` is the search of these locations under the plan: a query that asks
/// what the plan's asks, the plan's window, and the locations themselves.
pub open spec fn engine_request(plan: Plan, locations: Seq<LocView>, request: crate::model::SearchRequest) -> bool {
    &&& crate::model::same_query(request.query, plan.query)
    &&& location_views(request.locations@) == locations
    &&& (request.window.start as int, request.window.size.value()) == crate::model::FetchWindow::plan_spec(
        plan.limit,
        plan.page,
        plan.anchored_spec(),
    )
}

/// One engine's search, finished: the query goes out over the plan's window for the
/// engine's locations, and the answer is shaped by [`finish_engine`]; the search's error,
/// a query that cannot be written as PQF among them, is the answer's.
///
/// The KOBV engine answers here, with its copies' availability not asked for: a voebb.de
/// search has no result-page reader to finish it, and KOBV availability is read from a
/// service whose answer this library does not parse, so the caller refuses both before
/// it gets here.
pub fn search_one_engine<F: crate::http::Fetch>(plan: &Plan, engine: Engine, locations: &Vec<Location>, fetch: &F) -> (r: Result<EngineOutcome, crate::error::Error>)
    requires
        engine == Engine::Kobv,
        plan.availability == crate::model::AvailabilityMode::Skipped,
    ensures
        exists|request: crate::model::SearchRequest, s: Result<EngineSearch, crate::error::Error>|
            #[trigger] crate::engine::kobv::searched(request, s) && engine_request(*plan, location_views(locations@), request) && match s {
                Ok(e) => r matches Ok(o) && finished(*plan, engine, location_views(locations@), e, o),
                Err(e) => r == Err::<EngineOutcome, crate::error::Error>(e),
            },
{
    let mut copies: Vec<Location> = Vec::new();
    let mut i: usize = 0;
    while i < locations.len()
        invariant
            i <= locations.len(),
            location_views(copies@) == location_views(locations@).take(i as int),
        decreases locations.len() - i,
    {
        let c = locations[i].copy();
        let ghost before = copies@;
        copies.push(c);
        proof {
            assert(location_views(copies@) =~= location_views(before).push(c.view()));
            assert(location_views(locations@).take(i + 1) =~= location_views(locations@).take(i as int).push(locations@[i as int].view()));
        }
        i = i + 1;
    }
    proof {
        assert(location_views(locations@).take(i as int) =~= location_views(locations@));
    }
    let request = crate::model::SearchRequest { query: plan.query.copy(), locations: copies, window: plan.window() };
    let ghost req = request;
    let answer = crate::engine::kobv::Kobv::new(fetch).search(&request);
    let ghost a = answer;
    proof {
        assert(engine_request(*plan, location_views(locations@), req));
    }
    match answer {
        Ok(search) => {
            let o = finish_engine(plan, engine, locations, search);
            proof {
                assert(crate::engine::kobv::searched(req, a));
            }
            Ok(o)
        },
        Err(e) => {
            proof {
                assert(crate::engine::kobv::searched(req, a));
            }
            Err(e)
        },
    }
}

/// One engine's result as the run sees it: the locations it searched, and its outcome or
/// its error.
pub type EngineResult = (Vec<Location>, Result<EngineOutcome, crate::error::Error>);

/// Whether an engine's error fails the run.
pub open spec fn run_failed(x: EngineResult) -> bool {
    x.1 matches Err(e) && crate::error::blast_spec(e) == crate::error::Blast::Run
}

/// Whether an engine's every location asked for a window past its own last result.
pub open spec fn past_the_end(x: EngineResult) -> bool {
    x.1 matches Err(e) && crate::error::blast_spec(e) == crate::error::Blast::Location
}

/// The index of the first engine whose error fails the run.
pub open spec fn first_run_failure(xs: Seq<EngineResult>) -> Option<int> {
    if exists|i: int| 0 <= i < xs.len() && run_failed(xs[i]) {
        Some(choose|i: int| 0 <= i < xs.len() && run_failed(xs[i]) && forall|j: int| 0 <= j < i ==> !run_failed(#[trigger] xs[j]))
    } else {
        None
    }
}

/// Whether no engine answered, every one having paged past its results.
pub open spec fn none_answered(xs: Seq<EngineResult>) -> bool {
    xs.len() > 0 && forall|i: int| 0 <= i < xs.len() ==> #[trigger] past_the_end(xs[i])
}

/// The outcomes of the engines that answered, in engine order.
pub open spec fn ran_spec(xs: Seq<EngineResult>) -> Seq<EngineOutcome>
    decreases xs.len(),
{
    if xs.len() == 0 {
        Seq::empty()
    } else {
        match xs.last().1 {
            Ok(o) => ran_spec(xs.drop_last()).push(o),
            Err(_) => ran_spec(xs.drop_last()),
        }
    }
}

/// The keys of the locations of the engines that paged past their results, in engine
/// order.
pub open spec fn refused_spec(xs: Seq<EngineResult>) -> Seq<Seq<char>>
    decreases xs.len(),
{
    if xs.len() == 0 {
        Seq::empty()
    } else if past_the_end(xs.last()) {
        refused_spec(xs.drop_last()) + location_keys(location_views(xs.last().0@))
    } else {
        refused_spec(xs.drop_last())
    }
}

/// What the engines of one invocation produced: the outcomes of those that answered, and
/// the keys of the locations of an engine whose every location began past its own last
/// result.
pub struct Engines {
    pub outcomes: Vec<EngineOutcome>,
    pub refused: Vec<String>,
}

/// The results of every engine, in engine order, as one answer. The first error that
/// fails the run fails it. An engine whose every location paged past its last result is
/// no failure while another engine answered: its locations' keys are kept for their note.
/// Where no engine answered at all, the first such refusal is raised: a user who simply
/// paged too far still gets the catalogue's own sentence.
pub fn gather_engines(mut results: Vec<EngineResult>) -> (r: Result<Engines, crate::error::Error>)
    ensures
        match first_run_failure(results@) {
            Some(k) => r == Err::<Engines, crate::error::Error>(results@[k].1->Err_0),
            None => if none_answered(results@) {
                r == Err::<Engines, crate::error::Error>(results@[0].1->Err_0)
            } else {
                r matches Ok(e) && e.outcomes@ == ran_spec(results@) && string_views(e.refused@) == refused_spec(results@)
            },
        },
{
    let ghost orig = results@;
    let mut k: usize = 0;
    let mut all_past = true;
    let mut failed = false;
    while k < results.len() && !failed
        invariant
            k <= results.len(),
            results@ == orig,
            failed ==> k > 0 && run_failed(orig[k - 1]) && forall|j: int| 0 <= j < k - 1 ==> !run_failed(#[trigger] orig[j]),
            !failed ==> forall|j: int| 0 <= j < k ==> !run_failed(#[trigger] orig[j]),
            !failed ==> (all_past == forall|j: int| 0 <= j < k ==> #[trigger] past_the_end(orig[j])),
        decreases results.len() - k,
    {
        match &results[k].1 {
            Ok(_) => {
                proof {
                    assert(orig[k as int].1 is Ok);
                    assert(!past_the_end(orig[k as int]));
                    assert(!run_failed(orig[k as int]));
                }
                all_past = false;
            },
            Err(e) => {
                let b = e.blast_radius();
                proof {
                    assert(orig[k as int].1 == Err::<EngineOutcome, crate::error::Error>(*e));
                }
                match b {
                    crate::error::Blast::Run => {
                        failed = true;
                    },
                    crate::error::Blast::Location => {
                        proof {
                            assert(past_the_end(orig[k as int]));
                        }
                    },
                }
            },
        }
        proof {
            if !failed && all_past {
                assert forall|j: int| 0 <= j < k + 1 implies #[trigger] past_the_end(orig[j]) by {}
            }
        }
        k = k + 1;
    }
    if failed {
        proof {
            assert(first_run_failure(orig) == Some(k - 1));
        }
        let x = results.remove(k - 1);
        proof {
            assert(x == orig[k - 1]);
        }
        return match x.1 {
            Err(e) => Err(e),
            Ok(o) => {
                proof {
                    assert(false);
                }
                Ok(Engines { outcomes: vec![o], refused: Vec::new() })
            },
        };
    }
    proof {
        assert(first_run_failure(orig) is None);
    }
    if all_past && results.len() > 0 {
        let x = results.remove(0);
        proof {
            assert(x == orig[0]);
            assert(past_the_end(orig[0]));
            assert(none_answered(orig));
        }
        return match x.1 {
            Err(e) => Err(e),
            Ok(o) => {
                proof {
                    assert(false);
                }
                Ok(Engines { outcomes: vec![o], refused: Vec::new() })
            },
        };
    }
    proof {
        if none_answered(orig) {
            assert forall|j: int| 0 <= j < k implies #[trigger] past_the_end(orig[j]) by {}
        }
    }
    let mut outcomes: Vec<EngineOutcome> = Vec::new();
    let mut refused: Vec<String> = Vec::new();
    let mut c: usize = 0;
    let n = results.len();
    proof {
        assert(orig.take(0) =~= Seq::<EngineResult>::empty());
        assert(orig.skip(0) =~= orig);
    }
    while results.len() > 0
        invariant
            c + results@.len() == orig.len(),
            n == orig.len(),
            results@ == orig.skip(c as int),
            outcomes@ == ran_spec(orig.take(c as int)),
            string_views(refused@) == refused_spec(orig.take(c as int)),
            forall|j: int| 0 <= j < orig.len() ==> !run_failed(#[trigger] orig[j]),
        decreases results@.len(),
    {
        let x = results.remove(0);
        proof {
            assert(x == orig[c as int]);
            assert(orig.skip(c as int).remove(0) =~= orig.skip(c + 1));
            assert(orig.take(c + 1).drop_last() =~= orig.take(c as int));
            assert(orig.take(c + 1).last() == x);
        }
        let (locations, answer) = x;
        match answer {
            Ok(o) => {
                outcomes.push(o);
            },
            Err(_) => {
                proof {
                    assert(!run_failed(orig[c as int]));
                    assert(past_the_end(orig[c as int]));
                }
                let ghost before = string_views(refused@);
                let mut i: usize = 0;
                while i < locations.len()
                    invariant
                        i <= locations.len(),
                        string_views(refused@) == before + location_keys(location_views(locations@)).take(i as int),
                    decreases locations.len() - i,
                {
                    let ghost b = refused@;
                    refused.push(owned(locations[i].key.as_str()));
                    proof {
                        assert(string_views(refused@) =~= string_views(b).push(locations@[i as int].key@));
                        assert(location_keys(location_views(locations@)).take(i + 1) =~= location_keys(location_views(locations@)).take(
                            i as int,
                        ).push(locations@[i as int].key@));
                    }
                    i = i + 1;
                }
                proof {
                    assert(location_keys(location_views(locations@)).take(i as int) =~= location_keys(location_views(locations@)));
                }
            },
        }
        c = c + 1;
    }
    proof {
        assert(orig.take(c as int) =~= orig);
    }
    Ok(Engines { outcomes, refused })
}

/// The sum of the records `--available` hid with no status stated.
pub open spec fn unstated_sum(os: Seq<EngineOutcome>) -> nat
    decreases os.len(),
{
    if os.len() == 0 { 0 } else { unstated_sum(os.drop_last()) + os.last().hidden.unstated as nat }
}

/// How many records `--available` removed without ever having been told a status, over
/// all engines. Only this half of [`Hidden`] travels further; the other half is
/// `before_available` minus what is shown, which the window already carries.
pub fn unstated_hidden(outcomes: &Vec<EngineOutcome>) -> (n: usize)
    requires
        unstated_sum(outcomes@) <= usize::MAX,
    ensures
        n == unstated_sum(outcomes@),
{
    let mut n: usize = 0;
    let mut i: usize = 0;
    while i < outcomes.len()
        invariant
            i <= outcomes.len(),
            unstated_sum(outcomes@) <= usize::MAX,
            n == unstated_sum(outcomes@.take(i as int)),
        decreases outcomes.len() - i,
    {
        proof {
            assert(outcomes@.take(i + 1).drop_last() =~= outcomes@.take(i as int));
            lemma_unstated_grows(outcomes@, i + 1);
        }
        n = n + outcomes[i].hidden.unstated;
        i = i + 1;
    }
    proof {
        assert(outcomes@.take(i as int) =~= outcomes@);
    }
    n
}

/// A prefix of outcomes hid no more unstated records than the whole.
proof fn lemma_unstated_grows(os: Seq<EngineOutcome>, k: int)
    requires
        0 <= k <= os.len(),
    ensures
        unstated_sum(os.take(k)) <= unstated_sum(os),
    decreases os.len() - k,
{
    if k < os.len() {
        lemma_unstated_grows(os, k + 1);
        assert(os.take(k + 1).drop_last() =~= os.take(k));
    } else {
        assert(os.take(k) =~= os);
    }
}

/// A note as plain values.
pub type NoteTriple = (Seq<char>, Seq<char>, Seq<Seq<char>>);

/// The index of the first note with this kind and message, from `from` on.
pub open spec fn same_note_from(m: Seq<NoteTriple>, kind: Seq<char>, message: Seq<char>, from: int) -> Option<int>
    decreases m.len() - from,
{
    if from < 0 || from >= m.len() {
        None
    } else if m[from].0 == kind && m[from].1 == message {
        Some(from)
    } else {
        same_note_from(m, kind, message, from + 1)
    }
}

/// The notes folded: notes with the same kind and message become the first of them,
/// naming the records of all of them in order. Four records that hit one limitation are
/// one note about four records.
pub open spec fn folded_notes(ns: Seq<NoteTriple>) -> Seq<NoteTriple>
    decreases ns.len(),
{
    if ns.len() == 0 {
        Seq::empty()
    } else {
        let m = folded_notes(ns.drop_last());
        let n = ns.last();
        match same_note_from(m, n.0, n.1, 0) {
            Some(i) => m.update(i, (m[i].0, m[i].1, m[i].2 + n.2)),
            None => m.push(n),
        }
    }
}

/// The first kept note with the same kind and message.
fn find_same(kept: &Vec<Note>, kind: &str, message: &str) -> (r: Option<usize>)
    ensures
        match r {
            Some(i) => i < kept@.len() && same_note_from(crate::engine::kobv::note_list(kept@), kind@, message@, 0) == Some(i as int),
            None => same_note_from(crate::engine::kobv::note_list(kept@), kind@, message@, 0) is None,
        },
{
    let ghost m = crate::engine::kobv::note_list(kept@);
    let mut i: usize = 0;
    while i < kept.len()
        invariant
            i <= kept.len(),
            m == crate::engine::kobv::note_list(kept@),
            same_note_from(m, kind@, message@, 0) == same_note_from(m, kind@, message@, i as int),
        decreases kept.len() - i,
    {
        if same_text(kept[i].kind.as_str(), kind) && same_text(kept[i].message.as_str(), message) {
            return Some(i);
        }
        i = i + 1;
    }
    None
}

impl Note {
    /// Fold notes with the same kind and message into the first of them: one limitation
    /// that several records hit is one note naming all of them.
    pub fn merged(notes: Vec<Note>) -> (v: Vec<Note>)
        ensures
            crate::engine::kobv::note_list(v@) == folded_notes(crate::engine::kobv::note_list(notes@)),
    {
        let ghost orig = notes@;
        let ghost all = crate::engine::kobv::note_list(orig);
        let n = notes.len();
        let mut rest = notes;
        let mut kept: Vec<Note> = Vec::new();
        let mut c: usize = 0;
        proof {
            assert(all.take(0) =~= Seq::<NoteTriple>::empty());
        }
        while rest.len() > 0
            invariant
                c + rest@.len() == orig.len(),
                n == orig.len(),
                rest@ == orig.skip(c as int),
                all == crate::engine::kobv::note_list(orig),
                crate::engine::kobv::note_list(kept@) == folded_notes(all.take(c as int)),
            decreases rest@.len(),
        {
            let note = rest.remove(0);
            proof {
                assert(note == orig[c as int]);
                assert(orig.skip(c as int).remove(0) =~= orig.skip(c + 1));
                assert(all.take(c + 1).drop_last() =~= all.take(c as int));
                assert(all.take(c + 1).last() == crate::engine::kobv::note_view(note));
            }
            let ghost m = crate::engine::kobv::note_list(kept@);
            match find_same(&kept, note.kind.as_str(), note.message.as_str()) {
                Some(i) => {
                    let ghost kept0 = kept@;
                    let mut target = kept.remove(i);
                    let ghost t0 = target;
                    let ghost old_ids = crate::model::id_views(target.records@);
                    proof {
                        assert(t0 == kept0[i as int]);
                        assert(crate::engine::kobv::note_view(t0) == m[i as int]);
                    }
                    let mut k: usize = 0;
                    while k < note.records.len()
                        invariant
                            k <= note.records.len(),
                            target.kind == t0.kind,
                            target.message == t0.message,
                            crate::model::id_views(target.records@) == old_ids + crate::model::id_views(note.records@).take(k as int),
                        decreases note.records.len() - k,
                    {
                        let ghost before = target.records@;
                        let id = note.records[k].copy();
                        target.records.push(id);
                        proof {
                            assert(crate::model::id_views(target.records@) =~= crate::model::id_views(before).push(id.id_spec()));
                            assert(crate::model::id_views(note.records@).take(k + 1) =~= crate::model::id_views(note.records@).take(k as int).push(
                                note.records@[k as int].id_spec(),
                            ));
                        }
                        k = k + 1;
                    }
                    proof {
                        assert(crate::model::id_views(note.records@).take(k as int) =~= crate::model::id_views(note.records@));
                    }
                    kept.insert(i, target);
                    proof {
                        assert(kept@ =~= kept0.update(i as int, target));
                        assert(crate::engine::kobv::note_view(target) == (m[i as int].0, m[i as int].1, m[i as int].2 + crate::model::id_views(note.records@)));
                        assert(crate::engine::kobv::note_list(kept@) =~= m.update(i as int, (m[i as int].0, m[i as int].1, m[i as int].2 + crate::model::id_views(note.records@))));
                    }
                },
                None => {
                    kept.push(note);
                    proof {
                        assert(crate::engine::kobv::note_list(kept@) =~= m.push(crate::engine::kobv::note_view(note)));
                    }
                },
            }
            c = c + 1;
        }
        proof {
            assert(all.take(c as int) =~= all);
        }
        kept
    }
}

/// The message for locations not searched because the window lies deeper than voebb.de
/// can be paged.
pub open spec fn too_deep_message(keys: Seq<Seq<char>>, position: nat, max: nat) -> Seq<char> {
    crate::error::join_comma(keys) + ": voebb.de serves a result list only up to position "@ + decimal_spec(max)
        + ", and this page reaches position "@ + decimal_spec(position) + ", so nothing was asked there"@
}

/// The note for the locations `--at` names that were not searched because the window
/// lies deeper than their catalogue can be paged. None when there are none.
pub fn window_too_deep_note(keys: &Vec<String>, position: u32, max: u32) -> (r: Option<Note>)
    ensures
        match r {
            Some(n) => keys@.len() > 0 && n.kind@ == "location_window_too_deep"@ && n.message@ == too_deep_message(
                string_views(keys@),
                position as nat,
                max as nat,
            ) && n.records@.len() == 0,
            None => keys@.len() == 0,
        },
{
    if keys.len() == 0 {
        return None;
    }
    let names = crate::error::join_with_comma(keys);
    let m = decimal(max as u64);
    let p = decimal(position as u64);
    let parts = vec![
        names.as_str(),
        ": voebb.de serves a result list only up to position ",
        m.as_str(),
        ", and this page reaches position ",
        p.as_str(),
        ", so nothing was asked there",
    ];
    proof {
        reveal_with_fuel(flatten, 7);
        assert(views(parts@) =~= seq![
            names@,
            ": voebb.de serves a result list only up to position "@,
            decimal_spec(max as nat),
            ", and this page reaches position "@,
            decimal_spec(position as nat),
            ", so nothing was asked there"@,
        ]);
    }
    Some(Note::new("location_window_too_deep", cat(parts)))
}

/// The message for locations whose window begins past their last result.
pub open spec fn past_last_message(keys: Seq<Seq<char>>) -> Seq<char> {
    crate::error::join_comma(keys) + ": this page begins after the last result there, so nothing was asked"@
}

/// The note for the locations of an engine whose every window began past its last
/// result. None when there are none.
pub fn past_the_last_result_note(refused: &Vec<String>) -> (r: Option<Note>)
    ensures
        match r {
            Some(n) => refused@.len() > 0 && n.kind@ == "location_past_last_result"@ && n.message@ == past_last_message(
                string_views(refused@),
            ) && n.records@.len() == 0,
            None => refused@.len() == 0,
        },
{
    if refused.len() == 0 {
        return None;
    }
    let names = crate::error::join_with_comma(refused);
    let message = crate::text::concat(names.as_str(), ": this page begins after the last result there, so nothing was asked");
    Some(Note::new("location_past_last_result", message))
}

/// The records of all outcomes, engine by engine.
pub open spec fn all_records(os: Seq<EngineOutcome>) -> Seq<crate::model::RecordView>
    decreases os.len(),
{
    if os.len() == 0 {
        Seq::empty()
    } else {
        all_records(os.drop_last()) + record_views(os.last().search.records@)
    }
}

/// The notes of all outcomes, engine by engine.
pub open spec fn all_notes(os: Seq<EngineOutcome>) -> Seq<Note>
    decreases os.len(),
{
    if os.len() == 0 {
        Seq::empty()
    } else {
        all_notes(os.drop_last()) + os.last().search.notes@
    }
}

/// A note that may be there, as a list.
pub open spec fn maybe(n: Option<Note>) -> Seq<NoteTriple> {
    match n {
        Some(x) => seq![crate::engine::kobv::note_view(x)],
        None => Seq::empty(),
    }
}

/// A note that may be there, as a list.
fn push_maybe(notes: &mut Vec<Note>, n: Option<Note>)
    ensures
        crate::engine::kobv::note_list(final(notes)@) == crate::engine::kobv::note_list(old(notes)@) + maybe(n),
{
    let ghost before = notes@;
    let ghost g = n;
    match n {
        Some(x) => {
            notes.push(x);
            proof {
                assert(crate::engine::kobv::note_list(notes@) =~= crate::engine::kobv::note_list(before) + maybe(g));
            }
        },
        None => {
            proof {
                assert(crate::engine::kobv::note_list(notes@) =~= crate::engine::kobv::note_list(before) + maybe(g));
            }
        },
    }
}

/// The strings of a list of texts.
fn owned_all(v: &Vec<&str>) -> (w: Vec<String>)
    ensures
        string_views(w@) == views(v@),
{
    let mut w: Vec<String> = Vec::new();
    let mut i: usize = 0;
    while i < v.len()
        invariant
            i <= v.len(),
            string_views(w@) == views(v@).take(i as int),
        decreases v.len() - i,
    {
        let ghost before = w@;
        w.push(owned(v[i]));
        proof {
            assert(string_views(w@) =~= string_views(before).push(v@[i as int]@));
            assert(views(v@).take(i + 1) =~= views(v@).take(i as int).push(v@[i as int]@));
        }
        i = i + 1;
    }
    proof {
        assert(views(v@).take(i as int) =~= views(v@));
    }
    w
}

/// The notes a result carries before they are folded: the locations past their last
/// result, the locations too deep to be paged, the records `--available` hid without a
/// statement, an empty window filter, then the engines' own.
pub open spec fn result_notes(plan: Plan, refused: Seq<Seq<char>>, too_deep: Option<Note>, past: Option<Note>, unstated: Option<Note>, filter: Option<Note>, engine_notes: Seq<Note>) -> Seq<NoteTriple> {
    maybe(past) + maybe(too_deep) + maybe(unstated) + maybe(filter) + crate::engine::kobv::note_list(engine_notes)
}

/// Put the engines' answers together into one result: the blocks of every location of
/// `--at`, the window counts summed, the KOBV total and query when there was one KOBV
/// search, every record engine by engine, and the notes — the refused locations first,
/// then the unstated records, an empty window filter, and the engines' own — folded so
/// that one limitation is one note.
pub fn assemble_result(plan: &Plan, outcomes: Vec<EngineOutcome>, refused: Vec<String>, unstated: usize) -> (r: SearchResult)
    requires
        sums_fit(outcomes@),
    ensures
        r.query.terms@ == plan.terms_echo@,
        match first_kobv(outcomes@) {
            Some(i) => r.total == outcomes@[i].search.total && crate::engine::kobv::opt_text(r.query.pqf) == crate::engine::kobv::opt_text(outcomes@[i].search.query_echo),
            None => r.total is None && r.query.pqf is None,
        },
        r.shown == r.records@.len(),
        record_views(r.records@) == all_records(outcomes@),
        r.page == plan.page,
        r.limit == plan.limit.value(),
        r.sort.by == plan.sort,
        r.window.fetched == fetched_sum(outcomes@),
        r.window.after_filter == after_filter_sum(outcomes@),
        r.window.filtered == plan.filters.is_active_spec(),
        r.window.undelivered == undelivered_sum(outcomes@),
        block_views(r.at@) == at_blocks_spec(location_views(plan.locations@), outcomes@, string_views(refused@), too_deep_view(plan.too_deep)),
        r.availability == plan.availability,
        exists|too_deep: Option<Note>, past: Option<Note>, un: Option<Note>, filter: Option<Note>|
            #[trigger] crate::engine::kobv::note_list(r.notes@) == folded_notes(result_notes(*plan, string_views(refused@), too_deep, past, un, filter, all_notes(outcomes@)))
            && (past matches Some(n) ==> n.message@ == past_last_message(string_views(refused@)))
            && (past is None <==> refused@.len() == 0)
            && (plan.too_deep is None ==> too_deep is None)
            && (un is None <==> unstated == 0),
{
    let engines = plan.engines();
    let at = at_blocks(plan, &outcomes, &refused);
    let window = window_of(plan.filters.is_active(), &outcomes);
    let (total, pqf) = kobv_answer(&outcomes);
    let ghost os = outcomes@;
    let mut engine_notes: Vec<Note> = Vec::new();
    let mut records: Vec<crate::model::Record> = Vec::new();
    let n = outcomes.len();
    let mut rest = outcomes;
    let mut c: usize = 0;
    proof {
        assert(os.take(0) =~= Seq::<EngineOutcome>::empty());
    }
    while rest.len() > 0
        invariant
            c + rest@.len() == os.len(),
            n == os.len(),
            rest@ == os.skip(c as int),
            record_views(records@) == all_records(os.take(c as int)),
            engine_notes@ == all_notes(os.take(c as int)),
        decreases rest@.len(),
    {
        let o = rest.remove(0);
        proof {
            assert(o == os[c as int]);
            assert(os.skip(c as int).remove(0) =~= os.skip(c + 1));
            assert(os.take(c + 1).drop_last() =~= os.take(c as int));
            assert(os.take(c + 1).last() == o);
        }
        let EngineOutcome { search, after_filter: _, before_available: _, hidden: _ } = o;
        let EngineSearch { engine: _, total: _, fetched: _, undelivered: _, at: _, records: mut found, query_echo: _, notes: mut said } = search;
        let ghost r0 = records@;
        let ghost f0 = found@;
        let ghost e0 = engine_notes@;
        let ghost s0 = said@;
        records.append(&mut found);
        engine_notes.append(&mut said);
        proof {
            assert(record_views(records@) =~= record_views(r0) + record_views(f0));
            assert(engine_notes@ =~= e0 + s0);
        }
        c = c + 1;
    }
    proof {
        assert(os.take(c as int) =~= os);
    }
    let mut notes: Vec<Note> = Vec::new();
    let past = past_the_last_result_note(&refused);
    let ghost gpast = past;
    push_maybe(&mut notes, past);
    let too_deep = match &plan.too_deep {
        Some(t) => {
            let keys = too_deep_keys(&plan.locations, t);
            let names = owned_all(&keys);
            window_too_deep_note(&names, t.position, t.max)
        },
        None => None,
    };
    let ghost gdeep = too_deep;
    push_maybe(&mut notes, too_deep);
    let online = unstated_online(&engine_notes);
    let un = unstated_note(unstated, online);
    let ghost gun = un;
    push_maybe(&mut notes, un);
    let filter_note = window_filter_note(&plan.filters, &window);
    let ghost gfilter = filter_note;
    push_maybe(&mut notes, filter_note);
    let ghost before_engine = notes@;
    let ghost en = engine_notes@;
    notes.append(&mut engine_notes);
    proof {
        assert(crate::engine::kobv::note_list(notes@) =~= crate::engine::kobv::note_list(before_engine) + crate::engine::kobv::note_list(en));
        assert(crate::engine::kobv::note_list(notes@) =~= result_notes(*plan, string_views(refused@), gdeep, gpast, gun, gfilter, all_notes(os)));
    }
    let folded = Note::merged(notes);
    let shown = records.len();
    let r = SearchResult {
        query: crate::model::QueryEcho { terms: owned(plan.terms_echo.as_str()), pqf },
        total,
        shown,
        page: plan.page,
        limit: plan.limit.get() as usize,
        sort: crate::model::SortSpec { by: plan.sort, scope: crate::model::SortScope::Fetched },
        window,
        engines,
        at,
        availability: plan.availability,
        notes: folded,
        records,
    };
    proof {
        assert(crate::engine::kobv::note_list(r.notes@) == folded_notes(result_notes(*plan, string_views(refused@), gdeep, gpast, gun, gfilter, all_notes(os))));
    }
    r
}

} // verus!
