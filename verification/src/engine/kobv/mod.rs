//! The KOBV union catalogue, over SRU.
//!
//! The SRU endpoint answers the search, always as PQF via `x-pquery`, because PQF is the
//! only way to reach Bib-1 attribute `1044` (ISIL) and thus to filter by holdings
//! upstream. HTTP 200 means nothing here: diagnostics, silent truncation and phantom
//! records all arrive with it.
pub mod client;
pub mod parse;
pub mod pqf;

use vstd::prelude::*;
use crate::error::{Error, UnexpectedView};
use crate::http::Fetch;
use crate::libraries::{name_holding, named_holding};
use crate::model::{
    block_views, holding_views, id_views, AtBlock, AtBlockView, Engine, EngineSearch,
    FetchWindow, Holding, HoldingView, Isil, Location, Note, QuerySpec, Record, RecordId,
    SearchRequest, SruPageSize,
};
use crate::text::same_text;
use crate::xml::xml_nodes;
use client::KobvClient;
use parse::marc::{marc_spec, MarcRecord};
use parse::record::{from_marc, record_spec};
use parse::sru::{record_notes, record_views, PayloadView, RecordPayload, SruResponse};
use pqf::Pqf;

verus! {

/// How many records beyond the page one SRU search asks for.
///
/// The catalogue delivers the same record twice inside one window, and a window of
/// exactly `--limit` records then has nothing left to put in the place of the repeat the
/// dedup drops. Five covers a window in which a fifth of the records are repeats, and it
/// costs no extra request: SRU serves the whole window in one response.
pub const OVERDRAW: u32 = 5;

/// The window to send, given the window the user asked for: [`OVERDRAW`] records wider,
/// clamped at the largest window the service serves, `start` untouched.
pub fn overdrawn(window: FetchWindow) -> (w: FetchWindow)
    ensures
        w.start == window.start,
        w.size.value() == SruPageSize::clamp_spec(window.size.value() + OVERDRAW as nat),
{
    let size = window.size.get() as u32 + OVERDRAW;
    FetchWindow { start: window.start, size: SruPageSize::new(size) }
}

/// The record of a MARC payload, once converted and named: every holding whose ISIL the
/// library list knows carries the institution's name.
pub open spec fn converted(xml: Seq<char>) -> Result<crate::model::RecordView, UnexpectedView> {
    match marc_spec(xml, xml_nodes(xml)) {
        Err(e) => Err(e),
        Ok(m) => match record_spec(m) {
            Err(e) => Err(e),
            Ok(r) => Ok(crate::model::RecordView { holdings: r.holdings.map_values(|h: HoldingView| named_holding(h)), ..r }),
        },
    }
}

/// The delivered MARC records of a response, converted, in order; the first record that
/// cannot be converted fails the whole response. Slots that are not MARC are skipped:
/// they are counted and explained elsewhere.
pub open spec fn records_spec(rs: Seq<parse::sru::RecordView>) -> Result<Seq<crate::model::RecordView>, UnexpectedView>
    decreases rs.len(),
{
    if rs.len() == 0 {
        Ok(Seq::empty())
    } else {
        match records_spec(rs.drop_last()) {
            Err(e) => Err(e),
            Ok(done) => match rs.last().payload {
                PayloadView::Marc(xml) => match converted(xml) {
                    Err(e) => Err(e),
                    Ok(r) => Ok(done.push(r)),
                },
                _ => Ok(done),
            },
        }
    }
}

/// The views of a list of records.
pub open spec fn record_list(v: Seq<Record>) -> Seq<crate::model::RecordView> {
    v.map_values(|r: Record| r.view())
}

/// Add the library list's names to every holding.
fn name_libraries(holdings: &mut Vec<Holding>)
    ensures
        holding_views(final(holdings)@) == holding_views(old(holdings)@).map_values(|h: HoldingView| named_holding(h)),
{
    let ghost start = holding_views(holdings@);
    let mut i: usize = 0;
    while i < holdings.len()
        invariant
            i <= holdings.len(),
            holdings.len() == start.len(),
            forall|k: int| 0 <= k < i ==> (#[trigger] holdings@[k]).view() == named_holding(start[k]),
            forall|k: int| i <= k < holdings.len() ==> (#[trigger] holdings@[k]).view() == start[k],
        decreases holdings.len() - i,
    {
        let mut h = holdings.remove(i);
        name_holding(&mut h);
        holdings.insert(i, h);
        i = i + 1;
    }
    proof {
        assert(holding_views(holdings@) =~= start.map_values(|h: HoldingView| named_holding(h)));
    }
}

/// The delivered MARC records, converted and named.
pub fn records(response: &SruResponse) -> (r: Result<Vec<Record>, Error>)
    ensures
        match r {
            Ok(v) => records_spec(record_views(response.records@)) == Ok::<Seq<crate::model::RecordView>, UnexpectedView>(record_list(v@)),
            Err(Error::Unexpected(e)) => records_spec(record_views(response.records@)) == Err::<Seq<crate::model::RecordView>, UnexpectedView>(e@),
            Err(_) => false,
        },
{
    let ghost rs = record_views(response.records@);
    let mut out: Vec<Record> = Vec::new();
    let mut i: usize = 0;
    proof {
        assert(rs.take(0) =~= Seq::<parse::sru::RecordView>::empty());
        assert(record_list(out@) =~= Seq::<crate::model::RecordView>::empty());
    }
    while i < response.records.len()
        invariant
            i <= response.records.len(),
            rs == record_views(response.records@),
            records_spec(rs.take(i as int)) == Ok::<Seq<crate::model::RecordView>, UnexpectedView>(record_list(out@)),
        decreases response.records.len() - i,
    {
        proof {
            assert(rs.take(i + 1).drop_last() =~= rs.take(i as int));
            assert(rs.take(i + 1).last() == response.records@[i as int].view());
        }
        match &response.records[i].payload {
            RecordPayload::Marc(xml) => {
                let marc = match MarcRecord::parse(xml.as_str()) {
                    Ok(m) => m,
                    Err(e) => {
                        proof {
                            lemma_records_error_sticks(rs, i as int + 1);
                        }
                        return Err(e);
                    },
                };
                let mut record = match from_marc(&marc) {
                    Ok(r) => r,
                    Err(e) => {
                        proof {
                            lemma_records_error_sticks(rs, i as int + 1);
                        }
                        return Err(e);
                    },
                };
                name_libraries(&mut record.holdings);
                let ghost before = out@;
                let ghost rv = record.view();
                out.push(record);
                proof {
                    assert(record_list(out@) =~= record_list(before).push(rv));
                }
            },
            _ => {},
        }
        i = i + 1;
    }
    proof {
        assert(rs.take(i as int) =~= rs);
    }
    Ok(out)
}

/// Once the records of a prefix fail to convert, so do the records of the whole list.
proof fn lemma_records_error_sticks(rs: Seq<parse::sru::RecordView>, k: int)
    requires
        0 <= k <= rs.len(),
        records_spec(rs.take(k)) is Err,
    ensures
        records_spec(rs) == records_spec(rs.take(k)),
    decreases rs.len() - k,
{
    if k < rs.len() {
        assert(rs.take(k + 1).drop_last() =~= rs.take(k));
        lemma_records_error_sticks(rs, k + 1);
    } else {
        assert(rs.take(k) =~= rs);
    }
}


/// How many slots of the result list are not a MARC record.
pub open spec fn undelivered_spec(rs: Seq<parse::sru::RecordView>) -> nat
    decreases rs.len(),
{
    if rs.len() == 0 {
        0
    } else {
        undelivered_spec(rs.drop_last()) + if rs.last().payload is Marc {
            0nat
        } else {
            1nat
        }
    }
}

/// How many slots of the result list arrived empty: a surrogate diagnostic or a schema
/// that cannot be read. Never the shortfall against `maximumRecords`, which is normal.
pub fn undelivered(response: &SruResponse) -> (n: usize)
    ensures
        n == undelivered_spec(record_views(response.records@)),
{
    let ghost rs = record_views(response.records@);
    let mut n: usize = 0;
    let mut i: usize = 0;
    while i < response.records.len()
        invariant
            i <= response.records.len(),
            rs == record_views(response.records@),
            n == undelivered_spec(rs.take(i as int)),
            n <= i,
        decreases response.records.len() - i,
    {
        proof {
            assert(rs.take(i + 1).drop_last() =~= rs.take(i as int));
            assert(rs.take(i + 1).last() == response.records@[i as int].view());
        }
        match &response.records[i].payload {
            RecordPayload::Marc(_) => {},
            _ => {
                n = n + 1;
            },
        }
        i = i + 1;
    }
    proof {
        assert(rs.take(i as int) =~= rs);
    }
    n
}

/// The ISILs of a list of locations, each once, in the user's order.
pub open spec fn isils_spec(ls: Seq<crate::libraries::LocView>) -> Seq<Seq<char>>
    decreases ls.len(),
{
    if ls.len() == 0 {
        Seq::empty()
    } else {
        let done = isils_spec(ls.drop_last());
        if done.contains(ls.last().isil) {
            done
        } else {
            done.push(ls.last().isil)
        }
    }
}

/// The views of a list of ISILs.
pub open spec fn isil_views(v: Seq<Isil>) -> Seq<Seq<char>> {
    v.map_values(|i: Isil| i.0@)
}

/// The ISILs this engine has to search, deduplicated, in the user's order: one search
/// runs per entry, so two aliases of the same institution are asked once.
pub fn filter_isils(locations: &Vec<Location>) -> (v: Vec<Isil>)
    ensures
        isil_views(v@) == isils_spec(crate::cli::location_views(locations@)),
{
    let ghost ls = crate::cli::location_views(locations@);
    let mut v: Vec<Isil> = Vec::new();
    let mut i: usize = 0;
    proof {
        assert(isil_views(v@) =~= Seq::<Seq<char>>::empty());
    }
    while i < locations.len()
        invariant
            i <= locations.len(),
            ls == crate::cli::location_views(locations@),
            isil_views(v@) == isils_spec(ls.take(i as int)),
        decreases locations.len() - i,
    {
        proof {
            assert(ls.take(i + 1).drop_last() =~= ls.take(i as int));
            assert(ls.take(i + 1).last() == locations@[i as int].view());
        }
        let isil = locations[i].isil.as_str();
        let mut j: usize = 0;
        let mut seen = false;
        while j < v.len() && !seen
            invariant
                j <= v.len(),
                seen ==> isil_views(v@).contains(isil@),
                !seen ==> forall|q: int| 0 <= q < j ==> v@[q].0@ != isil@,
            decreases v.len() - j,
        {
            if same_text(v[j].as_str(), isil) {
                proof {
                    assert(isil_views(v@)[j as int] == isil@);
                }
                seen = true;
            }
            j = j + 1;
        }
        proof {
            if !seen && isil_views(v@).contains(isil@) {
                let q = choose|q: int| 0 <= q < isil_views(v@).len() && isil_views(v@)[q] == isil@;
                assert(v@[q].0@ == isil@);
            }
        }
        if !seen {
            let ghost before = v@;
            v.push(Isil::new(isil));
            proof {
                assert(isil_views(v@) =~= isil_views(before).push(isil@));
            }
        }
        i = i + 1;
    }
    proof {
        assert(ls.take(i as int) =~= ls);
    }
    v
}

/// Records added in order, each unless a record with the same id is already there.
pub open spec fn merged_records(kept: Seq<crate::model::RecordView>, found: Seq<crate::model::RecordView>) -> Seq<crate::model::RecordView>
    decreases found.len(),
{
    if found.len() == 0 {
        kept
    } else {
        let done = merged_records(kept, found.drop_last());
        if exists|k: int| 0 <= k < done.len() && (#[trigger] done[k]).id == found.last().id {
            done
        } else {
            done.push(found.last())
        }
    }
}

/// Add one location's records to the engine's list, skipping the ones already there:
/// the document is record-centric, and a record appears once however many blocks show
/// it.
pub fn merge_records(records: &mut Vec<Record>, found: Vec<Record>)
    ensures
        record_list(final(records)@) == merged_records(record_list(old(records)@), record_list(found@)),
{
    let ghost start = record_list(records@);
    let ghost fv = record_list(found@);
    let mut found = found;
    let mut rest: Vec<Record> = Vec::new();
    while found.len() > 0
        invariant
            fv.len() == found.len() + rest.len(),
            forall|k: int| 0 <= k < found.len() ==> (#[trigger] found@[k]).view() == fv[k],
            forall|k: int| 0 <= k < rest.len() ==> (#[trigger] rest@[k]).view() == fv[fv.len() - 1 - k],
        decreases found.len(),
    {
        let r = found.pop().unwrap();
        rest.push(r);
    }
    let mut i: usize = 0;
    let n = rest.len();
    proof {
        assert(fv.take(0) =~= Seq::<crate::model::RecordView>::empty());
    }
    while rest.len() > 0
        invariant
            i + rest.len() == n,
            n == fv.len(),
            forall|k: int| 0 <= k < rest.len() ==> (#[trigger] rest@[k]).view() == fv[fv.len() - 1 - k],
            record_list(records@) == merged_records(start, fv.take(i as int)),
        decreases rest.len(),
    {
        let r = rest.pop().unwrap();
        proof {
            assert(r.view() == fv[i as int]);
            assert(fv.take(i + 1).drop_last() =~= fv.take(i as int));
        }
        let ghost done = record_list(records@);
        let mut k: usize = 0;
        let mut there = false;
        while k < records.len() && !there
            invariant
                k <= records.len(),
                done == record_list(records@),
                there ==> exists|q: int| 0 <= q < done.len() && (#[trigger] done[q]).id == r.view().id,
                !there ==> forall|q: int| 0 <= q < k ==> done[q].id != r.view().id,
            decreases records.len() - k,
        {
            if same_text(records[k].id.as_str(), r.id.as_str()) {
                proof {
                    assert(done[k as int].id == r.view().id);
                }
                there = true;
            }
            k = k + 1;
        }
        if !there {
            let ghost rv = r.view();
            records.push(r);
            proof {
                assert(record_list(records@) =~= done.push(rv));
            }
        }
        i = i + 1;
    }
    proof {
        assert(fv.take(i as int) =~= fv);
    }
}


/// Where a value first occurs in a list.
pub open spec fn first_pos(s: Seq<Seq<char>>, x: Seq<char>) -> Option<int> {
    if s.contains(x) {
        Some(choose|i: int| 0 <= i < s.len() && s[i] == x && forall|j: int| 0 <= j < i ==> s[j] != x)
    } else {
        None
    }
}

/// One location's block: the search that was run for its ISIL gives the records and,
/// for a house, the total. A branch block states no total: the count came back for the
/// house, and printing it under a branch would claim a number nobody counted.
pub open spec fn block_of(l: crate::libraries::LocView, isils: Seq<Seq<char>>, per: Seq<(u64, Seq<Seq<char>>)>) -> AtBlockView {
    let found = match first_pos(isils, l.isil) {
        Some(i) => if i < per.len() {
            Some(per[i])
        } else {
            None
        },
        None => None,
    };
    AtBlockView {
        key: l.key,
        given: l.given,
        isil: l.isil,
        branch: match l.branch {
            Some(b) => Some(b.kobvid),
            None => None,
        },
        engine: Engine::Kobv,
        total: match found {
            Some(f) => if l.branch is None {
                Some(f.0)
            } else {
                None
            },
            None => None,
        },
        records: match found {
            Some(f) => f.1,
            None => Seq::empty(),
        },
        refused: None,
    }
}

/// The views of the per-ISIL answers.
pub open spec fn per_views(v: Seq<(u64, Vec<RecordId>)>) -> Seq<(u64, Seq<Seq<char>>)> {
    v.map_values(|p: (u64, Vec<RecordId>)| (p.0, id_views(p.1@)))
}

/// A copy of a list of ids.
fn copy_ids(ids: &Vec<RecordId>) -> (v: Vec<RecordId>)
    ensures
        id_views(v@) == id_views(ids@),
{
    let mut v: Vec<RecordId> = Vec::new();
    let mut i: usize = 0;
    while i < ids.len()
        invariant
            i <= ids.len(),
            id_views(v@) == id_views(ids@.take(i as int)),
        decreases ids.len() - i,
    {
        let ghost before = v@;
        v.push(ids[i].copy());
        proof {
            assert(id_views(v@) =~= id_views(before).push(ids@[i as int].id_spec()));
            assert(id_views(ids@.take(i + 1)) =~= id_views(ids@.take(i as int)).push(ids@[i as int].id_spec()));
        }
        i = i + 1;
    }
    proof {
        assert(ids@.take(i as int) =~= ids@);
    }
    v
}

/// One block per location, in the order the user gave them.
pub fn at_blocks(locations: &Vec<Location>, isils: &Vec<Isil>, per_isil: &Vec<(u64, Vec<RecordId>)>) -> (v: Vec<AtBlock>)
    ensures
        block_views(v@) == crate::cli::location_views(locations@).map_values(
            |l: crate::libraries::LocView| block_of(l, isil_views(isils@), per_views(per_isil@)),
        ),
{
    let ghost ls = crate::cli::location_views(locations@);
    let ghost iv = isil_views(isils@);
    let ghost pv = per_views(per_isil@);
    let mut v: Vec<AtBlock> = Vec::new();
    let mut i: usize = 0;
    while i < locations.len()
        invariant
            i <= locations.len(),
            ls == crate::cli::location_views(locations@),
            iv == isil_views(isils@),
            pv == per_views(per_isil@),
            v.len() == i,
            forall|k: int| 0 <= k < i ==> (#[trigger] v@[k]).view() == block_of(ls[k], iv, pv),
        decreases locations.len() - i,
    {
        let location = &locations[i];
        proof {
            assert(ls[i as int] == location.view());
        }
        let mut j: usize = 0;
        while j < isils.len() && !same_text(isils[j].as_str(), location.isil.as_str())
            invariant
                j <= isils.len(),
                iv == isil_views(isils@),
                forall|q: int| 0 <= q < j ==> iv[q] != location.isil.0@,
            decreases isils.len() - j,
        {
            j = j + 1;
        }
        proof {
            if j < isils.len() {
                assert(iv[j as int] == location.isil.0@);
                assert(iv.contains(location.isil.0@));
                let w = choose|w: int| 0 <= w < iv.len() && iv[w] == location.isil.0@ && forall|q: int| 0 <= q < w ==> iv[q] != location.isil.0@;
                if w < j {
                } else if w > j {
                    assert(iv[j as int] == location.isil.0@);
                }
                assert(first_pos(iv, location.isil.0@) == Some(j as int));
            } else {
                assert(!iv.contains(location.isil.0@));
            }
        }
        let found: Option<&(u64, Vec<RecordId>)> = if j < isils.len() && j < per_isil.len() {
            Some(&per_isil[j])
        } else {
            None
        };
        proof {
            if j < isils.len() && j < per_isil.len() {
                assert(pv[j as int] == (per_isil@[j as int].0, id_views(per_isil@[j as int].1@)));
            }
        }
        let block = AtBlock {
            key: location.key.clone(),
            given: location.given.clone(),
            isil: Isil::new(location.isil.as_str()),
            branch: match &location.branch {
                Some(b) => Some(b.kobvid.clone()),
                None => None,
            },
            engine: Engine::Kobv,
            total: match found {
                Some(f) => if location.branch.is_none() {
                    Some(f.0)
                } else {
                    None
                },
                None => None,
            },
            records: match found {
                Some(f) => copy_ids(&f.1),
                None => Vec::new(),
            },
            refused: None,
        };
        proof {
            assert(block.view().records =~= block_of(ls[i as int], iv, pv).records);
        }
        v.push(block);
        i = i + 1;
    }
    proof {
        assert(block_views(v@) =~= ls.map_values(|l: crate::libraries::LocView| block_of(l, iv, pv)));
    }
    v
}


/// What one SRU search returned, before anything client-side touched it.
pub struct Found {
    /// The query that produced it, for the echo.
    pub query: Pqf,
    /// `numberOfRecords`: with an ISIL clause, the location's own total.
    pub total: u64,
    /// The delivered, converted records.
    pub records: Vec<Record>,
    /// Announced slots that arrived as something other than a MARC record.
    pub undelivered: usize,
    /// What the envelope reported about those slots.
    pub notes: Vec<Note>,
}

impl Found {
    /// The ids this search returned, in the order the catalogue ranked them.
    pub fn ids(&self) -> (v: Vec<RecordId>)
        ensures
            id_views(v@) == record_list(self.records@).map_values(|r: crate::model::RecordView| r.id),
    {
        let mut v: Vec<RecordId> = Vec::new();
        let mut i: usize = 0;
        while i < self.records.len()
            invariant
                i <= self.records.len(),
                id_views(v@) == record_list(self.records@.take(i as int)).map_values(|r: crate::model::RecordView| r.id),
            decreases self.records.len() - i,
        {
            let ghost before = v@;
            v.push(self.records[i].id.copy());
            proof {
                assert(id_views(v@) =~= id_views(before).push(self.records@[i as int].id.id_spec()));
                assert(record_list(self.records@.take(i + 1)).map_values(|r: crate::model::RecordView| r.id)
                    =~= record_list(self.records@.take(i as int)).map_values(|r: crate::model::RecordView| r.id).push(
                    self.records@[i as int].id.id_spec(),
                ));
            }
            i = i + 1;
        }
        proof {
            assert(self.records@.take(i as int) =~= self.records@);
        }
        v
    }
}

/// A note as plain values: its kind, its message and the records it names.
pub open spec fn note_view(n: Note) -> (Seq<char>, Seq<char>, Seq<Seq<char>>) {
    (n.kind@, n.message@, id_views(n.records@))
}

/// Notes added in order, each unless an equal one is already there.
pub open spec fn merged_notes(kept: Seq<(Seq<char>, Seq<char>, Seq<Seq<char>>)>, more: Seq<(Seq<char>, Seq<char>, Seq<Seq<char>>)>) -> Seq<(Seq<char>, Seq<char>, Seq<Seq<char>>)>
    decreases more.len(),
{
    if more.len() == 0 {
        kept
    } else {
        let done = merged_notes(kept, more.drop_last());
        if done.contains(more.last()) {
            done
        } else {
            done.push(more.last())
        }
    }
}

/// The views of a list of notes.
pub open spec fn note_list(v: Seq<Note>) -> Seq<(Seq<char>, Seq<char>, Seq<Seq<char>>)> {
    v.map_values(|n: Note| note_view(n))
}

/// Whether two lists of ids are equal.
fn same_ids(a: &Vec<RecordId>, b: &Vec<RecordId>) -> (r: bool)
    ensures
        r == (id_views(a@) == id_views(b@)),
{
    if a.len() != b.len() {
        proof {
            assert(id_views(a@).len() != id_views(b@).len());
        }
        return false;
    }
    let mut i: usize = 0;
    while i < a.len()
        invariant
            i <= a.len(),
            a.len() == b.len(),
            forall|k: int| 0 <= k < i ==> a@[k].id_spec() == b@[k].id_spec(),
        decreases a.len() - i,
    {
        if !same_text(a[i].as_str(), b[i].as_str()) {
            proof {
                assert(id_views(a@)[i as int] != id_views(b@)[i as int]);
            }
            return false;
        }
        i = i + 1;
    }
    proof {
        assert(id_views(a@) =~= id_views(b@));
    }
    true
}

/// Add a note unless an equal one is there: the same limitation reported by two location
/// searches is one limitation.
fn add_note(notes: &mut Vec<Note>, note: Note)
    ensures
        note_list(final(notes)@) == merged_notes(note_list(old(notes)@), seq![note_view(note)]),
{
    let ghost start = note_list(notes@);
    proof {
        assert(seq![note_view(note)].drop_last() =~= Seq::<(Seq<char>, Seq<char>, Seq<Seq<char>>)>::empty());
    }
    let mut i: usize = 0;
    while i < notes.len()
        invariant
            i <= notes.len(),
            start == note_list(notes@),
            start == note_list(old(notes)@),
            *notes == *old(notes),
            forall|k: int| 0 <= k < i ==> start[k] != note_view(note),
        decreases notes.len() - i,
    {
        if same_text(notes[i].kind.as_str(), note.kind.as_str()) && same_text(notes[i].message.as_str(), note.message.as_str())
            && same_ids(&notes[i].records, &note.records) {
            proof {
                assert(start[i as int] == note_view(note));
                assert(start.contains(note_view(note)));
                assert(seq![note_view(note)].last() == note_view(note));
                assert(seq![note_view(note)].drop_last() =~= Seq::<(Seq<char>, Seq<char>, Seq<Seq<char>>)>::empty());
                assert(merged_notes(start, Seq::<(Seq<char>, Seq<char>, Seq<Seq<char>>)>::empty()) == start);
            }
            return;
        }
        i = i + 1;
    }
    let ghost nv = note_view(note);
    notes.push(note);
    proof {
        assert(note_list(notes@) =~= start.push(nv));
        assert(!start.contains(nv));
        assert(seq![nv].last() == nv);
        assert(merged_notes(start, Seq::<(Seq<char>, Seq<char>, Seq<Seq<char>>)>::empty()) == start);
    }
}

/// A search as plain values.
pub open spec fn found_view(f: Found) -> FoundView {
    FoundView {
        query: f.query.view_text(),
        total: f.total,
        records: record_list(f.records@),
        undelivered: f.undelivered as nat,
        notes: note_list(f.notes@),
    }
}

/// The views of a list of searches.
pub open spec fn found_views(v: Seq<Found>) -> Seq<FoundView> {
    v.map_values(|f: Found| found_view(f))
}

/// A search as plain values.
pub struct FoundView {
    pub query: Seq<char>,
    pub total: u64,
    pub records: Seq<crate::model::RecordView>,
    pub undelivered: nat,
    pub notes: Seq<(Seq<char>, Seq<char>, Seq<Seq<char>>)>,
}

/// The answer of one search per location, put together.
pub struct LocatedView {
    pub records: Seq<crate::model::RecordView>,
    pub undelivered: nat,
    pub notes: Seq<(Seq<char>, Seq<char>, Seq<Seq<char>>)>,
    pub per_isil: Seq<(u64, Seq<Seq<char>>)>,
}

/// Fold the searches: records merged by id, undelivered slots counted (saturating),
/// notes deduplicated, each search's total and ids kept for its location's block.
pub open spec fn located_spec(fs: Seq<FoundView>) -> LocatedView
    decreases fs.len(),
{
    if fs.len() == 0 {
        LocatedView { records: Seq::empty(), undelivered: 0, notes: Seq::empty(), per_isil: Seq::empty() }
    } else {
        let done = located_spec(fs.drop_last());
        let f = fs.last();
        let u = done.undelivered + f.undelivered;
        LocatedView {
            records: merged_records(done.records, f.records),
            undelivered: if u > usize::MAX { usize::MAX as nat } else { u },
            notes: merged_notes(done.notes, f.notes),
            per_isil: done.per_isil.push((f.total, f.records.map_values(|r: crate::model::RecordView| r.id))),
        }
    }
}

/// What the engine answers when one search ran per location.
///
/// `total` and the PQF echo are stated only when exactly one search ran: with several
/// there is no joint hit count that is true of the answer as a whole, and the honest
/// numbers are the per-location ones in `at[]`.
pub open spec fn located_answer(locations: Seq<crate::libraries::LocView>, isils: Seq<Seq<char>>, fs: Seq<FoundView>) -> (
    Option<u64>,
    Option<Seq<char>>,
    LocatedView,
    Seq<AtBlockView>,
) {
    let l = located_spec(fs);
    (
        if fs.len() == 1 { Some(fs[0].total) } else { None },
        if fs.len() == 1 { Some(fs[0].query) } else { None },
        l,
        locations.map_values(|loc: crate::libraries::LocView| block_of(loc, isils, l.per_isil)),
    )
}

/// Put the searches of several locations together into one answer.
pub fn located(request: &SearchRequest, isils: &Vec<Isil>, searches: Vec<Found>) -> (e: EngineSearch)
    ensures
        ({
            let (total, echo, l, at) = located_answer(
                crate::cli::location_views(request.locations@),
                isil_views(isils@),
                found_views(searches@),
            );
            &&& e.engine == Engine::Kobv
            &&& e.total == total
            &&& opt_text(e.query_echo) == echo
            &&& record_list(e.records@) == l.records
            &&& e.fetched == l.records.len()
            &&& e.undelivered == l.undelivered
            &&& note_list(e.notes@) == l.notes
            &&& block_views(e.at@) == at
        }),
{
    let ghost fv = found_views(searches@);
    let total = if searches.len() == 1 { Some(searches[0].total) } else { None };
    let query_echo = if searches.len() == 1 { Some(crate::text::owned(searches[0].query.as_str())) } else { None };
    let mut records: Vec<Record> = Vec::new();
    let mut undelivered: usize = 0;
    let mut notes: Vec<Note> = Vec::new();
    let mut per_isil: Vec<(u64, Vec<RecordId>)> = Vec::new();
    let mut searches = searches;
    let mut rest: Vec<Found> = Vec::new();
    let n = searches.len();
    while searches.len() > 0
        invariant
            fv.len() == searches.len() + rest.len(),
            forall|k: int| 0 <= k < searches.len() ==> found_view(#[trigger] searches@[k]) == fv[k],
            forall|k: int| 0 <= k < rest.len() ==> found_view(#[trigger] rest@[k]) == fv[fv.len() - 1 - k],
        decreases searches.len(),
    {
        let f = searches.pop().unwrap();
        rest.push(f);
    }
    let mut i: usize = 0;
    proof {
        assert(fv.take(0) =~= Seq::<FoundView>::empty());
        assert(record_list(records@) =~= Seq::<crate::model::RecordView>::empty());
        assert(note_list(notes@) =~= Seq::<(Seq<char>, Seq<char>, Seq<Seq<char>>)>::empty());
        assert(per_views(per_isil@) =~= Seq::<(u64, Seq<Seq<char>>)>::empty());
    }
    while rest.len() > 0
        invariant
            i + rest.len() == n,
            n == fv.len(),
            forall|k: int| 0 <= k < rest.len() ==> found_view(#[trigger] rest@[k]) == fv[fv.len() - 1 - k],
            record_list(records@) == located_spec(fv.take(i as int)).records,
            undelivered == located_spec(fv.take(i as int)).undelivered,
            note_list(notes@) == located_spec(fv.take(i as int)).notes,
            per_views(per_isil@) == located_spec(fv.take(i as int)).per_isil,
        decreases rest.len(),
    {
        let ghost last = rest.len() - 1;
        let f = rest.pop().unwrap();
        proof {
            assert(found_view(f) == fv[i as int]);
            assert(fv.take(i + 1).drop_last() =~= fv.take(i as int));
            assert(fv.take(i + 1).last() == fv[i as int]);
        }
        undelivered = undelivered.saturating_add(f.undelivered);
        let ids = f.ids();
        per_isil.push((f.total, ids));
        let ghost before_notes = note_list(notes@);
        let mut more = f.notes;
        let ghost mv = note_list(more@);
        let mut back: Vec<Note> = Vec::new();
        while more.len() > 0
            invariant
                mv.len() == more.len() + back.len(),
                forall|k: int| 0 <= k < more.len() ==> note_view(#[trigger] more@[k]) == mv[k],
                forall|k: int| 0 <= k < back.len() ==> note_view(#[trigger] back@[k]) == mv[mv.len() - 1 - k],
            decreases more.len(),
        {
            let x = more.pop().unwrap();
            back.push(x);
        }
        let mut j: usize = 0;
        let m = back.len();
        proof {
            assert(mv.take(0) =~= Seq::<(Seq<char>, Seq<char>, Seq<Seq<char>>)>::empty());
        }
        while back.len() > 0
            invariant
                j + back.len() == m,
                m == mv.len(),
                forall|k: int| 0 <= k < back.len() ==> note_view(#[trigger] back@[k]) == mv[mv.len() - 1 - k],
                note_list(notes@) == merged_notes(before_notes, mv.take(j as int)),
            decreases back.len(),
        {
            let x = back.pop().unwrap();
            proof {
                assert(note_view(x) == mv[j as int]);
                assert(mv.take(j + 1).drop_last() =~= mv.take(j as int));
                lemma_merged_notes_step(before_notes, mv.take(j + 1));
            }
            add_note(&mut notes, x);
            j = j + 1;
        }
        proof {
            assert(mv.take(j as int) =~= mv);
        }
        merge_records(&mut records, f.records);
        proof {
            assert(per_views(per_isil@) =~= located_spec(fv.take(i as int)).per_isil.push(
                (fv[i as int].total, fv[i as int].records.map_values(|r: crate::model::RecordView| r.id)),
            ));
        }
        i = i + 1;
    }
    proof {
        assert(fv.take(i as int) =~= fv);
    }
    let at = at_blocks(&request.locations, isils, &per_isil);
    let fetched = records.len();
    EngineSearch { engine: Engine::Kobv, total, fetched, undelivered, at, records, query_echo, notes }
}

/// One step of folding notes.
proof fn lemma_merged_notes_step(kept: Seq<(Seq<char>, Seq<char>, Seq<Seq<char>>)>, more: Seq<(Seq<char>, Seq<char>, Seq<Seq<char>>)>)
    requires
        more.len() > 0,
    ensures
        merged_notes(kept, more) == merged_notes(merged_notes(kept, more.drop_last()), seq![more.last()]),
{
    let d = merged_notes(kept, more.drop_last());
    assert(seq![more.last()].drop_last() =~= Seq::<(Seq<char>, Seq<char>, Seq<Seq<char>>)>::empty());
    assert(merged_notes(d, Seq::<(Seq<char>, Seq<char>, Seq<Seq<char>>)>::empty()) == d);
}

/// An optional text as plain values.
pub open spec fn opt_text(o: Option<String>) -> Option<Seq<char>> {
    match o {
        Some(s) => Some(s@),
        None => None,
    }
}


/// Why a query cannot be built, when it cannot: no clause at all, or a query longer than
/// the service accepts.
pub open spec fn pqf_error(spec: QuerySpec, isils: Seq<Isil>) -> Option<crate::error::UsageError> {
    let clauses = pqf::search_clauses(spec, isils);
    let text = pqf::search_text(spec, isils);
    if clauses.len() == 0 {
        Some(crate::error::UsageError::EmptyQuery)
    } else if text.len() >= pqf::MAX_QUERY_CHARS {
        Some(crate::error::UsageError::QueryTooLong { chars: text.len() as usize })
    } else {
        None
    }
}

/// The refusal of the query that searches one institution, by its ISIL, if it is refused:
/// the holdings filter makes it non-empty, so only its length can refuse it.
pub open spec fn refused_at(q: QuerySpec, isil: Seq<char>) -> Option<crate::error::UsageError> {
    let clauses = pqf::spec_clauses(q) + seq![pqf::join_spec(seq![pqf::use_attr_spec(pqf::ATTR_ISIL as nat, isil)], "@or"@)];
    let text = pqf::join_spec(clauses, "@and"@);
    if text.len() >= pqf::MAX_QUERY_CHARS {
        Some(crate::error::UsageError::QueryTooLong { chars: text.len() as usize })
    } else {
        None
    }
}

/// The query text that searches one institution, by its ISIL.
pub open spec fn isil_query(q: QuerySpec, isil: Seq<char>) -> Seq<char> {
    pqf::join_spec(pqf::spec_clauses(q) + seq![pqf::join_spec(seq![pqf::use_attr_spec(pqf::ATTR_ISIL as nat, isil)], "@or"@)], "@and"@)
}

/// The refusal and the text of a one-institution query are those of its ISIL.
pub proof fn lemma_refused_at(q: QuerySpec, isil: Isil)
    ensures
        pqf_error(q, seq![isil]) == refused_at(q, isil.0@),
        pqf::search_text(q, seq![isil]) == isil_query(q, isil.0@),
{
    assert(pqf::isil_clauses(seq![isil]) =~= seq![pqf::use_attr_spec(pqf::ATTR_ISIL as nat, isil.0@)]);
    assert(pqf::search_clauses(q, seq![isil]) =~= pqf::spec_clauses(q) + seq![pqf::join_spec(seq![pqf::use_attr_spec(pqf::ATTR_ISIL as nat, isil.0@)], "@or"@)]);
}

/// Where an SRU answer goes wrong in a way the reader must be told about.
pub const CONTEXT: &'static str = "the SRU response";

/// The views of an optional record.
pub open spec fn opt_record(o: Option<Record>) -> Option<crate::model::RecordView> {
    match o {
        Some(r) => Some(r.view()),
        None => None,
    }
}

/// What a record lookup answers, given the checked envelope: no record when the catalogue
/// neither delivered nor counted one; an unexpected response when it counted a record it
/// did not deliver, or delivered none that converts; otherwise the first converted record.
pub open spec fn shown_spec(id: Seq<char>, resp: parse::sru::ResponseView) -> Result<Option<crate::model::RecordView>, UnexpectedView> {
    if resp.records.len() == 0 {
        if resp.number_of_records == 0 {
            Ok(None)
        } else {
            Err(UnexpectedView::MissingElement {
                what: "the record "@ + id + ", which the response counted but did not deliver"@,
                context: CONTEXT@,
            })
        }
    } else {
        match records_spec(resp.records) {
            Err(e) => Err(e),
            Ok(l) => if l.len() == 0 {
                Err(UnexpectedView::MissingElement { what: "a readable MARC record for "@ + id, context: CONTEXT@ })
            } else {
                Ok(Some(l[0]))
            },
        }
    }
}

/// The answer to a record lookup, from the checked envelope the lookup brought back.
///
/// `None` means the catalogue has no such record, which is not an error. It is answered
/// only when the service delivered nothing and announced nothing: a record that was
/// counted and arrived as something else is a failure of the response.
pub fn shown(id: &RecordId, response: &SruResponse) -> (r: Result<Option<Record>, Error>)
    ensures
        match r {
            Ok(o) => shown_spec(id.id_spec(), response.view()) == Ok::<Option<crate::model::RecordView>, UnexpectedView>(opt_record(o)),
            Err(Error::Unexpected(u)) => shown_spec(id.id_spec(), response.view()) == Err::<Option<crate::model::RecordView>, UnexpectedView>(u@),
            Err(_) => false,
        },
{
    if response.records.len() == 0 {
        if response.number_of_records == 0 {
            return Ok(None);
        }
        let parts = vec!["the record ", id.as_str(), ", which the response counted but did not deliver"];
        proof {
            reveal_with_fuel(crate::text::flatten, 4);
            assert(crate::text::views(parts@) =~= seq!["the record "@, id.id_spec(), ", which the response counted but did not deliver"@]);
        }
        return Err(Error::Unexpected(crate::error::UnexpectedError::MissingElement {
            what: crate::text::cat(parts),
            context: crate::text::owned(CONTEXT),
        }));
    }
    let mut list = records(response)?;
    if list.len() == 0 {
        let parts = vec!["a readable MARC record for ", id.as_str()];
        proof {
            reveal_with_fuel(crate::text::flatten, 3);
            assert(crate::text::views(parts@) =~= seq!["a readable MARC record for "@, id.id_spec()]);
        }
        return Err(Error::Unexpected(crate::error::UnexpectedError::MissingElement {
            what: crate::text::cat(parts),
            context: crate::text::owned(CONTEXT),
        }));
    }
    let first = list.remove(0);
    Ok(Some(first))
}

/// A search over the whole catalogue: one search, its total, its query, no blocks.
pub open spec fn answered_everywhere(request: SearchRequest, e: EngineSearch) -> bool {
    &&& e.engine == Engine::Kobv
    &&& e.total is Some
    &&& e.at@.len() == 0
    &&& e.fetched == e.records@.len()
    &&& opt_text(e.query_echo) == Some(pqf::search_text(request.query, Seq::empty()))
    &&& exists|f: FoundView| #[trigger] everywhere_with(request, e, f)
}

/// The answer one unfiltered search `f` makes of a search everywhere.
pub open spec fn everywhere_with(request: SearchRequest, e: EngineSearch, f: FoundView) -> bool {
    &&& f.query == pqf::search_text(request.query, Seq::empty())
    &&& found_from(f, request.window)
    &&& e.total == Some(f.total)
    &&& record_list(e.records@) == f.records
    &&& e.undelivered == f.undelivered
    &&& note_list(e.notes@) == f.notes
}

/// The answer the searches `fs`, one per ISIL, make of a search by location.
pub open spec fn answered_with(request: SearchRequest, isils: Seq<Seq<char>>, e: EngineSearch, fs: Seq<FoundView>) -> bool {
    let (total, echo, l, at) = located_answer(crate::cli::location_views(request.locations@), isils, fs);
    &&& fs.len() == isils.len()
    &&& e.engine == Engine::Kobv
    &&& e.total == total
    &&& opt_text(e.query_echo) == echo
    &&& record_list(e.records@) == l.records
    &&& e.fetched == l.records.len()
    &&& e.undelivered == l.undelivered
    &&& note_list(e.notes@) == l.notes
    &&& block_views(e.at@) == at
    &&& forall|k: int| 0 <= k < fs.len() ==> #[trigger] sent_for(fs[k], request.query, isils[k], request.window)
}

/// Whether a search is the one for this query at the institution with this ISIL, asked
/// over this window.
pub open spec fn sent_for(f: FoundView, q: QuerySpec, isil: Seq<char>, window: FetchWindow) -> bool {
    f.query == isil_query(q, isil) && found_from(f, window)
}

/// What a search answers for `request`: with no KOBV location, one search of the whole
/// catalogue, refused exactly when the query cannot be written as PQF; with some, one
/// search per ISIL in order, refused with the first ISIL's refusal where the query with
/// that ISIL cannot be written, and any refusal is the first location's that cannot.
pub open spec fn searched(request: SearchRequest, r: Result<EngineSearch, Error>) -> bool {
    let isils = isils_spec(crate::cli::location_views(request.locations@));
    if isils.len() == 0 {
        &&& match r {
            Ok(e) => answered_everywhere(request, e),
            Err(e) => match pqf_error(request.query, Seq::empty()) {
                Some(pe) => e == Error::Usage(pe),
                None => true,
            },
        }
        &&& pqf_error(request.query, Seq::empty()) is Some ==> r is Err
        &&& r matches Err(Error::Usage(u)) ==> pqf_error(request.query, Seq::empty()) == Some(u)
    } else {
        &&& r is Ok ==> answered_by_location(request, isils, r->Ok_0)
        &&& refused_at(request.query, isils[0]) matches Some(pe) ==> r == Err::<EngineSearch, Error>(Error::Usage(pe))
        &&& r is Ok ==> forall|k: int| 0 <= k < isils.len() ==> refused_at(request.query, #[trigger] isils[k]) is None
        &&& r matches Err(Error::Usage(u)) ==> exists|k: int|
            0 <= k < isils.len() && refused_at(request.query, #[trigger] isils[k]) == Some(u) && forall|j: int|
                0 <= j < k ==> refused_at(request.query, #[trigger] isils[j]) is None
    }
}

/// A search by location: one search per ISIL, put together by [`located_answer`].
pub open spec fn answered_by_location(request: SearchRequest, isils: Seq<Seq<char>>, e: EngineSearch) -> bool {
    exists|fs: Seq<FoundView>| #[trigger] answered_with(request, isils, e, fs)
}

/// Whether one SRU search was asked for exactly this query over the window widened by
/// [`OVERDRAW`], and `f` is what the checked envelope of its answer holds: the count,
/// the converted records and the undelivered slots.
pub open spec fn sent_and_answered(f: FoundView, window: FetchWindow, resp: crate::http::Response, env: SruResponse) -> bool {
    &&& client::sru_request(resp.request, f.query, SruPageSize::clamp_spec(window.size.value() + OVERDRAW as nat), window.start as nat)
    &&& client::checked_envelope(resp.body@, Ok::<SruResponse, Error>(env))
    &&& f.total == env.view().number_of_records
    &&& records_spec(env.view().records) == Ok::<Seq<crate::model::RecordView>, UnexpectedView>(f.records)
    &&& f.undelivered == undelivered_spec(env.view().records)
}

/// Whether a search's answer is that of the request its query and window call for.
pub open spec fn found_from(f: FoundView, window: FetchWindow) -> bool {
    exists|resp: crate::http::Response, env: SruResponse| #[trigger] sent_and_answered(f, window, resp, env)
}

/// Whether `r` is what a record lookup for `id` answers, given the answer `resp` the
/// transport gave to the lookup request and the checked envelope `env` of its body: the
/// lookup asks for one record by id, and the envelope's error, or [`shown_spec`] of the
/// envelope, is the answer.
pub open spec fn looked_up(id: RecordId, resp: crate::http::Response, env: Result<SruResponse, Error>, r: Result<crate::model::EngineShow, Error>) -> bool {
    &&& client::sru_request(resp.request, pqf::use_attr_spec(pqf::ATTR_RECORD_ID as nat, pqf::quote_spec(id.id_spec())), 1, 1)
    &&& client::checked_envelope(resp.body@, env)
    &&& match env {
        Err(x) => r == Err::<crate::model::EngineShow, Error>(x),
        Ok(e) => match shown_spec(id.id_spec(), e.view()) {
            Ok(o) => r matches Ok(s) && s.notes@.len() == 0 && opt_record(s.record) == o,
            Err(u) => r matches Err(Error::Unexpected(v)) && v@ == u,
        },
    }
}

/// The KOBV engine.
pub struct Kobv<'f, F: Fetch> {
    client: KobvClient<'f, F>,
}

impl<'f, F: Fetch> Kobv<'f, F> {
    /// Build the engine over a transport.
    pub fn new(fetch: &'f F) -> (k: Self)
        ensures
            k.transport() == fetch,
    {
        Kobv { client: KobvClient::new(fetch) }
    }

    /// The transport this engine was built with, as a value.
    pub closed spec fn transport(&self) -> &'f F {
        self.client.transport()
    }

    /// The transport this engine was built with.
    pub fn fetch(&self) -> (f: &'f F)
        ensures
            f == self.transport(),
    {
        self.client.fetch()
    }

    /// One SRU search: build the query, send it over a widened window, convert what came
    /// back. Whatever the catalogue answered, a `Found` is that envelope's count, its
    /// converted records and its undelivered slots.
    pub fn search_once(&self, spec: &QuerySpec, isils: &Vec<Isil>, window: FetchWindow) -> (r: Result<Found, Error>)
        ensures
            match r {
                Ok(f) => f.query.view_text() == pqf::search_text(*spec, isils@) && found_from(found_view(f), window),
                Err(e) => match pqf_error(*spec, isils@) {
                    Some(pe) => e == Error::Usage(pe),
                    None => true,
                },
            },
            pqf_error(*spec, isils@) is Some ==> r is Err,
            r matches Err(Error::Usage(u)) ==> pqf_error(*spec, isils@) == Some(u),
    {
        let query = match pqf::search(spec, isils.as_slice()) {
            Ok(q) => q,
            Err(e) => {
                return Err(Error::Usage(e));
            },
        };
        let wide = overdrawn(window);
        let response = self.client.search(&query, wide)?;
        let records = records(&response)?;
        let undelivered = undelivered(&response);
        let notes = record_notes(&response);
        let found = Found { query, total: response.number_of_records, records, undelivered, notes };
        proof {
            let resp = choose|resp: crate::http::Response|
                #[trigger] client::sru_request(resp.request, found.query.view_text(), wide.size.value(), wide.start as nat)
                    && client::checked_envelope(resp.body@, Ok::<SruResponse, Error>(response));
            assert(sent_and_answered(found_view(found), window, resp, response));
        }
        Ok(found)
    }

    /// The whole catalogue, with no holdings filter: one search, one total.
    pub fn search_everywhere(&self, request: &SearchRequest) -> (r: Result<EngineSearch, Error>)
        ensures
            match r {
                Ok(e) => answered_everywhere(*request, e),
                Err(e) => match pqf_error(request.query, Seq::empty()) {
                    Some(pe) => e == Error::Usage(pe),
                    None => true,
                },
            },
            pqf_error(request.query, Seq::empty()) is Some ==> r is Err,
            r matches Err(Error::Usage(u)) ==> pqf_error(request.query, Seq::empty()) == Some(u),
    {
        let none: Vec<Isil> = Vec::new();
        proof {
            assert(none@ =~= Seq::<Isil>::empty());
        }
        let found = self.search_once(&request.query, &none, request.window)?;
        let fetched = found.records.len();
        let ghost f = found_view(found);
        let e = EngineSearch {
            engine: Engine::Kobv,
            total: Some(found.total),
            fetched,
            undelivered: found.undelivered,
            at: Vec::new(),
            records: found.records,
            query_echo: Some(crate::text::owned(found.query.as_str())),
            notes: found.notes,
        };
        proof {
            assert(everywhere_with(*request, e, f));
        }
        Ok(e)
    }

    /// One search per institution in `--at`.
    ///
    /// Not one `@or` search over all of them: `--limit` is a promise per block, and a
    /// joint search delivers one window ranked across every location. A window per
    /// location fills every block, and its `numberOfRecords` is that location's total.
    /// The searches run in the order of the ISILs; the first that fails fails the answer.
    pub fn search_by_location(&self, request: &SearchRequest, isils: &Vec<Isil>) -> (r: Result<EngineSearch, Error>)
        ensures
            r matches Ok(e) ==> exists|fs: Seq<FoundView>| #[trigger] answered_with(*request, isil_views(isils@), e, fs),
            isils@.len() > 0 ==> (refused_at(request.query, isils@[0].0@) matches Some(pe) ==> r == Err::<EngineSearch, Error>(
                Error::Usage(pe),
            )),
            r is Ok ==> forall|k: int| 0 <= k < isils@.len() ==> refused_at(request.query, (#[trigger] isils@[k]).0@) is None,
            r matches Err(Error::Usage(u)) ==> exists|k: int|
                0 <= k < isils@.len() && refused_at(request.query, (#[trigger] isils@[k]).0@) == Some(u) && forall|j: int|
                    0 <= j < k ==> refused_at(request.query, (#[trigger] isils@[j]).0@) is None,
    {
        let mut searches: Vec<Found> = Vec::new();
        let mut i: usize = 0;
        while i < isils.len()
            invariant
                i <= isils.len(),
                searches.len() == i,
                forall|k: int| 0 <= k < i ==> refused_at(request.query, (#[trigger] isils@[k]).0@) is None,
                forall|k: int| 0 <= k < i ==> sent_for(#[trigger] found_views(searches@)[k], request.query, isils@[k].0@, request.window),
            decreases isils.len() - i,
        {
            let one = vec![Isil::new(isils[i].as_str())];
            proof {
                lemma_refused_at(request.query, one@[0]);
                assert(one@ =~= seq![one@[0]]);
            }
            let found = match self.search_once(&request.query, &one, request.window) {
                Ok(found) => found,
                Err(e) => {
                    proof {
                        if e is Usage {
                            assert(refused_at(request.query, isils@[i as int].0@) == Some(e->Usage_0));
                        }
                    }
                    return Err(e);
                },
            };
            let ghost before = searches@;
            proof {
                assert(one@[0].0@ == isils@[i as int].0@);
                assert(found_view(found).query == isil_query(request.query, isils@[i as int].0@));
                assert(sent_for(found_view(found), request.query, isils@[i as int].0@, request.window));
            }
            searches.push(found);
            proof {
                assert(found_views(searches@)[i as int] == found_view(found));
                assert forall|k: int| 0 <= k < i + 1 implies sent_for(#[trigger] found_views(searches@)[k], request.query, isils@[k].0@, request.window) by {
                    if k < i {
                        assert(searches@[k] == before[k]);
                        assert(found_views(searches@)[k] == found_view(before[k]));
                        assert(found_views(before)[k] == found_view(before[k]));
                    } else {
                        assert(k == i);
                    }
                }
            }
            i = i + 1;
        }
        let ghost fs = found_views(searches@);
        let e = located(request, isils, searches);
        proof {
            assert(fs.len() == isils@.len());
            let _ = located_answer(crate::cli::location_views(request.locations@), isil_views(isils@), fs);
            assert forall|k: int| 0 <= k < fs.len() implies #[trigger] sent_for(fs[k], request.query, isil_views(isils@)[k], request.window) by {
                assert(isil_views(isils@)[k] == isils@[k].0@);
            }
            assert(isil_views(isils@).len() == isils@.len());
            assert(fs.len() == isil_views(isils@).len());
            let (total, echo, l, at) = located_answer(crate::cli::location_views(request.locations@), isil_views(isils@), fs);
            assert(e.total == total);
            assert(opt_text(e.query_echo) == echo);
            assert(record_list(e.records@) == l.records);
            assert(block_views(e.at@) == at);
            assert(answered_with(*request, isil_views(isils@), e, fs));
        }
        Ok(e)
    }

    /// One search per location in `--at`, or a single unfiltered search when no location
    /// was named. `--at` is part of the query, not a sieve over the answer; two locations
    /// with the same ISIL share one search.
    pub fn search(&self, request: &SearchRequest) -> (r: Result<EngineSearch, Error>)
        ensures
            searched(*request, r),
    {
        let isils = filter_isils(&request.locations);
        if isils.len() == 0 {
            return self.search_everywhere(request);
        }
        let r = self.search_by_location(request, &isils);
        proof {
            assert(isil_views(isils@)[0] == isils@[0].0@);
            assert forall|k: int| 0 <= k < isils@.len() implies isil_views(isils@)[k] == (#[trigger] isils@[k]).0@ by {}
        }
        r
    }

    /// Look one record up by its id.
    ///
    /// The lookup asks for a window of one record; what comes back is answered by
    /// [`shown`]. A `record` of `None` means the catalogue has no such record. The copies'
    /// availability is not asked for here: it comes from a second service whose answer
    /// this library does not read, so a lookup is made in the skipped mode only, and a
    /// caller that wants the status refuses the lookup before it starts.
    pub fn show(&self, id: &RecordId, mode: crate::model::AvailabilityMode) -> (r: Result<crate::model::EngineShow, Error>)
        requires
            mode == crate::model::AvailabilityMode::Skipped,
        ensures
            r matches Err(Error::Transport(_)) || exists|resp: crate::http::Response, env: Result<SruResponse, Error>|
                #[trigger] looked_up(*id, resp, env, r),
    {
        let query = pqf::record_lookup(id);
        let window = FetchWindow { start: 1, size: SruPageSize::new(1) };
        let answer = self.client.search(&query, window);
        let ghost env = answer;
        let response = match answer {
            Ok(response) => response,
            Err(e) => {
                proof {
                    if !(e is Transport) {
                        let resp = choose|resp: crate::http::Response|
                            #[trigger] client::sru_request(resp.request, query.view_text(), window.size.value(), window.start as nat)
                                && client::checked_envelope(resp.body@, env);
                        assert(looked_up(*id, resp, env, Err::<crate::model::EngineShow, Error>(e)));
                    }
                }
                return Err(e);
            },
        };
        let record = match shown(id, &response) {
            Ok(record) => record,
            Err(e) => {
                proof {
                    let resp = choose|resp: crate::http::Response|
                        #[trigger] client::sru_request(resp.request, query.view_text(), window.size.value(), window.start as nat)
                            && client::checked_envelope(resp.body@, env);
                    assert(looked_up(*id, resp, env, Err::<crate::model::EngineShow, Error>(e)));
                }
                return Err(e);
            },
        };
        let s = crate::model::EngineShow { record, notes: Vec::new() };
        proof {
            let resp = choose|resp: crate::http::Response|
                #[trigger] client::sru_request(resp.request, query.view_text(), window.size.value(), window.start as nat)
                    && client::checked_envelope(resp.body@, env);
            assert(looked_up(*id, resp, env, Ok::<crate::model::EngineShow, Error>(s)));
        }
        Ok(s)
    }
}


} // verus!
