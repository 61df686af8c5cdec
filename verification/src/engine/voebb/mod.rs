//! voebb.de, the Berlin public library network: a session-bound aDISWeb form, one entry
//! per edition, every branch's copies on the record page.
//!
//! A result row states only what the list shows: id, title, responsibility, year,
//! material type. The copies come from the record page, one request per displayed
//! record, which also fills in what the row left empty and overwrites nothing it stated.
pub mod client;
pub mod parse;
pub mod session;

use vstd::prelude::*;
use crate::error::{Error, UnexpectedView};
use crate::http::Fetch;
use crate::libraries::Branch;
use crate::model::{
    author_views, holding_views, text_views, url_views, EngineShow, Holding, Item, Note, Record, RecordId,
    RecordView, Status,
};
use crate::text::{cat, debug_text, decimal, decimal_spec, flatten, owned, quoted, same_text, views};
use client::VoebbClient;
use parse::detail::{format_of, format_spec, holding_of, holding_spec, item_views, page_unreadable, unreadable_spec, DetailPage};
use parse::results::Hit;

verus! {

/// The views of a list of records.
pub open spec fn record_views(v: Seq<Record>) -> Seq<RecordView> {
    v.map_values(|r: Record| r.view())
}

/// A record as far as one result row states it. The row's traffic light summarises every
/// branch of the network, so it is not carried into the holding: the network's one
/// holding has no copies and an unknown status until the record page is read.
pub open spec fn row_record(h: Hit) -> RecordView {
    let (format, online) = format_spec(
        match h.media_kind {
            Some(m) => m@,
            None => seq![],
        },
        false,
    );
    RecordView {
        id: h.id.id_spec(),
        title: h.title@,
        subtitle: None,
        authors: seq![],
        year: match h.year {
            Some(y) => Some(y as int),
            None => None,
        },
        publisher: None,
        place: None,
        edition: None,
        extent: None,
        languages: seq![],
        format,
        online,
        isbns: seq![],
        subjects: seq![],
        urls: seq![],
        holdings: seq![holding_spec(h.id.local_spec(), seq![], Status::Unknown, None)],
    }
}

/// The one holding every voebb.de record has: the network, with its copies unknown.
pub fn network_holding(id: &RecordId) -> (h: Holding)
    ensures
        h.view() == holding_spec(id.local_spec(), seq![], Status::Unknown, None),
{
    let items: Vec<Item> = Vec::new();
    proof {
        assert(item_views(items@) =~= Seq::<crate::model::ItemView>::empty());
    }
    holding_of(id, items, Status::Unknown, None)
}

/// A record as far as one result row states it.
pub fn record_of(hit: &Hit) -> (r: Record)
    ensures
        r.view() == row_record(*hit),
{
    let media: &str = match &hit.media_kind {
        Some(m) => m.as_str(),
        None => "",
    };
    proof {
        reveal_strlit("");
        assert(media@ == match hit.media_kind {
            Some(m) => m@,
            None => Seq::<char>::empty(),
        });
    }
    let (format, online) = format_of(media, false);
    let holding = network_holding(&hit.id);
    let r = Record {
        id: hit.id.copy(),
        title: hit.title.clone(),
        subtitle: None,
        authors: Vec::new(),
        year: hit.year,
        publisher: None,
        place: None,
        edition: None,
        extent: None,
        languages: Vec::new(),
        format,
        online,
        isbns: Vec::new(),
        subjects: Vec::new(),
        urls: Vec::new(),
        holdings: vec![holding],
    };
    proof {
        assert(r.view().authors =~= Seq::<crate::model::AuthorView>::empty());
        assert(r.view().languages =~= Seq::<Seq<char>>::empty());
        assert(r.view().isbns =~= Seq::<Seq<char>>::empty());
        assert(r.view().subjects =~= Seq::<Seq<char>>::empty());
        assert(r.view().urls =~= Seq::<crate::model::UrlView>::empty());
        assert(r.view().holdings =~= seq![holding.view()]);
    }
    r
}

/// The first of two optional values that is there.
pub open spec fn or_else<T>(a: Option<T>, b: Option<T>) -> Option<T> {
    match a {
        Some(x) => Some(x),
        None => b,
    }
}

/// A record with what its page states merged in: the page's holdings, authors,
/// subjects, ISBNs, links and languages; the row's own values win wherever it had one,
/// its title and id above all.
pub open spec fn merged(r: RecordView, d: RecordView) -> RecordView {
    RecordView {
        id: r.id,
        title: r.title,
        subtitle: or_else(r.subtitle, d.subtitle),
        authors: d.authors,
        year: or_else(r.year, d.year),
        publisher: or_else(r.publisher, d.publisher),
        place: or_else(r.place, d.place),
        edition: or_else(r.edition, d.edition),
        extent: or_else(r.extent, d.extent),
        languages: d.languages,
        format: if r.format == crate::model::Format::Unknown {
            d.format
        } else {
            r.format
        },
        online: r.online || d.online,
        isbns: d.isbns,
        subjects: d.subjects,
        urls: d.urls,
        holdings: d.holdings,
    }
}

/// A record page merged into a row's record gives the record the page's copies, each
/// branch's with its shelfmark, status and due date: the row's own single network
/// holding is replaced, never kept. The id and title stay the row's.
pub proof fn law_a_merged_record_holds_the_pages_copies(r: RecordView, d: RecordView)
    ensures
        merged(r, d).holdings == d.holdings,
        merged(r, d).authors == d.authors,
        merged(r, d).subjects == d.subjects,
        merged(r, d).isbns == d.isbns,
        merged(r, d).urls == d.urls,
        merged(r, d).languages == d.languages,
        merged(r, d).id == r.id,
        merged(r, d).title == r.title,
        r.year is Some ==> merged(r, d).year == r.year,
        r.year is None ==> merged(r, d).year == d.year,
        r.subtitle is Some ==> merged(r, d).subtitle == r.subtitle,
        r.subtitle is None ==> merged(r, d).subtitle == d.subtitle,
        r.publisher is Some ==> merged(r, d).publisher == r.publisher,
        r.publisher is None ==> merged(r, d).publisher == d.publisher,
        r.format != crate::model::Format::Unknown ==> merged(r, d).format == r.format,
        r.format == crate::model::Format::Unknown ==> merged(r, d).format == d.format,
        merged(r, d).online == (r.online || d.online),
{
}

/// The first of two optional strings that is there.
fn keep_or(a: Option<String>, b: Option<String>) -> (r: Option<String>)
    ensures
        r == or_else(a, b),
{
    match a {
        Some(x) => Some(x),
        None => b,
    }
}

/// Take the record page's copies, and everything else it states that the row did not.
pub fn merge_detail(record: &mut Record, detailed: Record)
    ensures
        final(record).view() == merged(old(record).view(), detailed.view()),
{
    let subtitle = keep_or(record.subtitle.take(), detailed.subtitle);
    let publisher = keep_or(record.publisher.take(), detailed.publisher);
    let place = keep_or(record.place.take(), detailed.place);
    let edition = keep_or(record.edition.take(), detailed.edition);
    let extent = keep_or(record.extent.take(), detailed.extent);
    record.holdings = detailed.holdings;
    record.authors = detailed.authors;
    record.subjects = detailed.subjects;
    record.isbns = detailed.isbns;
    record.urls = detailed.urls;
    record.languages = detailed.languages;
    record.subtitle = subtitle;
    record.publisher = publisher;
    record.place = place;
    record.edition = edition;
    record.extent = extent;
    record.year = match record.year {
        Some(y) => Some(y),
        None => detailed.year,
    };
    if record.format == crate::model::Format::Unknown {
        record.format = detailed.format;
    }
    record.online = record.online || detailed.online;
}

/// Whether a record is the row as it was, or the row with some record page merged in.
pub open spec fn filled(row: RecordView, now: RecordView) -> bool {
    now == row || exists|d: RecordView| now == #[trigger] merged(row, d)
}

/// Whether a record of the list has this id.
pub open spec fn has_id(rs: Seq<RecordView>, id: Seq<char>) -> bool {
    exists|i: int| 0 <= i < rs.len() && (#[trigger] rs[i]).id == id
}

/// The records with the rows added whose id is not among them yet, in order.
pub open spec fn extended(rs: Seq<RecordView>, hits: Seq<Hit>) -> Seq<RecordView>
    decreases hits.len(),
{
    if hits.len() == 0 {
        rs
    } else {
        let before = extended(rs, hits.drop_last());
        if has_id(before, hits.last().id.id_spec()) {
            before
        } else {
            before.push(row_record(hits.last()))
        }
    }
}

/// Whether a record of the list has this id.
fn holds_id(records: &Vec<Record>, id: &RecordId) -> (r: bool)
    ensures
        r == has_id(record_views(records@), id.id_spec()),
{
    let ghost rv = record_views(records@);
    let mut i: usize = 0;
    while i < records.len()
        invariant
            i <= records.len(),
            rv == record_views(records@),
            forall|j: int| 0 <= j < i ==> (#[trigger] rv[j]).id != id.id_spec(),
        decreases records.len() - i,
    {
        proof {
            assert(rv[i as int] == records@[i as int].view());
        }
        if same_text(records[i].id.as_str(), id.as_str()) {
            return true;
        }
        i = i + 1;
    }
    false
}

/// Add one location's rows to the record list, skipping the ones already there: the same
/// edition is held by several branches, and a record appears once however many blocks
/// show it. Records are told apart by their id.
pub fn extend_records(records: &mut Vec<Record>, hits: &[Hit])
    ensures
        record_views(final(records)@) == extended(record_views(old(records)@), hits@),
{
    let ghost start = record_views(records@);
    let mut i: usize = 0;
    while i < hits.len()
        invariant
            i <= hits.len(),
            record_views(records@) == extended(start, hits@.take(i as int)),
        decreases hits.len() - i,
    {
        proof {
            assert(hits@.take(i + 1).drop_last() =~= hits@.take(i as int));
            assert(hits@.take(i + 1).last() == hits@[i as int]);
        }
        if !holds_id(records, &hits[i].id) {
            let r = record_of(&hits[i]);
            let ghost before = records@;
            records.push(r);
            proof {
                assert(record_views(records@) =~= record_views(before).push(r.view()));
            }
        }
        i = i + 1;
    }
    proof {
        assert(hits@.take(i as int) =~= hits@);
    }
}

/// A note as plain values: kind, message and the ids of the records it is about.
pub open spec fn note_key(n: Note) -> (Seq<char>, Seq<char>, Seq<Seq<char>>) {
    (n.kind@, n.message@, n.records@.map_values(|r: RecordId| r.id_spec()))
}

/// The views of a list of notes.
pub open spec fn note_keys(v: Seq<Note>) -> Seq<(Seq<char>, Seq<char>, Seq<Seq<char>>)> {
    v.map_values(|n: Note| note_key(n))
}

/// The notes with the found ones added that are not among them yet, in order.
pub open spec fn added_notes(ns: Seq<(Seq<char>, Seq<char>, Seq<Seq<char>>)>, found: Seq<(Seq<char>, Seq<char>, Seq<Seq<char>>)>) -> Seq<(Seq<char>, Seq<char>, Seq<Seq<char>>)>
    decreases found.len(),
{
    if found.len() == 0 {
        ns
    } else {
        let before = added_notes(ns, found.drop_last());
        if before.contains(found.last()) {
            before
        } else {
            before.push(found.last())
        }
    }
}

/// Whether two notes say the same thing about the same records.
fn same_note(a: &Note, b: &Note) -> (r: bool)
    ensures
        r == (note_key(*a) == note_key(*b)),
{
    if !same_text(a.kind.as_str(), b.kind.as_str()) || !same_text(a.message.as_str(), b.message.as_str()) {
        return false;
    }
    if a.records.len() != b.records.len() {
        proof {
            assert(note_key(*a).2.len() != note_key(*b).2.len());
        }
        return false;
    }
    let mut i: usize = 0;
    while i < a.records.len()
        invariant
            i <= a.records.len(),
            a.records.len() == b.records.len(),
            forall|j: int| 0 <= j < i ==> (#[trigger] a.records@[j]).id_spec() == b.records@[j].id_spec(),
        decreases a.records.len() - i,
    {
        if !same_text(a.records[i].as_str(), b.records[i].as_str()) {
            proof {
                assert(note_key(*a).2[i as int] != note_key(*b).2[i as int]);
            }
            return false;
        }
        i = i + 1;
    }
    proof {
        assert(note_key(*a).2 =~= note_key(*b).2);
    }
    true
}

/// Whether the list holds a note that says the same thing.
fn holds_note(notes: &Vec<Note>, n: &Note) -> (r: bool)
    ensures
        r == note_keys(notes@).contains(note_key(*n)),
{
    let ghost kv = note_keys(notes@);
    let mut i: usize = 0;
    while i < notes.len()
        invariant
            i <= notes.len(),
            kv == note_keys(notes@),
            forall|j: int| 0 <= j < i ==> kv[j] != note_key(*n),
        decreases notes.len() - i,
    {
        proof {
            assert(kv[i as int] == note_key(notes@[i as int]));
        }
        if same_note(&notes[i], n) {
            proof {
                assert(kv[i as int] == note_key(*n));
            }
            return true;
        }
        i = i + 1;
    }
    false
}

/// Add one location's notes, skipping what another location already said: a limitation
/// of the query is reported once per location and is the same sentence every time.
pub fn extend_notes(notes: &mut Vec<Note>, found: Vec<Note>)
    ensures
        note_keys(final(notes)@) == added_notes(note_keys(old(notes)@), note_keys(found@)),
{
    let ghost start = note_keys(notes@);
    let ghost orig = found@;
    let mut found = found;
    let mut m: usize = 0;
    let total = found.len();
    while found.len() > 0
        invariant
            m + found@.len() == orig.len(),
            total == orig.len(),
            found@ == orig.skip(m as int),
            note_keys(notes@) == added_notes(start, note_keys(orig).take(m as int)),
        decreases found@.len(),
    {
        let n = found.remove(0);
        proof {
            assert(n == orig[m as int]);
            assert(orig.skip(m as int).remove(0) =~= orig.skip(m + 1));
            assert(note_keys(orig).take(m + 1).drop_last() =~= note_keys(orig).take(m as int));
            assert(note_keys(orig).take(m + 1).last() == note_key(n));
        }
        if !holds_note(notes, &n) {
            let ghost before = notes@;
            notes.push(n);
            proof {
                assert(note_keys(notes@) =~= note_keys(before).push(note_key(n)));
            }
        }
        m = m + 1;
    }
    proof {
        assert(note_keys(orig).take(m as int) =~= note_keys(orig));
    }
}

/// The message for a search that found nothing anywhere in the network.
pub const NO_HITS_IN_NETWORK: &'static str = "voebb.de found nothing for this search anywhere in the network, so it offered no branch facet — the restriction to a branch is not what emptied this result";

/// Why a branch came back with nothing, in the site's own terms: with hits in the
/// network the facet does not list the branch, which holds nothing matching; without
/// hits there was no facet at all, and the branch is not what emptied the result.
pub open spec fn branch_missing_spec(short_name: Seq<char>, network_total: nat) -> (Seq<char>, Seq<char>) {
    if network_total == 0 {
        ("voebb_no_hits_in_network"@, NO_HITS_IN_NETWORK@)
    } else {
        (
            "voebb_branch_not_listed"@,
            "voebb.de's branch facet does not list "@ + debug_text(short_name)
                + " for this search, which means it holds nothing matching — the network has "@ + decimal_spec(
                network_total,
            ) + " hits for these words, just not there"@,
        )
    }
}

/// Why a branch came back with nothing.
pub fn branch_missing_note(branch: &Branch, network_total: u64) -> (n: Note)
    ensures
        (n.kind@, n.message@) == branch_missing_spec(branch.short_name@, network_total as nat),
        n.records@.len() == 0,
{
    if network_total == 0 {
        return Note::new("voebb_no_hits_in_network", owned(NO_HITS_IN_NETWORK));
    }
    let q = quoted(branch.short_name.as_str());
    let t = decimal(network_total);
    let parts = vec![
        "voebb.de's branch facet does not list ",
        q.as_str(),
        " for this search, which means it holds nothing matching — the network has ",
        t.as_str(),
        " hits for these words, just not there",
    ];
    proof {
        reveal_with_fuel(flatten, 6);
        assert(views(parts@) =~= seq![
            "voebb.de's branch facet does not list "@,
            debug_text(branch.short_name@),
            " for this search, which means it holds nothing matching — the network has "@,
            decimal_spec(network_total as nat),
            " hits for these words, just not there"@,
        ]);
    }
    Note::new("voebb_branch_not_listed", cat(parts))
}

/// What one voebb.de search found: the count the site stated for it, the rows of the
/// window, and its notes.
pub struct Located {
    pub total: Option<u64>,
    pub hits: Vec<Hit>,
    pub notes: Vec<Note>,
}

/// The ids of a list of rows.
pub open spec fn hit_ids(hits: Seq<Hit>) -> Seq<Seq<char>> {
    hits.map_values(|h: Hit| h.id.id_spec())
}

/// What a location whose branch the facet does not list found: nothing, a count of
/// zero, and after the search's own notes the one that says whether the network had the
/// title at all.
pub fn unlisted(branch: &Branch, network_total: u64, notes: Vec<Note>) -> (l: Located)
    ensures
        l.total == Some(0u64),
        l.hits@.len() == 0,
        note_keys(l.notes@) == note_keys(notes@).push(
            ({
                let (k, m) = branch_missing_spec(branch.short_name@, network_total as nat);
                (k, m, Seq::<Seq<char>>::empty())
            }),
        ),
{
    let mut notes = notes;
    let n = branch_missing_note(branch, network_total);
    let ghost before = notes@;
    notes.push(n);
    proof {
        assert(n.records@.map_values(|r: RecordId| r.id_spec()) =~= Seq::<Seq<char>>::empty());
        assert(note_keys(notes@) =~= note_keys(before).push(note_key(n)));
    }
    Located { total: Some(0), hits: Vec::new(), notes }
}

/// The block of a branch location a voebb.de search answered: the location, its branch,
/// the count stated for it, and the window's records in the order of the rows. Nothing
/// in it was refused.
pub fn voebb_block(location: &crate::model::Location, branch: &Branch, found: &Located) -> (b: crate::model::AtBlock)
    ensures
        b.view() == (crate::model::AtBlockView {
            key: location.key@,
            given: location.given@,
            isil: location.isil.0@,
            branch: Some(branch.kobvid@),
            engine: crate::model::Engine::Voebb,
            total: found.total,
            records: hit_ids(found.hits@),
            refused: None,
        }),
{
    let mut records: Vec<RecordId> = Vec::new();
    let mut i: usize = 0;
    while i < found.hits.len()
        invariant
            i <= found.hits.len(),
            crate::model::id_views(records@) == hit_ids(found.hits@).take(i as int),
        decreases found.hits.len() - i,
    {
        let id = found.hits[i].id.copy();
        let ghost before = records@;
        records.push(id);
        proof {
            assert(crate::model::id_views(records@) =~= crate::model::id_views(before).push(id.id_spec()));
            assert(hit_ids(found.hits@).take(i + 1) =~= hit_ids(found.hits@).take(i as int).push(found.hits@[i as int].id.id_spec()));
        }
        i = i + 1;
    }
    proof {
        assert(hit_ids(found.hits@).take(i as int) =~= hit_ids(found.hits@));
    }
    crate::model::AtBlock {
        key: location.key.clone(),
        given: location.given.clone(),
        isil: crate::model::Isil(location.isil.0.clone()),
        branch: Some(branch.kobvid.clone()),
        engine: crate::model::Engine::Voebb,
        total: found.total,
        records,
        refused: None,
    }
}

/// The records of a list of searches: each one's rows added that are not among the
/// records yet, search after search.
pub open spec fn found_records(fs: Seq<Located>) -> Seq<RecordView>
    decreases fs.len(),
{
    if fs.len() == 0 {
        Seq::empty()
    } else {
        extended(found_records(fs.drop_last()), fs.last().hits@)
    }
}

/// The notes of a list of searches: each one's notes added that another has not already
/// said, search after search.
pub open spec fn found_notes(fs: Seq<Located>) -> Seq<(Seq<char>, Seq<char>, Seq<Seq<char>>)>
    decreases fs.len(),
{
    if fs.len() == 0 {
        Seq::empty()
    } else {
        added_notes(found_notes(fs.drop_last()), note_keys(fs.last().notes@))
    }
}

/// A voebb.de answer put together from its searches, one per location in order, or the
/// one unfiltered search where there are no locations, and the blocks of the locations:
/// a record appears once however many searches found it, a note once however many said
/// it. There is no total: two catalogues have two, and every voebb.de count that means
/// something sits in the blocks. Nothing is undelivered and there is no PQF echo.
pub fn voebb_answer(found: Vec<Located>, at: Vec<crate::model::AtBlock>) -> (e: crate::model::EngineSearch)
    ensures
        e.engine == crate::model::Engine::Voebb,
        e.total is None,
        record_views(e.records@) == found_records(found@),
        e.fetched == e.records@.len(),
        e.undelivered == 0,
        e.at == at,
        e.query_echo is None,
        note_keys(e.notes@) == found_notes(found@),
{
    let ghost orig = found@;
    let mut found = found;
    let mut records: Vec<Record> = Vec::new();
    let mut notes: Vec<Note> = Vec::new();
    let mut c: usize = 0;
    let n = found.len();
    proof {
        assert(orig.take(0) =~= Seq::<Located>::empty());
        assert(orig.skip(0) =~= orig);
        assert(record_views(records@) =~= Seq::<RecordView>::empty());
        assert(note_keys(notes@) =~= Seq::<(Seq<char>, Seq<char>, Seq<Seq<char>>)>::empty());
    }
    while found.len() > 0
        invariant
            c + found@.len() == orig.len(),
            n == orig.len(),
            found@ == orig.skip(c as int),
            record_views(records@) == found_records(orig.take(c as int)),
            note_keys(notes@) == found_notes(orig.take(c as int)),
        decreases found@.len(),
    {
        let one = found.remove(0);
        proof {
            assert(one == orig[c as int]);
            assert(orig.skip(c as int).remove(0) =~= orig.skip(c + 1));
            assert(orig.take(c + 1).drop_last() =~= orig.take(c as int));
            assert(orig.take(c + 1).last() == one);
        }
        extend_records(&mut records, one.hits.as_slice());
        extend_notes(&mut notes, one.notes);
        c = c + 1;
    }
    proof {
        assert(orig.take(c as int) =~= orig);
    }
    let fetched = records.len();
    crate::model::EngineSearch {
        engine: crate::model::Engine::Voebb,
        total: None,
        fetched,
        undelivered: 0,
        at,
        records,
        query_echo: None,
        notes,
    }
}

/// What asking voebb.de for one record page produced: the page, no such record, or a
/// page that arrived and carries no record this parser can read. The last two are
/// opposite statements and stay apart.
pub enum Detail {
    Page(DetailPage),
    Missing,
    Unreadable(Error),
}

/// The message of the note for a record the result list named and the record page did
/// not know.
pub const RECORD_PAGE_MISSING: &'static str = "voebb.de listed a record in its results and then had no record page for it, so its copies could not be fetched";

/// What a record page's answer is to [`Voebb::detail`]: the page, no such record, a page
/// that arrived and cannot be read, or the error that stops the invocation.
pub open spec fn as_detail(d: Result<Option<DetailPage>, Error>) -> Result<Detail, Error> {
    match d {
        Ok(Some(p)) => Ok(Detail::Page(p)),
        Ok(None) => Ok(Detail::Missing),
        Err(e) => if e.unreadable_spec() {
            Ok(Detail::Unreadable(e))
        } else {
            Err(e)
        },
    }
}

/// Whether `d` is what the transport's answer `resp` to the record request for `id`
/// makes of that record's page.
pub open spec fn page_of(resp: crate::http::Response, id: RecordId, d: Result<Option<DetailPage>, Error>) -> bool {
    client::is_record_request(resp.request, id) && client::detail_answered(resp.body@, id, d)
}

/// Whether `r` is what `show` answers for the record page's answer `d`.
pub open spec fn show_of(d: Result<Option<DetailPage>, Error>, r: Result<EngineShow, Error>) -> bool {
    match d {
        Ok(Some(p)) => r matches Ok(s) && s.record == Some(p.record) && s.notes == p.notes,
        Ok(None) => r matches Ok(s) && s.record is None && s.notes@.len() == 0,
        Err(e) => r == Err::<EngineShow, Error>(e),
    }
}

/// A note as plain values: its kind, its message, the ids of the records it is about.
pub type NoteTriple = (Seq<char>, Seq<char>, Seq<Seq<char>>);

/// Whether an answer is what the transport's answer to the record request for `id` makes of
/// the record's page, and so what asking for it can produce: a page that
/// reads as that record, the search entry page that means no such record, or an error
/// that says the page arrived and could not be read.
pub open spec fn answered(id: RecordId, a: Detail) -> bool {
    &&& exists|resp: crate::http::Response, d: Result<Option<DetailPage>, Error>|
        #[trigger] page_of(resp, id, d) && as_detail(d) == Ok::<Detail, Error>(a)
    &&& match a {
        Detail::Page(p) => exists|body: Seq<char>|
            #[trigger] parse::detail::detail_spec(crate::html::html_nodes(body), id) == Ok::<(RecordView, Seq<(Seq<char>, Seq<char>)>), UnexpectedView>(
                (p.record.view(), parse::items::note_views(p.notes@)),
            ),
        Detail::Missing => exists|body: Seq<char>| #[trigger] parse::detail::missing_record_spec(crate::html::html_nodes(body)),
        Detail::Unreadable(e) => e.unreadable_spec(),
    }
}

/// What one record page's answer makes of the row: the row with the page merged in and
/// the page's notes; or the row as it was and one note that names it.
pub open spec fn outcome(row: RecordView, a: Detail) -> (RecordView, Seq<NoteTriple>) {
    match a {
        Detail::Page(p) => (merged(row, p.record.view()), crate::engine::kobv::note_list(p.notes@)),
        Detail::Missing => (row, seq![("availability_not_stated"@, RECORD_PAGE_MISSING@, seq![row.id])]),
        Detail::Unreadable(e) => (row, seq![("voebb_page_unreadable"@, unreadable_spec(e.message_spec()), seq![row.id])]),
    }
}

/// The notes of all the answers, row by row, in order.
pub open spec fn answer_notes(rows: Seq<RecordView>, answers: Seq<Detail>) -> Seq<NoteTriple>
    decreases rows.len(),
{
    if rows.len() == 0 || answers.len() == 0 {
        Seq::empty()
    } else {
        answer_notes(rows.drop_last(), answers.drop_last()) + outcome(rows.last(), answers.last()).1
    }
}

/// Whether the records and notes are what these answers, one per row, make of the rows.
pub open spec fn filled_by(rows: Seq<Record>, now: Seq<Record>, notes: Seq<Note>, answers: Seq<Detail>) -> bool {
    &&& answers.len() == rows.len()
    &&& now.len() == rows.len()
    &&& forall|i: int| 0 <= i < rows.len() ==> #[trigger] answered(rows[i].id, answers[i])
    &&& forall|i: int| 0 <= i < rows.len() ==> (#[trigger] now[i]).view() == outcome(rows[i].view(), answers[i]).0
    &&& crate::engine::kobv::note_list(notes) == answer_notes(record_views(rows), answers)
}

/// Whether the records and notes are what some answers, one per row, make of the rows.
pub open spec fn fills(rows: Seq<Record>, now: Seq<Record>, notes: Seq<Note>) -> bool {
    exists|answers: Seq<Detail>| #[trigger] filled_by(rows, now, notes, answers)
}

/// The voebb.de engine.
pub struct Voebb<'f, F: Fetch> {
    client: VoebbClient<'f, F>,
}

impl<'f, F: Fetch> Voebb<'f, F> {
    /// Build the engine over a transport.
    pub fn new(fetch: &'f F) -> (v: Self)
        ensures
            v.transport() == fetch,
    {
        Voebb { client: VoebbClient::new(fetch) }
    }

    /// The transport this engine was built with, as a value.
    pub closed spec fn transport(&self) -> &'f F {
        self.client.transport()
    }

    /// The transport this engine was built with.
    pub fn fetch(&self) -> (f: &'f F)
        ensures
            f == self.transport(),
    {
        self.client.fetch()
    }

    /// One record page, with a page-shaped failure separated out rather than raised: a
    /// page that arrived and changed shape costs its one record, while a failed request, a
    /// refusal or a lost session stops the invocation.
    pub fn detail(&self, id: &RecordId) -> (r: Result<Detail, Error>)
        ensures
            match r {
                Ok(Detail::Page(p)) => exists|body: Seq<char>|
                    #[trigger] parse::detail::detail_spec(crate::html::html_nodes(body), *id) == Ok::<(RecordView, Seq<(Seq<char>, Seq<char>)>), UnexpectedView>(
                        (p.record.view(), parse::items::note_views(p.notes@)),
                    ),
                Ok(Detail::Missing) => exists|body: Seq<char>| #[trigger] parse::detail::missing_record_spec(crate::html::html_nodes(body)),
                Ok(Detail::Unreadable(e)) => e.unreadable_spec(),
                Err(e) => !e.unreadable_spec(),
            },
            r matches Err(Error::Transport(_)) || exists|resp: crate::http::Response, d: Result<Option<DetailPage>, Error>|
                #[trigger] page_of(resp, *id, d) && r == as_detail(d),
    {
        let d = self.client.detail(id);
        let ghost dg = d;
        let r = match d {
            Ok(Some(page)) => Ok(Detail::Page(page)),
            Ok(None) => Ok(Detail::Missing),
            Err(error) => {
                if error.is_unreadable_document() {
                    Ok(Detail::Unreadable(error))
                } else {
                    Err(error)
                }
            },
        };
        proof {
            if !(dg matches Err(Error::Transport(_))) {
                let resp = choose|resp: crate::http::Response|
                    #[trigger] client::is_record_request(resp.request, *id) && client::detail_answered(resp.body@, *id, dg);
                assert(page_of(resp, *id, dg));
                assert(r == as_detail(dg));
            }
        }
        r
    }

    /// Fetch one record page per displayed record and take its copies, filling in what
    /// the row left empty and overwriting nothing it stated. Every page is fetched before
    /// any record changes, so a failed request leaves the records as they were. A record
    /// the page no longer knows, or whose page cannot be read, keeps its row and gets a
    /// note about it.
    pub fn fill_availability(&self, records: &mut Vec<Record>) -> (r: Result<Vec<Note>, Error>)
        ensures
            final(records)@.len() == old(records)@.len(),
            forall|i: int|
                0 <= i < old(records)@.len() ==> filled(old(records)@[i].view(), #[trigger] final(records)@[i].view()),
            r matches Ok(notes) ==> fills(old(records)@, final(records)@, notes@),
            r is Err ==> record_views(final(records)@) == record_views(old(records)@),
    {
        let mut answers: Vec<Detail> = Vec::new();
        let mut i: usize = 0;
        while i < records.len()
            invariant
                i <= records.len(),
                answers@.len() == i,
                forall|j: int| 0 <= j < i ==> #[trigger] answered(records@[j].id, answers@[j]),
            decreases records.len() - i,
        {
            let a = self.detail(&records[i].id)?;
            proof {
                assert(answered(records@[i as int].id, a));
            }
            answers.push(a);
            i = i + 1;
        }
        let ghost orig = records@;
        let ghost ans0 = answers@;
        let mut notes: Vec<Note> = Vec::new();
        let mut out: Vec<Record> = Vec::new();
        let n = records.len();
        proof {
            assert(record_views(orig).take(0) =~= Seq::<RecordView>::empty());
        }
        while records.len() > 0
            invariant
                out@.len() + records@.len() == orig.len(),
                n == orig.len(),
                ans0.len() == orig.len(),
                records@ == orig.skip(out@.len() as int),
                answers@ == ans0.skip(out@.len() as int),
                forall|j: int| 0 <= j < orig.len() ==> #[trigger] answered(orig[j].id, ans0[j]),
                forall|j: int| 0 <= j < out@.len() ==> filled(orig[j].view(), #[trigger] out@[j].view()),
                forall|j: int| 0 <= j < out@.len() ==> (#[trigger] out@[j]).view() == outcome(orig[j].view(), ans0[j]).0,
                crate::engine::kobv::note_list(notes@) == answer_notes(record_views(orig).take(out@.len() as int), ans0.take(out@.len() as int)),
            decreases records@.len(),
        {
            let ghost k = out@.len();
            let ghost before_notes = notes@;
            let mut rec = records.remove(0);
            let answer = answers.remove(0);
            proof {
                assert(rec == orig[k as int]);
                assert(answer == ans0[k as int]);
                assert(orig.skip(k as int).remove(0) =~= orig.skip(k as int + 1));
                assert(ans0.skip(k as int).remove(0) =~= ans0.skip(k as int + 1));
                let rows = record_views(orig).take(k as int + 1);
                let ans = ans0.take(k as int + 1);
                assert(rows.drop_last() =~= record_views(orig).take(k as int));
                assert(ans.drop_last() =~= ans0.take(k as int));
                assert(rows.last() == orig[k as int].view());
                assert(answer_notes(rows, ans) == answer_notes(record_views(orig).take(k as int), ans0.take(k as int)) + outcome(orig[k as int].view(), ans0[k as int]).1);
            }
            let ghost row = rec.view();
            match answer {
                Detail::Page(page) => {
                    let mut page_notes = page.notes;
                    let ghost pn = page_notes@;
                    let ghost d = page.record.view();
                    merge_detail(&mut rec, page.record);
                    proof {
                        assert(rec.view() == merged(row, d));
                    }
                    notes.append(&mut page_notes);
                    proof {
                        assert(crate::engine::kobv::note_list(notes@) =~= crate::engine::kobv::note_list(before_notes) + crate::engine::kobv::note_list(pn));
                    }
                },
                Detail::Missing => {
                    let note = Note { kind: owned("availability_not_stated"), message: owned(RECORD_PAGE_MISSING), records: vec![rec.id.copy()] };
                    proof {
                        assert(crate::model::id_views(note.records@) =~= seq![row.id]);
                    }
                    notes.push(note);
                    proof {
                        assert(crate::engine::kobv::note_list(notes@) =~= crate::engine::kobv::note_list(before_notes) + outcome(row, ans0[k as int]).1);
                    }
                },
                Detail::Unreadable(error) => {
                    let made = page_unreadable(&error);
                    let note = Note { kind: made.kind, message: made.message, records: vec![rec.id.copy()] };
                    proof {
                        assert(crate::model::id_views(note.records@) =~= seq![row.id]);
                    }
                    notes.push(note);
                    proof {
                        assert(crate::engine::kobv::note_list(notes@) =~= crate::engine::kobv::note_list(before_notes) + outcome(row, ans0[k as int]).1);
                    }
                },
            }
            let ghost before_out = out@;
            out.push(rec);
            proof {
                assert forall|j: int| 0 <= j < out@.len() implies filled(orig[j].view(), #[trigger] out@[j].view()) by {
                    if j < before_out.len() {
                        assert(out@[j] == before_out[j]);
                    } else {
                        if ans0[k as int] is Page {
                            assert(out@[j].view() == merged(orig[j].view(), ans0[k as int]->Page_0.record.view()));
                        }
                    }
                }
                assert forall|j: int| 0 <= j < out@.len() implies (#[trigger] out@[j]).view() == outcome(orig[j].view(), ans0[j]).0 by {
                    if j < before_out.len() {
                        assert(out@[j] == before_out[j]);
                    }
                }
            }
        }
        proof {
            assert(out@.len() == orig.len());
            assert(record_views(orig).take(orig.len() as int) =~= record_views(orig));
            assert(ans0.take(orig.len() as int) =~= ans0);
            assert(filled_by(orig, out@, notes@, ans0));
        }
        *records = out;
        proof {
            assert(orig == old(records)@);
            assert(filled_by(old(records)@, records@, notes@, ans0));
            assert(fills(old(records)@, records@, notes@));
        }
        Ok(notes)
    }

    /// One record by id, a single request without a session. The page's notes come with
    /// it. No such record is an empty answer; a page that carries no readable record is
    /// the error, because reporting that the record does not exist would be the wrong
    /// answer.
    pub fn show(&self, id: &RecordId) -> (r: Result<EngineShow, Error>)
        ensures
            match r {
                Ok(s) => match s.record {
                    Some(rec) => rec.id.id_spec() == id.id_spec(),
                    None => s.notes@.len() == 0,
                },
                Err(_) => true,
            },
            r matches Err(Error::Transport(_)) || exists|resp: crate::http::Response, d: Result<Option<DetailPage>, Error>|
                #[trigger] page_of(resp, *id, d) && show_of(d, r),
    {
        let d = self.client.detail(id);
        let ghost dg = d;
        let r = match d {
            Ok(Some(page)) => {
                proof {
                    let resp = choose|resp: crate::http::Response|
                        #[trigger] client::is_record_request(resp.request, *id) && client::detail_answered(resp.body@, *id, dg);
                    parse::detail::lemma_page_keeps_id(
                        crate::html::html_nodes(resp.body@),
                        *id,
                        page.record.view(),
                        parse::items::note_views(page.notes@),
                    );
                }
                Ok(EngineShow { record: Some(page.record), notes: page.notes })
            },
            Ok(None) => Ok(EngineShow { record: None, notes: Vec::new() }),
            Err(error) => Err(error),
        };
        proof {
            if !(dg matches Err(Error::Transport(_))) {
                let resp = choose|resp: crate::http::Response|
                    #[trigger] client::is_record_request(resp.request, *id) && client::detail_answered(resp.body@, *id, dg);
                assert(page_of(resp, *id, dg));
                assert(show_of(dg, r));
            }
        }
        r
    }
}

/// What names the result list in an error message.
pub const CONTEXT: &'static str = "the voebb.de result list";

/// One more, saturated at `u32::MAX`.
pub open spec fn inc(c: u32) -> u32 {
    if c == u32::MAX {
        c
    } else {
        (c + 1) as u32
    }
}

/// The rows of one page taken into a window: each row's position is the one it states,
/// or else the count of rows seen so far; the rows whose position lies in `first..=last`
/// are kept, in order. The result is the kept rows, the count of rows seen and the
/// position the page reached.
pub open spec fn take_rows(kept: Seq<Hit>, seen: u32, reached: u32, first: u32, last: u32, page: Seq<Hit>) -> (Seq<Hit>, u32, u32)
    decreases page.len(),
{
    if page.len() == 0 {
        (kept, seen, reached)
    } else {
        let c = inc(seen);
        let p = match page[0].position {
            Some(p) => p,
            None => c,
        };
        take_rows(if first <= p && p <= last { kept.push(page[0]) } else { kept }, c, p, first, last, page.drop_first())
    }
}

/// A walk through the result pages for one window: voebb.de states each row's absolute
/// position, so the window is a range over positions rather than an offset the site
/// could be asked for.
pub struct WindowWalk {
    /// The first position of the window.
    pub first: u32,
    /// The last position of the window, saturated.
    pub last: u32,
    /// How many rows the window holds.
    pub size: u32,
    /// The rows inside the window, in the order the pages delivered them.
    pub hits: Vec<Hit>,
    /// How many rows the pages have delivered; the position of a row that states none.
    pub consumed: u32,
    /// The position the last page reached.
    pub reached: u32,
}

impl WindowWalk {
    /// A walk for a window: from its start over as many positions as it holds.
    pub fn start(window: crate::model::FetchWindow) -> (w: WindowWalk)
        ensures
            w.first == window.start,
            w.size == window.size.value(),
            w.last == (if window.start as int + w.size - 1 > u32::MAX { u32::MAX as int } else { window.start + w.size - 1 }),
            w.hits@.len() == 0,
            w.consumed == 0,
            w.reached == 0,
    {
        let size = window.size.get() as u32;
        let first = window.start;
        let last = first.saturating_add(size - 1);
        WindowWalk { first, last, size, hits: Vec::new(), consumed: 0, reached: 0 }
    }

    /// Take one page's rows: those inside the window are kept.
    pub fn take(&mut self, page: Vec<Hit>)
        ensures
            (final(self).hits@, final(self).consumed, final(self).reached) == take_rows(
                old(self).hits@,
                old(self).consumed,
                old(self).consumed,
                old(self).first,
                old(self).last,
                page@,
            ),
            final(self).first == old(self).first,
            final(self).last == old(self).last,
            final(self).size == old(self).size,
    {
        let ghost whole = page@;
        let ghost goal = take_rows(self.hits@, self.consumed, self.consumed, self.first, self.last, page@);
        let mut page = page;
        self.reached = self.consumed;
        let ghost m: int = 0;
        while page.len() > 0
            invariant
                0 <= m <= whole.len(),
                page@ == whole.skip(m),
                self.first == old(self).first,
                self.last == old(self).last,
                self.size == old(self).size,
                take_rows(self.hits@, self.consumed, self.reached, self.first, self.last, page@) == goal,
            decreases page@.len(),
        {
            let hit = page.remove(0);
            proof {
                assert(whole.skip(m).remove(0) =~= whole.skip(m + 1));
                assert(whole.skip(m).drop_first() =~= whole.skip(m + 1));
                m = m + 1;
            }
            self.consumed = self.consumed.saturating_add(1);
            let position = match hit.position {
                Some(p) => p,
                None => self.consumed,
            };
            self.reached = position;
            if self.first <= position && position <= self.last {
                self.hits.push(hit);
            }
        }
    }

    /// Whether the walk is over after a page: the window is full, the page reached its
    /// last position, or the page offers no next one.
    pub fn done(&self, has_next: bool) -> (r: bool)
        ensures
            r == (self.hits@.len() >= self.size || self.reached >= self.last || !has_next),
    {
        self.hits.len() as u64 >= self.size as u64 || self.reached >= self.last || !has_next
    }

    /// Whether a further page moved on: `Ok(false)` for a page without rows, which ends
    /// the walk; an error for one whose first row does not lie behind the last page's,
    /// which would loop for ever.
    pub fn advanced(&self, next: &Vec<Hit>) -> (r: Result<bool, Error>)
        ensures
            match r {
                Ok(true) => next@.len() > 0 && (match next@[0].position {
                    Some(p) => p,
                    None => inc(self.consumed),
                }) > self.reached,
                Ok(false) => next@.len() == 0,
                Err(Error::Unexpected(e)) => next@.len() > 0 && {
                    let starts = match next@[0].position {
                        Some(p) => p,
                        None => inc(self.consumed),
                    };
                    &&& starts <= self.reached
                    &&& e@ == (UnexpectedView::CountMismatch {
                        context: CONTEXT@ + " (paging did not advance)"@,
                        expected: if self.reached as int + 1 > usize::MAX {
                            usize::MAX as nat
                        } else {
                            self.reached as nat + 1
                        },
                        found: starts as nat,
                    })
                },
                Err(_) => false,
            },
    {
        if next.len() == 0 {
            return Ok(false);
        }
        let starts = match next[0].position {
            Some(p) => p,
            None => self.consumed.saturating_add(1),
        };
        if starts <= self.reached {
            return Err(Error::Unexpected(crate::error::UnexpectedError::CountMismatch {
                context: crate::text::concat(CONTEXT, " (paging did not advance)"),
                expected: if (self.reached as usize) < usize::MAX {
                    self.reached as usize + 1
                } else {
                    usize::MAX
                },
                found: starts as usize,
            }));
        }
        Ok(true)
    }
}

} // verus!
