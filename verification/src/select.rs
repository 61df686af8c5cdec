//! The client-side filters and the cut that pages through what was fetched.
use vstd::prelude::*;
use crate::model::{summary_spec, Format, Limit, Note, Page, Record, RecordView, SortKey, Status};
use crate::text::{decimal, decimal_spec, owned, same_text};

verus! {

/// The filters `--format` and `--language` ask for; they see the fetched records only.
#[derive(Debug, Clone, PartialEq, Eq, Default)]
pub struct Filters {
    /// `--format`.
    pub format: Option<Format>,
    /// `--language`, a lowercase three-letter code.
    pub language: Option<String>,
}

impl Filters {
    /// Whether any filter is set.
    pub open spec fn is_active_spec(&self) -> bool {
        self.format is Some || self.language is Some
    }

    /// Whether any filter is set.
    pub fn is_active(&self) -> (r: bool)
        ensures
            r == self.is_active_spec(),
    {
        self.format.is_some() || self.language.is_some()
    }
}

/// Where the shown page starts inside the fetched, filtered and sorted records.
#[derive(Debug, Clone, Copy, PartialEq, Eq, Structural)]
pub struct PageCut {
    /// How many matches come before the page.
    pub offset: usize,
    /// How many records the page shows.
    pub len: usize,
}

impl PageCut {
    /// The cut for a page: inside one anchored block the pages walk the matches; a
    /// stepped window already starts at the page, so nothing is skipped.
    pub open spec fn offset_spec(limit: Limit, page: Page, anchored: bool) -> int {
        if anchored {
            let o = (page.value() - 1) * limit.value();
            if o > usize::MAX {
                usize::MAX as int
            } else {
                o
            }
        } else {
            0
        }
    }

    /// The cut for a page.
    pub fn plan(limit: Limit, page: Page, anchored: bool) -> (c: PageCut)
        ensures
            c.offset == Self::offset_spec(limit, page, anchored),
            c.len == limit.value(),
    {
        let l = limit.get();
        let p = page.get();
        if anchored {
            let steps = (p - 1) as u64;
            proof {
                assert(steps * (l as u64) <= 0xffff_ffffu64 * 50) by (nonlinear_arith)
                    requires steps <= 0xffff_ffffu64, l <= 50;
            }
            let o = steps * (l as u64);
            let offset = if o > usize::MAX as u64 {
                usize::MAX
            } else {
                o as usize
            };
            PageCut { offset, len: l as usize }
        } else {
            PageCut { offset: 0, len: l as usize }
        }
    }
}

/// The views of a list of records.
pub open spec fn record_views(v: Seq<Record>) -> Seq<RecordView> {
    v.map_values(|r: Record| r.view())
}

/// Whether a record of the list has this id.
pub open spec fn holds_id(rs: Seq<RecordView>, id: Seq<char>) -> bool {
    exists|i: int| 0 <= i < rs.len() && (#[trigger] rs[i]).id == id
}

/// The records with every repeat of an id dropped: the first of each id stays, in order.
pub open spec fn dedup_spec(rs: Seq<RecordView>) -> Seq<RecordView>
    decreases rs.len(),
{
    if rs.len() == 0 {
        Seq::empty()
    } else {
        let before = dedup_spec(rs.drop_last());
        if holds_id(before, rs.last().id) {
            before
        } else {
            before.push(rs.last())
        }
    }
}

/// Whether a record of the list has this id.
fn has_record(records: &Vec<Record>, id: &str) -> (r: bool)
    ensures
        r == holds_id(record_views(records@), id@),
{
    let ghost rv = record_views(records@);
    let mut i: usize = 0;
    while i < records.len()
        invariant
            i <= records.len(),
            rv == record_views(records@),
            forall|j: int| 0 <= j < i ==> (#[trigger] rv[j]).id != id@,
        decreases records.len() - i,
    {
        proof {
            assert(rv[i as int] == records@[i as int].view());
        }
        if same_text(records[i].id.as_str(), id) {
            return true;
        }
        i = i + 1;
    }
    false
}

/// Drop every record whose id came earlier in the window, keeping the first of each id in
/// order, and count what was dropped. It runs before every count, so that what is counted
/// and shown is distinct records.
pub fn dedup(records: Vec<Record>) -> (r: (Vec<Record>, usize))
    ensures
        record_views(r.0@) == dedup_spec(record_views(records@)),
        r.1 == records@.len() - r.0@.len(),
{
    let ghost orig = records@;
    let mut rest = records;
    let mut kept: Vec<Record> = Vec::new();
    let mut dropped: usize = 0;
    let mut k: usize = 0;
    let n = rest.len();
    proof {
        assert(record_views(orig).take(0) =~= Seq::<RecordView>::empty());
    }
    while rest.len() > 0
        invariant
            k + rest@.len() == orig.len(),
            n == orig.len(),
            rest@ == orig.skip(k as int),
            record_views(kept@) == dedup_spec(record_views(orig).take(k as int)),
            dropped == k - kept@.len(),
            kept@.len() <= k,
        decreases rest@.len(),
    {
        let rec = rest.remove(0);
        proof {
            assert(rec == orig[k as int]);
            assert(orig.skip(k as int).remove(0) =~= orig.skip(k + 1));
            assert(record_views(orig).take(k + 1).drop_last() =~= record_views(orig).take(k as int));
            assert(record_views(orig).take(k + 1).last() == rec.view());
        }
        if has_record(&kept, rec.id.as_str()) {
            dropped = dropped + 1;
        } else {
            let ghost before = kept@;
            kept.push(rec);
            proof {
                assert(record_views(kept@) =~= record_views(before).push(rec.view()));
            }
        }
        k = k + 1;
    }
    proof {
        assert(record_views(orig).take(k as int) =~= record_views(orig));
    }
    (kept, dropped)
}

/// The kind of the note about repeats the catalogue delivered.
pub const DUPLICATE_RECORDS_DROPPED: &'static str = "duplicate_records_dropped";

/// The message of the note about `n` dropped repeats.
pub open spec fn duplicate_message(n: nat) -> Seq<char> {
    "the catalogue delivered "@ + decimal_spec(n) + (if n == 1 { " record"@ } else { " records"@ })
        + " twice in this window; the repeats were dropped"@
}

/// The note that says how many repeats were dropped from the window.
pub fn duplicate_note(dropped: usize) -> (n: Note)
    ensures
        n.kind@ == DUPLICATE_RECORDS_DROPPED@,
        n.message@ == duplicate_message(dropped as nat),
        n.records@.len() == 0,
{
    let count = decimal(dropped as u64);
    let mut m = owned("the catalogue delivered ");
    crate::text::push_str(&mut m, count.as_str());
    if dropped == 1 {
        crate::text::push_str(&mut m, " record");
    } else {
        crate::text::push_str(&mut m, " records");
    }
    crate::text::push_str(&mut m, " twice in this window; the repeats were dropped");
    Note::new(DUPLICATE_RECORDS_DROPPED, m)
}

/// The kind of the note that the KOBV catalogue pages unstably.
pub const RESULT_ORDER_UNSTABLE: &'static str = "result_order_unstable";

/// Its message.
pub const RESULT_ORDER_UNSTABLE_MESSAGE: &'static str = "the KOBV catalogue does not order a result stably — two identical requests return different records, so this page may overlap the previous one or leave records out";

/// The note that a page past the first of a KOBV search may overlap its neighbours.
pub fn unstable_order_note() -> (n: Note)
    ensures
        n.kind@ == RESULT_ORDER_UNSTABLE@,
        n.message@ == RESULT_ORDER_UNSTABLE_MESSAGE@,
        n.records@.len() == 0,
{
    Note::new(RESULT_ORDER_UNSTABLE, owned(RESULT_ORDER_UNSTABLE_MESSAGE))
}

/// Whether a record passes the filters: its format is the asked one, and its languages
/// hold the asked code.
pub open spec fn passes(r: RecordView, f: Filters) -> bool {
    &&& (f.format matches Some(x) ==> r.format == x)
    &&& (f.language matches Some(l) ==> r.languages.contains(l@))
}

/// The records that pass the filters, in order.
pub open spec fn filtered_spec(rs: Seq<RecordView>, f: Filters) -> Seq<RecordView>
    decreases rs.len(),
{
    if rs.len() == 0 {
        Seq::empty()
    } else if passes(rs.last(), f) {
        filtered_spec(rs.drop_last(), f).push(rs.last())
    } else {
        filtered_spec(rs.drop_last(), f)
    }
}

/// Whether a record's languages hold the code.
fn speaks(record: &Record, code: &str) -> (r: bool)
    ensures
        r == record.view().languages.contains(code@),
{
    let ghost ls = record.view().languages;
    let mut i: usize = 0;
    while i < record.languages.len()
        invariant
            i <= record.languages.len(),
            ls == record.view().languages,
            ls.len() == record.languages@.len(),
            forall|j: int| 0 <= j < i ==> ls[j] != code@,
        decreases record.languages.len() - i,
    {
        proof {
            assert(ls[i as int] == record.languages@[i as int]@);
        }
        if same_text(record.languages[i].as_str(), code) {
            return true;
        }
        i = i + 1;
    }
    proof {
        if ls.contains(code@) {
            let j = choose|j: int| 0 <= j < ls.len() && ls[j] == code@;
            assert(ls[j] != code@);
        }
    }
    false
}

/// Keep the records that pass `--format` and `--language`, in order. The filters see the
/// fetched records only.
pub fn filter(records: Vec<Record>, filters: &Filters) -> (v: Vec<Record>)
    ensures
        record_views(v@) == filtered_spec(record_views(records@), *filters),
{
    let ghost orig = records@;
    let n = records.len();
    let mut rest = records;
    let mut kept: Vec<Record> = Vec::new();
    let mut k: usize = 0;
    proof {
        assert(record_views(orig).take(0) =~= Seq::<RecordView>::empty());
    }
    while rest.len() > 0
        invariant
            k + rest@.len() == orig.len(),
            n == orig.len(),
            rest@ == orig.skip(k as int),
            record_views(kept@) == filtered_spec(record_views(orig).take(k as int), *filters),
        decreases rest@.len(),
    {
        let rec = rest.remove(0);
        proof {
            assert(rec == orig[k as int]);
            assert(orig.skip(k as int).remove(0) =~= orig.skip(k + 1));
            assert(record_views(orig).take(k + 1).drop_last() =~= record_views(orig).take(k as int));
            assert(record_views(orig).take(k + 1).last() == rec.view());
        }
        let format_ok = match filters.format {
            Some(x) => rec.format == x,
            None => true,
        };
        let language_ok = match &filters.language {
            Some(l) => speaks(&rec, l.as_str()),
            None => true,
        };
        if format_ok && language_ok {
            let ghost before = kept@;
            kept.push(rec);
            proof {
                assert(record_views(kept@) =~= record_views(before).push(rec.view()));
            }
        }
        k = k + 1;
    }
    proof {
        assert(record_views(orig).take(k as int) =~= record_views(orig));
    }
    kept
}

/// The page a cut takes: the records after `offset`, at most `len` of them.
pub open spec fn page_spec(rs: Seq<RecordView>, cut: PageCut) -> Seq<RecordView> {
    let start = if cut.offset < rs.len() { cut.offset as int } else { rs.len() as int };
    let end = if start + cut.len < rs.len() { start + cut.len } else { rs.len() as int };
    rs.subrange(start, end)
}

/// Cut one page out of the records: skip `offset`, keep at most `len`, in order.
pub fn take_page(records: Vec<Record>, cut: PageCut) -> (v: Vec<Record>)
    ensures
        record_views(v@) == page_spec(record_views(records@), cut),
{
    let ghost orig = records@;
    let n = records.len();
    let start = if cut.offset < n { cut.offset } else { n };
    let end = if cut.len < n - start { start + cut.len } else { n };
    let mut rest = records;
    let mut kept: Vec<Record> = Vec::new();
    let mut k: usize = 0;
    while rest.len() > 0
        invariant
            k + rest@.len() == orig.len(),
            n == orig.len(),
            start <= end <= n,
            rest@ == orig.skip(k as int),
            k <= start ==> kept@.len() == 0,
            k > start ==> record_views(kept@) == record_views(orig).subrange(start as int, if k < end { k as int } else { end as int }),
        decreases rest@.len(),
    {
        let rec = rest.remove(0);
        proof {
            assert(rec == orig[k as int]);
            assert(orig.skip(k as int).remove(0) =~= orig.skip(k + 1));
        }
        if start <= k && k < end {
            let ghost before = kept@;
            kept.push(rec);
            proof {
                if k == start {
                    assert(record_views(kept@) =~= record_views(orig).subrange(start as int, k + 1));
                } else {
                    assert(record_views(kept@) =~= record_views(before).push(rec.view()));
                    assert(record_views(orig).subrange(start as int, k + 1) =~= record_views(orig).subrange(start as int, k as int).push(
                        rec.view(),
                    ));
                }
            }
        }
        k = k + 1;
    }
    proof {
        if start == end || n == 0 {
            assert(record_views(kept@) =~= page_spec(record_views(orig), cut));
        } else {
            assert(record_views(kept@) =~= page_spec(record_views(orig), cut));
        }
    }
    kept
}

/// One character of a sort key: the umlauts and `ß` written out as the two letters
/// they stand for, so that `Öhler` sorts as `Oehler`; every other character as itself.
pub open spec fn fold_one(c: char) -> Seq<int> {
    if c == 'ä' {
        seq!['a' as int, 'e' as int]
    } else if c == 'ö' {
        seq!['o' as int, 'e' as int]
    } else if c == 'ü' {
        seq!['u' as int, 'e' as int]
    } else if c == 'Ä' {
        seq!['A' as int, 'e' as int]
    } else if c == 'Ö' {
        seq!['O' as int, 'e' as int]
    } else if c == 'Ü' {
        seq!['U' as int, 'e' as int]
    } else if c == 'ß' {
        seq!['s' as int, 's' as int]
    } else {
        seq![c as int]
    }
}

/// A text as a sort key.
pub open spec fn fold_text(s: Seq<char>) -> Seq<int>
    decreases s.len(),
{
    if s.len() == 0 {
        Seq::empty()
    } else {
        fold_text(s.drop_last()) + fold_one(s.last())
    }
}

/// Where a light ranks in an availability sort: available first, unknown last.
pub open spec fn light_rank(s: Status) -> int {
    match s {
        Status::Available => 0,
        Status::Reference => 1,
        Status::Unavailable => 2,
        Status::Unknown => 3,
    }
}

/// The key a record sorts by: the newest year first and records without a year after
/// them; the displayed title with the umlauts folded; the first author's name folded and
/// records without an author after them; the record's light over all its holdings. The
/// catalogue's own order has an empty key, so it moves nothing.
pub open spec fn sort_key(r: RecordView, k: SortKey) -> Seq<int> {
    match k {
        SortKey::Relevance => Seq::empty(),
        SortKey::Year => match r.year {
            Some(y) => seq![0, -y],
            None => seq![1],
        },
        SortKey::Title => fold_text(r.title),
        SortKey::Author => if r.authors.len() > 0 {
            seq![0int] + fold_text(r.authors[0].name)
        } else {
            seq![1]
        },
        SortKey::Availability => seq![light_rank(summary_spec(r.holdings.map_values(|h: crate::model::HoldingView| h.summary)))],
    }
}

/// Whether one key comes strictly before another, lexicographically.
pub open spec fn lex_less(a: Seq<int>, b: Seq<int>) -> bool
    decreases a.len(),
{
    if a.len() == 0 {
        b.len() > 0
    } else if b.len() == 0 {
        false
    } else if a[0] < b[0] {
        true
    } else if a[0] > b[0] {
        false
    } else {
        lex_less(a.drop_first(), b.drop_first())
    }
}

/// Whether a record sorts strictly before another.
pub open spec fn sorts_before(a: RecordView, b: RecordView, k: SortKey) -> bool {
    lex_less(sort_key(a, k), sort_key(b, k))
}

/// A record put into a sorted list: after every record it does not sort before, so that
/// records with equal keys keep their order.
pub open spec fn insert_spec(s: Seq<RecordView>, x: RecordView, k: SortKey) -> Seq<RecordView>
    decreases s.len(),
{
    if s.len() == 0 {
        seq![x]
    } else if sorts_before(x, s.last(), k) {
        insert_spec(s.drop_last(), x, k).push(s.last())
    } else {
        s.push(x)
    }
}

/// The records in sort order, stable: records with equal keys keep the order they came in.
pub open spec fn sort_spec(rs: Seq<RecordView>, k: SortKey) -> Seq<RecordView>
    decreases rs.len(),
{
    if rs.len() == 0 {
        Seq::empty()
    } else {
        insert_spec(sort_spec(rs.drop_last(), k), rs.last(), k)
    }
}

/// The values of a key.
pub open spec fn ints(v: Seq<i64>) -> Seq<int> {
    v.map_values(|x: i64| x as int)
}

/// Add one character of a sort key.
fn push_folded(v: &mut Vec<i64>, c: char)
    ensures
        ints(final(v)@) == ints(old(v)@) + fold_one(c),
{
    let ghost before = v@;
    if c == 'ä' {
        v.push('a' as u32 as i64);
        v.push('e' as u32 as i64);
    } else if c == 'ö' {
        v.push('o' as u32 as i64);
        v.push('e' as u32 as i64);
    } else if c == 'ü' {
        v.push('u' as u32 as i64);
        v.push('e' as u32 as i64);
    } else if c == 'Ä' {
        v.push('A' as u32 as i64);
        v.push('e' as u32 as i64);
    } else if c == 'Ö' {
        v.push('O' as u32 as i64);
        v.push('e' as u32 as i64);
    } else if c == 'Ü' {
        v.push('U' as u32 as i64);
        v.push('e' as u32 as i64);
    } else if c == 'ß' {
        v.push('s' as u32 as i64);
        v.push('s' as u32 as i64);
    } else {
        v.push(c as u32 as i64);
    }
    proof {
        assert(ints(v@) =~= ints(before) + fold_one(c));
    }
}

/// Add a text to a sort key.
fn push_text(v: &mut Vec<i64>, t: &str)
    ensures
        ints(final(v)@) == ints(old(v)@) + fold_text(t@),
{
    let c = crate::text::chars_of(t);
    let ghost start = ints(v@);
    let mut i: usize = 0;
    while i < c.len()
        invariant
            i <= c.len(),
            c@ == t@,
            ints(v@) == start + fold_text(t@.take(i as int)),
        decreases c.len() - i,
    {
        proof {
            assert(t@.take(i + 1).drop_last() =~= t@.take(i as int));
            assert(t@.take(i + 1).last() == c@[i as int]);
        }
        push_folded(v, c[i]);
        proof {
            assert(start + fold_text(t@.take(i as int)) + fold_one(c@[i as int]) =~= start + fold_text(t@.take(i + 1)));
        }
        i = i + 1;
    }
    proof {
        assert(t@.take(i as int) =~= t@);
    }
}

/// The key a record sorts by.
pub fn key_of(r: &Record, k: SortKey) -> (v: Vec<i64>)
    ensures
        ints(v@) == sort_key(r.view(), k),
{
    let mut v: Vec<i64> = Vec::new();
    match k {
        SortKey::Relevance => {
            proof {
                assert(ints(v@) =~= Seq::<int>::empty());
            }
        },
        SortKey::Year => match r.year {
            Some(y) => {
                v.push(0);
                v.push(-(y as i64));
                proof {
                    assert(ints(v@) =~= seq![0, -(y as int)]);
                }
            },
            None => {
                v.push(1);
                proof {
                    assert(ints(v@) =~= seq![1int]);
                }
            },
        },
        SortKey::Title => {
            push_text(&mut v, r.title.as_str());
            proof {
                assert(ints(v@) =~= fold_text(r.title@));
            }
        },
        SortKey::Author => {
            if r.authors.len() > 0 {
                v.push(0);
                proof {
                    assert(ints(v@) =~= seq![0int]);
                    assert(r.view().authors[0] == r.authors@[0].view());
                }
                push_text(&mut v, r.authors[0].name.as_str());
            } else {
                v.push(1);
                proof {
                    assert(ints(v@) =~= seq![1int]);
                }
            }
        },
        SortKey::Availability => {
            let mut lights: Vec<Status> = Vec::new();
            let mut i: usize = 0;
            while i < r.holdings.len()
                invariant
                    i <= r.holdings.len(),
                    lights@ == r.view().holdings.map_values(|h: crate::model::HoldingView| h.summary).take(i as int),
                decreases r.holdings.len() - i,
            {
                proof {
                    assert(r.view().holdings[i as int] == r.holdings@[i as int].view());
                }
                lights.push(r.holdings[i].summary);
                proof {
                    assert(lights@ =~= r.view().holdings.map_values(|h: crate::model::HoldingView| h.summary).take(i + 1));
                }
                i = i + 1;
            }
            proof {
                assert(lights@ =~= r.view().holdings.map_values(|h: crate::model::HoldingView| h.summary));
            }
            let light = Status::summarize(&lights);
            let rank: i64 = match light {
                Status::Available => 0,
                Status::Reference => 1,
                Status::Unavailable => 2,
                Status::Unknown => 3,
            };
            v.push(rank);
            proof {
                assert(ints(v@) =~= seq![light_rank(light)]);
            }
        },
    }
    v
}

/// Whether one key comes strictly before another.
fn less(a: &Vec<i64>, b: &Vec<i64>) -> (r: bool)
    ensures
        r == lex_less(ints(a@), ints(b@)),
{
    let mut i: usize = 0;
    proof {
        assert(ints(a@).skip(0) =~= ints(a@));
        assert(ints(b@).skip(0) =~= ints(b@));
    }
    while i < a.len() && i < b.len()
        invariant
            i <= a.len(),
            i <= b.len(),
            lex_less(ints(a@), ints(b@)) == lex_less(ints(a@).skip(i as int), ints(b@).skip(i as int)),
        decreases a.len() - i,
    {
        let x = a[i];
        let y = b[i];
        proof {
            assert(ints(a@).skip(i as int)[0] == x as int);
            assert(ints(b@).skip(i as int)[0] == y as int);
        }
        if x < y {
            return true;
        }
        if x > y {
            return false;
        }
        proof {
            assert(ints(a@).skip(i as int).drop_first() =~= ints(a@).skip(i + 1));
            assert(ints(b@).skip(i as int).drop_first() =~= ints(b@).skip(i + 1));
        }
        i = i + 1;
    }
    proof {
        if i == a.len() {
            assert(ints(a@).skip(i as int).len() == 0);
        } else {
            assert(ints(b@).skip(i as int).len() == 0);
        }
    }
    i == a.len() && i < b.len()
}

/// An insertion point: past every record the new one does not sort before.
proof fn lemma_insert_at(s: Seq<RecordView>, x: RecordView, k: SortKey, j: int)
    requires
        0 <= j <= s.len(),
        forall|m: int| j <= m < s.len() ==> sorts_before(x, #[trigger] s[m], k),
        j == 0 || !sorts_before(x, s[j - 1], k),
    ensures
        insert_spec(s, x, k) == s.take(j).push(x) + s.skip(j),
    decreases s.len(),
{
    if s.len() == 0 {
        assert(s.take(j).push(x) + s.skip(j) =~= seq![x]);
    } else if j == s.len() {
        assert(!sorts_before(x, s.last(), k));
        assert(s.take(j).push(x) + s.skip(j) =~= s.push(x));
    } else {
        assert(sorts_before(x, s[s.len() - 1], k));
        lemma_insert_at(s.drop_last(), x, k, j);
        assert(s.drop_last().take(j).push(x) + s.drop_last().skip(j) + seq![s.last()] =~= s.take(j).push(x) + s.skip(j));
        assert(insert_spec(s.drop_last(), x, k).push(s.last()) =~= insert_spec(s.drop_last(), x, k) + seq![s.last()]);
    }
}

/// Sort the records by a key, stably: records with equal keys keep their order. Over the
/// fetched records only.
pub fn sort(records: Vec<Record>, k: SortKey) -> (v: Vec<Record>)
    ensures
        record_views(v@) == sort_spec(record_views(records@), k),
{
    let ghost orig = records@;
    let n = records.len();
    let mut rest = records;
    let mut out: Vec<Record> = Vec::new();
    let mut c: usize = 0;
    proof {
        assert(record_views(orig).take(0) =~= Seq::<RecordView>::empty());
    }
    while rest.len() > 0
        invariant
            c + rest@.len() == orig.len(),
            n == orig.len(),
            rest@ == orig.skip(c as int),
            record_views(out@) == sort_spec(record_views(orig).take(c as int), k),
        decreases rest@.len(),
    {
        let x = rest.remove(0);
        proof {
            assert(x == orig[c as int]);
            assert(orig.skip(c as int).remove(0) =~= orig.skip(c + 1));
            assert(record_views(orig).take(c + 1).drop_last() =~= record_views(orig).take(c as int));
            assert(record_views(orig).take(c + 1).last() == x.view());
        }
        let kx = key_of(&x, k);
        let ghost s = record_views(out@);
        let mut j: usize = out.len();
        while j > 0 && less(&kx, &key_of(&out[j - 1], k))
            invariant
                j <= out.len(),
                s == record_views(out@),
                ints(kx@) == sort_key(x.view(), k),
                forall|m: int| j <= m < s.len() ==> sorts_before(x.view(), #[trigger] s[m], k),
            decreases j,
        {
            proof {
                assert(s[j - 1] == out@[j - 1].view());
            }
            j = j - 1;
        }
        proof {
            if j > 0 {
                assert(s[j - 1] == out@[j - 1].view());
            }
            lemma_insert_at(s, x.view(), k, j as int);
        }
        out.insert(j, x);
        proof {
            assert(record_views(out@) =~= s.take(j as int).push(x.view()) + s.skip(j as int));
        }
        c = c + 1;
    }
    proof {
        assert(record_views(orig).take(c as int) =~= record_views(orig));
    }
    out
}

/// A holding marked as one of the invocation's own libraries: its ISIL is that of a
/// location of `--at`.
pub open spec fn mine_spec(h: crate::model::HoldingView, isils: Seq<Seq<char>>) -> crate::model::HoldingView {
    crate::model::HoldingView { mine: h.mine || (h.isil matches Some(i) && isils.contains(i)), ..h }
}

/// A record with its own libraries' holdings marked.
pub open spec fn marked_spec(r: RecordView, isils: Seq<Seq<char>>) -> RecordView {
    RecordView { holdings: r.holdings.map_values(|h: crate::model::HoldingView| mine_spec(h, isils)), ..r }
}

/// The ISILs of the locations.
pub open spec fn location_isils(ls: Seq<crate::model::Location>) -> Seq<Seq<char>> {
    ls.map_values(|l: crate::model::Location| l.isil.0@)
}

/// Whether an ISIL is that of one of the locations.
fn is_mine(locations: &Vec<crate::model::Location>, isil: &str) -> (r: bool)
    ensures
        r == location_isils(locations@).contains(isil@),
{
    let ghost ls = location_isils(locations@);
    let mut i: usize = 0;
    while i < locations.len()
        invariant
            i <= locations.len(),
            ls == location_isils(locations@),
            forall|j: int| 0 <= j < i ==> ls[j] != isil@,
        decreases locations.len() - i,
    {
        if same_text(locations[i].isil.as_str(), isil) {
            proof {
                assert(ls[i as int] == isil@);
            }
            return true;
        }
        i = i + 1;
    }
    proof {
        if ls.contains(isil@) {
            let j = choose|j: int| 0 <= j < ls.len() && ls[j] == isil@;
            assert(ls[j] != isil@);
        }
    }
    false
}

/// Mark, in every record, the holdings of the libraries `--at` names as the invocation's
/// own. Without `--at` nothing is marked.
pub fn mark_mine(records: &mut Vec<Record>, locations: &Vec<crate::model::Location>)
    ensures
        record_views(final(records)@) == record_views(old(records)@).map_values(|r: RecordView| marked_spec(r, location_isils(locations@))),
{
    let ghost isils = location_isils(locations@);
    let ghost start = record_views(records@);
    let mut i: usize = 0;
    while i < records.len()
        invariant
            i <= records.len(),
            records@.len() == start.len(),
            isils == location_isils(locations@),
            forall|k: int| 0 <= k < i ==> (#[trigger] records@[k]).view() == marked_spec(start[k], isils),
            forall|k: int| i <= k < records.len() ==> (#[trigger] records@[k]).view() == start[k],
        decreases records.len() - i,
    {
        let mut r = records.remove(i);
        let ghost before = r.view();
        let mut j: usize = 0;
        while j < r.holdings.len()
            invariant
                j <= r.holdings.len(),
                r.holdings@.len() == before.holdings.len(),
                isils == location_isils(locations@),
                r.view() == (RecordView { holdings: r.view().holdings, ..before }),
                forall|m: int| 0 <= m < j ==> (#[trigger] r.holdings@[m]).view() == mine_spec(before.holdings[m], isils),
                forall|m: int| j <= m < r.holdings.len() ==> (#[trigger] r.holdings@[m]).view() == before.holdings[m],
            decreases r.holdings.len() - j,
        {
            let mut h = r.holdings.remove(j);
            let mine = match &h.isil {
                Some(x) => is_mine(locations, x.as_str()),
                None => false,
            };
            h.mine = h.mine || mine;
            r.holdings.insert(j, h);
            j = j + 1;
        }
        proof {
            assert(r.view().holdings =~= before.holdings.map_values(|h: crate::model::HoldingView| mine_spec(h, isils)));
        }
        records.insert(i, r);
        i = i + 1;
    }
    proof {
        assert(record_views(records@) =~= start.map_values(|r: RecordView| marked_spec(r, isils)));
    }
}

/// The part of a list a cut takes: the items after `offset`, at most `len` of them.
pub open spec fn cut_seq<T>(s: Seq<T>, cut: PageCut) -> Seq<T> {
    let start = if cut.offset < s.len() { cut.offset as int } else { s.len() as int };
    let end = if start + cut.len < s.len() { start + cut.len } else { s.len() as int };
    s.subrange(start, end)
}

/// The ids of the records a block names, in the order of the records.
pub open spec fn in_block(rs: Seq<RecordView>, ids: Seq<Seq<char>>) -> Seq<Seq<char>>
    decreases rs.len(),
{
    if rs.len() == 0 {
        Seq::empty()
    } else if ids.contains(rs.last().id) {
        in_block(rs.drop_last(), ids).push(rs.last().id)
    } else {
        in_block(rs.drop_last(), ids)
    }
}

/// A location's block with its page cut: the records it names, in the order of the
/// records, cut like any page. Every block pages on its own, by the same cut.
pub open spec fn block_page(rs: Seq<RecordView>, b: crate::model::AtBlockView, cut: PageCut) -> crate::model::AtBlockView {
    crate::model::AtBlockView { records: cut_seq(in_block(rs, b.records), cut), ..b }
}

/// Whether a record is on the page of some block.
pub open spec fn on_a_page(id: Seq<char>, blocks: Seq<crate::model::AtBlockView>) -> bool {
    exists|k: int| 0 <= k < blocks.len() && (#[trigger] blocks[k]).records.contains(id)
}

/// The records on the page of some block, in order.
pub open spec fn paged_records(rs: Seq<RecordView>, blocks: Seq<crate::model::AtBlockView>) -> Seq<RecordView>
    decreases rs.len(),
{
    if rs.len() == 0 {
        Seq::empty()
    } else if on_a_page(rs.last().id, blocks) {
        paged_records(rs.drop_last(), blocks).push(rs.last())
    } else {
        paged_records(rs.drop_last(), blocks)
    }
}

/// Whether a list of ids holds this one.
fn holds(ids: &Vec<crate::model::RecordId>, id: &str) -> (r: bool)
    ensures
        r == crate::model::id_views(ids@).contains(id@),
{
    let ghost v = crate::model::id_views(ids@);
    let mut i: usize = 0;
    while i < ids.len()
        invariant
            i <= ids.len(),
            v == crate::model::id_views(ids@),
            forall|j: int| 0 <= j < i ==> v[j] != id@,
        decreases ids.len() - i,
    {
        if same_text(ids[i].as_str(), id) {
            proof {
                assert(v[i as int] == id@);
            }
            return true;
        }
        i = i + 1;
    }
    proof {
        if v.contains(id@) {
            let j = choose|j: int| 0 <= j < v.len() && v[j] == id@;
            assert(v[j] != id@);
        }
    }
    false
}

/// The page of one block's records.
fn block_ids(records: &Vec<Record>, named: &Vec<crate::model::RecordId>, cut: PageCut) -> (v: Vec<crate::model::RecordId>)
    ensures
        crate::model::id_views(v@) == cut_seq(in_block(record_views(records@), crate::model::id_views(named@)), cut),
{
    let ghost rs = record_views(records@);
    let ghost ids = crate::model::id_views(named@);
    let mut all: Vec<crate::model::RecordId> = Vec::new();
    let mut i: usize = 0;
    while i < records.len()
        invariant
            i <= records.len(),
            rs == record_views(records@),
            ids == crate::model::id_views(named@),
            crate::model::id_views(all@) == in_block(rs.take(i as int), ids),
        decreases records.len() - i,
    {
        proof {
            assert(rs.take(i + 1).drop_last() =~= rs.take(i as int));
            assert(rs.take(i + 1).last() == records@[i as int].view());
        }
        if holds(named, records[i].id.as_str()) {
            let ghost before = all@;
            let c = records[i].id.copy();
            all.push(c);
            proof {
                assert(crate::model::id_views(all@) =~= crate::model::id_views(before).push(c.id_spec()));
            }
        }
        i = i + 1;
    }
    proof {
        assert(rs.take(i as int) =~= rs);
    }
    let ghost whole = crate::model::id_views(all@);
    let n = all.len();
    let start = if cut.offset < n { cut.offset } else { n };
    let end = if cut.len < n - start { start + cut.len } else { n };
    let mut page: Vec<crate::model::RecordId> = Vec::new();
    let mut k: usize = start;
    while k < end
        invariant
            start <= k <= end <= n,
            n == all@.len(),
            whole == crate::model::id_views(all@),
            crate::model::id_views(page@) == whole.subrange(start as int, k as int),
        decreases end - k,
    {
        let ghost before = page@;
        let c = all[k].copy();
        page.push(c);
        proof {
            assert(crate::model::id_views(page@) =~= crate::model::id_views(before).push(c.id_spec()));
            assert(whole.subrange(start as int, k + 1) =~= whole.subrange(start as int, k as int).push(whole[k as int]));
        }
        k = k + 1;
    }
    proof {
        assert(crate::model::id_views(page@) =~= cut_seq(whole, cut));
    }
    page
}

/// Whether a record is on the page of some block.
fn on_page(blocks: &Vec<crate::model::AtBlock>, id: &str) -> (r: bool)
    ensures
        r == on_a_page(id@, crate::model::block_views(blocks@)),
{
    let ghost bs = crate::model::block_views(blocks@);
    let mut k: usize = 0;
    while k < blocks.len()
        invariant
            k <= blocks.len(),
            bs == crate::model::block_views(blocks@),
            forall|m: int| 0 <= m < k ==> !(#[trigger] bs[m]).records.contains(id@),
        decreases blocks.len() - k,
    {
        proof {
            assert(bs[k as int] == blocks@[k as int].view());
        }
        if holds(&blocks[k].records, id) {
            return true;
        }
        k = k + 1;
    }
    false
}

/// Cut every location's block to its page, and keep the records that are on one of
/// them. All blocks page together: the same cut, each over its own records.
pub fn take_page_per_location(records: Vec<Record>, at: &mut Vec<crate::model::AtBlock>, cut: PageCut) -> (v: Vec<Record>)
    ensures
        crate::model::block_views(final(at)@) == crate::model::block_views(old(at)@).map_values(
            |b: crate::model::AtBlockView| block_page(record_views(records@), b, cut),
        ),
        record_views(v@) == paged_records(record_views(records@), crate::model::block_views(final(at)@)),
{
    let ghost rs = record_views(records@);
    let ghost start = crate::model::block_views(at@);
    let mut i: usize = 0;
    while i < at.len()
        invariant
            i <= at.len(),
            at@.len() == start.len(),
            rs == record_views(records@),
            forall|k: int| 0 <= k < i ==> (#[trigger] at@[k]).view() == block_page(rs, start[k], cut),
            forall|k: int| i <= k < at.len() ==> (#[trigger] at@[k]).view() == start[k],
        decreases at.len() - i,
    {
        let mut b = at.remove(i);
        let page = block_ids(&records, &b.records, cut);
        b.records = page;
        at.insert(i, b);
        i = i + 1;
    }
    proof {
        assert(crate::model::block_views(at@) =~= start.map_values(|b: crate::model::AtBlockView| block_page(rs, b, cut)));
    }
    let ghost bs = crate::model::block_views(at@);
    let ghost orig = records@;
    let n = records.len();
    let mut rest = records;
    let mut kept: Vec<Record> = Vec::new();
    let mut c: usize = 0;
    proof {
        assert(rs.take(0) =~= Seq::<RecordView>::empty());
    }
    while rest.len() > 0
        invariant
            c + rest@.len() == orig.len(),
            n == orig.len(),
            rest@ == orig.skip(c as int),
            rs == record_views(orig),
            bs == crate::model::block_views(at@),
            record_views(kept@) == paged_records(rs.take(c as int), bs),
        decreases rest@.len(),
    {
        let rec = rest.remove(0);
        proof {
            assert(rec == orig[c as int]);
            assert(orig.skip(c as int).remove(0) =~= orig.skip(c + 1));
            assert(rs.take(c + 1).drop_last() =~= rs.take(c as int));
            assert(rs.take(c + 1).last() == rec.view());
        }
        if on_page(at, rec.id.as_str()) {
            let ghost before = kept@;
            kept.push(rec);
            proof {
                assert(record_views(kept@) =~= record_views(before).push(rec.view()));
            }
        }
        c = c + 1;
    }
    proof {
        assert(rs.take(c as int) =~= rs);
    }
    kept
}

/// Whether a record has a holding whose light is available right now. Reference stock
/// does not count, and a record that states no light does not either.
pub open spec fn in_now(r: RecordView) -> bool {
    exists|k: int| 0 <= k < r.holdings.len() && (#[trigger] r.holdings[k]).summary == Status::Available
}

/// The records with a copy that is in right now, in order.
pub open spec fn available_spec(rs: Seq<RecordView>) -> Seq<RecordView>
    decreases rs.len(),
{
    if rs.len() == 0 {
        Seq::empty()
    } else if in_now(rs.last()) {
        available_spec(rs.drop_last()).push(rs.last())
    } else {
        available_spec(rs.drop_last())
    }
}

/// Whether a record has a holding that is in right now.
fn is_in(r: &Record) -> (b: bool)
    ensures
        b == in_now(r.view()),
{
    let mut k: usize = 0;
    while k < r.holdings.len()
        invariant
            k <= r.holdings.len(),
            forall|m: int| 0 <= m < k ==> (#[trigger] r.view().holdings[m]).summary != Status::Available,
        decreases r.holdings.len() - k,
    {
        proof {
            assert(r.view().holdings[k as int] == r.holdings@[k as int].view());
        }
        if r.holdings[k].summary == Status::Available {
            return true;
        }
        k = k + 1;
    }
    false
}

/// Whether any copy of a record states a status.
pub open spec fn stated(r: RecordView) -> bool {
    exists|k: int| 0 <= k < r.holdings.len() && (#[trigger] r.holdings[k]).summary != Status::Unknown
}

/// What `--available` removes from a page: how many records a status said were not in,
/// and how many no status was stated for.
pub open spec fn hidden_spec(rs: Seq<RecordView>) -> (nat, nat)
    decreases rs.len(),
{
    if rs.len() == 0 {
        (0, 0)
    } else {
        let (no, unstated) = hidden_spec(rs.drop_last());
        if in_now(rs.last()) {
            (no, unstated)
        } else if stated(rs.last()) {
            (no + 1, unstated)
        } else {
            (no, unstated + 1)
        }
    }
}

/// What `--available` removed from one page: the records a status said were not in, and
/// the records no status was stated for. Only the second travels further: "nothing was
/// said" must not read as "it is out".
#[derive(Debug, Clone, Copy, PartialEq, Eq, Structural)]
pub struct Hidden {
    pub said_no: usize,
    pub unstated: usize,
}

/// Whether any copy of a record states a status.
fn is_stated(r: &Record) -> (b: bool)
    ensures
        b == stated(r.view()),
{
    let mut k: usize = 0;
    while k < r.holdings.len()
        invariant
            k <= r.holdings.len(),
            forall|m: int| 0 <= m < k ==> (#[trigger] r.view().holdings[m]).summary == Status::Unknown,
        decreases r.holdings.len() - k,
    {
        proof {
            assert(r.view().holdings[k as int] == r.holdings@[k as int].view());
        }
        if r.holdings[k].summary != Status::Unknown {
            return true;
        }
        k = k + 1;
    }
    false
}

/// Keep the records with a copy that is in right now: `--available` thins the page out.
/// What it removed is counted apart: records a status said were not in, and records no
/// status was stated for.
pub fn keep_available(records: Vec<Record>) -> (v: (Vec<Record>, Hidden))
    ensures
        record_views(v.0@) == available_spec(record_views(records@)),
        (v.1.said_no as nat, v.1.unstated as nat) == hidden_spec(record_views(records@)),
{
    let ghost orig = records@;
    let n = records.len();
    let mut rest = records;
    let mut kept: Vec<Record> = Vec::new();
    let mut said_no: usize = 0;
    let mut unstated: usize = 0;
    let mut c: usize = 0;
    proof {
        assert(record_views(orig).take(0) =~= Seq::<RecordView>::empty());
    }
    while rest.len() > 0
        invariant
            c + rest@.len() == orig.len(),
            n == orig.len(),
            rest@ == orig.skip(c as int),
            record_views(kept@) == available_spec(record_views(orig).take(c as int)),
            (said_no as nat, unstated as nat) == hidden_spec(record_views(orig).take(c as int)),
            said_no + unstated <= c,
        decreases rest@.len(),
    {
        let rec = rest.remove(0);
        proof {
            assert(rec == orig[c as int]);
            assert(orig.skip(c as int).remove(0) =~= orig.skip(c + 1));
            assert(record_views(orig).take(c + 1).drop_last() =~= record_views(orig).take(c as int));
            assert(record_views(orig).take(c + 1).last() == rec.view());
        }
        if is_in(&rec) {
            let ghost before = kept@;
            kept.push(rec);
            proof {
                assert(record_views(kept@) =~= record_views(before).push(rec.view()));
            }
        } else if is_stated(&rec) {
            said_no = said_no + 1;
        } else {
            unstated = unstated + 1;
        }
        c = c + 1;
    }
    proof {
        assert(record_views(orig).take(c as int) =~= record_views(orig));
    }
    (kept, Hidden { said_no, unstated })
}

/// The cut that takes everything.
pub open spec fn whole() -> PageCut {
    PageCut { offset: 0, len: usize::MAX as usize }
}

/// Name in every block the displayed records it holds, in the order they are printed.
pub fn assign_blocks(at: &mut Vec<crate::model::AtBlock>, records: &Vec<Record>)
    ensures
        crate::model::block_views(final(at)@) == crate::model::block_views(old(at)@).map_values(
            |b: crate::model::AtBlockView| block_page(record_views(records@), b, whole()),
        ),
{
    let ghost rs = record_views(records@);
    let ghost start = crate::model::block_views(at@);
    let mut i: usize = 0;
    while i < at.len()
        invariant
            i <= at.len(),
            at@.len() == start.len(),
            rs == record_views(records@),
            forall|k: int| 0 <= k < i ==> (#[trigger] at@[k]).view() == block_page(rs, start[k], whole()),
            forall|k: int| i <= k < at.len() ==> (#[trigger] at@[k]).view() == start[k],
        decreases at.len() - i,
    {
        let mut b = at.remove(i);
        let ids = block_ids(records, &b.records, PageCut { offset: 0, len: usize::MAX });
        b.records = ids;
        at.insert(i, b);
        i = i + 1;
    }
    proof {
        assert(crate::model::block_views(at@) =~= start.map_values(|b: crate::model::AtBlockView| block_page(rs, b, whole())));
    }
}

} // verus!
