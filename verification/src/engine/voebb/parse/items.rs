//! The copies of a voebb.de record page: the item table and what stands in for it.
//!
//! The columns are mapped by their header text, never by position: the table is five
//! columns wide where the shelfmark has a column of its own and four where it stands
//! behind the area in `Standort`. The table names no ISIL and no branch id, so the
//! branch is matched from the text of the `Bibliothek` column against the VÖBB branches
//! of the library list, folded and in stages; a name the list does not carry, or carries
//! twice, keeps its text and resolves to no branch.
use vstd::prelude::*;
use crate::error::{Error, UnexpectedError, UnexpectedView};
use crate::libraries::{all, branch_views, table, Branch, BranchView, LibraryView};
use crate::model::{slice_string, Item, ItemView, Note, Status};
use crate::text::{
    cat, chars_of, debug_text, find_text, first_occurrence, flatten, fold, fold_spec, last_occurrence,
    owned, quoted, rfind_text, same_text, trim, trim_spec, views,
};
use super::detail::{
    due_date_spec, first_spec, holdings_statement_of, holdings_statement_spec, lending_index,
    lending_link, lending_status, lending_status_spec, medienart_key, ne, non_empty, note_text,
    online_access_spec, online_access_url, ov, parse_due_date, row_views, split_location,
    split_location_spec, status_of, status_spec, Bibliographic, RowView, StatusCell,
};

verus! {

/// What names the record page in an error message.
pub const DOCUMENT: &'static str = "voebb detail page";

/// A missing-selector error about the record page.
pub open spec fn missing(selector: Seq<char>) -> UnexpectedView {
    UnexpectedView::MissingSelector { selector, document: DOCUMENT@ }
}

/// The missing-selector error about the record page.
pub fn missing_selector(selector: &str) -> (e: Error)
    ensures
        e matches Error::Unexpected(u) && u@ == missing(selector@),
{
    Error::Unexpected(UnexpectedError::MissingSelector { selector: owned(selector), document: owned(DOCUMENT) })
}

/// Which column of the item table holds what. `Bibliothek` and `Verfügbarkeit` are
/// required; the other three may be absent.
#[derive(Debug, Clone, Copy, PartialEq, Eq)]
pub struct Columns {
    /// The house.
    pub library: usize,
    /// Where in the house the copy stands.
    pub location: Option<usize>,
    /// Its shelfmark.
    pub call_number: Option<usize>,
    /// Loan condition and ordering option.
    pub order_option: Option<usize>,
    /// Its traffic light.
    pub availability: usize,
}

/// An optional position as an integer.
pub open spec fn oi(o: Option<usize>) -> Option<int> {
    match o {
        Some(i) => Some(i as int),
        None => None,
    }
}

/// The last header cell whose folded text is `key`; a later cell of the same heading
/// replaces an earlier one.
pub open spec fn column_of(header: Seq<Seq<char>>, key: Seq<char>) -> Option<int>
    decreases header.len(),
{
    if header.len() == 0 {
        None
    } else if fold_spec(header.last()) == key {
        Some(header.len() - 1)
    } else {
        column_of(header.drop_last(), key)
    }
}

/// The views of a list of strings.
pub open spec fn texts_of(v: Seq<String>) -> Seq<Seq<char>> {
    v.map_values(|s: String| s@)
}

/// An optional integer as a position.
pub open spec fn ou(o: Option<int>) -> Option<usize> {
    match o {
        Some(i) => Some(i as usize),
        None => None,
    }
}

/// The columns a header row maps to, or the error that names the heading it lacks.
pub open spec fn columns_spec(h: Seq<Seq<char>>) -> Result<Columns, UnexpectedView> {
    match column_of(h, "bibliothek"@) {
        None => Err(missing("table#resptable-1 thead th:Bibliothek"@)),
        Some(l) => match column_of(h, "verfugbarkeit"@) {
            None => Err(missing("table#resptable-1 thead th:Verfügbarkeit"@)),
            Some(a) => Ok(
                Columns {
                    library: l as usize,
                    location: ou(column_of(h, "standort"@)),
                    call_number: ou(column_of(h, "signatur"@)),
                    order_option: ou(column_of(h, "bestellmoglichkeit"@)),
                    availability: a as usize,
                },
            ),
        },
    }
}

impl Columns {
    /// Map the header cells onto column indices by their text, folded: `bibliothek`,
    /// `standort`, `signatur`, `bestellmoglichkeit`, `verfugbarkeit`. A heading this
    /// table does not know is ignored. Without a `Bibliothek` or a `Verfügbarkeit`
    /// heading the table is not the one this parser knows, and the error names the
    /// heading that is missing, the house first.
    pub fn from_header(header: &Vec<String>) -> (r: Result<Columns, Error>)
        ensures
            match r {
                Ok(c) => columns_spec(texts_of(header@)) == Ok::<Columns, UnexpectedView>(c),
                Err(Error::Unexpected(e)) => columns_spec(texts_of(header@)) == Err::<Columns, UnexpectedView>(e@),
                Err(_) => false,
            },
    {
        let ghost h = texts_of(header@);
        let mut library: Option<usize> = None;
        let mut location: Option<usize> = None;
        let mut call_number: Option<usize> = None;
        let mut order_option: Option<usize> = None;
        let mut availability: Option<usize> = None;
        let mut i: usize = 0;
        while i < header.len()
            invariant
                i <= header.len(),
                h == texts_of(header@),
                oi(library) == column_of(h.take(i as int), "bibliothek"@),
                oi(location) == column_of(h.take(i as int), "standort"@),
                oi(call_number) == column_of(h.take(i as int), "signatur"@),
                oi(order_option) == column_of(h.take(i as int), "bestellmoglichkeit"@),
                oi(availability) == column_of(h.take(i as int), "verfugbarkeit"@),
            decreases header.len() - i,
        {
            proof {
                assert(h.take(i + 1).drop_last() =~= h.take(i as int));
                assert(h.take(i + 1).last() == header@[i as int]@);
            }
            let f = fold(header[i].as_str());
            let t = f.as_str();
            if same_text(t, "bibliothek") {
                library = Some(i);
            }
            if same_text(t, "standort") {
                location = Some(i);
            }
            if same_text(t, "signatur") {
                call_number = Some(i);
            }
            if same_text(t, "bestellmoglichkeit") {
                order_option = Some(i);
            }
            if same_text(t, "verfugbarkeit") {
                availability = Some(i);
            }
            i = i + 1;
        }
        proof {
            assert(h.take(i as int) =~= h);
        }
        let library = match library {
            Some(l) => l,
            None => {
                return Err(missing_selector("table#resptable-1 thead th:Bibliothek"));
            },
        };
        let availability = match availability {
            Some(a) => a,
            None => {
                return Err(missing_selector("table#resptable-1 thead th:Verfügbarkeit"));
            },
        };
        Ok(Columns { library, location, call_number, order_option, availability })
    }
}

/// The part of a branch name behind its last ` / ` or `, `, whichever comes later.
pub open spec fn name_tail_spec(name: Seq<char>) -> Option<Seq<char>> {
    let slash = match last_occurrence(name, " / "@) {
        Some(i) => i + 3,
        None => -1,
    };
    let comma = match last_occurrence(name, ", "@) {
        Some(i) => i + 2,
        None => -1,
    };
    let at = if slash >= comma {
        slash
    } else {
        comma
    };
    if at < 0 {
        None
    } else {
        Some(name.subrange(at, name.len() as int))
    }
}

/// Whether a branch answers to a folded name: by its own names (full name, short name,
/// the tail of its full name), or, in the second pass, by one of the match strings the
/// library list carries for it.
#[verifier::opaque]
pub open spec fn answers_to(b: BranchView, candidate: Seq<char>, by_match: bool) -> bool {
    if by_match {
        exists|i: int| 0 <= i < b.match_strings.len() && fold_spec(#[trigger] b.match_strings[i]) == candidate
    } else {
        ||| fold_spec(b.name) == candidate
        ||| fold_spec(b.short_name) == candidate
        ||| (name_tail_spec(b.name) matches Some(t) && fold_spec(t) == candidate)
    }
}

/// The one branch that answers to a name; none where no branch or two do.
pub open spec fn sole_hit(bs: Seq<BranchView>, candidate: Seq<char>, by_match: bool) -> Option<int> {
    if exists|i: int|
        0 <= i < bs.len() && answers_to(bs[i], candidate, by_match) && forall|j: int|
            0 <= j < bs.len() && j != i ==> !answers_to(#[trigger] bs[j], candidate, by_match) {
        Some(
            choose|i: int|
                0 <= i < bs.len() && answers_to(bs[i], candidate, by_match) && forall|j: int|
                    0 <= j < bs.len() && j != i ==> !answers_to(#[trigger] bs[j], candidate, by_match),
        )
    } else {
        None
    }
}

/// The three shapes of a `Bibliothek` cell, folded: the text as it stands, with the first
/// `: ` turned into ` / `, and the part behind that `: `. The catalogue writes
/// `Bezirk: Haus` where the library list writes `Bezirk / Haus`.
pub open spec fn candidates(library: Seq<char>) -> Seq<Seq<char>> {
    match first_occurrence(library, ": "@) {
        Some(k) => seq![
            fold_spec(library),
            fold_spec(library.subrange(0, k) + " / "@ + library.subrange(k + 2, library.len() as int)),
            fold_spec(library.subrange(k + 2, library.len() as int)),
        ],
        None => seq![fold_spec(library)],
    }
}

/// The branch of the first shape that exactly one branch answers to, in one pass.
pub open spec fn resolve_pass(bs: Seq<BranchView>, cands: Seq<Seq<char>>, by_match: bool) -> Option<int>
    decreases cands.len(),
{
    if cands.len() == 0 {
        None
    } else {
        match sole_hit(bs, cands[0], by_match) {
            Some(i) => Some(i),
            None => resolve_pass(bs, cands.drop_first(), by_match),
        }
    }
}

/// The branch a cell names: the branches' own names are tried for every shape first, and
/// only then the match strings, so that a house named in both places is found under its
/// own name.
pub open spec fn resolve_branch(bs: Seq<BranchView>, cands: Seq<Seq<char>>) -> Option<int> {
    match resolve_pass(bs, cands, false) {
        Some(i) => Some(i),
        None => resolve_pass(bs, cands, true),
    }
}

/// The branches of the libraries whose ISIL is `isil`, in list order.
pub open spec fn branches_of(tab: Seq<LibraryView>, isil: Seq<char>) -> Seq<BranchView>
    decreases tab.len(),
{
    if tab.len() == 0 {
        seq![]
    } else {
        branches_of(tab.drop_last(), isil) + if tab.last().isil == isil {
            tab.last().branches
        } else {
            seq![]
        }
    }
}

/// The branches of the public library network in the library list.
pub open spec fn network_branches() -> Seq<BranchView> {
    branches_of(table(), crate::libraries::VOEBB_NETWORK@)
}

/// Every branch of the public library network, in list order.
pub fn voebb_branches() -> (v: Vec<Branch>)
    ensures
        branch_views(v@) == network_branches(),
{
    let list = all();
    let ghost tab = crate::libraries::library_views(list@);
    let mut out: Vec<Branch> = Vec::new();
    let mut i: usize = 0;
    while i < list.len()
        invariant
            i <= list.len(),
            tab == crate::libraries::library_views(list@),
            tab == table(),
            branch_views(out@) == branches_of(tab.take(i as int), crate::libraries::VOEBB_NETWORK@),
        decreases list.len() - i,
    {
        proof {
            assert(tab.take(i + 1).drop_last() =~= tab.take(i as int));
            assert(tab.take(i + 1).last() == list@[i as int].view());
        }
        if same_text(list[i].isil.as_str(), crate::libraries::VOEBB_NETWORK) {
            let mut j: usize = 0;
            let ghost start = out@;
            while j < list[i].branches.len()
                invariant
                    i < list.len(),
                    j <= list@[i as int].branches.len(),
                    branch_views(out@) == branch_views(start) + branch_views(list@[i as int].branches@).take(j as int),
                decreases list@[i as int].branches.len() - j,
            {
                let b = list[i].branches[j].copy();
                let ghost before = out@;
                out.push(b);
                proof {
                    assert(branch_views(out@) =~= branch_views(before).push(b.view()));
                    assert(branch_views(list@[i as int].branches@).take(j + 1) =~= branch_views(
                        list@[i as int].branches@,
                    ).take(j as int).push(list@[i as int].branches@[j as int].view()));
                }
                j = j + 1;
            }
            proof {
                assert(branch_views(list@[i as int].branches@).take(j as int) =~= branch_views(
                    list@[i as int].branches@,
                ));
            }
        } else {
            proof {
                assert(branch_views(out@) + Seq::<BranchView>::empty() =~= branch_views(out@));
            }
        }
        i = i + 1;
    }
    proof {
        assert(tab.take(i as int) =~= tab);
    }
    out
}

/// The part of a branch name behind its last ` / ` or `, `.
pub fn name_tail(name: &str) -> (r: Option<String>)
    ensures
        match r {
            Some(t) => name_tail_spec(name@) == Some(t@),
            None => name_tail_spec(name@) is None,
        },
{
    let c = chars_of(name);
    let slash = rfind_text(name, " / ");
    let comma = rfind_text(name, ", ");
    proof {
        reveal_strlit(" / ");
        reveal_strlit(", ");
    }
    proof {
        if slash is Some {
            assert(slash->0 + 3 <= c@.len());
        }
        if comma is Some {
            assert(comma->0 + 2 <= c@.len());
        }
    }
    let from_slash: usize = match slash {
        Some(a) => a + 3,
        None => 0,
    };
    let from_comma: usize = match comma {
        Some(b) => {
            let n = c.len();
            proof {
                assert(b + 2 <= c@.len());
                assert(c@.len() == n);
            }
            b + 2
        },
        None => 0,
    };
    let at: Option<usize> = if from_slash == 0 && from_comma == 0 {
        None
    } else if from_slash >= from_comma {
        Some(from_slash)
    } else {
        Some(from_comma)
    };
    match at {
        Some(a) => Some(slice_string(&c, a, c.len())),
        None => None,
    }
}

/// Whether a branch answers to a folded name, by its names or by its match strings.
fn answers(b: &Branch, candidate: &str, by_match: bool) -> (r: bool)
    ensures
        r == answers_to(b.view(), candidate@, by_match),
{
    proof {
        reveal(answers_to);
    }
    if by_match {
        let ghost ms = b.view().match_strings;
        let mut i: usize = 0;
        while i < b.match_strings.len()
            invariant
                i <= b.match_strings.len(),
                by_match,
                ms == b.view().match_strings,
                ms.len() == b.match_strings@.len(),
                forall|j: int| 0 <= j < i ==> fold_spec(#[trigger] ms[j]) != candidate@,
            decreases b.match_strings.len() - i,
        {
            proof {
                assert(ms[i as int] == b.match_strings@[i as int]@);
            }
            if same_text(fold(b.match_strings[i].as_str()).as_str(), candidate) {
                proof {
                    reveal(answers_to);
                    assert(fold_spec(ms[i as int]) == candidate@);
                    assert(exists|j: int| 0 <= j < ms.len() && fold_spec(#[trigger] ms[j]) == candidate@);
                }
                return true;
            }
            i = i + 1;
        }
        proof {
            reveal(answers_to);
        }
        return false;
    }
    if same_text(fold(b.name.as_str()).as_str(), candidate) {
        return true;
    }
    if same_text(fold(b.short_name.as_str()).as_str(), candidate) {
        return true;
    }
    match name_tail(b.name.as_str()) {
        Some(t) => same_text(fold(t.as_str()).as_str(), candidate),
        None => false,
    }
}

/// Two branches that answer to one name leave it to none.
proof fn lemma_two_hits(v: Seq<BranchView>, c: Seq<char>, m: bool, h: int, j: int)
    requires
        0 <= h < v.len(),
        0 <= j < v.len(),
        h != j,
        answers_to(v[h], c, m),
        answers_to(v[j], c, m),
    ensures
        sole_hit(v, c, m) is None,
{
    if sole_hit(v, c, m) is Some {
        let w = sole_hit(v, c, m)->0;
        assert(0 <= w < v.len() && answers_to(v[w], c, m) && forall|x: int|
            0 <= x < v.len() && x != w ==> !answers_to(#[trigger] v[x], c, m));
        if w == h {
            assert(!answers_to(v[j], c, m));
        } else {
            assert(!answers_to(v[h], c, m));
        }
    }
}

/// A branch that alone answers to a name is its answer.
proof fn lemma_one_hit(v: Seq<BranchView>, c: Seq<char>, m: bool, h: int)
    requires
        0 <= h < v.len(),
        answers_to(v[h], c, m),
        forall|x: int| 0 <= x < v.len() && x != h ==> !answers_to(#[trigger] v[x], c, m),
    ensures
        sole_hit(v, c, m) == Some(h),
{
    let w = choose|w: int|
        0 <= w < v.len() && answers_to(v[w], c, m) && forall|x: int|
            0 <= x < v.len() && x != w ==> !answers_to(#[trigger] v[x], c, m);
    if w != h {
        assert(!answers_to(v[h], c, m));
    }
}

/// The one branch that answers to a folded name, or none.
fn sole(bs: &Vec<Branch>, candidate: &str, by_match: bool) -> (r: Option<usize>)
    ensures
        match r {
            Some(i) => sole_hit(branch_views(bs@), candidate@, by_match) == Some(i as int),
            None => sole_hit(branch_views(bs@), candidate@, by_match) is None,
        },
{
    let ghost v = branch_views(bs@);
    let mut hit: Option<usize> = None;
    let mut twice = false;
    let mut i: usize = 0;
    while i < bs.len()
        invariant
            i <= bs.len(),
            v == branch_views(bs@),
            hit is None ==> !twice && forall|j: int| 0 <= j < i ==> !answers_to(#[trigger] v[j], candidate@, by_match),
            hit matches Some(h) ==> {
                &&& h < i
                &&& answers_to(v[h as int], candidate@, by_match)
                &&& !twice ==> forall|j: int| 0 <= j < i && j != h ==> !answers_to(#[trigger] v[j], candidate@, by_match)
                &&& twice ==> exists|j: int| 0 <= j < i && j != h && answers_to(#[trigger] v[j], candidate@, by_match)
            },
        decreases bs.len() - i,
    {
        proof {
            assert(v[i as int] == bs@[i as int].view());
        }
        if answers(&bs[i], candidate, by_match) {
            if hit.is_some() {
                twice = true;
            } else {
                hit = Some(i);
            }
        }
        i = i + 1;
    }
    match hit {
        Some(h) => {
            if twice {
                proof {
                    let j = choose|j: int| 0 <= j < i && j != h && answers_to(#[trigger] v[j], candidate@, by_match);
                    lemma_two_hits(v, candidate@, by_match, h as int, j);
                }
                None
            } else {
                proof {
                    lemma_one_hit(v, candidate@, by_match, h as int);
                }
                Some(h)
            }
        },
        None => {
            proof {
                if sole_hit(v, candidate@, by_match) is Some {
                    let w = sole_hit(v, candidate@, by_match)->0;
                    assert(answers_to(v[w], candidate@, by_match));
                }
            }
            None
        },
    }
}

/// The three shapes of a `Bibliothek` cell, folded.
pub fn name_candidates(library: &str) -> (v: Vec<String>)
    ensures
        texts_of(v@) == candidates(library@),
{
    let mut v: Vec<String> = Vec::new();
    v.push(fold(library));
    let c = chars_of(library);
    proof {
        reveal_strlit(": ");
    }
    match find_text(library, ": ") {
        Some(k) => {
            let district = slice_string(&c, 0, k);
            let house = slice_string(&c, k + 2, c.len());
            let mut joined = district;
            crate::text::push_str(&mut joined, " / ");
            crate::text::push_str(&mut joined, house.as_str());
            v.push(fold(joined.as_str()));
            v.push(fold(house.as_str()));
            proof {
                assert(texts_of(v@) =~= candidates(library@));
            }
        },
        None => {
            proof {
                assert(texts_of(v@) =~= candidates(library@));
            }
        },
    }
    v
}

/// The VÖBB branch a `Bibliothek` cell names, as its position in `branches`: the first
/// shape of the name that exactly one branch answers to decides. An ambiguous name and
/// an unknown one both resolve to none, and the cell keeps its text.
pub fn branch_of(branches: &Vec<Branch>, library: &str) -> (r: Option<usize>)
    ensures
        match r {
            Some(i) => resolve_branch(branch_views(branches@), candidates(library@)) == Some(i as int) && i < branches@.len(),
            None => resolve_branch(branch_views(branches@), candidates(library@)) is None,
        },
{
    let cands = name_candidates(library);
    match branch_pass(branches, &cands, false) {
        Some(i) => Some(i),
        None => branch_pass(branches, &cands, true),
    }
}

/// One pass over the shapes of a name.
fn branch_pass(branches: &Vec<Branch>, cands: &Vec<String>, by_match: bool) -> (r: Option<usize>)
    ensures
        match r {
            Some(i) => resolve_pass(branch_views(branches@), texts_of(cands@), by_match) == Some(i as int) && i < branches@.len(),
            None => resolve_pass(branch_views(branches@), texts_of(cands@), by_match) is None,
        },
{
    let ghost cv = texts_of(cands@);
    let ghost bv = branch_views(branches@);
    let mut k: usize = 0;
    proof {
        assert(cv.skip(0) =~= cv);
    }
    while k < cands.len()
        invariant
            k <= cands.len(),
            cv == texts_of(cands@),
            bv == branch_views(branches@),
            resolve_pass(bv, cv, by_match) == resolve_pass(bv, cv.skip(k as int), by_match),
        decreases cands.len() - k,
    {
        proof {
            assert(cv.skip(k as int)[0] == cands@[k as int]@);
            assert(cv.skip(k as int).drop_first() =~= cv.skip(k + 1));
        }
        match sole(branches, cands[k].as_str(), by_match) {
            Some(i) => {
                proof {
                    let w = sole_hit(bv, cands@[k as int]@, by_match)->0;
                    assert(0 <= w < bv.len());
                }
                return Some(i);
            },
            None => {},
        }
        k = k + 1;
    }
    None
}

/// What voebb.de writes in front of a return date in the availability cell.
pub const DUE_MARKER: &'static str = "Fällig am:";

/// The note for a return date in a form this parser does not read.
pub const DUE_DATE_UNREADABLE: &'static str = "voebb.de stated a return date blibs cannot read — it is not a date in the `d.m.yyyy` form the site has written them in so far, so the copy is reported without one rather than with a guess";

/// A note as its kind and message.
pub open spec fn note_of(kind: Seq<char>, message: Seq<char>) -> (Seq<char>, Seq<char>) {
    (kind, message)
}

/// The return date an availability cell states, and the note it needs. A cell without
/// `Fällig am:` states none and needs none; one with the marker and a value that is not
/// a `d.m.yyyy` date states none and needs the note.
pub open spec fn due_spec(text: Option<Seq<char>>) -> (Option<Seq<char>>, Option<(Seq<char>, Seq<char>)>) {
    match text {
        None => (None, None),
        Some(t) => match first_occurrence(t, DUE_MARKER@) {
            None => (None, None),
            Some(k) => match due_date_spec(trim_spec(t.subrange(k + DUE_MARKER@.len(), t.len() as int))) {
                Some(d) => (Some(d), None),
                None => (None, Some(note_of("voebb_due_date_unreadable"@, DUE_DATE_UNREADABLE@))),
            },
        },
    }
}

/// The return date of a copy that is out, as ISO-8601, and the note for one that cannot
/// be read. It decides nothing about the copy's status.
pub fn due_date_of(text: Option<&str>) -> (r: (Option<String>, Option<Note>))
    ensures
        (ov(r.0), note_text(r.1)) == due_spec(match text {
            Some(t) => Some(t@),
            None => None,
        }),
        r.1 matches Some(n) ==> n.records@.len() == 0,
{
    let text = match text {
        Some(t) => t,
        None => {
            return (None, None);
        },
    };
    let c = chars_of(text);
    let k = match find_text(text, DUE_MARKER) {
        Some(k) => k,
        None => {
            return (None, None);
        },
    };
    let m = crate::text::char_count(DUE_MARKER);
    let n = c.len();
    proof {
        assert(k + m <= text@.len());
        assert(text@.len() == n);
    }
    let stated = trim(slice_string(&c, k + m, c.len()).as_str());
    match parse_due_date(stated.as_str()) {
        Some(d) => (Some(d), None),
        None => (None, Some(Note::new("voebb_due_date_unreadable", owned(DUE_DATE_UNREADABLE)))),
    }
}

/// The kinds and messages of a list of notes.
pub open spec fn note_views(v: Seq<Note>) -> Seq<(Seq<char>, Seq<char>)> {
    v.map_values(|n: Note| (n.kind@, n.message@))
}

/// Whether none of the notes names a record yet.
pub open spec fn about_nothing(v: Seq<Note>) -> bool {
    forall|i: int| 0 <= i < v.len() ==> (#[trigger] v[i]).records@.len() == 0
}

/// The cells of a row as text and marker class.
pub open spec fn cell_views(v: Seq<StatusCell>) -> Seq<(Seq<char>, Seq<char>)> {
    v.map_values(|c: StatusCell| (c.text@, c.class@))
}

/// The cell at a column, where the column exists and the row reaches it.
pub open spec fn cell_at(row: Seq<(Seq<char>, Seq<char>)>, i: Option<int>) -> Option<(Seq<char>, Seq<char>)> {
    match i {
        Some(k) => if 0 <= k < row.len() {
            Some(row[k])
        } else {
            None
        },
        None => None,
    }
}

/// The text of the cell at a column; empty where there is none.
pub open spec fn cell_text(row: Seq<(Seq<char>, Seq<char>)>, i: Option<int>) -> Seq<char> {
    match cell_at(row, i) {
        Some(c) => c.0,
        None => seq![],
    }
}

/// The text of the cell at a column, where it is not empty.
pub open spec fn opt_text(row: Seq<(Seq<char>, Seq<char>)>, i: Option<int>) -> Option<Seq<char>> {
    match cell_at(row, i) {
        Some(c) => ne(c.0),
        None => None,
    }
}

/// Up to two notes, in order.
pub open spec fn two_notes(a: Option<(Seq<char>, Seq<char>)>, b: Option<(Seq<char>, Seq<char>)>) -> Seq<(Seq<char>, Seq<char>)> {
    (match a {
        Some(x) => seq![x],
        None => seq![],
    }) + (match b {
        Some(x) => seq![x],
        None => seq![],
    })
}

/// One copy of the item table and the notes it needs: the status note first, then the
/// return-date note. The location cell holds the shelfmark too where the table has no
/// shelfmark column; the branch is the one the `Bibliothek` cell resolves to.
pub open spec fn item_spec(row: Seq<(Seq<char>, Seq<char>)>, cols: Columns, bs: Seq<BranchView>) -> (ItemView, Seq<(Seq<char>, Seq<char>)>) {
    let library = cell_text(row, Some(cols.library as int));
    let stated = cell_text(row, oi(cols.location));
    let split = match cols.call_number {
        Some(_) => (ne(stated), None::<Seq<char>>),
        None => split_location_spec(stated),
    };
    let order = opt_text(row, oi(cols.order_option));
    let call = match opt_text(row, oi(cols.call_number)) {
        Some(x) => Some(x),
        None => split.1,
    };
    let avail = cell_at(row, Some(cols.availability as int));
    let status = status_spec(avail, order);
    let due = due_spec(
        match avail {
            Some(c) => Some(c.0),
            None => None,
        },
    );
    (
        ItemView {
            location: split.0,
            branch: match resolve_branch(bs, candidates(library)) {
                Some(i) => Some(bs[i].kobvid),
                None => None,
            },
            branch_name: ne(library),
            call_number: call,
            volume: None,
            status: status.0,
            due_date: due.0,
            order_option: order,
        },
        two_notes(status.1, due.1),
    )
}

/// The cell at a column, where the column exists and the row reaches it.
fn cell<'a>(row: &'a Vec<StatusCell>, i: Option<usize>) -> (r: Option<&'a StatusCell>)
    ensures
        match r {
            Some(c) => cell_at(cell_views(row@), oi(i)) == Some((c.text@, c.class@)),
            None => cell_at(cell_views(row@), oi(i)) is None,
        },
{
    match i {
        Some(k) => if k < row.len() {
            proof {
                assert(cell_views(row@)[k as int] == (row@[k as int].text@, row@[k as int].class@));
            }
            Some(&row[k])
        } else {
            None
        },
        None => None,
    }
}

/// The text of a cell, empty where there is none.
fn text_or_empty(c: Option<&StatusCell>) -> (t: &str)
    ensures
        t@ == match c {
            Some(x) => x.text@,
            None => Seq::<char>::empty(),
        },
{
    match c {
        Some(x) => x.text.as_str(),
        None => {
            proof {
                reveal_strlit("");
            }
            ""
        },
    }
}

/// One row of the item table. Every cell may be empty, so nothing here fails: what is
/// absent becomes `None` and the copy stays.
pub fn item(row: &Vec<StatusCell>, columns: &Columns, branches: &Vec<Branch>) -> (r: (Item, Vec<Note>))
    ensures
        (r.0.view(), note_views(r.1@)) == item_spec(cell_views(row@), *columns, branch_views(branches@)),
        about_nothing(r.1@),
{
    let ghost rv = cell_views(row@);
    let library = text_or_empty(cell(row, Some(columns.library)));
    let branch = match branch_of(branches, library) {
        Some(i) => Some(branches[i].kobvid.clone()),
        None => None,
    };
    let stated = text_or_empty(cell(row, columns.location));
    let (location, from_location) = match columns.call_number {
        Some(_) => (non_empty(stated), None),
        None => split_location(stated),
    };
    let order_option = match cell(row, columns.order_option) {
        Some(c) => non_empty(c.text.as_str()),
        None => None,
    };
    let call_number = match cell(row, columns.call_number) {
        Some(c) => match non_empty(c.text.as_str()) {
            Some(x) => Some(x),
            None => from_location,
        },
        None => from_location,
    };
    let avail = cell(row, Some(columns.availability));
    let order_ref: Option<&str> = match &order_option {
        Some(o) => Some(o.as_str()),
        None => None,
    };
    let (status, status_note) = status_of(avail, order_ref);
    let avail_text: Option<&str> = match avail {
        Some(c) => Some(c.text.as_str()),
        None => None,
    };
    let (due_date, due_note) = due_date_of(avail_text);
    let mut notes: Vec<Note> = Vec::new();
    match status_note {
        Some(n) => notes.push(n),
        None => {},
    }
    match due_note {
        Some(n) => notes.push(n),
        None => {},
    }
    let it = Item {
        location,
        branch,
        branch_name: non_empty(library),
        call_number,
        volume: None,
        status,
        due_date,
        order_option,
    };
    proof {
        assert(note_views(notes@) =~= item_spec(rv, *columns, branch_views(branches@)).1);
        assert(it.view() == item_spec(rv, *columns, branch_views(branches@)).0);
    }
    (it, notes)
}

/// The note of a multi-part work, whose copies belong to its volumes.
pub const MULTIVOLUME: &'static str = "voebb.de lists no copies for a multi-part work — the copies belong to its volumes, which are records of their own; search for the volume";

/// What a record that states its holdings in prose adds to the no-copies note.
pub const PROSE_HOLDINGS: &'static str = ". What this record states about its holdings it states in prose, above — whole, because that form cannot be taken apart without guessing";

/// The note of an electronic title reachable only by a plain URL.
pub const ONLINE_URL_ONLY: &'static str = "an electronic title has no copies on a shelf, and states no lending link either — the access voebb.de names is a plain URL on the record, and it says nothing about whether that access is free";

/// Why an item table that is present and empty is empty, worded from what the page says
/// about itself: a `Medienart` of `mehrteiliges werk` is a multi-part work; anything else
/// gets a sentence that names what the page calls the record and claims nothing more,
/// pointing at the prose holdings where the record states them.
pub open spec fn no_copies_spec(medienart: Seq<char>, prose: bool) -> (Seq<char>, Seq<char>) {
    if medienart_key(medienart) == "mehrteiliges werk"@ {
        ("voebb_multivolume"@, MULTIVOLUME@)
    } else {
        let called = match ne(medienart) {
            Some(k) => "the page calls the record "@ + k,
            None => "the page states no Medienart for it"@,
        };
        let stated = if prose {
            PROSE_HOLDINGS@
        } else {
            seq![]
        };
        (
            "voebb_no_copies_listed"@,
            "voebb.de lists no copies on this record — its item table is present and empty and "@ + called
                + ". That is never \"held nowhere\": where such a record has parts, the copies stand on their records"@
                + stated,
        )
    }
}

/// The note for an item table that is present and empty.
pub fn no_copies_note(medienart: &str, statement: Option<&str>) -> (n: Note)
    ensures
        (n.kind@, n.message@) == no_copies_spec(medienart@, statement is Some),
        n.records@.len() == 0,
{
    if same_text(fold(trim(super::detail::strip_brackets(medienart).as_str()).as_str()).as_str(), "mehrteiliges werk") {
        return Note::new("voebb_multivolume", owned(MULTIVOLUME));
    }
    let called = match non_empty(medienart) {
        Some(kind) => crate::text::concat("the page calls the record ", kind.as_str()),
        None => owned("the page states no Medienart for it"),
    };
    let stated: &str = match statement {
        Some(_) => PROSE_HOLDINGS,
        None => {
            proof {
                reveal_strlit("");
            }
            ""
        },
    };
    let parts = vec![
        "voebb.de lists no copies on this record — its item table is present and empty and ",
        called.as_str(),
        ". That is never \"held nowhere\": where such a record has parts, the copies stand on their records",
        stated,
    ];
    proof {
        reveal_with_fuel(flatten, 5);
        assert(views(parts@) =~= seq![
            "voebb.de lists no copies on this record — its item table is present and empty and "@,
            called@,
            ". That is never \"held nowhere\": where such a record has parts, the copies stand on their records"@,
            stated@,
        ]);
    }
    Note::new("voebb_no_copies_listed", cat(parts))
}

/// The note of an electronic title whose lending link was read: which row stated the
/// loan status and its first line, or that the row states none this tool can read.
pub open spec fn lending_note_spec(row: RowView) -> (Seq<char>, Seq<char>) {
    let state = if row.values.len() > 0 {
        row.values[0]
    } else {
        seq![]
    };
    match lending_status_spec(Some(row)) {
        Status::Unknown => (
            "voebb_online_state_unstated"@,
            "an electronic title has no copies on a shelf, and the "@ + row.label
                + " row states no loan status this tool can read — "@ + debug_text(state),
        ),
        _ => (
            "voebb_online_only"@,
            "an electronic title has no copies on a shelf; the loan status shown is the one the "@ + row.label
                + " row states — "@ + debug_text(state),
        ),
    }
}

/// The item table as the page has it: absent, or its header cells' text and the cells
/// of its body rows.
pub enum ItemTable {
    Absent,
    Present { header: Vec<String>, rows: Vec<Vec<StatusCell>> },
}

/// The item table as plain values.
pub enum TableView {
    Absent,
    Present { header: Seq<Seq<char>>, rows: Seq<Seq<(Seq<char>, Seq<char>)>> },
}

impl ItemTable {
    /// The table as plain values.
    pub open spec fn view(&self) -> TableView {
        match self {
            ItemTable::Absent => TableView::Absent,
            ItemTable::Present { header, rows } => TableView::Present {
                header: texts_of(header@),
                rows: rows@.map_values(|r: Vec<StatusCell>| cell_views(r@)),
            },
        }
    }
}

/// The copies of the rows, in order, and their notes, in order.
pub open spec fn items_over(rows: Seq<Seq<(Seq<char>, Seq<char>)>>, cols: Columns, bs: Seq<BranchView>) -> (Seq<ItemView>, Seq<(Seq<char>, Seq<char>)>)
    decreases rows.len(),
{
    if rows.len() == 0 {
        (seq![], seq![])
    } else {
        let before = items_over(rows.drop_last(), cols, bs);
        let it = item_spec(rows.last(), cols, bs);
        (before.0.push(it.0), before.1 + it.1)
    }
}

/// The `Medienart` of a record, empty where it states none.
pub open spec fn medienart_of(rows: Seq<RowView>) -> Seq<char> {
    match first_spec(rows, "Medienart"@) {
        Some(m) => m,
        None => seq![],
    }
}

/// The copies of a record page and the notes they need. Four states: a table with rows
/// is read row by row; a table without rows has no copies and a note that says why; no
/// table and a lending link is an electronic title whose loan state the link states; no
/// table and a plain access URL is an electronic title whose loan state is stated
/// nowhere. No table and neither of those is a page this parser does not know.
pub open spec fn items_spec(t: TableView, rows: Seq<RowView>, bs: Seq<BranchView>) -> Result<(Seq<ItemView>, Seq<(Seq<char>, Seq<char>)>), UnexpectedView> {
    match t {
        TableView::Absent => match lending_index(rows) {
            Some(i) => Ok((seq![], seq![lending_note_spec(rows[i])])),
            None => if online_access_spec(rows) is None {
                Err(missing("table#resptable-1"@))
            } else {
                Ok((seq![], seq![("voebb_online_url_only"@, ONLINE_URL_ONLY@)]))
            },
        },
        TableView::Present { header, rows: body } => if body.len() == 0 {
            Ok((seq![], seq![no_copies_spec(medienart_of(rows), holdings_statement_spec(rows) is Some)]))
        } else {
            match columns_spec(header) {
                Err(e) => Err(e),
                Ok(cols) => Ok(items_over(body, cols, bs)),
            }
        },
    }
}

/// The note of an electronic title whose lending link was read.
fn lending_note(row: &super::detail::BibRow) -> (n: Note)
    ensures
        (n.kind@, n.message@) == lending_note_spec(row.view()),
        n.records@.len() == 0,
{
    let state: &str = if row.values.len() > 0 {
        row.values[0].as_str()
    } else {
        proof {
            reveal_strlit("");
        }
        ""
    };
    proof {
        assert(row.view().values.len() == row.values@.len());
        if row.values.len() > 0 {
            assert(row.view().values[0] == row.values@[0]@);
        }
        assert(state@ == (if row.view().values.len() > 0 {
            row.view().values[0]
        } else {
            Seq::<char>::empty()
        }));
    }
    let q = quoted(state);
    match lending_status(Some(row)) {
        Status::Unknown => {
            let parts = vec![
                "an electronic title has no copies on a shelf, and the ",
                row.label.as_str(),
                " row states no loan status this tool can read — ",
                q.as_str(),
            ];
            proof {
                reveal_with_fuel(flatten, 5);
                assert(views(parts@) =~= seq![
                    "an electronic title has no copies on a shelf, and the "@,
                    row.label@,
                    " row states no loan status this tool can read — "@,
                    debug_text(state@),
                ]);
            }
            Note::new("voebb_online_state_unstated", cat(parts))
        },
        _ => {
            let parts = vec![
                "an electronic title has no copies on a shelf; the loan status shown is the one the ",
                row.label.as_str(),
                " row states — ",
                q.as_str(),
            ];
            proof {
                reveal_with_fuel(flatten, 5);
                assert(views(parts@) =~= seq![
                    "an electronic title has no copies on a shelf; the loan status shown is the one the "@,
                    row.label@,
                    " row states — "@,
                    debug_text(state@),
                ]);
            }
            Note::new("voebb_online_only", cat(parts))
        },
    }
}

/// The copies of a record page and the notes they need, or the error for a page whose
/// copies this parser cannot find. The notes name no record yet.
#[verifier::rlimit(40)]
pub fn items_of(table: &ItemTable, bibliographic: &Bibliographic) -> (r: Result<(Vec<Item>, Vec<Note>), Error>)
    ensures
        match r {
            Ok((items, notes)) => {
                &&& items_spec(table.view(), row_views(bibliographic.rows@), network_branches())
                    == Ok::<(Seq<ItemView>, Seq<(Seq<char>, Seq<char>)>), UnexpectedView>((super::detail::item_views(items@), note_views(notes@)))
                &&& about_nothing(notes@)
            },
            Err(Error::Unexpected(e)) => items_spec(table.view(), row_views(bibliographic.rows@), network_branches())
                == Err::<(Seq<ItemView>, Seq<(Seq<char>, Seq<char>)>), UnexpectedView>(e@),
            Err(_) => false,
        },
{
    let ghost rows = row_views(bibliographic.rows@);
    match table {
        ItemTable::Absent => {
            match lending_link(bibliographic) {
                Some(row) => {
                    proof {
                        let i = lending_index(rows)->0;
                        assert(rows[i] == bibliographic.rows@[i].view());
                    }
                    let n = lending_note(row);
                    let notes = vec![n];
                    let items: Vec<Item> = Vec::new();
                    proof {
                        assert(note_views(notes@) =~= seq![lending_note_spec(row.view())]);
                        assert(super::detail::item_views(items@) =~= Seq::<ItemView>::empty());
                    }
                    Ok((items, notes))
                },
                None => {
                    if online_access_url(bibliographic).is_none() {
                        return Err(missing_selector("table#resptable-1"));
                    }
                    let notes = vec![Note::new("voebb_online_url_only", owned(ONLINE_URL_ONLY))];
                    let items: Vec<Item> = Vec::new();
                    proof {
                        assert(note_views(notes@) =~= seq![("voebb_online_url_only"@, ONLINE_URL_ONLY@)]);
                        assert(super::detail::item_views(items@) =~= Seq::<ItemView>::empty());
                    }
                    Ok((items, notes))
                },
            }
        },
        ItemTable::Present { header, rows: body } => {
            if body.len() == 0 {
                let medienart = match bibliographic.first("Medienart") {
                    Some(m) => m,
                    None => {
                        proof {
                            reveal_strlit("");
                        }
                        ""
                    },
                };
                let statement = holdings_statement_of(bibliographic);
                let statement_ref: Option<&str> = match &statement {
                    Some(t) => Some(t.as_str()),
                    None => None,
                };
                let notes = vec![no_copies_note(medienart, statement_ref)];
                let items: Vec<Item> = Vec::new();
                proof {
                    assert(medienart@ == medienart_of(rows));
                    assert(note_views(notes@) =~= seq![no_copies_spec(medienart_of(rows), holdings_statement_spec(rows) is Some)]);
                    assert(super::detail::item_views(items@) =~= Seq::<ItemView>::empty());
                    assert(body@.map_values(|r: Vec<StatusCell>| cell_views(r@)).len() == 0);
                }
                return Ok((items, notes));
            }
            let columns = match Columns::from_header(header) {
                Ok(c) => c,
                Err(e) => {
                    return Err(e);
                },
            };
            let branches = voebb_branches();
            let ghost bodyv = body@.map_values(|r: Vec<StatusCell>| cell_views(r@));
            let mut items: Vec<Item> = Vec::new();
            let mut notes: Vec<Note> = Vec::new();
            let mut i: usize = 0;
            while i < body.len()
                invariant
                    i <= body.len(),
                    bodyv == body@.map_values(|r: Vec<StatusCell>| cell_views(r@)),
                    branch_views(branches@) == network_branches(),
                    (super::detail::item_views(items@), note_views(notes@)) == items_over(bodyv.take(i as int), columns, branch_views(branches@)),
                    about_nothing(notes@),
                decreases body.len() - i,
            {
                let (it, more) = item(&body[i], &columns, &branches);
                let mut more = more;
                let ghost before_items = items@;
                let ghost before_notes = notes@;
                let ghost added = more@;
                items.push(it);
                notes.append(&mut more);
                proof {
                    assert(bodyv.take(i + 1).drop_last() =~= bodyv.take(i as int));
                    assert(bodyv.take(i + 1).last() == cell_views(body@[i as int]@));
                    assert(super::detail::item_views(items@) =~= super::detail::item_views(before_items).push(it.view()));
                    assert(note_views(notes@) =~= note_views(before_notes) + note_views(added));
                    assert forall|j: int| 0 <= j < notes@.len() implies (#[trigger] notes@[j]).records@.len() == 0 by {
                        if j < before_notes.len() {
                            assert(notes@[j] == before_notes[j]);
                        } else {
                            assert(notes@[j] == added[j - before_notes.len()]);
                        }
                    }
                }
                i = i + 1;
            }
            proof {
                assert(bodyv.take(i as int) =~= bodyv);
            }
            Ok((items, notes))
        },
    }
}

} // verus!
