//! The branch facet on the result page.
//!
//! The facet is the only place in either catalogue that knows which branch holds a copy,
//! and ticking one of its boxes is a real upstream filter. It has no key: no ISIL, no
//! KOBV id, only the display name, so a branch is found by its label. The checkbox id is
//! a running index over the rendered tree and must be read from the page it is sent back
//! to. A branch that is absent from the tree is not an error: the tree lists only
//! branches with hits.
use vstd::prelude::*;
use crate::error::{join_comma, string_views, Error, UnexpectedError, UnexpectedView};
use crate::libraries::{Branch, BranchView};
use crate::engine::kobv::parse::sru::{parse_number, parse_u64};
use crate::html::{
    end_of, first, html_nodes, html_views, positions, read_html, select, selected, subtree_end, text_below,
    text_of, HtmlNode, HtmlNodeView, Simple, Test,
};
use crate::model::slice_string;
use crate::xml::{collapse, collapse_spaces, first_attribute};
use crate::text::{
    cat, chars_of, contains_seq, contains_text, debug_text, decimal, decimal_spec, find_text,
    first_occurrence, flatten, fold, fold_spec, is_prefix, owned, quoted, same_text, trim, trim_spec,
    views,
};

verus! {

/// What names the facet in an error message.
pub const DOCUMENT: &'static str = "voebb.de branch facet";

/// One branch offered by the facet.
#[derive(Debug, Clone, PartialEq, Eq)]
pub struct FacetEntry {
    /// The label as the tree has it, e.g. `ZLB: Amerika-Gedenkbibliothek (AGB)`.
    pub label: String,
    /// The checkbox element's id, which is what the filter field carries. Valid only for
    /// the page it was read from.
    pub checkbox_id: String,
    /// The hit count the facet states, where it states one.
    pub count: Option<u64>,
}

/// The branch name of a label: the part behind the first `: `, or the whole label.
pub open spec fn label_name(label: Seq<char>) -> Seq<char> {
    match first_occurrence(label, ": "@) {
        Some(k) => label.subrange(k + 2, label.len() as int),
        None => label,
    }
}

/// The district of a label: the part in front of the first `: `, where there is one.
pub open spec fn label_district(label: Seq<char>) -> Option<Seq<char>> {
    match first_occurrence(label, ": "@) {
        Some(k) => Some(label.subrange(0, k)),
        None => None,
    }
}

impl FacetEntry {
    /// The branch name without the district in front of it.
    pub fn name(&self) -> (s: String)
        ensures
            s@ == label_name(self.label@),
    {
        proof {
            reveal_strlit(": ");
        }
        let c = chars_of(self.label.as_str());
        match find_text(self.label.as_str(), ": ") {
            Some(k) => {
                let n = c.len();
                proof {
                    assert(k + 2 <= self.label@.len());
                    assert(self.label@.len() == n);
                }
                slice_string(&c, k + 2, n)
            },
            None => self.label.clone(),
        }
    }

    /// The district in front of the colon, when the label has one. The tree's own
    /// collective entry, `in allen Bibliotheken`, has none.
    pub fn district(&self) -> (d: Option<String>)
        ensures
            match d {
                Some(t) => label_district(self.label@) == Some(t@),
                None => label_district(self.label@) is None,
            },
    {
        let c = chars_of(self.label.as_str());
        match find_text(self.label.as_str(), ": ") {
            Some(k) => Some(slice_string(&c, 0, k)),
            None => None,
        }
    }
}

/// The part of a library-list name after its `Stadtbibliothek <district> /` prefix: the
/// list writes `Stadtbibliothek Pankow / Bibliothek Buch` where the facet writes `Pankow:
/// Bibliothek Buch`; the first ` / ` separates the halves, or else the first `, `.
pub open spec fn after_prefix_spec(name: Seq<char>) -> Seq<char> {
    match first_occurrence(name, " / "@) {
        Some(k) => name.subrange(k + 3, name.len() as int),
        None => match first_occurrence(name, ", "@) {
            Some(k) => name.subrange(k + 2, name.len() as int),
            None => name,
        },
    }
}

/// The part of a name after its district prefix.
pub fn after_prefix(name: &str) -> (s: String)
    ensures
        s@ == after_prefix_spec(name@),
{
    proof {
        reveal_strlit(" / ");
        reveal_strlit(", ");
    }
    let c = chars_of(name);
    match find_text(name, " / ") {
        Some(k) => {
            let n = c.len();
            proof {
                assert(k + 3 <= name@.len());
                assert(name@.len() == n);
            }
            slice_string(&c, k + 3, n)
        },
        None => match find_text(name, ", ") {
            Some(k) => {
                let n = c.len();
                proof {
                    assert(k + 2 <= name@.len());
                    assert(name@.len() == n);
                }
                slice_string(&c, k + 2, n)
            },
            None => owned(name),
        },
    }
}

/// The text before its first `,` or `/`.
pub open spec fn cut_at_separator(d: Seq<char>) -> Seq<char>
    decreases d.len(),
{
    if d.len() == 0 {
        d
    } else if d[0] == ',' || d[0] == '/' {
        seq![]
    } else {
        seq![d[0]] + cut_at_separator(d.drop_first())
    }
}

/// The text without every leading repetition of `p`.
pub open spec fn strip_leading(s: Seq<char>, p: Seq<char>) -> Seq<char>
    decreases s.len(),
{
    if p.len() > 0 && is_prefix(p, s) {
        strip_leading(s.skip(p.len() as int), p)
    } else {
        s
    }
}

/// Every occurrence of `from` replaced by `to`, scanning from the left, as
/// `str::replace` does.
pub open spec fn replace_all(s: Seq<char>, from: Seq<char>, to: Seq<char>) -> Seq<char>
    decreases s.len(),
{
    if from.len() == 0 || s.len() < from.len() {
        s
    } else if s.subrange(0, from.len() as int) == from {
        to + replace_all(s.skip(from.len() as int), from, to)
    } else {
        seq![s[0]] + replace_all(s.skip(1), from, to)
    }
}

/// A district reduced to something the two vocabularies agree on: the part in front of
/// the `: `, cut at the first `,` or `/`, without its `Stadtbibliothek` prefix, folded,
/// and with the German digraphs `oe`, `ae`, `ue` collapsed, because the list spells
/// `Treptow-Koepenick` where the facet keeps the umlaut.
pub open spec fn district_key_spec(name: Seq<char>) -> Seq<char> {
    let d = match first_occurrence(name, ": "@) {
        Some(k) => name.subrange(0, k),
        None => name,
    };
    let d = trim_spec(strip_leading(trim_spec(cut_at_separator(d)), "Stadtbibliothek"@));
    replace_all(replace_all(replace_all(fold_spec(d), "oe"@, "o"@), "ae"@, "a"@), "ue"@, "u"@)
}

/// The text before its first `,` or `/`.
fn cut(d: &str) -> (s: String)
    ensures
        s@ == cut_at_separator(d@),
{
    let c = chars_of(d);
    let mut i: usize = 0;
    proof {
        assert(d@.skip(0) =~= d@);
        assert(d@.take(0) + cut_at_separator(d@.skip(0)) =~= cut_at_separator(d@));
    }
    while i < c.len() && c[i] != ',' && c[i] != '/'
        invariant
            i <= c.len(),
            c@ == d@,
            cut_at_separator(d@) == d@.take(i as int) + cut_at_separator(d@.skip(i as int)),
        decreases c.len() - i,
    {
        proof {
            assert(d@.skip(i as int)[0] == c@[i as int]);
            assert(d@.skip(i as int).drop_first() =~= d@.skip(i + 1));
            assert(d@.take(i + 1) =~= d@.take(i as int) + seq![c@[i as int]]);
        }
        i = i + 1;
    }
    proof {
        if i < c.len() {
            assert(d@.skip(i as int)[0] == c@[i as int]);
        } else {
            assert(d@.skip(i as int) =~= Seq::<char>::empty());
        }
        assert(d@.take(i as int) + Seq::<char>::empty() =~= d@.take(i as int));
        assert(d@.take(i as int) =~= c@.subrange(0, i as int));
    }
    slice_string(&c, 0, i)
}

/// The text without every leading repetition of `p`.
fn strip_all(s: &str, p: &str) -> (t: String)
    ensures
        t@ == strip_leading(s@, p@),
{
    let c = chars_of(s);
    let q = chars_of(p);
    let mut from: usize = 0;
    proof {
        assert(s@.skip(0) =~= s@);
    }
    while q.len() > 0 && q.len() <= c.len() - from && starts_here(&c, &q, from)
        invariant
            from <= c.len(),
            c@ == s@,
            q@ == p@,
            strip_leading(s@, p@) == strip_leading(s@.skip(from as int), p@),
        decreases c.len() - from,
    {
        proof {
            assert(is_prefix(p@, s@.skip(from as int))) by {
                assert(s@.skip(from as int).subrange(0, p@.len() as int) =~= c@.subrange(from as int, from + q.len()));
            }
            assert(s@.skip(from as int).skip(p@.len() as int) =~= s@.skip(from + q.len()));
        }
        from = from + q.len();
    }
    proof {
        if q.len() > 0 && from + q.len() <= c.len() {
            assert(!is_prefix(p@, s@.skip(from as int))) by {
                if is_prefix(p@, s@.skip(from as int)) {
                    assert(s@.skip(from as int).subrange(0, p@.len() as int) =~= c@.subrange(from as int, from + q.len()));
                }
            }
        }
        assert(s@.skip(from as int) =~= c@.subrange(from as int, c.len() as int));
    }
    slice_string(&c, from, c.len())
}

/// Whether `c[at..]` begins with `q`.
fn starts_here(c: &Vec<char>, q: &Vec<char>, at: usize) -> (r: bool)
    requires
        at + q.len() <= c.len(),
    ensures
        r == (c@.subrange(at as int, at + q.len()) == q@),
{
    let mut j: usize = 0;
    while j < q.len()
        invariant
            j <= q.len(),
            at + q.len() <= c.len(),
            forall|m: int| 0 <= m < j ==> c@[at + m] == q@[m],
        decreases q.len() - j,
    {
        if c[at + j] != q[j] {
            proof {
                assert(c@.subrange(at as int, at + q@.len())[j as int] != q@[j as int]);
            }
            return false;
        }
        j = j + 1;
    }
    proof {
        assert(c@.subrange(at as int, at + q@.len()) =~= q@);
    }
    true
}

/// Every occurrence of `from` replaced by `to`, scanning from the left.
fn replace(s: &str, from: &str, to: &str) -> (t: String)
    ensures
        t@ == replace_all(s@, from@, to@),
{
    let c = chars_of(s);
    let f = chars_of(from);
    let mut out = String::new();
    let mut i: usize = 0;
    proof {
        assert(s@.skip(0) =~= s@);
        assert(out@ + replace_all(s@.skip(0), from@, to@) =~= replace_all(s@, from@, to@));
    }
    while i < c.len()
        invariant
            i <= c.len(),
            c@ == s@,
            f@ == from@,
            replace_all(s@, from@, to@) == out@ + replace_all(s@.skip(i as int), from@, to@),
        decreases c.len() - i,
    {
        let ghost rest = s@.skip(i as int);
        if f.len() > 0 && f.len() <= c.len() - i && starts_here(&c, &f, i) {
            proof {
                assert(rest.subrange(0, from@.len() as int) =~= c@.subrange(i as int, i + f.len()));
                assert(rest.skip(from@.len() as int) =~= s@.skip(i + f.len()));
            }
            let ghost before = out@;
            crate::text::push_str(&mut out, to);
            proof {
                assert(out@ + replace_all(s@.skip(i + f.len()), from@, to@) =~= before + (to@ + replace_all(
                    s@.skip(i + f.len()),
                    from@,
                    to@,
                )));
            }
            i = i + f.len();
        } else {
            let ghost before = out@;
            proof {
                if f.len() > 0 && i + f.len() <= c.len() {
                    assert(rest.subrange(0, from@.len() as int) =~= c@.subrange(i as int, i + f.len()));
                }
                assert(rest[0] == c@[i as int]);
                assert(rest.skip(1) =~= s@.skip(i + 1));
            }
            crate::text::push_char(&mut out, c[i]);
            proof {
                assert(out@ + replace_all(s@.skip(i + 1), from@, to@) =~= before + (seq![c@[i as int]] + replace_all(
                    s@.skip(i + 1),
                    from@,
                    to@,
                )));
            }
            i = i + 1;
        }
    }
    proof {
        assert(s@.skip(i as int) =~= Seq::<char>::empty());
        assert(out@ + Seq::<char>::empty() =~= out@);
    }
    out
}

/// A district reduced to something the two vocabularies agree on.
pub fn district_key(name: &str) -> (k: String)
    ensures
        k@ == district_key_spec(name@),
{
    let c = chars_of(name);
    let d = match find_text(name, ": ") {
        Some(k) => slice_string(&c, 0, k),
        None => owned(name),
    };
    let d = cut(d.as_str());
    let d = trim(d.as_str());
    let d = strip_all(d.as_str(), "Stadtbibliothek");
    let d = trim(d.as_str());
    let d = fold(d.as_str());
    let d = replace(d.as_str(), "oe", "o");
    let d = replace(d.as_str(), "ae", "a");
    replace(d.as_str(), "ue", "u")
}

/// The `Bibliothek` rubric of one result page's facet tree.
#[derive(Debug, Clone, PartialEq, Eq)]
pub struct BranchFacet {
    /// Every branch the tree lists, in document order.
    pub entries: Vec<FacetEntry>,
}

/// The labels of a list of entries.
pub open spec fn labels(v: Seq<FacetEntry>) -> Seq<Seq<char>> {
    v.map_values(|e: FacetEntry| e.label@)
}

/// The match strings of a branch, each also without its district prefix.
pub open spec fn match_keys(ms: Seq<Seq<char>>) -> Seq<Seq<char>>
    decreases ms.len(),
{
    if ms.len() == 0 {
        seq![]
    } else {
        match_keys(ms.drop_last()) + seq![ms.last(), after_prefix_spec(ms.last())]
    }
}

/// The branch strings a stage compares against: the short name for the first and the
/// third stage; the full name, the name without its district prefix and the match
/// strings for the second.
pub open spec fn stage_keys(b: BranchView, stage: nat) -> Seq<Seq<char>> {
    if stage == 1 {
        seq![b.name, after_prefix_spec(b.name)] + match_keys(b.match_strings)
    } else {
        seq![b.short_name]
    }
}

/// Whether a folded label name and a folded key match under a stage: equal in the first
/// two, one containing the other in the third.
pub open spec fn accepts(stage: nat, name: Seq<char>, key: Seq<char>) -> bool {
    if stage == 2 {
        contains_seq(name, key) || contains_seq(key, name)
    } else {
        name == key
    }
}

/// Whether a label's district is the branch's.
pub open spec fn in_district(label: Seq<char>, b: BranchView) -> bool {
    label_district(label) matches Some(d) && district_key_spec(d) == district_key_spec(b.name)
}

/// Whether a stage accepts a label for a branch; the third stage only within the
/// branch's own district.
pub open spec fn stage_accepts(label: Seq<char>, b: BranchView, stage: nat) -> bool {
    &&& (stage == 2 ==> in_district(label, b))
    &&& exists|i: int|
        0 <= i < stage_keys(b, stage).len() && accepts(stage, fold_spec(label_name(label)), fold_spec(#[trigger] stage_keys(b, stage)[i]))
}

/// The positions of the entries a stage accepts, in order.
pub open spec fn stage_candidates(ls: Seq<Seq<char>>, b: BranchView, stage: nat) -> Seq<int>
    decreases ls.len(),
{
    if ls.len() == 0 {
        seq![]
    } else {
        let before = stage_candidates(ls.drop_last(), b, stage);
        if stage_accepts(ls.last(), b, stage) {
            before.push(ls.len() - 1)
        } else {
            before
        }
    }
}

/// The candidates whose district is the branch's.
pub open spec fn same_district(ls: Seq<Seq<char>>, cands: Seq<int>, b: BranchView) -> Seq<int>
    decreases cands.len(),
{
    if cands.len() == 0 {
        seq![]
    } else {
        let before = same_district(ls, cands.drop_last(), b);
        if in_district(ls[cands.last()], b) {
            before.push(cands.last())
        } else {
            before
        }
    }
}

/// Several candidates narrowed to the branch's district, unless that leaves none.
pub open spec fn narrowed(ls: Seq<Seq<char>>, cands: Seq<int>, b: BranchView) -> Seq<int> {
    if cands.len() < 2 {
        cands
    } else {
        let n = same_district(ls, cands, b);
        if n.len() == 0 {
            cands
        } else {
            n
        }
    }
}

/// The lookup from one stage on: the first stage with candidates decides, one candidate
/// is the answer, several are an error naming them, and no stage with any is no entry.
pub open spec fn lookup_from(ls: Seq<Seq<char>>, b: BranchView, stage: nat) -> Result<Option<int>, Seq<int>>
    decreases 3 - stage,
{
    if stage >= 3 {
        Ok(None)
    } else {
        let c = narrowed(ls, stage_candidates(ls, b, stage), b);
        if c.len() == 0 {
            lookup_from(ls, b, stage + 1)
        } else if c.len() == 1 {
            Ok(Some(c[0]))
        } else {
            Err(c)
        }
    }
}

/// The message of the error for a branch the tree lists under several labels.
pub open spec fn ambiguous_text(short_name: Seq<char>, labels: Seq<Seq<char>>) -> Seq<char> {
    "an unambiguous facet entry for "@ + debug_text(short_name) + "; "@ + decimal_spec(labels.len()) + " entries match it ("@
        + join_comma(labels) + ")"@
}

/// The labels at the given positions.
pub open spec fn labels_at(ls: Seq<Seq<char>>, ks: Seq<int>) -> Seq<Seq<char>> {
    ks.map_values(|k: int| ls[k])
}

/// The message of the error for a branch the tree does not list where it must.
pub open spec fn absent_text(short_name: Seq<char>, entries: nat) -> Seq<char> {
    "a facet entry for "@ + debug_text(short_name) + " among the "@ + decimal_spec(entries) + " branches the page lists"@
}

/// The keys of a stage for a branch.
fn keys_of(b: &Branch, stage: u8) -> (v: Vec<String>)
    requires
        stage < 3,
    ensures
        string_views(v@) == stage_keys(b.view(), stage as nat),
{
    if stage != 1 {
        let v = vec![b.short_name.clone()];
        proof {
            assert(string_views(v@) =~= stage_keys(b.view(), stage as nat));
        }
        return v;
    }
    let mut v: Vec<String> = Vec::new();
    v.push(b.name.clone());
    v.push(after_prefix(b.name.as_str()));
    let ghost ms = b.view().match_strings;
    let mut i: usize = 0;
    proof {
        assert(string_views(v@) =~= seq![b.name@, after_prefix_spec(b.name@)] + match_keys(ms.take(0)));
    }
    while i < b.match_strings.len()
        invariant
            i <= b.match_strings.len(),
            ms == b.view().match_strings,
            ms.len() == b.match_strings@.len(),
            string_views(v@) == seq![b.name@, after_prefix_spec(b.name@)] + match_keys(ms.take(i as int)),
        decreases b.match_strings.len() - i,
    {
        let m = b.match_strings[i].clone();
        let t = after_prefix(m.as_str());
        let ghost before = v@;
        v.push(m);
        v.push(t);
        proof {
            assert(ms[i as int] == b.match_strings@[i as int]@);
            assert(ms.take(i + 1).drop_last() =~= ms.take(i as int));
            assert(string_views(v@) =~= string_views(before) + seq![m@, t@]);
        }
        i = i + 1;
    }
    proof {
        assert(ms.take(i as int) =~= ms);
    }
    v
}

/// Whether a stage accepts an entry's label for a branch, given the stage's keys folded
/// and the branch's district key.
fn accepted(label: &str, keys: &Vec<String>, stage: u8, b: &Branch, district: &str) -> (r: bool)
    requires
        stage < 3,
        string_views(keys@) == stage_keys(b.view(), stage as nat).map_values(|k: Seq<char>| fold_spec(k)),
        district@ == district_key_spec(b.name@),
    ensures
        r == stage_accepts(label@, b.view(), stage as nat),
{
    if stage == 2 {
        let c = chars_of(label);
        let within = match find_text(label, ": ") {
            Some(k) => {
                let d = slice_string(&c, 0, k);
                same_text(district_key(d.as_str()).as_str(), district)
            },
            None => false,
        };
        if !within {
            return false;
        }
    }
    let f = chars_of(label);
    let name = match find_text(label, ": ") {
        Some(k) => {
            let n = f.len();
            proof {
                reveal_strlit(": ");
                assert(k + 2 <= label@.len());
                assert(label@.len() == n);
            }
            slice_string(&f, k + 2, n)
        },
        None => owned(label),
    };
    let name = fold(name.as_str());
    let ghost ks = stage_keys(b.view(), stage as nat);
    proof {
        assert(string_views(keys@).len() == keys@.len());
        assert(ks.map_values(|k: Seq<char>| fold_spec(k)).len() == ks.len());
    }
    let mut i: usize = 0;
    while i < keys.len()
        invariant
            i <= keys.len(),
            stage < 3,
            ks == stage_keys(b.view(), stage as nat),
            ks.len() == keys@.len(),
            string_views(keys@) == ks.map_values(|k: Seq<char>| fold_spec(k)),
            name@ == fold_spec(label_name(label@)),
            stage == 2 ==> in_district(label@, b.view()),
            forall|j: int| 0 <= j < i ==> !accepts(stage as nat, name@, fold_spec(#[trigger] ks[j])),
        decreases keys.len() - i,
    {
        proof {
            assert(string_views(keys@)[i as int] == ks.map_values(|k: Seq<char>| fold_spec(k))[i as int]);
            assert(string_views(keys@)[i as int] == fold_spec(ks[i as int]));
            assert(string_views(keys@)[i as int] == keys@[i as int]@);
        }
        let k = keys[i].as_str();
        let hit = if stage == 2 {
            contains_text(name.as_str(), k) || contains_text(k, name.as_str())
        } else {
            same_text(name.as_str(), k)
        };
        if hit {
            proof {
                assert(accepts(stage as nat, fold_spec(label_name(label@)), fold_spec(ks[i as int])));
            }
            return true;
        }
        i = i + 1;
    }
    false
}

/// Whether a label's district is the branch's.
fn district_of_label_is(label: &str, district: &str) -> (r: bool)
    ensures
        r == (label_district(label@) matches Some(d) && district_key_spec(d) == district@),
{
    let c = chars_of(label);
    match find_text(label, ": ") {
        Some(k) => {
            let d = slice_string(&c, 0, k);
            same_text(district_key(d.as_str()).as_str(), district)
        },
        None => false,
    }
}

impl BranchFacet {
    /// The positions of the entries a stage accepts, narrowed to the branch's district
    /// where several are left and that leaves any.
    fn stage_hits(&self, b: &Branch, stage: u8) -> (v: Vec<usize>)
        requires
            stage < 3,
        ensures
            crate::html::positions(v@) == narrowed(labels(self.entries@), stage_candidates(labels(self.entries@), b.view(), stage as nat), b.view()),
            forall|j: int| 0 <= j < v@.len() ==> #[trigger] v@[j] < self.entries@.len(),
    {
        let ghost ls = labels(self.entries@);
        let raw = keys_of(b, stage);
        let mut keys: Vec<String> = Vec::new();
        let mut i: usize = 0;
        while i < raw.len()
            invariant
                i <= raw.len(),
                string_views(keys@) == string_views(raw@).take(i as int).map_values(|k: Seq<char>| fold_spec(k)),
            decreases raw.len() - i,
        {
            let f = fold(raw[i].as_str());
            let ghost before = keys@;
            keys.push(f);
            proof {
                assert(string_views(raw@)[i as int] == raw@[i as int]@);
                assert(string_views(keys@) =~= string_views(before).push(f@));
                assert(string_views(raw@).take(i + 1).map_values(|k: Seq<char>| fold_spec(k)) =~= string_views(raw@).take(
                    i as int,
                ).map_values(|k: Seq<char>| fold_spec(k)).push(fold_spec(raw@[i as int]@)));
            }
            i = i + 1;
        }
        proof {
            assert(string_views(raw@).take(i as int) =~= string_views(raw@));
        }
        let district = district_key(b.name.as_str());
        let mut cands: Vec<usize> = Vec::new();
        let mut e: usize = 0;
        while e < self.entries.len()
            invariant
                e <= self.entries.len(),
                stage < 3,
                ls == labels(self.entries@),
                string_views(keys@) == stage_keys(b.view(), stage as nat).map_values(|k: Seq<char>| fold_spec(k)),
                district@ == district_key_spec(b.name@),
                crate::html::positions(cands@) == stage_candidates(ls.take(e as int), b.view(), stage as nat),
                forall|j: int| 0 <= j < cands@.len() ==> #[trigger] cands@[j] < e,
            decreases self.entries.len() - e,
        {
            proof {
                assert(ls.take(e + 1).drop_last() =~= ls.take(e as int));
                assert(ls.take(e + 1).last() == self.entries@[e as int].label@);
            }
            if accepted(self.entries[e].label.as_str(), &keys, stage, b, district.as_str()) {
                let ghost before = cands@;
                cands.push(e);
                proof {
                    assert(crate::html::positions(cands@) =~= crate::html::positions(before).push(e as int));
                }
            }
            e = e + 1;
        }
        proof {
            assert(ls.take(e as int) =~= ls);
        }
        if cands.len() < 2 {
            return cands;
        }
        let ghost cv = crate::html::positions(cands@);
        let mut same: Vec<usize> = Vec::new();
        let mut j: usize = 0;
        while j < cands.len()
            invariant
                j <= cands.len(),
                ls == labels(self.entries@),
                district@ == district_key_spec(b.name@),
                cv == crate::html::positions(cands@),
                forall|m: int| 0 <= m < cands@.len() ==> #[trigger] cands@[m] < self.entries@.len(),
                crate::html::positions(same@) == same_district(ls, cv.take(j as int), b.view()),
                forall|m: int| 0 <= m < same@.len() ==> #[trigger] same@[m] < self.entries@.len(),
            decreases cands.len() - j,
        {
            let k = cands[j];
            proof {
                assert(cv.take(j + 1).drop_last() =~= cv.take(j as int));
                assert(cv.take(j + 1).last() == k as int);
                assert(ls[k as int] == self.entries@[k as int].label@);
            }
            if district_of_label_is(self.entries[k].label.as_str(), district.as_str()) {
                let ghost before = same@;
                same.push(k);
                proof {
                    assert(crate::html::positions(same@) =~= crate::html::positions(before).push(k as int));
                }
            }
            j = j + 1;
        }
        proof {
            assert(cv.take(j as int) =~= cv);
        }
        if same.len() == 0 {
            cands
        } else {
            same
        }
    }
}

/// The error for a branch the tree lists under several labels: it names the branch and
/// every candidate, because the fix is a match string in the library list.
fn ambiguous(b: &Branch, entries: &Vec<FacetEntry>, cands: &Vec<usize>) -> (e: Error)
    requires
        forall|j: int| 0 <= j < cands@.len() ==> #[trigger] cands@[j] < entries@.len(),
    ensures
        e matches Error::Unexpected(u) && u@ == (UnexpectedView::MissingElement {
            what: ambiguous_text(b.short_name@, labels_at(labels(entries@), crate::html::positions(cands@))),
            context: DOCUMENT@,
        }),
{
    let ghost ls = labels(entries@);
    let mut names: Vec<String> = Vec::new();
    let mut i: usize = 0;
    while i < cands.len()
        invariant
            i <= cands.len(),
            ls == labels(entries@),
            forall|j: int| 0 <= j < cands@.len() ==> #[trigger] cands@[j] < entries@.len(),
            string_views(names@) == labels_at(ls, crate::html::positions(cands@).take(i as int)),
        decreases cands.len() - i,
    {
        let l = entries[cands[i]].label.clone();
        let ghost before = names@;
        names.push(l);
        proof {
            assert(string_views(names@) =~= string_views(before).push(l@));
            assert(labels_at(ls, crate::html::positions(cands@).take(i + 1)) =~= labels_at(
                ls,
                crate::html::positions(cands@).take(i as int),
            ).push(ls[cands@[i as int] as int]));
        }
        i = i + 1;
    }
    proof {
        assert(crate::html::positions(cands@).take(i as int) =~= crate::html::positions(cands@));
    }
    let q = quoted(b.short_name.as_str());
    let n = decimal(cands.len() as u64);
    let joined = crate::error::join_with_comma(&names);
    let parts = vec![
        "an unambiguous facet entry for ",
        q.as_str(),
        "; ",
        n.as_str(),
        " entries match it (",
        joined.as_str(),
        ")",
    ];
    proof {
        reveal_with_fuel(flatten, 8);
        assert(views(parts@) =~= seq![
            "an unambiguous facet entry for "@,
            debug_text(b.short_name@),
            "; "@,
            decimal_spec(cands@.len()),
            " entries match it ("@,
            join_comma(string_views(names@)),
            ")"@,
        ]);
        assert(string_views(names@).len() == cands@.len());
    }
    Error::Unexpected(UnexpectedError::MissingElement { what: cat(parts), context: owned(DOCUMENT) })
}

impl BranchFacet {
    /// Find the entry for a branch, or say that the tree does not list it. Three stages,
    /// weakest last, so that a strong match is never overruled by a weak one: the label's
    /// name folds equal to the short name; it folds equal to the full name, that name
    /// without its district prefix, or a match string; one contains the other and the
    /// districts agree. Several candidates are narrowed to the branch's district where
    /// that leaves any, and several that remain are an error naming them, never a silent
    /// pick. `None` means the tree does not list the branch: it has no hits there.
    pub fn lookup(&self, branch: &Branch) -> (r: Result<Option<&FacetEntry>, Error>)
        ensures
            match r {
                Ok(Some(e)) => lookup_from(labels(self.entries@), branch.view(), 0) matches Ok(Some(i)) && 0 <= i
                    < self.entries@.len() && self.entries@[i] == *e,
                Ok(None) => lookup_from(labels(self.entries@), branch.view(), 0) == Ok::<Option<int>, Seq<int>>(None),
                Err(Error::Unexpected(u)) => lookup_from(labels(self.entries@), branch.view(), 0) matches Err(c) && u@
                    == (UnexpectedView::MissingElement {
                    what: ambiguous_text(branch.short_name@, labels_at(labels(self.entries@), c)),
                    context: DOCUMENT@,
                }),
                Err(_) => false,
            },
    {
        let ghost ls = labels(self.entries@);
        let mut stage: u8 = 0;
        while stage < 3
            invariant
                stage <= 3,
                ls == labels(self.entries@),
                lookup_from(ls, branch.view(), 0) == lookup_from(ls, branch.view(), stage as nat),
            decreases 3 - stage,
        {
            let hits = self.stage_hits(branch, stage);
            if hits.len() == 1 {
                proof {
                    assert(crate::html::positions(hits@)[0] == hits@[0] as int);
                }
                return Ok(Some(&self.entries[hits[0]]));
            }
            if hits.len() > 1 {
                return Err(ambiguous(branch, &self.entries, &hits));
            }
            stage = stage + 1;
        }
        Ok(None)
    }

    /// Find the entry for a branch, treating its absence as an error: for the caller that
    /// has to apply the filter and cannot fall back.
    pub fn find(&self, branch: &Branch) -> (r: Result<&FacetEntry, Error>)
        ensures
            match r {
                Ok(e) => lookup_from(labels(self.entries@), branch.view(), 0) matches Ok(Some(i)) && 0 <= i
                    < self.entries@.len() && self.entries@[i] == *e,
                Err(Error::Unexpected(u)) => match lookup_from(labels(self.entries@), branch.view(), 0) {
                    Ok(None) => u@ == (UnexpectedView::MissingElement {
                        what: absent_text(branch.short_name@, self.entries@.len()),
                        context: DOCUMENT@,
                    }),
                    Err(c) => u@ == (UnexpectedView::MissingElement {
                        what: ambiguous_text(branch.short_name@, labels_at(labels(self.entries@), c)),
                        context: DOCUMENT@,
                    }),
                    Ok(Some(_)) => false,
                },
                Err(_) => false,
            },
    {
        match self.lookup(branch) {
            Ok(Some(e)) => Ok(e),
            Ok(None) => {
                let q = quoted(branch.short_name.as_str());
                let n = decimal(self.entries.len() as u64);
                let parts = vec!["a facet entry for ", q.as_str(), " among the ", n.as_str(), " branches the page lists"];
                proof {
                    reveal_with_fuel(flatten, 6);
                    assert(views(parts@) =~= seq![
                        "a facet entry for "@,
                        debug_text(branch.short_name@),
                        " among the "@,
                        decimal_spec(self.entries@.len()),
                        " branches the page lists"@,
                    ]);
                }
                Err(Error::Unexpected(UnexpectedError::MissingElement { what: cat(parts), context: owned(DOCUMENT) }))
            },
            Err(e) => Err(e),
        }
    }
}

/// The text without every trailing `c`.
pub open spec fn strip_end(s: Seq<char>, c: char) -> Seq<char>
    decreases s.len(),
{
    if s.len() > 0 && s.last() == c {
        strip_end(s.drop_last(), c)
    } else {
        s
    }
}

/// The number of a `(35)` count badge: trimmed, brackets off, thousands dots removed,
/// read as `str::parse::<u64>` reads it.
pub open spec fn count_spec(text: Seq<char>) -> Option<nat> {
    parse_u64(crate::text::without(strip_end(strip_leading(trim_spec(text), "("@), ')'), '.'))
}

/// The number out of a `(35)` count badge.
pub fn parse_count(text: &str) -> (r: Option<u64>)
    ensures
        match r {
            Some(v) => count_spec(text@) == Some(v as nat),
            None => count_spec(text@) is None,
        },
{
    let t = trim(text);
    let t = strip_all(t.as_str(), "(");
    let c = chars_of(t.as_str());
    let mut to: usize = c.len();
    proof {
        assert(t@.take(to as int) =~= t@);
    }
    while to > 0 && c[to - 1] == ')'
        invariant
            to <= c.len(),
            c@ == t@,
            strip_end(t@, ')') == strip_end(t@.take(to as int), ')'),
        decreases to,
    {
        proof {
            assert(t@.take(to as int).drop_last() =~= t@.take(to - 1));
        }
        to = to - 1;
    }
    proof {
        assert(t@.take(to as int) =~= c@.subrange(0, to as int));
    }
    let t = slice_string(&c, 0, to);
    let t = crate::text::remove_char(t.as_str(), '.');
    parse_number(t.as_str(), 0xffff_ffff_ffff_ffff)
}

/// The selectors of the facet tree.
pub open spec fn tree_sel() -> Simple {
    Simple { name: "div", test: Test::Is("id", "PTL1_tree_1") }
}

/// `li.cbtree_branch_li`: a rubric of the tree.
pub open spec fn rubric_sel() -> Simple {
    Simple { name: "li", test: Test::Class("cbtree_branch_li") }
}

/// `button.cbtree_branch_a`: a rubric's heading.
pub open spec fn heading_sel() -> Simple {
    Simple { name: "button", test: Test::Class("cbtree_branch_a") }
}

/// `li.cbtree_leaf_li`: one entry of a rubric.
pub open spec fn leaf_sel() -> Simple {
    Simple { name: "li", test: Test::Class("cbtree_leaf_li") }
}

/// `a.cbtree_leaf_a`: an entry's label.
pub open spec fn label_sel() -> Simple {
    Simple { name: "a", test: Test::Class("cbtree_leaf_a") }
}

/// The missing-selector error of the facet.
pub open spec fn facet_missing(selector: Seq<char>) -> UnexpectedView {
    UnexpectedView::MissingSelector { selector, document: DOCUMENT@ }
}

/// Whether the rubric at node `r` is the one listing branches: its first heading reads
/// `Bibliothek`.
pub open spec fn is_branch_rubric(ns: Seq<HtmlNodeView>, r: int) -> bool {
    let hs = selected(ns, r + 1, subtree_end(ns, r), heading_sel(), None);
    hs.len() > 0 && collapse_spaces(text_below(ns, hs[0])) == "Bibliothek"@
}

/// The first of the rubrics that lists branches.
pub open spec fn first_rubric(ns: Seq<HtmlNodeView>, rs: Seq<int>) -> Option<int>
    decreases rs.len(),
{
    if rs.len() == 0 {
        None
    } else if is_branch_rubric(ns, rs[0]) {
        Some(rs[0])
    } else {
        first_rubric(ns, rs.drop_first())
    }
}

/// The text of the text nodes among a run of nodes that lie at `depth`.
pub open spec fn texts_at(ns: Seq<HtmlNodeView>, depth: nat) -> Seq<char>
    decreases ns.len(),
{
    if ns.len() == 0 {
        seq![]
    } else {
        texts_at(ns.drop_last(), depth) + if ns.last().text_node && ns.last().depth == depth {
            ns.last().text
        } else {
            seq![]
        }
    }
}

/// The text of the text children of node `a`, without the text of its elements.
pub open spec fn child_text(ns: Seq<HtmlNodeView>, a: int) -> Seq<char> {
    texts_at(ns.subrange(a + 1, subtree_end(ns, a)), ns[a].depth + 1)
}

/// An entry as plain values: label, checkbox id, count.
pub open spec fn entry_view(e: FacetEntry) -> (Seq<char>, Seq<char>, Option<nat>) {
    (
        e.label@,
        e.checkbox_id@,
        match e.count {
            Some(c) => Some(c as nat),
            None => None,
        },
    )
}

/// The entry of the leaf at node `l`: the id of its checkbox, the text children of its
/// label link and the number of the link's count badge. A leaf without a checkbox id
/// cannot be sent back and one without a label cannot be matched: both are no entry.
pub open spec fn entry_spec(ns: Seq<HtmlNodeView>, l: int) -> Option<(Seq<char>, Seq<char>, Option<nat>)> {
    let end = subtree_end(ns, l);
    let boxes = selected(ns, l + 1, end, Simple { name: "input", test: Test::Is("type", "checkbox") }, None);
    let links = selected(ns, l + 1, end, label_sel(), None);
    if boxes.len() == 0 || links.len() == 0 {
        None
    } else {
        match first_attribute(ns[boxes[0]].attributes, "id"@) {
            None => None,
            Some(id) => {
                let a = links[0];
                let counts = selected(ns, a + 1, subtree_end(ns, a), Simple { name: "span", test: Test::Class("count") }, None);
                let count = if counts.len() > 0 {
                    count_spec(collapse_spaces(text_below(ns, counts[0])))
                } else {
                    None
                };
                let label = collapse_spaces(child_text(ns, a));
                if label.len() == 0 {
                    None
                } else {
                    Some((label, id, count))
                }
            },
        }
    }
}

/// The entries of the given leaves, in order.
pub open spec fn entries_spec(ns: Seq<HtmlNodeView>, ls: Seq<int>) -> Seq<(Seq<char>, Seq<char>, Option<nat>)>
    decreases ls.len(),
{
    if ls.len() == 0 {
        seq![]
    } else {
        let before = entries_spec(ns, ls.drop_last());
        match entry_spec(ns, ls.last()) {
            Some(e) => before.push(e),
            None => before,
        }
    }
}

/// The branch facet of a page: the entries of the `Bibliothek` rubric of the tree, or
/// the error naming the tree or the rubric that is gone. An empty rubric is no error: a
/// search whose hits are all online has no branch in it.
pub open spec fn facet_spec(ns: Seq<HtmlNodeView>) -> Result<Seq<(Seq<char>, Seq<char>, Option<nat>)>, UnexpectedView> {
    let trees = selected(ns, 0, ns.len() as int, tree_sel(), None);
    if trees.len() == 0 {
        Err(facet_missing("div#PTL1_tree_1"@))
    } else {
        let t = trees[0];
        match first_rubric(ns, selected(ns, t + 1, subtree_end(ns, t), rubric_sel(), None)) {
            None => Err(facet_missing("div#PTL1_tree_1 li.cbtree_branch_li (rubric \"Bibliothek\")"@)),
            Some(r) => Ok(entries_spec(ns, selected(ns, r + 1, subtree_end(ns, r), leaf_sel(), None))),
        }
    }
}

/// The text of the text children of node `a`.
fn child_text_of(ns: &Vec<HtmlNode>, a: usize) -> (t: String)
    requires
        a < ns.len(),
    ensures
        t@ == child_text(html_views(ns@), a as int),
{
    let ghost hv = html_views(ns@);
    let end = end_of(ns, a);
    let d = ns[a].depth;
    proof {
        assert(hv[a as int] == ns@[a as int].view());
    }
    if d == usize::MAX {
        proof {
            assert forall|k: int| a < k < end implies #[trigger] hv[k].depth != d + 1 by {
                assert(hv[k] == ns@[k].view());
            }
            lemma_no_texts_at(hv.subrange(a + 1, end as int), (d + 1) as nat);
        }
        return String::new();
    }
    let mut t = String::new();
    let mut k: usize = a + 1;
    proof {
        assert(hv.subrange(a + 1, a + 1) =~= Seq::<HtmlNodeView>::empty());
        assert(t@ =~= Seq::<char>::empty());
    }
    while k < end
        invariant
            a < k <= end <= ns.len(),
            hv == html_views(ns@),
            d < usize::MAX,
            d == hv[a as int].depth,
            t@ == texts_at(hv.subrange(a + 1, k as int), (d + 1) as nat),
        decreases end - k,
    {
        proof {
            assert(hv.subrange(a + 1, k + 1).drop_last() =~= hv.subrange(a + 1, k as int));
            assert(hv.subrange(a + 1, k + 1).last() == ns@[k as int].view());
        }
        if ns[k].text_node && ns[k].depth == d + 1 {
            crate::text::push_str(&mut t, ns[k].text.as_str());
        } else {
            proof {
                assert(t@ + Seq::<char>::empty() =~= t@);
            }
        }
        k = k + 1;
    }
    t
}

/// No node of the run lies at `depth`, so none of its text counts.
proof fn lemma_no_texts_at(ns: Seq<HtmlNodeView>, depth: nat)
    requires
        forall|k: int| 0 <= k < ns.len() ==> #[trigger] ns[k].depth != depth,
    ensures
        texts_at(ns, depth) == Seq::<char>::empty(),
    decreases ns.len(),
{
    if ns.len() > 0 {
        assert forall|k: int| 0 <= k < ns.drop_last().len() implies #[trigger] ns.drop_last()[k].depth != depth by {
            assert(ns.drop_last()[k] == ns[k]);
        }
        lemma_no_texts_at(ns.drop_last(), depth);
        assert(ns.last() == ns[ns.len() - 1]);
    }
}

/// One leaf of the rubric.
fn entry_at(ns: &Vec<HtmlNode>, l: usize) -> (r: Option<FacetEntry>)
    requires
        l < ns.len(),
    ensures
        match r {
            Some(e) => entry_spec(html_views(ns@), l as int) == Some(entry_view(e)),
            None => entry_spec(html_views(ns@), l as int) is None,
        },
{
    let ghost hv = html_views(ns@);
    let end = end_of(ns, l);
    let b = match first(ns, l + 1, end, Simple { name: "input", test: Test::Is("type", "checkbox") }) {
        Some(b) => b,
        None => {
            return None;
        },
    };
    let a = match first(ns, l + 1, end, Simple { name: "a", test: Test::Class("cbtree_leaf_a") }) {
        Some(a) => a,
        None => {
            return None;
        },
    };
    proof {
        crate::html::lemma_selected_within(hv, l + 1, end as int, Simple { name: "input", test: Test::Is("type", "checkbox") }, None);
        crate::html::lemma_selected_within(hv, l + 1, end as int, label_sel(), None);
        assert(hv[b as int] == ns@[b as int].view());
    }
    let id = match crate::html::attr(&ns[b], "id") {
        Some(id) => owned(id),
        None => {
            return None;
        },
    };
    let aend = end_of(ns, a);
    let count = match first(ns, a + 1, aend, Simple { name: "span", test: Test::Class("count") }) {
        Some(c) => {
            proof {
                crate::html::lemma_selected_within(hv, a + 1, aend as int, Simple { name: "span", test: Test::Class("count") }, None);
            }
            parse_count(collapse(text_of(ns, c).as_str()).as_str())
        },
        None => None,
    };
    let label = collapse(child_text_of(ns, a).as_str());
    if label.as_str().unicode_len() == 0 {
        return None;
    }
    Some(FacetEntry { label, checkbox_id: id, count })
}

/// Read the branch facet from the nodes of a result page.
pub fn facet_from_nodes(ns: &Vec<HtmlNode>) -> (r: Result<BranchFacet, Error>)
    ensures
        match r {
            Ok(f) => facet_spec(html_views(ns@)) == Ok::<Seq<(Seq<char>, Seq<char>, Option<nat>)>, UnexpectedView>(
                f.entries@.map_values(|e: FacetEntry| entry_view(e)),
            ),
            Err(Error::Unexpected(e)) => facet_spec(html_views(ns@)) == Err::<Seq<(Seq<char>, Seq<char>, Option<nat>)>, UnexpectedView>(e@),
            Err(_) => false,
        },
{
    let ghost hv = html_views(ns@);
    let t = match first(ns, 0, ns.len(), Simple { name: "div", test: Test::Is("id", "PTL1_tree_1") }) {
        Some(t) => t,
        None => {
            return Err(Error::Unexpected(UnexpectedError::MissingSelector { selector: owned("div#PTL1_tree_1"), document: owned(DOCUMENT) }));
        },
    };
    proof {
        crate::html::lemma_selected_within(hv, 0, ns.len() as int, tree_sel(), None);
    }
    let tend = end_of(ns, t);
    let rs = select(ns, t + 1, tend, Simple { name: "li", test: Test::Class("cbtree_branch_li") }, None);
    let ghost rv = positions(rs@);
    let mut found: Option<usize> = None;
    let mut i: usize = 0;
    proof {
        assert(rv.skip(0) =~= rv);
    }
    while i < rs.len() && found.is_none()
        invariant
            i <= rs.len(),
            hv == html_views(ns@),
            rv == positions(rs@),
            forall|j: int| 0 <= j < rs@.len() ==> #[trigger] rs@[j] < ns.len(),
            found is None ==> first_rubric(hv, rv) == first_rubric(hv, rv.skip(i as int)),
            found matches Some(f) ==> first_rubric(hv, rv) == Some(f as int) && f < ns.len(),
        decreases rs.len() - i,
    {
        let r = rs[i];
        proof {
            assert(rv.skip(i as int)[0] == r as int);
            assert(rv.skip(i as int).drop_first() =~= rv.skip(i + 1));
        }
        let rend = end_of(ns, r);
        let heading = first(ns, r + 1, rend, Simple { name: "button", test: Test::Class("cbtree_branch_a") });
        let is_rubric = match heading {
            Some(h) => {
                proof {
                    crate::html::lemma_selected_within(hv, r + 1, rend as int, heading_sel(), None);
                    reveal_strlit("Bibliothek");
                }
                same_text(collapse(text_of(ns, h).as_str()).as_str(), "Bibliothek")
            },
            None => false,
        };
        if is_rubric {
            found = Some(r);
        }
        i = i + 1;
    }
    let r = match found {
        Some(r) => r,
        None => {
            proof {
                assert(rv.skip(i as int) =~= Seq::<int>::empty());
            }
            return Err(Error::Unexpected(UnexpectedError::MissingSelector {
                selector: owned("div#PTL1_tree_1 li.cbtree_branch_li (rubric \"Bibliothek\")"),
                document: owned(DOCUMENT),
            }));
        },
    };
    let rend = end_of(ns, r);
    let leaves = select(ns, r + 1, rend, Simple { name: "li", test: Test::Class("cbtree_leaf_li") }, None);
    let ghost lv = positions(leaves@);
    let mut entries: Vec<FacetEntry> = Vec::new();
    let mut j: usize = 0;
    while j < leaves.len()
        invariant
            j <= leaves.len(),
            hv == html_views(ns@),
            lv == positions(leaves@),
            forall|m: int| 0 <= m < leaves@.len() ==> #[trigger] leaves@[m] < ns.len(),
            entries@.map_values(|e: FacetEntry| entry_view(e)) == entries_spec(hv, lv.take(j as int)),
        decreases leaves.len() - j,
    {
        let l = leaves[j];
        proof {
            assert(lv.take(j + 1).drop_last() =~= lv.take(j as int));
            assert(lv.take(j + 1).last() == l as int);
        }
        let ghost before = entries@;
        match entry_at(ns, l) {
            Some(e) => {
                entries.push(e);
                proof {
                    assert(entries@.map_values(|e: FacetEntry| entry_view(e)) =~= before.map_values(
                        |e: FacetEntry| entry_view(e),
                    ).push(entry_view(e)));
                }
            },
            None => {},
        }
        j = j + 1;
    }
    proof {
        assert(lv.take(j as int) =~= lv);
    }
    Ok(BranchFacet { entries })
}

/// Read the branch facet of a result page.
pub fn parse_facet(html: &str) -> (r: Result<BranchFacet, Error>)
    ensures
        match r {
            Ok(f) => facet_spec(html_nodes(html@)) == Ok::<Seq<(Seq<char>, Seq<char>, Option<nat>)>, UnexpectedView>(
                f.entries@.map_values(|e: FacetEntry| entry_view(e)),
            ),
            Err(Error::Unexpected(e)) => facet_spec(html_nodes(html@)) == Err::<Seq<(Seq<char>, Seq<char>, Option<nat>)>, UnexpectedView>(e@),
            Err(_) => false,
        },
{
    let ns = read_html(html);
    facet_from_nodes(&ns)
}

/// What `lookup` answers, as plain values: the index of the entry, none, or the error
/// that names the candidates a name cannot choose between.
pub open spec fn lookup_answer(ls: Seq<Seq<char>>, b: BranchView) -> Result<Option<int>, UnexpectedView> {
    match lookup_from(ls, b, 0) {
        Ok(o) => Ok(o),
        Err(c) => Err(UnexpectedView::MissingElement { what: ambiguous_text(b.short_name, labels_at(ls, c)), context: DOCUMENT@ }),
    }
}

/// What `find` answers, as plain values, over a facet of `n` entries.
pub open spec fn find_answer(ls: Seq<Seq<char>>, b: BranchView, n: nat) -> Result<int, UnexpectedView> {
    match lookup_from(ls, b, 0) {
        Ok(Some(i)) => Ok(i),
        Ok(None) => Err(UnexpectedView::MissingElement { what: absent_text(b.short_name, n), context: DOCUMENT@ }),
        Err(c) => Err(UnexpectedView::MissingElement { what: ambiguous_text(b.short_name, labels_at(ls, c)), context: DOCUMENT@ }),
    }
}

/// `find` is `lookup` with an absent branch turned into an error: the same entry where
/// `lookup` finds one, the same error where `lookup` fails, and where `lookup` finds
/// nothing an error that names the branch and the number of entries the facet has.
pub proof fn law_find_is_lookup_that_must_find(ls: Seq<Seq<char>>, b: BranchView, n: nat)
    ensures
        match lookup_answer(ls, b) {
            Ok(Some(i)) => find_answer(ls, b, n) == Ok::<int, UnexpectedView>(i),
            Ok(None) => find_answer(ls, b, n) == Err::<int, UnexpectedView>(
                UnexpectedView::MissingElement { what: absent_text(b.short_name, n), context: DOCUMENT@ },
            ),
            Err(x) => find_answer(ls, b, n) == Err::<int, UnexpectedView>(x),
        },
{
}

} // verus!
