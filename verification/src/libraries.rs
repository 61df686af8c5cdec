//! The compiled-in list of libraries: institutions, their ISILs, shorthands and
//! branches. It resolves `--at`, answers `libraries` and names a record's holders.
use vstd::prelude::*;
use crate::error::UsageError;
use crate::model::{Engine, Holding, HoldingView, Isil, Location};
use crate::text::{
    chars_of, digit_value, eq_folded, is_ascii_digit, is_digit, is_prefix, owned, same_folded,
    starts_with, to_upper, trim, trim_spec, upper_seq, value_of_digit,
};

verus! {

/// The ISIL of the Berlin public library network, whose branches voebb.de answers for.
pub const VOEBB_NETWORK: &'static str = "DE-609";

/// A point on the map in millionths of a degree.
#[derive(Debug, Clone, Copy, PartialEq, Eq, Structural)]
pub struct LatLon {
    /// Latitude, millionths of a degree north.
    pub lat_e6: i32,
    /// Longitude, millionths of a degree east.
    pub lon_e6: i32,
}

/// A branch of an institution.
#[derive(Debug, Clone, PartialEq, Eq)]
pub struct Branch {
    /// The key that searches it.
    pub key: String,
    /// The KOBV id of the branch.
    pub kobvid: String,
    /// Its full name.
    pub name: String,
    /// The short name the catalogues use for it.
    pub short_name: String,
    /// Where it is.
    pub coords: LatLon,
    /// Further names the catalogues write for it, where its own names are not enough to
    /// recognise it in a location cell or a facet label.
    pub match_strings: Vec<String>,
}

/// An institution.
#[derive(Debug, Clone, PartialEq, Eq)]
pub struct Library {
    /// The canonical key.
    pub key: String,
    /// Other shorthands that name it.
    pub aliases: Vec<String>,
    /// The canonical ISIL, as the holdings filter wants it.
    pub isil: String,
    /// Its name.
    pub name: String,
    /// Where it is.
    pub coords: LatLon,
    /// Its branches.
    pub branches: Vec<Branch>,
}

/// What a `libraries` key names: a house, or a branch of one.
#[derive(Debug, Clone, PartialEq, Eq)]
pub enum Entry {
    Institution(Library),
    Branch { house: Library, branch: Branch },
}

/// A branch as plain values.
pub struct BranchView {
    pub key: Seq<char>,
    pub kobvid: Seq<char>,
    pub name: Seq<char>,
    pub short_name: Seq<char>,
    pub coords: LatLon,
    pub match_strings: Seq<Seq<char>>,
}

/// An institution as plain values.
pub struct LibraryView {
    pub key: Seq<char>,
    pub aliases: Seq<Seq<char>>,
    pub isil: Seq<char>,
    pub name: Seq<char>,
    pub coords: LatLon,
    pub branches: Seq<BranchView>,
}

impl Branch {
    /// The branch as plain values.
    pub open spec fn view(&self) -> BranchView {
        BranchView {
            key: self.key@,
            kobvid: self.kobvid@,
            name: self.name@,
            short_name: self.short_name@,
            coords: self.coords,
            match_strings: string_views(self.match_strings@),
        }
    }
}

impl Library {
    /// The institution as plain values.
    pub open spec fn view(&self) -> LibraryView {
        LibraryView {
            key: self.key@,
            aliases: string_views(self.aliases@),
            isil: self.isil@,
            name: self.name@,
            coords: self.coords,
            branches: branch_views(self.branches@),
        }
    }
}

impl Branch {
    /// A copy of the branch.
    pub fn copy(&self) -> (b: Branch)
        ensures
            b.view() == self.view(),
    {
        Branch {
            key: self.key.clone(),
            kobvid: self.kobvid.clone(),
            name: self.name.clone(),
            short_name: self.short_name.clone(),
            coords: self.coords,
            match_strings: copy_strings(&self.match_strings),
        }
    }
}

/// A copy of a list of strings.
pub fn copy_strings(v: &Vec<String>) -> (c: Vec<String>)
    ensures
        string_views(c@) == string_views(v@),
{
    let mut out: Vec<String> = Vec::new();
    let mut i: usize = 0;
    while i < v.len()
        invariant
            i <= v.len(),
            string_views(out@) == string_views(v@.take(i as int)),
        decreases v.len() - i,
    {
        let a = v[i].clone();
        let ghost before = out@;
        out.push(a);
        proof {
            lemma_string_views_push(before, a);
            lemma_string_views_take(v@, i as int);
        }
        i = i + 1;
    }
    proof {
        assert(v@.take(i as int) =~= v@);
    }
    out
}

impl Library {
    /// A copy of the institution.
    pub fn copy(&self) -> (l: Library)
        ensures
            l.view() == self.view(),
    {
        let mut aliases: Vec<String> = Vec::new();
        let mut i: usize = 0;
        while i < self.aliases.len()
            invariant
                i <= self.aliases.len(),
                string_views(aliases@) == string_views(self.aliases@.take(i as int)),
            decreases self.aliases.len() - i,
        {
            let a = self.aliases[i].clone();
            let ghost before = aliases@;
            aliases.push(a);
            proof {
                assert(aliases@ == before.push(a));
                assert(a == self.aliases@[i as int]);
                lemma_string_views_push(before, a);
                lemma_string_views_take(self.aliases@, i as int);
            }
            i = i + 1;
        }
        let mut branches: Vec<Branch> = Vec::new();
        let mut j: usize = 0;
        while j < self.branches.len()
            invariant
                j <= self.branches.len(),
                branch_views(branches@) == branch_views(self.branches@.take(j as int)),
            decreases self.branches.len() - j,
        {
            let b = self.branches[j].copy();
            let ghost before = branches@;
            branches.push(b);
            proof {
                assert(branches@ == before.push(b));
                lemma_branch_views_take(self.branches@, j as int, before, b);
            }
            j = j + 1;
        }
        proof {
            assert(self.aliases@.take(i as int) =~= self.aliases@);
            assert(self.branches@.take(j as int) =~= self.branches@);
        }
        Library {
            key: self.key.clone(),
            aliases,
            isil: self.isil.clone(),
            name: self.name.clone(),
            coords: self.coords,
            branches,
        }
    }
}

impl Entry {
    /// Where the entry is on the map.
    pub fn coords(&self) -> (c: Option<LatLon>)
        ensures
            c == Some(match self {
                Entry::Institution(l) => l.coords,
                Entry::Branch { branch, .. } => branch.coords,
            }),
    {
        match self {
            Entry::Institution(l) => Some(l.coords),
            Entry::Branch { branch, .. } => Some(branch.coords),
        }
    }
}

/// The views of a list of strings.
pub open spec fn string_views(v: Seq<String>) -> Seq<Seq<char>> {
    v.map_values(|s: String| s@)
}

proof fn lemma_string_views_push(s: Seq<String>, x: String)
    ensures
        string_views(s.push(x)) == string_views(s).push(x@),
{
    assert(string_views(s.push(x)) =~= string_views(s).push(x@));
}

proof fn lemma_string_views_take(s: Seq<String>, i: int)
    requires
        0 <= i < s.len(),
    ensures
        string_views(s.take(i + 1)) == string_views(s.take(i)).push(s[i]@),
{
    assert(s.take(i + 1) =~= s.take(i).push(s[i]));
    lemma_string_views_push(s.take(i), s[i]);
}

/// The views of a list of branches.
pub open spec fn branch_views(v: Seq<Branch>) -> Seq<BranchView> {
    v.map_values(|b: Branch| b.view())
}

/// The keys of a list of branches.
pub open spec fn branch_keys(v: Seq<Branch>) -> Seq<Seq<char>> {
    v.map_values(|b: Branch| b.key@)
}

proof fn lemma_branch_views_take(s: Seq<Branch>, i: int, before: Seq<Branch>, x: Branch)
    requires
        0 <= i < s.len(),
        branch_views(before) == branch_views(s.take(i)),
        x.view() == s[i].view(),
    ensures
        branch_views(before.push(x)) == branch_views(s.take(i + 1)),
{
    assert(s.take(i + 1) =~= s.take(i).push(s[i]));
    assert(branch_views(before.push(x)) =~= branch_views(before).push(x.view()));
    assert(branch_views(s.take(i).push(s[i])) =~= branch_views(s.take(i)).push(s[i].view()));
}

proof fn lemma_branch_keys_take(s: Seq<Branch>, i: int)
    requires
        0 <= i < s.len(),
    ensures
        branch_keys(s.take(i + 1)) == branch_keys(s.take(i)).push(s[i].key@),
{
    assert(s.take(i + 1) =~= s.take(i).push(s[i]));
    assert(branch_keys(s.take(i).push(s[i])) =~= branch_keys(s.take(i)).push(s[i].key@));
}

/// The keys of a list of branch views.
pub open spec fn view_keys(v: Seq<BranchView>) -> Seq<Seq<char>> {
    v.map_values(|b: BranchView| b.key)
}

/// The compiled-in list, as plain values.
pub open spec fn table() -> Seq<LibraryView> {
        seq![
            LibraryView { key: "HU"@, aliases: seq!["HUB"@], isil: "DE-11"@, name: "Humboldt-Universität zu Berlin"@, coords: LatLon { lat_e6: 52518000, lon_e6: 13393400 }, branches: seq![] },
            LibraryView { key: "STABI"@, aliases: seq!["SBB"@], isil: "DE-1"@, name: "Staatsbibliothek zu Berlin"@, coords: LatLon { lat_e6: 52507800, lon_e6: 13370000 }, branches: seq![] },
            LibraryView { key: "FU"@, aliases: seq!["FUB"@], isil: "DE-188"@, name: "Freie Universität Berlin"@, coords: LatLon { lat_e6: 52452600, lon_e6: 13289700 }, branches: seq![BranchView { key: "PHILBIB"@, kobvid: "FUB00019"@, name: "Freie Universität Berlin / Philologische Bibliothek"@, short_name: "Philologische Bibliothek"@, coords: LatLon { lat_e6: 52455700, lon_e6: 13292500 }, match_strings: seq![] }] },
            LibraryView { key: "TU"@, aliases: seq!["TUB"@], isil: "DE-83"@, name: "Technische Universität Berlin"@, coords: LatLon { lat_e6: 52512700, lon_e6: 13326700 }, branches: seq![] },
            LibraryView { key: "VOEBB"@, aliases: seq!["ZLB"@], isil: "DE-609"@, name: "Verbund der Öffentlichen Bibliotheken Berlins"@, coords: LatLon { lat_e6: 52499000, lon_e6: 13394400 }, branches: seq![BranchView { key: "AGB"@, kobvid: "SIG00036"@, name: "Zentral- und Landesbibliothek Berlin / Amerika-Gedenkbibliothek"@, short_name: "Amerika-Gedenkbibliothek (AGB)"@, coords: LatLon { lat_e6: 52499000, lon_e6: 13394400 }, match_strings: seq![] }, BranchView { key: "BSTB"@, kobvid: "BIB000000072"@, name: "Zentral- und Landesbibliothek Berlin / Berliner Stadtbibliothek"@, short_name: "Berliner Stadtbibliothek (BStB)"@, coords: LatLon { lat_e6: 52516200, lon_e6: 13402900 }, match_strings: seq![] }] },
        ]
}

/// The views of a list of libraries.
pub open spec fn library_views(v: Seq<Library>) -> Seq<LibraryView> {
    v.map_values(|l: Library| l.view())
}

fn branch(key: &str, kobvid: &str, name: &str, short_name: &str, lat_e6: i32, lon_e6: i32) -> (b: Branch)
    ensures
        b.view() == (BranchView { key: key@, kobvid: kobvid@, name: name@, short_name: short_name@, coords: LatLon { lat_e6, lon_e6 }, match_strings: seq![] }),
{
    let b = Branch {
        key: owned(key),
        kobvid: owned(kobvid),
        name: owned(name),
        short_name: owned(short_name),
        coords: LatLon { lat_e6, lon_e6 },
        match_strings: Vec::new(),
    };
    proof {
        assert(string_views(b.match_strings@) =~= Seq::<Seq<char>>::empty());
    }
    b
}

fn library(key: &str, aliases: Vec<String>, isil: &str, name: &str, lat_e6: i32, lon_e6: i32, branches: Vec<Branch>) -> (l: Library)
    ensures
        l.view() == (LibraryView {
            key: key@,
            aliases: string_views(aliases@),
            isil: isil@,
            name: name@,
            coords: LatLon { lat_e6, lon_e6 },
            branches: branch_views(branches@),
        }),
{
    Library {
        key: owned(key),
        aliases,
        isil: owned(isil),
        name: owned(name),
        coords: LatLon { lat_e6, lon_e6 },
        branches,
    }
}

/// Every library in the list, in its order.
#[verifier::rlimit(50)]
pub fn all() -> (v: Vec<Library>)
    ensures
        library_views(v@) == table(),
{
    let l0_aliases = vec![owned("HUB")];
    let l0_branches = vec![];
    proof {
        assert(string_views(l0_aliases@) =~= table()[0].aliases);
        assert(branch_views(l0_branches@) =~= table()[0].branches);
    }
    let l0 = library("HU", l0_aliases, "DE-11", "Humboldt-Universität zu Berlin", 52518000, 13393400, l0_branches);
    let l1_aliases = vec![owned("SBB")];
    let l1_branches = vec![];
    proof {
        assert(string_views(l1_aliases@) =~= table()[1].aliases);
        assert(branch_views(l1_branches@) =~= table()[1].branches);
    }
    let l1 = library("STABI", l1_aliases, "DE-1", "Staatsbibliothek zu Berlin", 52507800, 13370000, l1_branches);
    let b2_0 = branch("PHILBIB", "FUB00019", "Freie Universität Berlin / Philologische Bibliothek", "Philologische Bibliothek", 52455700, 13292500);
    let l2_aliases = vec![owned("FUB")];
    let l2_branches = vec![b2_0];
    proof {
        assert(string_views(l2_aliases@) =~= table()[2].aliases);
        assert(branch_views(l2_branches@) =~= table()[2].branches);
    }
    let l2 = library("FU", l2_aliases, "DE-188", "Freie Universität Berlin", 52452600, 13289700, l2_branches);
    let l3_aliases = vec![owned("TUB")];
    let l3_branches = vec![];
    proof {
        assert(string_views(l3_aliases@) =~= table()[3].aliases);
        assert(branch_views(l3_branches@) =~= table()[3].branches);
    }
    let l3 = library("TU", l3_aliases, "DE-83", "Technische Universität Berlin", 52512700, 13326700, l3_branches);
    let b4_0 = branch("AGB", "SIG00036", "Zentral- und Landesbibliothek Berlin / Amerika-Gedenkbibliothek", "Amerika-Gedenkbibliothek (AGB)", 52499000, 13394400);
    let b4_1 = branch("BSTB", "BIB000000072", "Zentral- und Landesbibliothek Berlin / Berliner Stadtbibliothek", "Berliner Stadtbibliothek (BStB)", 52516200, 13402900);
    let l4_aliases = vec![owned("ZLB")];
    let l4_branches = vec![b4_0, b4_1];
    proof {
        assert(string_views(l4_aliases@) =~= table()[4].aliases);
        assert(branch_views(l4_branches@) =~= table()[4].branches);
    }
    let l4 = library("VOEBB", l4_aliases, "DE-609", "Verbund der Öffentlichen Bibliotheken Berlins", 52499000, 13394400, l4_branches);
    let v = vec![l0, l1, l2, l3, l4];
    proof {
        assert(library_views(v@) =~= table());
    }
    v
}

/// Every name an institution answers to: its key, its shorthands, its ISIL.
pub open spec fn names(l: LibraryView) -> Seq<Seq<char>> {
    seq![l.key] + l.aliases + seq![l.isil]
}

/// Whether one of the institution's names is `t`, ignoring ASCII case.
pub open spec fn names_library(l: LibraryView, t: Seq<char>) -> bool {
    exists|k: int| 0 <= k < names(l).len() && same_folded(#[trigger] names(l)[k], t)
}

/// Whether the branch's key or KOBV id is `t`, ignoring ASCII case.
pub open spec fn names_branch(b: BranchView, t: Seq<char>) -> bool {
    same_folded(b.key, t) || same_folded(b.kobvid, t)
}

/// Whether some institution of the list answers to `t`.
pub open spec fn some_library(tab: Seq<LibraryView>, t: Seq<char>) -> bool {
    exists|i: int| 0 <= i < tab.len() && names_library(#[trigger] tab[i], t)
}

/// Whether some branch of the list answers to `t`.
pub open spec fn some_branch(tab: Seq<LibraryView>, t: Seq<char>) -> bool {
    exists|i: int, j: int| 0 <= i < tab.len() && 0 <= j < tab[i].branches.len() && names_branch(#[trigger] tab[i].branches[j], t)
}

/// `i` is the first institution that answers to `t`.
pub open spec fn first_library(tab: Seq<LibraryView>, t: Seq<char>, i: int) -> bool {
    &&& 0 <= i < tab.len()
    &&& names_library(tab[i], t)
    &&& forall|k: int| 0 <= k < i ==> !names_library(#[trigger] tab[k], t)
}

/// No institution answers to `t`, and branch `j` of institution `i` is the first branch
/// in list order that does.
pub open spec fn first_branch(tab: Seq<LibraryView>, t: Seq<char>, i: int, j: int) -> bool {
    &&& !some_library(tab, t)
    &&& 0 <= i < tab.len()
    &&& 0 <= j < tab[i].branches.len()
    &&& names_branch(tab[i].branches[j], t)
    &&& forall|a: int, b: int| 0 <= a < tab.len() && 0 <= b < tab[a].branches.len() && (a < i || (a == i && b < j)) ==> !names_branch(#[trigger] tab[a].branches[b], t)
}

/// Every key of the list, each institution's followed by its branches'.
pub open spec fn all_keys(tab: Seq<LibraryView>) -> Seq<Seq<char>>
    decreases tab.len(),
{
    if tab.len() == 0 {
        Seq::empty()
    } else {
        all_keys(tab.drop_last()) + seq![tab.last().key] + view_keys(tab.last().branches)
    }
}

/// A key close enough to `t` to be offered: one is a prefix of the other, ignoring case.
pub open spec fn near_miss(key: Seq<char>, t: Seq<char>) -> bool {
    is_prefix(upper_seq(key), upper_seq(t)) || is_prefix(upper_seq(t), upper_seq(key))
}

/// The near misses among the keys, in order.
pub open spec fn near_misses(keys: Seq<Seq<char>>, t: Seq<char>) -> Seq<Seq<char>>
    decreases keys.len(),
{
    if keys.len() == 0 {
        Seq::empty()
    } else if near_miss(keys.last(), t) {
        near_misses(keys.drop_last(), t).push(keys.last())
    } else {
        near_misses(keys.drop_last(), t)
    }
}

/// What a miss is answered with: at most three near misses, in list order.
pub open spec fn suggestions_spec(tab: Seq<LibraryView>, t: Seq<char>) -> Seq<Seq<char>> {
    let all = near_misses(all_keys(tab), t);
    if all.len() > 3 {
        all.take(3)
    } else {
        all
    }
}


/// What the list answers for a name: institution `i`, or branch `j` of `i`.
pub enum Found {
    Institution(usize),
    BranchOf(usize, usize),
}

/// Whether the institution answers to `t`.
fn library_named(l: &Library, t: &str) -> (r: bool)
    ensures
        r == names_library(l.view(), t@),
{
    let ghost n = names(l.view());
    if eq_folded(l.key.as_str(), t) {
        proof {
            assert(n[0] == l.key@);
        }
        return true;
    }
    let mut k: usize = 0;
    while k < l.aliases.len()
        invariant
            k <= l.aliases.len(),
            n == names(l.view()),
            !same_folded(n[0], t@),
            forall|m: int| 0 < m <= k ==> !same_folded(#[trigger] n[m], t@),
        decreases l.aliases.len() - k,
    {
        if eq_folded(l.aliases[k].as_str(), t) {
            proof {
                assert(n[k + 1] == l.aliases@[k as int]@);
            }
            return true;
        }
        proof {
            assert(n[k + 1] == l.aliases@[k as int]@);
        }
        k = k + 1;
    }
    let r = eq_folded(l.isil.as_str(), t);
    proof {
        assert(n[n.len() - 1] == l.isil@);
        if !r {
            assert forall|m: int| 0 <= m < n.len() implies !same_folded(#[trigger] n[m], t@) by {
                if m == 0 {
                } else if m < n.len() - 1 {
                } else {
                }
            }
        }
    }
    r
}

/// Finds what the list answers for a name.
pub fn find(list: &Vec<Library>, t: &str) -> (r: Option<Found>)
    ensures
        ({
            let tab = library_views(list@);
            match r {
                Some(Found::Institution(i)) => first_library(tab, t@, i as int),
                Some(Found::BranchOf(i, j)) => first_branch(tab, t@, i as int, j as int),
                None => !some_library(tab, t@) && !some_branch(tab, t@),
            }
        }),
{
    let ghost tab = library_views(list@);
    let mut i: usize = 0;
    while i < list.len()
        invariant
            i <= list.len(),
            tab == library_views(list@),
            forall|k: int| 0 <= k < i ==> !names_library(#[trigger] tab[k], t@),
        decreases list.len() - i,
    {
        if library_named(&list[i], t) {
            return Some(Found::Institution(i));
        }
        i = i + 1;
    }
    let mut a: usize = 0;
    while a < list.len()
        invariant
            a <= list.len(),
            tab == library_views(list@),
            !some_library(tab, t@),
            forall|x: int, y: int| 0 <= x < a && 0 <= y < tab[x].branches.len() ==> !names_branch(#[trigger] tab[x].branches[y], t@),
        decreases list.len() - a,
    {
        let house = &list[a];
        let mut b: usize = 0;
        while b < house.branches.len()
            invariant
                a < list.len(),
                b <= house.branches.len(),
                house == list@[a as int],
                tab == library_views(list@),
                !some_library(tab, t@),
                forall|x: int, y: int| 0 <= x < a && 0 <= y < tab[x].branches.len() ==> !names_branch(#[trigger] tab[x].branches[y], t@),
                forall|y: int| 0 <= y < b ==> !names_branch(#[trigger] tab[a as int].branches[y], t@),
            decreases house.branches.len() - b,
        {
            let br = &house.branches[b];
            proof {
                assert(tab[a as int].branches[b as int] == br.view());
            }
            if eq_folded(br.key.as_str(), t) || eq_folded(br.kobvid.as_str(), t) {
                return Some(Found::BranchOf(a, b));
            }
            b = b + 1;
        }
        a = a + 1;
    }
    None
}

/// The keys of the list, each institution's followed by its branches'.
fn key_list(list: &Vec<Library>) -> (v: Vec<String>)
    ensures
        string_views(v@) == all_keys(library_views(list@)),
{
    let mut v: Vec<String> = Vec::new();
    let mut i: usize = 0;
    while i < list.len()
        invariant
            i <= list.len(),
            string_views(v@) == all_keys(library_views(list@.take(i as int))),
        decreases list.len() - i,
    {
        let house = &list[i];
        let ghost before = string_views(v@);
        let ghost vb = v@;
        let key = house.key.clone();
        v.push(key);
        proof {
            assert(v@ == vb.push(key));
            assert(string_views(v@) =~= before + seq![house.key@]);
            assert(branch_keys(house.branches@.take(0)) =~= Seq::<Seq<char>>::empty());
            assert(string_views(v@) =~= before + seq![house.key@] + branch_keys(house.branches@.take(0)));
        }
        let mut b: usize = 0;
        while b < house.branches.len()
            invariant
                i < list.len(),
                b <= house.branches.len(),
                house == list@[i as int],
                string_views(v@) == before + seq![house.key@] + branch_keys(house.branches@.take(b as int)),
            decreases house.branches.len() - b,
        {
            let ghost vb = v@;
            let key = house.branches[b].key.clone();
            v.push(key);
            proof {
                assert(v@ == vb.push(key));
                lemma_branch_keys_take(house.branches@, b as int);
                lemma_string_views_push(vb, key);
                assert(string_views(v@) =~= before + seq![house.key@] + branch_keys(house.branches@.take(b + 1)));
            }
            b = b + 1;
        }
        proof {
            let t2 = library_views(list@.take(i + 1));
            assert(t2.drop_last() =~= library_views(list@.take(i as int)));
            assert(house.branches@.take(b as int) =~= house.branches@);
            assert(view_keys(t2.last().branches) =~= branch_keys(house.branches@));
        }
        i = i + 1;
    }
    proof {
        assert(list@.take(i as int) =~= list@);
    }
    v
}

/// At most three keys close to `t`, in list order.
pub fn suggestions(list: &Vec<Library>, t: &str) -> (v: Vec<String>)
    ensures
        string_views(v@) == suggestions_spec(library_views(list@), t@),
{
    let keys = key_list(list);
    let folded = to_upper(t);
    let mut near: Vec<String> = Vec::new();
    let mut i: usize = 0;
    while i < keys.len()
        invariant
            i <= keys.len(),
            folded@ == upper_seq(t@),
            string_views(near@) == near_misses(string_views(keys@).take(i as int), t@),
        decreases keys.len() - i,
    {
        let k = to_upper(keys[i].as_str());
        proof {
            assert(string_views(keys@).take(i + 1).drop_last() =~= string_views(keys@).take(i as int));
        }
        if starts_with(folded.as_str(), k.as_str()) || starts_with(k.as_str(), folded.as_str()) {
            let ghost before = string_views(near@);
            let ghost nb = near@;
            let item = keys[i].clone();
            near.push(item);
            proof {
                assert(near@ == nb.push(item));
                assert(string_views(near@) =~= before.push(keys@[i as int]@));
            }
        }
        i = i + 1;
    }
    proof {
        assert(string_views(keys@).take(i as int) =~= string_views(keys@));
    }
    if near.len() > 3 {
        let mut out: Vec<String> = Vec::new();
        let mut j: usize = 0;
        while j < 3
            invariant
                j <= 3 < near.len(),
                string_views(out@) == string_views(near@).take(j as int),
            decreases 3 - j,
        {
            let ghost ob = out@;
            let item = near[j].clone();
            out.push(item);
            proof {
                assert(out@ == ob.push(item));
                lemma_string_views_push(ob, item);
                assert(string_views(near@).take(j + 1) =~= string_views(near@).take(j as int).push(near@[j as int]@));
                assert(string_views(out@) =~= string_views(near@).take(j + 1));
            }
            j = j + 1;
        }
        out
    } else {
        near
    }
}

/// How a miss is reported: the name as typed, with the list's near misses.
pub open spec fn unknown_library(e: UsageError, tab: Seq<LibraryView>, t: Seq<char>) -> bool {
    e matches UsageError::UnknownLibrary { input, suggestions } && input@ == t && string_views(
        suggestions@,
    ) == suggestions_spec(tab, t)
}

/// A resolved location as plain values.
pub struct LocView {
    pub key: Seq<char>,
    pub given: Seq<char>,
    pub isil: Seq<char>,
    pub engine: Engine,
    pub branch: Option<BranchView>,
}

impl Location {
    /// The location as plain values.
    pub open spec fn view(&self) -> LocView {
        LocView {
            key: self.key@,
            given: self.given@,
            isil: self.isil.0@,
            engine: self.engine,
            branch: match self.branch {
                Some(b) => Some(b.view()),
                None => None,
            },
        }
    }
}

impl Location {
    /// A copy of the location.
    pub fn copy(&self) -> (l: Location)
        ensures
            l.view() == self.view(),
    {
        Location {
            key: self.key.clone(),
            given: self.given.clone(),
            isil: Isil(self.isil.0.clone()),
            engine: self.engine,
            branch: match &self.branch {
                Some(b) => Some(b.copy()),
                None => None,
            },
        }
    }
}

/// The engine that answers for a branch of an institution with this ISIL.
pub open spec fn branch_engine(isil: Seq<char>) -> Engine {
    if isil == VOEBB_NETWORK@ {
        Engine::Voebb
    } else {
        Engine::Kobv
    }
}

/// What an `--at` entry resolves to: the first institution that answers to it, else
/// the first branch that does, else nothing.
pub open spec fn resolution(tab: Seq<LibraryView>, t: Seq<char>) -> Option<LocView> {
    if exists|i: int| first_library(tab, t, i) {
        let i = choose|i: int| first_library(tab, t, i);
        Some(LocView { key: tab[i].key, given: t, isil: tab[i].isil, engine: Engine::Kobv, branch: None })
    } else if exists|i: int, j: int| first_branch(tab, t, i, j) {
        let (i, j) = choose|i: int, j: int| first_branch(tab, t, i, j);
        Some(LocView {
            key: tab[i].branches[j].key,
            given: t,
            isil: tab[i].isil,
            engine: branch_engine(tab[i].isil),
            branch: Some(tab[i].branches[j]),
        })
    } else {
        None
    }
}

proof fn lemma_first_library_unique(tab: Seq<LibraryView>, t: Seq<char>, i: int, k: int)
    requires
        first_library(tab, t, i),
        first_library(tab, t, k),
    ensures
        i == k,
{
    if i < k {
        assert(!names_library(tab[i], t));
    } else if k < i {
        assert(!names_library(tab[k], t));
    }
}

proof fn lemma_first_branch_unique(tab: Seq<LibraryView>, t: Seq<char>, i: int, j: int, a: int, b: int)
    requires
        first_branch(tab, t, i, j),
        first_branch(tab, t, a, b),
    ensures
        i == a && j == b,
{
    if a < i || (a == i && b < j) {
        assert(!names_branch(tab[a].branches[b], t));
    } else if i < a || (i == a && j < b) {
        assert(!names_branch(tab[i].branches[j], t));
    }
}

proof fn lemma_no_first_branch(tab: Seq<LibraryView>, t: Seq<char>, i: int)
    requires
        first_library(tab, t, i),
    ensures
        !(exists|a: int, b: int| first_branch(tab, t, a, b)),
{
    assert(names_library(tab[i], t));
}

/// Resolve one `--at` entry against a list.
pub fn resolve_in(list: &Vec<Library>, typed: &str) -> (r: Result<Location, UsageError>)
    ensures
        ({
            let tab = library_views(list@);
            match r {
                Ok(loc) => resolution(tab, typed@) == Some(loc.view()),
                Err(e) => resolution(tab, typed@) is None && unknown_library(e, tab, typed@),
            }
        }),
{
    let ghost tab = library_views(list@);
    match find(list, typed) {
        Some(Found::Institution(i)) => {
            let l = &list[i];
            proof {
                let k = choose|k: int| first_library(tab, typed@, k);
                lemma_first_library_unique(tab, typed@, i as int, k);
            }
            Ok(Location { key: l.key.clone(), given: owned(typed), isil: Isil(l.isil.clone()), engine: Engine::Kobv, branch: None })
        },
        Some(Found::BranchOf(i, j)) => {
            let l = &list[i];
            let b = &l.branches[j];
            let engine = if crate::text::same_text(l.isil.as_str(), VOEBB_NETWORK) { Engine::Voebb } else { Engine::Kobv };
            proof {
                assert(tab[i as int].branches[j as int] == b.view());
                assert(!exists|k: int| first_library(tab, typed@, k));
                let (x, y) = choose|x: int, y: int| first_branch(tab, typed@, x, y);
                lemma_first_branch_unique(tab, typed@, i as int, j as int, x, y);
            }
            Ok(Location { key: b.key.clone(), given: owned(typed), isil: Isil(l.isil.clone()), engine, branch: Some(b.copy()) })
        },
        None => {
            proof {
                assert(!exists|k: int| first_library(tab, typed@, k));
                assert(!exists|x: int, y: int| first_branch(tab, typed@, x, y));
            }
            Err(UsageError::UnknownLibrary { input: owned(typed), suggestions: suggestions(list, typed) })
        },
    }
}

/// Where the entry a name looks up stands on the map.
pub open spec fn lookup_coords(tab: Seq<LibraryView>, t: Seq<char>) -> Option<LatLon> {
    if exists|i: int| first_library(tab, t, i) {
        let i = choose|i: int| first_library(tab, t, i);
        Some(tab[i].coords)
    } else if exists|i: int, j: int| first_branch(tab, t, i, j) {
        let (i, j) = choose|i: int, j: int| first_branch(tab, t, i, j);
        Some(tab[i].branches[j].coords)
    } else {
        None
    }
}

/// Where an entry stands.
pub open spec fn entry_coords(e: Entry) -> LatLon {
    match e {
        Entry::Institution(l) => l.coords,
        Entry::Branch { branch, .. } => branch.coords,
    }
}

/// What a `libraries` key names, looked up in a list.
pub fn look_up_in(list: &Vec<Library>, typed: &str) -> (r: Result<Entry, UsageError>)
    ensures
        match r {
            Ok(e) => lookup_coords(library_views(list@), typed@) == Some(entry_coords(e)),
            Err(_) => lookup_coords(library_views(list@), typed@) is None,
        },
        ({
            let tab = library_views(list@);
            match r {
                Ok(Entry::Institution(l)) => exists|i: int| first_library(tab, typed@, i) && #[trigger] tab[i] == l.view(),
                Ok(Entry::Branch { house, branch }) => exists|i: int, j: int| first_branch(tab, typed@, i, j) && tab[i] == house.view() && #[trigger] tab[i].branches[j] == branch.view(),
                Err(e) => !some_library(tab, typed@) && !some_branch(tab, typed@) && unknown_library(e, tab, typed@),
            }
        }),
{
    let ghost tab = library_views(list@);
    match find(list, typed) {
        Some(Found::Institution(i)) => {
            proof {
                let k = choose|k: int| first_library(tab, typed@, k);
                lemma_first_library_unique(tab, typed@, i as int, k);
            }
            Ok(Entry::Institution(list[i].copy()))
        },
        Some(Found::BranchOf(i, j)) => {
            let house = list[i].copy();
            let branch = list[i].branches[j].copy();
            proof {
                assert(tab[i as int].branches[j as int] == branch.view());
                assert(!exists|k: int| first_library(tab, typed@, k));
                let (x, y) = choose|x: int, y: int| first_branch(tab, typed@, x, y);
                lemma_first_branch_unique(tab, typed@, i as int, j as int, x, y);
            }
            Ok(Entry::Branch { house, branch })
        },
        None => {
            proof {
                assert(!exists|k: int| first_library(tab, typed@, k));
                assert(!exists|x: int, y: int| first_branch(tab, typed@, x, y));
            }
            Err(UsageError::UnknownLibrary { input: owned(typed), suggestions: suggestions(list, typed) })
        },
    }
}

/// Resolve one `--at` entry against the compiled-in list.
pub fn resolve(typed: &str) -> (r: Result<Location, UsageError>)
    ensures
        match r {
            Ok(loc) => resolution(table(), typed@) == Some(loc.view()),
            Err(e) => resolution(table(), typed@) is None && unknown_library(e, table(), typed@),
        },
{
    let list = all();
    resolve_in(&list, typed)
}

/// What a `libraries` key names in the compiled-in list.
pub fn look_up(typed: &str) -> (r: Result<Entry, UsageError>)
    ensures
        match r {
            Ok(e) => lookup_coords(table(), typed@) == Some(entry_coords(e)),
            Err(_) => lookup_coords(table(), typed@) is None,
        },
        ({
            let tab = table();
            match r {
                Ok(Entry::Institution(l)) => exists|i: int| first_library(tab, typed@, i) && #[trigger] tab[i] == l.view(),
                Ok(Entry::Branch { house, branch }) => exists|i: int, j: int| first_branch(tab, typed@, i, j) && tab[i] == house.view() && #[trigger] tab[i].branches[j] == branch.view(),
                Err(e) => !some_library(tab, typed@) && !some_branch(tab, typed@) && unknown_library(e, tab, typed@),
            }
        }),
{
    let list = all();
    look_up_in(&list, typed)
}

/// Why a `--near` text is not a point.
#[derive(Debug, Clone, Copy, PartialEq, Eq, Structural)]
pub enum NotAPoint {
    /// Two numbers, but outside latitude -90..90 or longitude -180..180.
    OutOfRange,
    /// One number where a pair is needed.
    OnlyOneValue,
    /// Not numbers at all.
    NotCoordinates,
}

/// The value of a run of ASCII digits.
pub open spec fn digits_value(s: Seq<char>) -> nat
    decreases s.len(),
{
    if s.len() == 0 {
        0
    } else {
        digits_value(s.drop_last()) * 10 + digit_value(s.last())
    }
}

/// Whether every character is an ASCII digit.
pub open spec fn all_digits(s: Seq<char>) -> bool {
    forall|i: int| 0 <= i < s.len() ==> is_digit(#[trigger] s[i])
}

/// Ten to the power `n`.
pub open spec fn pow10(n: nat) -> nat
    decreases n,
{
    if n == 0 {
        1
    } else {
        10 * pow10((n - 1) as nat)
    }
}

/// Millionths of the fraction digits: the first six count, a shorter run is padded.
pub open spec fn fraction_e6(f: Seq<char>) -> nat {
    if f.len() >= 6 {
        digits_value(f.take(6))
    } else {
        digits_value(f) * pow10((6 - f.len()) as nat)
    }
}

/// Where the first occurrence of `c` stands.
pub open spec fn first_index(s: Seq<char>, c: char) -> Option<int> {
    if exists|k: int| 0 <= k < s.len() && s[k] == c {
        Some(choose|k: int| 0 <= k < s.len() && s[k] == c && forall|j: int| 0 <= j < k ==> s[j] != c)
    } else {
        None
    }
}

/// An unsigned decimal number in millionths: digits, optionally `.` and more digits.
pub open spec fn unsigned_e6(s: Seq<char>) -> Option<int> {
    let (whole, frac) = match first_index(s, '.') {
        Some(k) => (s.subrange(0, k), s.subrange(k + 1, s.len() as int)),
        None => (s, Seq::<char>::empty()),
    };
    if whole.len() > 0 && all_digits(whole) && all_digits(frac) {
        Some((digits_value(whole) * 1_000_000 + fraction_e6(frac)) as int)
    } else {
        None
    }
}

/// A signed decimal number in millionths.
pub open spec fn number_e6(s: Seq<char>) -> Option<int> {
    if s.len() > 0 && s[0] == '-' {
        match unsigned_e6(s.drop_first()) {
            Some(v) => Some(-v),
            None => None,
        }
    } else if s.len() > 0 && s[0] == '+' {
        unsigned_e6(s.drop_first())
    } else {
        unsigned_e6(s)
    }
}

/// What a `--near` text is: `lat,lon` in decimal degrees, each side trimmed.
pub open spec fn point_spec(s: Seq<char>) -> Result<LatLon, NotAPoint> {
    match first_index(s, ',') {
        None => if number_e6(trim_spec(s)) is Some {
            Err(NotAPoint::OnlyOneValue)
        } else {
            Err(NotAPoint::NotCoordinates)
        },
        Some(k) => {
            let lat = number_e6(trim_spec(s.subrange(0, k)));
            let lon = number_e6(trim_spec(s.subrange(k + 1, s.len() as int)));
            if lat is Some && lon is Some {
                if -90_000_000 <= lat->0 <= 90_000_000 && -180_000_000 <= lon->0 <= 180_000_000 {
                    Ok(LatLon { lat_e6: lat->0 as i32, lon_e6: lon->0 as i32 })
                } else {
                    Err(NotAPoint::OutOfRange)
                }
            } else {
                Err(NotAPoint::NotCoordinates)
            }
        },
    }
}

/// The index of the first `c` in `v[from..]`, or `v.len()`.
fn find_char(v: &Vec<char>, c: char) -> (k: usize)
    ensures
        k <= v.len(),
        forall|j: int| 0 <= j < k ==> v@[j] != c,
        k < v.len() ==> v@[k as int] == c,
{
    let mut k: usize = 0;
    while k < v.len() && v[k] != c
        invariant
            k <= v.len(),
            forall|j: int| 0 <= j < k ==> v@[j] != c,
        decreases v.len() - k,
    {
        k = k + 1;
    }
    k
}

proof fn lemma_first_index(s: Seq<char>, c: char, k: int)
    requires
        0 <= k <= s.len(),
        forall|j: int| 0 <= j < k ==> s[j] != c,
        k < s.len() ==> s[k] == c,
    ensures
        first_index(s, c) == if k < s.len() { Some(k) } else { None::<int> },
{
    if k < s.len() {
        let w = choose|w: int| 0 <= w < s.len() && s[w] == c && forall|j: int| 0 <= j < w ==> s[j] != c;
        if w < k {
            assert(s[w] != c);
        } else if w > k {
            assert(s[k] != c);
        }
    } else {
        assert(!exists|w: int| 0 <= w < s.len() && s[w] == c);
    }
}

/// The value of a run of digits, capped at 1001 (every degree from 1000 on is out of
/// range anyway), or `None` when a character is not a digit.
fn digits_capped(v: &Vec<char>, from: usize, to: usize) -> (r: Option<u64>)
    requires
        from <= to <= v.len(),
    ensures
        match r {
            Some(n) => all_digits(v@.subrange(from as int, to as int)) && n == if digits_value(v@.subrange(from as int, to as int)) > 1001 { 1001 } else { digits_value(v@.subrange(from as int, to as int)) },
            None => !all_digits(v@.subrange(from as int, to as int)),
        },
{
    let mut n: u64 = 0;
    let mut i: usize = from;
    while i < to
        invariant
            from <= i <= to <= v.len(),
            all_digits(v@.subrange(from as int, i as int)),
            n == if digits_value(v@.subrange(from as int, i as int)) > 1001 { 1001 } else { digits_value(v@.subrange(from as int, i as int)) },
        decreases to - i,
    {
        let c = v[i];
        if !is_ascii_digit(c) {
            proof {
                assert(v@.subrange(from as int, to as int)[i - from] == c);
            }
            return None;
        }
        let d = value_of_digit(c) as u64;
        proof {
            assert(v@.subrange(from as int, i + 1).drop_last() =~= v@.subrange(from as int, i as int));
        }
        n = if n * 10 + d > 1001 { 1001 } else { n * 10 + d };
        i = i + 1;
    }
    Some(n)
}

proof fn lemma_digits_value_bound(s: Seq<char>)
    requires
        all_digits(s),
    ensures
        digits_value(s) < pow10(s.len()),
    decreases s.len(),
{
    if s.len() > 0 {
        assert(all_digits(s.drop_last()));
        lemma_digits_value_bound(s.drop_last());
    }
}

proof fn lemma_pow10_small(t: nat)
    requires
        t <= 6,
    ensures
        pow10(t) <= 1_000_000,
        t <= 5 ==> pow10(t) <= 100_000,
{
    reveal_with_fuel(pow10, 7);
}

proof fn lemma_scale_step(f: nat, a: nat)
    ensures
        f * pow10(a) * 10 == f * pow10(a + 1),
{
    assert(pow10(a + 1) == 10 * pow10(a));
    assert(f * pow10(a) * 10 == f * (10 * pow10(a))) by (nonlinear_arith);
}

/// Millionths of the fraction digits `v[from..to]`, or `None` when one is not a digit.
fn fraction_digits(v: &Vec<char>, from: usize, to: usize) -> (r: Option<u64>)
    requires
        from <= to <= v.len(),
    ensures
        match r {
            Some(f) => all_digits(v@.subrange(from as int, to as int)) && f == fraction_e6(v@.subrange(from as int, to as int)) && f < 1_000_000,
            None => !all_digits(v@.subrange(from as int, to as int)),
        },
{
    let ghost frac = v@.subrange(from as int, to as int);
    let mut f: u64 = 0;
    let mut i: usize = from;
    let mut taken: usize = 0;
    while i < to
        invariant
            from <= i <= to <= v.len(),
            frac == v@.subrange(from as int, to as int),
            taken == if i - from > 6 { 6 } else { i - from },
            all_digits(v@.subrange(from as int, i as int)),
            f == digits_value(v@.subrange(from as int, i as int).take(taken as int)),
            f < pow10(taken as nat),
            taken <= 6,
        decreases to - i,
    {
        let c = v[i];
        if !is_ascii_digit(c) {
            proof {
                assert(frac[i - from] == c);
            }
            return None;
        }
        let ghost before = v@.subrange(from as int, i as int);
        proof {
            assert(v@.subrange(from as int, i + 1) =~= before.push(c));
            lemma_pow10_small(taken as nat);
        }
        if taken < 6 {
            let d = value_of_digit(c) as u64;
            proof {
                assert(before.push(c).take(taken + 1) =~= before.take(taken as int).push(c));
                assert(before.push(c).take(taken + 1).drop_last() =~= before.take(taken as int));
                assert(pow10((taken + 1) as nat) == 10 * pow10(taken as nat));
            }
            f = f * 10 + d;
            taken = taken + 1;
        } else {
            proof {
                assert(before.push(c).take(6) =~= before.take(6));
            }
        }
        i = i + 1;
    }
    proof {
        assert(v@.subrange(from as int, i as int) =~= frac);
        assert(frac.take(taken as int) =~= if frac.len() >= 6 { frac.take(6) } else { frac });
        lemma_pow10_small(taken as nat);
        assert(pow10(0) == 1);
        assert(f as nat * pow10(0) == f as nat);
    }
    let mut scaled: u64 = f;
    let mut m: usize = taken;
    while m < 6
        invariant
            taken <= m <= 6,
            scaled == f * pow10((m - taken) as nat),
            scaled < pow10(m as nat),
        decreases 6 - m,
    {
        proof {
            lemma_scale_step(f as nat, (m - taken) as nat);
            lemma_pow10_small(m as nat);
            assert(pow10((m + 1) as nat) == 10 * pow10(m as nat));
        }
        scaled = scaled * 10;
        m = m + 1;
    }
    proof {
        lemma_pow10_small(6);
        if frac.len() >= 6 {
            assert(taken == 6);
            assert(f as nat * pow10(0) == f as nat);
        } else {
            assert(taken == frac.len());
        }
    }
    Some(scaled)
}

/// An unsigned decimal in millionths, capped so that every out-of-range value stays out
/// of range.
#[verifier::rlimit(60)]
fn unsigned_capped(v: &Vec<char>, from: usize, to: usize) -> (r: Option<i64>)
    requires
        from <= to <= v.len(),
    ensures
        ({
            let s = v@.subrange(from as int, to as int);
            match r {
                Some(n) => unsigned_e6(s) is Some && 0 <= n && (if unsigned_e6(s)->0 <= 1_000_000_000 { n == unsigned_e6(s)->0 } else { n > 1_000_000_000 }),
                None => unsigned_e6(s) is None,
            }
        }),
{
    let ghost s = v@.subrange(from as int, to as int);
    let mut k: usize = from;
    while k < to && v[k] != '.'
        invariant
            from <= k <= to <= v.len(),
            forall|j: int| from <= j < k ==> v@[j] != '.',
        decreases to - k,
    {
        k = k + 1;
    }
    let frac_from = if k < to { k + 1 } else { to };
    proof {
        lemma_first_index(s, '.', k - from);
        if k < to {
            assert(s.subrange(0, k - from) =~= v@.subrange(from as int, k as int));
            assert(s.subrange(k - from + 1, s.len() as int) =~= v@.subrange(k + 1, to as int));
        } else {
            assert(s =~= v@.subrange(from as int, k as int));
            assert(v@.subrange(frac_from as int, to as int) =~= Seq::<char>::empty());
        }
    }
    if k == from {
        return None;
    }
    let whole = match digits_capped(v, from, k) {
        Some(n) => n,
        None => return None,
    };
    let fraction = match fraction_digits(v, frac_from, to) {
        Some(f) => f,
        None => return None,
    };
    Some((whole as i64) * 1_000_000 + (fraction as i64))
}

/// A signed decimal in millionths, capped as [`unsigned_capped`] caps it.
fn number_capped(v: &Vec<char>) -> (r: Option<i64>)
    ensures
        match r {
            Some(n) => number_e6(v@) is Some && (if -1_000_000_000 <= number_e6(v@)->0 <= 1_000_000_000 { n == number_e6(v@)->0 } else { n < -1_000_000_000 || n > 1_000_000_000 }),
            None => number_e6(v@) is None,
        },
{
    if v.len() > 0 && (v[0] == '-' || v[0] == '+') {
        proof {
            assert(v@.subrange(1, v@.len() as int) =~= v@.drop_first());
        }
        match unsigned_capped(v, 1, v.len()) {
            Some(n) => if v[0] == '-' { Some(-n) } else { Some(n) },
            None => None,
        }
    } else {
        proof {
            assert(v@.subrange(0, v@.len() as int) =~= v@);
        }
        unsigned_capped(v, 0, v.len())
    }
}

impl LatLon {
    /// Read `lat,lon` in decimal degrees.
    pub fn parse(input: &str) -> (r: Result<LatLon, NotAPoint>)
        ensures
            r == point_spec(input@),
    {
        let chars = chars_of(input);
        let k = find_char(&chars, ',');
        proof {
            lemma_first_index(input@, ',', k as int);
        }
        if k == chars.len() {
            let t = trim(input);
            let tc = chars_of(t.as_str());
            return match number_capped(&tc) {
                Some(_) => Err(NotAPoint::OnlyOneValue),
                None => Err(NotAPoint::NotCoordinates),
            };
        }
        let left = crate::model::slice_string(&chars, 0, k);
        let right = crate::model::slice_string(&chars, k + 1, chars.len());
        let lt = trim(left.as_str());
        let rt = trim(right.as_str());
        let lc = chars_of(lt.as_str());
        let rc = chars_of(rt.as_str());
        let lat = number_capped(&lc);
        let lon = number_capped(&rc);
        match (lat, lon) {
            (Some(a), Some(b)) => {
                if -90_000_000 <= a && a <= 90_000_000 && -180_000_000 <= b && b <= 180_000_000 {
                    Ok(LatLon { lat_e6: a as i32, lon_e6: b as i32 })
                } else {
                    Err(NotAPoint::OutOfRange)
                }
            },
            _ => Err(NotAPoint::NotCoordinates),
        }
    }
}


/// The index of the first institution with this exact ISIL.
pub open spec fn isil_index(tab: Seq<LibraryView>, isil: Seq<char>) -> Option<int> {
    if exists|i: int| 0 <= i < tab.len() && tab[i].isil == isil {
        Some(choose|i: int| 0 <= i < tab.len() && tab[i].isil == isil && forall|j: int| 0 <= j < i ==> tab[j].isil != isil)
    } else {
        None
    }
}

/// A holding once the list has named it: an ISIL the list knows gets the institution's
/// name as `library` and its key as `alias`; anything else stays as it was, so an
/// institution that joined the network yesterday still shows with its bare ISIL.
pub open spec fn named_holding(h: HoldingView) -> HoldingView {
    match h.isil {
        Some(isil) => match isil_index(table(), isil) {
            Some(i) => HoldingView { library: table()[i].name, alias: Some(table()[i].key), ..h },
            None => h,
        },
        None => h,
    }
}

/// Add the library list's names to a holding that carries an ISIL.
pub fn name_holding(holding: &mut Holding)
    ensures
        final(holding).view() == named_holding(old(holding).view()),
{
    let isil = match &holding.isil {
        Some(i) => owned(i.as_str()),
        None => {
            return;
        },
    };
    let list = all();
    let ghost tab = library_views(list@);
    let mut i: usize = 0;
    while i < list.len()
        invariant
            i <= list.len(),
            tab == library_views(list@),
            tab == table(),
            *holding == *old(holding),
            old(holding).view().isil == Some(isil@),
            forall|j: int| 0 <= j < i ==> tab[j].isil != isil@,
        decreases list.len() - i,
    {
        proof {
            assert(tab[i as int] == list@[i as int].view());
        }
        if crate::text::same_text(list[i].isil.as_str(), isil.as_str()) {
            proof {
                let w = choose|w: int| 0 <= w < tab.len() && tab[w].isil == isil@ && forall|j: int| 0 <= j < w ==> tab[j].isil != isil@;
                if w < i {
                } else if w > i {
                    assert(tab[i as int].isil == isil@);
                }
                assert(isil_index(table(), isil@) == Some(i as int));
            }
            holding.library = owned(list[i].name.as_str());
            holding.alias = Some(owned(list[i].key.as_str()));
            proof {
                assert(holding.view().items =~= old(holding).view().items);
            }
            return;
        }
        i = i + 1;
    }
}

} // verus!
