//! An HTML page as a flat list of nodes in document order, read by `scraper`.
//!
//! The parser's tree is handed over as plain values: each node with its kind, its tag
//! name, its text, its attributes and its depth below the document root. The handful of
//! selections the voebb.de parsers make (an element by name and one attribute test,
//! optionally below an element of another kind) are done here, over that list.
use vstd::prelude::*;
use scraper::Html;
use crate::text::{char_count, chars_of, push_str, same_text};
use crate::xml::{attribute_views, first_attribute};

verus! {

/// One node of a parsed page.
#[derive(Debug)]
pub struct HtmlNode {
    /// Whether it is an element.
    pub element: bool,
    /// Whether it is a text node.
    pub text_node: bool,
    /// The element's local name; empty for other nodes.
    pub name: String,
    /// A text node's text; empty for other nodes.
    pub text: String,
    /// The element's attributes as name and value.
    pub attributes: Vec<(String, String)>,
    /// How many ancestors the node has; the document itself has none.
    pub depth: usize,
}

/// A node as plain values.
pub struct HtmlNodeView {
    pub element: bool,
    pub text_node: bool,
    pub name: Seq<char>,
    pub text: Seq<char>,
    pub attributes: Seq<(Seq<char>, Seq<char>)>,
    pub depth: nat,
}

impl HtmlNode {
    /// The node as plain values.
    pub open spec fn view(&self) -> HtmlNodeView {
        HtmlNodeView {
            element: self.element,
            text_node: self.text_node,
            name: self.name@,
            text: self.text@,
            attributes: attribute_views(self.attributes@),
            depth: self.depth as nat,
        }
    }
}

/// The views of a node list.
pub open spec fn html_views(v: Seq<HtmlNode>) -> Seq<HtmlNodeView> {
    v.map_values(|n: HtmlNode| n.view())
}

/// What `scraper` makes of a page: its nodes in document order.
pub uninterp spec fn html_nodes(html: Seq<char>) -> Seq<HtmlNodeView>;

/// Parse a page with `scraper::Html::parse_document` and list its nodes.
///
/// The contract names the outcome `html_nodes(html)`: the nodes of the tree's
/// `root().descendants()` in document order, each with whether it is an element or a
/// text node, the element's name, the text node's text, the pairs of `Element::attrs`
/// and the count of its `ancestors()`. HTML parsing does not fail; nothing else about
/// the parser's output is stated here.
#[verifier::external_body]
pub fn read_html(html: &str) -> (v: Vec<HtmlNode>)
    ensures
        html_views(v@) == html_nodes(html@),
{
    let document = Html::parse_document(html);
    document.tree.root().descendants().map(|n| HtmlNode {
        element: n.value().is_element(),
        text_node: n.value().is_text(),
        name: n.value().as_element().map_or("", |e| e.name()).into(),
        text: n.value().as_text().map_or(String::new(), |t| t.to_string()),
        attributes: n.value().as_element().map_or(Vec::new(), |e| e.attrs().map(|(k, v)| (k.into(), v.into())).collect()),
        depth: n.ancestors().count(),
    }).collect()
}

/// An attribute test of a simple selector.
#[derive(Debug, Clone, Copy)]
pub enum Test {
    /// No test.
    Always,
    /// `[name]`: the attribute is present.
    Has(&'static str),
    /// `[name="value"]`: the attribute has exactly this value.
    Is(&'static str, &'static str),
    /// `.token`: the `class` attribute lists this token among its white-space separated words.
    Class(&'static str),
}

/// A simple selector: an element name, or any element for the empty name, and one test.
#[derive(Debug, Clone, Copy)]
pub struct Simple {
    pub name: &'static str,
    pub test: Test,
}

/// The white space that separates the words of a `class` attribute.
pub open spec fn is_html_space(c: char) -> bool {
    c == ' ' || c == '\t' || c == '\n' || c == '\u{c}' || c == '\r'
}

/// Whether `token` stands in `value` as a whole word.
pub open spec fn word_at(value: Seq<char>, token: Seq<char>, i: int) -> bool {
    &&& 0 <= i
    &&& i + token.len() <= value.len()
    &&& value.subrange(i, i + token.len()) == token
    &&& (i == 0 || is_html_space(value[i - 1]))
    &&& (i + token.len() == value.len() || is_html_space(value[i + token.len()]))
}

/// Whether `value` lists `token` as one of its words.
pub open spec fn has_word(value: Seq<char>, token: Seq<char>) -> bool {
    token.len() > 0 && exists|i: int| word_at(value, token, i)
}

/// Whether the attribute test holds of a node.
pub open spec fn test_holds(n: HtmlNodeView, t: Test) -> bool {
    match t {
        Test::Always => true,
        Test::Has(a) => first_attribute(n.attributes, a@) is Some,
        Test::Is(a, v) => first_attribute(n.attributes, a@) == Some(v@),
        Test::Class(c) => first_attribute(n.attributes, "class"@) matches Some(cl) && has_word(cl, c@),
    }
}

/// Whether a node is an element the simple selector matches.
pub open spec fn matches(n: HtmlNodeView, s: Simple) -> bool {
    n.element && (s.name@.len() == 0 || n.name == s.name@) && test_holds(n, s.test)
}

/// Whether node `a` is an ancestor of node `k`: it comes first, and every node after it
/// up to `k` lies deeper.
pub open spec fn is_ancestor(ns: Seq<HtmlNodeView>, a: int, k: int) -> bool {
    &&& 0 <= a < k < ns.len()
    &&& forall|m: int| a < m <= k ==> #[trigger] ns[m].depth > ns[a].depth
}

/// Whether node `k` has an ancestor the selector matches; true where there is no such
/// condition.
pub open spec fn below(ns: Seq<HtmlNodeView>, k: int, anc: Option<Simple>) -> bool {
    match anc {
        None => true,
        Some(s) => exists|a: int| is_ancestor(ns, a, k) && matches(ns[a], s),
    }
}

/// The positions in `from..to`, in order, of the elements that match `s` and have an
/// ancestor that matches `anc`: the descendant selector `anc s`.
pub open spec fn selected(ns: Seq<HtmlNodeView>, from: int, to: int, s: Simple, anc: Option<Simple>) -> Seq<int>
    decreases to - from,
{
    if to <= from {
        seq![]
    } else {
        let before = selected(ns, from, to - 1, s, anc);
        if matches(ns[to - 1], s) && below(ns, to - 1, anc) {
            before.push(to - 1)
        } else {
            before
        }
    }
}

/// Where the subtree of node `i` ends: the first node from `k` on that lies no deeper
/// than `i`, or the end of the list.
pub open spec fn end_from(ns: Seq<HtmlNodeView>, i: int, k: int) -> int
    decreases ns.len() - k,
{
    if k >= ns.len() || k < 0 || ns[k].depth <= ns[i].depth {
        k
    } else {
        end_from(ns, i, k + 1)
    }
}

/// The end of the subtree of node `i`: its descendants are the nodes after it and before
/// this position.
pub open spec fn subtree_end(ns: Seq<HtmlNodeView>, i: int) -> int {
    end_from(ns, i, i + 1)
}

/// The text of the text nodes of a run of nodes, in order.
pub open spec fn texts(ns: Seq<HtmlNodeView>) -> Seq<char>
    decreases ns.len(),
{
    if ns.len() == 0 {
        seq![]
    } else {
        texts(ns.drop_last()) + if ns.last().text_node {
            ns.last().text
        } else {
            seq![]
        }
    }
}

/// All text below node `i`, as `ElementRef::text` collects it.
pub open spec fn text_below(ns: Seq<HtmlNodeView>, i: int) -> Seq<char> {
    texts(ns.subrange(i + 1, subtree_end(ns, i)))
}

/// The value of the first attribute with this name.
pub fn attr<'a>(n: &'a HtmlNode, name: &str) -> (r: Option<&'a str>)
    ensures
        match r {
            Some(v) => first_attribute(n.view().attributes, name@) == Some(v@),
            None => first_attribute(n.view().attributes, name@) is None,
        },
{
    let ghost a = n.view().attributes;
    let mut i: usize = 0;
    proof {
        assert(a.skip(0) =~= a);
    }
    while i < n.attributes.len()
        invariant
            i <= n.attributes.len(),
            a == attribute_views(n.attributes@),
            first_attribute(a, name@) == first_attribute(a.skip(i as int), name@),
        decreases n.attributes.len() - i,
    {
        proof {
            assert(a.skip(i as int)[0] == a[i as int]);
            assert(a.skip(i as int).drop_first() =~= a.skip(i + 1));
        }
        if same_text(n.attributes[i].0.as_str(), name) {
            return Some(n.attributes[i].1.as_str());
        }
        i = i + 1;
    }
    None
}

/// Whether `c` separates the words of a `class` attribute.
fn html_space(c: char) -> (r: bool)
    ensures
        r == is_html_space(c),
{
    c == ' ' || c == '\t' || c == '\n' || c == '\u{c}' || c == '\r'
}

/// Whether `v[i..]` begins with `t`.
fn here(v: &Vec<char>, t: &Vec<char>, i: usize) -> (r: bool)
    requires
        i + t.len() <= v.len(),
    ensures
        r == (v@.subrange(i as int, i + t.len()) == t@),
{
    let mut j: usize = 0;
    while j < t.len()
        invariant
            j <= t.len(),
            i + t.len() <= v.len(),
            forall|m: int| 0 <= m < j ==> v@[i + m] == t@[m],
        decreases t.len() - j,
    {
        if v[i + j] != t[j] {
            proof {
                assert(v@.subrange(i as int, i + t@.len())[j as int] != t@[j as int]);
            }
            return false;
        }
        j = j + 1;
    }
    proof {
        assert(v@.subrange(i as int, i + t@.len()) =~= t@);
    }
    true
}

/// Whether `value` lists `token` as one of its words.
pub fn lists_word(value: &str, token: &str) -> (r: bool)
    ensures
        r == has_word(value@, token@),
{
    let v = chars_of(value);
    let t = chars_of(token);
    if t.len() == 0 || t.len() > v.len() {
        return false;
    }
    let mut i: usize = 0;
    while i <= v.len() - t.len()
        invariant
            1 <= t.len() <= v.len(),
            i <= v.len() - t.len() + 1,
            v@ == value@,
            t@ == token@,
            forall|k: int| 0 <= k < i ==> !word_at(value@, token@, k),
        decreases v.len() - i,
    {
        let starts = i == 0 || html_space(v[i - 1]);
        let ends = i + t.len() == v.len() || html_space(v[i + t.len()]);
        if starts && ends && here(&v, &t, i) {
            proof {
                assert(word_at(value@, token@, i as int));
            }
            return true;
        }
        i = i + 1;
    }
    proof {
        assert forall|k: int| !word_at(value@, token@, k) by {
            if 0 <= k && k + token@.len() <= value@.len() {
                assert(k < i);
            }
        }
    }
    false
}

/// Whether an element is one the simple selector matches.
pub fn is_match(n: &HtmlNode, s: Simple) -> (r: bool)
    ensures
        r == matches(n.view(), s),
{
    if !n.element {
        return false;
    }
    if char_count(s.name) != 0 && !same_text(n.name.as_str(), s.name) {
        proof {
            assert(s.name@.len() != 0);
        }
        return false;
    }
    proof {
        assert(s.name@.len() == 0 || n.view().name == s.name@);
    }
    match s.test {
        Test::Always => true,
        Test::Has(a) => attr(n, a).is_some(),
        Test::Is(a, v) => match attr(n, a) {
            Some(x) => same_text(x, v),
            None => false,
        },
        Test::Class(c) => match attr(n, "class") {
            Some(x) => lists_word(x, c),
            None => false,
        },
    }
}

/// Whether node `k` has an ancestor that the selector matches.
pub fn has_ancestor(ns: &Vec<HtmlNode>, k: usize, s: Simple) -> (r: bool)
    requires
        k < ns.len(),
    ensures
        r == (exists|a: int| is_ancestor(html_views(ns@), a, k as int) && matches(html_views(ns@)[a], s)),
{
    let ghost v = html_views(ns@);
    let mut cur: usize = ns[k].depth;
    let mut m: usize = k;
    proof {
        assert(v[k as int] == ns@[k as int].view());
        assert(v[k as int].depth == cur);
    }
    while m > 0
        invariant
            m <= k < ns.len(),
            v == html_views(ns@),
            forall|j: int| m <= j <= k ==> #[trigger] v[j].depth >= cur,
            exists|j: int| m <= j <= k && #[trigger] v[j].depth == cur,
            forall|a: int| m <= a < k && is_ancestor(v, a, k as int) ==> !matches(v[a], s),
        decreases m,
    {
        let p = m - 1;
        proof {
            assert(v[p as int] == ns@[p as int].view());
        }
        if ns[p].depth < cur {
            proof {
                assert(is_ancestor(v, p as int, k as int)) by {
                    assert forall|j: int| p < j <= k implies #[trigger] v[j].depth > v[p as int].depth by {
                        assert(m <= j <= k);
                    }
                }
            }
            if is_match(&ns[p], s) {
                return true;
            }
            cur = ns[p].depth;
        } else {
            proof {
                assert(!is_ancestor(v, p as int, k as int)) by {
                    let j = choose|j: int| m <= j <= k && #[trigger] v[j].depth == cur;
                    assert(v[j].depth <= v[p as int].depth);
                }
            }
        }
        m = p;
    }
    false
}

/// The views of a list of positions.
pub open spec fn positions(v: Seq<usize>) -> Seq<int> {
    v.map_values(|x: usize| x as int)
}

/// The positions in `from..to` of the elements that match `s`, below an element that
/// matches `anc` where one is given.
pub fn select(ns: &Vec<HtmlNode>, from: usize, to: usize, s: Simple, anc: Option<Simple>) -> (r: Vec<usize>)
    requires
        from <= to <= ns.len(),
    ensures
        positions(r@) == selected(html_views(ns@), from as int, to as int, s, anc),
        forall|j: int| 0 <= j < r@.len() ==> from <= #[trigger] r@[j] < to,
{
    let ghost v = html_views(ns@);
    let mut out: Vec<usize> = Vec::new();
    let mut k: usize = from;
    while k < to
        invariant
            from <= k <= to <= ns.len(),
            v == html_views(ns@),
            positions(out@) == selected(v, from as int, k as int, s, anc),
            forall|j: int| 0 <= j < out@.len() ==> from <= #[trigger] out@[j] < k,
        decreases to - k,
    {
        proof {
            assert(v[k as int] == ns@[k as int].view());
        }
        let hit = is_match(&ns[k], s) && match anc {
            None => true,
            Some(a) => has_ancestor(ns, k, a),
        };
        if hit {
            out.push(k);
            proof {
                assert(positions(out@) =~= selected(v, from as int, k as int, s, anc).push(k as int));
            }
        }
        k = k + 1;
    }
    out
}

/// The selected positions lie in the range they were selected from.
pub proof fn lemma_selected_within(ns: Seq<HtmlNodeView>, from: int, to: int, s: Simple, anc: Option<Simple>)
    ensures
        forall|j: int|
            0 <= j < selected(ns, from, to, s, anc).len() ==> from <= #[trigger] selected(ns, from, to, s, anc)[j] < to,
    decreases to - from,
{
    if to > from {
        lemma_selected_within(ns, from, to - 1, s, anc);
        let before = selected(ns, from, to - 1, s, anc);
        let all = selected(ns, from, to, s, anc);
        assert forall|j: int| 0 <= j < all.len() implies from <= #[trigger] all[j] < to by {
            if j < before.len() {
                assert(all[j] == before[j]);
            }
        }
    }
}

/// The first position in `from..to` of an element that matches `s`.
pub fn first(ns: &Vec<HtmlNode>, from: usize, to: usize, s: Simple) -> (r: Option<usize>)
    requires
        from <= to <= ns.len(),
    ensures
        match r {
            Some(k) => {
                let sel = selected(html_views(ns@), from as int, to as int, s, None);
                sel.len() > 0 && sel[0] == k
            },
            None => selected(html_views(ns@), from as int, to as int, s, None).len() == 0,
        },
{
    let all = select(ns, from, to, s, None);
    if all.len() == 0 {
        None
    } else {
        proof {
            assert(positions(all@)[0] == all@[0] as int);
        }
        Some(all[0])
    }
}

/// Where the subtree of node `i` ends.
pub fn end_of(ns: &Vec<HtmlNode>, i: usize) -> (e: usize)
    requires
        i < ns.len(),
    ensures
        e as int == subtree_end(html_views(ns@), i as int),
        i < e <= ns.len(),
{
    let ghost v = html_views(ns@);
    let mut k: usize = i + 1;
    proof {
        assert(v[i as int] == ns@[i as int].view());
    }
    while k < ns.len() && ns[k].depth > ns[i].depth
        invariant
            i < k <= ns.len(),
            v == html_views(ns@),
            end_from(v, i as int, k as int) == end_from(v, i as int, i + 1),
        decreases ns.len() - k,
    {
        proof {
            assert(v[k as int] == ns@[k as int].view());
        }
        k = k + 1;
    }
    proof {
        if k < ns.len() {
            assert(v[k as int] == ns@[k as int].view());
        }
    }
    k
}

/// All text below node `i`, in document order.
pub fn text_of(ns: &Vec<HtmlNode>, i: usize) -> (t: String)
    requires
        i < ns.len(),
    ensures
        t@ == text_below(html_views(ns@), i as int),
{
    let ghost v = html_views(ns@);
    let end = end_of(ns, i);
    let mut t = String::new();
    let mut k: usize = i + 1;
    proof {
        assert(v.subrange(i + 1, i + 1) =~= Seq::<HtmlNodeView>::empty());
    }
    while k < end
        invariant
            i < k <= end <= ns.len(),
            v == html_views(ns@),
            t@ == texts(v.subrange(i + 1, k as int)),
        decreases end - k,
    {
        proof {
            assert(v.subrange(i + 1, k + 1).drop_last() =~= v.subrange(i + 1, k as int));
            assert(v.subrange(i + 1, k + 1).last() == ns@[k as int].view());
        }
        if ns[k].text_node {
            push_str(&mut t, ns[k].text.as_str());
        } else {
            proof {
                assert(t@ + Seq::<char>::empty() =~= t@);
            }
        }
        k = k + 1;
    }
    t
}

} // verus!
