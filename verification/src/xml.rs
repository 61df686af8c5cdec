//! An XML document as a flat list of nodes in document order, read by `roxmltree`.
//!
//! The parser's tree is handed over as plain values: each node with its kind, its name
//! and namespace, its text, the id of its parent and its byte range in the body. The
//! walks the parsers need (children, the first matching child, the text below a node)
//! are done here, over that list.
use vstd::prelude::*;
use roxmltree::Document;
use crate::text::{chars_of, is_space, is_whitespace, owned, push_str, same_text, trim, trim_spec};

verus! {

/// One node of a parsed document.
#[derive(Debug)]
pub struct XmlNode {
    /// Whether it is an element.
    pub element: bool,
    /// Whether it is a text node.
    pub text_node: bool,
    /// The element's namespace, if it has one.
    pub namespace: Option<String>,
    /// The element's local name; empty for other nodes.
    pub name: String,
    /// A text node's text; for an element, the text of its first child when that is a
    /// text node. The parsers read it for text nodes only.
    pub text: String,
    /// The element's attributes as local name and value, in document order.
    pub attributes: Vec<(String, String)>,
    /// The node's id in the document.
    pub id: usize,
    /// The id of the parent; `None` for the document root.
    pub parent: Option<usize>,
    /// The bytes of the body that the node spans.
    pub range: std::ops::Range<usize>,
}

/// A node as plain values.
pub struct XmlNodeView {
    pub element: bool,
    pub text_node: bool,
    pub namespace: Option<Seq<char>>,
    pub name: Seq<char>,
    pub text: Seq<char>,
    pub attributes: Seq<(Seq<char>, Seq<char>)>,
    pub id: nat,
    pub parent: Option<nat>,
    pub start: nat,
    pub end: nat,
}

impl XmlNode {
    /// The node as plain values.
    pub open spec fn view(&self) -> XmlNodeView {
        XmlNodeView {
            element: self.element,
            text_node: self.text_node,
            namespace: match self.namespace {
                Some(n) => Some(n@),
                None => None,
            },
            name: self.name@,
            text: self.text@,
            attributes: attribute_views(self.attributes@),
            id: self.id as nat,
            parent: match self.parent {
                Some(p) => Some(p as nat),
                None => None,
            },
            start: self.range.start as nat,
            end: self.range.end as nat,
        }
    }
}

/// The views of an attribute list.
pub open spec fn attribute_views(v: Seq<(String, String)>) -> Seq<(Seq<char>, Seq<char>)> {
    v.map_values(|a: (String, String)| (a.0@, a.1@))
}

/// The views of a node list.
pub open spec fn node_views(v: Seq<XmlNode>) -> Seq<XmlNodeView> {
    v.map_values(|n: XmlNode| n.view())
}

/// What `roxmltree` makes of a body: its nodes in document order, or the text of its
/// parse error.
pub uninterp spec fn xml_nodes(body: Seq<char>) -> Result<Seq<XmlNodeView>, Seq<char>>;

/// Parse a body with `roxmltree::Document::parse` and list its nodes.
///
/// The contract names the outcome `xml_nodes(body)`: the nodes of
/// `Document::descendants()` in document order, each with `is_element`, `is_text`, the
/// tag's namespace and local name, the text of a text node, its `NodeId`, its parent's
/// `NodeId` and its `range()`; or, when the body does not parse, the `Display` text of
/// the parser's error. Nothing else about the parser's output is stated here; the
/// parsers check the shape of the list themselves.
#[verifier::external_body]
pub fn read_xml(body: &str) -> (r: Result<Vec<XmlNode>, String>)
    ensures
        match r {
            Ok(v) => xml_nodes(body@) == Ok::<Seq<XmlNodeView>, Seq<char>>(node_views(v@)),
            Err(e) => xml_nodes(body@) == Err::<Seq<XmlNodeView>, Seq<char>>(e@),
        },
{
    let doc = Document::parse(body).map_err(|e| e.to_string())?;
    Ok(doc.descendants().map(|n| XmlNode {
        element: n.is_element(),
        text_node: n.is_text(),
        namespace: n.tag_name().namespace().map(String::from),
        name: n.tag_name().name().into(),
        text: n.text().unwrap_or_default().into(),
        attributes: n.attributes().map(|a| (a.name().into(), a.value().into())).collect(),
        id: n.id().get_usize(),
        parent: n.parent().map(|p| p.id().get_usize()),
        range: n.range(),
    }).collect())
}

/// The value of the first attribute with this local name.
pub open spec fn attribute_spec(x: XmlNodeView, name: Seq<char>) -> Option<Seq<char>> {
    first_attribute(x.attributes, name)
}

/// The value of the first pair with this name.
pub open spec fn first_attribute(a: Seq<(Seq<char>, Seq<char>)>, name: Seq<char>) -> Option<Seq<char>>
    decreases a.len(),
{
    if a.len() == 0 {
        None
    } else if a[0].0 == name {
        Some(a[0].1)
    } else {
        first_attribute(a.drop_first(), name)
    }
}

/// The value of the first attribute with this local name.
pub fn attribute(x: &XmlNode, name: &str) -> (r: Option<String>)
    ensures
        match r {
            Some(v) => attribute_spec(x.view(), name@) == Some(v@),
            None => attribute_spec(x.view(), name@) is None,
        },
{
    let ghost a = x.view().attributes;
    let mut i: usize = 0;
    proof {
        assert(a.skip(0) =~= a);
    }
    while i < x.attributes.len()
        invariant
            i <= x.attributes.len(),
            a == attribute_views(x.attributes@),
            first_attribute(a, name@) == first_attribute(a.skip(i as int), name@),
        decreases x.attributes.len() - i,
    {
        proof {
            assert(a.skip(i as int)[0] == a[i as int]);
            assert(a.skip(i as int).drop_first() =~= a.skip(i + 1));
        }
        if same_text(x.attributes[i].0.as_str(), name) {
            return Some(x.attributes[i].1.clone());
        }
        i = i + 1;
    }
    None
}

/// Whether the list is a tree in document order: each node's id is its position, the
/// first node is the root and every other node's parent comes before it.
pub open spec fn tree_shaped(n: Seq<XmlNodeView>) -> bool {
    &&& n.len() > 0
    &&& n[0].parent is None
    &&& forall|k: int| 0 <= k < n.len() ==> (#[trigger] n[k]).id == k
    &&& forall|k: int| 0 < k < n.len() ==> ((#[trigger] n[k]).parent matches Some(p) && p < k)
}

/// Checks that the list is a tree in document order.
pub fn is_tree(nodes: &Vec<XmlNode>) -> (r: bool)
    ensures
        r == tree_shaped(node_views(nodes@)),
{
    if nodes.len() == 0 {
        return false;
    }
    if nodes[0].parent.is_some() {
        return false;
    }
    let mut k: usize = 0;
    while k < nodes.len()
        invariant
            k <= nodes.len(),
            nodes.len() > 0,
            nodes@[0].parent is None,
            forall|j: int| 0 <= j < k ==> (#[trigger] node_views(nodes@)[j]).id == j,
            forall|j: int| 0 < j < k ==> ((#[trigger] node_views(nodes@)[j]).parent matches Some(p) && p < j),
        decreases nodes.len() - k,
    {
        proof {
            assert(node_views(nodes@)[k as int] == nodes@[k as int].view());
        }
        if nodes[k].id != k {
            return false;
        }
        if k > 0 {
            match nodes[k].parent {
                Some(p) => {
                    if p >= k {
                        return false;
                    }
                },
                None => {
                    return false;
                },
            }
        }
        k = k + 1;
    }
    true
}

/// Whether `a` is a proper ancestor of `j`.
pub open spec fn ancestor(n: Seq<XmlNodeView>, a: int, j: int) -> bool
    decreases j,
{
    if 0 < j < n.len() {
        match n[j].parent {
            Some(p) => if p < j {
                p == a || ancestor(n, a, p as int)
            } else {
                false
            },
            None => false,
        }
    } else {
        false
    }
}

/// Whether an element has this local name in one of these namespaces; an element
/// without a namespace matches any.
pub open spec fn is_el(x: XmlNodeView, nss: Seq<Seq<char>>, local: Seq<char>) -> bool {
    x.element && x.name == local && match x.namespace {
        Some(ns) => nss.contains(ns),
        None => true,
    }
}

/// The index of the first child of `p`, from index `from` on, that matches.
pub open spec fn child_from(n: Seq<XmlNodeView>, p: int, nss: Seq<Seq<char>>, local: Seq<char>, from: int) -> Option<int>
    decreases n.len() - from,
{
    if from < 0 || from >= n.len() {
        None
    } else if n[from].parent == Some(p as nat) && is_el(n[from], nss, local) {
        Some(from)
    } else {
        child_from(n, p, nss, local, from + 1)
    }
}

/// The index of the first child element of `p` that matches.
pub open spec fn child_spec(n: Seq<XmlNodeView>, p: int, nss: Seq<Seq<char>>, local: Seq<char>) -> Option<int> {
    child_from(n, p, nss, local, p + 1)
}

/// The views of a list of string slices.
pub open spec fn str_views(v: Seq<&str>) -> Seq<Seq<char>> {
    v.map_values(|s: &str| s@)
}

/// Whether a node is an element with this local name in one of these namespaces.
pub fn is_element(x: &XmlNode, nss: &Vec<&str>, local: &str) -> (r: bool)
    ensures
        r == is_el(x.view(), str_views(nss@), local@),
{
    if !x.element || !same_text(x.name.as_str(), local) {
        return false;
    }
    match &x.namespace {
        None => true,
        Some(ns) => {
            let mut i: usize = 0;
            while i < nss.len()
                invariant
                    i <= nss.len(),
                    x.view().namespace == Some(ns@),
                    x.view().name == local@,
                    x.element,
                    forall|j: int| 0 <= j < i ==> nss@[j]@ != ns@,
                decreases nss.len() - i,
            {
                if same_text(nss[i], ns.as_str()) {
                    proof {
                        assert(str_views(nss@)[i as int] == ns@);
                        assert(str_views(nss@).contains(ns@));
                        assert(x.view().namespace == Some(ns@));
                        assert(x.view().name == local@);
                    }
                    return true;
                }
                i = i + 1;
            }
            proof {
                if str_views(nss@).contains(ns@) {
                    let j = choose|j: int| 0 <= j < str_views(nss@).len() && str_views(nss@)[j] == ns@;
                    assert(nss@[j]@ == ns@);
                }
            }
            false
        },
    }
}

/// The first child element of `p` that matches.
pub fn child(nodes: &Vec<XmlNode>, p: usize, nss: &Vec<&str>, local: &str) -> (r: Option<usize>)
    requires
        p < nodes.len(),
    ensures
        match r {
            Some(k) => child_spec(node_views(nodes@), p as int, str_views(nss@), local@) == Some(k as int) && k < nodes.len(),
            None => child_spec(node_views(nodes@), p as int, str_views(nss@), local@) is None,
        },
{
    let ghost n = node_views(nodes@);
    let mut k: usize = p + 1;
    while k < nodes.len()
        invariant
            p < k <= nodes.len(),
            n == node_views(nodes@),
            child_spec(n, p as int, str_views(nss@), local@) == child_from(n, p as int, str_views(nss@), local@, k as int),
        decreases nodes.len() - k,
    {
        proof {
            assert(n[k as int] == nodes@[k as int].view());
        }
        if nodes[k].parent == Some(p) && is_element(&nodes[k], nss, local) {
            return Some(k);
        }
        k = k + 1;
    }
    None
}

/// The last index of the run of descendants of `i` that follows it.
pub open spec fn subtree_end(n: Seq<XmlNodeView>, i: int, from: int) -> int
    decreases n.len() - from,
{
    if from < n.len() && from > i && ancestor(n, i, from) {
        subtree_end(n, i, from + 1)
    } else {
        from
    }
}

/// The text of the text nodes among `n[from..to]`, in order.
pub open spec fn texts_between(n: Seq<XmlNodeView>, from: int, to: int) -> Seq<char>
    decreases to - from,
{
    if from >= to {
        Seq::empty()
    } else {
        texts_between(n, from, to - 1) + if n[to - 1].text_node {
            n[to - 1].text
        } else {
            Seq::<char>::empty()
        }
    }
}

/// All text below a node, concatenated and trimmed.
pub open spec fn text_of_spec(n: Seq<XmlNodeView>, i: int) -> Seq<char> {
    trim_spec(texts_between(n, i + 1, subtree_end(n, i, i + 1)))
}

/// The trimmed text of the first matching child, or `None` when it is absent or empty.
pub open spec fn child_text_spec(n: Seq<XmlNodeView>, p: int, nss: Seq<Seq<char>>, local: Seq<char>) -> Option<Seq<char>> {
    match child_spec(n, p, nss, local) {
        Some(k) => if text_of_spec(n, k).len() > 0 {
            Some(text_of_spec(n, k))
        } else {
            None
        },
        None => None,
    }
}

proof fn lemma_ancestor_below(n: Seq<XmlNodeView>, a: int, j: int)
    requires
        ancestor(n, a, j),
    ensures
        a < j,
    decreases j,
{
    if 0 < j < n.len() {
        match n[j].parent {
            Some(p) => if p < j && p != a {
                lemma_ancestor_below(n, a, p as int);
            },
            None => {},
        }
    }
}

/// Whether `a` is a proper ancestor of `j` in a tree-shaped list.
fn is_ancestor(nodes: &Vec<XmlNode>, a: usize, j: usize) -> (r: bool)
    requires
        tree_shaped(node_views(nodes@)),
        j < nodes.len(),
    ensures
        r == ancestor(node_views(nodes@), a as int, j as int),
{
    let ghost n = node_views(nodes@);
    let mut k: usize = j;
    while k > 0 && k > a
        invariant
            k < nodes.len(),
            n == node_views(nodes@),
            tree_shaped(n),
            ancestor(n, a as int, j as int) == (ancestor(n, a as int, k as int) || (k == a && k != j)),
        decreases k,
    {
        proof {
            assert(n[k as int] == nodes@[k as int].view());
        }
        let p = match nodes[k].parent {
            Some(p) => p,
            None => 0,
        };
        if p == a {
            return true;
        }
        k = p;
    }
    proof {
        if ancestor(n, a as int, k as int) {
            lemma_ancestor_below(n, a as int, k as int);
        }
    }
    k == a && k != j
}

/// All text below a node, concatenated and trimmed.
pub fn text_of(nodes: &Vec<XmlNode>, i: usize) -> (s: String)
    requires
        tree_shaped(node_views(nodes@)),
        i < nodes.len(),
    ensures
        s@ == text_of_spec(node_views(nodes@), i as int),
{
    let ghost n = node_views(nodes@);
    let mut raw = String::new();
    let mut j: usize = i + 1;
    proof {
        assert(texts_between(n, i + 1, i + 1) =~= Seq::<char>::empty());
    }
    while j < nodes.len() && is_ancestor(nodes, i, j)
        invariant
            i < j <= nodes.len(),
            n == node_views(nodes@),
            tree_shaped(n),
            subtree_end(n, i as int, i + 1) == subtree_end(n, i as int, j as int),
            raw@ == texts_between(n, i + 1, j as int),
        decreases nodes.len() - j,
    {
        proof {
            assert(n[j as int] == nodes@[j as int].view());
        }
        if nodes[j].text_node {
            push_str(&mut raw, nodes[j].text.as_str());
        } else {
            proof {
                assert(raw@ + Seq::<char>::empty() =~= raw@);
            }
        }
        j = j + 1;
    }
    trim(raw.as_str())
}

/// The trimmed text of the first matching child, or `None` when it is absent or empty.
pub fn child_text(nodes: &Vec<XmlNode>, p: usize, nss: &Vec<&str>, local: &str) -> (r: Option<String>)
    requires
        tree_shaped(node_views(nodes@)),
        p < nodes.len(),
    ensures
        match r {
            Some(s) => child_text_spec(node_views(nodes@), p as int, str_views(nss@), local@) == Some(s@),
            None => child_text_spec(node_views(nodes@), p as int, str_views(nss@), local@) is None,
        },
{
    match child(nodes, p, nss, local) {
        Some(k) => {
            let t = text_of(nodes, k);
            if t.as_str().unicode_len() > 0 {
                Some(t)
            } else {
                None
            }
        },
        None => None,
    }
}

/// The text with runs of white space collapsed to single spaces and none at the ends.
pub open spec fn collapse_spaces(s: Seq<char>) -> Seq<char>
    decreases s.len(),
{
    if s.len() == 0 {
        s
    } else {
        let before = collapse_spaces(s.drop_last());
        let c = s.last();
        if is_space(c) {
            before
        } else if s.len() > 1 && is_space(s[s.len() - 2]) && before.len() > 0 {
            before.push(' ').push(c)
        } else {
            before.push(c)
        }
    }
}

/// The first 120 characters of the body, white space collapsed.
pub open spec fn snippet_spec(body: Seq<char>) -> Seq<char> {
    let c = collapse_spaces(body);
    if c.len() > 120 {
        c.take(120)
    } else {
        c
    }
}

/// The body with white space runs collapsed, cut to 120 characters.
pub fn snippet(body: &str) -> (s: String)
    ensures
        s@ == snippet_spec(body@),
{
    let c = chars_of(body);
    let mut out: Vec<char> = Vec::new();
    let mut i: usize = 0;
    while i < c.len()
        invariant
            i <= c.len(),
            c@ == body@,
            out@ == collapse_spaces(body@.take(i as int)),
        decreases c.len() - i,
    {
        proof {
            assert(body@.take(i + 1).drop_last() =~= body@.take(i as int));
        }
        let ch = c[i];
        if !is_whitespace(ch) {
            if i > 0 && is_whitespace(c[i - 1]) && out.len() > 0 {
                out.push(' ');
            }
            out.push(ch);
        }
        proof {
            assert(body@.take(i + 1).last() == ch);
            if i > 0 {
                assert(body@.take(i + 1)[i - 1] == c@[i - 1]);
            }
        }
        i = i + 1;
    }
    proof {
        assert(body@.take(i as int) =~= body@);
    }
    let mut cut: Vec<char> = Vec::new();
    let mut j: usize = 0;
    while j < out.len() && j < 120
        invariant
            j <= out.len(),
            j <= 120,
            cut@ == out@.take(j as int),
        decreases out.len() - j,
    {
        cut.push(out[j]);
        proof {
            assert(out@.take(j + 1) =~= out@.take(j as int).push(out@[j as int]));
        }
        j = j + 1;
    }
    proof {
        if out.len() <= 120 {
            assert(out@.take(j as int) =~= out@);
        }
    }
    crate::text::string_of(&cut)
}


/// Runs of white space collapsed to one space and the ends trimmed, as
/// `split_whitespace` and `join(" ")` do it.
pub fn collapse(text: &str) -> (s: String)
    ensures
        s@ == collapse_spaces(text@),
{
    let c = chars_of(text);
    let mut out: Vec<char> = Vec::new();
    let mut i: usize = 0;
    while i < c.len()
        invariant
            i <= c.len(),
            c@ == text@,
            out@ == collapse_spaces(text@.take(i as int)),
        decreases c.len() - i,
    {
        proof {
            assert(text@.take(i + 1).drop_last() =~= text@.take(i as int));
        }
        let ch = c[i];
        if !is_whitespace(ch) {
            if i > 0 && is_whitespace(c[i - 1]) && out.len() > 0 {
                out.push(' ');
            }
            out.push(ch);
        }
        proof {
            assert(text@.take(i + 1).last() == ch);
            if i > 0 {
                assert(text@.take(i + 1)[i - 1] == c@[i - 1]);
            }
        }
        i = i + 1;
    }
    proof {
        assert(text@.take(i as int) =~= text@);
    }
    crate::text::string_of(&out)
}

} // verus!
