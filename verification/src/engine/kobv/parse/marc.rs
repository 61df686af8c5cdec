//! MARCXML, taken apart.
//!
//! Three rules: `880` fields (alternate-script duplicates) are skipped; subfield codes
//! are matched exactly (`689 $D` is not `689 $d`); and text is cleaned when the record is
//! built: the sort characters U+0098/U+009C and the soft hyphen U+00AD are dropped, LF
//! and TAB become spaces, runs of spaces collapse. Bidirectional marks are left alone.
use vstd::prelude::*;
use crate::error::{Error, UnexpectedError, UnexpectedView};
use crate::text::{cat, chars_of, flatten, owned, push_char, same_text, string_of, views};
use crate::xml::{
    attribute, attribute_spec, child_text, child_text_spec, is_el, is_element, is_tree,
    node_views, read_xml, snippet, snippet_spec, str_views, text_of, text_of_spec, tree_shaped,
    xml_nodes, XmlNode, XmlNodeView,
};

verus! {

/// A parsed MARC record.
#[derive(Debug, Clone, PartialEq, Eq)]
pub struct MarcRecord {
    leader: String,
    controls: Vec<(String, String)>,
    fields: Vec<Field>,
}

/// One data field.
#[derive(Debug, Clone, PartialEq, Eq)]
pub struct Field {
    /// The three-character tag.
    pub tag: String,
    /// First indicator.
    pub ind1: char,
    /// Second indicator.
    pub ind2: char,
    /// Subfields in record order; a code may repeat.
    pub subfields: Vec<(char, String)>,
}

/// The leader, read by position.
#[derive(Debug, Clone, Copy, PartialEq, Eq)]
pub struct Leader<'a>(pub &'a str);

/// A field as plain values.
pub struct FieldView {
    pub tag: Seq<char>,
    pub ind1: char,
    pub ind2: char,
    pub subfields: Seq<(char, Seq<char>)>,
}

/// A record as plain values.
pub struct MarcView {
    pub leader: Seq<char>,
    pub controls: Seq<(Seq<char>, Seq<char>)>,
    pub fields: Seq<FieldView>,
}

/// The views of subfields.
pub open spec fn subfield_views(v: Seq<(char, String)>) -> Seq<(char, Seq<char>)> {
    v.map_values(|s: (char, String)| (s.0, s.1@))
}

/// The views of pairs of strings.
pub open spec fn pair_views(v: Seq<(String, String)>) -> Seq<(Seq<char>, Seq<char>)> {
    v.map_values(|s: (String, String)| (s.0@, s.1@))
}

impl Field {
    /// The field as plain values.
    pub open spec fn view(&self) -> FieldView {
        FieldView { tag: self.tag@, ind1: self.ind1, ind2: self.ind2, subfields: subfield_views(self.subfields@) }
    }
}

/// The views of fields.
pub open spec fn field_views(v: Seq<Field>) -> Seq<FieldView> {
    v.map_values(|f: Field| f.view())
}

impl MarcRecord {
    /// The record as plain values.
    pub closed spec fn view(&self) -> MarcView {
        MarcView { leader: self.leader@, controls: pair_views(self.controls@), fields: field_views(self.fields@) }
    }
}

/// The value of the first subfield with this code.
pub open spec fn first_sub(subs: Seq<(char, Seq<char>)>, code: char) -> Option<Seq<char>>
    decreases subs.len(),
{
    if subs.len() == 0 {
        None
    } else if subs[0].0 == code {
        Some(subs[0].1)
    } else {
        first_sub(subs.drop_first(), code)
    }
}

/// Every subfield value with this code, in order.
pub open spec fn all_subs(subs: Seq<(char, Seq<char>)>, code: char) -> Seq<Seq<char>>
    decreases subs.len(),
{
    if subs.len() == 0 {
        Seq::empty()
    } else if subs.last().0 == code {
        all_subs(subs.drop_last(), code).push(subs.last().1)
    } else {
        all_subs(subs.drop_last(), code)
    }
}

/// The value of the first control field with this tag.
pub open spec fn first_control(c: Seq<(Seq<char>, Seq<char>)>, tag: Seq<char>) -> Option<Seq<char>>
    decreases c.len(),
{
    if c.len() == 0 {
        None
    } else if c[0].0 == tag {
        Some(c[0].1)
    } else {
        first_control(c.drop_first(), tag)
    }
}

/// Every control field value with this tag, in order.
pub open spec fn all_controls(c: Seq<(Seq<char>, Seq<char>)>, tag: Seq<char>) -> Seq<Seq<char>>
    decreases c.len(),
{
    if c.len() == 0 {
        Seq::empty()
    } else if c.last().0 == tag {
        all_controls(c.drop_last(), tag).push(c.last().1)
    } else {
        all_controls(c.drop_last(), tag)
    }
}

/// The fields with this tag, in record order.
pub open spec fn fields_tagged(f: Seq<FieldView>, tag: Seq<char>) -> Seq<FieldView>
    decreases f.len(),
{
    if f.len() == 0 {
        Seq::empty()
    } else if f.last().tag == tag {
        fields_tagged(f.drop_last(), tag).push(f.last())
    } else {
        fields_tagged(f.drop_last(), tag)
    }
}

/// The index of the first field with this tag that has the subfield.
pub open spec fn first_with_spec(f: Seq<FieldView>, tag: Seq<char>, code: char, from: int) -> Option<int>
    decreases f.len() - from,
{
    if from < 0 || from >= f.len() {
        None
    } else if f[from].tag == tag && first_sub(f[from].subfields, code) is Some {
        Some(from)
    } else {
        first_with_spec(f, tag, code, from + 1)
    }
}

impl Field {
    /// The first subfield with this exact code.
    pub fn sub(&self, code: char) -> (r: Option<&str>)
        ensures
            match r {
                Some(v) => first_sub(self.view().subfields, code) == Some(v@),
                None => first_sub(self.view().subfields, code) is None,
            },
    {
        let ghost s = self.view().subfields;
        let mut i: usize = 0;
        proof {
            assert(s.skip(0) =~= s);
        }
        while i < self.subfields.len()
            invariant
                i <= self.subfields.len(),
                s == subfield_views(self.subfields@),
                first_sub(s, code) == first_sub(s.skip(i as int), code),
            decreases self.subfields.len() - i,
        {
            proof {
                assert(s.skip(i as int)[0] == s[i as int]);
                assert(s.skip(i as int).drop_first() =~= s.skip(i + 1));
            }
            if self.subfields[i].0 == code {
                return Some(self.subfields[i].1.as_str());
            }
            i = i + 1;
        }
        None
    }

    /// Every subfield with this exact code, in record order.
    pub fn subs(&self, code: char) -> (v: Vec<&str>)
        ensures
            views(v@) == all_subs(self.view().subfields, code),
    {
        let ghost s = self.view().subfields;
        let mut v: Vec<&str> = Vec::new();
        let mut i: usize = 0;
        while i < self.subfields.len()
            invariant
                i <= self.subfields.len(),
                s == subfield_views(self.subfields@),
                views(v@) == all_subs(s.take(i as int), code),
            decreases self.subfields.len() - i,
        {
            proof {
                assert(s.take(i + 1).drop_last() =~= s.take(i as int));
            }
            if self.subfields[i].0 == code {
                let ghost before = v@;
                let x = self.subfields[i].1.as_str();
                v.push(x);
                proof {
                    assert(views(v@) =~= views(before).push(x@));
                }
            }
            i = i + 1;
        }
        proof {
            assert(s.take(i as int) =~= s);
        }
        v
    }
}

impl<'a> Leader<'a> {
    /// Position 06, the type of record; `None` for a short leader.
    pub fn kind(&self) -> (r: Option<char>)
        ensures
            r == if self.0@.len() > 6 { Some(self.0@[6]) } else { None::<char> },
    {
        let c = chars_of(self.0);
        if c.len() > 6 {
            Some(c[6])
        } else {
            None
        }
    }

    /// Position 07, the bibliographic level; `None` for a short leader.
    pub fn level(&self) -> (r: Option<char>)
        ensures
            r == if self.0@.len() > 7 { Some(self.0@[7]) } else { None::<char> },
    {
        let c = chars_of(self.0);
        if c.len() > 7 {
            Some(c[7])
        } else {
            None
        }
    }
}

impl MarcRecord {
    /// The leader.
    pub fn leader(&self) -> (l: Leader<'_>)
        ensures
            l.0@ == self.view().leader,
    {
        Leader(self.leader.as_str())
    }

    /// A control field, e.g. `001` or `008`: the first one with this tag.
    pub fn control(&self, tag: &str) -> (r: Option<&str>)
        ensures
            match r {
                Some(v) => first_control(self.view().controls, tag@) == Some(v@),
                None => first_control(self.view().controls, tag@) is None,
            },
    {
        let ghost c = self.view().controls;
        let mut i: usize = 0;
        proof {
            assert(c.skip(0) =~= c);
        }
        while i < self.controls.len()
            invariant
                i <= self.controls.len(),
                c == pair_views(self.controls@),
                first_control(c, tag@) == first_control(c.skip(i as int), tag@),
            decreases self.controls.len() - i,
        {
            proof {
                assert(c.skip(i as int)[0] == c[i as int]);
                assert(c.skip(i as int).drop_first() =~= c.skip(i + 1));
            }
            if same_text(self.controls[i].0.as_str(), tag) {
                return Some(self.controls[i].1.as_str());
            }
            i = i + 1;
        }
        None
    }

    /// Every control field with this tag, in record order (`007` repeats).
    pub fn controls(&self, tag: &str) -> (v: Vec<&str>)
        ensures
            views(v@) == all_controls(self.view().controls, tag@),
    {
        let ghost c = self.view().controls;
        let mut v: Vec<&str> = Vec::new();
        let mut i: usize = 0;
        while i < self.controls.len()
            invariant
                i <= self.controls.len(),
                c == pair_views(self.controls@),
                views(v@) == all_controls(c.take(i as int), tag@),
            decreases self.controls.len() - i,
        {
            proof {
                assert(c.take(i + 1).drop_last() =~= c.take(i as int));
            }
            if same_text(self.controls[i].0.as_str(), tag) {
                let ghost before = v@;
                let x = self.controls[i].1.as_str();
                v.push(x);
                proof {
                    assert(views(v@) =~= views(before).push(x@));
                }
            }
            i = i + 1;
        }
        proof {
            assert(c.take(i as int) =~= c);
        }
        v
    }

    /// Every data field with this tag, in record order. Never an `880`: those are
    /// dropped when the record is parsed.
    pub fn fields(&self, tag: &str) -> (v: Vec<&Field>)
        ensures
            v@.map_values(|f: &Field| f.view()) == fields_tagged(self.view().fields, tag@),
    {
        let ghost f = self.view().fields;
        let mut v: Vec<&Field> = Vec::new();
        let mut i: usize = 0;
        while i < self.fields.len()
            invariant
                i <= self.fields.len(),
                f == field_views(self.fields@),
                v@.map_values(|f: &Field| f.view()) == fields_tagged(f.take(i as int), tag@),
            decreases self.fields.len() - i,
        {
            proof {
                assert(f.take(i + 1).drop_last() =~= f.take(i as int));
            }
            if same_text(self.fields[i].tag.as_str(), tag) {
                let ghost before = v@;
                let x = &self.fields[i];
                v.push(x);
                proof {
                    assert(v@.map_values(|f: &Field| f.view()) =~= before.map_values(|f: &Field| f.view()).push(x.view()));
                }
            }
            i = i + 1;
        }
        proof {
            assert(f.take(i as int) =~= f);
        }
        v
    }

    /// The first field with this tag that has the given subfield.
    pub fn first_with(&self, tag: &str, code: char) -> (r: Option<&Field>)
        ensures
            match r {
                Some(field) => exists|k: int| first_with_spec(self.view().fields, tag@, code, 0) == Some(k) && self.view().fields[k] == field.view(),
                None => first_with_spec(self.view().fields, tag@, code, 0) is None,
            },
    {
        let ghost f = self.view().fields;
        let mut i: usize = 0;
        while i < self.fields.len()
            invariant
                i <= self.fields.len(),
                f == field_views(self.fields@),
                first_with_spec(f, tag@, code, 0) == first_with_spec(f, tag@, code, i as int),
            decreases self.fields.len() - i,
        {
            if same_text(self.fields[i].tag.as_str(), tag) && self.fields[i].sub(code).is_some() {
                return Some(&self.fields[i]);
            }
            i = i + 1;
        }
        None
    }
}

/// Whether a character is dropped from MARC text.
pub open spec fn dropped(c: char) -> bool {
    c == '\u{98}' || c == '\u{9c}' || c == '\u{ad}'
}

/// LF and TAB read as spaces.
pub open spec fn as_space(c: char) -> char {
    if c == '\n' || c == '\t' {
        ' '
    } else {
        c
    }
}

/// A MARC text value cleaned: the sort characters and the soft hyphen dropped, LF and
/// TAB folded into spaces, runs of spaces collapsed to one.
pub open spec fn clean_spec(s: Seq<char>) -> Seq<char>
    decreases s.len(),
{
    if s.len() == 0 {
        s
    } else {
        let before = clean_spec(s.drop_last());
        let c = as_space(s.last());
        if dropped(s.last()) {
            before
        } else if c == ' ' && before.len() > 0 && before.last() == ' ' {
            before
        } else {
            before.push(c)
        }
    }
}

/// Clean a MARC text value: drop U+0098, U+009C and U+00AD, fold LF and TAB into
/// spaces, collapse runs of spaces. Bidirectional marks are preserved.
pub fn clean(raw: &str) -> (s: String)
    ensures
        s@ == clean_spec(raw@),
{
    let c = chars_of(raw);
    let mut out: Vec<char> = Vec::new();
    let mut i: usize = 0;
    while i < c.len()
        invariant
            i <= c.len(),
            c@ == raw@,
            out@ == clean_spec(raw@.take(i as int)),
        decreases c.len() - i,
    {
        proof {
            assert(raw@.take(i + 1).drop_last() =~= raw@.take(i as int));
        }
        let x = c[i];
        if !(x == '\u{98}' || x == '\u{9c}' || x == '\u{ad}') {
            let y = if x == '\n' || x == '\t' { ' ' } else { x };
            if !(y == ' ' && out.len() > 0 && out[out.len() - 1] == ' ') {
                out.push(y);
            }
        }
        i = i + 1;
    }
    proof {
        assert(raw@.take(i as int) =~= raw@);
    }
    string_of(&out)
}

/// The MARCXML namespace.
pub open spec fn marc_ns() -> Seq<Seq<char>> {
    seq!["http://www.loc.gov/MARC21/slim"@]
}

fn marc_namespaces() -> (v: Vec<&'static str>)
    ensures
        str_views(v@) == marc_ns(),
{
    let v = vec!["http://www.loc.gov/MARC21/slim"];
    proof {
        assert(str_views(v@) =~= marc_ns());
    }
    v
}

/// The first character of an attribute, or a space when it is absent or empty.
pub open spec fn first_char_or_space(a: Option<Seq<char>>) -> char {
    match a {
        Some(v) => if v.len() > 0 { v[0] } else { ' ' },
        None => ' ',
    }
}

/// An attribute's value, or nothing.
pub open spec fn or_empty(a: Option<Seq<char>>) -> Seq<char> {
    match a {
        Some(v) => v,
        None => Seq::empty(),
    }
}

/// The subfields among the children of `d` from index `k` on.
pub open spec fn subfields_from(n: Seq<XmlNodeView>, d: int, k: int) -> Seq<(char, Seq<char>)>
    decreases n.len() - k,
{
    if k < 0 || k >= n.len() {
        Seq::empty()
    } else if n[k].parent == Some(d as nat) && is_el(n[k], marc_ns(), "subfield"@) {
        seq![(first_char_or_space(attribute_spec(n[k], "code"@)), clean_spec(text_of_spec(n, k)))]
            + subfields_from(n, d, k + 1)
    } else {
        subfields_from(n, d, k + 1)
    }
}

/// The control fields among the children of `r` from index `k` on.
pub open spec fn controls_from(n: Seq<XmlNodeView>, r: int, k: int) -> Seq<(Seq<char>, Seq<char>)>
    decreases n.len() - k,
{
    if k < 0 || k >= n.len() {
        Seq::empty()
    } else if n[k].parent == Some(r as nat) && is_el(n[k], marc_ns(), "controlfield"@) {
        seq![(or_empty(attribute_spec(n[k], "tag"@)), clean_spec(text_of_spec(n, k)))] + controls_from(n, r, k + 1)
    } else {
        controls_from(n, r, k + 1)
    }
}

/// The data fields among the children of `r` from index `k` on, `880` left out.
pub open spec fn fields_from(n: Seq<XmlNodeView>, r: int, k: int) -> Seq<FieldView>
    decreases n.len() - k,
{
    if k < 0 || k >= n.len() {
        Seq::empty()
    } else if n[k].parent == Some(r as nat) && is_el(n[k], marc_ns(), "datafield"@) && or_empty(
        attribute_spec(n[k], "tag"@),
    ) != "880"@ {
        seq![FieldView {
            tag: or_empty(attribute_spec(n[k], "tag"@)),
            ind1: first_char_or_space(attribute_spec(n[k], "ind1"@)),
            ind2: first_char_or_space(attribute_spec(n[k], "ind2"@)),
            subfields: subfields_from(n, k, k + 1),
        }] + fields_from(n, r, k + 1)
    } else {
        fields_from(n, r, k + 1)
    }
}

/// What a MARCXML `<record>` element is, given what the XML parser made of it.
pub open spec fn marc_spec(xml: Seq<char>, parsed: Result<Seq<XmlNodeView>, Seq<char>>) -> Result<MarcView, UnexpectedView> {
    match parsed {
        Err(reason) => Err(UnexpectedView::NotXml { context: "MARC record ("@ + reason + ")"@, snippet: snippet_spec(xml) }),
        Ok(n) => if !tree_shaped(n) || n.len() < 2 || n[1].parent != Some(0nat) || !is_el(n[1], marc_ns(), "record"@) {
            Err(UnexpectedView::NotXml { context: "MARC record (no <record> element at the root)"@, snippet: snippet_spec(xml) })
        } else {
            Ok(MarcView {
                leader: match child_text_spec(n, 1, marc_ns(), "leader"@) {
                    Some(l) => l,
                    None => Seq::empty(),
                },
                controls: controls_from(n, 1, 2),
                fields: fields_from(n, 1, 2),
            })
        },
    }
}

impl MarcRecord {
    /// Parse one `<record>` element: its leader, its control fields and its data fields
    /// without `880`, every text value cleaned.
    pub fn parse(xml: &str) -> (r: Result<MarcRecord, Error>)
        ensures
            match (r, marc_spec(xml@, xml_nodes(xml@))) {
                (Ok(m), Ok(v)) => m.view() == v,
                (Err(Error::Unexpected(e)), Err(v)) => e@ == v,
                _ => false,
            },
    {
        let parsed = read_xml(xml);
        let nodes = match parsed {
            Err(reason) => {
                let parts = vec!["MARC record (", reason.as_str(), ")"];
                proof {
                    assert(views(parts@) =~= seq!["MARC record ("@, reason@, ")"@]);
                    reveal_with_fuel(flatten, 4);
                }
                return Err(Error::Unexpected(UnexpectedError::NotXml { context: cat(parts), snippet: snippet(xml) }));
            },
            Ok(nodes) => nodes,
        };
        let ghost n = node_views(nodes@);
        let marc = marc_namespaces();
        if !is_tree(&nodes) || nodes.len() < 2 || nodes[1].parent != Some(0) || !is_element(&nodes[1], &marc, "record") {
            proof {
                if nodes.len() >= 2 {
                    assert(n[1] == nodes@[1].view());
                }
            }
            return Err(Error::Unexpected(UnexpectedError::NotXml {
                context: owned("MARC record (no <record> element at the root)"),
                snippet: snippet(xml),
            }));
        }
        let leader = match child_text(&nodes, 1, &marc, "leader") {
            Some(l) => l,
            None => String::new(),
        };
        let controls = controls(&nodes, &marc);
        let fields = fields(&nodes, &marc);
        Ok(MarcRecord { leader, controls, fields })
    }
}

/// The control fields of the record element.
fn controls(nodes: &Vec<XmlNode>, marc: &Vec<&str>) -> (v: Vec<(String, String)>)
    requires
        tree_shaped(node_views(nodes@)),
        nodes.len() >= 2,
        str_views(marc@) == marc_ns(),
    ensures
        pair_views(v@) == controls_from(node_views(nodes@), 1, 2),
{
    let ghost n = node_views(nodes@);
    let mut v: Vec<(String, String)> = Vec::new();
    let mut k: usize = 2;
    proof {
        assert(Seq::<(Seq<char>, Seq<char>)>::empty() + controls_from(n, 1, 2) =~= controls_from(n, 1, 2));
    }
    while k < nodes.len()
        invariant
            2 <= k <= nodes.len(),
            n == node_views(nodes@),
            tree_shaped(n),
            str_views(marc@) == marc_ns(),
            controls_from(n, 1, 2) == pair_views(v@) + controls_from(n, 1, k as int),
        decreases nodes.len() - k,
    {
        proof {
            assert(n[k as int] == nodes@[k as int].view());
        }
        if nodes[k].parent == Some(1) && is_element(&nodes[k], marc, "controlfield") {
            let tag = match attribute(&nodes[k], "tag") {
                Some(t) => t,
                None => String::new(),
            };
            let text = text_of(nodes, k);
            let value = clean(text.as_str());
            let ghost before = v@;
            v.push((tag, value));
            proof {
                assert(pair_views(v@) =~= pair_views(before).push((tag@, value@)));
                assert(pair_views(before) + controls_from(n, 1, k as int) =~= pair_views(v@) + controls_from(n, 1, k + 1));
            }
        }
        k = k + 1;
    }
    proof {
        assert(pair_views(v@) + Seq::<(Seq<char>, Seq<char>)>::empty() =~= pair_views(v@));
    }
    v
}

/// The first character of an attribute, or a space.
fn first_char(a: Option<String>) -> (c: char)
    ensures
        c == first_char_or_space(match a {
            Some(v) => Some(v@),
            None => None,
        }),
{
    match a {
        Some(v) => {
            let cs = chars_of(v.as_str());
            if cs.len() > 0 {
                cs[0]
            } else {
                ' '
            }
        },
        None => ' ',
    }
}

/// The subfields of data field `d`.
fn subfields(nodes: &Vec<XmlNode>, marc: &Vec<&str>, d: usize) -> (v: Vec<(char, String)>)
    requires
        tree_shaped(node_views(nodes@)),
        d < nodes.len(),
        str_views(marc@) == marc_ns(),
    ensures
        subfield_views(v@) == subfields_from(node_views(nodes@), d as int, d + 1),
{
    let ghost n = node_views(nodes@);
    let mut v: Vec<(char, String)> = Vec::new();
    let mut k: usize = d + 1;
    proof {
        assert(Seq::<(char, Seq<char>)>::empty() + subfields_from(n, d as int, d + 1) =~= subfields_from(n, d as int, d + 1));
    }
    while k < nodes.len()
        invariant
            d < k <= nodes.len(),
            n == node_views(nodes@),
            tree_shaped(n),
            str_views(marc@) == marc_ns(),
            subfields_from(n, d as int, d + 1) == subfield_views(v@) + subfields_from(n, d as int, k as int),
        decreases nodes.len() - k,
    {
        proof {
            assert(n[k as int] == nodes@[k as int].view());
        }
        if nodes[k].parent == Some(d) && is_element(&nodes[k], marc, "subfield") {
            let a = attribute(&nodes[k], "code");
            let code = first_char(a);
            let text = text_of(nodes, k);
            let value = clean(text.as_str());
            let ghost before = v@;
            v.push((code, value));
            proof {
                assert(subfield_views(v@) =~= subfield_views(before).push((code, value@)));
                assert(subfield_views(before) + subfields_from(n, d as int, k as int) =~= subfield_views(v@) + subfields_from(n, d as int, k + 1));
            }
        }
        k = k + 1;
    }
    proof {
        assert(subfield_views(v@) + Seq::<(char, Seq<char>)>::empty() =~= subfield_views(v@));
    }
    v
}

/// The data fields of the record element, `880` left out.
fn fields(nodes: &Vec<XmlNode>, marc: &Vec<&str>) -> (v: Vec<Field>)
    requires
        tree_shaped(node_views(nodes@)),
        nodes.len() >= 2,
        str_views(marc@) == marc_ns(),
    ensures
        field_views(v@) == fields_from(node_views(nodes@), 1, 2),
{
    let ghost n = node_views(nodes@);
    let mut v: Vec<Field> = Vec::new();
    let mut k: usize = 2;
    proof {
        assert(Seq::<FieldView>::empty() + fields_from(n, 1, 2) =~= fields_from(n, 1, 2));
    }
    while k < nodes.len()
        invariant
            2 <= k <= nodes.len(),
            n == node_views(nodes@),
            tree_shaped(n),
            str_views(marc@) == marc_ns(),
            fields_from(n, 1, 2) == field_views(v@) + fields_from(n, 1, k as int),
        decreases nodes.len() - k,
    {
        proof {
            assert(n[k as int] == nodes@[k as int].view());
        }
        if nodes[k].parent == Some(1) && is_element(&nodes[k], marc, "datafield") {
            let tag = match attribute(&nodes[k], "tag") {
                Some(t) => t,
                None => String::new(),
            };
            if !same_text(tag.as_str(), "880") {
                let ind1 = first_char(attribute(&nodes[k], "ind1"));
                let ind2 = first_char(attribute(&nodes[k], "ind2"));
                let subs = subfields(nodes, marc, k);
                let field = Field { tag, ind1, ind2, subfields: subs };
                let ghost before = v@;
                v.push(field);
                proof {
                    assert(field_views(v@) =~= field_views(before).push(field.view()));
                    assert(field_views(before) + fields_from(n, 1, k as int) =~= field_views(v@) + fields_from(n, 1, k + 1));
                }
            }
        }
        k = k + 1;
    }
    proof {
        assert(field_views(v@) + Seq::<FieldView>::empty() =~= field_views(v@));
    }
    v
}

/// Whether a field has the tag and the subfield code.
pub open spec fn tagged_with(f: FieldView, tag: Seq<char>, code: char) -> bool {
    f.tag == tag && first_sub(f.subfields, code) is Some
}

/// `first_with` finds the first field with the tag that has the subfield: a field
/// with the tag but without the subfield is passed over for a later one that has it,
/// and nothing is found only where no field has both.
pub proof fn law_first_with_is_the_first_tagged_field_with_the_subfield(f: Seq<FieldView>, tag: Seq<char>, code: char)
    ensures
        match first_with_spec(f, tag, code, 0) {
            Some(k) => 0 <= k < f.len() && tagged_with(f[k], tag, code) && forall|j: int| 0 <= j < k ==> !tagged_with(#[trigger] f[j], tag, code),
            None => forall|j: int| 0 <= j < f.len() ==> !tagged_with(#[trigger] f[j], tag, code),
        },
{
    lemma_first_with_from(f, tag, code, 0);
}

/// `first_with_spec` from a start position is the first match at or after it.
proof fn lemma_first_with_from(f: Seq<FieldView>, tag: Seq<char>, code: char, from: int)
    requires
        0 <= from,
    ensures
        match first_with_spec(f, tag, code, from) {
            Some(k) => from <= k < f.len() && tagged_with(f[k], tag, code) && forall|j: int| from <= j < k ==> !tagged_with(#[trigger] f[j], tag, code),
            None => forall|j: int| from <= j < f.len() ==> !tagged_with(#[trigger] f[j], tag, code),
        },
    decreases f.len() - from,
{
    if from < f.len() && !tagged_with(f[from], tag, code) {
        lemma_first_with_from(f, tag, code, from + 1);
    }
}

/// The first subfield of a list with a last one added.
proof fn lemma_first_sub_push(s: Seq<(char, Seq<char>)>, code: char)
    requires
        s.len() > 0,
    ensures
        first_sub(s, code) == match first_sub(s.drop_last(), code) {
            Some(v) => Some(v),
            None => if s.last().0 == code {
                Some(s.last().1)
            } else {
                None::<Seq<char>>
            },
        },
    decreases s.len(),
{
    reveal_with_fuel(first_sub, 2);
    if s.len() == 1 {
        assert(s.drop_first().len() == 0);
        assert(first_sub(s.drop_first(), code) is None);
        assert(first_sub(s.drop_last(), code) is None);
        assert(s.drop_last().len() == 0);
        assert(s.last() == s[0]);
    } else {
        assert(s.drop_last()[0] == s[0]);
        if s[0].0 == code {
            assert(first_sub(s.drop_last(), code) == Some(s[0].1));
        } else {
            assert(first_sub(s.drop_last(), code) == first_sub(s.drop_last().drop_first(), code));
            lemma_first_sub_push(s.drop_first(), code);
            assert(s.drop_first().drop_last() =~= s.drop_last().drop_first());
            assert(s.drop_first().last() == s.last());
        }
    }
}

/// `sub` is the first of `subs`: the first value of a subfield with exactly this code.
pub proof fn law_sub_is_the_first_of_subs(s: Seq<(char, Seq<char>)>, code: char)
    ensures
        first_sub(s, code) == if all_subs(s, code).len() > 0 {
            Some(all_subs(s, code)[0])
        } else {
            None::<Seq<char>>
        },
    decreases s.len(),
{
    if s.len() > 0 {
        law_sub_is_the_first_of_subs(s.drop_last(), code);
        lemma_first_sub_push(s, code);
        let before = all_subs(s.drop_last(), code);
        if s.last().0 == code && before.len() > 0 {
            assert(all_subs(s, code)[0] == before[0]);
        }
    }
}

/// Whether a text has the shape `clean` gives: none of the dropped characters, no LF or
/// TAB, and no two spaces in a row.
pub open spec fn cleaned(t: Seq<char>) -> bool {
    &&& forall|i: int| 0 <= i < t.len() ==> !dropped(#[trigger] t[i]) && as_space(t[i]) == t[i]
    &&& forall|i: int| 0 < i < t.len() ==> !(#[trigger] t[i] == ' ' && t[i - 1] == ' ')
}

/// What `clean` gives has the cleaned shape.
pub proof fn law_clean_leaves_no_dropped_character_and_no_double_space(s: Seq<char>)
    ensures
        cleaned(clean_spec(s)),
    decreases s.len(),
{
    if s.len() > 0 {
        law_clean_leaves_no_dropped_character_and_no_double_space(s.drop_last());
        let before = clean_spec(s.drop_last());
        let out = clean_spec(s);
        if !dropped(s.last()) && !(as_space(s.last()) == ' ' && before.len() > 0 && before.last() == ' ') {
            assert(out == before.push(as_space(s.last())));
            assert forall|i: int| 0 <= i < out.len() implies !dropped(#[trigger] out[i]) && as_space(out[i]) == out[i] by {
                if i < before.len() {
                    assert(out[i] == before[i]);
                }
            }
            assert forall|i: int| 0 < i < out.len() implies !(#[trigger] out[i] == ' ' && out[i - 1] == ' ') by {
                if i < before.len() {
                    assert(out[i] == before[i]);
                    assert(out[i - 1] == before[i - 1]);
                }
            }
        }
    }
}

/// A cleaned text is its own clean.
proof fn lemma_clean_fixes_cleaned(t: Seq<char>)
    requires
        cleaned(t),
    ensures
        clean_spec(t) == t,
    decreases t.len(),
{
    if t.len() > 0 {
        let u = t.drop_last();
        assert(cleaned(u)) by {
            assert forall|i: int| 0 <= i < u.len() implies !dropped(#[trigger] u[i]) && as_space(u[i]) == u[i] by {
                assert(u[i] == t[i]);
            }
            assert forall|i: int| 0 < i < u.len() implies !(#[trigger] u[i] == ' ' && u[i - 1] == ' ') by {
                assert(u[i] == t[i]);
                assert(u[i - 1] == t[i - 1]);
            }
        }
        lemma_clean_fixes_cleaned(u);
        let k = t.len() - 1;
        assert(!dropped(t[k]) && as_space(t[k]) == t[k]);
        if t.len() > 1 {
            assert(!(t[k] == ' ' && t[k - 1] == ' '));
        }
        assert(u.push(t.last()) =~= t);
    }
}

/// `clean` is idempotent: a cleaned value comes out of `clean` unchanged, so the values
/// of a parsed MARC record are fixed points of it.
pub proof fn law_clean_is_idempotent(s: Seq<char>)
    ensures
        clean_spec(clean_spec(s)) == clean_spec(s),
{
    law_clean_leaves_no_dropped_character_and_no_double_space(s);
    lemma_clean_fixes_cleaned(clean_spec(s));
}

/// Whether a subfield is what some subfield element under `d` makes: its code exactly the
/// first character of the element's `code`, case and all, its value the element's text
/// cleaned.
pub open spec fn from_subfield_element(n: Seq<XmlNodeView>, d: int, s: (char, Seq<char>)) -> bool {
    exists|k: int|
        0 <= k < n.len() && #[trigger] n[k].parent == Some(d as nat) && is_el(n[k], marc_ns(), "subfield"@) && s.0
            == first_char_or_space(attribute_spec(n[k], "code"@)) && s.1 == clean_spec(text_of_spec(n, k))
}

/// Every subfield read under `d` is a cleaned value with its element's own code.
proof fn lemma_subfields_kept(n: Seq<XmlNodeView>, d: int, k: int)
    ensures
        forall|j: int| 0 <= j < subfields_from(n, d, k).len() ==> clean_spec(#[trigger] subfields_from(n, d, k)[j].1)
            == subfields_from(n, d, k)[j].1 && from_subfield_element(n, d, subfields_from(n, d, k)[j]),
    decreases n.len() - k,
{
    if 0 <= k < n.len() {
        lemma_subfields_kept(n, d, k + 1);
        let rest = subfields_from(n, d, k + 1);
        let all = subfields_from(n, d, k);
        if n[k].parent == Some(d as nat) && is_el(n[k], marc_ns(), "subfield"@) {
            let x = (first_char_or_space(attribute_spec(n[k], "code"@)), clean_spec(text_of_spec(n, k)));
            assert(all == seq![x] + rest);
            law_clean_is_idempotent(text_of_spec(n, k));
            assert forall|j: int| 0 <= j < all.len() implies clean_spec(#[trigger] all[j].1) == all[j].1 && from_subfield_element(
                n,
                d,
                all[j],
            ) by {
                if j == 0 {
                    assert(all[0] == x);
                    assert(n[k].parent == Some(d as nat));
                } else {
                    assert(all[j] == rest[j - 1]);
                }
            }
        }
    }
}

/// Every control field read under `r` has a cleaned value.
proof fn lemma_controls_cleaned(n: Seq<XmlNodeView>, r: int, k: int)
    ensures
        forall|j: int| 0 <= j < controls_from(n, r, k).len() ==> clean_spec(#[trigger] controls_from(n, r, k)[j].1)
            == controls_from(n, r, k)[j].1,
    decreases n.len() - k,
{
    if 0 <= k < n.len() {
        lemma_controls_cleaned(n, r, k + 1);
        let rest = controls_from(n, r, k + 1);
        let all = controls_from(n, r, k);
        if n[k].parent == Some(r as nat) && is_el(n[k], marc_ns(), "controlfield"@) {
            law_clean_is_idempotent(text_of_spec(n, k));
            assert forall|j: int| 0 <= j < all.len() implies clean_spec(#[trigger] all[j].1) == all[j].1 by {
                if j > 0 {
                    assert(all[j] == rest[j - 1]);
                }
            }
        }
    }
}

/// Whether a data field is as a parse keeps it: not an `880`, and read from a data field
/// element with its tag, every subfield value cleaned and every code that element's
/// subfield's own.
pub open spec fn kept_field(n: Seq<XmlNodeView>, f: FieldView) -> bool {
    &&& f.tag != "880"@
    &&& exists|d: int|
        0 <= d < n.len() && #[trigger] is_el(n[d], marc_ns(), "datafield"@) && or_empty(attribute_spec(n[d], "tag"@)) == f.tag
            && forall|j: int|
            0 <= j < f.subfields.len() ==> clean_spec(#[trigger] f.subfields[j].1) == f.subfields[j].1 && from_subfield_element(
                n,
                d,
                f.subfields[j],
            )
}

/// Every data field read under `r` is kept as a parse keeps it.
proof fn lemma_fields_kept(n: Seq<XmlNodeView>, r: int, k: int)
    ensures
        forall|i: int| 0 <= i < fields_from(n, r, k).len() ==> kept_field(n, #[trigger] fields_from(n, r, k)[i]),
    decreases n.len() - k,
{
    if 0 <= k < n.len() {
        lemma_fields_kept(n, r, k + 1);
        let rest = fields_from(n, r, k + 1);
        let all = fields_from(n, r, k);
        if n[k].parent == Some(r as nat) && is_el(n[k], marc_ns(), "datafield"@) && or_empty(attribute_spec(n[k], "tag"@)) != "880"@ {
            lemma_subfields_kept(n, k, k + 1);
            assert forall|i: int| 0 <= i < all.len() implies kept_field(n, #[trigger] all[i]) by {
                if i == 0 {
                    let f = all[0];
                    assert(f.subfields == subfields_from(n, k, k + 1));
                    assert(is_el(n[k], marc_ns(), "datafield"@));
                } else {
                    assert(all[i] == rest[i - 1]);
                }
            }
        }
    }
}

/// A parsed MARC record holds no `880` field, its every control and subfield value is
/// one that `clean` leaves as it is, and every subfield code is its element's own,
/// exactly as written.
pub proof fn law_parse_drops_880_and_cleans_every_value(xml: Seq<char>, n: Seq<XmlNodeView>, m: MarcView)
    requires
        marc_spec(xml, Ok::<Seq<XmlNodeView>, Seq<char>>(n)) == Ok::<MarcView, UnexpectedView>(m),
    ensures
        forall|i: int| 0 <= i < m.fields.len() ==> kept_field(n, #[trigger] m.fields[i]),
        forall|j: int| 0 <= j < m.controls.len() ==> clean_spec(#[trigger] m.controls[j].1) == m.controls[j].1,
{
    lemma_fields_kept(n, 1, 2);
    lemma_controls_cleaned(n, 1, 2);
}

/// `clean` keeps the bidirectional marks.
pub proof fn law_clean_keeps_bidirectional_marks(s: Seq<char>, m: char)
    requires
        m == '\u{200e}' || m == '\u{200f}',
        s.contains(m),
    ensures
        clean_spec(s).contains(m),
    decreases s.len(),
{
    let before = clean_spec(s.drop_last());
    if s.last() == m {
        assert(clean_spec(s) == before.push(m));
        assert(clean_spec(s)[before.len() as int] == m);
    } else {
        let i = choose|i: int| 0 <= i < s.len() && s[i] == m;
        assert(s.drop_last()[i] == m);
        law_clean_keeps_bidirectional_marks(s.drop_last(), m);
        let j = choose|j: int| 0 <= j < before.len() && before[j] == m;
        if clean_spec(s) != before {
            assert(clean_spec(s)[j] == m);
        }
    }
}

} // verus!
