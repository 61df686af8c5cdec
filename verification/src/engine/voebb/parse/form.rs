//! The aDISWeb form state: the action path, the nine hidden fields and the buttons.
//!
//! Every page of voebb.de is one `<form name="Form0">`, and every request replays that
//! form. Two of its hidden fields are single-use: `identity` changes with every response
//! and `requestCount` counts up, so the state is read out of the page that was just
//! received and never written by hand.
//!
//! A button's `focus` value is its `data-fld`, and that differs from page to page, and
//! field names are not stable across pages either: `$Button$6` is *Suchen* on the
//! advanced form and *Verfasser* on the result list. Look a button up by label.
use vstd::prelude::*;
use crate::engine::kobv::parse::sru::{parse_number, parse_unsigned};
use crate::error::{Error, UnexpectedError, UnexpectedView};
use crate::html::{
    attr, end_of, first, html_nodes, html_views, positions, read_html, select, selected, subtree_end, HtmlNode,
    HtmlNodeView, Simple, Test,
};
use crate::text::{cat, flatten, owned, same_text, trim, trim_spec, views};
use crate::xml::first_attribute;

verus! {

/// The nine hidden fields every aDISWeb page carries, in document order. All nine are
/// required: carrying on with eight produces a `/noaccess` page one request later.
pub open spec fn hidden_names() -> Seq<Seq<char>> {
    seq![
        "identity"@,
        "keyCode"@,
        "focus"@,
        "stz"@,
        "source"@,
        "selected"@,
        "requestCount"@,
        "scriptEnabled"@,
        "scrollPos"@,
    ]
}

/// Single-use session token; changes with every response.
pub const IDENTITY: &'static str = "identity";
/// Step counter; a repeated value is rejected with `/noaccess`.
pub const REQUEST_COUNT: &'static str = "requestCount";
/// Set to `$B` when a button was pressed.
pub const SOURCE: &'static str = "source";
/// Set to the pressed button's `data-fld`.
pub const FOCUS: &'static str = "focus";
/// The value `source` carries when a button was pressed.
pub const SOURCE_BUTTON: &'static str = "$B";
/// The value a pressed button sends for itself.
pub const PRESSED: &'static str = "pressed";
/// The single search field on the entry page and on the result page.
pub const SEARCH_TERMS: &'static str = "$Autosuggest";
/// The search scope, i.e. which catalogue is searched.
pub const SEARCH_SCOPE: &'static str = "$Select";
/// The only scope this tool sends: the network's physical and electronic holdings.
pub const SCOPE_HOLDINGS: &'static str = "Bibliotheksbestand";
/// One of these per ticked facet box, carrying the checkbox element's id.
pub const FACET_CHECKBOX: &'static str = "$CbTree_text";
/// The paging control: one field whose value is the button index.
pub const TOOLBAR: &'static str = "$Toolbar";

/// One submit button of the form.
#[derive(Debug, Clone, PartialEq, Eq)]
pub struct Button {
    /// The field name to send, e.g. `$Button$2`; page-dependent.
    pub name: String,
    /// The button's caption, e.g. `Filtern`.
    pub label: String,
    /// The value the `focus` field must carry when this button is pressed: the button's
    /// `data-fld`.
    pub focus: String,
}

/// A button as plain values.
pub struct ButtonView {
    pub name: Seq<char>,
    pub label: Seq<char>,
    pub focus: Seq<char>,
}

impl Button {
    /// The button as plain values.
    pub open spec fn view(&self) -> ButtonView {
        ButtonView { name: self.name@, label: self.label@, focus: self.focus@ }
    }
}

/// The views of a list of buttons.
pub open spec fn button_views(v: Seq<Button>) -> Seq<ButtonView> {
    v.map_values(|b: Button| b.view())
}

/// The views of field pairs.
pub open spec fn field_views(v: Seq<(String, String)>) -> Seq<(Seq<char>, Seq<char>)> {
    v.map_values(|p: (String, String)| (p.0@, p.1@))
}

/// The state of one page's form, ready to be replayed.
#[derive(Debug, Clone, PartialEq, Eq)]
pub struct FormState {
    /// The form's `action`, an absolute path carrying the session id.
    pub action: String,
    /// The hidden fields, name and value, in document order.
    pub fields: Vec<(String, String)>,
    /// The submit buttons the page offers.
    pub buttons: Vec<Button>,
}

/// The value of the first field with this name.
pub open spec fn field_value(fields: Seq<(Seq<char>, Seq<char>)>, name: Seq<char>) -> Option<Seq<char>>
    decreases fields.len(),
{
    if fields.len() == 0 {
        None
    } else if fields[0].0 == name {
        Some(fields[0].1)
    } else {
        field_value(fields.drop_first(), name)
    }
}

/// A field value read as `str::trim` then `str::parse::<u32>`.
pub open spec fn count_of(v: Option<Seq<char>>) -> Option<nat> {
    match v {
        Some(t) => match parse_unsigned(trim_spec(t)) {
            Some(n) => if n <= u32::MAX { Some(n) } else { None },
            None => None,
        },
        None => None,
    }
}

/// Whether a button has this name, or this caption when `by_label`.
pub open spec fn button_is(b: ButtonView, text: Seq<char>, by_label: bool) -> bool {
    if by_label {
        b.label == text
    } else {
        b.name == text
    }
}

/// The index of the first button with this name, or this caption when `by_label`.
pub open spec fn first_button(b: Seq<ButtonView>, text: Seq<char>, by_label: bool) -> Option<int> {
    if exists|i: int| 0 <= i < b.len() && button_is(b[i], text, by_label) {
        Some(
            choose|i: int|
                0 <= i < b.len() && button_is(b[i], text, by_label) && forall|j: int| 0 <= j < i ==> !button_is(#[trigger] b[j], text, by_label),
        )
    } else {
        None
    }
}

/// The index of the last button with this caption.
pub open spec fn last_labelled(b: Seq<ButtonView>, label: Seq<char>) -> Option<int> {
    if exists|i: int| 0 <= i < b.len() && b[i].label == label {
        Some(choose|i: int| 0 <= i < b.len() && b[i].label == label && forall|j: int| i < j < b.len() ==> (#[trigger] b[j]).label != label)
    } else {
        None
    }
}

/// The value of the first field with this name.
pub fn find_field<'a>(fields: &'a Vec<(String, String)>, name: &str) -> (r: Option<&'a str>)
    ensures
        match r {
            Some(v) => field_value(field_views(fields@), name@) == Some(v@),
            None => field_value(field_views(fields@), name@) is None,
        },
{
    let ghost f = field_views(fields@);
    let mut i: usize = 0;
    proof {
        assert(f.skip(0) =~= f);
    }
    while i < fields.len()
        invariant
            i <= fields.len(),
            f == field_views(fields@),
            field_value(f, name@) == field_value(f.skip(i as int), name@),
        decreases fields.len() - i,
    {
        proof {
            assert(f.skip(i as int)[0] == f[i as int]);
            assert(f.skip(i as int).drop_first() =~= f.skip(i + 1));
        }
        if same_text(fields[i].0.as_str(), name) {
            return Some(fields[i].1.as_str());
        }
        i = i + 1;
    }
    None
}

/// A field value read as a count.
pub fn count_in(fields: &Vec<(String, String)>) -> (r: Option<u32>)
    ensures
        match r {
            Some(n) => count_of(field_value(field_views(fields@), "requestCount"@)) == Some(n as nat),
            None => count_of(field_value(field_views(fields@), "requestCount"@)) is None,
        },
{
    let v = find_field(fields, REQUEST_COUNT)?;
    let t = trim(v);
    match parse_number(t.as_str(), 0xffff_ffff) {
        Some(n) => Some(n as u32),
        None => None,
    }
}

/// The first button whose name (`by_label` false) or caption (`by_label` true) is
/// `text`.
pub fn first_button_with<'a>(buttons: &'a Vec<Button>, text: &str, by_label: bool) -> (r: Option<&'a Button>)
    ensures
        match r {
            Some(b) => first_button(button_views(buttons@), text@, by_label) matches Some(i) && buttons@[i] == *b,
            None => first_button(button_views(buttons@), text@, by_label) is None,
        },
{
    let ghost bv = button_views(buttons@);
    let mut i: usize = 0;
    while i < buttons.len()
        invariant
            i <= buttons.len(),
            bv == button_views(buttons@),
            forall|j: int| 0 <= j < i ==> !button_is(#[trigger] bv[j], text@, by_label),
        decreases buttons.len() - i,
    {
        proof {
            assert(bv[i as int] == buttons@[i as int].view());
        }
        let hit = if by_label {
            same_text(buttons[i].label.as_str(), text)
        } else {
            same_text(buttons[i].name.as_str(), text)
        };
        if hit {
            proof {
                assert(button_is(bv[i as int], text@, by_label));
                let w = choose|w: int|
                    0 <= w < bv.len() && button_is(bv[w], text@, by_label) && forall|j: int| 0 <= j < w ==> !button_is(#[trigger] bv[j], text@, by_label);
                if w < i {
                    assert(!button_is(bv[w], text@, by_label));
                } else if w > i {
                    assert(!button_is(bv[i as int], text@, by_label));
                }
            }
            return Some(&buttons[i]);
        }
        i = i + 1;
    }
    None
}

/// The last button with this caption.
pub fn last_button_with<'a>(buttons: &'a Vec<Button>, label: &str) -> (r: Option<&'a Button>)
    ensures
        match r {
            Some(b) => last_labelled(button_views(buttons@), label@) matches Some(i) && buttons@[i] == *b,
            None => last_labelled(button_views(buttons@), label@) is None,
        },
{
    let ghost bv = button_views(buttons@);
    let mut i: usize = buttons.len();
    while i > 0
        invariant
            i <= buttons.len(),
            bv == button_views(buttons@),
            forall|j: int| i <= j < buttons.len() ==> (#[trigger] bv[j]).label != label@,
        decreases i,
    {
        proof {
            assert(bv[i - 1] == buttons@[i - 1].view());
        }
        if same_text(buttons[i - 1].label.as_str(), label) {
            proof {
                let k = i - 1;
                assert(bv[k].label == label@);
                let w = choose|w: int| 0 <= w < bv.len() && bv[w].label == label@ && forall|j: int| w < j < bv.len() ==> (#[trigger] bv[j]).label != label@;
                if w < k {
                    assert(bv[k].label != label@);
                } else if w > k {
                    assert(bv[w].label != label@);
                }
            }
            return Some(&buttons[i - 1]);
        }
        i = i - 1;
    }
    None
}

impl FormState {
    /// The value of one hidden field.
    pub fn get(&self, name: &str) -> (r: Option<&str>)
        ensures
            match r {
                Some(v) => field_value(field_views(self.fields@), name@) == Some(v@),
                None => field_value(field_views(self.fields@), name@) is None,
            },
    {
        find_field(&self.fields, name)
    }

    /// The page's `requestCount`, when it is a number. `None` rather than an error: the
    /// field's presence is checked when the form is read, and the client replays it
    /// verbatim; this is for the counter-check that the session advanced.
    pub fn request_count(&self) -> (r: Option<u32>)
        ensures
            match r {
                Some(n) => count_of(field_value(field_views(self.fields@), "requestCount"@)) == Some(n as nat),
                None => count_of(field_value(field_views(self.fields@), "requestCount"@)) is None,
            },
    {
        count_in(&self.fields)
    }

    /// A button by field name. Check its label before pressing it: the same name means
    /// different things on different pages.
    pub fn button(&self, name: &str) -> (r: Option<&Button>)
        ensures
            match r {
                Some(b) => first_button(button_views(self.buttons@), name@, false) matches Some(i) && self.buttons@[i] == *b,
                None => first_button(button_views(self.buttons@), name@, false) is None,
            },
    {
        first_button_with(&self.buttons, name, false)
    }

    /// The first button with this caption, in document order: *Filtern* appears twice on
    /// a result page and both do the same thing.
    pub fn button_labelled(&self, label: &str) -> (r: Option<&Button>)
        ensures
            match r {
                Some(b) => first_button(button_views(self.buttons@), label@, true) matches Some(i) && self.buttons@[i] == *b,
                None => first_button(button_views(self.buttons@), label@, true) is None,
            },
    {
        first_button_with(&self.buttons, label, true)
    }
}

/// `form[name="Form0"]`: the one form of every page.
pub open spec fn form_sel() -> Simple {
    Simple { name: "form", test: Test::Is("name", "Form0") }
}

/// `input[type="hidden"]`.
pub open spec fn hidden_sel() -> Simple {
    Simple { name: "input", test: Test::Is("type", "hidden") }
}

/// `input[type="submit"]`.
pub open spec fn submit_sel() -> Simple {
    Simple { name: "input", test: Test::Is("type", "submit") }
}

/// The missing-selector error of a form, naming the step that produced the page.
pub open spec fn form_missing(selector: Seq<char>, step: Seq<char>) -> UnexpectedView {
    UnexpectedView::MissingSelector { selector, document: "voebb.de form ("@ + step + ")"@ }
}

/// The value of an attribute, empty where the element has none.
pub open spec fn attr_or_empty(n: HtmlNodeView, name: Seq<char>) -> Seq<char> {
    match first_attribute(n.attributes, name) {
        Some(v) => v,
        None => seq![],
    }
}

/// The hidden field at node `k`: its name and value; a field without a `value` is
/// present and empty, one without a `name` is no field.
pub open spec fn hidden_spec(ns: Seq<HtmlNodeView>, k: int) -> Option<(Seq<char>, Seq<char>)> {
    match first_attribute(ns[k].attributes, "name"@) {
        Some(n) => Some((n, attr_or_empty(ns[k], "value"@))),
        None => None,
    }
}

/// The hidden fields among the given nodes, in order.
pub open spec fn fields_spec(ns: Seq<HtmlNodeView>, ks: Seq<int>) -> Seq<(Seq<char>, Seq<char>)>
    decreases ks.len(),
{
    if ks.len() == 0 {
        seq![]
    } else {
        let before = fields_spec(ns, ks.drop_last());
        match hidden_spec(ns, ks.last()) {
            Some(f) => before.push(f),
            None => before,
        }
    }
}

/// The submit button at node `k`: its name, its trimmed caption and its `data-fld`; one
/// without a `name` is no button, a missing caption or `data-fld` is empty.
pub open spec fn button_spec(ns: Seq<HtmlNodeView>, k: int) -> Option<ButtonView> {
    match first_attribute(ns[k].attributes, "name"@) {
        Some(n) => Some(
            ButtonView { name: n, label: trim_spec(attr_or_empty(ns[k], "value"@)), focus: attr_or_empty(ns[k], "data-fld"@) },
        ),
        None => None,
    }
}

/// The submit buttons among the given nodes, in order.
pub open spec fn buttons_spec(ns: Seq<HtmlNodeView>, ks: Seq<int>) -> Seq<ButtonView>
    decreases ks.len(),
{
    if ks.len() == 0 {
        seq![]
    } else {
        let before = buttons_spec(ns, ks.drop_last());
        match button_spec(ns, ks.last()) {
            Some(b) => before.push(b),
            None => before,
        }
    }
}

/// The first of the required names that no field carries.
pub open spec fn first_absent(fields: Seq<(Seq<char>, Seq<char>)>, names: Seq<Seq<char>>) -> Option<Seq<char>>
    decreases names.len(),
{
    if names.len() == 0 {
        None
    } else if field_value(fields, names[0]) is None {
        Some(names[0])
    } else {
        first_absent(fields, names.drop_first())
    }
}

/// The form state of a page: action, hidden fields and buttons, or the error that names
/// what is missing: the form, its `action`, or the first of the nine hidden fields it
/// lacks. Never a partial state.
pub open spec fn form_spec(ns: Seq<HtmlNodeView>, step: Seq<char>) -> Result<(Seq<char>, Seq<(Seq<char>, Seq<char>)>, Seq<ButtonView>), UnexpectedView> {
    let forms = selected(ns, 0, ns.len() as int, form_sel(), None);
    if forms.len() == 0 {
        Err(form_missing("form[name=\"Form0\"]"@, step))
    } else {
        let f = forms[0];
        match first_attribute(ns[f].attributes, "action"@) {
            Some(a) => if trim_spec(a).len() == 0 {
                Err(form_missing("form[name=\"Form0\"][action]"@, step))
            } else {
                let end = subtree_end(ns, f);
                let fields = fields_spec(ns, selected(ns, f + 1, end, hidden_sel(), None));
                let buttons = buttons_spec(ns, selected(ns, f + 1, end, submit_sel(), None));
                match first_absent(fields, hidden_names()) {
                    Some(n) => Err(form_missing("input[type=\"hidden\"][name=\""@ + n + "\"]"@, step)),
                    None => Ok((a, fields, buttons)),
                }
            },
            None => Err(form_missing("form[name=\"Form0\"][action]"@, step)),
        }
    }
}

/// The missing-selector error of a form.
fn form_error(selector: &str, step: &str) -> (e: Error)
    ensures
        e matches Error::Unexpected(u) && u@ == form_missing(selector@, step@),
{
    let parts = vec!["voebb.de form (", step, ")"];
    proof {
        reveal_with_fuel(flatten, 4);
        assert(views(parts@) =~= seq!["voebb.de form ("@, step@, ")"@]);
        assert("voebb.de form ("@ + step@ + ")"@ =~= flatten(seq!["voebb.de form ("@, step@, ")"@]));
    }
    Error::Unexpected(UnexpectedError::MissingSelector { selector: owned(selector), document: cat(parts) })
}

/// An attribute's value, empty where the element has none.
fn attr_value(n: &HtmlNode, name: &str) -> (v: String)
    ensures
        v@ == attr_or_empty(n.view(), name@),
{
    match attr(n, name) {
        Some(v) => owned(v),
        None => {
            proof {
                reveal_strlit("");
            }
            owned("")
        },
    }
}

/// Read the form state out of the nodes of a page. `step` names the request that
/// produced the page and goes into the error.
pub fn form_from_nodes(ns: &Vec<HtmlNode>, step: &str) -> (r: Result<FormState, Error>)
    ensures
        match r {
            Ok(f) => form_spec(html_views(ns@), step@) == Ok::<(Seq<char>, Seq<(Seq<char>, Seq<char>)>, Seq<ButtonView>), UnexpectedView>(
                (f.action@, field_views(f.fields@), button_views(f.buttons@)),
            ),
            Err(Error::Unexpected(e)) => form_spec(html_views(ns@), step@) == Err::<(Seq<char>, Seq<(Seq<char>, Seq<char>)>, Seq<ButtonView>), UnexpectedView>(e@),
            Err(_) => false,
        },
{
    let ghost hv = html_views(ns@);
    let f = match first(ns, 0, ns.len(), Simple { name: "form", test: Test::Is("name", "Form0") }) {
        Some(f) => f,
        None => {
            return Err(form_error("form[name=\"Form0\"]", step));
        },
    };
    proof {
        crate::html::lemma_selected_within(hv, 0, ns.len() as int, form_sel(), None);
        assert(hv[f as int] == ns@[f as int].view());
    }
    let action = match attr(&ns[f], "action") {
        Some(a) => a,
        None => {
            return Err(form_error("form[name=\"Form0\"][action]", step));
        },
    };
    if trim(action).as_str().unicode_len() == 0 {
        return Err(form_error("form[name=\"Form0\"][action]", step));
    }
    let end = end_of(ns, f);
    let hs = select(ns, f + 1, end, Simple { name: "input", test: Test::Is("type", "hidden") }, None);
    let ghost hk = positions(hs@);
    let mut fields: Vec<(String, String)> = Vec::new();
    let mut i: usize = 0;
    while i < hs.len()
        invariant
            i <= hs.len(),
            hv == html_views(ns@),
            hk == positions(hs@),
            forall|j: int| 0 <= j < hs@.len() ==> #[trigger] hs@[j] < ns.len(),
            field_views(fields@) == fields_spec(hv, hk.take(i as int)),
        decreases hs.len() - i,
    {
        let k = hs[i];
        proof {
            assert(hk.take(i + 1).drop_last() =~= hk.take(i as int));
            assert(hk.take(i + 1).last() == k as int);
            assert(hv[k as int] == ns@[k as int].view());
        }
        let ghost before = fields@;
        match attr(&ns[k], "name") {
            Some(n) => {
                let v = attr_value(&ns[k], "value");
                fields.push((owned(n), v));
                proof {
                    assert(field_views(fields@) =~= field_views(before).push((n@, v@)));
                }
            },
            None => {},
        }
        i = i + 1;
    }
    proof {
        assert(hk.take(i as int) =~= hk);
    }
    let bs = select(ns, f + 1, end, Simple { name: "input", test: Test::Is("type", "submit") }, None);
    let ghost bk = positions(bs@);
    let mut buttons: Vec<Button> = Vec::new();
    let mut j: usize = 0;
    while j < bs.len()
        invariant
            j <= bs.len(),
            hv == html_views(ns@),
            bk == positions(bs@),
            forall|m: int| 0 <= m < bs@.len() ==> #[trigger] bs@[m] < ns.len(),
            button_views(buttons@) == buttons_spec(hv, bk.take(j as int)),
        decreases bs.len() - j,
    {
        let k = bs[j];
        proof {
            assert(bk.take(j + 1).drop_last() =~= bk.take(j as int));
            assert(bk.take(j + 1).last() == k as int);
            assert(hv[k as int] == ns@[k as int].view());
        }
        let ghost before = buttons@;
        match attr(&ns[k], "name") {
            Some(n) => {
                let label = trim(attr_value(&ns[k], "value").as_str());
                let focus = attr_value(&ns[k], "data-fld");
                let b = Button { name: owned(n), label, focus };
                buttons.push(b);
                proof {
                    assert(button_views(buttons@) =~= button_views(before).push(b.view()));
                }
            },
            None => {},
        }
        j = j + 1;
    }
    proof {
        assert(bk.take(j as int) =~= bk);
    }
    let required = vec![
        "identity",
        "keyCode",
        "focus",
        "stz",
        "source",
        "selected",
        "requestCount",
        "scriptEnabled",
        "scrollPos",
    ];
    proof {
        assert(views(required@) =~= hidden_names());
    }
    let ghost fv = field_views(fields@);
    let ghost outcome = match first_absent(fv, hidden_names()) {
        Some(n) => Err(form_missing("input[type=\"hidden\"][name=\""@ + n + "\"]"@, step@)),
        None => Ok((action@, fv, button_views(buttons@))),
    };
    let mut r: usize = 0;
    proof {
        assert(hidden_names().skip(0) =~= hidden_names());
        assert(form_spec(hv, step@) == outcome);
    }
    while r < required.len()
        invariant
            r <= required.len(),
            views(required@) == hidden_names(),
            fv == field_views(fields@),
            hv == html_views(ns@),
            form_spec(hv, step@) == outcome,
            outcome == match first_absent(fv, hidden_names()) {
                Some(n) => Err(form_missing("input[type=\"hidden\"][name=\""@ + n + "\"]"@, step@)),
                None => Ok((action@, fv, button_views(buttons@))),
            },
            first_absent(fv, hidden_names()) == first_absent(fv, hidden_names().skip(r as int)),
        decreases required.len() - r,
    {
        proof {
            assert(hidden_names().skip(r as int)[0] == required@[r as int]@);
            assert(hidden_names().skip(r as int).drop_first() =~= hidden_names().skip(r + 1));
        }
        if find_field(&fields, required[r]).is_none() {
            let parts = vec!["input[type=\"hidden\"][name=\"", required[r], "\"]"];
            proof {
                reveal_with_fuel(flatten, 4);
                assert(views(parts@) =~= seq!["input[type=\"hidden\"][name=\""@, required@[r as int]@, "\"]"@]);
                assert("input[type=\"hidden\"][name=\""@ + required@[r as int]@ + "\"]"@ =~= flatten(
                    seq!["input[type=\"hidden\"][name=\""@, required@[r as int]@, "\"]"@],
                ));
            }
            let selector = cat(parts);
            proof {
                assert(first_absent(fv, hidden_names()) == Some(required@[r as int]@));
                assert(selector@ == "input[type=\"hidden\"][name=\""@ + required@[r as int]@ + "\"]"@);
            }
            return Err(form_error(selector.as_str(), step));
        }
        r = r + 1;
    }
    proof {
        assert(hidden_names().skip(r as int) =~= Seq::<Seq<char>>::empty());
    }
    Ok(FormState { action: owned(action), fields, buttons })
}

/// Read the form state out of a page.
pub fn parse_form(html: &str, step: &str) -> (r: Result<FormState, Error>)
    ensures
        match r {
            Ok(f) => form_spec(html_nodes(html@), step@) == Ok::<(Seq<char>, Seq<(Seq<char>, Seq<char>)>, Seq<ButtonView>), UnexpectedView>(
                (f.action@, field_views(f.fields@), button_views(f.buttons@)),
            ),
            Err(Error::Unexpected(e)) => form_spec(html_nodes(html@), step@) == Err::<(Seq<char>, Seq<(Seq<char>, Seq<char>)>, Seq<ButtonView>), UnexpectedView>(e@),
            Err(_) => false,
        },
{
    let ns = read_html(html);
    form_from_nodes(&ns, step)
}

} // verus!
