//! The aDISWeb session, as a value.
//!
//! Every request to voebb.de replays the complete form state of the page it came from:
//! the action URL and the nine hidden fields, `identity` and `requestCount` among them.
//! Both are single-use, and getting either wrong produces a `/noaccess` page with status
//! 200. So the session is replaced wholesale after every answer and nothing here
//! increments a counter or reuses a token: the next correct values are always in the
//! page that just arrived.
use vstd::prelude::*;
use super::parse::form::{
    button_views, count_in, count_of, field_value, field_views, first_button, first_button_with,
    last_button_with, last_labelled, Button, ButtonView, FormState,
};
use crate::text::{owned, same_text};

verus! {

/// The form state of the last page received, ready to be replayed.
#[derive(Debug, Clone, PartialEq, Eq)]
pub struct Session {
    /// The form's `action`, an absolute path carrying the session id.
    pub action: String,
    /// The hidden fields of the last response, name and value, in document order.
    pub fields: Vec<(String, String)>,
    /// The submit buttons the last response offered.
    pub buttons: Vec<Button>,
}

/// The views of the extra fields of a request.
pub open spec fn extra_views(v: Seq<(&str, &str)>) -> Seq<(Seq<char>, Seq<char>)> {
    v.map_values(|p: (&str, &str)| (p.0@, p.1@))
}

/// Whether a name is among the extra fields.
pub open spec fn named_in(extra: Seq<(Seq<char>, Seq<char>)>, name: Seq<char>) -> bool {
    exists|i: int| 0 <= i < extra.len() && (#[trigger] extra[i]).0 == name
}

/// The hidden fields that no extra field replaces, in order.
pub open spec fn kept_fields(fields: Seq<(Seq<char>, Seq<char>)>, extra: Seq<(Seq<char>, Seq<char>)>) -> Seq<(Seq<char>, Seq<char>)>
    decreases fields.len(),
{
    if fields.len() == 0 {
        Seq::empty()
    } else {
        let before = kept_fields(fields.drop_last(), extra);
        if named_in(extra, fields.last().0) {
            before
        } else {
            before.push(fields.last())
        }
    }
}

/// Whether a field survives the extra fields: no extra entry carries its name.
pub open spec fn not_replaced(extra: Seq<(Seq<char>, Seq<char>)>) -> spec_fn((Seq<char>, Seq<char>)) -> bool {
    |p: (Seq<char>, Seq<char>)| !named_in(extra, p.0)
}

/// The fields of the next request are the last page's fields that no extra entry names,
/// in their order, followed by the extra entries: a field an extra entry names is
/// replaced, never sent twice, and every extra entry is sent, repeated names included.
pub proof fn law_form_replaces_what_the_extras_name(fields: Seq<(Seq<char>, Seq<char>)>, extra: Seq<(Seq<char>, Seq<char>)>)
    ensures
        kept_fields(fields, extra) == fields.filter(not_replaced(extra)),
        forall|i: int| 0 <= i < kept_fields(fields, extra).len() ==> !named_in(extra, #[trigger] kept_fields(fields, extra)[i].0),
    decreases fields.len(),
{
    reveal(Seq::filter);
    if fields.len() > 0 {
        law_form_replaces_what_the_extras_name(fields.drop_last(), extra);
        let before = kept_fields(fields.drop_last(), extra);
        assert forall|i: int| 0 <= i < kept_fields(fields, extra).len() implies !named_in(extra, #[trigger] kept_fields(fields, extra)[i].0) by {
            if i < before.len() {
                assert(kept_fields(fields, extra)[i] == before[i]);
            }
        }
    }
}

/// A caption that exactly one button carries picks that button both ways: first and last
/// in document order are the same button.
pub proof fn law_a_unique_caption_is_first_and_last(b: Seq<ButtonView>, label: Seq<char>, i: int)
    requires
        0 <= i < b.len(),
        b[i].label == label,
        forall|j: int| 0 <= j < b.len() && j != i ==> (#[trigger] b[j]).label != label,
    ensures
        first_button(b, label, true) == Some(i),
        last_labelled(b, label) == Some(i),
{
    assert(super::parse::form::button_is(b[i], label, true));
    let f = first_button(b, label, true)->Some_0;
    assert(super::parse::form::button_is(b[f], label, true));
    let l = last_labelled(b, label)->Some_0;
    assert(b[l].label == label);
}

impl Session {
    /// Start a session from the form of the page that opened it.
    pub fn from_form(form: FormState) -> (s: Session)
        ensures
            s.action == form.action,
            s.fields == form.fields,
            s.buttons == form.buttons,
    {
        Session { action: form.action, fields: form.fields, buttons: form.buttons }
    }

    /// Replace the state with the form of the answer that just arrived: a complete
    /// replacement, never a patch, because carrying anything forward is how a session is
    /// lost.
    pub fn advance(&mut self, form: FormState)
        ensures
            final(self).action == form.action,
            final(self).fields == form.fields,
            final(self).buttons == form.buttons,
    {
        self.action = form.action;
        self.fields = form.fields;
        self.buttons = form.buttons;
    }

    /// The first button with this caption, in document order. `None` when the page does
    /// not offer it, which is a changed site and not an empty result.
    pub fn button_labelled(&self, label: &str) -> (r: Option<&Button>)
        ensures
            match r {
                Some(b) => first_button(button_views(self.buttons@), label@, true) matches Some(i) && self.buttons@[i] == *b,
                None => first_button(button_views(self.buttons@), label@, true) is None,
            },
    {
        first_button_with(&self.buttons, label, true)
    }

    /// The last button with this caption. Every page carries the site's own search box at
    /// the top, whose button is also called *Suchen*; the page's own comes after it.
    pub fn last_button_labelled(&self, label: &str) -> (r: Option<&Button>)
        ensures
            match r {
                Some(b) => last_labelled(button_views(self.buttons@), label@) matches Some(i) && self.buttons@[i] == *b,
                None => last_labelled(button_views(self.buttons@), label@) is None,
            },
    {
        last_button_with(&self.buttons, label)
    }

    /// The fields for the next request: everything the last page carried, except what an
    /// extra entry replaces, then the extra entries in the given order. Several extras of
    /// one name are all kept: one `$CbTree_text` per ticked facet box.
    pub fn form(&self, extra: &[(&str, &str)]) -> (v: Vec<(String, String)>)
        ensures
            field_views(v@) == kept_fields(field_views(self.fields@), extra_views(extra@)) + extra_views(extra@),
    {
        let ghost f = field_views(self.fields@);
        let ghost e = extra_views(extra@);
        let mut v: Vec<(String, String)> = Vec::new();
        let mut i: usize = 0;
        proof {
            assert(field_views(v@) =~= Seq::<(Seq<char>, Seq<char>)>::empty());
        }
        while i < self.fields.len()
            invariant
                i <= self.fields.len(),
                f == field_views(self.fields@),
                e == extra_views(extra@),
                field_views(v@) == kept_fields(f.take(i as int), e),
            decreases self.fields.len() - i,
        {
            proof {
                assert(f.take(i + 1).drop_last() =~= f.take(i as int));
                assert(f.take(i + 1).last() == f[i as int]);
            }
            let name = self.fields[i].0.as_str();
            let mut j: usize = 0;
            let mut replaced = false;
            while j < extra.len() && !replaced
                invariant
                    j <= extra.len(),
                    e == extra_views(extra@),
                    replaced ==> named_in(e, name@),
                    !replaced ==> forall|q: int| 0 <= q < j ==> e[q].0 != name@,
                decreases extra.len() - j,
            {
                if same_text(extra[j].0, name) {
                    proof {
                        assert(e[j as int].0 == name@);
                    }
                    replaced = true;
                }
                j = j + 1;
            }
            if !replaced {
                let ghost before = v@;
                v.push((owned(name), owned(self.fields[i].1.as_str())));
                proof {
                    assert(field_views(v@) =~= field_views(before).push(f[i as int]));
                }
            }
            i = i + 1;
        }
        proof {
            assert(f.take(i as int) =~= f);
        }
        let ghost kept = field_views(v@);
        let mut k: usize = 0;
        while k < extra.len()
            invariant
                k <= extra.len(),
                e == extra_views(extra@),
                field_views(v@) == kept + e.take(k as int),
            decreases extra.len() - k,
        {
            let ghost before = v@;
            v.push((owned(extra[k].0), owned(extra[k].1)));
            proof {
                assert(field_views(v@) =~= field_views(before).push(e[k as int]));
                assert(e.take(k + 1) =~= e.take(k as int).push(e[k as int]));
            }
            k = k + 1;
        }
        proof {
            assert(e.take(k as int) =~= e);
        }
        v
    }

    /// The page's `requestCount`, when it is a number: for the counter-check that the
    /// session actually advanced; the field itself is always replayed verbatim.
    pub fn request_count(&self) -> (r: Option<u32>)
        ensures
            match r {
                Some(n) => count_of(field_value(field_views(self.fields@), "requestCount"@)) == Some(n as nat),
                None => count_of(field_value(field_views(self.fields@), "requestCount"@)) is None,
            },
    {
        count_in(&self.fields)
    }
}

} // verus!
