//! The session-lost check.
//!
//! aDISWeb answers a broken form with HTTP 200 and a page that says the session is gone.
//! Read as a result list it looks exactly like "no hits", so this check runs before
//! every other parser and turns such a page into a named error. The page has no `<form>`,
//! where every real page has one, and either carries one of its sentences or has no
//! `<title>` at all; both signals are required, so that a page that merely lost its form
//! is a selector error instead of a wrong diagnosis.
use vstd::prelude::*;
use crate::error::{Error, UnexpectedError, UnexpectedView};
use crate::html::{first, html_nodes, html_views, read_html, select, selected, text_below, text_of, HtmlNode, HtmlNodeView, Simple, Test};
use crate::text::{contains_seq, contains_text, owned, trim, trim_spec};

verus! {

/// The sentences the page carries, in both of its languages, and the reason it gives.
pub open spec fn markers() -> Seq<Seq<char>> {
    seq![
        "Bitte schließen Sie diesen Reiter"@,
        "Please close this tab"@,
        "Aus Sicherheitsgründen ist das nicht erlaubt."@,
    ]
}

/// Whether the raw page carries one of the sentences.
pub open spec fn has_marker(html: Seq<char>) -> bool {
    exists|i: int| 0 <= i < markers().len() && contains_seq(html, #[trigger] markers()[i])
}

/// Whether the page has a `<title>` with text that is not blank.
pub open spec fn titled(ns: Seq<HtmlNodeView>) -> bool {
    let ts = selected(ns, 0, ns.len() as int, Simple { name: "title", test: Test::Always }, None);
    exists|j: int| 0 <= j < ts.len() && trim_spec(text_below(ns, #[trigger] ts[j])).len() > 0
}

/// Whether a page is the session-lost page: no form, and one of its sentences or no title.
pub open spec fn noaccess_spec(html: Seq<char>, ns: Seq<HtmlNodeView>) -> bool {
    &&& (has_marker(html) || !titled(ns))
    &&& selected(ns, 0, ns.len() as int, Simple { name: "form", test: Test::Always }, None).len() == 0
}

/// Whether the page carries one of the sentences.
fn marked(html: &str) -> (r: bool)
    ensures
        r == has_marker(html@),
{
    let a = contains_text(html, "Bitte schließen Sie diesen Reiter");
    let b = contains_text(html, "Please close this tab");
    let c = contains_text(html, "Aus Sicherheitsgründen ist das nicht erlaubt.");
    proof {
        if a {
            assert(contains_seq(html@, markers()[0]));
        }
        if b {
            assert(contains_seq(html@, markers()[1]));
        }
        if c {
            assert(contains_seq(html@, markers()[2]));
        }
    }
    a || b || c
}

/// Whether the nodes hold a `<title>` with text that is not blank.
fn has_title(ns: &Vec<HtmlNode>) -> (r: bool)
    ensures
        r == titled(html_views(ns@)),
{
    let ghost hv = html_views(ns@);
    let ts = select(ns, 0, ns.len(), Simple { name: "title", test: Test::Always }, None);
    let ghost tv = crate::html::positions(ts@);
    let mut i: usize = 0;
    while i < ts.len()
        invariant
            i <= ts.len(),
            hv == html_views(ns@),
            tv == crate::html::positions(ts@),
            tv == selected(hv, 0, ns.len() as int, Simple { name: "title", test: Test::Always }, None),
            forall|j: int| 0 <= j < ts@.len() ==> #[trigger] ts@[j] < ns.len(),
            forall|j: int| 0 <= j < i ==> trim_spec(text_below(hv, #[trigger] tv[j])).len() == 0,
        decreases ts.len() - i,
    {
        let t = trim(text_of(ns, ts[i]).as_str());
        if t.as_str().unicode_len() > 0 {
            proof {
                assert(tv[i as int] == ts@[i as int] as int);
            }
            return true;
        }
        proof {
            assert(tv[i as int] == ts@[i as int] as int);
        }
        i = i + 1;
    }
    false
}

/// Whether a page, with the nodes of its document, is the session-lost page.
pub fn is_noaccess(html: &str, ns: &Vec<HtmlNode>) -> (r: bool)
    ensures
        r == noaccess_spec(html@, html_views(ns@)),
{
    if !marked(html) && has_title(ns) {
        return false;
    }
    first(ns, 0, ns.len(), Simple { name: "form", test: Test::Always }).is_none()
}

/// The error for the session-lost page, naming the request that produced it.
pub fn check_nodes(html: &str, ns: &Vec<HtmlNode>, step: &str) -> (r: Result<(), Error>)
    ensures
        match r {
            Ok(()) => !noaccess_spec(html@, html_views(ns@)),
            Err(Error::Unexpected(e)) => noaccess_spec(html@, html_views(ns@)) && e@ == (UnexpectedView::VoebbNoAccess { step: step@ }),
            Err(_) => false,
        },
{
    if is_noaccess(html, ns) {
        return Err(Error::Unexpected(UnexpectedError::VoebbNoAccess { step: owned(step) }));
    }
    Ok(())
}

/// Fail if this page is the session-lost page. `step` names the request that produced
/// it, because "the session was lost" is only actionable if it says where.
pub fn check(html: &str, step: &str) -> (r: Result<(), Error>)
    ensures
        match r {
            Ok(()) => !noaccess_spec(html@, html_nodes(html@)),
            Err(Error::Unexpected(e)) => noaccess_spec(html@, html_nodes(html@)) && e@ == (UnexpectedView::VoebbNoAccess { step: step@ }),
            Err(_) => false,
        },
{
    let ns = read_html(html);
    check_nodes(html, &ns, step)
}

} // verus!
