//! KOBV requests and the client that sends them. The request builders are pure: a test
//! can assert on the exact parameters that would go out, PQF included, without a
//! transport. [`KobvClient`] only calls [`Fetch`] and hands the body to `parse`.
use vstd::prelude::*;
use crate::error::{Error, UnexpectedView};
use crate::http::{pair_views, CachePolicy, Fetch, Request};
use crate::model::{AvailabilityId, FetchWindow};
use crate::text::{decimal, decimal_spec};
use crate::xml::xml_nodes;
use super::parse::sru::{self, envelope_spec, ResponseView, SruResponse};
use super::pqf::Pqf;

verus! {

/// The SRU endpoint. Database `k2`, the index the portal searches.
pub const SRU_BASE: &'static str = "https://sru.kobv.de/k2";

/// The portal's JSON endpoint, of which exactly one method is used.
pub const PORTAL_AJAX: &'static str = "https://portal.kobv.de/AJAX/JSON";

/// The parameters of a search: `searchRetrieve`, version 2.0, MARCXML (never `dc`, whose
/// mapping loses the holdings in `924`), the window, and the query as `x-pquery`.
pub open spec fn search_params(query: Seq<char>, size: nat, start: nat) -> Seq<(Seq<char>, Seq<char>)> {
    seq![
        ("operation"@, "searchRetrieve"@),
        ("version"@, "2.0"@),
        ("recordSchema"@, "marcxml"@),
        ("maximumRecords"@, decimal_spec(size)),
        ("startRecord"@, decimal_spec(start)),
        ("x-pquery"@, query),
    ]
}

/// Whether a request is the SRU search for this query text and window: a cached,
/// repeatable GET of the endpoint with exactly the search parameters.
pub open spec fn sru_request(r: Request, query: Seq<char>, size: nat, start: nat) -> bool {
    &&& r.method == crate::http::Method::Get
    &&& r.base@ == SRU_BASE@
    &&& pair_views(r.query@) == search_params(query, size, start)
    &&& r.form@.len() == 0
    &&& r.cache == CachePolicy::Normal
    &&& r.replay == crate::http::Replay::Repeatable
}

/// Build a search request: the query travels as `x-pquery`, the only way to reach
/// Bib-1 attribute `1044`; `maximumRecords` comes from an
/// [`SruPageSize`](crate::model::SruPageSize) and never exceeds what the service serves.
pub fn search_request(query: &Pqf, window: FetchWindow) -> (r: Request)
    ensures
        sru_request(r, query.view_text(), window.size.value(), window.start as nat),
{
    let size = decimal(window.size.get() as u64);
    let start = decimal(window.start as u64);
    let r = Request::get(SRU_BASE)
        .query("operation", "searchRetrieve")
        .query("version", "2.0")
        .query("recordSchema", "marcxml")
        .query("maximumRecords", size.as_str())
        .query("startRecord", start.as_str())
        .query("x-pquery", query.as_str())
        .cache(CachePolicy::Normal);
    proof {
        assert(pair_views(r.query@) =~= search_params(query.view_text(), window.size.value(), window.start as nat));
    }
    r
}

/// Build an availability request: one record per request, and never cached, because a
/// stale traffic light is worse than none.
pub fn availability_request(id: &AvailabilityId) -> (r: Request)
    ensures
        r.base@ == PORTAL_AJAX@,
        pair_views(r.query@) == seq![("method"@, "getAvailability"@), ("availability_id"@, id.text())],
        r.cache == CachePolicy::Never,
{
    let r = Request::get(PORTAL_AJAX)
        .query("method", "getAvailability")
        .query("availability_id", id.as_str())
        .cache(CachePolicy::Never);
    proof {
        assert(pair_views(r.query@) =~= seq![("method"@, "getAvailability"@), ("availability_id"@, id.text())]);
    }
    r
}

/// What a checked envelope is, given the body: the parsed envelope when it parses and
/// carries no top-level diagnostic.
pub open spec fn checked_envelope(body: Seq<char>, r: Result<SruResponse, Error>) -> bool {
    match r {
        Ok(e) => envelope_spec(body, xml_nodes(body)) == Ok::<ResponseView, UnexpectedView>(e.view())
            && e.diagnostics@.len() == 0,
        Err(Error::Unexpected(u)) => envelope_spec(body, xml_nodes(body)) == Err::<ResponseView, UnexpectedView>(u@),
        Err(Error::Rejected(_)) => envelope_spec(body, xml_nodes(body)) matches Ok(v) && v.diagnostics.len() > 0
            && sru::rejected_by(v.diagnostics[0], r->Err_0),
        Err(_) => false,
    }
}

/// Turn an SRU body into a checked envelope. A top-level diagnostic invalidates the whole
/// envelope: `numberOfRecords` may stand next to one and be wrong, so it becomes a
/// rejection here rather than a plausible count.
pub fn envelope(body: &str) -> (r: Result<SruResponse, Error>)
    ensures
        checked_envelope(body@, r),
{
    let envelope = sru::parse(body)?;
    sru::check(&envelope)?;
    Ok(envelope)
}

/// Fetch and parse; the only place where the two halves meet.
pub struct KobvClient<'f, F: Fetch> {
    fetch: &'f F,
}

impl<'f, F: Fetch> KobvClient<'f, F> {
    /// Build the client over a transport.
    pub fn new(fetch: &'f F) -> (c: Self)
        ensures
            c.transport() == fetch,
    {
        KobvClient { fetch }
    }

    /// The transport this client was built with, as a value.
    pub closed spec fn transport(&self) -> &'f F {
        self.fetch
    }

    /// The transport this client was built with.
    pub fn fetch(&self) -> (f: &'f F)
        ensures
            f == self.transport(),
    {
        self.fetch
    }

    /// Run a search and check the envelope: the transport is asked exactly the search
    /// request for this query and window, and unless it could not answer, the result is
    /// [`envelope`] of the body it answered with.
    pub fn search(&self, query: &Pqf, window: FetchWindow) -> (r: Result<SruResponse, Error>)
        ensures
            r matches Err(Error::Transport(_)) || exists|resp: crate::http::Response|
                #[trigger] sru_request(resp.request, query.view_text(), window.size.value(), window.start as nat)
                    && checked_envelope(resp.body@, r),
    {
        let request = search_request(query, window);
        let response = self.fetch.fetch(&request)?;
        let r = envelope(response.body.as_str());
        proof {
            assert(sru_request(response.request, query.view_text(), window.size.value(), window.start as nat));
            assert(checked_envelope(response.body@, r));
        }
        r
    }
}

} // verus!
