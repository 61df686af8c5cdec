//! The transport seam: a request as plain values, and the trait a transport implements.
//!
//! Nothing in the library performs I/O. The engines build [`Request`]s, hand them to a
//! [`Fetch`], and interpret the body that comes back. The transport itself, its
//! retries, its cache and its politeness towards the hosts belong to the program.
use vstd::prelude::*;
use crate::error::Error;
use crate::text::owned;

verus! {

/// Whether a response may be served from the cache.
#[derive(Debug, Clone, Copy, PartialEq, Eq, Structural)]
pub enum CachePolicy {
    /// Cached like any other read.
    Normal,
    /// Always asked anew: live data such as availability.
    Never,
}

/// The HTTP method of a request.
#[derive(Debug, Clone, Copy, PartialEq, Eq, Structural)]
pub enum Method {
    Get,
    Post,
}

/// Whether a request may be sent again after a failure in transit.
#[derive(Debug, Clone, Copy, PartialEq, Eq, Structural)]
pub enum Replay {
    /// Sending it twice asks the same question twice.
    Repeatable,
    /// Sending it consumes something on the server: a form submission whose request
    /// counter was spent by the sending, not by the answer.
    SingleUse,
}

/// A request: the method, the base URL, its query parameters in the order they go out,
/// the form fields of a POST, and how it may be cached and repeated.
#[derive(Debug, Clone, PartialEq, Eq)]
pub struct Request {
    pub method: Method,
    pub base: String,
    /// The raw parameter pairs; percent-encoding is the transport's business.
    pub query: Vec<(String, String)>,
    /// The form fields of a POST, in the order they go out.
    pub form: Vec<(String, String)>,
    pub cache: CachePolicy,
    pub replay: Replay,
}

/// The views of query parameters.
pub open spec fn pair_views(v: Seq<(String, String)>) -> Seq<(Seq<char>, Seq<char>)> {
    v.map_values(|p: (String, String)| (p.0@, p.1@))
}

impl Request {
    /// A GET of `base` with no parameters, cached normally, repeatable.
    pub fn get(base: &str) -> (r: Request)
        ensures
            r.method == Method::Get,
            r.base@ == base@,
            r.query@.len() == 0,
            r.form@.len() == 0,
            r.cache == CachePolicy::Normal,
            r.replay == Replay::Repeatable,
    {
        Request {
            method: Method::Get,
            base: owned(base),
            query: Vec::new(),
            form: Vec::new(),
            cache: CachePolicy::Normal,
            replay: Replay::Repeatable,
        }
    }

    /// A POST to `base` carrying these form fields, cached normally, repeatable.
    pub fn post(base: &str, form: Vec<(String, String)>) -> (r: Request)
        ensures
            r.method == Method::Post,
            r.base@ == base@,
            r.query@.len() == 0,
            r.form == form,
            r.cache == CachePolicy::Normal,
            r.replay == Replay::Repeatable,
    {
        Request {
            method: Method::Post,
            base: owned(base),
            query: Vec::new(),
            form,
            cache: CachePolicy::Normal,
            replay: Replay::Repeatable,
        }
    }

    /// The same request, declared repeatable or single-use.
    pub fn replay(self, replay: Replay) -> (r: Request)
        ensures
            r.method == self.method,
            r.base == self.base,
            r.query == self.query,
            r.form == self.form,
            r.cache == self.cache,
            r.replay == replay,
    {
        Request { replay, ..self }
    }

    /// The same request with one more parameter at the end.
    pub fn query(self, key: &str, value: &str) -> (r: Request)
        ensures
            r.method == self.method,
            r.base == self.base,
            pair_views(r.query@) == pair_views(self.query@).push((key@, value@)),
            r.form == self.form,
            r.cache == self.cache,
            r.replay == self.replay,
    {
        let mut q = self.query;
        let ghost before = q@;
        q.push((owned(key), owned(value)));
        proof {
            assert(pair_views(q@) =~= pair_views(before).push((key@, value@)));
        }
        Request { method: self.method, base: self.base, query: q, form: self.form, cache: self.cache, replay: self.replay }
    }

    /// The same request under another cache policy.
    pub fn cache(self, policy: CachePolicy) -> (r: Request)
        ensures
            r.method == self.method,
            r.base == self.base,
            r.query == self.query,
            r.form == self.form,
            r.cache == policy,
            r.replay == self.replay,
    {
        Request { cache: policy, ..self }
    }
}

/// What came back: the request it answers, the status and the body.
#[derive(Debug, Clone, PartialEq, Eq)]
pub struct Response {
    /// The request this is the answer to.
    pub request: Request,
    pub status: u16,
    pub body: String,
}

/// A transport. Which statuses count as an answer, how often to retry and how long to
/// wait are its decisions; a request that gets no answer comes back as a
/// [`TransportError`](crate::error::TransportError).
///
/// What an implementation owes: an answer is the answer to the request it was handed,
/// and the only failure it reports is a transport failure. Everything else about the
/// reply is the catalogue's, and the engines check it.
pub trait Fetch {
    /// Perform one request.
    fn fetch(&self, request: &Request) -> (r: Result<Response, Error>)
        ensures
            r matches Ok(resp) ==> resp.request == *request,
            r matches Err(e) ==> e is Transport,
    ;
}

} // verus!
