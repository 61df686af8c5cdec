//! The SRU envelope.
//!
//! What is an error here and what is not:
//!
//! - Errors: a body that is not XML at all, a root element that is not
//!   `searchRetrieveResponse`, and a missing `numberOfRecords` without a top-level
//!   diagnostic to explain it.
//! - Not errors: fewer records than announced, comments inside a record, and per-record
//!   surrogate diagnostics.
//! - Rejected upstream: a top-level diagnostic, which [`check`] turns into a rejection.
//!
//! Elements are matched by namespace and local name, never by prefix; an element without
//! a namespace matches too. A record's payload is kept as the raw XML of its element,
//! sliced out of the body by the parser's byte range.
use vstd::prelude::*;
use crate::error::{Error, RejectedError, UnexpectedError, UnexpectedView};
use crate::model::Note;
use crate::text::{
    byte_slice, cat, char_range, chars_of, contains_seq, contains_text, decimal, decimal_spec,
    decoded, encoded, flatten, is_digit, is_space, is_whitespace, lower_seq, owned, push_char,
    same_text, to_lower, value_of_digit, views, digit_value,
};
use crate::xml::{
    child, child_spec, child_text, child_text_spec, is_el, is_element, is_tree, node_views,
    read_xml, snippet, snippet_spec, str_views, tree_shaped, xml_nodes, XmlNode, XmlNodeView,
};

verus! {

/// The namespaces an SRU envelope element may live in.
pub open spec fn sru_ns() -> Seq<Seq<char>> {
    seq!["http://docs.oasis-open.org/ns/search-ws/sruResponse"@, "http://www.loc.gov/zing/srw/"@]
}

/// The namespaces a diagnostic may live in.
pub open spec fn diag_ns() -> Seq<Seq<char>> {
    seq!["http://docs.oasis-open.org/ns/search-ws/diagnostic"@, "http://www.loc.gov/zing/srw/diagnostic/"@]
}

/// The MARCXML namespace.
pub open spec fn marc_ns() -> Seq<Seq<char>> {
    seq!["http://www.loc.gov/MARC21/slim"@]
}

fn sru_namespaces() -> (v: Vec<&'static str>)
    ensures
        str_views(v@) == sru_ns(),
{
    let v = vec!["http://docs.oasis-open.org/ns/search-ws/sruResponse", "http://www.loc.gov/zing/srw/"];
    proof {
        assert(str_views(v@) =~= sru_ns());
    }
    v
}

fn diag_namespaces() -> (v: Vec<&'static str>)
    ensures
        str_views(v@) == diag_ns(),
{
    let v = vec!["http://docs.oasis-open.org/ns/search-ws/diagnostic", "http://www.loc.gov/zing/srw/diagnostic/"];
    proof {
        assert(str_views(v@) =~= diag_ns());
    }
    v
}

fn marc_namespaces() -> (v: Vec<&'static str>)
    ensures
        str_views(v@) == marc_ns(),
{
    let v = vec!["http://www.loc.gov/MARC21/slim"];
    proof {
        assert(str_views(v@) =~= marc_ns());
    }
    v
}

/// The parsed envelope.
#[derive(Debug, Clone, PartialEq, Eq)]
pub struct SruResponse {
    /// What the service says the total is; never assumed to equal `records.len()`.
    pub number_of_records: u64,
    /// Where the next window starts, when the service says.
    pub next_record_position: Option<u32>,
    /// The delivered records, in delivery order.
    pub records: Vec<SruRecord>,
    /// Top-level diagnostics.
    pub diagnostics: Vec<Diagnostic>,
}

/// One `<record>` element of the envelope.
#[derive(Debug, Clone, PartialEq, Eq)]
pub struct SruRecord {
    /// `recordPosition`, kept as delivered.
    pub position: Option<u32>,
    /// What the record actually contained.
    pub payload: RecordPayload,
}

/// What one delivered record turned out to be.
#[derive(Debug, Clone, PartialEq, Eq)]
pub enum RecordPayload {
    /// A MARCXML record, as raw XML.
    Marc(String),
    /// A surrogate diagnostic in place of a record.
    Diagnostic(Diagnostic),
    /// A schema this tool does not know; kept so it can be counted and reported.
    Unknown { schema: String },
}

/// An SRU diagnostic.
#[derive(Debug, Clone, PartialEq, Eq)]
pub struct Diagnostic {
    /// The diagnostic URI, e.g. `info:srw/diagnostic/1/48`.
    pub uri: String,
    /// The service's message.
    pub message: Option<String>,
    /// Its `details` element, as the service worded it.
    pub details: Option<String>,
}

/// A diagnostic as plain values.
pub struct DiagnosticView {
    pub uri: Seq<char>,
    pub message: Option<Seq<char>>,
    pub details: Option<Seq<char>>,
}

/// A payload as plain values.
pub enum PayloadView {
    Marc(Seq<char>),
    Diagnostic(DiagnosticView),
    Unknown(Seq<char>),
}

/// A record as plain values.
pub struct RecordView {
    pub position: Option<nat>,
    pub payload: PayloadView,
}

/// An envelope as plain values.
pub struct ResponseView {
    pub number_of_records: nat,
    pub next_record_position: Option<nat>,
    pub records: Seq<RecordView>,
    pub diagnostics: Seq<DiagnosticView>,
}

/// The view of an optional string.
pub open spec fn opt_view(o: Option<String>) -> Option<Seq<char>> {
    match o {
        Some(s) => Some(s@),
        None => None,
    }
}

impl Diagnostic {
    /// The diagnostic as plain values.
    pub open spec fn view(&self) -> DiagnosticView {
        DiagnosticView { uri: self.uri@, message: opt_view(self.message), details: opt_view(self.details) }
    }
}

impl SruRecord {
    /// The record as plain values.
    pub open spec fn view(&self) -> RecordView {
        RecordView {
            position: match self.position {
                Some(p) => Some(p as nat),
                None => None,
            },
            payload: match self.payload {
                RecordPayload::Marc(x) => PayloadView::Marc(x@),
                RecordPayload::Diagnostic(d) => PayloadView::Diagnostic(d.view()),
                RecordPayload::Unknown { schema } => PayloadView::Unknown(schema@),
            },
        }
    }
}

/// The views of a list of diagnostics.
pub open spec fn diagnostic_views(v: Seq<Diagnostic>) -> Seq<DiagnosticView> {
    v.map_values(|d: Diagnostic| d.view())
}

/// The views of a list of records.
pub open spec fn record_views(v: Seq<SruRecord>) -> Seq<RecordView> {
    v.map_values(|r: SruRecord| r.view())
}

impl SruResponse {
    /// The envelope as plain values.
    pub open spec fn view(&self) -> ResponseView {
        ResponseView {
            number_of_records: self.number_of_records as nat,
            next_record_position: match self.next_record_position {
                Some(p) => Some(p as nat),
                None => None,
            },
            records: record_views(self.records@),
            diagnostics: diagnostic_views(self.diagnostics@),
        }
    }
}

/// What names this response in error messages.
pub open spec fn context_spec() -> Seq<char> {
    "SRU response"@
}

/// The value of an unsigned decimal as `str::parse` reads it: an optional `+`, then at
/// least one digit and nothing else.
pub open spec fn parse_unsigned(t: Seq<char>) -> Option<nat> {
    if sign_stripped(t).len() > 0 && crate::libraries::all_digits(sign_stripped(t)) {
        Some(crate::libraries::digits_value(sign_stripped(t)))
    } else {
        None
    }
}

/// The digits of a number without its leading `+`.
pub open spec fn sign_stripped(t: Seq<char>) -> Seq<char> {
    if t.len() > 0 && t[0] == '+' {
        t.drop_first()
    } else {
        t
    }
}

/// `str::parse::<u64>`.
pub open spec fn parse_u64(t: Seq<char>) -> Option<nat> {
    match parse_unsigned(t) {
        Some(v) => if v <= u64::MAX { Some(v) } else { None },
        None => None,
    }
}

/// `str::parse::<u32>`.
pub open spec fn parse_u32(t: Seq<char>) -> Option<nat> {
    match parse_unsigned(t) {
        Some(v) => if v <= u32::MAX { Some(v) } else { None },
        None => None,
    }
}

/// How a record position reads inside a message.
pub open spec fn position_text(p: Option<nat>) -> Seq<char> {
    match p {
        Some(n) => "position "@ + decimal_spec(n),
        None => "an unstated position"@,
    }
}

/// Whether a record schema names MARCXML.
pub open spec fn is_marcxml(schema: Seq<char>) -> bool {
    lower_seq(schema) == "marcxml"@ || contains_seq(lower_seq(schema), "marcxml-v1"@)
}

/// Whether a record schema names the surrogate diagnostic.
pub open spec fn is_diagnostic_schema(schema: Seq<char>) -> bool {
    contains_seq(lower_seq(schema), "diagnostic"@)
}

/// A missing-structure failure.
pub open spec fn missing(what: Seq<char>, context: Seq<char>) -> UnexpectedView {
    UnexpectedView::MissingElement { what, context }
}

/// One `<diagnostic>`: its `uri` is required.
pub open spec fn diagnostic_spec(n: Seq<XmlNodeView>, k: int, context: Seq<char>) -> Result<DiagnosticView, UnexpectedView> {
    match child_text_spec(n, k, diag_ns(), "uri"@) {
        Some(uri) => Ok(DiagnosticView {
            uri,
            message: child_text_spec(n, k, diag_ns(), "message"@),
            details: child_text_spec(n, k, diag_ns(), "details"@),
        }),
        None => Err(missing("<uri> inside a diagnostic"@, context)),
    }
}

/// The diagnostics among the children of `c` from index `k` on, or the first failure.
pub open spec fn diagnostics_from(n: Seq<XmlNodeView>, c: int, k: int) -> Result<Seq<DiagnosticView>, UnexpectedView>
    decreases n.len() - k,
{
    if k < 0 || k >= n.len() {
        Ok(Seq::empty())
    } else if n[k].parent == Some(c as nat) && is_el(n[k], diag_ns(), "diagnostic"@) {
        match diagnostic_spec(n, k, context_spec()) {
            Err(e) => Err(e),
            Ok(d) => match diagnostics_from(n, c, k + 1) {
                Ok(rest) => Ok(seq![d] + rest),
                Err(e) => Err(e),
            },
        }
    } else {
        diagnostics_from(n, c, k + 1)
    }
}

/// The top-level diagnostics of the envelope.
pub open spec fn top_diagnostics(n: Seq<XmlNodeView>, root: int) -> Result<Seq<DiagnosticView>, UnexpectedView> {
    match child_spec(n, root, sru_ns(), "diagnostics"@) {
        Some(c) => diagnostics_from(n, c, c + 1),
        None => Ok(Seq::empty()),
    }
}

/// `numberOfRecords`, or 0 when it is absent beside a top-level diagnostic.
pub open spec fn count_spec(n: Seq<XmlNodeView>, root: int, diagnosed: bool) -> Result<nat, UnexpectedView> {
    match child_text_spec(n, root, sru_ns(), "numberOfRecords"@) {
        Some(t) => match parse_u64(t) {
            Some(v) => Ok(v),
            None => Err(missing(flatten(seq!["a numeric <numberOfRecords> (it said \""@, t, "\")"@]), context_spec())),
        },
        None => if diagnosed {
            Ok(0)
        } else {
            Err(missing("<numberOfRecords>"@, context_spec()))
        },
    }
}

/// An optional number from a child element's text.
pub open spec fn child_u32(n: Seq<XmlNodeView>, p: int, local: Seq<char>) -> Option<nat> {
    match child_text_spec(n, p, sru_ns(), local) {
        Some(t) => parse_u32(t),
        None => None,
    }
}

/// One `<record>`: its position, its declared schema, and the payload the schema
/// promises; a declared payload that is absent is a failure.
pub open spec fn record_spec(body: Seq<char>, n: Seq<XmlNodeView>, k: int) -> Result<RecordView, UnexpectedView> {
    let position = child_u32(n, k, "recordPosition"@);
    let context = context_spec() + ", record at "@ + position_text(position);
    let schema = match child_text_spec(n, k, sru_ns(), "recordSchema"@) {
        Some(s) => s,
        None => Seq::empty(),
    };
    match child_spec(n, k, sru_ns(), "recordData"@) {
        None => Err(missing("<recordData>"@, context)),
        Some(data) => if is_marcxml(schema) {
            match child_spec(n, data, marc_ns(), "record"@) {
                Some(m) => if char_range(body, n[m].start as int, n[m].end as int) {
                    Ok(RecordView {
                        position,
                        payload: PayloadView::Marc(decoded(encoded(body).subrange(n[m].start as int, n[m].end as int))),
                    })
                } else {
                    Err(missing("a MARCXML <record> element"@, context))
                },
                None => Err(missing("a MARCXML <record> element"@, context)),
            }
        } else if is_diagnostic_schema(schema) {
            match child_spec(n, data, diag_ns(), "diagnostic"@) {
                Some(d) => match diagnostic_spec(n, d, context) {
                    Ok(v) => Ok(RecordView { position, payload: PayloadView::Diagnostic(v) }),
                    Err(e) => Err(e),
                },
                None => Err(missing("a <diagnostic> element"@, context)),
            }
        } else {
            Ok(RecordView { position, payload: PayloadView::Unknown(schema) })
        },
    }
}

/// The records among the children of `c` from index `k` on, or the first failure.
pub open spec fn records_from(body: Seq<char>, n: Seq<XmlNodeView>, c: int, k: int) -> Result<Seq<RecordView>, UnexpectedView>
    decreases n.len() - k,
{
    if k < 0 || k >= n.len() {
        Ok(Seq::empty())
    } else if n[k].parent == Some(c as nat) && is_el(n[k], sru_ns(), "record"@) {
        match record_spec(body, n, k) {
            Err(e) => Err(e),
            Ok(r) => match records_from(body, n, c, k + 1) {
                Ok(rest) => Ok(seq![r] + rest),
                Err(e) => Err(e),
            },
        }
    } else {
        records_from(body, n, c, k + 1)
    }
}

/// The index of the first element child of `p` from index `k` on.
pub open spec fn first_element_from(n: Seq<XmlNodeView>, p: int, k: int) -> Option<int>
    decreases n.len() - k,
{
    if k < 0 || k >= n.len() {
        None
    } else if n[k].parent == Some(p as nat) && n[k].element {
        Some(k)
    } else {
        first_element_from(n, p, k + 1)
    }
}

/// The "this is not an SRU document" failure.
pub open spec fn not_xml(body: Seq<char>, reason: Seq<char>) -> UnexpectedView {
    UnexpectedView::NotXml { context: context_spec() + " ("@ + reason + ")"@, snippet: snippet_spec(body) }
}

/// What an SRU body is, given what the XML parser made of it.
pub open spec fn envelope_spec(body: Seq<char>, parsed: Result<Seq<XmlNodeView>, Seq<char>>) -> Result<ResponseView, UnexpectedView> {
    match parsed {
        Err(reason) => Err(not_xml(body, reason)),
        Ok(n) => if !tree_shaped(n) {
            Err(not_xml(body, "the parsed document is not a tree in document order"@))
        } else {
            match first_element_from(n, 0, 1) {
                None => Err(not_xml(body, "the document has no root element"@)),
                Some(root) => if !is_el(n[root], sru_ns(), "searchRetrieveResponse"@) {
                    Err(not_xml(body, "the root element is <"@ + n[root].name + ">"@))
                } else {
                    match top_diagnostics(n, root) {
                        Err(e) => Err(e),
                        Ok(diagnostics) => match count_spec(n, root, diagnostics.len() > 0) {
                            Err(e) => Err(e),
                            Ok(count) => {
                                let records = match child_spec(n, root, sru_ns(), "records"@) {
                                    Some(list) => records_from(body, n, list, list + 1),
                                    None => Ok(Seq::empty()),
                                };
                                match records {
                                    Err(e) => Err(e),
                                    Ok(records) => Ok(ResponseView {
                                        number_of_records: count,
                                        next_record_position: child_u32(n, root, "nextRecordPosition"@),
                                        records,
                                        diagnostics,
                                    }),
                                }
                            },
                        },
                    }
                },
            }
        },
    }
}

/// Whether an envelope result matches what the body is.
pub open spec fn envelope_matches(r: Result<SruResponse, Error>, expected: Result<ResponseView, UnexpectedView>) -> bool {
    match (r, expected) {
        (Ok(resp), Ok(v)) => resp.view() == v,
        (Err(Error::Unexpected(e)), Err(v)) => e@ == v,
        _ => false,
    }
}

/// Parse an SRU response body.
///
/// Fails as "not XML" for a body that does not parse and for one whose root element is
/// not `searchRetrieveResponse`; fails as missing structure when the envelope has no
/// `numberOfRecords` and no top-level diagnostic to explain its absence, and when a
/// record declares a schema whose payload is not there. Never fails because there are no
/// records.
pub fn parse(body: &str) -> (r: Result<SruResponse, Error>)
    ensures
        envelope_matches(r, envelope_spec(body@, xml_nodes(body@))),
{
    let parsed = read_xml(body);
    parse_document(body, &parsed)
}

/// Interpret the node list `roxmltree` made of a body (or its parse error).
pub fn parse_document(body: &str, parsed: &Result<Vec<XmlNode>, String>) -> (r: Result<SruResponse, Error>)
    ensures
        envelope_matches(r, envelope_spec(body@, match parsed {
            Ok(v) => Ok::<Seq<XmlNodeView>, Seq<char>>(node_views(v@)),
            Err(e) => Err::<Seq<XmlNodeView>, Seq<char>>(e@),
        })),
{
    let nodes = match parsed {
        Err(reason) => return Err(Error::Unexpected(not_xml_error(body, reason.as_str()))),
        Ok(nodes) => nodes,
    };
    let ghost n = node_views(nodes@);
    if !is_tree(nodes) {
        return Err(Error::Unexpected(not_xml_error(body, "the parsed document is not a tree in document order")));
    }
    let root = match first_element(nodes) {
        Some(r) => r,
        None => return Err(Error::Unexpected(not_xml_error(body, "the document has no root element"))),
    };
    let sru = sru_namespaces();
    if !is_element(&nodes[root], &sru, "searchRetrieveResponse") {
        let parts = vec!["the root element is <", nodes[root].name.as_str(), ">"];
        proof {
            assert(views(parts@) =~= seq!["the root element is <"@, n[root as int].name, ">"@]);
            reveal_with_fuel(flatten, 4);
        }
        let reason = cat(parts);
        return Err(Error::Unexpected(not_xml_error(body, reason.as_str())));
    }
    let diagnostics = match top_level_diagnostics(nodes, root) {
        Ok(d) => d,
        Err(e) => return Err(Error::Unexpected(e)),
    };
    let number_of_records = match number_of_records(nodes, root, diagnostics.len() > 0) {
        Ok(c) => c,
        Err(e) => return Err(Error::Unexpected(e)),
    };
    let next_record_position = child_number(nodes, root, "nextRecordPosition");
    let records = match child(nodes, root, &sru, "records") {
        Some(list) => match records(body, nodes, list) {
            Ok(r) => r,
            Err(e) => return Err(Error::Unexpected(e)),
        },
        None => Vec::new(),
    };
    proof {
        assert(record_views(Seq::<SruRecord>::empty()) =~= Seq::<RecordView>::empty());
    }
    Ok(SruResponse { number_of_records, next_record_position, records, diagnostics })
}

/// The index of the root element: the first element child of the document.
fn first_element(nodes: &Vec<XmlNode>) -> (r: Option<usize>)
    requires
        nodes.len() > 0,
    ensures
        match r {
            Some(k) => first_element_from(node_views(nodes@), 0, 1) == Some(k as int) && k < nodes.len(),
            None => first_element_from(node_views(nodes@), 0, 1) is None,
        },
{
    let ghost n = node_views(nodes@);
    let mut k: usize = 1;
    while k < nodes.len()
        invariant
            1 <= k <= nodes.len(),
            n == node_views(nodes@),
            first_element_from(n, 0, 1) == first_element_from(n, 0, k as int),
        decreases nodes.len() - k,
    {
        proof {
            assert(n[k as int] == nodes@[k as int].view());
        }
        if nodes[k].parent == Some(0) && nodes[k].element {
            return Some(k);
        }
        k = k + 1;
    }
    None
}

/// One `<diagnostic>`: its `uri` is required, the rest optional.
fn diagnostic(nodes: &Vec<XmlNode>, k: usize, context: &str) -> (r: Result<Diagnostic, UnexpectedError>)
    requires
        tree_shaped(node_views(nodes@)),
        k < nodes.len(),
    ensures
        match (r, diagnostic_spec(node_views(nodes@), k as int, context@)) {
            (Ok(d), Ok(v)) => d.view() == v,
            (Err(e), Err(v)) => e@ == v,
            _ => false,
        },
{
    let ns = diag_namespaces();
    let uri = match child_text(nodes, k, &ns, "uri") {
        Some(u) => u,
        None => return Err(UnexpectedError::MissingElement { what: owned("<uri> inside a diagnostic"), context: owned(context) }),
    };
    let message = child_text(nodes, k, &ns, "message");
    let details = child_text(nodes, k, &ns, "details");
    Ok(Diagnostic { uri, message, details })
}

/// The `<diagnostics>` block, if there is one.
fn top_level_diagnostics(nodes: &Vec<XmlNode>, root: usize) -> (r: Result<Vec<Diagnostic>, UnexpectedError>)
    requires
        tree_shaped(node_views(nodes@)),
        root < nodes.len(),
    ensures
        match (r, top_diagnostics(node_views(nodes@), root as int)) {
            (Ok(d), Ok(v)) => diagnostic_views(d@) == v,
            (Err(e), Err(v)) => e@ == v,
            _ => false,
        },
{
    let ghost n = node_views(nodes@);
    let sru = sru_namespaces();
    let container = match child(nodes, root, &sru, "diagnostics") {
        Some(c) => c,
        None => {
            proof {
                assert(diagnostic_views(Seq::<Diagnostic>::empty()) =~= Seq::<DiagnosticView>::empty());
            }
            return Ok(Vec::new());
        },
    };
    let ns = diag_namespaces();
    let mut found: Vec<Diagnostic> = Vec::new();
    let mut k: usize = container + 1;
    proof {
        assert(top_diagnostics(n, root as int) == diagnostics_from(n, container as int, container + 1));
    }
    proof {
        assert(diagnostic_views(found@) =~= Seq::<DiagnosticView>::empty());
        match diagnostics_from(n, container as int, k as int) {
            Ok(rest) => { assert(Seq::<DiagnosticView>::empty() + rest =~= rest); },
            Err(_) => {},
        }
    }
    while k < nodes.len()
        invariant
            container < k <= nodes.len(),
            n == node_views(nodes@),
            tree_shaped(n),
            str_views(ns@) == diag_ns(),
            top_diagnostics(n, root as int) == diagnostics_from(n, container as int, container + 1),
            diagnostics_from(n, container as int, container + 1) == match diagnostics_from(n, container as int, k as int) {
                Ok(rest) => Ok(diagnostic_views(found@) + rest),
                Err(e) => Err::<Seq<DiagnosticView>, UnexpectedView>(e),
            },
        decreases nodes.len() - k,
    {
        proof {
            assert(n[k as int] == nodes@[k as int].view());
        }
        if nodes[k].parent == Some(container) && is_element(&nodes[k], &ns, "diagnostic") {
            let ctx = "SRU response";
            proof {
                reveal_strlit("SRU response");
                assert(ctx@ == context_spec());
            }
            match diagnostic(nodes, k, ctx) {
                Ok(d) => {
                    let ghost before = found@;
                    found.push(d);
                    proof {
                        assert(diagnostic_views(found@) =~= diagnostic_views(before).push(d.view()));
                        match diagnostics_from(n, container as int, k + 1) {
                            Ok(rest) => {
                                assert(diagnostic_views(before) + (seq![d.view()] + rest) =~= diagnostic_views(found@) + rest);
                            },
                            Err(_) => {},
                        }
                    }
                },
                Err(e) => {
                    proof {
                        assert(diagnostics_from(n, container as int, k as int) == Err::<Seq<DiagnosticView>, UnexpectedView>(e@));
                    }
                    return Err(e);
                },
            }
        }
        k = k + 1;
    }
    proof {
        assert(diagnostic_views(found@) + Seq::<DiagnosticView>::empty() =~= diagnostic_views(found@));
    }
    Ok(found)
}

/// Reads an unsigned decimal as `str::parse` does, bounded by `max`.
pub fn parse_number(t: &str, max: u64) -> (r: Option<u64>)
    requires
        max >= 9,
    ensures
        match r {
            Some(v) => parse_unsigned(t@) == Some(v as nat) && v <= max,
            None => parse_unsigned(t@) is None || parse_unsigned(t@)->0 > max,
        },
{
    let c = chars_of(t);
    let from: usize = if c.len() > 0 && c[0] == '+' { 1 } else { 0 };
    let ghost d = sign_stripped(t@);
    proof {
        assert(d =~= c@.subrange(from as int, c@.len() as int));
    }
    if from >= c.len() {
        return None;
    }
    let mut v: u64 = 0;
    let mut big = false;
    let mut i: usize = from;
    while i < c.len()
        invariant
            from <= i <= c.len(),
            c@ == t@,
            d == c@.subrange(from as int, c@.len() as int),
            d == sign_stripped(t@),
            max >= 9,
            forall|j: int| from <= j < i ==> is_digit(#[trigger] c@[j]),
            big ==> crate::libraries::digits_value(c@.subrange(from as int, i as int)) > max,
            !big ==> v == crate::libraries::digits_value(c@.subrange(from as int, i as int)) && v <= max,
        decreases c.len() - i,
    {
        let ch = c[i];
        if !crate::text::is_ascii_digit(ch) {
            proof {
                assert(d[i - from] == ch);
                assert(!is_digit(d[i - from]));
                assert(!crate::libraries::all_digits(d));
            }
            return None;
        }
        proof {
            assert(c@.subrange(from as int, i + 1).drop_last() =~= c@.subrange(from as int, i as int));
        }
        let digit = value_of_digit(ch) as u64;
        if !big {
            if v > (max - digit) / 10 {
                big = true;
                proof {
                    assert(v * 10 + digit > max) by (nonlinear_arith)
                        requires v > (max - digit) / 10, digit <= max || digit > max;
                }
            } else {
                proof {
                    assert(v * 10 + digit <= max) by (nonlinear_arith)
                        requires v <= (max - digit) / 10, digit <= max;
                }
                v = v * 10 + digit;
            }
        } else {
            proof {
                let prev = crate::libraries::digits_value(c@.subrange(from as int, i as int));
                assert(prev * 10 + digit_value(ch) > max) by (nonlinear_arith)
                    requires prev > max;
            }
        }
        i = i + 1;
    }
    proof {
        assert(forall|j: int| 0 <= j < d.len() ==> is_digit(#[trigger] d[j]) ) by {
            assert forall|j: int| 0 <= j < d.len() implies is_digit(#[trigger] d[j]) by {
                assert(d[j] == c@[from + j]);
            }
        }
        assert(c@.subrange(from as int, i as int) =~= d);
    }
    if big {
        None
    } else {
        Some(v)
    }
}

/// `numberOfRecords`, or the one case in which it may be absent.
fn number_of_records(nodes: &Vec<XmlNode>, root: usize, diagnosed: bool) -> (r: Result<u64, UnexpectedError>)
    requires
        tree_shaped(node_views(nodes@)),
        root < nodes.len(),
    ensures
        match (r, count_spec(node_views(nodes@), root as int, diagnosed)) {
            (Ok(c), Ok(v)) => c == v,
            (Err(e), Err(v)) => e@ == v,
            _ => false,
        },
{
    let sru = sru_namespaces();
    match child_text(nodes, root, &sru, "numberOfRecords") {
        Some(t) => match parse_number(t.as_str(), 0xffff_ffff_ffff_ffff) {
            Some(v) => Ok(v),
            None => {
                let parts = vec!["a numeric <numberOfRecords> (it said \"", t.as_str(), "\")"];
                proof {
                    assert(views(parts@) =~= seq!["a numeric <numberOfRecords> (it said \""@, t@, "\")"@]);
                }
                Err(UnexpectedError::MissingElement { what: cat(parts), context: owned("SRU response") })
            },
        },
        None => if diagnosed {
            Ok(0)
        } else {
            Err(UnexpectedError::MissingElement { what: owned("<numberOfRecords>"), context: owned("SRU response") })
        },
    }
}

/// An optional `u32` from a child element's text.
fn child_number(nodes: &Vec<XmlNode>, p: usize, local: &str) -> (r: Option<u32>)
    requires
        tree_shaped(node_views(nodes@)),
        p < nodes.len(),
    ensures
        match r {
            Some(v) => child_u32(node_views(nodes@), p as int, local@) == Some(v as nat),
            None => child_u32(node_views(nodes@), p as int, local@) is None,
        },
{
    let sru = sru_namespaces();
    match child_text(nodes, p, &sru, local) {
        Some(t) => match parse_number(t.as_str(), 0xffff_ffff) {
            Some(v) => Some(v as u32),
            None => None,
        },
        None => None,
    }
}

/// How a record position reads inside a message.
fn position_message(p: Option<u32>) -> (s: String)
    ensures
        s@ == position_text(match p {
            Some(n) => Some(n as nat),
            None => None,
        }),
{
    match p {
        Some(n) => {
            let digits = decimal(n as u64);
            crate::text::concat("position ", digits.as_str())
        },
        None => owned("an unstated position"),
    }
}

/// One `<record>`.
fn record(body: &str, nodes: &Vec<XmlNode>, k: usize) -> (r: Result<SruRecord, UnexpectedError>)
    requires
        tree_shaped(node_views(nodes@)),
        k < nodes.len(),
    ensures
        match (r, record_spec(body@, node_views(nodes@), k as int)) {
            (Ok(rec), Ok(v)) => rec.view() == v,
            (Err(e), Err(v)) => e@ == v,
            _ => false,
        },
{
    let ghost n = node_views(nodes@);
    let sru = sru_namespaces();
    let position = child_number(nodes, k, "recordPosition");
    let pos_text = position_message(position);
    let context = crate::text::concat("SRU response, record at ", pos_text.as_str());
    proof {
        reveal_strlit("SRU response, record at ");
        reveal_strlit("SRU response");
        reveal_strlit(", record at ");
        assert("SRU response, record at "@ =~= "SRU response"@ + ", record at "@);
    }
    let schema = match child_text(nodes, k, &sru, "recordSchema") {
        Some(s) => s,
        None => String::new(),
    };
    let data = match child(nodes, k, &sru, "recordData") {
        Some(d) => d,
        None => return Err(UnexpectedError::MissingElement { what: owned("<recordData>"), context }),
    };
    let lowered = to_lower(schema.as_str());
    let marcxml = same_text(lowered.as_str(), "marcxml") || contains_text(lowered.as_str(), "marcxml-v1");
    if marcxml {
        let marc = marc_namespaces();
        let m = match child(nodes, data, &marc, "record") {
            Some(m) => m,
            None => return Err(UnexpectedError::MissingElement { what: owned("a MARCXML <record> element"), context }),
        };
        proof {
            assert(n[m as int] == nodes@[m as int].view());
        }
        match byte_slice(body, nodes[m].range.start, nodes[m].range.end) {
            Some(xml) => {
                proof {
                    vstd::utf8::encode_utf8_decode_utf8(xml@);
                }
                Ok(SruRecord { position, payload: RecordPayload::Marc(owned(xml)) })
            },
            None => Err(UnexpectedError::MissingElement { what: owned("a MARCXML <record> element"), context }),
        }
    } else if contains_text(lowered.as_str(), "diagnostic") {
        let ns = diag_namespaces();
        let d = match child(nodes, data, &ns, "diagnostic") {
            Some(d) => d,
            None => return Err(UnexpectedError::MissingElement { what: owned("a <diagnostic> element"), context }),
        };
        match diagnostic(nodes, d, context.as_str()) {
            Ok(v) => Ok(SruRecord { position, payload: RecordPayload::Diagnostic(v) }),
            Err(e) => Err(e),
        }
    } else {
        Ok(SruRecord { position, payload: RecordPayload::Unknown { schema } })
    }
}

/// The records of the `<records>` list.
fn records(body: &str, nodes: &Vec<XmlNode>, list: usize) -> (r: Result<Vec<SruRecord>, UnexpectedError>)
    requires
        tree_shaped(node_views(nodes@)),
        list < nodes.len(),
    ensures
        match (r, records_from(body@, node_views(nodes@), list as int, list + 1)) {
            (Ok(v), Ok(w)) => record_views(v@) == w,
            (Err(e), Err(w)) => e@ == w,
            _ => false,
        },
{
    let ghost n = node_views(nodes@);
    let sru = sru_namespaces();
    let mut found: Vec<SruRecord> = Vec::new();
    let mut k: usize = list + 1;
    proof {
        assert(record_views(found@) =~= Seq::<RecordView>::empty());
        match records_from(body@, n, list as int, k as int) {
            Ok(rest) => { assert(Seq::<RecordView>::empty() + rest =~= rest); },
            Err(_) => {},
        }
    }
    while k < nodes.len()
        invariant
            list < k <= nodes.len(),
            n == node_views(nodes@),
            tree_shaped(n),
            str_views(sru@) == sru_ns(),
            records_from(body@, n, list as int, list + 1) == match records_from(body@, n, list as int, k as int) {
                Ok(rest) => Ok(record_views(found@) + rest),
                Err(e) => Err::<Seq<RecordView>, UnexpectedView>(e),
            },
        decreases nodes.len() - k,
    {
        proof {
            assert(n[k as int] == nodes@[k as int].view());
        }
        if nodes[k].parent == Some(list) && is_element(&nodes[k], &sru, "record") {
            match record(body, nodes, k) {
                Ok(rec) => {
                    let ghost before = found@;
                    found.push(rec);
                    proof {
                        assert(record_views(found@) =~= record_views(before).push(rec.view()));
                        match records_from(body@, n, list as int, k + 1) {
                            Ok(rest) => {
                                assert(record_views(before) + (seq![rec.view()] + rest) =~= record_views(found@) + rest);
                            },
                            Err(_) => {},
                        }
                    }
                },
                Err(e) => {
                    proof {
                        assert(records_from(body@, n, list as int, k as int) == Err::<Seq<RecordView>, UnexpectedView>(e@));
                    }
                    return Err(e);
                },
            }
        }
        k = k + 1;
    }
    proof {
        assert(record_views(found@) + Seq::<RecordView>::empty() =~= record_views(found@));
    }
    Ok(found)
}

/// The "this is not an SRU document" error, with the start of the body.
fn not_xml_error(body: &str, reason: &str) -> (e: UnexpectedError)
    ensures
        e@ == not_xml(body@, reason@),
{
    let parts = vec!["SRU response (", reason, ")"];
    proof {
        reveal_strlit("SRU response (");
        reveal_strlit("SRU response");
        reveal_strlit(" (");
        assert("SRU response ("@ =~= "SRU response"@ + " ("@);
        assert(views(parts@) =~= seq!["SRU response ("@, reason@, ")"@]);
        reveal_with_fuel(flatten, 4);
    }
    UnexpectedError::NotXml { context: cat(parts), snippet: snippet(body) }
}

/// The `1/48` part of `info:srw/diagnostic/1/48`: what follows the last `/diagnostic/`,
/// or the whole string when there is none.
pub open spec fn diagnostic_code_spec(uri: Seq<char>) -> Seq<char> {
    let marker = "/diagnostic/"@;
    if exists|k: int| 0 <= k <= uri.len() - marker.len() && #[trigger] uri.subrange(k, k + marker.len()) == marker {
        let k = choose|k: int| 0 <= k <= uri.len() - marker.len() && #[trigger] uri.subrange(k, k + marker.len()) == marker
            && forall|j: int| k < j <= uri.len() - marker.len() ==> #[trigger] uri.subrange(j, j + marker.len()) != marker;
        uri.subrange(k + marker.len(), uri.len() as int)
    } else {
        uri
    }
}

/// The `1/48` part of `info:srw/diagnostic/1/48`, and the whole string when it is not
/// shaped like that.
pub fn diagnostic_code(uri: &str) -> (code: String)
    ensures
        code@ == diagnostic_code_spec(uri@),
{
    let c = chars_of(uri);
    let marker = chars_of("/diagnostic/");
    proof {
        reveal_strlit("/diagnostic/");
    }
    let m = marker.len();
    if c.len() < m {
        proof {
            assert(!exists|k: int| 0 <= k <= uri@.len() - m && #[trigger] uri@.subrange(k, k + m) == "/diagnostic/"@);
        }
        return owned(uri);
    }
    let mut k: usize = c.len() - m + 1;
    while k > 0
        invariant
            m == 12,
            m == marker.len(),
            marker@ == "/diagnostic/"@,
            c@ == uri@,
            m <= c.len(),
            k <= c.len() - m + 1,
            forall|j: int| k <= j <= c.len() - m ==> #[trigger] uri@.subrange(j, j + m) != "/diagnostic/"@,
        decreases k,
    {
        let start = k - 1;
        let mut same = true;
        let mut i: usize = 0;
        while i < m
            invariant
                i <= m,
                m == marker.len(),
                start + m <= c.len(),
                c@ == uri@,
                same == forall|x: int| 0 <= x < i ==> c@[start + x] == marker@[x],
            decreases m - i,
        {
            if c[start + i] != marker[i] {
                same = false;
            }
            i = i + 1;
        }
        if same {
            proof {
                assert(uri@.subrange(start as int, start + m) =~= "/diagnostic/"@);
            }
            return crate::model::slice_string(&c, start + m, c.len());
        }
        proof {
            let x = choose|x: int| 0 <= x < m && c@[start + x] != marker@[x];
            assert(uri@.subrange(start as int, start + m)[x] != "/diagnostic/"@[x]);
        }
        k = k - 1;
    }
    owned(uri)
}

/// Whether `e` is the rejection a top-level diagnostic makes: `1/2` is the permanent
/// "query too long", every other one the service's refusal with its own words.
pub open spec fn rejected_by(d: DiagnosticView, e: Error) -> bool {
    if diagnostic_code_spec(d.uri) == "1/2"@ {
        e matches Error::Rejected(RejectedError::TooLongUpstream { uri }) && uri@ == d.uri
    } else {
        e matches Error::Rejected(RejectedError::Diagnostic { uri, message, details }) && uri@ == d.uri
            && message@ == match d.message {
            Some(m) => m,
            None => "the catalogue gave no message"@,
        } && opt_view(details) == d.details
    }
}

/// Turn top-level diagnostics into a rejection: diagnostic `1/2` is the permanent
/// "query too long", every other one the service's refusal with its own words.
pub fn check(response: &SruResponse) -> (r: Result<(), Error>)
    ensures
        match r {
            Ok(()) => response.diagnostics@.len() == 0,
            Err(e) => response.diagnostics@.len() > 0 && rejected_by(response.view().diagnostics[0], e) && ({
                let d = response.diagnostics@[0];
                if diagnostic_code_spec(d.uri@) == "1/2"@ {
                    e matches Error::Rejected(RejectedError::TooLongUpstream { uri }) && uri@ == d.uri@
                } else {
                    e matches Error::Rejected(RejectedError::Diagnostic { uri, message, details }) && uri@ == d.uri@
                        && message@ == match d.message {
                        Some(m) => m@,
                        None => "the catalogue gave no message"@,
                    } && opt_view(details) == opt_view(d.details)
                }
            }),
        },
{
    if response.diagnostics.len() == 0 {
        return Ok(());
    }
    let d = &response.diagnostics[0];
    let code = diagnostic_code(d.uri.as_str());
    if same_text(code.as_str(), "1/2") {
        return Err(Error::Rejected(RejectedError::TooLongUpstream { uri: d.uri.clone() }));
    }
    let message = match &d.message {
        Some(m) => m.clone(),
        None => owned("the catalogue gave no message"),
    };
    let details = match &d.details {
        Some(x) => Some(x.clone()),
        None => None,
    };
    Err(Error::Rejected(RejectedError::Diagnostic { uri: d.uri.clone(), message, details }))
}

/// A diagnostic's message, or the words for its absence.
pub open spec fn message_or_none(m: Option<Seq<char>>) -> Seq<char> {
    match m {
        Some(x) => x,
        None => "no message"@,
    }
}

/// How a schema reads inside a message.
pub open spec fn schema_text(schema: Seq<char>) -> Seq<char> {
    if schema.len() == 0 {
        "a record with no stated schema"@
    } else {
        "schema \""@ + schema + "\""@
    }
}

/// The message for a record delivered as a surrogate diagnostic.
pub open spec fn undelivered_text(position: Option<nat>, d: DiagnosticView) -> Seq<char> {
    flatten(seq![
        "the catalogue could not deliver the record at "@,
        position_text(position),
        ": "@,
        message_or_none(d.message),
        " ("@,
        d.uri,
        ")"@,
    ])
}

/// The message for a record delivered under a schema this tool cannot read.
pub open spec fn unknown_schema_text(position: Option<nat>, schema: Seq<char>) -> Seq<char> {
    flatten(seq!["the record at "@, position_text(position), " arrived as "@, schema_text(schema), ", which blibs cannot read"@])
}

/// The note a record that arrived as something other than MARC gets, if any.
pub open spec fn record_note_spec(r: RecordView) -> Option<(Seq<char>, Seq<char>)> {
    match r.payload {
        PayloadView::Marc(_) => None,
        PayloadView::Diagnostic(d) => Some(("record_undelivered"@, undelivered_text(r.position, d))),
        PayloadView::Unknown(schema) => Some(("record_schema_unknown"@, unknown_schema_text(r.position, schema))),
    }
}

/// The notes of the records, in record order.
pub open spec fn record_notes_spec(rs: Seq<RecordView>) -> Seq<(Seq<char>, Seq<char>)>
    decreases rs.len(),
{
    if rs.len() == 0 {
        Seq::empty()
    } else {
        match record_note_spec(rs.last()) {
            Some(n) => record_notes_spec(rs.drop_last()).push(n),
            None => record_notes_spec(rs.drop_last()),
        }
    }
}

/// The kind and message of each note.
pub open spec fn note_views(v: Seq<Note>) -> Seq<(Seq<char>, Seq<char>)> {
    v.map_values(|n: Note| (n.kind@, n.message@))
}

/// The note for one record, if it needs one.
fn record_note(r: &SruRecord) -> (n: Option<Note>)
    ensures
        match n {
            Some(note) => record_note_spec(r.view()) == Some((note.kind@, note.message@)),
            None => record_note_spec(r.view()) is None,
        },
{
    let pos = position_message(r.position);
    match &r.payload {
        RecordPayload::Marc(_) => None,
        RecordPayload::Diagnostic(d) => {
            let message = match &d.message {
                Some(m) => m.as_str(),
                None => "no message",
            };
            let parts = vec![
                "the catalogue could not deliver the record at ",
                pos.as_str(),
                ": ",
                message,
                " (",
                d.uri.as_str(),
                ")",
            ];
            proof {
                assert(views(parts@) =~= seq![
                    "the catalogue could not deliver the record at "@,
                    position_text(r.view().position),
                    ": "@,
                    message_or_none(d.view().message),
                    " ("@,
                    d.view().uri,
                    ")"@,
                ]);
            }
            let text = cat(parts);
            proof {
                assert(text@ == undelivered_text(r.view().position, d.view()));
            }
            Some(Note::new("record_undelivered", text))
        },
        RecordPayload::Unknown { schema } => {
            let described = if schema.as_str().unicode_len() == 0 {
                owned("a record with no stated schema")
            } else {
                let q = vec!["schema \"", schema.as_str(), "\""];
                proof {
                    assert(views(q@) =~= seq!["schema \""@, schema@, "\""@]);
                    reveal_with_fuel(flatten, 4);
                }
                let x = cat(q);
                proof {
                    assert(x@ =~= "schema \""@ + schema@ + "\""@);
                }
                x
            };
            let parts = vec!["the record at ", pos.as_str(), " arrived as ", described.as_str(), ", which blibs cannot read"];
            proof {
                assert(views(parts@) =~= seq![
                    "the record at "@,
                    position_text(r.view().position),
                    " arrived as "@,
                    schema_text(schema@),
                    ", which blibs cannot read"@,
                ]);
            }
            let text = cat(parts);
            proof {
                assert(text@ == unknown_schema_text(r.view().position, schema@));
            }
            Some(Note::new("record_schema_unknown", text))
        },
    }
}

/// Notes for everything that limited the response without breaking it: a record
/// delivered as a surrogate diagnostic, and one delivered under an unknown schema.
pub fn record_notes(response: &SruResponse) -> (v: Vec<Note>)
    ensures
        note_views(v@) == record_notes_spec(record_views(response.records@)),
{
    let ghost rs = record_views(response.records@);
    let mut notes: Vec<Note> = Vec::new();
    let mut i: usize = 0;
    while i < response.records.len()
        invariant
            i <= response.records.len(),
            rs == record_views(response.records@),
            note_views(notes@) == record_notes_spec(rs.take(i as int)),
        decreases response.records.len() - i,
    {
        proof {
            assert(rs.take(i + 1).drop_last() =~= rs.take(i as int));
            assert(rs.take(i + 1).last() == response.records@[i as int].view());
        }
        match record_note(&response.records[i]) {
            Some(note) => {
                let ghost before = notes@;
                notes.push(note);
                proof {
                    assert(note_views(notes@) =~= note_views(before).push((note.kind@, note.message@)));
                }
            },
            None => {},
        }
        i = i + 1;
    }
    proof {
        assert(rs.take(i as int) =~= rs);
    }
    notes
}

} // verus!
