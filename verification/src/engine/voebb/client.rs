//! voebb.de requests: what a search asks the form, field by field.
//!
//! A request replays the page it came from, and the visible fields are replayed too, the
//! way a browser would send them: the search box and the scope select ride along on the
//! facet filter and on every further page.
use vstd::prelude::*;
use crate::error::{Error, UnexpectedError};
use crate::model::{Identifier, Note, QuerySpec, Term};
use crate::text::{cat, concat, debug_text, flatten, owned, push_str, quoted, views};
use super::parse::form::{button_views, first_button, last_labelled, Button, SCOPE_HOLDINGS, SEARCH_SCOPE, SEARCH_TERMS};
use super::parse::detail::{detail_spec, is_missing_record, missing_record_spec, parse_detail, DetailPage};
use super::parse::items::note_views;
use super::parse::noaccess::{self, noaccess_spec};
use super::session::{extra_views, kept_fields, Session};
use crate::html::html_nodes;
use crate::http::{pair_views, CachePolicy, Fetch, Method, Replay, Request};
use crate::model::{RecordId, RecordView};
use crate::error::UnexpectedView;

verus! {

/// The public entry point of the search form.
pub const VOEBB_BASE: &'static str = "https://www.voebb.de";

/// How many search rows the advanced form offers.
pub const ADVANCED_ROWS: usize = 4;

/// The index vocabulary of the advanced form; the option values are these strings.
pub const INDEX_TITLE: &'static str = "Titel";
/// `--author`.
pub const INDEX_PERSON: &'static str = "Person";
/// `--isbn` and `--issn`.
pub const INDEX_IDENTIFIER: &'static str = "ISBN, ISSN, ISMN";
/// `--subject`.
pub const INDEX_SUBJECT: &'static str = "Schlagwort";

/// The free terms of a query joined with single spaces.
pub open spec fn free_terms_spec(terms: Seq<Term>) -> Seq<char>
    decreases terms.len(),
{
    if terms.len() == 0 {
        Seq::empty()
    } else if terms.len() == 1 {
        terms[0].text_spec()
    } else {
        free_terms_spec(terms.drop_last()) + " "@ + terms.last().text_spec()
    }
}

/// The free terms of a query as one search string.
pub fn free_terms(query: &QuerySpec) -> (s: String)
    ensures
        s@ == free_terms_spec(query.terms@),
{
    let mut s = String::new();
    let mut i: usize = 0;
    while i < query.terms.len()
        invariant
            i <= query.terms.len(),
            s@ == free_terms_spec(query.terms@.take(i as int)),
        decreases query.terms.len() - i,
    {
        proof {
            assert(query.terms@.take(i + 1).drop_last() =~= query.terms@.take(i as int));
            assert(query.terms@.take(i + 1).last() == query.terms@[i as int]);
        }
        if i > 0 {
            push_str(&mut s, " ");
            proof {
                reveal_strlit(" ");
            }
        } else {
            proof {
                assert(query.terms@.take(1) =~= seq![query.terms@[0]]);
            }
        }
        push_str(&mut s, query.terms[i].text());
        i = i + 1;
    }
    proof {
        assert(query.terms@.take(i as int) =~= query.terms@);
    }
    s
}

/// The visible fields of the search area, as a browser sends them: the search box and
/// the scope select set to the network's holdings.
pub open spec fn replay_spec(terms: Seq<char>) -> Seq<(Seq<char>, Seq<char>)> {
    seq![("$Autosuggest"@, terms), ("$Select"@, "Bibliotheksbestand"@)]
}

/// The visible fields of the search area, as a browser would send them.
pub fn replay_fields(terms: &str) -> (v: Vec<(String, String)>)
    ensures
        pair_views(v@) == replay_spec(terms@),
{
    let v = vec![(owned(SEARCH_TERMS), owned(terms)), (owned(SEARCH_SCOPE), owned(SCOPE_HOLDINGS))];
    proof {
        assert(pair_views(v@) =~= replay_spec(terms@));
    }
    v
}

/// The rows the flags of a query ask for, before the free terms: identifier, title,
/// author, subject, each when given.
pub open spec fn flag_rows(q: QuerySpec) -> Seq<(Seq<char>, Seq<char>)> {
    let r1: Seq<(Seq<char>, Seq<char>)> = match q.identifier {
        Some(id) => seq![("ISBN, ISSN, ISMN"@, id.digits())],
        None => Seq::empty(),
    };
    let r2 = match q.title {
        Some(t) => r1.push(("Titel"@, t.text_spec())),
        None => r1,
    };
    let r3 = match q.author {
        Some(a) => r2.push(("Person"@, a@)),
        None => r2,
    };
    match q.subject {
        Some(s) => r3.push(("Schlagwort"@, s.text_spec())),
        None => r3,
    }
}

/// Every row the query needs: the flags, then the free terms as a title when a flag is
/// there too. Free terms on their own belong in the single search box.
pub open spec fn wanted_rows(q: QuerySpec) -> Seq<(Seq<char>, Seq<char>)> {
    let rows = flag_rows(q);
    let terms = free_terms_spec(q.terms@);
    if rows.len() > 0 && terms.len() > 0 {
        rows.push(("Titel"@, terms))
    } else {
        rows
    }
}

/// A dropped row as the note names it: `Index = "value"`.
pub open spec fn row_text(r: (Seq<char>, Seq<char>)) -> Seq<char> {
    r.0 + " = "@ + debug_text(r.1)
}

/// Dropped rows named and joined with `, `.
pub open spec fn rows_text(rs: Seq<(Seq<char>, Seq<char>)>) -> Seq<char>
    decreases rs.len(),
{
    if rs.len() == 0 {
        Seq::empty()
    } else if rs.len() == 1 {
        row_text(rs[0])
    } else {
        rows_text(rs.drop_last()) + ", "@ + row_text(rs.last())
    }
}

/// The notes for what the advanced form could not be asked exactly as written: the free
/// terms searched as a title, when that row was sent, then the rows beyond the fourth
/// that were not sent at all.
pub open spec fn row_notes(q: QuerySpec) -> Seq<(Seq<char>, Seq<char>)> {
    let all = wanted_rows(q);
    let terms = free_terms_spec(q.terms@);
    let free_sent = flag_rows(q).len() > 0 && terms.len() > 0 && flag_rows(q).len() < ADVANCED_ROWS;
    let n1: Seq<(Seq<char>, Seq<char>)> = if free_sent {
        seq![
            (
                "voebb_free_terms_as_title"@,
                "voebb.de's advanced search has no free-text index, so "@ + debug_text(terms)
                    + " was searched as a title next to the other fields"@,
            ),
        ]
    } else {
        Seq::empty()
    };
    if all.len() > ADVANCED_ROWS {
        n1.push(
            (
                "voebb_query_truncated"@,
                "voebb.de's advanced search has 4 rows, so "@ + rows_text(all.skip(ADVANCED_ROWS as int))
                    + " was not sent"@,
            ),
        )
    } else {
        n1
    }
}

/// The rows that are sent: the first four that are wanted.
pub open spec fn sent_rows(q: QuerySpec) -> Seq<(Seq<char>, Seq<char>)> {
    let all = wanted_rows(q);
    if all.len() > ADVANCED_ROWS {
        all.take(ADVANCED_ROWS as int)
    } else {
        all
    }
}

/// The views of rows.
pub open spec fn row_views(v: Seq<(&'static str, String)>) -> Seq<(Seq<char>, Seq<char>)> {
    v.map_values(|r: (&'static str, String)| (r.0@, r.1@))
}

/// The views of notes as kind and message.
pub open spec fn note_texts(v: Seq<Note>) -> Seq<(Seq<char>, Seq<char>)> {
    v.map_values(|n: Note| (n.kind@, n.message@))
}

/// The rows of the advanced form, and what could not be expressed exactly.
///
/// The form has four rows and no free-text index. Free terms next to a field flag are
/// searched as a title, the closest index the form has; a query that needs more than
/// four rows loses the last of them. The notes describe what was sent, not what was
/// intended: the row list is cut to length before either is worded. An empty row list
/// means the query is free terms only and belongs in the single search box.
pub fn advanced_rows(query: &QuerySpec) -> (r: (Vec<(&'static str, String)>, Vec<Note>))
    ensures
        row_views(r.0@) == sent_rows(*query),
        note_texts(r.1@) == row_notes(*query),
        forall|i: int| 0 <= i < r.1@.len() ==> (#[trigger] r.1@[i]).records@.len() == 0,
{
    let mut rows: Vec<(&'static str, String)> = Vec::new();
    proof {
        assert(row_views(rows@) =~= Seq::<(Seq<char>, Seq<char>)>::empty());
    }
    if let Some(identifier) = &query.identifier {
        let value = match identifier {
            Identifier::Isbn(d) => owned(d.as_str()),
            Identifier::Issn(d) => owned(d.as_str()),
        };
        rows.push((INDEX_IDENTIFIER, value));
    }
    proof {
        assert(row_views(rows@) =~= match query.identifier {
            Some(id) => seq![("ISBN, ISSN, ISMN"@, id.digits())],
            None => Seq::<(Seq<char>, Seq<char>)>::empty(),
        });
    }
    if let Some(title) = &query.title {
        let ghost before = row_views(rows@);
        rows.push((INDEX_TITLE, owned(title.text())));
        proof {
            assert(row_views(rows@) =~= before.push(("Titel"@, title.text_spec())));
        }
    }
    if let Some(author) = &query.author {
        let ghost before = row_views(rows@);
        rows.push((INDEX_PERSON, owned(author.as_str())));
        proof {
            assert(row_views(rows@) =~= before.push(("Person"@, author@)));
        }
    }
    if let Some(subject) = &query.subject {
        let ghost before = row_views(rows@);
        rows.push((INDEX_SUBJECT, owned(subject.text())));
        proof {
            assert(row_views(rows@) =~= before.push(("Schlagwort"@, subject.text_spec())));
        }
    }
    let flags = rows.len();
    let terms = free_terms(query);
    let with_free = flags > 0 && terms.as_str().unicode_len() > 0;
    if with_free {
        let ghost before = row_views(rows@);
        rows.push((INDEX_TITLE, owned(terms.as_str())));
        proof {
            assert(row_views(rows@) =~= before.push(("Titel"@, terms@)));
        }
    }
    let mut notes: Vec<Note> = Vec::new();
    if with_free && flags < ADVANCED_ROWS {
        let q = quoted(terms.as_str());
        let parts = vec![
            "voebb.de's advanced search has no free-text index, so ",
            q.as_str(),
            " was searched as a title next to the other fields",
        ];
        proof {
            assert(views(parts@) =~= seq![
                "voebb.de's advanced search has no free-text index, so "@,
                debug_text(terms@),
                " was searched as a title next to the other fields"@,
            ]);
            reveal_with_fuel(flatten, 4);
        }
        notes.push(Note::new("voebb_free_terms_as_title", cat(parts)));
    }
    proof {
        assert(note_texts(notes@) =~= (if with_free && flags < ADVANCED_ROWS {
            seq![
                (
                    "voebb_free_terms_as_title"@,
                    "voebb.de's advanced search has no free-text index, so "@ + debug_text(terms@)
                        + " was searched as a title next to the other fields"@,
                ),
            ]
        } else {
            Seq::<(Seq<char>, Seq<char>)>::empty()
        }));
    }
    if rows.len() > ADVANCED_ROWS {
        let ghost all = row_views(rows@);
        let mut dropped = String::new();
        let mut i: usize = ADVANCED_ROWS;
        proof {
            assert(all.skip(ADVANCED_ROWS as int).take(0) =~= Seq::<(Seq<char>, Seq<char>)>::empty());
        }
        while i < rows.len()
            invariant
                ADVANCED_ROWS <= i <= rows.len(),
                all == row_views(rows@),
                dropped@ == rows_text(all.skip(ADVANCED_ROWS as int).take(i - ADVANCED_ROWS)),
            decreases rows.len() - i,
        {
            let ghost done = all.skip(ADVANCED_ROWS as int).take(i - ADVANCED_ROWS);
            let q = quoted(rows[i].1.as_str());
            if i > ADVANCED_ROWS {
                push_str(&mut dropped, ", ");
            }
            push_str(&mut dropped, rows[i].0);
            push_str(&mut dropped, " = ");
            push_str(&mut dropped, q.as_str());
            proof {
                reveal_strlit(", ");
                reveal_strlit(" = ");
                let next = all.skip(ADVANCED_ROWS as int).take(i + 1 - ADVANCED_ROWS);
                assert(next.drop_last() =~= done);
                assert(next.last() == all[i as int]);
                if i == ADVANCED_ROWS {
                    assert(done.len() == 0);
                    assert(next =~= seq![all[i as int]]);
                }
            }
            i = i + 1;
        }
        proof {
            assert(all.skip(ADVANCED_ROWS as int).take(i - ADVANCED_ROWS) =~= all.skip(ADVANCED_ROWS as int));
        }
        let parts = vec!["voebb.de's advanced search has 4 rows, so ", dropped.as_str(), " was not sent"];
        proof {
            assert(views(parts@) =~= seq!["voebb.de's advanced search has 4 rows, so "@, dropped@, " was not sent"@]);
            reveal_with_fuel(flatten, 4);
        }
        let ghost before = note_texts(notes@);
        notes.push(Note::new("voebb_query_truncated", cat(parts)));
        proof {
            assert(note_texts(notes@) =~= before.push((
                "voebb_query_truncated"@,
                "voebb.de's advanced search has 4 rows, so "@ + rows_text(all.skip(ADVANCED_ROWS as int)) + " was not sent"@,
            )));
        }
        rows.truncate(ADVANCED_ROWS);
        proof {
            assert(row_views(rows@) =~= all.take(ADVANCED_ROWS as int));
        }
    }
    (rows, notes)
}

/// The record page, which needs no session at all.
pub const RECORD_PATH: &'static str = "/aDISWeb/app/prod00";

/// The query parameter the record page is addressed by; it appears twice, the product
/// first, the record second.
pub const RECORD_PARAM: &'static str = "sp";

/// The product the record page belongs to.
pub const RECORD_PRODUCT: &'static str = "SPROD00";

/// The entry page, where a session starts: a repeatable GET of the bare host, never
/// cached.
pub fn entry_request() -> (r: Request)
    ensures
        r.method == Method::Get,
        r.base@ == VOEBB_BASE@ + "/"@,
        r.query@.len() == 0,
        r.form@.len() == 0,
        r.cache == CachePolicy::Never,
        r.replay == Replay::Repeatable,
{
    Request::get(concat(VOEBB_BASE, "/").as_str()).cache(CachePolicy::Never)
}

/// Whether a request is the GET of one record's page: stateless, never cached,
/// repeatable, with the product and the record's local number as parameters.
pub open spec fn is_record_request(r: Request, id: RecordId) -> bool {
    &&& r.method == Method::Get
    &&& r.base@ == VOEBB_BASE@ + RECORD_PATH@
    &&& pair_views(r.query@) == seq![(RECORD_PARAM@, RECORD_PRODUCT@), (RECORD_PARAM@, id.local_spec())]
    &&& r.form@.len() == 0
    &&& r.cache == CachePolicy::Never
    &&& r.replay == Replay::Repeatable
}

/// The step a record page names in its errors.
pub const RECORD_STEP: &'static str = "the record page";

/// Whether `r` is what a record page with this body answers for `id`: the session-lost
/// page is that error; the search entry page that stands in for an unknown number is no
/// record; any other page is the record it carries, or the error of a page that carries
/// none.
pub open spec fn detail_answered(body: Seq<char>, id: RecordId, r: Result<Option<DetailPage>, Error>) -> bool {
    if noaccess_spec(body, html_nodes(body)) {
        r matches Err(Error::Unexpected(u)) && u@ == (UnexpectedView::VoebbNoAccess { step: RECORD_STEP@ })
    } else if missing_record_spec(html_nodes(body)) {
        r is Ok && r->Ok_0 is None
    } else {
        match r {
            Ok(Some(p)) => detail_spec(html_nodes(body), id) == Ok::<(RecordView, Seq<(Seq<char>, Seq<char>)>), UnexpectedView>(
                (p.record.view(), note_views(p.notes@)),
            ),
            Err(Error::Unexpected(u)) => detail_spec(html_nodes(body), id) == Err::<(RecordView, Seq<(Seq<char>, Seq<char>)>), UnexpectedView>(u@),
            _ => false,
        }
    }
}

/// What a record page's body answers for `id`: the session-lost page is an error, the
/// search entry page is no record, any other page is parsed.
pub fn detail_answer(body: &str, id: &RecordId) -> (r: Result<Option<DetailPage>, Error>)
    ensures
        detail_answered(body@, *id, r),
{
    match noaccess::check(body, RECORD_STEP) {
        Ok(()) => {},
        Err(e) => {
            return Err(e);
        },
    }
    if is_missing_record(body) {
        return Ok(None);
    }
    match parse_detail(body, id) {
        Ok(p) => Ok(Some(p)),
        Err(e) => Err(e),
    }
}

/// The record page of one record: a repeatable GET addressed by product and local id,
/// never cached, because an item table is a statement about right now.
pub fn record_request(id: &RecordId) -> (r: Request)
    ensures
        is_record_request(r, *id),
{
    let r = Request::get(concat(VOEBB_BASE, RECORD_PATH).as_str()).query(RECORD_PARAM, RECORD_PRODUCT).query(
        RECORD_PARAM,
        id.local_id(),
    ).cache(CachePolicy::Never);
    proof {
        assert(pair_views(r.query@) =~= seq![(RECORD_PARAM@, RECORD_PRODUCT@), (RECORD_PARAM@, id.local_spec())]);
    }
    r
}

/// One form submission: a POST to the session's action carrying the fields, never
/// cached, and single-use, because the session's request counter is spent by the
/// sending: a replay of the same payload is answered with the session-lost page.
pub fn submission(session: &Session, payload: Vec<(String, String)>) -> (r: Request)
    ensures
        r.method == Method::Post,
        r.base@ == VOEBB_BASE@ + session.action@,
        r.query@.len() == 0,
        r.form == payload,
        r.cache == CachePolicy::Never,
        r.replay == Replay::SingleUse,
{
    Request::post(concat(VOEBB_BASE, session.action.as_str()).as_str(), payload).replay(Replay::SingleUse).cache(
        CachePolicy::Never,
    )
}

/// Whether a request is the submission of the session's form with these fields: a
/// single-use POST to the form's action, never cached.
pub open spec fn is_submission(r: Request, session: Session, fields: Seq<(Seq<char>, Seq<char>)>) -> bool {
    &&& r.method == Method::Post
    &&& r.base@ == VOEBB_BASE@ + session.action@
    &&& r.query@.len() == 0
    &&& super::parse::form::field_views(r.form@) == fields
    &&& r.cache == CachePolicy::Never
    &&& r.replay == Replay::SingleUse
}

/// Whether `r` is what submitting the session's form with these fields makes of the
/// answer `resp`: a session-lost page is that error, naming the step; any other body is
/// the answer.
pub open spec fn posted(resp: crate::http::Response, session: Session, fields: Seq<(Seq<char>, Seq<char>)>, step: Seq<char>, r: Result<String, Error>) -> bool {
    &&& is_submission(resp.request, session, fields)
    &&& if noaccess_spec(resp.body@, html_nodes(resp.body@)) {
        r matches Err(Error::Unexpected(u)) && u@ == (UnexpectedView::VoebbNoAccess { step })
    } else {
        r matches Ok(b) && b@ == resp.body@
    }
}

/// The fields a press of button `b` sends: the session's hidden fields that the extra
/// fields do not replace, then the extra fields, then the button's own three.
pub open spec fn press_fields(session: Session, extra: Seq<(Seq<char>, Seq<char>)>, b: super::parse::form::ButtonView) -> Seq<(Seq<char>, Seq<char>)> {
    let e = pressed_fields(extra, b);
    kept_fields(super::parse::form::field_views(session.fields@), e) + e
}

/// Whether a request is the entry page's GET.
pub open spec fn is_entry_request(r: Request) -> bool {
    &&& r.method == Method::Get
    &&& r.base@ == VOEBB_BASE@ + "/"@
    &&& r.query@.len() == 0
    &&& r.form@.len() == 0
    &&& r.cache == CachePolicy::Never
    &&& r.replay == Replay::Repeatable
}

/// The step the entry page names in its errors.
pub const ENTRY_STEP: &'static str = "the entry page";

/// Whether `r` is the session the entry page `resp` starts: a session-lost page is that
/// error; otherwise the page's form, or the error of a page that carries none.
pub open spec fn opened(resp: crate::http::Response, r: Result<Session, Error>) -> bool {
    &&& is_entry_request(resp.request)
    &&& if noaccess_spec(resp.body@, html_nodes(resp.body@)) {
        r matches Err(Error::Unexpected(u)) && u@ == (UnexpectedView::VoebbNoAccess { step: ENTRY_STEP@ })
    } else {
        match super::parse::form::form_spec(html_nodes(resp.body@), ENTRY_STEP@) {
            Ok(x) => r matches Ok(s) && (s.action@, super::parse::form::field_views(s.fields@), button_views(s.buttons@)) == x,
            Err(u) => r matches Err(Error::Unexpected(v)) && v@ == u,
        }
    }
}

/// The fields of a submission with one button pressed: the extra fields, the button's own
/// name as `pressed`, `source=$B`, and the button's `data-fld` as `focus`.
pub open spec fn pressed_fields(extra: Seq<(Seq<char>, Seq<char>)>, b: super::parse::form::ButtonView) -> Seq<(Seq<char>, Seq<char>)> {
    extra + seq![(b.name, "pressed"@), ("source"@, "$B"@), ("focus"@, b.focus)]
}

/// The error for a button the page stopped offering.
pub open spec fn missing_button_spec(label: Seq<char>, step: Seq<char>) -> UnexpectedView {
    UnexpectedView::MissingSelector {
        selector: "input[type=\"submit\"][value=\""@ + label + "\"]"@,
        document: "voebb.de ("@ + step + ")"@,
    }
}

/// A button the page stopped offering.
fn missing_button(label: &str, step: &str) -> (e: Error)
    ensures
        e matches Error::Unexpected(u) && u@ == missing_button_spec(label@, step@),
{
    let selector = vec!["input[type=\"submit\"][value=\"", label, "\"]"];
    let document = vec!["voebb.de (", step, ")"];
    proof {
        reveal_with_fuel(flatten, 4);
        assert(views(selector@) =~= seq!["input[type=\"submit\"][value=\""@, label@, "\"]"@]);
        assert(views(document@) =~= seq!["voebb.de ("@, step@, ")"@]);
    }
    Error::Unexpected(UnexpectedError::MissingSelector { selector: cat(selector), document: cat(document) })
}

/// A request as it goes out from [`VoebbClient::send`]: never served from the cache.
pub open spec fn never_cached(r: Request) -> Request {
    Request { method: r.method, base: r.base, query: r.query, form: r.form, cache: CachePolicy::Never, replay: r.replay }
}

/// Whether `r` is what sending `request` makes of the answer `resp`: the transport was
/// handed the request, never cached; a session-lost page is that error, naming the step;
/// any other body is the answer.
pub open spec fn sent_answer(resp: crate::http::Response, request: Request, step: Seq<char>, r: Result<String, Error>) -> bool {
    &&& resp.request == never_cached(request)
    &&& if noaccess_spec(resp.body@, html_nodes(resp.body@)) {
        r matches Err(Error::Unexpected(u)) && u@ == (UnexpectedView::VoebbNoAccess { step })
    } else {
        r matches Ok(b) && b@ == resp.body@
    }
}

/// The four index selects of the advanced form, in row order.
pub open spec fn index_field(p: int) -> Seq<char> {
    if p == 0 { "$Select$0"@ } else if p == 1 { "$Select$2"@ } else if p == 2 { "$Select$4"@ } else { "$Select$6"@ }
}

/// The four term fields of the advanced form, in row order.
pub open spec fn term_field(p: int) -> Seq<char> {
    if p == 0 { "$Autosuggest$0"@ } else if p == 1 { "$Autosuggest$1"@ } else if p == 2 { "$Autosuggest$2"@ } else { "$Autosuggest$3"@ }
}

/// The boolean select after a row, between it and the next.
pub open spec fn join_field(p: int) -> Seq<char> {
    if p == 0 { "$Select$1"@ } else if p == 1 { "$Select$3"@ } else { "$Select$5"@ }
}

/// The only join this tool sends.
pub const JOIN_AND: &'static str = "UND";

/// The fields of one row of the advanced form: its index, its term, and, for all but the
/// last row of the form, the join to the next one.
pub open spec fn row_fields(p: int, row: (Seq<char>, Seq<char>)) -> Seq<(Seq<char>, Seq<char>)> {
    seq![(index_field(p), row.0), (term_field(p), row.1)] + if p < 3 {
        seq![(join_field(p), JOIN_AND@)]
    } else {
        Seq::empty()
    }
}

/// The fields of the filled rows, in row order; the form has four.
pub open spec fn rows_fields(rows: Seq<(Seq<char>, Seq<char>)>) -> Seq<(Seq<char>, Seq<char>)>
    decreases rows.len(),
{
    if rows.len() == 0 {
        Seq::empty()
    } else if rows.len() > ADVANCED_ROWS {
        rows_fields(rows.take(ADVANCED_ROWS as int))
    } else {
        rows_fields(rows.drop_last()) + row_fields(rows.len() - 1, rows.last())
    }
}

/// The advanced form filled: the opening fields, then every row's index, term and join.
pub fn advanced_form(opening: &Vec<(String, String)>, rows: &Vec<(&'static str, String)>) -> (v: Vec<(String, String)>)
    ensures
        pair_views(v@) == pair_views(opening@) + rows_fields(row_views(rows@)),
{
    let mut v: Vec<(String, String)> = Vec::new();
    let mut i: usize = 0;
    while i < opening.len()
        invariant
            i <= opening.len(),
            pair_views(v@) == pair_views(opening@).take(i as int),
        decreases opening.len() - i,
    {
        let ghost before = v@;
        v.push((owned(opening[i].0.as_str()), owned(opening[i].1.as_str())));
        proof {
            assert(pair_views(v@) =~= pair_views(before).push((opening@[i as int].0@, opening@[i as int].1@)));
            assert(pair_views(opening@).take(i + 1) =~= pair_views(opening@).take(i as int).push((opening@[i as int].0@, opening@[i as int].1@)));
        }
        i = i + 1;
    }
    proof {
        assert(pair_views(opening@).take(i as int) =~= pair_views(opening@));
    }
    let ghost base = pair_views(v@);
    let ghost rs = row_views(rows@);
    let n = if rows.len() < ADVANCED_ROWS { rows.len() } else { ADVANCED_ROWS };
    proof {
        if rs.len() > ADVANCED_ROWS {
            assert(rows_fields(rs) == rows_fields(rs.take(ADVANCED_ROWS as int)));
        } else {
            assert(rs.take(rs.len() as int) =~= rs);
        }
        assert(rs.take(0) =~= Seq::<(Seq<char>, Seq<char>)>::empty());
    }
    let mut p: usize = 0;
    while p < n
        invariant
            p <= n,
            n <= ADVANCED_ROWS,
            n <= rows.len(),
            rs == row_views(rows@),
            pair_views(v@) == base + rows_fields(rs.take(p as int)),
        decreases n - p,
    {
        let index = if p == 0 { "$Select$0" } else if p == 1 { "$Select$2" } else if p == 2 { "$Select$4" } else { "$Select$6" };
        let term = if p == 0 {
            "$Autosuggest$0"
        } else if p == 1 {
            "$Autosuggest$1"
        } else if p == 2 {
            "$Autosuggest$2"
        } else {
            "$Autosuggest$3"
        };
        let ghost before = pair_views(v@);
        v.push((owned(index), owned(rows[p].0)));
        v.push((owned(term), owned(rows[p].1.as_str())));
        if p < 3 {
            let join = if p == 0 { "$Select$1" } else if p == 1 { "$Select$3" } else { "$Select$5" };
            v.push((owned(join), owned(JOIN_AND)));
        }
        proof {
            assert(rs[p as int] == (rows@[p as int].0@, rows@[p as int].1@));
            assert(rs.take(p + 1).drop_last() =~= rs.take(p as int));
            assert(rs.take(p + 1).last() == rs[p as int]);
            assert(pair_views(v@) =~= before + row_fields(p as int, rs[p as int]));
        }
        p = p + 1;
    }
    proof {
        if rs.len() > ADVANCED_ROWS {
            assert(rs.take(n as int) =~= rs.take(ADVANCED_ROWS as int));
        } else {
            assert(rs.take(n as int) =~= rs);
        }
    }
    v
}

/// The fields as the borrowed pairs a form submission takes.
fn borrowed(fields: &Vec<(String, String)>) -> (v: Vec<(&str, &str)>)
    ensures
        extra_views(v@) == pair_views(fields@),
{
    let mut v: Vec<(&str, &str)> = Vec::new();
    let mut i: usize = 0;
    while i < fields.len()
        invariant
            i <= fields.len(),
            extra_views(v@) == pair_views(fields@).take(i as int),
        decreases fields.len() - i,
    {
        let ghost before = v@;
        v.push((fields[i].0.as_str(), fields[i].1.as_str()));
        proof {
            assert(extra_views(v@) =~= extra_views(before).push((fields@[i as int].0@, fields@[i as int].1@)));
            assert(pair_views(fields@).take(i + 1) =~= pair_views(fields@).take(i as int).push((fields@[i as int].0@, fields@[i as int].1@)));
        }
        i = i + 1;
    }
    proof {
        assert(pair_views(fields@).take(i as int) =~= pair_views(fields@));
    }
    v
}

/// The button a caption picks on a page: the first with it, or, for a form's own button
/// that the header search box shadows, the last.
pub open spec fn chosen(b: Seq<super::parse::form::ButtonView>, label: Seq<char>, last: bool) -> Option<int> {
    if last {
        last_labelled(b, label)
    } else {
        first_button(b, label, true)
    }
}

/// The session as the form it replays: action, hidden fields and buttons.
pub open spec fn session_form(s: Session) -> (Seq<char>, Seq<(Seq<char>, Seq<char>)>, Seq<super::parse::form::ButtonView>) {
    (s.action@, super::parse::form::field_views(s.fields@), button_views(s.buttons@))
}

/// Whether `r` and the session `s1` are what submitting the form of `s0` with these fields
/// makes of the answer `resp`: a session-lost page is that error and the session stays;
/// any other page moves the session on to its form and comes back as it arrived, or is
/// the error of a page that carries no form, and the session stays.
pub open spec fn read_answer(
    resp: crate::http::Response,
    s0: Session,
    fields: Seq<(Seq<char>, Seq<char>)>,
    step: Seq<char>,
    r: Result<String, Error>,
    s1: Session,
) -> bool {
    &&& is_submission(resp.request, s0, fields)
    &&& if noaccess_spec(resp.body@, html_nodes(resp.body@)) {
        r matches Err(Error::Unexpected(u)) && u@ == (UnexpectedView::VoebbNoAccess { step }) && s1 == s0
    } else {
        match super::parse::form::form_spec(html_nodes(resp.body@), step) {
            Ok(x) => r matches Ok(b) && b@ == resp.body@ && session_form(s1) == x,
            Err(u) => r matches Err(Error::Unexpected(v)) && v@ == u && s1 == s0,
        }
    }
}

/// Whether `r` and `s1` are what pressing the button a caption picks on the page of `s0`
/// comes to, with these extra fields: a caption the page does not offer is that error and
/// nothing is sent; otherwise the form goes out with the button pressed, and the answer is
/// read as [`read_answer`] says, or the transport failed and the session stays.
pub open spec fn press_outcome(
    s0: Session,
    label: Seq<char>,
    last: bool,
    extra: Seq<(Seq<char>, Seq<char>)>,
    step: Seq<char>,
    r: Result<String, Error>,
    s1: Session,
) -> bool {
    match chosen(button_views(s0.buttons@), label, last) {
        None => r matches Err(Error::Unexpected(u)) && u@ == missing_button_spec(label, step) && s1 == s0,
        Some(i) => (r matches Err(Error::Transport(_)) && s1 == s0) || exists|resp: crate::http::Response|
            #[trigger] read_answer(resp, s0, press_fields(s0, extra, s0.buttons@[i].view()), step, r, s1),
    }
}

/// Whether `r` and `s1` are what the advanced search comes to from the page of `s0`: the
/// advanced form is opened with the scope set and empty terms; where that fails, its error
/// is the answer; otherwise the form's own *Suchen* is pressed with the same two fields and
/// the filled rows.
pub open spec fn advanced_outcome(s0: Session, rows: Seq<(Seq<char>, Seq<char>)>, r: Result<String, Error>, s1: Session) -> bool {
    exists|r1: Result<String, Error>, m: Session|
        #[trigger] press_outcome(s0, LABEL_ADVANCED@, false, replay_spec(""@), "the advanced search form"@, r1, m) && match r1 {
            Err(e) => r == Err::<String, Error>(e) && s1 == m,
            Ok(_) => press_outcome(m, LABEL_SEARCH@, true, replay_spec(""@) + rows_fields(rows), "the advanced search"@, r, s1),
        }
}

/// The result page of a search, without its notes.
pub open spec fn body_of(r: Result<(String, Vec<Note>), Error>) -> Result<String, Error> {
    match r {
        Ok(x) => Ok(x.0),
        Err(e) => Err(e),
    }
}

/// The extra fields of a branch filter: the replayed search box, then the branch's box
/// ticked.
pub open spec fn ticked(replay: Seq<(Seq<char>, Seq<char>)>, checkbox: Seq<char>) -> Seq<(Seq<char>, Seq<char>)> {
    replay.push(("$CbTree_text"@, checkbox))
}

/// A page as a filter's answer: the page filtered.
pub open spec fn some_body(r: Result<String, Error>) -> Result<Option<String>, Error> {
    match r {
        Ok(b) => Ok(Some(b)),
        Err(e) => Err(e),
    }
}

/// The paging control's value for "one page on".
pub const NEXT_PAGE: &'static str = "3";

/// The label of the search button.
pub const LABEL_SEARCH: &'static str = "Suchen";

/// The label of the button that opens the advanced form.
pub const LABEL_ADVANCED: &'static str = "Erweiterte Suche";

/// The label of the button that applies the ticked facet boxes.
pub const LABEL_FILTER: &'static str = "Filtern";

/// A session-bound client.
pub struct VoebbClient<'f, F: Fetch> {
    fetch: &'f F,
}

impl<'f, F: Fetch> VoebbClient<'f, F> {
    /// Build the client over a transport.
    pub fn new(fetch: &'f F) -> (c: Self)
        ensures
            c.transport() == fetch,
    {
        VoebbClient { fetch }
    }

    /// The transport this client was built with, as a value.
    pub closed spec fn transport(&self) -> &'f F {
        self.fetch
    }

    /// The transport this client was built with.
    pub fn fetch(&self) -> (f: &'f F)
        ensures
            f == self.transport(),
    {
        self.fetch
    }

    /// Execute one request, never cached, and refuse the session-lost page: whatever the
    /// transport returned, an `Ok` body is not that page; a body that is comes back as the
    /// error of `noaccess::check`, naming the step.
    pub fn send(&self, request: Request, step: &str) -> (r: Result<String, Error>)
        ensures
            r matches Ok(body) ==> !noaccess_spec(body@, html_nodes(body@)),
            r matches Err(Error::Transport(_)) || exists|resp: crate::http::Response|
                #[trigger] sent_answer(resp, request, step@, r),
    {
        let sent = request.cache(CachePolicy::Never);
        let response = self.fetch.fetch(&sent)?;
        let r = match noaccess::check(response.body.as_str(), step) {
            Ok(()) => Ok(response.body),
            Err(e) => Err(e),
        };
        proof {
            assert(sent_answer(response, request, step@, r));
        }
        r
    }

    /// Fetch the entry page and read the initial form state out of it: a session whose
    /// form is the one the page carries.
    pub fn open(&self) -> (r: Result<Session, Error>)
        ensures
            r matches Err(Error::Transport(_)) || exists|resp: crate::http::Response| #[trigger] opened(resp, r),
    {
        let request = entry_request();
        let ghost req = request;
        let html = match self.send(request, ENTRY_STEP) {
            Ok(html) => html,
            Err(e) => {
                proof {
                    if !(e is Transport) {
                        let resp = choose|resp: crate::http::Response| #[trigger] sent_answer(resp, req, ENTRY_STEP@, Err::<String, Error>(e));
                        assert(never_cached(req) == req);
                        assert(opened(resp, Err::<Session, Error>(e)));
                    }
                }
                return Err(e);
            },
        };
        let ghost answered = Ok::<String, Error>(html);
        let r = match super::parse::form::parse_form(html.as_str(), ENTRY_STEP) {
            Ok(form) => Ok(Session::from_form(form)),
            Err(e) => Err(e),
        };
        proof {
            let resp = choose|resp: crate::http::Response| #[trigger] sent_answer(resp, req, ENTRY_STEP@, answered);
            assert(never_cached(req) == req);
            assert(html@ == resp.body@);
            assert(opened(resp, r));
        }
        r
    }

    /// Fetch one record's page: `None` where voebb.de answers the record number with its
    /// search entry page, the record otherwise, or the error of a page that is no record
    /// page. The page is stateless and needs no session.
    pub fn detail(&self, id: &RecordId) -> (r: Result<Option<DetailPage>, Error>)
        ensures
            r matches Err(Error::Transport(_)) || exists|resp: crate::http::Response|
                #[trigger] is_record_request(resp.request, *id) && detail_answered(resp.body@, *id, r),
    {
        let request = record_request(id);
        let response = self.fetch.fetch(&request)?;
        let r = detail_answer(response.body.as_str(), id);
        proof {
            assert(is_record_request(response.request, *id));
        }
        r
    }

    /// Send one form submission and hand back the body; the one place that declares a
    /// request single-use.
    pub fn post(&self, session: &Session, payload: Vec<(String, String)>, step: &str) -> (r: Result<String, Error>)
        ensures
            r matches Ok(body) ==> !noaccess_spec(body@, html_nodes(body@)),
            r matches Err(Error::Transport(_)) || exists|resp: crate::http::Response|
                #[trigger] posted(resp, *session, super::parse::form::field_views(payload@), step@, r),
    {
        let ghost fields = super::parse::form::field_views(payload@);
        let request = submission(session, payload);
        let ghost req = request;
        let r = self.send(request, step);
        proof {
            if !(r matches Err(Error::Transport(_))) {
                let resp = choose|resp: crate::http::Response| #[trigger] sent_answer(resp, req, step@, r);
                assert(never_cached(req) == req);
                assert(posted(resp, *session, fields, step@, r));
            }
        }
        r
    }

    /// Submit the form with one button pressed.
    pub fn press_button(&self, session: &Session, button: &Button, extra: &[(&str, &str)], step: &str) -> (r: Result<String, Error>)
        ensures
            r matches Ok(body) ==> !noaccess_spec(body@, html_nodes(body@)),
            r matches Err(Error::Transport(_)) || exists|resp: crate::http::Response|
                #[trigger] posted(resp, *session, press_fields(*session, extra_views(extra@), button.view()), step@, r),
    {
        let mut all: Vec<(&str, &str)> = Vec::new();
        let mut i: usize = 0;
        while i < extra.len()
            invariant
                i <= extra.len(),
                extra_views(all@) == extra_views(extra@).take(i as int),
            decreases extra.len() - i,
        {
            let ghost before = all@;
            all.push(extra[i]);
            proof {
                assert(extra_views(all@) =~= extra_views(before).push((extra@[i as int].0@, extra@[i as int].1@)));
                assert(extra_views(extra@).take(i + 1) =~= extra_views(extra@).take(i as int).push(
                    (extra@[i as int].0@, extra@[i as int].1@),
                ));
            }
            i = i + 1;
        }
        all.push((button.name.as_str(), "pressed"));
        all.push(("source", "$B"));
        all.push(("focus", button.focus.as_str()));
        proof {
            assert(extra_views(extra@).take(extra@.len() as int) =~= extra_views(extra@));
            assert(extra_views(all@) =~= pressed_fields(extra_views(extra@), button.view()));
        }
        let payload = session.form(all.as_slice());
        proof {
            assert(super::parse::form::field_views(payload@) == press_fields(*session, extra_views(extra@), button.view()));
        }
        self.post(session, payload, step)
    }

    /// Press the page's first button with this caption; a caption the page does not offer
    /// is an error naming it, because the site changed.
    pub fn press(&self, session: &Session, label: &str, extra: &[(&str, &str)], step: &str) -> (r: Result<String, Error>)
        ensures
            r matches Ok(body) ==> !noaccess_spec(body@, html_nodes(body@)) && first_button(button_views(session.buttons@), label@, true) is Some,
            first_button(button_views(session.buttons@), label@, true) is None ==> (r matches Err(Error::Unexpected(u)) && u@
                == missing_button_spec(label@, step@)),
            first_button(button_views(session.buttons@), label@, true) matches Some(i) ==> (r matches Err(Error::Transport(_)) || exists|resp: crate::http::Response|
                #[trigger] posted(resp, *session, press_fields(*session, extra_views(extra@), session.buttons@[i].view()), step@, r)),
    {
        let button = match session.button_labelled(label) {
            Some(b) => b,
            None => {
                return Err(missing_button(label, step));
            },
        };
        let r = self.press_button(session, button, extra, step);
        proof {
            let i = first_button(button_views(session.buttons@), label@, true)->Some_0;
            assert(session.buttons@[i].view() == button.view());
        }
        r
    }

    /// Press the page's last button with this caption: the form's own, rather than the
    /// header search box's, which carries the same caption on every page.
    pub fn press_last(&self, session: &Session, label: &str, extra: &[(&str, &str)], step: &str) -> (r: Result<String, Error>)
        ensures
            r matches Ok(body) ==> !noaccess_spec(body@, html_nodes(body@)) && last_labelled(button_views(session.buttons@), label@) is Some,
            last_labelled(button_views(session.buttons@), label@) is None ==> (r matches Err(Error::Unexpected(u)) && u@
                == missing_button_spec(label@, step@)),
            last_labelled(button_views(session.buttons@), label@) matches Some(i) ==> (r matches Err(Error::Transport(_)) || exists|resp: crate::http::Response|
                #[trigger] posted(resp, *session, press_fields(*session, extra_views(extra@), session.buttons@[i].view()), step@, r)),
    {
        let button = match session.last_button_labelled(label) {
            Some(b) => b,
            None => {
                return Err(missing_button(label, step));
            },
        };
        let r = self.press_button(session, button, extra, step);
        proof {
            let i = last_labelled(button_views(session.buttons@), label@)->Some_0;
            assert(session.buttons@[i].view() == button.view());
        }
        r
    }

    /// Press the button a caption picks and read the answer: the session moves on to the
    /// form of the page that arrives, which comes back as it arrived; on any error the
    /// session stays.
    fn press_and_read(&self, session: &mut Session, label: &str, last: bool, extra: &[(&str, &str)], step: &str) -> (r: Result<String, Error>)
        ensures
            press_outcome(*old(session), label@, last, extra_views(extra@), step@, r, *final(session)),
    {
        let ghost s0 = *session;
        let sent = if last {
            self.press_last(session, label, extra, step)
        } else {
            self.press(session, label, extra, step)
        };
        let ghost g = sent;
        let html = match sent {
            Ok(h) => h,
            Err(e) => {
                proof {
                    if let Some(i) = chosen(button_views(s0.buttons@), label@, last) {
                        if !(e is Transport) {
                            let f = press_fields(s0, extra_views(extra@), s0.buttons@[i].view());
                            let resp = choose|resp: crate::http::Response| #[trigger] posted(resp, s0, f, step@, g);
                            assert(read_answer(resp, s0, f, step@, g, s0));
                        }
                    }
                }
                return Err(e);
            },
        };
        let ghost i = chosen(button_views(s0.buttons@), label@, last)->Some_0;
        let ghost f = press_fields(s0, extra_views(extra@), s0.buttons@[i].view());
        let ghost resp = choose|resp: crate::http::Response| #[trigger] posted(resp, s0, f, step@, g);
        let form = match super::parse::form::parse_form(html.as_str(), step) {
            Ok(form) => form,
            Err(e) => {
                proof {
                    assert(read_answer(resp, s0, f, step@, Err::<String, Error>(e), s0));
                }
                return Err(e);
            },
        };
        session.advance(form);
        proof {
            assert(read_answer(resp, s0, f, step@, Ok::<String, Error>(html), *session));
        }
        Ok(html)
    }

    /// The single search box: the scope and the terms, and *Suchen*. The result page
    /// comes back as it arrived, and the session moves on to its form.
    pub fn simple_search(&self, session: &mut Session, terms: &str) -> (r: Result<String, Error>)
        ensures
            press_outcome(*old(session), LABEL_SEARCH@, false, replay_spec(terms@), "the search"@, r, *final(session)),
    {
        let replay = replay_fields(terms);
        let extra = borrowed(&replay);
        self.press_and_read(session, LABEL_SEARCH, false, extra.as_slice(), "the search")
    }

    /// The advanced form: open it with the scope set, fill the rows, and press the form's
    /// own *Suchen*, the last on the page. The result page comes back as it arrived, and
    /// the session moves on to its form.
    pub fn advanced_search(&self, session: &mut Session, rows: &Vec<(&'static str, String)>) -> (r: Result<String, Error>)
        ensures
            advanced_outcome(*old(session), row_views(rows@), r, *final(session)),
    {
        let opening = replay_fields("");
        let open_extra = borrowed(&opening);
        let ghost s0 = *session;
        let first = self.press_and_read(session, LABEL_ADVANCED, false, open_extra.as_slice(), "the advanced search form");
        let ghost r1 = first;
        let ghost m = *session;
        match first {
            Ok(_) => {},
            Err(e) => {
                proof {
                    assert(press_outcome(s0, LABEL_ADVANCED@, false, replay_spec(""@), "the advanced search form"@, r1, m));
                }
                return Err(e);
            },
        }
        let filled = advanced_form(&opening, rows);
        let extra = borrowed(&filled);
        let r = self.press_and_read(session, LABEL_SEARCH, true, extra.as_slice(), "the advanced search");
        proof {
            assert(press_outcome(s0, LABEL_ADVANCED@, false, replay_spec(""@), "the advanced search form"@, r1, m));
        }
        r
    }

    /// Run a search: the advanced form where the query has field flags, the single box
    /// where it is free terms only, with the notes about what the form could not express.
    pub fn search(&self, session: &mut Session, query: &QuerySpec) -> (r: Result<(String, Vec<Note>), Error>)
        ensures
            sent_rows(*query).len() == 0 ==> press_outcome(
                *old(session),
                LABEL_SEARCH@,
                false,
                replay_spec(free_terms_spec(query.terms@)),
                "the search"@,
                body_of(r),
                *final(session),
            ),
            sent_rows(*query).len() > 0 ==> advanced_outcome(*old(session), sent_rows(*query), body_of(r), *final(session)),
            r matches Ok(x) ==> note_texts(x.1@) == row_notes(*query),
    {
        let (rows, notes) = advanced_rows(query);
        let body = if rows.len() == 0 {
            let terms = free_terms(query);
            self.simple_search(session, terms.as_str())
        } else {
            self.advanced_search(session, &rows)
        };
        match body {
            Ok(b) => Ok((b, notes)),
            Err(e) => Err(e),
        }
    }

    /// One page on: the replayed search box and the paging control, posted. The page
    /// comes back as it arrived, and the session moves on to its form; on any error the
    /// session stays.
    pub fn next_page(&self, session: &mut Session, replay: &Vec<(String, String)>) -> (r: Result<String, Error>)
        ensures
            (r matches Err(Error::Transport(_)) && *final(session) == *old(session)) || exists|resp: crate::http::Response|
                #[trigger] read_answer(
                resp,
                *old(session),
                kept_fields(super::parse::form::field_views(old(session).fields@), pair_views(replay@) + seq![("$Toolbar"@, NEXT_PAGE@)])
                    + pair_views(replay@) + seq![("$Toolbar"@, NEXT_PAGE@)],
                "the next result page"@,
                r,
                *final(session),
            ),
    {
        let mut extra = borrowed(replay);
        let ghost e0 = extra_views(extra@);
        extra.push(("$Toolbar", NEXT_PAGE));
        proof {
            assert(extra_views(extra@) =~= e0 + seq![("$Toolbar"@, NEXT_PAGE@)]);
        }
        let step = "the next result page";
        let payload = session.form(extra.as_slice());
        let ghost s0 = *session;
        let ghost fields = super::parse::form::field_views(payload@);
        proof {
            assert(fields == kept_fields(super::parse::form::field_views(s0.fields@), pair_views(replay@) + seq![("$Toolbar"@, NEXT_PAGE@)])
                + pair_views(replay@) + seq![("$Toolbar"@, NEXT_PAGE@)]);
        }
        let sent = self.post(session, payload, step);
        let ghost g = sent;
        let body = match sent {
            Ok(b) => b,
            Err(e) => {
                proof {
                    if !(e is Transport) {
                        let resp = choose|resp: crate::http::Response| #[trigger] posted(resp, s0, fields, step@, g);
                        assert(read_answer(resp, s0, fields, step@, g, s0));
                    }
                }
                return Err(e);
            },
        };
        let ghost resp = choose|resp: crate::http::Response| #[trigger] posted(resp, s0, fields, step@, g);
        let form = match super::parse::form::parse_form(body.as_str(), step) {
            Ok(form) => form,
            Err(e) => {
                proof {
                    assert(read_answer(resp, s0, fields, step@, Err::<String, Error>(e), s0));
                }
                return Err(e);
            },
        };
        session.advance(form);
        proof {
            assert(read_answer(resp, s0, fields, step@, Ok::<String, Error>(body), *session));
        }
        Ok(body)
    }

    /// Tick the branch's box in the facet and filter: no request where the facet does
    /// not list the branch, the facet's error where its name is ambiguous. The page comes
    /// back as it arrived, and the session moves on to its form.
    pub fn filter_branch(
        &self,
        session: &mut Session,
        facet: &super::parse::facet::BranchFacet,
        branch: &crate::libraries::Branch,
        replay: &Vec<(String, String)>,
    ) -> (r: Result<Option<String>, Error>)
        ensures
            super::parse::facet::lookup_answer(super::parse::facet::labels(facet.entries@), branch.view()) matches Ok(None) ==> r == Ok::<
                Option<String>,
                Error,
            >(None) && *final(session) == *old(session),
            super::parse::facet::lookup_answer(super::parse::facet::labels(facet.entries@), branch.view()) matches Err(u) ==> (r matches Err(
                Error::Unexpected(v),
            ) && v@ == u) && *final(session) == *old(session),
            super::parse::facet::lookup_answer(super::parse::facet::labels(facet.entries@), branch.view()) matches Ok(Some(i)) ==> exists|
                b: Result<String, Error>,
            |
                #[trigger] press_outcome(
                    *old(session),
                    LABEL_FILTER@,
                    false,
                    ticked(pair_views(replay@), facet.entries@[i].checkbox_id@),
                    "the branch filter"@,
                    b,
                    *final(session),
                ) && r == some_body(b),
    {
        let entry = match facet.lookup(branch) {
            Ok(Some(e)) => e,
            Ok(None) => {
                return Ok(None);
            },
            Err(e) => {
                return Err(e);
            },
        };
        let mut extra = borrowed(replay);
        let ghost e0 = extra_views(extra@);
        extra.push(("$CbTree_text", entry.checkbox_id.as_str()));
        proof {
            assert(extra_views(extra@) =~= ticked(e0, entry.checkbox_id@));
        }
        let ghost s0 = *session;
        let r = self.press_and_read(session, LABEL_FILTER, false, extra.as_slice(), "the branch filter");
        let ghost g = r;
        proof {
            assert(press_outcome(s0, LABEL_FILTER@, false, ticked(pair_views(replay@), entry.checkbox_id@), "the branch filter"@, g, *session));
        }
        match r {
            Ok(html) => Ok(Some(html)),
            Err(e) => Err(e),
        }
    }
}

} // verus!
