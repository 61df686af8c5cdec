use std::sync::Mutex;

use blibs::engine::voebb::client::{advanced_rows, replay_fields, VoebbClient, ADVANCED_ROWS, INDEX_IDENTIFIER, INDEX_PERSON, INDEX_SUBJECT, INDEX_TITLE};
use blibs::engine::voebb::parse::results::Hit;
use blibs::engine::voebb::{branch_missing_note, extend_notes, extend_records, merge_detail, record_of, WindowWalk};
use blibs::error::Error;
use blibs::http::{Fetch, Method, Replay, Request, Response};
use blibs::libraries::{all, VOEBB_NETWORK};
use blibs::model::{Author, AuthorKind, FetchWindow, Format, Identifier, Isil, Note, QuerySpec, RecordId, SruPageSize, Status, Term};

/// The entry page of a session: the one form with its nine hidden fields and the buttons
/// of the search area, inside the entry page's own container.
const START: &str = r#"<!DOCTYPE html><html><head><title>VÖBB Suche</title></head><body>
<div id="R04"><form name="Form0" method="post" action="/aDISWeb/app;jsessionid=0A1B2C?service=direct/0/Home/$DirectLink&amp;sp=S1">
<input type="hidden" name="identity" value="token-1">
<input type="hidden" name="keyCode" value="">
<input type="hidden" name="focus" value="">
<input type="hidden" name="stz">
<input type="hidden" name="source" value="">
<input type="hidden" name="selected">
<input type="hidden" name="requestCount" value="4">
<input type="hidden" name="scriptEnabled" value="true">
<input type="hidden" name="scrollPos" value="0">
<input type="text" name="$Autosuggest" value="">
<input type="submit" name="$Button$0" value="Suchen" data-fld="ASRT_x1">
<input type="submit" name="$Button$1" value="Erweiterte Suche" data-fld="ASRT_x2">
</form></div></body></html>"#;

/// A result page: a form again, and a list nobody here reads.
const RESULTS: &str = r#"<!DOCTYPE html><html><head><title>Trefferliste</title></head><body>
<div id="R06"><form name="Form0" action="/aDISWeb/app;jsessionid=0A1B2C?service=direct/0/Home/$DirectLink&amp;sp=S2">
<input type="hidden" name="identity" value="token-2"><input type="hidden" name="requestCount" value="5">
</form><h1>Trefferliste</h1></div></body></html>"#;

/// A transport that answers a GET with the entry page and a POST with the result list,
/// and keeps every request it was handed.
struct Recording {
    seen: Mutex<Vec<Request>>,
}

impl Fetch for Recording {
    fn fetch(&self, request: &Request) -> Result<Response, Error> {
        let body = match request.method {
            Method::Get => START,
            Method::Post => RESULTS,
        };
        self.seen.lock().expect("one test, one thread").push(request.clone());
        Ok(Response { request: request.clone(), status: 200, body: body.to_owned() })
    }
}

fn spec(terms: &[&str]) -> QuerySpec {
    QuerySpec { terms: terms.iter().map(|t| Term::from_argument(t)).collect(), ..QuerySpec::default() }
}

#[test]
fn every_form_submission_is_declared_single_use() {
    let transport = Recording { seen: Mutex::new(Vec::new()) };
    let client = VoebbClient::new(&transport);
    let session = client.open().expect("the entry page parses");
    let replay = replay_fields("Der Vorleser");
    let extra: Vec<(&str, &str)> = replay.iter().map(|(k, v)| (k.as_str(), v.as_str())).collect();
    client.press(&session, "Suchen", &extra, "the search").expect("the search is submitted");

    let seen = transport.seen.lock().expect("one test, one thread");
    let posts: Vec<&Request> = seen.iter().filter(|request| request.method == Method::Post).collect();
    assert!(!posts.is_empty(), "the search has to submit a form");
    for request in posts {
        assert_eq!(
            request.replay,
            Replay::SingleUse,
            "a form submission that may be replayed burns the session: {request:?}"
        );
    }
}

#[test]
fn the_stateless_requests_stay_repeatable() {
    let transport = Recording { seen: Mutex::new(Vec::new()) };
    let client = VoebbClient::new(&transport);
    client.open().expect("the entry page parses");
    let _ = client.detail(&RecordId::voebb("SAK13776205"));

    let seen = transport.seen.lock().expect("one test, one thread");
    let gets: Vec<&Request> = seen.iter().filter(|request| request.method == Method::Get).collect();
    assert_eq!(gets.len(), 2, "the entry page and the record page");
    for request in gets {
        assert_eq!(request.replay, Replay::Repeatable, "{request:?}");
    }
}

#[test]
fn free_terms_alone_use_the_single_search_box() {
    let (rows, notes) = advanced_rows(&spec(&["Der Vorleser"]));
    assert!(rows.is_empty());
    assert!(notes.is_empty());
}

#[test]
fn each_field_flag_becomes_one_row() {
    let query = QuerySpec {
        title: Some(Term::from_argument("Vorleser")),
        author: Some("Schlink".to_owned()),
        subject: Some(Term::from_argument("Roman")),
        identifier: Some(Identifier::Isbn("9783257229530".to_owned())),
        ..QuerySpec::default()
    };
    let (rows, notes) = advanced_rows(&query);
    assert_eq!(
        rows,
        vec![
            (INDEX_IDENTIFIER, "9783257229530".to_owned()),
            (INDEX_TITLE, "Vorleser".to_owned()),
            (INDEX_PERSON, "Schlink".to_owned()),
            (INDEX_SUBJECT, "Roman".to_owned()),
        ]
    );
    assert!(notes.is_empty());
}

#[test]
fn free_terms_next_to_a_flag_are_searched_as_a_title_with_a_note() {
    let query = QuerySpec { author: Some("Schlink".to_owned()), ..spec(&["Vorleser"]) };
    let (rows, notes) = advanced_rows(&query);
    assert_eq!(rows, vec![(INDEX_PERSON, "Schlink".to_owned()), (INDEX_TITLE, "Vorleser".to_owned())]);
    assert_eq!(notes.len(), 1);
    assert_eq!(notes[0].kind, "voebb_free_terms_as_title");
}

#[test]
fn a_query_that_needs_more_than_four_rows_says_what_was_dropped() {
    let query = QuerySpec {
        title: Some(Term::from_argument("Vorleser")),
        author: Some("Schlink".to_owned()),
        subject: Some(Term::from_argument("Roman")),
        identifier: Some(Identifier::Isbn("9783257229530".to_owned())),
        ..spec(&["Diogenes"])
    };
    let (rows, notes) = advanced_rows(&query);
    assert_eq!(rows.len(), ADVANCED_ROWS);
    let kinds: Vec<&str> = notes.iter().map(|note| note.kind.as_str()).collect();
    assert!(kinds.contains(&"voebb_query_truncated"), "{kinds:?}");
    let truncated = notes.iter().find(|note| note.kind == "voebb_query_truncated").expect("the note exists");
    assert!(truncated.message.contains("Diogenes"), "{truncated:?}");
    assert!(
        !kinds.contains(&"voebb_free_terms_as_title"),
        "the row that was dropped is never also announced as sent: {kinds:?}"
    );
    assert_eq!(notes.len(), 1, "{notes:?}");
}

#[test]
fn the_scope_is_always_the_networks_holdings() {
    let replay = replay_fields("Vorleser");
    assert_eq!(
        replay,
        vec![
            ("$Autosuggest".to_owned(), "Vorleser".to_owned()),
            ("$Select".to_owned(), "Bibliotheksbestand".to_owned()),
        ]
    );
}

fn hit(local: &str, title: &str, media: Option<&str>) -> Hit {
    Hit {
        id: RecordId::voebb(local),
        position: Some(1),
        title: title.to_owned(),
        statement: None,
        year: Some(1997),
        media_kind: media.map(str::to_owned),
        availability: Some("Verfügbar".to_owned()),
        shelfmark: None,
    }
}

#[test]
fn a_row_never_claims_a_branchs_availability() {
    let record = record_of(&hit("SAK1", "Der Vorleser", Some("Band")));
    let holding = record.holdings.first().expect("one holding");
    assert_eq!(holding.summary, Status::Unknown);
    assert!(holding.items.is_empty());
    assert_eq!(holding.isil.as_ref().map(Isil::as_str), Some(VOEBB_NETWORK));
    assert!(!holding.library.is_empty(), "the list names the network");
}

#[test]
fn the_rows_material_type_becomes_a_format() {
    assert_eq!(record_of(&hit("SAK1", "x", Some("Band"))).format, Format::Book);
    let online = record_of(&hit("SAK2", "x", Some("E-Ressource")));
    assert_eq!(online.format, Format::Ebook);
    assert!(online.online);
    assert_eq!(record_of(&hit("SAK3", "x", None)).format, Format::Unknown);
}

#[test]
fn an_empty_branch_says_whether_the_network_had_the_book() {
    let libraries = all();
    let branch = libraries
        .iter()
        .flat_map(|library| library.branches.iter())
        .find(|branch| branch.kobvid == "SIG00036")
        .expect("the AGB is in the library list");

    let listed = branch_missing_note(branch, 71);
    assert_eq!(listed.kind, "voebb_branch_not_listed");
    assert!(listed.message.contains("71"), "{listed:?}");
    assert!(listed.message.contains(&branch.short_name), "{listed:?}");

    let nowhere = branch_missing_note(branch, 0);
    assert_eq!(nowhere.kind, "voebb_no_hits_in_network");
    assert!(
        !nowhere.message.contains("facet does not list"),
        "a page with no hits carries no facet to describe: {nowhere:?}"
    );
    assert!(
        !nowhere.message.contains(&branch.short_name),
        "the branch is not what emptied this result, so it is not named: {nowhere:?}"
    );
}

#[test]
fn the_same_edition_from_two_locations_is_one_record() {
    let mut records = Vec::new();
    extend_records(&mut records, &[hit("SAK1", "Der Vorleser", Some("Band"))]);
    extend_records(&mut records, &[hit("SAK1", "Der Vorleser", Some("Band"))]);
    assert_eq!(records.len(), 1);
}

#[test]
fn the_record_page_fills_the_gaps_the_row_left() {
    let mut record = record_of(&hit("SAK1", "Der Vorleser", Some("Band")));
    let mut detailed = record_of(&hit("SAK1", "Der Vorleser : Roman", Some("Band")));
    detailed.authors = vec![Author {
        name: "Schlink, Bernhard".to_owned(),
        kind: AuthorKind::Person,
        dates: None,
        gnd: None,
        role: None,
    }];
    detailed.publisher = Some("Diogenes".to_owned());
    detailed.subtitle = Some("Roman".to_owned());

    merge_detail(&mut record, detailed);
    assert_eq!(record.title, "Der Vorleser", "the listed title stands");
    assert_eq!(record.subtitle.as_deref(), Some("Roman"));
    assert_eq!(record.publisher.as_deref(), Some("Diogenes"));
    assert_eq!(record.authors.len(), 1);
}

#[test]
fn a_row_the_record_already_had_keeps_its_own_values() {
    let mut record = record_of(&hit("SAK1", "Der Vorleser", Some("Band")));
    record.year = Some(1995);
    let mut detailed = record_of(&hit("SAK1", "Anders", Some("E-Ressource")));
    detailed.year = Some(2002);
    merge_detail(&mut record, detailed);
    assert_eq!(record.year, Some(1995));
    assert_eq!(record.format, Format::Book, "a known format is never replaced");
    assert!(record.online, "an online page makes the record online");
}

#[test]
fn one_locations_notes_are_not_repeated_by_the_next() {
    let mut notes = vec![Note::new("voebb_free_terms_as_title", "searched as a title".to_owned())];
    extend_notes(
        &mut notes,
        vec![
            Note::new("voebb_free_terms_as_title", "searched as a title".to_owned()),
            Note::new("voebb_branch_not_listed", "not at this branch".to_owned()),
        ],
    );
    let kinds: Vec<&str> = notes.iter().map(|n| n.kind.as_str()).collect();
    assert_eq!(kinds, vec!["voebb_free_terms_as_title", "voebb_branch_not_listed"]);
}

#[test]
fn an_unknown_record_number_is_no_record_and_no_error() {
    let transport = Recording { seen: Mutex::new(Vec::new()) };
    let client = VoebbClient::new(&transport);
    let answer = client.detail(&RecordId::voebb("SAK00000000")).expect("the entry page is an answer");
    assert!(answer.is_none());
    let seen = transport.seen.lock().expect("one test, one thread");
    assert_eq!(
        seen[0].query,
        vec![("sp".to_owned(), "SPROD00".to_owned()), ("sp".to_owned(), "SAK00000000".to_owned())]
    );
}

fn at(position: Option<u32>, local: &str) -> Hit {
    Hit { position, ..hit(local, "x", Some("Band")) }
}

#[test]
fn a_window_is_a_range_of_positions_over_the_pages() {
    let mut walk = WindowWalk::start(FetchWindow { start: 3, size: SruPageSize::new(2) });
    assert_eq!((walk.first, walk.last), (3, 4));
    walk.take(vec![at(Some(1), "A"), at(Some(2), "B"), at(Some(3), "C")]);
    assert_eq!(walk.hits.len(), 1);
    assert_eq!(walk.reached, 3);
    assert!(!walk.done(true), "one row short, and a next page is offered");
    let next = vec![at(Some(4), "D"), at(Some(5), "E")];
    assert_eq!(walk.advanced(&next).expect("the page moved on"), true);
    walk.take(next);
    let ids: Vec<&str> = walk.hits.iter().map(|h| h.id.as_str()).collect();
    assert_eq!(ids, vec!["voebb_C", "voebb_D"]);
    assert!(walk.done(true));
}

#[test]
fn a_row_without_a_position_counts_as_the_next_one_seen() {
    let mut walk = WindowWalk::start(FetchWindow { start: 2, size: SruPageSize::new(1) });
    walk.take(vec![at(None, "A"), at(None, "B"), at(None, "C")]);
    let ids: Vec<&str> = walk.hits.iter().map(|h| h.id.as_str()).collect();
    assert_eq!(ids, vec!["voebb_B"]);
    assert_eq!(walk.consumed, 3);
}

#[test]
fn a_page_that_does_not_move_on_is_an_error_and_an_empty_one_ends_the_walk() {
    let mut walk = WindowWalk::start(FetchWindow { start: 1, size: SruPageSize::new(10) });
    walk.take(vec![at(Some(1), "A"), at(Some(2), "B")]);
    assert!(!walk.done(true));
    assert_eq!(walk.advanced(&Vec::new()).expect("an empty page is an answer"), false);
    let Err(error) = walk.advanced(&vec![at(Some(2), "B")]) else {
        panic!("a page that starts where the last one ended would loop for ever");
    };
    assert_eq!(error.kind(), "count_mismatch");
    assert!(error.message().contains("paging did not advance"), "{}", error.message());
    assert!(walk.done(false), "no next page ends the walk");
}

#[test]
fn a_caption_the_page_does_not_offer_is_refused_before_anything_is_sent() {
    let transport = Recording { seen: Mutex::new(Vec::new()) };
    let client = VoebbClient::new(&transport);
    let session = client.open().expect("the entry page parses");
    let sent_before = transport.seen.lock().expect("one thread").len();
    let error = client.press(&session, "Ausleihen", &[], "the test step").expect_err("no such button");
    assert_eq!(error.kind(), "missing_selector");
    assert!(error.message().contains("Ausleihen"));
    assert_eq!(transport.seen.lock().expect("one thread").len(), sent_before);
}

#[test]
fn a_record_without_a_page_keeps_its_row_and_gets_a_note_naming_it() {
    let transport = Recording { seen: Mutex::new(Vec::new()) };
    let engine = blibs::engine::voebb::Voebb::new(&transport);
    let row = record_of(&hit("SAK1", "Der Vorleser", Some("Band")));
    let mut records = vec![row.clone()];
    let notes = engine.fill_availability(&mut records).expect("the request was answered");
    assert_eq!(records, vec![row]);
    assert_eq!(notes.len(), 1);
    assert_eq!(notes[0].kind, "availability_not_stated");
    assert_eq!(notes[0].records.len(), 1);
    assert_eq!(notes[0].records[0].as_str(), "voebb_SAK1");
}

#[test]
fn a_record_page_answer_tells_the_three_cases_apart() {
    let id = RecordId::voebb("SAK1");
    let lost = r#"<html><head></head><body><div class="box"><p>Bitte schließen Sie diesen Reiter.</p>
<p>Please close this tab.</p><p>Aus Sicherheitsgründen ist das nicht erlaubt.</p></div></body></html>"#;
    let error = blibs::engine::voebb::client::detail_answer(lost, &id).expect_err("a lost session is an error");
    assert_eq!(error.kind(), "voebb_session_lost");
    assert!(error.message().contains("the record page"));
    let missing = blibs::engine::voebb::client::detail_answer(START, &id).expect("the entry page is no error");
    assert!(missing.is_none());
    let broken = r#"<!DOCTYPE html><html><head><title>Titel</title></head><body><div id="R03"><p>nothing here</p></div></body></html>"#;
    let error = blibs::engine::voebb::client::detail_answer(broken, &id).expect_err("a page without the record is an error");
    assert_eq!(error.kind(), "missing_selector");
}

#[test]
fn the_record_request_is_the_one_the_transport_is_handed() {
    let transport = Recording { seen: Mutex::new(Vec::new()) };
    let client = VoebbClient::new(&transport);
    let id = RecordId::voebb("SAK13776205");
    let answer = client.detail(&id).expect("the transport answered");
    assert!(answer.is_none());
    let seen = transport.seen.lock().expect("one thread");
    assert_eq!(seen.len(), 1);
    assert_eq!(seen[0], blibs::engine::voebb::client::record_request(&id));
}

#[test]
fn the_advanced_form_carries_index_term_and_join_per_row() {
    let opening = replay_fields("");
    let rows: Vec<(&'static str, String)> = vec![(INDEX_TITLE, "Der Vorleser".to_owned()), (INDEX_PERSON, "Schlink".to_owned())];
    let filled = blibs::engine::voebb::client::advanced_form(&opening, &rows);
    let tail: Vec<(String, String)> = filled[opening.len()..].to_vec();
    let expected: Vec<(String, String)> = [
        ("$Select$0", "Titel"),
        ("$Autosuggest$0", "Der Vorleser"),
        ("$Select$1", "UND"),
        ("$Select$2", "Person"),
        ("$Autosuggest$1", "Schlink"),
        ("$Select$3", "UND"),
    ]
    .iter()
    .map(|(k, v)| (k.to_string(), v.to_string()))
    .collect();
    assert_eq!(tail, expected);
}

/// A transport that answers everything with the entry page, whose form a result page
/// shares, and keeps every request.
struct EntryOnly {
    seen: Mutex<Vec<Request>>,
}

impl Fetch for EntryOnly {
    fn fetch(&self, request: &Request) -> Result<Response, Error> {
        self.seen.lock().expect("one test, one thread").push(request.clone());
        Ok(Response { request: request.clone(), status: 200, body: START.to_owned() })
    }
}

#[test]
fn the_next_page_posts_the_paging_control() {
    let transport = EntryOnly { seen: Mutex::new(Vec::new()) };
    let client = VoebbClient::new(&transport);
    let mut session = client.open().expect("the entry page parses");
    let body = client.next_page(&mut session, &replay_fields("Kafka")).expect("the page parses");
    assert_eq!(body, START);
    let seen = transport.seen.lock().expect("one thread");
    let last = seen.last().expect("a request went out");
    assert_eq!(last.method, Method::Post);
    assert!(last.form.iter().any(|(k, v)| k == "$Toolbar" && v == "3"));
}

/// The entry page with the facet's filter button next to the search area's.
const FILTERABLE: &str = r#"<!DOCTYPE html><html><body>
<div id="R04"><form name="Form0" method="post" action="/aDISWeb/app;jsessionid=0A1B2C?service=direct/0/Home/$DirectLink&amp;sp=S1">
<input type="hidden" name="identity" value="token-1">
<input type="hidden" name="keyCode" value="">
<input type="hidden" name="focus" value="">
<input type="hidden" name="stz">
<input type="hidden" name="source" value="">
<input type="hidden" name="selected">
<input type="hidden" name="requestCount" value="4">
<input type="hidden" name="scriptEnabled" value="true">
<input type="hidden" name="scrollPos" value="0">
<input type="submit" name="$Button$0" value="Suchen" data-fld="ASRT_x1">
<input type="submit" name="$Button$2" value="Filtern" data-fld="ASRT_x3">
</form></div></body></html>"#;

/// A transport that answers everything with the page that offers the filter.
struct Filterable {
    seen: Mutex<Vec<Request>>,
}

impl Fetch for Filterable {
    fn fetch(&self, request: &Request) -> Result<Response, Error> {
        self.seen.lock().expect("one test, one thread").push(request.clone());
        Ok(Response { request: request.clone(), status: 200, body: FILTERABLE.to_owned() })
    }
}

fn posts(seen: &[Request]) -> Vec<&Request> {
    seen.iter().filter(|request| request.method == Method::Post).collect()
}

fn carries(request: &Request, name: &str, value: &str) -> bool {
    request.form.iter().any(|(k, v)| k == name && v == value)
}

#[test]
fn a_free_terms_search_presses_the_single_box_once() {
    let transport = EntryOnly { seen: Mutex::new(Vec::new()) };
    let client = VoebbClient::new(&transport);
    let mut session = client.open().expect("the entry page parses");
    let (body, notes) = client.search(&mut session, &spec(&["Kafka"])).expect("the page parses");
    assert_eq!(body, START);
    assert!(notes.is_empty());
    let seen = transport.seen.lock().expect("one thread");
    let sent = posts(&seen);
    assert_eq!(sent.len(), 1);
    assert!(carries(sent[0], "$Autosuggest", "Kafka"));
    assert!(carries(sent[0], "$Button$0", "pressed"));
}

#[test]
fn a_flagged_search_opens_the_advanced_form_and_then_submits_it() {
    let transport = EntryOnly { seen: Mutex::new(Vec::new()) };
    let client = VoebbClient::new(&transport);
    let mut session = client.open().expect("the entry page parses");
    let query = QuerySpec { title: Some(Term::from_argument("Prozess")), ..QuerySpec::default() };
    client.search(&mut session, &query).expect("the page parses");
    let seen = transport.seen.lock().expect("one thread");
    let sent = posts(&seen);
    assert_eq!(sent.len(), 2);
    assert!(carries(sent[0], "$Button$1", "pressed"));
    assert!(carries(sent[0], "$Autosuggest", ""));
    assert!(carries(sent[1], "$Select$0", "Titel"));
    assert!(carries(sent[1], "$Autosuggest$0", "Prozess"));
    assert!(carries(sent[1], "$Button$0", "pressed"));
}

fn agb() -> blibs::libraries::Branch {
    blibs::libraries::Branch {
        key: "AGB".to_owned(),
        kobvid: "KOB99999".to_owned(),
        name: "Zentral- und Landesbibliothek Berlin / Amerika-Gedenkbibliothek".to_owned(),
        short_name: "Amerika-Gedenkbibliothek (AGB)".to_owned(),
        coords: blibs::libraries::LatLon { lat_e6: 0, lon_e6: 0 },
        match_strings: Vec::new(),
    }
}

fn facet_entry(label: &str, id: &str) -> blibs::engine::voebb::parse::facet::FacetEntry {
    blibs::engine::voebb::parse::facet::FacetEntry { label: label.to_owned(), checkbox_id: id.to_owned(), count: None }
}

#[test]
fn a_listed_branch_is_ticked_and_filtered_with_one_submission() {
    let transport = Filterable { seen: Mutex::new(Vec::new()) };
    let client = VoebbClient::new(&transport);
    let mut session = client.open().expect("the entry page parses");
    let facet = blibs::engine::voebb::parse::facet::BranchFacet {
        entries: vec![facet_entry("ZLB: Amerika-Gedenkbibliothek (AGB)", "sub-PTL1_tree_1_90")],
    };
    let page = client.filter_branch(&mut session, &facet, &agb(), &replay_fields("Kafka")).expect("the page parses");
    assert_eq!(page.as_deref(), Some(FILTERABLE));
    let seen = transport.seen.lock().expect("one thread");
    let sent = posts(&seen);
    assert_eq!(sent.len(), 1);
    assert!(carries(sent[0], "$CbTree_text", "sub-PTL1_tree_1_90"));
    assert!(carries(sent[0], "$Autosuggest", "Kafka"));
    assert!(carries(sent[0], "$Button$2", "pressed"));
}

#[test]
fn a_branch_the_facet_does_not_list_sends_nothing() {
    let transport = Filterable { seen: Mutex::new(Vec::new()) };
    let client = VoebbClient::new(&transport);
    let mut session = client.open().expect("the entry page parses");
    let before = session.clone();
    let facet = blibs::engine::voebb::parse::facet::BranchFacet { entries: vec![facet_entry("Mitte: Schiller-Bibliothek", "m")] };
    let page = client.filter_branch(&mut session, &facet, &agb(), &replay_fields("Kafka")).expect("no error");
    assert_eq!(page, None);
    assert_eq!(session, before);
    let seen = transport.seen.lock().expect("one thread");
    assert!(posts(&seen).is_empty());
}

#[test]
fn a_record_id_keeps_its_parts_with_its_text() {
    let id = RecordId::voebb("SAK_13776205");
    assert_eq!(id.as_str(), "voebb_SAK_13776205");
    assert_eq!(id.local_id(), "SAK_13776205");
    assert_eq!(id.engine(), blibs::model::Engine::Voebb);
    let copy = id.clone();
    assert_eq!(copy.as_str(), id.as_str());
    assert_eq!(copy.local_id(), id.local_id());
}

#[test]
fn a_voebb_answer_puts_the_blocks_and_the_rows_of_its_searches_together() {
    let location = blibs::libraries::resolve("AGB").expect("a known branch");
    let branch = location.branch.clone().expect("a branch location");
    let first = blibs::engine::voebb::Located {
        total: Some(2),
        hits: vec![hit("A", "Titel A", None), hit("B", "Titel B", None)],
        notes: vec![Note::new("voebb_limit", "a limit".to_owned())],
    };
    let block = blibs::engine::voebb::voebb_block(&location, &branch, &first);
    assert_eq!(block.total, Some(2));
    assert_eq!(block.branch.as_deref(), Some(branch.kobvid.as_str()));
    assert_eq!(block.records.iter().map(|id| id.as_str().to_owned()).collect::<Vec<_>>(), vec!["voebb_A", "voebb_B"]);
    assert_eq!(block.refused, None);
    let second = blibs::engine::voebb::Located {
        total: Some(1),
        hits: vec![hit("A", "Titel A", None)],
        notes: vec![Note::new("voebb_limit", "a limit".to_owned())],
    };
    let answer = blibs::engine::voebb::voebb_answer(vec![first, second], vec![block]);
    assert_eq!(answer.total, None);
    assert_eq!(answer.fetched, 2);
    assert_eq!(answer.records.len(), 2);
    assert_eq!(answer.notes.len(), 1);
    assert_eq!(answer.at.len(), 1);
    assert_eq!(answer.query_echo, None);
}

#[test]
fn a_branch_the_facet_leaves_out_found_nothing_and_says_why() {
    let found = blibs::engine::voebb::unlisted(&agb(), 71, Vec::new());
    assert_eq!(found.total, Some(0));
    assert!(found.hits.is_empty());
    assert_eq!(found.notes.len(), 1);
    assert_eq!(found.notes[0].kind, "voebb_branch_not_listed");
    let none = blibs::engine::voebb::unlisted(&agb(), 0, Vec::new());
    assert_eq!(none.notes[0].kind, "voebb_no_hits_in_network");
}
