use blibs::engine::kobv::client::{availability_request, search_request, PORTAL_AJAX, SRU_BASE};
use blibs::engine::kobv::overdrawn;
use blibs::engine::kobv::parse::record::{availability_id, first_year, url_kind};
use blibs::engine::kobv::pqf::{search, Pqf};
use blibs::http::CachePolicy;
use blibs::model::{AvailabilityId, FetchWindow, Isil, Limit, Page, QuerySpec, Term, UrlKind, MAX_SRU_PAGE_SIZE};

fn query() -> Pqf {
    let spec = QuerySpec { terms: vec![Term::from_argument("Vorleser")], ..QuerySpec::default() };
    search(&spec, &[Isil::new("DE-11")]).expect("the spec has a term")
}

fn pairs(v: &[(&str, &str)]) -> Vec<(String, String)> {
    v.iter().map(|(k, x)| (k.to_string(), x.to_string())).collect()
}

#[test]
fn a_search_request_carries_the_measured_parameters() {
    let window = FetchWindow::plan(Limit::default_limit(), Page::first(), false);
    let request = search_request(&query(), window);
    assert_eq!(request.base, SRU_BASE);
    assert_eq!(
        request.query,
        pairs(&[
            ("operation", "searchRetrieve"),
            ("version", "2.0"),
            ("recordSchema", "marcxml"),
            ("maximumRecords", "10"),
            ("startRecord", "1"),
            ("x-pquery", "@and @attr 1=1016 \"Vorleser\" @attr 1=1044 DE-11"),
        ])
    );
    assert_eq!(request.cache, CachePolicy::Normal);
}

#[test]
fn the_window_reaches_the_request() {
    let limit = Limit::new(25).expect("25 is in range");
    let page = Page::new(3).expect("3 is a page");
    let request = search_request(&query(), FetchWindow::plan(limit, page, false));
    assert!(request.query.contains(&("startRecord".to_owned(), "51".to_owned())));
    assert!(request.query.contains(&("maximumRecords".to_owned(), "25".to_owned())));
}

#[test]
fn an_availability_request_is_never_cached() {
    let id = AvailabilityId::new("DE-11;BV008885798,DE-1;275177939,");
    let request = availability_request(&id);
    assert_eq!(request.base, PORTAL_AJAX);
    assert_eq!(
        request.query,
        pairs(&[("method", "getAvailability"), ("availability_id", "DE-11;BV008885798,DE-1;275177939,")])
    );
    assert_eq!(request.cache, CachePolicy::Never);
}

#[test]
fn an_sru_window_is_overdrawn_so_a_dropped_duplicate_can_be_replaced() {
    let window = FetchWindow::plan(Limit::new(10).expect("10 is in range"), Page::first(), false);
    let sent = overdrawn(window);
    assert_eq!(sent.size.get(), 15);
    assert_eq!(sent.start, window.start);
}

#[test]
fn the_overdraw_is_clamped_at_what_sru_serves() {
    let limit = Limit::new(50).expect("50 is in range");
    let full = FetchWindow::plan(limit, Page::first(), false);
    assert_eq!(overdrawn(full).size.get(), MAX_SRU_PAGE_SIZE);
    let anchored = FetchWindow::plan(Limit::new(10).expect("10 is in range"), Page::first(), true);
    assert_eq!(overdrawn(anchored), anchored);
}

#[test]
fn no_holdings_means_no_availability_call() {
    assert_eq!(availability_id(&Vec::new()), None);
}

#[test]
fn an_unlabelled_link_is_other_not_a_guess() {
    assert_eq!(url_kind(None), UrlKind::Other);
    assert_eq!(url_kind(Some("Volltext")), UrlKind::Fulltext);
    assert_eq!(url_kind(Some("FULL")), UrlKind::Fulltext);
    assert_eq!(url_kind(Some("Table of Contents")), UrlKind::Toc);
    assert_eq!(url_kind(Some("Cover")), UrlKind::Cover);
    assert_eq!(url_kind(Some("Verlag")), UrlKind::Publisher);
    assert_eq!(url_kind(Some("Inhaltsbeschreibung")), UrlKind::Other);
}

#[test]
fn only_a_group_of_exactly_four_digits_is_a_year() {
    assert_eq!(first_year("20231231"), None);
    assert_eq!(first_year("[ca. 1990]"), Some(1990));
    assert_eq!(first_year("© 2019"), Some(2019));
    assert_eq!(first_year("19XX-"), None);
    assert_eq!(first_year("5740- [1979/1980-]"), None, "implausible, not 5740");
    assert_eq!(first_year("Le 27 Nivôse An VIII. [17. Januar 1800]"), Some(1800));
}

fn envelope_of(count: u32, records: &str) -> blibs::engine::kobv::parse::sru::SruResponse {
    let body = format!(
        r#"<?xml version="1.0"?>
<zs:searchRetrieveResponse xmlns:zs="http://docs.oasis-open.org/ns/search-ws/sruResponse">
  <zs:numberOfRecords>{count}</zs:numberOfRecords>
  <zs:records>{records}</zs:records>
</zs:searchRetrieveResponse>"#
    );
    match blibs::engine::kobv::client::envelope(&body) {
        Ok(response) => response,
        Err(error) => panic!("body must parse: {}", error.message()),
    }
}

fn lookup_id() -> blibs::model::RecordId {
    blibs::model::RecordId::parse("almafu_BV008885798").expect("a well-formed id")
}

#[test]
fn a_lookup_that_found_and_counted_nothing_is_no_record() {
    let response = envelope_of(0, "");
    let answer = blibs::engine::kobv::shown(&lookup_id(), &response).expect("not an error");
    assert!(answer.is_none());
}

#[test]
fn a_counted_record_that_did_not_arrive_is_an_unexpected_response() {
    let response = envelope_of(1, "");
    let error = blibs::engine::kobv::shown(&lookup_id(), &response).expect_err("a counted record must arrive");
    assert_eq!(error.exit().code(), 6);
    assert!(error.message().contains("the record almafu_BV008885798, which the response counted but did not deliver"));
}

#[test]
fn a_lookup_answers_with_the_first_delivered_record() {
    let record = r#"<zs:record>
      <zs:recordSchema>marcxml</zs:recordSchema>
      <zs:recordData><record xmlns="http://www.loc.gov/MARC21/slim"><controlfield tag="001">almafu_BV008885798</controlfield><datafield tag="245" ind1="1" ind2="0"><subfield code="a">Der Process</subfield></datafield></record></zs:recordData>
      <zs:recordPosition>1</zs:recordPosition>
    </zs:record>"#;
    let response = envelope_of(1, record);
    let answer = blibs::engine::kobv::shown(&lookup_id(), &response).expect("a readable record");
    let found = answer.expect("the record was delivered");
    assert_eq!(found.id.as_str(), "almafu_BV008885798");
    assert_eq!(found.title, "Der Process");
}

/// A transport that must never be reached.
struct Unreachable;

impl blibs::http::Fetch for Unreachable {
    fn fetch(&self, _request: &blibs::http::Request) -> Result<blibs::http::Response, blibs::error::Error> {
        panic!("no request may be sent for a refused query")
    }
}

#[test]
fn a_location_query_that_is_too_long_is_refused_before_a_request() {
    let location = blibs::libraries::resolve("HU").expect("HU is a known library");
    let long = "wort ".repeat(300);
    let request = blibs::model::SearchRequest {
        query: QuerySpec { terms: vec![Term::from_argument(&long)], ..QuerySpec::default() },
        locations: vec![location],
        window: FetchWindow::plan(Limit::default_limit(), Page::first(), false),
    };
    let error = blibs::engine::kobv::Kobv::new(&Unreachable).search(&request).expect_err("too long");
    assert_eq!(error.exit().code(), 2);
}

/// A transport that answers every search with an empty envelope and keeps the requests.
struct EmptyCatalogue {
    seen: std::sync::Mutex<Vec<blibs::http::Request>>,
}

impl blibs::http::Fetch for EmptyCatalogue {
    fn fetch(&self, request: &blibs::http::Request) -> Result<blibs::http::Response, blibs::error::Error> {
        self.seen.lock().expect("one thread").push(request.clone());
        let body = r#"<?xml version="1.0"?>
<zs:searchRetrieveResponse xmlns:zs="http://docs.oasis-open.org/ns/search-ws/sruResponse">
  <zs:numberOfRecords>0</zs:numberOfRecords>
</zs:searchRetrieveResponse>"#;
        Ok(blibs::http::Response { request: request.clone(), status: 200, body: body.to_owned() })
    }
}

#[test]
fn the_second_page_asks_the_catalogue_for_the_second_window() {
    let transport = EmptyCatalogue { seen: std::sync::Mutex::new(Vec::new()) };
    let page = Page::new(2).expect("a valid page");
    let request = blibs::model::SearchRequest {
        query: QuerySpec { terms: vec![Term::from_argument("Kafka")], ..QuerySpec::default() },
        locations: Vec::new(),
        window: FetchWindow::plan(Limit::default_limit(), page, false),
    };
    let answer = blibs::engine::kobv::Kobv::new(&transport).search(&request).expect("an empty answer");
    assert_eq!(answer.total, Some(0));
    let seen = transport.seen.lock().expect("one thread");
    assert_eq!(seen.len(), 1);
    let start = seen[0].query.iter().find(|(key, _)| key == "startRecord").map(|(_, value)| value.clone());
    assert_eq!(start, Some((Limit::default_limit().get() as u32 + 1).to_string()));
}

#[test]
fn every_fixture_record_converts() {
    let records = [
        r#"<record xmlns="http://www.loc.gov/MARC21/slim"><leader>00000nam a2200000 c 4500</leader><controlfield tag="001">almafu_BV008885798</controlfield><datafield tag="245" ind1="1" ind2="0"><subfield code="a">Der Process</subfield><subfield code="b">Roman</subfield></datafield></record>"#,
        r#"<record xmlns="http://www.loc.gov/MARC21/slim"><leader>00000nas a2200000 c 4500</leader><controlfield tag="001">kobvindex_SLB42822</controlfield><datafield tag="245" ind1="0" ind2="0"><subfield code="a">Berliner Tageblatt</subfield></datafield></record>"#,
        r#"<record xmlns="http://www.loc.gov/MARC21/slim"><leader>00000ngm a2200000 c 4500</leader><controlfield tag="001">almahu_9912345</controlfield><datafield tag="245" ind1="0" ind2="0"><subfield code="a">Der Vorleser</subfield></datafield><datafield tag="924" ind1=" " ind2=" "><subfield code="b">DE-11</subfield></datafield></record>"#,
    ];
    for xml in records {
        let marc = blibs::engine::kobv::parse::marc::MarcRecord::parse(xml).expect("the record parses");
        let id = marc.control("001").unwrap_or("<no 001>").to_owned();
        let record = blibs::engine::kobv::parse::record::from_marc(&marc).unwrap_or_else(|error| panic!("{id} converts: {}", error.message()));
        assert!(!record.title.is_empty(), "{id} has a title");
        assert_eq!(record.id.as_str(), id);
    }
}
