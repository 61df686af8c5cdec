use blibs::cli::run::{unstated_note, unstated_online};
use blibs::model::{AtBlock, Engine, Note};

#[test]
fn a_hidden_record_nobody_judged_says_nothing_was_stated() {
    let note = unstated_note(3, 0).expect("three hidden records are worth a note");
    assert_eq!(note.kind, "availability_filter_unstated");
    assert!(note.message.contains("no status was stated for 3"), "{note:?}");
}

#[test]
fn a_hidden_electronic_title_is_named_rather_than_called_unstated() {
    let note = unstated_note(2, 1).expect("two hidden records are worth a note");
    assert!(!note.message.contains("no status was stated"), "{note:?}");
    assert!(note.message.contains("2 records"), "{note:?}");
    assert!(note.message.contains("1 of them is an electronic title"), "{note:?}");
    assert!(note.message.contains("states no loan status at all"), "{note:?}");
    assert!(
        !note.message.contains("this tool does not read"),
        "the loan state is read wherever the platform states one: {note:?}"
    );
}

#[test]
fn the_electronic_count_never_exceeds_the_hidden_count() {
    let note = unstated_note(1, 4).expect("one hidden record is worth a note");
    assert!(note.message.contains("1 of them is an electronic"), "{note:?}");
    assert!(!note.message.contains('4'), "{note:?}");
}

#[test]
fn nothing_hidden_is_no_note() {
    assert!(unstated_note(0, 0).is_none());
    assert!(unstated_note(0, 2).is_none());
}

#[test]
fn only_the_titles_without_a_stated_loan_state_are_counted() {
    let notes = vec![
        Note::new("voebb_online_only", "an Onleihe title, read".to_owned()),
        Note::new("voebb_multivolume", "a multi-part work".to_owned()),
        Note::new("voebb_online_state_unstated", "an Overdrive title, silent".to_owned()),
    ];
    assert_eq!(unstated_online(&notes), 1);
    assert_eq!(unstated_online(&Vec::new()), 0);
}

fn outcome(engine: blibs::model::Engine, fetched: usize, after: usize, judged: Option<usize>, total: Option<u64>) -> blibs::cli::run::EngineOutcome {
    blibs::cli::run::EngineOutcome {
        search: blibs::model::EngineSearch {
            engine,
            total,
            fetched,
            undelivered: 1,
            at: Vec::new(),
            records: Vec::new(),
            query_echo: total.map(|_| "@attr 1=1016 Kafka".to_owned()),
            notes: Vec::new(),
        },
        after_filter: after,
        before_available: judged,
        hidden: blibs::select::Hidden { said_no: 0, unstated: 0 },
    }
}

#[test]
fn the_window_sums_the_engines_and_states_before_available_only_where_it_ran() {
    let outcomes = vec![outcome(Engine::Voebb, 7, 5, None, None), outcome(Engine::Kobv, 10, 8, Some(4), Some(304))];
    let window = blibs::cli::run::window_of(true, &outcomes);
    assert_eq!((window.fetched, window.after_filter, window.undelivered), (17, 13, 2));
    assert!(window.filtered);
    assert_eq!(window.before_available, Some(4));
    let none = vec![outcome(Engine::Kobv, 3, 3, None, Some(3))];
    assert_eq!(blibs::cli::run::window_of(false, &none).before_available, None);
}

#[test]
fn the_total_and_the_query_are_the_kobv_search_and_absent_without_one() {
    let outcomes = vec![outcome(Engine::Voebb, 7, 5, None, Some(9)), outcome(Engine::Kobv, 10, 8, None, Some(304))];
    let (total, pqf) = blibs::cli::run::kobv_answer(&outcomes);
    assert_eq!(total, Some(304));
    assert_eq!(pqf.as_deref(), Some("@attr 1=1016 Kafka"));
    let voebb_only = vec![outcome(Engine::Voebb, 7, 5, None, Some(9))];
    assert_eq!(blibs::cli::run::kobv_answer(&voebb_only), (None, None));
}

#[test]
fn every_location_gets_a_block_and_an_unreported_one_states_nothing() {
    let args = blibs::cli::SearchArgs {
        terms: vec!["Kafka".to_owned()],
        at: vec!["HU".to_owned(), "STABI".to_owned()],
        ..blibs::cli::SearchArgs::default()
    };
    let plan = blibs::cli::validate::validate(&args, false, true).expect("a valid search");
    let hu = &plan.locations[0];
    let reported = AtBlock {
        key: hu.key.clone(),
        given: hu.given.clone(),
        isil: hu.isil.clone(),
        branch: None,
        engine: Engine::Kobv,
        total: Some(230),
        records: Vec::new(),
        refused: None,
    };
    let mut answer = outcome(Engine::Kobv, 10, 10, None, None);
    answer.search.at = vec![reported.clone()];
    let blocks = blibs::cli::run::at_blocks(&plan, &vec![answer], &Vec::new());
    assert_eq!(blocks.len(), 2);
    assert_eq!(blocks[0], reported);
    assert_eq!(blocks[1].key, plan.locations[1].key);
    assert_eq!(blocks[1].total, None);
    assert!(blocks[1].records.is_empty());
    assert_eq!(blocks[1].refused, None);
}

#[test]
fn notes_about_one_limitation_become_one_note_naming_every_record() {
    let mut a = Note::new("availability_not_stated", "said nothing".to_owned());
    a.records = vec![blibs::model::RecordId::voebb("A")];
    let other = Note::new("window_filter_empty", "nothing matched".to_owned());
    let mut b = Note::new("availability_not_stated", "said nothing".to_owned());
    b.records = vec![blibs::model::RecordId::voebb("B")];
    let folded = Note::merged(vec![a, other, b]);
    assert_eq!(folded.len(), 2);
    assert_eq!(folded[0].records.iter().map(|r| r.as_str().to_owned()).collect::<Vec<_>>(), vec!["voebb_A", "voebb_B"]);
    assert_eq!(folded[1].kind, "window_filter_empty");
}

#[test]
fn a_finished_engine_drops_repeats_and_says_so() {
    let args = blibs::cli::SearchArgs { terms: vec!["Kafka".to_owned()], no_availability: true, ..blibs::cli::SearchArgs::default() };
    let plan = blibs::cli::validate::validate(&args, false, true).expect("a valid search");
    let hit = |local: &str| {
        blibs::engine::voebb::record_of(&blibs::engine::voebb::parse::results::Hit {
            id: blibs::model::RecordId::voebb(local),
            position: None,
            title: local.to_owned(),
            statement: None,
            year: None,
            media_kind: None,
            availability: None,
            shelfmark: None,
        })
    };
    let mut search = outcome(Engine::Kobv, 3, 3, None, Some(3)).search;
    search.records = vec![hit("A"), hit("B"), hit("A")];
    let done = blibs::cli::run::finish_engine(&plan, Engine::Kobv, &Vec::new(), search);
    assert_eq!(done.search.records.len(), 2);
    assert_eq!(done.search.fetched, 2);
    assert_eq!(done.after_filter, 2);
    assert_eq!(done.before_available, None);
    assert!(done.search.notes.iter().any(|n| n.kind == "duplicate_records_dropped"));
}

#[test]
fn an_assembled_result_puts_the_engines_together() {
    let args = blibs::cli::SearchArgs { terms: vec!["Kafka".to_owned()], no_availability: true, ..blibs::cli::SearchArgs::default() };
    let plan = blibs::cli::validate::validate(&args, false, true).expect("a valid search");
    let kobv = outcome(Engine::Kobv, 10, 8, None, Some(304));
    let result = blibs::cli::run::assemble_result(&plan, vec![kobv], vec!["AGB".to_owned()], 0);
    assert_eq!(result.total, Some(304));
    assert_eq!(result.window.fetched, 10);
    assert_eq!(result.shown, 0);
    assert_eq!(result.notes.len(), 1);
    assert_eq!(result.notes[0].kind, "location_past_last_result");
}

#[test]
fn the_locations_too_deep_to_page_are_named_with_both_positions() {
    let note = blibs::cli::run::window_too_deep_note(&vec!["AGB".to_owned(), "BStB".to_owned()], 400, 220).expect("two locations");
    assert_eq!(note.kind, "location_window_too_deep");
    assert_eq!(
        note.message,
        "AGB, BStB: voebb.de serves a result list only up to position 220, and this page reaches position 400, so nothing was asked there"
    );
    assert!(blibs::cli::run::window_too_deep_note(&Vec::new(), 400, 220).is_none());
}

fn past_the_end() -> blibs::error::Error {
    blibs::error::Error::Rejected(blibs::error::RejectedError::Diagnostic {
        uri: "info:srw/diagnostic/1/61".to_owned(),
        message: "First record position out of range".to_owned(),
        details: None,
    })
}

fn unreachable_host() -> blibs::error::Error {
    blibs::error::Error::Transport(blibs::error::TransportError::Network { host: "sru.kobv.de".to_owned(), reason: "refused".to_owned() })
}

#[test]
fn a_window_past_the_end_belongs_to_its_locations_and_other_errors_to_the_run() {
    assert_eq!(past_the_end().blast_radius(), blibs::error::Blast::Location);
    assert_eq!(unreachable_host().blast_radius(), blibs::error::Blast::Run);
    let other = blibs::error::Error::Rejected(blibs::error::RejectedError::Diagnostic {
        uri: "info:srw/diagnostic/1/10".to_owned(),
        message: "Query syntax error".to_owned(),
        details: None,
    });
    assert_eq!(other.blast_radius(), blibs::error::Blast::Run);
}

#[test]
fn an_engine_past_its_results_leaves_its_keys_while_another_answered() {
    let tu = blibs::libraries::resolve("TU").expect("a known library");
    let key = tu.key.clone();
    let results = vec![
        (vec![tu], Err(past_the_end())),
        (Vec::new(), Ok(outcome(Engine::Voebb, 7, 5, None, None))),
    ];
    let engines = blibs::cli::run::gather_engines(results).expect("one engine answered");
    assert_eq!(engines.outcomes.len(), 1);
    assert_eq!(engines.outcomes[0].search.fetched, 7);
    assert_eq!(engines.refused, vec![key]);
}

#[test]
fn when_no_engine_answered_the_first_refusal_is_raised() {
    let tu = blibs::libraries::resolve("TU").expect("a known library");
    let error = blibs::cli::run::gather_engines(vec![(vec![tu], Err(past_the_end()))]).err().expect("nobody answered");
    assert_eq!(error, past_the_end());
}

#[test]
fn the_first_error_of_the_run_wins() {
    let tu = blibs::libraries::resolve("TU").expect("a known library");
    let results = vec![
        (Vec::new(), Ok(outcome(Engine::Voebb, 7, 5, None, None))),
        (vec![tu], Err(unreachable_host())),
        (Vec::new(), Err(past_the_end())),
    ];
    let error = blibs::cli::run::gather_engines(results).err().expect("the run fails");
    assert_eq!(error, unreachable_host());
}

#[test]
fn no_engine_at_all_is_an_empty_answer() {
    let engines = blibs::cli::run::gather_engines(Vec::new()).expect("nothing failed");
    assert!(engines.outcomes.is_empty());
    assert!(engines.refused.is_empty());
}

#[test]
fn the_unstated_counts_of_the_engines_add_up() {
    let mut a = outcome(Engine::Voebb, 7, 5, Some(5), None);
    a.hidden = blibs::select::Hidden { said_no: 2, unstated: 1 };
    let mut b = outcome(Engine::Kobv, 10, 8, Some(4), Some(304));
    b.hidden = blibs::select::Hidden { said_no: 0, unstated: 3 };
    assert_eq!(blibs::cli::run::unstated_hidden(&vec![a, b]), 4);
}

/// A transport that must never be reached.
struct NeverAsked;

impl blibs::http::Fetch for NeverAsked {
    fn fetch(&self, _request: &blibs::http::Request) -> Result<blibs::http::Response, blibs::error::Error> {
        panic!("no request may be sent for a query that cannot be written")
    }
}

/// A catalogue that answers every search with no hits and keeps the requests.
struct NoHits {
    seen: std::sync::Mutex<Vec<blibs::http::Request>>,
}

impl blibs::http::Fetch for NoHits {
    fn fetch(&self, request: &blibs::http::Request) -> Result<blibs::http::Response, blibs::error::Error> {
        self.seen.lock().expect("one thread").push(request.clone());
        let body = r#"<?xml version="1.0"?>
<zs:searchRetrieveResponse xmlns:zs="http://docs.oasis-open.org/ns/search-ws/sruResponse">
  <zs:numberOfRecords>0</zs:numberOfRecords>
</zs:searchRetrieveResponse>"#;
        Ok(blibs::http::Response { request: request.clone(), status: 200, body: body.to_owned() })
    }
}

#[test]
fn a_query_too_long_for_pqf_is_a_usage_error_and_sends_nothing() {
    let args = blibs::cli::SearchArgs { terms: vec!["Kafka".to_owned()], no_availability: true, ..blibs::cli::SearchArgs::default() };
    let mut plan = blibs::cli::validate::validate(&args, false, true).expect("a valid search");
    let long = "wort ".repeat(300);
    plan.query.terms = vec![blibs::model::Term::from_argument(&long)];
    let error = blibs::cli::run::search_one_engine(&plan, Engine::Kobv, &Vec::new(), &NeverAsked).err().expect("too long");
    assert_eq!(error.exit().code(), 2);
}

#[test]
fn one_engine_searches_the_plans_window_and_finishes_the_answer() {
    let args = blibs::cli::SearchArgs { terms: vec!["Kafka".to_owned()], page: Some(2), no_availability: true, ..blibs::cli::SearchArgs::default() };
    let plan = blibs::cli::validate::validate(&args, false, true).expect("a valid search");
    let transport = NoHits { seen: std::sync::Mutex::new(Vec::new()) };
    let done = blibs::cli::run::search_one_engine(&plan, Engine::Kobv, &Vec::new(), &transport).expect("an empty answer");
    assert_eq!(done.search.total, Some(0));
    assert!(done.search.notes.iter().any(|n| n.kind == "result_order_unstable"));
    let seen = transport.seen.lock().expect("one thread");
    assert_eq!(seen.len(), 1);
    let start = seen[0].query.iter().find(|(key, _)| key == "startRecord").map(|(_, value)| value.clone());
    assert_eq!(start, Some((plan.window().start).to_string()));
}
