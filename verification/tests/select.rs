use blibs::engine::voebb::parse::results::Hit;
use blibs::engine::voebb::record_of;
use blibs::model::{Format, Limit, Page, Record, RecordId};
use blibs::select::{dedup, duplicate_note, filter, take_page, unstable_order_note, Filters, PageCut};

fn record(local: &str, media: Option<&str>) -> Record {
    record_of(&Hit {
        id: RecordId::voebb(local),
        position: None,
        title: format!("Titel {local}"),
        statement: None,
        year: None,
        media_kind: media.map(str::to_owned),
        availability: None,
        shelfmark: None,
    })
}

fn ids(records: &[Record]) -> Vec<String> {
    records.iter().map(|r| r.id.as_str().to_owned()).collect()
}

#[test]
fn a_repeated_record_is_dropped_and_counted() {
    let records = vec![record("A", None), record("B", None), record("A", None), record("C", None), record("B", None)];
    let (kept, dropped) = dedup(records);
    assert_eq!(ids(&kept), vec!["voebb_A", "voebb_B", "voebb_C"]);
    assert_eq!(dropped, 2);
}

#[test]
fn the_duplicate_note_counts_in_the_singular_and_the_plural() {
    let one = duplicate_note(1);
    assert_eq!(one.kind, "duplicate_records_dropped");
    assert_eq!(one.message, "the catalogue delivered 1 record twice in this window; the repeats were dropped");
    assert_eq!(duplicate_note(3).message, "the catalogue delivered 3 records twice in this window; the repeats were dropped");
}

#[test]
fn the_unstable_order_note_has_its_kind() {
    assert_eq!(unstable_order_note().kind, "result_order_unstable");
}

#[test]
fn a_format_filter_keeps_only_that_format_in_order() {
    let records = vec![record("A", Some("Band")), record("B", Some("E-Ressource")), record("C", Some("Band"))];
    let filters = Filters { format: Some(Format::Book), language: None };
    assert_eq!(ids(&filter(records, &filters)), vec!["voebb_A", "voebb_C"]);
}

#[test]
fn a_language_filter_needs_the_code_among_the_languages() {
    let mut german = record("A", None);
    german.languages = vec!["ger".to_owned()];
    let english = record("B", None);
    let filters = Filters { format: None, language: Some("ger".to_owned()) };
    assert_eq!(ids(&filter(vec![german, english], &filters)), vec!["voebb_A"]);
}

#[test]
fn a_page_cut_skips_the_offset_and_keeps_the_length() {
    let records: Vec<Record> = ["A", "B", "C", "D", "E"].iter().map(|l| record(l, None)).collect();
    let cut = PageCut { offset: 2, len: 2 };
    assert_eq!(ids(&take_page(records, cut)), vec!["voebb_C", "voebb_D"]);
    let short: Vec<Record> = ["A", "B", "C"].iter().map(|l| record(l, None)).collect();
    let second = PageCut::plan(Limit::new(2).expect("a limit"), Page::new(2).expect("a page"), true);
    assert_eq!(ids(&take_page(short, second)), vec!["voebb_C"]);
}

#[test]
fn year_sorts_the_newest_first_and_keeps_ties_in_order() {
    let mut a = record("A", None);
    a.year = Some(1990);
    let mut b = record("B", None);
    b.year = Some(2020);
    let c = record("C", None);
    let mut d = record("D", None);
    d.year = Some(1990);
    let sorted = blibs::select::sort(vec![a, b, c, d], blibs::model::SortKey::Year);
    assert_eq!(ids(&sorted), vec!["voebb_B", "voebb_A", "voebb_D", "voebb_C"]);
}

#[test]
fn title_sorts_with_the_umlauts_written_out() {
    let mut z = record("Z", None);
    z.title = "Zander".to_owned();
    let mut o = record("O", None);
    o.title = "Öhler".to_owned();
    let mut p = record("P", None);
    p.title = "Oehm".to_owned();
    let sorted = blibs::select::sort(vec![z, p, o], blibs::model::SortKey::Title);
    assert_eq!(ids(&sorted), vec!["voebb_O", "voebb_P", "voebb_Z"]);
}

#[test]
fn relevance_keeps_the_catalogues_order() {
    let records = vec![record("B", None), record("A", None)];
    assert_eq!(ids(&blibs::select::sort(records, blibs::model::SortKey::Relevance)), vec!["voebb_B", "voebb_A"]);
}

#[test]
fn only_records_with_a_copy_in_right_now_stay() {
    let mut inside = record("A", None);
    inside.holdings[0].summary = blibs::model::Status::Available;
    let mut reference = record("B", None);
    reference.holdings[0].summary = blibs::model::Status::Reference;
    let unknown = record("C", None);
    let (kept, hidden) = blibs::select::keep_available(vec![inside, reference, unknown]);
    assert_eq!(ids(&kept), vec!["voebb_A"]);
    assert_eq!((hidden.said_no, hidden.unstated), (1, 1));
}

#[test]
fn the_holdings_of_the_named_libraries_are_marked() {
    let location = blibs::libraries::resolve("VOEBB").expect("the network is a known library");
    let mut records = vec![record("A", None)];
    blibs::select::mark_mine(&mut records, &vec![location]);
    assert!(records[0].holdings[0].mine);
    let mut unmarked = vec![record("B", None)];
    blibs::select::mark_mine(&mut unmarked, &Vec::new());
    assert!(!unmarked[0].holdings[0].mine);
}

#[test]
fn every_block_pages_on_its_own() {
    let records: Vec<Record> = ["A", "B", "C", "D"].iter().map(|l| record(l, None)).collect();
    let block = |key: &str, locals: &[&str]| blibs::model::AtBlock {
        key: key.to_owned(),
        given: key.to_owned(),
        isil: blibs::model::Isil::new("DE-1"),
        branch: None,
        engine: blibs::model::Engine::Kobv,
        total: None,
        records: locals.iter().map(|l| RecordId::voebb(l)).collect(),
        refused: None,
    };
    let mut at = vec![block("X", &["A", "C", "D"]), block("Y", &["B"])];
    let shown = blibs::select::take_page_per_location(records, &mut at, PageCut { offset: 1, len: 1 });
    assert_eq!(ids(&shown), vec!["voebb_C"]);
    assert_eq!(at[0].records.iter().map(|r| r.as_str().to_owned()).collect::<Vec<_>>(), vec!["voebb_C"]);
    assert!(at[1].records.is_empty());
}
