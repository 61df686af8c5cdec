use blibs::engine::voebb::parse::detail::{
    format_of, is_missing_record, isbns_of, languages_of, lending_status, page_unreadable, parse_detail,
    parse_due_date, split_location, status_of, title_of, BibRow, Bibliographic, StatusCell,
};
use blibs::engine::voebb::parse::items::{
    branch_of, due_date_of, items_of, no_copies_note, voebb_branches, Columns, ItemTable,
};
use blibs::error::{Error, UnexpectedError};
use blibs::libraries::{Branch, LatLon};
use blibs::model::{Format, RecordId, Status};

fn row(label: &str, values: &[&str]) -> BibRow {
    BibRow { label: label.to_owned(), values: values.iter().map(|v| v.to_string()).collect(), links: Vec::new() }
}

fn cell(text: &str, class: &str) -> StatusCell {
    StatusCell { text: text.to_owned(), class: class.to_owned() }
}

fn kobvid_of(library: &str) -> Option<String> {
    let branches = voebb_branches();
    branch_of(&branches, library).map(|i| branches[i].kobvid.clone())
}

#[test]
fn only_the_two_measured_markers_state_a_loan_status() {
    let link = |text: &str| row("Link zur Onleihe", &[text]);
    assert_eq!(
        lending_status(Some(&link(
            "Zugang zum Titel erhalten Sie hier. (Das Medium ist verfügbar / Ausleihe keine Vormerkung möglich)"
        ))),
        Status::Available
    );
    assert_eq!(
        lending_status(Some(&link("Zugang zum Titel erhalten Sie hier. (Das Medium ist ausgeliehen / Vormerkung möglich)"))),
        Status::Unavailable
    );
    assert_eq!(lending_status(Some(&link("Zugang zum Titel erhalten Sie hier."))), Status::Unknown);
    assert_eq!(lending_status(None), Status::Unknown);
}

#[test]
fn an_ambiguous_house_name_resolves_to_no_branch_at_all() {
    assert_eq!(kobvid_of("ZLB: Außenmagazin"), None);
    assert_eq!(kobvid_of("ZLB: Amerika-Gedenkbibliothek (AGB)").as_deref(), Some("SIG00036"));
    assert_eq!(kobvid_of("ZLB: Berliner Stadtbibliothek (BStB)").as_deref(), Some("BIB000000072"));
}

#[test]
fn a_return_date_is_read_unpadded_and_only_in_the_form_the_site_writes() {
    assert_eq!(parse_due_date("22.9.2026").as_deref(), Some("2026-09-22"));
    assert_eq!(parse_due_date("5.10.2026").as_deref(), Some("2026-10-05"));
    assert_eq!(parse_due_date("05.10.2026").as_deref(), Some("2026-10-05"));
    for wrong in [
        "",
        "22.9.26",
        "2026-09-22",
        "22/9/2026",
        "22.9.2026.1",
        "22..2026",
        "0.9.2026",
        "22.13.2026",
        "+2.9.2026",
        "nächste Woche",
    ] {
        assert_eq!(parse_due_date(wrong), None, "{wrong:?}");
    }
}

#[test]
fn the_measured_medienart_values_map_onto_the_format_vocabulary() {
    let cases = [
        ("[Buch]", Format::Book, false),
        ("[Band]", Format::Book, false),
        ("[CD]", Format::Audio, false),
        ("[DVD]", Format::Video, false),
        ("[Medienkombination]", Format::Mixed, false),
        ("[Noten]", Format::Score, false),
        ("[Karte/Plan]", Format::Maps, false),
        ("[Konsolenspiel]", Format::Object, false),
        ("[Zeitung]", Format::Journal, false),
        ("[Zeitschrift]", Format::Journal, false),
        ("[Zeitschriftenartige Reihe]", Format::Journal, false),
        ("[Zeitschriftenheft]", Format::Journal, false),
        ("[E-Ressource]", Format::Ebook, true),
        ("[E-Book]", Format::Ebook, true),
        ("[E-Audio]", Format::Audio, true),
        ("[Mehrteiliges Werk]", Format::Unknown, false),
    ];
    for (medienart, format, online) in cases {
        assert_eq!(format_of(medienart, false), (format, online), "{medienart}");
    }
}

#[test]
fn the_isbd_title_splits_only_on_the_spaced_separators() {
    assert_eq!(
        title_of("Bernhard Schlink: Der Vorleser / Lars Hofmann ; Sascha Feuchert"),
        ("Bernhard Schlink: Der Vorleser".to_string(), None)
    );
    assert_eq!(
        title_of("Der Vorleser : Roman / Bernhard Schlink"),
        ("Der Vorleser".to_string(), Some("Roman".to_string()))
    );
}

#[test]
fn only_known_language_names_become_codes() {
    assert_eq!(languages_of(&vec!["Deutsch"]), vec!["ger"]);
    assert_eq!(languages_of(&vec!["Deutsch", "Englisch"]), vec!["ger", "eng"]);
    assert!(languages_of(&vec!["Sorbisch"]).is_empty());
}

#[test]
fn isbns_lose_their_hyphens_and_a_price_is_not_one() {
    assert_eq!(isbns_of(&vec!["978-3-15-950138-3"]), vec!["9783159501383"]);
    assert_eq!(isbns_of(&vec!["3-464-61634-X"]), vec!["346461634X"]);
    assert!(isbns_of(&vec!["EUR 9,95"]).is_empty());
}

fn headers(texts: &[&str]) -> Vec<String> {
    texts.iter().map(|t| t.to_string()).collect()
}

#[test]
fn five_and_four_columns_are_mapped_by_their_heading() {
    let five = Columns::from_header(&headers(&["Bibliothek", "Standort", "Signatur", "Bestellmöglichkeit", "Verfügbarkeit"]))
        .expect("all five headings");
    assert_eq!(five.library, 0);
    assert_eq!(five.call_number, Some(2));
    assert_eq!(five.availability, 4);
    let four = Columns::from_header(&headers(&["Bibliothek", "Standort", "Bestellmöglichkeit", "Verfügbarkeit"]))
        .expect("four headings");
    assert_eq!(four.call_number, None);
    assert_eq!(four.order_option, Some(2));
    assert_eq!(four.availability, 3);
}

#[test]
fn a_table_without_the_house_column_names_the_missing_heading() {
    let Err(Error::Unexpected(UnexpectedError::MissingSelector { selector, document })) =
        Columns::from_header(&headers(&["Standort", "Verfügbarkeit"]))
    else {
        panic!("a table without Bibliothek is not the item table");
    };
    assert_eq!(selector, "table#resptable-1 thead th:Bibliothek");
    assert_eq!(document, "voebb detail page");
    let Err(Error::Unexpected(UnexpectedError::MissingSelector { selector, .. })) =
        Columns::from_header(&headers(&["Bibliothek"]))
    else {
        panic!("a table without Verfügbarkeit is not the item table");
    };
    assert_eq!(selector, "table#resptable-1 thead th:Verfügbarkeit");
}

#[test]
fn a_return_date_is_taken_from_the_status_cell_and_an_unreadable_one_is_a_note() {
    let (date, note) = due_date_of(Some("Ausgeliehen - Fällig am: 22.9.2026"));
    assert_eq!(date.as_deref(), Some("2026-09-22"));
    assert!(note.is_none());
    let (date, note) = due_date_of(Some("Ausgeliehen - Fällig am: bald"));
    assert_eq!(date, None);
    assert_eq!(note.expect("an unreadable date is stated").kind, "voebb_due_date_unreadable");
    assert_eq!(due_date_of(Some("Verfügbar")), (None, None));
    assert_eq!(due_date_of(None), (None, None));
}

#[test]
fn the_order_column_decides_between_available_and_reference() {
    let available = cell("Verfügbar", "available");
    assert_eq!(status_of(Some(&available), Some("4 Wochen - Vormerkung möglich")).0, Status::Available);
    assert_eq!(status_of(Some(&available), Some("nicht entleihbar (Freihand) - Präsenzbestand")).0, Status::Reference);
    let (status, note) = status_of(Some(&cell("Ausgeliehen", "available")), None);
    assert_eq!(status, Status::Unavailable);
    assert_eq!(note.expect("a contradiction is stated").kind, "availability_status_conflict");
    let (status, note) = status_of(Some(&cell("Im Zulauf", "")), None);
    assert_eq!(status, Status::Unknown);
    assert_eq!(note.expect("an unknown word is stated").kind, "availability_unknown_status");
    assert_eq!(status_of(None, None), (Status::Unknown, None));
}

#[test]
fn a_location_without_a_shelfmark_column_is_split_at_the_first_dash() {
    assert_eq!(
        split_location("Freihand Erwachsene - Roman Schlink"),
        (Some("Freihand Erwachsene".to_owned()), Some("Roman Schlink".to_owned()))
    );
    assert_eq!(split_location("Magazin"), (Some("Magazin".to_owned()), None));
    assert_eq!(split_location(""), (None, None));
}

#[test]
fn an_empty_item_table_says_why_from_what_the_page_calls_the_record() {
    let multi = no_copies_note("[Mehrteiliges Werk]", None);
    assert_eq!(multi.kind, "voebb_multivolume");
    let serial = no_copies_note("[Zeitung]", Some("Bestand in ZLB: 1994/95"));
    assert_eq!(serial.kind, "voebb_no_copies_listed");
    assert!(serial.message.contains("the page calls the record [Zeitung]"), "{serial:?}");
    assert!(serial.message.contains("in prose"), "{serial:?}");
    let bare = no_copies_note("", None);
    assert!(bare.message.contains("the page states no Medienart for it"), "{bare:?}");
    assert!(!bare.message.contains("in prose"), "{bare:?}");
}

#[test]
fn an_absent_item_table_is_explained_by_the_lending_link_or_is_an_error() {
    let onleihe = Bibliographic {
        rows: vec![
            row("Titel", &["Der Vorleser"]),
            row("Link zur Onleihe", &["Zugang zum Titel erhalten Sie hier. (Das Medium ist verfügbar)"]),
        ],
    };
    let (items, notes) = items_of(&ItemTable::Absent, &onleihe).expect("a lending link explains the absence");
    assert!(items.is_empty());
    assert_eq!(notes[0].kind, "voebb_online_only");
    assert!(notes[0].message.contains("Link zur Onleihe"), "{notes:?}");

    let overdrive = Bibliographic {
        rows: vec![row("Titel", &["x"]), row("Link zu Overdrive", &["Zugang zum Titel erhalten Sie hier."])],
    };
    let (_, notes) = items_of(&ItemTable::Absent, &overdrive).expect("explained");
    assert_eq!(notes[0].kind, "voebb_online_state_unstated");

    let nothing = Bibliographic { rows: vec![row("Titel", &["x"]), row("Medienart", &["[Buch]"])] };
    let Err(Error::Unexpected(UnexpectedError::MissingSelector { selector, .. })) =
        items_of(&ItemTable::Absent, &nothing)
    else {
        panic!("a book page without a copy table is not a page this parser knows");
    };
    assert_eq!(selector, "table#resptable-1");
}

#[test]
fn a_name_two_branches_answer_to_resolves_to_neither() {
    let house = |kobvid: &str, name: &str, short: &str| Branch {
        key: kobvid.to_owned(),
        kobvid: kobvid.to_owned(),
        name: name.to_owned(),
        short_name: short.to_owned(),
        coords: LatLon { lat_e6: 0, lon_e6: 0 },
        match_strings: vec!["Außenmagazin".to_owned()],
    };
    let branches = vec![
        house("A1", "Zentral- und Landesbibliothek Berlin / Magazin West", "Magazin West"),
        house("A2", "Zentral- und Landesbibliothek Berlin / Magazin Ost", "Magazin Ost"),
    ];
    assert_eq!(branch_of(&branches, "ZLB: Außenmagazin"), None);
    assert_eq!(branch_of(&branches, "ZLB: Magazin Ost"), Some(1));
    assert_eq!(branch_of(&branches, "Magazin West"), Some(0));
}

/// A record page: the labelled rows, then the copies in five columns.
const PAGE: &str = r#"<!DOCTYPE html><html><head><title>Der Vorleser</title></head><body><div id="R03">
<table class="gi">
<tr><th scope="row">Titel</th><td>Der Vorleser : Roman / Bernhard Schlink</td></tr>
<tr><th scope="row">Veröffentlichung</th><td>Zürich : Diogenes, 1997</td></tr>
<tr><th scope="row">Medienart</th><td>[Buch]</td></tr>
<tr><th scope="row">Sprache</th><td>Deutsch</td></tr>
<tr><th scope="row">ISBN</th><td>978-3-257-22953-0<br>EUR 10,00</td></tr>
</table>
<table id="resptable-1"><thead><tr><th>Bibliothek</th><th>Standort</th><th>Signatur</th><th>Bestellmöglichkeit</th><th>Verfügbarkeit</th></tr></thead>
<tbody>
<tr><td>ZLB: Amerika-Gedenkbibliothek (AGB)</td><td>Freihand</td><td>Schl 1</td><td>4 Wochen</td><td><span class="available">Verfügbar</span></td></tr>
<tr><td>Mitte: Schiller-Bibliothek</td><td>Erwachsene</td><td>Schl 2</td><td>nicht entleihbar - Präsenzbestand</td><td><span class="available">Verfügbar</span></td></tr>
<tr><td>Pankow: Bibliothek am Wasserturm</td><td>Roman</td><td></td><td></td><td><span class="notavailable">Ausgeliehen -  Fällig am: 22.9.2026</span></td></tr>
</tbody></table></div></body></html>"#;

#[test]
fn a_record_page_reads_into_a_record_with_every_copy() {
    let id = RecordId::voebb("SAK13363539");
    let page = parse_detail(PAGE, &id).expect("a record page");
    assert_eq!(page.record.id.as_str(), "voebb_SAK13363539");
    assert_eq!(page.record.title, "Der Vorleser");
    assert_eq!(page.record.subtitle.as_deref(), Some("Roman"));
    assert_eq!(page.record.year, Some(1997));
    assert_eq!(page.record.format, Format::Book);
    assert_eq!(page.record.languages, vec!["ger"]);
    assert_eq!(page.record.isbns, vec!["9783257229530"]);
    let holding = &page.record.holdings[0];
    let statuses: Vec<Status> = holding.items.iter().map(|item| item.status).collect();
    assert_eq!(statuses, vec![Status::Available, Status::Reference, Status::Unavailable]);
    assert_eq!(holding.items[0].branch.as_deref(), Some("SIG00036"));
    assert_eq!(holding.items[0].call_number.as_deref(), Some("Schl 1"));
    assert_eq!(holding.items[1].branch, None, "a house the list does not carry is never guessed");
    assert_eq!(holding.items[1].branch_name.as_deref(), Some("Mitte: Schiller-Bibliothek"));
    assert_eq!(holding.items[2].due_date.as_deref(), Some("2026-09-22"));
    assert_eq!(holding.items[2].call_number, None);
    assert_eq!(holding.summary, Status::Available);
    assert!(page.notes.is_empty(), "{:?}", page.notes);
}

#[test]
fn an_unreadable_item_table_costs_the_copies_and_keeps_the_record() {
    let broken = PAGE.replace("<th>Bibliothek</th>", "<th>Haus</th>");
    let id = RecordId::voebb("SAK1");
    let page = parse_detail(&broken, &id).expect("the record survives");
    assert_eq!(page.record.title, "Der Vorleser");
    assert!(page.record.holdings[0].items.is_empty());
    assert_eq!(page.notes.len(), 1);
    assert_eq!(page.notes[0].kind, "voebb_page_unreadable");
    assert!(page.notes[0].message.contains("table#resptable-1 thead th:Bibliothek"), "{:?}", page.notes);
    assert_eq!(page.notes[0].records.len(), 1);
    assert_eq!(page.notes[0].records[0].as_str(), "voebb_SAK1");
}

#[test]
fn a_page_without_the_bibliographic_table_is_no_record_page() {
    let broken = PAGE.replace("class=\"gi\"", "class=\"other\"");
    let Err(Error::Unexpected(UnexpectedError::MissingSelector { selector, document })) =
        parse_detail(&broken, &RecordId::voebb("SAK1"))
    else {
        panic!("no table.gi, no record");
    };
    assert_eq!(selector, "table.gi");
    assert_eq!(document, "voebb detail page");
    let untitled = PAGE.replace(">Titel<", ">Sachtitel<");
    let Err(Error::Unexpected(UnexpectedError::MissingSelector { selector, .. })) =
        parse_detail(&untitled, &RecordId::voebb("SAK1"))
    else {
        panic!("no Titel row, no record");
    };
    assert_eq!(selector, "table.gi th[scope=row]:Titel");
}

#[test]
fn the_entry_page_is_a_missing_record_and_a_record_page_is_not() {
    let entry = r#"<html><head><title>VÖBB</title></head><body><div id="R04"><form name="Form0" action="/x"></form></div></body></html>"#;
    assert!(is_missing_record(entry));
    assert!(!is_missing_record(PAGE));
    assert!(!is_missing_record("<html><body><p>redesigned</p></body></html>"), "one signal is not enough");
}

#[test]
fn the_unreadable_page_note_carries_the_failure_verbatim() {
    let error = Error::Unexpected(UnexpectedError::MissingSelector {
        selector: "table#resptable-1".to_owned(),
        document: "voebb detail page".to_owned(),
    });
    let note = page_unreadable(&error);
    assert_eq!(note.kind, "voebb_page_unreadable");
    assert!(note.message.contains("voebb detail page no longer matches table#resptable-1"), "{note:?}");
    assert!(note.records.is_empty());
}
