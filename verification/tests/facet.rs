use blibs::engine::voebb::parse::facet::{district_key, parse_count, parse_facet, BranchFacet, FacetEntry};
use blibs::error::{Error, UnexpectedError};
use blibs::libraries::{Branch, LatLon};

fn entry(label: &str, id: &str) -> FacetEntry {
    FacetEntry { label: label.to_owned(), checkbox_id: id.to_owned(), count: None }
}

fn branch(name: &str, short: &str, matches: &[&str]) -> Branch {
    Branch {
        key: short.to_owned(),
        kobvid: "KOB99999".to_owned(),
        name: name.to_owned(),
        short_name: short.to_owned(),
        coords: LatLon { lat_e6: 0, lon_e6: 0 },
        match_strings: matches.iter().map(|m| m.to_string()).collect(),
    }
}

#[test]
fn a_label_splits_into_district_and_name() {
    let e = entry("ZLB: Berliner Stadtbibliothek (BStB)", "x");
    assert_eq!(e.name(), "Berliner Stadtbibliothek (BStB)");
    assert_eq!(e.district().as_deref(), Some("ZLB"));
    let all = entry("in allen Bibliotheken", "y");
    assert_eq!(all.name(), "in allen Bibliotheken");
    assert_eq!(all.district(), None);
}

#[test]
fn the_two_vocabularies_agree_on_a_district() {
    assert_eq!(district_key("Stadtbibliothek Treptow-Koepenick / Mittelpunktbibliothek"), "treptow-kopenick");
    assert_eq!(district_key("Treptow-Köpenick"), "treptow-kopenick");
    assert_eq!(district_key("Pankow: Bibliothek Buch"), "pankow");
    assert_eq!(district_key("Stadtbibliothek Mitte, Schiller-Bibliothek"), "mitte");
}

#[test]
fn a_count_badge_is_a_number_and_nothing_else_is() {
    assert_eq!(parse_count("(35)"), Some(35));
    assert_eq!(parse_count(" (1.234) "), Some(1234));
    assert_eq!(parse_count("(viele)"), None);
    assert_eq!(parse_count(""), None);
}

#[test]
fn the_short_name_decides_first() {
    let facet = BranchFacet {
        entries: vec![entry("ZLB: Amerika-Gedenkbibliothek (AGB)", "sub-PTL1_tree_1_90"), entry("Mitte: Schiller-Bibliothek", "sub-PTL1_tree_1_91")],
    };
    let agb = branch("Zentral- und Landesbibliothek Berlin / Amerika-Gedenkbibliothek", "Amerika-Gedenkbibliothek (AGB)", &[]);
    let found = facet.find(&agb).expect("the AGB is listed");
    assert_eq!(found.checkbox_id, "sub-PTL1_tree_1_90");
}

#[test]
fn the_full_name_without_its_prefix_and_the_match_strings_decide_second() {
    let facet = BranchFacet {
        entries: vec![entry("Reinickendorf: Bibl. Reinickendorf-West", "a"), entry("Pankow: Bibliothek Buch", "b")],
    };
    let buch = branch("Stadtbibliothek Pankow / Bibliothek Buch", "Buch", &[]);
    assert_eq!(facet.lookup(&buch).expect("no ambiguity").map(|e| e.checkbox_id.as_str()), Some("b"));
    let west = branch("Stadtbibliothek Reinickendorf / Bibliothek Reinickendorf-West", "Reinickendorf-West", &["Bibl. Reinickendorf-West"]);
    assert_eq!(facet.lookup(&west).expect("no ambiguity").map(|e| e.checkbox_id.as_str()), Some("a"));
}

#[test]
fn a_substring_matches_only_within_the_district() {
    let facet = BranchFacet {
        entries: vec![entry("Spandau: Hauptbibliothek", "s"), entry("Tempelhof-Schöneberg: Bezirkszentralbibliothek", "t")],
    };
    let spandau = branch("Stadtbibliothek Spandau / Hauptbibliothek Spandau", "Hauptbibliothek Spandau", &[]);
    assert_eq!(facet.lookup(&spandau).expect("no ambiguity").map(|e| e.checkbox_id.as_str()), Some("s"));
    let foreign = branch("Stadtbibliothek Mitte / Bezirkszentralbibliothek Nirgendwo", "Bezirkszentralbibliothek Nirgendwo", &[]);
    assert_eq!(facet.lookup(&foreign).expect("must not be ambiguous"), None);
}

#[test]
fn the_district_breaks_a_tie_and_a_tie_it_cannot_break_is_an_error() {
    let facet = BranchFacet {
        entries: vec![entry("Mitte: Kurt-Tucholsky-Bibliothek", "m"), entry("Pankow: Kurt-Tucholsky-Bibliothek", "p")],
    };
    let pankow = branch("Stadtbibliothek Pankow / Kurt-Tucholsky-Bibliothek", "Kurt-Tucholsky-Bibliothek", &[]);
    assert_eq!(facet.lookup(&pankow).expect("the district decides").map(|e| e.checkbox_id.as_str()), Some("p"));
    let nowhere = branch("Stadtbibliothek Nirgendwo / Kurt-Tucholsky-Bibliothek", "Kurt-Tucholsky-Bibliothek", &[]);
    let Err(Error::Unexpected(UnexpectedError::MissingElement { what, context })) = facet.lookup(&nowhere) else {
        panic!("two candidates the district cannot separate are an error");
    };
    assert!(what.contains("2 entries match it"), "{what}");
    assert!(what.contains("Mitte: Kurt-Tucholsky-Bibliothek, Pankow: Kurt-Tucholsky-Bibliothek"), "{what}");
    assert_eq!(context, "voebb.de branch facet");
}

#[test]
fn a_branch_the_tree_does_not_list_is_no_entry_and_find_says_so() {
    let facet = BranchFacet { entries: vec![entry("Mitte: Schiller-Bibliothek", "m")] };
    let other = branch("Stadtbibliothek Pankow / Bibliothek Buch", "Bibliothek Buch", &[]);
    assert_eq!(facet.lookup(&other).expect("absence is an answer"), None);
    let Err(Error::Unexpected(UnexpectedError::MissingElement { what, .. })) = facet.find(&other) else {
        panic!("find has to apply a filter and cannot fall back");
    };
    assert!(what.contains("among the 1 branches"), "{what}");
}

const RESULTS: &str = r#"<html><head><title>Trefferliste</title></head><body><div id="PTL1_tree_1"><ul>
<li class="cbtree_branch_li"><button class="cbtree_branch_a">Medienart</button><ul>
<li class="cbtree_leaf_li"><input type="checkbox" id="sub-PTL1_tree_1_1"><a class="cbtree_leaf_a">Buch <span class="count">(60)</span></a></li></ul></li>
<li class="cbtree_branch_li"><button class="cbtree_branch_a"> Bibliothek </button><ul>
<li class="cbtree_leaf_li"><input type="checkbox" id="sub-PTL1_tree_1_89"><a class="cbtree_leaf_a">in allen Bibliotheken</a></li>
<li class="cbtree_leaf_li"><input type="checkbox" id="sub-PTL1_tree_1_90"><a class="cbtree_leaf_a">ZLB: Amerika-Gedenkbibliothek (AGB) <span class="count">(35)</span></a></li>
<li class="cbtree_leaf_li"><input type="checkbox"><a class="cbtree_leaf_a">Ohne Kästchen-Id</a></li>
</ul></li></ul></div></body></html>"#;

#[test]
fn the_branch_rubric_is_read_with_ids_and_counts() {
    let facet = parse_facet(RESULTS).expect("the tree and the rubric are there");
    assert_eq!(facet.entries.len(), 2, "{:?}", facet.entries);
    assert_eq!(facet.entries[0].label, "in allen Bibliotheken");
    assert_eq!(facet.entries[0].count, None);
    assert_eq!(facet.entries[1].label, "ZLB: Amerika-Gedenkbibliothek (AGB)");
    assert_eq!(facet.entries[1].checkbox_id, "sub-PTL1_tree_1_90");
    assert_eq!(facet.entries[1].count, Some(35));
}

#[test]
fn a_missing_tree_or_rubric_names_its_selector() {
    let no_tree = RESULTS.replace("id=\"PTL1_tree_1\"", "id=\"PTL1_tree_2\"");
    let Err(Error::Unexpected(UnexpectedError::MissingSelector { selector, .. })) = parse_facet(&no_tree) else {
        panic!("a missing tree is an error");
    };
    assert_eq!(selector, "div#PTL1_tree_1");
    let no_rubric = RESULTS.replace(" Bibliothek </button>", " Haeuser </button>");
    let Err(Error::Unexpected(UnexpectedError::MissingSelector { selector, .. })) = parse_facet(&no_rubric) else {
        panic!("a missing rubric is an error");
    };
    assert!(selector.contains("Bibliothek"), "{selector}");
}
