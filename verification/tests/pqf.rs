use blibs::engine::kobv::pqf::{record_lookup, search, MAX_QUERY_CHARS};
use blibs::error::UsageError;
use blibs::model::{Identifier, Isil, QuerySpec, RecordId, Term};

fn word(text: &str) -> Term {
    Term::Word(text.to_owned())
}

fn phrase(text: &str) -> Term {
    Term::Phrase(text.to_owned())
}

fn spec_with_terms(terms: Vec<Term>) -> QuerySpec {
    QuerySpec { terms, ..QuerySpec::default() }
}

fn query_of(spec: &QuerySpec) -> String {
    search(spec, &[]).expect("test specs are non-empty and short").as_str().to_owned()
}

fn isil(code: &str) -> Isil {
    Isil::new(code)
}

#[test]
fn free_words_are_quoted_one_by_one() {
    let spec = spec_with_terms(vec![word("Kafka"), word("Prozess")]);
    assert_eq!(query_of(&spec), r#"@and @attr 1=1016 "Kafka" @attr 1=1016 "Prozess""#);
}

#[test]
fn a_shell_quoted_argument_stays_one_phrase() {
    let spec = spec_with_terms(vec![phrase("Der Prozess")]);
    assert_eq!(query_of(&spec), r#"@attr 1=1016 "Der Prozess""#);
}

#[test]
fn title_uses_attribute_4() {
    let spec = QuerySpec { title: Some(phrase("Der Prozess")), ..QuerySpec::default() };
    assert_eq!(query_of(&spec), r#"@attr 1=4 "Der Prozess""#);
}

#[test]
fn author_is_always_a_word_list_never_a_phrase() {
    let spec = QuerySpec { author: Some("Franz Kafka".to_owned()), ..QuerySpec::default() };
    assert_eq!(query_of(&spec), r#"@attr 1=1 @attr 4=6 "Franz Kafka""#);
}

#[test]
fn locations_become_an_or_on_the_right() {
    let spec = spec_with_terms(vec![word("Kafka")]);
    let query = search(&spec, &[isil("DE-11"), isil("DE-1")]).expect("valid query");
    assert_eq!(
        query.as_str(),
        r#"@and @attr 1=1016 "Kafka" @or @attr 1=1044 DE-11 @attr 1=1044 DE-1"#
    );
}

#[test]
fn year_goes_unquoted() {
    let spec = QuerySpec { year: Some(2020), ..QuerySpec::default() };
    assert_eq!(query_of(&spec), "@attr 1=31 2020");
}

#[test]
fn isbn_uses_attribute_7() {
    let spec = QuerySpec {
        identifier: Some(Identifier::Isbn("9783596294312".to_owned())),
        ..QuerySpec::default()
    };
    assert_eq!(query_of(&spec), r#"@attr 1=7 "9783596294312""#);
}

#[test]
fn issn_uses_attribute_8() {
    let spec = QuerySpec {
        identifier: Some(Identifier::Issn("0002-9769".to_owned())),
        ..QuerySpec::default()
    };
    assert_eq!(query_of(&spec), r#"@attr 1=8 "0002-9769""#);
}

#[test]
fn quotes_in_user_text_are_removed() {
    let spec = spec_with_terms(vec![phrase(r#"Der "Prozess""#)]);
    assert_eq!(query_of(&spec), r#"@attr 1=1016 "Der Prozess""#);
}

#[test]
fn punctuation_that_is_harmless_inside_quotes_survives() {
    let spec = spec_with_terms(vec![word("@Kafka"), word("{Kafka}"), word(r"Ka\fka")]);
    assert_eq!(
        query_of(&spec),
        r#"@and @and @attr 1=1016 "@Kafka" @attr 1=1016 "{Kafka}" @attr 1=1016 "Ka\fka""#
    );
}

#[test]
fn a_term_of_nothing_but_quotes_does_not_become_an_empty_field_value() {
    let spec = spec_with_terms(vec![word("Kafka"), word("\"\"")]);
    assert_eq!(query_of(&spec), r#"@attr 1=1016 "Kafka""#);
}

#[test]
fn three_clauses_nest_to_the_left() {
    let spec = QuerySpec {
        terms: vec![word("Kafka")],
        title: Some(phrase("Der Prozess")),
        year: Some(1925),
        ..QuerySpec::default()
    };
    assert_eq!(
        query_of(&spec),
        r#"@and @and @attr 1=1016 "Kafka" @attr 1=4 "Der Prozess" @attr 1=31 1925"#
    );
}

#[test]
fn three_locations_nest_to_the_left_too() {
    let spec = spec_with_terms(vec![word("Kafka")]);
    let query = search(&spec, &[isil("DE-11"), isil("DE-1"), isil("DE-83")]).expect("valid query");
    assert_eq!(
        query.as_str(),
        r#"@and @attr 1=1016 "Kafka" @or @or @attr 1=1044 DE-11 @attr 1=1044 DE-1 @attr 1=1044 DE-83"#
    );
}

#[test]
fn one_location_needs_no_or() {
    let spec = spec_with_terms(vec![word("Kafka")]);
    let query = search(&spec, &[isil("DE-11")]).expect("valid query");
    assert_eq!(query.as_str(), r#"@and @attr 1=1016 "Kafka" @attr 1=1044 DE-11"#);
}

#[test]
fn a_filter_without_search_terms_is_a_query_of_its_own() {
    let query = search(&QuerySpec::default(), &[isil("DE-B1533")]).expect("valid query");
    assert_eq!(query.as_str(), "@attr 1=1044 DE-B1533");
}

#[test]
fn nothing_to_search_and_nowhere_to_search_is_an_empty_query() {
    assert!(matches!(search(&QuerySpec::default(), &[]), Err(UsageError::EmptyQuery)));
}

#[test]
fn a_query_of_a_thousand_characters_is_refused_before_it_is_sent() {
    let spec = spec_with_terms(vec![word(&"a".repeat(1000))]);
    match search(&spec, &[]) {
        Err(UsageError::QueryTooLong { chars }) => assert!(chars >= MAX_QUERY_CHARS),
        other => panic!("expected QueryTooLong, got {other:?}"),
    }
}

#[test]
fn a_query_just_under_the_limit_is_still_sent() {
    let spec = spec_with_terms(vec![word(&"a".repeat(MAX_QUERY_CHARS - 16))]);
    let query = search(&spec, &[]).expect("just short enough");
    assert_eq!(query.char_len(), MAX_QUERY_CHARS - 1);
}

#[test]
fn the_length_limit_counts_characters_not_bytes() {
    let spec = spec_with_terms(vec![word(&"ä".repeat(MAX_QUERY_CHARS - 16))]);
    let query = search(&spec, &[]).expect("umlauts must not count double");
    assert_eq!(query.char_len(), MAX_QUERY_CHARS - 1);
}

#[test]
fn lookup_quotes_the_id() {
    let id = RecordId::parse("almafu_BV008885798").expect("well-formed id");
    assert_eq!(record_lookup(&id).as_str(), r#"@attr 1=12 "almafu_BV008885798""#);
}

#[test]
fn lookup_survives_an_id_with_punctuation_in_it() {
    let id = RecordId::parse("kobvindex_VBRD-i9783959087rüt20in209+20").expect("well-formed id");
    assert_eq!(
        record_lookup(&id).as_str(),
        r#"@attr 1=12 "kobvindex_VBRD-i9783959087rüt20in209+20""#
    );
}

#[test]
fn a_quote_inside_a_term_never_reaches_the_wire() {
    let spec = spec_with_terms(vec![word("a\"b\"c")]);
    assert_eq!(query_of(&spec), r#"@attr 1=1016 "abc""#);
}
