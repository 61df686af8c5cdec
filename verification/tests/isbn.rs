use blibs::cli::isbn::{parse, symbol};
use blibs::error::{IsbnProblem, IsbnScheme};
use blibs::model::Identifier;

fn isbn(input: &str) -> String {
    match parse(input) {
        Ok(Identifier::Isbn(value)) => value,
        other => panic!("expected an ISBN for {input:?}, got {other:?}"),
    }
}

#[test]
fn a_hyphenated_isbn13_is_accepted_and_stripped() {
    assert_eq!(isbn("978-3-596-29433-6"), "9783596294336");
    assert_eq!(isbn("978 3 596 29433 6"), "9783596294336");
    assert_eq!(isbn("9783596294336"), "9783596294336");
}

#[test]
fn a_broken_check_digit_names_the_expected_one() {
    assert_eq!(
        parse("978-3-596-29433-4"),
        Err(IsbnProblem::CheckDigit { expected: '6', found: '4', scheme: IsbnScheme::Isbn })
    );
    assert_eq!(
        parse("978-3-596-29433-1"),
        Err(IsbnProblem::CheckDigit { expected: '6', found: '1', scheme: IsbnScheme::Isbn })
    );
}

#[test]
fn the_reference_isbn13_validates() {
    assert_eq!(isbn("978-3-16-148410-0"), "9783161484100");
}

#[test]
fn an_isbn10_validates_modulo_eleven() {
    assert_eq!(isbn("3-935221-46-0"), "3935221460");
    assert_eq!(
        parse("3-935221-46-1"),
        Err(IsbnProblem::CheckDigit { expected: '0', found: '1', scheme: IsbnScheme::Isbn })
    );
}

#[test]
fn an_isbn10_may_end_in_x() {
    assert_eq!(isbn("0-8044-2957-X"), "080442957X");
    assert_eq!(isbn("0-8044-2957-x"), "080442957X");
}

#[test]
fn an_issn_is_recognised_and_checked() {
    assert_eq!(parse("0028-0836"), Ok(Identifier::Issn("00280836".into())));
    assert_eq!(
        parse("0028-0837"),
        Err(IsbnProblem::CheckDigit { expected: '6', found: '7', scheme: IsbnScheme::Issn })
    );
}

#[test]
fn an_issn_may_end_in_x() {
    assert_eq!(parse("2434-561X"), Ok(Identifier::Issn("2434561X".into())));
}

#[test]
fn letters_are_reported_as_letters() {
    assert_eq!(parse("Kafka"), Err(IsbnProblem::Characters { found: 'K', scheme: None }));
    assert_eq!(
        parse("978-3-59A-29433-6"),
        Err(IsbnProblem::Characters { found: 'A', scheme: Some(IsbnScheme::Isbn) })
    );
}

#[test]
fn an_isbn13_has_no_x_position() {
    assert_eq!(
        parse("978-3-596-29433-X"),
        Err(IsbnProblem::Characters { found: 'X', scheme: Some(IsbnScheme::Isbn) })
    );
}

#[test]
fn a_wrong_length_says_how_many_digits_there_were() {
    assert_eq!(parse("12345"), Err(IsbnProblem::Length { digits: 5 }));
    assert_eq!(parse("978359629433612"), Err(IsbnProblem::Length { digits: 15 }));
    assert_eq!(parse(""), Err(IsbnProblem::Length { digits: 0 }));
    assert_eq!(parse("---"), Err(IsbnProblem::Length { digits: 0 }));
}

#[test]
fn a_doi_is_refused() {
    assert!(parse("10.1000/182").is_err());
}

#[test]
fn every_residue_has_a_symbol() {
    let symbols: Vec<char> = (0..=10).map(symbol).collect();
    assert_eq!(symbols.iter().collect::<String>(), "0123456789X");
}

#[test]
fn unicode_dashes_and_spaces_are_separators() {
    assert_eq!(isbn("978\u{2010}3\u{2011}596\u{2013}29433\u{00a0}6"), "9783596294336");
}

#[test]
fn a_normalised_isbn_parses_to_the_same_identifier() {
    for input in ["3-596-29433-9", "978 3 596 29433 6"] {
        let first = parse(input).expect("a valid number");
        let digits = match &first {
            Identifier::Isbn(v) | Identifier::Issn(v) => v.clone(),
        };
        let again = parse(&digits).expect("the normalised value parses");
        assert_eq!(first, again);
    }
}
