//! The ways a run can fail, each with the kind an agent switches on, the sentence a
//! human reads, a hint at the way out and the exit code.
use vstd::prelude::*;
use crate::model::Engine;
use crate::text::{cat, decimal, decimal_spec, flatten, owned, push_char, push_str, views};

verus! {

/// Which number scheme an identifier was read as.
#[derive(Debug, Clone, Copy, PartialEq, Eq, Structural)]
pub enum IsbnScheme {
    Isbn,
    Issn,
}

impl IsbnScheme {
    /// The scheme whose length this is: 8 characters are an ISSN, 10 and 13 an ISBN.
    pub fn from_len(len: usize) -> (r: Option<IsbnScheme>)
        ensures
            r == crate::cli::isbn::scheme_for_len(len as nat),
    {
        if len == 8 {
            Some(IsbnScheme::Issn)
        } else if len == 10 || len == 13 {
            Some(IsbnScheme::Isbn)
        } else {
            None
        }
    }
}

/// What is wrong with an `--isbn` value.
#[allow(inconsistent_fields)]
#[derive(Debug, Clone, Copy, PartialEq, Eq, Structural)]
pub enum IsbnProblem {
    /// The number has a length no scheme has.
    Length { digits: usize },
    /// A character that no scheme allows at its position.
    Characters { found: char, scheme: Option<IsbnScheme> },
    /// The check character does not match the rest of the number.
    CheckDigit { expected: char, found: char, scheme: IsbnScheme },
}

/// The process exit codes an agent branches on.
#[derive(Debug, Clone, Copy, PartialEq, Eq, Structural)]
pub enum ExitCode {
    /// 0: at least one hit.
    Found,
    /// 1: searched and found nothing.
    NotFound,
    /// 2: usage error, nothing was sent.
    Usage,
    /// 3: network error.
    Network,
    /// 4: service unavailable.
    Unavailable,
    /// 5: the catalogue rejected the query.
    Rejected,
    /// 6: an unexpected response.
    Unexpected,
}

impl ExitCode {
    /// The number the process exits with.
    pub open spec fn code_spec(self) -> u8 {
        match self {
            ExitCode::Found => 0,
            ExitCode::NotFound => 1,
            ExitCode::Usage => 2,
            ExitCode::Network => 3,
            ExitCode::Unavailable => 4,
            ExitCode::Rejected => 5,
            ExitCode::Unexpected => 6,
        }
    }

    /// The number the process exits with.
    pub fn code(&self) -> (n: u8)
        ensures
            n == self.code_spec(),
    {
        match self {
            ExitCode::Found => 0,
            ExitCode::NotFound => 1,
            ExitCode::Usage => 2,
            ExitCode::Network => 3,
            ExitCode::Unavailable => 4,
            ExitCode::Rejected => 5,
            ExitCode::Unexpected => 6,
        }
    }
}

/// Everything refused before a request is built. Every one of these is exit 2.
#[derive(Debug, Clone, PartialEq, Eq)]
pub enum UsageError {
    /// A truncation character in a term.
    Wildcard { term: String },
    /// A year range.
    Range { input: String },
    /// A year that is not four digits.
    YearFormat { input: String },
    /// An `--isbn` that is not a valid ISBN or ISSN.
    Isbn { input: String, problem: IsbnProblem },
    /// Nothing to search for.
    EmptyQuery,
    /// A flag or argument that was given but holds no text.
    EmptyValue { flag: String },
    /// A term without a single letter or digit.
    TermWithoutText { term: String },
    /// A query the service would refuse for its length.
    QueryTooLong { chars: usize },
    /// A library the list does not know, with near misses.
    UnknownLibrary { input: String, suggestions: Vec<String> },
    /// `--limit` outside `1..=50`.
    LimitOutOfRange { given: u32 },
    /// `--page 0`.
    PageOutOfRange { given: u32 },
    /// A negative count.
    NegativeNumber { flag: String, value: String },
    /// A flag the answering catalogue has no index for.
    FlagUnsupportedByEngine { flag: String, engine: Engine },
    /// A window deeper than voebb.de can be paged to.
    WindowTooDeep { engine: Engine, page: u32, limit: u32, position: u32, max: u32 },
    /// Two flags that cancel each other.
    ConflictingFlags { flag: String, with: String },
    /// A `--language` that is not a three-letter code.
    LanguageCode { input: String },
    /// A terminology language code where the records carry the bibliographic one.
    LanguageCodeVariant { input: String, bibliographic: String },
    /// A value the command-line parser should already have refused.
    UnsupportedValue { flag: String, got: String, expected: String },
    /// A record id without its catalogue prefix.
    InvalidRecordId { input: String },
    /// `--near` text that is neither coordinates nor a library with a position.
    NearNeedsCoordinates { input: String },
    /// `--near` with one number where a pair is needed.
    NearNeedsTwoValues { input: String },
    /// `--near` coordinates outside the earth's ranges.
    NearCoordinatesOutOfRange { input: String },
}

/// A usage error as plain values.
pub enum UsageErrorView {
    Wildcard { term: Seq<char> },
    Range { input: Seq<char> },
    YearFormat { input: Seq<char> },
    Isbn { input: Seq<char>, problem: IsbnProblem },
    EmptyQuery,
    EmptyValue { flag: Seq<char> },
    TermWithoutText { term: Seq<char> },
    QueryTooLong { chars: nat },
    UnknownLibrary { input: Seq<char>, suggestions: Seq<Seq<char>> },
    LimitOutOfRange { given: nat },
    PageOutOfRange { given: nat },
    NegativeNumber { flag: Seq<char>, value: Seq<char> },
    FlagUnsupportedByEngine { flag: Seq<char>, engine: Engine },
    WindowTooDeep { engine: Engine, page: nat, limit: nat, position: nat, max: nat },
    ConflictingFlags { flag: Seq<char>, with: Seq<char> },
    LanguageCode { input: Seq<char> },
    LanguageCodeVariant { input: Seq<char>, bibliographic: Seq<char> },
    UnsupportedValue { flag: Seq<char>, got: Seq<char>, expected: Seq<char> },
    InvalidRecordId { input: Seq<char> },
    NearNeedsCoordinates { input: Seq<char> },
    NearNeedsTwoValues { input: Seq<char> },
    NearCoordinatesOutOfRange { input: Seq<char> },
}

impl View for UsageError {
    type V = UsageErrorView;

    open spec fn view(&self) -> UsageErrorView {
        match self {
            UsageError::Wildcard { term } => UsageErrorView::Wildcard { term: term@ },
            UsageError::Range { input } => UsageErrorView::Range { input: input@ },
            UsageError::YearFormat { input } => UsageErrorView::YearFormat { input: input@ },
            UsageError::Isbn { input, problem } => UsageErrorView::Isbn { input: input@, problem: *problem },
            UsageError::EmptyQuery => UsageErrorView::EmptyQuery,
            UsageError::EmptyValue { flag } => UsageErrorView::EmptyValue { flag: flag@ },
            UsageError::TermWithoutText { term } => UsageErrorView::TermWithoutText { term: term@ },
            UsageError::QueryTooLong { chars } => UsageErrorView::QueryTooLong { chars: *chars as nat },
            UsageError::UnknownLibrary { input, suggestions } => UsageErrorView::UnknownLibrary {
                input: input@,
                suggestions: string_views(suggestions@),
            },
            UsageError::LimitOutOfRange { given } => UsageErrorView::LimitOutOfRange { given: *given as nat },
            UsageError::PageOutOfRange { given } => UsageErrorView::PageOutOfRange { given: *given as nat },
            UsageError::NegativeNumber { flag, value } => UsageErrorView::NegativeNumber { flag: flag@, value: value@ },
            UsageError::FlagUnsupportedByEngine { flag, engine } => UsageErrorView::FlagUnsupportedByEngine { flag: flag@, engine: *engine },
            UsageError::WindowTooDeep { engine, page, limit, position, max } => UsageErrorView::WindowTooDeep {
                engine: *engine,
                page: *page as nat,
                limit: *limit as nat,
                position: *position as nat,
                max: *max as nat,
            },
            UsageError::ConflictingFlags { flag, with } => UsageErrorView::ConflictingFlags { flag: flag@, with: with@ },
            UsageError::LanguageCode { input } => UsageErrorView::LanguageCode { input: input@ },
            UsageError::LanguageCodeVariant { input, bibliographic } => UsageErrorView::LanguageCodeVariant { input: input@, bibliographic: bibliographic@ },
            UsageError::UnsupportedValue { flag, got, expected } => UsageErrorView::UnsupportedValue { flag: flag@, got: got@, expected: expected@ },
            UsageError::InvalidRecordId { input } => UsageErrorView::InvalidRecordId { input: input@ },
            UsageError::NearNeedsCoordinates { input } => UsageErrorView::NearNeedsCoordinates { input: input@ },
            UsageError::NearNeedsTwoValues { input } => UsageErrorView::NearNeedsTwoValues { input: input@ },
            UsageError::NearCoordinatesOutOfRange { input } => UsageErrorView::NearCoordinatesOutOfRange { input: input@ },
        }
    }
}

/// The sentence for an `--isbn` problem.
pub open spec fn isbn_problem_text(p: IsbnProblem) -> Seq<char> {
    match p {
        IsbnProblem::Length { digits } => flatten(
            seq!["it has "@, decimal_spec(digits as nat), " characters, but an ISBN has 10 or 13 and an ISSN 8"@],
        ),
        IsbnProblem::Characters { found, .. } => flatten(
            seq!["it contains "@, seq![found], ", which no ISBN or ISSN has at that position"@],
        ),
        IsbnProblem::CheckDigit { expected, found, .. } => flatten(
            seq!["the check digit is "@, seq![found], ", expected "@, seq![expected]],
        ),
    }
}

/// Joins the suggestions with `, `.
pub open spec fn join_comma(items: Seq<Seq<char>>) -> Seq<char>
    decreases items.len(),
{
    if items.len() == 0 {
        Seq::empty()
    } else if items.len() == 1 {
        items[0]
    } else {
        join_comma(items.drop_last()) + ", "@ + items.last()
    }
}

/// The views of a list of strings.
pub open spec fn string_views(v: Seq<String>) -> Seq<Seq<char>> {
    v.map_values(|s: String| s@)
}

impl UsageError {
    /// The tag an agent switches on.
    pub open spec fn kind_spec(&self) -> Seq<char> {
        match self {
            UsageError::Wildcard { .. } => "wildcard_unsupported"@,
            UsageError::Range { .. } => "range_unsupported"@,
            UsageError::YearFormat { .. } => "invalid_year"@,
            UsageError::Isbn { .. } => "invalid_isbn"@,
            UsageError::EmptyQuery => "empty_query"@,
            UsageError::EmptyValue { .. } => "empty_value"@,
            UsageError::TermWithoutText { .. } => "term_without_text"@,
            UsageError::QueryTooLong { .. } => "query_too_long"@,
            UsageError::UnknownLibrary { .. } => "unknown_library"@,
            UsageError::LimitOutOfRange { .. } => "limit_out_of_range"@,
            UsageError::PageOutOfRange { .. } => "page_out_of_range"@,
            UsageError::NegativeNumber { .. } => "negative_number"@,
            UsageError::FlagUnsupportedByEngine { .. } => "unsupported_by_engine"@,
            UsageError::WindowTooDeep { .. } => "window_too_deep"@,
            UsageError::ConflictingFlags { .. } => "conflicting_flags"@,
            UsageError::LanguageCode { .. } => "invalid_language"@,
            UsageError::LanguageCodeVariant { .. } => "language_code_variant"@,
            UsageError::UnsupportedValue { .. } => "unsupported_value"@,
            UsageError::InvalidRecordId { .. } => "invalid_record_id"@,
            UsageError::NearNeedsCoordinates { .. } => "near_needs_coordinates"@,
            UsageError::NearNeedsTwoValues { .. } => "near_needs_two_values"@,
            UsageError::NearCoordinatesOutOfRange { .. } => "near_out_of_range"@,
        }
    }

    /// The tag an agent switches on.
    pub fn kind(&self) -> (s: &'static str)
        ensures
            s@ == self.kind_spec(),
    {
        match self {
            UsageError::Wildcard { .. } => "wildcard_unsupported",
            UsageError::Range { .. } => "range_unsupported",
            UsageError::YearFormat { .. } => "invalid_year",
            UsageError::Isbn { .. } => "invalid_isbn",
            UsageError::EmptyQuery => "empty_query",
            UsageError::EmptyValue { .. } => "empty_value",
            UsageError::TermWithoutText { .. } => "term_without_text",
            UsageError::QueryTooLong { .. } => "query_too_long",
            UsageError::UnknownLibrary { .. } => "unknown_library",
            UsageError::LimitOutOfRange { .. } => "limit_out_of_range",
            UsageError::PageOutOfRange { .. } => "page_out_of_range",
            UsageError::NegativeNumber { .. } => "negative_number",
            UsageError::FlagUnsupportedByEngine { .. } => "unsupported_by_engine",
            UsageError::WindowTooDeep { .. } => "window_too_deep",
            UsageError::ConflictingFlags { .. } => "conflicting_flags",
            UsageError::LanguageCode { .. } => "invalid_language",
            UsageError::LanguageCodeVariant { .. } => "language_code_variant",
            UsageError::UnsupportedValue { .. } => "unsupported_value",
            UsageError::InvalidRecordId { .. } => "invalid_record_id",
            UsageError::NearNeedsCoordinates { .. } => "near_needs_coordinates",
            UsageError::NearNeedsTwoValues { .. } => "near_needs_two_values",
            UsageError::NearCoordinatesOutOfRange { .. } => "near_out_of_range",
        }
    }

    /// The sentence a human reads.
    pub open spec fn message_spec(&self) -> Seq<char> {
        match self {
            UsageError::Wildcard { term } => flatten(
                seq![term@, " contains * or ?, and this catalogue cannot truncate"@],
            ),
            UsageError::Range { input } => flatten(
                seq!["--year "@, input@, " is a range, and ranges find nothing here"@],
            ),
            UsageError::YearFormat { input } => flatten(
                seq!["--year takes a year of four digits, not "@, input@],
            ),
            UsageError::Isbn { input, problem } => flatten(
                seq![input@, " is not a valid ISBN or ISSN: "@, isbn_problem_text(*problem)],
            ),
            UsageError::EmptyQuery => "there is nothing to search for"@,
            UsageError::EmptyValue { flag } => flatten(
                seq![flag@, " was given an empty value"@],
            ),
            UsageError::TermWithoutText { term } => flatten(
                seq![term@, " has no letter or digit, and the catalogue would read it as no term at all"@],
            ),
            UsageError::QueryTooLong { chars } => flatten(
                seq!["the query is "@, decimal_spec(*chars as nat), " characters long; the catalogue refuses 1000 and more"@],
            ),
            UsageError::UnknownLibrary { input, .. } => flatten(
                seq!["unknown library \""@, input@, "\""@],
            ),
            UsageError::LimitOutOfRange { given } => flatten(
                seq!["--limit "@, decimal_spec(*given as nat), " is outside 1 to 50"@],
            ),
            UsageError::PageOutOfRange { given } => flatten(
                seq!["--page "@, decimal_spec(*given as nat), " does not exist; pages count from 1"@],
            ),
            UsageError::NegativeNumber { flag, value } => flatten(
                seq![flag@, " "@, value@, " is negative"@],
            ),
            UsageError::FlagUnsupportedByEngine { flag, engine } => flatten(
                seq![flag@, " cannot be searched in "@, engine.name_spec(), ", which has no index for it"@],
            ),
            UsageError::WindowTooDeep { page, limit, position, .. } => flatten(
                seq!["--page "@, decimal_spec(*page as nat), " with --limit "@, decimal_spec(*limit as nat), " reaches result "@, decimal_spec(*position as nat), ", deeper than voebb can be paged"@],
            ),
            UsageError::ConflictingFlags { flag, with } => flatten(
                seq![flag@, " cannot be combined with "@, with@],
            ),
            UsageError::LanguageCode { input } => flatten(
                seq!["--language takes a three-letter code, not "@, input@],
            ),
            UsageError::LanguageCodeVariant { input, bibliographic } => flatten(
                seq!["--language "@, input@, " is the terminology code; the records carry "@, bibliographic@],
            ),
            UsageError::UnsupportedValue { flag, got, expected } => flatten(
                seq![flag@, " does not accept "@, got@, "; expected one of "@, expected@],
            ),
            UsageError::InvalidRecordId { input } => flatten(
                seq![input@, " is not a record id: it lacks the catalogue prefix"@],
            ),
            UsageError::NearNeedsCoordinates { input } => flatten(
                seq!["cannot locate "@, input@],
            ),
            UsageError::NearNeedsTwoValues { input } => flatten(
                seq!["--near "@, input@, " is one number, and a point needs two"@],
            ),
            UsageError::NearCoordinatesOutOfRange { input } => flatten(
                seq!["--near "@, input@, " lies outside latitude -90..90 or longitude -180..180"@],
            ),
        }
    }

    /// The way out, where there is one to name.
    pub open spec fn hint_spec(&self) -> Option<Seq<char>> {
        match self {
            UsageError::Wildcard { .. } => Some("search the whole word"@),
            UsageError::Range { .. } => Some("give one year, e.g. --year 1953"@),
            UsageError::YearFormat { .. } => Some("give one year, e.g. --year 1953"@),
            UsageError::Isbn { .. } => Some("copy the number again; the index would return a different book"@),
            UsageError::EmptyQuery => Some("give a search term or a field flag such as --title"@),
            UsageError::EmptyValue { flag } => Some(
                flatten(seq!["give "@, flag@, " some text; an empty value is usually a shell variable that did not expand"@]),
            ),
            UsageError::TermWithoutText { .. } => Some("search with words or numbers"@),
            UsageError::QueryTooLong { .. } => Some("shorten the query"@),
            UsageError::UnknownLibrary { suggestions, .. } => if suggestions@.len() == 0 {
                Some("run `blibs libraries --find <name>` to look one up, or `blibs libraries --branches` to list every branch"@)
            } else {
                Some(flatten(seq!["did you mean "@, join_comma(string_views(suggestions@)), "? run `blibs libraries --find <name>` to look one up, or `blibs libraries --branches` to list every branch"@]))
            },
            UsageError::LimitOutOfRange { .. } => Some("the catalogue serves at most 50 records per page"@),
            UsageError::PageOutOfRange { .. } => Some("the first page is --page 1"@),
            UsageError::NegativeNumber { flag, .. } => Some(
                flatten(seq!["give "@, flag@, " a positive number"@]),
            ),
            UsageError::FlagUnsupportedByEngine { flag, .. } => Some(
                flatten(seq!["drop "@, flag@, " or search without the voebb branches in --at"@]),
            ),
            UsageError::WindowTooDeep { max, .. } => Some(
                flatten(seq!["voebb.de pages no further than result "@, decimal_spec(*max as nat)]),
            ),
            UsageError::ConflictingFlags { .. } => Some("drop one of the two"@),
            UsageError::LanguageCode { .. } => Some("use the bibliographic code, e.g. --language ger"@),
            UsageError::LanguageCodeVariant { bibliographic, .. } => Some(
                flatten(seq!["use --language "@, bibliographic@]),
            ),
            UsageError::UnsupportedValue { .. } => Some("this is a bug in blibs; please report it"@),
            UsageError::InvalidRecordId { .. } => Some("copy the id from the search output, e.g. almafu_BV008885798"@),
            UsageError::NearNeedsCoordinates { .. } => Some("give coordinates such as --near 52.52,13.39 or a library such as --near HU; blibs geocodes nothing"@),
            UsageError::NearNeedsTwoValues { .. } => Some("give latitude and longitude separated by a comma, e.g. --near 52.52,13.39, or a library such as --near HU"@),
            UsageError::NearCoordinatesOutOfRange { .. } => Some("give latitude first, e.g. --near 52.52,13.39, or a library such as --near HU"@),
        }
    }
}

impl UsageError {
    /// The sentence a human reads.
    pub fn message(&self) -> (s: String)
        ensures
            s@ == self.message_spec(),
    {
        match self {
            UsageError::EmptyQuery => owned("there is nothing to search for"),
            UsageError::Wildcard { term } => {
                    let parts = vec![term.as_str(), " contains * or ?, and this catalogue cannot truncate"];
                proof {
                    assert(views(parts@) =~= seq![term@, " contains * or ?, and this catalogue cannot truncate"@]);
                }
                cat(parts)
            },
            UsageError::Range { input } => {
                    let parts = vec!["--year ", input.as_str(), " is a range, and ranges find nothing here"];
                proof {
                    assert(views(parts@) =~= seq!["--year "@, input@, " is a range, and ranges find nothing here"@]);
                }
                cat(parts)
            },
            UsageError::YearFormat { input } => {
                    let parts = vec!["--year takes a year of four digits, not ", input.as_str()];
                proof {
                    assert(views(parts@) =~= seq!["--year takes a year of four digits, not "@, input@]);
                }
                cat(parts)
            },
            UsageError::Isbn { input, problem } => {
                let why = isbn_problem_message(problem);
                    let parts = vec![input.as_str(), " is not a valid ISBN or ISSN: ", why.as_str()];
                proof {
                    assert(views(parts@) =~= seq![input@, " is not a valid ISBN or ISSN: "@, isbn_problem_text(*problem)]);
                }
                cat(parts)
            },
            UsageError::EmptyValue { flag } => {
                    let parts = vec![flag.as_str(), " was given an empty value"];
                proof {
                    assert(views(parts@) =~= seq![flag@, " was given an empty value"@]);
                }
                cat(parts)
            },
            UsageError::TermWithoutText { term } => {
                    let parts = vec![term.as_str(), " has no letter or digit, and the catalogue would read it as no term at all"];
                proof {
                    assert(views(parts@) =~= seq![term@, " has no letter or digit, and the catalogue would read it as no term at all"@]);
                }
                cat(parts)
            },
            UsageError::QueryTooLong { chars } => {
                let chars_d = decimal(*chars as u64);
                    let parts = vec!["the query is ", chars_d.as_str(), " characters long; the catalogue refuses 1000 and more"];
                proof {
                    assert(views(parts@) =~= seq!["the query is "@, decimal_spec(*chars as nat), " characters long; the catalogue refuses 1000 and more"@]);
                }
                cat(parts)
            },
            UsageError::UnknownLibrary { input, .. } => {
                    let parts = vec!["unknown library \"", input.as_str(), "\""];
                proof {
                    assert(views(parts@) =~= seq!["unknown library \""@, input@, "\""@]);
                }
                cat(parts)
            },
            UsageError::LimitOutOfRange { given } => {
                let given_d = decimal(*given as u64);
                    let parts = vec!["--limit ", given_d.as_str(), " is outside 1 to 50"];
                proof {
                    assert(views(parts@) =~= seq!["--limit "@, decimal_spec(*given as nat), " is outside 1 to 50"@]);
                }
                cat(parts)
            },
            UsageError::PageOutOfRange { given } => {
                let given_d = decimal(*given as u64);
                    let parts = vec!["--page ", given_d.as_str(), " does not exist; pages count from 1"];
                proof {
                    assert(views(parts@) =~= seq!["--page "@, decimal_spec(*given as nat), " does not exist; pages count from 1"@]);
                }
                cat(parts)
            },
            UsageError::NegativeNumber { flag, value } => {
                    let parts = vec![flag.as_str(), " ", value.as_str(), " is negative"];
                proof {
                    assert(views(parts@) =~= seq![flag@, " "@, value@, " is negative"@]);
                }
                cat(parts)
            },
            UsageError::FlagUnsupportedByEngine { flag, engine } => {
                    let parts = vec![flag.as_str(), " cannot be searched in ", engine.name(), ", which has no index for it"];
                proof {
                    assert(views(parts@) =~= seq![flag@, " cannot be searched in "@, engine.name_spec(), ", which has no index for it"@]);
                }
                cat(parts)
            },
            UsageError::WindowTooDeep { page, limit, position, .. } => {
                let page_d = decimal(*page as u64);
                let limit_d = decimal(*limit as u64);
                let position_d = decimal(*position as u64);
                    let parts = vec!["--page ", page_d.as_str(), " with --limit ", limit_d.as_str(), " reaches result ", position_d.as_str(), ", deeper than voebb can be paged"];
                proof {
                    assert(views(parts@) =~= seq!["--page "@, decimal_spec(*page as nat), " with --limit "@, decimal_spec(*limit as nat), " reaches result "@, decimal_spec(*position as nat), ", deeper than voebb can be paged"@]);
                }
                cat(parts)
            },
            UsageError::ConflictingFlags { flag, with } => {
                    let parts = vec![flag.as_str(), " cannot be combined with ", with.as_str()];
                proof {
                    assert(views(parts@) =~= seq![flag@, " cannot be combined with "@, with@]);
                }
                cat(parts)
            },
            UsageError::LanguageCode { input } => {
                    let parts = vec!["--language takes a three-letter code, not ", input.as_str()];
                proof {
                    assert(views(parts@) =~= seq!["--language takes a three-letter code, not "@, input@]);
                }
                cat(parts)
            },
            UsageError::LanguageCodeVariant { input, bibliographic } => {
                    let parts = vec!["--language ", input.as_str(), " is the terminology code; the records carry ", bibliographic.as_str()];
                proof {
                    assert(views(parts@) =~= seq!["--language "@, input@, " is the terminology code; the records carry "@, bibliographic@]);
                }
                cat(parts)
            },
            UsageError::UnsupportedValue { flag, got, expected } => {
                    let parts = vec![flag.as_str(), " does not accept ", got.as_str(), "; expected one of ", expected.as_str()];
                proof {
                    assert(views(parts@) =~= seq![flag@, " does not accept "@, got@, "; expected one of "@, expected@]);
                }
                cat(parts)
            },
            UsageError::InvalidRecordId { input } => {
                    let parts = vec![input.as_str(), " is not a record id: it lacks the catalogue prefix"];
                proof {
                    assert(views(parts@) =~= seq![input@, " is not a record id: it lacks the catalogue prefix"@]);
                }
                cat(parts)
            },
            UsageError::NearNeedsCoordinates { input } => {
                    let parts = vec!["cannot locate ", input.as_str()];
                proof {
                    assert(views(parts@) =~= seq!["cannot locate "@, input@]);
                }
                cat(parts)
            },
            UsageError::NearNeedsTwoValues { input } => {
                    let parts = vec!["--near ", input.as_str(), " is one number, and a point needs two"];
                proof {
                    assert(views(parts@) =~= seq!["--near "@, input@, " is one number, and a point needs two"@]);
                }
                cat(parts)
            },
            UsageError::NearCoordinatesOutOfRange { input } => {
                    let parts = vec!["--near ", input.as_str(), " lies outside latitude -90..90 or longitude -180..180"];
                proof {
                    assert(views(parts@) =~= seq!["--near "@, input@, " lies outside latitude -90..90 or longitude -180..180"@]);
                }
                cat(parts)
            },
        }
    }

    /// The way out, where there is one to name.
    pub fn hint(&self) -> (h: Option<String>)
        ensures
            match h {
                Some(s) => self.hint_spec() == Some(s@),
                None => self.hint_spec() is None,
            },
    {
        match self {
            UsageError::Wildcard { .. } => Some(owned("search the whole word")),
            UsageError::Range { .. } => Some(owned("give one year, e.g. --year 1953")),
            UsageError::YearFormat { .. } => Some(owned("give one year, e.g. --year 1953")),
            UsageError::Isbn { .. } => Some(owned("copy the number again; the index would return a different book")),
            UsageError::EmptyQuery => Some(owned("give a search term or a field flag such as --title")),
            UsageError::TermWithoutText { .. } => Some(owned("search with words or numbers")),
            UsageError::QueryTooLong { .. } => Some(owned("shorten the query")),
            UsageError::LimitOutOfRange { .. } => Some(owned("the catalogue serves at most 50 records per page")),
            UsageError::PageOutOfRange { .. } => Some(owned("the first page is --page 1")),
            UsageError::ConflictingFlags { .. } => Some(owned("drop one of the two")),
            UsageError::LanguageCode { .. } => Some(owned("use the bibliographic code, e.g. --language ger")),
            UsageError::UnsupportedValue { .. } => Some(owned("this is a bug in blibs; please report it")),
            UsageError::InvalidRecordId { .. } => Some(owned("copy the id from the search output, e.g. almafu_BV008885798")),
            UsageError::NearNeedsCoordinates { .. } => Some(owned("give coordinates such as --near 52.52,13.39 or a library such as --near HU; blibs geocodes nothing")),
            UsageError::NearNeedsTwoValues { .. } => Some(owned("give latitude and longitude separated by a comma, e.g. --near 52.52,13.39, or a library such as --near HU")),
            UsageError::NearCoordinatesOutOfRange { .. } => Some(owned("give latitude first, e.g. --near 52.52,13.39, or a library such as --near HU")),
            UsageError::EmptyValue { flag } => {
                    let parts = vec!["give ", flag.as_str(), " some text; an empty value is usually a shell variable that did not expand"];
                proof {
                    assert(views(parts@) =~= seq!["give "@, flag@, " some text; an empty value is usually a shell variable that did not expand"@]);
                }
                Some(cat(parts))
            },
            UsageError::NegativeNumber { flag, .. } => {
                    let parts = vec!["give ", flag.as_str(), " a positive number"];
                proof {
                    assert(views(parts@) =~= seq!["give "@, flag@, " a positive number"@]);
                }
                Some(cat(parts))
            },
            UsageError::FlagUnsupportedByEngine { flag, .. } => {
                    let parts = vec!["drop ", flag.as_str(), " or search without the voebb branches in --at"];
                proof {
                    assert(views(parts@) =~= seq!["drop "@, flag@, " or search without the voebb branches in --at"@]);
                }
                Some(cat(parts))
            },
            UsageError::WindowTooDeep { max, .. } => {
                let max_d = decimal(*max as u64);
                    let parts = vec!["voebb.de pages no further than result ", max_d.as_str()];
                proof {
                    assert(views(parts@) =~= seq!["voebb.de pages no further than result "@, decimal_spec(*max as nat)]);
                }
                Some(cat(parts))
            },
            UsageError::LanguageCodeVariant { bibliographic, .. } => {
                    let parts = vec!["use --language ", bibliographic.as_str()];
                proof {
                    assert(views(parts@) =~= seq!["use --language "@, bibliographic@]);
                }
                Some(cat(parts))
            },
            UsageError::UnknownLibrary { suggestions, .. } => {
                if suggestions.len() == 0 {
                    Some(owned("run `blibs libraries --find <name>` to look one up, or `blibs libraries --branches` to list every branch"))
                } else {
                    let joined = join_with_comma(suggestions);
                    let parts = vec!["did you mean ", joined.as_str(), "? run `blibs libraries --find <name>` to look one up, or `blibs libraries --branches` to list every branch"];
                    proof {
                        assert(views(parts@) =~= seq!["did you mean "@, join_comma(string_views(suggestions@)), "? run `blibs libraries --find <name>` to look one up, or `blibs libraries --branches` to list every branch"@]);
                    }
                    Some(cat(parts))
                }
            },
        }
    }
}

/// The sentence for an `--isbn` problem.
pub fn isbn_problem_message(p: &IsbnProblem) -> (s: String)
    ensures
        s@ == isbn_problem_text(*p),
{
    match p {
        IsbnProblem::Length { digits } => {
                let digits_d = decimal(*digits as u64);
                    let parts = vec!["it has ", digits_d.as_str(), " characters, but an ISBN has 10 or 13 and an ISSN 8"];
                proof {
                    assert(views(parts@) =~= seq!["it has "@, decimal_spec(*digits as nat), " characters, but an ISBN has 10 or 13 and an ISSN 8"@]);
                }
                cat(parts)
            },
        IsbnProblem::Characters { found, .. } => {
                let one = single(*found);
                    let parts = vec!["it contains ", one.as_str(), ", which no ISBN or ISSN has at that position"];
                proof {
                    assert(views(parts@) =~= seq!["it contains "@, seq![*found], ", which no ISBN or ISSN has at that position"@]);
                }
                cat(parts)
            },
        IsbnProblem::CheckDigit { expected, found, .. } => {
                let f = single(*found);
                let e = single(*expected);
                    let parts = vec!["the check digit is ", f.as_str(), ", expected ", e.as_str()];
                proof {
                    assert(views(parts@) =~= seq!["the check digit is "@, seq![*found], ", expected "@, seq![*expected]]);
                }
                cat(parts)
            },
    }
}

/// A string of one character.
pub fn single(c: char) -> (s: String)
    ensures
        s@ == seq![c],
{
    let mut s = String::new();
    push_char(&mut s, c);
    proof {
        assert(Seq::<char>::empty().push(c) =~= seq![c]);
    }
    s
}

/// The strings joined with `, `.
pub fn join_with_comma(items: &Vec<String>) -> (s: String)
    ensures
        s@ == join_comma(string_views(items@)),
{
    let mut s = String::new();
    let mut i: usize = 0;
    while i < items.len()
        invariant
            i <= items.len(),
            s@ == join_comma(string_views(items@.take(i as int))),
        decreases items.len() - i,
    {
        proof {
            assert(string_views(items@.take(i + 1)).drop_last() =~= string_views(items@.take(i as int)));
        }
        if i > 0 {
            push_str(&mut s, ", ");
        }
        push_str(&mut s, items[i].as_str());
        proof {
            if i == 0 {
                assert(Seq::<char>::empty() + items@[0]@ =~= items@[0]@);
            }
        }
        i = i + 1;
    }
    proof {
        assert(items@.take(i as int) =~= items@);
    }
    s
}

impl UsageError {
    /// Every usage error is exit 2: nothing was sent.
    pub fn exit(&self) -> (c: ExitCode)
        ensures
            c == ExitCode::Usage,
    {
        ExitCode::Usage
    }
}

/// The catalogue understood the query and refused it. Exit 5.
#[derive(Debug, Clone, PartialEq, Eq)]
pub enum RejectedError {
    /// A top-level SRU diagnostic.
    Diagnostic { uri: String, message: String, details: Option<String> },
    /// Diagnostic `1/2`: the query is too long for the service. Permanent, never retried.
    TooLongUpstream { uri: String },
}

/// A response that failed the plausibility check. Exit 6.
#[derive(Debug, Clone, PartialEq, Eq)]
pub enum UnexpectedError {
    /// The body is not the XML document it should be.
    NotXml { context: String, snippet: String },
    /// An element the response must carry is missing or malformed.
    MissingElement { what: String, context: String },
    /// voebb.de answered with its session-lost page.
    VoebbNoAccess { step: String },
    /// A page stopped matching a selector it must match; the selector is what tells a
    /// maintainer what the site changed.
    MissingSelector { selector: String, document: String },
    /// A count the response implies and the count it delivered disagree.
    CountMismatch { context: String, expected: usize, found: usize },
}

/// An unexpected response as plain values.
pub enum UnexpectedView {
    NotXml { context: Seq<char>, snippet: Seq<char> },
    MissingElement { what: Seq<char>, context: Seq<char> },
    VoebbNoAccess { step: Seq<char> },
    MissingSelector { selector: Seq<char>, document: Seq<char> },
    CountMismatch { context: Seq<char>, expected: nat, found: nat },
}

impl View for UnexpectedError {
    type V = UnexpectedView;

    open spec fn view(&self) -> UnexpectedView {
        match self {
            UnexpectedError::NotXml { context, snippet } => UnexpectedView::NotXml { context: context@, snippet: snippet@ },
            UnexpectedError::MissingElement { what, context } => UnexpectedView::MissingElement { what: what@, context: context@ },
            UnexpectedError::VoebbNoAccess { step } => UnexpectedView::VoebbNoAccess { step: step@ },
            UnexpectedError::MissingSelector { selector, document } => UnexpectedView::MissingSelector {
                selector: selector@,
                document: document@,
            },
            UnexpectedError::CountMismatch { context, expected, found } => UnexpectedView::CountMismatch {
                context: context@,
                expected: *expected as nat,
                found: *found as nat,
            },
        }
    }
}

/// A request that did not get an answer. The transport decides which of the two.
#[derive(Debug, Clone, PartialEq, Eq)]
pub enum TransportError {
    /// DNS, TLS, a refused connection, a timeout. Exit 3.
    Network { host: String, reason: String },
    /// HTTP 429 or 503 after the backoff was exhausted. Exit 4.
    Unavailable { host: String, status: u16 },
}

/// Everything a run can fail with.
#[derive(Debug, Clone, PartialEq, Eq)]
pub enum Error {
    Usage(UsageError),
    Transport(TransportError),
    Rejected(RejectedError),
    Unexpected(UnexpectedError),
}

impl TransportError {
    /// The sentence a human reads.
    pub open spec fn message_spec(&self) -> Seq<char> {
        match self {
            TransportError::Network { host, reason } => flatten(seq!["could not reach "@, host@, ": "@, reason@]),
            TransportError::Unavailable { host, status } => flatten(
                seq![host@, " is not answering (HTTP "@, decimal_spec(*status as nat), "), even after waiting"@],
            ),
        }
    }

    /// The sentence a human reads.
    pub fn message(&self) -> (s: String)
        ensures
            s@ == self.message_spec(),
    {
        match self {
            TransportError::Network { host, reason } => {
                let parts = vec!["could not reach ", host.as_str(), ": ", reason.as_str()];
                proof {
                    assert(views(parts@) =~= seq!["could not reach "@, host@, ": "@, reason@]);
                }
                cat(parts)
            },
            TransportError::Unavailable { host, status } => {
                let code = decimal(*status as u64);
                let parts = vec![host.as_str(), " is not answering (HTTP ", code.as_str(), "), even after waiting"];
                proof {
                    assert(views(parts@) =~= seq![host@, " is not answering (HTTP "@, decimal_spec(*status as nat), "), even after waiting"@]);
                }
                cat(parts)
            },
        }
    }
}

impl RejectedError {
    /// The sentence a human reads.
    pub open spec fn message_spec(&self) -> Seq<char> {
        match self {
            RejectedError::Diagnostic { uri, message, details } => match details {
                Some(d) => flatten(seq!["the catalogue rejected the query: "@, message@, " ("@, d@, ", "@, uri@, ")"@]),
                None => flatten(seq!["the catalogue rejected the query: "@, message@, " ("@, uri@, ")"@]),
            },
            RejectedError::TooLongUpstream { uri } => flatten(seq!["the catalogue refused the query as too long ("@, uri@, ")"@]),
        }
    }

    /// The sentence a human reads.
    pub fn message(&self) -> (s: String)
        ensures
            s@ == self.message_spec(),
    {
        match self {
            RejectedError::Diagnostic { uri, message, details } => match details {
                Some(d) => {
                    let parts = vec!["the catalogue rejected the query: ", message.as_str(), " (", d.as_str(), ", ", uri.as_str(), ")"];
                    proof {
                        assert(views(parts@) =~= seq!["the catalogue rejected the query: "@, message@, " ("@, d@, ", "@, uri@, ")"@]);
                    }
                    cat(parts)
                },
                None => {
                    let parts = vec!["the catalogue rejected the query: ", message.as_str(), " (", uri.as_str(), ")"];
                    proof {
                        assert(views(parts@) =~= seq!["the catalogue rejected the query: "@, message@, " ("@, uri@, ")"@]);
                    }
                    cat(parts)
                },
            },
            RejectedError::TooLongUpstream { uri } => {
                let parts = vec!["the catalogue refused the query as too long (", uri.as_str(), ")"];
                proof {
                    assert(views(parts@) =~= seq!["the catalogue refused the query as too long ("@, uri@, ")"@]);
                }
                cat(parts)
            },
        }
    }
}

/// The sentence a human reads about an unexpected response, from its plain values.
pub open spec fn unexpected_message(e: UnexpectedView) -> Seq<char> {
    match e {
        UnexpectedView::NotXml { context, snippet } => flatten(seq![context, " is not an XML document; it began: "@, snippet]),
        UnexpectedView::MissingElement { what, context } => flatten(seq![context, " lacks "@, what]),
        UnexpectedView::VoebbNoAccess { step } => flatten(seq!["voebb.de ended the session at "@, step]),
        UnexpectedView::MissingSelector { selector, document } => flatten(seq![document, " no longer matches "@, selector]),
        UnexpectedView::CountMismatch { context, expected, found } => flatten(
            seq![context, ": expected "@, decimal_spec(expected), ", found "@, decimal_spec(found)],
        ),
    }
}

impl UnexpectedError {
    /// The sentence a human reads.
    pub open spec fn message_spec(&self) -> Seq<char> {
        match self {
            UnexpectedError::NotXml { context, snippet } => flatten(seq![context@, " is not an XML document; it began: "@, snippet@]),
            UnexpectedError::MissingElement { what, context } => flatten(seq![context@, " lacks "@, what@]),
            UnexpectedError::VoebbNoAccess { step } => flatten(seq!["voebb.de ended the session at "@, step@]),
            UnexpectedError::MissingSelector { selector, document } => flatten(seq![document@, " no longer matches "@, selector@]),
            UnexpectedError::CountMismatch { context, expected, found } => flatten(
                seq![context@, ": expected "@, decimal_spec(*expected as nat), ", found "@, decimal_spec(*found as nat)],
            ),
        }
    }

    /// The sentence a human reads.
    pub fn message(&self) -> (s: String)
        ensures
            s@ == self.message_spec(),
    {
        match self {
            UnexpectedError::NotXml { context, snippet } => {
                let parts = vec![context.as_str(), " is not an XML document; it began: ", snippet.as_str()];
                proof {
                    assert(views(parts@) =~= seq![context@, " is not an XML document; it began: "@, snippet@]);
                }
                cat(parts)
            },
            UnexpectedError::MissingElement { what, context } => {
                let parts = vec![context.as_str(), " lacks ", what.as_str()];
                proof {
                    assert(views(parts@) =~= seq![context@, " lacks "@, what@]);
                }
                cat(parts)
            },
            UnexpectedError::VoebbNoAccess { step } => {
                let parts = vec!["voebb.de ended the session at ", step.as_str()];
                proof {
                    assert(views(parts@) =~= seq!["voebb.de ended the session at "@, step@]);
                }
                cat(parts)
            },
            UnexpectedError::MissingSelector { selector, document } => {
                let parts = vec![document.as_str(), " no longer matches ", selector.as_str()];
                proof {
                    assert(views(parts@) =~= seq![document@, " no longer matches "@, selector@]);
                }
                cat(parts)
            },
            UnexpectedError::CountMismatch { context, expected, found } => {
                let e = crate::text::decimal(*expected as u64);
                let f = crate::text::decimal(*found as u64);
                let parts = vec![context.as_str(), ": expected ", e.as_str(), ", found ", f.as_str()];
                proof {
                    assert(views(parts@) =~= seq![
                        context@,
                        ": expected "@,
                        decimal_spec(*expected as nat),
                        ", found "@,
                        decimal_spec(*found as nat),
                    ]);
                }
                cat(parts)
            },
        }
    }
}

/// How far a failure reaches: the whole run, or only the locations of the search that met
/// it.
#[derive(Debug, Clone, Copy, PartialEq, Eq, Structural)]
pub enum Blast {
    /// The invocation fails with it.
    Run,
    /// It belongs to the locations of one search: a window past their own last result.
    Location,
}

/// The diagnostic code a catalogue answers a window past the end of its result with.
pub const PAST_THE_END: &'static str = "1/61";

/// How far an error reaches: a window past the last result, diagnostic `1/61`, belongs to
/// the locations that asked for it; everything else fails the run.
pub open spec fn blast_spec(e: Error) -> Blast {
    match e {
        Error::Rejected(RejectedError::Diagnostic { uri, .. }) => if crate::engine::kobv::parse::sru::diagnostic_code_spec(uri@)
            == PAST_THE_END@ {
            Blast::Location
        } else {
            Blast::Run
        },
        _ => Blast::Run,
    }
}

impl Error {
    /// How far the error reaches.
    pub fn blast_radius(&self) -> (b: Blast)
        ensures
            b == blast_spec(*self),
    {
        match self {
            Error::Rejected(RejectedError::Diagnostic { uri, .. }) => {
                let code = crate::engine::kobv::parse::sru::diagnostic_code(uri.as_str());
                if crate::text::same_text(code.as_str(), PAST_THE_END) {
                    Blast::Location
                } else {
                    Blast::Run
                }
            },
            _ => Blast::Run,
        }
    }

    /// Whether the error says that a document arrived and has a shape this tool cannot
    /// read: a changed page costs the one record it was about, while a failed request, a
    /// refusal or a lost session stops the invocation.
    pub open spec fn unreadable_spec(&self) -> bool {
        match self {
            Error::Unexpected(UnexpectedError::NotXml { .. }) => true,
            Error::Unexpected(UnexpectedError::MissingElement { .. }) => true,
            Error::Unexpected(UnexpectedError::MissingSelector { .. }) => true,
            _ => false,
        }
    }

    /// Whether a document arrived and has a shape this tool cannot read.
    pub fn is_unreadable_document(&self) -> (r: bool)
        ensures
            r == self.unreadable_spec(),
    {
        match self {
            Error::Unexpected(UnexpectedError::NotXml { .. }) => true,
            Error::Unexpected(UnexpectedError::MissingElement { .. }) => true,
            Error::Unexpected(UnexpectedError::MissingSelector { .. }) => true,
            _ => false,
        }
    }

    /// The tag an agent switches on.
    pub open spec fn kind_spec(&self) -> Seq<char> {
        match self {
            Error::Usage(e) => e.kind_spec(),
            Error::Transport(TransportError::Network { .. }) => "network"@,
            Error::Transport(TransportError::Unavailable { .. }) => "service_unavailable"@,
            Error::Rejected(RejectedError::Diagnostic { .. }) => "query_rejected"@,
            Error::Rejected(RejectedError::TooLongUpstream { .. }) => "query_too_long_upstream"@,
            Error::Unexpected(UnexpectedError::NotXml { .. }) => "not_xml"@,
            Error::Unexpected(UnexpectedError::MissingElement { .. }) => "missing_structure"@,
            Error::Unexpected(UnexpectedError::VoebbNoAccess { .. }) => "voebb_session_lost"@,
            Error::Unexpected(UnexpectedError::MissingSelector { .. }) => "missing_selector"@,
            Error::Unexpected(UnexpectedError::CountMismatch { .. }) => "count_mismatch"@,
        }
    }

    /// The tag an agent switches on.
    pub fn kind(&self) -> (s: &'static str)
        ensures
            s@ == self.kind_spec(),
    {
        match self {
            Error::Usage(e) => e.kind(),
            Error::Transport(TransportError::Network { .. }) => "network",
            Error::Transport(TransportError::Unavailable { .. }) => "service_unavailable",
            Error::Rejected(RejectedError::Diagnostic { .. }) => "query_rejected",
            Error::Rejected(RejectedError::TooLongUpstream { .. }) => "query_too_long_upstream",
            Error::Unexpected(UnexpectedError::NotXml { .. }) => "not_xml",
            Error::Unexpected(UnexpectedError::MissingElement { .. }) => "missing_structure",
            Error::Unexpected(UnexpectedError::VoebbNoAccess { .. }) => "voebb_session_lost",
            Error::Unexpected(UnexpectedError::MissingSelector { .. }) => "missing_selector",
            Error::Unexpected(UnexpectedError::CountMismatch { .. }) => "count_mismatch",
        }
    }

    /// The exit code.
    pub fn exit(&self) -> (c: ExitCode)
        ensures
            c == match self {
                Error::Usage(_) => ExitCode::Usage,
                Error::Transport(TransportError::Network { .. }) => ExitCode::Network,
                Error::Transport(TransportError::Unavailable { .. }) => ExitCode::Unavailable,
                Error::Rejected(_) => ExitCode::Rejected,
                Error::Unexpected(_) => ExitCode::Unexpected,
            },
    {
        match self {
            Error::Usage(_) => ExitCode::Usage,
            Error::Transport(TransportError::Network { .. }) => ExitCode::Network,
            Error::Transport(TransportError::Unavailable { .. }) => ExitCode::Unavailable,
            Error::Rejected(_) => ExitCode::Rejected,
            Error::Unexpected(_) => ExitCode::Unexpected,
        }
    }

    /// The sentence a human reads.
    pub open spec fn message_spec(&self) -> Seq<char> {
        match self {
            Error::Usage(e) => e.message_spec(),
            Error::Transport(e) => e.message_spec(),
            Error::Rejected(e) => e.message_spec(),
            Error::Unexpected(e) => e.message_spec(),
        }
    }

    /// The sentence a human reads.
    pub fn message(&self) -> (s: String)
        ensures
            s@ == self.message_spec(),
    {
        match self {
            Error::Usage(e) => e.message(),
            Error::Transport(e) => e.message(),
            Error::Rejected(e) => e.message(),
            Error::Unexpected(e) => e.message(),
        }
    }

    /// The way out, where there is one to name.
    pub fn hint(&self) -> (h: Option<String>)
        ensures
            match self {
                Error::Usage(e) => match h {
                    Some(s) => e.hint_spec() == Some(s@),
                    None => e.hint_spec() is None,
                },
                Error::Transport(_) => h matches Some(s) && s@ == "try again later; nothing about the query is wrong"@,
                Error::Rejected(RejectedError::TooLongUpstream { .. }) => h matches Some(s) && s@ == "shorten the query; this refusal is permanent"@,
                Error::Rejected(_) => h matches Some(s) && s@ == "change the query; the catalogue will refuse it again as it stands"@,
                Error::Unexpected(_) => h matches Some(s) && s@ == "the catalogue answered in a form blibs does not recognise; please report it"@,
            },
    {
        match self {
            Error::Usage(e) => e.hint(),
            Error::Transport(_) => Some(owned("try again later; nothing about the query is wrong")),
            Error::Rejected(RejectedError::TooLongUpstream { .. }) => Some(owned("shorten the query; this refusal is permanent")),
            Error::Rejected(_) => Some(owned("change the query; the catalogue will refuse it again as it stands")),
            Error::Unexpected(_) => Some(owned("the catalogue answered in a form blibs does not recognise; please report it")),
        }
    }
}


/// Why a search or a lookup found nothing: each is a different next step.
#[derive(Debug, Clone, PartialEq, Eq)]
pub enum EmptyReason {
    /// `--available` judged records and every one was out or unstated.
    NothingAvailable { total: Option<u64>, judged: usize, unstated: usize },
    /// A filter matched records, and they all sit on earlier pages.
    PastTheLastMatch { matched: usize, filter: String, value: String, page: u32, last: u32 },
    /// `--sort` anchored the window, and its pages ran out before this one.
    PastTheLastSorted { sorted: usize, sort: String, page: u32, last: u32 },
    /// A filter removed every fetched record.
    FilteredOut { total: Option<u64>, fetched: usize, filter: String, value: String },
    /// The locations hold nothing for hits that exist.
    NoHoldings { locations: Vec<String> },
    /// Nothing anywhere in the network, and every location is one voebb.de answers for.
    NoHitsAnywhere { terms: String, locations: Vec<String> },
    /// Nothing at the locations; the words were not tried anywhere else.
    NoHitsAtLocations { terms: String, locations: Vec<String> },
    /// Nothing for these words.
    NoHits { terms: String },
    /// The catalogue has no record with this id.
    NoSuchRecord { id: crate::model::RecordId },
}

/// How a run that did not fail ended.
#[derive(Debug, Clone, PartialEq, Eq)]
pub enum Outcome {
    /// At least one hit. Exit 0.
    Found,
    /// Nothing, and why. Exit 1.
    Empty(EmptyReason),
}

impl Outcome {
    /// The exit code.
    pub fn exit(&self) -> (c: ExitCode)
        ensures
            c == match self {
                Outcome::Found => ExitCode::Found,
                Outcome::Empty(_) => ExitCode::NotFound,
            },
    {
        match self {
            Outcome::Found => ExitCode::Found,
            Outcome::Empty(_) => ExitCode::NotFound,
        }
    }
}

} // verus!
