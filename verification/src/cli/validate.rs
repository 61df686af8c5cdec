//! Everything that must be refused before a request is built.
//!
//! Each refusal is a usage error with a message that names the limit: a wildcard, a year
//! range, a year that is not four digits, an ISBN with a bad check digit, an empty query,
//! an empty value for any flag, a term with no letter or digit, a query over 1000
//! characters, an unknown library, a limit outside `1..=50`, a negative count, a
//! terminology language code, and two flags that cancel each other.
//!
//! `--at` also decides the engines, and with them which flags can still be honoured:
//! voebb.de has row indexes for title, person, subject and ISBN, and none for publisher
//! or year, so those two are refused while a VÖBB branch is asked.
use vstd::prelude::*;
use crate::cli::{
    format_values, location_views, sort_values, string_views, LibrariesArgs, LibrariesPlan,
    Plan, SearchArgs, ShowArgs, ShowPlan, TooDeep,
};
use crate::cli::isbn::{self, compact_spec, normalised_spec, problem_spec};
use crate::error::{join_comma, join_with_comma, Error, UsageError, UsageErrorView};
use crate::libraries::{self, entry_coords, lookup_coords, point_spec, resolution, suggestions_spec, table, LatLon, LocView, NotAPoint};
use crate::model::{
    echo_terms, has_space, sat32, AvailabilityMode, Engine, FetchWindow, Format, Identifier,
    Limit, Location, Page, QuerySpec, RecordId, SortKey, Term,
};
use crate::select::Filters;
use crate::text::{
    alphanumeric, chars_of, contains_seq, contains_text, decimal_spec, digit_value, is_alphanumeric,
    is_ascii_digit, is_digit, lower_seq, owned, push_char, push_str, same_text, signed_decimal,
    signed_decimal_spec, to_lower, trim, trim_spec, value_of_digit, views,
};

verus! {

/// Where voebb.de stops paging: 22 result pages of 10 rows.
pub const MAX_POSITION: u32 = 220;

/// The raw query text the service refuses from this length on.
pub const MAX_QUERY_CHARS: usize = 1000;

/// One piece of query text: the flag it was given to (empty for a free term) and the
/// text itself.
pub type Piece = (Seq<char>, Seq<char>);

/// The piece of an optional flag.
pub open spec fn opt_piece(flag: Seq<char>, v: Option<String>) -> Seq<Piece> {
    match v {
        Some(s) => seq![(flag, s@)],
        None => Seq::empty(),
    }
}

/// The free terms as pieces without a flag.
pub open spec fn free_pieces(terms: Seq<String>) -> Seq<Piece> {
    terms.map_values(|t: String| (Seq::<char>::empty(), t@))
}

/// Every piece of query text the user typed, in the order the flags are declared.
pub open spec fn query_text_spec(a: SearchArgs) -> Seq<Piece> {
    free_pieces(a.terms@) + opt_piece("--title"@, a.title) + opt_piece("--author"@, a.author)
        + opt_piece("--subject"@, a.subject) + opt_piece("--publisher"@, a.publisher) + opt_piece(
        "--year"@,
        a.year,
    ) + opt_piece("--isbn"@, a.isbn)
}

/// Whether a text holds a truncation character.
pub open spec fn has_wildcard(v: Seq<char>) -> bool {
    exists|i: int| 0 <= i < v.len() && (v[i] == '*' || v[i] == '?')
}

/// The first piece of text with a truncation character in it.
pub open spec fn first_wildcard_spec(p: Seq<Piece>) -> Option<Seq<char>>
    decreases p.len(),
{
    if p.len() == 0 {
        None
    } else {
        match first_wildcard_spec(p.drop_last()) {
            Some(v) => Some(v),
            None => if has_wildcard(p.last().1) {
                Some(p.last().1)
            } else {
                None
            },
        }
    }
}

/// Whether a text, trimmed, is not empty and holds no letter or digit in Unicode's sense.
pub open spec fn lacks_text(v: Seq<char>) -> bool {
    let t = trim_spec(v);
    t.len() > 0 && !(exists|i: int| 0 <= i < t.len() && alphanumeric(#[trigger] t[i]))
}

/// The first piece of text, trimmed, that holds no letter or digit.
pub open spec fn first_without_text_spec(p: Seq<Piece>) -> Option<Seq<char>>
    decreases p.len(),
{
    if p.len() == 0 {
        None
    } else {
        match first_without_text_spec(p.drop_last()) {
            Some(v) => Some(v),
            None => if lacks_text(p.last().1) {
                Some(trim_spec(p.last().1))
            } else {
                None
            },
        }
    }
}

/// The length of all query text together, in characters.
pub open spec fn query_chars_spec(p: Seq<Piece>) -> nat
    decreases p.len(),
{
    if p.len() == 0 {
        0
    } else {
        query_chars_spec(p.drop_last()) + p.last().1.len()
    }
}

/// Whether an optional flag was given an empty value.
pub open spec fn blank_opt(o: Option<String>) -> bool {
    o is Some && trim_spec(o->0@).len() == 0
}

/// Whether some free term holds no text.
pub open spec fn blank_term(terms: Seq<String>) -> bool {
    exists|i: int| 0 <= i < terms.len() && trim_spec(#[trigger] terms[i]@).len() == 0
}

/// The written forms of a year range.
pub open spec fn is_range(t: Seq<char>) -> bool {
    contains_seq(t, "-"@) || contains_seq(t, "\u{2013}"@) || contains_seq(t, "\u{2014}"@)
        || contains_seq(t, ".."@)
}

/// Whether a trimmed year is four ASCII digits.
pub open spec fn four_digits(t: Seq<char>) -> bool {
    t.len() == 4 && forall|i: int| 0 <= i < 4 ==> is_digit(#[trigger] t[i])
}

/// The value of four digits.
pub open spec fn year_value(t: Seq<char>) -> nat {
    digit_value(t[0]) * 1000 + digit_value(t[1]) * 100 + digit_value(t[2]) * 10 + digit_value(t[3])
}

/// What is wrong with a `--year`, if anything.
pub open spec fn year_problem(v: Seq<char>) -> Option<UsageErrorView> {
    let t = trim_spec(v);
    if is_range(t) {
        Some(UsageErrorView::Range { input: t })
    } else if !four_digits(t) {
        Some(UsageErrorView::YearFormat { input: t })
    } else {
        None
    }
}

/// What is wrong with an `--isbn`, if anything.
pub open spec fn isbn_problem(v: Seq<char>) -> Option<UsageErrorView> {
    match problem_spec(compact_spec(v)) {
        Some(p) => Some(UsageErrorView::Isbn { input: trim_spec(v), problem: p }),
        None => None,
    }
}

/// The first problem with the query flags, in the order the query is assembled.
pub open spec fn query_problem(a: SearchArgs) -> Option<UsageErrorView> {
    if blank_term(a.terms@) {
        Some(UsageErrorView::EmptyValue { flag: "a search term"@ })
    } else if blank_opt(a.title) {
        Some(UsageErrorView::EmptyValue { flag: "--title"@ })
    } else if blank_opt(a.subject) {
        Some(UsageErrorView::EmptyValue { flag: "--subject"@ })
    } else if blank_opt(a.publisher) {
        Some(UsageErrorView::EmptyValue { flag: "--publisher"@ })
    } else if blank_opt(a.author) {
        Some(UsageErrorView::EmptyValue { flag: "--author"@ })
    } else if a.year is Some && year_problem(a.year->0@) is Some {
        year_problem(a.year->0@)
    } else if a.isbn is Some && isbn_problem(a.isbn->0@) is Some {
        isbn_problem(a.isbn->0@)
    } else {
        None
    }
}

/// Whether nothing at all was asked.
pub open spec fn nothing_asked(a: SearchArgs) -> bool {
    a.terms@.len() == 0 && a.title is None && a.author is None && a.subject is None
        && a.publisher is None && a.year is None && a.isbn is None
}

/// What is wrong with a counting flag: a value that is no `u32`, which the parser
/// limits to the negative ones.
pub open spec fn count_problem(v: Option<i64>, flag: Seq<char>) -> Option<UsageErrorView> {
    match v {
        Some(n) => if n < 0 || n > u32::MAX {
            Some(UsageErrorView::NegativeNumber { flag, value: signed_decimal_spec(n as int) })
        } else {
            None
        },
        None => None,
    }
}

/// The number a counting flag asks for, or its default.
pub open spec fn count_value(v: Option<i64>, default: nat) -> nat {
    match v {
        Some(n) => n as nat,
        None => default,
    }
}

/// What the `--at` entries resolve to so far, or the first entry that fails.
pub open spec fn at_problem(entries: Seq<String>) -> Option<UsageErrorView>
    decreases entries.len(),
{
    if entries.len() == 0 {
        None
    } else {
        match at_problem(entries.drop_last()) {
            Some(e) => Some(e),
            None => {
                let t = trim_spec(entries.last()@);
                if t.len() == 0 {
                    Some(UsageErrorView::EmptyValue { flag: "--at"@ })
                } else if resolution(table(), t) is None {
                    Some(
                        UsageErrorView::UnknownLibrary {
                            input: t,
                            suggestions: suggestions_spec(table(), t),
                        },
                    )
                } else {
                    None
                }
            },
        }
    }
}

/// Whether a location with the same key and ISIL is already in the list.
pub open spec fn seen(locs: Seq<LocView>, l: LocView) -> bool {
    exists|k: int| 0 <= k < locs.len() && locs[k].key == l.key && locs[k].isil == l.isil
}

/// The locations of `--at`: each entry resolved, a repeat of a key and ISIL dropped,
/// the first spelling kept.
pub open spec fn at_locations(entries: Seq<String>) -> Seq<LocView>
    decreases entries.len(),
{
    if entries.len() == 0 {
        Seq::empty()
    } else {
        let before = at_locations(entries.drop_last());
        let l = resolution(table(), trim_spec(entries.last()@))->0;
        if seen(before, l) {
            before
        } else {
            before.push(l)
        }
    }
}

/// How many locations voebb.de answers for.
pub open spec fn voebb_count(locs: Seq<LocView>) -> nat
    decreases locs.len(),
{
    if locs.len() == 0 {
        0
    } else {
        voebb_count(locs.drop_last()) + if locs.last().engine == Engine::Voebb {
            1nat
        } else {
            0nat
        }
    }
}

/// The keys of the locations voebb.de answers for, in order.
pub open spec fn voebb_keys(locs: Seq<LocView>) -> Seq<Seq<char>>
    decreases locs.len(),
{
    if locs.len() == 0 {
        Seq::empty()
    } else if locs.last().engine == Engine::Voebb {
        voebb_keys(locs.drop_last()).push(locs.last().key)
    } else {
        voebb_keys(locs.drop_last())
    }
}

/// The flag voebb.de has no index for, if one was given while it answers.
pub open spec fn engine_problem(a: SearchArgs, locs: Seq<LocView>) -> Option<UsageErrorView> {
    if voebb_count(locs) > 0 && a.publisher is Some {
        Some(UsageErrorView::FlagUnsupportedByEngine { flag: "--publisher"@, engine: Engine::Voebb })
    } else if voebb_count(locs) > 0 && a.year is Some {
        Some(UsageErrorView::FlagUnsupportedByEngine { flag: "--year"@, engine: Engine::Voebb })
    } else {
        None
    }
}

/// The format names `--format` accepts, in order.
pub open spec fn format_names() -> Seq<Seq<char>> {
    seq![
        "book"@, "ebook"@, "journal"@, "ejournal"@, "article"@, "database"@, "map"@, "score"@,
        "audio"@, "video"@, "image"@, "electronic"@, "manuscript"@, "object"@, "mixed"@,
        "unknown"@,
    ]
}

/// The format a name stands for.
pub open spec fn format_of(v: Seq<char>) -> Option<Format> {
    if v == "book"@ { Some(Format::Book) }
    else if v == "ebook"@ { Some(Format::Ebook) }
    else if v == "journal"@ { Some(Format::Journal) }
    else if v == "ejournal"@ { Some(Format::Ejournal) }
    else if v == "article"@ { Some(Format::Article) }
    else if v == "database"@ { Some(Format::Database) }
    else if v == "map"@ { Some(Format::Maps) }
    else if v == "score"@ { Some(Format::Score) }
    else if v == "audio"@ { Some(Format::Audio) }
    else if v == "video"@ { Some(Format::Video) }
    else if v == "image"@ { Some(Format::Image) }
    else if v == "electronic"@ { Some(Format::Electronic) }
    else if v == "manuscript"@ { Some(Format::Manuscript) }
    else if v == "object"@ { Some(Format::Object) }
    else if v == "mixed"@ { Some(Format::Mixed) }
    else if v == "unknown"@ { Some(Format::Unknown) }
    else { None }
}

/// The sort keys `--sort` accepts, in order.
pub open spec fn sort_names() -> Seq<Seq<char>> {
    seq!["relevance"@, "year"@, "title"@, "author"@, "availability"@]
}

/// The sort key a name stands for.
pub open spec fn sort_of(v: Seq<char>) -> Option<SortKey> {
    if v == "relevance"@ { Some(SortKey::Relevance) }
    else if v == "year"@ { Some(SortKey::Year) }
    else if v == "title"@ { Some(SortKey::Title) }
    else if v == "author"@ { Some(SortKey::Author) }
    else if v == "availability"@ { Some(SortKey::Availability) }
    else { None }
}

/// The ISO-639-2 terminology codes and the bibliographic code the records carry instead.
pub open spec fn terminology_codes() -> Seq<(Seq<char>, Seq<char>)> {
    seq![
        ("bod"@, "tib"@), ("ces"@, "cze"@), ("cym"@, "wel"@), ("deu"@, "ger"@), ("ell"@, "gre"@),
        ("eus"@, "baq"@), ("fas"@, "per"@), ("fra"@, "fre"@), ("hye"@, "arm"@), ("isl"@, "ice"@),
        ("kat"@, "geo"@), ("mkd"@, "mac"@), ("mri"@, "mao"@), ("msa"@, "may"@), ("mya"@, "bur"@),
        ("nld"@, "dut"@), ("ron"@, "rum"@), ("slk"@, "slo"@), ("sqi"@, "alb"@), ("zho"@, "chi"@),
    ]
}

/// The bibliographic code for a terminology one: the first row of the table that has it
/// on the left.
pub open spec fn bibliographic_of(code: Seq<char>) -> Option<Seq<char>> {
    if exists|i: int| 0 <= i < 20 && (#[trigger] terminology_codes()[i]).0 == code {
        let i = choose|i: int| 0 <= i < 20 && (#[trigger] terminology_codes()[i]).0 == code && forall|j: int| 0 <= j < i ==> (#[trigger] terminology_codes()[j]).0 != code;
        Some(terminology_codes()[i].1)
    } else {
        None
    }
}

/// Whether a code is three ASCII lowercase letters.
pub open spec fn well_formed_code(code: Seq<char>) -> bool {
    code.len() == 3 && forall|i: int| 0 <= i < 3 ==> 'a' <= #[trigger] code[i] <= 'z'
}

/// What is wrong with a `--language`, if anything.
pub open spec fn language_problem(v: Seq<char>) -> Option<UsageErrorView> {
    let code = lower_seq(trim_spec(v));
    if code.len() == 0 {
        Some(UsageErrorView::EmptyValue { flag: "--language"@ })
    } else if !well_formed_code(code) {
        Some(UsageErrorView::LanguageCode { input: v })
    } else if bibliographic_of(code) is Some {
        Some(UsageErrorView::LanguageCodeVariant { input: trim_spec(v), bibliographic: bibliographic_of(code)->0 })
    } else {
        None
    }
}

/// The last position a window reaches, saturated at `u32::MAX`: the anchored block ends
/// at 50, a stepped window `limit` records after its start.
pub open spec fn window_end(limit: nat, page: nat, anchored: bool) -> nat {
    if anchored {
        50
    } else {
        sat32(sat32((page - 1) * limit + 1) + limit - 1) as nat
    }
}

/// A count saturated at `usize::MAX`.
pub open spec fn sat_usize(n: nat) -> nat {
    if n > usize::MAX {
        usize::MAX as nat
    } else {
        n
    }
}

/// The whole check of a search invocation: the first problem, in the order of the
/// user's attention, or `None` for a search that may be sent.
pub open spec fn plan_problem(a: SearchArgs) -> Option<UsageErrorView> {
    let qt = query_text_spec(a);
    if first_wildcard_spec(qt) is Some {
        Some(UsageErrorView::Wildcard { term: first_wildcard_spec(qt)->0 })
    } else if query_problem(a) is Some {
        query_problem(a)
    } else if nothing_asked(a) {
        Some(UsageErrorView::EmptyQuery)
    } else if first_without_text_spec(qt) is Some {
        Some(UsageErrorView::TermWithoutText { term: first_without_text_spec(qt)->0 })
    } else if query_chars_spec(qt) >= MAX_QUERY_CHARS {
        Some(UsageErrorView::QueryTooLong { chars: sat_usize(query_chars_spec(qt)) })
    } else if count_problem(a.limit, "--limit"@) is Some {
        count_problem(a.limit, "--limit"@)
    } else if !(1 <= count_value(a.limit, 10) <= 50) {
        Some(UsageErrorView::LimitOutOfRange { given: count_value(a.limit, 10) })
    } else if count_problem(a.page, "--page"@) is Some {
        count_problem(a.page, "--page"@)
    } else if count_value(a.page, 1) == 0 {
        Some(UsageErrorView::PageOutOfRange { given: 0 })
    } else if at_problem(a.at@) is Some {
        at_problem(a.at@)
    } else if engine_problem(a, at_locations(a.at@)) is Some {
        engine_problem(a, at_locations(a.at@))
    } else if a.format is Some && format_of(a.format->0@) is None {
        Some(UsageErrorView::UnsupportedValue { flag: "--format"@, got: a.format->0@, expected: join_comma(format_names()) })
    } else if a.language is Some && language_problem(a.language->0@) is Some {
        language_problem(a.language->0@)
    } else if voebb_count(at_locations(a.at@)) > 0 && voebb_count(at_locations(a.at@)) == at_locations(a.at@).len()
        && window_end(count_value(a.limit, 10), count_value(a.page, 1), a.format is Some || a.language is Some) > MAX_POSITION {
        Some(UsageErrorView::WindowTooDeep {
            engine: Engine::Voebb,
            page: count_value(a.page, 1),
            limit: count_value(a.limit, 10),
            position: window_end(count_value(a.limit, 10), count_value(a.page, 1), a.format is Some || a.language is Some),
            max: MAX_POSITION as nat,
        })
    } else if a.sort is Some && sort_of(a.sort->0@) is None {
        Some(UsageErrorView::UnsupportedValue { flag: "--sort"@, got: a.sort->0@, expected: join_comma(sort_names()) })
    } else if a.available && a.no_availability {
        Some(UsageErrorView::ConflictingFlags { flag: "--available"@, with: "--no-availability"@ })
    } else if a.sort is Some && sort_of(a.sort->0@) == Some(SortKey::Availability) && a.no_availability {
        Some(UsageErrorView::ConflictingFlags { flag: "--sort availability"@, with: "--no-availability"@ })
    } else {
        None
    }
}

/// A term as the user gave it: trimmed, a phrase exactly when white space remains.
pub open spec fn term_of(t: Term, argument: Seq<char>) -> bool {
    t.text_spec() == trim_spec(argument) && (t is Phrase <==> has_space(trim_spec(argument)))
}

/// An optional field term as the user gave it.
pub open spec fn field_of(t: Option<Term>, argument: Option<String>) -> bool {
    match (t, argument) {
        (Some(term), Some(arg)) => term_of(term, arg@),
        (None, None) => true,
        _ => false,
    }
}

/// The query as the user gave it.
pub open spec fn query_of(q: QuerySpec, a: SearchArgs) -> bool {
    &&& q.terms@.len() == a.terms@.len()
    &&& forall|i: int| 0 <= i < q.terms@.len() ==> term_of(#[trigger] q.terms@[i], a.terms@[i]@)
    &&& field_of(q.title, a.title)
    &&& field_of(q.subject, a.subject)
    &&& field_of(q.publisher, a.publisher)
    &&& match (q.author, a.author) {
        (Some(x), Some(y)) => x@ == trim_spec(y@),
        (None, None) => true,
        _ => false,
    }
    &&& match (q.year, a.year) {
        (Some(y), Some(v)) => y == year_value(trim_spec(v@)),
        (None, None) => true,
        _ => false,
    }
    &&& match (q.identifier, a.isbn) {
        (Some(id), Some(v)) => id.digits() == normalised_spec(compact_spec(v@)) && (id is Issn
            <==> compact_spec(v@).len() == 8),
        (None, None) => true,
        _ => false,
    }
}

/// A field flag as it is echoed: `field: value`.
pub open spec fn field_echo(p: Piece) -> Seq<char> {
    strip_dashes(p.0) + ": "@ + p.1
}

/// A flag without its leading `--`.
pub open spec fn strip_dashes(f: Seq<char>) -> Seq<char> {
    if f.len() >= 2 {
        f.subrange(2, f.len() as int)
    } else {
        Seq::empty()
    }
}

/// The field flags among the pieces, echoed.
pub open spec fn field_echoes(p: Seq<Piece>) -> Seq<Seq<char>>
    decreases p.len(),
{
    if p.len() == 0 {
        Seq::empty()
    } else if p.last().0.len() > 0 {
        field_echoes(p.drop_last()).push(field_echo(p.last()))
    } else {
        field_echoes(p.drop_last())
    }
}

/// The invocation echoed back: the free terms as typed (phrases quoted), then each field
/// flag as `field: value`, joined with `, `.
pub open spec fn echo_spec(a: SearchArgs, q: QuerySpec) -> Seq<char> {
    let free = echo_terms(q.terms@);
    let fields = field_echoes(query_text_spec(a));
    join_comma(if free.len() > 0 {
        seq![free] + fields
    } else {
        fields
    })
}

/// The too-deep verdict for a plan that was accepted.
pub open spec fn too_deep_of(t: Option<TooDeep>, a: SearchArgs, limit: Limit, page: Page) -> bool {
    let locs = at_locations(a.at@);
    let end = window_end(limit.value(), page.value(), a.format is Some || a.language is Some);
    if voebb_count(locs) > 0 && end > MAX_POSITION {
        t matches Some(d) && string_views(d.keys@) == voebb_keys(locs) && d.position == end
            && d.max == MAX_POSITION
    } else {
        t is None
    }
}

/// Everything an accepted search plan holds, stated against the invocation.
pub open spec fn plan_of(p: Plan, args: SearchArgs, json: bool, cache: bool) -> bool {
                &&& plan_problem(args) is None
                &&& query_of(p.query, args)
                &&& p.terms_echo@ == echo_spec(args, p.query)
                &&& location_views(p.locations@) == at_locations(args.at@)
                &&& p.limit.value() == count_value(args.limit, 10)
                &&& p.page.value() == count_value(args.page, 1)
                &&& p.sort == match args.sort { Some(s) => sort_of(s@)->0, None => SortKey::Relevance }
                &&& p.filters.format == match args.format { Some(f) => Some(format_of(f@)->0), None => None }
                &&& match (p.filters.language, args.language) {
                    (Some(code), Some(v)) => code@ == lower_seq(trim_spec(v@)),
                    (None, None) => true,
                    _ => false,
                }
                &&& too_deep_of(p.too_deep, args, p.limit, p.page)
                &&& p.availability == if args.no_availability { AvailabilityMode::Skipped } else { AvailabilityMode::Fetched }
                &&& p.only_available == args.available
                &&& p.json == json
                &&& p.cache == cache
}

/// Validate a search invocation and resolve everything it names.
///
/// The order of the checks is the order of the user's attention: what they typed as a
/// query first, then how much of it they wanted, then where. Every failure here happens
/// before a request is built, and every one is a usage error.
pub fn validate(args: &SearchArgs, json: bool, cache: bool) -> (r: Result<Plan, Error>)
    ensures
        match r {
            Err(e) => e matches Error::Usage(u) && plan_problem(*args) == Some(u@),
            Ok(p) => plan_of(p, *args, json, cache),
        },
{
    match plan(args, json, cache) {
        Ok(p) => Ok(p),
        Err(e) => Err(Error::Usage(e)),
    }
}

/// The body of [`validate`], in terms of the one error category it can produce.
fn plan(args: &SearchArgs, json: bool, cache: bool) -> (r: Result<Plan, UsageError>)
    ensures
        match r {
            Err(e) => plan_problem(*args) == Some(e@),
            Ok(p) => {
                &&& plan_problem(*args) is None
                &&& query_of(p.query, *args)
                &&& p.terms_echo@ == echo_spec(*args, p.query)
                &&& location_views(p.locations@) == at_locations(args.at@)
                &&& p.limit.value() == count_value(args.limit, 10)
                &&& p.page.value() == count_value(args.page, 1)
                &&& p.sort == match args.sort { Some(s) => sort_of(s@)->0, None => SortKey::Relevance }
                &&& p.filters.format == match args.format { Some(f) => Some(format_of(f@)->0), None => None }
                &&& match (p.filters.language, args.language) {
                    (Some(code), Some(v)) => code@ == lower_seq(trim_spec(v@)),
                    (None, None) => true,
                    _ => false,
                }
                &&& too_deep_of(p.too_deep, *args, p.limit, p.page)
                &&& p.availability == if args.no_availability { AvailabilityMode::Skipped } else { AvailabilityMode::Fetched }
                &&& p.only_available == args.available
                &&& p.json == json
                &&& p.cache == cache
            },
        },
{
    let pieces = query_text(args);
    if let Some(term) = first_wildcard(&pieces) {
        return Err(UsageError::Wildcard { term });
    }
    let query = match query(args) {
        Ok(q) => q,
        Err(e) => return Err(e),
    };
    proof {
        assert(nothing_asked(*args) == query.is_empty_spec());
    }
    if query.is_empty() {
        return Err(UsageError::EmptyQuery);
    }
    if let Some(term) = first_without_text(&pieces) {
        return Err(UsageError::TermWithoutText { term });
    }
    let chars = query_chars(&pieces);
    if chars >= MAX_QUERY_CHARS {
        return Err(UsageError::QueryTooLong { chars });
    }
    let limit_n = match count(args.limit, "--limit") {
        Ok(n) => n,
        Err(e) => return Err(e),
    };
    let limit = match limit_n {
        Some(n) => match Limit::new(n) {
            Ok(l) => l,
            Err(e) => return Err(e),
        },
        None => Limit::default_limit(),
    };
    let page_n = match count(args.page, "--page") {
        Ok(n) => n,
        Err(e) => return Err(e),
    };
    let page = match page_n {
        Some(n) => match Page::new(n) {
            Ok(p) => p,
            Err(e) => return Err(e),
        },
        None => Page::first(),
    };
    let locations = match locations(&args.at) {
        Ok(l) => l,
        Err(e) => return Err(e),
    };
    match check_engine_support(args, &locations) {
        Ok(()) => {},
        Err(e) => return Err(e),
    }
    let format = match &args.format {
        Some(f) => match format(f.as_str()) {
            Ok(x) => Some(x),
            Err(e) => return Err(e),
        },
        None => None,
    };
    let language = match &args.language {
        Some(l) => match language(l.as_str()) {
            Ok(x) => Some(x),
            Err(e) => return Err(e),
        },
        None => None,
    };
    let filters = Filters { format, language };
    let too_deep = match check_window_depth(limit, page, &filters, &locations) {
        Ok(t) => t,
        Err(e) => return Err(e),
    };
    let sort = match sort_key(&args.sort) {
        Ok(s) => s,
        Err(e) => return Err(e),
    };
    match check_flag_conflicts(args, sort) {
        Ok(()) => {},
        Err(e) => return Err(e),
    }
    let terms_echo = echo(&pieces, &query);
    Ok(Plan {
        query,
        terms_echo,
        locations,
        too_deep,
        limit,
        page,
        sort,
        filters,
        availability: availability(args.no_availability),
        only_available: args.available,
        json,
        cache,
    })
}

/// The availability mode a `--no-availability` flag asks for.
pub open spec fn availability_of(no_availability: bool) -> AvailabilityMode {
    if no_availability {
        AvailabilityMode::Skipped
    } else {
        AvailabilityMode::Fetched
    }
}

/// Validate a `show` invocation: the engine comes from the id's prefix alone, and `--at`
/// only marks libraries to list first.
pub fn validate_show(args: &ShowArgs, json: bool, cache: bool) -> (r: Result<ShowPlan, Error>)
    ensures
        ({
            let id = trim_spec(args.id@);
            match r {
                Ok(p) => crate::model::is_record_id(id) && p.id.id_spec() == id && at_problem(args.at@) is None
                    && location_views(p.locations@) == at_locations(args.at@) && p.availability == availability_of(args.no_availability)
                    && p.json == json && p.cache == cache,
                Err(e) => if !crate::model::is_record_id(id) {
                    e matches Error::Usage(u) && u@ == (UsageErrorView::InvalidRecordId { input: id })
                } else {
                    e matches Error::Usage(u) && at_problem(args.at@) == Some(u@)
                },
            }
        }),
{
    let typed = trim(args.id.as_str());
    let id = match RecordId::parse(typed.as_str()) {
        Ok(id) => id,
        Err(e) => return Err(Error::Usage(e)),
    };
    let locations = match locations(&args.at) {
        Ok(l) => l,
        Err(e) => return Err(Error::Usage(e)),
    };
    Ok(ShowPlan { id, locations, availability: availability(args.no_availability), json, cache })
}

/// The locations one engine answers for, in the user's order.
pub open spec fn of_engine(locs: Seq<LocView>, e: Engine) -> Seq<LocView>
    decreases locs.len(),
{
    if locs.len() == 0 {
        Seq::empty()
    } else if locs.last().engine == e {
        of_engine(locs.drop_last(), e).push(locs.last())
    } else {
        of_engine(locs.drop_last(), e)
    }
}

/// One group per engine that has a location, in engine order; no locations at all is
/// one KOBV search without a holdings filter.
pub open spec fn engine_groups(locs: Seq<LocView>) -> Seq<(Engine, Seq<LocView>)> {
    if locs.len() == 0 {
        seq![(Engine::Kobv, Seq::<LocView>::empty())]
    } else {
        (if of_engine(locs, Engine::Kobv).len() > 0 {
            seq![(Engine::Kobv, of_engine(locs, Engine::Kobv))]
        } else {
            Seq::empty()
        }) + (if of_engine(locs, Engine::Voebb).len() > 0 {
            seq![(Engine::Voebb, of_engine(locs, Engine::Voebb))]
        } else {
            Seq::empty()
        })
    }
}

/// The views of engine groups.
pub open spec fn group_views(g: Seq<(Engine, Vec<Location>)>) -> Seq<(Engine, Seq<LocView>)> {
    g.map_values(|p: (Engine, Vec<Location>)| (p.0, location_views(p.1@)))
}

/// The locations one engine answers for, copied in order.
fn locations_of(locations: &Vec<Location>, engine: Engine) -> (v: Vec<Location>)
    ensures
        location_views(v@) == of_engine(location_views(locations@), engine),
{
    let mut v: Vec<Location> = Vec::new();
    let mut i: usize = 0;
    while i < locations.len()
        invariant
            i <= locations.len(),
            location_views(v@) == of_engine(location_views(locations@).take(i as int), engine),
        decreases locations.len() - i,
    {
        proof {
            assert(location_views(locations@).take(i + 1).drop_last() =~= location_views(locations@).take(i as int));
        }
        if locations[i].engine == engine {
            let ghost before = v@;
            let l = locations[i].copy();
            v.push(l);
            proof {
                assert(location_views(v@) =~= location_views(before).push(l.view()));
            }
        }
        i = i + 1;
    }
    proof {
        assert(location_views(locations@).take(i as int) =~= location_views(locations@));
    }
    v
}

/// Split resolved locations by the engine that answers for them: one group per engine,
/// in engine order whatever the order of `--at`, the user's order inside each group.
pub fn split_by_engine(locations: &Vec<Location>) -> (g: Vec<(Engine, Vec<Location>)>)
    ensures
        group_views(g@) == engine_groups(location_views(locations@)),
{
    let mut groups: Vec<(Engine, Vec<Location>)> = Vec::new();
    if locations.len() == 0 {
        groups.push((Engine::Kobv, Vec::new()));
        proof {
            assert(location_views(Seq::<Location>::empty()) =~= Seq::<LocView>::empty());
            assert(group_views(groups@) =~= engine_groups(location_views(locations@)));
        }
        return groups;
    }
    let kobv = locations_of(locations, Engine::Kobv);
    let kobv_len = kobv.len();
    if kobv_len > 0 {
        groups.push((Engine::Kobv, kobv));
    }
    let voebb = locations_of(locations, Engine::Voebb);
    let voebb_len = voebb.len();
    if voebb_len > 0 {
        groups.push((Engine::Voebb, voebb));
    }
    proof {
        assert(group_views(groups@) =~= engine_groups(location_views(locations@)));
    }
    groups
}

/// The views of a list of pieces.
pub open spec fn piece_views(v: Seq<(&'static str, &str)>) -> Seq<Piece> {
    v.map_values(|p: (&'static str, &str)| (p.0@, p.1@))
}

proof fn lemma_piece_views_push(v: Seq<(&'static str, &str)>, p: (&'static str, &str))
    ensures
        piece_views(v.push(p)) == piece_views(v).push((p.0@, p.1@)),
{
    assert(piece_views(v.push(p)) =~= piece_views(v).push((p.0@, p.1@)));
}

/// Adds the piece of an optional flag.
fn push_opt<'a>(v: &mut Vec<(&'static str, &'a str)>, flag: &'static str, value: &'a Option<String>)
    ensures
        piece_views(final(v)@) == piece_views(old(v)@) + opt_piece(flag@, *value),
{
    match value {
        Some(s) => {
            let ghost before = v@;
            let item = (flag, s.as_str());
            v.push(item);
            proof {
                lemma_piece_views_push(before, item);
                assert(piece_views(v@) =~= piece_views(before) + opt_piece(flag@, *value));
            }
        },
        None => {
            proof {
                assert(piece_views(v@) =~= piece_views(v@) + opt_piece(flag@, *value));
            }
        },
    }
}

/// Every piece of query text the user typed, in the order the flags are declared.
fn query_text(args: &SearchArgs) -> (v: Vec<(&'static str, &str)>)
    ensures
        piece_views(v@) == query_text_spec(*args),
{
    let mut v: Vec<(&'static str, &str)> = Vec::new();
    let mut i: usize = 0;
    while i < args.terms.len()
        invariant
            i <= args.terms.len(),
            piece_views(v@) == free_pieces(args.terms@.take(i as int)),
        decreases args.terms.len() - i,
    {
        let ghost before = v@;
        let item = ("", args.terms[i].as_str());
        v.push(item);
        proof {
            lemma_piece_views_push(before, item);
            reveal_strlit("");
            assert(""@ =~= Seq::<char>::empty());
            assert(args.terms@.take(i + 1) =~= args.terms@.take(i as int).push(args.terms@[i as int]));
            assert(free_pieces(args.terms@.take(i + 1)) =~= free_pieces(args.terms@.take(i as int)).push((Seq::<char>::empty(), args.terms@[i as int]@)));
        }
        i = i + 1;
    }
    proof {
        assert(args.terms@.take(i as int) =~= args.terms@);
    }
    push_opt(&mut v, "--title", &args.title);
    push_opt(&mut v, "--author", &args.author);
    push_opt(&mut v, "--subject", &args.subject);
    push_opt(&mut v, "--publisher", &args.publisher);
    push_opt(&mut v, "--year", &args.year);
    push_opt(&mut v, "--isbn", &args.isbn);
    v
}

/// Whether a slice holds a truncation character.
fn wildcard_in(value: &str) -> (r: bool)
    ensures
        r == has_wildcard(value@),
{
    let c = chars_of(value);
    let mut i: usize = 0;
    while i < c.len()
        invariant
            i <= c.len(),
            c@ == value@,
            forall|j: int| 0 <= j < i ==> !(c@[j] == '*' || c@[j] == '?'),
        decreases c.len() - i,
    {
        if c[i] == '*' || c[i] == '?' {
            return true;
        }
        i = i + 1;
    }
    false
}

/// The first piece of query text that contains a truncation character.
fn first_wildcard(pieces: &Vec<(&'static str, &str)>) -> (r: Option<String>)
    ensures
        match r {
            Some(t) => first_wildcard_spec(piece_views(pieces@)) == Some(t@),
            None => first_wildcard_spec(piece_views(pieces@)) is None,
        },
{
    let mut i: usize = 0;
    while i < pieces.len()
        invariant
            i <= pieces.len(),
            first_wildcard_spec(piece_views(pieces@).take(i as int)) is None,
        decreases pieces.len() - i,
    {
        proof {
            assert(piece_views(pieces@).take(i + 1).drop_last() =~= piece_views(pieces@).take(i as int));
        }
        if wildcard_in(pieces[i].1) {
            proof {
                lemma_first_wildcard_prefix(piece_views(pieces@), i as int + 1);
            }
            return Some(owned(pieces[i].1));
        }
        i = i + 1;
    }
    proof {
        assert(piece_views(pieces@).take(i as int) =~= piece_views(pieces@));
    }
    None
}

proof fn lemma_first_wildcard_prefix(p: Seq<Piece>, n: int)
    requires
        0 <= n <= p.len(),
        first_wildcard_spec(p.take(n)) is Some,
    ensures
        first_wildcard_spec(p) == first_wildcard_spec(p.take(n)),
    decreases p.len() - n,
{
    if n < p.len() {
        assert(p.take(n + 1).drop_last() =~= p.take(n));
        lemma_first_wildcard_prefix(p, n + 1);
    } else {
        assert(p.take(n) =~= p);
    }
}

proof fn lemma_first_without_text_prefix(p: Seq<Piece>, n: int)
    requires
        0 <= n <= p.len(),
        first_without_text_spec(p.take(n)) is Some,
    ensures
        first_without_text_spec(p) == first_without_text_spec(p.take(n)),
    decreases p.len() - n,
{
    if n < p.len() {
        assert(p.take(n + 1).drop_last() =~= p.take(n));
        lemma_first_without_text_prefix(p, n + 1);
    } else {
        assert(p.take(n) =~= p);
    }
}

/// Whether a trimmed text holds a letter or digit.
fn has_text(t: &str) -> (r: bool)
    ensures
        r == exists|i: int| 0 <= i < t@.len() && alphanumeric(#[trigger] t@[i]),
{
    let c = chars_of(t);
    let mut i: usize = 0;
    while i < c.len()
        invariant
            i <= c.len(),
            c@ == t@,
            forall|j: int| 0 <= j < i ==> !alphanumeric(#[trigger] t@[j]),
        decreases c.len() - i,
    {
        if is_alphanumeric(c[i]) {
            return true;
        }
        i = i + 1;
    }
    false
}

/// The first piece of query text, trimmed, without a single letter or digit in it.
fn first_without_text(pieces: &Vec<(&'static str, &str)>) -> (r: Option<String>)
    ensures
        match r {
            Some(t) => first_without_text_spec(piece_views(pieces@)) == Some(t@),
            None => first_without_text_spec(piece_views(pieces@)) is None,
        },
{
    let mut i: usize = 0;
    while i < pieces.len()
        invariant
            i <= pieces.len(),
            first_without_text_spec(piece_views(pieces@).take(i as int)) is None,
        decreases pieces.len() - i,
    {
        proof {
            assert(piece_views(pieces@).take(i + 1).drop_last() =~= piece_views(pieces@).take(i as int));
        }
        let t = trim(pieces[i].1);
        if t.as_str().unicode_len() > 0 && !has_text(t.as_str()) {
            proof {
                lemma_first_without_text_prefix(piece_views(pieces@), i as int + 1);
            }
            return Some(t);
        }
        i = i + 1;
    }
    proof {
        assert(piece_views(pieces@).take(i as int) =~= piece_views(pieces@));
    }
    None
}

proof fn lemma_query_chars_bound(p: Seq<Piece>, n: int)
    requires
        0 <= n <= p.len(),
    ensures
        query_chars_spec(p.take(n)) <= query_chars_spec(p),
    decreases p.len() - n,
{
    if n < p.len() {
        assert(p.take(n + 1).drop_last() =~= p.take(n));
        lemma_query_chars_bound(p, n + 1);
    } else {
        assert(p.take(n) =~= p);
    }
}

/// How long the query text is, in characters, saturated at `usize::MAX`.
fn query_chars(pieces: &Vec<(&'static str, &str)>) -> (n: usize)
    ensures
        n == sat_usize(query_chars_spec(piece_views(pieces@))),
{
    let mut total: usize = 0;
    let mut i: usize = 0;
    while i < pieces.len()
        invariant
            i <= pieces.len(),
            total == query_chars_spec(piece_views(pieces@).take(i as int)),
        decreases pieces.len() - i,
    {
        proof {
            assert(piece_views(pieces@).take(i + 1).drop_last() =~= piece_views(pieces@).take(i as int));
            lemma_query_chars_bound(piece_views(pieces@), i + 1);
        }
        let n = pieces[i].1.unicode_len();
        if total > usize::MAX - n {
            return usize::MAX;
        }
        total = total + n;
        i = i + 1;
    }
    proof {
        assert(piece_views(pieces@).take(i as int) =~= piece_views(pieces@));
    }
    total
}

/// One search word or phrase, refused when the argument holds no text.
fn term(argument: &str, named: &str) -> (r: Result<Term, UsageError>)
    ensures
        match r {
            Ok(t) => trim_spec(argument@).len() > 0 && term_of(t, argument@),
            Err(e) => trim_spec(argument@).len() == 0 && e@ == (UsageErrorView::EmptyValue { flag: named@ }),
        },
{
    let term = Term::from_argument(argument);
    if term.is_empty() {
        return Err(UsageError::EmptyValue { flag: owned(named) });
    }
    Ok(term)
}

/// The value of a field flag that is searched as a word or a phrase.
fn field(value: &Option<String>, flag: &str) -> (r: Result<Option<Term>, UsageError>)
    ensures
        match r {
            Ok(t) => !blank_opt(*value) && field_of(t, *value),
            Err(e) => blank_opt(*value) && e@ == (UsageErrorView::EmptyValue { flag: flag@ }),
        },
{
    match value {
        Some(v) => match term(v.as_str(), flag) {
            Ok(t) => Ok(Some(t)),
            Err(e) => Err(e),
        },
        None => Ok(None),
    }
}

/// Assemble the query from the free terms and the field flags.
fn query(args: &SearchArgs) -> (r: Result<QuerySpec, UsageError>)
    ensures
        match r {
            Ok(q) => query_problem(*args) is None && query_of(q, *args),
            Err(e) => query_problem(*args) == Some(e@),
        },
{
    let mut terms: Vec<Term> = Vec::new();
    let mut i: usize = 0;
    while i < args.terms.len()
        invariant
            i <= args.terms.len(),
            terms@.len() == i,
            forall|j: int| 0 <= j < i ==> trim_spec(#[trigger] args.terms@[j]@).len() > 0,
            forall|j: int| 0 <= j < i ==> term_of(#[trigger] terms@[j], args.terms@[j]@),
        decreases args.terms.len() - i,
    {
        match term(args.terms[i].as_str(), "a search term") {
            Ok(t) => terms.push(t),
            Err(e) => {
                proof {
                    assert(blank_term(args.terms@));
                }
                return Err(e);
            },
        }
        i = i + 1;
    }
    proof {
        assert(!blank_term(args.terms@));
    }
    let title = match field(&args.title, "--title") {
        Ok(t) => t,
        Err(e) => return Err(e),
    };
    let subject = match field(&args.subject, "--subject") {
        Ok(t) => t,
        Err(e) => return Err(e),
    };
    let publisher = match field(&args.publisher, "--publisher") {
        Ok(t) => t,
        Err(e) => return Err(e),
    };
    let author = match &args.author {
        Some(a) => {
            let name = trim(a.as_str());
            if name.as_str().unicode_len() == 0 {
                return Err(UsageError::EmptyValue { flag: owned("--author") });
            }
            Some(name)
        },
        None => None,
    };
    let year = match &args.year {
        Some(y) => match year(y.as_str()) {
            Ok(v) => Some(v),
            Err(e) => return Err(e),
        },
        None => None,
    };
    let identifier = match &args.isbn {
        Some(v) => match identifier(v.as_str()) {
            Ok(id) => Some(id),
            Err(e) => return Err(e),
        },
        None => None,
    };
    Ok(QuerySpec { terms, title, author, subject, publisher, year, identifier })
}

/// Validate `--year`: a range is caught before the format check.
fn year(input: &str) -> (r: Result<u16, UsageError>)
    ensures
        match r {
            Ok(y) => year_problem(input@) is None && y == year_value(trim_spec(input@)),
            Err(e) => year_problem(input@) == Some(e@),
        },
{
    let t = trim(input);
    let s = t.as_str();
    if contains_text(s, "-") || contains_text(s, "\u{2013}") || contains_text(s, "\u{2014}")
        || contains_text(s, "..") {
        return Err(UsageError::Range { input: t });
    }
    let c = chars_of(s);
    if c.len() != 4 || !is_ascii_digit(c[0]) || !is_ascii_digit(c[1]) || !is_ascii_digit(c[2])
        || !is_ascii_digit(c[3]) {
        proof {
            if c@.len() == 4 && four_digits(t@) {
                assert(is_digit(t@[0]) && is_digit(t@[1]) && is_digit(t@[2]) && is_digit(t@[3]));
            }
        }
        return Err(UsageError::YearFormat { input: t });
    }
    proof {
        assert(four_digits(t@));
    }
    let value = value_of_digit(c[0]) * 1000 + value_of_digit(c[1]) * 100 + value_of_digit(c[2]) * 10
        + value_of_digit(c[3]);
    Ok(value as u16)
}

/// Validate `--isbn`, keeping the user's spelling in the error.
fn identifier(input: &str) -> (r: Result<Identifier, UsageError>)
    ensures
        match r {
            Ok(id) => isbn_problem(input@) is None && id.digits() == normalised_spec(compact_spec(input@))
                && (id is Issn <==> compact_spec(input@).len() == 8),
            Err(e) => isbn_problem(input@) == Some(e@),
        },
{
    match isbn::parse(input) {
        Ok(id) => Ok(id),
        Err(problem) => Err(UsageError::Isbn { input: trim(input), problem }),
    }
}

/// One of the counting flags: a value that is no `u32` is refused as negative, since the
/// parser admits nothing larger.
fn count(value: Option<i64>, flag: &str) -> (r: Result<Option<u32>, UsageError>)
    ensures
        match r {
            Ok(Some(n)) => count_problem(value, flag@) is None && value == Some(n as i64),
            Ok(None) => value is None,
            Err(e) => count_problem(value, flag@) == Some(e@),
        },
{
    match value {
        Some(v) => {
            if v < 0 || v > 0xffff_ffffi64 {
                Err(UsageError::NegativeNumber { flag: owned(flag), value: signed_decimal(v) })
            } else {
                Ok(Some(v as u32))
            }
        },
        None => Ok(None),
    }
}

/// Resolve a `--at` list, preserving order and rejecting the first empty or unknown
/// entry. A repeat of a key and ISIL is dropped, and the first spelling survives.
pub fn locations(entries: &Vec<String>) -> (r: Result<Vec<Location>, UsageError>)
    ensures
        match r {
            Ok(v) => at_problem(entries@) is None && location_views(v@) == at_locations(entries@),
            Err(e) => at_problem(entries@) == Some(e@),
        },
{
    let mut resolved: Vec<Location> = Vec::new();
    let mut i: usize = 0;
    while i < entries.len()
        invariant
            i <= entries.len(),
            at_problem(entries@.take(i as int)) is None,
            location_views(resolved@) == at_locations(entries@.take(i as int)),
        decreases entries.len() - i,
    {
        proof {
            assert(entries@.take(i + 1).drop_last() =~= entries@.take(i as int));
        }
        let typed = trim(entries[i].as_str());
        if typed.as_str().unicode_len() == 0 {
            proof {
                lemma_at_problem_prefix(entries@, i as int + 1);
            }
            return Err(UsageError::EmptyValue { flag: owned("--at") });
        }
        let location = match libraries::resolve(typed.as_str()) {
            Ok(l) => l,
            Err(e) => {
                proof {
                    lemma_at_problem_prefix(entries@, i as int + 1);
                }
                return Err(e);
            },
        };
        let mut known = false;
        let mut k: usize = 0;
        while k < resolved.len()
            invariant
                k <= resolved.len(),
                known == exists|j: int| 0 <= j < k && resolved@[j].key@ == location.key@ && resolved@[j].isil.0@ == location.isil.0@,
            decreases resolved.len() - k,
        {
            if same_text(resolved[k].key.as_str(), location.key.as_str()) && same_text(resolved[k].isil.as_str(), location.isil.as_str()) {
                known = true;
            }
            k = k + 1;
        }
        proof {
            let before = location_views(resolved@);
            assert(seen(before, location.view()) == known) by {
                if known {
                    let j = choose|j: int| 0 <= j < resolved@.len() && resolved@[j].key@ == location.key@ && resolved@[j].isil.0@ == location.isil.0@;
                    assert(before[j].key == location.view().key);
                }
                if seen(before, location.view()) {
                    let j = choose|j: int| 0 <= j < before.len() && before[j].key == location.view().key && before[j].isil == location.view().isil;
                    assert(resolved@[j].key@ == location.key@);
                }
            }
        }
        if !known {
            let ghost before = resolved@;
            resolved.push(location);
            proof {
                assert(location_views(resolved@) =~= location_views(before).push(location.view()));
            }
        }
        i = i + 1;
    }
    proof {
        assert(entries@.take(i as int) =~= entries@);
    }
    Ok(resolved)
}

proof fn lemma_at_problem_prefix(e: Seq<String>, n: int)
    requires
        0 <= n <= e.len(),
        at_problem(e.take(n)) is Some,
    ensures
        at_problem(e) == at_problem(e.take(n)),
    decreases e.len() - n,
{
    if n < e.len() {
        assert(e.take(n + 1).drop_last() =~= e.take(n));
        lemma_at_problem_prefix(e, n + 1);
    } else {
        assert(e.take(n) =~= e);
    }
}

/// How many of the locations voebb.de answers for.
fn count_voebb(locations: &Vec<Location>) -> (n: usize)
    ensures
        n == voebb_count(location_views(locations@)),
        n <= locations.len(),
{
    let mut n: usize = 0;
    let mut i: usize = 0;
    while i < locations.len()
        invariant
            i <= locations.len(),
            n <= i,
            n == voebb_count(location_views(locations@).take(i as int)),
        decreases locations.len() - i,
    {
        proof {
            assert(location_views(locations@).take(i + 1).drop_last() =~= location_views(locations@).take(i as int));
        }
        if matches!(locations[i].engine, Engine::Voebb) {
            n = n + 1;
        }
        i = i + 1;
    }
    proof {
        assert(location_views(locations@).take(i as int) =~= location_views(locations@));
    }
    n
}

/// Refuse a flag the answering catalogue has no index for.
fn check_engine_support(args: &SearchArgs, locations: &Vec<Location>) -> (r: Result<(), UsageError>)
    ensures
        match r {
            Ok(()) => engine_problem(*args, location_views(locations@)) is None,
            Err(e) => engine_problem(*args, location_views(locations@)) == Some(e@),
        },
{
    if count_voebb(locations) == 0 {
        return Ok(());
    }
    if args.publisher.is_some() {
        return Err(UsageError::FlagUnsupportedByEngine { flag: owned("--publisher"), engine: Engine::Voebb });
    }
    if args.year.is_some() {
        return Err(UsageError::FlagUnsupportedByEngine { flag: owned("--year"), engine: Engine::Voebb });
    }
    Ok(())
}

/// Refuse a window a VÖBB branch cannot be paged to, for that branch's block only: the
/// run is refused when nothing but such locations remain.
fn check_window_depth(limit: Limit, page: Page, filters: &Filters, locations: &Vec<Location>) -> (r: Result<Option<TooDeep>, UsageError>)
    ensures
        ({
            let locs = location_views(locations@);
            let end = window_end(limit.value(), page.value(), filters.is_active_spec());
            let deep = voebb_count(locs) > 0 && end > MAX_POSITION;
            match r {
                Err(e) => deep && voebb_count(locs) == locs.len() && e@ == (UsageErrorView::WindowTooDeep {
                    engine: Engine::Voebb,
                    page: page.value(),
                    limit: limit.value(),
                    position: end,
                    max: MAX_POSITION as nat,
                }),
                Ok(t) => !(deep && voebb_count(locs) == locs.len()) && if deep {
                    t matches Some(d) && string_views(d.keys@) == voebb_keys(locs) && d.position == end && d.max == MAX_POSITION
                } else {
                    t is None
                },
            }
        }),
{
    let capped = count_voebb(locations);
    if capped == 0 {
        return Ok(None);
    }
    let window = FetchWindow::plan(limit, page, filters.is_active());
    let size = window.size.get() as u32;
    let position = if window.start > u32::MAX - (size - 1) {
        u32::MAX
    } else {
        window.start + (size - 1)
    };
    if position <= MAX_POSITION {
        return Ok(None);
    }
    if capped == locations.len() {
        return Err(UsageError::WindowTooDeep {
            engine: Engine::Voebb,
            page: page.get(),
            limit: limit.get() as u32,
            position,
            max: MAX_POSITION,
        });
    }
    let mut keys: Vec<String> = Vec::new();
    let mut i: usize = 0;
    while i < locations.len()
        invariant
            i <= locations.len(),
            string_views(keys@) == voebb_keys(location_views(locations@).take(i as int)),
        decreases locations.len() - i,
    {
        proof {
            assert(location_views(locations@).take(i + 1).drop_last() =~= location_views(locations@).take(i as int));
        }
        if matches!(locations[i].engine, Engine::Voebb) {
            let ghost before = keys@;
            let key = locations[i].key.clone();
            keys.push(key);
            proof {
                assert(keys@ == before.push(key));
                assert(string_views(keys@) =~= string_views(before).push(key@));
            }
        }
        i = i + 1;
    }
    proof {
        assert(location_views(locations@).take(i as int) =~= location_views(locations@));
    }
    Ok(Some(TooDeep { keys, position, max: MAX_POSITION }))
}

/// `--sort` as an enum.
fn sort_key(value: &Option<String>) -> (r: Result<SortKey, UsageError>)
    ensures
        match value {
            None => r == Ok::<SortKey, UsageError>(SortKey::Relevance),
            Some(v) => match r {
                Ok(k) => sort_of(v@) == Some(k),
                Err(e) => sort_of(v@) is None && e@ == (UsageErrorView::UnsupportedValue {
                    flag: "--sort"@,
                    got: v@,
                    expected: join_comma(sort_names()),
                }),
            },
        },
{
    match value {
        None => Ok(SortKey::Relevance),
        Some(v) => {
            let s = v.as_str();
            if same_text(s, "relevance") {
                Ok(SortKey::Relevance)
            } else if same_text(s, "year") {
                Ok(SortKey::Year)
            } else if same_text(s, "title") {
                Ok(SortKey::Title)
            } else if same_text(s, "author") {
                Ok(SortKey::Author)
            } else if same_text(s, "availability") {
                Ok(SortKey::Availability)
            } else {
                Err(unreachable_value("--sort", s, sort_values(), Ghost(sort_names())))
            }
        },
    }
}

/// `--format` as an enum.
fn format(value: &str) -> (r: Result<Format, UsageError>)
    ensures
        match r {
            Ok(f) => format_of(value@) == Some(f),
            Err(e) => format_of(value@) is None && e@ == (UsageErrorView::UnsupportedValue {
                flag: "--format"@,
                got: value@,
                expected: join_comma(format_names()),
            }),
        },
{
    if same_text(value, "book") {
        Ok(Format::Book)
    } else if same_text(value, "ebook") {
        Ok(Format::Ebook)
    } else if same_text(value, "journal") {
        Ok(Format::Journal)
    } else if same_text(value, "ejournal") {
        Ok(Format::Ejournal)
    } else if same_text(value, "article") {
        Ok(Format::Article)
    } else if same_text(value, "database") {
        Ok(Format::Database)
    } else if same_text(value, "map") {
        Ok(Format::Maps)
    } else if same_text(value, "score") {
        Ok(Format::Score)
    } else if same_text(value, "audio") {
        Ok(Format::Audio)
    } else if same_text(value, "video") {
        Ok(Format::Video)
    } else if same_text(value, "image") {
        Ok(Format::Image)
    } else if same_text(value, "electronic") {
        Ok(Format::Electronic)
    } else if same_text(value, "manuscript") {
        Ok(Format::Manuscript)
    } else if same_text(value, "object") {
        Ok(Format::Object)
    } else if same_text(value, "mixed") {
        Ok(Format::Mixed)
    } else if same_text(value, "unknown") {
        Ok(Format::Unknown)
    } else {
        Err(unreachable_value("--format", value, format_values(), Ghost(format_names())))
    }
}

/// Normalise `--language` to a lowercase three-letter code.
fn language(value: &str) -> (r: Result<String, UsageError>)
    ensures
        match r {
            Ok(code) => language_problem(value@) is None && code@ == lower_seq(trim_spec(value@)),
            Err(e) => language_problem(value@) == Some(e@),
        },
{
    let trimmed = trim(value);
    let code = to_lower(trimmed.as_str());
    let c = chars_of(code.as_str());
    if c.len() == 0 {
        return Err(UsageError::EmptyValue { flag: owned("--language") });
    }
    let well_formed = c.len() == 3 && 'a' <= c[0] && c[0] <= 'z' && 'a' <= c[1] && c[1] <= 'z'
        && 'a' <= c[2] && c[2] <= 'z';
    if !well_formed {
        proof {
            if well_formed_code(code@) {
                assert('a' <= code@[0] <= 'z' && 'a' <= code@[1] <= 'z' && 'a' <= code@[2] <= 'z');
            }
        }
        return Err(UsageError::LanguageCode { input: owned(value) });
    }
    proof {
        assert(well_formed_code(code@));
    }
    match bibliographic_variant(code.as_str()) {
        Some(b) => Err(UsageError::LanguageCodeVariant { input: trimmed, bibliographic: owned(b) }),
        None => Ok(code),
    }
}

/// The bibliographic code for a terminology one, if that is what was given.
fn bibliographic_variant(code: &str) -> (r: Option<&'static str>)
    ensures
        match r {
            Some(b) => bibliographic_of(code@) == Some(b@),
            None => bibliographic_of(code@) is None,
        },
{
    let table: Vec<(&'static str, &'static str)> = vec![
        ("bod", "tib"), ("ces", "cze"), ("cym", "wel"), ("deu", "ger"), ("ell", "gre"),
        ("eus", "baq"), ("fas", "per"), ("fra", "fre"), ("hye", "arm"), ("isl", "ice"),
        ("kat", "geo"), ("mkd", "mac"), ("mri", "mao"), ("msa", "may"), ("mya", "bur"),
        ("nld", "dut"), ("ron", "rum"), ("slk", "slo"), ("sqi", "alb"), ("zho", "chi"),
    ];
    proof {
        assert(table@.len() == 20);
        assert forall|i: int| 0 <= i < 20 implies (#[trigger] terminology_codes()[i]).0 == table@[i].0@ && terminology_codes()[i].1 == table@[i].1@ by {
        }
    }
    let mut i: usize = 0;
    while i < table.len()
        invariant
            i <= table@.len() == 20,
            forall|k: int| 0 <= k < 20 ==> (#[trigger] terminology_codes()[k]).0 == table@[k].0@ && terminology_codes()[k].1 == table@[k].1@,
            forall|k: int| 0 <= k < i ==> (#[trigger] terminology_codes()[k]).0 != code@,
        decreases table.len() - i,
    {
        if same_text(table[i].0, code) {
            proof {
                assert(terminology_codes()[i as int].0 == code@);
                let k = choose|k: int| 0 <= k < 20 && (#[trigger] terminology_codes()[k]).0 == code@ && forall|j: int| 0 <= j < k ==> (#[trigger] terminology_codes()[j]).0 != code@;
                if k < i {
                    assert(terminology_codes()[k].0 != code@);
                } else if k > i {
                    assert(terminology_codes()[i as int].0 != code@);
                }
            }
            return Some(table[i].1);
        }
        i = i + 1;
    }
    None
}

/// Refuse two flags that cancel each other out.
fn check_flag_conflicts(args: &SearchArgs, sort: SortKey) -> (r: Result<(), UsageError>)
    ensures
        match r {
            Ok(()) => !(args.available && args.no_availability) && !(sort == SortKey::Availability && args.no_availability),
            Err(e) => if args.available && args.no_availability {
                e@ == (UsageErrorView::ConflictingFlags { flag: "--available"@, with: "--no-availability"@ })
            } else {
                sort == SortKey::Availability && args.no_availability && e@ == (UsageErrorView::ConflictingFlags { flag: "--sort availability"@, with: "--no-availability"@ })
            },
        },
{
    if args.available && args.no_availability {
        return Err(UsageError::ConflictingFlags { flag: owned("--available"), with: owned("--no-availability") });
    }
    if matches!(sort, SortKey::Availability) && args.no_availability {
        return Err(UsageError::ConflictingFlags { flag: owned("--sort availability"), with: owned("--no-availability") });
    }
    Ok(())
}

/// The invocation echoed back in one string, for headings.
fn echo(pieces: &Vec<(&'static str, &str)>, query: &QuerySpec) -> (s: String)
    ensures
        s@ == join_comma(if echo_terms(query.terms@).len() > 0 {
            seq![echo_terms(query.terms@)] + field_echoes(piece_views(pieces@))
        } else {
            field_echoes(piece_views(pieces@))
        }),
{
    let free = query.echo();
    let mut parts: Vec<String> = Vec::new();
    let has_free = free.as_str().unicode_len() > 0;
    if has_free {
        parts.push(free);
    }
    let ghost start = string_views(parts@);
    proof {
        if has_free {
            assert(start =~= seq![echo_terms(query.terms@)]);
        } else {
            assert(start =~= Seq::<Seq<char>>::empty());
        }
    }
    let mut i: usize = 0;
    while i < pieces.len()
        invariant
            i <= pieces.len(),
            string_views(parts@) == start + field_echoes(piece_views(pieces@).take(i as int)),
        decreases pieces.len() - i,
    {
        proof {
            assert(piece_views(pieces@).take(i + 1).drop_last() =~= piece_views(pieces@).take(i as int));
        }
        let flag = pieces[i].0;
        let fc = chars_of(flag);
        if fc.len() > 0 {
            let mut e = String::new();
            if fc.len() >= 2 {
                let mut k: usize = 2;
                while k < fc.len()
                    invariant
                        2 <= k <= fc.len(),
                        fc@ == flag@,
                        e@ == flag@.subrange(2, k as int),
                    decreases fc.len() - k,
                {
                    push_char(&mut e, fc[k]);
                    proof {
                        assert(flag@.subrange(2, k as int).push(flag@[k as int]) =~= flag@.subrange(2, k + 1));
                    }
                    k = k + 1;
                }
            }
            proof {
                assert(e@ =~= strip_dashes(flag@));
            }
            push_str(&mut e, ": ");
            push_str(&mut e, pieces[i].1);
            proof {
                assert(e@ =~= field_echo(piece_views(pieces@)[i as int]));
            }
            let ghost before = parts@;
            parts.push(e);
            proof {
                assert(string_views(parts@) =~= string_views(before).push(e@));
            }
        }
        i = i + 1;
    }
    proof {
        assert(piece_views(pieces@).take(i as int) =~= piece_views(pieces@));
        assert(string_views(parts@) =~= (if echo_terms(query.terms@).len() > 0 {
            seq![echo_terms(query.terms@)] + field_echoes(piece_views(pieces@))
        } else {
            field_echoes(piece_views(pieces@))
        }));
    }
    join_with_comma(&parts)
}

/// Whether availability is fetched, from the negative flag.
fn availability(no_availability: bool) -> (m: AvailabilityMode)
    ensures
        m == if no_availability { AvailabilityMode::Skipped } else { AvailabilityMode::Fetched },
{
    if no_availability {
        AvailabilityMode::Skipped
    } else {
        AvailabilityMode::Fetched
    }
}

/// A value the argument parser should already have refused: still an error, never a
/// panic.
fn unreachable_value(flag: &str, got: &str, expected: Vec<&'static str>, names: Ghost<Seq<Seq<char>>>) -> (e: UsageError)
    requires
        views(expected@) == names@,
    ensures
        e@ == (UsageErrorView::UnsupportedValue { flag: flag@, got: got@, expected: join_comma(names@) }),
{
    let mut owned_names: Vec<String> = Vec::new();
    let mut i: usize = 0;
    while i < expected.len()
        invariant
            i <= expected.len(),
            string_views(owned_names@) == views(expected@).take(i as int),
        decreases expected.len() - i,
    {
        let ghost before = owned_names@;
        let o = owned(expected[i]);
        owned_names.push(o);
        proof {
            assert(owned_names@ == before.push(o));
            assert(string_views(before.push(o)) =~= string_views(before).push(o@));
            assert(views(expected@).take(i + 1) =~= views(expected@).take(i as int).push(expected@[i as int]@));
            assert(string_views(owned_names@) =~= views(expected@).take(i + 1));
        }
        i = i + 1;
    }
    proof {
        assert(views(expected@).take(i as int) =~= names@);
    }
    let joined = join_with_comma(&owned_names);
    UsageError::UnsupportedValue { flag: owned(flag), got: owned(got), expected: joined }
}

/// A plain text argument, trimmed; `None` when it was not given.
pub open spec fn text_argument_spec(value: Option<String>, named: Seq<char>) -> Result<Option<Seq<char>>, UsageErrorView> {
    match value {
        None => Ok(None),
        Some(v) => if trim_spec(v@).len() == 0 {
            Err(UsageErrorView::EmptyValue { flag: named })
        } else {
            Ok(Some(trim_spec(v@)))
        },
    }
}

/// A plain text argument, trimmed, refused when it carries no text.
fn text_argument(value: &Option<String>, named: &str) -> (r: Result<Option<String>, UsageError>)
    ensures
        match (r, text_argument_spec(*value, named@)) {
            (Ok(Some(s)), Ok(Some(t))) => s@ == t,
            (Ok(None), Ok(None)) => true,
            (Err(e), Err(v)) => e@ == v,
            _ => false,
        },
{
    match value {
        None => Ok(None),
        Some(v) => {
            let t = trim(v.as_str());
            if t.as_str().unicode_len() == 0 {
                Err(UsageError::EmptyValue { flag: owned(named) })
            } else {
                Ok(Some(t))
            }
        },
    }
}

/// The point `--near` names, as a function of the trimmed text: coordinates, or the
/// position of a library.
pub open spec fn near_spec(t: Seq<char>) -> Result<LatLon, UsageErrorView> {
    if trim_spec(t).len() == 0 {
        Err(UsageErrorView::EmptyValue { flag: "--near"@ })
    } else {
        match point_spec(t) {
            Ok(p) => Ok(p),
            Err(NotAPoint::OutOfRange) => Err(UsageErrorView::NearCoordinatesOutOfRange { input: t }),
            Err(NotAPoint::OnlyOneValue) => Err(UsageErrorView::NearNeedsTwoValues { input: t }),
            Err(NotAPoint::NotCoordinates) => match lookup_coords(table(), t) {
                Some(p) => Ok(p),
                None => {
                    let s = suggestions_spec(table(), t);
                    if s.len() > 0 || t.contains('/') {
                        Err(UsageErrorView::UnknownLibrary { input: t, suggestions: s })
                    } else {
                        Err(UsageErrorView::NearNeedsCoordinates { input: t })
                    }
                },
            },
        }
    }
}

/// The point `--near` names: coordinates, or the position of a library. Only free text
/// that comes close to no library is answered with "blibs geocodes nothing".
fn point(input: &str) -> (r: Result<LatLon, UsageError>)
    ensures
        match (r, near_spec(input@)) {
            (Ok(p), Ok(q)) => p == q,
            (Err(e), Err(v)) => e@ == v,
            _ => false,
        },
{
    if crate::text::is_blank(input) {
        return Err(UsageError::EmptyValue { flag: owned("--near") });
    }
    match LatLon::parse(input) {
        Ok(p) => Ok(p),
        Err(NotAPoint::OutOfRange) => Err(UsageError::NearCoordinatesOutOfRange { input: owned(input) }),
        Err(NotAPoint::OnlyOneValue) => Err(UsageError::NearNeedsTwoValues { input: owned(input) }),
        Err(NotAPoint::NotCoordinates) => locate(input),
    }
}

/// Where a library the user named sits, or why the name was not one.
fn locate(input: &str) -> (r: Result<LatLon, UsageError>)
    ensures
        match r {
            Ok(p) => lookup_coords(table(), input@) == Some(p),
            Err(e) => lookup_coords(table(), input@) is None && ({
                let s = suggestions_spec(table(), input@);
                if s.len() > 0 || input@.contains('/') {
                    e@ == (UsageErrorView::UnknownLibrary { input: input@, suggestions: s })
                } else {
                    e@ == (UsageErrorView::NearNeedsCoordinates { input: input@ })
                }
            }),
        },
{
    match libraries::look_up(input) {
        Ok(entry) => {
            let c = entry.coords();
            match c {
                Some(p) => Ok(p),
                None => Err(UsageError::NearNeedsCoordinates { input: owned(input) }),
            }
        },
        Err(e) => {
            let slash = contains_text(input, "/");
            proof {
                reveal_strlit("/");
                if input@.contains('/') {
                    let k = choose|k: int| 0 <= k < input@.len() && input@[k] == '/';
                    assert(input@.subrange(k, k + 1) =~= "/"@);
                }
                if slash {
                    let k = choose|k: int| 0 <= k <= input@.len() - 1 && #[trigger] input@.subrange(k, k + 1) == "/"@;
                    assert(input@[k] == input@.subrange(k, k + 1)[0]);
                }
            }
            match e {
                UsageError::UnknownLibrary { input: typed, suggestions } => {
                    if suggestions.len() > 0 || slash {
                        Err(UsageError::UnknownLibrary { input: typed, suggestions })
                    } else {
                        Err(UsageError::NearNeedsCoordinates { input: owned(input) })
                    }
                },
                _ => Err(UsageError::NearNeedsCoordinates { input: owned(input) }),
            }
        },
    }
}

/// What a `libraries` invocation is refused for, if anything: an empty text argument, a
/// key beside a listing flag, a `--near` that names no point, a key that names nothing.
pub open spec fn libraries_problem(a: LibrariesArgs) -> Option<UsageErrorView> {
    let key = text_argument_spec(a.key, "a library name"@);
    let find = text_argument_spec(a.find, "--find"@);
    if key is Err {
        Some(key->Err_0)
    } else if find is Err {
        Some(find->Err_0)
    } else if a.key is Some && a.find is Some {
        Some(UsageErrorView::ConflictingFlags { flag: "--find"@, with: "a library name"@ })
    } else if a.key is Some && a.near is Some {
        Some(UsageErrorView::ConflictingFlags { flag: "--near"@, with: "a library name"@ })
    } else if a.key is Some && a.branches {
        Some(UsageErrorView::ConflictingFlags { flag: "--branches"@, with: "a library name"@ })
    } else if a.near is Some && near_spec(trim_spec(a.near->0@)) is Err {
        Some(near_spec(trim_spec(a.near->0@))->Err_0)
    } else if a.key is Some && lookup_coords(table(), trim_spec(a.key->0@)) is None {
        Some(UsageErrorView::UnknownLibrary { input: trim_spec(a.key->0@), suggestions: suggestions_spec(table(), trim_spec(a.key->0@)) })
    } else {
        None
    }
}

/// Validate a `libraries` invocation. A positional key is looked up here, and a miss is
/// a usage error with the list's own suggestions; a key beside a listing flag is refused.
pub fn validate_libraries(args: &LibrariesArgs, json: bool) -> (r: Result<LibrariesPlan, Error>)
    ensures
        match r {
            Err(e) => e matches Error::Usage(u) && libraries_problem(*args) == Some(u@),
            Ok(p) => libraries_problem(*args) is None && p.branches == args.branches && p.json == json
                && p.near_input == args.near && match (p.find, args.find) {
                    (Some(f), Some(g)) => f@ == trim_spec(g@),
                    (None, None) => true,
                    _ => false,
                } && match (p.near, args.near) {
                    (Some(x), Some(n)) => near_spec(trim_spec(n@)) == Ok::<LatLon, UsageErrorView>(x),
                    (None, None) => true,
                    _ => false,
                } && match (p.detail, args.key) {
                    (Some(d), Some(k)) => lookup_coords(table(), trim_spec(k@)) == Some(entry_coords(d)),
                    (None, None) => true,
                    _ => false,
                },
        },
{
    let key = match text_argument(&args.key, "a library name") {
        Ok(k) => k,
        Err(e) => return Err(Error::Usage(e)),
    };
    let find = match text_argument(&args.find, "--find") {
        Ok(f) => f,
        Err(e) => return Err(Error::Usage(e)),
    };
    if key.is_some() {
        if find.is_some() {
            return Err(Error::Usage(UsageError::ConflictingFlags { flag: owned("--find"), with: owned("a library name") }));
        }
        if args.near.is_some() {
            return Err(Error::Usage(UsageError::ConflictingFlags { flag: owned("--near"), with: owned("a library name") }));
        }
        if args.branches {
            return Err(Error::Usage(UsageError::ConflictingFlags { flag: owned("--branches"), with: owned("a library name") }));
        }
    }
    let near = match &args.near {
        Some(n) => {
            let t = trim(n.as_str());
            match point(t.as_str()) {
                Ok(p) => Some(p),
                Err(e) => return Err(Error::Usage(e)),
            }
        },
        None => None,
    };
    let detail = match &key {
        Some(k) => match libraries::look_up(k.as_str()) {
            Ok(entry) => Some(entry),
            Err(e) => return Err(Error::Usage(e)),
        },
        None => None,
    };
    Ok(LibrariesPlan { detail, find, branches: args.branches, near, near_input: args.near.clone(), json })
}

/// The location an entry of `--at` resolves to.
pub open spec fn entry_location(entries: Seq<String>, k: int) -> LocView {
    resolution(table(), trim_spec(entries[k]@))->0
}

/// Whether two locations are the same place: the same key and the same ISIL.
pub open spec fn same_place(a: LocView, b: LocView) -> bool {
    a.key == b.key && a.isil == b.isil
}

/// The locations of `--at` name every place once, in the order the places were first
/// typed, each as it was first typed: no two share key and ISIL; every entry's place is
/// among them; and each is the resolution of an entry that no earlier entry shares its
/// place with, later locations coming from later entries.
#[verifier::rlimit(100)]
#[verifier::spinoff_prover]
pub proof fn law_at_locations_are_unique_and_in_first_order(entries: Seq<String>)
    ensures
        ({
            let ls = at_locations(entries);
            &&& forall|i: int, j: int| 0 <= i < j < ls.len() ==> !same_place(#[trigger] ls[i], #[trigger] ls[j])
            &&& forall|k: int| 0 <= k < entries.len() ==> seen(ls, #[trigger] entry_location(entries, k))
            &&& exists|from: Seq<int>| #[trigger] from.len() == ls.len() && (forall|i: int| 0 <= i < ls.len() ==> {
                &&& 0 <= from[i] < entries.len()
                &&& ls[i] == entry_location(entries, from[i])
                &&& forall|m: int| 0 <= m < from[i] ==> !same_place(#[trigger] entry_location(entries, m), ls[i])
            }) && (forall|i: int, j: int| 0 <= i < j < ls.len() ==> from[i] < from[j])
        }),
    decreases entries.len(),
{
    let ls = at_locations(entries);
    if entries.len() == 0 {
        let from = Seq::<int>::empty();
        assert(from.len() == ls.len());
    } else {
        let e0 = entries.drop_last();
        law_at_locations_are_unique_and_in_first_order(e0);
        let before = at_locations(e0);
        let from0 = choose|from: Seq<int>| #[trigger] from.len() == before.len() && (forall|i: int| 0 <= i < before.len() ==> {
            &&& 0 <= from[i] < e0.len()
            &&& before[i] == entry_location(e0, from[i])
            &&& forall|m: int| 0 <= m < from[i] ==> !same_place(#[trigger] entry_location(e0, m), before[i])
        }) && (forall|i: int, j: int| 0 <= i < j < before.len() ==> from[i] < from[j]);
        let n = entries.len() - 1;
        assert forall|k: int| 0 <= k < e0.len() implies entry_location(e0, k) == entry_location(entries, k) by {
            assert(e0[k] == entries[k]);
        }
        let l = entry_location(entries, n);
        assert(entries.last() == entries[n]);
        if seen(before, l) {
            assert(ls == before);
            assert forall|k: int| 0 <= k < entries.len() implies seen(ls, #[trigger] entry_location(entries, k)) by {
                if k < n {
                    assert(seen(before, entry_location(e0, k)));
                }
            }
            assert(from0.len() == ls.len());
        } else {
            assert(ls == before.push(l));
            assert forall|i: int, j: int| 0 <= i < j < ls.len() implies !same_place(#[trigger] ls[i], #[trigger] ls[j]) by {
                if j < before.len() {
                    assert(ls[i] == before[i] && ls[j] == before[j]);
                } else {
                    assert(ls[i] == before[i]);
                    assert(ls[j] == l);
                    if same_place(ls[i], ls[j]) {
                        assert(seen(before, l));
                    }
                }
            }
            assert forall|k: int| 0 <= k < entries.len() implies seen(ls, #[trigger] entry_location(entries, k)) by {
                if k < n {
                    assert(seen(before, entry_location(e0, k)));
                    let w = choose|w: int| 0 <= w < before.len() && before[w].key == entry_location(e0, k).key && before[w].isil == entry_location(e0, k).isil;
                    assert(ls[w] == before[w]);
                } else {
                    assert(ls[before.len() as int] == l);
                }
            }
            let from = from0.push(n);
            assert forall|i: int| 0 <= i < ls.len() implies {
                &&& 0 <= from[i] < entries.len()
                &&& ls[i] == entry_location(entries, from[i])
                &&& forall|m: int| 0 <= m < from[i] ==> !same_place(#[trigger] entry_location(entries, m), ls[i])
            } by {
                if i < before.len() {
                    assert(from[i] == from0[i]);
                    assert(ls[i] == before[i]);
                    assert forall|m: int| 0 <= m < from[i] implies !same_place(#[trigger] entry_location(entries, m), ls[i]) by {
                        assert(entry_location(e0, m) == entry_location(entries, m));
                    }
                } else {
                    assert(from[i] == n);
                    assert forall|m: int| 0 <= m < from[i] implies !same_place(#[trigger] entry_location(entries, m), ls[i]) by {
                        assert(seen(before, entry_location(e0, m)));
                        let w = choose|w: int| 0 <= w < before.len() && before[w].key == entry_location(e0, m).key && before[w].isil == entry_location(e0, m).isil;
                        if same_place(entry_location(entries, m), ls[i]) {
                            assert(before[w].key == l.key && before[w].isil == l.isil);
                            assert(seen(before, l));
                        }
                    }
                }
            }
            assert forall|i: int, j: int| 0 <= i < j < ls.len() implies from[i] < from[j] by {
                if j < before.len() {
                    assert(from[i] == from0[i] && from[j] == from0[j]);
                } else {
                    assert(from[i] == from0[i]);
                    assert(from[j] == n);
                    assert(before[i] == entry_location(e0, from0[i]));
                    assert(0 <= from0[i] < e0.len());
                }
            }
            assert(from.len() == ls.len());
        }
    }
}

/// The locations of one engine and those of the other are, between them, all of them.
proof fn lemma_of_engine_splits(locs: Seq<LocView>, e: Engine)
    ensures
        of_engine(locs, Engine::Kobv).len() + of_engine(locs, Engine::Voebb).len() == locs.len(),
        forall|i: int| 0 <= i < of_engine(locs, e).len() ==> (#[trigger] of_engine(locs, e)[i]).engine == e,
    decreases locs.len(),
{
    if locs.len() > 0 {
        lemma_of_engine_splits(locs.drop_last(), e);
        let before = of_engine(locs.drop_last(), e);
        assert forall|i: int| 0 <= i < of_engine(locs, e).len() implies (#[trigger] of_engine(locs, e)[i]).engine == e by {
            if i < before.len() {
                if locs.last().engine == e {
                    assert(of_engine(locs, e)[i] == before[i]);
                }
            }
        }
    }
}

/// The grouping of locations by engine: no locations at all is one unfiltered KOBV
/// search; otherwise the groups come in engine order, one per engine that has a
/// location, none of them empty, each holding exactly its engine's locations in the order
/// given, and all of them together as many as there are locations.
pub proof fn law_engine_groups_partition_the_locations(locs: Seq<LocView>)
    ensures
        locs.len() == 0 ==> engine_groups(locs) == seq![(Engine::Kobv, Seq::<LocView>::empty())],
        locs.len() > 0 ==> {
            let g = engine_groups(locs);
            &&& forall|k: int| 0 <= k < g.len() ==> (#[trigger] g[k]).1.len() > 0 && g[k].1 == of_engine(locs, g[k].0)
            &&& forall|k: int, i: int| 0 <= k < g.len() && 0 <= i < g[k].1.len() ==> (#[trigger] g[k].1[i]).engine == g[k].0
            &&& forall|a: int, b: int| 0 <= a < b < g.len() ==> g[a].0 == Engine::Kobv && g[b].0 == Engine::Voebb
            &&& g.len() <= 2
            &&& (if g.len() == 1 { g[0].1.len() } else { g[0].1.len() + g[1].1.len() }) == locs.len()
        },
{
    lemma_of_engine_splits(locs, Engine::Kobv);
    lemma_of_engine_splits(locs, Engine::Voebb);
}

/// `--sort` takes exactly the names of the orders, and each name stands for its own
/// order: the name of the key a value gives is that value, and every key's name gives it
/// back.
pub proof fn law_a_sort_name_gives_the_order_of_that_name(v: Seq<char>, k: SortKey)
    ensures
        sort_of(v) matches Some(j) ==> j.name_spec() == v,
        sort_of(k.name_spec()) == Some(k),
{
    reveal_strlit("relevance");
    reveal_strlit("year");
    reveal_strlit("title");
    reveal_strlit("author");
    reveal_strlit("availability");
    let names = seq!["relevance"@, "year"@, "title"@, "author"@, "availability"@];
    assert forall|i: int, j: int| 0 <= i < j < 5 implies #[trigger] names[i] != #[trigger] names[j] by {
        assert(names[i].len() != names[j].len() || names[i][0] != names[j][0] || names[i][1] != names[j][1]);
    }
    assert(names[0] == "relevance"@ && names[1] == "year"@ && names[2] == "title"@);
    assert(names[3] == "author"@ && names[4] == "availability"@);
}

} // verus!
