//! Building the Z39.50 prefix query.
//!
//! Two rules keep this safe. User input is never written raw into a query: every term
//! is quoted, and a `"` inside a term is removed before quoting. And user input is never
//! quoted on the user's behalf: a phrase is a phrase because the shell delivered it as
//! one argument.
use vstd::prelude::*;
use crate::error::UsageError;
use crate::model::{Identifier, Isil, QuerySpec, RecordId, Term};
use crate::text::{
    cat, char_count, decimal, decimal_spec, flatten, is_blank, remove_char, trim_spec, views,
    without,
};

verus! {

/// Bib-1 use attribute for the default "any" index.
pub const ATTR_ANY: u16 = 1016;
/// Bib-1 use attribute for title.
pub const ATTR_TITLE: u16 = 4;
/// Bib-1 use attribute for author.
pub const ATTR_AUTHOR: u16 = 1;
/// Bib-1 attribute type 4 (structure).
pub const ATTR_TYPE_STRUCTURE: u16 = 4;
/// Bib-1 structure attribute for a word list, which `--author` always uses.
pub const ATTR_STRUCTURE_WORDLIST: u16 = 6;
/// Bib-1 use attribute for subject.
pub const ATTR_SUBJECT: u16 = 21;
/// Bib-1 use attribute for publisher.
pub const ATTR_PUBLISHER: u16 = 59;
/// Bib-1 use attribute for date of publication.
pub const ATTR_YEAR: u16 = 31;
/// Bib-1 use attribute for ISBN.
pub const ATTR_ISBN: u16 = 7;
/// Bib-1 use attribute for ISSN.
pub const ATTR_ISSN: u16 = 8;
/// Bib-1 use attribute for a record identifier.
pub const ATTR_RECORD_ID: u16 = 12;
/// Bib-1 use attribute for ISIL, the holdings filter. Case-sensitive upstream.
pub const ATTR_ISIL: u16 = 1044;

/// The largest query the service accepts before refusing it for its length.
pub const MAX_QUERY_CHARS: usize = 1000;

/// An assembled prefix query. Constructed only in this module, so there is exactly one
/// place where user input reaches the wire.
#[derive(Debug, Clone, PartialEq, Eq)]
pub struct Pqf(String);

/// A term for the wire: its `"` removed, then quoted.
pub open spec fn quote_spec(t: Seq<char>) -> Seq<char> {
    seq!['"'] + without(t, '"') + seq!['"']
}

/// `@attr 1=<attr> <value>`, the shape every clause has.
pub open spec fn use_attr_spec(attr: nat, value: Seq<char>) -> Seq<char> {
    "@attr 1="@ + decimal_spec(attr) + seq![' '] + value
}

/// Whether a value is empty once its `"` are gone; such a value adds no clause.
pub open spec fn blank_value(t: Seq<char>) -> bool {
    trim_spec(without(t, '"')).len() == 0
}

/// The clause of one quoted value, or none for a blank one.
pub open spec fn quoted_clause(attr: nat, t: Seq<char>) -> Seq<Seq<char>> {
    if blank_value(t) {
        Seq::empty()
    } else {
        seq![use_attr_spec(attr, quote_spec(t))]
    }
}

/// The author clause: always a word list, never a phrase.
pub open spec fn author_clause_spec(a: Seq<char>) -> Seq<char> {
    "@attr 1=1 @attr 4=6 "@ + quote_spec(a)
}

/// One clause per free term, in order.
pub open spec fn term_clauses(terms: Seq<Term>) -> Seq<Seq<char>>
    decreases terms.len(),
{
    if terms.len() == 0 {
        Seq::empty()
    } else {
        term_clauses(terms.drop_last()) + quoted_clause(ATTR_ANY as nat, terms.last().text_spec())
    }
}

/// The clause of an optional field term.
pub open spec fn field_clause(attr: nat, t: Option<Term>) -> Seq<Seq<char>> {
    match t {
        Some(term) => quoted_clause(attr, term.text_spec()),
        None => Seq::empty(),
    }
}

/// Every clause the query spec contributes, in the fixed order: free terms, title,
/// author, subject, publisher, year, identifier.
pub open spec fn spec_clauses(q: QuerySpec) -> Seq<Seq<char>> {
    term_clauses(q.terms@) + field_clause(ATTR_TITLE as nat, q.title) + (match q.author {
        Some(a) => if blank_value(a@) {
            Seq::empty()
        } else {
            seq![author_clause_spec(a@)]
        },
        None => Seq::empty(),
    }) + field_clause(ATTR_SUBJECT as nat, q.subject) + field_clause(
        ATTR_PUBLISHER as nat,
        q.publisher,
    ) + (match q.year {
        Some(y) => seq![use_attr_spec(ATTR_YEAR as nat, decimal_spec(y as nat))],
        None => Seq::empty(),
    }) + (match q.identifier {
        Some(Identifier::Isbn(v)) => quoted_clause(ATTR_ISBN as nat, v@),
        Some(Identifier::Issn(v)) => quoted_clause(ATTR_ISSN as nat, v@),
        None => Seq::empty(),
    })
}

/// Left-nested prefix combination: `[a, b, c]` becomes `@op @op a b c`.
pub open spec fn join_spec(clauses: Seq<Seq<char>>, op: Seq<char>) -> Seq<char>
    decreases clauses.len(),
{
    if clauses.len() <= 1 {
        if clauses.len() == 1 {
            clauses[0]
        } else {
            Seq::empty()
        }
    } else {
        op + seq![' '] + join_spec(clauses.drop_last(), op) + seq![' '] + clauses.last()
    }
}

/// One `@attr 1=1044` clause per ISIL.
pub open spec fn isil_clauses(isils: Seq<Isil>) -> Seq<Seq<char>> {
    isils.map_values(|i: Isil| use_attr_spec(ATTR_ISIL as nat, i.0@))
}

/// Every clause of a search: the spec's, then the holdings filter `@or`-ed into one.
pub open spec fn search_clauses(q: QuerySpec, isils: Seq<Isil>) -> Seq<Seq<char>> {
    spec_clauses(q) + if isils.len() == 0 {
        Seq::empty()
    } else {
        seq![join_spec(isil_clauses(isils), "@or"@)]
    }
}

/// The query text a search sends, when it has any clause.
pub open spec fn search_text(q: QuerySpec, isils: Seq<Isil>) -> Seq<char> {
    join_spec(search_clauses(q, isils), "@and"@)
}

impl Pqf {
    /// The query text.
    pub closed spec fn view_text(&self) -> Seq<char> {
        self.0@
    }

    /// The query string for the `x-pquery` parameter.
    pub fn as_str(&self) -> (s: &str)
        ensures
            s@ == self.view_text(),
    {
        self.0.as_str()
    }

    /// Length in characters, which is what the upstream limit is measured in.
    pub fn char_len(&self) -> (n: usize)
        ensures
            n == self.view_text().len(),
    {
        char_count(self.0.as_str())
    }
}

/// Build the search query.
///
/// Every field of the spec that is set contributes one clause, in a fixed order, joined
/// left-nested with `@and`. The locations become one left-nested `@or` over
/// `@attr 1=1044` clauses, `@and`-ed onto the right of everything else. An empty
/// location list adds no clause. With no clause at all the query is empty and refused;
/// a query of 1000 characters or more is refused for its length.
pub fn search(spec: &QuerySpec, locations: &[Isil]) -> (r: Result<Pqf, UsageError>)
    ensures
        ({
            let clauses = search_clauses(*spec, locations@);
            let text = search_text(*spec, locations@);
            match r {
                Ok(p) => clauses.len() > 0 && text.len() < MAX_QUERY_CHARS && p.view_text() == text,
                Err(e) => (clauses.len() == 0 && e == UsageError::EmptyQuery) || (clauses.len() > 0
                    && text.len() >= MAX_QUERY_CHARS && e == UsageError::QueryTooLong {
                    chars: text.len() as usize,
                }),
            }
        }),
{
    let mut clauses = spec_clause_list(spec);
    if locations.len() > 0 {
        let filter = isil_filter(locations);
        clauses.push(filter);
    }
    proof {
        assert(string_views(clauses@) =~= search_clauses(*spec, locations@));
    }
    if clauses.len() == 0 {
        return Err(UsageError::EmptyQuery);
    }
    let query = join(&clauses, "@and");
    let chars = char_count(query.as_str());
    if chars >= MAX_QUERY_CHARS {
        return Err(UsageError::QueryTooLong { chars });
    }
    Ok(Pqf(query))
}

/// Look one record up by its id, quoted like any user term.
pub fn record_lookup(id: &RecordId) -> (p: Pqf)
    ensures
        p.view_text() == use_attr_spec(ATTR_RECORD_ID as nat, quote_spec(id.id_spec())),
{
    let quoted = quote(id.as_str());
    Pqf(use_attr(ATTR_RECORD_ID, quoted.as_str()))
}

/// The views of a list of strings.
pub open spec fn string_views(v: Seq<String>) -> Seq<Seq<char>> {
    v.map_values(|s: String| s@)
}

/// Adds the clause of a quoted value unless the value is blank.
fn push_quoted(clauses: &mut Vec<String>, attr: u16, value: &str)
    ensures
        string_views(final(clauses)@) == string_views(old(clauses)@) + quoted_clause(
            attr as nat,
            value@,
        ),
{
    let stripped = remove_char(value, '"');
    if is_blank(stripped.as_str()) {
        proof {
            assert(string_views(clauses@) + Seq::<Seq<char>>::empty() =~= string_views(clauses@));
        }
        return;
    }
    let quoted = quote(value);
    let clause = use_attr(attr, quoted.as_str());
    let ghost before = clauses@;
    clauses.push(clause);
    proof {
        assert(string_views(clauses@) =~= string_views(before) + seq![clause@]);
    }
}

/// Adds the clause of an optional field term.
fn push_field(clauses: &mut Vec<String>, attr: u16, term: &Option<Term>)
    ensures
        string_views(final(clauses)@) == string_views(old(clauses)@) + field_clause(
            attr as nat,
            *term,
        ),
{
    match term {
        Some(t) => push_quoted(clauses, attr, t.text()),
        None => {
            proof {
                assert(string_views(clauses@) + Seq::<Seq<char>>::empty() =~= string_views(clauses@));
            }
        },
    }
}

/// One clause per field of the spec, in the order they are `@and`-ed.
fn spec_clause_list(spec: &QuerySpec) -> (v: Vec<String>)
    ensures
        string_views(v@) == spec_clauses(*spec),
{
    let mut clauses: Vec<String> = Vec::new();
    let mut i: usize = 0;
    while i < spec.terms.len()
        invariant
            i <= spec.terms.len(),
            string_views(clauses@) == term_clauses(spec.terms@.take(i as int)),
        decreases spec.terms.len() - i,
    {
        proof {
            assert(spec.terms@.take(i + 1).drop_last() =~= spec.terms@.take(i as int));
        }
        push_quoted(&mut clauses, ATTR_ANY, spec.terms[i].text());
        i = i + 1;
    }
    proof {
        assert(spec.terms@.take(i as int) =~= spec.terms@);
    }
    let ghost after_terms = string_views(clauses@);
    push_field(&mut clauses, ATTR_TITLE, &spec.title);
    let ghost after_title = string_views(clauses@);
    match &spec.author {
        Some(a) => {
            let stripped = remove_char(a.as_str(), '"');
            if !is_blank(stripped.as_str()) {
                let quoted = quote(a.as_str());
                let parts = vec!["@attr 1=1 @attr 4=6 ", quoted.as_str()];
                proof {
                    assert(views(parts@) =~= seq!["@attr 1=1 @attr 4=6 "@, quoted@]);
                    reveal_with_fuel(flatten, 3);
                }
                let clause = cat(parts);
                clauses.push(clause);
            }
        },
        None => {},
    }
    let ghost after_author = string_views(clauses@);
    proof {
        let author_part = match &spec.author {
            Some(a) => if blank_value(a@) {
                Seq::<Seq<char>>::empty()
            } else {
                seq![author_clause_spec(a@)]
            },
            None => Seq::<Seq<char>>::empty(),
        };
        assert(after_author =~= after_title + author_part);
    }
    push_field(&mut clauses, ATTR_SUBJECT, &spec.subject);
    push_field(&mut clauses, ATTR_PUBLISHER, &spec.publisher);
    let ghost after_publisher = string_views(clauses@);
    match spec.year {
        Some(y) => {
            let digits = decimal(y as u64);
            let clause = use_attr(ATTR_YEAR, digits.as_str());
            clauses.push(clause);
        },
        None => {},
    }
    let ghost after_year = string_views(clauses@);
    proof {
        let year_part = match spec.year {
            Some(y) => seq![use_attr_spec(ATTR_YEAR as nat, decimal_spec(y as nat))],
            None => Seq::<Seq<char>>::empty(),
        };
        assert(after_year =~= after_publisher + year_part);
    }
    match &spec.identifier {
        Some(Identifier::Isbn(v)) => push_quoted(&mut clauses, ATTR_ISBN, v.as_str()),
        Some(Identifier::Issn(v)) => push_quoted(&mut clauses, ATTR_ISSN, v.as_str()),
        None => {},
    }
    proof {
        let id_part = match &spec.identifier {
            Some(Identifier::Isbn(v)) => quoted_clause(ATTR_ISBN as nat, v@),
            Some(Identifier::Issn(v)) => quoted_clause(ATTR_ISSN as nat, v@),
            None => Seq::<Seq<char>>::empty(),
        };
        assert(string_views(clauses@) =~= after_year + id_part);
        assert(string_views(clauses@) =~= spec_clauses(*spec));
    }
    clauses
}

/// The holdings filter: one `@attr 1=1044` per location, `@or`-ed together.
fn isil_filter(locations: &[Isil]) -> (s: String)
    requires
        locations@.len() > 0,
    ensures
        s@ == join_spec(isil_clauses(locations@), "@or"@),
{
    let mut clauses: Vec<String> = Vec::new();
    let mut i: usize = 0;
    while i < locations.len()
        invariant
            i <= locations@.len(),
            string_views(clauses@) == isil_clauses(locations@.take(i as int)),
        decreases locations@.len() - i,
    {
        let clause = use_attr(ATTR_ISIL, locations[i].as_str());
        clauses.push(clause);
        proof {
            assert(isil_clauses(locations@.take(i + 1)) =~= isil_clauses(locations@.take(i as int)).push(clause@));
        }
        i = i + 1;
    }
    proof {
        assert(locations@.take(i as int) =~= locations@);
    }
    join(&clauses, "@or")
}

/// `@attr 1=<attr> <value>`.
fn use_attr(attr: u16, value: &str) -> (s: String)
    ensures
        s@ == use_attr_spec(attr as nat, value@),
{
    let digits = decimal(attr as u64);
    let parts = vec!["@attr 1=", digits.as_str(), " ", value];
    proof {
        assert(views(parts@) =~= seq!["@attr 1="@, digits@, " "@, value@]);
        reveal_strlit(" ");
        assert(" "@ =~= seq![' ']);
        reveal_with_fuel(flatten, 5);
    }
    cat(parts)
}

/// Quote a term for the wire: its `"` removed, the rest inside `"…"`.
fn quote(term: &str) -> (s: String)
    ensures
        s@ == quote_spec(term@),
{
    let stripped = remove_char(term, '"');
    let parts = vec!["\"", stripped.as_str(), "\""];
    proof {
        assert(views(parts@) =~= seq!["\""@, stripped@, "\""@]);
        reveal_strlit("\"");
        assert("\""@ =~= seq!['"']);
        reveal_with_fuel(flatten, 4);
    }
    cat(parts)
}

/// Left-nested prefix combination: `[a, b, c]` becomes `@op @op a b c`.
fn join(clauses: &Vec<String>, op: &str) -> (s: String)
    requires
        clauses.len() > 0,
    ensures
        s@ == join_spec(string_views(clauses@), op@),
{
    let mut query = clauses[0].clone();
    let mut i: usize = 1;
    proof {
        assert(string_views(clauses@.take(1)) =~= seq![clauses@[0]@]);
    }
    while i < clauses.len()
        invariant
            1 <= i <= clauses.len(),
            query@ == join_spec(string_views(clauses@.take(i as int)), op@),
        decreases clauses.len() - i,
    {
        let parts = vec![op, " ", query.as_str(), " ", clauses[i].as_str()];
        proof {
            assert(views(parts@) =~= seq![op@, " "@, query@, " "@, clauses@[i as int]@]);
            reveal_strlit(" ");
            assert(" "@ =~= seq![' ']);
            reveal_with_fuel(flatten, 6);
            assert(string_views(clauses@.take(i + 1)).drop_last() =~= string_views(clauses@.take(i as int)));
        }
        let next = cat(parts);
        query = next;
        i = i + 1;
    }
    proof {
        assert(clauses@.take(i as int) =~= clauses@);
    }
    query
}

/// No term, once quoted, carries a `"` anywhere but at its two ends.
pub proof fn quoted_term_has_no_inner_quote(t: Seq<char>)
    ensures
        forall|i: int| 0 < i < quote_spec(t).len() - 1 ==> quote_spec(t)[i] != '"',
        quote_spec(t)[0] == '"',
        quote_spec(t).last() == '"',
{
    lemma_without_has_none(t, '"');
    let q = quote_spec(t);
    assert forall|i: int| 0 < i < q.len() - 1 implies q[i] != '"' by {
        assert(q[i] == without(t, '"')[i - 1]);
    }
}

proof fn lemma_without_has_none(t: Seq<char>, c: char)
    ensures
        forall|i: int| 0 <= i < without(t, c).len() ==> without(t, c)[i] != c,
    decreases t.len(),
{
    if t.len() > 0 {
        lemma_without_has_none(t.drop_last(), c);
        let w = without(t.drop_last(), c);
        if t.last() != c {
            assert forall|i: int| 0 <= i < w.push(t.last()).len() implies w.push(t.last())[i] != c by {
                if i < w.len() {
                    assert(w.push(t.last())[i] == w[i]);
                }
            }
        }
    }
}

/// Whether a query asks nothing but the one field `which` names (0 title, 1 author,
/// 2 subject, 3 publisher): no free term, no year, no identifier, no other field.
pub open spec fn only_field(q: QuerySpec, which: int) -> bool {
    &&& q.terms@.len() == 0
    &&& q.year is None
    &&& q.identifier is None
    &&& (q.title is Some <==> which == 0)
    &&& (q.author is Some <==> which == 1)
    &&& (q.subject is Some <==> which == 2)
    &&& (q.publisher is Some <==> which == 3)
}

/// A search that asks one field is sent as that field's clause alone, under the field's
/// own Bib-1 use attribute: a title under 4, an author under 1 as a word list, a subject
/// under 21 and a publisher under 59, the value quoted.
pub proof fn law_each_field_is_sent_under_its_own_use_attribute(q: QuerySpec)
    ensures
        only_field(q, 0) && !blank_value(q.title->0.text_spec()) ==> search_text(q, Seq::empty()) == "@attr 1=4 "@ + quote_spec(
            q.title->0.text_spec(),
        ),
        only_field(q, 1) && !blank_value(q.author->0@) ==> search_text(q, Seq::empty()) == "@attr 1=1 @attr 4=6 "@ + quote_spec(
            q.author->0@,
        ),
        only_field(q, 2) && !blank_value(q.subject->0.text_spec()) ==> search_text(q, Seq::empty()) == "@attr 1=21 "@
            + quote_spec(q.subject->0.text_spec()),
        only_field(q, 3) && !blank_value(q.publisher->0.text_spec()) ==> search_text(q, Seq::empty()) == "@attr 1=59 "@
            + quote_spec(q.publisher->0.text_spec()),
{
    reveal_strlit("@attr 1=");
    reveal_strlit("@attr 1=4 ");
    reveal_strlit("@attr 1=21 ");
    reveal_strlit("@attr 1=59 ");
    assert(decimal_spec(4) =~= seq!['4']);
    assert(decimal_spec(2) =~= seq!['2']);
    assert(decimal_spec(1) =~= seq!['1']);
    assert(decimal_spec(5) =~= seq!['5']);
    assert(decimal_spec(9) =~= seq!['9']);
    assert(decimal_spec(21) =~= seq!['2', '1']);
    assert(decimal_spec(59) =~= seq!['5', '9']);
    if q.terms@.len() == 0 {
        assert(term_clauses(q.terms@) =~= Seq::<Seq<char>>::empty());
    }
    if only_field(q, 0) && !blank_value(q.title->0.text_spec()) {
        let c = use_attr_spec(ATTR_TITLE as nat, quote_spec(q.title->0.text_spec()));
        assert(search_clauses(q, Seq::empty()) =~= seq![c]);
        assert(c =~= "@attr 1=4 "@ + quote_spec(q.title->0.text_spec()));
    }
    if only_field(q, 1) && !blank_value(q.author->0@) {
        assert(search_clauses(q, Seq::empty()) =~= seq![author_clause_spec(q.author->0@)]);
    }
    if only_field(q, 2) && !blank_value(q.subject->0.text_spec()) {
        let c = use_attr_spec(ATTR_SUBJECT as nat, quote_spec(q.subject->0.text_spec()));
        assert(search_clauses(q, Seq::empty()) =~= seq![c]);
        assert(c =~= "@attr 1=21 "@ + quote_spec(q.subject->0.text_spec()));
    }
    if only_field(q, 3) && !blank_value(q.publisher->0.text_spec()) {
        let c = use_attr_spec(ATTR_PUBLISHER as nat, quote_spec(q.publisher->0.text_spec()));
        assert(search_clauses(q, Seq::empty()) =~= seq![c]);
        assert(c =~= "@attr 1=59 "@ + quote_spec(q.publisher->0.text_spec()));
    }
}

/// Whether a query has no field flag set: no title, author, subject or publisher.
pub open spec fn no_field_flag(q: QuerySpec) -> bool {
    q.title is None && q.author is None && q.subject is None && q.publisher is None
}

/// A search of one free term is that term's clause under the any-index 1016; a search of
/// a year alone is the year under 31, unquoted; a search of an ISBN alone is the number
/// under 7, and of an ISSN alone under 8.
pub proof fn law_terms_years_and_numbers_are_sent_under_their_own_use_attributes(q: QuerySpec)
    ensures
        no_field_flag(q) && q.year is None && q.identifier is None && q.terms@.len() == 1 && !blank_value(q.terms@[0].text_spec())
            ==> search_text(q, Seq::empty()) == "@attr 1=1016 "@ + quote_spec(q.terms@[0].text_spec()),
        no_field_flag(q) && q.terms@.len() == 0 && q.identifier is None && q.year is Some ==> search_text(q, Seq::empty())
            == "@attr 1=31 "@ + decimal_spec(q.year->0 as nat),
        no_field_flag(q) && q.terms@.len() == 0 && q.year is None && (q.identifier matches Some(Identifier::Isbn(v)) && !blank_value(
            v@,
        )) ==> search_text(q, Seq::empty()) == "@attr 1=7 "@ + quote_spec(q.identifier->0->Isbn_0@),
        no_field_flag(q) && q.terms@.len() == 0 && q.year is None && (q.identifier matches Some(Identifier::Issn(v)) && !blank_value(
            v@,
        )) ==> search_text(q, Seq::empty()) == "@attr 1=8 "@ + quote_spec(q.identifier->0->Issn_0@),
{
    reveal_strlit("@attr 1=");
    reveal_strlit("@attr 1=1016 ");
    reveal_strlit("@attr 1=31 ");
    reveal_strlit("@attr 1=7 ");
    reveal_strlit("@attr 1=8 ");
    assert(decimal_spec(1) =~= seq!['1']);
    assert(decimal_spec(10) =~= seq!['1', '0']);
    assert(decimal_spec(101) =~= seq!['1', '0', '1']);
    assert(decimal_spec(1016) =~= seq!['1', '0', '1', '6']);
    assert(decimal_spec(3) =~= seq!['3']);
    assert(decimal_spec(31) =~= seq!['3', '1']);
    assert(decimal_spec(7) =~= seq!['7']);
    assert(decimal_spec(8) =~= seq!['8']);
    if no_field_flag(q) && q.year is None && q.identifier is None && q.terms@.len() == 1 && !blank_value(q.terms@[0].text_spec()) {
        let c = use_attr_spec(ATTR_ANY as nat, quote_spec(q.terms@[0].text_spec()));
        assert(q.terms@.drop_last() =~= Seq::<Term>::empty());
        assert(term_clauses(q.terms@.drop_last()) =~= Seq::<Seq<char>>::empty());
        assert(term_clauses(q.terms@) =~= seq![c]);
        assert(search_clauses(q, Seq::empty()) =~= seq![c]);
        assert(c =~= "@attr 1=1016 "@ + quote_spec(q.terms@[0].text_spec()));
    }
    if no_field_flag(q) && q.terms@.len() == 0 && q.identifier is None && q.year is Some {
        let c = use_attr_spec(ATTR_YEAR as nat, decimal_spec(q.year->0 as nat));
        assert(term_clauses(q.terms@) =~= Seq::<Seq<char>>::empty());
        assert(search_clauses(q, Seq::empty()) =~= seq![c]);
        assert(c =~= "@attr 1=31 "@ + decimal_spec(q.year->0 as nat));
    }
    if no_field_flag(q) && q.terms@.len() == 0 && q.year is None && (q.identifier matches Some(Identifier::Isbn(v)) && !blank_value(v@)) {
        let c = use_attr_spec(ATTR_ISBN as nat, quote_spec(q.identifier->0->Isbn_0@));
        assert(term_clauses(q.terms@) =~= Seq::<Seq<char>>::empty());
        assert(search_clauses(q, Seq::empty()) =~= seq![c]);
        assert(c =~= "@attr 1=7 "@ + quote_spec(q.identifier->0->Isbn_0@));
    }
    if no_field_flag(q) && q.terms@.len() == 0 && q.year is None && (q.identifier matches Some(Identifier::Issn(v)) && !blank_value(v@)) {
        let c = use_attr_spec(ATTR_ISSN as nat, quote_spec(q.identifier->0->Issn_0@));
        assert(term_clauses(q.terms@) =~= Seq::<Seq<char>>::empty());
        assert(search_clauses(q, Seq::empty()) =~= seq![c]);
        assert(c =~= "@attr 1=8 "@ + quote_spec(q.identifier->0->Issn_0@));
    }
}

} // verus!
