//! MARC to [`Record`].
//!
//! One function per output field. The `924` rules are the ones with teeth: `$b` is the
//! ISIL and `$a` the library's own record number, an ISIL may occur several times and is
//! deduplicated when the availability key is built, and a record with no `924` at all
//! yields an empty holdings list that means "not stated in this record", never "held
//! nowhere". `852` is deliberately not used.
//!
//! Only the record's identity can fail. Everything else degrades, because a record whose
//! `264` is malformed still answers "is this book in one of my libraries".
use vstd::prelude::*;
use crate::error::{join_comma, join_with_comma, Error, UnexpectedError, UnexpectedView};
use crate::libraries::{digits_value, first_index};
use crate::model::{
    author_views, holding_views, is_record_id, opt_view, text_views, unprefixed_id, url_views, Author, AuthorKind, AuthorView, AvailabilityId, Format,
    Holding, HoldingView, Isil, Record, RecordId, RecordView, ResourceUrl, Status, UrlKind,
    UrlView,
};
use crate::text::{
    chars_of, contains_seq, contains_text, is_digit, is_prefix, is_space, lower_seq, owned,
    push_char, push_str, same_text, starts_with, string_of, to_lower, trim, trim_spec,
    value_of_digit,
};
use super::coded::{
    is_language_code, language_code, offset_for, plausible_year, Coded008, EARLIEST_YEAR,
    LATEST_YEAR,
};
use super::marc::{
    all_controls, all_subs, field_views, fields_tagged, first_control, first_sub,
    first_with_spec, Field, FieldView, MarcRecord, MarcView,
};

verus! {

/// A text without the trailing characters that are in `marks`.
pub open spec fn trim_marks(s: Seq<char>, marks: Seq<char>) -> Seq<char>
    decreases s.len(),
{
    if s.len() > 0 && marks.contains(s.last()) {
        trim_marks(s.drop_last(), marks)
    } else {
        s
    }
}

/// `None` for an empty text.
pub open spec fn non_empty_spec(s: Seq<char>) -> Option<Seq<char>> {
    if s.len() == 0 {
        None
    } else {
        Some(s)
    }
}

/// `None` for an absent or empty text.
pub open spec fn present(o: Option<Seq<char>>) -> Option<Seq<char>> {
    match o {
        Some(s) => non_empty_spec(s),
        None => None,
    }
}

/// Trailing ISBD punctuation on a title, subtitle or edition. `.` is not in the set: it
/// belongs to abbreviations (`Vol. 49`, `2. Aufl.`).
pub open spec fn title_marks() -> Seq<char> {
    seq![' ', '/', ':', ';', ',', '=']
}

/// Trailing punctuation on a place or publisher (`Frankfurt am Main :`).
pub open spec fn imprint_marks() -> Seq<char> {
    seq![' ', ':', ';', ',']
}

/// Trailing punctuation on an extent; the full stop of `293 S.` stays.
pub open spec fn extent_marks() -> Seq<char> {
    seq![' ', ':', ';']
}

/// Trailing punctuation on a subject heading (`Seerecht.`).
pub open spec fn subject_marks() -> Seq<char> {
    seq![' ', '.']
}

/// Trailing punctuation on life dates (`1911-2004.`).
pub open spec fn date_marks() -> Seq<char> {
    seq![' ', '.', ',']
}

fn title_marks_vec() -> (v: Vec<char>)
    ensures
        v@ == title_marks(),
{
    let v = vec![' ', '/', ':', ';', ',', '='];
    proof {
        assert(v@ =~= title_marks());
    }
    v
}

fn imprint_marks_vec() -> (v: Vec<char>)
    ensures
        v@ == imprint_marks(),
{
    let v = vec![' ', ':', ';', ','];
    proof {
        assert(v@ =~= imprint_marks());
    }
    v
}

fn extent_marks_vec() -> (v: Vec<char>)
    ensures
        v@ == extent_marks(),
{
    let v = vec![' ', ':', ';'];
    proof {
        assert(v@ =~= extent_marks());
    }
    v
}

fn subject_marks_vec() -> (v: Vec<char>)
    ensures
        v@ == subject_marks(),
{
    let v = vec![' ', '.'];
    proof {
        assert(v@ =~= subject_marks());
    }
    v
}

fn date_marks_vec() -> (v: Vec<char>)
    ensures
        v@ == date_marks(),
{
    let v = vec![' ', '.', ','];
    proof {
        assert(v@ =~= date_marks());
    }
    v
}

/// Whether a character is one of the marks.
fn is_mark(c: char, marks: &Vec<char>) -> (r: bool)
    ensures
        r == marks@.contains(c),
{
    let mut i: usize = 0;
    while i < marks.len()
        invariant
            i <= marks.len(),
            forall|k: int| 0 <= k < i ==> marks@[k] != c,
        decreases marks.len() - i,
    {
        if marks[i] == c {
            proof {
                assert(marks@[i as int] == c);
            }
            return true;
        }
        i = i + 1;
    }
    false
}

/// The characters `[0, end)` of a list as a string.
fn prefix_string(c: &Vec<char>, end: usize) -> (s: String)
    requires
        end <= c.len(),
    ensures
        s@ == c@.take(end as int),
{
    let mut s = String::new();
    let mut i: usize = 0;
    while i < end
        invariant
            i <= end <= c.len(),
            s@ == c@.take(i as int),
        decreases end - i,
    {
        let ghost before = s@;
        push_char(&mut s, c[i]);
        proof {
            assert(c@.take(i + 1) =~= before.push(c@[i as int]));
        }
        i = i + 1;
    }
    s
}

/// Drop trailing ISBD punctuation from a display value.
fn trimmed(value: &str, marks: &Vec<char>) -> (s: String)
    ensures
        s@ == trim_marks(value@, marks@),
{
    let c = chars_of(value);
    let mut end: usize = c.len();
    proof {
        assert(value@.take(end as int) =~= value@);
    }
    while end > 0 && is_mark(c[end - 1], marks)
        invariant
            end <= c.len(),
            c@ == value@,
            trim_marks(value@, marks@) == trim_marks(value@.take(end as int), marks@),
        decreases end,
    {
        proof {
            assert(value@.take(end as int).drop_last() =~= value@.take(end - 1));
        }
        end = end - 1;
    }
    prefix_string(&c, end)
}

/// `None` for an empty string, so that an emptied field reads as "not stated".
fn non_empty(value: String) -> (r: Option<String>)
    ensures
        opt_view(r) == non_empty_spec(value@),
{
    if value.as_str().unicode_len() == 0 {
        proof {
            assert(value@.len() == 0);
        }
        None
    } else {
        Some(value)
    }
}

/// An optional subfield value, owned, `None` when absent or empty.
fn present_owned(o: Option<&str>) -> (r: Option<String>)
    ensures
        opt_view(r) == present(match o {
            Some(v) => Some(v@),
            None => None,
        }),
{
    match o {
        Some(v) => non_empty(owned(v)),
        None => None,
    }
}

/// The views of an optional subfield value.
pub open spec fn sub_view(o: Option<&str>) -> Option<Seq<char>> {
    match o {
        Some(v) => Some(v@),
        None => None,
    }
}

/// What follows the last `/` of a text, or the whole text when it has none.
pub open spec fn last_segment(v: Seq<char>) -> Seq<char>
    decreases v.len(),
{
    if v.len() == 0 {
        v
    } else if v.last() == '/' {
        Seq::empty()
    } else {
        last_segment(v.drop_last()).push(v.last())
    }
}

/// What follows the last `/` of a text, or the whole text.
fn last_segment_of(value: &str) -> (s: String)
    ensures
        s@ == last_segment(value@),
{
    let c = chars_of(value);
    let mut start: usize = c.len();
    proof {
        assert(value@.subrange(start as int, value@.len() as int) =~= Seq::<char>::empty());
    }
    while start > 0 && c[start - 1] != '/'
        invariant
            start <= c.len(),
            c@ == value@,
            forall|k: int| start <= k < c.len() ==> c@[k] != '/',
        decreases start,
    {
        start = start - 1;
    }
    proof {
        lemma_last_segment(value@, start as int);
    }
    let mut s = String::new();
    let mut i: usize = start;
    while i < c.len()
        invariant
            start <= i <= c.len(),
            c@ == value@,
            s@ == value@.subrange(start as int, i as int),
        decreases c.len() - i,
    {
        let ghost before = s@;
        push_char(&mut s, c[i]);
        proof {
            assert(value@.subrange(start as int, i + 1) =~= before.push(c@[i as int]));
        }
        i = i + 1;
    }
    s
}

proof fn lemma_last_segment(v: Seq<char>, start: int)
    requires
        0 <= start <= v.len(),
        forall|k: int| start <= k < v.len() ==> v[k] != '/',
        start == 0 || v[start - 1] == '/',
    ensures
        last_segment(v) == v.subrange(start, v.len() as int),
    decreases v.len(),
{
    if v.len() == start {
        if v.len() > 0 {
            assert(v.last() == '/');
        }
        assert(v.subrange(start, v.len() as int) =~= Seq::<char>::empty());
    } else {
        lemma_last_segment(v.drop_last(), start);
        assert(v.subrange(start, v.len() as int) =~= v.drop_last().subrange(start, v.len() - 1).push(v.last()));
    }
}


/// `245$a` with each `$n` and `$p` appended after `. `, in subfield order, over the
/// subfields up to the end of `subs`.
pub open spec fn title_from(subs: Seq<(char, Seq<char>)>, start: Seq<char>) -> Seq<char>
    decreases subs.len(),
{
    if subs.len() == 0 {
        start
    } else {
        let before = title_from(subs.drop_last(), start);
        let part = trim_marks(subs.last().1, title_marks());
        if (subs.last().0 != 'n' && subs.last().0 != 'p') || part.len() == 0 {
            before
        } else if before.len() == 0 {
            part
        } else {
            before + ". "@ + part
        }
    }
}

/// The title of the first `245` that has a `$a`: `$a` with its trailing ISBD marks
/// removed, then the volume designations `$n` and `$p` in the order the field has them.
/// No such field, no title.
pub open spec fn title_spec(f: Option<FieldView>) -> Seq<char> {
    match f {
        None => Seq::empty(),
        Some(f) => title_from(
            f.subfields,
            trim_marks(
                match first_sub(f.subfields, 'a') {
                    Some(a) => a,
                    None => Seq::empty(),
                },
                title_marks(),
            ),
        ),
    }
}

/// `245$b` of the same field as the title, trimmed.
pub open spec fn subtitle_spec(f: Option<FieldView>) -> Option<Seq<char>> {
    match f {
        None => None,
        Some(f) => match first_sub(f.subfields, 'b') {
            Some(b) => non_empty_spec(trim_marks(b, title_marks())),
            None => None,
        },
    }
}

/// The title of a `245`.
fn title(field: Option<&Field>) -> (t: String)
    ensures
        t@ == title_spec(match field {
            Some(f) => Some(f.view()),
            None => None,
        }),
{
    let field = match field {
        Some(f) => f,
        None => {
            return String::new();
        },
    };
    let marks = title_marks_vec();
    let a = match field.sub('a') {
        Some(a) => a,
        None => "",
    };
    proof {
        reveal_strlit("");
        assert(a@ == match first_sub(field.view().subfields, 'a') {
            Some(v) => v,
            None => Seq::<char>::empty(),
        });
    }
    let mut t = trimmed(a, &marks);
    let ghost start = t@;
    let ghost subs = field.view().subfields;
    let mut i: usize = 0;
    while i < field.subfields.len()
        invariant
            i <= field.subfields.len(),
            subs == field.view().subfields,
            marks@ == title_marks(),
            t@ == title_from(subs.take(i as int), start),
        decreases field.subfields.len() - i,
    {
        proof {
            assert(subs.take(i + 1).drop_last() =~= subs.take(i as int));
            assert(subs.take(i + 1).last() == subs[i as int]);
        }
        let code = field.subfields[i].0;
        if code == 'n' || code == 'p' {
            let part = trimmed(field.subfields[i].1.as_str(), &marks);
            if part.as_str().unicode_len() > 0 {
                if t.as_str().unicode_len() > 0 {
                    push_str(&mut t, ". ");
                    proof {
                        reveal_strlit(". ");
                    }
                    push_str(&mut t, part.as_str());
                } else {
                    t = part;
                }
            }
        }
        i = i + 1;
    }
    proof {
        assert(subs.take(i as int) =~= subs);
    }
    t
}

/// The subtitle, from the same field as the title.
fn subtitle(field: Option<&Field>) -> (r: Option<String>)
    ensures
        opt_view(r) == subtitle_spec(match field {
            Some(f) => Some(f.view()),
            None => None,
        }),
{
    match field {
        None => None,
        Some(f) => match f.sub('b') {
            Some(b) => non_empty(trimmed(b, &title_marks_vec())),
            None => None,
        },
    }
}

/// A value that is present and not empty.
pub open spec fn filled(o: Option<Seq<char>>) -> Option<Seq<char>> {
    present(o)
}

/// The parts of a corporate or meeting name: `$a`, `$b`, `$g`, each when present and
/// not empty.
pub open spec fn corporate_parts(subs: Seq<(char, Seq<char>)>) -> Seq<Seq<char>> {
    let a = present(first_sub(subs, 'a'));
    let b = present(first_sub(subs, 'b'));
    let g = present(first_sub(subs, 'g'));
    let s1 = match a {
        Some(v) => seq![v],
        None => Seq::empty(),
    };
    let s2 = match b {
        Some(v) => s1.push(v),
        None => s1,
    };
    match g {
        Some(v) => s2.push(v),
        None => s2,
    }
}

/// A corporate or meeting name: its parts joined by `, `; `None` with no part.
pub open spec fn corporate_spec(subs: Seq<(char, Seq<char>)>) -> Option<Seq<char>> {
    let parts = corporate_parts(subs);
    if parts.len() == 0 {
        None
    } else {
        Some(join_comma(parts))
    }
}

/// A subfield value, when present and not empty, added to a list.
fn push_present(parts: &mut Vec<String>, o: Option<&str>)
    ensures
        text_views(final(parts)@) == match present(sub_view(o)) {
            Some(v) => text_views(old(parts)@).push(v),
            None => text_views(old(parts)@),
        },
{
    match present_owned(o) {
        Some(v) => {
            let ghost before = parts@;
            parts.push(v);
            proof {
                assert(text_views(parts@) =~= text_views(before).push(v@));
            }
        },
        None => {},
    }
}

/// A corporate or meeting name: `$a`, then the subordinate unit `$b`, then the place
/// `$g`.
fn corporate_name(field: &Field) -> (r: Option<String>)
    ensures
        opt_view(r) == corporate_spec(field.view().subfields),
{
    let mut parts: Vec<String> = Vec::new();
    proof {
        assert(text_views(parts@) =~= Seq::<Seq<char>>::empty());
    }
    push_present(&mut parts, field.sub('a'));
    proof {
        assert(text_views(parts@) =~= match present(first_sub(field.view().subfields, 'a')) {
            Some(v) => seq![v],
            None => Seq::empty(),
        });
    }
    push_present(&mut parts, field.sub('b'));
    push_present(&mut parts, field.sub('g'));
    if parts.len() == 0 {
        return None;
    }
    Some(join_with_comma(&parts))
}


/// Life dates, from `$d`, for persons only: on a body `$d` is the date of the body.
pub open spec fn dates_spec(subs: Seq<(char, Seq<char>)>, kind: AuthorKind) -> Option<Seq<char>> {
    if kind != AuthorKind::Person {
        None
    } else {
        match first_sub(subs, 'd') {
            Some(d) => non_empty_spec(trim_marks(d, date_marks())),
            None => None,
        }
    }
}

/// The GND identifier in one `$0` value: after the `(DE-588)` prefix, or the last path
/// segment of a `d-nb.info/gnd/` URI.
pub open spec fn gnd_value(v: Seq<char>) -> Option<Seq<char>> {
    if is_prefix("(DE-588)"@, v) {
        non_empty_spec(v.skip(8))
    } else if contains_seq(v, "d-nb.info/gnd/"@) {
        non_empty_spec(last_segment(v))
    } else {
        None
    }
}

/// The first GND identifier among `$0` values.
pub open spec fn gnd_values(vs: Seq<Seq<char>>) -> Option<Seq<char>>
    decreases vs.len(),
{
    if vs.len() == 0 {
        None
    } else {
        match gnd_value(vs[0]) {
            Some(g) => Some(g),
            None => gnd_values(vs.drop_first()),
        }
    }
}

/// The GND identifier of a name field. A field with `$t` is a name-title entry whose
/// `$0` identifies the work, so it yields none.
pub open spec fn gnd_spec(subs: Seq<(char, Seq<char>)>) -> Option<Seq<char>> {
    if first_sub(subs, 't') is Some {
        None
    } else {
        gnd_values(all_subs(subs, '0'))
    }
}

/// The relator: the last path segment of `$4`, else the free-text `$e`.
pub open spec fn role_spec(subs: Seq<(char, Seq<char>)>) -> Option<Seq<char>> {
    match first_sub(subs, '4') {
        Some(code) if last_segment(code).len() > 0 => Some(last_segment(code)),
        _ => present(first_sub(subs, 'e')),
    }
}

/// One name field as an author, `None` when it names nobody.
pub open spec fn author_spec(f: FieldView, kind: AuthorKind) -> Option<AuthorView> {
    let name = match kind {
        AuthorKind::Person => first_sub(f.subfields, 'a'),
        _ => corporate_spec(f.subfields),
    };
    match non_empty_name(name) {
        Some(n) => Some(
            AuthorView {
                name: n,
                kind,
                dates: dates_spec(f.subfields, kind),
                gnd: gnd_spec(f.subfields),
                role: role_spec(f.subfields),
            },
        ),
        None => None,
    }
}

/// A name that is present and not empty.
pub open spec fn non_empty_name(o: Option<Seq<char>>) -> Option<Seq<char>> {
    present(o)
}

/// Two authors are the same when name, dates and GND agree.
pub open spec fn same_author(a: AuthorView, b: AuthorView) -> bool {
    a.name == b.name && a.dates == b.dates && a.gnd == b.gnd
}

/// A candidate added to the list unless an equal one is there.
pub open spec fn add_author(list: Seq<AuthorView>, a: Option<AuthorView>) -> Seq<AuthorView> {
    match a {
        None => list,
        Some(c) => if exists|i: int| 0 <= i < list.len() && same_author(#[trigger] list[i], c) {
            list
        } else {
            list.push(c)
        },
    }
}

/// The authors of a run of fields of one kind, added to `acc` in order.
pub open spec fn authors_over(acc: Seq<AuthorView>, fs: Seq<FieldView>, kind: AuthorKind) -> Seq<AuthorView>
    decreases fs.len(),
{
    if fs.len() == 0 {
        acc
    } else {
        add_author(authors_over(acc, fs.drop_last(), kind), author_spec(fs.last(), kind))
    }
}

/// Every name in the record: `100`, `110`, `111`, then `700`, `710`, `711`,
/// deduplicated by name, dates and GND.
pub open spec fn authors_spec(m: MarcView) -> Seq<AuthorView> {
    let f = m.fields;
    let a1 = authors_over(Seq::empty(), fields_tagged(f, "100"@), AuthorKind::Person);
    let a2 = authors_over(a1, fields_tagged(f, "110"@), AuthorKind::Corporate);
    let a3 = authors_over(a2, fields_tagged(f, "111"@), AuthorKind::Meeting);
    let a4 = authors_over(a3, fields_tagged(f, "700"@), AuthorKind::Person);
    let a5 = authors_over(a4, fields_tagged(f, "710"@), AuthorKind::Corporate);
    authors_over(a5, fields_tagged(f, "711"@), AuthorKind::Meeting)
}

/// Life dates of a person.
fn dates(field: &Field, kind: AuthorKind) -> (r: Option<String>)
    ensures
        opt_view(r) == dates_spec(field.view().subfields, kind),
{
    if kind != AuthorKind::Person {
        return None;
    }
    match field.sub('d') {
        Some(d) => non_empty(trimmed(d, &date_marks_vec())),
        None => None,
    }
}

/// The GND identifier of one `$0` value.
fn gnd_of(value: &str) -> (r: Option<String>)
    ensures
        opt_view(r) == gnd_value(value@),
{
    proof {
        reveal_strlit("(DE-588)");
        reveal_strlit("d-nb.info/gnd/");
    }
    if starts_with(value, "(DE-588)") {
        let c = chars_of(value);
        let mut s = String::new();
        let mut i: usize = 8;
        while i < c.len()
            invariant
                8 <= i <= c.len(),
                c@ == value@,
                s@ == value@.subrange(8, i as int),
            decreases c.len() - i,
        {
            let ghost before = s@;
            push_char(&mut s, c[i]);
            proof {
                assert(value@.subrange(8, i + 1) =~= before.push(c@[i as int]));
            }
            i = i + 1;
        }
        proof {
            assert(value@.skip(8) =~= value@.subrange(8, value@.len() as int));
        }
        return non_empty(s);
    }
    if contains_text(value, "d-nb.info/gnd/") {
        return non_empty(last_segment_of(value));
    }
    None
}

/// The GND identifier from `$0`, in either spelling; none on a name-title entry.
fn gnd(field: &Field) -> (r: Option<String>)
    ensures
        opt_view(r) == gnd_spec(field.view().subfields),
{
    if field.sub('t').is_some() {
        return None;
    }
    let vs = field.subs('0');
    let ghost all = all_subs(field.view().subfields, '0');
    let mut i: usize = 0;
    proof {
        assert(all.skip(0) =~= all);
    }
    while i < vs.len()
        invariant
            i <= vs.len(),
            crate::text::views(vs@) == all,
            all == all_subs(field.view().subfields, '0'),
            first_sub(field.view().subfields, 't') is None,
            gnd_values(all) == gnd_values(all.skip(i as int)),
        decreases vs.len() - i,
    {
        proof {
            assert(all.skip(i as int)[0] == vs@[i as int]@);
            assert(all.skip(i as int).drop_first() =~= all.skip(i + 1));
        }
        let g = gnd_of(vs[i]);
        if g.is_some() {
            proof {
                assert(all.skip(i as int).len() > 0);
                assert(gnd_values(all.skip(i as int)) == opt_view(g));
            }
            return g;
        }
        i = i + 1;
    }
    None
}

/// The relator from `$4`, falling back to `$e`.
fn role(field: &Field) -> (r: Option<String>)
    ensures
        opt_view(r) == role_spec(field.view().subfields),
{
    if let Some(code) = field.sub('4') {
        let segment = last_segment_of(code);
        if segment.as_str().unicode_len() > 0 {
            return Some(segment);
        }
    }
    present_owned(field.sub('e'))
}

/// One name field.
fn author(field: &Field, kind: AuthorKind) -> (r: Option<Author>)
    ensures
        match r {
            Some(a) => author_spec(field.view(), kind) == Some(a.view()),
            None => author_spec(field.view(), kind) is None,
        },
{
    let name = match kind {
        AuthorKind::Person => present_owned(field.sub('a')),
        _ => match corporate_name(field) {
            Some(n) => non_empty(n),
            None => None,
        },
    };
    match name {
        None => None,
        Some(n) => Some(Author { name: n, kind, dates: dates(field, kind), gnd: gnd(field), role: role(field) }),
    }
}

/// Whether two optional texts are equal.
fn same_opt(a: &Option<String>, b: &Option<String>) -> (r: bool)
    ensures
        r == (opt_view(*a) == opt_view(*b)),
{
    match (a, b) {
        (Some(x), Some(y)) => same_text(x.as_str(), y.as_str()),
        (None, None) => true,
        _ => false,
    }
}

/// Add a candidate unless an author with the same name, dates and GND is there.
fn add_candidate(authors: &mut Vec<Author>, candidate: Option<Author>)
    ensures
        author_views(final(authors)@) == add_author(author_views(old(authors)@), match candidate {
            Some(c) => Some(c.view()),
            None => None,
        }),
{
    let ghost orig = candidate;
    let c = match candidate {
        Some(c) => c,
        None => {
            return;
        },
    };
    let ghost list = author_views(authors@);
    let mut i: usize = 0;
    while i < authors.len()
        invariant
            i <= authors.len(),
            list == author_views(authors@),
            list == author_views(old(authors)@),
            orig == Some(c),
            candidate == orig,
            forall|k: int| 0 <= k < i ==> !same_author(#[trigger] list[k], c.view()),
        decreases authors.len() - i,
    {
        if same_text(authors[i].name.as_str(), c.name.as_str()) && same_opt(&authors[i].dates, &c.dates)
            && same_opt(&authors[i].gnd, &c.gnd) {
            proof {
                assert(same_author(list[i as int], c.view()));
                assert(add_author(list, Some(c.view())) == list);
            }
            return;
        }
        i = i + 1;
    }
    let ghost cv = c.view();
    authors.push(c);
    proof {
        assert(author_views(authors@) =~= list.push(cv));
    }
}

/// The authors of every field with this tag, added in record order.
fn add_names(authors: &mut Vec<Author>, marc: &MarcRecord, tag: &str, kind: AuthorKind)
    ensures
        author_views(final(authors)@) == authors_over(author_views(old(authors)@), fields_tagged(marc.view().fields, tag@), kind),
{
    let fs = marc.fields(tag);
    let ghost fv = fields_tagged(marc.view().fields, tag@);
    let ghost start = author_views(authors@);
    let mut i: usize = 0;
    while i < fs.len()
        invariant
            i <= fs.len(),
            fs@.map_values(|f: &Field| f.view()) == fv,
            author_views(authors@) == authors_over(start, fv.take(i as int), kind),
        decreases fs.len() - i,
    {
        proof {
            assert(fv.take(i + 1).drop_last() =~= fv.take(i as int));
            assert(fv.take(i + 1).last() == fs@[i as int].view());
        }
        let candidate = author(fs[i], kind);
        add_candidate(authors, candidate);
        i = i + 1;
    }
    proof {
        assert(fv.take(i as int) =~= fv);
    }
}

/// Every name in the record, main entries before added entries, deduplicated.
fn authors(marc: &MarcRecord) -> (v: Vec<Author>)
    ensures
        author_views(v@) == authors_spec(marc.view()),
{
    let mut v: Vec<Author> = Vec::new();
    proof {
        assert(author_views(v@) =~= Seq::<AuthorView>::empty());
    }
    add_names(&mut v, marc, "100", AuthorKind::Person);
    add_names(&mut v, marc, "110", AuthorKind::Corporate);
    add_names(&mut v, marc, "111", AuthorKind::Meeting);
    add_names(&mut v, marc, "700", AuthorKind::Person);
    add_names(&mut v, marc, "710", AuthorKind::Corporate);
    add_names(&mut v, marc, "711", AuthorKind::Meeting);
    v
}


/// A year as an integer.
pub open spec fn year_view(o: Option<i32>) -> Option<int> {
    match o {
        Some(y) => Some(y as int),
        None => None,
    }
}

/// A year that can be a publication date.
pub open spec fn plausible_spec(y: int) -> Option<int> {
    if EARLIEST_YEAR <= y <= LATEST_YEAR {
        Some(y)
    } else {
        None
    }
}

/// The year a finished group of digits gives: four digits and plausible, or nothing.
pub open spec fn group_year(group: Seq<char>) -> Option<int> {
    if group.len() == 4 {
        plausible_spec(digits_value(group) as int)
    } else {
        None
    }
}

/// The first group of exactly four digits in `t`, the digits of `group` standing
/// before it. The first such group decides, plausible or not.
pub open spec fn year_in(t: Seq<char>, group: Seq<char>) -> Option<int>
    decreases t.len(),
{
    if t.len() == 0 {
        group_year(group)
    } else if is_digit(t[0]) {
        year_in(t.drop_first(), group.push(t[0]))
    } else if group.len() == 4 {
        group_year(group)
    } else {
        year_in(t.drop_first(), Seq::empty())
    }
}

/// The first group of exactly four digits in a free-text date, when it is a plausible
/// year. `20231231` is not 2023, and `5740` is no publication date.
pub open spec fn first_year_spec(t: Seq<char>) -> Option<int> {
    year_in(t, Seq::empty())
}

/// The first group of exactly four digits in a free-text date.
pub fn first_year(text: &str) -> (r: Option<i32>)
    ensures
        year_view(r) == first_year_spec(text@),
{
    let c = chars_of(text);
    let ghost mut group: Seq<char> = Seq::empty();
    let mut count: usize = 0;
    let mut value: u32 = 0;
    let mut i: usize = 0;
    proof {
        assert(text@.skip(0) =~= text@);
    }
    while i < c.len()
        invariant
            i <= c.len(),
            c@ == text@,
            count == group.len(),
            count <= i,
            first_year_spec(text@) == year_in(text@.skip(i as int), group),
            count <= 4 ==> value == digits_value(group),
            count <= 4 ==> value < crate::libraries::pow10(count as nat),
        decreases c.len() - i,
    {
        let x = c[i];
        proof {
            assert(text@.skip(i as int)[0] == x);
            assert(text@.skip(i as int).drop_first() =~= text@.skip(i + 1));
        }
        if '0' <= x && x <= '9' {
            if count < 4 {
                proof {
                    assert(group.push(x).drop_last() =~= group);
                    assert(crate::libraries::pow10((count + 1) as nat) == 10 * crate::libraries::pow10(count as nat));
                    reveal_with_fuel(crate::libraries::pow10, 5);
                }
                value = value * 10 + value_of_digit(x);
            }
            proof {
                group = group.push(x);
            }
            count = count + 1;
        } else {
            if count == 4 {
                proof {
                    reveal_with_fuel(crate::libraries::pow10, 5);
                }
                return plausible_year(value as i32);
            }
            proof {
                group = Seq::empty();
            }
            count = 0;
            value = 0;
        }
        i = i + 1;
    }
    proof {
        assert(text@.skip(i as int) =~= Seq::<char>::empty());
    }
    if count == 4 {
        proof {
            reveal_with_fuel(crate::libraries::pow10, 5);
        }
        plausible_year(value as i32)
    } else {
        None
    }
}


/// The year `008/07-10` states, on an `008` of 40 or 34 characters, when it is four
/// digits.
pub open spec fn coded_year_spec(m: MarcView) -> Option<int> {
    match first_control(m.controls, "008"@) {
        Some(raw) => match offset_for(raw.len()) {
            Some(off) => {
                let d = raw.subrange(7 - off, 11 - off);
                if forall|i: int| 0 <= i < 4 ==> is_digit(#[trigger] d[i]) {
                    Some(digits_value(d) as int)
                } else {
                    None
                }
            },
            None => None,
        },
        None => None,
    }
}

/// The first year of the `$c` of a run of imprint fields.
pub open spec fn first_year_over(fs: Seq<FieldView>) -> Option<int>
    decreases fs.len(),
{
    if fs.len() == 0 {
        None
    } else {
        match first_sub(fs[0].subfields, 'c') {
            Some(c) => match first_year_spec(c) {
                Some(y) => Some(y),
                None => first_year_over(fs.drop_first()),
            },
            None => first_year_over(fs.drop_first()),
        }
    }
}

/// The first year in `264$c`, else in `260$c`.
pub open spec fn imprint_year_spec(m: MarcView) -> Option<int> {
    first_year_over(fields_tagged(m.fields, "264"@) + fields_tagged(m.fields, "260"@))
}

/// The publication year: `008/07-10` first, the imprint date only as a fallback.
pub open spec fn year_spec(m: MarcView) -> Option<int> {
    match coded_year_spec(m) {
        Some(y) => Some(y),
        None => imprint_year_spec(m),
    }
}

proof fn lemma_first_year_concat(a: Seq<FieldView>, b: Seq<FieldView>)
    ensures
        first_year_over(a + b) == match first_year_over(a) {
            Some(y) => Some(y),
            None => first_year_over(b),
        },
    decreases a.len(),
{
    if a.len() == 0 {
        assert(a + b =~= b);
    } else {
        assert((a + b)[0] == a[0]);
        assert((a + b).drop_first() =~= a.drop_first() + b);
        lemma_first_year_concat(a.drop_first(), b);
    }
}

/// The first year among the `$c` of these fields.
fn first_year_in(fs: &Vec<&Field>) -> (r: Option<i32>)
    ensures
        year_view(r) == first_year_over(fs@.map_values(|f: &Field| f.view())),
{
    let ghost fv = fs@.map_values(|f: &Field| f.view());
    let mut i: usize = 0;
    proof {
        assert(fv.skip(0) =~= fv);
    }
    while i < fs.len()
        invariant
            i <= fs.len(),
            fv == fs@.map_values(|f: &Field| f.view()),
            first_year_over(fv) == first_year_over(fv.skip(i as int)),
        decreases fs.len() - i,
    {
        proof {
            assert(fv.skip(i as int)[0] == fs@[i as int].view());
            assert(fv.skip(i as int).drop_first() =~= fv.skip(i + 1));
        }
        if let Some(c) = fs[i].sub('c') {
            let y = first_year(c);
            if y.is_some() {
                return y;
            }
        }
        i = i + 1;
    }
    None
}

/// The first four-digit year in `264$c`, else in `260$c`.
fn imprint_year(marc: &MarcRecord) -> (r: Option<i32>)
    ensures
        year_view(r) == imprint_year_spec(marc.view()),
{
    proof {
        lemma_first_year_concat(fields_tagged(marc.view().fields, "264"@), fields_tagged(marc.view().fields, "260"@));
    }
    let y = first_year_in(&marc.fields("264"));
    if y.is_some() {
        return y;
    }
    first_year_in(&marc.fields("260"))
}

/// The publication year: `008` first. Where the two disagree `008` is right: an imprint
/// of `1413 [1992]` gives the Hijri year first.
fn year(marc: &MarcRecord) -> (r: Option<i32>)
    ensures
        year_view(r) == year_spec(marc.view()),
{
    if let Some(raw) = marc.control("008") {
        if let Some(coded) = Coded008::new(raw) {
            if let Some(y) = coded.year() {
                return Some(y);
            }
        }
    }
    imprint_year(marc)
}

/// An imprint field that names a place or a publisher.
pub open spec fn usable(f: FieldView) -> bool {
    first_sub(f.subfields, 'a') is Some || first_sub(f.subfields, 'b') is Some
}

/// The first field with `ind2 = 1` (publication) that is usable.
pub open spec fn find_publication(fs: Seq<FieldView>) -> Option<FieldView>
    decreases fs.len(),
{
    if fs.len() == 0 {
        None
    } else if fs[0].ind2 == '1' && usable(fs[0]) {
        Some(fs[0])
    } else {
        find_publication(fs.drop_first())
    }
}

/// The first usable field.
pub open spec fn find_usable(fs: Seq<FieldView>) -> Option<FieldView>
    decreases fs.len(),
{
    if fs.len() == 0 {
        None
    } else if usable(fs[0]) {
        Some(fs[0])
    } else {
        find_usable(fs.drop_first())
    }
}

/// The imprint field: `264` with `ind2=1`, else any `264`, else `260`, the first usable
/// one each time.
pub open spec fn imprint_field_spec(m: MarcView) -> Option<FieldView> {
    let t264 = fields_tagged(m.fields, "264"@);
    match find_publication(t264) {
        Some(f) => Some(f),
        None => match find_usable(t264) {
            Some(f) => Some(f),
            None => find_usable(fields_tagged(m.fields, "260"@)),
        },
    }
}

/// A subfield of the imprint field, trimmed of its trailing punctuation.
pub open spec fn imprint_part(m: MarcView, code: char) -> Option<Seq<char>> {
    match imprint_field_spec(m) {
        Some(f) => match first_sub(f.subfields, code) {
            Some(v) => non_empty_spec(trim_marks(v, imprint_marks())),
            None => None,
        },
        None => None,
    }
}

/// The first field, with `ind2 = 1` when `publication`, that names a place or a
/// publisher.
fn find_imprint<'a>(fs: &Vec<&'a Field>, publication: bool) -> (r: Option<&'a Field>)
    ensures
        match r {
            Some(f) => Some(f.view()) == if publication {
                find_publication(fs@.map_values(|f: &Field| f.view()))
            } else {
                find_usable(fs@.map_values(|f: &Field| f.view()))
            },
            None => (if publication {
                find_publication(fs@.map_values(|f: &Field| f.view()))
            } else {
                find_usable(fs@.map_values(|f: &Field| f.view()))
            }) is None,
        },
{
    let ghost fv = fs@.map_values(|f: &Field| f.view());
    let mut i: usize = 0;
    proof {
        assert(fv.skip(0) =~= fv);
    }
    while i < fs.len()
        invariant
            i <= fs.len(),
            fv == fs@.map_values(|f: &Field| f.view()),
            publication ==> find_publication(fv) == find_publication(fv.skip(i as int)),
            !publication ==> find_usable(fv) == find_usable(fv.skip(i as int)),
        decreases fs.len() - i,
    {
        proof {
            assert(fv.skip(i as int)[0] == fs@[i as int].view());
            assert(fv.skip(i as int).drop_first() =~= fv.skip(i + 1));
        }
        let f = fs[i];
        let ok = f.sub('a').is_some() || f.sub('b').is_some();
        if ok && (!publication || f.ind2 == '1') {
            return Some(f);
        }
        i = i + 1;
    }
    None
}

/// The imprint field.
fn imprint_field(marc: &MarcRecord) -> (r: Option<&Field>)
    ensures
        match r {
            Some(f) => imprint_field_spec(marc.view()) == Some(f.view()),
            None => imprint_field_spec(marc.view()) is None,
        },
{
    let f264 = marc.fields("264");
    if let Some(f) = find_imprint(&f264, true) {
        return Some(f);
    }
    if let Some(f) = find_imprint(&f264, false) {
        return Some(f);
    }
    find_imprint(&marc.fields("260"), false)
}

/// Place and publisher, taken from one field so that the two cannot come from different
/// decades of the same serial.
fn imprint(marc: &MarcRecord) -> (r: (Option<String>, Option<String>))
    ensures
        opt_view(r.0) == imprint_part(marc.view(), 'a'),
        opt_view(r.1) == imprint_part(marc.view(), 'b'),
{
    let field = match imprint_field(marc) {
        Some(f) => f,
        None => {
            return (None, None);
        },
    };
    let marks = imprint_marks_vec();
    let place = match field.sub('a') {
        Some(v) => non_empty(trimmed(v, &marks)),
        None => None,
    };
    let publisher = match field.sub('b') {
        Some(v) => non_empty(trimmed(v, &marks)),
        None => None,
    };
    (place, publisher)
}

/// `$a` of the first field with this tag that has one, trimmed.
pub open spec fn first_a_spec(m: MarcView, tag: Seq<char>, marks: Seq<char>) -> Option<Seq<char>> {
    match first_with_spec(m.fields, tag, 'a', 0) {
        Some(k) => match first_sub(m.fields[k].subfields, 'a') {
            Some(a) => non_empty_spec(trim_marks(a, marks)),
            None => None,
        },
        None => None,
    }
}

/// `$a` of the first field with this tag that has one, trimmed.
fn first_a(marc: &MarcRecord, tag: &str, marks: &Vec<char>) -> (r: Option<String>)
    ensures
        opt_view(r) == first_a_spec(marc.view(), tag@, marks@),
{
    match marc.first_with(tag, 'a') {
        Some(field) => match field.sub('a') {
            Some(a) => non_empty(trimmed(a, marks)),
            None => None,
        },
        None => None,
    }
}


/// The language `008/35-37` names, on an `008` of 40 or 34 characters, when it is a
/// language code.
pub open spec fn coded_language_spec(m: MarcView) -> Option<Seq<char>> {
    match first_control(m.controls, "008"@) {
        Some(raw) => match offset_for(raw.len()) {
            Some(off) => {
                let code = raw.subrange(35 - off, 38 - off);
                if language_code(code) {
                    Some(code)
                } else {
                    None
                }
            },
            None => None,
        },
        None => None,
    }
}

/// Codes that name no language: undetermined, no linguistic content, multiple.
pub open spec fn unspecific(code: Seq<char>) -> bool {
    code == "und"@ || code == "zxx"@ || code == "mul"@
}

/// Language codes added in order, each once, anything that is not a code left out.
pub open spec fn codes_over(acc: Seq<Seq<char>>, cs: Seq<Seq<char>>) -> Seq<Seq<char>>
    decreases cs.len(),
{
    if cs.len() == 0 {
        acc
    } else {
        let a = codes_over(acc, cs.drop_last());
        let c = cs.last();
        if language_code(c) && !a.contains(c) {
            a.push(c)
        } else {
            a
        }
    }
}

/// The `041$a` codes of a run of fields, added to `acc`.
pub open spec fn langs_over(acc: Seq<Seq<char>>, fs: Seq<FieldView>) -> Seq<Seq<char>>
    decreases fs.len(),
{
    if fs.len() == 0 {
        acc
    } else {
        codes_over(langs_over(acc, fs.drop_last()), all_subs(fs.last().subfields, 'a'))
    }
}

/// The union of `008/35-37` and `041$a`, `008` first: the `008` code unless it names no
/// language, then every `041$a` that is a code and not yet listed.
pub open spec fn languages_spec(m: MarcView) -> Seq<Seq<char>> {
    let base = match coded_language_spec(m) {
        Some(code) => if unspecific(code) {
            Seq::empty()
        } else {
            seq![code]
        },
        None => Seq::empty(),
    };
    langs_over(base, fields_tagged(m.fields, "041"@))
}

/// Whether a list of texts contains this one.
fn contains_string(v: &Vec<String>, t: &str) -> (r: bool)
    ensures
        r == text_views(v@).contains(t@),
{
    let mut i: usize = 0;
    while i < v.len()
        invariant
            i <= v.len(),
            forall|k: int| 0 <= k < i ==> v@[k]@ != t@,
        decreases v.len() - i,
    {
        if same_text(v[i].as_str(), t) {
            proof {
                assert(text_views(v@)[i as int] == t@);
            }
            return true;
        }
        i = i + 1;
    }
    proof {
        if text_views(v@).contains(t@) {
            let k = choose|k: int| 0 <= k < text_views(v@).len() && text_views(v@)[k] == t@;
            assert(v@[k]@ == t@);
        }
    }
    false
}

/// The `041$a` codes of these fields, added in order.
fn add_languages(languages: &mut Vec<String>, fs: &Vec<&Field>)
    ensures
        text_views(final(languages)@) == langs_over(text_views(old(languages)@), fs@.map_values(|f: &Field| f.view())),
{
    let ghost fv = fs@.map_values(|f: &Field| f.view());
    let ghost start = text_views(languages@);
    let mut i: usize = 0;
    while i < fs.len()
        invariant
            i <= fs.len(),
            fv == fs@.map_values(|f: &Field| f.view()),
            text_views(languages@) == langs_over(start, fv.take(i as int)),
        decreases fs.len() - i,
    {
        proof {
            assert(fv.take(i + 1).drop_last() =~= fv.take(i as int));
            assert(fv.take(i + 1).last() == fs@[i as int].view());
        }
        let codes = fs[i].subs('a');
        let ghost cs = crate::text::views(codes@);
        let ghost mid = text_views(languages@);
        let mut j: usize = 0;
        while j < codes.len()
            invariant
                j <= codes.len(),
                cs == crate::text::views(codes@),
                text_views(languages@) == codes_over(mid, cs.take(j as int)),
            decreases codes.len() - j,
        {
            proof {
                assert(cs.take(j + 1).drop_last() =~= cs.take(j as int));
                assert(cs.take(j + 1).last() == codes@[j as int]@);
            }
            let code = codes[j];
            if is_language_code(code) && !contains_string(languages, code) {
                let ghost before = languages@;
                languages.push(owned(code));
                proof {
                    assert(text_views(languages@) =~= text_views(before).push(code@));
                }
            }
            j = j + 1;
        }
        proof {
            assert(cs.take(j as int) =~= cs);
        }
        i = i + 1;
    }
    proof {
        assert(fv.take(i as int) =~= fv);
    }
}

/// The record's languages.
fn languages(marc: &MarcRecord) -> (v: Vec<String>)
    ensures
        text_views(v@) == languages_spec(marc.view()),
{
    let mut languages: Vec<String> = Vec::new();
    if let Some(raw) = marc.control("008") {
        if let Some(coded) = Coded008::new(raw) {
            if let Some(code) = coded.language() {
                proof {
                    reveal_strlit("und");
                    reveal_strlit("zxx");
                    reveal_strlit("mul");
                }
                if !(same_text(code, "und") || same_text(code, "zxx") || same_text(code, "mul")) {
                    languages.push(owned(code));
                }
            }
        }
    }
    proof {
        assert(text_views(languages@) =~= match coded_language_spec(marc.view()) {
            Some(code) => if unspecific(code) {
                Seq::<Seq<char>>::empty()
            } else {
                seq![code]
            },
            None => Seq::empty(),
        });
    }
    add_languages(&mut languages, &marc.fields("041"));
    languages
}

/// Whether the resource is online: a `007` that begins with `cr`, or a `338$b` that is
/// `cr`.
pub open spec fn online_spec(m: MarcView) -> bool {
    let c = all_controls(m.controls, "007"@);
    let f = fields_tagged(m.fields, "338"@);
    (exists|i: int| 0 <= i < c.len() && is_prefix("cr"@, #[trigger] c[i]))
        || (exists|j: int, k: int|
        0 <= j < f.len() && 0 <= k < all_subs(f[j].subfields, 'b').len() && #[trigger] all_subs(f[j].subfields, 'b')[k]
            == "cr"@)
}

/// Whether the resource is online, from `007/00-01` or `338$b`.
fn is_online(marc: &MarcRecord) -> (r: bool)
    ensures
        r == online_spec(marc.view()),
{
    proof {
        reveal_strlit("cr");
    }
    let c = marc.controls("007");
    let ghost cv = all_controls(marc.view().controls, "007"@);
    let mut i: usize = 0;
    while i < c.len()
        invariant
            i <= c.len(),
            crate::text::views(c@) == cv,
            cv == all_controls(marc.view().controls, "007"@),
            forall|k: int| 0 <= k < i ==> !is_prefix("cr"@, #[trigger] cv[k]),
        decreases c.len() - i,
    {
        if starts_with(c[i], "cr") {
            proof {
                assert(cv[i as int] == c@[i as int]@);
            }
            return true;
        }
        i = i + 1;
    }
    let f = marc.fields("338");
    let ghost fv = fields_tagged(marc.view().fields, "338"@);
    let mut j: usize = 0;
    while j < f.len()
        invariant
            j <= f.len(),
            f@.map_values(|x: &Field| x.view()) == fv,
            fv == fields_tagged(marc.view().fields, "338"@),
            cv == all_controls(marc.view().controls, "007"@),
            crate::text::views(c@) == cv,
            forall|k: int| 0 <= k < c.len() ==> !is_prefix("cr"@, #[trigger] cv[k]),
            forall|a: int, k: int|
                0 <= a < j && 0 <= k < all_subs(fv[a].subfields, 'b').len() ==> #[trigger] all_subs(fv[a].subfields, 'b')[k]
                    != "cr"@,
        decreases f.len() - j,
    {
        let bs = f[j].subs('b');
        proof {
            assert(fv[j as int] == f@[j as int].view());
        }
        let mut k: usize = 0;
        while k < bs.len()
            invariant
                k <= bs.len(),
                j < f.len(),
                f@.map_values(|x: &Field| x.view()) == fv,
                fv == fields_tagged(marc.view().fields, "338"@),
                crate::text::views(bs@) == all_subs(fv[j as int].subfields, 'b'),
                forall|q: int| 0 <= q < k ==> #[trigger] all_subs(fv[j as int].subfields, 'b')[q] != "cr"@,
            decreases bs.len() - k,
        {
            if same_text(bs[k], "cr") {
                proof {
                    assert(all_subs(fv[j as int].subfields, 'b')[k as int] == "cr"@);
                }
                return true;
            }
            k = k + 1;
        }
        j = j + 1;
    }
    false
}

/// The material type from the leader and the online flag; a leader too short to hold
/// positions 06 and 07 is `Unknown`.
pub open spec fn format_spec(m: MarcView, online: bool) -> Format {
    if m.leader.len() > 7 {
        Format::leader_spec(m.leader[6], m.leader[7], online)
    } else {
        Format::Unknown
    }
}

/// The material type, from the leader alone plus the online flag.
fn format(marc: &MarcRecord, online: bool) -> (f: Format)
    ensures
        f == format_spec(marc.view(), online),
{
    let leader = marc.leader();
    match (leader.kind(), leader.level()) {
        (Some(kind), Some(level)) => Format::from_leader(kind, level, online),
        _ => Format::Unknown,
    }
}

/// What stands before the first space, or the whole text.
pub open spec fn before_space(v: Seq<char>) -> Seq<char> {
    match first_index(v, ' ') {
        Some(k) => v.take(k),
        None => v,
    }
}

/// ISBNs of one field's `$a` values, added to `acc`.
pub open spec fn isbn_values(acc: Seq<Seq<char>>, vs: Seq<Seq<char>>) -> Seq<Seq<char>>
    decreases vs.len(),
{
    if vs.len() == 0 {
        acc
    } else {
        let a = isbn_values(acc, vs.drop_last());
        let h = before_space(vs.last());
        if h.len() > 0 {
            a.push(h)
        } else {
            a
        }
    }
}

/// The ISBNs of a run of `020` fields, added to `acc`.
pub open spec fn isbns_over(acc: Seq<Seq<char>>, fs: Seq<FieldView>) -> Seq<Seq<char>>
    decreases fs.len(),
{
    if fs.len() == 0 {
        acc
    } else {
        isbn_values(isbns_over(acc, fs.drop_last()), all_subs(fs.last().subfields, 'a'))
    }
}

/// `020$a`, cut at the first space; `$z`, `$9` and `$q` never.
pub open spec fn isbns_spec(m: MarcView) -> Seq<Seq<char>> {
    isbns_over(Seq::empty(), fields_tagged(m.fields, "020"@))
}

/// A text up to its first space.
fn head_before_space(value: &str) -> (s: String)
    ensures
        s@ == before_space(value@),
{
    let c = chars_of(value);
    let mut k: usize = 0;
    while k < c.len() && c[k] != ' '
        invariant
            k <= c.len(),
            c@ == value@,
            forall|j: int| 0 <= j < k ==> value@[j] != ' ',
        decreases c.len() - k,
    {
        k = k + 1;
    }
    proof {
        if k < c.len() {
            assert(value@[k as int] == ' ');
            let w = choose|w: int| 0 <= w < value@.len() && value@[w] == ' ' && forall|j: int| 0 <= j < w ==> value@[j] != ' ';
            if w < k {
                assert(value@[w] != ' ');
            } else if w > k {
                assert(value@[k as int] != ' ');
            }
            assert(first_index(value@, ' ') == Some(k as int));
        } else {
            assert(!(exists|w: int| 0 <= w < value@.len() && value@[w] == ' '));
            assert(value@.take(k as int) =~= value@);
        }
    }
    prefix_string(&c, k)
}

/// `020$a`, cut at the first space.
fn isbns(marc: &MarcRecord) -> (v: Vec<String>)
    ensures
        text_views(v@) == isbns_spec(marc.view()),
{
    let fs = marc.fields("020");
    let ghost fv = fields_tagged(marc.view().fields, "020"@);
    let mut v: Vec<String> = Vec::new();
    let mut i: usize = 0;
    proof {
        assert(text_views(v@) =~= Seq::<Seq<char>>::empty());
    }
    while i < fs.len()
        invariant
            i <= fs.len(),
            fv == fs@.map_values(|f: &Field| f.view()),
            text_views(v@) == isbns_over(Seq::empty(), fv.take(i as int)),
        decreases fs.len() - i,
    {
        proof {
            assert(fv.take(i + 1).drop_last() =~= fv.take(i as int));
            assert(fv.take(i + 1).last() == fs@[i as int].view());
        }
        let vals = fs[i].subs('a');
        let ghost cs = crate::text::views(vals@);
        let ghost mid = text_views(v@);
        let mut j: usize = 0;
        while j < vals.len()
            invariant
                j <= vals.len(),
                cs == crate::text::views(vals@),
                text_views(v@) == isbn_values(mid, cs.take(j as int)),
            decreases vals.len() - j,
        {
            proof {
                assert(cs.take(j + 1).drop_last() =~= cs.take(j as int));
                assert(cs.take(j + 1).last() == vals@[j as int]@);
            }
            let h = head_before_space(vals[j]);
            if h.as_str().unicode_len() > 0 {
                let ghost before = v@;
                let ghost hv = h@;
                v.push(h);
                proof {
                    assert(text_views(v@) =~= text_views(before).push(hv));
                }
            }
            j = j + 1;
        }
        proof {
            assert(cs.take(j as int) =~= cs);
        }
        i = i + 1;
    }
    proof {
        assert(fv.take(i as int) =~= fv);
    }
    v
}

/// Subject headings of one field, trimmed, added unless already listed.
pub open spec fn subject_values(acc: Seq<Seq<char>>, vs: Seq<Seq<char>>) -> Seq<Seq<char>>
    decreases vs.len(),
{
    if vs.len() == 0 {
        acc
    } else {
        let a = subject_values(acc, vs.drop_last());
        let h = trim_marks(vs.last(), subject_marks());
        if h.len() > 0 && !a.contains(h) {
            a.push(h)
        } else {
            a
        }
    }
}

/// The headings of a run of fields, added to `acc`.
pub open spec fn subjects_over(acc: Seq<Seq<char>>, fs: Seq<FieldView>) -> Seq<Seq<char>>
    decreases fs.len(),
{
    if fs.len() == 0 {
        acc
    } else {
        subject_values(subjects_over(acc, fs.drop_last()), all_subs(fs.last().subfields, 'a'))
    }
}

/// `650$a`, then `689$a`, then `653$a`, deduplicated by exact text.
pub open spec fn subjects_spec(m: MarcView) -> Seq<Seq<char>> {
    let s1 = subjects_over(Seq::empty(), fields_tagged(m.fields, "650"@));
    let s2 = subjects_over(s1, fields_tagged(m.fields, "689"@));
    subjects_over(s2, fields_tagged(m.fields, "653"@))
}

/// The headings of every field with this tag, added in record order.
fn add_subjects(subjects: &mut Vec<String>, marc: &MarcRecord, tag: &str)
    ensures
        text_views(final(subjects)@) == subjects_over(text_views(old(subjects)@), fields_tagged(marc.view().fields, tag@)),
{
    let marks = subject_marks_vec();
    let fs = marc.fields(tag);
    let ghost fv = fields_tagged(marc.view().fields, tag@);
    let ghost start = text_views(subjects@);
    let mut i: usize = 0;
    while i < fs.len()
        invariant
            i <= fs.len(),
            fv == fs@.map_values(|f: &Field| f.view()),
            marks@ == subject_marks(),
            text_views(subjects@) == subjects_over(start, fv.take(i as int)),
        decreases fs.len() - i,
    {
        proof {
            assert(fv.take(i + 1).drop_last() =~= fv.take(i as int));
            assert(fv.take(i + 1).last() == fs@[i as int].view());
        }
        let vals = fs[i].subs('a');
        let ghost cs = crate::text::views(vals@);
        let ghost mid = text_views(subjects@);
        let mut j: usize = 0;
        while j < vals.len()
            invariant
                j <= vals.len(),
                cs == crate::text::views(vals@),
                marks@ == subject_marks(),
                text_views(subjects@) == subject_values(mid, cs.take(j as int)),
            decreases vals.len() - j,
        {
            proof {
                assert(cs.take(j + 1).drop_last() =~= cs.take(j as int));
                assert(cs.take(j + 1).last() == vals@[j as int]@);
            }
            let h = trimmed(vals[j], &marks);
            if h.as_str().unicode_len() > 0 && !contains_string(subjects, h.as_str()) {
                let ghost before = subjects@;
                let ghost hv = h@;
                subjects.push(h);
                proof {
                    assert(text_views(subjects@) =~= text_views(before).push(hv));
                }
            }
            j = j + 1;
        }
        proof {
            assert(cs.take(j as int) =~= cs);
        }
        i = i + 1;
    }
    proof {
        assert(fv.take(i as int) =~= fv);
    }
}

/// `650$a` ∪ `689$a` ∪ `653$a`, deduplicated by exact text.
fn subjects(marc: &MarcRecord) -> (v: Vec<String>)
    ensures
        text_views(v@) == subjects_spec(marc.view()),
{
    let mut v: Vec<String> = Vec::new();
    proof {
        assert(text_views(v@) =~= Seq::<Seq<char>>::empty());
    }
    add_subjects(&mut v, marc, "650");
    add_subjects(&mut v, marc, "689");
    add_subjects(&mut v, marc, "653");
    v
}


/// What a label says a link is. The vocabulary is matched in lower case; an unlabelled
/// or unrecognised link is `Other`, never a guess.
pub open spec fn url_kind_spec(label: Option<Seq<char>>) -> UrlKind {
    match label {
        None => UrlKind::Other,
        Some(l) => {
            let x = lower_seq(l);
            if contains_seq(x, "volltext"@) || contains_seq(x, "full text"@) || x == "full"@ {
                UrlKind::Fulltext
            } else if contains_seq(x, "inhaltsverzeichnis"@) || contains_seq(x, "table of contents"@) {
                UrlKind::Toc
            } else if contains_seq(x, "cover"@) {
                UrlKind::Cover
            } else if contains_seq(x, "verlag"@) || contains_seq(x, "publisher"@) {
                UrlKind::Publisher
            } else {
                UrlKind::Other
            }
        },
    }
}

/// Classify a link by its label.
pub fn url_kind(label: Option<&str>) -> (k: UrlKind)
    ensures
        k == url_kind_spec(sub_view(label)),
{
    let label = match label {
        Some(l) => l,
        None => {
            return UrlKind::Other;
        },
    };
    let x = to_lower(label);
    let t = x.as_str();
    if contains_text(t, "volltext") || contains_text(t, "full text") || same_text(t, "full") {
        UrlKind::Fulltext
    } else if contains_text(t, "inhaltsverzeichnis") || contains_text(t, "table of contents") {
        UrlKind::Toc
    } else if contains_text(t, "cover") {
        UrlKind::Cover
    } else if contains_text(t, "verlag") || contains_text(t, "publisher") {
        UrlKind::Publisher
    } else {
        UrlKind::Other
    }
}

/// The link text of an `856`: the first of `$3`, `$y`, `$z` that the field has, when it
/// is not empty.
pub open spec fn label_spec(subs: Seq<(char, Seq<char>)>) -> Option<Seq<char>> {
    match first_sub(subs, '3') {
        Some(v) => non_empty_spec(v),
        None => match first_sub(subs, 'y') {
            Some(v) => non_empty_spec(v),
            None => present(first_sub(subs, 'z')),
        },
    }
}

/// The links of one field's `$u` values, added to `acc`.
pub open spec fn url_values(acc: Seq<UrlView>, us: Seq<Seq<char>>, label: Option<Seq<char>>) -> Seq<UrlView>
    decreases us.len(),
{
    if us.len() == 0 {
        acc
    } else {
        let a = url_values(acc, us.drop_last(), label);
        if us.last().len() > 0 {
            a.push(UrlView { url: us.last(), kind: url_kind_spec(label), label })
        } else {
            a
        }
    }
}

/// The links of a run of `856` fields, added to `acc`.
pub open spec fn urls_over(acc: Seq<UrlView>, fs: Seq<FieldView>) -> Seq<UrlView>
    decreases fs.len(),
{
    if fs.len() == 0 {
        acc
    } else {
        url_values(urls_over(acc, fs.drop_last()), all_subs(fs.last().subfields, 'u'), label_spec(fs.last().subfields))
    }
}

/// `856$u`, every non-empty one, with the field's label and what the label says it is.
pub open spec fn urls_spec(m: MarcView) -> Seq<UrlView> {
    urls_over(Seq::empty(), fields_tagged(m.fields, "856"@))
}

/// The link text of an `856`.
fn label_of(field: &Field) -> (r: Option<String>)
    ensures
        opt_view(r) == label_spec(field.view().subfields),
{
    match field.sub('3') {
        Some(v) => non_empty(owned(v)),
        None => match field.sub('y') {
            Some(v) => non_empty(owned(v)),
            None => present_owned(field.sub('z')),
        },
    }
}

/// A copy of an optional text.
fn copy_opt(o: &Option<String>) -> (r: Option<String>)
    ensures
        opt_view(r) == opt_view(*o),
{
    match o {
        Some(s) => Some(owned(s.as_str())),
        None => None,
    }
}

/// `856$u`, with the link text and what it points at.
fn urls(marc: &MarcRecord) -> (v: Vec<ResourceUrl>)
    ensures
        url_views(v@) == urls_spec(marc.view()),
{
    let fs = marc.fields("856");
    let ghost fv = fields_tagged(marc.view().fields, "856"@);
    let mut v: Vec<ResourceUrl> = Vec::new();
    let mut i: usize = 0;
    proof {
        assert(url_views(v@) =~= Seq::<UrlView>::empty());
    }
    while i < fs.len()
        invariant
            i <= fs.len(),
            fv == fs@.map_values(|f: &Field| f.view()),
            url_views(v@) == urls_over(Seq::empty(), fv.take(i as int)),
        decreases fs.len() - i,
    {
        proof {
            assert(fv.take(i + 1).drop_last() =~= fv.take(i as int));
            assert(fv.take(i + 1).last() == fs@[i as int].view());
        }
        let label = label_of(fs[i]);
        let kind = url_kind(match &label {
            Some(l) => Some(l.as_str()),
            None => None,
        });
        let us = fs[i].subs('u');
        let ghost cs = crate::text::views(us@);
        let ghost mid = url_views(v@);
        let mut j: usize = 0;
        while j < us.len()
            invariant
                j <= us.len(),
                cs == crate::text::views(us@),
                kind == url_kind_spec(opt_view(label)),
                url_views(v@) == url_values(mid, cs.take(j as int), opt_view(label)),
            decreases us.len() - j,
        {
            proof {
                assert(cs.take(j + 1).drop_last() =~= cs.take(j as int));
                assert(cs.take(j + 1).last() == us@[j as int]@);
            }
            if us[j].unicode_len() > 0 {
                let u = ResourceUrl { url: owned(us[j]), kind, label: copy_opt(&label) };
                let ghost before = v@;
                let ghost uv = u.view();
                v.push(u);
                proof {
                    assert(url_views(v@) =~= url_views(before).push(uv));
                }
            }
            j = j + 1;
        }
        proof {
            assert(cs.take(j as int) =~= cs);
        }
        i = i + 1;
    }
    proof {
        assert(fv.take(i as int) =~= fv);
    }
    v
}

/// The holding one `924` states: `$b` is the ISIL and, until the library list names
/// it, the library; `$a` the library's own record number. Availability comes later.
pub open spec fn holding_spec(isil: Seq<char>, local: Option<Seq<char>>) -> HoldingView {
    HoldingView {
        isil: Some(isil),
        alias: None,
        library: isil,
        short_name: None,
        local_id: local,
        mine: false,
        summary: Status::Unknown,
        holdings_statement: None,
        items: Seq::empty(),
    }
}

/// The holdings of a run of `924` fields, added to `acc`; a field without `$b` names no
/// library and is skipped.
pub open spec fn holdings_over(acc: Seq<HoldingView>, fs: Seq<FieldView>) -> Seq<HoldingView>
    decreases fs.len(),
{
    if fs.len() == 0 {
        acc
    } else {
        let a = holdings_over(acc, fs.drop_last());
        match present(first_sub(fs.last().subfields, 'b')) {
            Some(b) => a.push(holding_spec(b, present(first_sub(fs.last().subfields, 'a')))),
            None => a,
        }
    }
}

/// The holdings stated in the record, one per `924` that has a `$b`.
pub open spec fn holdings_spec(m: MarcView) -> Seq<HoldingView> {
    holdings_over(Seq::empty(), fields_tagged(m.fields, "924"@))
}

/// The holdings stated in the record.
fn holdings(marc: &MarcRecord) -> (v: Vec<Holding>)
    ensures
        holding_views(v@) == holdings_spec(marc.view()),
{
    let fs = marc.fields("924");
    let ghost fv = fields_tagged(marc.view().fields, "924"@);
    let mut v: Vec<Holding> = Vec::new();
    let mut i: usize = 0;
    proof {
        assert(holding_views(v@) =~= Seq::<HoldingView>::empty());
    }
    while i < fs.len()
        invariant
            i <= fs.len(),
            fv == fs@.map_values(|f: &Field| f.view()),
            holding_views(v@) == holdings_over(Seq::empty(), fv.take(i as int)),
        decreases fs.len() - i,
    {
        proof {
            assert(fv.take(i + 1).drop_last() =~= fv.take(i as int));
            assert(fv.take(i + 1).last() == fs@[i as int].view());
        }
        if let Some(isil) = present_owned(fs[i].sub('b')) {
            let h = Holding {
                isil: Some(Isil::new(isil.as_str())),
                alias: None,
                library: isil,
                short_name: None,
                local_id: present_owned(fs[i].sub('a')),
                mine: false,
                summary: Status::Unknown,
                holdings_statement: None,
                items: Vec::new(),
            };
            let ghost before = v@;
            let ghost hv = h.view();
            proof {
                assert(hv.items =~= Seq::<crate::model::ItemView>::empty());
            }
            v.push(h);
            proof {
                assert(holding_views(v@) =~= holding_views(before).push(hv));
            }
        }
        i = i + 1;
    }
    proof {
        assert(fv.take(i as int) =~= fv);
    }
    v
}

/// A record without an identity.
pub open spec fn missing_001() -> UnexpectedView {
    UnexpectedView::MissingElement { what: "controlfield 001"@, context: "MARCXML record from SRU"@ }
}

/// The record's identity: `001`, trimmed, with its source prefix.
pub open spec fn record_id_spec(m: MarcView) -> Result<Seq<char>, UnexpectedView> {
    match first_control(m.controls, "001"@) {
        None => Err(missing_001()),
        Some(v) => {
            let t = trim_spec(v);
            if t.len() == 0 {
                Err(missing_001())
            } else if is_record_id(t) {
                Ok(t)
            } else {
                Err(unprefixed_id(t))
            }
        },
    }
}

/// The record's identity, from `001`.
fn record_id(marc: &MarcRecord) -> (r: Result<RecordId, Error>)
    ensures
        match r {
            Ok(id) => record_id_spec(marc.view()) == Ok::<Seq<char>, UnexpectedView>(id.id_spec()),
            Err(Error::Unexpected(e)) => record_id_spec(marc.view()) == Err::<Seq<char>, UnexpectedView>(e@),
            Err(_) => false,
        },
{
    let raw = match marc.control("001") {
        Some(v) => trim(v),
        None => String::new(),
    };
    if raw.as_str().unicode_len() == 0 {
        return Err(Error::Unexpected(UnexpectedError::MissingElement {
            what: owned("controlfield 001"),
            context: owned("MARCXML record from SRU"),
        }));
    }
    RecordId::from_catalog(raw.as_str())
}

/// The title field: the first `245` that has a `$a`.
pub open spec fn title_field_spec(m: MarcView) -> Option<FieldView> {
    match first_with_spec(m.fields, "245"@, 'a', 0) {
        Some(k) => Some(m.fields[k]),
        None => None,
    }
}

/// What a MARC record is as a [`Record`]: the identity from `001`, which is the only
/// thing that can fail, and every other field by its own rule.
pub open spec fn record_spec(m: MarcView) -> Result<RecordView, UnexpectedView> {
    match record_id_spec(m) {
        Err(e) => Err(e),
        Ok(id) => {
            let tf = title_field_spec(m);
            let online = online_spec(m);
            Ok(
                RecordView {
                    id,
                    title: title_spec(tf),
                    subtitle: subtitle_spec(tf),
                    authors: authors_spec(m),
                    year: year_spec(m),
                    publisher: imprint_part(m, 'b'),
                    place: imprint_part(m, 'a'),
                    edition: first_a_spec(m, "250"@, title_marks()),
                    extent: first_a_spec(m, "300"@, extent_marks()),
                    languages: languages_spec(m),
                    format: format_spec(m, online),
                    online,
                    isbns: isbns_spec(m),
                    subjects: subjects_spec(m),
                    urls: urls_spec(m),
                    holdings: holdings_spec(m),
                },
            )
        },
    }
}

/// Build a [`Record`] from a MARC record.
///
/// The only failure is the record's identity: a missing `001`, or one without a source
/// prefix. Every other field degrades: a missing `245` yields an empty title, a shifted
/// leader yields [`Format::Unknown`], a record without `924` yields no holdings.
pub fn from_marc(marc: &MarcRecord) -> (r: Result<Record, Error>)
    ensures
        match r {
            Ok(rec) => record_spec(marc.view()) == Ok::<RecordView, UnexpectedView>(rec.view()),
            Err(Error::Unexpected(e)) => record_spec(marc.view()) == Err::<RecordView, UnexpectedView>(e@),
            Err(_) => false,
        },
{
    let id = match record_id(marc) {
        Ok(id) => id,
        Err(e) => {
            return Err(e);
        },
    };
    let title_field = marc.first_with("245", 'a');
    let online = is_online(marc);
    let (place, publisher) = imprint(marc);
    let rec = Record {
        id,
        title: title(title_field),
        subtitle: subtitle(title_field),
        authors: authors(marc),
        year: year(marc),
        publisher,
        place,
        edition: first_a(marc, "250", &title_marks_vec()),
        extent: first_a(marc, "300", &extent_marks_vec()),
        languages: languages(marc),
        format: format(marc, online),
        online,
        isbns: isbns(marc),
        subjects: subjects(marc),
        urls: urls(marc),
        holdings: holdings(marc),
    };
    proof {
        assert(title_field_spec(marc.view()) == match title_field {
            Some(f) => Some(f.view()),
            None => None,
        });
    }
    Ok(rec)
}

/// The availability key of a list of holdings, with the ISILs it already names:
/// `ISIL;LocalId,` for each holding that has both, an ISIL named once, in field order.
pub open spec fn key_parts(hs: Seq<HoldingView>) -> (Seq<char>, Seq<Seq<char>>)
    decreases hs.len(),
{
    if hs.len() == 0 {
        (Seq::empty(), Seq::empty())
    } else {
        let (k, seen) = key_parts(hs.drop_last());
        match (hs.last().isil, hs.last().local_id) {
            (Some(i), Some(l)) => if seen.contains(i) {
                (k, seen)
            } else {
                (k + i + ";"@ + l + ","@, seen.push(i))
            },
            _ => (k, seen),
        }
    }
}

/// Assemble the availability key from the holdings.
///
/// `ISIL;LocalId` pairs joined by commas and terminated by one, as the portal writes it
/// into `data-availability-id`. The ISIL is deduplicated while the field order is kept;
/// the local id is the library's own (`924$a`). `None` when the record has no usable
/// holding: there is then nothing to ask about.
pub fn availability_id(holdings: &Vec<Holding>) -> (r: Option<AvailabilityId>)
    ensures
        match r {
            Some(id) => id.text() == key_parts(holding_views(holdings@)).0 && id.text().len() > 0,
            None => key_parts(holding_views(holdings@)).0.len() == 0,
        },
{
    let ghost hv = holding_views(holdings@);
    let mut key = String::new();
    let mut seen: Vec<&str> = Vec::new();
    let mut i: usize = 0;
    proof {
        assert(hv.take(0) =~= Seq::<HoldingView>::empty());
        assert(crate::text::views(seen@) =~= Seq::<Seq<char>>::empty());
    }
    while i < holdings.len()
        invariant
            i <= holdings.len(),
            hv == holding_views(holdings@),
            key_parts(hv.take(i as int)) == (key@, crate::text::views(seen@)),
        decreases holdings.len() - i,
    {
        proof {
            assert(hv.take(i + 1).drop_last() =~= hv.take(i as int));
            assert(hv.take(i + 1).last() == holdings@[i as int].view());
        }
        let h = &holdings[i];
        match (&h.isil, &h.local_id) {
            (Some(isil), Some(local)) => {
                let mut j: usize = 0;
                let mut found = false;
                while j < seen.len() && !found
                    invariant
                        j <= seen.len(),
                        found ==> crate::text::views(seen@).contains(isil.0@),
                        !found ==> forall|q: int| 0 <= q < j ==> seen@[q]@ != isil.0@,
                    decreases seen.len() - j,
                {
                    if same_text(seen[j], isil.as_str()) {
                        proof {
                            assert(crate::text::views(seen@)[j as int] == isil.0@);
                        }
                        found = true;
                    }
                    j = j + 1;
                }
                proof {
                    if !found {
                        if crate::text::views(seen@).contains(isil.0@) {
                            let q = choose|q: int| 0 <= q < crate::text::views(seen@).len() && crate::text::views(seen@)[q] == isil.0@;
                            assert(seen@[q]@ == isil.0@);
                        }
                    }
                }
                if !found {
                    let ghost before = seen@;
                    let ghost old_key = key@;
                    seen.push(isil.as_str());
                    push_str(&mut key, isil.as_str());
                    push_str(&mut key, ";");
                    push_str(&mut key, local.as_str());
                    push_str(&mut key, ",");
                    proof {
                        reveal_strlit(";");
                        reveal_strlit(",");
                        assert(crate::text::views(seen@) =~= crate::text::views(before).push(isil.0@));
                        assert(key@ =~= old_key + isil.0@ + ";"@ + local@ + ","@);
                        assert(hv.take(i + 1).last().isil == Some(isil.0@));
                        assert(hv.take(i + 1).last().local_id == Some(local@));
                    }
                }
            },
            _ => {},
        }
        i = i + 1;
    }
    proof {
        assert(hv.take(i as int) =~= hv);
    }
    if key.as_str().unicode_len() == 0 {
        None
    } else {
        Some(AvailabilityId::new(key.as_str()))
    }
}


/// The availability key names every ISIL at most once, and it names each ISIL of a
/// holding that carries both an ISIL and a local id: a repeated `924` for the same
/// library can never make the response's keys collide, and no library is left unasked.
pub proof fn availability_key_names_each_isil_once(hs: Seq<HoldingView>)
    ensures
        key_parts(hs).1.no_duplicates(),
        forall|k: int|
            0 <= k < hs.len() && (#[trigger] hs[k]).isil is Some && hs[k].local_id is Some ==> key_parts(hs).1.contains(
                hs[k].isil->0,
            ),
    decreases hs.len(),
{
    if hs.len() > 0 {
        let init = hs.drop_last();
        availability_key_names_each_isil_once(init);
        let (k, seen) = key_parts(init);
        assert forall|j: int|
            0 <= j < hs.len() && (#[trigger] hs[j]).isil is Some && hs[j].local_id is Some implies key_parts(hs).1.contains(
                hs[j].isil->0,
            ) by {
            if j < hs.len() - 1 {
                assert(init[j] == hs[j]);
                let x = hs[j].isil->0;
                assert(seen.contains(x));
                let q = choose|q: int| 0 <= q < seen.len() && seen[q] == x;
                match (hs.last().isil, hs.last().local_id) {
                    (Some(i), Some(l)) => if !seen.contains(i) {
                        assert(seen.push(i)[q] == x);
                    },
                    _ => {},
                }
            } else {
                match (hs.last().isil, hs.last().local_id) {
                    (Some(i), Some(l)) => if !seen.contains(i) {
                        assert(seen.push(i)[seen.len() as int] == i);
                    },
                    _ => {},
                }
            }
        }
        match (hs.last().isil, hs.last().local_id) {
            (Some(i), Some(l)) => if !seen.contains(i) {
                let s2 = seen.push(i);
                assert forall|a: int, b: int| 0 <= a < s2.len() && 0 <= b < s2.len() && a != b implies s2[a] != s2[b] by {
                    if a < seen.len() && b < seen.len() {
                    } else if a == seen.len() {
                        assert(seen[b] == s2[b]);
                    } else {
                        assert(seen[a] == s2[a]);
                    }
                }
            },
            _ => {},
        }
    }
}

/// A MARC record whose leader says language material (`a` at 06) at a monograph level
/// (`m` at 07) converts to an e-book when it is online and to a printed book when it is
/// not; a `007` beginning with `cr` makes it online.
pub proof fn law_an_online_monograph_is_an_ebook(m: MarcView, r: RecordView)
    requires
        record_spec(m) == Ok::<RecordView, UnexpectedView>(r),
        m.leader.len() > 7,
        m.leader[6] == 'a',
        m.leader[7] == 'm',
    ensures
        r.online ==> r.format == Format::Ebook,
        !r.online ==> r.format == Format::Book,
        (exists|i: int| 0 <= i < all_controls(m.controls, "007"@).len() && is_prefix("cr"@, #[trigger] all_controls(m.controls, "007"@)[i]))
            ==> r.online && r.format == Format::Ebook,
{
}

/// A MARC record whose leader says language material (`a` at 06) that is a serial (`s`
/// at 07) converts to an e-journal when it is online and to a journal when it is not.
pub proof fn law_an_online_serial_is_an_ejournal(m: MarcView, r: RecordView)
    requires
        record_spec(m) == Ok::<RecordView, UnexpectedView>(r),
        m.leader.len() > 7,
        m.leader[6] == 'a',
        m.leader[7] == 's',
    ensures
        r.online ==> r.format == Format::Ejournal,
        !r.online ==> r.format == Format::Journal,
{
}

} // verus!
