//! A voebb.de record page, read as the values it states.
//!
//! The page is a run of labelled rows (`table.gi`) and an item table
//! (`table#resptable-1`). The rules that turn those values into a record live here: how
//! the ISBD title splits, which year an imprint states, what a `Medienart` is, what the
//! availability cell and the order column say about a copy. A value this module does not
//! know is `Unknown` plus a note, never a guess.
use vstd::prelude::*;
use crate::libraries::digits_value;
use crate::libraries::{name_holding, named_holding, VOEBB_NETWORK};
use crate::model::{
    author_views, url_views, Author, AuthorKind, AuthorView, Format, Holding, HoldingView, Isil, Item,
    ItemView, Note, Record, RecordId, RecordView, ResourceUrl, Status, UrlKind, UrlView,
};
use crate::text::{
    chars_of, contains_seq, contains_text, find_text, first_occurrence, fold, fold_spec, is_digit,
    is_space, last_occurrence, owned, push_char, push_str, rfind_text, trim, trim_spec,
    value_of_digit,
};

use crate::error::{Error, UnexpectedView};
use crate::html::{
    attr, end_of, first, html_nodes, html_views, read_html, positions, select, selected, subtree_end, text_below, text_of, HtmlNode,
    HtmlNodeView, Simple, Test,
};
use crate::xml::{collapse_spaces, first_attribute};
use super::items::missing;

verus! {

/// `None` for an empty text.
pub open spec fn ne(s: Seq<char>) -> Option<Seq<char>> {
    if s.len() == 0 {
        None
    } else {
        Some(s)
    }
}

/// An optional text as plain values.
pub open spec fn ov(o: Option<String>) -> Option<Seq<char>> {
    match o {
        Some(s) => Some(s@),
        None => None,
    }
}

/// `None` for an empty string, so that "the cell was blank" and "there is no such
/// column" stay the same thing in the output.
pub fn non_empty(text: &str) -> (r: Option<String>)
    ensures
        ov(r) == ne(text@),
{
    if text.unicode_len() == 0 {
        None
    } else {
        Some(owned(text))
    }
}

/// The characters `[from, to)` of a text.
fn part(c: &Vec<char>, from: usize, to: usize) -> (s: String)
    requires
        from <= to <= c.len(),
    ensures
        s@ == c@.subrange(from as int, to as int),
{
    crate::model::slice_string(c, from, to)
}

/// The title statement before the statement of responsibility (` / `), split at the
/// first ` : ` into title and subtitle. The separators are the spaced ISBD ones, which
/// keeps `Bernhard Schlink: Der Vorleser` in one piece.
pub open spec fn title_of_spec(st: Seq<char>) -> (Seq<char>, Option<Seq<char>>) {
    let w = match first_occurrence(st, " / "@) {
        Some(i) => st.take(i),
        None => st,
    };
    match first_occurrence(w, " : "@) {
        Some(i) => (trim_spec(w.take(i)), ne(trim_spec(w.skip(i + 3)))),
        None => (trim_spec(w), None),
    }
}

/// Title and subtitle out of the ISBD title statement.
pub fn title_of(statement: &str) -> (r: (String, Option<String>))
    ensures
        (r.0@, ov(r.1)) == title_of_spec(statement@),
{
    proof {
        reveal_strlit(" / ");
        reveal_strlit(" : ");
        assert(" / "@.len() == 3);
        assert(" : "@.len() == 3);
    }
    let c = chars_of(statement);
    let w = match find_text(statement, " / ") {
        Some(i) => part(&c, 0, i),
        None => owned(statement),
    };
    proof {
        assert(w@ =~= match first_occurrence(statement@, " / "@) {
            Some(i) => statement@.take(i),
            None => statement@,
        });
    }
    let wc = chars_of(w.as_str());
    match find_text(w.as_str(), " : ") {
        Some(i) => {
            let t = part(&wc, 0, i);
            let s = part(&wc, i + 3, wc.len());
            proof {
                assert(s@ =~= w@.skip(i + 3));
            }
            (trim(t.as_str()), non_empty(trim(s.as_str()).as_str()))
        },
        None => (trim(w.as_str()), None),
    }
}

/// A group of digits closed: when it is exactly four digits and a year this catalogue
/// can hold (1000 to 2999), it becomes the latest year seen.
pub open spec fn close_group(group: Seq<char>, acc: Option<int>) -> Option<int> {
    if group.len() == 4 && 1000 <= digits_value(group) < 3000 {
        Some(digits_value(group) as int)
    } else {
        acc
    }
}

/// The last four-digit year of `t`, with `group` the digits standing before it and
/// `acc` the last year found before that.
pub open spec fn year_scan(t: Seq<char>, group: Seq<char>, acc: Option<int>) -> Option<int>
    decreases t.len(),
{
    if t.len() == 0 {
        close_group(group, acc)
    } else if is_digit(t[0]) {
        year_scan(t.drop_first(), group.push(t[0]), acc)
    } else {
        year_scan(t.drop_first(), Seq::empty(), close_group(group, acc))
    }
}

/// The publication year: the last run of exactly four digits in the statement that is a
/// year between 1000 and 2999. The last, not the first: a place or a series title can
/// carry digits of its own.
pub open spec fn year_of_spec(t: Seq<char>) -> Option<int> {
    year_scan(t, Seq::empty(), None)
}

/// The publication year of an imprint statement.
pub fn year_of(publication: &str) -> (r: Option<i32>)
    ensures
        match r {
            Some(y) => year_of_spec(publication@) == Some(y as int),
            None => year_of_spec(publication@) is None,
        },
{
    let c = chars_of(publication);
    let ghost mut group: Seq<char> = Seq::empty();
    let mut count: usize = 0;
    let mut value: u32 = 0;
    let mut year: Option<i32> = None;
    let mut i: usize = 0;
    proof {
        assert(publication@.skip(0) =~= publication@);
    }
    while i < c.len()
        invariant
            i <= c.len(),
            c@ == publication@,
            count == group.len(),
            count <= i,
            year_of_spec(publication@) == year_scan(publication@.skip(i as int), group, match year {
                Some(y) => Some(y as int),
                None => None,
            }),
            count <= 4 ==> value == digits_value(group),
            count <= 4 ==> value < crate::libraries::pow10(count as nat),
        decreases c.len() - i,
    {
        let x = c[i];
        proof {
            assert(publication@.skip(i as int)[0] == x);
            assert(publication@.skip(i as int).drop_first() =~= publication@.skip(i + 1));
        }
        if '0' <= x && x <= '9' {
            if count < 4 {
                proof {
                    assert(group.push(x).drop_last() =~= group);
                    assert(crate::libraries::pow10((count + 1) as nat) == 10 * crate::libraries::pow10(count as nat));
                    reveal_with_fuel(crate::libraries::pow10, 5);
                }
                value = value * 10 + value_of_digit(x);
            }
            proof {
                group = group.push(x);
            }
            count = count + 1;
        } else {
            proof {
                reveal_with_fuel(crate::libraries::pow10, 5);
            }
            if count == 4 && 1000 <= value && value < 3000 {
                year = Some(value as i32);
            }
            proof {
                group = Seq::empty();
            }
            count = 0;
            value = 0;
        }
        i = i + 1;
    }
    proof {
        assert(publication@.skip(i as int) =~= Seq::<char>::empty());
        reveal_with_fuel(crate::libraries::pow10, 5);
    }
    if count == 4 && 1000 <= value && value < 3000 {
        year = Some(value as i32);
    }
    year
}

/// Place and publisher out of `Ort : Verlag, Jahr`. The year is cut off the publisher
/// only when the tail after the last `, ` is one, so a comma'd place or a publisher
/// without a year stays whole.
pub open spec fn imprint_of_spec(p: Seq<char>) -> (Option<Seq<char>>, Option<Seq<char>>) {
    match first_occurrence(p, " : "@) {
        None => (None, ne(trim_spec(p))),
        Some(i) => {
            let rest = p.skip(i + 3);
            let publisher = match last_occurrence(rest, ", "@) {
                Some(j) => if year_of_spec(rest.skip(j + 2)) is Some {
                    rest.take(j)
                } else {
                    rest
                },
                None => rest,
            };
            (ne(trim_spec(p.take(i))), ne(trim_spec(publisher)))
        },
    }
}

/// Place and publisher out of an imprint statement.
pub fn imprint_of(publication: &str) -> (r: (Option<String>, Option<String>))
    ensures
        (ov(r.0), ov(r.1)) == imprint_of_spec(publication@),
{
    proof {
        reveal_strlit(" : ");
        reveal_strlit(", ");
    }
    let c = chars_of(publication);
    let i = match find_text(publication, " : ") {
        Some(i) => i,
        None => {
            return (None, non_empty(trim(publication).as_str()));
        },
    };
    let place = part(&c, 0, i);
    let rest = part(&c, i + 3, c.len());
    proof {
        assert(rest@ =~= publication@.skip(i + 3));
    }
    let rc = chars_of(rest.as_str());
    let publisher = match rfind_text(rest.as_str(), ", ") {
        Some(j) => {
            let tail = part(&rc, j + 2, rc.len());
            proof {
                assert(tail@ =~= rest@.skip(j + 2));
            }
            if year_of(tail.as_str()).is_some() {
                part(&rc, 0, j)
            } else {
                rest
            }
        },
        None => rest,
    };
    (non_empty(trim(place.as_str()).as_str()), non_empty(trim(publisher.as_str()).as_str()))
}

/// `Name [Rolle]` split into its halves at the last `[` and the first `]` after it; a
/// line without both is all name.
pub open spec fn split_role_spec(line: Seq<char>) -> (Seq<char>, Option<Seq<char>>) {
    match last_occurrence(line, "["@) {
        None => (trim_spec(line), None),
        Some(o) => match first_occurrence(line.skip(o), "]"@) {
            None => (trim_spec(line), None),
            Some(k) => (trim_spec(line.take(o)), ne(trim_spec(line.subrange(o + 1, o + k)))),
        },
    }
}

/// Split `Name [Rolle]` into its two halves.
pub fn split_role(line: &str) -> (r: (String, Option<String>))
    ensures
        (r.0@, ov(r.1)) == split_role_spec(line@),
{
    proof {
        reveal_strlit("[");
        reveal_strlit("]");
    }
    let c = chars_of(line);
    let open = match rfind_text(line, "[") {
        Some(o) => o,
        None => {
            return (trim(line), None);
        },
    };
    let after = part(&c, open, c.len());
    proof {
        assert(after@ =~= line@.skip(open as int));
    }
    let close = match find_text(after.as_str(), "]") {
        Some(k) => k,
        None => {
            return (trim(line), None);
        },
    };
    proof {
        assert(after@.subrange(close as int, close + 1) == "]"@);
        assert(after@.subrange(close as int, close + 1)[0] == after@[close as int]);
        assert(after@[close as int] == ']');
        assert(line@.subrange(open as int, open + 1) == "["@);
        assert(after@[0] == '[');
    }
    let name = part(&c, 0, open);
    let role = part(&c, open + 1, open + close);
    (trim(name.as_str()), non_empty(trim(role.as_str()).as_str()))
}

/// Area and shelfmark out of a location cell with no shelfmark column: split at the
/// first ` - ` when both halves hold something; otherwise the cell is all area.
pub open spec fn split_location_spec(st: Seq<char>) -> (Option<Seq<char>>, Option<Seq<char>>) {
    match first_occurrence(st, " - "@) {
        Some(i) => if trim_spec(st.take(i)).len() > 0 && trim_spec(st.skip(i + 3)).len() > 0 {
            (ne(trim_spec(st.take(i))), ne(trim_spec(st.skip(i + 3))))
        } else {
            (ne(st), None)
        },
        None => (ne(st), None),
    }
}

/// Area and shelfmark out of a location cell that has no shelfmark column.
pub fn split_location(stated: &str) -> (r: (Option<String>, Option<String>))
    ensures
        (ov(r.0), ov(r.1)) == split_location_spec(stated@),
{
    proof {
        reveal_strlit(" - ");
    }
    let c = chars_of(stated);
    match find_text(stated, " - ") {
        Some(i) => {
            let area = trim(part(&c, 0, i).as_str());
            let shelf = part(&c, i + 3, c.len());
            proof {
                assert(shelf@ =~= stated@.skip(i + 3));
            }
            let shelf = trim(shelf.as_str());
            if area.as_str().unicode_len() > 0 && shelf.as_str().unicode_len() > 0 {
                (non_empty(area.as_str()), non_empty(shelf.as_str()))
            } else {
                (non_empty(stated), None)
            }
        },
        None => (non_empty(stated), None),
    }
}

/// Whether every character is an ASCII digit.
pub open spec fn digits_only(s: Seq<char>) -> bool {
    forall|i: int| 0 <= i < s.len() ==> is_digit(#[trigger] s[i])
}

/// One field of a date: trimmed, ASCII digits and nothing else, a number that fits in a
/// `u32`.
pub open spec fn date_field(f: Seq<char>) -> Option<nat> {
    let t = trim_spec(f);
    if t.len() > 0 && digits_only(t) && digits_value(t) <= u32::MAX {
        Some(digits_value(t))
    } else {
        None
    }
}

/// One field of a date; `+9` and `٩` are not numbers here.
pub fn date_field_of(field: &str) -> (r: Option<u32>)
    ensures
        match r {
            Some(n) => date_field(field@) == Some(n as nat),
            None => date_field(field@) is None,
        },
{
    let t = trim(field);
    let c = chars_of(t.as_str());
    if c.len() == 0 {
        return None;
    }
    let mut v: u64 = 0;
    let mut i: usize = 0;
    while i < c.len()
        invariant
            i <= c.len(),
            c@ == trim_spec(field@),
            digits_only(c@.take(i as int)),
            v == digits_value(c@.take(i as int)),
            v <= u32::MAX,
        decreases c.len() - i,
    {
        let x = c[i];
        proof {
            assert(c@.take(i + 1).drop_last() =~= c@.take(i as int));
            assert(c@.take(i + 1).last() == x);
        }
        if !('0' <= x && x <= '9') {
            proof {
                assert(!is_digit(c@[i as int]));
            }
            return None;
        }
        let next = v * 10 + value_of_digit(x) as u64;
        if next > 0xffff_ffff {
            proof {
                assert(digits_only(c@.take(i + 1)));
                assert(digits_value(c@.take(i + 1)) == next);
                if digits_only(c@) {
                    lemma_digits_grow(c@, i as int + 1);
                }
            }
            return None;
        }
        v = next;
        i = i + 1;
    }
    proof {
        assert(c@.take(i as int) =~= c@);
    }
    Some(v as u32)
}

/// A run of digits never has a smaller value than any of its prefixes.
proof fn lemma_digits_grow(s: Seq<char>, k: int)
    requires
        0 <= k <= s.len(),
        digits_only(s),
    ensures
        digits_value(s.take(k)) <= digits_value(s),
    decreases s.len() - k,
{
    if k < s.len() {
        lemma_digits_grow(s, k + 1);
        assert(s.take(k + 1).drop_last() =~= s.take(k));
    } else {
        assert(s.take(k) =~= s);
    }
}

/// Whether a text is ASCII digits only.
pub fn all_digits(s: &str) -> (r: bool)
    ensures
        r == digits_only(s@),
{
    let c = chars_of(s);
    let mut k: usize = 0;
    while k < c.len()
        invariant
            k <= c.len(),
            c@ == s@,
            forall|q: int| 0 <= q < k ==> is_digit(#[trigger] s@[q]),
        decreases c.len() - k,
    {
        if !('0' <= c[k] && c[k] <= '9') {
            proof {
                assert(!is_digit(s@[k as int]));
            }
            return false;
        }
        k = k + 1;
    }
    true
}

/// A number below 100 in two digits.
pub open spec fn two_digits(n: nat) -> Seq<char> {
    seq![crate::text::digit_char(n / 10), crate::text::digit_char(n % 10)]
}

/// `22.9.2026` as `2026-09-22`: three fields separated by `.`, day 1 to 31, month 1 to
/// 12, a year of exactly four digits. A range check and not a calendar: `31.2.2026`
/// passes, because a date the site printed is quoted, not computed with.
pub open spec fn due_date_spec(s: Seq<char>) -> Option<Seq<char>> {
    match first_occurrence(s, "."@) {
        None => None,
        Some(a) => {
            let r1 = s.skip(a + 1);
            match first_occurrence(r1, "."@) {
                None => None,
                Some(b) => {
                    let r2 = r1.skip(b + 1);
                    let y = trim_spec(r2);
                    if first_occurrence(r2, "."@) is Some || y.len() != 4 || !digits_only(y) {
                        None
                    } else {
                        match (date_field(s.take(a)), date_field(r1.take(b))) {
                            (Some(d), Some(m)) => if 1 <= d <= 31 && 1 <= m <= 12 {
                                Some(y + "-"@ + two_digits(m) + "-"@ + two_digits(d))
                            } else {
                                None
                            },
                            _ => None,
                        }
                    }
                },
            }
        },
    }
}

/// Append a number below 100 in two digits.
fn push_two(s: &mut String, n: u32)
    requires
        n < 100,
    ensures
        final(s)@ == old(s)@ + two_digits(n as nat),
{
    push_char(s, crate::text::char_for_digit(n / 10));
    push_char(s, crate::text::char_for_digit(n % 10));
    proof {
        assert(final(s)@ =~= old(s)@ + two_digits(n as nat));
    }
}

/// `22.9.2026` → `2026-09-22`, or `None` for anything that is not that.
pub fn parse_due_date(stated: &str) -> (r: Option<String>)
    ensures
        ov(r) == due_date_spec(stated@),
{
    proof {
        reveal_strlit(".");
        reveal_strlit("-");
        assert("."@.len() == 1);
    }
    let c = chars_of(stated);
    let a = find_text(stated, ".")?;
    let r1 = part(&c, a + 1, c.len());
    proof {
        assert(r1@ =~= stated@.skip(a + 1));
    }
    let c1 = chars_of(r1.as_str());
    let b = find_text(r1.as_str(), ".")?;
    let r2 = part(&c1, b + 1, c1.len());
    proof {
        assert(r2@ =~= r1@.skip(b + 1));
    }
    if find_text(r2.as_str(), ".").is_some() {
        return None;
    }
    let y = trim(r2.as_str());
    if y.as_str().unicode_len() != 4 || !all_digits(y.as_str()) {
        return None;
    }
    let day = date_field_of(part(&c, 0, a).as_str())?;
    let month = date_field_of(part(&c1, 0, b).as_str())?;
    if !(1 <= day && day <= 31 && 1 <= month && month <= 12) {
        return None;
    }
    let mut out = owned(y.as_str());
    push_str(&mut out, "-");
    push_two(&mut out, month);
    push_str(&mut out, "-");
    push_two(&mut out, day);
    Some(out)
}

/// The three markers of the order column that keep a copy in the building, folded.
pub open spec fn reference_marker(order: Seq<char>) -> bool {
    let f = fold_spec(order);
    contains_seq(f, "prasenz"@) || contains_seq(f, "nicht entleihbar"@) || contains_seq(f, "nicht bestellbar"@)
}

/// Whether the order column says this copy cannot leave the building: `Präsenzbestand`,
/// `nicht entleihbar`, `Nicht bestellbar`. Präsenz is not availability.
pub fn is_reference(order_option: Option<&str>) -> (r: bool)
    ensures
        r == match order_option {
            Some(o) => reference_marker(o@),
            None => false,
        },
{
    let order = match order_option {
        Some(o) => fold(o),
        None => {
            return false;
        },
    };
    contains_text(order.as_str(), "prasenz") || contains_text(order.as_str(), "nicht entleihbar") || contains_text(
        order.as_str(),
        "nicht bestellbar",
    )
}


/// Whether a character is a square bracket.
pub open spec fn is_bracket(c: char) -> bool {
    c == '[' || c == ']'
}

/// A text without the square brackets at either end.
pub open spec fn unbracketed(s: Seq<char>) -> Seq<char>
    decreases s.len(),
{
    if s.len() > 0 && is_bracket(s[0]) {
        unbracketed(s.drop_first())
    } else if s.len() > 0 && is_bracket(s.last()) {
        unbracketed(s.drop_last())
    } else {
        s
    }
}

/// The `Medienart` value as it is compared: brackets off, trimmed, folded.
pub open spec fn medienart_key(m: Seq<char>) -> Seq<char> {
    fold_spec(trim_spec(unbracketed(m)))
}

/// Material type and the online flag from `Medienart`. The vocabulary is open: what has
/// been measured is mapped and everything else is `Unknown`. `E-Ressource`, `E-Book`
/// and `Onleihe` are e-books and online, `E-Audio` is audio and online; `Konsolenspiel`
/// is an object on a shelf, never an electronic resource.
pub open spec fn format_spec(m: Seq<char>, online: bool) -> (Format, bool) {
    let v = medienart_key(m);
    if v == "e-ressource"@ || v == "e-book"@ || v == "onleihe"@ {
        (Format::Ebook, true)
    } else if v == "e-audio"@ {
        (Format::Audio, true)
    } else if v == "band"@ || v == "buch"@ {
        (Format::Book, online)
    } else if v == "horbuch"@ || v == "cd"@ || v == "tontrager"@ {
        (Format::Audio, online)
    } else if v == "dvd"@ || v == "blu-ray"@ || v == "video"@ {
        (Format::Video, online)
    } else if v == "noten"@ {
        (Format::Score, online)
    } else if v == "karte/plan"@ {
        (Format::Maps, online)
    } else if v == "zeitung"@ || v == "zeitschrift"@ || v == "zeitschriftenartige reihe"@ || v == "zeitschriftenheft"@ {
        (Format::Journal, online)
    } else if v == "konsolenspiel"@ {
        (Format::Object, online)
    } else if v == "medienkombination"@ {
        (Format::Mixed, online)
    } else {
        (Format::Unknown, online)
    }
}

/// The text without the square brackets at either end.
pub fn strip_brackets(m: &str) -> (s: String)
    ensures
        s@ == unbracketed(m@),
{
    let c = chars_of(m);
    let mut from: usize = 0;
    let mut to: usize = c.len();
    proof {
        assert(m@.subrange(0, m@.len() as int) =~= m@);
    }
    while from < to && (c[from] == '[' || c[from] == ']' || c[to - 1] == '[' || c[to - 1] == ']')
        invariant
            from <= to <= c.len(),
            c@ == m@,
            unbracketed(m@) == unbracketed(m@.subrange(from as int, to as int)),
        decreases to - from,
    {
        let ghost t = m@.subrange(from as int, to as int);
        if c[from] == '[' || c[from] == ']' {
            proof {
                assert(t[0] == c@[from as int]);
                assert(t.drop_first() =~= m@.subrange(from + 1, to as int));
            }
            from = from + 1;
        } else {
            proof {
                assert(t[0] == c@[from as int]);
                assert(t.last() == c@[to - 1]);
                assert(t.drop_last() =~= m@.subrange(from as int, to - 1));
            }
            to = to - 1;
        }
    }
    proof {
        let t = m@.subrange(from as int, to as int);
        if from < to {
            assert(t[0] == c@[from as int]);
            assert(t.last() == c@[to - 1]);
        }
    }
    part(&c, from, to)
}

/// Material type and the online flag, from `Medienart`.
pub fn format_of(medienart: &str, online: bool) -> (r: (Format, bool))
    ensures
        r == format_spec(medienart@, online),
{
    let v = fold(trim(strip_brackets(medienart).as_str()).as_str());
    let t = v.as_str();
    if crate::text::same_text(t, "e-ressource") || crate::text::same_text(t, "e-book") || crate::text::same_text(t, "onleihe") {
        (Format::Ebook, true)
    } else if crate::text::same_text(t, "e-audio") {
        (Format::Audio, true)
    } else if crate::text::same_text(t, "band") || crate::text::same_text(t, "buch") {
        (Format::Book, online)
    } else if crate::text::same_text(t, "horbuch") || crate::text::same_text(t, "cd") || crate::text::same_text(t, "tontrager") {
        (Format::Audio, online)
    } else if crate::text::same_text(t, "dvd") || crate::text::same_text(t, "blu-ray") || crate::text::same_text(t, "video") {
        (Format::Video, online)
    } else if crate::text::same_text(t, "noten") {
        (Format::Score, online)
    } else if crate::text::same_text(t, "karte/plan") {
        (Format::Maps, online)
    } else if crate::text::same_text(t, "zeitung") || crate::text::same_text(t, "zeitschrift") || crate::text::same_text(
        t,
        "zeitschriftenartige reihe",
    ) || crate::text::same_text(t, "zeitschriftenheft") {
        (Format::Journal, online)
    } else if crate::text::same_text(t, "konsolenspiel") {
        (Format::Object, online)
    } else if crate::text::same_text(t, "medienkombination") {
        (Format::Mixed, online)
    } else {
        (Format::Unknown, online)
    }
}

/// What the availability cell of one copy says, and the note it needs. The CSS class is
/// the vocabulary, not the word: `available` or `Verfügbar` is in, `notavailable` or
/// `Ausgeliehen`, `Nicht im Regal`, `Verloren` is out. Both at once resolves to the
/// pessimistic one with a note; neither is `Unknown` with a note. An available copy the
/// order column keeps in the building is reference stock. No cell at all is `Unknown`.
pub open spec fn status_spec(cell: Option<(Seq<char>, Seq<char>)>, order: Option<Seq<char>>) -> (Status, Option<(Seq<char>, Seq<char>)>) {
    match cell {
        None => (Status::Unknown, None),
        Some((text, class)) => {
            let available = class == "available"@ || text == "Verfügbar"@;
            let unavailable = class == "notavailable"@ || text == "Ausgeliehen"@ || text == "Nicht im Regal"@ || text
                == "Verloren"@;
            if available && unavailable {
                (
                    Status::Unavailable,
                    Some(
                        (
                            "availability_status_conflict"@,
                            "voebb.de marked a copy "@ + crate::text::debug_text(class) + " and called it "@
                                + crate::text::debug_text(text)
                                + " at the same time; it is reported as unavailable rather than as a loan that may not exist"@,
                        ),
                    ),
                )
            } else if available {
                (
                    if order matches Some(o) && reference_marker(o) {
                        Status::Reference
                    } else {
                        Status::Available
                    },
                    None,
                )
            } else if unavailable {
                (Status::Unavailable, None)
            } else {
                (
                    Status::Unknown,
                    Some(
                        (
                            "availability_unknown_status"@,
                            "voebb.de reported the status "@ + crate::text::debug_text(text)
                                + " for a copy, which blibs does not know; it is shown as unknown rather than assumed to be available"@,
                        ),
                    ),
                )
            }
        },
    }
}

/// The cell of a copy as plain values: its text, whitespace collapsed, and the class of
/// its status marker, trimmed.
pub struct StatusCell {
    pub text: String,
    pub class: String,
}

/// A note's kind and message.
pub open spec fn note_text(n: Option<Note>) -> Option<(Seq<char>, Seq<char>)> {
    match n {
        Some(n) => Some((n.kind@, n.message@)),
        None => None,
    }
}

/// The loan status of one copy, and the note it needs.
pub fn status_of(cell: Option<&StatusCell>, order_option: Option<&str>) -> (r: (Status, Option<Note>))
    ensures
        (r.0, note_text(r.1)) == status_spec(
            match cell {
                Some(c) => Some((c.text@, c.class@)),
                None => None,
            },
            match order_option {
                Some(o) => Some(o@),
                None => None,
            },
        ),
        r.1 matches Some(n) ==> n.records@.len() == 0,
{
    let cell = match cell {
        Some(c) => c,
        None => {
            return (Status::Unknown, None);
        },
    };
    let text = cell.text.as_str();
    let class = cell.class.as_str();
    let available = crate::text::same_text(class, "available") || crate::text::same_text(text, "Verfügbar");
    let unavailable = crate::text::same_text(class, "notavailable") || crate::text::same_text(text, "Ausgeliehen")
        || crate::text::same_text(text, "Nicht im Regal") || crate::text::same_text(text, "Verloren");
    if available && unavailable {
        let qc = crate::text::quoted(class);
        let qt = crate::text::quoted(text);
        let parts = vec![
            "voebb.de marked a copy ",
            qc.as_str(),
            " and called it ",
            qt.as_str(),
            " at the same time; it is reported as unavailable rather than as a loan that may not exist",
        ];
        proof {
            assert(crate::text::views(parts@) =~= seq![
                "voebb.de marked a copy "@,
                crate::text::debug_text(class@),
                " and called it "@,
                crate::text::debug_text(text@),
                " at the same time; it is reported as unavailable rather than as a loan that may not exist"@,
            ]);
            reveal_with_fuel(crate::text::flatten, 6);
        }
        return (Status::Unavailable, Some(Note::new("availability_status_conflict", crate::text::cat(parts))));
    }
    if available {
        if is_reference(order_option) {
            return (Status::Reference, None);
        }
        return (Status::Available, None);
    }
    if unavailable {
        return (Status::Unavailable, None);
    }
    let qt = crate::text::quoted(text);
    let parts = vec![
        "voebb.de reported the status ",
        qt.as_str(),
        " for a copy, which blibs does not know; it is shown as unknown rather than assumed to be available",
    ];
    proof {
        assert(crate::text::views(parts@) =~= seq![
            "voebb.de reported the status "@,
            crate::text::debug_text(text@),
            " for a copy, which blibs does not know; it is shown as unknown rather than assumed to be available"@,
        ]);
        reveal_with_fuel(crate::text::flatten, 4);
    }
    (Status::Unknown, Some(Note::new("availability_unknown_status", crate::text::cat(parts))))
}


/// One labelled row of the bibliographic tables: `<th scope="row">Label</th><td>…</td>`.
#[derive(Debug, Clone, PartialEq, Eq)]
pub struct BibRow {
    /// The label, whitespace collapsed; empty for the permalink row.
    pub label: String,
    /// The value, one entry per `<br>`-separated line, each collapsed and not empty.
    pub values: Vec<String>,
    /// The external links of the value cell, as `(url, text)`.
    pub links: Vec<(String, String)>,
}

/// The bibliographic tables of a detail page, as labelled rows in document order.
#[derive(Debug, Clone, PartialEq, Eq)]
pub struct Bibliographic {
    pub rows: Vec<BibRow>,
}

/// A row as plain values.
pub struct RowView {
    pub label: Seq<char>,
    pub values: Seq<Seq<char>>,
    pub links: Seq<(Seq<char>, Seq<char>)>,
}

impl BibRow {
    /// The row as plain values.
    pub open spec fn view(&self) -> RowView {
        RowView {
            label: self.label@,
            values: self.values@.map_values(|v: String| v@),
            links: self.links@.map_values(|l: (String, String)| (l.0@, l.1@)),
        }
    }
}

/// The views of the rows.
pub open spec fn row_views(v: Seq<BibRow>) -> Seq<RowView> {
    v.map_values(|r: BibRow| r.view())
}

/// The index of the first row whose label is `label`, ASCII case ignored.
pub open spec fn labelled(rows: Seq<RowView>, label: Seq<char>) -> Option<int> {
    if exists|i: int| 0 <= i < rows.len() && crate::text::same_folded(rows[i].label, label) {
        Some(
            choose|i: int|
                0 <= i < rows.len() && crate::text::same_folded(rows[i].label, label) && forall|j: int|
                    0 <= j < i ==> !crate::text::same_folded(#[trigger] rows[j].label, label),
        )
    } else {
        None
    }
}

/// The lines of the first row with this label; none when the page has no such row.
pub open spec fn values_spec(rows: Seq<RowView>, label: Seq<char>) -> Seq<Seq<char>> {
    match labelled(rows, label) {
        Some(i) => rows[i].values,
        None => Seq::empty(),
    }
}

/// The first line of the first row with this label.
pub open spec fn first_spec(rows: Seq<RowView>, label: Seq<char>) -> Option<Seq<char>> {
    let v = values_spec(rows, label);
    if v.len() > 0 {
        Some(v[0])
    } else {
        None
    }
}

impl Bibliographic {
    /// The first row with this label, ASCII case ignored.
    pub fn row(&self, label: &str) -> (r: Option<&BibRow>)
        ensures
            match r {
                Some(row) => labelled(row_views(self.rows@), label@) matches Some(i) && 0 <= i < self.rows@.len() && self.rows@[i]
                    == *row,
                None => labelled(row_views(self.rows@), label@) is None,
            },
    {
        let ghost rv = row_views(self.rows@);
        let mut i: usize = 0;
        while i < self.rows.len()
            invariant
                i <= self.rows.len(),
                rv == row_views(self.rows@),
                forall|j: int| 0 <= j < i ==> !crate::text::same_folded(#[trigger] rv[j].label, label@),
            decreases self.rows.len() - i,
        {
            proof {
                assert(rv[i as int] == self.rows@[i as int].view());
            }
            if crate::text::eq_folded(self.rows[i].label.as_str(), label) {
                proof {
                    let w = choose|w: int|
                        0 <= w < rv.len() && crate::text::same_folded(rv[w].label, label@) && forall|j: int|
                            0 <= j < w ==> !crate::text::same_folded(#[trigger] rv[j].label, label@);
                    if w < i {
                    } else if w > i {
                        assert(!crate::text::same_folded(rv[i as int].label, label@));
                    }
                }
                return Some(&self.rows[i]);
            }
            i = i + 1;
        }
        None
    }

    /// The lines of the first row with this label; empty when the page has no such row.
    pub fn values(&self, label: &str) -> (v: Vec<&str>)
        ensures
            crate::text::views(v@) == values_spec(row_views(self.rows@), label@),
    {
        let mut v: Vec<&str> = Vec::new();
        match self.row(label) {
            Some(row) => {
                let ghost k = labelled(row_views(self.rows@), label@)->0;
                proof {
                    assert(row_views(self.rows@)[k] == self.rows@[k].view());
                }
                let mut i: usize = 0;
                while i < row.values.len()
                    invariant
                        i <= row.values.len(),
                        values_spec(row_views(self.rows@), label@) == row.view().values,
                        crate::text::views(v@) == row.view().values.take(i as int),
                    decreases row.values.len() - i,
                {
                    let ghost before = v@;
                    v.push(row.values[i].as_str());
                    proof {
                        assert(crate::text::views(v@) =~= crate::text::views(before).push(row.values@[i as int]@));
                        assert(row.view().values.take(i + 1) =~= row.view().values.take(i as int).push(row.values@[i as int]@));
                    }
                    i = i + 1;
                }
                proof {
                    assert(row.view().values.take(i as int) =~= row.view().values);
                }
            },
            None => {
                proof {
                    assert(crate::text::views(v@) =~= Seq::<Seq<char>>::empty());
                }
            },
        }
        v
    }

    /// The first line of the first row with this label.
    pub fn first(&self, label: &str) -> (r: Option<&str>)
        ensures
            match r {
                Some(s) => first_spec(row_views(self.rows@), label@) == Some(s@),
                None => first_spec(row_views(self.rows@), label@) is None,
            },
    {
        let v = self.values(label);
        if v.len() > 0 {
            proof {
                assert(crate::text::views(v@)[0] == v@[0]@);
            }
            Some(v[0])
        } else {
            None
        }
    }
}

/// Lines joined with single spaces.
pub open spec fn joined(lines: Seq<Seq<char>>) -> Seq<char>
    decreases lines.len(),
{
    if lines.len() == 0 {
        Seq::empty()
    } else if lines.len() == 1 {
        lines[0]
    } else {
        joined(lines.drop_last()) + " "@ + lines.last()
    }
}

/// Lines joined with single spaces.
fn join_lines(lines: &Vec<&str>) -> (s: String)
    ensures
        s@ == joined(crate::text::views(lines@)),
{
    let ghost lv = crate::text::views(lines@);
    let mut s = String::new();
    let mut i: usize = 0;
    while i < lines.len()
        invariant
            i <= lines.len(),
            lv == crate::text::views(lines@),
            s@ == joined(lv.take(i as int)),
        decreases lines.len() - i,
    {
        proof {
            assert(lv.take(i + 1).drop_last() =~= lv.take(i as int));
            assert(lv.take(i + 1).last() == lines@[i as int]@);
            reveal_strlit(" ");
        }
        if i > 0 {
            push_str(&mut s, " ");
        } else {
            proof {
                assert(lv.take(1) =~= seq![lines@[0]@]);
            }
        }
        push_str(&mut s, lines[i]);
        i = i + 1;
    }
    proof {
        assert(lv.take(i as int) =~= lv);
    }
    s
}

/// The prose `Bestand` line: what the record states about the network's holdings,
/// carried whole, because its `Standort:` and `Signatur:` look like a structure and are
/// not one.
pub open spec fn holdings_statement_spec(rows: Seq<RowView>) -> Option<Seq<char>> {
    let lines = values_spec(rows, "Bestand"@);
    if lines.len() > 0 {
        Some(joined(lines))
    } else {
        None
    }
}

/// What the record states about the network's holdings in prose, or `None`.
pub fn holdings_statement_of(bibliographic: &Bibliographic) -> (r: Option<String>)
    ensures
        ov(r) == holdings_statement_spec(row_views(bibliographic.rows@)),
{
    let lines = bibliographic.values("Bestand");
    if lines.len() > 0 {
        Some(join_lines(&lines))
    } else {
        None
    }
}

/// The index of the first row whose label begins with `Link zu`: the link to an
/// e-lending platform, whichever platform it is.
pub open spec fn lending_index(rows: Seq<RowView>) -> Option<int> {
    if exists|i: int| 0 <= i < rows.len() && crate::text::is_prefix("Link zu"@, rows[i].label) {
        Some(
            choose|i: int|
                0 <= i < rows.len() && crate::text::is_prefix("Link zu"@, rows[i].label) && forall|j: int|
                    0 <= j < i ==> !crate::text::is_prefix("Link zu"@, #[trigger] rows[j].label),
        )
    } else {
        None
    }
}

/// The row that points at the lending platform, when the record has one.
pub fn lending_link(bibliographic: &Bibliographic) -> (r: Option<&BibRow>)
    ensures
        match r {
            Some(row) => lending_index(row_views(bibliographic.rows@)) matches Some(i) && 0 <= i < bibliographic.rows@.len()
                && bibliographic.rows@[i] == *row,
            None => lending_index(row_views(bibliographic.rows@)) is None,
        },
{
    let ghost rv = row_views(bibliographic.rows@);
    let mut i: usize = 0;
    while i < bibliographic.rows.len()
        invariant
            i <= bibliographic.rows.len(),
            rv == row_views(bibliographic.rows@),
            forall|j: int| 0 <= j < i ==> !crate::text::is_prefix("Link zu"@, #[trigger] rv[j].label),
        decreases bibliographic.rows.len() - i,
    {
        proof {
            assert(rv[i as int] == bibliographic.rows@[i as int].view());
        }
        if crate::text::starts_with(bibliographic.rows[i].label.as_str(), "Link zu") {
            proof {
                let w = choose|w: int|
                    0 <= w < rv.len() && crate::text::is_prefix("Link zu"@, rv[w].label) && forall|j: int|
                        0 <= j < w ==> !crate::text::is_prefix("Link zu"@, #[trigger] rv[j].label);
                if w < i {
                } else if w > i {
                    assert(!crate::text::is_prefix("Link zu"@, rv[i as int].label));
                }
            }
            return Some(&bibliographic.rows[i]);
        }
        i = i + 1;
    }
    None
}

/// The loan state the text of a lending link states: `ist verfügbar` is in, `ist
/// ausgeliehen` is out, folded; anything else, and no link, is `Unknown`. The absence of
/// one marker is never read as the other.
pub open spec fn lending_status_spec(row: Option<RowView>) -> Status {
    match row {
        None => Status::Unknown,
        Some(r) => {
            let t = fold_spec(joined(r.values));
            if contains_seq(t, "ist verfugbar"@) {
                Status::Available
            } else if contains_seq(t, "ist ausgeliehen"@) {
                Status::Unavailable
            } else {
                Status::Unknown
            }
        },
    }
}

/// The loan state an electronic title states in the text of its lending link.
pub fn lending_status(row: Option<&BibRow>) -> (r: Status)
    ensures
        r == lending_status_spec(match row {
            Some(x) => Some(x.view()),
            None => None,
        }),
{
    let row = match row {
        Some(x) => x,
        None => {
            return Status::Unknown;
        },
    };
    let mut lines: Vec<&str> = Vec::new();
    let mut i: usize = 0;
    while i < row.values.len()
        invariant
            i <= row.values.len(),
            crate::text::views(lines@) == row.view().values.take(i as int),
        decreases row.values.len() - i,
    {
        let ghost before = lines@;
        lines.push(row.values[i].as_str());
        proof {
            assert(crate::text::views(lines@) =~= crate::text::views(before).push(row.values@[i as int]@));
            assert(row.view().values.take(i + 1) =~= row.view().values.take(i as int).push(row.values@[i as int]@));
        }
        i = i + 1;
    }
    proof {
        assert(row.view().values.take(i as int) =~= row.view().values);
    }
    let t = fold(join_lines(&lines).as_str());
    if contains_text(t.as_str(), "ist verfugbar") {
        Status::Available
    } else if contains_text(t.as_str(), "ist ausgeliehen") {
        Status::Unavailable
    } else {
        Status::Unknown
    }
}


/// The index of the first row labelled `URL`, ASCII case ignored.
pub open spec fn url_row(rows: Seq<RowView>) -> Option<int> {
    labelled(rows, "URL"@)
}

/// Where an electronic title without a lending link says its access is: the first link of
/// its `URL` row, and only when `Medienart` says the record is electronic. Two markers,
/// never one: a printed book carries a `URL` row for its table of contents.
pub open spec fn online_access_spec(rows: Seq<RowView>) -> Option<Seq<char>> {
    let m = match first_spec(rows, "Medienart"@) {
        Some(v) => v,
        None => Seq::empty(),
    };
    if !format_spec(m, false).1 {
        None
    } else {
        match url_row(rows) {
            Some(i) => if rows[i].links.len() > 0 {
                Some(rows[i].links[0].0)
            } else {
                None
            },
            None => None,
        }
    }
}

/// Where an electronic title without a lending link says its access is, or `None`.
pub fn online_access_url(bibliographic: &Bibliographic) -> (r: Option<&str>)
    ensures
        match r {
            Some(u) => online_access_spec(row_views(bibliographic.rows@)) == Some(u@),
            None => online_access_spec(row_views(bibliographic.rows@)) is None,
        },
{
    let medienart = match bibliographic.first("Medienart") {
        Some(m) => m,
        None => "",
    };
    proof {
        reveal_strlit("");
        assert(medienart@ == match first_spec(row_views(bibliographic.rows@), "Medienart"@) {
            Some(v) => v,
            None => Seq::<char>::empty(),
        });
    }
    if !format_of(medienart, false).1 {
        return None;
    }
    let row = bibliographic.row("URL")?;
    proof {
        let k = labelled(row_views(bibliographic.rows@), "URL"@)->0;
        assert(row_views(bibliographic.rows@)[k] == bibliographic.rows@[k].view());
    }
    if row.links.len() > 0 {
        proof {
            assert(row.view().links[0] == (row.links@[0].0@, row.links@[0].1@));
        }
        Some(row.links[0].0.as_str())
    } else {
        None
    }
}

/// The language names voebb.de prints, with their ISO-639-2/B codes.
pub open spec fn language_table() -> Seq<(Seq<char>, Seq<char>)> {
    seq![
        ("Deutsch"@, "ger"@),
        ("Englisch"@, "eng"@),
        ("Französisch"@, "fre"@),
        ("Spanisch"@, "spa"@),
        ("Italienisch"@, "ita"@),
        ("Niederländisch"@, "dut"@),
        ("Polnisch"@, "pol"@),
        ("Russisch"@, "rus"@),
        ("Türkisch"@, "tur"@),
        ("Arabisch"@, "ara"@),
        ("Portugiesisch"@, "por"@),
        ("Schwedisch"@, "swe"@),
        ("Dänisch"@, "dan"@),
        ("Norwegisch"@, "nor"@),
        ("Finnisch"@, "fin"@),
        ("Tschechisch"@, "cze"@),
        ("Griechisch"@, "gre"@),
        ("Latein"@, "lat"@),
        ("Chinesisch"@, "chi"@),
        ("Japanisch"@, "jpn"@),
        ("Ungarisch"@, "hun"@),
        ("Rumänisch"@, "rum"@),
        ("Ukrainisch"@, "ukr"@),
        ("Hebräisch"@, "heb"@),
        ("Persisch"@, "per"@),
        ("Vietnamesisch"@, "vie"@),
        ("Koreanisch"@, "kor"@),
    ]
}

/// The language table.
fn language_list() -> (v: Vec<(&'static str, &'static str)>)
    ensures
        v@.map_values(|p: (&'static str, &'static str)| (p.0@, p.1@)) == language_table(),
{
    let v = vec![
        ("Deutsch", "ger"),
        ("Englisch", "eng"),
        ("Französisch", "fre"),
        ("Spanisch", "spa"),
        ("Italienisch", "ita"),
        ("Niederländisch", "dut"),
        ("Polnisch", "pol"),
        ("Russisch", "rus"),
        ("Türkisch", "tur"),
        ("Arabisch", "ara"),
        ("Portugiesisch", "por"),
        ("Schwedisch", "swe"),
        ("Dänisch", "dan"),
        ("Norwegisch", "nor"),
        ("Finnisch", "fin"),
        ("Tschechisch", "cze"),
        ("Griechisch", "gre"),
        ("Latein", "lat"),
        ("Chinesisch", "chi"),
        ("Japanisch", "jpn"),
        ("Ungarisch", "hun"),
        ("Rumänisch", "rum"),
        ("Ukrainisch", "ukr"),
        ("Hebräisch", "heb"),
        ("Persisch", "per"),
        ("Vietnamesisch", "vie"),
        ("Koreanisch", "kor"),
    ];
    proof {
        assert(v@.map_values(|p: (&'static str, &'static str)| (p.0@, p.1@)) =~= language_table());
    }
    v
}

/// The code of a language name, folded on both sides; a name not in the table has none.
pub open spec fn code_of(name: Seq<char>) -> Option<Seq<char>> {
    let t = language_table();
    if exists|i: int| 0 <= i < t.len() && fold_spec(t[i].0) == fold_spec(name) {
        Some(t[choose|i: int| 0 <= i < t.len() && fold_spec(t[i].0) == fold_spec(name) && forall|j: int| 0 <= j < i ==> fold_spec(#[trigger] t[j].0) != fold_spec(name)].1)
    } else {
        None
    }
}

/// The codes of a `Sprache` cell, each once, in order; a name the table does not carry is
/// left out, because a guessed language is worse than one not stated.
pub open spec fn languages_spec(values: Seq<Seq<char>>) -> Seq<Seq<char>>
    decreases values.len(),
{
    if values.len() == 0 {
        Seq::empty()
    } else {
        let before = languages_spec(values.drop_last());
        match code_of(values.last()) {
            Some(c) => if before.contains(c) {
                before
            } else {
                before.push(c)
            },
            None => before,
        }
    }
}

/// The code of one language name.
fn code_for(name: &str, table: &Vec<(&'static str, &'static str)>) -> (r: Option<&'static str>)
    requires
        table@.map_values(|p: (&'static str, &'static str)| (p.0@, p.1@)) == language_table(),
    ensures
        match r {
            Some(c) => code_of(name@) == Some(c@),
            None => code_of(name@) is None,
        },
{
    let ghost t = language_table();
    let folded = fold(name);
    let mut i: usize = 0;
    while i < table.len()
        invariant
            i <= table.len(),
            table@.map_values(|p: (&'static str, &'static str)| (p.0@, p.1@)) == t,
            t == language_table(),
            folded@ == fold_spec(name@),
            forall|j: int| 0 <= j < i ==> fold_spec(#[trigger] t[j].0) != fold_spec(name@),
        decreases table.len() - i,
    {
        proof {
            assert(t[i as int] == (table@[i as int].0@, table@[i as int].1@));
        }
        let f = fold(table[i].0);
        if crate::text::same_text(f.as_str(), folded.as_str()) {
            proof {
                let w = choose|w: int| 0 <= w < t.len() && fold_spec(t[w].0) == fold_spec(name@) && forall|j: int| 0 <= j < w ==> fold_spec(#[trigger] t[j].0) != fold_spec(name@);
                if w < i {
                } else if w > i {
                    assert(fold_spec(t[i as int].0) != fold_spec(name@));
                }
            }
            return Some(table[i].1);
        }
        i = i + 1;
    }
    None
}

/// The language codes of a `Sprache` cell.
pub fn languages_of(values: &Vec<&str>) -> (v: Vec<String>)
    ensures
        v@.map_values(|s: String| s@) == languages_spec(crate::text::views(values@)),
{
    let table = language_list();
    let ghost vs = crate::text::views(values@);
    let mut codes: Vec<String> = Vec::new();
    let mut i: usize = 0;
    proof {
        assert(codes@.map_values(|s: String| s@) =~= Seq::<Seq<char>>::empty());
    }
    while i < values.len()
        invariant
            i <= values.len(),
            vs == crate::text::views(values@),
            table@.map_values(|p: (&'static str, &'static str)| (p.0@, p.1@)) == language_table(),
            codes@.map_values(|s: String| s@) == languages_spec(vs.take(i as int)),
        decreases values.len() - i,
    {
        proof {
            assert(vs.take(i + 1).drop_last() =~= vs.take(i as int));
            assert(vs.take(i + 1).last() == values@[i as int]@);
        }
        if let Some(code) = code_for(values[i], &table) {
            let mut j: usize = 0;
            let mut seen = false;
            let ghost cv = codes@.map_values(|s: String| s@);
            while j < codes.len() && !seen
                invariant
                    j <= codes.len(),
                    cv == codes@.map_values(|s: String| s@),
                    seen ==> cv.contains(code@),
                    !seen ==> forall|q: int| 0 <= q < j ==> cv[q] != code@,
                decreases codes.len() - j,
            {
                if crate::text::same_text(codes[j].as_str(), code) {
                    proof {
                        assert(cv[j as int] == code@);
                    }
                    seen = true;
                }
                j = j + 1;
            }
            if !seen {
                proof {
                    if cv.contains(code@) {
                        let q = choose|q: int| 0 <= q < cv.len() && cv[q] == code@;
                        assert(cv[q] == code@);
                    }
                }
                let ghost before = codes@;
                codes.push(owned(code));
                proof {
                    assert(codes@.map_values(|s: String| s@) =~= before.map_values(|s: String| s@).push(code@));
                }
            }
        }
        i = i + 1;
    }
    proof {
        assert(vs.take(i as int) =~= vs);
    }
    codes
}

/// Whether a character ends the first token of an ISBN line.
pub open spec fn isbn_separator(c: char) -> bool {
    c == ' ' || c == ':' || c == ';'
}

/// The first token of an ISBN line: everything before the first space, `:` or `;`.
pub open spec fn isbn_token(line: Seq<char>) -> Seq<char> {
    if exists|i: int| 0 <= i < line.len() && isbn_separator(line[i]) {
        line.take(choose|i: int| 0 <= i < line.len() && isbn_separator(line[i]) && forall|j: int| 0 <= j < i ==> !isbn_separator(#[trigger] line[j]))
    } else {
        line
    }
}

/// Whether a token is ten or thirteen ASCII digits, an `x` or `X` allowed last.
pub open spec fn isbn_shape(d: Seq<char>) -> bool {
    (d.len() == 10 || d.len() == 13) && forall|i: int|
        0 <= i < d.len() ==> (is_digit(#[trigger] d[i]) || (i == d.len() - 1 && (d[i] == 'x' || d[i] == 'X')))
}

/// An ISBN line normalised: its first token without hyphens, when that has the shape of
/// an ISBN; a lower-case `x` upper-cased. A price or a binding note is no ISBN.
pub open spec fn isbn_spec(line: Seq<char>) -> Option<Seq<char>> {
    let d = crate::text::without(isbn_token(line), '-');
    if isbn_shape(d) {
        Some(d.map_values(|c: char| if c == 'x' { 'X' } else { c }))
    } else {
        None
    }
}

/// One ISBN line, normalised; `None` when the line is not an ISBN.
pub fn normalise_isbn(line: &str) -> (r: Option<String>)
    ensures
        ov(r) == isbn_spec(line@),
{
    let c = chars_of(line);
    let mut k: usize = 0;
    while k < c.len() && !(c[k] == ' ' || c[k] == ':' || c[k] == ';')
        invariant
            k <= c.len(),
            c@ == line@,
            forall|j: int| 0 <= j < k ==> !isbn_separator(#[trigger] line@[j]),
        decreases c.len() - k,
    {
        k = k + 1;
    }
    proof {
        if k < c.len() {
            assert(isbn_separator(line@[k as int]));
            let w = choose|w: int| 0 <= w < line@.len() && isbn_separator(line@[w]) && forall|j: int| 0 <= j < w ==> !isbn_separator(#[trigger] line@[j]);
            if w < k {
                assert(!isbn_separator(line@[w]));
            } else if w > k {
                assert(!isbn_separator(line@[k as int]));
            }
        } else {
            assert(line@.take(k as int) =~= line@);
        }
    }
    let token = part(&c, 0, k);
    let d = crate::text::remove_char(token.as_str(), '-');
    let dc = chars_of(d.as_str());
    if !(dc.len() == 10 || dc.len() == 13) {
        return None;
    }
    proof {
        assert(token@ == isbn_token(line@));
    }
    let mut out = String::new();
    let mut i: usize = 0;
    while i < dc.len()
        invariant
            i <= dc.len(),
            dc@ == d@,
            d@ == crate::text::without(isbn_token(line@), '-'),
            dc.len() == 10 || dc.len() == 13,
            forall|q: int| 0 <= q < i ==> (is_digit(#[trigger] d@[q]) || (q == d@.len() - 1 && (d@[q] == 'x' || d@[q] == 'X'))),
            out@ == d@.take(i as int).map_values(|c: char| if c == 'x' { 'X' } else { c }),
        decreases dc.len() - i,
    {
        let x = dc[i];
        let ok = ('0' <= x && x <= '9') || (i == dc.len() - 1 && (x == 'x' || x == 'X'));
        if !ok {
            proof {
                assert(!(is_digit(d@[i as int]) || (i == d@.len() - 1 && (d@[i as int] == 'x' || d@[i as int] == 'X'))));
            }
            return None;
        }
        let y = if x == 'x' { 'X' } else { x };
        let ghost before = out@;
        push_char(&mut out, y);
        proof {
            assert(d@.take(i + 1).map_values(|c: char| if c == 'x' { 'X' } else { c }) =~= before.push(y));
        }
        i = i + 1;
    }
    proof {
        assert(d@.take(i as int) =~= d@);
    }
    Some(out)
}

/// The ISBNs of an `ISBN` cell, normalised, each once.
pub open spec fn isbns_spec(values: Seq<Seq<char>>) -> Seq<Seq<char>>
    decreases values.len(),
{
    if values.len() == 0 {
        Seq::empty()
    } else {
        let before = isbns_spec(values.drop_last());
        match isbn_spec(values.last()) {
            Some(i) => if before.contains(i) {
                before
            } else {
                before.push(i)
            },
            None => before,
        }
    }
}

/// Whether a list of strings contains this text.
fn contains_string(v: &Vec<String>, t: &str) -> (r: bool)
    ensures
        r == v@.map_values(|s: String| s@).contains(t@),
{
    let ghost sv = v@.map_values(|s: String| s@);
    let mut i: usize = 0;
    while i < v.len()
        invariant
            i <= v.len(),
            sv == v@.map_values(|s: String| s@),
            forall|q: int| 0 <= q < i ==> sv[q] != t@,
        decreases v.len() - i,
    {
        if crate::text::same_text(v[i].as_str(), t) {
            proof {
                assert(sv[i as int] == t@);
            }
            return true;
        }
        i = i + 1;
    }
    proof {
        if sv.contains(t@) {
            let q = choose|q: int| 0 <= q < sv.len() && sv[q] == t@;
            assert(sv[q] == t@);
        }
    }
    false
}

/// The ISBNs of an `ISBN` cell, hyphens removed.
pub fn isbns_of(values: &Vec<&str>) -> (v: Vec<String>)
    ensures
        v@.map_values(|s: String| s@) == isbns_spec(crate::text::views(values@)),
{
    let ghost vs = crate::text::views(values@);
    let mut out: Vec<String> = Vec::new();
    let mut i: usize = 0;
    proof {
        assert(out@.map_values(|s: String| s@) =~= Seq::<Seq<char>>::empty());
    }
    while i < values.len()
        invariant
            i <= values.len(),
            vs == crate::text::views(values@),
            out@.map_values(|s: String| s@) == isbns_spec(vs.take(i as int)),
        decreases values.len() - i,
    {
        proof {
            assert(vs.take(i + 1).drop_last() =~= vs.take(i as int));
            assert(vs.take(i + 1).last() == values@[i as int]@);
        }
        if let Some(isbn) = normalise_isbn(values[i]) {
            if !contains_string(&out, isbn.as_str()) {
                let ghost before = out@;
                let ghost iv = isbn@;
                out.push(isbn);
                proof {
                    assert(out@.map_values(|s: String| s@) =~= before.map_values(|s: String| s@).push(iv));
                }
            }
        }
        i = i + 1;
    }
    proof {
        assert(vs.take(i as int) =~= vs);
    }
    out
}

/// A text split at every `;`, as `str::split` splits it: always at least one part.
pub open spec fn semicolon_parts(s: Seq<char>) -> Seq<Seq<char>>
    decreases s.len(),
{
    if s.len() == 0 {
        seq![Seq::empty()]
    } else {
        let before = semicolon_parts(s.drop_last());
        if s.last() == ';' {
            before.push(Seq::empty())
        } else {
            before.update(before.len() - 1, before.last().push(s.last()))
        }
    }
}

proof fn lemma_parts_nonempty(s: Seq<char>)
    ensures
        semicolon_parts(s).len() >= 1,
    decreases s.len(),
{
    if s.len() > 0 {
        lemma_parts_nonempty(s.drop_last());
    }
}

/// One subject term: the non-sorting marks `¬` removed, whitespace collapsed.
pub open spec fn subject_term(t: Seq<char>) -> Seq<char> {
    crate::xml::collapse_spaces(crate::text::without(t, '¬'))
}

/// The terms of one chain added to `acc`, each once, empty ones dropped.
pub open spec fn terms_over(acc: Seq<Seq<char>>, ts: Seq<Seq<char>>) -> Seq<Seq<char>>
    decreases ts.len(),
{
    if ts.len() == 0 {
        acc
    } else {
        let before = terms_over(acc, ts.drop_last());
        let t = subject_term(ts.last());
        if t.len() > 0 && !before.contains(t) {
            before.push(t)
        } else {
            before
        }
    }
}

/// The terms of the `Schlagwortkette` cells: each cell a chain of terms joined by `;`,
/// the union's non-sorting marks out, each term once.
pub open spec fn subjects_spec(values: Seq<Seq<char>>) -> Seq<Seq<char>>
    decreases values.len(),
{
    if values.len() == 0 {
        Seq::empty()
    } else {
        terms_over(subjects_spec(values.drop_last()), semicolon_parts(values.last()))
    }
}

/// A text split at every `;`.
fn split_semicolons(s: &str) -> (v: Vec<String>)
    ensures
        v@.map_values(|x: String| x@) == semicolon_parts(s@),
{
    let c = chars_of(s);
    let mut v: Vec<String> = Vec::new();
    let mut cur = String::new();
    let mut i: usize = 0;
    while i < c.len()
        invariant
            i <= c.len(),
            c@ == s@,
            v@.map_values(|x: String| x@).push(cur@) == semicolon_parts(s@.take(i as int)),
        decreases c.len() - i,
    {
        proof {
            assert(s@.take(i + 1).drop_last() =~= s@.take(i as int));
            assert(s@.take(i + 1).last() == c@[i as int]);
            lemma_parts_nonempty(s@.take(i as int));
        }
        if c[i] == ';' {
            let ghost before = v@;
            let ghost cv = cur@;
            let done = cur;
            v.push(done);
            cur = String::new();
            proof {
                assert(v@.map_values(|x: String| x@) =~= before.map_values(|x: String| x@).push(cv));
                assert(v@.map_values(|x: String| x@).push(cur@) =~= before.map_values(|x: String| x@).push(cv).push(Seq::empty()));
            }
        } else {
            let ghost cv = cur@;
            push_char(&mut cur, c[i]);
            proof {
                let p = v@.map_values(|x: String| x@);
                assert(p.push(cur@) =~= p.push(cv).update(p.len() as int, cv.push(c@[i as int])));
            }
        }
        i = i + 1;
    }
    proof {
        assert(s@.take(i as int) =~= s@);
    }
    let ghost before = v@;
    let ghost cv = cur@;
    v.push(cur);
    proof {
        assert(v@.map_values(|x: String| x@) =~= before.map_values(|x: String| x@).push(cv));
    }
    v
}

/// The terms of the `Schlagwortkette` cells.
pub fn subjects_of(values: &Vec<&str>) -> (v: Vec<String>)
    ensures
        v@.map_values(|s: String| s@) == subjects_spec(crate::text::views(values@)),
{
    let ghost vs = crate::text::views(values@);
    let mut out: Vec<String> = Vec::new();
    let mut i: usize = 0;
    proof {
        assert(out@.map_values(|s: String| s@) =~= Seq::<Seq<char>>::empty());
    }
    while i < values.len()
        invariant
            i <= values.len(),
            vs == crate::text::views(values@),
            out@.map_values(|s: String| s@) == subjects_spec(vs.take(i as int)),
        decreases values.len() - i,
    {
        proof {
            assert(vs.take(i + 1).drop_last() =~= vs.take(i as int));
            assert(vs.take(i + 1).last() == values@[i as int]@);
        }
        let terms = split_semicolons(values[i]);
        let ghost tv = terms@.map_values(|x: String| x@);
        let ghost start = out@.map_values(|s: String| s@);
        let mut j: usize = 0;
        while j < terms.len()
            invariant
                j <= terms.len(),
                tv == terms@.map_values(|x: String| x@),
                out@.map_values(|s: String| s@) == terms_over(start, tv.take(j as int)),
            decreases terms.len() - j,
        {
            proof {
                assert(tv.take(j + 1).drop_last() =~= tv.take(j as int));
                assert(tv.take(j + 1).last() == terms@[j as int]@);
            }
            let t = crate::xml::collapse(crate::text::remove_char(terms[j].as_str(), '¬').as_str());
            if t.as_str().unicode_len() > 0 && !contains_string(&out, t.as_str()) {
                let ghost before = out@;
                let ghost x = t@;
                out.push(t);
                proof {
                    assert(out@.map_values(|s: String| s@) =~= before.map_values(|s: String| s@).push(x));
                }
            }
            j = j + 1;
        }
        proof {
            assert(tv.take(j as int) =~= tv);
        }
        i = i + 1;
    }
    proof {
        assert(vs.take(i as int) =~= vs);
    }
    out
}


/// The lines that name people: `Verfasser`, then `Person`.
pub open spec fn name_lines(rows: Seq<RowView>) -> Seq<Seq<char>> {
    values_spec(rows, "Verfasser"@) + values_spec(rows, "Person"@)
}

/// Everyone the lines name, each name once: `Name [Rolle]` with the role carried verbatim
/// and in German, every one a person, since the page draws no line between persons and
/// bodies.
pub open spec fn authors_scan(acc: Seq<AuthorView>, lines: Seq<Seq<char>>) -> Seq<AuthorView>
    decreases lines.len(),
{
    if lines.len() == 0 {
        acc
    } else {
        let before = authors_scan(acc, lines.drop_last());
        let (name, role) = split_role_spec(lines.last());
        if name.len() == 0 || exists|i: int| 0 <= i < before.len() && (#[trigger] before[i]).name == name {
            before
        } else {
            before.push(AuthorView { name, kind: AuthorKind::Person, dates: None, gnd: None, role })
        }
    }
}

/// Add the people of these lines.
fn add_people(authors: &mut Vec<Author>, lines: &Vec<&str>)
    ensures
        author_views(final(authors)@) == authors_scan(author_views(old(authors)@), crate::text::views(lines@)),
{
    let ghost ls = crate::text::views(lines@);
    let ghost start = author_views(authors@);
    let mut i: usize = 0;
    while i < lines.len()
        invariant
            i <= lines.len(),
            ls == crate::text::views(lines@),
            author_views(authors@) == authors_scan(start, ls.take(i as int)),
        decreases lines.len() - i,
    {
        proof {
            assert(ls.take(i + 1).drop_last() =~= ls.take(i as int));
            assert(ls.take(i + 1).last() == lines@[i as int]@);
        }
        let (name, role) = split_role(lines[i]);
        let ghost av = author_views(authors@);
        let mut j: usize = 0;
        let mut seen = false;
        while j < authors.len() && !seen
            invariant
                j <= authors.len(),
                av == author_views(authors@),
                seen ==> exists|q: int| 0 <= q < av.len() && (#[trigger] av[q]).name == name@,
                !seen ==> forall|q: int| 0 <= q < j ==> av[q].name != name@,
            decreases authors.len() - j,
        {
            if crate::text::same_text(authors[j].name.as_str(), name.as_str()) {
                proof {
                    assert(av[j as int].name == name@);
                }
                seen = true;
            }
            j = j + 1;
        }
        if name.as_str().unicode_len() > 0 && !seen {
            let a = Author { name, kind: AuthorKind::Person, dates: None, gnd: None, role };
            let ghost before = authors@;
            let ghost v = a.view();
            authors.push(a);
            proof {
                assert(author_views(authors@) =~= author_views(before).push(v));
            }
        }
        i = i + 1;
    }
    proof {
        assert(ls.take(i as int) =~= ls);
    }
}

/// Everyone the page names, from `Verfasser` and `Person` alike.
pub fn authors_of(bibliographic: &Bibliographic) -> (v: Vec<Author>)
    ensures
        author_views(v@) == authors_scan(Seq::empty(), name_lines(row_views(bibliographic.rows@))),
{
    let mut v: Vec<Author> = Vec::new();
    proof {
        assert(author_views(v@) =~= Seq::<AuthorView>::empty());
    }
    let first = bibliographic.values("Verfasser");
    add_people(&mut v, &first);
    let second = bibliographic.values("Person");
    add_people(&mut v, &second);
    proof {
        lemma_authors_scan_concat(
            Seq::empty(),
            values_spec(row_views(bibliographic.rows@), "Verfasser"@),
            values_spec(row_views(bibliographic.rows@), "Person"@),
        );
    }
    v
}

proof fn lemma_authors_scan_concat(acc: Seq<AuthorView>, a: Seq<Seq<char>>, b: Seq<Seq<char>>)
    ensures
        authors_scan(acc, a + b) == authors_scan(authors_scan(acc, a), b),
    decreases b.len(),
{
    if b.len() == 0 {
        assert(a + b =~= a);
    } else {
        lemma_authors_scan_concat(acc, a, b.drop_last());
        assert((a + b).drop_last() =~= a + b.drop_last());
        assert((a + b).last() == b.last());
    }
}

/// What a link under this label points at: a lending link is the resource itself, an
/// `Inhaltsverzeichnis` row the catalogue's scan of the contents, anything else is
/// unclassified rather than guessed.
pub open spec fn link_kind(label: Seq<char>) -> UrlKind {
    if crate::text::is_prefix("Link zu"@, label) {
        UrlKind::Fulltext
    } else if crate::text::is_prefix("Inhaltsverzeichnis"@, label) {
        UrlKind::Toc
    } else {
        UrlKind::Other
    }
}

/// What a link under this label points at.
pub fn url_kind(label: &str) -> (k: UrlKind)
    ensures
        k == link_kind(label@),
{
    if crate::text::starts_with(label, "Link zu") {
        UrlKind::Fulltext
    } else if crate::text::starts_with(label, "Inhaltsverzeichnis") {
        UrlKind::Toc
    } else {
        UrlKind::Other
    }
}

/// The links of one row, added to `acc`: every link but one that names this record's own
/// number, which is the page's permalink.
pub open spec fn row_links(acc: Seq<UrlView>, links: Seq<(Seq<char>, Seq<char>)>, kind: UrlKind, local: Seq<char>) -> Seq<UrlView>
    decreases links.len(),
{
    if links.len() == 0 {
        acc
    } else {
        let before = row_links(acc, links.drop_last(), kind, local);
        let (url, label) = links.last();
        if contains_seq(url, local) {
            before
        } else {
            before.push(UrlView { url, kind, label: ne(label) })
        }
    }
}

/// The links of the rows, in order, classified by the label of their row.
pub open spec fn urls_scan(rows: Seq<RowView>, local: Seq<char>) -> Seq<UrlView>
    decreases rows.len(),
{
    if rows.len() == 0 {
        Seq::empty()
    } else {
        row_links(urls_scan(rows.drop_last(), local), rows.last().links, link_kind(rows.last().label), local)
    }
}

/// The links of the bibliographic tables; a record never points at itself.
pub fn urls_of(bibliographic: &Bibliographic, id: &RecordId) -> (v: Vec<ResourceUrl>)
    ensures
        url_views(v@) == urls_scan(row_views(bibliographic.rows@), id.local_spec()),
{
    let ghost rv = row_views(bibliographic.rows@);
    let local = id.local_id();
    let mut v: Vec<ResourceUrl> = Vec::new();
    let mut i: usize = 0;
    proof {
        assert(url_views(v@) =~= Seq::<UrlView>::empty());
    }
    while i < bibliographic.rows.len()
        invariant
            i <= bibliographic.rows.len(),
            rv == row_views(bibliographic.rows@),
            local@ == id.local_spec(),
            url_views(v@) == urls_scan(rv.take(i as int), id.local_spec()),
        decreases bibliographic.rows.len() - i,
    {
        let row = &bibliographic.rows[i];
        proof {
            assert(rv.take(i + 1).drop_last() =~= rv.take(i as int));
            assert(rv.take(i + 1).last() == row.view());
        }
        let kind = url_kind(row.label.as_str());
        let ghost lv = row.view().links;
        let ghost start = url_views(v@);
        let mut j: usize = 0;
        while j < row.links.len()
            invariant
                j <= row.links.len(),
                lv == row.view().links,
                local@ == id.local_spec(),
                kind == link_kind(row.view().label),
                url_views(v@) == row_links(start, lv.take(j as int), kind, id.local_spec()),
            decreases row.links.len() - j,
        {
            proof {
                assert(lv.take(j + 1).drop_last() =~= lv.take(j as int));
                assert(lv.take(j + 1).last() == (row.links@[j as int].0@, row.links@[j as int].1@));
            }
            let url = row.links[j].0.as_str();
            if !contains_text(url, local) {
                let u = ResourceUrl { url: owned(url), kind, label: non_empty(row.links[j].1.as_str()) };
                let ghost before = v@;
                let ghost uv = u.view();
                v.push(u);
                proof {
                    assert(url_views(v@) =~= url_views(before).push(uv));
                }
            }
            j = j + 1;
        }
        proof {
            assert(lv.take(j as int) =~= lv);
        }
        i = i + 1;
    }
    proof {
        assert(rv.take(i as int) =~= rv);
    }
    v
}

/// The views of a list of copies.
pub open spec fn item_views(v: Seq<Item>) -> Seq<ItemView> {
    v.map_values(|i: Item| i.view())
}

/// The one holding of a voebb.de record: the network itself, `DE-609`, with the record's
/// own number. Its light is the copies' summary, or, with no copies at all, what the
/// record says without them (the lending link); the prose holdings statement rides
/// along. Then the library list names it.
pub open spec fn holding_spec(local: Seq<char>, items: Seq<ItemView>, without_items: Status, statement: Option<Seq<char>>) -> HoldingView {
    named_holding(
        HoldingView {
            isil: Some(VOEBB_NETWORK@),
            alias: None,
            library: Seq::empty(),
            short_name: None,
            local_id: Some(local),
            mine: false,
            summary: if items.len() == 0 {
                without_items
            } else {
                crate::model::summary_spec(items.map_values(|i: ItemView| i.status))
            },
            holdings_statement: statement,
            items,
        },
    )
}

/// The one holding of a voebb.de record: the network itself.
pub fn holding_of(id: &RecordId, items: Vec<Item>, without_items: Status, holdings_statement: Option<String>) -> (h: Holding)
    ensures
        h.view() == holding_spec(id.local_spec(), item_views(items@), without_items, ov(holdings_statement)),
{
    let summary = if items.len() == 0 {
        without_items
    } else {
        let mut statuses: Vec<Status> = Vec::new();
        let mut i: usize = 0;
        while i < items.len()
            invariant
                i <= items.len(),
                statuses@ == item_views(items@).take(i as int).map_values(|x: ItemView| x.status),
            decreases items.len() - i,
        {
            statuses.push(items[i].status);
            proof {
                assert(item_views(items@).take(i + 1).map_values(|x: ItemView| x.status) =~= item_views(items@).take(
                    i as int,
                ).map_values(|x: ItemView| x.status).push(items@[i as int].status));
            }
            i = i + 1;
        }
        proof {
            assert(item_views(items@).take(i as int) =~= item_views(items@));
        }
        Status::summarize(&statuses)
    };
    let ghost iv = item_views(items@);
    let mut holding = Holding {
        isil: Some(Isil::new(VOEBB_NETWORK)),
        alias: None,
        library: String::new(),
        short_name: None,
        local_id: Some(owned(id.local_id())),
        mine: false,
        summary,
        holdings_statement,
        items,
    };
    proof {
        assert(holding.view().items =~= iv);
    }
    name_holding(&mut holding);
    holding
}

/// What a record page states, as a record: title and subtitle from `Titel`, place,
/// publisher and year from `Veröffentlichung`, the people, `Ausgabe`, `Umfang / Format`,
/// the languages, the format from `Medienart` (online as well when a lending link is
/// there), the ISBNs, the subject chains, the links, and the one network holding.
pub open spec fn record_spec(id: RecordId, rows: Seq<RowView>, items: Seq<ItemView>) -> RecordView {
    let or_empty = |o: Option<Seq<char>>| match o {
        Some(v) => v,
        None => Seq::<char>::empty(),
    };
    let (title, subtitle) = title_of_spec(or_empty(first_spec(rows, "Titel"@)));
    let publication = or_empty(first_spec(rows, "Veröffentlichung"@));
    let (place, publisher) = imprint_of_spec(publication);
    let link = match lending_index(rows) {
        Some(i) => Some(rows[i]),
        None => None,
    };
    let (format, online) = format_spec(or_empty(first_spec(rows, "Medienart"@)), link is Some);
    RecordView {
        id: id.id_spec(),
        title,
        subtitle,
        authors: authors_scan(Seq::empty(), name_lines(rows)),
        year: year_of_spec(publication),
        publisher,
        place,
        edition: first_spec(rows, "Ausgabe"@),
        extent: first_spec(rows, "Umfang / Format"@),
        languages: languages_spec(values_spec(rows, "Sprache"@)),
        format,
        online,
        isbns: isbns_spec(values_spec(rows, "ISBN"@)),
        subjects: subjects_spec(values_spec(rows, "Schlagwortkette"@)),
        urls: urls_scan(rows, id.local_spec()),
        holdings: seq![holding_spec(id.local_spec(), items, lending_status_spec(link), holdings_statement_spec(rows))],
    }
}

/// The first line of a row, or nothing.
fn first_or_empty<'a>(bibliographic: &'a Bibliographic, label: &str) -> (s: &'a str)
    ensures
        s@ == match first_spec(row_views(bibliographic.rows@), label@) {
            Some(v) => v,
            None => Seq::<char>::empty(),
        },
{
    match bibliographic.first(label) {
        Some(v) => v,
        None => {
            proof {
                reveal_strlit("");
            }
            ""
        },
    }
}

/// An optional line, owned.
fn owned_opt(o: Option<&str>) -> (r: Option<String>)
    ensures
        ov(r) == match o {
            Some(v) => Some(v@),
            None => None,
        },
{
    match o {
        Some(v) => Some(owned(v)),
        None => None,
    }
}

/// Assemble the record from the bibliographic tables and the copies.
pub fn record_of(id: &RecordId, bibliographic: &Bibliographic, items: Vec<Item>) -> (r: Record)
    ensures
        r.view() == record_spec(*id, row_views(bibliographic.rows@), item_views(items@)),
{
    let (title, subtitle) = title_of(first_or_empty(bibliographic, "Titel"));
    let publication = first_or_empty(bibliographic, "Veröffentlichung");
    let (place, publisher) = imprint_of(publication);
    let link = lending_link(bibliographic);
    proof {
        match lending_index(row_views(bibliographic.rows@)) {
            Some(k) => {
                assert(row_views(bibliographic.rows@)[k] == bibliographic.rows@[k].view());
            },
            None => {},
        }
    }
    let (format, online) = format_of(first_or_empty(bibliographic, "Medienart"), link.is_some());
    let status = lending_status(link);
    let languages = languages_of(&bibliographic.values("Sprache"));
    let isbns = isbns_of(&bibliographic.values("ISBN"));
    let subjects = subjects_of(&bibliographic.values("Schlagwortkette"));
    let statement = holdings_statement_of(bibliographic);
    let ghost iv = item_views(items@);
    let holding = holding_of(id, items, status, statement);
    let holdings = vec![holding];
    let r = Record {
        id: id.copy(),
        title,
        subtitle,
        authors: authors_of(bibliographic),
        year: year_of(publication),
        publisher,
        place,
        edition: owned_opt(bibliographic.first("Ausgabe")),
        extent: owned_opt(bibliographic.first("Umfang / Format")),
        languages,
        format,
        online,
        isbns,
        subjects,
        urls: urls_of(bibliographic, id),
        holdings,
    };
    proof {
        assert(r.view().holdings =~= seq![holding_spec(id.local_spec(), iv, status, ov(statement))]);
        assert(r.view().languages =~= languages_spec(values_spec(row_views(bibliographic.rows@), "Sprache"@)));
        assert(r.view().isbns =~= isbns_spec(values_spec(row_views(bibliographic.rows@), "ISBN"@)));
        assert(r.view().subjects =~= subjects_spec(values_spec(row_views(bibliographic.rows@), "Schlagwortkette"@)));
    }
    r
}

/// The message of the note that stands in for the copies of a record page this parser
/// could not read in full: the failure verbatim, which names the selector.
pub open spec fn unreadable_spec(message: Seq<char>) -> Seq<char> {
    "voebb.de's record page is no longer a page blibs can read in full ("@ + message
        + "), so no copies could be listed for it — the record itself stands, its copies are simply unknown here; please report that selector"@
}

/// The note that stands in for a record page this parser could not read. It names no
/// record; the caller does.
pub fn page_unreadable(error: &crate::error::Error) -> (n: Note)
    ensures
        n.kind@ == "voebb_page_unreadable"@,
        n.message@ == unreadable_spec(error.message_spec()),
        n.records@.len() == 0,
{
    let m = error.message();
    let parts = vec![
        "voebb.de's record page is no longer a page blibs can read in full (",
        m.as_str(),
        "), so no copies could be listed for it — the record itself stands, its copies are simply unknown here; please report that selector",
    ];
    proof {
        reveal_with_fuel(crate::text::flatten, 4);
        assert(crate::text::views(parts@) =~= seq![
            "voebb.de's record page is no longer a page blibs can read in full ("@,
            m@,
            "), so no copies could be listed for it — the record itself stands, its copies are simply unknown here; please report that selector"@,
        ]);
    }
    Note::new("voebb_page_unreadable", crate::text::cat(parts))
}

/// One record with everything its page states, every copy the network holds included,
/// and what the page could not state cleanly.
#[derive(Debug, Clone, PartialEq, Eq)]
pub struct DetailPage {
    /// The bibliographic record, holdings included.
    pub record: Record,
    /// The notes, each about this record.
    pub notes: Vec<Note>,
}

/// The record and the notes of a record page: a page whose copies cannot be found keeps
/// its record, without copies, and says why in a note.
pub open spec fn page_spec(id: RecordId, rows: Seq<RowView>, t: super::items::TableView) -> (RecordView, Seq<(Seq<char>, Seq<char>)>) {
    let (items, notes) = match super::items::items_spec(t, rows, super::items::network_branches()) {
        Ok(x) => x,
        Err(e) => (
            Seq::<ItemView>::empty(),
            seq![("voebb_page_unreadable"@, unreadable_spec(crate::error::unexpected_message(e)))],
        ),
    };
    (record_spec(id, rows, items), notes)
}

/// Whether every note is about exactly this record.
pub open spec fn about(notes: Seq<Note>, id: RecordId) -> bool {
    forall|i: int|
        0 <= i < notes.len() ==> (#[trigger] notes[i]).records@.len() == 1 && notes[i].records@[0].id_spec() == id.id_spec()
}

/// Assemble a record page from its labelled rows and its item table. `id` is the id the
/// page was fetched under and becomes the record's identity verbatim.
#[verifier::rlimit(100)]
#[verifier::spinoff_prover]
pub fn detail_page(id: &RecordId, bibliographic: &Bibliographic, table: &super::items::ItemTable) -> (p: DetailPage)
    ensures
        (p.record.view(), super::items::note_views(p.notes@)) == page_spec(*id, row_views(bibliographic.rows@), table.view()),
        about(p.notes@, *id),
{
    let (items, notes) = match super::items::items_of(table, bibliographic) {
        Ok(x) => x,
        Err(error) => {
            let n = page_unreadable(&error);
            let v: Vec<Item> = Vec::new();
            let ghost e = match error {
                crate::error::Error::Unexpected(u) => u@,
                _ => arbitrary(),
            };
            proof {
                assert(error.message_spec() == crate::error::unexpected_message(e));
                assert(item_views(v@) =~= Seq::<ItemView>::empty());
            }
            (v, vec![n])
        },
    };
    let ghost nv = super::items::note_views(notes@);
    let record = record_of(id, bibliographic, items);
    let mut named: Vec<Note> = Vec::new();
    let mut i: usize = 0;
    while i < notes.len()
        invariant
            i <= notes.len(),
            nv == super::items::note_views(notes@),
            super::items::note_views(named@) == nv.take(i as int),
            about(named@, *id),
        decreases notes.len() - i,
    {
        let n = &notes[i];
        let named_note = Note {
            kind: n.kind.clone(),
            message: n.message.clone(),
            records: vec![id.copy()],
        };
        let ghost before = named@;
        named.push(named_note);
        proof {
            assert(super::items::note_views(named@) =~= super::items::note_views(before).push((n.kind@, n.message@)));
            assert(nv.take(i + 1) =~= nv.take(i as int).push(nv[i as int]));
            assert forall|j: int| 0 <= j < named@.len() implies (#[trigger] named@[j]).records@.len() == 1
                && named@[j].records@[0].id_spec() == id.id_spec() by {
                if j < before.len() {
                    assert(named@[j] == before[j]);
                }
            }
        }
        i = i + 1;
    }
    proof {
        assert(nv.take(i as int) =~= nv);
    }
    DetailPage { record, notes: named }
}

/// `table.gi`: the bibliographic tables.
pub open spec fn bib_table() -> Simple {
    Simple { name: "table", test: Test::Class("gi") }
}

/// `table#resptable-1`: the item table.
pub open spec fn item_table() -> Simple {
    Simple { name: "table", test: Test::Is("id", "resptable-1") }
}

/// An element by its name alone.
pub open spec fn tag(name: &'static str) -> Simple {
    Simple { name, test: Test::Always }
}

/// `a[href]`: a link.
pub open spec fn link_sel() -> Simple {
    Simple { name: "a", test: Test::Has("href") }
}

/// `span[class]`: the status marker of an availability cell.
pub open spec fn marker_sel() -> Simple {
    Simple { name: "span", test: Test::Has("class") }
}

/// A collected line added to the lines, unless it is blank once collapsed.
pub open spec fn flush(lines: Seq<Seq<char>>, current: Seq<char>) -> Seq<Seq<char>> {
    let line = collapse_spaces(current);
    if line.len() == 0 {
        lines
    } else {
        lines.push(line)
    }
}

/// The `<br>`-separated lines of a run of nodes: text is collected, a `br` element ends
/// a line, and the end of the run ends the last one.
pub open spec fn lines_over(ns: Seq<HtmlNodeView>, lines: Seq<Seq<char>>, current: Seq<char>) -> Seq<Seq<char>>
    decreases ns.len(),
{
    if ns.len() == 0 {
        flush(lines, current)
    } else if ns[0].text_node {
        lines_over(ns.drop_first(), lines, current + ns[0].text)
    } else if ns[0].element && ns[0].name == "br"@ {
        lines_over(ns.drop_first(), flush(lines, current), seq![])
    } else {
        lines_over(ns.drop_first(), lines, current)
    }
}

/// The lines of the value cell at node `c`, whitespace collapsed, empties dropped.
pub open spec fn cell_lines(ns: Seq<HtmlNodeView>, c: int) -> Seq<Seq<char>> {
    lines_over(ns.subrange(c + 1, subtree_end(ns, c)), seq![], seq![])
}

/// The link at node `a`, where its `href` leads off the page: URL and text.
pub open spec fn link_spec(ns: Seq<HtmlNodeView>, a: int) -> Option<(Seq<char>, Seq<char>)> {
    match first_attribute(ns[a].attributes, "href"@) {
        Some(h) => if crate::text::is_prefix("http"@, h) {
            Some((h, collapse_spaces(text_below(ns, a))))
        } else {
            None
        },
        None => None,
    }
}

/// The links off the page among the given nodes, in order.
pub open spec fn links_spec(ns: Seq<HtmlNodeView>, ks: Seq<int>) -> Seq<(Seq<char>, Seq<char>)>
    decreases ks.len(),
{
    if ks.len() == 0 {
        seq![]
    } else {
        let before = links_spec(ns, ks.drop_last());
        match link_spec(ns, ks.last()) {
            Some(l) => before.push(l),
            None => before,
        }
    }
}

/// The labelled row at node `k`: the text of its first `th` and the lines and links of
/// its first `td`; none where it lacks either.
pub open spec fn row_spec(ns: Seq<HtmlNodeView>, k: int) -> Option<RowView> {
    let end = subtree_end(ns, k);
    let hs = selected(ns, k + 1, end, tag("th"), None);
    let cs = selected(ns, k + 1, end, tag("td"), None);
    if hs.len() == 0 || cs.len() == 0 {
        None
    } else {
        let c = cs[0];
        Some(
            RowView {
                label: collapse_spaces(text_below(ns, hs[0])),
                values: cell_lines(ns, c),
                links: links_spec(ns, selected(ns, c + 1, subtree_end(ns, c), link_sel(), None)),
            },
        )
    }
}

/// The labelled rows among the given nodes, in order.
pub open spec fn rows_spec(ns: Seq<HtmlNodeView>, ks: Seq<int>) -> Seq<RowView>
    decreases ks.len(),
{
    if ks.len() == 0 {
        seq![]
    } else {
        let before = rows_spec(ns, ks.drop_last());
        match row_spec(ns, ks.last()) {
            Some(r) => before.push(r),
            None => before,
        }
    }
}

/// The bibliographic half of a record page: every row of every `table.gi`, or the error
/// for a page that has no `table.gi` or no `Titel` row, which is no record page.
pub open spec fn bibliographic_spec(ns: Seq<HtmlNodeView>) -> Result<Seq<RowView>, UnexpectedView> {
    if selected(ns, 0, ns.len() as int, bib_table(), None).len() == 0 {
        Err(missing("table.gi"@))
    } else {
        let rows = rows_spec(ns, selected(ns, 0, ns.len() as int, tag("tr"), Some(bib_table())));
        if first_spec(rows, "Titel"@) is None {
            Err(missing("table.gi th[scope=row]:Titel"@))
        } else {
            Ok(rows)
        }
    }
}

/// A collected line added to the lines, unless it is blank once collapsed.
fn push_line(lines: &mut Vec<String>, current: &String)
    ensures
        super::items::texts_of(final(lines)@) == flush(super::items::texts_of(old(lines)@), current@),
{
    let line = crate::xml::collapse(current.as_str());
    if line.as_str().unicode_len() > 0 {
        let ghost before = lines@;
        lines.push(line);
        proof {
            assert(super::items::texts_of(lines@) =~= super::items::texts_of(before).push(line@));
        }
    }
}

/// The `<br>`-separated lines of the value cell at node `c`.
pub fn lines_of(ns: &Vec<HtmlNode>, c: usize) -> (v: Vec<String>)
    requires
        c < ns.len(),
    ensures
        super::items::texts_of(v@) == cell_lines(html_views(ns@), c as int),
{
    let ghost hv = html_views(ns@);
    let end = end_of(ns, c);
    let ghost run = hv.subrange(c + 1, end as int);
    let mut lines: Vec<String> = Vec::new();
    let mut current = String::new();
    let mut k: usize = c + 1;
    proof {
        assert(super::items::texts_of(lines@) =~= Seq::<Seq<char>>::empty());
        assert(current@ =~= Seq::<char>::empty());
    }
    while k < end
        invariant
            c < k <= end <= ns.len(),
            hv == html_views(ns@),
            run == hv.subrange(c + 1, end as int),
            lines_over(hv.subrange(k as int, end as int), super::items::texts_of(lines@), current@) == lines_over(
                run,
                seq![],
                seq![],
            ),
        decreases end - k,
    {
        proof {
            assert(hv.subrange(k as int, end as int)[0] == ns@[k as int].view());
            assert(hv.subrange(k as int, end as int).drop_first() =~= hv.subrange(k + 1, end as int));
        }
        if ns[k].text_node {
            push_str(&mut current, ns[k].text.as_str());
        } else if ns[k].element && crate::text::same_text(ns[k].name.as_str(), "br") {
            push_line(&mut lines, &current);
            current = String::new();
            proof {
                assert(current@ =~= Seq::<char>::empty());
            }
        }
        k = k + 1;
    }
    proof {
        assert(hv.subrange(k as int, end as int) =~= Seq::<HtmlNodeView>::empty());
    }
    push_line(&mut lines, &current);
    lines
}

/// The views of a list of pairs of strings.
pub open spec fn pair_views(v: Seq<(String, String)>) -> Seq<(Seq<char>, Seq<char>)> {
    v.map_values(|l: (String, String)| (l.0@, l.1@))
}

/// The links off the page in the cell at node `c`: URL and text.
pub fn links_in(ns: &Vec<HtmlNode>, c: usize) -> (v: Vec<(String, String)>)
    requires
        c < ns.len(),
    ensures
        pair_views(v@) == links_spec(
            html_views(ns@),
            selected(html_views(ns@), c + 1, subtree_end(html_views(ns@), c as int), link_sel(), None),
        ),
{
    let ghost hv = html_views(ns@);
    let end = end_of(ns, c);
    let ks = select(ns, c + 1, end, Simple { name: "a", test: Test::Has("href") }, None);
    let ghost kv = positions(ks@);
    let mut out: Vec<(String, String)> = Vec::new();
    let mut i: usize = 0;
    while i < ks.len()
        invariant
            i <= ks.len(),
            hv == html_views(ns@),
            kv == positions(ks@),
            forall|j: int| 0 <= j < ks@.len() ==> #[trigger] ks@[j] < ns.len(),
            pair_views(out@) == links_spec(hv, kv.take(i as int)),
        decreases ks.len() - i,
    {
        let a = ks[i];
        proof {
            assert(kv.take(i + 1).drop_last() =~= kv.take(i as int));
            assert(kv.take(i + 1).last() == a as int);
            assert(hv[a as int] == ns@[a as int].view());
        }
        let ghost before = out@;
        match attr(&ns[a], "href") {
            Some(h) => {
                if crate::text::starts_with(h, "http") {
                    let t = crate::xml::collapse(text_of(ns, a).as_str());
                    out.push((owned(h), t));
                    proof {
                        assert(pair_views(out@) =~= pair_views(before).push((h@, t@)));
                    }
                }
            },
            None => {},
        }
        i = i + 1;
    }
    proof {
        assert(kv.take(i as int) =~= kv);
    }
    out
}

/// The labelled row at node `k`, or `None` where it is not a label/value pair.
pub fn row_at(ns: &Vec<HtmlNode>, k: usize) -> (r: Option<BibRow>)
    requires
        k < ns.len(),
    ensures
        match r {
            Some(row) => row_spec(html_views(ns@), k as int) == Some(row.view()),
            None => row_spec(html_views(ns@), k as int) is None,
        },
{
    let end = end_of(ns, k);
    let h = match first(ns, k + 1, end, Simple { name: "th", test: Test::Always }) {
        Some(h) => h,
        None => {
            return None;
        },
    };
    let c = match first(ns, k + 1, end, Simple { name: "td", test: Test::Always }) {
        Some(c) => c,
        None => {
            return None;
        },
    };
    proof {
        let hs = selected(html_views(ns@), k + 1, end as int, tag("th"), None);
        let cs = selected(html_views(ns@), k + 1, end as int, tag("td"), None);
        crate::html::lemma_selected_within(html_views(ns@), k + 1, end as int, tag("th"), None);
        crate::html::lemma_selected_within(html_views(ns@), k + 1, end as int, tag("td"), None);
        assert(hs[0] < ns.len());
        assert(cs[0] < ns.len());
    }
    let label = crate::xml::collapse(text_of(ns, h).as_str());
    let values = lines_of(ns, c);
    let links = links_in(ns, c);
    let row = BibRow { label, values, links };
    proof {
        assert(row.view().values =~= super::items::texts_of(values@));
        assert(row.view().links =~= pair_views(links@));
    }
    Some(row)
}

/// The labelled rows of every `table.gi` of a page, or the error for a page that is no
/// record page.
pub fn read_bibliographic(ns: &Vec<HtmlNode>) -> (r: Result<Bibliographic, Error>)
    ensures
        match r {
            Ok(b) => bibliographic_spec(html_views(ns@)) == Ok::<Seq<RowView>, UnexpectedView>(row_views(b.rows@)),
            Err(Error::Unexpected(e)) => bibliographic_spec(html_views(ns@)) == Err::<Seq<RowView>, UnexpectedView>(e@),
            Err(_) => false,
        },
{
    let ghost hv = html_views(ns@);
    if first(ns, 0, ns.len(), Simple { name: "table", test: Test::Class("gi") }).is_none() {
        return Err(super::items::missing_selector("table.gi"));
    }
    let ks = select(ns, 0, ns.len(), Simple { name: "tr", test: Test::Always }, Some(Simple { name: "table", test: Test::Class("gi") }));
    let ghost kv = positions(ks@);
    let mut rows: Vec<BibRow> = Vec::new();
    let mut i: usize = 0;
    while i < ks.len()
        invariant
            i <= ks.len(),
            hv == html_views(ns@),
            kv == positions(ks@),
            forall|j: int| 0 <= j < ks@.len() ==> #[trigger] ks@[j] < ns.len(),
            row_views(rows@) == rows_spec(hv, kv.take(i as int)),
        decreases ks.len() - i,
    {
        let k = ks[i];
        proof {
            assert(kv.take(i + 1).drop_last() =~= kv.take(i as int));
            assert(kv.take(i + 1).last() == k as int);
        }
        let ghost before = rows@;
        match row_at(ns, k) {
            Some(row) => {
                rows.push(row);
                proof {
                    assert(row_views(rows@) =~= row_views(before).push(rows@.last().view()));
                }
            },
            None => {},
        }
        i = i + 1;
    }
    proof {
        assert(kv.take(i as int) =~= kv);
    }
    let b = Bibliographic { rows };
    if b.first("Titel").is_none() {
        return Err(super::items::missing_selector("table.gi th[scope=row]:Titel"));
    }
    Ok(b)
}

/// The availability cell at node `c`: its text, collapsed, and the trimmed class of its
/// first `span[class]`, empty where it has none.
pub open spec fn status_cell_spec(ns: Seq<HtmlNodeView>, c: int) -> (Seq<char>, Seq<char>) {
    let spans = selected(ns, c + 1, subtree_end(ns, c), marker_sel(), None);
    (
        collapse_spaces(text_below(ns, c)),
        if spans.len() > 0 {
            match first_attribute(ns[spans[0]].attributes, "class"@) {
                Some(v) => trim_spec(v),
                None => seq![],
            }
        } else {
            seq![]
        },
    )
}

/// The cells of the row at node `r`.
pub open spec fn row_cells(ns: Seq<HtmlNodeView>, r: int) -> Seq<(Seq<char>, Seq<char>)> {
    selected(ns, r + 1, subtree_end(ns, r), tag("td"), None).map_values(|c: int| status_cell_spec(ns, c))
}

/// The item table of a page: absent, or the text of its `thead th` cells and the cells of
/// its `tbody tr` rows.
pub open spec fn table_spec(ns: Seq<HtmlNodeView>) -> super::items::TableView {
    let all = selected(ns, 0, ns.len() as int, item_table(), None);
    if all.len() == 0 {
        super::items::TableView::Absent
    } else {
        let t = all[0];
        let end = subtree_end(ns, t);
        super::items::TableView::Present {
            header: selected(ns, t + 1, end, tag("th"), Some(tag("thead"))).map_values(
                |h: int| collapse_spaces(text_below(ns, h)),
            ),
            rows: selected(ns, t + 1, end, tag("tr"), Some(tag("tbody"))).map_values(|r: int| row_cells(ns, r)),
        }
    }
}

/// The availability cell at node `c`.
fn status_cell(ns: &Vec<HtmlNode>, c: usize) -> (cell: StatusCell)
    requires
        c < ns.len(),
    ensures
        (cell.text@, cell.class@) == status_cell_spec(html_views(ns@), c as int),
{
    let end = end_of(ns, c);
    let text = crate::xml::collapse(text_of(ns, c).as_str());
    let class = match first(ns, c + 1, end, Simple { name: "span", test: Test::Has("class") }) {
        Some(sp) => {
            proof {
                crate::html::lemma_selected_within(html_views(ns@), c + 1, end as int, marker_sel(), None);
                assert(html_views(ns@)[sp as int] == ns@[sp as int].view());
            }
            match attr(&ns[sp], "class") {
                Some(v) => trim(v),
                None => owned(""),
            }
        },
        None => owned(""),
    };
    proof {
        reveal_strlit("");
    }
    StatusCell { text, class }
}

/// The cells of the row at node `r`.
fn cells_of(ns: &Vec<HtmlNode>, r: usize) -> (v: Vec<StatusCell>)
    requires
        r < ns.len(),
    ensures
        super::items::cell_views(v@) == row_cells(html_views(ns@), r as int),
{
    let ghost hv = html_views(ns@);
    let end = end_of(ns, r);
    let cs = select(ns, r + 1, end, Simple { name: "td", test: Test::Always }, None);
    let ghost kv = positions(cs@);
    let mut out: Vec<StatusCell> = Vec::new();
    let mut i: usize = 0;
    while i < cs.len()
        invariant
            i <= cs.len(),
            hv == html_views(ns@),
            kv == positions(cs@),
            forall|j: int| 0 <= j < cs@.len() ==> #[trigger] cs@[j] < ns.len(),
            super::items::cell_views(out@) == kv.take(i as int).map_values(|c: int| status_cell_spec(hv, c)),
        decreases cs.len() - i,
    {
        let cell = status_cell(ns, cs[i]);
        let ghost before = out@;
        out.push(cell);
        proof {
            assert(super::items::cell_views(out@) =~= super::items::cell_views(before).push((cell.text@, cell.class@)));
            assert(kv.take(i + 1).map_values(|c: int| status_cell_spec(hv, c)) =~= kv.take(i as int).map_values(
                |c: int| status_cell_spec(hv, c),
            ).push(status_cell_spec(hv, kv[i as int])));
        }
        i = i + 1;
    }
    proof {
        assert(kv.take(i as int) =~= kv);
    }
    out
}

/// The item table of a page.
pub fn read_item_table(ns: &Vec<HtmlNode>) -> (t: super::items::ItemTable)
    ensures
        t.view() == table_spec(html_views(ns@)),
{
    let ghost hv = html_views(ns@);
    let t = match first(ns, 0, ns.len(), Simple { name: "table", test: Test::Is("id", "resptable-1") }) {
        Some(t) => t,
        None => {
            return super::items::ItemTable::Absent;
        },
    };
    proof {
        crate::html::lemma_selected_within(hv, 0, ns.len() as int, item_table(), None);
    }
    let end = end_of(ns, t);
    let hs = select(ns, t + 1, end, Simple { name: "th", test: Test::Always }, Some(Simple { name: "thead", test: Test::Always }));
    let mut header: Vec<String> = Vec::new();
    let mut i: usize = 0;
    while i < hs.len()
        invariant
            i <= hs.len(),
            hv == html_views(ns@),
            forall|j: int| 0 <= j < hs@.len() ==> #[trigger] hs@[j] < ns.len(),
            super::items::texts_of(header@) == positions(hs@).take(i as int).map_values(
                |h: int| collapse_spaces(text_below(hv, h)),
            ),
        decreases hs.len() - i,
    {
        let h = crate::xml::collapse(text_of(ns, hs[i]).as_str());
        let ghost before = header@;
        header.push(h);
        proof {
            assert(super::items::texts_of(header@) =~= super::items::texts_of(before).push(h@));
            assert(positions(hs@).take(i + 1).map_values(|h: int| collapse_spaces(text_below(hv, h)))
                =~= positions(hs@).take(i as int).map_values(|h: int| collapse_spaces(text_below(hv, h))).push(
                collapse_spaces(text_below(hv, hs@[i as int] as int)),
            ));
        }
        i = i + 1;
    }
    proof {
        assert(positions(hs@).take(i as int) =~= positions(hs@));
    }
    let rs = select(ns, t + 1, end, Simple { name: "tr", test: Test::Always }, Some(Simple { name: "tbody", test: Test::Always }));
    let mut rows: Vec<Vec<StatusCell>> = Vec::new();
    let mut j: usize = 0;
    while j < rs.len()
        invariant
            j <= rs.len(),
            hv == html_views(ns@),
            forall|m: int| 0 <= m < rs@.len() ==> #[trigger] rs@[m] < ns.len(),
            rows@.map_values(|r: Vec<StatusCell>| super::items::cell_views(r@)) == positions(rs@).take(j as int).map_values(
                |r: int| row_cells(hv, r),
            ),
        decreases rs.len() - j,
    {
        let cells = cells_of(ns, rs[j]);
        let ghost before = rows@;
        rows.push(cells);
        proof {
            assert(rows@.map_values(|r: Vec<StatusCell>| super::items::cell_views(r@)) =~= before.map_values(
                |r: Vec<StatusCell>| super::items::cell_views(r@),
            ).push(super::items::cell_views(cells@)));
            assert(positions(rs@).take(j + 1).map_values(|r: int| row_cells(hv, r)) =~= positions(rs@).take(
                j as int,
            ).map_values(|r: int| row_cells(hv, r)).push(row_cells(hv, rs@[j as int] as int)));
        }
        j = j + 1;
    }
    proof {
        assert(positions(rs@).take(j as int) =~= positions(rs@));
    }
    super::items::ItemTable::Present { header, rows }
}

/// A record page read from its nodes: the error for a page that is no record page, or
/// the record with its copies and notes. The item table's trouble never fails the page.
pub open spec fn detail_spec(ns: Seq<HtmlNodeView>, id: RecordId) -> Result<(RecordView, Seq<(Seq<char>, Seq<char>)>), UnexpectedView> {
    match bibliographic_spec(ns) {
        Err(e) => Err(e),
        Ok(rows) => Ok(page_spec(id, rows, table_spec(ns))),
    }
}

/// A record page is the record it was fetched under: its id is that id.
pub proof fn lemma_page_keeps_id(ns: Seq<HtmlNodeView>, id: RecordId, r: RecordView, n: Seq<(Seq<char>, Seq<char>)>)
    requires
        detail_spec(ns, id) == Ok::<(RecordView, Seq<(Seq<char>, Seq<char>)>), UnexpectedView>((r, n)),
    ensures
        r.id == id.id_spec(),
{
    let rows = bibliographic_spec(ns)->Ok_0;
    let t = table_spec(ns);
    let (items, notes) = match super::items::items_spec(t, rows, super::items::network_branches()) {
        Ok(x) => x,
        Err(e) => (
            Seq::<ItemView>::empty(),
            seq![("voebb_page_unreadable"@, unreadable_spec(crate::error::unexpected_message(e)))],
        ),
    };
    assert(r == record_spec(id, rows, items));
}

/// Read a record page from the nodes of its document.
pub fn detail_from_nodes(ns: &Vec<HtmlNode>, id: &RecordId) -> (r: Result<DetailPage, Error>)
    ensures
        match r {
            Ok(p) => {
                &&& detail_spec(html_views(ns@), *id) == Ok::<(RecordView, Seq<(Seq<char>, Seq<char>)>), UnexpectedView>(
                    (p.record.view(), super::items::note_views(p.notes@)),
                )
                &&& about(p.notes@, *id)
            },
            Err(Error::Unexpected(e)) => detail_spec(html_views(ns@), *id) == Err::<(RecordView, Seq<(Seq<char>, Seq<char>)>), UnexpectedView>(e@),
            Err(_) => false,
        },
{
    let bibliographic = match read_bibliographic(ns) {
        Ok(b) => b,
        Err(e) => {
            return Err(e);
        },
    };
    let table = read_item_table(ns);
    Ok(detail_page(id, &bibliographic, &table))
}

/// Parse a record page into a record. Fails only where the page is no record page at
/// all: no `table.gi`, no `Titel` row. `id` is the id the page was fetched under.
pub fn parse_detail(html: &str, id: &RecordId) -> (r: Result<DetailPage, Error>)
    ensures
        match r {
            Ok(p) => {
                &&& detail_spec(html_nodes(html@), *id) == Ok::<(RecordView, Seq<(Seq<char>, Seq<char>)>), UnexpectedView>(
                    (p.record.view(), super::items::note_views(p.notes@)),
                )
                &&& about(p.notes@, *id)
            },
            Err(Error::Unexpected(e)) => detail_spec(html_nodes(html@), *id) == Err::<(RecordView, Seq<(Seq<char>, Seq<char>)>), UnexpectedView>(e@),
            Err(_) => false,
        },
{
    let ns = read_html(html);
    detail_from_nodes(&ns, id)
}

/// Whether a page is voebb.de's answer to a record number it does not hold: its search
/// entry page, with the entry container `div#R04`, without the record container
/// `div#R03` and without any `table.gi`. Two positive signals, so that a redesigned
/// record page is never taken for a record that does not exist.
pub open spec fn missing_record_spec(ns: Seq<HtmlNodeView>) -> bool {
    &&& selected(ns, 0, ns.len() as int, bib_table(), None).len() == 0
    &&& selected(ns, 0, ns.len() as int, Simple { name: "div", test: Test::Is("id", "R03") }, None).len() == 0
    &&& selected(ns, 0, ns.len() as int, Simple { name: "div", test: Test::Is("id", "R04") }, None).len() > 0
}

/// Whether the nodes are those of the search entry page that stands in for a record
/// number voebb.de does not hold.
pub fn missing_record_in(ns: &Vec<HtmlNode>) -> (r: bool)
    ensures
        r == missing_record_spec(html_views(ns@)),
{
    first(ns, 0, ns.len(), Simple { name: "table", test: Test::Class("gi") }).is_none()
        && first(ns, 0, ns.len(), Simple { name: "div", test: Test::Is("id", "R03") }).is_none()
        && first(ns, 0, ns.len(), Simple { name: "div", test: Test::Is("id", "R04") }).is_some()
}

/// Whether this page is voebb.de's answer to a record number it does not hold.
pub fn is_missing_record(html: &str) -> (r: bool)
    ensures
        r == missing_record_spec(html_nodes(html@)),
{
    let ns = read_html(html);
    missing_record_in(&ns)
}

/// The material type a `Medienart` names, brackets, case and diacritics aside: a
/// `Hörbuch`, a `CD` or a `Tonträger` is audio, and only a `Band` or a `Buch` is a
/// printed book.
pub proof fn law_audio_media_are_audio_and_only_volumes_are_books(m: Seq<char>, online: bool)
    ensures
        medienart_key(m) == "horbuch"@ || medienart_key(m) == "cd"@ || medienart_key(m) == "tontrager"@ ==> format_spec(m, online).0
            == Format::Audio,
        format_spec(m, online).0 == Format::Book ==> medienart_key(m) == "band"@ || medienart_key(m) == "buch"@,
{
    reveal_strlit("horbuch");
    reveal_strlit("cd");
    reveal_strlit("tontrager");
    reveal_strlit("e-ressource");
    reveal_strlit("e-book");
    reveal_strlit("onleihe");
    reveal_strlit("e-audio");
    reveal_strlit("band");
    reveal_strlit("buch");
    let audio = seq!["horbuch"@, "cd"@, "tontrager"@];
    let before = seq!["e-ressource"@, "e-book"@, "onleihe"@, "e-audio"@, "band"@, "buch"@];
    assert forall|i: int, j: int| 0 <= i < 3 && 0 <= j < 6 implies #[trigger] audio[i] != #[trigger] before[j] by {
        assert(audio[i].len() != before[j].len() || audio[i][0] != before[j][0] || audio[i][1] != before[j][1]);
    }
    assert(audio[0] == "horbuch"@ && audio[1] == "cd"@ && audio[2] == "tontrager"@);
    assert(before[0] == "e-ressource"@ && before[1] == "e-book"@ && before[2] == "onleihe"@ && before[3] == "e-audio"@);
    assert(before[4] == "band"@ && before[5] == "buch"@);
}

/// An electronic `Medienart` (`E-Ressource`, `E-Book`, `Onleihe`) is an e-book and
/// online whatever the page said before; a `DVD`, `Blu-ray` or `Video` is video; and a
/// medium that names no electronic form keeps the online flag it was given.
pub proof fn law_electronic_media_are_online_and_videos_are_video(m: Seq<char>, online: bool)
    ensures
        medienart_key(m) == "e-ressource"@ || medienart_key(m) == "e-book"@ || medienart_key(m) == "onleihe"@ ==> format_spec(m, online)
            == (Format::Ebook, true),
        medienart_key(m) == "dvd"@ || medienart_key(m) == "blu-ray"@ || medienart_key(m) == "video"@ ==> format_spec(m, online).0
            == Format::Video,
        !(medienart_key(m) == "e-ressource"@ || medienart_key(m) == "e-book"@ || medienart_key(m) == "onleihe"@ || medienart_key(m)
            == "e-audio"@) ==> format_spec(m, online).1 == online,
{
    reveal_strlit("dvd");
    reveal_strlit("blu-ray");
    reveal_strlit("video");
    reveal_strlit("e-ressource");
    reveal_strlit("e-book");
    reveal_strlit("onleihe");
    reveal_strlit("e-audio");
    reveal_strlit("band");
    reveal_strlit("buch");
    reveal_strlit("horbuch");
    reveal_strlit("cd");
    reveal_strlit("tontrager");
    let video = seq!["dvd"@, "blu-ray"@, "video"@];
    let before = seq!["e-ressource"@, "e-book"@, "onleihe"@, "e-audio"@, "band"@, "buch"@, "horbuch"@, "cd"@, "tontrager"@];
    assert forall|i: int, j: int| 0 <= i < 3 && 0 <= j < 9 implies #[trigger] video[i] != #[trigger] before[j] by {
        assert(video[i].len() != before[j].len() || video[i][0] != before[j][0] || video[i][1] != before[j][1]);
    }
    assert(video[0] == "dvd"@ && video[1] == "blu-ray"@ && video[2] == "video"@);
    assert(before[0] == "e-ressource"@ && before[1] == "e-book"@ && before[2] == "onleihe"@ && before[3] == "e-audio"@);
    assert(before[4] == "band"@ && before[5] == "buch"@ && before[6] == "horbuch"@ && before[7] == "cd"@ && before[8] == "tontrager"@);
}

} // verus!
