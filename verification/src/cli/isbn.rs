//! ISBN and ISSN validation.
//!
//! The identifier index discards the check digit, so a mistyped ISBN does not return
//! nothing: it returns a different book. Validating before sending is the only way the
//! user finds out. An ISSN is recognised and passed on; its check digit is verified too.
use vstd::prelude::*;
use crate::error::{IsbnProblem, IsbnScheme};
use crate::model::Identifier;
use crate::text::{
    chars_of, digit_value, is_ascii_digit, is_digit, is_space, is_whitespace, push_char,
    value_of_digit,
};

verus! {

/// The separators stripped before anything is checked: the ASCII hyphen and the three
/// dashes a copy from a typeset page produces.
pub open spec fn is_separator(c: char) -> bool {
    c == '-' || c == '\u{2010}' || c == '\u{2011}' || c == '\u{2013}'
}

/// The input without white space and separators: the characters that are checked.
pub open spec fn compact_spec(s: Seq<char>) -> Seq<char>
    decreases s.len(),
{
    if s.len() == 0 {
        s
    } else if is_space(s.last()) || is_separator(s.last()) {
        compact_spec(s.drop_last())
    } else {
        compact_spec(s.drop_last()).push(s.last())
    }
}

/// A lowercase check `x` folded to `X`.
pub open spec fn fold_x_spec(c: char) -> char {
    if c == 'x' {
        'X'
    } else {
        c
    }
}

/// Whether a character may stand at `index` of a compacted number of length `len`:
/// digits anywhere, `X` or `x` only in the last position.
pub open spec fn legal_at(c: char, index: int, len: int) -> bool {
    is_digit(c) || (index == len - 1 && (c == 'X' || c == 'x'))
}

/// Whether the characters before `upto` are all legal.
pub open spec fn legal_prefix(c: Seq<char>, upto: int) -> bool {
    forall|i: int| 0 <= i < upto ==> legal_at(#[trigger] c[i], i, c.len() as int)
}

/// The index of the first illegal character, if any.
pub open spec fn first_bad(c: Seq<char>) -> Option<int> {
    if legal_prefix(c, c.len() as int) {
        None
    } else {
        Some(choose|i: int| 0 <= i < c.len() && !legal_at(c[i], i, c.len() as int) && legal_prefix(c, i))
    }
}

/// The scheme a compacted length fits, if any.
pub open spec fn scheme_for_len(len: nat) -> Option<IsbnScheme> {
    if len == 8 {
        Some(IsbnScheme::Issn)
    } else if len == 10 || len == 13 {
        Some(IsbnScheme::Isbn)
    } else {
        None
    }
}

/// Sum of the digits of `body` weighted from `n + 1` down, position `i` carrying
/// `n - i + 1`.
pub open spec fn weighted11(body: Seq<char>, n: int) -> int
    decreases body.len(),
{
    if body.len() == 0 {
        0
    } else {
        weighted11(body.drop_last(), n) + digit_value(body.last()) * (n - (body.len() - 1) + 1)
    }
}

/// Sum of the digits of `body` weighted alternately 1 and 3.
pub open spec fn weighted10(body: Seq<char>) -> int
    decreases body.len(),
{
    if body.len() == 0 {
        0
    } else {
        weighted10(body.drop_last()) + digit_value(body.last()) * (if (body.len() - 1) % 2
            == 0 {
            1int
        } else {
            3int
        })
    }
}

/// The check symbol for a residue: `0`..`9`, and `X` for ten.
pub open spec fn symbol_spec(residue: int) -> char {
    if 0 <= residue < 10 {
        crate::text::digit_char(residue as nat)
    } else {
        'X'
    }
}

/// The check character of an ISBN-10 or an ISSN body (modulo 11, descending weights).
pub open spec fn mod11_spec(body: Seq<char>) -> char {
    symbol_spec((11 - weighted11(body, body.len() as int) % 11) % 11)
}

/// The check digit of an ISBN-13 body (modulo 10, weights 1 and 3).
pub open spec fn mod10_spec(body: Seq<char>) -> char {
    symbol_spec((10 - weighted10(body) % 10) % 10)
}

/// What is wrong with a compacted number, or `None` when it is a valid ISBN or ISSN.
pub open spec fn problem_spec(c: Seq<char>) -> Option<IsbnProblem> {
    let len = c.len();
    if len == 0 {
        Some(IsbnProblem::Length { digits: 0 })
    } else if first_bad(c) is Some {
        Some(
            IsbnProblem::Characters {
                found: c[first_bad(c)->0],
                scheme: scheme_for_len(len),
            },
        )
    } else if len == 8 || len == 10 {
        let expected = mod11_spec(c.drop_last());
        if expected == fold_x_spec(c.last()) {
            None
        } else {
            Some(
                IsbnProblem::CheckDigit {
                    expected,
                    found: c.last(),
                    scheme: if len == 8 {
                        IsbnScheme::Issn
                    } else {
                        IsbnScheme::Isbn
                    },
                },
            )
        }
    } else if len == 13 {
        if !is_digit(c.last()) {
            Some(IsbnProblem::Characters { found: c.last(), scheme: Some(IsbnScheme::Isbn) })
        } else {
            let expected = mod10_spec(c.drop_last());
            if expected == c.last() {
                None
            } else {
                Some(
                    IsbnProblem::CheckDigit {
                        expected,
                        found: c.last(),
                        scheme: IsbnScheme::Isbn,
                    },
                )
            }
        }
    } else {
        Some(IsbnProblem::Length { digits: len as usize })
    }
}

/// The normalised form of a compacted number: `x` folded to `X`.
pub open spec fn normalised_spec(c: Seq<char>) -> Seq<char> {
    c.map_values(|ch: char| fold_x_spec(ch))
}

/// Validate one `--isbn` argument and normalise it.
///
/// Accepts an ISBN-10, an ISBN-13 or an ISSN, with or without hyphens and spaces, and
/// returns it stripped to bare characters with a lowercase `x` folded to `X`. The check
/// digit is verified in every case, and a wrong one is reported with the digit the rest
/// of the number implies.
pub fn parse(input: &str) -> (r: Result<Identifier, IsbnProblem>)
    ensures
        ({
            let c = compact_spec(input@);
            match r {
                Ok(id) => problem_spec(c) is None && id.digits() == normalised_spec(c) && (
                id is Issn <==> c.len() == 8),
                Err(p) => problem_spec(c) == Some(p),
            }
        }),
{
    let compact = compact(input);
    let n = compact.len();
    if n == 0 {
        return Err(IsbnProblem::Length { digits: 0 });
    }
    if let Some(index) = first_bad_character(&compact) {
        return Err(
            IsbnProblem::Characters { found: compact[index], scheme: IsbnScheme::from_len(n) },
        );
    }
    let ghost c = compact@;
    let given = compact[n - 1];
    let normalized = fold_all(&compact);
    if n == 8 || n == 10 {
        let expected = mod11_check(&compact, n - 1);
        proof {
            assert(compact@.take(n - 1) =~= c.drop_last());
        }
        if expected == fold_x(given) {
            if n == 8 {
                Ok(Identifier::Issn(normalized))
            } else {
                Ok(Identifier::Isbn(normalized))
            }
        } else {
            let scheme = if n == 8 {
                IsbnScheme::Issn
            } else {
                IsbnScheme::Isbn
            };
            Err(IsbnProblem::CheckDigit { expected, found: given, scheme })
        }
    } else if n == 13 {
        if !is_ascii_digit(given) {
            return Err(IsbnProblem::Characters { found: given, scheme: Some(IsbnScheme::Isbn) });
        }
        let expected = mod10_check(&compact, n - 1);
        proof {
            assert(compact@.take(n - 1) =~= c.drop_last());
        }
        if expected == given {
            Ok(Identifier::Isbn(normalized))
        } else {
            Err(IsbnProblem::CheckDigit { expected, found: given, scheme: IsbnScheme::Isbn })
        }
    } else {
        Err(IsbnProblem::Length { digits: n })
    }
}

/// Strip the separators a written ISBN carries, leaving the characters that are checked.
fn compact(input: &str) -> (v: Vec<char>)
    ensures
        v@ == compact_spec(input@),
{
    let chars = chars_of(input);
    let mut out: Vec<char> = Vec::new();
    let mut i: usize = 0;
    while i < chars.len()
        invariant
            i <= chars.len(),
            chars@ == input@,
            out@ == compact_spec(input@.take(i as int)),
        decreases chars.len() - i,
    {
        let c = chars[i];
        proof {
            assert(input@.take(i + 1).drop_last() =~= input@.take(i as int));
        }
        if !is_whitespace(c) && !(c == '-' || c == '\u{2010}' || c == '\u{2011}' || c
            == '\u{2013}') {
            out.push(c);
        }
        i = i + 1;
    }
    proof {
        assert(input@.take(i as int) =~= input@);
    }
    out
}

/// The index of the first character that cannot appear in any of the three formats.
fn first_bad_character(compact: &Vec<char>) -> (r: Option<usize>)
    ensures
        match r {
            Some(i) => i < compact@.len() && first_bad(compact@) == Some(i as int),
            None => first_bad(compact@) is None,
        },
{
    let n = compact.len();
    let mut i: usize = 0;
    while i < n
        invariant
            i <= n,
            n == compact.len(),
            legal_prefix(compact@, i as int),
        decreases n - i,
    {
        let c = compact[i];
        let legal = is_ascii_digit(c) || (i + 1 == n && (c == 'X' || c == 'x'));
        if !legal {
            proof {
                let j = choose|j: int|
                    0 <= j < compact@.len() && !legal_at(compact@[j], j, compact@.len() as int)
                        && legal_prefix(compact@, j);
                assert(!legal_at(compact@[i as int], i as int, n as int));
                if j < i {
                    assert(legal_at(compact@[j], j, n as int));
                } else if j > i {
                    assert(legal_at(compact@[i as int], i as int, n as int));
                }
            }
            return Some(i);
        }
        i = i + 1;
    }
    None
}

/// Fold a lowercase check `x` to the canonical `X`; everything else passes through.
fn fold_x(c: char) -> (r: char)
    ensures
        r == fold_x_spec(c),
{
    if c == 'x' {
        'X'
    } else {
        c
    }
}

/// The compacted number as a string, with `x` folded to `X`.
fn fold_all(c: &Vec<char>) -> (s: String)
    ensures
        s@ == normalised_spec(c@),
{
    let mut s = String::new();
    let mut i: usize = 0;
    while i < c.len()
        invariant
            i <= c.len(),
            s@ == normalised_spec(c@.take(i as int)),
        decreases c.len() - i,
    {
        push_char(&mut s, fold_x(c[i]));
        proof {
            assert(normalised_spec(c@.take(i as int)).push(fold_x_spec(c@[i as int]))
                =~= normalised_spec(c@.take(i + 1)));
        }
        i = i + 1;
    }
    proof {
        assert(c@.take(i as int) =~= c@);
    }
    s
}

proof fn lemma_digit_times_weight(d: int, w: int)
    requires
        0 <= d < 10,
        0 <= w <= 13,
    ensures
        0 <= d * w <= 130,
{
    assert(0 <= d * w <= 130) by (nonlinear_arith)
        requires
            0 <= d < 10,
            0 <= w <= 13,
    ;
}

/// The check character of an ISBN-10 or ISSN whose body is the first `len` characters.
fn mod11_check(c: &Vec<char>, len: usize) -> (r: char)
    requires
        len <= c.len(),
        len <= 12,
        forall|i: int| 0 <= i < len ==> is_digit(#[trigger] c@[i]),
    ensures
        r == mod11_spec(c@.take(len as int)),
{
    let mut acc: u32 = 0;
    let mut i: usize = 0;
    while i < len
        invariant
            i <= len <= c.len(),
            len <= 12,
            forall|k: int| 0 <= k < len ==> is_digit(#[trigger] c@[k]),
            acc == weighted11(c@.take(i as int), len as int),
            acc <= 130 * i,
        decreases len - i,
    {
        let d = value_of_digit(c[i]);
        let w = (len - i + 1) as u32;
        proof {
            lemma_digit_times_weight(d as int, w as int);
            assert(c@.take(i + 1).drop_last() =~= c@.take(i as int));
        }
        acc = acc + d * w;
        i = i + 1;
    }
    symbol((11 - acc % 11) % 11)
}

/// The check digit of an ISBN-13 whose body is the first `len` characters.
fn mod10_check(c: &Vec<char>, len: usize) -> (r: char)
    requires
        len <= c.len(),
        len <= 12,
        forall|i: int| 0 <= i < len ==> is_digit(#[trigger] c@[i]),
    ensures
        r == mod10_spec(c@.take(len as int)),
{
    let mut acc: u32 = 0;
    let mut i: usize = 0;
    while i < len
        invariant
            i <= len <= c.len(),
            len <= 12,
            forall|k: int| 0 <= k < len ==> is_digit(#[trigger] c@[k]),
            acc == weighted10(c@.take(i as int)),
            acc <= 130 * i,
        decreases len - i,
    {
        let d = value_of_digit(c[i]);
        let w: u32 = if i % 2 == 0 {
            1
        } else {
            3
        };
        proof {
            lemma_digit_times_weight(d as int, w as int);
            assert(c@.take(i + 1).drop_last() =~= c@.take(i as int));
        }
        acc = acc + d * w;
        i = i + 1;
    }
    symbol((10 - acc % 10) % 10)
}

/// The character for a residue in `0..=10`.
pub fn symbol(residue: u32) -> (c: char)
    requires
        residue <= 10,
    ensures
        c == symbol_spec(residue as int),
{
    if residue == 10 {
        'X'
    } else {
        let c = crate::text::char_for_digit(residue);
        c
    }
}

/// A text with no white space and no separator compacts to itself.
proof fn lemma_compact_keeps_bare(s: Seq<char>)
    requires
        forall|i: int| 0 <= i < s.len() ==> !is_space(#[trigger] s[i]) && !is_separator(s[i]),
    ensures
        compact_spec(s) == s,
    decreases s.len(),
{
    if s.len() > 0 {
        let u = s.drop_last();
        assert forall|i: int| 0 <= i < u.len() implies !is_space(#[trigger] u[i]) && !is_separator(u[i]) by {
            assert(u[i] == s[i]);
        }
        lemma_compact_keeps_bare(u);
        assert(!is_space(s[s.len() - 1]) && !is_separator(s[s.len() - 1]));
        assert(u.push(s.last()) =~= s);
    }
}

/// The normalised form of a valid number is valid, compacts to itself and normalises to
/// itself: parsing what `parse` gave back gives the same identifier again, of the same
/// kind.
pub proof fn law_normalised_number_parses_to_itself(c: Seq<char>)
    requires
        problem_spec(c) is None,
    ensures
        ({
            let v = normalised_spec(c);
            &&& compact_spec(v) == v
            &&& problem_spec(v) is None
            &&& normalised_spec(v) == v
            &&& v.len() == c.len()
            &&& (v.len() == 8 || v.len() == 10 || v.len() == 13)
        }),
{
    let v = normalised_spec(c);
    let n = c.len() as int;
    assert(first_bad(c) is None);
    assert(legal_prefix(c, n));
    assert forall|i: int| 0 <= i < n implies (is_digit(#[trigger] v[i]) || (i == n - 1 && v[i] == 'X')) by {
        assert(legal_at(c[i], i, n));
    }
    assert forall|i: int| 0 <= i < n implies !is_space(#[trigger] v[i]) && !is_separator(v[i]) by {
        assert(is_digit(v[i]) || v[i] == 'X');
    }
    lemma_compact_keeps_bare(v);
    assert forall|i: int| 0 <= i < n implies legal_at(#[trigger] v[i], i, n) by {
        assert(is_digit(v[i]) || (i == n - 1 && v[i] == 'X'));
    }
    assert(legal_prefix(v, n));
    assert(first_bad(v) is None);
    assert(normalised_spec(v) =~= v) by {
        assert forall|i: int| 0 <= i < n implies #[trigger] fold_x_spec(v[i]) == v[i] by {
            assert(is_digit(v[i]) || v[i] == 'X');
        }
    }
    if n > 0 {
        assert(v.drop_last() =~= c.drop_last()) by {
            assert forall|i: int| 0 <= i < n - 1 implies #[trigger] v.drop_last()[i] == c.drop_last()[i] by {
                assert(legal_at(c[i], i, n));
            }
        }
        assert(v.last() == fold_x_spec(c.last()));
        assert(fold_x_spec(v.last()) == fold_x_spec(c.last()));
        if n == 13 {
            assert(is_digit(c.last()));
            assert(v.last() == c.last());
        }
    }
}

} // verus!
