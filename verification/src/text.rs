//! Character-level helpers shared by the parsers and the message builders.
//!
//! Every text in this crate is modelled as its sequence of `char`s (the view of `str`
//! and `String`), so the specifications here are all over `Seq<char>`.
use vstd::prelude::*;

verus! {

/// Unicode `White_Space`, the set `char::is_whitespace` and `str::trim` go by.
pub open spec fn is_space(c: char) -> bool {
    ||| ('\u{9}' <= c && c <= '\u{d}')
    ||| c == ' '
    ||| c == '\u{85}'
    ||| c == '\u{a0}'
    ||| c == '\u{1680}'
    ||| ('\u{2000}' <= c && c <= '\u{200a}')
    ||| c == '\u{2028}'
    ||| c == '\u{2029}'
    ||| c == '\u{202f}'
    ||| c == '\u{205f}'
    ||| c == '\u{3000}'
}

/// `0`..`9`.
pub open spec fn is_digit(c: char) -> bool {
    '0' <= c && c <= '9'
}

/// The value of an ASCII digit.
pub open spec fn digit_value(c: char) -> nat {
    (c as nat - '0' as nat) as nat
}

/// The ASCII digit for a value below ten.
pub open spec fn digit_char(d: nat) -> char {
    (d + '0' as nat) as char
}

/// Decimal notation of a natural number, without leading zeros.
pub open spec fn decimal_spec(n: nat) -> Seq<char>
    decreases n,
{
    if n < 10 {
        seq![digit_char(n)]
    } else {
        decimal_spec(n / 10).push(digit_char(n % 10))
    }
}

/// The text with leading white space removed.
pub open spec fn trim_start_spec(s: Seq<char>) -> Seq<char>
    decreases s.len(),
{
    if s.len() > 0 && is_space(s[0]) {
        trim_start_spec(s.drop_first())
    } else {
        s
    }
}

/// The text with trailing white space removed.
pub open spec fn trim_end_spec(s: Seq<char>) -> Seq<char>
    decreases s.len(),
{
    if s.len() > 0 && is_space(s.last()) {
        trim_end_spec(s.drop_last())
    } else {
        s
    }
}

/// The text with white space removed at both ends, as `str::trim` does it.
pub open spec fn trim_spec(s: Seq<char>) -> Seq<char> {
    trim_end_spec(trim_start_spec(s))
}

/// The text with every occurrence of one character removed.
pub open spec fn without(s: Seq<char>, c: char) -> Seq<char>
    decreases s.len(),
{
    if s.len() == 0 {
        s
    } else if s.last() == c {
        without(s.drop_last(), c)
    } else {
        without(s.drop_last(), c).push(s.last())
    }
}

/// Whether every character is white space.
pub open spec fn all_space(s: Seq<char>) -> bool {
    forall|i: int| 0 <= i < s.len() ==> is_space(#[trigger] s[i])
}

/// ASCII upper case of one character; everything else passes through.
pub open spec fn upper(c: char) -> char {
    if 'a' <= c && c <= 'z' {
        ((c as int) - 32) as char
    } else {
        c
    }
}

/// ASCII lower case of one character; everything else passes through.
pub open spec fn lower(c: char) -> char {
    if 'A' <= c && c <= 'Z' {
        ((c as int) + 32) as char
    } else {
        c
    }
}

/// The text in ASCII upper case.
pub open spec fn upper_seq(s: Seq<char>) -> Seq<char> {
    s.map_values(|c: char| upper(c))
}

/// The text in ASCII lower case.
pub open spec fn lower_seq(s: Seq<char>) -> Seq<char> {
    s.map_values(|c: char| lower(c))
}

/// Whether two texts are equal ignoring ASCII case.
pub open spec fn same_folded(a: Seq<char>, b: Seq<char>) -> bool {
    upper_seq(a) == upper_seq(b)
}

/// Whether `p` is a prefix of `s`.
pub open spec fn is_prefix(p: Seq<char>, s: Seq<char>) -> bool {
    p.len() <= s.len() && s.subrange(0, p.len() as int) == p
}

/// Whether `needle` occurs somewhere in `hay`.
pub open spec fn contains_seq(hay: Seq<char>, needle: Seq<char>) -> bool {
    exists|i: int| 0 <= i <= hay.len() - needle.len() && #[trigger] hay.subrange(i, i + needle.len()) == needle
}

/// Appends one character to a string.
///
/// Wraps `String::push`, which the standard library documents as appending the given
/// `char` to the end of the string.
#[verifier::external_body]
pub fn push_char(s: &mut String, c: char)
    ensures
        final(s)@ == old(s)@.push(c),
{
    s.push(c);
}

/// Appends a string slice to a string.
pub fn push_str(s: &mut String, t: &str)
    ensures
        final(s)@ == old(s)@ + t@,
{
    let chars = chars_of(t);
    let ghost start = s@;
    let mut i: usize = 0;
    while i < chars.len()
        invariant
            i <= chars.len(),
            chars@ == t@,
            s@ == start + t@.take(i as int),
        decreases chars.len() - i,
    {
        push_char(s, chars[i]);
        proof {
            assert(t@.take(i as int).push(t@[i as int]) =~= t@.take(i + 1));
        }
        i = i + 1;
    }
    proof {
        assert(t@.take(i as int) =~= t@);
    }
}

/// A fresh string holding a copy of the slice.
pub fn owned(t: &str) -> (s: String)
    ensures
        s@ == t@,
{
    let mut s = String::new();
    push_str(&mut s, t);
    proof {
        assert(Seq::<char>::empty() + t@ =~= t@);
    }
    s
}

/// The concatenation of two slices.
pub fn concat(a: &str, b: &str) -> (s: String)
    ensures
        s@ == a@ + b@,
{
    let mut s = owned(a);
    push_str(&mut s, b);
    s
}

/// All the pieces, one after the other.
pub open spec fn flatten(parts: Seq<Seq<char>>) -> Seq<char>
    decreases parts.len(),
{
    if parts.len() == 0 {
        Seq::empty()
    } else {
        flatten(parts.drop_last()) + parts.last()
    }
}

/// The views of a list of slices.
pub open spec fn views(parts: Seq<&str>) -> Seq<Seq<char>> {
    parts.map_values(|p: &str| p@)
}

/// The pieces joined into one string.
pub fn cat(parts: Vec<&str>) -> (s: String)
    ensures
        s@ == flatten(views(parts@)),
{
    let mut s = String::new();
    let mut i: usize = 0;
    while i < parts.len()
        invariant
            i <= parts.len(),
            s@ == flatten(views(parts@.take(i as int))),
        decreases parts.len() - i,
    {
        push_str(&mut s, parts[i]);
        proof {
            assert(views(parts@.take(i + 1)).drop_last() =~= views(parts@.take(i as int)));
        }
        i = i + 1;
    }
    proof {
        assert(parts@.take(i as int) =~= parts@);
    }
    s
}

/// A string followed by a slice.
pub fn concat_owned(a: String, b: &str) -> (s: String)
    ensures
        s@ == a@ + b@,
{
    let mut s = a;
    push_str(&mut s, b);
    s
}

/// The string whose characters are those of the vector.
pub fn string_of(v: &Vec<char>) -> (s: String)
    ensures
        s@ == v@,
{
    let mut s = String::new();
    let mut i: usize = 0;
    while i < v.len()
        invariant
            i <= v.len(),
            s@ == v@.take(i as int),
        decreases v.len() - i,
    {
        push_char(&mut s, v[i]);
        proof {
            assert(v@.take(i as int).push(v@[i as int]) =~= v@.take(i + 1));
        }
        i = i + 1;
    }
    proof {
        assert(v@.take(i as int) =~= v@);
    }
    s
}

/// The characters of a string slice, in order.
pub fn chars_of(s: &str) -> (v: Vec<char>)
    ensures
        v@ == s@,
{
    let mut v: Vec<char> = Vec::new();
    for c in it: s.chars()
        invariant
            v@ == it.seq().take(it.index() as int),
            it.seq() == s@,
    {
        v.push(c);
    }
    v
}

/// Number of characters (not bytes) in a slice.
pub fn char_count(s: &str) -> (n: usize)
    ensures
        n == s@.len(),
{
    let v = chars_of(s);
    v.len()
}

/// Whether two slices hold the same characters.
pub fn same_text(a: &str, b: &str) -> (r: bool)
    ensures
        r == (a@ == b@),
{
    let x = chars_of(a);
    let y = chars_of(b);
    if x.len() != y.len() {
        return false;
    }
    let mut i: usize = 0;
    while i < x.len()
        invariant
            i <= x.len(),
            x.len() == y.len(),
            x@ == a@,
            y@ == b@,
            forall|j: int| 0 <= j < i ==> x@[j] == y@[j],
        decreases x.len() - i,
    {
        if x[i] != y[i] {
            return false;
        }
        i = i + 1;
    }
    proof {
        assert(x@ =~= y@);
    }
    true
}

/// `char::to_ascii_uppercase`.
pub fn upper_char(c: char) -> (r: char)
    ensures
        r == upper(c),
{
    if 'a' <= c && c <= 'z' {
        ((c as u8) - 32) as char
    } else {
        c
    }
}

/// `char::to_ascii_lowercase`.
pub fn lower_char(c: char) -> (r: char)
    ensures
        r == lower(c),
{
    if 'A' <= c && c <= 'Z' {
        ((c as u8) + 32) as char
    } else {
        c
    }
}

/// `str::to_ascii_uppercase`.
pub fn to_upper(s: &str) -> (t: String)
    ensures
        t@ == upper_seq(s@),
{
    let v = chars_of(s);
    let mut out = String::new();
    let mut i: usize = 0;
    while i < v.len()
        invariant
            i <= v.len(),
            v@ == s@,
            out@ == upper_seq(s@.take(i as int)),
        decreases v.len() - i,
    {
        push_char(&mut out, upper_char(v[i]));
        proof {
            assert(upper_seq(s@.take(i as int)).push(upper(s@[i as int])) =~= upper_seq(s@.take(i + 1)));
        }
        i = i + 1;
    }
    proof {
        assert(s@.take(i as int) =~= s@);
    }
    out
}

/// `str::to_ascii_lowercase`.
pub fn to_lower(s: &str) -> (t: String)
    ensures
        t@ == lower_seq(s@),
{
    let v = chars_of(s);
    let mut out = String::new();
    let mut i: usize = 0;
    while i < v.len()
        invariant
            i <= v.len(),
            v@ == s@,
            out@ == lower_seq(s@.take(i as int)),
        decreases v.len() - i,
    {
        push_char(&mut out, lower_char(v[i]));
        proof {
            assert(lower_seq(s@.take(i as int)).push(lower(s@[i as int])) =~= lower_seq(s@.take(i + 1)));
        }
        i = i + 1;
    }
    proof {
        assert(s@.take(i as int) =~= s@);
    }
    out
}

/// Whether two slices are equal ignoring ASCII case.
pub fn eq_folded(a: &str, b: &str) -> (r: bool)
    ensures
        r == same_folded(a@, b@),
{
    let x = to_upper(a);
    let y = to_upper(b);
    same_text(x.as_str(), y.as_str())
}

/// Whether `p` is a prefix of `s`.
pub fn starts_with(s: &str, p: &str) -> (r: bool)
    ensures
        r == is_prefix(p@, s@),
{
    let x = chars_of(s);
    let y = chars_of(p);
    if y.len() > x.len() {
        return false;
    }
    let mut i: usize = 0;
    while i < y.len()
        invariant
            i <= y.len() <= x.len(),
            x@ == s@,
            y@ == p@,
            forall|j: int| 0 <= j < i ==> x@[j] == y@[j],
        decreases y.len() - i,
    {
        if x[i] != y[i] {
            proof {
                assert(s@.subrange(0, p@.len() as int)[i as int] != p@[i as int]);
            }
            return false;
        }
        i = i + 1;
    }
    proof {
        assert(s@.subrange(0, p@.len() as int) =~= p@);
    }
    true
}

/// Whether `needle` occurs somewhere in `hay`.
pub fn contains_text(hay: &str, needle: &str) -> (r: bool)
    ensures
        r == contains_seq(hay@, needle@),
{
    let h = chars_of(hay);
    let n = chars_of(needle);
    if n.len() > h.len() {
        proof {
            assert(!contains_seq(hay@, needle@));
        }
        return false;
    }
    let mut i: usize = 0;
    while i <= h.len() - n.len()
        invariant
            n.len() <= h.len(),
            i <= h.len() - n.len() + 1,
            h@ == hay@,
            n@ == needle@,
            forall|k: int| 0 <= k < i ==> #[trigger] hay@.subrange(k, k + needle@.len()) != needle@,
        decreases h.len() - i,
    {
        let mut j: usize = 0;
        let mut found = true;
        while j < n.len()
            invariant
                j <= n.len(),
                i + n.len() <= h.len(),
                h@ == hay@,
                n@ == needle@,
                found == (forall|m: int| 0 <= m < j ==> hay@[i + m] == needle@[m]),
            decreases n.len() - j,
        {
            if h[i + j] != n[j] {
                found = false;
            }
            j = j + 1;
        }
        if found {
            proof {
                assert(hay@.subrange(i as int, i + needle@.len()) =~= needle@);
            }
            return true;
        } else {
            proof {
                let m = choose|m: int| 0 <= m < n@.len() && hay@[i + m] != needle@[m];
                assert(hay@.subrange(i as int, i + needle@.len())[m] != needle@[m]);
            }
        }
        i = i + 1;
    }
    false
}

/// What `char::is_alphanumeric` answers for a character: Unicode `Alphabetic` or
/// `Numeric`.
pub uninterp spec fn alphanumeric(c: char) -> bool;

/// `char::is_alphanumeric`.
///
/// The standard library documents it as "alphabetic or numeric" in Unicode's sense; the
/// contract names that answer and states only what it is on ASCII, where the two
/// properties are the letters and the digits.
#[verifier::external_body]
pub fn is_alphanumeric(c: char) -> (r: bool)
    ensures
        r == alphanumeric(c),
        (c as u32) < 128 ==> (r <==> (('a' <= c && c <= 'z') || ('A' <= c && c <= 'Z') || is_digit(c))),
{
    c.is_alphanumeric()
}

/// Decimal notation of a signed number, with a `-` in front of a negative one.
pub open spec fn signed_decimal_spec(n: int) -> Seq<char> {
    if n < 0 {
        seq!['-'] + decimal_spec((-n) as nat)
    } else {
        decimal_spec(n as nat)
    }
}

/// Decimal notation of a signed number, as `to_string` writes it.
pub fn signed_decimal(n: i64) -> (s: String)
    ensures
        s@ == signed_decimal_spec(n as int),
{
    if n < 0 {
        let magnitude: u64 = if n == i64::MIN {
            0x8000_0000_0000_0000u64
        } else {
            (-n) as u64
        };
        let digits = decimal(magnitude);
        let mut s = String::new();
        push_char(&mut s, '-');
        push_str(&mut s, digits.as_str());
        proof {
            assert(Seq::<char>::empty().push('-') + digits@ =~= seq!['-'] + digits@);
        }
        s
    } else {
        decimal(n as u64)
    }
}

/// The characters a run of UTF-8 bytes encodes.
pub open spec fn decoded(bytes: Seq<u8>) -> Seq<char> {
    vstd::utf8::decode_utf8(bytes)
}

/// The UTF-8 bytes of a text.
pub open spec fn encoded(s: Seq<char>) -> Seq<u8> {
    vstd::utf8::encode_utf8(s)
}

/// Whether `[start, end)` is a range of whole characters in the UTF-8 bytes of `s`.
pub open spec fn char_range(s: Seq<char>, start: int, end: int) -> bool {
    0 <= start <= end <= encoded(s).len() && vstd::utf8::is_char_boundary(encoded(s), start)
        && vstd::utf8::is_char_boundary(encoded(s), end)
}

/// The part of a text between two byte offsets: the text whose UTF-8 bytes are
/// `start..end` where both ends lie on character boundaries and `start <= end`, and
/// nothing otherwise.
pub fn byte_slice(s: &str, start: usize, end: usize) -> (r: Option<&str>)
    ensures
        match r {
            Some(t) => char_range(s@, start as int, end as int) && encoded(t@) == encoded(s@).subrange(start as int, end as int),
            None => !char_range(s@, start as int, end as int),
        },
{
    let n = s.as_bytes().len();
    if start <= end && end <= n && s.is_char_boundary(start) && s.is_char_boundary(end) {
        let ghost bytes = encoded(s@);
        proof {
            assert(n as int == bytes.len());
            assert(vstd::utf8::is_char_boundary(bytes, start as int));
            assert(vstd::utf8::is_char_boundary(bytes, end as int));
            vstd::utf8::encode_utf8_valid_utf8(s@);
            vstd::utf8::valid_utf8_split(bytes, start as int);
        }
        let (_, tail) = s.split_at(start);
        let ghost rest = bytes.subrange(start as int, bytes.len() as int);
        proof {
            assert(encoded(tail@) == rest);
            assert(rest.len() == bytes.len() - start);
            let k = (end - start) as int;
            if end == n {
                vstd::utf8::is_char_boundary_start_end_of_seq(rest);
                assert(k == rest.len());
            } else if k > 0 {
                vstd::utf8::is_char_boundary_iff_not_is_continuation_byte(bytes, end as int);
                vstd::utf8::is_char_boundary_iff_not_is_continuation_byte(rest, k);
                assert(rest[k] == bytes[end as int]);
            }
        }
        let (mid, _) = tail.split_at(end - start);
        proof {
            assert(encoded(mid@) =~= bytes.subrange(start as int, end as int));
            assert(char_range(s@, start as int, end as int));
        }
        Some(mid)
    } else {
        None
    }
}

/// `char::is_whitespace`.
pub fn is_whitespace(c: char) -> (r: bool)
    ensures
        r == is_space(c),
{
    ('\u{9}' <= c && c <= '\u{d}') || c == ' ' || c == '\u{85}' || c == '\u{a0}' || c
        == '\u{1680}' || ('\u{2000}' <= c && c <= '\u{200a}') || c == '\u{2028}' || c
        == '\u{2029}' || c == '\u{202f}' || c == '\u{205f}' || c == '\u{3000}'
}

/// `char::is_ascii_digit`.
pub fn is_ascii_digit(c: char) -> (r: bool)
    ensures
        r == is_digit(c),
{
    '0' <= c && c <= '9'
}

proof fn lemma_decimal_nonempty(n: nat)
    ensures
        decimal_spec(n).len() >= 1,
    decreases n,
{
    if n >= 10 {
        lemma_decimal_nonempty(n / 10);
    }
}

/// Decimal notation of an unsigned number, as `to_string` writes it.
pub fn decimal(n: u64) -> (s: String)
    ensures
        s@ == decimal_spec(n as nat),
    decreases n,
{
    let d = (n % 10) as u32;
    let c = char_for_digit(d);
    if n < 10 {
        let mut s = String::new();
        push_char(&mut s, c);
        proof {
            assert(seq![c] =~= Seq::<char>::empty().push(c));
        }
        s
    } else {
        let mut s = decimal(n / 10);
        push_char(&mut s, c);
        s
    }
}

/// The ASCII digit for a value below ten.
pub fn char_for_digit(d: u32) -> (c: char)
    requires
        d < 10,
    ensures
        c == digit_char(d as nat),
        is_digit(c),
        digit_value(c) == d,
{
    if d == 0 {
        '0'
    } else if d == 1 {
        '1'
    } else if d == 2 {
        '2'
    } else if d == 3 {
        '3'
    } else if d == 4 {
        '4'
    } else if d == 5 {
        '5'
    } else if d == 6 {
        '6'
    } else if d == 7 {
        '7'
    } else if d == 8 {
        '8'
    } else {
        '9'
    }
}

/// The value of an ASCII digit, as `char::to_digit(10)` gives it.
pub fn value_of_digit(c: char) -> (d: u32)
    requires
        is_digit(c),
    ensures
        d == digit_value(c),
        d < 10,
{
    if c == '0' {
        0
    } else if c == '1' {
        1
    } else if c == '2' {
        2
    } else if c == '3' {
        3
    } else if c == '4' {
        4
    } else if c == '5' {
        5
    } else if c == '6' {
        6
    } else if c == '7' {
        7
    } else if c == '8' {
        8
    } else {
        9
    }
}

/// `str::trim`: the slice's text without white space at either end.
pub fn trim(s: &str) -> (t: String)
    ensures
        t@ == trim_spec(s@),
{
    let v = chars_of(s);
    let n = v.len();
    let mut i: usize = 0;
    proof {
        assert(s@.subrange(0, n as int) =~= s@);
    }
    while i < n && is_whitespace(v[i])
        invariant
            i <= n,
            n == v.len(),
            v@ == s@,
            trim_start_spec(s@) == trim_start_spec(s@.subrange(i as int, n as int)),
        decreases n - i,
    {
        proof {
            assert(s@.subrange(i as int, n as int).drop_first() =~= s@.subrange(
                i + 1,
                n as int,
            ));
        }
        i = i + 1;
    }
    let ghost mid = s@.subrange(i as int, n as int);
    proof {
        assert(trim_start_spec(mid) == mid);
    }
    let mut j: usize = n;
    while j > i && is_whitespace(v[j - 1])
        invariant
            i <= j <= n,
            n == v.len(),
            v@ == s@,
            mid == s@.subrange(i as int, n as int),
            trim_end_spec(mid) == trim_end_spec(s@.subrange(i as int, j as int)),
        decreases j,
    {
        proof {
            assert(s@.subrange(i as int, j as int).drop_last() =~= s@.subrange(
                i as int,
                j - 1,
            ));
        }
        j = j - 1;
    }
    let mut out = String::new();
    let mut k: usize = i;
    while k < j
        invariant
            i <= k <= j <= n,
            n == v.len(),
            v@ == s@,
            out@ == s@.subrange(i as int, k as int),
        decreases j - k,
    {
        push_char(&mut out, v[k]);
        proof {
            assert(s@.subrange(i as int, k as int).push(s@[k as int]) =~= s@.subrange(
                i as int,
                k + 1,
            ));
        }
        k = k + 1;
    }
    proof {
        let w = s@.subrange(i as int, j as int);
        assert(trim_end_spec(w) == w);
    }
    out
}

/// Whether the text is empty once trimmed.
pub fn is_blank(s: &str) -> (r: bool)
    ensures
        r == (trim_spec(s@).len() == 0),
{
    let t = trim(s);
    t.as_str().unicode_len() == 0
}

/// The slice's text with one character removed wherever it occurs.
pub fn remove_char(s: &str, c: char) -> (t: String)
    ensures
        t@ == without(s@, c),
{
    let v = chars_of(s);
    let mut out = String::new();
    let mut i: usize = 0;
    while i < v.len()
        invariant
            i <= v.len(),
            v@ == s@,
            out@ == without(s@.take(i as int), c),
        decreases v.len() - i,
    {
        proof {
            assert(s@.take(i + 1).drop_last() =~= s@.take(i as int));
        }
        if v[i] != c {
            push_char(&mut out, v[i]);
        }
        i = i + 1;
    }
    proof {
        assert(s@.take(i as int) =~= s@);
    }
    out
}


/// One character folded for comparison: ASCII letters lower-cased, the German umlauts
/// and the common Latin accents stripped to their base letter, `ß` spelled `ss`.
pub open spec fn fold_char(c: char) -> Seq<char> {
    if 'A' <= c && c <= 'Z' {
        seq![lower(c)]
    } else if c == 'ä' || c == 'Ä' || c == 'à' || c == 'á' || c == 'â' || c == 'À' || c == 'Á' || c == 'Â' {
        seq!['a']
    } else if c == 'ö' || c == 'Ö' || c == 'ò' || c == 'ó' || c == 'ô' || c == 'Ò' || c == 'Ó' || c == 'Ô' {
        seq!['o']
    } else if c == 'ü' || c == 'Ü' || c == 'ù' || c == 'ú' || c == 'û' || c == 'Ù' || c == 'Ú' || c == 'Û' {
        seq!['u']
    } else if c == 'è' || c == 'é' || c == 'ê' || c == 'ë' || c == 'È' || c == 'É' || c == 'Ê' || c == 'Ë' {
        seq!['e']
    } else if c == 'ì' || c == 'í' || c == 'î' || c == 'ï' || c == 'Ì' || c == 'Í' || c == 'Î' || c == 'Ï' {
        seq!['i']
    } else if c == 'ç' || c == 'Ç' {
        seq!['c']
    } else if c == 'ñ' || c == 'Ñ' {
        seq!['n']
    } else if c == 'ß' {
        seq!['s', 's']
    } else {
        seq![c]
    }
}

/// A text folded for comparison, character by character.
pub open spec fn fold_spec(s: Seq<char>) -> Seq<char>
    decreases s.len(),
{
    if s.len() == 0 {
        s
    } else {
        fold_spec(s.drop_last()) + fold_char(s.last())
    }
}

/// One character folded.
fn fold_one(c: char, out: &mut String)
    ensures
        final(out)@ == old(out)@ + fold_char(c),
{
    if 'A' <= c && c <= 'Z' {
        push_char(out, lower_char(c));
    } else if c == 'ä' || c == 'Ä' || c == 'à' || c == 'á' || c == 'â' || c == 'À' || c == 'Á' || c == 'Â' {
        push_char(out, 'a');
    } else if c == 'ö' || c == 'Ö' || c == 'ò' || c == 'ó' || c == 'ô' || c == 'Ò' || c == 'Ó' || c == 'Ô' {
        push_char(out, 'o');
    } else if c == 'ü' || c == 'Ü' || c == 'ù' || c == 'ú' || c == 'û' || c == 'Ù' || c == 'Ú' || c == 'Û' {
        push_char(out, 'u');
    } else if c == 'è' || c == 'é' || c == 'ê' || c == 'ë' || c == 'È' || c == 'É' || c == 'Ê' || c == 'Ë' {
        push_char(out, 'e');
    } else if c == 'ì' || c == 'í' || c == 'î' || c == 'ï' || c == 'Ì' || c == 'Í' || c == 'Î' || c == 'Ï' {
        push_char(out, 'i');
    } else if c == 'ç' || c == 'Ç' {
        push_char(out, 'c');
    } else if c == 'ñ' || c == 'Ñ' {
        push_char(out, 'n');
    } else if c == 'ß' {
        push_char(out, 's');
        push_char(out, 's');
    } else {
        push_char(out, c);
    }
    proof {
        assert(final(out)@ =~= old(out)@ + fold_char(c));
    }
}

/// A text folded for comparison: case and the accents of the names this tool compares
/// (`Hörbuch`, `Präsenzbestand`, `Französisch`) do not count.
pub fn fold(s: &str) -> (t: String)
    ensures
        t@ == fold_spec(s@),
{
    let c = chars_of(s);
    let mut t = String::new();
    let mut i: usize = 0;
    while i < c.len()
        invariant
            i <= c.len(),
            c@ == s@,
            t@ == fold_spec(s@.take(i as int)),
        decreases c.len() - i,
    {
        proof {
            assert(s@.take(i + 1).drop_last() =~= s@.take(i as int));
            assert(s@.take(i + 1).last() == c@[i as int]);
        }
        fold_one(c[i], &mut t);
        i = i + 1;
    }
    proof {
        assert(s@.take(i as int) =~= s@);
    }
    t
}


/// Whether `needle` stands in `hay` at position `i`.
pub open spec fn occurs_at(hay: Seq<char>, needle: Seq<char>, i: int) -> bool {
    0 <= i && i + needle.len() <= hay.len() && hay.subrange(i, i + needle.len()) == needle
}

/// Where `needle` first stands in `hay`.
#[verifier::opaque]
pub open spec fn first_occurrence(hay: Seq<char>, needle: Seq<char>) -> Option<int> {
    if exists|i: int| occurs_at(hay, needle, i) {
        Some(choose|i: int| occurs_at(hay, needle, i) && forall|j: int| 0 <= j < i ==> !occurs_at(hay, needle, j))
    } else {
        None
    }
}

/// Where `needle` last stands in `hay`.
#[verifier::opaque]
pub open spec fn last_occurrence(hay: Seq<char>, needle: Seq<char>) -> Option<int> {
    if exists|i: int| occurs_at(hay, needle, i) {
        Some(choose|i: int| occurs_at(hay, needle, i) && forall|j: int| i < j ==> !occurs_at(hay, needle, j))
    } else {
        None
    }
}

/// Whether `needle` stands in `h` at `i`.
fn occurs(h: &Vec<char>, n: &Vec<char>, i: usize) -> (r: bool)
    requires
        i + n.len() <= h.len(),
    ensures
        r == occurs_at(h@, n@, i as int),
{
    let mut j: usize = 0;
    while j < n.len()
        invariant
            j <= n.len(),
            i + n.len() <= h.len(),
            forall|m: int| 0 <= m < j ==> h@[i + m] == n@[m],
        decreases n.len() - j,
    {
        if h[i + j] != n[j] {
            proof {
                assert(h@.subrange(i as int, i + n@.len())[j as int] != n@[j as int]);
            }
            return false;
        }
        j = j + 1;
    }
    proof {
        assert(h@.subrange(i as int, i + n@.len()) =~= n@);
    }
    true
}

/// Where `needle` first stands in `hay`, counted in characters.
pub fn find_text(hay: &str, needle: &str) -> (r: Option<usize>)
    ensures
        match r {
            Some(i) => first_occurrence(hay@, needle@) == Some(i as int) && occurs_at(hay@, needle@, i as int),
            None => first_occurrence(hay@, needle@) is None,
        },
{
    proof {
        reveal(first_occurrence);
    }
    let h = chars_of(hay);
    let n = chars_of(needle);
    if n.len() == 0 {
        proof {
            assert(occurs_at(hay@, needle@, 0)) by {
                assert(hay@.subrange(0, 0) =~= needle@);
            }
        }
        return Some(0);
    }
    if n.len() > h.len() {
        return None;
    }
    let mut i: usize = 0;
    while i <= h.len() - n.len()
        invariant
            1 <= n.len() <= h.len(),
            i <= h.len() - n.len() + 1,
            h@ == hay@,
            n@ == needle@,
            forall|k: int| 0 <= k < i ==> !occurs_at(hay@, needle@, k),
        decreases h.len() - i,
    {
        if occurs(&h, &n, i) {
            proof {
                reveal(first_occurrence);
                let w = choose|w: int| occurs_at(hay@, needle@, w) && forall|j: int| 0 <= j < w ==> !occurs_at(hay@, needle@, j);
                if w < i {
                } else if w > i {
                    assert(!occurs_at(hay@, needle@, i as int));
                }
            }
            return Some(i);
        }
        i = i + 1;
    }
    None
}

/// Where `needle` last stands in `hay`, counted in characters.
pub fn rfind_text(hay: &str, needle: &str) -> (r: Option<usize>)
    ensures
        match r {
            Some(i) => last_occurrence(hay@, needle@) == Some(i as int) && occurs_at(hay@, needle@, i as int),
            None => last_occurrence(hay@, needle@) is None,
        },
{
    proof {
        reveal(last_occurrence);
    }
    let h = chars_of(hay);
    let n = chars_of(needle);
    if n.len() == 0 {
        proof {
            assert(occurs_at(hay@, needle@, hay@.len() as int)) by {
                assert(hay@.subrange(hay@.len() as int, hay@.len() as int) =~= needle@);
            }
            let w = choose|w: int| occurs_at(hay@, needle@, w) && forall|j: int| w < j ==> !occurs_at(hay@, needle@, j);
            if w < hay@.len() {
                assert(!occurs_at(hay@, needle@, hay@.len() as int));
            }
        }
        return Some(h.len());
    }
    if n.len() > h.len() {
        return None;
    }
    let mut i: usize = h.len() - n.len() + 1;
    while i > 0
        invariant
            1 <= n.len() <= h.len(),
            i <= h.len() - n.len() + 1,
            h@ == hay@,
            n@ == needle@,
            forall|k: int| i <= k ==> !occurs_at(hay@, needle@, k),
        decreases i,
    {
        if occurs(&h, &n, i - 1) {
            proof {
                reveal(last_occurrence);
                let k = i - 1;
                let w = choose|w: int| occurs_at(hay@, needle@, w) && forall|j: int| w < j ==> !occurs_at(hay@, needle@, j);
                if w < k {
                    assert(!occurs_at(hay@, needle@, k));
                } else if w > k {
                    assert(!occurs_at(hay@, needle@, w));
                }
            }
            return Some(i - 1);
        }
        i = i - 1;
    }
    None
}


/// What `{:?}` makes of a text: quoted, with `"`, `\\` and what cannot be printed
/// escaped as Rust writes string literals.
pub uninterp spec fn debug_text(s: Seq<char>) -> Seq<char>;

/// A text quoted the way `format!("{:?}")` quotes a `str`. The rules for what is escaped
/// (`char::escape_debug`) take pages; the contract names the result and says no more.
#[verifier::external_body]
pub(crate) fn quoted(s: &str) -> (q: String)
    ensures
        q@ == debug_text(s@),
{
    format!("{s:?}")
}

} // verus!
