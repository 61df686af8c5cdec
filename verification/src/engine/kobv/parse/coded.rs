//! MARC `008`, the fixed-length coded data field.
//!
//! Its offsets are only valid if the field has its full length. Some records carry a
//! 34-character `008` instead of 40, which shifts everything by six: reading position 07
//! on such a record would return the wrong century. The offset is therefore detected
//! once, when the field is wrapped, and never assumed.
use vstd::prelude::*;
use crate::libraries::digits_value;
use crate::text::{chars_of, is_ascii_digit, is_digit, owned, value_of_digit};

verus! {

/// A wrapped `008` with its offset resolved.
#[derive(Debug, PartialEq, Eq)]
pub struct Coded008 {
    raw: String,
    offset: usize,
}

/// The offset of an `008` of this length: none at 40 characters, six at 34.
pub open spec fn offset_for(len: nat) -> Option<nat> {
    if len == 40 {
        Some(0)
    } else if len == 34 {
        Some(6)
    } else {
        None
    }
}

impl Coded008 {
    /// The field's characters.
    pub closed spec fn raw_spec(&self) -> Seq<char> {
        self.raw@
    }

    /// The detected offset.
    pub closed spec fn offset_spec(&self) -> nat {
        self.offset as nat
    }

    #[verifier::type_invariant]
    spec fn sized(&self) -> bool {
        offset_for(self.raw@.len()) == Some(self.offset as nat)
    }

    /// The characters at the standard positions `[from, to)`.
    pub open spec fn positions(&self, from: int, to: int) -> Seq<char> {
        self.raw_spec().subrange(from - self.offset_spec(), to - self.offset_spec())
    }

    /// Wrap an `008` value and work out its offset: 34 characters means the field
    /// starts six positions late, 40 means it does not. Anything else yields `None`.
    pub fn new(raw: &str) -> (r: Option<Coded008>)
        ensures
            match r {
                Some(c) => c.raw_spec() == raw@ && offset_for(raw@.len()) == Some(c.offset_spec()),
                None => offset_for(raw@.len()) is None,
            },
    {
        let v = chars_of(raw);
        let n = v.len();
        if n == 40 {
            let copy = owned(raw);
            proof {
                assert(copy@.len() == 40);
            }
            Some(Coded008 { raw: copy, offset: 0 })
        } else if n == 34 {
            let copy = owned(raw);
            proof {
                assert(copy@.len() == 34);
            }
            Some(Coded008 { raw: copy, offset: 6 })
        } else {
            None
        }
    }

    /// Date 1, from positions 07-10, when it is four digits.
    pub fn year(&self) -> (r: Option<i32>)
        ensures
            ({
                let d = self.positions(7, 11);
                match r {
                    Some(y) => (forall|i: int| 0 <= i < 4 ==> is_digit(#[trigger] d[i])) && y == digits_value(d),
                    None => !(forall|i: int| 0 <= i < 4 ==> is_digit(#[trigger] d[i])),
                }
            }),
    {
        proof {
            use_type_invariant(self);
        }
        let c = chars_of(self.raw.as_str());
        let from = 7 - self.offset;
        let ghost d = self.positions(7, 11);
        proof {
            assert(d =~= c@.subrange(from as int, from + 4));
            assert(d.subrange(0, 0) =~= Seq::<char>::empty());
        }
        let mut v: u32 = 0;
        let mut i: usize = 0;
        while i < 4
            invariant
                i <= 4,
                from + 4 <= c.len(),
                d == c@.subrange(from as int, from + 4),
                d == self.positions(7, 11),
                forall|k: int| 0 <= k < i ==> is_digit(#[trigger] d[k]),
                v == digits_value(d.subrange(0, i as int)),
                v < 10000,
                i == 0 ==> v == 0,
                v < crate::libraries::pow10(i as nat),
            decreases 4 - i,
        {
            let ch = c[from + i];
            proof {
                assert(d[i as int] == ch);
            }
            if !is_ascii_digit(ch) {
                proof {
                    assert(!is_digit(d[i as int]));
                }
                return None;
            }
            proof {
                assert(d.subrange(0, i + 1).drop_last() =~= d.subrange(0, i as int));
                assert(crate::libraries::pow10((i + 1) as nat) == 10 * crate::libraries::pow10(i as nat));
                reveal_with_fuel(crate::libraries::pow10, 5);
            }
            v = v * 10 + value_of_digit(ch);
            i = i + 1;
        }
        proof {
            assert(d.subrange(0, 4) =~= d);
        }
        Some(v as i32)
    }

    /// Language, from positions 35-37: an ISO-639-2/B code as the record has it, or
    /// `None` where those positions hold no code (`|||`, blanks).
    pub fn language(&self) -> (r: Option<&str>)
        ensures
            match r {
                Some(code) => code@ == self.positions(35, 38) && language_code(code@),
                None => !language_code(self.positions(35, 38)),
            },
    {
        proof {
            use_type_invariant(self);
        }
        let from = 35 - self.offset;
        let code = self.raw.as_str().substring_char(from, from + 3);
        if is_language_code(code) {
            Some(code)
        } else {
            None
        }
    }

    /// The raw field.
    pub fn raw(&self) -> (s: &str)
        ensures
            s@ == self.raw_spec(),
    {
        self.raw.as_str()
    }

    /// The detected offset.
    pub fn offset(&self) -> (n: usize)
        ensures
            n == self.offset_spec(),
    {
        self.offset
    }
}


/// Whether a text is a language code: exactly three lowercase ASCII letters.
pub open spec fn language_code(s: Seq<char>) -> bool {
    s.len() == 3 && forall|i: int| 0 <= i < 3 ==> 'a' <= #[trigger] s[i] && s[i] <= 'z'
}

/// Whether a text is a language code: three lowercase letters, nothing else. `lateng`
/// (two codes in one subfield) and `|||` are not.
pub fn is_language_code(code: &str) -> (r: bool)
    ensures
        r == language_code(code@),
{
    let c = chars_of(code);
    if c.len() != 3 {
        return false;
    }
    let mut i: usize = 0;
    while i < 3
        invariant
            i <= 3,
            c@ == code@,
            c.len() == 3,
            forall|k: int| 0 <= k < i ==> 'a' <= #[trigger] code@[k] && code@[k] <= 'z',
        decreases 3 - i,
    {
        if !('a' <= c[i] && c[i] <= 'z') {
            return false;
        }
        i = i + 1;
    }
    true
}

/// The earliest year accepted as a publication date.
pub const EARLIEST_YEAR: i32 = 1000;

/// The latest year accepted as a publication date.
pub const LATEST_YEAR: i32 = 2100;

/// A year that can be a publication date; `None` for one that cannot (`5740`, the Hebrew
/// calendar's year, read out of an imprint).
pub fn plausible_year(year: i32) -> (r: Option<i32>)
    ensures
        r == if EARLIEST_YEAR <= year <= LATEST_YEAR { Some(year) } else { None::<i32> },
{
    if EARLIEST_YEAR <= year && year <= LATEST_YEAR {
        Some(year)
    } else {
        None
    }
}

} // verus!
