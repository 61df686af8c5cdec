//! The domain types every part of the tool speaks in.
use vstd::prelude::*;
use crate::error::{Error, UnexpectedError, UnexpectedView, UsageError};
use crate::libraries::Branch;
use crate::text::{chars_of, concat, is_space, is_whitespace, owned, push_char, push_str, same_text, trim, trim_spec};

verus! {

/// A validated standard number, stripped to bare characters.
#[derive(Debug, Clone, PartialEq, Eq)]
pub enum Identifier {
    Isbn(String),
    Issn(String),
}

impl Identifier {
    /// The characters of the number, whichever scheme it is.
    pub open spec fn digits(&self) -> Seq<char> {
        match self {
            Identifier::Isbn(v) => v@,
            Identifier::Issn(v) => v@,
        }
    }
}

/// The catalogue that answers for a location.
#[derive(Debug, Clone, Copy, PartialEq, Eq, Structural)]
pub enum Engine {
    /// The KOBV union catalogue, over SRU.
    Kobv,
    /// voebb.de, the Berlin public library network.
    Voebb,
}

impl Engine {
    /// Every engine, in the order the engines run and their records follow each other.
    pub open spec fn all_spec() -> Seq<Engine> {
        seq![Engine::Kobv, Engine::Voebb]
    }

    /// Every engine, in the order the engines run.
    pub fn all() -> (v: Vec<Engine>)
        ensures
            v@ == Self::all_spec(),
    {
        let v = vec![Engine::Kobv, Engine::Voebb];
        v
    }

    /// The name an engine goes by in messages and documents.
    pub open spec fn name_spec(self) -> Seq<char> {
        match self {
            Engine::Kobv => "kobv"@,
            Engine::Voebb => "voebb"@,
        }
    }

    /// The name an engine goes by in messages and documents.
    pub fn name(&self) -> (s: &'static str)
        ensures
            s@ == self.name_spec(),
    {
        match self {
            Engine::Kobv => "kobv",
            Engine::Voebb => "voebb",
        }
    }
}

/// An ISIL, the code that names an institution in the holdings data.
#[derive(Debug, Clone, PartialEq, Eq)]
pub struct Isil(pub String);

impl Isil {
    /// An ISIL from its canonical spelling.
    pub fn new(code: &str) -> (i: Isil)
        ensures
            i.0@ == code@,
    {
        Isil(owned(code))
    }

    /// The code as text.
    pub fn as_str(&self) -> (s: &str)
        ensures
            s@ == self.0@,
    {
        self.0.as_str()
    }
}

/// One location of `--at`, resolved against the library list.
#[derive(Debug, Clone, PartialEq)]
pub struct Location {
    /// The canonical key of the library or branch.
    pub key: String,
    /// The word the user typed for it.
    pub given: String,
    /// The institution whose holdings are searched.
    pub isil: Isil,
    /// The catalogue that answers for it.
    pub engine: Engine,
    /// The branch, where the location is one.
    pub branch: Option<Branch>,
}

/// A record id: the catalogue prefix, `_`, and the catalogue's own id.
#[derive(Debug, PartialEq, Eq)]
pub struct RecordId {
    id: String,
    local: String,
    engine: Engine,
}

/// The characters a catalogue prefix is made of.
pub open spec fn is_prefix_char(c: char) -> bool {
    ('a' <= c && c <= 'z') || ('A' <= c && c <= 'Z') || ('0' <= c && c <= '9')
}

/// The error for a catalogue id without a source prefix.
pub open spec fn unprefixed_id(raw: Seq<char>) -> UnexpectedView {
    UnexpectedView::MissingElement {
        what: crate::text::flatten(seq!["a source prefix in the record id \""@, raw, "\""@]),
        context: "MARCXML record from SRU"@,
    }
}

/// Where the first `_` of a text stands, if it has one.
pub open spec fn first_underscore(s: Seq<char>) -> Option<int> {
    if exists|k: int| 0 <= k < s.len() && s[k] == '_' {
        Some(choose|k: int| 0 <= k < s.len() && s[k] == '_' && forall|j: int| 0 <= j < k ==> s[j] != '_')
    } else {
        None
    }
}

/// Whether a text is a record id: a non-empty prefix of letters and digits, `_`, and a
/// non-empty local part.
pub open spec fn is_record_id(s: Seq<char>) -> bool {
    match first_underscore(s) {
        Some(k) => 0 < k < s.len() - 1 && forall|j: int| 0 <= j < k ==> is_prefix_char(#[trigger] s[j]),
        None => false,
    }
}

/// Whether an id, a local part and an engine agree: the local part is what follows the
/// id's first `_`, and the engine is voebb.de exactly when the prefix before it is
/// `voebb`.
#[verifier::opaque]
pub open spec fn id_parts_agree(id: Seq<char>, local: Seq<char>, engine: Engine) -> bool {
    first_underscore(id) matches Some(k) && local == id.subrange(k + 1, id.len() as int) && (engine == Engine::Voebb
        <==> id.subrange(0, k) == "voebb"@)
}

impl RecordId {
    /// An id's local part and engine are read off its text.
    #[verifier::type_invariant]
    spec fn parts_agree(self) -> bool {
        id_parts_agree(self.id@, self.local@, self.engine)
    }

    /// The whole id, prefix included.
    pub closed spec fn id_spec(&self) -> Seq<char> {
        self.id@
    }

    /// The catalogue's own id, after the prefix.
    pub closed spec fn local_spec(&self) -> Seq<char> {
        self.local@
    }

    /// The engine the prefix names.
    pub closed spec fn engine_spec(&self) -> Engine {
        self.engine
    }

    /// Read an id as the user typed it: `voebb_` names voebb.de, every other prefix a
    /// KOBV source.
    pub fn parse(input: &str) -> (r: Result<RecordId, UsageError>)
        ensures
            match r {
                Ok(id) => is_record_id(input@) && id.id_spec() == input@ && ({
                    let k = first_underscore(input@)->0;
                    &&& id.local_spec() == input@.subrange(k + 1, input@.len() as int)
                    &&& (id.engine_spec() == Engine::Voebb <==> input@.subrange(0, k) == "voebb"@)
                }),
                Err(e) => !is_record_id(input@) && (e matches UsageError::InvalidRecordId { input: given } && given@ == input@),
            },
    {
        let chars = chars_of(input);
        let n = chars.len();
        let mut k: usize = 0;
        while k < n && chars[k] != '_'
            invariant
                k <= n,
                n == chars.len(),
                chars@ == input@,
                forall|j: int| 0 <= j < k ==> chars@[j] != '_',
            decreases n - k,
        {
            k = k + 1;
        }
        if k == n {
            proof {
                assert(!(exists|j: int| 0 <= j < input@.len() && input@[j] == '_'));
            }
            return Err(UsageError::InvalidRecordId { input: owned(input) });
        }
        proof {
            let w = choose|j: int| 0 <= j < input@.len() && input@[j] == '_' && forall|i: int| 0 <= i < j ==> input@[i] != '_';
            assert(input@[k as int] == '_');
            if w < k {
                assert(chars@[w] != '_');
            } else if w > k {
                assert(input@[k as int] != '_');
            }
            assert(first_underscore(input@) == Some(k as int));
        }
        if k == 0 || k + 1 >= n {
            return Err(UsageError::InvalidRecordId { input: owned(input) });
        }
        let mut j: usize = 0;
        while j < k
            invariant
                j <= k < n,
                n == chars.len(),
                chars@ == input@,
                forall|i: int| 0 <= i < j ==> is_prefix_char(#[trigger] input@[i]),
                first_underscore(input@) == Some(k as int),
            decreases k - j,
        {
            let c = chars[j];
            if !(('a' <= c && c <= 'z') || ('A' <= c && c <= 'Z') || ('0' <= c && c <= '9')) {
                proof {
                    assert(!is_prefix_char(input@[j as int]));
                }
                return Err(UsageError::InvalidRecordId { input: owned(input) });
            }
            j = j + 1;
        }
        let prefix = slice_string(&chars, 0, k);
        let local = slice_string(&chars, k + 1, n);
        let engine = if same_text(prefix.as_str(), "voebb") {
            Engine::Voebb
        } else {
            Engine::Kobv
        };
        proof {
            reveal(id_parts_agree);
        }
        Ok(RecordId { id: owned(input), local, engine })
    }

    /// The id of a record as the catalogue delivers it in `001`. The prefix names the
    /// source and routes the record to an engine; an id without one cannot be shown again
    /// or asked about, which the catalogue answering with one is a malformed response.
    pub fn from_catalog(raw: &str) -> (r: Result<RecordId, Error>)
        ensures
            match r {
                Ok(id) => is_record_id(raw@) && id.id_spec() == raw@ && id.engine_spec() == (if raw@.subrange(0, first_underscore(raw@)->0) == "voebb"@ {
                    Engine::Voebb
                } else {
                    Engine::Kobv
                }),
                Err(Error::Unexpected(e)) => !is_record_id(raw@) && e@ == unprefixed_id(raw@),
                Err(_) => false,
            },
    {
        match RecordId::parse(raw) {
            Ok(id) => Ok(id),
            Err(_) => {
                let parts = vec!["a source prefix in the record id \"", raw, "\""];
                proof {
                    assert(crate::text::views(parts@) =~= seq!["a source prefix in the record id \""@, raw@, "\""@]);
                    reveal_with_fuel(crate::text::flatten, 4);
                }
                Err(Error::Unexpected(UnexpectedError::MissingElement { what: crate::text::cat(parts), context: owned("MARCXML record from SRU") }))
            },
        }
    }

    /// The id of a voebb.de record from its catalogue id.
    pub fn voebb(local: &str) -> (id: RecordId)
        ensures
            id.id_spec() == "voebb_"@ + local@,
            id.local_spec() == local@,
            id.engine_spec() == Engine::Voebb,
    {
        let id = concat("voebb_", local);
        proof {
            reveal_strlit("voebb_");
            reveal_strlit("voebb");
            assert(id@[5] == '_');
            assert forall|j: int| 0 <= j < 5 implies id@[j] != '_' by {}
            assert(first_underscore(id@) == Some(5int));
            assert(id@.subrange(6, id@.len() as int) =~= local@);
            assert(id@.subrange(0, 5) =~= "voebb"@);
            reveal(id_parts_agree);
        }
        RecordId { id, local: owned(local), engine: Engine::Voebb }
    }

    /// A copy of the id.
    pub fn copy(&self) -> (c: RecordId)
        ensures
            c.id_spec() == self.id_spec(),
            c.local_spec() == self.local_spec(),
            c.engine_spec() == self.engine_spec(),
    {
        proof {
            use_type_invariant(self);
        }
        RecordId { id: self.id.clone(), local: self.local.clone(), engine: self.engine }
    }

    /// The whole id, prefix included.
    pub fn as_str(&self) -> (s: &str)
        ensures
            s@ == self.id_spec(),
            id_parts_agree(self.id_spec(), self.local_spec(), self.engine_spec()),
    {
        proof {
            use_type_invariant(self);
        }
        self.id.as_str()
    }

    /// The catalogue's own id.
    pub fn local_id(&self) -> (s: &str)
        ensures
            s@ == self.local_spec(),
            id_parts_agree(self.id_spec(), self.local_spec(), self.engine_spec()),
    {
        proof {
            use_type_invariant(self);
        }
        self.local.as_str()
    }

    /// The engine that answers for the id.
    pub fn engine(&self) -> (e: Engine)
        ensures
            e == self.engine_spec(),
            id_parts_agree(self.id_spec(), self.local_spec(), self.engine_spec()),
    {
        proof {
            use_type_invariant(self);
        }
        self.engine
    }
}

impl Clone for RecordId {
    /// The same id again.
    fn clone(&self) -> (c: Self)
        ensures
            c.id_spec() == self.id_spec(),
            c.local_spec() == self.local_spec(),
            c.engine_spec() == self.engine_spec(),
    {
        self.copy()
    }
}

/// A copy of `v[from..to]` as a string.
pub fn slice_string(v: &Vec<char>, from: usize, to: usize) -> (s: String)
    requires
        from <= to <= v.len(),
    ensures
        s@ == v@.subrange(from as int, to as int),
{
    let mut s = String::new();
    let mut i: usize = from;
    while i < to
        invariant
            from <= i <= to <= v.len(),
            s@ == v@.subrange(from as int, i as int),
        decreases to - i,
    {
        push_char(&mut s, v[i]);
        proof {
            assert(v@.subrange(from as int, i as int).push(v@[i as int]) =~= v@.subrange(from as int, i + 1));
        }
        i = i + 1;
    }
    s
}

/// Something a reader of the result must know: a limit hit, a record held back, a
/// filter that saw only part of the result.
#[derive(Debug, Clone, PartialEq, Eq)]
pub struct Note {
    /// The tag an agent switches on.
    pub kind: String,
    /// The sentence a human reads.
    pub message: String,
    /// The records it is about, if it is about particular ones.
    pub records: Vec<RecordId>,
}

impl Note {
    /// A note about the result as a whole.
    pub fn new(kind: &str, message: String) -> (n: Note)
        ensures
            n.kind@ == kind@,
            n.message == message,
            n.records@.len() == 0,
    {
        Note { kind: owned(kind), message, records: Vec::new() }
    }
}

/// One search word or phrase.
#[derive(Debug, Clone, PartialEq, Eq)]
pub enum Term {
    /// An argument without white space: its own clause.
    Word(String),
    /// An argument the shell delivered with white space in it: one quoted phrase.
    Phrase(String),
}

/// Whether a text holds white space anywhere.
pub open spec fn has_space(s: Seq<char>) -> bool {
    exists|i: int| 0 <= i < s.len() && is_space(#[trigger] s[i])
}

impl Term {
    /// The text of the term.
    pub open spec fn text_spec(&self) -> Seq<char> {
        match self {
            Term::Word(t) => t@,
            Term::Phrase(t) => t@,
        }
    }

    /// The text of the term.
    pub fn text(&self) -> (s: &str)
        ensures
            s@ == self.text_spec(),
    {
        match self {
            Term::Word(t) => t.as_str(),
            Term::Phrase(t) => t.as_str(),
        }
    }

    /// One shell argument as a term: trimmed, and a phrase exactly when white space
    /// remains inside it.
    pub fn from_argument(argument: &str) -> (t: Term)
        ensures
            t.text_spec() == trim_spec(argument@),
            t is Phrase <==> has_space(trim_spec(argument@)),
    {
        let text = trim(argument);
        let chars = chars_of(text.as_str());
        let mut i: usize = 0;
        while i < chars.len()
            invariant
                i <= chars.len(),
                chars@ == text@,
                text@ == trim_spec(argument@),
                forall|j: int| 0 <= j < i ==> !is_space(#[trigger] chars@[j]),
            decreases chars.len() - i,
        {
            if is_whitespace(chars[i]) {
                proof {
                    assert(is_space(text@[i as int]));
                }
                return Term::Phrase(text);
            }
            i = i + 1;
        }
        Term::Word(text)
    }

    /// The same term again.
    pub fn copy(&self) -> (c: Term)
        ensures
            c == *self,
    {
        match self {
            Term::Word(t) => Term::Word(t.clone()),
            Term::Phrase(t) => Term::Phrase(t.clone()),
        }
    }

    /// Whether the term holds no text.
    pub fn is_empty(&self) -> (r: bool)
        ensures
            r == (self.text_spec().len() == 0),
    {
        self.text().unicode_len() == 0
    }
}

/// Everything the user asked to search for.
#[derive(Debug, Clone, PartialEq, Eq, Default)]
pub struct QuerySpec {
    /// The free terms, in order.
    pub terms: Vec<Term>,
    /// `--title`.
    pub title: Option<Term>,
    /// `--author`, always searched as a word list.
    pub author: Option<String>,
    /// `--subject`.
    pub subject: Option<Term>,
    /// `--publisher`.
    pub publisher: Option<Term>,
    /// `--year`.
    pub year: Option<u16>,
    /// `--isbn`.
    pub identifier: Option<Identifier>,
}

/// Whether two queries ask the same: the same free terms in order, and the same value
/// for every flag.
pub open spec fn same_query(a: QuerySpec, b: QuerySpec) -> bool {
    &&& a.terms@ == b.terms@
    &&& a.title == b.title
    &&& a.author == b.author
    &&& a.subject == b.subject
    &&& a.publisher == b.publisher
    &&& a.year == b.year
    &&& a.identifier == b.identifier
}

impl QuerySpec {
    /// A second query that asks the same.
    pub fn copy(&self) -> (c: QuerySpec)
        ensures
            same_query(c, *self),
    {
        let mut terms: Vec<Term> = Vec::new();
        let mut i: usize = 0;
        while i < self.terms.len()
            invariant
                i <= self.terms.len(),
                terms@ == self.terms@.take(i as int),
            decreases self.terms.len() - i,
        {
            terms.push(self.terms[i].copy());
            proof {
                assert(self.terms@.take(i + 1) =~= self.terms@.take(i as int).push(self.terms@[i as int]));
            }
            i = i + 1;
        }
        proof {
            assert(self.terms@.take(i as int) =~= self.terms@);
        }
        let title = match &self.title {
            Some(t) => Some(t.copy()),
            None => None,
        };
        let author = match &self.author {
            Some(a) => Some(a.clone()),
            None => None,
        };
        let subject = match &self.subject {
            Some(t) => Some(t.copy()),
            None => None,
        };
        let publisher = match &self.publisher {
            Some(t) => Some(t.copy()),
            None => None,
        };
        let identifier = match &self.identifier {
            Some(Identifier::Isbn(n)) => Some(Identifier::Isbn(n.clone())),
            Some(Identifier::Issn(n)) => Some(Identifier::Issn(n.clone())),
            None => None,
        };
        QuerySpec { terms, title, author, subject, publisher, year: self.year, identifier }
    }
}

/// A free term as it is echoed: a phrase in quotes, a word bare.
pub open spec fn echoed_term(t: Term) -> Seq<char> {
    match t {
        Term::Word(w) => w@,
        Term::Phrase(p) => seq!['"'] + p@ + seq!['"'],
    }
}

/// The free terms echoed and joined with single spaces.
pub open spec fn echo_terms(terms: Seq<Term>) -> Seq<char>
    decreases terms.len(),
{
    if terms.len() == 0 {
        Seq::empty()
    } else if terms.len() == 1 {
        echoed_term(terms[0])
    } else {
        echo_terms(terms.drop_last()) + seq![' '] + echoed_term(terms.last())
    }
}

impl QuerySpec {
    /// Whether nothing at all was asked.
    pub open spec fn is_empty_spec(&self) -> bool {
        self.terms@.len() == 0 && self.title is None && self.author is None && self.subject is None
            && self.publisher is None && self.year is None && self.identifier is None
    }

    /// Whether nothing at all was asked.
    pub fn is_empty(&self) -> (r: bool)
        ensures
            r == self.is_empty_spec(),
    {
        self.terms.len() == 0 && self.title.is_none() && self.author.is_none()
            && self.subject.is_none() && self.publisher.is_none() && self.year.is_none()
            && self.identifier.is_none()
    }

    /// The free terms as the user would type them again: phrases in quotes, words bare,
    /// separated by single spaces.
    pub fn echo(&self) -> (s: String)
        ensures
            s@ == echo_terms(self.terms@),
    {
        let mut s = String::new();
        let mut i: usize = 0;
        while i < self.terms.len()
            invariant
                i <= self.terms.len(),
                s@ == echo_terms(self.terms@.take(i as int)),
            decreases self.terms.len() - i,
        {
            proof {
                assert(self.terms@.take(i + 1).drop_last() =~= self.terms@.take(i as int));
            }
            if i > 0 {
                push_char(&mut s, ' ');
            }
            match &self.terms[i] {
                Term::Word(w) => {
                    push_str(&mut s, w.as_str());
                },
                Term::Phrase(p) => {
                    push_char(&mut s, '"');
                    push_str(&mut s, p.as_str());
                    push_char(&mut s, '"');
                },
            }
            proof {
                let t = self.terms@[i as int];
                if i == 0 {
                    assert(Seq::<char>::empty() + echoed_term(t) =~= echoed_term(t));
                    match t {
                        Term::Word(w) => {},
                        Term::Phrase(p) => {
                            assert(Seq::<char>::empty().push('"') + p@ + seq!['"'] =~= seq!['"'] + p@ + seq!['"']);
                        },
                    }
                } else {
                    match t {
                        Term::Word(w) => {},
                        Term::Phrase(p) => {
                            let before = echo_terms(self.terms@.take(i as int));
                            assert(before.push(' ').push('"') + p@ + seq!['"'] =~= before + seq![' '] + (seq!['"'] + p@ + seq!['"']));
                        },
                    }
                }
            }
            i = i + 1;
        }
        proof {
            assert(self.terms@.take(i as int) =~= self.terms@);
        }
        s
    }
}

/// The largest window the SRU service serves in one response.
pub const MAX_SRU_PAGE_SIZE: u8 = 50;

/// The number of records a page shows: `1..=50`.
#[derive(Debug, Clone, Copy, PartialEq, Eq, Structural)]
pub struct Limit(u8);

/// A page number, counted from 1.
#[derive(Debug, Clone, Copy, PartialEq, Eq, Structural)]
pub struct Page(u32);

/// How many records one SRU request asks for: `1..=50`.
#[derive(Debug, Clone, Copy, PartialEq, Eq, Structural)]
pub struct SruPageSize(u8);

impl Limit {
    /// The number it holds.
    pub closed spec fn value(self) -> nat {
        self.0 as nat
    }

    #[verifier::type_invariant]
    spec fn in_range(self) -> bool {
        1 <= self.0 <= 50
    }

    /// Ten records, unless `--limit` says otherwise.
    pub fn default_limit() -> (l: Limit)
        ensures
            l.value() == 10,
    {
        Limit(10)
    }

    /// A limit, refused outside `1..=50`.
    pub fn new(n: u32) -> (r: Result<Limit, UsageError>)
        ensures
            match r {
                Ok(l) => 1 <= n <= 50 && l.value() == n,
                Err(e) => !(1 <= n <= 50) && e == UsageError::LimitOutOfRange { given: n },
            },
    {
        if 1 <= n && n <= 50 {
            Ok(Limit(n as u8))
        } else {
            Err(UsageError::LimitOutOfRange { given: n })
        }
    }

    /// The number it holds, always in `1..=50`.
    pub fn get(&self) -> (n: u8)
        ensures
            n == self.value(),
            1 <= n <= 50,
    {
        proof {
            use_type_invariant(self);
        }
        self.0
    }
}

impl Page {
    /// The number it holds.
    pub closed spec fn value(self) -> nat {
        self.0 as nat
    }

    #[verifier::type_invariant]
    spec fn positive(self) -> bool {
        self.0 >= 1
    }

    /// The first page.
    pub fn first() -> (p: Page)
        ensures
            p.value() == 1,
    {
        Page(1)
    }

    /// A page number, refused when it is 0.
    pub fn new(n: u32) -> (r: Result<Page, UsageError>)
        ensures
            match r {
                Ok(p) => n >= 1 && p.value() == n,
                Err(e) => n == 0 && e == UsageError::PageOutOfRange { given: n },
            },
    {
        if n >= 1 {
            Ok(Page(n))
        } else {
            Err(UsageError::PageOutOfRange { given: n })
        }
    }

    /// The number it holds, always at least 1.
    pub fn get(&self) -> (n: u32)
        ensures
            n == self.value(),
            n >= 1,
    {
        proof {
            use_type_invariant(self);
        }
        self.0
    }
}

impl SruPageSize {
    /// The number it holds.
    pub closed spec fn value(self) -> nat {
        self.0 as nat
    }

    #[verifier::type_invariant]
    spec fn served(self) -> bool {
        1 <= self.0 <= 50
    }

    /// The size closest to `n` that the service serves: clamped into `1..=50`.
    pub open spec fn clamp_spec(n: nat) -> nat {
        if n < 1 {
            1
        } else if n > 50 {
            50
        } else {
            n
        }
    }

    /// A page size, clamped into `1..=50`.
    pub fn new(n: u32) -> (s: SruPageSize)
        ensures
            s.value() == Self::clamp_spec(n as nat),
    {
        if n < 1 {
            SruPageSize(1)
        } else if n > 50 {
            SruPageSize(50)
        } else {
            SruPageSize(n as u8)
        }
    }

    /// The number it holds, always in `1..=50`.
    pub fn get(&self) -> (n: u8)
        ensures
            n == self.value(),
            1 <= n <= 50,
    {
        proof {
            use_type_invariant(self);
        }
        self.0
    }
}

/// The slice of the result list one request asks the catalogue for.
#[derive(Debug, Clone, Copy, PartialEq, Eq, Structural)]
pub struct FetchWindow {
    /// Position of the first record, counted from 1.
    pub start: u32,
    /// How many records.
    pub size: SruPageSize,
}

/// `a` saturated at `u32::MAX`.
pub open spec fn sat32(a: int) -> int {
    if a > u32::MAX {
        u32::MAX as int
    } else {
        a
    }
}

impl FetchWindow {
    /// The window for a page: stepped by the limit, or, when a client-side filter or sort
    /// needs one ordered block, the widest block anchored at record 1.
    pub open spec fn plan_spec(limit: Limit, page: Page, anchored: bool) -> (int, nat) {
        if anchored {
            (1, 50)
        } else {
            (sat32((page.value() - 1) * limit.value() + 1), limit.value())
        }
    }

    /// The window for a page.
    pub fn plan(limit: Limit, page: Page, anchored: bool) -> (w: FetchWindow)
        ensures
            (w.start as int, w.size.value()) == Self::plan_spec(limit, page, anchored),
    {
        if anchored {
            FetchWindow { start: 1, size: SruPageSize::new(50) }
        } else {
            let p = page.get();
            let l = limit.get();
            let steps = (p - 1) as u64;
            proof {
                assert(steps * (l as u64) <= 0xffff_ffffu64 * 50) by (nonlinear_arith)
                    requires steps <= 0xffff_ffffu64, l <= 50;
            }
            let before = steps * (l as u64);
            let start = if before + 1 > u32::MAX as u64 {
                u32::MAX
            } else {
                (before + 1) as u32
            };
            FetchWindow { start, size: SruPageSize::new(l as u32) }
        }
    }
}

/// Whether availability is fetched.
#[derive(Debug, Clone, Copy, PartialEq, Eq, Structural)]
pub enum AvailabilityMode {
    Fetched,
    Skipped,
}

/// The order `--sort` asks for.
#[derive(Debug, Clone, Copy, PartialEq, Eq, Structural, Default)]
pub enum SortKey {
    /// The catalogue's own order.
    #[default]
    Relevance,
    Year,
    Title,
    Author,
    Availability,
}

/// The material type vocabulary shared by `--format` and the documents.
#[derive(Debug, Clone, Copy, PartialEq, Eq, Structural)]
pub enum Format {
    Book,
    Ebook,
    Journal,
    Ejournal,
    Article,
    Database,
    Maps,
    Score,
    Audio,
    Video,
    Image,
    Electronic,
    Manuscript,
    Object,
    Mixed,
    Unknown,
}


impl Format {
    /// The material type a MARC leader codes: position 06, the type of record, and
    /// position 07, the bibliographic level, with the online flag deciding between a
    /// printed and an electronic book or journal. A code outside MARC's vocabulary is
    /// `Unknown`.
    pub open spec fn leader_spec(kind: char, level: char, online: bool) -> Format {
        if kind == 'a' {
            if level == 's' {
                if online { Format::Ejournal } else { Format::Journal }
            } else if level == 'a' || level == 'b' {
                Format::Article
            } else if level == 'i' {
                Format::Database
            } else {
                if online { Format::Ebook } else { Format::Book }
            }
        } else if kind == 't' {
            Format::Manuscript
        } else if kind == 'c' || kind == 'd' {
            Format::Score
        } else if kind == 'e' || kind == 'f' {
            Format::Maps
        } else if kind == 'i' || kind == 'j' {
            Format::Audio
        } else if kind == 'g' {
            Format::Video
        } else if kind == 'k' {
            Format::Image
        } else if kind == 'm' {
            Format::Electronic
        } else if kind == 'o' || kind == 'p' {
            Format::Mixed
        } else if kind == 'r' {
            Format::Object
        } else {
            Format::Unknown
        }
    }

    /// The material type of a MARC record, from leader positions 06 and 07 and whether
    /// the resource is online.
    pub fn from_leader(kind: char, level: char, online: bool) -> (f: Format)
        ensures
            f == Self::leader_spec(kind, level, online),
    {
        if kind == 'a' {
            if level == 's' {
                if online { Format::Ejournal } else { Format::Journal }
            } else if level == 'a' || level == 'b' {
                Format::Article
            } else if level == 'i' {
                Format::Database
            } else {
                if online { Format::Ebook } else { Format::Book }
            }
        } else if kind == 't' {
            Format::Manuscript
        } else if kind == 'c' || kind == 'd' {
            Format::Score
        } else if kind == 'e' || kind == 'f' {
            Format::Maps
        } else if kind == 'i' || kind == 'j' {
            Format::Audio
        } else if kind == 'g' {
            Format::Video
        } else if kind == 'k' {
            Format::Image
        } else if kind == 'm' {
            Format::Electronic
        } else if kind == 'o' || kind == 'p' {
            Format::Mixed
        } else if kind == 'r' {
            Format::Object
        } else {
            Format::Unknown
        }
    }

    /// Whether nobody carries a resource of this type off a shelf.
    pub open spec fn online_spec(self) -> bool {
        self == Format::Ebook || self == Format::Ejournal || self == Format::Database || self == Format::Electronic
    }
}

/// How a name entry names its creator.
#[derive(Debug, Clone, Copy, PartialEq, Eq, Structural)]
pub enum AuthorKind {
    Person,
    Corporate,
    Meeting,
}

/// A creator or contributor as the record names them.
#[derive(Debug, Clone, PartialEq, Eq)]
pub struct Author {
    /// The name as the record spells it, usually inverted.
    pub name: String,
    pub kind: AuthorKind,
    /// Life dates of a person, passed through as written.
    pub dates: Option<String>,
    /// The GND identifier of the person or body.
    pub gnd: Option<String>,
    /// The relator code or term.
    pub role: Option<String>,
}

/// What a link points at, as far as its label says.
#[derive(Debug, Clone, Copy, PartialEq, Eq, Structural)]
pub enum UrlKind {
    Fulltext,
    Toc,
    Cover,
    Publisher,
    Other,
}

/// A link out of the record.
#[derive(Debug, Clone, PartialEq, Eq)]
pub struct ResourceUrl {
    pub url: String,
    pub kind: UrlKind,
    /// The link text the record gives.
    pub label: Option<String>,
}

/// The traffic light of a copy, a holding or a location.
#[derive(Debug, Clone, Copy, PartialEq, Eq, Structural)]
pub enum Status {
    /// On the shelf and lendable.
    Available,
    /// On the shelf for use in the reading room only.
    Reference,
    /// Out, on order or otherwise not to be had now.
    Unavailable,
    /// Nothing the service said could be read as one of the others.
    Unknown,
}

/// The light of a set of copies: available if any copy is; otherwise unknown if the
/// status of any copy is; otherwise reference if any copy is reference stock; otherwise
/// unavailable. No copies at all is unknown.
pub open spec fn summary_spec(s: Seq<Status>) -> Status {
    if s.contains(Status::Available) {
        Status::Available
    } else if s.len() == 0 || s.contains(Status::Unknown) {
        Status::Unknown
    } else if s.contains(Status::Reference) {
        Status::Reference
    } else {
        Status::Unavailable
    }
}

impl Status {
    /// Summarise the lights of a set of copies (see [`summary_spec`]).
    pub fn summarize(statuses: &Vec<Status>) -> (r: Status)
        ensures
            r == summary_spec(statuses@),
    {
        let mut available = false;
        let mut unknown = false;
        let mut reference = false;
        let mut i: usize = 0;
        while i < statuses.len()
            invariant
                i <= statuses.len(),
                available <==> statuses@.take(i as int).contains(Status::Available),
                unknown <==> statuses@.take(i as int).contains(Status::Unknown),
                reference <==> statuses@.take(i as int).contains(Status::Reference),
            decreases statuses.len() - i,
        {
            let ghost before = statuses@.take(i as int);
            proof {
                assert(statuses@.take(i + 1) =~= before.push(statuses@[i as int]));
                vstd::seq_lib::lemma_seq_contains_after_push(before, statuses@[i as int], Status::Available);
                vstd::seq_lib::lemma_seq_contains_after_push(before, statuses@[i as int], Status::Unknown);
                vstd::seq_lib::lemma_seq_contains_after_push(before, statuses@[i as int], Status::Reference);
            }
            match statuses[i] {
                Status::Available => available = true,
                Status::Unknown => unknown = true,
                Status::Reference => reference = true,
                Status::Unavailable => {},
            }
            i = i + 1;
        }
        proof {
            assert(statuses@.take(i as int) =~= statuses@);
        }
        if available {
            Status::Available
        } else if statuses.len() == 0 || unknown {
            Status::Unknown
        } else if reference {
            Status::Reference
        } else {
            Status::Unavailable
        }
    }
}

/// One copy.
#[derive(Debug, Clone, PartialEq, Eq)]
pub struct Item {
    /// Where in the library the copy stands.
    pub location: Option<String>,
    /// The branch's KOBV id, where the copy names one.
    pub branch: Option<String>,
    /// The branch's name as the catalogue writes it.
    pub branch_name: Option<String>,
    pub call_number: Option<String>,
    pub volume: Option<String>,
    pub status: Status,
    /// The return date of a copy that is out, as ISO-8601.
    pub due_date: Option<String>,
    /// What the catalogue offers for the copy (`Vormerkung möglich`).
    pub order_option: Option<String>,
}

/// One institution's holding of a record.
#[derive(Debug, Clone, PartialEq, Eq)]
pub struct Holding {
    pub isil: Option<Isil>,
    /// The short key of the library list, where the list knows the institution.
    pub alias: Option<String>,
    /// The full name, or the bare ISIL when the list does not know it.
    pub library: String,
    pub short_name: Option<String>,
    /// The institution's own record number.
    pub local_id: Option<String>,
    /// Whether the holding belongs to a location of `--at`.
    pub mine: bool,
    /// The light for the whole institution.
    pub summary: Status,
    /// A prose holdings statement, where the record gives one.
    pub holdings_statement: Option<String>,
    pub items: Vec<Item>,
}

/// A bibliographic record as both engines deliver it.
#[derive(Debug, Clone, PartialEq, Eq)]
pub struct Record {
    pub id: RecordId,
    pub title: String,
    pub subtitle: Option<String>,
    pub authors: Vec<Author>,
    pub year: Option<i32>,
    pub publisher: Option<String>,
    pub place: Option<String>,
    pub edition: Option<String>,
    pub extent: Option<String>,
    /// ISO-639-2/B codes.
    pub languages: Vec<String>,
    pub format: Format,
    pub online: bool,
    pub isbns: Vec<String>,
    pub subjects: Vec<String>,
    pub urls: Vec<ResourceUrl>,
    pub holdings: Vec<Holding>,
}

impl Record {
    /// Whether nobody carries the resource off a shelf: it is online, or its format is
    /// one of the four online ones.
    pub fn is_online_resource(&self) -> (r: bool)
        ensures
            r == (self.online || self.format.online_spec()),
    {
        self.online || self.format == Format::Ebook || self.format == Format::Ejournal || self.format == Format::Database
            || self.format == Format::Electronic
    }
}

/// The key the availability service is asked with: `ISIL;LocalId,` pairs.
#[derive(Debug, Clone, PartialEq, Eq)]
pub struct AvailabilityId(String);

impl AvailabilityId {
    /// The key's text.
    pub closed spec fn text(&self) -> Seq<char> {
        self.0@
    }

    /// A key from its text.
    pub fn new(key: &str) -> (id: AvailabilityId)
        ensures
            id.text() == key@,
    {
        AvailabilityId(owned(key))
    }

    /// The key as text.
    pub fn as_str(&self) -> (s: &str)
        ensures
            s@ == self.text(),
    {
        self.0.as_str()
    }
}


/// An optional text as plain values.
pub open spec fn opt_view(o: Option<String>) -> Option<Seq<char>> {
    match o {
        Some(s) => Some(s@),
        None => None,
    }
}

/// An author as plain values.
pub struct AuthorView {
    pub name: Seq<char>,
    pub kind: AuthorKind,
    pub dates: Option<Seq<char>>,
    pub gnd: Option<Seq<char>>,
    pub role: Option<Seq<char>>,
}

impl Author {
    /// The author as plain values.
    pub open spec fn view(&self) -> AuthorView {
        AuthorView { name: self.name@, kind: self.kind, dates: opt_view(self.dates), gnd: opt_view(self.gnd), role: opt_view(self.role) }
    }
}

/// A link as plain values.
pub struct UrlView {
    pub url: Seq<char>,
    pub kind: UrlKind,
    pub label: Option<Seq<char>>,
}

impl ResourceUrl {
    /// The link as plain values.
    pub open spec fn view(&self) -> UrlView {
        UrlView { url: self.url@, kind: self.kind, label: opt_view(self.label) }
    }
}

/// A copy as plain values.
pub struct ItemView {
    pub location: Option<Seq<char>>,
    pub branch: Option<Seq<char>>,
    pub branch_name: Option<Seq<char>>,
    pub call_number: Option<Seq<char>>,
    pub volume: Option<Seq<char>>,
    pub status: Status,
    pub due_date: Option<Seq<char>>,
    pub order_option: Option<Seq<char>>,
}

impl Item {
    /// The copy as plain values.
    pub open spec fn view(&self) -> ItemView {
        ItemView {
            location: opt_view(self.location),
            branch: opt_view(self.branch),
            branch_name: opt_view(self.branch_name),
            call_number: opt_view(self.call_number),
            volume: opt_view(self.volume),
            status: self.status,
            due_date: opt_view(self.due_date),
            order_option: opt_view(self.order_option),
        }
    }
}

/// A holding as plain values.
pub struct HoldingView {
    pub isil: Option<Seq<char>>,
    pub alias: Option<Seq<char>>,
    pub library: Seq<char>,
    pub short_name: Option<Seq<char>>,
    pub local_id: Option<Seq<char>>,
    pub mine: bool,
    pub summary: Status,
    pub holdings_statement: Option<Seq<char>>,
    pub items: Seq<ItemView>,
}

impl Holding {
    /// The holding as plain values.
    pub open spec fn view(&self) -> HoldingView {
        HoldingView {
            isil: match self.isil {
                Some(i) => Some(i.0@),
                None => None,
            },
            alias: opt_view(self.alias),
            library: self.library@,
            short_name: opt_view(self.short_name),
            local_id: opt_view(self.local_id),
            mine: self.mine,
            summary: self.summary,
            holdings_statement: opt_view(self.holdings_statement),
            items: self.items@.map_values(|i: Item| i.view()),
        }
    }
}

/// A record as plain values.
pub struct RecordView {
    pub id: Seq<char>,
    pub title: Seq<char>,
    pub subtitle: Option<Seq<char>>,
    pub authors: Seq<AuthorView>,
    pub year: Option<int>,
    pub publisher: Option<Seq<char>>,
    pub place: Option<Seq<char>>,
    pub edition: Option<Seq<char>>,
    pub extent: Option<Seq<char>>,
    pub languages: Seq<Seq<char>>,
    pub format: Format,
    pub online: bool,
    pub isbns: Seq<Seq<char>>,
    pub subjects: Seq<Seq<char>>,
    pub urls: Seq<UrlView>,
    pub holdings: Seq<HoldingView>,
}

/// The views of a list of texts.
pub open spec fn text_views(v: Seq<String>) -> Seq<Seq<char>> {
    v.map_values(|s: String| s@)
}

/// The views of a list of authors.
pub open spec fn author_views(v: Seq<Author>) -> Seq<AuthorView> {
    v.map_values(|a: Author| a.view())
}

/// The views of a list of links.
pub open spec fn url_views(v: Seq<ResourceUrl>) -> Seq<UrlView> {
    v.map_values(|u: ResourceUrl| u.view())
}

/// The views of a list of holdings.
pub open spec fn holding_views(v: Seq<Holding>) -> Seq<HoldingView> {
    v.map_values(|h: Holding| h.view())
}

impl Record {
    /// The record as plain values.
    pub open spec fn view(&self) -> RecordView {
        RecordView {
            id: self.id.id_spec(),
            title: self.title@,
            subtitle: opt_view(self.subtitle),
            authors: author_views(self.authors@),
            year: match self.year {
                Some(y) => Some(y as int),
                None => None,
            },
            publisher: opt_view(self.publisher),
            place: opt_view(self.place),
            edition: opt_view(self.edition),
            extent: opt_view(self.extent),
            languages: text_views(self.languages@),
            format: self.format,
            online: self.online,
            isbns: text_views(self.isbns@),
            subjects: text_views(self.subjects@),
            urls: url_views(self.urls@),
            holdings: holding_views(self.holdings@),
        }
    }
}


/// Why a location of `--at` has an empty block that states nothing.
#[derive(Debug, Clone, Copy, PartialEq, Eq, Structural)]
pub enum LocationRefusal {
    /// The window begins past that location's last result.
    PastTheLastResult,
    /// The window lies deeper than that catalogue can be paged; nothing was asked.
    WindowTooDeep,
}

/// One location's block of a search result.
#[derive(Debug, Clone, PartialEq, Eq)]
pub struct AtBlock {
    /// The key of the location.
    pub key: String,
    /// The word the user typed for it.
    pub given: String,
    pub isil: Isil,
    /// The KOBV id of the branch, for a branch location.
    pub branch: Option<String>,
    pub engine: Engine,
    /// The location's own hit count, where one was counted for it.
    pub total: Option<u64>,
    /// The records in the block, in the order they are shown.
    pub records: Vec<RecordId>,
    /// Why the block is empty and states nothing, where it was refused.
    pub refused: Option<LocationRefusal>,
}

/// A block as plain values.
pub struct AtBlockView {
    pub key: Seq<char>,
    pub given: Seq<char>,
    pub isil: Seq<char>,
    pub branch: Option<Seq<char>>,
    pub engine: Engine,
    pub total: Option<u64>,
    pub records: Seq<Seq<char>>,
    pub refused: Option<LocationRefusal>,
}

/// The views of a list of record ids.
pub open spec fn id_views(v: Seq<RecordId>) -> Seq<Seq<char>> {
    v.map_values(|r: RecordId| r.id_spec())
}

impl AtBlock {
    /// The block as plain values.
    pub open spec fn view(&self) -> AtBlockView {
        AtBlockView {
            key: self.key@,
            given: self.given@,
            isil: self.isil.0@,
            branch: opt_view(self.branch),
            engine: self.engine,
            total: self.total,
            records: id_views(self.records@),
            refused: self.refused,
        }
    }
}

/// The views of a list of blocks.
pub open spec fn block_views(v: Seq<AtBlock>) -> Seq<AtBlockView> {
    v.map_values(|b: AtBlock| b.view())
}

/// What an engine is asked: the query, the locations it answers for, the window.
#[derive(Debug, Clone, PartialEq)]
pub struct SearchRequest {
    pub query: QuerySpec,
    pub locations: Vec<Location>,
    pub window: FetchWindow,
}

/// What one engine answered to a search.
#[derive(Debug, Clone, PartialEq, Eq)]
pub struct EngineSearch {
    pub engine: Engine,
    /// The hit count of the one search this answer came from, when there was exactly one.
    pub total: Option<u64>,
    /// How many records the window held.
    pub fetched: usize,
    /// Announced slots that arrived as something other than a record.
    pub undelivered: usize,
    /// One block per location.
    pub at: Vec<AtBlock>,
    pub records: Vec<Record>,
    /// The query as it was sent, when there was exactly one.
    pub query_echo: Option<String>,
    pub notes: Vec<Note>,
}

/// What one engine answered to `show`: the record, where the catalogue has it, and what
/// it could not state cleanly.
#[derive(Debug, Clone, PartialEq, Eq)]
pub struct EngineShow {
    pub record: Option<Record>,
    pub notes: Vec<Note>,
}

impl Format {
    /// The word `--format` and the documents use for a material type.
    pub open spec fn name_spec(self) -> Seq<char> {
        match self {
            Format::Book => "book"@,
            Format::Ebook => "ebook"@,
            Format::Journal => "journal"@,
            Format::Ejournal => "ejournal"@,
            Format::Article => "article"@,
            Format::Database => "database"@,
            Format::Maps => "map"@,
            Format::Score => "score"@,
            Format::Audio => "audio"@,
            Format::Video => "video"@,
            Format::Image => "image"@,
            Format::Electronic => "electronic"@,
            Format::Manuscript => "manuscript"@,
            Format::Object => "object"@,
            Format::Mixed => "mixed"@,
            Format::Unknown => "unknown"@,
        }
    }

    /// The word `--format` and the documents use for a material type.
    pub fn as_str(&self) -> (s: &'static str)
        ensures
            s@ == self.name_spec(),
    {
        match self {
            Format::Book => "book",
            Format::Ebook => "ebook",
            Format::Journal => "journal",
            Format::Ejournal => "ejournal",
            Format::Article => "article",
            Format::Database => "database",
            Format::Maps => "map",
            Format::Score => "score",
            Format::Audio => "audio",
            Format::Video => "video",
            Format::Image => "image",
            Format::Electronic => "electronic",
            Format::Manuscript => "manuscript",
            Format::Object => "object",
            Format::Mixed => "mixed",
            Format::Unknown => "unknown",
        }
    }
}

impl SortKey {
    /// The word `--sort` takes for an order.
    pub open spec fn name_spec(self) -> Seq<char> {
        match self {
            SortKey::Relevance => "relevance"@,
            SortKey::Year => "year"@,
            SortKey::Title => "title"@,
            SortKey::Author => "author"@,
            SortKey::Availability => "availability"@,
        }
    }

    /// The word `--sort` takes for an order.
    pub fn as_str(&self) -> (s: &'static str)
        ensures
            s@ == self.name_spec(),
    {
        match self {
            SortKey::Relevance => "relevance",
            SortKey::Year => "year",
            SortKey::Title => "title",
            SortKey::Author => "author",
            SortKey::Availability => "availability",
        }
    }
}

/// What the window held, and what the client-side filters left of it.
#[derive(Debug, Clone, Copy, PartialEq, Eq, Structural)]
pub struct WindowInfo {
    /// How many distinct records the query returned.
    pub fetched: usize,
    /// How many survived `--format` and `--language`.
    pub after_filter: usize,
    /// Whether such a filter was set at all.
    pub filtered: bool,
    /// Announced slots that arrived as something other than a record.
    pub undelivered: usize,
    /// How many displayed records `--available` judged, when it ran.
    pub before_available: Option<usize>,
}

/// The query as it is echoed back.
#[derive(Debug, Clone, PartialEq, Eq)]
pub struct QueryEcho {
    /// The invocation's search words and flags.
    pub terms: String,
    /// The PQF that was sent, when exactly one KOBV search ran.
    pub pqf: Option<String>,
}

/// What a sort was applied to.
#[derive(Debug, Clone, Copy, PartialEq, Eq, Structural)]
pub enum SortScope {
    /// The fetched window, never the whole result.
    Fetched,
}

/// The order the records are shown in.
#[derive(Debug, Clone, Copy, PartialEq, Eq, Structural)]
pub struct SortSpec {
    pub by: SortKey,
    pub scope: SortScope,
}

/// The one document both renderers consume for a search.
#[derive(Debug, Clone, PartialEq, Eq)]
pub struct SearchResult {
    pub query: QueryEcho,
    /// The KOBV total, when exactly one KOBV search ran.
    pub total: Option<u64>,
    /// How many records are shown.
    pub shown: usize,
    pub page: Page,
    pub limit: usize,
    pub sort: SortSpec,
    pub window: WindowInfo,
    /// The engines this invocation is about.
    pub engines: Vec<Engine>,
    /// One block per location of `--at`, in the order the user wrote them.
    pub at: Vec<AtBlock>,
    pub availability: AvailabilityMode,
    pub notes: Vec<Note>,
    pub records: Vec<Record>,
}

} // verus!
