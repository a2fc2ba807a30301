//! A tiny, prefixed, URL-friendly, time-sortable unique identifier held in a
//! fixed-size stack buffer.
//!
//! An identifier's text has the shape `[<prefix>_]<timestamp><random>`: an
//! optional ASCII prefix of at most [`PREFIX_LENGTH`] bytes followed by an
//! underscore, then the Unix time in seconds as 6 base-62 digits, then 128
//! bits of entropy as 22 base-62 digits. The whole text lives in a fixed
//! 61-byte buffer whose tail beyond the text is canonically zero, so
//! byte-wise equality and ordering of buffers coincide with equality and
//! ordering of the texts.

use vstd::prelude::*;

pub mod clock;
pub mod codec;
pub mod rng;
pub mod rngs;
pub mod text;
pub mod timestamp;
pub mod typed;
pub mod utils;

verus! {

use vstd::string::StringSliceAdditionalSpecFns;
use vstd::utf8::{encode_utf8, is_ascii_chars, is_ascii_chars_encode_utf8};
use crate::codec::{
    spec_encode,
    pow62,
    lemma_digit_order,
    spec_digit,
    be_val,
    be_value_u64,
    be_value_u128,
    encode_fixed_width,
    lemma_spec_encode_len,
    lemma_spec_encode_ascii,
};

/// The maximum byte length of a prefix.
pub const PREFIX_LENGTH: usize = 32;

/// The number of raw bytes holding the timestamp.
pub const TIMESTAMP_BYTES: usize = 8;

/// The number of base-62 digits rendered for the timestamp.
/// With 6 digits the encoding wraps around only many centuries after epoch,
/// which callers accept instead of an error.
pub const TIMESTAMP_LENGTH: usize = 6;

/// The number of raw bytes holding the random component: 128 bits of entropy.
pub const RANDOMNESS_BYTES: usize = 16;

/// The number of base-62 digits rendered for the random component.
pub const RANDOM_LENGTH: usize = 22;

/// The maximum byte length of an identifier's text.
pub const MAX_LENGTH_PILLID: usize = PREFIX_LENGTH + TIMESTAMP_LENGTH + RANDOM_LENGTH;

/// The full buffer: the text plus one trailing zero guard byte.
pub const BUFFER_LENGTH: usize = MAX_LENGTH_PILLID + 1;

/// A sequence of `n` zero bytes.
pub open spec fn zero_bytes(n: nat) -> Seq<u8> {
    Seq::new(n, |i: int| 0u8)
}

/// The index of the first zero byte of `s`, or `s.len()` if there is none.
pub open spec fn spec_first_zero(s: Seq<u8>) -> int
    decreases s.len(),
{
    if s.len() == 0 {
        0
    } else if s[0] == 0 {
        0
    } else {
        1 + spec_first_zero(s.skip(1))
    }
}

/// `spec_first_zero` is the unique index `n` with nothing but non-zero bytes
/// before it and, unless the whole sequence is zero-free, a zero byte at it.
pub proof fn lemma_first_zero_at(s: Seq<u8>, n: int)
    requires
        0 <= n <= s.len(),
        forall|i: int| 0 <= i < n ==> s[i] != 0,
        n < s.len() ==> s[n] == 0,
    ensures
        spec_first_zero(s) == n,
    decreases s.len(),
{
    if s.len() == 0 {
    } else if n == 0 {
    } else {
        assert(s[0] != 0);
        let t = s.skip(1);
        assert(forall|i: int| 0 <= i < n - 1 ==> t[i] == s[i + 1] && t[i] != 0);
        assert(n - 1 < t.len() ==> t[n - 1] == 0);
        lemma_first_zero_at(t, n - 1);
    }
}

/// Every byte before the first zero is non-zero.
pub proof fn lemma_first_zero_bounds(s: Seq<u8>)
    ensures
        0 <= spec_first_zero(s) <= s.len(),
        forall|i: int| 0 <= i < spec_first_zero(s) ==> s[i] != 0,
        spec_first_zero(s) < s.len() ==> s[spec_first_zero(s)] == 0,
    decreases s.len(),
{
    if s.len() == 0 {
    } else if s[0] == 0 {
    } else {
        let t = s.skip(1);
        lemma_first_zero_bounds(t);
        assert forall|i: int| 0 <= i < spec_first_zero(s) implies s[i] != 0 by {
            if i >= 1 {
                assert(t[i - 1] != 0);
            }
        }
    }
}

/// Strict lexicographic order on byte sequences: the order that byte-wise
/// comparison of the fixed buffers realises.
pub open spec fn lex_lt(a: Seq<u8>, b: Seq<u8>) -> bool
    decreases a.len(),
{
    if b.len() == 0 {
        false
    } else if a.len() == 0 {
        true
    } else if a[0] != b[0] {
        a[0] < b[0]
    } else {
        lex_lt(a.skip(1), b.skip(1))
    }
}

/// An input-validation failure. These are the only failures the library
/// reports; they are deterministic and never transient.
#[derive(Clone, Copy, Debug, PartialEq, Eq, Structural)]
pub enum Error {
    /// A prefix longer than [`PREFIX_LENGTH`] bytes was supplied.
    PrefixTooLong,
    /// A text too long for the identifier buffer was parsed.
    TextTooLong,
}

/// An identifier: a fixed-size, trivially copyable buffer holding the ASCII
/// text `[<prefix>_]<timestamp digits><random digits>` followed by zero
/// padding. The padding is canonically zero, so buffer equality is text
/// equality.
#[derive(Clone, Copy, Debug, PartialEq, Eq, Hash, PartialOrd, Ord)]
pub struct Pillid {
    bytes: [u8; BUFFER_LENGTH],
}

impl View for Pillid {
    type V = Seq<u8>;

    closed spec fn view(&self) -> Seq<u8> {
        self.bytes@
    }
}

/// What parsing a text of `t` bytes yields: the zero-padded buffer, unless
/// the text would not leave room for the zero guard byte.
pub open spec fn spec_parse(t: Seq<u8>) -> Result<Seq<u8>, Error> {
    if t.len() >= MAX_LENGTH_PILLID {
        Err(Error::TextTooLong)
    } else {
        Ok(t + zero_bytes((BUFFER_LENGTH - t.len()) as nat))
    }
}

impl Pillid {
    /// The identifier's logical text: the bytes before the first zero.
    pub open spec fn spec_text(self) -> Seq<u8> {
        self@.take(spec_first_zero(self@))
    }

    /// Well-formedness: the text fits the buffer leaving the zero guard, the
    /// padding beyond it is all zero, and the text is ASCII.
    pub open spec fn wf(self) -> bool {
        &&& spec_first_zero(self@) <= MAX_LENGTH_PILLID
        &&& forall|i: int| spec_first_zero(self@) <= i < self@.len() ==> self@[i] == 0
        &&& forall|i: int| 0 <= i < spec_first_zero(self@) ==> self@[i] < 128
    }

    /// Parses an identifier back from its text. Fails with
    /// [`Error::TextTooLong`] exactly when the text would not fit the buffer
    /// while leaving the trailing zero guard byte.
    pub fn parse(s: &str) -> (r: Result<Pillid, Error>)
        ensures
            match r {
                Ok(p) => spec_parse(s.spec_bytes()) == Ok::<Seq<u8>, Error>(p@),
                Err(e) => spec_parse(s.spec_bytes()) == Err::<Seq<u8>, Error>(e),
            },
            r matches Ok(p) ==> ((forall|i: int|
                0 <= i < s.spec_bytes().len() ==> 0 < #[trigger] s.spec_bytes()[i] < 128) ==> {
                &&& p.wf()
                &&& p.spec_text() == s.spec_bytes()
            }),
    {
        let b = s.as_bytes();
        if b.len() >= MAX_LENGTH_PILLID {
            return Err(Error::TextTooLong);
        }
        let mut buf = [0u8; BUFFER_LENGTH];
        let mut i: usize = 0;
        while i < b.len()
            invariant
                i <= b@.len(),
                b@.len() < MAX_LENGTH_PILLID,
                b@ == s.spec_bytes(),
                forall|k: int| 0 <= k < i ==> buf@[k] == b@[k],
                forall|k: int| i <= k < BUFFER_LENGTH ==> buf@[k] == 0,
            decreases b@.len() - i,
        {
            buf[i] = b[i];
            i += 1;
        }
        let p = Pillid { bytes: buf };
        proof {
            assert(p@ =~= s.spec_bytes() + zero_bytes(
                (BUFFER_LENGTH - s.spec_bytes().len()) as nat,
            ));
            if forall|k: int| 0 <= k < s.spec_bytes().len() ==> 0 < #[trigger] s.spec_bytes()[k]
                < 128 {
                lemma_first_zero_at(p@, s.spec_bytes().len() as int);
                assert(p.spec_text() =~= s.spec_bytes());
            }
        }
        Ok(p)
    }

    /// The identifier's text, as a string: the ASCII bytes before the first
    /// zero of the buffer.
    pub fn to_text(&self) -> (r: String)
        ensures
            self.wf() ==> {
                &&& r@.len() == self.spec_text().len()
                &&& is_ascii_chars(r@)
                &&& forall|i: int| 0 <= i < r@.len() ==> #[trigger] r@[i] as u8 == self.spec_text()[i]
            },
    {
        let mut n: usize = 0;
        while n < BUFFER_LENGTH && self.bytes[n] != 0
            invariant
                n <= BUFFER_LENGTH,
                forall|k: int| 0 <= k < n ==> self@[k] != 0,
            decreases BUFFER_LENGTH - n,
        {
            n += 1;
        }
        proof {
            lemma_first_zero_at(self@, n as int);
        }
        let mut content: Vec<u8> = Vec::new();
        let mut i: usize = 0;
        while i < n
            invariant
                i <= n,
                n <= BUFFER_LENGTH,
                n == spec_first_zero(self@),
                content@ == self@.take(i as int),
            decreases n - i,
        {
            content.push(self.bytes[i]);
            proof {
                assert(content@ =~= self@.take(i + 1));
            }
            i += 1;
        }
        crate::text::string_of_bytes(content.as_slice())
    }

    /// Byte-wise strict comparison of the full buffers: identifiers sort by
    /// prefix bytes, then timestamp digits, then random digits.
    pub fn lt(&self, other: &Pillid) -> (r: bool)
        ensures
            r == lex_lt(self@, other@),
    {
        let mut i: usize = 0;
        proof {
            assert(self@.skip(0) =~= self@);
            assert(other@.skip(0) =~= other@);
        }
        while i < BUFFER_LENGTH
            invariant
                i <= BUFFER_LENGTH,
                forall|k: int| 0 <= k < i ==> self@[k] == other@[k],
                lex_lt(self@, other@) == lex_lt(self@.skip(i as int), other@.skip(i as int)),
            decreases BUFFER_LENGTH - i,
        {
            let a = self.bytes[i];
            let b = other.bytes[i];
            proof {
                assert(self@.skip(i as int)[0] == a);
                assert(other@.skip(i as int)[0] == b);
            }
            if a < b {
                return true;
            }
            if a > b {
                return false;
            }
            proof {
                assert(self@.skip(i as int).skip(1) =~= self@.skip(i + 1));
                assert(other@.skip(i as int).skip(1) =~= other@.skip(i + 1));
            }
            i += 1;
        }
        proof {
            assert(self@.skip(BUFFER_LENGTH as int).len() == 0);
            assert(other@.skip(BUFFER_LENGTH as int).len() == 0);
        }
        false
    }
}

impl Default for Pillid {
    /// The degenerate identifier: an all-zero buffer, whose text is empty.
    fn default() -> (r: Pillid)
        ensures
            r@ == zero_bytes(BUFFER_LENGTH as nat),
            r.wf(),
            r.spec_text() == Seq::<u8>::empty(),
    {
        let p = Pillid { bytes: [0u8; BUFFER_LENGTH] };
        proof {
            assert(p@ =~= zero_bytes(BUFFER_LENGTH as nat));
            lemma_first_zero_at(p@, 0);
            assert(p.spec_text() =~= Seq::<u8>::empty());
        }
        p
    }
}

impl core::str::FromStr for Pillid {
    type Err = Error;

    /// Parsing through the standard trait; identical to [`Pillid::parse`].
    fn from_str(s: &str) -> Result<Pillid, Error> {
        Pillid::parse(s)
    }
}

/// The staged prefix: a fixed-capacity byte buffer and its logical length.
#[derive(Clone, Copy, PartialEq, Eq, Hash, PartialOrd, Ord)]
struct PrefixBuf {
    bytes: [u8; PREFIX_LENGTH],
    len: usize,
}

/// The transient, mutable aggregate from which an identifier is rendered:
/// an optional prefix of at most [`PREFIX_LENGTH`] bytes, 8 raw timestamp
/// bytes and 16 raw random bytes. The default-constructed form (no prefix,
/// all bytes zero) is a valid, degenerate staging value.
#[derive(Clone, Copy, PartialEq, Eq, Hash, PartialOrd, Ord)]
pub struct PillidBuilder {
    prefix: Option<PrefixBuf>,
    timestamp: [u8; TIMESTAMP_BYTES],
    random: [u8; RANDOMNESS_BYTES],
}

impl PillidBuilder {
    /// The prefix bytes staged in the builder, if a prefix was set.
    pub closed spec fn spec_prefix(self) -> Option<Seq<u8>> {
        match self.prefix {
            Some(p) => Some(p.bytes@.take(p.len as int)),
            None => None,
        }
    }

    /// The staged timestamp bytes, most significant first.
    pub closed spec fn spec_timestamp(self) -> Seq<u8> {
        self.timestamp@
    }

    /// The staged random bytes.
    pub closed spec fn spec_random(self) -> Seq<u8> {
        self.random@
    }

    /// Well-formedness: a staged prefix fits its buffer and the buffer
    /// beyond its logical length is zero.
    pub closed spec fn wf(self) -> bool {
        match self.prefix {
            Some(p) => p.len <= PREFIX_LENGTH && (forall|i: int|
                p.len <= i < PREFIX_LENGTH ==> p.bytes@[i] == 0),
            None => true,
        }
    }

    /// The prefix segment of the rendered text: the prefix bytes and the
    /// underscore separator, or nothing when no prefix is set.
    pub open spec fn spec_prefix_segment(self) -> Seq<u8> {
        match self.spec_prefix() {
            Some(pb) => pb.push(95u8),
            None => Seq::<u8>::empty(),
        }
    }

    /// The text this builder renders: the prefix segment, then the timestamp
    /// as 6 base-62 digits, then the random bytes as 22 base-62 digits, both
    /// read as big-endian integers.
    pub open spec fn spec_render(self) -> Seq<u8> {
        self.spec_prefix_segment() + spec_encode(
            be_val(self.spec_timestamp()),
            TIMESTAMP_LENGTH as nat,
        ) + spec_encode(be_val(self.spec_random()), RANDOM_LENGTH as nat)
    }

    /// Whether the staged prefix holds only printable ASCII: such a prefix
    /// renders into a well-formed identifier, while a NUL or non-ASCII byte
    /// would break the buffer's text invariant.
    pub open spec fn spec_prefix_ascii(self) -> bool {
        match self.spec_prefix() {
            Some(pb) => forall|i: int| 0 <= i < pb.len() ==> 0 < #[trigger] pb[i] < 128,
            None => true,
        }
    }

    /// A builder staged with the current Unix time and fresh entropy, and no
    /// prefix. What the clock and the entropy source returned cannot be
    /// known here, so only the shape is promised.
    pub(crate) fn new() -> (r: PillidBuilder)
        ensures
            r.wf(),
            r.spec_prefix() is None,
    {
        let now = crate::clock::now_unix_seconds();
        let timestamp = crate::codec::u64_to_be_bytes(now);
        let random = crate::rng::bytes();
        PillidBuilder { prefix: None, timestamp, random }
    }

    /// The staged random bytes.
    pub fn random(&self) -> (r: &[u8; RANDOMNESS_BYTES])
        ensures
            r@ == self.spec_random(),
    {
        &self.random
    }

    /// Overrides the random bytes in place; the other fields are untouched.
    pub fn set_random(&mut self, random: [u8; RANDOMNESS_BYTES])
        ensures
            final(self).spec_random() == random@,
            final(self).spec_timestamp() == old(self).spec_timestamp(),
            final(self).spec_prefix() == old(self).spec_prefix(),
            final(self).wf() == old(self).wf(),
    {
        self.random = random;
    }

    /// The builder with its random bytes replaced.
    pub fn with_random(self, random: [u8; RANDOMNESS_BYTES]) -> (r: PillidBuilder)
        ensures
            r.spec_random() == random@,
            r.spec_timestamp() == self.spec_timestamp(),
            r.spec_prefix() == self.spec_prefix(),
            r.wf() == self.wf(),
    {
        let mut id = self;
        id.set_random(random);
        id
    }

    /// The staged timestamp bytes.
    pub fn timestamp(&self) -> (r: &[u8; TIMESTAMP_BYTES])
        ensures
            r@ == self.spec_timestamp(),
    {
        &self.timestamp
    }

    /// Overrides the timestamp bytes in place; the other fields are untouched.
    pub fn set_timestamp(&mut self, timestamp: [u8; TIMESTAMP_BYTES])
        ensures
            final(self).spec_timestamp() == timestamp@,
            final(self).spec_random() == old(self).spec_random(),
            final(self).spec_prefix() == old(self).spec_prefix(),
            final(self).wf() == old(self).wf(),
    {
        self.timestamp = timestamp;
    }

    /// The builder with its timestamp bytes replaced.
    pub fn with_timestamp(self, timestamp: [u8; TIMESTAMP_BYTES]) -> (r: PillidBuilder)
        ensures
            r.spec_timestamp() == timestamp@,
            r.spec_random() == self.spec_random(),
            r.spec_prefix() == self.spec_prefix(),
            r.wf() == self.wf(),
    {
        let mut id = self;
        id.set_timestamp(timestamp);
        id
    }

    /// The staged prefix as text, if one was set.
    pub fn prefix(&self) -> (r: Option<&str>)
        requires
            self.wf(),
        ensures
            r is Some <==> self.spec_prefix() is Some,
            r matches Some(s) ==> (self.spec_prefix() matches Some(pb) && ((forall|i: int|
                0 <= i < pb.len() ==> #[trigger] pb[i] < 128) ==> {
                &&& s@.len() == pb.len()
                &&& is_ascii_chars(s@)
                &&& forall|i: int| 0 <= i < s@.len() ==> #[trigger] s@[i] as u8 == pb[i]
            })),
    {
        match &self.prefix {
            None => None,
            Some(p) => {
                let whole: &[u8] = p.bytes.as_slice();
                let part: &[u8] = &whole[0..p.len];
                Some(crate::text::str_of_bytes(part))
            },
        }
    }

    /// Stages a prefix. Succeeds on every prefix of at most
    /// [`PREFIX_LENGTH`] bytes, the empty one included; fails with
    /// [`Error::PrefixTooLong`], leaving the builder unchanged, on a longer
    /// one. Nothing is truncated.
    pub fn set_prefix(&mut self, prefix: &str) -> (r: Result<(), Error>)
        ensures
            prefix.spec_bytes().len() <= PREFIX_LENGTH ==> {
                &&& r is Ok
                &&& final(self).spec_prefix() == Some(prefix.spec_bytes())
                &&& final(self).spec_timestamp() == old(self).spec_timestamp()
                &&& final(self).spec_random() == old(self).spec_random()
                &&& final(self).wf()
            },
            prefix.spec_bytes().len() > PREFIX_LENGTH ==> {
                &&& r == Err::<(), Error>(Error::PrefixTooLong)
                &&& *final(self) == *old(self)
            },
    {
        let b = prefix.as_bytes();
        if b.len() > PREFIX_LENGTH {
            return Err(Error::PrefixTooLong);
        }
        let mut bytes = [0u8; PREFIX_LENGTH];
        let mut i: usize = 0;
        while i < b.len()
            invariant
                i <= b@.len(),
                b@.len() <= PREFIX_LENGTH,
                b@ == prefix.spec_bytes(),
                forall|k: int| 0 <= k < i ==> bytes@[k] == b@[k],
                forall|k: int| i <= k < PREFIX_LENGTH ==> bytes@[k] == 0,
            decreases b@.len() - i,
        {
            bytes[i] = b[i];
            i += 1;
        }
        self.prefix = Some(PrefixBuf { bytes, len: b.len() });
        proof {
            assert(bytes@.take(b@.len() as int) =~= prefix.spec_bytes());
        }
        Ok(())
    }

    /// The builder with the prefix staged, or [`Error::PrefixTooLong`] when
    /// the prefix exceeds [`PREFIX_LENGTH`] bytes.
    pub fn with_prefix(self, prefix: &str) -> (r: Result<PillidBuilder, Error>)
        ensures
            prefix.spec_bytes().len() <= PREFIX_LENGTH ==> (r matches Ok(b) && {
                &&& b.spec_prefix() == Some(prefix.spec_bytes())
                &&& b.spec_timestamp() == self.spec_timestamp()
                &&& b.spec_random() == self.spec_random()
                &&& b.wf()
            }),
            prefix.spec_bytes().len() > PREFIX_LENGTH ==> r == Err::<PillidBuilder, Error>(
                Error::PrefixTooLong,
            ),
    {
        let mut id = self;
        match id.set_prefix(prefix) {
            Ok(()) => Ok(id),
            Err(e) => Err(e),
        }
    }

    /// Renders the staged fields into the deterministic text that `build`
    /// stores: a pure function of the three fields.
    pub fn render_bytes(&self) -> (r: Vec<u8>)
        requires
            self.wf(),
        ensures
            r@ == self.spec_render(),
    {
        let mut out: Vec<u8> = Vec::new();
        match &self.prefix {
            None => {
                proof {
                    assert(out@ =~= self.spec_prefix_segment());
                }
            },
            Some(p) => {
                let mut i: usize = 0;
                while i < p.len
                    invariant
                        i <= p.len,
                        p.len <= PREFIX_LENGTH,
                        out@ == p.bytes@.take(i as int),
                    decreases p.len - i,
                {
                    out.push(p.bytes[i]);
                    proof {
                        assert(out@ =~= p.bytes@.take(i + 1));
                    }
                    i += 1;
                }
                out.push(95u8);
                proof {
                    assert(out@ =~= self.spec_prefix_segment());
                }
            },
        }
        let ts = be_value_u64(&self.timestamp);
        encode_fixed_width(ts as u128, TIMESTAMP_LENGTH, &mut out);
        let rv = be_value_u128(&self.random);
        proof {
            lemma_spec_encode_len(be_val(self.spec_timestamp()), TIMESTAMP_LENGTH as nat);
        }
        encode_fixed_width(rv, RANDOM_LENGTH, &mut out);
        proof {
            lemma_spec_encode_len(be_val(self.spec_random()), RANDOM_LENGTH as nat);
        }
        out
    }

    /// Renders the staged fields as a string. A pure function of the three
    /// fields: equal builders render equal text, whenever they are rendered.
    pub fn render_text(&self) -> (r: String)
        requires
            self.wf(),
        ensures
            self.spec_prefix_ascii() ==> {
                &&& r@.len() == self.spec_render().len()
                &&& is_ascii_chars(r@)
                &&& forall|i: int| 0 <= i < r@.len() ==> #[trigger] r@[i] as u8
                    == self.spec_render()[i]
            },
    {
        let bytes = self.render_bytes();
        proof {
            if self.spec_prefix_ascii() {
                lemma_render_bytes_clean(*self);
            }
        }
        crate::text::string_of_bytes(bytes.as_slice())
    }

    /// Renders the staged fields and stores the text in the fixed buffer,
    /// left-aligned with a zero-padded tail. The staged fields must render
    /// within [`MAX_LENGTH_PILLID`] bytes, which holds whenever a staged
    /// prefix leaves room for the separator and the 28 digits.
    pub fn build(self) -> (r: Pillid)
        requires
            self.wf(),
            self.spec_render().len() <= MAX_LENGTH_PILLID,
        ensures
            r@ == self.spec_render() + zero_bytes((BUFFER_LENGTH - self.spec_render().len()) as nat),
            self.spec_prefix_ascii() ==> {
                &&& r.wf()
                &&& r.spec_text() == self.spec_render()
            },
    {
        let text = self.render_bytes();
        let mut buf = [0u8; BUFFER_LENGTH];
        let mut i: usize = 0;
        while i < text.len()
            invariant
                i <= text@.len(),
                text@.len() <= MAX_LENGTH_PILLID,
                forall|k: int| 0 <= k < i ==> buf@[k] == text@[k],
                forall|k: int| i <= k < BUFFER_LENGTH ==> buf@[k] == 0,
            decreases text@.len() - i,
        {
            buf[i] = text[i];
            i += 1;
        }
        let p = Pillid { bytes: buf };
        proof {
            assert(p@ =~= self.spec_render() + zero_bytes(
                (BUFFER_LENGTH - self.spec_render().len()) as nat,
            ));
            if self.spec_prefix_ascii() {
                lemma_render_bytes_clean(self);
                lemma_first_zero_at(p@, self.spec_render().len() as int);
                assert(p.spec_text() =~= self.spec_render());
            }
        }
        p
    }
}

/// Under an ASCII prefix, every rendered byte is printable ASCII: the prefix
/// bytes by assumption, the separator is an underscore, and the digits are
/// alphanumeric symbols.
proof fn lemma_render_bytes_clean(b: PillidBuilder)
    requires
        b.wf(),
        b.spec_prefix_ascii(),
    ensures
        forall|i: int| 0 <= i < b.spec_render().len() ==> 0 < #[trigger] b.spec_render()[i] < 128,
{
    let seg = b.spec_prefix_segment();
    let ts = spec_encode(be_val(b.spec_timestamp()), TIMESTAMP_LENGTH as nat);
    let rd = spec_encode(be_val(b.spec_random()), RANDOM_LENGTH as nat);
    lemma_spec_encode_len(be_val(b.spec_timestamp()), TIMESTAMP_LENGTH as nat);
    lemma_spec_encode_len(be_val(b.spec_random()), RANDOM_LENGTH as nat);
    lemma_spec_encode_ascii(be_val(b.spec_timestamp()), TIMESTAMP_LENGTH as nat);
    lemma_spec_encode_ascii(be_val(b.spec_random()), RANDOM_LENGTH as nat);
    assert forall|i: int| 0 <= i < b.spec_render().len() implies 0 < #[trigger] b.spec_render()[i]
        < 128 by {
        if i < seg.len() {
            assert(b.spec_render()[i] == seg[i]);
        } else if i < seg.len() + ts.len() {
            assert(b.spec_render()[i] == ts[i - seg.len()]);
        } else {
            assert(b.spec_render()[i] == rd[i - seg.len() - ts.len()]);
        }
    }
}

impl Default for PillidBuilder {
    /// The degenerate builder: no prefix, zero timestamp, zero random bytes.
    fn default() -> (r: PillidBuilder)
        ensures
            r.spec_prefix() is None,
            r.spec_timestamp() == zero_bytes(TIMESTAMP_BYTES as nat),
            r.spec_random() == zero_bytes(RANDOMNESS_BYTES as nat),
            r.wf(),
    {
        let b = PillidBuilder {
            prefix: None,
            timestamp: [0u8; TIMESTAMP_BYTES],
            random: [0u8; RANDOMNESS_BYTES],
        };
        proof {
            assert(b.spec_timestamp() =~= zero_bytes(TIMESTAMP_BYTES as nat));
            assert(b.spec_random() =~= zero_bytes(RANDOMNESS_BYTES as nat));
        }
        b
    }
}

impl Pillid {
    /// A fresh builder, staged with nothing: the degenerate form.
    pub fn builder() -> (r: PillidBuilder)
        ensures
            r.spec_prefix() is None,
            r.spec_timestamp() == zero_bytes(TIMESTAMP_BYTES as nat),
            r.spec_random() == zero_bytes(RANDOMNESS_BYTES as nat),
            r.wf(),
    {
        PillidBuilder::default()
    }

    /// A fresh identifier with the given prefix, the current time and new
    /// entropy. The prefix must leave the text room for the separator and
    /// the 28 digits; a longer prefix can be staged in a builder but never
    /// built.
    pub fn new(prefix: &str) -> (r: Pillid)
        requires
            prefix.spec_bytes().len() + 1 + TIMESTAMP_LENGTH + RANDOM_LENGTH <= MAX_LENGTH_PILLID,
        ensures
            (forall|i: int|
                0 <= i < prefix.spec_bytes().len() ==> 0 < #[trigger] prefix.spec_bytes()[i]
                    < 128) ==> {
                &&& r.wf()
                &&& r.spec_text().len() == prefix.spec_bytes().len() + 1 + TIMESTAMP_LENGTH
                    + RANDOM_LENGTH
                &&& r.spec_text().take(prefix.spec_bytes().len() as int + 1) == prefix.spec_bytes().push(
                    95u8,
                )
            },
    {
        let b = PillidBuilder::new();
        let b2 = match b.with_prefix(prefix) {
            Ok(x) => x,
            Err(_) => {
                proof {
                    assert(false);
                }
                b
            },
        };
        proof {
            lemma_spec_encode_len(be_val(b2.spec_timestamp()), TIMESTAMP_LENGTH as nat);
            lemma_spec_encode_len(be_val(b2.spec_random()), RANDOM_LENGTH as nat);
        }
        let id = b2.build();
        proof {
            if forall|i: int|
                0 <= i < prefix.spec_bytes().len() ==> 0 < #[trigger] prefix.spec_bytes()[i]
                    < 128 {
                assert(id.spec_text().take(prefix.spec_bytes().len() as int + 1)
                    =~= prefix.spec_bytes().push(95u8));
            }
        }
        id
    }
}


/// Rendering is deterministic: it depends on the staged prefix, timestamp
/// and random bytes alone, never on when the builder is rendered. Two
/// builders staging the same fields render the same text.
pub proof fn lemma_render_deterministic(b1: PillidBuilder, b2: PillidBuilder)
    requires
        b1.spec_prefix() == b2.spec_prefix(),
        b1.spec_timestamp() == b2.spec_timestamp(),
        b1.spec_random() == b2.spec_random(),
    ensures
        b1.spec_render() == b2.spec_render(),
{
}

/// Parsing an identifier's rendered text gives the identifier back: for a
/// well-formed identifier whose text leaves the buffer's final byte free,
/// the text that [`Pillid::to_text`] returns (a string whose characters are
/// exactly the text bytes) parses to the very same buffer. A text that
/// fills all of [`MAX_LENGTH_PILLID`] is rejected by [`Pillid::parse`]
/// instead, so it stands outside this law.
pub proof fn lemma_parse_of_text_round_trip(p: Pillid, t: Seq<char>)
    requires
        p.wf(),
        p.spec_text().len() < MAX_LENGTH_PILLID,
        t.len() == p.spec_text().len(),
        is_ascii_chars(t),
        forall|i: int| 0 <= i < t.len() ==> #[trigger] t[i] as u8 == p.spec_text()[i],
    ensures
        encode_utf8(t) == p.spec_text(),
        spec_parse(encode_utf8(t)) == Ok::<Seq<u8>, Error>(p@),
{
    is_ascii_chars_encode_utf8(t);
    assert(encode_utf8(t) =~= p.spec_text());
    lemma_first_zero_bounds(p@);
    assert(p@ =~= p.spec_text() + zero_bytes((BUFFER_LENGTH - p.spec_text().len()) as nat));
}

/// A strict lexicographic difference inside a common-length region decides
/// the comparison whatever follows it.
proof fn lemma_lex_lt_append(a: Seq<u8>, b: Seq<u8>, s1: Seq<u8>, s2: Seq<u8>)
    requires
        a.len() == b.len(),
        lex_lt(a, b),
    ensures
        lex_lt(a + s1, b + s2),
    decreases a.len(),
{
    assert(b.len() > 0);
    assert((a + s1)[0] == a[0]);
    assert((b + s2)[0] == b[0]);
    if a[0] == b[0] {
        assert((a + s1).skip(1) =~= a.skip(1) + s1);
        assert((b + s2).skip(1) =~= b.skip(1) + s2);
        lemma_lex_lt_append(a.skip(1), b.skip(1), s1, s2);
    }
}

/// A shared leading region does not affect a lexicographic comparison.
proof fn lemma_lex_lt_prepend(p: Seq<u8>, x: Seq<u8>, y: Seq<u8>)
    requires
        lex_lt(x, y),
    ensures
        lex_lt(p + x, p + y),
    decreases p.len(),
{
    if p.len() == 0 {
        assert(p + x =~= x);
        assert(p + y =~= y);
    } else {
        assert(y.len() > 0);
        assert((p + x)[0] == p[0]);
        assert((p + y)[0] == p[0]);
        assert((p + x).skip(1) =~= p.skip(1) + x);
        assert((p + y).skip(1) =~= p.skip(1) + y);
        lemma_lex_lt_prepend(p.skip(1), x, y);
    }
}

/// Identifiers sharing a prefix are time-ordered: of two builders staging
/// the same prefix, the one whose encoded timestamp digits are
/// lexicographically smaller renders a text, and stores a buffer, that
/// sorts strictly first, independent of the random components.
pub proof fn lemma_time_ordering(b1: PillidBuilder, b2: PillidBuilder)
    requires
        b1.spec_prefix() == b2.spec_prefix(),
        lex_lt(
            spec_encode(be_val(b1.spec_timestamp()), TIMESTAMP_LENGTH as nat),
            spec_encode(be_val(b2.spec_timestamp()), TIMESTAMP_LENGTH as nat),
        ),
        b1.spec_render().len() <= MAX_LENGTH_PILLID,
    ensures
        lex_lt(b1.spec_render(), b2.spec_render()),
        lex_lt(
            b1.spec_render() + zero_bytes((BUFFER_LENGTH - b1.spec_render().len()) as nat),
            b2.spec_render() + zero_bytes((BUFFER_LENGTH - b2.spec_render().len()) as nat),
        ),
{
    let seg = b1.spec_prefix_segment();
    let ts1 = spec_encode(be_val(b1.spec_timestamp()), TIMESTAMP_LENGTH as nat);
    let ts2 = spec_encode(be_val(b2.spec_timestamp()), TIMESTAMP_LENGTH as nat);
    let rd1 = spec_encode(be_val(b1.spec_random()), RANDOM_LENGTH as nat);
    let rd2 = spec_encode(be_val(b2.spec_random()), RANDOM_LENGTH as nat);
    lemma_spec_encode_len(be_val(b1.spec_timestamp()), TIMESTAMP_LENGTH as nat);
    lemma_spec_encode_len(be_val(b2.spec_timestamp()), TIMESTAMP_LENGTH as nat);
    lemma_spec_encode_len(be_val(b1.spec_random()), RANDOM_LENGTH as nat);
    lemma_spec_encode_len(be_val(b2.spec_random()), RANDOM_LENGTH as nat);
    assert(b2.spec_prefix_segment() == seg);
    lemma_lex_lt_append(ts1, ts2, rd1, rd2);
    lemma_lex_lt_prepend(seg, ts1 + rd1, ts2 + rd2);
    assert(seg + (ts1 + rd1) =~= b1.spec_render());
    assert(seg + (ts2 + rd2) =~= b2.spec_render());
    lemma_lex_lt_append(
        b1.spec_render(),
        b2.spec_render(),
        zero_bytes((BUFFER_LENGTH - b1.spec_render().len()) as nat),
        zero_bytes((BUFFER_LENGTH - b2.spec_render().len()) as nat),
    );
}

/// Appending one differing symbol to a shared stem decides the comparison
/// by that symbol.
proof fn lemma_lex_lt_push_last(a: Seq<u8>, x: u8, y: u8)
    requires
        x < y,
    ensures
        lex_lt(a.push(x), a.push(y)),
    decreases a.len(),
{
    if a.len() == 0 {
        assert(a.push(x)[0] == x);
        assert(a.push(y)[0] == y);
    } else {
        assert(a.push(x)[0] == a[0]);
        assert(a.push(y)[0] == a[0]);
        assert(a.push(x).skip(1) =~= a.skip(1).push(x));
        assert(a.push(y).skip(1) =~= a.skip(1).push(y));
        lemma_lex_lt_push_last(a.skip(1), x, y);
    }
}

/// Fixed-width encoding preserves numeric order: of two values that both
/// fit in `w` base-62 digits, the smaller one encodes to the
/// lexicographically smaller digit string. (Values that do not fit are
/// truncated by design and fall outside this law.)
pub proof fn lemma_encode_order(v1: nat, v2: nat, w: nat)
    requires
        v1 < v2,
        v2 < pow62(w),
    ensures
        lex_lt(spec_encode(v1, w), spec_encode(v2, w)),
    decreases w,
{
    if w == 0 {
        assert(pow62(0) == 1);
    } else {
        let q1 = v1 / 62;
        let q2 = v2 / 62;
        let d1 = (v1 % 62) as int;
        let d2 = (v2 % 62) as int;
        assert(v1 == 62 * q1 + v1 % 62);
        assert(v2 == 62 * q2 + v2 % 62);
        assert(pow62(w) == 62 * pow62((w - 1) as nat));
        assert(q2 < pow62((w - 1) as nat));
        lemma_spec_encode_len(q1, (w - 1) as nat);
        lemma_spec_encode_len(q2, (w - 1) as nat);
        if q1 == q2 {
            assert(d1 < d2);
            lemma_digit_order(d1, d2);
            lemma_lex_lt_push_last(spec_encode(q1, (w - 1) as nat), spec_digit(d1), spec_digit(d2));
        } else {
            assert(q1 < q2);
            lemma_encode_order(q1, q2, (w - 1) as nat);
            let e1 = spec_encode(q1, (w - 1) as nat);
            let e2 = spec_encode(q2, (w - 1) as nat);
            assert(e1.push(spec_digit(d1)) =~= e1 + seq![spec_digit(d1)]);
            assert(e2.push(spec_digit(d2)) =~= e2 + seq![spec_digit(d2)]);
            lemma_lex_lt_append(e1, e2, seq![spec_digit(d1)], seq![spec_digit(d2)]);
        }
    }
}

/// Identifiers sharing a prefix sort by time: of two builders staging the
/// same prefix and timestamps that both fit in the 6 rendered digits, the
/// one with the numerically earlier timestamp renders a text, and stores a
/// buffer, that sorts strictly first, independent of the random components.
pub proof fn lemma_numeric_time_ordering(b1: PillidBuilder, b2: PillidBuilder)
    requires
        b1.spec_prefix() == b2.spec_prefix(),
        be_val(b1.spec_timestamp()) < be_val(b2.spec_timestamp()),
        be_val(b2.spec_timestamp()) < pow62(TIMESTAMP_LENGTH as nat),
        b1.spec_render().len() <= MAX_LENGTH_PILLID,
    ensures
        lex_lt(b1.spec_render(), b2.spec_render()),
        lex_lt(
            b1.spec_render() + zero_bytes((BUFFER_LENGTH - b1.spec_render().len()) as nat),
            b2.spec_render() + zero_bytes((BUFFER_LENGTH - b2.spec_render().len()) as nat),
        ),
{
    lemma_encode_order(
        be_val(b1.spec_timestamp()),
        be_val(b2.spec_timestamp()),
        TIMESTAMP_LENGTH as nat,
    );
    lemma_time_ordering(b1, b2);
}

/// ASCII text is pinned by its bytes: two ASCII character sequences whose
/// bytes agree are the same text.
pub proof fn lemma_ascii_chars_eq(a: Seq<char>, b: Seq<char>)
    requires
        a.len() == b.len(),
        is_ascii_chars(a),
        is_ascii_chars(b),
        forall|i: int| 0 <= i < a.len() ==> #[trigger] a[i] as u8 == b[i] as u8,
    ensures
        a == b,
{
    assert forall|i: int| 0 <= i < a.len() implies a[i] == b[i] by {
        assert(a[i] as u8 == b[i] as u8);
        assert(a[i] <= '\u{7f}');
        assert(b[i] <= '\u{7f}');
        assert(a[i] as u32 == b[i] as u32);
    }
    assert(a =~= b);
}

/// A staged prefix reads back verbatim: when `set_prefix` accepted the
/// ASCII text `p`, the string `s` that `prefix()` then returns (whose
/// characters are, by its contract, exactly the staged bytes) is `p`
/// itself.
pub proof fn lemma_prefix_reads_back(p: &str, s: &str)
    requires
        is_ascii_chars(p@),
        s@.len() == p.spec_bytes().len(),
        is_ascii_chars(s@),
        forall|i: int| 0 <= i < s@.len() ==> #[trigger] s@[i] as u8 == p.spec_bytes()[i],
    ensures
        s@ == p@,
{
    is_ascii_chars_encode_utf8(p@);
    lemma_ascii_chars_eq(s@, p@);
}

} // verus!
