//! Content identities.
use crate::text::{chars_of, hex, lemma_hex_bound, lemma_hex_len, lemma_hex_tells_apart, push_hex, read_hex};
use crate::arrange::StrictlyOrdered;
use crate::order::Ordered;
use vstd::prelude::*;
use vstd::string::StrSliceExecFns;
use vstd::utf8::encode_utf8;

verus! {

/// The SHA-256 hash of a byte string.
pub uninterp spec fn sha256_of(bytes: Seq<u8>) -> Seq<u8>;

/// `sha2::Sha256` hashes the bytes it is given; the 32 bytes that come out depend
/// on those bytes alone.
#[verifier::external_body]
pub(crate) fn sha256(bytes: &[u8]) -> (hash: [u8; 32])
    ensures
        hash@ == sha256_of(bytes@),
{
    <sha2::Sha256 as sha2::Digest>::digest(bytes).into()
}

/// Eight bytes read as one big-endian number.
pub open spec fn big_endian(bytes: Seq<u8>, at: int) -> int {
    0x100_0000_0000_0000 * bytes[at] + 0x1_0000_0000_0000 * bytes[at + 1] + 0x100_0000_0000
        * bytes[at + 2] + 0x1_0000_0000 * bytes[at + 3] + 0x100_0000 * bytes[at + 4] + 0x1_0000
        * bytes[at + 5] + 0x100 * bytes[at + 6] + bytes[at + 7]
}

fn read_big_endian(bytes: &[u8; 32], at: usize) -> (word: u64)
    requires
        at <= 24,
    ensures
        word == big_endian(bytes@, at as int),
{
    let high: u64 = 0x100_0000 * (bytes[at] as u64) + 0x1_0000 * (bytes[at + 1] as u64) + 0x100 * (
    bytes[at + 2] as u64) + bytes[at + 3] as u64;
    let low: u64 = 0x100_0000 * (bytes[at + 4] as u64) + 0x1_0000 * (bytes[at + 5] as u64) + 0x100
        * (bytes[at + 6] as u64) + bytes[at + 7] as u64;
    0x1_0000_0000 * high + low
}

/// A SHA-256 identity, held as four big-endian words so that words compare as the
/// bytes do.
#[derive(Clone, Copy, Debug, PartialEq, Eq, PartialOrd, Ord, Hash, Structural)]
pub struct Digest {
    w0: u64,
    w1: u64,
    w2: u64,
    w3: u64,
}

/// The identity that a 32-byte hash stands for.
pub closed spec fn digest_of_hash(hash: Seq<u8>) -> Digest {
    Digest {
        w0: big_endian(hash, 0) as u64,
        w1: big_endian(hash, 8) as u64,
        w2: big_endian(hash, 16) as u64,
        w3: big_endian(hash, 24) as u64,
    }
}

/// The identity of a byte string.
pub open spec fn digest_of(bytes: Seq<u8>) -> Digest {
    digest_of_hash(sha256_of(bytes))
}

/// The identity of a text: that of its UTF-8 bytes.
pub open spec fn digest_of_text(text: Seq<char>) -> Digest {
    digest_of(encode_utf8(text))
}

impl Digest {
    /// Lower-case hexadecimal, 64 digits.
    pub closed spec fn text(self) -> Seq<char> {
        hex(self.w0 as nat, 16) + hex(self.w1 as nat, 16) + hex(self.w2 as nat, 16) + hex(
            self.w3 as nat,
            16,
        )
    }

    /// The numeric order of identities, which is the order of their texts.
    pub closed spec fn precedes(self, other: Digest) -> bool {
        self.w0 < other.w0 || self.w0 == other.w0 && (self.w1 < other.w1 || self.w1 == other.w1 && (
        self.w2 < other.w2 || self.w2 == other.w2 && self.w3 < other.w3))
    }

    pub fn of(bytes: &[u8]) -> (r: Digest)
        ensures
            r == digest_of(bytes@),
    {
        let hash = sha256(bytes);
        Digest {
            w0: read_big_endian(&hash, 0),
            w1: read_big_endian(&hash, 8),
            w2: read_big_endian(&hash, 16),
            w3: read_big_endian(&hash, 24),
        }
    }

    pub fn of_text(text: &str) -> (r: Digest)
        ensures
            r == digest_of_text(text@),
    {
        Digest::of(text.as_bytes())
    }

    /// The identity that a text spells, if it spells one.
    pub fn parse(text: &str) -> (r: Option<Digest>)
        ensures
            match r {
                Some(digest) => digest.text() == text@,
                None => forall|digest: Digest| #[trigger] digest.text() != text@,
            },
    {
        let chars = chars_of(text);
        proof {
            assert forall|digest: Digest| #[trigger] digest.text() == text@ implies text@.len() == 64
                && hex(digest.w0 as nat, 16) == text@.subrange(0, 16) && hex(digest.w1 as nat, 16)
                == text@.subrange(16, 32) && hex(digest.w2 as nat, 16) == text@.subrange(32, 48)
                && hex(digest.w3 as nat, 16) == text@.subrange(48, 64) by {
                lemma_hex_len(digest.w0 as nat, 16);
                lemma_hex_len(digest.w1 as nat, 16);
                lemma_hex_len(digest.w2 as nat, 16);
                lemma_hex_len(digest.w3 as nat, 16);
                assert(hex(digest.w0 as nat, 16) =~= text@.subrange(0, 16));
                assert(hex(digest.w1 as nat, 16) =~= text@.subrange(16, 32));
                assert(hex(digest.w2 as nat, 16) =~= text@.subrange(32, 48));
                assert(hex(digest.w3 as nat, 16) =~= text@.subrange(48, 64));
            }
        }
        if chars.len() != 64 {
            return None;
        }
        match (read_hex(&chars, 0), read_hex(&chars, 16), read_hex(&chars, 32), read_hex(&chars, 48)) {
            (Some(w0), Some(w1), Some(w2), Some(w3)) => {
                let digest = Digest { w0, w1, w2, w3 };
                assert(digest.text() =~= text@);
                Some(digest)
            },
            _ => None,
        }
    }

    /// Whether this identity is smaller than the other.
    pub fn before(&self, other: &Digest) -> (r: bool)
        ensures
            r == self.precedes(*other),
    {
        self.w0 < other.w0 || self.w0 == other.w0 && (self.w1 < other.w1 || self.w1 == other.w1 && (
        self.w2 < other.w2 || self.w2 == other.w2 && self.w3 < other.w3))
    }

    /// Appends the hexadecimal text.
    pub fn push_to(&self, text: &mut String)
        ensures
            final(text)@ == old(text)@ + self.text(),
    {
        push_hex(text, self.w0, 16);
        push_hex(text, self.w1, 16);
        push_hex(text, self.w2, 16);
        push_hex(text, self.w3, 16);
        assert(text@ =~= old(text)@ + self.text());
    }

    /// Whether the first character of the text has an odd code.
    pub fn first_digit_is_odd(&self) -> (r: bool)
        ensures
            r == (self.text()[0] as u32 % 2 == 1),
            self.text().len() == 64,
    {
        let text = self.to_string();
        proof {
            lemma_hex_len(self.w0 as nat, 16);
            lemma_hex_len(self.w1 as nat, 16);
            lemma_hex_len(self.w2 as nat, 16);
            lemma_hex_len(self.w3 as nat, 16);
        }
        let first = text.as_str().get_char(0);
        first as u32 % 2 == 1
    }

    pub fn to_string(&self) -> (r: String)
        ensures
            r@ == self.text(),
    {
        let mut text = String::new();
        self.push_to(&mut text);
        assert(text@ =~= self.text());
        text
    }
}

impl Ordered for Digest {
    open spec fn comes_before(self, other: Self) -> bool {
        self.precedes(other)
    }

    fn is_before(&self, other: &Self) -> (r: bool) {
        self.before(other)
    }
}

impl StrictlyOrdered for Digest {
    proof fn total(a: Self, b: Self) {
    }

    proof fn transitive(a: Self, b: Self, c: Self) {
    }
}

/// The text of an identity has 64 characters.
pub proof fn lemma_text_len(digest: Digest)
    ensures
        digest.text().len() == 64,
{
    lemma_hex_len(digest.w0 as nat, 16);
    lemma_hex_len(digest.w1 as nat, 16);
    lemma_hex_len(digest.w2 as nat, 16);
    lemma_hex_len(digest.w3 as nat, 16);
}

/// Different identities have different texts, so that a text reads back as the identity that
/// it was written from.
pub proof fn law_texts_tell_digests_apart(a: Digest, b: Digest)
    requires
        a.text() == b.text(),
    ensures
        a == b,
{
    lemma_hex_bound();
    let text = a.text();
    lemma_hex_len(a.w0 as nat, 16);
    lemma_hex_len(a.w1 as nat, 16);
    lemma_hex_len(a.w2 as nat, 16);
    lemma_hex_len(a.w3 as nat, 16);
    lemma_hex_len(b.w0 as nat, 16);
    lemma_hex_len(b.w1 as nat, 16);
    lemma_hex_len(b.w2 as nat, 16);
    lemma_hex_len(b.w3 as nat, 16);
    assert(hex(a.w0 as nat, 16) =~= text.subrange(0, 16));
    assert(hex(b.w0 as nat, 16) =~= text.subrange(0, 16));
    assert(hex(a.w1 as nat, 16) =~= text.subrange(16, 32));
    assert(hex(b.w1 as nat, 16) =~= text.subrange(16, 32));
    assert(hex(a.w2 as nat, 16) =~= text.subrange(32, 48));
    assert(hex(b.w2 as nat, 16) =~= text.subrange(32, 48));
    assert(hex(a.w3 as nat, 16) =~= text.subrange(48, 64));
    assert(hex(b.w3 as nat, 16) =~= text.subrange(48, 64));
    lemma_hex_tells_apart(a.w0 as nat, b.w0 as nat, 16);
    lemma_hex_tells_apart(a.w1 as nat, b.w1 as nat, 16);
    lemma_hex_tells_apart(a.w2 as nat, b.w2 as nat, 16);
    lemma_hex_tells_apart(a.w3 as nat, b.w3 as nat, 16);
}

/// Of two different identities exactly one comes first.
pub proof fn lemma_precedes_total(a: Digest, b: Digest)
    ensures
        !a.precedes(a),
        a.precedes(b) ==> !b.precedes(a),
        a != b ==> a.precedes(b) || b.precedes(a),
{
}

pub proof fn lemma_precedes_transitive(a: Digest, b: Digest, c: Digest)
    requires
        a.precedes(b),
        b.precedes(c),
    ensures
        a.precedes(c),
{
}

} // verus!
