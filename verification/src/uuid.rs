//! Universally unique identifiers as plain 128-bit numbers.
use crate::text::{hex, hex_bound, hex_char, lemma_hex_len};
use vstd::arithmetic::div_mod::{
    lemma_div_denominator, lemma_fundamental_div_mod, lemma_mod_breakdown,
};
use vstd::prelude::*;

verus! {

/// The hyphenated text of an identifier: groups of 8, 4, 4, 4 and 12 lower-case
/// hexadecimal digits, most significant first.
pub open spec fn hyphenated(value: nat) -> Seq<char> {
    hex(value / 0x1000000000000000000000000, 8).push('-') + hex(value / 0x100000000000000000000, 4).push(
        '-',
    ) + hex(value / 0x10000000000000000, 4).push('-') + hex(value / 0x1000000000000, 4).push('-')
        + hex(value, 12)
}

/// `uuid::Uuid` writes itself as the hyphenated text of its number.
#[verifier::external_body]
fn uuid_text(value: u128) -> (text: String)
    ensures
        text@ == hyphenated(value as nat),
{
    uuid::Uuid::from_u128(value).hyphenated().to_string()
}

/// The number of the identifier that a text spells, if it spells one.
pub uninterp spec fn parsed_uuid(text: Seq<char>) -> Option<u128>;

/// `uuid::Uuid::parse_str` is a function of the text alone, and reads back the hyphenated
/// text of every identifier.
#[verifier::external_body]
fn read_uuid(text: &str) -> (r: Option<u128>)
    ensures
        r == parsed_uuid(text@),
        forall|value: u128| text@ == #[trigger] hyphenated(value as nat) ==> r == Some(value),
{
    uuid::Uuid::parse_str(text).ok().map(|id| id.as_u128())
}

/// An identifier.
#[derive(Clone, Copy, Debug, PartialEq, Eq, PartialOrd, Ord, Hash, Structural)]
pub struct Uuid {
    value: u128,
}

impl Uuid {
    pub closed spec fn number(self) -> u128 {
        self.value
    }

    pub open spec fn text(self) -> Seq<char> {
        hyphenated(self.number() as nat)
    }

    pub fn from_u128(value: u128) -> (r: Uuid)
        ensures
            r.number() == value,
    {
        Uuid { value }
    }

    /// Reads an identifier from its text.
    pub fn parse(text: &str) -> (r: Option<Uuid>)
        ensures
            match r {
                Some(id) => parsed_uuid(text@) == Some(id.number()),
                None => parsed_uuid(text@) is None,
            },
            forall|id: Uuid| text@ == #[trigger] id.text() ==> r == Some(id),
    {
        match read_uuid(text) {
            Some(value) => Some(Uuid { value }),
            None => None,
        }
    }

    pub fn as_u128(&self) -> (r: u128)
        ensures
            r == self.number(),
    {
        self.value
    }

    /// Appends the hyphenated text.
    pub fn push_to(&self, text: &mut String)
        ensures
            final(text)@ == old(text)@ + self.text(),
    {
        text.push_str(uuid_text(self.value).as_str());
    }

    pub fn to_string(&self) -> (r: String)
        ensures
            r@ == self.text(),
    {
        uuid_text(self.value)
    }
}

/// Hexadecimal digits tell a number up to what they leave out.
proof fn lemma_digits_tell(a: nat, b: nat, width: nat)
    requires
        hex(a, width) == hex(b, width),
    ensures
        0 < hex_bound(width),
        a % hex_bound(width) == b % hex_bound(width),
    decreases width,
{
    if width > 0 {
        let less = (width - 1) as nat;
        let x = hex(a / 16, less);
        let y = hex(b / 16, less);
        let c = hex_char((a % 16) as int);
        let d = hex_char((b % 16) as int);
        assert(x.push(c).last() == y.push(d).last());
        assert(x.push(c).drop_last() =~= x);
        assert(y.push(d).drop_last() =~= y);
        lemma_digits_tell(a / 16, b / 16, less);
        let bound = hex_bound(less) as int;
        assert(hex_bound(width) == 16 * bound);
        lemma_mod_breakdown(a as int, 16, bound);
        lemma_mod_breakdown(b as int, 16, bound);
    } else {
        assert(a % 1 == 0 && b % 1 == 0);
    }
}

/// Different identifiers have different texts.
pub proof fn law_texts_tell_identifiers_apart(a: Uuid, b: Uuid)
    requires
        a.text() == b.text(),
    ensures
        a == b,
{
    let x = a.number() as nat;
    let y = b.number() as nat;
    let text = a.text();
    lemma_text_len(a);
    lemma_text_len(b);
    lemma_groups(x);
    lemma_groups(y);
    lemma_digits_tell(x / 0x1000000000000000000000000, y / 0x1000000000000000000000000, 8);
    lemma_digits_tell(x / 0x100000000000000000000, y / 0x100000000000000000000, 4);
    lemma_digits_tell(x / 0x10000000000000000, y / 0x10000000000000000, 4);
    lemma_digits_tell(x / 0x1000000000000, y / 0x1000000000000, 4);
    lemma_digits_tell(x, y, 12);
    lemma_bounds();
    let top = 0x1000000000000000000000000nat;
    assert(x / top < 0x100000000 && y / top < 0x100000000);
    assert(x / top == y / top);
    lemma_group(x, y, 0x100000000000000000000, 0x10000);
    lemma_group(x, y, 0x10000000000000000, 0x10000);
    lemma_group(x, y, 0x1000000000000, 0x10000);
    lemma_group(x, y, 1, 0x1000000000000);
}

proof fn lemma_bounds()
    ensures
        hex_bound(4) == 0x10000,
        hex_bound(8) == 0x100000000,
        hex_bound(12) == 0x1000000000000,
{
    reveal_with_fuel(hex_bound, 13);
}

/// What is above a group and the group itself tell the number from the group on.
proof fn lemma_group(x: nat, y: nat, d: nat, m: nat)
    requires
        0 < d,
        0 < m,
        x / (d * m) == y / (d * m),
        (x / d) % m == (y / d) % m,
    ensures
        x / d == y / d,
{
    lemma_div_denominator(x as int, d as int, m as int);
    lemma_div_denominator(y as int, d as int, m as int);
    lemma_fundamental_div_mod((x / d) as int, m as int);
    lemma_fundamental_div_mod((y / d) as int, m as int);
}

/// The groups of a text, by their places.
proof fn lemma_groups(value: nat)
    ensures
        ({
            let text = hyphenated(value);
            &&& text.subrange(0, 8) == hex(value / 0x1000000000000000000000000, 8)
            &&& text.subrange(9, 13) == hex(value / 0x100000000000000000000, 4)
            &&& text.subrange(14, 18) == hex(value / 0x10000000000000000, 4)
            &&& text.subrange(19, 23) == hex(value / 0x1000000000000, 4)
            &&& text.subrange(24, 36) == hex(value, 12)
        }),
{
    lemma_hex_len(value / 0x1000000000000000000000000, 8);
    lemma_hex_len(value / 0x100000000000000000000, 4);
    lemma_hex_len(value / 0x10000000000000000, 4);
    lemma_hex_len(value / 0x1000000000000, 4);
    lemma_hex_len(value, 12);
    let text = hyphenated(value);
    assert(text.subrange(0, 8) =~= hex(value / 0x1000000000000000000000000, 8));
    assert(text.subrange(9, 13) =~= hex(value / 0x100000000000000000000, 4));
    assert(text.subrange(14, 18) =~= hex(value / 0x10000000000000000, 4));
    assert(text.subrange(19, 23) =~= hex(value / 0x1000000000000, 4));
    assert(text.subrange(24, 36) =~= hex(value, 12));
}

/// The text of an identifier has 36 characters.
pub proof fn lemma_text_len(id: Uuid)
    ensures
        id.text().len() == 36,
{
    let value = id.number() as nat;
    lemma_hex_len(value / 0x1000000000000000000000000, 8);
    lemma_hex_len(value / 0x100000000000000000000, 4);
    lemma_hex_len(value / 0x10000000000000000, 4);
    lemma_hex_len(value / 0x1000000000000, 4);
    lemma_hex_len(value, 12);
}

} // verus!
