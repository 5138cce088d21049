//! Text built and read character by character.
use vstd::prelude::*;
use vstd::utf8::{decode_utf8, encode_utf8, valid_utf8};

verus! {

/// `String::push` appends one character.
pub assume_specification[ String::push ](text: &mut String, c: char)
    ensures
        final(text)@ == old(text)@.push(c),
;

/// `String::push_str` appends a whole string slice.
pub assume_specification[ String::push_str ](text: &mut String, part: &str)
    ensures
        final(text)@ == old(text)@ + part@,
;

/// Whether a character has the Unicode property `White_Space`: the tab, the line feed, the
/// vertical tab, the form feed, the carriage return, the space, and what follows beyond ASCII.
pub open spec fn white_space(c: char) -> bool {
    let code = c as u32;
    ||| 0x09 <= code <= 0x0d
    ||| code == 0x20
    ||| code == 0x85
    ||| code == 0xa0
    ||| code == 0x1680
    ||| 0x2000 <= code <= 0x200a
    ||| code == 0x2028
    ||| code == 0x2029
    ||| code == 0x202f
    ||| code == 0x205f
    ||| code == 0x3000
}

/// `char::is_whitespace` answers whether a character has the Unicode property `White_Space`.
pub assume_specification[ char::is_whitespace ](c: char) -> (r: bool)
    ensures
        r == white_space(c),
;

/// The Unicode general category `Cc`: the two ranges of control codes.
pub open spec fn control(c: char) -> bool {
    c as u32 <= 0x1f || 0x7f <= c as u32 <= 0x9f
}

/// `char::is_control` answers membership of the general category `Cc`.
pub assume_specification[ char::is_control ](c: char) -> (r: bool)
    ensures
        r == control(c),
;

/// The decimal digit of a value below ten.
pub open spec fn digit_char(d: int) -> char {
    (('0' as u32) + d) as char
}

/// Decimal notation without leading zeros.
pub open spec fn decimal(n: nat) -> Seq<char>
    decreases n,
{
    if n < 10 {
        seq![digit_char(n as int)]
    } else {
        decimal(n / 10).push(digit_char((n % 10) as int))
    }
}

pub(crate) fn digit_of(d: u64) -> (c: char)
    requires
        d < 10,
    ensures
        c == digit_char(d as int),
{
    match d {
        0 => '0',
        1 => '1',
        2 => '2',
        3 => '3',
        4 => '4',
        5 => '5',
        6 => '6',
        7 => '7',
        8 => '8',
        _ => '9',
    }
}

/// Appends the decimal notation of a number.
pub fn push_decimal(text: &mut String, n: u64)
    ensures
        final(text)@ == old(text)@ + decimal(n as nat),
    decreases n,
{
    if n < 10 {
        text.push(digit_of(n));
        assert(text@ =~= old(text)@ + decimal(n as nat));
    } else {
        push_decimal(text, n / 10);
        text.push(digit_of(n % 10));
        assert(text@ =~= old(text)@ + decimal(n as nat));
    }
}

/// The lower-case hexadecimal digit of a value below sixteen.
pub open spec fn hex_char(d: int) -> char {
    if d < 10 {
        digit_char(d)
    } else {
        (('a' as u32) + (d - 10)) as char
    }
}

/// The last `width` hexadecimal digits of a number.
pub open spec fn hex(n: nat, width: nat) -> Seq<char>
    decreases width,
{
    if width == 0 {
        Seq::empty()
    } else {
        hex(n / 16, (width - 1) as nat).push(hex_char((n % 16) as int))
    }
}

pub proof fn lemma_hex_len(n: nat, width: nat)
    ensures
        hex(n, width).len() == width,
    decreases width,
{
    if width > 0 {
        lemma_hex_len(n / 16, (width - 1) as nat);
    }
}

fn hex_digit_of(d: u64) -> (c: char)
    requires
        d < 16,
    ensures
        c == hex_char(d as int),
{
    match d {
        10 => 'a',
        11 => 'b',
        12 => 'c',
        13 => 'd',
        14 => 'e',
        15 => 'f',
        _ => digit_of(d),
    }
}

/// Appends the last `width` hexadecimal digits of a number.
pub fn push_hex(text: &mut String, n: u64, width: u64)
    ensures
        final(text)@ == old(text)@ + hex(n as nat, width as nat),
    decreases width,
{
    if width > 0 {
        push_hex(text, n / 16, width - 1);
        text.push(hex_digit_of(n % 16));
    }
    assert(text@ =~= old(text)@ + hex(n as nat, width as nat));
}

/// How many numbers have a number of hexadecimal digits.
pub open spec fn hex_bound(width: nat) -> nat
    decreases width,
{
    if width == 0 {
        1
    } else {
        16 * hex_bound((width - 1) as nat)
    }
}

/// Sixteen hexadecimal digits are 64 bits.
pub proof fn lemma_hex_bound()
    ensures
        hex_bound(16) == 0x1_0000_0000_0000_0000,
{
    reveal_with_fuel(hex_bound, 17);
}

proof fn lemma_hex_bound_grows(a: nat, b: nat)
    requires
        a <= b,
    ensures
        0 < hex_bound(a) <= hex_bound(b),
    decreases b,
{
    if a < b {
        lemma_hex_bound_grows(a, (b - 1) as nat);
    } else if a > 0 {
        lemma_hex_bound_grows((a - 1) as nat, (b - 1) as nat);
    }
}

/// Every character of hexadecimal notation is a hexadecimal digit.
proof fn lemma_hex_digits(n: nat, width: nat, i: int)
    requires
        0 <= i < width,
    ensures
        exists|d: int| 0 <= d < 16 && hex(n, width)[i] == #[trigger] hex_char(d),
    decreases width,
{
    lemma_hex_len(n / 16, (width - 1) as nat);
    if i < width - 1 {
        lemma_hex_digits(n / 16, (width - 1) as nat, i);
    } else {
        assert(hex(n, width)[i] == hex_char((n % 16) as int));
    }
}

/// Numbers of so many digits are told apart by their notation.
pub proof fn lemma_hex_tells_apart(a: nat, b: nat, width: nat)
    requires
        a < hex_bound(width),
        b < hex_bound(width),
        hex(a, width) == hex(b, width),
    ensures
        a == b,
    decreases width,
{
    if width > 0 {
        let less = (width - 1) as nat;
        let x = hex(a / 16, less);
        let y = hex(b / 16, less);
        assert(hex(a, width).drop_last() =~= x);
        assert(hex(b, width).drop_last() =~= y);
        assert(hex(a, width).last() == hex_char((a % 16) as int));
        assert(hex(b, width).last() == hex_char((b % 16) as int));
        lemma_hex_tells_apart(a / 16, b / 16, less);
    }
}

fn hex_value(c: char) -> (r: Option<u64>)
    ensures
        match r {
            Some(d) => d < 16 && c == hex_char(d as int),
            None => forall|d: int| 0 <= d < 16 ==> c != #[trigger] hex_char(d),
        },
{
    if '0' <= c && c <= '9' {
        Some(c as u64 - '0' as u64)
    } else if 'a' <= c && c <= 'f' {
        Some(c as u64 - 'a' as u64 + 10)
    } else {
        None
    }
}

/// Reads sixteen hexadecimal digits.
pub fn read_hex(chars: &Vec<char>, from: usize) -> (r: Option<u64>)
    requires
        from + 16 <= chars.len(),
    ensures
        match r {
            Some(n) => hex(n as nat, 16) == chars@.subrange(from as int, from + 16),
            None => forall|n: nat| #[trigger] hex(n, 16) != chars@.subrange(from as int, from + 16),
        },
{
    let mut n: u64 = 0;
    let mut k: usize = 0;
    while k < 16
        invariant
            k <= 16,
            from + 16 <= chars.len(),
            n < hex_bound(k as nat),
            hex(n as nat, k as nat) == chars@.subrange(from as int, from + k),
        decreases 16 - k,
    {
        let digit = match hex_value(chars[from + k]) {
            Some(digit) => digit,
            None => {
                proof {
                    let all = chars@.subrange(from as int, from + 16);
                    assert forall|m: nat| #[trigger] hex(m, 16) != all by {
                        lemma_hex_digits(m, 16, k as int);
                        assert(all[k as int] == chars@[from + k]);
                    }
                }
                return None;
            },
        };
        proof {
            lemma_hex_bound();
            lemma_hex_bound_grows(k as nat + 1, 16);
            assert(chars@.subrange(from as int, from + k + 1) =~= chars@.subrange(
                from as int,
                from + k,
            ).push(chars@[from + k]));
        }
        let next: u64 = n * 16 + digit;
        proof {
            assert(next / 16 == n && next % 16 == digit);
        }
        n = next;
        k += 1;
    }
    Some(n)
}

/// Whether a text holds nothing but white space.
pub open spec fn blank(text: Seq<char>) -> bool {
    forall|i: int| 0 <= i < text.len() ==> white_space(#[trigger] text[i])
}

/// Whether a text holds a control character.
pub open spec fn controlled(text: Seq<char>) -> bool {
    exists|i: int| 0 <= i < text.len() && control(#[trigger] text[i])
}

pub fn is_blank(text: &str) -> (r: bool)
    ensures
        r == blank(text@),
{
    for c in chars: text.chars()
        invariant
            chars.seq() == text@,
            forall|i: int| 0 <= i < chars.index() ==> white_space(#[trigger] text@[i]),
    {
        if !c.is_whitespace() {
            assert(!white_space(text@[chars.index()]));
            return false;
        }
    }
    true
}

pub fn has_control(text: &str) -> (r: bool)
    ensures
        r == controlled(text@),
{
    for c in chars: text.chars()
        invariant
            chars.seq() == text@,
            forall|i: int| 0 <= i < chars.index() ==> !control(#[trigger] text@[i]),
    {
        if c.is_control() {
            assert(control(text@[chars.index()]));
            return true;
        }
    }
    false
}

/// The number of bytes of a text.
pub fn byte_len(text: &str) -> (r: usize)
    ensures
        r == encode_utf8(text@).len(),
{
    text.as_bytes().len()
}

/// Whether two byte strings agree up to an index, where the first ends or has the
/// smaller byte.
pub open spec fn precedes_at(a: Seq<u8>, b: Seq<u8>, k: int) -> bool {
    &&& 0 <= k <= a.len()
    &&& k < b.len()
    &&& forall|j: int| 0 <= j < k ==> a[j] == b[j]
    &&& k == a.len() || a[k] < b[k]
}

/// The order of byte strings: that of a dictionary.
pub open spec fn bytes_precede(a: Seq<u8>, b: Seq<u8>) -> bool {
    exists|k: int| precedes_at(a, b, k)
}

/// The order of texts: that of their bytes.
pub open spec fn text_precedes(a: Seq<char>, b: Seq<char>) -> bool {
    bytes_precede(encode_utf8(a), encode_utf8(b))
}

/// Texts with the same bytes are the same.
pub proof fn lemma_same_bytes(a: Seq<char>, b: Seq<char>)
    requires
        encode_utf8(a) == encode_utf8(b),
    ensures
        a == b,
{
    vstd::utf8::encode_utf8_decode_utf8(a);
    vstd::utf8::encode_utf8_decode_utf8(b);
}

/// Of two different texts exactly one comes first.
pub proof fn lemma_text_precedes_total(a: Seq<char>, b: Seq<char>)
    ensures
        !text_precedes(a, a),
        text_precedes(a, b) ==> !text_precedes(b, a),
        a != b ==> text_precedes(a, b) || text_precedes(b, a),
{
    let x = encode_utf8(a);
    let y = encode_utf8(b);
    assert(!text_precedes(a, a));
    if bytes_precede(x, y) && bytes_precede(y, x) {
        let i = choose|k: int| precedes_at(x, y, k);
        let j = choose|k: int| precedes_at(y, x, k);
        assert(false);
    }
    if a != b {
        if x == y {
            lemma_same_bytes(a, b);
        }
        lemma_bytes_differ(x, y, 0);
    }
}

/// The first bytes of a text that begins with ASCII characters.
proof fn lemma_ascii_bytes(text: Seq<char>, k: int)
    requires
        0 <= k < text.len(),
        forall|j: int| 0 <= j <= k ==> (#[trigger] text[j]) as u32 <= 127,
    ensures
        encode_utf8(text).len() > k,
        forall|j: int| 0 <= j <= k ==> #[trigger] encode_utf8(text)[j] == text[j] as u32 as u8,
    decreases k,
{
    let c = text[0] as u32;
    let rest = text.drop_first();
    assert((c & 0x7F) as u8 == c as u8) by (bit_vector)
        requires
            c <= 127,
    ;
    assert(vstd::utf8::encode_scalar(c) == seq![c as u8]);
    assert(encode_utf8(text) == seq![c as u8] + encode_utf8(rest));
    if k > 0 {
        assert forall|j: int| 0 <= j <= k - 1 implies (#[trigger] rest[j]) as u32 <= 127 by {
            assert(rest[j] == text[j + 1]);
        }
        lemma_ascii_bytes(rest, k - 1);
        assert forall|j: int| 0 <= j <= k implies #[trigger] encode_utf8(text)[j]
            == text[j] as u32 as u8 by {
            if j > 0 {
                assert(encode_utf8(text)[j] == encode_utf8(rest)[j - 1]);
                assert(rest[j - 1] == text[j]);
            }
        }
    }
}

/// Of two texts that agree up to an index, in ASCII, the one with the smaller character there
/// comes first.
pub proof fn lemma_ascii_precedes(a: Seq<char>, b: Seq<char>, k: int)
    requires
        0 <= k < a.len(),
        k < b.len(),
        forall|j: int| 0 <= j < k ==> a[j] == b[j],
        forall|j: int| 0 <= j <= k ==> (#[trigger] a[j]) as u32 <= 127,
        (a[k] as u32) < (b[k] as u32) <= 127,
    ensures
        text_precedes(a, b),
{
    assert forall|j: int| 0 <= j <= k implies (#[trigger] b[j]) as u32 <= 127 by {
        if j < k {
            assert(a[j] as u32 <= 127);
        }
    }
    lemma_ascii_bytes(a, k);
    lemma_ascii_bytes(b, k);
    let x = encode_utf8(a);
    let y = encode_utf8(b);
    assert forall|j: int| 0 <= j < k implies x[j] == y[j] by {
        assert(x[j] == a[j] as u32 as u8);
        assert(y[j] == b[j] as u32 as u8);
    }
    assert(x[k] == a[k] as u32 as u8);
    assert(y[k] == b[k] as u32 as u8);
    assert(precedes_at(x, y, k));
}

proof fn lemma_bytes_differ(x: Seq<u8>, y: Seq<u8>, k: int)
    requires
        0 <= k <= x.len(),
        k <= y.len(),
        forall|j: int| 0 <= j < k ==> x[j] == y[j],
        x != y,
    ensures
        bytes_precede(x, y) || bytes_precede(y, x),
    decreases x.len() - k,
{
    if k == x.len() {
        if k == y.len() {
            assert(x =~= y);
        }
        assert(precedes_at(x, y, k));
    } else if k == y.len() {
        assert(precedes_at(y, x, k));
    } else if x[k] < y[k] {
        assert(precedes_at(x, y, k));
    } else if y[k] < x[k] {
        assert(precedes_at(y, x, k));
    } else {
        lemma_bytes_differ(x, y, k + 1);
    }
}

pub proof fn lemma_text_precedes_transitive(a: Seq<char>, b: Seq<char>, c: Seq<char>)
    requires
        text_precedes(a, b),
        text_precedes(b, c),
    ensures
        text_precedes(a, c),
{
    let x = encode_utf8(a);
    let y = encode_utf8(b);
    let z = encode_utf8(c);
    let i = choose|k: int| precedes_at(x, y, k);
    let j = choose|k: int| precedes_at(y, z, k);
    if i < j {
        assert(precedes_at(x, z, i));
    } else {
        assert(precedes_at(x, z, j));
    }
}

/// How two texts compare.
#[derive(Clone, Copy, Debug, PartialEq, Eq, Structural)]
pub enum TextOrder {
    Before,
    Same,
    After,
}

/// Compares two texts.
pub fn text_order(a: &str, b: &str) -> (r: TextOrder)
    ensures
        r == TextOrder::Before <==> text_precedes(a@, b@),
        r == TextOrder::Same <==> a@ == b@,
        r == TextOrder::After <==> text_precedes(b@, a@),
{
    let x = a.as_bytes();
    let y = b.as_bytes();
    proof {
        lemma_text_precedes_total(a@, b@);
        lemma_text_precedes_total(b@, a@);
    }
    let mut k: usize = 0;
    while k < x.len() && k < y.len()
        invariant
            k <= x.len(),
            k <= y.len(),
            x@ == encode_utf8(a@),
            y@ == encode_utf8(b@),
            text_precedes(a@, b@) ==> !text_precedes(b@, a@),
            !text_precedes(a@, a@),
            forall|j: int| 0 <= j < k ==> x@[j] == y@[j],
        decreases x.len() - k,
    {
        if x[k] < y[k] {
            assert(precedes_at(x@, y@, k as int));
            return TextOrder::Before;
        }
        if x[k] > y[k] {
            assert(precedes_at(y@, x@, k as int));
            return TextOrder::After;
        }
        k += 1;
    }
    if x.len() == y.len() {
        assert(x@ =~= y@);
        proof {
            lemma_same_bytes(a@, b@);
        }
        TextOrder::Same
    } else if x.len() < y.len() {
        assert(precedes_at(x@, y@, k as int));
        TextOrder::Before
    } else {
        assert(precedes_at(y@, x@, k as int));
        TextOrder::After
    }
}

/// Whether two texts are the same.
pub fn same_text(a: &str, b: &str) -> (r: bool)
    ensures
        r == (a@ == b@),
{
    text_order(a, b) == TextOrder::Same
}

/// Whether a text comes first.
pub fn text_before(a: &str, b: &str) -> (r: bool)
    ensures
        r == text_precedes(a@, b@),
{
    text_order(a, b) == TextOrder::Before
}

/// Appends the decimal notation of a wide number.
pub fn push_wide(text: &mut String, n: u128)
    ensures
        final(text)@ == old(text)@ + decimal(n as nat),
    decreases n,
{
    if n < 10 {
        text.push(digit_of(n as u64));
    } else {
        push_wide(text, n / 10);
        text.push(digit_of((n % 10) as u64));
    }
    assert(text@ =~= old(text)@ + decimal(n as nat));
}

/// Decimal notation with a sign where it is negative.
pub open spec fn signed_decimal(n: int) -> Seq<char> {
    if n < 0 {
        "-"@ + decimal((-n) as nat)
    } else {
        decimal(n as nat)
    }
}

/// Appends the decimal notation of a number with its sign.
pub fn push_signed(text: &mut String, n: i128)
    ensures
        final(text)@ == old(text)@ + signed_decimal(n as int),
{
    if n < 0 {
        let size: u128 = (-(n + 1)) as u128 + 1;
        text.push_str("-");
        push_wide(text, size);
        assert(text@ =~= old(text)@ + signed_decimal(n as int));
    } else {
        push_wide(text, n as u128);
    }
}

/// The notation of a text that programmers use, with quotation marks and escapes.
pub uninterp spec fn debug_text(text: Seq<char>) -> Seq<char>;

/// The `Debug` form of a string slice is a function of the text alone.
#[verifier::external_body]
pub(crate) fn debug_of(text: &str) -> (r: String)
    ensures
        r@ == debug_text(text@),
{
    format!("{text:?}")
}

/// The characters of a text.
pub fn chars_of(text: &str) -> (r: Vec<char>)
    ensures
        r@ == text@,
{
    let mut all: Vec<char> = Vec::new();
    for c in chars: text.chars()
        invariant
            chars.seq() == text@,
            all@ == text@.subrange(0, chars.index() as int),
    {
        all.push(c);
        assert(all@ =~= text@.subrange(0, chars.index() + 1));
    }
    assert(all@ =~= text@);
    all
}

/// The text of some characters.
pub fn string_of(chars: &Vec<char>, from: usize, to: usize) -> (r: String)
    requires
        from <= to <= chars.len(),
    ensures
        r@ == chars@.subrange(from as int, to as int),
{
    let mut text = String::new();
    let mut i: usize = from;
    assert(text@ =~= chars@.subrange(from as int, from as int));
    while i < to
        invariant
            from <= i <= to <= chars.len(),
            text@ == chars@.subrange(from as int, i as int),
        decreases to - i,
    {
        text.push(chars[i]);
        i += 1;
        assert(text@ =~= chars@.subrange(from as int, i as int));
    }
    text
}

/// Whether a character is a decimal digit.
pub open spec fn is_digit(c: char) -> bool {
    '0' <= c <= '9'
}

/// The value of a decimal digit.
pub open spec fn digit_value(c: char) -> int {
    c as u32 - '0' as u32
}

/// The number that some digits spell.
pub open spec fn digits_value(digits: Seq<char>) -> int
    decreases digits.len(),
{
    if digits.len() == 0 {
        0
    } else {
        digits_value(digits.drop_last()) * 10 + digit_value(digits.last())
    }
}

/// Whether all characters are digits.
pub open spec fn all_digits(digits: Seq<char>) -> bool {
    forall|i: int| 0 <= i < digits.len() ==> is_digit(#[trigger] digits[i])
}

/// Decimal notation is made of digits that spell the number.
pub proof fn lemma_decimal(n: nat)
    ensures
        decimal(n).len() > 0,
        all_digits(decimal(n)),
        digits_value(decimal(n)) == n,
    decreases n,
{
    if n < 10 {
        assert(decimal(n).drop_last() =~= Seq::<char>::empty());
        assert(digits_value(decimal(n).drop_last()) == 0);
    } else {
        lemma_decimal(n / 10);
        assert(decimal(n).drop_last() =~= decimal(n / 10));
        assert forall|i: int| 0 <= i < decimal(n).len() implies is_digit(
            #[trigger] decimal(n)[i],
        ) by {
            if i < decimal(n).len() - 1 {
                assert(decimal(n)[i] == decimal(n / 10)[i]);
            }
        }
    }
}

pub proof fn lemma_digits_grow(digits: Seq<char>, i: int)
    requires
        all_digits(digits),
        0 <= i <= digits.len(),
    ensures
        0 <= digits_value(digits.subrange(0, i)) <= digits_value(digits),
    decreases digits.len(),
{
    let rest = digits.subrange(0, i);
    if i == digits.len() {
        assert(rest =~= digits);
        if digits.len() > 0 {
            let before = digits.drop_last();
            assert forall|k: int| 0 <= k < before.len() implies is_digit(#[trigger] before[k]) by {
                assert(before[k] == digits[k]);
            }
            lemma_digits_grow(before, before.len() as int);
            assert(before.subrange(0, before.len() as int) =~= before);
        }
    } else {
        let before = digits.drop_last();
        assert forall|k: int| 0 <= k < before.len() implies is_digit(#[trigger] before[k]) by {
            assert(before[k] == digits[k]);
        }
        lemma_digits_grow(before, i);
        assert(before.subrange(0, i) =~= rest);
        assert(is_digit(digits[digits.len() - 1]));
    }
}

/// The number that a decimal notation without leading zeros spells.
pub fn parse_decimal(text: &str) -> (r: Option<u64>)
    ensures
        match r {
            Some(n) => text@ == decimal(n as nat),
            None => forall|n: nat| n <= u64::MAX ==> text@ != #[trigger] decimal(n),
        },
{
    let chars = chars_of(text);
    let mut n: u64 = 0;
    let mut i: usize = 0;
    assert(digits_value(chars@.subrange(0, 0)) == 0);
    while i < chars.len()
        invariant
            i <= chars.len(),
            chars@ == text@,
            n == digits_value(chars@.subrange(0, i as int)),
        decreases chars.len() - i,
    {
        let c = chars[i];
        let ghost upto = chars@.subrange(0, i + 1);
        assert(upto.drop_last() =~= chars@.subrange(0, i as int));
        assert(upto.last() == c);
        if c < '0' || c > '9' {
            assert forall|m: nat| m <= u64::MAX implies text@ != #[trigger] decimal(m) by {
                lemma_decimal(m);
                if text@ == decimal(m) {
                    assert(is_digit(text@[i as int]));
                }
            }
            return None;
        }
        let d: u64 = (c as u32 - '0' as u32) as u64;
        let ghost value = digits_value(upto);
        assert(value == n * 10 + d);
        if n > (u64::MAX - d) / 10 {
            assert forall|m: nat| m <= u64::MAX implies text@ != #[trigger] decimal(m) by {
                lemma_decimal(m);
                if text@ == decimal(m) {
                    lemma_digits_grow(text@, i + 1);
                    assert(n * 10 + d <= u64::MAX);
                }
            }
            return None;
        }
        n = n * 10 + d;
        i += 1;
    }
    assert(chars@.subrange(0, chars.len() as int) =~= text@);
    let mut again = String::new();
    push_decimal(&mut again, n);
    assert(again@ =~= decimal(n as nat));
    if same_text(again.as_str(), text) {
        Some(n)
    } else {
        assert forall|m: nat| m <= u64::MAX implies text@ != #[trigger] decimal(m) by {
            lemma_decimal(m);
        }
        None
    }
}

/// The lower-case form of an ASCII letter; other characters stay.
pub open spec fn ascii_lower(c: char) -> char {
    if 'A' <= c <= 'Z' {
        ((c as u32) + 32) as char
    } else {
        c
    }
}

/// `char::to_ascii_lowercase` maps the 26 ASCII capitals to their lower-case letters.
pub assume_specification[ char::to_ascii_lowercase ](c: &char) -> (r: char)
    ensures
        r == ascii_lower(*c),
;

/// The lower-case form of the ASCII letters of a text.
pub open spec fn lowered(text: Seq<char>) -> Seq<char> {
    text.map_values(|c: char| ascii_lower(c))
}

/// The lower-case form of the ASCII letters of some characters.
pub fn lower_chars(chars: &Vec<char>) -> (r: Vec<char>)
    ensures
        r@ == lowered(chars@),
{
    let mut low: Vec<char> = Vec::new();
    let mut i: usize = 0;
    while i < chars.len()
        invariant
            i <= chars.len(),
            low@ == lowered(chars@).subrange(0, i as int),
        decreases chars.len() - i,
    {
        low.push(chars[i].to_ascii_lowercase());
        i += 1;
        assert(low@ =~= lowered(chars@).subrange(0, i as int));
    }
    assert(low@ =~= lowered(chars@));
    low
}

/// Whether a text occurs at an index.
pub open spec fn occurs_at(text: Seq<char>, part: Seq<char>, i: int) -> bool {
    0 <= i && i + part.len() <= text.len() && text.subrange(i, i + part.len()) == part
}

/// Whether a text occurs somewhere.
pub open spec fn occurs(text: Seq<char>, part: Seq<char>) -> bool {
    exists|i: int| occurs_at(text, part, i)
}

/// Whether some characters stand at an index.
pub fn chars_at(text: &Vec<char>, part: &Vec<char>, i: usize) -> (r: bool)
    ensures
        r == occurs_at(text@, part@, i as int),
{
    if i > text.len() || part.len() > text.len() - i {
        return false;
    }
    let mut j: usize = 0;
    while j < part.len()
        invariant
            j <= part.len(),
            i + part.len() <= text.len(),
            forall|k: int| 0 <= k < j ==> text@[i + k] == part@[k],
        decreases part.len() - j,
    {
        if text[i + j] != part[j] {
            assert(text@.subrange(i as int, i + part@.len())[j as int] != part@[j as int]);
            return false;
        }
        j += 1;
    }
    assert(text@.subrange(i as int, i + part@.len()) =~= part@);
    true
}

/// The place where some characters first stand at or after an index.
pub fn find_chars(text: &Vec<char>, part: &Vec<char>, from: usize) -> (r: Option<usize>)
    ensures
        match r {
            Some(i) => from <= i && occurs_at(text@, part@, i as int) && forall|k: int|
                from <= k < i ==> !#[trigger] occurs_at(text@, part@, k),
            None => forall|k: int| from <= k ==> !#[trigger] occurs_at(text@, part@, k),
        },
{
    let mut i: usize = from;
    while i < text.len()
        invariant
            from <= i,
            forall|k: int| from <= k < i ==> !#[trigger] occurs_at(text@, part@, k),
        decreases text.len() - i,
    {
        if chars_at(text, part, i) {
            return Some(i);
        }
        i += 1;
    }
    if i == text.len() && part.len() == 0 {
        assert(occurs_at(text@, part@, i as int)) by {
            assert(text@.subrange(i as int, i as int) =~= part@);
        }
        return Some(i);
    }
    None
}

/// Whether a text begins with another.
pub open spec fn begins_with(text: Seq<char>, prefix: Seq<char>) -> bool {
    occurs_at(text, prefix, 0)
}

pub fn has_prefix(text: &str, prefix: &str) -> (r: bool)
    ensures
        r == begins_with(text@, prefix@),
{
    let all = chars_of(text);
    let part = chars_of(prefix);
    chars_at(&all, &part, 0)
}

/// The index of the first character that is no white space.
pub open spec fn content_start(text: Seq<char>) -> int
    decreases text.len(),
{
    if text.len() == 0 || !white_space(text[0]) {
        0
    } else {
        1 + content_start(text.drop_first())
    }
}

/// The index behind the last character that is no white space.
pub open spec fn content_end(text: Seq<char>) -> int
    decreases text.len(),
{
    if text.len() == 0 || !white_space(text.last()) {
        text.len() as int
    } else {
        content_end(text.drop_last())
    }
}

/// The text without white space at its start.
pub open spec fn trimmed_start(text: Seq<char>) -> Seq<char> {
    text.subrange(content_start(text), text.len() as int)
}

pub proof fn lemma_content_start(text: Seq<char>, k: int)
    requires
        0 <= k <= text.len(),
        forall|i: int| 0 <= i < k ==> white_space(#[trigger] text[i]),
        k == text.len() || !white_space(text[k]),
    ensures
        content_start(text) == k,
    decreases text.len(),
{
    if k > 0 {
        let rest = text.drop_first();
        assert(white_space(text[0]));
        assert forall|i: int| 0 <= i < k - 1 implies white_space(#[trigger] rest[i]) by {
            assert(rest[i] == text[i + 1]);
        }
        lemma_content_start(rest, k - 1);
    }
}

/// The index of the first character that is no white space.
pub fn find_content(text: &Vec<char>) -> (r: usize)
    ensures
        r == content_start(text@),
        r <= text.len(),
{
    let mut k: usize = 0;
    while k < text.len() && text[k].is_whitespace()
        invariant
            k <= text.len(),
            forall|i: int| 0 <= i < k ==> white_space(#[trigger] text@[i]),
        decreases text.len() - k,
    {
        k += 1;
    }
    proof {
        lemma_content_start(text@, k as int);
    }
    k
}

/// Where the white space at the end of a text begins.
pub proof fn lemma_content_end(text: Seq<char>, k: int)
    requires
        0 <= k <= text.len(),
        forall|i: int| k <= i < text.len() ==> white_space(#[trigger] text[i]),
        k == 0 || !white_space(text[k - 1]),
    ensures
        content_end(text) == k,
    decreases text.len(),
{
    if k < text.len() {
        let rest = text.drop_last();
        assert forall|i: int| k <= i < rest.len() implies white_space(#[trigger] rest[i]) by {
            assert(rest[i] == text[i]);
        }
        assert(white_space(text[text.len() - 1]));
        if k > 0 {
            assert(rest[k - 1] == text[k - 1]);
        }
        lemma_content_end(rest, k);
    }
}

pub fn find_content_end(text: &Vec<char>) -> (r: usize)
    ensures
        r == content_end(text@),
        r <= text.len(),
{
    let mut k: usize = text.len();
    while k > 0 && text[k - 1].is_whitespace()
        invariant
            k <= text.len(),
            forall|i: int| k <= i < text.len() ==> white_space(#[trigger] text@[i]),
        decreases k,
    {
        k -= 1;
    }
    proof {
        lemma_content_end(text@, k as int);
    }
    k
}

/// A text without the white space around it.
pub open spec fn trimmed(text: Seq<char>) -> Seq<char> {
    let rest = text.subrange(content_start(text), text.len() as int);
    rest.subrange(0, content_end(rest))
}

/// The characters from one index to another.
pub fn chars_between(chars: &Vec<char>, from: usize, to: usize) -> (r: Vec<char>)
    requires
        from <= to <= chars.len(),
    ensures
        r@ == chars@.subrange(from as int, to as int),
{
    let mut part: Vec<char> = Vec::new();
    let mut i: usize = from;
    assert(part@ =~= chars@.subrange(from as int, from as int));
    while i < to
        invariant
            from <= i <= to <= chars.len(),
            part@ == chars@.subrange(from as int, i as int),
        decreases to - i,
    {
        part.push(chars[i]);
        i += 1;
        assert(part@ =~= chars@.subrange(from as int, i as int));
    }
    part
}

pub fn trim_chars(chars: &Vec<char>) -> (r: Vec<char>)
    ensures
        r@ == trimmed(chars@),
{
    let start = find_content(chars);
    let rest = chars_between(chars, start, chars.len());
    let end = find_content_end(&rest);
    chars_between(&rest, 0, end)
}

/// A text whose first and last characters are not white space is trimmed.
pub proof fn lemma_trimmed(text: Seq<char>)
    requires
        text.len() > 0,
        !white_space(text[0]),
        !white_space(text.last()),
    ensures
        trimmed(text) == text,
{
    assert(text.subrange(0, text.len() as int) =~= text);
}

/// Things that can be copied as a whole.
pub trait Duplicate: Sized {
    fn duplicate(&self) -> (r: Self)
        ensures
            r == *self,
    ;
}

impl Duplicate for String {
    fn duplicate(&self) -> (r: Self) {
        self.clone()
    }
}

/// `core::str::from_utf8` answers with the text that bytes encode exactly when they are
/// valid UTF-8.
#[verifier::external_body]
pub(crate) fn read_utf8(bytes: &[u8]) -> (r: Option<String>)
    ensures
        match r {
            Some(text) => valid_utf8(bytes@) && text@ == decode_utf8(bytes@),
            None => !valid_utf8(bytes@),
        },
{
    core::str::from_utf8(bytes).ok().map(str::to_owned)
}

} // verus!
