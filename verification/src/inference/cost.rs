//! Exact amounts of US dollars.
use crate::text::{
    all_digits, chars_between, chars_of, decimal, digit_char, digit_of, digits_value, is_digit,
    lemma_decimal, lemma_digits_grow, lemma_trimmed, push_wide, string_of, trim_chars, trimmed,
};
use std::str::FromStr;
use vstd::prelude::*;

verus! {

pub const ATTO_USD_PER_USD: u128 = 1_000_000_000_000_000_000;

/// An exact non-negative USD amount with eighteen decimal places of precision.
#[derive(Clone, Copy, Debug, Default, PartialEq, Eq, PartialOrd, Ord, Structural)]
pub struct UsdCost(pub u128);

/// A power of ten.
pub open spec fn pow10(n: nat) -> nat
    decreases n,
{
    if n == 0 {
        1
    } else {
        pow10((n - 1) as nat) * 10
    }
}

/// The digits of a number, with zeros in front up to a width.
pub open spec fn padded(n: nat, width: nat) -> Seq<char>
    decreases width,
{
    if width == 0 {
        Seq::empty()
    } else {
        padded(n / 10, (width - 1) as nat).push(digit_char((n % 10) as int))
    }
}

/// A text without the zeros at its end.
pub open spec fn without_zeros(text: Seq<char>) -> Seq<char>
    decreases text.len(),
{
    if text.len() > 0 && text.last() == '0' {
        without_zeros(text.drop_last())
    } else {
        text
    }
}

/// The decimal notation of an amount: dollars, and as many decimal places as it needs.
pub open spec fn cost_text(attos: nat) -> Seq<char> {
    let dollars = attos / ATTO_USD_PER_USD as nat;
    let rest = attos % ATTO_USD_PER_USD as nat;
    if rest == 0 {
        decimal(dollars)
    } else {
        decimal(dollars) + "."@ + without_zeros(padded(rest, 18))
    }
}

/// The first exponent mark at or after an index, or the end.
pub open spec fn exponent_at(text: Seq<char>, from: int) -> int
    decreases text.len() - from,
{
    if 0 <= from < text.len() && text[from] != 'e' && text[from] != 'E' {
        exponent_at(text, from + 1)
    } else {
        from
    }
}

/// The first decimal point at or after an index, or the end.
pub open spec fn point_at(text: Seq<char>, from: int) -> int
    decreases text.len() - from,
{
    if 0 <= from < text.len() && text[from] != '.' {
        point_at(text, from + 1)
    } else {
        from
    }
}

/// The digits of a number that may have a sign.
pub open spec fn unsigned_part(text: Seq<char>) -> Seq<char> {
    if text.len() > 0 && (text[0] == '-' || text[0] == '+') {
        text.drop_first()
    } else {
        text
    }
}

/// The value of a signed number of 32 bits.
pub open spec fn exponent_value(text: Seq<char>) -> Option<int> {
    let digits = unsigned_part(text);
    let value = if text.len() > 0 && text[0] == '-' {
        -digits_value(digits)
    } else {
        digits_value(digits)
    };
    if digits.len() == 0 || !all_digits(digits) || !(i32::MIN <= value <= i32::MAX) {
        None
    } else {
        Some(value)
    }
}

/// A coefficient times a power of ten, if that is a whole amount in range.
pub open spec fn scaled(coefficient: int, power: int) -> Option<int> {
    if coefficient > u128::MAX || power > 38 || power < -38 {
        None
    } else if power >= 0 {
        let value = coefficient * pow10(power as nat);
        if value <= u128::MAX {
            Some(value)
        } else {
            None
        }
    } else {
        let divisor = pow10((-power) as nat) as int;
        if coefficient % divisor != 0 {
            None
        } else {
            Some(coefficient / divisor)
        }
    }
}

/// The amount that a mantissa with an exponent spells.
pub open spec fn mantissa_value(mantissa: Seq<char>, exponent: int) -> Option<int> {
    if mantissa.len() == 0 || mantissa[0] == '-' {
        None
    } else {
        let number = if mantissa[0] == '+' {
            mantissa.drop_first()
        } else {
            mantissa
        };
        let point = point_at(number, 0);
        let integer = number.subrange(0, point);
        let fraction = if point < number.len() {
            number.subrange(point + 1, number.len() as int)
        } else {
            Seq::empty()
        };
        if integer.len() + fraction.len() == 0 || !all_digits(integer) || !all_digits(fraction) {
            None
        } else {
            scaled(digits_value(integer + fraction), 18 + exponent - fraction.len())
        }
    }
}

/// The amount, in units of the last decimal place, that a text spells.
pub open spec fn cost_value(text: Seq<char>) -> Option<int> {
    let value = trimmed(text);
    let mark = exponent_at(value, 0);
    let exponent = if mark < value.len() {
        exponent_value(value.subrange(mark + 1, value.len() as int))
    } else {
        Some(0)
    };
    match exponent {
        Some(exponent) => mantissa_value(value.subrange(0, mark), exponent),
        None => None,
    }
}

fn find_exponent(text: &Vec<char>) -> (r: usize)
    ensures
        r == exponent_at(text@, 0),
        r <= text.len(),
{
    let mut i: usize = 0;
    while i < text.len()
        invariant_except_break
            i <= text.len(),
            exponent_at(text@, 0) == exponent_at(text@, i as int),
        ensures
            i == exponent_at(text@, 0),
            i <= text.len(),
        decreases text.len() - i,
    {
        if text[i] == 'e' || text[i] == 'E' {
            break;
        }
        i += 1;
    }
    i
}

fn find_point(text: &Vec<char>) -> (r: usize)
    ensures
        r == point_at(text@, 0),
        r <= text.len(),
{
    let mut i: usize = 0;
    while i < text.len()
        invariant_except_break
            i <= text.len(),
            point_at(text@, 0) == point_at(text@, i as int),
        ensures
            i == point_at(text@, 0),
            i <= text.len(),
        decreases text.len() - i,
    {
        if text[i] == '.' {
            break;
        }
        i += 1;
    }
    i
}

fn are_digits(text: &Vec<char>) -> (r: bool)
    ensures
        r == all_digits(text@),
{
    let mut i: usize = 0;
    while i < text.len()
        invariant
            i <= text.len(),
            forall|k: int| 0 <= k < i ==> is_digit(#[trigger] text@[k]),
        decreases text.len() - i,
    {
        if text[i] < '0' || text[i] > '9' {
            assert(!is_digit(text@[i as int]));
            return false;
        }
        i += 1;
    }
    true
}

fn read_digits(digits: &Vec<char>, maximum: u128) -> (r: Option<u128>)
    requires
        all_digits(digits@),
    ensures
        match r {
            Some(value) => value == digits_value(digits@) && value <= maximum,
            None => digits_value(digits@) > maximum,
        },
{
    let mut n: u128 = 0;
    let mut i: usize = 0;
    assert(digits_value(digits@.subrange(0, 0)) == 0);
    while i < digits.len()
        invariant
            i <= digits.len(),
            all_digits(digits@),
            n <= maximum,
            n == digits_value(digits@.subrange(0, i as int)),
        decreases digits.len() - i,
    {
        let c = digits[i];
        let ghost upto = digits@.subrange(0, i + 1);
        assert(upto.drop_last() =~= digits@.subrange(0, i as int));
        assert(upto.last() == c);
        assert(is_digit(digits@[i as int]));
        let d: u128 = (c as u32 - '0' as u32) as u128;
        assert(digits_value(upto) == n * 10 + d);
        if d > maximum || n > (maximum - d) / 10 {
            proof {
                lemma_digits_grow(digits@, i + 1);
                assert(n * 10 + d > maximum);
            }
            return None;
        }
        n = n * 10 + d;
        i += 1;
    }
    assert(digits@.subrange(0, digits.len() as int) =~= digits@);
    Some(n)
}

fn read_exponent(text: &Vec<char>) -> (r: Option<i32>)
    ensures
        match r {
            Some(value) => exponent_value(text@) == Some(value as int),
            None => exponent_value(text@) is None,
        },
{
    if text.len() == 0 {
        return None;
    }
    let negative = text[0] == '-';
    let start: usize = if negative || text[0] == '+' {
        1
    } else {
        0
    };
    let digits = chars_between(text, start, text.len());
    assert(digits@ =~= unsigned_part(text@));
    if digits.len() == 0 || !are_digits(&digits) {
        return None;
    }
    let maximum: u128 = if negative {
        2147483648
    } else {
        2147483647
    };
    match read_digits(&digits, maximum) {
        Some(value) => if negative {
            let signed: i64 = value as i64;
            Some((0 - signed) as i32)
        } else {
            Some(value as i32)
        },
        None => {
            proof {
                lemma_digits_grow(digits@, digits@.len() as int);
            }
            None
        },
    }
}

proof fn lemma_pow10_bound(n: nat)
    ensures
        pow10(n) >= 1,
        n <= 38 ==> pow10(n) <= u128::MAX,
{
    lemma_pow10_positive(n);
    if n <= 38 {
        lemma_pow10_monotone(n, 38);
        assert(pow10(38) == 100_000_000_000_000_000_000_000_000_000_000_000_000) by {
            reveal_with_fuel(pow10, 39);
        }
    }
}

proof fn lemma_pow10_positive(n: nat)
    ensures
        pow10(n) >= 1,
    decreases n,
{
    if n > 0 {
        lemma_pow10_positive((n - 1) as nat);
    }
}

proof fn lemma_pow10_monotone(a: nat, b: nat)
    requires
        a <= b,
    ensures
        pow10(a) <= pow10(b),
    decreases b,
{
    if a < b {
        lemma_pow10_monotone(a, (b - 1) as nat);
        lemma_pow10_positive((b - 1) as nat);
    }
}

fn power_of_ten(n: u32) -> (r: u128)
    requires
        n <= 38,
    ensures
        r == pow10(n as nat),
        r >= 1,
{
    let mut value: u128 = 1;
    let mut i: u32 = 0;
    while i < n
        invariant
            i <= n <= 38,
            value == pow10(i as nat),
        decreases n - i,
    {
        proof {
            lemma_pow10_bound((i + 1) as nat);
        }
        value = value * 10;
        i += 1;
    }
    proof {
        lemma_pow10_positive(n as nat);
    }
    value
}

fn scale(coefficient: u128, power: i128) -> (r: Option<u128>)
    ensures
        match r {
            Some(value) => scaled(coefficient as int, power as int) == Some(value as int),
            None => scaled(coefficient as int, power as int) is None,
        },
{
    if power > 38 || power < -38 {
        return None;
    }
    if power >= 0 {
        let factor = power_of_ten(power as u32);
        match coefficient.checked_mul(factor) {
            Some(value) => Some(value),
            None => None,
        }
    } else {
        let down: i128 = 0 - power;
        let divisor = power_of_ten(down as u32);
        if coefficient % divisor != 0 {
            return None;
        }
        Some(coefficient / divisor)
    }
}

fn read_mantissa(mantissa: &Vec<char>, exponent: i32) -> (r: Option<u128>)
    ensures
        match r {
            Some(value) => mantissa_value(mantissa@, exponent as int) == Some(value as int),
            None => mantissa_value(mantissa@, exponent as int) is None,
        },
{
    if mantissa.len() == 0 || mantissa[0] == '-' {
        return None;
    }
    let start: usize = if mantissa[0] == '+' {
        1
    } else {
        0
    };
    let number = chars_between(mantissa, start, mantissa.len());
    assert(number@ =~= if mantissa@[0] == '+' {
        mantissa@.drop_first()
    } else {
        mantissa@
    });
    let point = find_point(&number);
    let integer = chars_between(&number, 0, point);
    let fraction: Vec<char> = if point < number.len() {
        chars_between(&number, point + 1, number.len())
    } else {
        Vec::new()
    };
    if integer.len() == 0 && fraction.len() == 0 || !are_digits(&integer) || !are_digits(
        &fraction,
    ) {
        return None;
    }
    let mut digits: Vec<char> = integer;
    let mut i: usize = 0;
    assert(digits@ =~= integer@ + fraction@.subrange(0, 0));
    while i < fraction.len()
        invariant
            i <= fraction.len(),
            digits@ == integer@ + fraction@.subrange(0, i as int),
        decreases fraction.len() - i,
    {
        digits.push(fraction[i]);
        i += 1;
        assert(digits@ =~= integer@ + fraction@.subrange(0, i as int));
    }
    assert(digits@ =~= integer@ + fraction@);
    assert forall|k: int| 0 <= k < digits@.len() implies is_digit(#[trigger] digits@[k]) by {
        if k < integer@.len() {
            assert(digits@[k] == integer@[k]);
        } else {
            assert(digits@[k] == fraction@[k - integer@.len()]);
        }
    }
    let coefficient = match read_digits(&digits, u128::MAX) {
        Some(coefficient) => coefficient,
        None => return None,
    };
    let power: i128 = 18 + exponent as i128 - fraction.len() as i128;
    scale(coefficient, power)
}

fn pad_digits(n: u64, width: u32) -> (r: Vec<char>)
    ensures
        r@ == padded(n as nat, width as nat),
    decreases width,
{
    if width == 0 {
        Vec::new()
    } else {
        let mut digits = pad_digits(n / 10, width - 1);
        digits.push(digit_of(n % 10));
        digits
    }
}

fn drop_zeros(text: &Vec<char>) -> (r: usize)
    ensures
        r <= text.len(),
        text@.subrange(0, r as int) == without_zeros(text@),
{
    let mut n: usize = text.len();
    assert(text@.subrange(0, n as int) =~= text@);
    while n > 0 && text[n - 1] == '0'
        invariant
            n <= text.len(),
            without_zeros(text@.subrange(0, n as int)) == without_zeros(text@),
        decreases n,
    {
        assert(text@.subrange(0, n as int).drop_last() =~= text@.subrange(0, n - 1));
        n -= 1;
    }
    n
}

impl UsdCost {
    /// Nothing.
    pub fn zero() -> (r: Self)
        ensures
            r == UsdCost(0),
    {
        UsdCost(0)
    }

    pub fn checked_add(self, other: Self) -> (r: Option<Self>)
        ensures
            r == if self.0 + other.0 <= u128::MAX {
                Some(UsdCost((self.0 + other.0) as u128))
            } else {
                None
            },
    {
        match self.0.checked_add(other.0) {
            Some(value) => Some(UsdCost(value)),
            None => None,
        }
    }

    pub fn checked_sub(self, other: Self) -> (r: Option<Self>)
        ensures
            r == if self.0 >= other.0 {
                Some(UsdCost((self.0 - other.0) as u128))
            } else {
                None
            },
    {
        match self.0.checked_sub(other.0) {
            Some(value) => Some(UsdCost(value)),
            None => None,
        }
    }

    /// The decimal notation of the amount.
    pub fn decimal_string(self) -> (r: String)
        ensures
            r@ == cost_text(self.0 as nat),
    {
        let dollars = self.0 / ATTO_USD_PER_USD;
        let rest = self.0 % ATTO_USD_PER_USD;
        let mut text = String::new();
        push_wide(&mut text, dollars);
        assert(text@ =~= decimal(dollars as nat));
        if rest == 0 {
            return text;
        }
        let digits = pad_digits(rest as u64, 18);
        let kept = drop_zeros(&digits);
        text.push_str(".");
        text.push_str(string_of(&digits, 0, kept).as_str());
        text
    }

    /// The amount with a dollar sign.
    pub fn to_string(&self) -> (r: String)
        ensures
            r@ == "$"@ + cost_text(self.0 as nat),
    {
        let mut text = "$".to_owned();
        text.push_str(self.decimal_string().as_str());
        text
    }

    /// Reads a decimal amount, with or without an exponent.
    pub fn parse(value: &str) -> (r: Result<Self, ()>)
        ensures
            match r {
                Ok(cost) => cost_value(value@) == Some(cost.0 as int),
                Err(_) => cost_value(value@) is None,
            },
    {
        let all = chars_of(value);
        let chars = trim_chars(&all);
        let mark = find_exponent(&chars);
        let exponent: i32 = if mark < chars.len() {
            let part = chars_between(&chars, mark + 1, chars.len());
            match read_exponent(&part) {
                Some(exponent) => exponent,
                None => return Err(()),
            }
        } else {
            0
        };
        let mantissa = chars_between(&chars, 0, mark);
        match read_mantissa(&mantissa, exponent) {
            Some(cost) => Ok(UsdCost(cost)),
            None => Err(()),
        }
    }
}

impl FromStr for UsdCost {
    type Err = ();

    fn from_str(value: &str) -> Result<Self, Self::Err> {
        UsdCost::parse(value)
    }
}

proof fn lemma_digits_concat(a: Seq<char>, b: Seq<char>)
    ensures
        digits_value(a + b) == digits_value(a) * pow10(b.len()) + digits_value(b),
    decreases b.len(),
{
    if b.len() == 0 {
        assert(a + b =~= a);
        lemma_times_one(digits_value(a), b.len());
    } else {
        let c = b.drop_last();
        assert((a + b).drop_last() =~= a + c);
        lemma_digits_concat(a, c);
        let x = digits_value(a);
        let p = pow10(c.len()) as int;
        assert((x * p) * 10 == x * (p * 10)) by (nonlinear_arith);
        assert((a + b).last() == b.last());
        assert(pow10(b.len()) == p * 10);
    }
}

proof fn lemma_times_one(x: int, n: nat)
    requires
        n == 0,
    ensures
        x * pow10(n) == x,
{
    let p = pow10(n) as int;
    assert(p == 1);
    assert(x * p == x) by (nonlinear_arith)
        requires
            p == 1,
    ;
}

proof fn lemma_padded(n: nat, width: nat)
    requires
        n < pow10(width),
    ensures
        padded(n, width).len() == width,
        all_digits(padded(n, width)),
        digits_value(padded(n, width)) == n,
    decreases width,
{
    if width > 0 {
        let before = padded(n / 10, (width - 1) as nat);
        lemma_padded(n / 10, (width - 1) as nat);
        assert(padded(n, width).drop_last() =~= before);
        let all = padded(n, width);
        assert forall|i: int| 0 <= i < all.len() implies is_digit(#[trigger] all[i]) by {
            if i < before.len() {
                assert(all[i] == before[i]);
            }
        }
    }
}

proof fn lemma_without_zeros(text: Seq<char>)
    requires
        all_digits(text),
    ensures
        without_zeros(text).len() <= text.len(),
        all_digits(without_zeros(text)),
        digits_value(text) == digits_value(without_zeros(text)) * pow10(
            (text.len() - without_zeros(text).len()) as nat,
        ),
    decreases text.len(),
{
    if text.len() > 0 && text.last() == '0' {
        let rest = text.drop_last();
        assert forall|i: int| 0 <= i < rest.len() implies is_digit(#[trigger] rest[i]) by {
            assert(rest[i] == text[i]);
        }
        lemma_without_zeros(rest);
        let v = digits_value(without_zeros(rest));
        let k = (rest.len() - without_zeros(rest).len()) as nat;
        let p = pow10(k) as int;
        assert(pow10((text.len() - without_zeros(text).len()) as nat) == p * 10);
        assert((v * p) * 10 == v * (p * 10)) by (nonlinear_arith);
    } else {
        lemma_times_one(digits_value(text), 0);
    }
}

proof fn lemma_no_mark(text: Seq<char>, from: int)
    requires
        0 <= from <= text.len(),
        forall|i: int| from <= i < text.len() ==> #[trigger] text[i] != 'e' && text[i] != 'E',
    ensures
        exponent_at(text, from) == text.len(),
    decreases text.len() - from,
{
    if from < text.len() {
        lemma_no_mark(text, from + 1);
    }
}

proof fn lemma_point(text: Seq<char>, from: int, at: int)
    requires
        0 <= from <= at <= text.len(),
        forall|i: int| from <= i < at ==> #[trigger] text[i] != '.',
        at < text.len() ==> text[at] == '.',
    ensures
        point_at(text, from) == at,
    decreases at - from,
{
    if from < at {
        lemma_point(text, from + 1, at);
    }
}

proof fn lemma_pow10_sum(a: nat, b: nat)
    ensures
        pow10(a + b) == pow10(a) * pow10(b),
    decreases b,
{
    if b > 0 {
        lemma_pow10_sum(a, (b - 1) as nat);
        let x = pow10(a);
        let y = pow10((b - 1) as nat);
        assert((x * y) * 10 == x * (y * 10)) by (nonlinear_arith);
    } else {
        assert(pow10(b) == 1);
    }
}

/// An amount is read back from its notation, to the last decimal place.
pub proof fn law_amounts_are_read_back(cost: UsdCost)
    ensures
        cost_value(cost_text(cost.0 as nat)) == Some(cost.0 as int),
{
    let n = cost.0 as nat;
    let unit = ATTO_USD_PER_USD as nat;
    assert(pow10(18) == unit) by {
        reveal_with_fuel(pow10, 19);
    }
    let dollars = n / unit;
    let rest = n % unit;
    let text = cost_text(n);
    let integer = decimal(dollars);
    lemma_decimal(dollars);
    assert(is_digit(integer[0]) && is_digit(integer[integer.len() - 1]));
    if rest == 0 {
        lemma_trimmed(text);
        assert forall|i: int| 0 <= i < text.len() implies #[trigger] text[i] != 'e' && text[i]
            != 'E' && text[i] != '.' by {
            assert(is_digit(text[i]));
        }
        lemma_no_mark(text, 0);
        assert(text.subrange(0, text.len() as int) =~= text);
        lemma_point(text, 0, text.len() as int);
        assert(text + Seq::<char>::empty() =~= text);
        assert(dollars * unit == n);
        assert(scaled(dollars as int, 18) == Some(n as int));
    } else {
        let digits = padded(rest, 18);
        lemma_padded(rest, 18);
        lemma_without_zeros(digits);
        let fraction = without_zeros(digits);
        assert(fraction.len() > 0) by {
            if fraction.len() == 0 {
                assert(digits_value(fraction) == 0);
                assert(0 * pow10(18) == 0) by (nonlinear_arith);
            }
        }
        reveal_strlit(".");
        assert(text =~= integer.push('.') + fraction);
        let at = integer.len() as int;
        assert(text[at] == '.');
        assert forall|i: int| 0 <= i < text.len() && i != at implies is_digit(
            #[trigger] text[i],
        ) by {
            if i < at {
                assert(text[i] == integer[i]);
            } else if i > at {
                assert(text[i] == fraction[i - at - 1]);
            }
        }
        assert(text[0] == integer[0]);
        assert(text.last() == fraction[fraction.len() - 1]);
        lemma_trimmed(text);
        assert forall|i: int| 0 <= i < text.len() implies #[trigger] text[i] != 'e' && text[i]
            != 'E' by {
            if i != at {
                assert(is_digit(text[i]));
            }
        }
        lemma_no_mark(text, 0);
        assert(text.subrange(0, text.len() as int) =~= text);
        assert forall|i: int| 0 <= i < at implies #[trigger] text[i] != '.' by {
            assert(is_digit(text[i]));
        }
        lemma_point(text, 0, at);
        assert(text.subrange(0, at) =~= integer);
        assert(text.subrange(at + 1, text.len() as int) =~= fraction);
        lemma_digits_concat(integer, fraction);
        let down = (18 - fraction.len()) as nat;
        lemma_pow10_sum(fraction.len(), down);
        let c = digits_value(integer + fraction);
        let f = digits_value(fraction);
        let p = pow10(fraction.len()) as int;
        let q = pow10(down) as int;
        assert((dollars * p + f) * q == dollars * (p * q) + f * q) by (nonlinear_arith);
        assert(c * q == n);
        lemma_pow10_positive(down);
        lemma_digits_grow(fraction, fraction.len() as int);
        assert(fraction.subrange(0, fraction.len() as int) =~= fraction);
        assert(c <= c * q) by (nonlinear_arith)
            requires
                c >= 0,
                q >= 1,
        ;
        assert(c >= 0) by {
            assert(dollars * p >= 0) by (nonlinear_arith)
                requires
                    dollars >= 0,
                    p >= 0,
            ;
        }
        assert(scaled(c, down as int) == Some(n as int));
        assert(mantissa_value(text, 0) == scaled(c, 18 - fraction.len()));
    }
}

/// The sum of two amounts is written without rounding.
pub proof fn law_sums_are_exact(a: UsdCost, b: UsdCost)
    requires
        a.0 + b.0 <= u128::MAX,
    ensures
        cost_value(cost_text((a.0 + b.0) as nat)) == Some(a.0 + b.0),
{
    law_amounts_are_read_back(UsdCost((a.0 + b.0) as u128));
}

} // verus!
