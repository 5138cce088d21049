//! Exact fractions in lowest terms, as far as they fit in 128 bits.
use vstd::arithmetic::div_mod::{lemma_div_denominator, lemma_fundamental_div_mod, lemma_mod_bound};
use vstd::arithmetic::mul::lemma_mul_is_commutative;
use vstd::arithmetic::power2::{lemma2_to64, lemma_pow2_pos, lemma_pow2_unfold, pow2};
use vstd::prelude::*;

verus! {

/// The greatest common divisor.
pub open spec fn gcd(a: nat, b: nat) -> nat
    decreases b,
{
    if b == 0 {
        a
    } else {
        gcd(b, a % b)
    }
}

proof fn lemma_gcd_positive(a: nat, b: nat)
    requires
        a > 0 || b > 0,
    ensures
        gcd(a, b) > 0,
    decreases b,
{
    if b > 0 {
        lemma_gcd_positive(b, a % b);
    }
}

proof fn lemma_gcd_bound(a: nat, b: nat)
    ensures
        b > 0 ==> gcd(a, b) <= b,
        b == 0 ==> gcd(a, b) == a,
    decreases b,
{
    if b > 0 {
        lemma_mod_bound(a as int, b as int);
        lemma_gcd_bound(b, a % b);
    }
}

/// The greatest common divisor divides both numbers.
pub proof fn lemma_gcd_divides(a: nat, b: nat)
    requires
        b > 0,
    ensures
        gcd(a, b) > 0,
        a % gcd(a, b) == 0,
        b % gcd(a, b) == 0,
    decreases b,
{
    let m = a % b;
    lemma_gcd_positive(a, b);
    if m == 0 {
        assert(gcd(b, 0) == b);
        assert(gcd(a, b) == gcd(b, a % b));
        assert(b % b == 0) by (nonlinear_arith)
            requires
                b > 0,
        ;
    } else {
        lemma_mod_bound(a as int, b as int);
        lemma_gcd_divides(b, m);
        let g = gcd(a, b);
        assert(g == gcd(b, m));
        lemma_fundamental_div_mod(a as int, b as int);
        lemma_fundamental_div_mod(b as int, g as int);
        lemma_fundamental_div_mod(m as int, g as int);
        let q = a as int / b as int;
        let x = b as int / g as int;
        let y = m as int / g as int;
        assert(a == g * (x * q + y)) by (nonlinear_arith)
            requires
                a == b * q + m,
                b == g * x,
                m == g * y,
        ;
        assert(a as int % g as int == 0) by {
            vstd::arithmetic::div_mod::lemma_mod_multiples_basic(x * q + y, g as int);
            lemma_mul_is_commutative(x * q + y, g as int);
        }
    }
}

fn gcd_of(left: u128, right: u128) -> (r: u128)
    requires
        left > 0 || right > 0,
    ensures
        r == gcd(left as nat, right as nat),
        r > 0,
{
    let mut a = left;
    let mut b = right;
    proof {
        lemma_gcd_positive(left as nat, right as nat);
    }
    while b != 0
        invariant
            gcd(a as nat, b as nat) == gcd(left as nat, right as nat),
            gcd(left as nat, right as nat) > 0,
        decreases b,
    {
        let remainder = a % b;
        proof {
            lemma_mod_bound(a as int, b as int);
        }
        a = b;
        b = remainder;
    }
    a
}

/// A fraction.
#[verifier::ext_equal]
pub struct Fraction {
    pub numerator: int,
    pub denominator: int,
}

/// The magnitude of a number.
pub open spec fn magnitude(n: int) -> nat {
    if n < 0 {
        (-n) as nat
    } else {
        n as nat
    }
}

/// A fraction in lowest terms.
pub open spec fn lowest(n: int, d: int) -> Fraction {
    let g = gcd(magnitude(n), d as nat) as int;
    Fraction {
        numerator: if n < 0 {
            -((-n) / g)
        } else {
            n / g
        },
        denominator: d / g,
    }
}

pub open spec fn zero() -> Fraction {
    Fraction { numerator: 0, denominator: 1 }
}

/// Whether a number fits in 128 bits, with either sign.
pub open spec fn fits(n: int) -> bool {
    -i128::MAX <= n <= i128::MAX
}

/// A fraction in lowest terms, unless its terms do not fit.
pub open spec fn reduced(n: int, d: int) -> Option<Fraction> {
    if fits(n) && fits(d) {
        Some(lowest(n, d))
    } else {
        None
    }
}

pub open spec fn plus(a: Fraction, b: Fraction) -> Option<Fraction> {
    if fits(a.numerator * b.denominator) && fits(b.numerator * a.denominator) {
        reduced(
            a.numerator * b.denominator + b.numerator * a.denominator,
            a.denominator * b.denominator,
        )
    } else {
        None
    }
}

pub open spec fn minus(a: Fraction, b: Fraction) -> Option<Fraction> {
    if fits(a.numerator * b.denominator) && fits(b.numerator * a.denominator) {
        reduced(
            a.numerator * b.denominator - b.numerator * a.denominator,
            a.denominator * b.denominator,
        )
    } else {
        None
    }
}

pub open spec fn over(a: Fraction, divisor: int) -> Option<Fraction> {
    reduced(a.numerator, a.denominator * divisor)
}

/// Whether the first fraction is at least the second, unless it cannot be told within
/// 128 bits.
pub open spec fn at_least(a: Fraction, b: Fraction) -> Option<bool> {
    if fits(a.numerator * b.denominator) && fits(b.numerator * a.denominator) {
        Some(a.numerator * b.denominator >= b.numerator * a.denominator)
    } else {
        None
    }
}

/// The sum of the first `n` fractions.
pub open spec fn sum(values: Seq<Fraction>, n: int) -> Option<Fraction>
    decreases n,
{
    if n <= 0 {
        Some(zero())
    } else {
        match sum(values, n - 1) {
            Some(before) => plus(before, values[n - 1]),
            None => None,
        }
    }
}

/// The mean of some fractions.
pub open spec fn mean(values: Seq<Fraction>) -> Option<Fraction> {
    match sum(values, values.len() as int) {
        Some(total) => over(total, values.len() as int),
        None => None,
    }
}

/// Whether a bit of a mask is set.
pub open spec fn bit(mask: int, i: nat) -> bool {
    (mask / pow2(i) as int) % 2 == 1
}

/// The sum of the first `n` fractions, each added where its bit of the mask is set and
/// subtracted where it is not.
pub open spec fn signed_sum(values: Seq<Fraction>, mask: int, n: int) -> Option<Fraction>
    decreases n,
{
    if n <= 0 {
        Some(zero())
    } else {
        match signed_sum(values, mask, n - 1) {
            Some(before) => if bit(mask, (n - 1) as nat) {
                plus(before, values[n - 1])
            } else {
                minus(before, values[n - 1])
            },
            None => None,
        }
    }
}

/// How many of the masks below `m` give a signed sum that is at least the observed one.
pub open spec fn extremes(values: Seq<Fraction>, observed: Fraction, m: int) -> Option<int>
    decreases m,
{
    if m <= 0 {
        Some(0)
    } else {
        match (extremes(values, observed, m - 1), signed_sum(values, m - 1, values.len() as int)) {
            (Some(before), Some(flipped)) => match at_least(flipped, observed) {
                Some(true) => Some(before + 1),
                Some(false) => Some(before),
                None => None,
            },
            _ => None,
        }
    }
}

/// The exact one-sided p-value under random signs: the share of all sign patterns whose
/// sum is at least the observed one.
pub open spec fn sign_flip(values: Seq<Fraction>) -> Option<Fraction> {
    match sum(values, values.len() as int) {
        Some(observed) => match extremes(values, observed, pow2(values.len()) as int) {
            Some(count) => Some(lowest(count, pow2(values.len()) as int)),
            None => None,
        },
        None => None,
    }
}

/// A fraction in lowest terms with a positive denominator.
#[derive(Clone, Copy, Debug, PartialEq, Eq, Structural)]
pub struct Rational {
    numerator: i128,
    denominator: i128,
}

impl View for Rational {
    type V = Fraction;

    closed spec fn view(&self) -> Fraction {
        Fraction { numerator: self.numerator as int, denominator: self.denominator as int }
    }
}

fn checked_product(a: i128, b: i128) -> (r: Option<i128>)
    ensures
        r == if fits(a * b) {
            Some((a * b) as i128)
        } else {
            None::<i128>
        },
{
    match a.checked_mul(b) {
        Some(product) => if product == i128::MIN {
            None
        } else {
            Some(product)
        },
        None => None,
    }
}

fn checked_sum(a: i128, b: i128) -> (r: Option<i128>)
    ensures
        r == if fits(a + b) {
            Some((a + b) as i128)
        } else {
            None::<i128>
        },
{
    match a.checked_add(b) {
        Some(sum) => if sum == i128::MIN {
            None
        } else {
            Some(sum)
        },
        None => None,
    }
}

fn checked_difference(a: i128, b: i128) -> (r: Option<i128>)
    ensures
        r == if fits(a - b) {
            Some((a - b) as i128)
        } else {
            None::<i128>
        },
{
    match a.checked_sub(b) {
        Some(difference) => if difference == i128::MIN {
            None
        } else {
            Some(difference)
        },
        None => None,
    }
}

proof fn lemma_share_bound(n: nat, g: nat)
    requires
        g > 0,
    ensures
        n / g <= n,
{
    assert(n / g <= n) by (nonlinear_arith)
        requires
            g > 0,
    ;
}

proof fn lemma_share_positive(n: nat, g: nat)
    requires
        g > 0,
        n > 0,
        n % g == 0,
    ensures
        n / g > 0,
{
    lemma_fundamental_div_mod(n as int, g as int);
    assert(n / g > 0) by (nonlinear_arith)
        requires
            n == g * (n / g) + 0,
            n > 0,
    ;
}

impl Rational {
    #[verifier::type_invariant]
    spec fn well_formed(self) -> bool {
        self.denominator > 0 && self.numerator > i128::MIN
    }

    /// What every fraction satisfies.
    pub fn numerator(self) -> (r: i128)
        ensures
            r == self@.numerator,
            fits(self@.numerator),
            0 < self@.denominator <= i128::MAX,
    {
        proof {
            use_type_invariant(&self);
        }
        self.numerator
    }

    pub fn denominator(self) -> (r: i128)
        ensures
            r == self@.denominator,
            0 < self@.denominator <= i128::MAX,
    {
        proof {
            use_type_invariant(&self);
        }
        self.denominator
    }

    pub fn zero() -> (r: Self)
        ensures
            r@ == zero(),
    {
        Rational { numerator: 0, denominator: 1 }
    }

    /// The fraction in lowest terms.
    pub fn new(numerator: i128, denominator: i128) -> (r: Self)
        requires
            denominator > 0,
            numerator > i128::MIN,
        ensures
            r@ == lowest(numerator as int, denominator as int),
    {
        let size: u128 = if numerator < 0 {
            (-numerator) as u128
        } else {
            numerator as u128
        };
        let divisor = gcd_of(size, denominator as u128);
        proof {
            lemma_gcd_divides(size as nat, denominator as nat);
            lemma_gcd_bound(size as nat, denominator as nat);
            lemma_share_bound(size as nat, divisor as nat);
            lemma_share_bound(denominator as nat, divisor as nat);
            lemma_share_positive(denominator as nat, divisor as nat);
        }
        let share = (size / divisor) as i128;
        let d = (denominator as u128 / divisor) as i128;
        if numerator < 0 {
            Rational { numerator: -share, denominator: d }
        } else {
            Rational { numerator: share, denominator: d }
        }
    }

    pub fn add(self, other: Self) -> (r: Option<Self>)
        ensures
            match r {
                Some(total) => plus(self@, other@) == Some(total@),
                None => plus(self@, other@) is None,
            },
    {
        proof {
            use_type_invariant(&self);
            use_type_invariant(&other);
            lemma_positive_product(self.denominator as int, other.denominator as int);
        }
        let left = match checked_product(self.numerator, other.denominator) {
            Some(left) => left,
            None => return None,
        };
        let right = match checked_product(other.numerator, self.denominator) {
            Some(right) => right,
            None => return None,
        };
        let numerator = match checked_sum(left, right) {
            Some(numerator) => numerator,
            None => return None,
        };
        let denominator = match checked_product(self.denominator, other.denominator) {
            Some(denominator) => denominator,
            None => return None,
        };
        Some(Rational::new(numerator, denominator))
    }

    pub fn sub(self, other: Self) -> (r: Option<Self>)
        ensures
            match r {
                Some(rest) => minus(self@, other@) == Some(rest@),
                None => minus(self@, other@) is None,
            },
    {
        proof {
            use_type_invariant(&self);
            use_type_invariant(&other);
            lemma_positive_product(self.denominator as int, other.denominator as int);
        }
        let left = match checked_product(self.numerator, other.denominator) {
            Some(left) => left,
            None => return None,
        };
        let right = match checked_product(other.numerator, self.denominator) {
            Some(right) => right,
            None => return None,
        };
        let numerator = match checked_difference(left, right) {
            Some(numerator) => numerator,
            None => return None,
        };
        let denominator = match checked_product(self.denominator, other.denominator) {
            Some(denominator) => denominator,
            None => return None,
        };
        Some(Rational::new(numerator, denominator))
    }

    pub fn divide(self, divisor: i128) -> (r: Option<Self>)
        requires
            divisor > 0,
        ensures
            match r {
                Some(share) => over(self@, divisor as int) == Some(share@),
                None => over(self@, divisor as int) is None,
            },
    {
        proof {
            use_type_invariant(&self);
            lemma_positive_product(self.denominator as int, divisor as int);
        }
        match checked_product(self.denominator, divisor) {
            Some(denominator) => Some(Rational::new(self.numerator, denominator)),
            None => None,
        }
    }

    pub fn is_at_least(self, other: Self) -> (r: Option<bool>)
        ensures
            r == at_least(self@, other@),
    {
        let left = match checked_product(self.numerator, other.denominator) {
            Some(left) => left,
            None => return None,
        };
        let right = match checked_product(other.numerator, self.denominator) {
            Some(right) => right,
            None => return None,
        };
        Some(left >= right)
    }
}

proof fn lemma_positive_product(a: int, b: int)
    requires
        a > 0,
        b > 0,
    ensures
        a * b > 0,
{
    assert(a * b > 0) by (nonlinear_arith)
        requires
            a > 0,
            b > 0,
    ;
}

/// What a list of fractions holds.
pub open spec fn fractions(values: Seq<Rational>) -> Seq<Fraction> {
    values.map_values(|value: Rational| value@)
}

pub fn sum_of(values: &Vec<Rational>) -> (r: Option<Rational>)
    ensures
        match r {
            Some(total) => sum(fractions(values@), values.len() as int) == Some(total@),
            None => sum(fractions(values@), values.len() as int) is None,
        },
{
    let mut total = Rational::zero();
    let mut i: usize = 0;
    while i < values.len()
        invariant
            i <= values.len(),
            sum(fractions(values@), i as int) == Some(total@),
        decreases values.len() - i,
    {
        match total.add(values[i]) {
            Some(next) => {
                total = next;
            },
            None => {
                proof {
                    lemma_sum_none(fractions(values@), i + 1, values.len() as int);
                }
                return None;
            },
        }
        i += 1;
    }
    Some(total)
}

proof fn lemma_sum_none(values: Seq<Fraction>, i: int, n: int)
    requires
        0 <= i <= n,
        sum(values, i) is None,
    ensures
        sum(values, n) is None,
    decreases n,
{
    if i < n {
        lemma_sum_none(values, i, n - 1);
    }
}

pub fn mean_of(values: &Vec<Rational>) -> (r: Option<Rational>)
    requires
        0 < values.len(),
    ensures
        match r {
            Some(total) => mean(fractions(values@)) == Some(total@),
            None => mean(fractions(values@)) is None,
        },
{
    match sum_of(values) {
        Some(total) => total.divide(values.len() as i128),
        None => None,
    }
}

fn flipped_sum(values: &Vec<Rational>, mask: u64) -> (r: Option<Rational>)
    ensures
        match r {
            Some(total) => signed_sum(fractions(values@), mask as int, values.len() as int) == Some(
                total@,
            ),
            None => signed_sum(fractions(values@), mask as int, values.len() as int) is None,
        },
{
    let mut total = Rational::zero();
    let mut rest = mask;
    let mut i: usize = 0;
    proof {
        lemma2_to64();
        assert(mask as int / 1 == mask as int);
    }
    while i < values.len()
        invariant
            i <= values.len(),
            rest == mask as int / pow2(i as nat) as int,
            signed_sum(fractions(values@), mask as int, i as int) == Some(total@),
        decreases values.len() - i,
    {
        let next = if rest % 2 == 1 {
            total.add(values[i])
        } else {
            total.sub(values[i])
        };
        proof {
            lemma_pow2_pos(i as nat);
            lemma_pow2_unfold((i + 1) as nat);
            lemma_div_denominator(mask as int, pow2(i as nat) as int, 2);
            lemma_mul_is_commutative(pow2(i as nat) as int, 2);
        }
        match next {
            Some(sum) => {
                total = sum;
            },
            None => {
                proof {
                    lemma_signed_none(
                        fractions(values@),
                        mask as int,
                        i + 1,
                        values.len() as int,
                    );
                }
                return None;
            },
        }
        rest = rest / 2;
        i += 1;
    }
    Some(total)
}

proof fn lemma_signed_none(values: Seq<Fraction>, mask: int, i: int, n: int)
    requires
        0 <= i <= n,
        signed_sum(values, mask, i) is None,
    ensures
        signed_sum(values, mask, n) is None,
    decreases n,
{
    if i < n {
        lemma_signed_none(values, mask, i, n - 1);
    }
}

proof fn lemma_extremes_none(values: Seq<Fraction>, observed: Fraction, i: int, m: int)
    requires
        0 <= i <= m,
        extremes(values, observed, i) is None,
    ensures
        extremes(values, observed, m) is None,
    decreases m,
{
    if i < m {
        lemma_extremes_none(values, observed, i, m - 1);
    }
}

/// A ratio in lowest terms.
#[derive(Clone, Copy, Debug, PartialEq, Eq, Structural)]
pub struct ExactRatio {
    pub numerator: u64,
    pub denominator: u64,
}

impl ExactRatio {
    pub open spec fn fraction(self) -> Fraction {
        Fraction { numerator: self.numerator as int, denominator: self.denominator as int }
    }

    pub(crate) fn new(numerator: u64, denominator: u64) -> (r: Self)
        requires
            denominator > 0,
        ensures
            r.fraction() == lowest(numerator as int, denominator as int),
            r.denominator > 0,
    {
        let divisor = gcd_of(numerator as u128, denominator as u128);
        proof {
            lemma_gcd_bound(numerator as nat, denominator as nat);
            lemma_gcd_divides(numerator as nat, denominator as nat);
            lemma_share_positive(denominator as nat, divisor as nat);
        }
        let divisor = divisor as u64;
        ExactRatio { numerator: numerator / divisor, denominator: denominator / divisor }
    }
}

pub fn exact_sign_flip_p_value(values: &Vec<Rational>) -> (r: Option<ExactRatio>)
    requires
        values.len() < 64,
    ensures
        match r {
            Some(share) => sign_flip(fractions(values@)) == Some(share.fraction())
                && share.denominator > 0,
            None => sign_flip(fractions(values@)) is None,
        },
{
    let ghost all = fractions(values@);
    let observed = match sum_of(values) {
        Some(observed) => observed,
        None => return None,
    };
    let mut total: u64 = 1;
    let mut k: usize = 0;
    proof {
        lemma2_to64();
    }
    while k < values.len()
        invariant
            k <= values.len() < 64,
            total == pow2(k as nat),
        decreases values.len() - k,
    {
        proof {
            lemma_pow2_unfold((k + 1) as nat);
            lemma_pow2_within((k + 1) as nat);
        }
        total = total * 2;
        k += 1;
    }
    let mut extreme: u64 = 0;
    let mut mask: u64 = 0;
    while mask < total
        invariant
            mask <= total,
            total == pow2(values.len() as nat),
            all == fractions(values@),
            sum(all, values.len() as int) == Some(observed@),
            extreme <= mask,
            extremes(all, observed@, mask as int) == Some(extreme as int),
        decreases total - mask,
    {
        let at_least = match flipped_sum(values, mask) {
            Some(flipped) => flipped.is_at_least(observed),
            None => None,
        };
        match at_least {
            Some(counts) => {
                if counts {
                    extreme = extreme + 1;
                }
            },
            None => {
                proof {
                    lemma_extremes_none(all, observed@, mask + 1, total as int);
                }
                return None;
            },
        }
        mask = mask + 1;
    }
    proof {
        lemma_pow2_pos(values.len() as nat);
    }
    Some(ExactRatio::new(extreme, total))
}

proof fn lemma_pow2_within(n: nat)
    requires
        n < 64,
    ensures
        pow2(n) <= u64::MAX,
{
    lemma2_to64();
    vstd::arithmetic::power2::lemma_pow2_strictly_increases(n, 64);
}

/// Whether the first ratio is at most the second.
pub open spec fn ratio_at_most(a: ExactRatio, b: ExactRatio) -> bool {
    a.numerator * b.denominator <= b.numerator * a.denominator
}

pub(crate) fn ratio_le(left: ExactRatio, right: ExactRatio) -> (r: bool)
    ensures
        r == ratio_at_most(left, right),
{
    proof {
        lemma_u64_product(left.numerator, right.denominator);
        lemma_u64_product(right.numerator, left.denominator);
    }
    (left.numerator as u128) * (right.denominator as u128) <= (right.numerator as u128) * (
    left.denominator as u128)
}

proof fn lemma_u64_product(a: u64, b: u64)
    ensures
        0 <= a * b <= u128::MAX,
{
    assert(0 <= a * b <= u128::MAX) by (nonlinear_arith)
        requires
            0 <= a <= u64::MAX,
            0 <= b <= u64::MAX,
    ;
}

/// The observed pattern is one of those that count, so a p-value is never zero.
pub proof fn law_p_values_are_positive(values: Seq<Fraction>, p: Fraction)
    requires
        sign_flip(values) == Some(p),
    ensures
        p.numerator > 0,
        0 < p.denominator,
{
    let n = values.len() as int;
    let total = pow2(values.len()) as int;
    lemma_pow2_pos(values.len());
    let observed = sum(values, n)->0;
    let count = extremes(values, observed, total)->0;
    lemma_all_bits(values, n);
    lemma_extremes_bounds(values, observed, total);
    assert(signed_sum(values, total - 1, n) == sum(values, n));
    assert(extremes(values, observed, total - 1) is Some);
    assert(count >= 1);
    lemma_gcd_divides(count as nat, total as nat);
    let g = gcd(count as nat, total as nat);
    lemma_share_positive(count as nat, g);
    lemma_share_positive(total as nat, g);
}

proof fn lemma_extremes_bounds(values: Seq<Fraction>, observed: Fraction, m: int)
    requires
        extremes(values, observed, m) is Some,
        m >= 0,
    ensures
        0 <= extremes(values, observed, m)->0 <= m,
        m > 0 ==> extremes(values, observed, m - 1) is Some && 0 <= extremes(
            values,
            observed,
            m - 1,
        )->0,
    decreases m,
{
    if m > 0 {
        lemma_extremes_bounds(values, observed, m - 1);
    }
}

/// With every bit set the signed sum is the sum.
proof fn lemma_all_bits(values: Seq<Fraction>, n: int)
    requires
        0 <= n <= values.len(),
    ensures
        signed_sum(values, pow2(values.len()) - 1, n) == sum(values, n),
    decreases n,
{
    if n > 0 {
        lemma_all_bits(values, n - 1);
        lemma_full_mask((n - 1) as nat, values.len());
    }
}

proof fn lemma_full_mask(i: nat, n: nat)
    requires
        i < n,
    ensures
        bit(pow2(n) - 1, i),
{
    let low = pow2(i) as int;
    let high = pow2((n - i - 1) as nat) as int;
    lemma_pow2_pos(i);
    lemma_pow2_pos((n - i - 1) as nat);
    vstd::arithmetic::power2::lemma_pow2_adds(i, (n - i - 1) as nat);
    vstd::arithmetic::power2::lemma_pow2_adds((n - 1) as nat, 1);
    lemma2_to64();
    assert(pow2(n) == low * high * 2) by (nonlinear_arith)
        requires
            pow2((n - 1) as nat) == low * high,
            pow2(n) == pow2((n - 1) as nat) * 2,
    ;
    let q = 2 * high - 1;
    assert(pow2(n) - 1 == q * low + (low - 1)) by (nonlinear_arith)
        requires
            pow2(n) == low * high * 2,
            q == 2 * high - 1,
    ;
    vstd::arithmetic::div_mod::lemma_fundamental_div_mod_converse(pow2(n) - 1, low, q, low - 1);
    assert(q % 2 == 1) by (nonlinear_arith)
        requires
            q == 2 * high - 1,
    ;
}

} // verus!
