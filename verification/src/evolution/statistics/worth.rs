//! What exact fractions are worth, as real numbers.
use crate::evolution::statistics::rational::{
    at_least, extremes, gcd, lemma_gcd_divides, lowest, magnitude, mean, minus, over, plus,
    sign_flip, signed_sum, sum, Fraction,
};
use vstd::arithmetic::div_mod::lemma_fundamental_div_mod;
use vstd::arithmetic::power2::{lemma_pow2_pos, pow2};
use vstd::prelude::*;
use vstd::set_lib::{lemma_int_range, set_int_range};

verus! {

/// What a fraction is worth.
pub open spec fn worth(value: Fraction) -> real {
    value.numerator as real / value.denominator as real
}

/// The sum of the first `n` terms.
pub open spec fn total(term: spec_fn(int) -> real, n: int) -> real
    decreases n,
{
    if n <= 0 {
        0 as real
    } else {
        total(term, n - 1) + term(n - 1)
    }
}

/// What the fraction at each index is worth.
pub open spec fn worths(values: Seq<Fraction>) -> spec_fn(int) -> real {
    |i: int| worth(values[i])
}

/// Whether every fraction has a positive denominator.
pub open spec fn proper(values: Seq<Fraction>) -> bool {
    forall|i: int| 0 <= i < values.len() ==> (#[trigger] values[i]).denominator > 0
}

/// Sums of the same terms are the same.
pub proof fn lemma_total_same(a: spec_fn(int) -> real, b: spec_fn(int) -> real, n: int)
    requires
        forall|i: int| 0 <= i < n ==> #[trigger] a(i) == b(i),
    ensures
        total(a, n) == total(b, n),
    decreases n,
{
    if n > 0 {
        lemma_total_same(a, b, n - 1);
        assert(a(n - 1) == b(n - 1));
    }
}

proof fn lemma_product(a: int, b: int)
    ensures
        (a * b) as real == (a as real) * (b as real),
{
    assert((a * b) as real == (a as real) * (b as real)) by (nonlinear_arith);
}

/// A fraction in lowest terms is worth what it was reduced from.
pub proof fn lemma_lowest(n: int, d: int)
    requires
        d > 0,
    ensures
        lowest(n, d).denominator > 0,
        worth(lowest(n, d)) == n as real / d as real,
{
    let m = magnitude(n) as int;
    let g = gcd(magnitude(n), d as nat) as int;
    lemma_gcd_divides(magnitude(n), d as nat);
    lemma_fundamental_div_mod(m, g);
    lemma_fundamental_div_mod(d, g);
    let f = lowest(n, d);
    let x = f.numerator;
    let y = f.denominator;
    assert(y > 0) by (nonlinear_arith)
        requires
            d == g * y,
            d > 0,
            g > 0,
    ;
    assert(n == g * x) by (nonlinear_arith)
        requires
            m == g * (m / g),
            n >= 0 ==> n == m && x == m / g,
            n < 0 ==> n == -m && x == -(m / g),
    ;
    lemma_product(g, x);
    lemma_product(g, y);
    assert((x as real) / (y as real) == ((g as real) * (x as real)) / ((g as real) * (y as real)))
        by (nonlinear_arith)
        requires
            y as real > 0 as real,
            g as real > 0 as real,
    ;
}

/// A sum of two fractions is exact.
pub proof fn lemma_plus(a: Fraction, b: Fraction)
    requires
        a.denominator > 0,
        b.denominator > 0,
        plus(a, b) is Some,
    ensures
        (plus(a, b)->0).denominator > 0,
        worth(plus(a, b)->0) == worth(a) + worth(b),
{
    let n = a.numerator * b.denominator + b.numerator * a.denominator;
    let d = a.denominator * b.denominator;
    assert(d > 0) by (nonlinear_arith)
        requires
            d == a.denominator * b.denominator,
            a.denominator > 0,
            b.denominator > 0,
    ;
    lemma_lowest(n, d);
    lemma_product(a.numerator, b.denominator);
    lemma_product(b.numerator, a.denominator);
    lemma_product(a.denominator, b.denominator);
    lemma_added(
        a.numerator as real,
        a.denominator as real,
        b.numerator as real,
        b.denominator as real,
    );
}

proof fn lemma_added(a: real, b: real, c: real, d: real)
    requires
        b > 0 as real,
        d > 0 as real,
    ensures
        a / b + c / d == (a * d + c * b) / (b * d),
        a / b - c / d == (a * d - c * b) / (b * d),
{
    assert(a / b + c / d == (a * d + c * b) / (b * d)) by (nonlinear_arith)
        requires
            b > 0 as real,
            d > 0 as real,
    ;
    assert(a / b - c / d == (a * d - c * b) / (b * d)) by (nonlinear_arith)
        requires
            b > 0 as real,
            d > 0 as real,
    ;
}

/// A difference of two fractions is exact.
pub proof fn lemma_minus(a: Fraction, b: Fraction)
    requires
        a.denominator > 0,
        b.denominator > 0,
        minus(a, b) is Some,
    ensures
        (minus(a, b)->0).denominator > 0,
        worth(minus(a, b)->0) == worth(a) - worth(b),
{
    let n = a.numerator * b.denominator - b.numerator * a.denominator;
    let d = a.denominator * b.denominator;
    assert(d > 0) by (nonlinear_arith)
        requires
            d == a.denominator * b.denominator,
            a.denominator > 0,
            b.denominator > 0,
    ;
    lemma_lowest(n, d);
    lemma_product(a.numerator, b.denominator);
    lemma_product(b.numerator, a.denominator);
    lemma_product(a.denominator, b.denominator);
    lemma_added(
        a.numerator as real,
        a.denominator as real,
        b.numerator as real,
        b.denominator as real,
    );
}

/// Whether every fraction has a numerator that fits in 128 bits, with either sign.
pub open spec fn noted(values: Seq<Fraction>) -> bool {
    forall|i: int| 0 <= i < values.len() ==> -i128::MAX <= (#[trigger] values[i]).numerator
        <= i128::MAX
}

proof fn lemma_lowest_fits(n: int, d: int)
    requires
        d > 0,
        -i128::MAX <= n <= i128::MAX,
    ensures
        -i128::MAX <= lowest(n, d).numerator <= i128::MAX,
{
    let m = magnitude(n) as int;
    let g = gcd(magnitude(n), d as nat) as int;
    lemma_gcd_divides(magnitude(n), d as nat);
    assert(0 <= m / g <= m) by (nonlinear_arith)
        requires
            m >= 0,
            g > 0,
    ;
}

/// A share of a fraction is exact.
pub proof fn lemma_over(a: Fraction, divisor: int)
    requires
        a.denominator > 0,
        divisor > 0,
        over(a, divisor) is Some,
    ensures
        (over(a, divisor)->0).denominator > 0,
        -i128::MAX <= (over(a, divisor)->0).numerator <= i128::MAX,
        worth(over(a, divisor)->0) == worth(a) / divisor as real,
{
    let d = a.denominator * divisor;
    assert(d > 0) by (nonlinear_arith)
        requires
            d == a.denominator * divisor,
            a.denominator > 0,
            divisor > 0,
    ;
    lemma_lowest(a.numerator, d);
    lemma_lowest_fits(a.numerator, d);
    lemma_product(a.denominator, divisor);
    let n = a.numerator as real;
    let b = a.denominator as real;
    let c = divisor as real;
    assert((n / b) / c == n / (b * c)) by (nonlinear_arith)
        requires
            b > 0 as real,
            c > 0 as real,
    ;
}

/// A comparison of two fractions is exact.
pub proof fn lemma_at_least(a: Fraction, b: Fraction)
    requires
        a.denominator > 0,
        b.denominator > 0,
        at_least(a, b) is Some,
    ensures
        at_least(a, b)->0 <==> worth(a) >= worth(b),
{
    lemma_product(a.numerator, b.denominator);
    lemma_product(b.numerator, a.denominator);
    let p = a.numerator as real;
    let q = a.denominator as real;
    let r = b.numerator as real;
    let s = b.denominator as real;
    assert(p * s >= r * q <==> p / q >= r / s) by (nonlinear_arith)
        requires
            q > 0 as real,
            s > 0 as real,
    ;
}

/// A fraction is positive where its numerator is.
pub proof fn lemma_sign(a: Fraction)
    requires
        a.denominator > 0,
    ensures
        a.numerator > 0 <==> worth(a) > 0 as real,
{
    let p = a.numerator as real;
    let q = a.denominator as real;
    assert(p > 0 as real <==> p / q > 0 as real) by (nonlinear_arith)
        requires
            q > 0 as real,
    ;
}

/// A sum of fractions is exact.
pub proof fn lemma_sum(values: Seq<Fraction>, n: int)
    requires
        proper(values),
        0 <= n <= values.len(),
        sum(values, n) is Some,
    ensures
        (sum(values, n)->0).denominator > 0,
        worth(sum(values, n)->0) == total(worths(values), n),
    decreases n,
{
    if n > 0 {
        lemma_sum(values, n - 1);
        assert(values[n - 1].denominator > 0);
        lemma_plus(sum(values, n - 1)->0, values[n - 1]);
        assert(worths(values)(n - 1) == worth(values[n - 1]));
    } else {
        assert(worth(Fraction { numerator: 0, denominator: 1 }) == 0 as real) by {
            assert(0 as real / 1 as real == 0 as real) by (nonlinear_arith);
        }
    }
}

/// A mean of fractions is exact.
pub proof fn lemma_mean(values: Seq<Fraction>)
    requires
        proper(values),
        0 < values.len(),
        mean(values) is Some,
    ensures
        (mean(values)->0).denominator > 0,
        -i128::MAX <= (mean(values)->0).numerator <= i128::MAX,
        worth(mean(values)->0) == total(worths(values), values.len() as int) / values.len() as real,
{
    lemma_sum(values, values.len() as int);
    lemma_over(sum(values, values.len() as int)->0, values.len() as int);
}

/// The sum of the first `n` terms, each added where its bit of a mask is set and subtracted
/// where it is not.
pub open spec fn flipped(term: spec_fn(int) -> real, mask: int, n: int) -> real
    decreases n,
{
    if n <= 0 {
        0 as real
    } else if (mask / pow2((n - 1) as nat) as int) % 2 == 1 {
        flipped(term, mask, n - 1) + term(n - 1)
    } else {
        flipped(term, mask, n - 1) - term(n - 1)
    }
}

/// The masks below `m` under which the sum of `n` terms is at least their sum without one.
pub open spec fn reaching(term: spec_fn(int) -> real, n: int, m: int) -> Set<int> {
    set_int_range(0, m).filter(|mask: int| flipped(term, mask, n) >= total(term, n))
}

/// Signed sums of the same terms are the same.
pub proof fn lemma_flipped_same(
    a: spec_fn(int) -> real,
    b: spec_fn(int) -> real,
    mask: int,
    n: int,
)
    requires
        forall|i: int| 0 <= i < n ==> #[trigger] a(i) == b(i),
    ensures
        flipped(a, mask, n) == flipped(b, mask, n),
    decreases n,
{
    if n > 0 {
        lemma_flipped_same(a, b, mask, n - 1);
        assert(a(n - 1) == b(n - 1));
    }
}

/// The same terms are reached under the same masks.
pub proof fn lemma_reaching_same(a: spec_fn(int) -> real, b: spec_fn(int) -> real, n: int, m: int)
    requires
        forall|i: int| 0 <= i < n ==> #[trigger] a(i) == b(i),
    ensures
        reaching(a, n, m) == reaching(b, n, m),
{
    lemma_total_same(a, b, n);
    assert forall|mask: int| flipped(a, mask, n) == #[trigger] flipped(b, mask, n) by {
        lemma_flipped_same(a, b, mask, n);
    }
    assert(reaching(a, n, m) =~= reaching(b, n, m));
}

proof fn lemma_signed_sum(values: Seq<Fraction>, mask: int, n: int)
    requires
        proper(values),
        0 <= n <= values.len(),
        signed_sum(values, mask, n) is Some,
    ensures
        (signed_sum(values, mask, n)->0).denominator > 0,
        worth(signed_sum(values, mask, n)->0) == flipped(worths(values), mask, n),
    decreases n,
{
    if n > 0 {
        lemma_signed_sum(values, mask, n - 1);
        let before = signed_sum(values, mask, n - 1)->0;
        let next = values[n - 1];
        assert(next.denominator > 0);
        assert(worths(values)(n - 1) == worth(next));
        if plus(before, next) is Some {
            lemma_plus(before, next);
        }
        if minus(before, next) is Some {
            lemma_minus(before, next);
        }
    } else {
        assert(0 as real / 1 as real == 0 as real) by (nonlinear_arith);
    }
}

proof fn lemma_extremes(values: Seq<Fraction>, observed: Fraction, m: int)
    requires
        proper(values),
        0 <= m,
        sum(values, values.len() as int) == Some(observed),
        extremes(values, observed, m) is Some,
    ensures
        reaching(worths(values), values.len() as int, m).finite(),
        extremes(values, observed, m)->0 == reaching(worths(values), values.len() as int, m).len(),
    decreases m,
{
    let n = values.len() as int;
    let term = worths(values);
    let reached = |mask: int| flipped(term, mask, n) >= total(term, n);
    lemma_int_range(0, m);
    let here = set_int_range(0, m).filter(reached);
    set_int_range(0, m).lemma_len_filter(reached);
    if m > 0 {
        lemma_extremes(values, observed, m - 1);
        lemma_sum(values, n);
        lemma_signed_sum(values, m - 1, n);
        lemma_at_least(signed_sum(values, m - 1, n)->0, observed);
        let before = set_int_range(0, m - 1).filter(reached);
        if reached(m - 1) {
            assert(here =~= before.insert(m - 1));
        } else {
            assert(here =~= before);
        }
    } else {
        assert(here =~= Set::<int>::empty());
    }
}

/// The exact p-value of some effects is the share of sign patterns under which their sum is
/// at least what it is.
pub proof fn law_p_values_count_sign_patterns(values: Seq<Fraction>, p: Fraction)
    requires
        proper(values),
        sign_flip(values) == Some(p),
    ensures
        p.denominator > 0,
        worth(p) == reaching(
            worths(values),
            values.len() as int,
            pow2(values.len()) as int,
        ).len() as real / pow2(values.len()) as real,
{
    let all = pow2(values.len()) as int;
    lemma_pow2_pos(values.len());
    let observed = sum(values, values.len() as int)->0;
    lemma_extremes(values, observed, all);
    lemma_lowest(extremes(values, observed, all)->0, all);
}

} // verus!
