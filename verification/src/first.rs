//! The first of several findings.
use vstd::prelude::*;

verus! {

/// The finding at the smallest index below `n` that has one.
pub open spec fn first_some<E>(finding: spec_fn(int) -> Option<E>, n: int) -> Option<E>
    decreases n,
{
    if n <= 0 {
        None
    } else {
        match first_some(finding, n - 1) {
            Some(found) => Some(found),
            None => finding(n - 1),
        }
    }
}

/// The first finding, or else the second.
pub open spec fn either<E>(a: Option<E>, b: Option<E>) -> Option<E> {
    match a {
        Some(found) => Some(found),
        None => b,
    }
}

/// A finding as the outcome of a check.
pub open spec fn refused<E>(finding: Option<E>) -> Result<(), E> {
    match finding {
        Some(found) => Err(found),
        None => Ok(()),
    }
}

/// What is found at an index with nothing before it is the first finding.
pub proof fn lemma_first_some_at<E>(finding: spec_fn(int) -> Option<E>, at: int, n: int)
    requires
        0 <= at < n,
        first_some(finding, at) is None,
        finding(at) is Some,
    ensures
        first_some(finding, n) == finding(at),
    decreases n,
{
    if n > at + 1 {
        lemma_first_some_at(finding, at, n - 1);
    }
}

/// What finds the same at each index below `n` finds the same first.
pub proof fn lemma_first_some_same<E>(
    a: spec_fn(int) -> Option<E>,
    b: spec_fn(int) -> Option<E>,
    n: int,
)
    requires
        forall|i: int| 0 <= i < n ==> #[trigger] a(i) == b(i),
    ensures
        first_some(a, n) == first_some(b, n),
    decreases n,
{
    if n > 0 {
        lemma_first_some_same(a, b, n - 1);
        assert(a(n - 1) == b(n - 1));
    }
}

/// Nothing is found below `n` exactly when no index below `n` has a finding.
pub proof fn lemma_first_some_none<E>(finding: spec_fn(int) -> Option<E>, n: int)
    ensures
        first_some(finding, n) is None <==> (forall|i: int|
            0 <= i < n ==> (#[trigger] finding(i)) is None),
    decreases n,
{
    if n > 0 {
        lemma_first_some_none(finding, n - 1);
        if first_some(finding, n) is None {
            assert forall|i: int| 0 <= i < n implies (#[trigger] finding(i)) is None by {
                if i == n - 1 {
                }
            }
        }
    }
}

/// How many indexes below `n` satisfy a condition.
pub open spec fn count_true(condition: spec_fn(int) -> bool, n: int) -> int
    decreases n,
{
    if n <= 0 {
        0
    } else {
        count_true(condition, n - 1) + if condition(n - 1) {
            1int
        } else {
            0int
        }
    }
}

pub proof fn lemma_count_bounds(condition: spec_fn(int) -> bool, n: int)
    ensures
        0 <= count_true(condition, n),
        n >= 0 ==> count_true(condition, n) <= n,
    decreases n,
{
    if n > 0 {
        lemma_count_bounds(condition, n - 1);
    }
}

/// A count is zero exactly when no index satisfies the condition.
pub proof fn lemma_count_zero(condition: spec_fn(int) -> bool, n: int)
    ensures
        count_true(condition, n) == 0 <==> (forall|i: int|
            0 <= i < n ==> !(#[trigger] condition(i))),
    decreases n,
{
    lemma_count_bounds(condition, n - 1);
    if n > 0 {
        lemma_count_zero(condition, n - 1);
        if count_true(condition, n) == 0 {
            assert forall|i: int| 0 <= i < n implies !(#[trigger] condition(i)) by {
                if i == n - 1 {
                }
            }
        }
    }
}

} // verus!
