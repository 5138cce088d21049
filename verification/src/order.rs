//! Stable sorting of things that come one before another.
use vstd::prelude::*;

verus! {

/// Things with an order.
pub trait Ordered: Sized {
    spec fn comes_before(self, other: Self) -> bool;

    fn is_before(&self, other: &Self) -> (r: bool)
        ensures
            r == self.comes_before(*other),
    ;
}

/// An order of indexes with one more index, put behind all that it does not come before.
pub open spec fn placed<T: Ordered>(items: Seq<T>, order: Seq<int>, x: int) -> Seq<int>
    decreases order.len(),
{
    if order.len() == 0 || !items[x].comes_before(items[order.last()]) {
        order.push(x)
    } else {
        placed(items, order.drop_last(), x).push(order.last())
    }
}

/// The first `n` indexes in the order of their items; equal items keep their order.
pub open spec fn sorted<T: Ordered>(items: Seq<T>, n: int) -> Seq<int>
    decreases n,
{
    if n <= 0 {
        Seq::empty()
    } else {
        placed(items, sorted(items, n - 1), n - 1)
    }
}

proof fn lemma_placed_at<T: Ordered>(items: Seq<T>, order: Seq<int>, x: int, k: int)
    requires
        0 <= k <= order.len(),
        forall|j: int| k <= j < order.len() ==> items[x].comes_before(items[#[trigger] order[j]]),
        k == 0 || !items[x].comes_before(items[order[k - 1]]),
    ensures
        placed(items, order, x) == order.insert(k, x),
    decreases order.len(),
{
    if k == order.len() {
        assert(order.insert(k, x) =~= order.push(x));
        if order.len() > 0 {
            assert(order.last() == order[k - 1]);
        }
    } else {
        let rest = order.drop_last();
        assert(order.last() == order[order.len() - 1]);
        assert(items[x].comes_before(items[order[order.len() - 1]]));
        assert forall|j: int| k <= j < rest.len() implies items[x].comes_before(
            items[#[trigger] rest[j]],
        ) by {
            assert(rest[j] == order[j]);
        }
        if k > 0 {
            assert(rest[k - 1] == order[k - 1]);
        }
        lemma_placed_at(items, rest, x, k);
        assert(rest.insert(k, x).push(order.last()) =~= order.insert(k, x));
    }
}

/// Whether every index of an order is below a bound.
pub open spec fn indexes_below(order: Seq<int>, n: int) -> bool {
    forall|i: int| 0 <= i < order.len() ==> 0 <= #[trigger] order[i] < n
}

proof fn lemma_placed_below<T: Ordered>(items: Seq<T>, order: Seq<int>, x: int, n: int)
    requires
        indexes_below(order, n),
        0 <= x < n,
    ensures
        indexes_below(placed(items, order, x), n),
        placed(items, order, x).len() == order.len() + 1,
    decreases order.len(),
{
    if order.len() > 0 && items[x].comes_before(items[order.last()]) {
        let rest = order.drop_last();
        assert forall|i: int| 0 <= i < rest.len() implies 0 <= #[trigger] rest[i] < n by {
            assert(rest[i] == order[i]);
        }
        lemma_placed_below(items, rest, x, n);
        assert(0 <= order[order.len() - 1] < n);
    }
}

/// A sorted order has an index for each of the items.
pub proof fn lemma_sorted_indexes<T: Ordered>(items: Seq<T>, n: int)
    requires
        0 <= n <= items.len(),
    ensures
        sorted(items, n).len() == n,
        indexes_below(sorted(items, n), n),
    decreases n,
{
    if n > 0 {
        lemma_sorted_indexes(items, n - 1);
        let before = sorted(items, n - 1);
        assert forall|i: int| 0 <= i < before.len() implies 0 <= #[trigger] before[i] < n by {}
        lemma_placed_below(items, before, n - 1, n);
    }
}

proof fn lemma_placed_holds<T: Ordered>(items: Seq<T>, order: Seq<int>, x: int, y: int)
    ensures
        placed(items, order, x).contains(y) <==> y == x || order.contains(y),
    decreases order.len(),
{
    let after = placed(items, order, x);
    if order.len() == 0 || !items[x].comes_before(items[order.last()]) {
        assert(after[order.len() as int] == x);
        assert forall|i: int| 0 <= i < order.len() implies after[i] == order[i] by {}
        if order.contains(y) {
            let i = choose|i: int| 0 <= i < order.len() && order[i] == y;
            assert(after[i] == y);
        }
    } else {
        let rest = order.drop_last();
        let before = placed(items, rest, x);
        lemma_placed_holds(items, rest, x, y);
        assert(after == before.push(order.last()));
        assert(after[before.len() as int] == order.last());
        if before.contains(y) {
            let i = choose|i: int| 0 <= i < before.len() && before[i] == y;
            assert(after[i] == y);
        }
        if rest.contains(y) {
            let i = choose|i: int| 0 <= i < rest.len() && rest[i] == y;
            assert(order[i] == y);
        }
        if order.contains(y) && y != order.last() {
            let i = choose|i: int| 0 <= i < order.len() && order[i] == y;
            assert(rest[i] == y);
        }
        if after.contains(y) && y != order.last() {
            let i = choose|i: int| 0 <= i < after.len() && after[i] == y;
            assert(before[i] == y);
        }
        assert(order[order.len() - 1] == order.last());
    }
}

/// A sorted order holds the index of every item.
pub proof fn lemma_sorted_holds<T: Ordered>(items: Seq<T>, n: int, y: int)
    ensures
        sorted(items, n).contains(y) <==> 0 <= y < n,
    decreases n,
{
    if n > 0 {
        lemma_sorted_holds(items, n - 1, y);
        lemma_placed_holds(items, sorted(items, n - 1), n - 1, y);
    }
}

proof fn lemma_placed_differ<T: Ordered>(items: Seq<T>, order: Seq<int>, x: int)
    requires
        order.no_duplicates(),
        !order.contains(x),
    ensures
        placed(items, order, x).no_duplicates(),
    decreases order.len(),
{
    let after = placed(items, order, x);
    if order.len() == 0 || !items[x].comes_before(items[order.last()]) {
        assert forall|i: int, j: int| 0 <= i < after.len() && 0 <= j < after.len() && i
            != j implies after[i] != after[j] by {
            if i < order.len() {
                assert(order.contains(order[i]));
            }
            if j < order.len() {
                assert(order.contains(order[j]));
            }
        }
    } else {
        let rest = order.drop_last();
        let last = order.last();
        assert(order[order.len() - 1] == last);
        assert forall|i: int, j: int| 0 <= i < rest.len() && 0 <= j < rest.len() && i
            != j implies rest[i] != rest[j] by {
            assert(order[i] != order[j]);
        }
        assert(!rest.contains(x)) by {
            if rest.contains(x) {
                let i = choose|i: int| 0 <= i < rest.len() && rest[i] == x;
                assert(order[i] == x);
            }
        }
        assert(!rest.contains(last)) by {
            if rest.contains(last) {
                let i = choose|i: int| 0 <= i < rest.len() && rest[i] == last;
                assert(order[i] == order[order.len() - 1]);
            }
        }
        assert(last != x) by {
            assert(order.contains(last));
        }
        lemma_placed_differ(items, rest, x);
        lemma_placed_holds(items, rest, x, last);
        let before = placed(items, rest, x);
        assert forall|i: int, j: int| 0 <= i < after.len() && 0 <= j < after.len() && i
            != j implies after[i] != after[j] by {
            if i < before.len() {
                assert(before.contains(before[i]));
            }
            if j < before.len() {
                assert(before.contains(before[j]));
            }
        }
    }
}

proof fn lemma_sorted_unique<T: Ordered>(items: Seq<T>, n: int)
    ensures
        sorted(items, n).no_duplicates(),
    decreases n,
{
    if n > 0 {
        lemma_sorted_unique(items, n - 1);
        lemma_sorted_holds(items, n - 1, n - 1);
        lemma_placed_differ(items, sorted(items, n - 1), n - 1);
    }
}

/// A sorted order has no index twice.
pub proof fn lemma_sorted_differ<T: Ordered>(items: Seq<T>, n: int, j: int, k: int)
    requires
        0 <= j < sorted(items, n).len(),
        0 <= k < sorted(items, n).len(),
        j != k,
    ensures
        sorted(items, n)[j] != sorted(items, n)[k],
{
    lemma_sorted_unique(items, n);
}

/// Items in the order of some indexes.
pub open spec fn picked<T>(items: Seq<T>, order: Seq<int>) -> Seq<T> {
    Seq::new(order.len(), |k: int| items[order[k]])
}

/// Items from first to last; equal items keep their order.
pub open spec fn arranged<T, K: Ordered>(items: Seq<T>, keys: Seq<K>) -> Seq<T> {
    picked(items, sorted(keys, keys.len() as int))
}

/// Indexes as numbers.
pub open spec fn numbers(order: Seq<usize>) -> Seq<int> {
    order.map_values(|i: usize| i as int)
}

/// The indexes of some items in the order of the items.
pub fn sorted_order<T: Ordered>(items: &Vec<T>) -> (r: Vec<usize>)
    ensures
        numbers(r@) == sorted(items@, items.len() as int),
        r.len() == items.len(),
        forall|i: int| 0 <= i < r.len() ==> (#[trigger] r@[i]) < items.len(),
{
    let mut order: Vec<usize> = Vec::new();
    let mut x: usize = 0;
    assert(numbers(order@) =~= Seq::<int>::empty());
    while x < items.len()
        invariant
            x <= items.len(),
            order.len() == x,
            numbers(order@) == sorted(items@, x as int),
            forall|i: int| 0 <= i < order.len() ==> (#[trigger] order@[i]) < items.len(),
        decreases items.len() - x,
    {
        let mut k: usize = order.len();
        while k > 0 && items[x].is_before(&items[order[k - 1]])
            invariant
                k <= order.len(),
                x < items.len(),
                forall|i: int| 0 <= i < order.len() ==> (#[trigger] order@[i]) < items.len(),
                forall|j: int|
                    k <= j < order.len() ==> items@[x as int].comes_before(
                        items@[#[trigger] numbers(order@)[j]],
                    ),
            decreases k,
        {
            k -= 1;
        }
        proof {
            lemma_placed_at(items@, numbers(order@), x as int, k as int);
        }
        let ghost before = order@;
        order.insert(k, x);
        assert(numbers(order@) =~= numbers(before).insert(k as int, x as int));
        assert forall|i: int| 0 <= i < order.len() implies (#[trigger] order@[i]) < items.len() by {
            if i < k {
                assert(order@[i] == before[i]);
            } else if i > k {
                assert(order@[i] == before[i - 1]);
            }
        }
        x += 1;
    }
    order
}

} // verus!
