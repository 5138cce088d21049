//! Arrangement by keys that are strictly ordered.
use crate::order::{
    arranged, indexes_below, lemma_sorted_indexes, picked, placed, sorted, Ordered,
};
use vstd::prelude::*;

verus! {

/// Keys of which, of two different ones, exactly one comes first.
pub trait StrictlyOrdered: Ordered {
    proof fn total(a: Self, b: Self)
        ensures
            !a.comes_before(a),
            a.comes_before(b) ==> !b.comes_before(a),
            a != b ==> a.comes_before(b) || b.comes_before(a),
    ;

    proof fn transitive(a: Self, b: Self, c: Self)
        requires
            a.comes_before(b),
            b.comes_before(c),
        ensures
            a.comes_before(c),
    ;
}

/// Keys each of which comes before those behind it.
pub open spec fn ascends<K: Ordered>(keys: Seq<K>) -> bool {
    forall|i: int, j: int|
        0 <= i < j < keys.len() ==> (#[trigger] keys[i]).comes_before(#[trigger] keys[j])
}

proof fn lemma_ascent_has_no_duplicates<K: StrictlyOrdered>(keys: Seq<K>)
    requires
        ascends(keys),
    ensures
        keys.no_duplicates(),
{
    assert forall|i: int, j: int| 0 <= i < keys.len() && 0 <= j < keys.len() && i
        != j implies keys[i] != keys[j] by {
        K::total(keys[i], keys[j]);
    }
}

/// Two ascending sequences with the same keys are the same.
pub proof fn lemma_same_ascent<K: StrictlyOrdered>(a: Seq<K>, b: Seq<K>)
    requires
        ascends(a),
        ascends(b),
        a.to_set() == b.to_set(),
    ensures
        a == b,
    decreases a.len(),
{
    lemma_ascent_has_no_duplicates(a);
    lemma_ascent_has_no_duplicates(b);
    a.unique_seq_to_set();
    b.unique_seq_to_set();
    if a.len() > 0 {
        let x = a.last();
        let y = b.last();
        assert(a.contains(x) && b.contains(y)) by {
            assert(a[a.len() - 1] == x);
            assert(b[b.len() - 1] == y);
        }
        assert(a.to_set().contains(x) && a.to_set().contains(y));
        assert(b.to_set().contains(x) && b.to_set().contains(y));
        let i = choose|i: int| 0 <= i < b.len() && b[i] == x;
        let j = choose|j: int| 0 <= j < a.len() && a[j] == y;
        K::total(x, y);
        assert(x == y) by {
            if x != y {
                assert(b[i].comes_before(b[b.len() - 1]));
                assert(a[j].comes_before(a[a.len() - 1]));
            }
        }
        let c = a.drop_last();
        let d = b.drop_last();
        assert forall|z: K| c.to_set().contains(z) <==> d.to_set().contains(z) by {
            if c.to_set().contains(z) {
                let k = choose|k: int| 0 <= k < c.len() && c[k] == z;
                assert(a[k] == z);
                assert(a.to_set().contains(z));
                assert(b.to_set().contains(z));
                let l = choose|l: int| 0 <= l < b.len() && b[l] == z;
                assert(l != b.len() - 1);
                assert(d[l] == z);
            }
            if d.to_set().contains(z) {
                let k = choose|k: int| 0 <= k < d.len() && d[k] == z;
                assert(b[k] == z);
                assert(b.to_set().contains(z));
                assert(a.to_set().contains(z));
                let l = choose|l: int| 0 <= l < a.len() && a[l] == z;
                assert(l != a.len() - 1);
                assert(c[l] == z);
            }
        }
        assert(c.to_set() =~= d.to_set());
        assert forall|p: int, q: int| 0 <= p < q < c.len() implies (#[trigger] c[p]).comes_before(
            #[trigger] c[q],
        ) by {
            assert(c[p] == a[p] && c[q] == a[q]);
        }
        assert forall|p: int, q: int| 0 <= p < q < d.len() implies (#[trigger] d[p]).comes_before(
            #[trigger] d[q],
        ) by {
            assert(d[p] == b[p] && d[q] == b[q]);
        }
        lemma_same_ascent(c, d);
        assert(a =~= c.push(x));
        assert(b =~= d.push(y));
    } else {
        assert(a =~= b);
    }
}

proof fn lemma_placed_ascends<K: StrictlyOrdered>(items: Seq<K>, order: Seq<int>, x: int)
    requires
        indexes_below(order, x),
        x < items.len(),
        items.no_duplicates(),
        ascends(picked(items, order)),
    ensures
        ascends(picked(items, placed(items, order, x))),
        forall|y: int| #[trigger]
            placed(items, order, x).contains(y) <==> order.contains(y) || y == x,
    decreases order.len(),
{
    let next = placed(items, order, x);
    if order.len() > 0 {
        let last = order.last();
        assert(order[order.len() - 1] == last);
        assert(picked(items, order)[order.len() - 1] == items[last]);
        K::total(items[x], items[last]);
        if items[x].comes_before(items[last]) {
            let rest = order.drop_last();
            assert forall|i: int| 0 <= i < rest.len() implies 0 <= #[trigger] rest[i] < x by {
                assert(rest[i] == order[i]);
            }
            assert forall|i: int, j: int| 0 <= i < j < rest.len() implies (
            #[trigger] picked(items, rest)[i]).comes_before(#[trigger] picked(items, rest)[j]) by {
                assert(picked(items, rest)[i] == picked(items, order)[i]);
                assert(picked(items, rest)[j] == picked(items, order)[j]);
            }
            lemma_placed_ascends(items, rest, x);
            let before = placed(items, rest, x);
            assert forall|i: int, j: int| 0 <= i < j < next.len() implies (
            #[trigger] picked(items, next)[i]).comes_before(#[trigger] picked(items, next)[j]) by {
                assert(picked(items, next)[i] == picked(items, before)[i]);
                if j < before.len() {
                    assert(picked(items, next)[j] == picked(items, before)[j]);
                } else {
                    assert(before.contains(before[i]));
                    if before[i] != x {
                        let k = choose|k: int| 0 <= k < rest.len() && rest[k] == before[i];
                        assert(picked(items, order)[k].comes_before(
                            picked(items, order)[order.len() - 1],
                        ));
                    }
                }
            }
            assert forall|y: int| #[trigger] next.contains(y) <==> order.contains(y) || y == x by {
                if next.contains(y) {
                    let k = choose|k: int| 0 <= k < next.len() && next[k] == y;
                    if k < before.len() {
                        assert(before.contains(y));
                        if y != x {
                            let l = choose|l: int| 0 <= l < rest.len() && rest[l] == y;
                            assert(order[l] == y);
                        }
                    }
                }
                if order.contains(y) {
                    let k = choose|k: int| 0 <= k < order.len() && order[k] == y;
                    if k < rest.len() {
                        assert(rest[k] == y);
                        assert(before.contains(y));
                        let l = choose|l: int| 0 <= l < before.len() && before[l] == y;
                        assert(next[l] == y);
                    } else {
                        assert(next[next.len() - 1] == y);
                    }
                }
                if y == x {
                    assert(before.contains(x));
                    let l = choose|l: int| 0 <= l < before.len() && before[l] == x;
                    assert(next[l] == x);
                }
            }
            return;
        }
    }
    assert(next == order.push(x));
    assert forall|i: int, j: int| 0 <= i < j < next.len() implies (
    #[trigger] picked(items, next)[i]).comes_before(#[trigger] picked(items, next)[j]) by {
        assert(picked(items, next)[i] == picked(items, order)[i]);
        if j < order.len() {
            assert(picked(items, next)[j] == picked(items, order)[j]);
        } else {
            let last = order.len() - 1;
            assert(0 <= order[last] < x);
            K::total(items[x], items[order[last]]);
            assert(picked(items, order)[last].comes_before(items[x]));
            if i < last {
                assert(picked(items, order)[i].comes_before(picked(items, order)[last]));
                K::transitive(
                    picked(items, order)[i],
                    picked(items, order)[last],
                    items[x],
                );
            }
        }
    }
    assert forall|y: int| #[trigger] next.contains(y) <==> order.contains(y) || y == x by {
        if order.contains(y) {
            let k = choose|k: int| 0 <= k < order.len() && order[k] == y;
            assert(next[k] == y);
        }
        assert(next[order.len() as int] == x);
    }
}

/// Different keys, sorted, ascend, and each of them is among the sorted ones.
pub proof fn lemma_sorted_ascends<K: StrictlyOrdered>(items: Seq<K>, n: int)
    requires
        0 <= n <= items.len(),
        items.no_duplicates(),
    ensures
        ascends(picked(items, sorted(items, n))),
        forall|y: int| #[trigger] sorted(items, n).contains(y) <==> 0 <= y < n,
    decreases n,
{
    if n > 0 {
        lemma_sorted_ascends(items, n - 1);
        lemma_sorted_indexes(items, n - 1);
        lemma_placed_ascends(items, sorted(items, n - 1), n - 1);
    }
}

/// Things with different keys, arranged by them, come out in one order whatever the
/// order they came in.
pub proof fn lemma_arranged_is_order_free<T, K: StrictlyOrdered>(
    a: Seq<T>,
    b: Seq<T>,
    keys: spec_fn(T) -> K,
)
    requires
        a.to_multiset() == b.to_multiset(),
        a.map_values(keys).no_duplicates(),
    ensures
        arranged(a, a.map_values(keys)) == arranged(b, b.map_values(keys)),
        b.map_values(keys).no_duplicates(),
{
    broadcast use vstd::seq_lib::group_to_multiset_ensures;
    let ka = a.map_values(keys);
    let kb = b.map_values(keys);
    a.to_multiset_ensures();
    b.to_multiset_ensures();
    assert(a.no_duplicates()) by {
        assert forall|m: int, n: int| 0 <= m < a.len() && 0 <= n < a.len() && m != n implies a[m]
            != a[n] by {
            assert(ka[m] != ka[n]);
        }
    }
    a.lemma_multiset_has_no_duplicates();
    b.lemma_multiset_has_no_duplicates_conv();
    assert forall|i: int, j: int| 0 <= i < kb.len() && 0 <= j < kb.len() && i != j implies kb[i]
        != kb[j] by {
        assert(a.to_multiset().count(b[i]) > 0) by {
            assert(b.contains(b[i]));
        }
        assert(a.to_multiset().count(b[j]) > 0) by {
            assert(b.contains(b[j]));
        }
        let p = choose|p: int| 0 <= p < a.len() && a[p] == b[i];
        let q = choose|q: int| 0 <= q < a.len() && a[q] == b[j];
        if kb[i] == kb[j] {
            assert(ka[p] == ka[q]);
            assert(p == q);
            assert(b[i] == b[j]);
        }
    }
    lemma_sorted_ascends(ka, ka.len() as int);
    lemma_sorted_ascends(kb, kb.len() as int);
    lemma_sorted_indexes(ka, ka.len() as int);
    lemma_sorted_indexes(kb, kb.len() as int);
    let oa = sorted(ka, ka.len() as int);
    let ob = sorted(kb, kb.len() as int);
    let sa = picked(ka, oa);
    let sb = picked(kb, ob);
    assert forall|z: K| sa.to_set().contains(z) <==> sb.to_set().contains(z) by {
        if sa.to_set().contains(z) {
            let k = choose|k: int| 0 <= k < sa.len() && sa[k] == z;
            assert(b.to_multiset().count(a[oa[k]]) > 0) by {
                assert(a.contains(a[oa[k]]));
            }
            let p = choose|p: int| 0 <= p < b.len() && b[p] == a[oa[k]];
            assert(ob.contains(p));
            let l = choose|l: int| 0 <= l < ob.len() && ob[l] == p;
            assert(sb[l] == z);
        }
        if sb.to_set().contains(z) {
            let k = choose|k: int| 0 <= k < sb.len() && sb[k] == z;
            assert(a.to_multiset().count(b[ob[k]]) > 0) by {
                assert(b.contains(b[ob[k]]));
            }
            let p = choose|p: int| 0 <= p < a.len() && a[p] == b[ob[k]];
            assert(oa.contains(p));
            let l = choose|l: int| 0 <= l < oa.len() && oa[l] == p;
            assert(sa[l] == z);
        }
    }
    assert(sa.to_set() =~= sb.to_set());
    lemma_same_ascent(sa, sb);
    let ra = arranged(a, ka);
    let rb = arranged(b, kb);
    assert forall|k: int| 0 <= k < ra.len() implies ra[k] == rb[k] by {
        assert(a.to_multiset().count(b[ob[k]]) > 0) by {
            assert(b.contains(b[ob[k]]));
        }
        let p = choose|p: int| 0 <= p < a.len() && a[p] == b[ob[k]];
        assert(sa[k] == sb[k]);
        assert(ka[oa[k]] == ka[p]);
        assert(oa[k] == p);
    }
    assert(ra =~= rb);
}

/// In a sorted order nothing comes before its predecessor.
pub proof fn lemma_sorted_weakly<K: StrictlyOrdered>(keys: Seq<K>, n: int)
    requires
        0 <= n <= keys.len(),
    ensures
        forall|i: int, j: int|
            0 <= i < j < n ==> !keys[#[trigger] sorted(keys, n)[j]].comes_before(
                keys[#[trigger] sorted(keys, n)[i]],
            ),
    decreases n,
{
    if n > 0 {
        lemma_sorted_weakly(keys, n - 1);
        lemma_sorted_indexes(keys, n - 1);
        lemma_placed_weakly(keys, sorted(keys, n - 1), n - 1);
        lemma_sorted_indexes(keys, n);
    }
}

proof fn lemma_placed_weakly<K: StrictlyOrdered>(keys: Seq<K>, order: Seq<int>, x: int)
    requires
        forall|i: int, j: int|
            0 <= i < j < order.len() ==> !keys[#[trigger] order[j]].comes_before(
                keys[#[trigger] order[i]],
            ),
    ensures
        ({
            let next = placed(keys, order, x);
            &&& next.len() == order.len() + 1
            &&& forall|y: int| #[trigger] next.contains(y) ==> order.contains(y) || y == x
            &&& forall|i: int, j: int|
                0 <= i < j < next.len() ==> !keys[#[trigger] next[j]].comes_before(
                    keys[#[trigger] next[i]],
                )
        }),
    decreases order.len(),
{
    let next = placed(keys, order, x);
    if order.len() > 0 && keys[x].comes_before(keys[order.last()]) {
        let rest = order.drop_last();
        let last = order.last();
        assert(order[order.len() - 1] == last);
        lemma_placed_weakly(keys, rest, x);
        let before = placed(keys, rest, x);
        assert forall|i: int, j: int| 0 <= i < j < next.len() implies !keys[
            #[trigger] next[j]
        ].comes_before(keys[#[trigger] next[i]]) by {
            if j < before.len() {
                assert(next[i] == before[i] && next[j] == before[j]);
            } else {
                assert(before.contains(before[i]));
                if before[i] == x {
                    K::total(keys[x], keys[last]);
                } else {
                    let k = choose|k: int| 0 <= k < rest.len() && rest[k] == before[i];
                    assert(order[k] == before[i]);
                }
            }
        }
        assert forall|y: int| #[trigger] next.contains(y) implies order.contains(y) || y == x by {
            let k = choose|k: int| 0 <= k < next.len() && next[k] == y;
            if k < before.len() {
                assert(before[k] == y);
                assert(before.contains(y));
                if y != x {
                    let l = choose|l: int| 0 <= l < rest.len() && rest[l] == y;
                    assert(order[l] == y);
                }
            }
        }
    } else {
        assert(next == order.push(x));
        assert forall|i: int, j: int| 0 <= i < j < next.len() implies !keys[
            #[trigger] next[j]
        ].comes_before(keys[#[trigger] next[i]]) by {
            if j == order.len() {
                let last = order.len() - 1;
                assert(next[j] == x);
                assert(order[last] == order.last());
                if i < last && keys[x].comes_before(keys[order[i]]) {
                    assert(!keys[order[last]].comes_before(keys[order[i]]));
                    K::total(keys[order[last]], keys[order[i]]);
                    K::total(keys[x], keys[order[i]]);
                    if keys[order[last]] != keys[order[i]] {
                        K::transitive(keys[x], keys[order[i]], keys[order[last]]);
                    }
                }
            }
        }
        assert forall|y: int| #[trigger] next.contains(y) implies order.contains(y) || y == x by {
            let k = choose|k: int| 0 <= k < next.len() && next[k] == y;
            if k < order.len() {
                assert(order[k] == y);
            }
        }
    }
}

} // verus!
