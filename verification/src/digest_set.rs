//! Sets of identities, in ascending order.
use crate::canonical::{push_digest, quoted};
use crate::digest::{lemma_precedes_total, lemma_precedes_transitive, Digest};
use crate::arrange::lemma_sorted_ascends;
use crate::order::{lemma_sorted_indexes, picked, sorted, Ordered};
use vstd::prelude::*;

verus! {

/// Identities in strictly ascending order.
pub open spec fn digests_ascend(digests: Seq<Digest>) -> bool {
    forall|i: int, j: int|
        0 <= i < j < digests.len() ==> (#[trigger] digests[i]).precedes(#[trigger] digests[j])
}

/// Ascending identities are all different.
pub proof fn lemma_ascending_unique(digests: Seq<Digest>)
    requires
        digests_ascend(digests),
    ensures
        digests.no_duplicates(),
{
    assert forall|i: int, j: int| 0 <= i < digests.len() && 0 <= j < digests.len() && i
        != j implies digests[i] != digests[j] by {
        lemma_precedes_total(digests[i], digests[j]);
    }
}

/// Two ascending sequences with the same identities are the same.
pub proof fn lemma_ascending_equal(a: Seq<Digest>, b: Seq<Digest>)
    requires
        digests_ascend(a),
        digests_ascend(b),
        a.to_set() == b.to_set(),
    ensures
        a == b,
    decreases a.len(),
{
    lemma_ascending_unique(a);
    lemma_ascending_unique(b);
    a.unique_seq_to_set();
    b.unique_seq_to_set();
    if a.len() > 0 {
        let x = a.last();
        let y = b.last();
        assert(a.contains(x) && b.contains(y)) by {
            assert(a[a.len() - 1] == x);
            assert(b[b.len() - 1] == y);
        }
        assert(a.to_set().contains(x) && a.to_set().contains(y));
        assert(b.to_set().contains(x) && b.to_set().contains(y));
        let i = choose|i: int| 0 <= i < b.len() && b[i] == x;
        let j = choose|j: int| 0 <= j < a.len() && a[j] == y;
        lemma_precedes_total(x, y);
        assert(x == y) by {
            if x != y {
                assert(b[i].precedes(b[b.len() - 1]));
                assert(a[j].precedes(a[a.len() - 1]));
            }
        }
        let c = a.drop_last();
        let d = b.drop_last();
        assert forall|z: Digest| c.to_set().contains(z) <==> d.to_set().contains(z) by {
            if c.to_set().contains(z) {
                let k = choose|k: int| 0 <= k < c.len() && c[k] == z;
                assert(a[k] == z);
                assert(a.to_set().contains(z));
                assert(b.to_set().contains(z));
                let l = choose|l: int| 0 <= l < b.len() && b[l] == z;
                assert(l != b.len() - 1);
                assert(d[l] == z);
            }
            if d.to_set().contains(z) {
                let k = choose|k: int| 0 <= k < d.len() && d[k] == z;
                assert(b[k] == z);
                assert(b.to_set().contains(z));
                assert(a.to_set().contains(z));
                let l = choose|l: int| 0 <= l < a.len() && a[l] == z;
                assert(l != a.len() - 1);
                assert(c[l] == z);
            }
        }
        assert(c.to_set() =~= d.to_set());
        assert forall|p: int, q: int| 0 <= p < q < c.len() implies (#[trigger] c[p]).precedes(
            #[trigger] c[q],
        ) by {
            assert(c[p] == a[p] && c[q] == a[q]);
        }
        assert forall|p: int, q: int| 0 <= p < q < d.len() implies (#[trigger] d[p]).precedes(
            #[trigger] d[q],
        ) by {
            assert(d[p] == b[p] && d[q] == b[q]);
        }
        lemma_ascending_equal(c, d);
        assert(a =~= c.push(x));
        assert(b =~= d.push(y));
    } else {
        assert(a =~= b);
    }
}

/// Some identities in ascending order, each once.
pub open spec fn ascending_of(digests: Seq<Digest>) -> Seq<Digest> {
    choose|s: Seq<Digest>| digests_ascend(s) && s.to_set() == digests.to_set()
}

/// What has the identities in ascending order is their ascending sequence.
pub proof fn lemma_is_ascending_of(s: Seq<Digest>, digests: Seq<Digest>)
    requires
        digests_ascend(s),
        s.to_set() == digests.to_set(),
    ensures
        ascending_of(digests) == s,
{
    let t = ascending_of(digests);
    assert(digests_ascend(t) && t.to_set() == digests.to_set());
    lemma_ascending_equal(s, t);
}

proof fn lemma_unique(digests: Seq<Digest>) -> (unique: Seq<Digest>)
    ensures
        unique.no_duplicates(),
        unique.to_set() == digests.to_set(),
    decreases digests.len(),
{
    if digests.len() == 0 {
        digests
    } else {
        let rest = digests.drop_last();
        let x = digests.last();
        let before = lemma_unique(rest);
        assert(digests =~= rest.push(x));
        let unique = if before.contains(x) {
            before
        } else {
            before.push(x)
        };
        assert forall|y: Digest| unique.to_set().contains(y) <==> digests.to_set().contains(y) by {
            if unique.to_set().contains(y) {
                if before.contains(y) {
                    assert(before.to_set().contains(y));
                    assert(rest.contains(y));
                    let k = choose|k: int| 0 <= k < rest.len() && rest[k] == y;
                    assert(digests[k] == y);
                } else {
                    assert(y == x);
                    assert(digests[digests.len() - 1] == y);
                }
            }
            if digests.to_set().contains(y) {
                if y == x {
                    if !before.contains(x) {
                        assert(unique[before.len() as int] == x);
                    }
                } else {
                    let k = choose|k: int| 0 <= k < digests.len() && digests[k] == y;
                    assert(rest[k] == y);
                    assert(rest.to_set().contains(y));
                    assert(before.contains(y));
                    let l = choose|l: int| 0 <= l < before.len() && before[l] == y;
                    assert(unique[l] == y);
                }
            }
        }
        assert(unique.to_set() =~= digests.to_set());
        unique
    }
}

/// There is an ascending sequence of any identities.
pub proof fn lemma_ascending_of_exists(digests: Seq<Digest>)
    ensures
        digests_ascend(ascending_of(digests)),
        ascending_of(digests).to_set() == digests.to_set(),
{
    let unique = lemma_unique(digests);
    let n = unique.len() as int;
    lemma_sorted_ascends(unique, n);
    lemma_sorted_indexes(unique, n);
    let order = sorted(unique, n);
    let s = picked(unique, order);
    assert forall|y: Digest| s.to_set().contains(y) <==> unique.to_set().contains(y) by {
        if s.to_set().contains(y) {
            let k = choose|k: int| 0 <= k < s.len() && s[k] == y;
            assert(unique[order[k]] == y);
        }
        if unique.to_set().contains(y) {
            let k = choose|k: int| 0 <= k < unique.len() && unique[k] == y;
            assert(order.contains(k));
            let l = choose|l: int| 0 <= l < order.len() && order[l] == k;
            assert(s[l] == y);
        }
    }
    assert(s.to_set() =~= digests.to_set());
    assert forall|i: int, j: int| 0 <= i < j < s.len() implies (#[trigger] s[i]).precedes(
        #[trigger] s[j],
    ) by {
        assert(s[i].comes_before(s[j]));
    }
    assert(digests_ascend(s) && s.to_set() == digests.to_set());
}

/// A set of identities.
#[derive(Debug, PartialEq, Eq)]
pub struct DigestSet {
    digests: Vec<Digest>,
}

impl View for DigestSet {
    type V = Seq<Digest>;

    closed spec fn view(&self) -> Seq<Digest> {
        self.digests@
    }
}

impl DigestSet {
    #[verifier::type_invariant]
    spec fn well_formed(self) -> bool {
        digests_ascend(self.digests@)
    }

    pub fn new() -> (r: Self)
        ensures
            r@ == Seq::<Digest>::empty(),
    {
        DigestSet { digests: Vec::new() }
    }

    pub fn len(&self) -> (r: usize)
        ensures
            r == self@.len(),
            digests_ascend(self@),
            self@.to_set().len() == self@.len(),
    {
        proof {
            use_type_invariant(self);
            lemma_ascending_unique(self@);
            self@.unique_seq_to_set();
        }
        self.digests.len()
    }

    pub fn contains(&self, digest: Digest) -> (r: bool)
        ensures
            r == self@.contains(digest),
    {
        let mut i: usize = 0;
        while i < self.digests.len()
            invariant
                i <= self.digests.len(),
                forall|k: int| 0 <= k < i ==> self.digests@[k] != digest,
            decreases self.digests.len() - i,
        {
            if self.digests[i] == digest {
                return true;
            }
            i += 1;
        }
        false
    }

    /// Adds an identity; tells whether it is new.
    pub fn insert(&mut self, digest: Digest) -> (new: bool)
        ensures
            new == !old(self)@.contains(digest),
            digests_ascend(final(self)@),
            final(self)@.to_set() == old(self)@.to_set().insert(digest),
            final(self)@.len() == old(self)@.len() + if new {
                1int
            } else {
                0int
            },
    {
        proof {
            use_type_invariant(&*self);
        }
        if self.contains(digest) {
            assert(self@.to_set() =~= self@.to_set().insert(digest));
            return false;
        }
        let ghost before = self@;
        let mut digests: Vec<Digest> = Vec::new();
        core::mem::swap(&mut self.digests, &mut digests);
        let mut k: usize = 0;
        while k < digests.len() && digests[k].before(&digest)
            invariant
                k <= digests.len(),
                digests@ == before,
                forall|i: int| 0 <= i < k ==> (#[trigger] digests@[i]).precedes(digest),
            decreases digests.len() - k,
        {
            k += 1;
        }
        proof {
            assert forall|i: int| k <= i < before.len() implies digest.precedes(
                #[trigger] before[i],
            ) by {
                lemma_precedes_total(before[k as int], digest);
                if i > k {
                    lemma_precedes_transitive(digest, before[k as int], before[i]);
                }
            }
        }
        digests.insert(k, digest);
        proof {
            let after = digests@;
            assert(digests_ascend(after)) by {
                assert forall|a: int, b: int| 0 <= a < b < after.len() implies (
                #[trigger] after[a]).precedes(#[trigger] after[b]) by {
                    let c = if a < k {
                        a
                    } else {
                        a - 1
                    };
                    let d = if b < k {
                        b
                    } else {
                        b - 1
                    };
                    if a != k {
                        assert(after[a] == before[c]);
                    }
                    if b != k {
                        assert(after[b] == before[d]);
                    }
                }
            }
            assert(after.to_set() =~= before.to_set().insert(digest)) by {
                assert forall|x: Digest| after.contains(x) <==> before.contains(x) || x
                    == digest by {
                    if after.contains(x) {
                        let i = choose|i: int| 0 <= i < after.len() && after[i] == x;
                        if i != k {
                            assert(before[if i < k {
                                i
                            } else {
                                i - 1
                            }] == x);
                        }
                    }
                    if before.contains(x) {
                        let i = choose|i: int| 0 <= i < before.len() && before[i] == x;
                        assert(after[if i < k {
                            i
                        } else {
                            i + 1
                        }] == x);
                    }
                    if x == digest {
                        assert(after[k as int] == x);
                    }
                }
            }
        }
        self.digests = digests;
        true
    }

    /// The identity at an index.
    pub fn get(&self, i: usize) -> (r: Digest)
        requires
            i < self@.len(),
        ensures
            r == self@[i as int],
    {
        self.digests[i]
    }
}

/// The canonical JSON of the first `n` identities, separated by commas.
pub open spec fn digests_json(digests: Seq<Digest>, n: int) -> Seq<char>
    decreases n,
{
    if n <= 0 {
        ""@
    } else if n == 1 {
        ""@ + quoted(digests[0].text())
    } else {
        digests_json(digests, n - 1) + ","@ + quoted(digests[n - 1].text())
    }
}

pub(crate) fn digests_text(set: &DigestSet) -> (r: String)
    ensures
        r@ == digests_json(set@, set@.len() as int),
{
    let mut json = "".to_owned();
    let mut i: usize = 0;
    while i < set.len()
        invariant
            i <= set@.len(),
            json@ == digests_json(set@, i as int),
        decreases set@.len() - i,
    {
        if i > 0 {
            json.push_str(",");
        }
        push_digest(&mut json, &set.get(i));
        i += 1;
    }
    json
}

} // verus!
