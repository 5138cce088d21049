//! Maps from texts to values, in the order of the texts.
use crate::text::{
    lemma_text_precedes_total, lemma_text_precedes_transitive, text_before, text_order, text_precedes,
    Duplicate, TextOrder,
};
use vstd::prelude::*;

verus! {

/// A value under a text.
pub struct Entry<V> {
    pub key: String,
    pub value: V,
}

/// Texts in strictly ascending order.
pub open spec fn keys_ascend<V>(entries: Seq<Entry<V>>) -> bool {
    forall|i: int, j: int|
        0 <= i < j < entries.len() ==> text_precedes(
            (#[trigger] entries[i]).key@,
            (#[trigger] entries[j]).key@,
        )
}

/// Whether a text is the one at an index.
pub open spec fn key_at<V>(entries: Seq<Entry<V>>, key: Seq<char>, i: int) -> bool {
    0 <= i < entries.len() && entries[i].key@ == key
}

/// Whether a text occurs.
pub open spec fn has_key<V>(entries: Seq<Entry<V>>, key: Seq<char>) -> bool {
    exists|i: int| key_at(entries, key, i)
}

/// The value under a text, if there is one.
pub open spec fn value_of<V>(entries: Seq<Entry<V>>, key: Seq<char>) -> Option<V> {
    if has_key(entries, key) {
        Some(entries[choose|i: int| key_at(entries, key, i)].value)
    } else {
        None
    }
}

/// In ascending entries a text has one place.
pub proof fn lemma_value_at<V>(entries: Seq<Entry<V>>, i: int)
    requires
        keys_ascend(entries),
        0 <= i < entries.len(),
    ensures
        has_key(entries, entries[i].key@),
        value_of(entries, entries[i].key@) == Some(entries[i].value),
{
    let key = entries[i].key@;
    assert(key_at(entries, key, i));
    let j = choose|j: int| key_at(entries, key, j);
    lemma_text_precedes_total(key, key);
    assert(entries[i].key@ == entries[j].key@);
}

/// Values under texts, held in ascending order of the texts.
pub struct TextMap<V> {
    entries: Vec<Entry<V>>,
}

impl<V> View for TextMap<V> {
    type V = Seq<Entry<V>>;

    closed spec fn view(&self) -> Seq<Entry<V>> {
        self.entries@
    }
}

impl<V> TextMap<V> {
    #[verifier::type_invariant]
    spec fn well_formed(self) -> bool {
        keys_ascend(self.entries@)
    }

    pub fn new() -> (r: Self)
        ensures
            r@ == Seq::<Entry<V>>::empty(),
    {
        TextMap { entries: Vec::new() }
    }

    /// The map of some entries, if their texts ascend.
    pub fn from_entries(entries: Vec<Entry<V>>) -> (r: Option<Self>)
        ensures
            match r {
                Some(map) => keys_ascend(entries@) && map@ == entries@,
                None => !keys_ascend(entries@),
            },
    {
        let mut i: usize = 1;
        while i < entries.len()
            invariant
                1 <= i,
                i <= entries.len() || entries.len() == 0,
                forall|a: int, b: int|
                    0 <= a < b < i && b < entries.len() ==> text_precedes(
                        (#[trigger] entries@[a]).key@,
                        (#[trigger] entries@[b]).key@,
                    ),
            decreases entries.len() - i,
        {
            if !text_before(entries[i - 1].key.as_str(), entries[i].key.as_str()) {
                return None;
            }
            proof {
                assert forall|a: int| 0 <= a < i implies text_precedes(
                    (#[trigger] entries@[a]).key@,
                    entries@[i as int].key@,
                ) by {
                    if a < i - 1 {
                        lemma_text_precedes_transitive(
                            entries@[a].key@,
                            entries@[i - 1].key@,
                            entries@[i as int].key@,
                        );
                    }
                }
            }
            i += 1;
        }
        Some(TextMap { entries })
    }

    pub fn len(&self) -> (r: usize)
        ensures
            r == self@.len(),
            keys_ascend(self@),
    {
        proof {
            use_type_invariant(self);
        }
        self.entries.len()
    }

    /// The text at an index.
    pub fn key(&self, i: usize) -> (r: &str)
        requires
            i < self@.len(),
        ensures
            r@ == self@[i as int].key@,
    {
        self.entries[i].key.as_str()
    }

    /// The value at an index.
    pub fn value(&self, i: usize) -> (r: &V)
        requires
            i < self@.len(),
        ensures
            *r == self@[i as int].value,
    {
        &self.entries[i].value
    }

    /// A copy of a map of plain values.
    pub fn copied(&self) -> (r: Self) where V: Copy
        ensures
            r@.len() == self@.len(),
            forall|i: int|
                0 <= i < self@.len() ==> (#[trigger] r@[i]).key@ == self@[i].key@ && r@[i].value
                    == self@[i].value,
    {
        proof {
            use_type_invariant(self);
        }
        let mut entries: Vec<Entry<V>> = Vec::new();
        let mut i: usize = 0;
        while i < self.entries.len()
            invariant
                i <= self.entries.len(),
                entries.len() == i,
                forall|k: int|
                    0 <= k < i ==> (#[trigger] entries@[k]).key@ == self.entries@[k].key@
                        && entries@[k].value == self.entries@[k].value,
            decreases self.entries.len() - i,
        {
            let entry = Entry { key: self.entries[i].key.clone(), value: self.entries[i].value };
            entries.push(entry);
            i += 1;
        }
        assert(keys_ascend(entries@)) by {
            assert forall|a: int, b: int| 0 <= a < b < entries@.len() implies text_precedes(
                (#[trigger] entries@[a]).key@,
                (#[trigger] entries@[b]).key@,
            ) by {
                assert(self.entries@[a].key@ == entries@[a].key@);
                assert(self.entries@[b].key@ == entries@[b].key@);
            }
        }
        TextMap { entries }
    }

    /// A copy of a map.
    pub fn duplicate(&self) -> (r: Self) where V: Duplicate
        ensures
            r@ == self@,
    {
        proof {
            use_type_invariant(self);
        }
        let mut entries: Vec<Entry<V>> = Vec::new();
        let mut i: usize = 0;
        while i < self.entries.len()
            invariant
                i <= self.entries.len(),
                entries@ == self.entries@.subrange(0, i as int),
            decreases self.entries.len() - i,
        {
            let entry = Entry {
                key: self.entries[i].key.clone(),
                value: self.entries[i].value.duplicate(),
            };
            entries.push(entry);
            i += 1;
            assert(entries@ =~= self.entries@.subrange(0, i as int));
        }
        assert(entries@ =~= self.entries@);
        TextMap { entries }
    }

    fn find(&self, key: &str) -> (r: Option<usize>)
        ensures
            match r {
                Some(i) => key_at(self@, key@, i as int),
                None => !has_key(self@, key@),
            },
    {
        let mut i: usize = 0;
        while i < self.entries.len()
            invariant
                i <= self.entries.len(),
                forall|k: int| 0 <= k < i ==> !#[trigger] key_at(self.entries@, key@, k),
            decreases self.entries.len() - i,
        {
            if crate::text::same_text(self.entries[i].key.as_str(), key) {
                assert(key_at(self@, key@, i as int));
                return Some(i);
            }
            i += 1;
        }
        None
    }

    pub fn get(&self, key: &str) -> (r: Option<&V>)
        ensures
            match r {
                Some(value) => value_of(self@, key@) == Some(*value),
                None => value_of(self@, key@) is None,
            },
    {
        proof {
            use_type_invariant(self);
        }
        match self.find(key) {
            Some(i) => {
                proof {
                    lemma_value_at(self@, i as int);
                }
                Some(&self.entries[i].value)
            },
            None => None,
        }
    }

    pub fn contains_key(&self, key: &str) -> (r: bool)
        ensures
            r == has_key(self@, key@),
    {
        self.find(key).is_some()
    }

    /// Puts a value under a text; tells whether another one was there.
    pub fn insert(&mut self, key: String, value: V) -> (replaced: bool)
        ensures
            replaced == has_key(old(self)@, key@),
            keys_ascend(final(self)@),
            value_of(final(self)@, key@) == Some(value),
            forall|other: Seq<char>|
                other != key@ ==> #[trigger] value_of(final(self)@, other) == value_of(
                    old(self)@,
                    other,
                ),
            final(self)@.len() == old(self)@.len() + if replaced {
                0int
            } else {
                1int
            },
    {
        proof {
            use_type_invariant(&*self);
        }
        let found = self.find(key.as_str());
        let mut entries: Vec<Entry<V>> = Vec::new();
        let ghost before = self@;
        let ghost text = key@;
        core::mem::swap(&mut self.entries, &mut entries);
        match found {
            Some(i) => {
                entries.set(i, Entry { key, value });
                proof {
                    let after = entries@;
                    assert(keys_ascend(after)) by {
                        assert forall|a: int, b: int| 0 <= a < b < after.len() implies text_precedes(
                            (#[trigger] after[a]).key@,
                            (#[trigger] after[b]).key@,
                        ) by {
                            assert(after[a].key@ == before[a].key@);
                            assert(after[b].key@ == before[b].key@);
                        }
                    }
                    lemma_value_at(after, i as int);
                    assert forall|other: Seq<char>| other != text implies #[trigger] value_of(
                        after,
                        other,
                    ) == value_of(before, other) by {
                        if has_key(before, other) {
                            let q = choose|q: int| key_at(before, other, q);
                            assert(key_at(after, other, q));
                            lemma_value_at(before, q);
                            lemma_value_at(after, q);
                        }
                        if has_key(after, other) {
                            let q = choose|q: int| key_at(after, other, q);
                            assert(key_at(before, other, q));
                        }
                    }
                }
                self.entries = entries;
                true
            },
            None => {
                let mut k: usize = 0;
                while k < entries.len() && text_order(entries[k].key.as_str(), key.as_str())
                    == TextOrder::Before
                    invariant
                        k <= entries.len(),
                        entries@ == before,
                        text == key@,
                        forall|i: int|
                            0 <= i < k ==> text_precedes((#[trigger] entries@[i]).key@, text),
                    decreases entries.len() - k,
                {
                    k += 1;
                }
                proof {
                    assert forall|i: int| k <= i < before.len() implies text_precedes(
                        text,
                        (#[trigger] before[i]).key@,
                    ) by {
                        assert(!key_at(before, text, k as int));
                        lemma_text_precedes_total(before[k as int].key@, text);
                        if i > k {
                            lemma_text_precedes_transitive(
                                text,
                                before[k as int].key@,
                                before[i].key@,
                            );
                        }
                    }
                }
                entries.insert(k, Entry { key, value });
                proof {
                    let after = entries@;
                    assert(keys_ascend(after)) by {
                        assert forall|a: int, b: int| 0 <= a < b < after.len() implies text_precedes(
                            (#[trigger] after[a]).key@,
                            (#[trigger] after[b]).key@,
                        ) by {
                            let c = if a < k {
                                a
                            } else {
                                a - 1
                            };
                            let d = if b < k {
                                b
                            } else {
                                b - 1
                            };
                            if a != k {
                                assert(after[a] == before[c]);
                            }
                            if b != k {
                                assert(after[b] == before[d]);
                            }
                        }
                    }
                    lemma_value_at(after, k as int);
                    assert forall|other: Seq<char>| other != text implies #[trigger] value_of(
                        after,
                        other,
                    ) == value_of(before, other) by {
                        if has_key(before, other) {
                            let q = choose|q: int| key_at(before, other, q);
                            let moved = if q < k {
                                q
                            } else {
                                q + 1
                            };
                            assert(after[moved] == before[q]);
                            assert(key_at(after, other, moved));
                            lemma_value_at(before, q);
                            lemma_value_at(after, moved);
                        }
                        if has_key(after, other) {
                            let q = choose|q: int| key_at(after, other, q);
                            let moved = if q < k {
                                q
                            } else {
                                q - 1
                            };
                            assert(after[q] == before[moved]);
                            assert(key_at(before, other, moved));
                        }
                    }
                }
                self.entries = entries;
                false
            },
        }
    }
}

} // verus!
