//! The values under the keys of JSON objects.
use crate::json::{lemma_whole, member_at, JsonModel, MemberModel};
use crate::text::decimal;
use vstd::prelude::*;

verus! {

/// Whether a value is the first one under a key of an object.
#[verifier::opaque]
pub open spec fn under(object: JsonModel, key: Seq<char>, value: JsonModel) -> bool {
    match object {
        JsonModel::Object(members) => exists|i: int|
            0 <= i < members.len() && (#[trigger] members[i]).key == key && members[i].value
                == value && forall|j: int| 0 <= j < i ==> (#[trigger] members[j]).key != key,
        _ => false,
    }
}

/// Whether a text stands under a key of an object.
pub open spec fn tells(object: JsonModel, key: Seq<char>, text: Seq<char>) -> bool {
    under(object, key, JsonModel::Text(text))
}

/// Whether a whole number stands under a key of an object.
pub open spec fn counts(object: JsonModel, key: Seq<char>, n: u64) -> bool {
    under(object, key, JsonModel::Number(decimal(n as nat)))
}

pub(crate) proof fn lemma_under(object: JsonModel, key: Seq<char>, value: JsonModel)
    ensures
        under(object, key, value) == (object.member(key) == Some(value)),
{
    reveal(under);
    if let JsonModel::Object(members) = object {
        if under(object, key, value) {
            let i = choose|i: int|
                0 <= i < members.len() && (#[trigger] members[i]).key == key && members[i].value
                    == value && forall|j: int| 0 <= j < i ==> (#[trigger] members[j]).key != key;
            assert(member_at(members, key, i));
            let k = choose|k: int| member_at(members, key, k);
            assert(member_at(members, key, k));
            assert(members[i].key == key && members[k].key == key);
            assert(i == k);
        }
        if object.member(key) == Some(value) {
            let k = choose|k: int| member_at(members, key, k);
            assert(member_at(members, key, k));
            assert(members[k].key == key && members[k].value == value);
        }
    }
}

pub(crate) proof fn lemma_tells(object: JsonModel, key: Seq<char>)
    ensures
        forall|text: Seq<char>| #[trigger] tells(object, key, text) == (object.text_member(key)
            == Some(text)),
{
    assert forall|text: Seq<char>| #[trigger] tells(object, key, text) == (object.text_member(key)
        == Some(text)) by {
        lemma_under(object, key, JsonModel::Text(text));
    }
}

pub(crate) proof fn lemma_counts(object: JsonModel, key: Seq<char>)
    ensures
        forall|n: u64| #[trigger] counts(object, key, n) == (object.whole_member(key) == Some(n)),
{
    assert forall|n: u64| #[trigger] counts(object, key, n) == (object.whole_member(key) == Some(
        n,
    )) by {
        lemma_under(object, key, JsonModel::Number(decimal(n as nat)));
        if counts(object, key, n) {
            lemma_whole(decimal(n as nat), n);
        }
        if object.whole_member(key) == Some(n) {
            let digits = object.member(key)->0->Number_0;
            let m = choose|m: u64| digits == #[trigger] decimal(m as nat);
            assert(digits == decimal(m as nat));
        }
    }
}

/// Whether no member has a key.
#[verifier::opaque]
pub open spec fn lacks(members: Seq<MemberModel>, key: Seq<char>) -> bool {
    forall|i: int| 0 <= i < members.len() ==> (#[trigger] members[i]).key != key
}

/// What stands under the keys of an object with one more member.
pub(crate) proof fn lemma_pushed(members: Seq<MemberModel>, member: MemberModel)
    ensures
        forall|key: Seq<char>, value: JsonModel| #[trigger]
            under(JsonModel::Object(members.push(member)), key, value) == (under(
                JsonModel::Object(members),
                key,
                value,
            ) || lacks(members, key) && member.key == key && member.value == value),
        forall|key: Seq<char>| #[trigger]
            lacks(members.push(member), key) == (lacks(members, key) && member.key != key),
{
    reveal(under);
    reveal(lacks);
    let more = members.push(member);
    let n = members.len() as int;
    assert(more[n] == member);
    assert forall|i: int| 0 <= i < n implies more[i] == members[i] by {}
    assert forall|key: Seq<char>| #[trigger] lacks(more, key) == (lacks(members, key) && member.key
        != key) by {
        if lacks(more, key) {
            assert(more[n].key != key);
            assert forall|i: int| 0 <= i < n implies (#[trigger] members[i]).key != key by {
                assert(more[i].key != key);
            }
        }
    }
    assert forall|key: Seq<char>, value: JsonModel| #[trigger]
        under(JsonModel::Object(more), key, value) == (under(JsonModel::Object(members), key, value)
            || lacks(members, key) && member.key == key && member.value == value) by {
        if under(JsonModel::Object(more), key, value) {
            let i = choose|i: int|
                0 <= i < more.len() && (#[trigger] more[i]).key == key && more[i].value == value
                    && forall|j: int| 0 <= j < i ==> (#[trigger] more[j]).key != key;
            assert forall|j: int| 0 <= j < i implies (#[trigger] members[j]).key != key by {
                assert(more[j].key != key);
            }
            if i < n {
                assert(members[i].key == key);
            }
        }
        if under(JsonModel::Object(members), key, value) {
            let i = choose|i: int|
                0 <= i < members.len() && (#[trigger] members[i]).key == key && members[i].value
                    == value && forall|j: int| 0 <= j < i ==> (#[trigger] members[j]).key != key;
            assert(more[i].key == key);
            assert forall|j: int| 0 <= j < i implies (#[trigger] more[j]).key != key by {
                assert(members[j].key != key);
            }
        }
        if lacks(members, key) && member.key == key && member.value == value {
            assert(more[n].key == key && more[n].value == value);
        }
    }
}

/// Nothing stands under a key that no member has.
pub(crate) proof fn lemma_lacking(members: Seq<MemberModel>)
    ensures
        forall|key: Seq<char>, value: JsonModel|
            lacks(members, key) ==> !#[trigger] under(JsonModel::Object(members), key, value),
{
    reveal(under);
    reveal(lacks);
}

/// Nothing stands under a key of an object without members.
pub(crate) proof fn lemma_nothing()
    ensures
        forall|key: Seq<char>, value: JsonModel|
            !#[trigger] under(JsonModel::Object(Seq::empty()), key, value),
        forall|key: Seq<char>| #[trigger] lacks(Seq::empty(), key),
{
    reveal(under);
    reveal(lacks);
}

} // verus!
