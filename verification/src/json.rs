//! JSON values.
use crate::canonical::{bool_text, json_string, push_json_string};
use crate::text::{
    decimal, lemma_decimal, lemma_text_precedes_total, parse_decimal, same_text, text_before,
    text_precedes,
};
use vstd::prelude::*;
use vstd::utf8::encode_utf8;

verus! {

/// A JSON value. Numbers are held in their canonical notation, and the members of an
/// object in the order in which they are written.
#[derive(Debug, PartialEq, Eq)]
pub enum Json {
    Null,
    Bool(bool),
    Number(String),
    Text(String),
    List(Vec<Json>),
    Object(Vec<Member>),
}

/// A value under a key.
#[derive(Debug, PartialEq, Eq)]
pub struct Member {
    pub key: String,
    pub value: Json,
}

/// What a JSON value says.
#[verifier::ext_equal]
pub enum JsonModel {
    Null,
    Bool(bool),
    Number(Seq<char>),
    Text(Seq<char>),
    List(Seq<JsonModel>),
    Object(Seq<MemberModel>),
}

/// What a member says.
#[verifier::ext_equal]
pub struct MemberModel {
    pub key: Seq<char>,
    pub value: JsonModel,
}

/// What a value says.
pub open spec fn model(json: Json) -> JsonModel
    decreases json, 0nat,
{
    match json {
        Json::Null => JsonModel::Null,
        Json::Bool(value) => JsonModel::Bool(value),
        Json::Number(notation) => JsonModel::Number(notation@),
        Json::Text(text) => JsonModel::Text(text@),
        Json::List(items) => JsonModel::List(item_models(items, items@.len())),
        Json::Object(members) => JsonModel::Object(member_models(members, members@.len())),
    }
}

/// What the first `n` items of a list say.
pub open spec fn item_models(items: Vec<Json>, n: nat) -> Seq<JsonModel>
    decreases items, n,
{
    if n == 0 || n > items@.len() {
        Seq::empty()
    } else {
        item_models(items, (n - 1) as nat).push(model(items@[n - 1]))
    }
}

/// What the first `n` members of an object say.
pub open spec fn member_models(members: Vec<Member>, n: nat) -> Seq<MemberModel>
    decreases members, n,
{
    if n == 0 || n > members@.len() {
        Seq::empty()
    } else {
        member_models(members, (n - 1) as nat).push(
            MemberModel { key: members@[n - 1].key@, value: model(members@[n - 1].value) },
        )
    }
}

impl View for Json {
    type V = JsonModel;

    open spec fn view(&self) -> JsonModel {
        model(*self)
    }
}

/// What a member says.
pub open spec fn member_model(member: Member) -> MemberModel {
    MemberModel { key: member.key@, value: member.value@ }
}

pub proof fn lemma_items(items: Vec<Json>, n: nat)
    requires
        n <= items@.len(),
    ensures
        item_models(items, n).len() == n,
        forall|i: int| 0 <= i < n ==> #[trigger] item_models(items, n)[i] == items@[i]@,
    decreases n,
{
    if n > 0 {
        lemma_items(items, (n - 1) as nat);
    }
}

pub proof fn lemma_members(members: Vec<Member>, n: nat)
    requires
        n <= members@.len(),
    ensures
        member_models(members, n).len() == n,
        forall|i: int|
            0 <= i < n ==> #[trigger] member_models(members, n)[i] == member_model(members@[i]),
    decreases n,
{
    if n > 0 {
        lemma_members(members, (n - 1) as nat);
    }
}

/// What a number is worth: the floating-point zeros are one value in two notations, and any
/// other notation stands for a value of its own.
pub open spec fn number_value(digits: Seq<char>) -> Seq<char> {
    if digits == "-0.0"@ {
        "0.0"@
    } else {
        digits
    }
}

/// What a value is worth, whatever the notation of its numbers.
pub open spec fn worth(json: JsonModel) -> JsonModel
    decreases json, 0nat,
{
    match json {
        JsonModel::Number(digits) => JsonModel::Number(number_value(digits)),
        JsonModel::List(items) => JsonModel::List(item_worths(items, items.len())),
        JsonModel::Object(members) => JsonModel::Object(member_worths(members, members.len())),
        other => other,
    }
}

/// What the first `n` items are worth.
pub open spec fn item_worths(items: Seq<JsonModel>, n: nat) -> Seq<JsonModel>
    decreases items, n,
{
    if n == 0 || n > items.len() {
        Seq::empty()
    } else {
        item_worths(items, (n - 1) as nat).push(worth(items[n - 1]))
    }
}

/// What the first `n` members are worth.
pub open spec fn member_worths(members: Seq<MemberModel>, n: nat) -> Seq<MemberModel>
    decreases members, n,
{
    if n == 0 || n > members.len() {
        Seq::empty()
    } else {
        member_worths(members, (n - 1) as nat).push(
            MemberModel { key: members[n - 1].key, value: worth(members[n - 1].value) },
        )
    }
}

/// Whether two values are worth the same.
pub open spec fn alike(a: JsonModel, b: JsonModel) -> bool {
    worth(a) == worth(b)
}

proof fn lemma_item_worths(items: Seq<JsonModel>, n: nat)
    requires
        n <= items.len(),
    ensures
        item_worths(items, n).len() == n,
        forall|i: int| 0 <= i < n ==> #[trigger] item_worths(items, n)[i] == worth(items[i]),
    decreases n,
{
    if n > 0 {
        lemma_item_worths(items, (n - 1) as nat);
    }
}

proof fn lemma_member_worths(members: Seq<MemberModel>, n: nat)
    requires
        n <= members.len(),
    ensures
        member_worths(members, n).len() == n,
        forall|i: int|
            0 <= i < n ==> #[trigger] member_worths(members, n)[i] == (MemberModel {
                key: members[i].key,
                value: worth(members[i].value),
            }),
    decreases n,
{
    if n > 0 {
        lemma_member_worths(members, (n - 1) as nat);
    }
}

/// What is worth the same as a text, a truth value or a whole number is that.
pub proof fn lemma_alike_plain(a: JsonModel, b: JsonModel)
    requires
        match b {
            JsonModel::Null => true,
            JsonModel::Bool(value) => true,
            JsonModel::Text(text) => true,
            JsonModel::Number(digits) => exists|n: nat| digits == #[trigger] decimal(n),
            _ => false,
        },
    ensures
        alike(a, b) <==> a == b,
{
    reveal_strlit("0.0");
    reveal_strlit("-0.0");
    if let JsonModel::Number(digits) = b {
        let n = choose|n: nat| digits == #[trigger] decimal(n);
        lemma_decimal(n);
        if digits == "0.0"@ {
            assert(crate::text::is_digit(digits[1]));
        }
        if digits == "-0.0"@ {
            assert(crate::text::is_digit(digits[0]));
        }
    }
}

#[verifier::external_type_specification]
#[verifier::external_body]
pub struct ExJsonValue(serde_json::Value);

/// Takes a `serde_json::Value` apart, one variant for one; a number keeps the notation in
/// which `serde_json::Number` writes it.
#[verifier::external_body]
fn lift(value: serde_json::Value) -> (r: Json) {
    match value {
        serde_json::Value::Null => Json::Null,
        serde_json::Value::Bool(value) => Json::Bool(value),
        serde_json::Value::Number(number) => Json::Number(number.to_string()),
        serde_json::Value::String(text) => Json::Text(text),
        serde_json::Value::Array(items) => Json::List(items.into_iter().map(lift).collect()),
        serde_json::Value::Object(members) => Json::Object(
            members.into_iter().map(|(key, value)| Member { key, value: lift(value) }).collect(),
        ),
    }
}

/// The value that some bytes spell, if they spell one.
pub uninterp spec fn parsed_json(bytes: Seq<u8>) -> Option<JsonModel>;

/// Whether the keys of an object ascend.
pub open spec fn keys_in_order(members: Seq<MemberModel>) -> bool {
    forall|i: int, j: int|
        0 <= i < j < members.len() ==> text_precedes(
            (#[trigger] members[i]).key,
            (#[trigger] members[j]).key,
        )
}

/// The key by which `serde_json` marks an object that stands for raw JSON.
pub open spec fn raw_key() -> Seq<char> {
    "$serde_json::private::RawValue"@
}

/// Whether a value is noted as it is read: its numbers are whole, the keys of its objects
/// ascend, none of them marks raw JSON, and it is nested no deeper than a bound.
pub open spec fn plainly_noted(value: JsonModel, depth: nat) -> bool
    decreases depth,
{
    match value {
        JsonModel::Null => true,
        JsonModel::Bool(_) => true,
        JsonModel::Number(digits) => exists|n: u64| digits == #[trigger] decimal(n as nat),
        JsonModel::Text(_) => true,
        JsonModel::List(items) => depth > 0 && forall|i: int|
            0 <= i < items.len() ==> plainly_noted(#[trigger] items[i], (depth - 1) as nat),
        JsonModel::Object(members) => depth > 0 && keys_in_order(members) && forall|i: int|
            0 <= i < members.len() ==> (#[trigger] members[i]).key != raw_key() && plainly_noted(
                members[i].value,
                (depth - 1) as nat,
            ),
    }
}

/// Whether bytes are the notation of a value that is read back from it.
pub open spec fn notes(bytes: Seq<u8>, value: JsonModel) -> bool {
    plainly_noted(value, 64) && bytes == encode_utf8(notation(value))
}

/// `serde_json::from_slice` into a `Value` is a function of the bytes alone. It reads a value
/// back from its compact notation, where the strings are those of `serde_json::to_string`,
/// the numbers fit `u64`, the members are in the order in which a `Map` keeps them and have
/// no key that the parser reserves for raw JSON, and the nesting is within what it takes.
#[verifier::external_body]
fn read_json(bytes: &[u8]) -> (r: Option<Json>)
    ensures
        match r {
            Some(json) => parsed_json(bytes@) == Some(json@),
            None => parsed_json(bytes@) is None,
        },
        forall|value: JsonModel| #[trigger] notes(bytes@, value) ==> r is Some && r->0@ == value,
{
    serde_json::from_slice::<serde_json::Value>(bytes).ok().map(lift)
}

/// The first member with a key.
pub open spec fn member_at(members: Seq<MemberModel>, key: Seq<char>, i: int) -> bool {
    &&& 0 <= i < members.len()
    &&& members[i].key == key
    &&& forall|j: int| 0 <= j < i ==> (#[trigger] members[j]).key != key
}

/// The value under a key.
pub open spec fn member_value(members: Seq<MemberModel>, key: Seq<char>) -> Option<JsonModel> {
    if exists|i: int| member_at(members, key, i) {
        Some(members[choose|i: int| member_at(members, key, i)].value)
    } else {
        None
    }
}

impl JsonModel {
    /// The value under a key of an object.
    pub open spec fn member(self, key: Seq<char>) -> Option<JsonModel> {
        match self {
            JsonModel::Object(members) => member_value(members, key),
            _ => None,
        }
    }

    /// The text under a key of an object.
    pub open spec fn text_member(self, key: Seq<char>) -> Option<Seq<char>> {
        match self.member(key) {
            Some(JsonModel::Text(text)) => Some(text),
            _ => None,
        }
    }
}

impl Json {
    /// Reads a JSON document. What was noted plainly is read back.
    pub fn parse(bytes: &[u8]) -> (r: Option<Json>)
        ensures
            match r {
                Some(json) => parsed_json(bytes@) == Some(json@),
                None => parsed_json(bytes@) is None,
            },
            forall|value: JsonModel| #[trigger] notes(bytes@, value) ==> r is Some && r->0@ == value,
    {
        read_json(bytes)
    }

    /// The value under a key of an object.
    pub fn get(&self, key: &str) -> (r: Option<&Json>)
        ensures
            match r {
                Some(value) => self@.member(key@) == Some(value@),
                None => self@.member(key@) is None,
            },
    {
        match self {
            Json::Object(members) => {
                proof {
                    lemma_members(*members, members@.len());
                }
                let ghost all = member_models(*members, members@.len());
                let mut i: usize = 0;
                while i < members.len()
                    invariant
                        i <= members.len(),
                        all.len() == members.len(),
                        self@ == JsonModel::Object(all),
                        forall|k: int|
                            0 <= k < members.len() ==> #[trigger] all[k] == member_model(
                                members@[k],
                            ),
                        forall|k: int| 0 <= k < i ==> (#[trigger] all[k]).key != key@,
                    decreases members.len() - i,
                {
                    if same_text(members[i].key.as_str(), key) {
                        proof {
                            assert(all[i as int].key == key@);
                            assert(member_at(all, key@, i as int));
                            let k = choose|k: int| member_at(all, key@, k);
                            assert(member_at(all, key@, k));
                            assert(all[k].key == all[i as int].key);
                        }
                        return Some(&members[i].value);
                    }
                    assert(all[i as int].key != key@);
                    i += 1;
                }
                None
            },
            _ => None,
        }
    }

    /// The text under a key of an object.
    pub fn text(&self, key: &str) -> (r: Option<&str>)
        ensures
            match r {
                Some(text) => self@.text_member(key@) == Some(text@),
                None => self@.text_member(key@) is None,
            },
    {
        match self.get(key) {
            Some(Json::Text(text)) => Some(text.as_str()),
            _ => None,
        }
    }

    /// Whether two values are worth the same.
    pub fn same(&self, other: &Json) -> (r: bool)
        ensures
            r == alike(self@, other@),
        decreases self, 0nat,
    {
        match (self, other) {
            (Json::Null, Json::Null) => true,
            (Json::Bool(a), Json::Bool(b)) => *a == *b,
            (Json::Number(a), Json::Number(b)) => same_number(a, b),
            (Json::Text(a), Json::Text(b)) => same_text(a.as_str(), b.as_str()),
            (Json::List(a), Json::List(b)) => {
                let ghost x = item_models(*a, a@.len());
                let ghost y = item_models(*b, b@.len());
                proof {
                    lemma_items(*a, a@.len());
                    lemma_items(*b, b@.len());
                    lemma_item_worths(x, x.len());
                    lemma_item_worths(y, y.len());
                }
                if a.len() != b.len() {
                    assert(item_worths(x, x.len()).len() != item_worths(y, y.len()).len());
                    return false;
                }
                same_items(a, b, a.len())
            },
            (Json::Object(a), Json::Object(b)) => {
                let ghost x = member_models(*a, a@.len());
                let ghost y = member_models(*b, b@.len());
                proof {
                    lemma_members(*a, a@.len());
                    lemma_members(*b, b@.len());
                    lemma_member_worths(x, x.len());
                    lemma_member_worths(y, y.len());
                }
                if a.len() != b.len() {
                    assert(member_worths(x, x.len()).len() != member_worths(y, y.len()).len());
                    return false;
                }
                same_members(a, b, a.len())
            },
            _ => false,
        }
    }

    /// Overwrites the texts and keys of the value, and leaves it null.
    pub fn wipe(&mut self)
        ensures
            final(self)@ == JsonModel::Null,
    {
        let mut taken = Json::Null;
        std::mem::swap(self, &mut taken);
        wipe_value(taken);
    }

    /// A copy of the value.
    pub fn copy(&self) -> (r: Json)
        ensures
            r@ == self@,
        decreases self, 0nat,
    {
        match self {
            Json::Null => Json::Null,
            Json::Bool(value) => Json::Bool(*value),
            Json::Number(notation) => Json::Number(notation.clone()),
            Json::Text(text) => Json::Text(text.clone()),
            Json::List(items) => Json::List(copy_items(items)),
            Json::Object(members) => Json::Object(copy_members(members)),
        }
    }
}

/// Copies of some values.
pub fn copy_items(items: &Vec<Json>) -> (r: Vec<Json>)
    ensures
        models(r) == models(*items),
        r.len() == items.len(),
    decreases items, 0nat,
{
    let mut copies: Vec<Json> = Vec::new();
    let mut i: usize = 0;
    while i < items.len()
        invariant
            i <= items.len(),
            copies.len() == i,
            forall|k: int| 0 <= k < i ==> (#[trigger] copies@[k])@ == items@[k]@,
        decreases items.len() - i,
    {
        copies.push(items[i].copy());
        i += 1;
    }
    proof {
        lemma_items(*items, items@.len());
        lemma_items(copies, copies@.len());
        assert(item_models(copies, copies@.len()) =~= item_models(*items, items@.len()));
    }
    copies
}

fn copy_members(members: &Vec<Member>) -> (r: Vec<Member>)
    ensures
        member_models(r, r@.len()) == member_models(*members, members@.len()),
    decreases members, 0nat,
{
    let mut copies: Vec<Member> = Vec::new();
    let mut i: usize = 0;
    while i < members.len()
        invariant
            i <= members.len(),
            copies.len() == i,
            forall|k: int|
                0 <= k < i ==> member_model(#[trigger] copies@[k]) == member_model(members@[k]),
        decreases members.len() - i,
    {
        let copy = Member { key: members[i].key.clone(), value: members[i].value.copy() };
        copies.push(copy);
        i += 1;
    }
    proof {
        lemma_members(*members, members@.len());
        lemma_members(copies, copies@.len());
        assert(member_models(copies, copies@.len()) =~= member_models(*members, members@.len()));
    }
    copies
}

/// `zeroize::Zeroize::zeroize` of a `String` overwrites its buffer with zeros and leaves the
/// text empty. That the buffer was overwritten is not stated: a contract speaks of values,
/// not of memory.
#[verifier::external_body]
pub(crate) fn wipe_text(text: &mut String)
    ensures
        final(text)@ == Seq::<char>::empty(),
{
    zeroize::Zeroize::zeroize(text)
}

/// `zeroize::Zeroize::zeroize` of a `Vec<u8>` overwrites its buffer with zeros and leaves it
/// empty. That the buffer was overwritten is not stated.
#[verifier::external_body]
pub(crate) fn wipe_bytes(bytes: &mut Vec<u8>)
    ensures
        final(bytes)@ == Seq::<u8>::empty(),
{
    zeroize::Zeroize::zeroize(bytes)
}

fn wipe_value(value: Json)
    decreases value, 0nat,
{
    match value {
        Json::Null => {},
        Json::Bool(_) => {},
        Json::Number(digits) => {
            let mut digits = digits;
            wipe_text(&mut digits);
        },
        Json::Text(text) => {
            let mut text = text;
            wipe_text(&mut text);
        },
        Json::List(items) => wipe_items(items),
        Json::Object(members) => wipe_members(members),
    }
}

fn wipe_items(items: Vec<Json>)
    decreases items, 1nat,
{
    let ghost all = items@;
    let mut left = items;
    while left.len() > 0
        invariant
            all == items@,
            left@.len() <= all.len(),
            forall|i: int| 0 <= i < left@.len() ==> left@[i] == all[i],
        decreases left.len(),
    {
        let ghost n = left@.len() - 1;
        match left.pop() {
            Some(item) => {
                assert(item == all[n]);
                wipe_value(item);
            },
            None => {},
        }
    }
}

fn wipe_members(members: Vec<Member>)
    decreases members, 1nat,
{
    let ghost all = members@;
    let mut left = members;
    while left.len() > 0
        invariant
            all == members@,
            left@.len() <= all.len(),
            forall|i: int| 0 <= i < left@.len() ==> left@[i] == all[i],
        decreases left.len(),
    {
        let ghost n = left@.len() - 1;
        match left.pop() {
            Some(member) => {
                assert(member == all[n]);
                let Member { key, value } = member;
                let mut key = key;
                wipe_text(&mut key);
                wipe_value(value);
            },
            None => {},
        }
    }
}

fn same_number(a: &String, b: &String) -> (r: bool)
    ensures
        r == (number_value(a@) == number_value(b@)),
{
    let a_zero = same_text(a.as_str(), "0.0") || same_text(a.as_str(), "-0.0");
    let b_zero = same_text(b.as_str(), "0.0") || same_text(b.as_str(), "-0.0");
    same_text(a.as_str(), b.as_str()) || a_zero && b_zero
}

fn same_items(a: &Vec<Json>, b: &Vec<Json>, n: usize) -> (r: bool)
    requires
        n <= a.len(),
        n <= b.len(),
    ensures
        r == (item_worths(item_models(*a, a@.len()), n as nat) == item_worths(
            item_models(*b, b@.len()),
            n as nat,
        )),
    decreases a, n as nat,
{
    if n == 0 {
        return true;
    }
    let ghost x = item_models(*a, a@.len());
    let ghost y = item_models(*b, b@.len());
    proof {
        lemma_items(*a, a@.len());
        lemma_items(*b, b@.len());
    }
    let equal = same_items(a, b, n - 1) && a[n - 1].same(&b[n - 1]);
    proof {
        let p = item_worths(x, (n - 1) as nat);
        let q = item_worths(y, (n - 1) as nat);
        assert(item_worths(x, n as nat) == p.push(worth(x[n - 1])));
        assert(item_worths(y, n as nat) == q.push(worth(y[n - 1])));
        if item_worths(x, n as nat) == item_worths(y, n as nat) {
            assert(p.push(worth(x[n - 1])).last() == worth(x[n - 1]));
            assert(q.push(worth(y[n - 1])).last() == worth(y[n - 1]));
            assert(p.push(worth(x[n - 1])).drop_last() =~= p);
            assert(q.push(worth(y[n - 1])).drop_last() =~= q);
        }
    }
    equal
}

fn same_members(a: &Vec<Member>, b: &Vec<Member>, n: usize) -> (r: bool)
    requires
        n <= a.len(),
        n <= b.len(),
    ensures
        r == (member_worths(member_models(*a, a@.len()), n as nat) == member_worths(
            member_models(*b, b@.len()),
            n as nat,
        )),
    decreases a, n as nat,
{
    if n == 0 {
        return true;
    }
    let ghost x = member_models(*a, a@.len());
    let ghost y = member_models(*b, b@.len());
    proof {
        lemma_members(*a, a@.len());
        lemma_members(*b, b@.len());
    }
    let equal = same_members(a, b, n - 1) && same_text(
        a[n - 1].key.as_str(),
        b[n - 1].key.as_str(),
    ) && a[n - 1].value.same(&b[n - 1].value);
    proof {
        let p = member_worths(x, (n - 1) as nat);
        let q = member_worths(y, (n - 1) as nat);
        let v = MemberModel { key: x[n - 1].key, value: worth(x[n - 1].value) };
        let w = MemberModel { key: y[n - 1].key, value: worth(y[n - 1].value) };
        assert(member_worths(x, n as nat) == p.push(v));
        assert(member_worths(y, n as nat) == q.push(w));
        if member_worths(x, n as nat) == member_worths(y, n as nat) {
            assert(p.push(v).last() == v);
            assert(q.push(w).last() == w);
            assert(p.push(v).drop_last() =~= p);
            assert(q.push(w).drop_last() =~= q);
        }
    }
    equal
}

/// The compact notation of a value.
pub open spec fn notation(json: JsonModel) -> Seq<char>
    decreases json, 0nat,
{
    match json {
        JsonModel::Null => "null"@,
        JsonModel::Bool(value) => bool_text(value),
        JsonModel::Number(digits) => digits,
        JsonModel::Text(text) => json_string(text),
        JsonModel::List(items) => "["@ + items_notation(items, items.len()) + "]"@,
        JsonModel::Object(members) => "{"@ + members_notation(members, members.len()) + "}"@,
    }
}

/// The compact notation of the first `n` items, separated by commas.
pub open spec fn items_notation(items: Seq<JsonModel>, n: nat) -> Seq<char>
    decreases items, n,
{
    if n == 0 || n > items.len() {
        ""@
    } else {
        items_notation(items, (n - 1) as nat) + (if n == 1 {
            ""@
        } else {
            ","@
        }) + notation(items[n - 1])
    }
}

/// The compact notation of the first `n` members, separated by commas.
pub open spec fn members_notation(members: Seq<MemberModel>, n: nat) -> Seq<char>
    decreases members, n,
{
    if n == 0 || n > members.len() {
        ""@
    } else {
        members_notation(members, (n - 1) as nat) + (if n == 1 {
            ""@
        } else {
            ","@
        }) + json_string(members[n - 1].key) + ":"@ + notation(members[n - 1].value)
    }
}

impl Json {
    /// The compact notation of the value.
    pub fn to_text(&self) -> (r: String)
        ensures
            r@ == notation(self@),
        decreases self, 0nat,
    {
        match self {
            Json::Null => "null".to_owned(),
            Json::Bool(value) => {
                if *value {
                    "true".to_owned()
                } else {
                    "false".to_owned()
                }
            },
            Json::Number(digits) => digits.clone(),
            Json::Text(text) => {
                let mut json = String::new();
                push_json_string(&mut json, text.as_str());
                assert(json@ =~= json_string(text@));
                json
            },
            Json::List(items) => {
                let mut json = "[".to_owned();
                json.push_str(items_text(items).as_str());
                json.push_str("]");
                proof {
                    lemma_items(*items, items@.len());
                }
                json
            },
            Json::Object(members) => {
                let mut json = "{".to_owned();
                json.push_str(members_text(members).as_str());
                json.push_str("}");
                proof {
                    lemma_members(*members, members@.len());
                }
                json
            },
        }
    }
}

fn items_text(items: &Vec<Json>) -> (r: String)
    ensures
        r@ == items_notation(item_models(*items, items@.len()), items@.len()),
    decreases items, 0nat,
{
    proof {
        lemma_items(*items, items@.len());
    }
    let ghost all = item_models(*items, items@.len());
    let mut inner = "".to_owned();
    let mut i: usize = 0;
    while i < items.len()
        invariant
            i <= items.len(),
            all.len() == items.len(),
            forall|k: int| 0 <= k < items.len() ==> #[trigger] all[k] == items@[k]@,
            inner@ == items_notation(all, i as nat),
        decreases items.len() - i,
    {
        if i > 0 {
            inner.push_str(",");
        } else {
            inner.push_str("");
        }
        inner.push_str(items[i].to_text().as_str());
        i += 1;
    }
    inner
}

fn members_text(members: &Vec<Member>) -> (r: String)
    ensures
        r@ == members_notation(member_models(*members, members@.len()), members@.len()),
    decreases members, 0nat,
{
    proof {
        lemma_members(*members, members@.len());
    }
    let ghost all = member_models(*members, members@.len());
    let mut inner = "".to_owned();
    let mut i: usize = 0;
    while i < members.len()
        invariant
            i <= members.len(),
            all.len() == members.len(),
            forall|k: int|
                0 <= k < members.len() ==> #[trigger] all[k] == member_model(members@[k]),
            inner@ == members_notation(all, i as nat),
        decreases members.len() - i,
    {
        if i > 0 {
            inner.push_str(",");
        } else {
            inner.push_str("");
        }
        push_json_string(&mut inner, members[i].key.as_str());
        inner.push_str(":");
        inner.push_str(members[i].value.to_text().as_str());
        i += 1;
    }
    inner
}

/// What some values say.
pub open spec fn models(items: Vec<Json>) -> Seq<JsonModel> {
    item_models(items, items@.len())
}

/// What some members say.
pub open spec fn object_members(members: Vec<Member>) -> Seq<MemberModel> {
    member_models(members, members@.len())
}

/// Appends a member.
pub fn add_member(members: &mut Vec<Member>, key: &str, value: Json)
    ensures
        object_members(*final(members)) == object_members(*old(members)).push(
            MemberModel { key: key@, value: value@ },
        ),
{
    let ghost before = *members;
    members.push(Member { key: key.to_owned(), value });
    proof {
        lemma_members(before, before@.len());
        lemma_members(*members, members@.len());
        assert(object_members(*members) =~= object_members(before).push(
            MemberModel { key: key@, value: value@ },
        ));
    }
}

/// Appends a value.
pub fn add_item(items: &mut Vec<Json>, value: Json)
    ensures
        models(*final(items)) == models(*old(items)).push(value@),
        final(items)@ == old(items)@.push(value),
{
    let ghost before = *items;
    items.push(value);
    proof {
        lemma_items(before, before@.len());
        lemma_items(*items, items@.len());
        assert(models(*items) =~= models(before).push(value@));
    }
}

impl JsonModel {
    /// The value as a whole number of 64 bits, if it is one.
    pub open spec fn whole(self) -> Option<u64> {
        match self {
            JsonModel::Number(digits) => if exists|n: u64| digits == #[trigger] decimal(n as nat) {
                Some(choose|n: u64| digits == #[trigger] decimal(n as nat))
            } else {
                None
            },
            _ => None,
        }
    }

    /// The whole number under a key of an object.
    pub open spec fn whole_member(self, key: Seq<char>) -> Option<u64> {
        match self.member(key) {
            Some(value) => value.whole(),
            None => None,
        }
    }

    /// The list under a key of an object.
    pub open spec fn list_member(self, key: Seq<char>) -> Option<Seq<JsonModel>> {
        match self.member(key) {
            Some(JsonModel::List(items)) => Some(items),
            _ => None,
        }
    }
}

/// A whole number is the one that it notes.
pub proof fn lemma_whole(digits: Seq<char>, n: u64)
    requires
        digits == decimal(n as nat),
    ensures
        JsonModel::Number(digits).whole() == Some(n),
{
    let m = choose|m: u64| digits == #[trigger] decimal(m as nat);
    assert(digits == decimal(m as nat));
    lemma_decimal(n as nat);
    lemma_decimal(m as nat);
}

impl Json {
    /// The value as a whole number of 64 bits, if it is one.
    pub fn as_u64(&self) -> (r: Option<u64>)
        ensures
            r == self@.whole(),
    {
        match self {
            Json::Number(digits) => match parse_decimal(digits.as_str()) {
                Some(n) => {
                    proof {
                        lemma_whole(digits@, n);
                    }
                    Some(n)
                },
                None => None,
            },
            _ => None,
        }
    }

    /// The whole number under a key of an object.
    pub fn u64_at(&self, key: &str) -> (r: Option<u64>)
        ensures
            r == self@.whole_member(key@),
    {
        match self.get(key) {
            Some(value) => value.as_u64(),
            None => None,
        }
    }

    /// The list under a key of an object.
    pub fn list(&self, key: &str) -> (r: Option<&Vec<Json>>)
        ensures
            match r {
                Some(items) => self@.list_member(key@) == Some(models(*items)),
                None => self@.list_member(key@) is None,
            },
    {
        match self.get(key) {
            Some(Json::List(items)) => Some(items),
            _ => None,
        }
    }
}

/// Members with a value under a key: a member with the key is replaced, and a new one comes
/// before those with greater keys.
pub open spec fn with_key(members: Seq<MemberModel>, key: Seq<char>, value: JsonModel) -> Seq<
    MemberModel,
>
    decreases members.len(),
{
    let new = MemberModel { key, value };
    if members.len() == 0 || text_precedes(members.last().key, key) {
        members.push(new)
    } else if members.last().key == key {
        members.drop_last().push(new)
    } else {
        with_key(members.drop_last(), key, value).push(members.last())
    }
}

proof fn lemma_with_key(members: Seq<MemberModel>, key: Seq<char>, value: JsonModel, k: int)
    requires
        0 <= k <= members.len(),
        forall|j: int|
            k <= j < members.len() ==> !text_precedes((#[trigger] members[j]).key, key)
                && members[j].key != key,
        k == 0 || text_precedes(members[k - 1].key, key) || members[k - 1].key == key,
    ensures
        ({
            let new = MemberModel { key, value };
            if k > 0 && members[k - 1].key == key {
                with_key(members, key, value) == members.update(k - 1, new)
            } else {
                with_key(members, key, value) == members.insert(k, new)
            }
        }),
    decreases members.len(),
{
    let new = MemberModel { key, value };
    if k == members.len() {
        if k > 0 {
            assert(members.last() == members[k - 1]);
            if members[k - 1].key == key {
                lemma_text_precedes_total(key, key);
                assert(members.drop_last().push(new) =~= members.update(k - 1, new));
            } else {
                assert(members.push(new) =~= members.insert(k, new));
            }
        } else {
            assert(members.push(new) =~= members.insert(k, new));
        }
    } else {
        let rest = members.drop_last();
        assert(members.last() == members[members.len() - 1]);
        assert forall|j: int| k <= j < rest.len() implies !text_precedes(
            (#[trigger] rest[j]).key,
            key,
        ) && rest[j].key != key by {
            assert(rest[j] == members[j]);
        }
        if k > 0 {
            assert(rest[k - 1] == members[k - 1]);
        }
        lemma_with_key(rest, key, value, k);
        if k > 0 && members[k - 1].key == key {
            assert(rest.update(k - 1, new).push(members.last()) =~= members.update(k - 1, new));
        } else {
            assert(rest.insert(k, new).push(members.last()) =~= members.insert(k, new));
        }
    }
}

/// Puts a value under a key, and overwrites the one that stood there.
pub fn set_member_value(members: &mut Vec<Member>, key: &str, value: Json)
    ensures
        object_members(*final(members)) == with_key(object_members(*old(members)), key@, value@),
{
    let ghost before = *members;
    let ghost all = object_members(before);
    proof {
        lemma_members(before, before@.len());
    }
    let mut k: usize = members.len();
    let mut found = false;
    while k > 0
        invariant_except_break
            k <= members.len(),
            !found,
            *members == before,
            all == object_members(before),
            all.len() == members.len(),
            forall|j: int| 0 <= j < members.len() ==> #[trigger] all[j] == member_model(members@[j]),
            forall|j: int|
                k <= j < members.len() ==> !text_precedes((#[trigger] all[j]).key, key@)
                    && all[j].key != key@,
        ensures
            k <= members.len(),
            *members == before,
            all == object_members(before),
            all.len() == members.len(),
            forall|j: int| 0 <= j < members.len() ==> #[trigger] all[j] == member_model(members@[j]),
            forall|j: int|
                k <= j < members.len() ==> !text_precedes((#[trigger] all[j]).key, key@)
                    && all[j].key != key@,
            found ==> k > 0 && all[k - 1].key == key@,
            !found ==> k == 0 || text_precedes(all[k - 1].key, key@),
        decreases k,
    {
        assert(all[k - 1] == member_model(members@[k - 1]));
        if same_text(members[k - 1].key.as_str(), key) {
            found = true;
            break;
        }
        if text_before(members[k - 1].key.as_str(), key) {
            break;
        }
        k -= 1;
    }
    let ghost shown = MemberModel { key: key@, value: value@ };
    let new = Member { key: key.to_owned(), value };
    proof {
        if !found && k > 0 {
            lemma_text_precedes_total(key@, key@);
        }
        lemma_with_key(all, key@, value@, k as int);
    }
    if found {
        let mut replaced = new;
        std::mem::swap(&mut members[k - 1], &mut replaced);
        replaced.value.wipe();
        proof {
            lemma_members(*members, members@.len());
            assert(object_members(*members) =~= all.update(k - 1, shown));
        }
    } else {
        members.insert(k, new);
        proof {
            lemma_members(*members, members@.len());
            assert(object_members(*members) =~= all.insert(k as int, shown));
        }
    }
}

/// Values in the opposite order.
pub fn reversed(later: Vec<Json>) -> (r: Vec<Json>)
    ensures
        models(r) == models(later).reverse(),
{
    let ghost all = models(later);
    proof {
        lemma_items(later, later@.len());
    }
    let ghost given = later@;
    let mut later = later;
    let mut items: Vec<Json> = Vec::new();
    proof {
        lemma_items(items, 0);
        assert(models(items) =~= all.reverse().subrange(0, 0));
    }
    while later.len() > 0
        invariant
            all.len() == given.len(),
            forall|i: int| 0 <= i < all.len() ==> all[i] == #[trigger] given[i]@,
            later@.len() <= given.len(),
            later@ == given.subrange(0, later@.len() as int),
            models(items) == all.reverse().subrange(0, given.len() - later@.len()),
        decreases later.len(),
    {
        let ghost k = later@.len() as int;
        match later.pop() {
            Some(item) => {
                assert(item == given[k - 1]);
                let ghost before = models(items);
                add_item(&mut items, item);
                proof {
                    assert(all.reverse().subrange(0, given.len() - k + 1) =~= before.push(item@));
                    assert(later@ =~= given.subrange(0, k - 1));
                }
            },
            None => {},
        }
    }
    assert(all.reverse().subrange(0, given.len() as int) =~= all.reverse());
    items
}

} // verus!
