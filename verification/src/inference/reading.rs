//! What is read out of a provider's answers: each value is the one under its key.
use crate::inference::cost::{cost_value, UsdCost};
use crate::inference::request::{valid_content, valid_item, valid_part};
use crate::inference::response::{normalized, parts_of, usage_of, ArgumentValidity, ItemModel};
use crate::json::{notation, parsed_json, JsonModel};
use crate::keyed::{counts, lemma_counts, lemma_tells, lemma_under, tells, under};
use vstd::prelude::*;
use vstd::utf8::encode_utf8;

verus! {

/// Whether a whole number stands under a key of the object under another.
pub open spec fn counts_within(
    object: JsonModel,
    outer: Seq<char>,
    inner: Seq<char>,
    n: u64,
) -> bool {
    exists|details: JsonModel| #[trigger] under(object, outer, details) && counts(details, inner, n)
}

proof fn lemma_counts_within(object: JsonModel, outer: Seq<char>, inner: Seq<char>)
    ensures
        forall|n: u64| #[trigger]
            counts_within(object, outer, inner, n) == (object.member(outer) is Some
                && object.member(outer)->0.whole_member(inner) == Some(n)),
{
    assert forall|n: u64| #[trigger]
        counts_within(object, outer, inner, n) == (object.member(outer) is Some && object.member(
            outer,
        )->0.whole_member(inner) == Some(n)) by {
        if counts_within(object, outer, inner, n) {
            let details = choose|details: JsonModel| #[trigger]
                under(object, outer, details) && counts(details, inner, n);
            lemma_under(object, outer, details);
            lemma_counts(details, inner);
        }
        if object.member(outer) is Some {
            let details = object.member(outer)->0;
            lemma_under(object, outer, details);
            lemma_counts(details, inner);
            if details.whole_member(inner) == Some(n) {
                assert(under(object, outer, details) && counts(details, inner, n));
            }
        }
    }
}

/// Whether an item has all that a tool call needs.
pub open spec fn is_whole_call(item: JsonModel) -> bool {
    exists|item_id: Seq<char>, call_id: Seq<char>, name: Seq<char>, arguments: Seq<char>|
        #[trigger] tells(item, "id"@, item_id) && #[trigger] tells(item, "call_id"@, call_id)
            && #[trigger] tells(item, "name"@, name) && #[trigger] tells(
            item,
            "arguments"@,
            arguments,
        ) && call_id.len() > 0 && name.len() > 0
}

/// A function call is read as the tool call that its members name: its identity, its call, its
/// tool and its arguments are the texts under those keys, and the arguments are judged by what
/// they spell. One that lacks a text, or names no call or no tool, is refused. Nothing else is
/// read as a tool call.
pub proof fn law_tool_calls_are_what_their_members_name(item: JsonModel)
    ensures
        tells(item, "type"@, "function_call"@) && is_whole_call(item)
            <==> normalized(item) matches Some(ItemModel::ToolProposal { .. }),
        tells(item, "type"@, "function_call"@) && !is_whole_call(item) ==> normalized(item) is None,
        normalized(item) matches Some(
            ItemModel::ToolProposal { item_id, call_id, name, arguments, validity },
        ) ==> {
            &&& tells(item, "id"@, item_id)
            &&& tells(item, "call_id"@, call_id)
            &&& tells(item, "name"@, name)
            &&& tells(item, "arguments"@, arguments)
            &&& call_id.len() > 0
            &&& name.len() > 0
            &&& validity == ArgumentValidity::MalformedJson <==> parsed_json(
                encode_utf8(arguments),
            ) is None
            &&& validity == ArgumentValidity::JsonObject <==> parsed_json(
                encode_utf8(arguments),
            ) matches Some(JsonModel::Object(_))
        },
{
    lemma_tells(item, "type"@);
    lemma_tells(item, "id"@);
    lemma_tells(item, "call_id"@);
    lemma_tells(item, "name"@);
    lemma_tells(item, "arguments"@);
    reveal_strlit("message");
    reveal_strlit("function_call");
    assert("message"@.len() != "function_call"@.len());
    if normalized(item) is Some && normalized(item)->0 is ToolProposal {
        let item_id = item.text_member("id"@)->0;
        let call_id = item.text_member("call_id"@)->0;
        let name = item.text_member("name"@)->0;
        let arguments = item.text_member("arguments"@)->0;
        assert(tells(item, "id"@, item_id) && tells(item, "call_id"@, call_id) && tells(
            item,
            "name"@,
            name,
        ) && tells(item, "arguments"@, arguments));
    }
}

/// Whether an item is an assistant's message with some parts.
pub open spec fn is_message(item: JsonModel, parts: Seq<JsonModel>) -> bool {
    &&& tells(item, "type"@, "message"@)
    &&& tells(item, "role"@, "assistant"@)
    &&& under(item, "content"@, JsonModel::List(parts))
}

/// What is read as a message is one of the assistant, under its own identity. A message of
/// another role or without a list of parts is refused, and one without parts says nothing.
pub proof fn law_messages_are_the_assistants(item: JsonModel)
    ensures
        normalized(item) matches Some(ItemModel::Message { id, .. }) ==> tells(item, "id"@, id)
            && exists|parts: Seq<JsonModel>| #[trigger] is_message(item, parts),
        tells(item, "type"@, "message"@) && !(exists|parts: Seq<JsonModel>| #[trigger]
            is_message(item, parts)) ==> normalized(item) is None,
        is_message(item, Seq::empty()) ==> forall|id: Seq<char>| #[trigger]
            tells(item, "id"@, id) ==> normalized(item) == Some(
                ItemModel::Message { id, text: Seq::empty(), refusals: Seq::empty() },
            ),
{
    lemma_tells(item, "type"@);
    lemma_tells(item, "role"@);
    lemma_tells(item, "id"@);
    reveal_strlit("message");
    reveal_strlit("function_call");
    assert("message"@.len() != "function_call"@.len());
    if let Some(JsonModel::List(parts)) = item.member("content"@) {
        lemma_under(item, "content"@, JsonModel::List(parts));
        if tells(item, "type"@, "message"@) && tells(item, "role"@, "assistant"@) {
            assert(is_message(item, parts));
        }
    }
    if is_message(item, Seq::empty()) {
        lemma_under(item, "content"@, JsonModel::List(Seq::empty()));
    }
}

/// A message says what its parts say, one after the other: a text part adds its text to the
/// text, a refusal adds itself to the refusals, a part of another kind leaves the message
/// unread, and a part without what its kind needs makes it refused.
pub proof fn law_messages_say_what_their_parts_say(
    message: JsonModel,
    longer: JsonModel,
    parts: Seq<JsonModel>,
    part: JsonModel,
    id: Seq<char>,
    text: Seq<char>,
    refusals: Seq<Seq<char>>,
)
    requires
        is_message(message, parts),
        is_message(longer, parts.push(part)),
        tells(longer, "id"@, id),
        normalized(message) == Some(ItemModel::Message { id, text, refusals }),
    ensures
        forall|more: Seq<char>| #[trigger]
            tells(part, "text"@, more) && tells(part, "type"@, "output_text"@) ==> normalized(
                longer,
            ) == Some(ItemModel::Message { id, text: text + more, refusals }),
        forall|more: Seq<char>| #[trigger]
            tells(part, "refusal"@, more) && tells(part, "type"@, "refusal"@) ==> normalized(longer)
                == Some(ItemModel::Message { id, text, refusals: refusals.push(more) }),
        forall|kind: Seq<char>| #[trigger]
            tells(part, "type"@, kind) && kind != "output_text"@ && kind != "refusal"@
                ==> normalized(longer) == Some(ItemModel::Opaque { item: longer }),
        (forall|kind: Seq<char>| !#[trigger] tells(part, "type"@, kind)) ==> normalized(
            longer,
        ) is None,
        tells(part, "type"@, "output_text"@) && (forall|more: Seq<char>|
            !#[trigger] tells(part, "text"@, more)) ==> normalized(longer) is None,
        tells(part, "type"@, "refusal"@) && (forall|more: Seq<char>|
            !#[trigger] tells(part, "refusal"@, more)) ==> normalized(longer) is None,
{
    lemma_tells(message, "type"@);
    lemma_tells(message, "role"@);
    lemma_tells(message, "id"@);
    lemma_under(message, "content"@, JsonModel::List(parts));
    lemma_tells(longer, "type"@);
    lemma_tells(longer, "role"@);
    lemma_tells(longer, "id"@);
    lemma_under(longer, "content"@, JsonModel::List(parts.push(part)));
    lemma_tells(part, "type"@);
    lemma_tells(part, "text"@);
    lemma_tells(part, "refusal"@);
    reveal_strlit("message");
    reveal_strlit("function_call");
    reveal_strlit("output_text");
    reveal_strlit("refusal");
    assert("message"@.len() != "function_call"@.len());
    assert("output_text"@.len() != "refusal"@.len());
    let n = parts.len() as int;
    lemma_parts_prefix(parts, part, n);
    assert(parts.push(part)[n] == part);
    if part.text_member("type"@) is Some {
        assert(tells(part, "type"@, part.text_member("type"@)->0));
    }
    if part.text_member("text"@) is Some {
        assert(tells(part, "text"@, part.text_member("text"@)->0));
    }
    if part.text_member("refusal"@) is Some {
        assert(tells(part, "refusal"@, part.text_member("refusal"@)->0));
    }
}

proof fn lemma_parts_prefix(parts: Seq<JsonModel>, part: JsonModel, n: int)
    requires
        0 <= n <= parts.len(),
    ensures
        parts_of(parts.push(part), n) == parts_of(parts, n),
    decreases n,
{
    if n > 0 {
        lemma_parts_prefix(parts, part, n - 1);
        assert(parts.push(part)[n - 1] == parts[n - 1]);
    }
}

/// An item of any other kind is kept as it is, and an item without a kind is refused.
pub proof fn law_other_items_are_kept_whole(item: JsonModel)
    ensures
        forall|kind: Seq<char>| #[trigger]
            tells(item, "type"@, kind) && kind != "message"@ && kind != "function_call"@
                ==> normalized(item) == Some(ItemModel::Opaque { item }),
        (forall|kind: Seq<char>| !#[trigger] tells(item, "type"@, kind)) ==> normalized(
            item,
        ) is None,
        normalized(item) matches Some(ItemModel::Opaque { item: kept }) ==> kept == item,
{
    lemma_tells(item, "type"@);
    if item.text_member("type"@) is Some {
        assert(tells(item, "type"@, item.text_member("type"@)->0));
    }
}

/// The tokens that a response used are the counts under their keys. A total counts only where
/// it is the sum of input and output, and cached and reasoning tokens only where they do not
/// exceed the input and the output that they are part of.
pub proof fn law_usage_is_counted_by_key(value: JsonModel)
    ensures
        forall|n: u64|
            usage_of(value).input_tokens == Some(n) <==> #[trigger] counts(
                value,
                "input_tokens"@,
                n,
            ),
        forall|n: u64|
            usage_of(value).output_tokens == Some(n) <==> #[trigger] counts(
                value,
                "output_tokens"@,
                n,
            ),
        forall|n: u64|
            (usage_of(value).total_tokens == Some(n)) == (#[trigger] counts(
                value,
                "total_tokens"@,
                n,
            ) && !(exists|i: u64, o: u64| #[trigger]
                counts(value, "input_tokens"@, i) && #[trigger] counts(value, "output_tokens"@, o)
                    && i + o != n)),
        forall|n: u64|
            (usage_of(value).cached_input_tokens == Some(n)) == (#[trigger] counts_within(
                value,
                "input_tokens_details"@,
                "cached_tokens"@,
                n,
            ) && !(exists|i: u64| #[trigger] counts(value, "input_tokens"@, i) && n > i)),
        forall|n: u64|
            (usage_of(value).reasoning_tokens == Some(n)) == (#[trigger] counts_within(
                value,
                "output_tokens_details"@,
                "reasoning_tokens"@,
                n,
            ) && !(exists|o: u64| #[trigger] counts(value, "output_tokens"@, o) && n > o)),
{
    lemma_counts(value, "input_tokens"@);
    lemma_counts(value, "output_tokens"@);
    lemma_counts(value, "total_tokens"@);
    lemma_counts_within(value, "input_tokens_details"@, "cached_tokens"@);
    lemma_counts_within(value, "output_tokens_details"@, "reasoning_tokens"@);
    if value.whole_member("input_tokens"@) is Some {
        assert(counts(value, "input_tokens"@, value.whole_member("input_tokens"@)->0));
    }
    if value.whole_member("output_tokens"@) is Some {
        assert(counts(value, "output_tokens"@, value.whole_member("output_tokens"@)->0));
    }
}

/// The amount that a value notes, bare or in quotes.
pub open spec fn amount_of(value: JsonModel) -> Option<int> {
    match value {
        JsonModel::Text(text) => cost_value(text),
        other => cost_value(notation(other)),
    }
}

/// The cost of a response is the amount under its key, or under the other key where the first
/// is not there, and unknown where that is no amount.
pub proof fn law_cost_is_read_by_key(value: JsonModel)
    ensures
        forall|cost: JsonModel| #[trigger]
            under(value, "cost"@, cost) ==> match amount_of(cost) {
                Some(amount) => usage_of(value).cost_usd == Some(UsdCost(amount as u128)),
                None => usage_of(value).cost_usd is None,
            },
        (forall|cost: JsonModel| !#[trigger] under(value, "cost"@, cost)) ==> forall|
            cost: JsonModel,
        | #[trigger]
            under(value, "response_cost"@, cost) ==> match amount_of(cost) {
                Some(amount) => usage_of(value).cost_usd == Some(UsdCost(amount as u128)),
                None => usage_of(value).cost_usd is None,
            },
        (forall|cost: JsonModel| !#[trigger] under(value, "cost"@, cost)) && (forall|
            cost: JsonModel,
        | !#[trigger] under(value, "response_cost"@, cost)) ==> usage_of(value).cost_usd is None,
{
    assert forall|cost: JsonModel| #[trigger]
        under(value, "cost"@, cost) == (value.member("cost"@) == Some(cost)) by {
        lemma_under(value, "cost"@, cost);
    }
    assert forall|cost: JsonModel| #[trigger]
        under(value, "response_cost"@, cost) == (value.member("response_cost"@) == Some(cost)) by {
        lemma_under(value, "response_cost"@, cost);
    }
    if value.member("cost"@) is Some {
        assert(under(value, "cost"@, value.member("cost"@)->0));
    }
    if value.member("response_cost"@) is Some {
        assert(under(value, "response_cost"@, value.member("response_cost"@)->0));
    }
}

/// What was read can be sent again: a tool call that was read is an input item, and so is a
/// message with at least one part that was read.
pub proof fn law_answers_can_be_sent_again(item: JsonModel)
    ensures
        normalized(item) matches Some(ItemModel::ToolProposal { .. }) ==> valid_item(item),
        normalized(item) matches Some(ItemModel::Message { .. }) ==> !is_message(item, Seq::empty())
            ==> valid_item(item),
{
    reveal_strlit("message");
    reveal_strlit("function_call");
    assert("message"@.len() != "function_call"@.len());
    if let Some(ItemModel::Message { id, text, refusals }) = normalized(item) {
        let parts = item.list_member("content"@)->0;
        let n = parts.len() as int;
        lemma_parts_valid(parts, n);
        lemma_under(item, "content"@, JsonModel::List(parts));
        lemma_tells(item, "type"@);
        lemma_tells(item, "role"@);
        if n == 0 {
            assert(parts =~= Seq::<JsonModel>::empty());
            assert(is_message(item, Seq::empty()));
        } else {
            assert(valid_content(item, "content"@));
        }
    }
}

proof fn lemma_parts_valid(parts: Seq<JsonModel>, n: int)
    requires
        0 <= n <= parts.len(),
        parts_of(parts, n) is Read,
    ensures
        forall|i: int| 0 <= i < n ==> valid_part(#[trigger] parts[i]),
    decreases n,
{
    if n > 0 {
        reveal_strlit("output_text");
        reveal_strlit("refusal");
        reveal_strlit("input_text");
        assert("output_text"@.len() == 11 && "refusal"@.len() == 7 && "input_text"@.len() == 10);
        lemma_parts_valid(parts, n - 1);
        assert(valid_part(parts[n - 1]));
    }
}

} // verus!
