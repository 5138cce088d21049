//! What the events of a response stream mean, by the values under their keys.
use crate::inference::decoder::{
    all_normalized, decoded, has_index, put, CompletedModel, DecoderModel, DeltaModel, ResponseModel,
};
use crate::inference::failure::{FailureKind, ResponseDialect};
use crate::inference::response::{normalized, usage_of, ItemModel, ResponseStatus};
use crate::json::{alike, JsonModel};
use crate::keyed::{counts, lemma_counts, lemma_tells, lemma_under, tells, under};
use vstd::prelude::*;

verus! {

/// The state of a decoder that was shown an event and nothing else changed.
pub open spec fn seen(before: DecoderModel) -> DecoderModel {
    DecoderModel { observed: true, ..before }
}

proof fn lemma_kinds()
    ensures
        "response.created"@.len() == 16,
        "response.in_progress"@.len() == 20,
        "response.output_text.delta"@.len() == 26,
        "response.refusal.delta"@.len() == 22,
        "response.reasoning_summary_text.delta"@.len() == 37,
        "response.function_call_arguments.delta"@.len() == 38,
        "response.output_item.done"@.len() == 25,
        "response.completed"@.len() == 18,
        "response.failed"@.len() == 15,
        "response.incomplete"@.len() == 19,
        "error"@.len() == 5,
{
    reveal_strlit("response.created");
    reveal_strlit("response.in_progress");
    reveal_strlit("response.output_text.delta");
    reveal_strlit("response.refusal.delta");
    reveal_strlit("response.reasoning_summary_text.delta");
    reveal_strlit("response.function_call_arguments.delta");
    reveal_strlit("response.output_item.done");
    reveal_strlit("response.completed");
    reveal_strlit("response.failed");
    reveal_strlit("response.incomplete");
    reveal_strlit("error");
}

/// A text or refusal delta adds its text to what the response has said and is passed on with
/// the item that it belongs to; it ends nothing.
pub proof fn law_text_deltas_add_their_text(
    before: DecoderModel,
    event: JsonModel,
    item_id: Seq<char>,
    text: Seq<char>,
)
    requires
        tells(event, "type"@, "response.output_text.delta"@) || tells(
            event,
            "type"@,
            "response.refusal.delta"@,
        ),
        tells(event, "item_id"@, item_id),
        tells(event, "delta"@, text),
    ensures
        decoded(before, Some(event)).result == Ok::<bool, FailureKind>(false),
        decoded(before, Some(event)).delta == Some(DeltaModel::Text { item_id, text }),
        decoded(before, Some(event)).state == (DecoderModel {
            text: before.text + text,
            ..seen(before)
        }),
{
    lemma_kinds();
    lemma_tells(event, "type"@);
    lemma_tells(event, "item_id"@);
    lemma_tells(event, "delta"@);
}

/// A delta of a reasoning summary or of a call's arguments is passed on with the item that it
/// belongs to and changes nothing.
pub proof fn law_other_deltas_are_passed_on(
    before: DecoderModel,
    event: JsonModel,
    item_id: Seq<char>,
    text: Seq<char>,
)
    requires
        tells(event, "item_id"@, item_id),
        tells(event, "delta"@, text),
    ensures
        tells(event, "type"@, "response.reasoning_summary_text.delta"@) ==> {
            let step = decoded(before, Some(event));
            &&& step.result == Ok::<bool, FailureKind>(false)
            &&& step.delta == Some(DeltaModel::ReasoningSummary { item_id, text })
            &&& step.state == seen(before)
        },
        tells(event, "type"@, "response.function_call_arguments.delta"@) ==> {
            let step = decoded(before, Some(event));
            &&& step.result == Ok::<bool, FailureKind>(false)
            &&& step.delta == Some(DeltaModel::ToolArguments { item_id, arguments: text })
            &&& step.state == seen(before)
        },
{
    lemma_kinds();
    lemma_tells(event, "type"@);
    lemma_tells(event, "item_id"@);
    lemma_tells(event, "delta"@);
}

/// A response that starts binds the stream to its identity, unless it has none or the stream
/// is bound to another. Only its creation is passed on.
pub proof fn law_streams_are_bound_to_the_response_that_starts(
    before: DecoderModel,
    event: JsonModel,
    response: JsonModel,
    id: Seq<char>,
    created: bool,
)
    requires
        tells(
            event,
            "type"@,
            if created {
                "response.created"@
            } else {
                "response.in_progress"@
            },
        ),
        under(event, "response"@, response),
        tells(response, "id"@, id),
    ensures
        id.len() > 0 && (before.response_id matches Some(other) ==> other == id) ==> {
            let step = decoded(before, Some(event));
            &&& step.result == Ok::<bool, FailureKind>(false)
            &&& step.state == (DecoderModel { response_id: Some(id), ..seen(before) })
            &&& step.delta == if created {
                Some(DeltaModel::Created { response_id: id })
            } else {
                None
            }
        },
        id.len() == 0 || (before.response_id matches Some(other) && other != id) ==> {
            let step = decoded(before, Some(event));
            &&& step.result == Err::<bool, FailureKind>(FailureKind::MalformedResponse)
            &&& step.state == seen(before)
            &&& step.delta is None
        },
{
    lemma_kinds();
    lemma_tells(event, "type"@);
    lemma_under(event, "response"@, response);
    lemma_tells(response, "id"@);
}

proof fn lemma_put_keeps(items: Seq<CompletedModel>, index: u64, item: JsonModel)
    requires
        !has_index(items, index),
        forall|i: int, j: int|
            0 <= i < j < items.len() ==> (#[trigger] items[i]).index < (#[trigger] items[j]).index,
    ensures
        exists|k: int|
            0 <= k <= items.len() && #[trigger] items.insert(k, CompletedModel { index, item })
                == put(items, index, item),
    decreases items.len(),
{
    let new = CompletedModel { index, item };
    let next = put(items, index, item);
    if items.len() == 0 || items.last().index < index {
        assert(items.insert(items.len() as int, new) =~= next);
    } else {
        let rest = items.drop_last();
        assert forall|i: int, j: int| 0 <= i < j < rest.len() implies (#[trigger] rest[i]).index < (
        #[trigger] rest[j]).index by {
            assert(rest[i] == items[i] && rest[j] == items[j]);
        }
        lemma_put_keeps(rest, index, item);
        let k = choose|k: int|
            0 <= k <= rest.len() && #[trigger] rest.insert(k, new) == put(rest, index, item);
        assert(rest.insert(k, new).push(items.last()) =~= items.insert(k, new));
    }
}

proof fn lemma_has_index(items: Seq<CompletedModel>, index: u64)
    requires
        forall|i: int, j: int|
            0 <= i < j < items.len() ==> (#[trigger] items[i]).index < (#[trigger] items[j]).index,
    ensures
        has_index(items, index) == exists|i: int|
            0 <= i < items.len() && (#[trigger] items[i]).index == index,
    decreases items.len(),
{
    if items.len() > 0 {
        let rest = items.drop_last();
        let last = (items.len() - 1) as int;
        assert(items[last] == items.last());
        assert forall|i: int, j: int| 0 <= i < j < rest.len() implies (#[trigger] rest[i]).index < (
        #[trigger] rest[j]).index by {
            assert(rest[i] == items[i] && rest[j] == items[j]);
        }
        lemma_has_index(rest, index);
        if exists|i: int| 0 <= i < rest.len() && (#[trigger] rest[i]).index == index {
            let i = choose|i: int| 0 <= i < rest.len() && (#[trigger] rest[i]).index == index;
            assert(items[i].index == index);
        }
        if exists|i: int| 0 <= i < items.len() && (#[trigger] items[i]).index == index {
            let i = choose|i: int| 0 <= i < items.len() && (#[trigger] items[i]).index == index;
            if i < last {
                assert(rest[i].index == index);
                assert(items[i].index < items[last].index);
            }
        }
    }
}

/// A completed item joins the others at its index and is passed on as it reads; a second one
/// at an index, or one that does not read, is refused.
pub proof fn law_completed_items_are_collected(
    before: DecoderModel,
    event: JsonModel,
    index: u64,
    item: JsonModel,
)
    requires
        tells(event, "type"@, "response.output_item.done"@),
        counts(event, "output_index"@, index),
        under(event, "item"@, item),
        forall|i: int, j: int|
            0 <= i < j < before.items.len() ==> (#[trigger] before.items[i]).index < (
            #[trigger] before.items[j]).index,
    ensures
        ({
            let step = decoded(before, Some(event));
            let taken = exists|i: int|
                0 <= i < before.items.len() && (#[trigger] before.items[i]).index == index;
            &&& normalized(item) is Some && !taken ==> {
                &&& step.result == Ok::<bool, FailureKind>(false)
                &&& step.delta == Some(DeltaModel::ItemDone { item: normalized(item)->0 })
                &&& exists|k: int|
                    0 <= k <= before.items.len() && step.state.items == (
                    #[trigger] before.items.insert(k, CompletedModel { index, item }))
                &&& step.state == (DecoderModel { items: step.state.items, ..seen(before) })
            }
            &&& normalized(item) is None || taken ==> step.result == Err::<bool, FailureKind>(
                FailureKind::MalformedResponse,
            ) && step.delta is None
        }),
{
    lemma_kinds();
    lemma_tells(event, "type"@);
    lemma_counts(event, "output_index"@);
    lemma_under(event, "item"@, item);
    lemma_has_index(before.items, index);
    if !has_index(before.items, index) {
        lemma_put_keeps(before.items, index, item);
    }
}

/// Whether a name is that of a status.
pub open spec fn names_status(name: Seq<char>, status: ResponseStatus) -> bool {
    name == match status {
        ResponseStatus::Completed => "completed"@,
        ResponseStatus::Failed => "failed"@,
        ResponseStatus::Incomplete => "incomplete"@,
    }
}

/// Whether a response notes something under a key that is not null.
pub open spec fn notes_something(response: JsonModel, key: Seq<char>) -> bool {
    exists|value: JsonModel| #[trigger] under(response, key, value) && value != JsonModel::Null
}

/// Whether a completed item is the one that the response confirms at its index, up to the
/// encrypted content of reasoning.
pub open spec fn stands(done: CompletedModel, history: Seq<JsonModel>) -> bool {
    &&& done.index < history.len()
    &&& alike(done.item, history[done.index as int]) || tells(done.item, "type"@, "reasoning"@)
        && tells(history[done.index as int], "type"@, "reasoning"@)
}

/// Whether two items are not calls under one identity.
pub open spec fn distinct_calls(a: ItemModel, b: ItemModel) -> bool {
    match (a, b) {
        (
            ItemModel::ToolProposal { call_id: x, .. },
            ItemModel::ToolProposal { call_id: y, .. },
        ) => x != y,
        _ => true,
    }
}

/// Whether a response says what is said of it: its identity and its status are the texts under
/// their keys, its items are those under theirs, each as it reads and no call twice, what it
/// used stands under its key, and every item that was completed before is confirmed.
pub open spec fn says_what_it_is(
    before: DecoderModel,
    response: JsonModel,
    model: ResponseModel,
) -> bool {
    &&& tells(response, "id"@, model.id) && model.id.len() > 0
    &&& exists|name: Seq<char>| #[trigger]
        tells(response, "status"@, name) && names_status(name, model.status)
    &&& model.status == ResponseStatus::Completed ==> !notes_something(response, "error"@)
        && !notes_something(response, "incomplete_details"@)
    &&& exists|listed: Seq<JsonModel>|
        {
            &&& #[trigger] under(response, "output"@, JsonModel::List(listed))
            &&& if model.status == ResponseStatus::Completed && listed.len() == 0 && before.dialect
                == ResponseDialect::ChatGpt {
                &&& model.history_items.len() == before.items.len()
                &&& forall|i: int|
                    0 <= i < before.items.len() ==> model.history_items[i] == (
                    #[trigger] before.items[i]).item
            } else {
                model.history_items == listed
            }
        }
    &&& model.output.len() == model.history_items.len()
    &&& forall|i: int|
        0 <= i < model.output.len() ==> normalized(model.history_items[i]) == Some(
            #[trigger] model.output[i],
        )
    &&& forall|i: int, j: int|
        0 <= i < j < model.output.len() ==> distinct_calls(
            #[trigger] model.output[i],
            #[trigger] model.output[j],
        )
    &&& forall|i: int|
        0 <= i < before.items.len() ==> stands(#[trigger] before.items[i], model.history_items)
    &&& forall|usage: JsonModel| #[trigger]
        under(response, "usage"@, usage) ==> model.usage == usage_of(usage)
    &&& (forall|usage: JsonModel| !#[trigger] under(response, "usage"@, usage)) ==> model.usage
        == usage_of(JsonModel::Null)
}

proof fn lemma_all_normalized(items: Seq<JsonModel>, n: int)
    requires
        0 <= n <= items.len(),
        all_normalized(items, n) is Some,
    ensures
        all_normalized(items, n)->0.len() == n,
        forall|i: int|
            0 <= i < n ==> normalized(items[i]) == Some(#[trigger] all_normalized(items, n)->0[i]),
    decreases n,
{
    if n > 0 {
        lemma_all_normalized(items, n - 1);
    }
}

/// A stream ends only with a terminal event, and then with the response of that event.
pub proof fn law_streams_end_with_the_response_of_the_event(
    before: DecoderModel,
    event: JsonModel,
)
    requires
        decoded(before, Some(event)).result == Ok::<bool, FailureKind>(true),
    ensures
        tells(event, "type"@, "response.completed"@) || tells(event, "type"@, "response.failed"@)
            || tells(event, "type"@, "response.incomplete"@),
        decoded(before, Some(event)).state.terminal is Some,
        decoded(before, Some(event)).delta is None,
        exists|response: JsonModel|
            under(event, "response"@, response) && #[trigger] says_what_it_is(
                before,
                response,
                decoded(before, Some(event)).state.terminal->0,
            ),
        before.response_id matches Some(id) ==> decoded(before, Some(event)).state.terminal->0.id
            == id,
{
    lemma_tells(event, "type"@);
    let response = event.member("response"@)->0;
    let model = decoded(before, Some(event)).state.terminal->0;
    lemma_under(event, "response"@, response);
    lemma_tells(response, "id"@);
    lemma_tells(response, "status"@);
    assert(tells(response, "status"@, response.text_member("status"@)->0));
    let listed = response.list_member("output"@)->0;
    lemma_under(response, "output"@, JsonModel::List(listed));
    lemma_all_normalized(model.history_items, model.history_items.len() as int);
    assert forall|value: JsonModel| #[trigger]
        under(response, "error"@, value) == (response.member("error"@) == Some(value)) by {
        lemma_under(response, "error"@, value);
    }
    assert forall|value: JsonModel| #[trigger]
        under(response, "incomplete_details"@, value) == (response.member("incomplete_details"@)
            == Some(value)) by {
        lemma_under(response, "incomplete_details"@, value);
    }
    assert forall|value: JsonModel| #[trigger]
        under(response, "usage"@, value) == (response.member("usage"@) == Some(value)) by {
        lemma_under(response, "usage"@, value);
    }
    if response.member("usage"@) is Some {
        assert(under(response, "usage"@, response.member("usage"@)->0));
    }
    assert forall|i: int| 0 <= i < before.items.len() implies stands(
        #[trigger] before.items[i],
        model.history_items,
    ) by {
        let done = before.items[i];
        lemma_tells(done.item, "type"@);
        if done.index < model.history_items.len() {
            lemma_tells(model.history_items[done.index as int], "type"@);
        }
    }
    assert(says_what_it_is(before, response, model));
}

} // verus!
