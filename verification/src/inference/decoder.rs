//! Decoding the events of a response stream. Deltas are provisional and never authorize
//! anything; only a terminal event does.
use crate::inference::failure::{FailureKind, ResponseDialect};
use crate::inference::model::Usage;
use crate::inference::request::optional;
use crate::inference::response::{
    is_empty, item_confirms, normalize, normalized, string, terminal_item_confirms, usage_of,
    ItemModel, OutputItem, ResponseStatus,
};
use crate::json::{
    add_item, copy_items, lemma_items, models, parsed_json, Json, JsonModel,
};
use crate::text::same_text;
use vstd::prelude::*;

verus! {

/// A response that ended.
#[derive(Debug, PartialEq, Eq)]
pub struct ProviderResponse {
    pub id: String,
    pub status: ResponseStatus,
    pub output: Vec<OutputItem>,
    /// Confirmed output items, from which the next history is built.
    pub history_items: Vec<Json>,
    pub usage: Usage,
}

/// What a response says.
#[verifier::ext_equal]
pub struct ResponseModel {
    pub id: Seq<char>,
    pub status: ResponseStatus,
    pub output: Seq<ItemModel>,
    pub history_items: Seq<JsonModel>,
    pub usage: Usage,
}

/// What some output items say.
pub open spec fn output_models(output: Seq<OutputItem>) -> Seq<ItemModel> {
    output.map_values(|item: OutputItem| item@)
}

impl View for ProviderResponse {
    type V = ResponseModel;

    open spec fn view(&self) -> ResponseModel {
        ResponseModel {
            id: self.id@,
            status: self.status,
            output: output_models(self.output@),
            history_items: models(self.history_items),
            usage: self.usage,
        }
    }
}

/// What a stream provisionally says.
#[derive(Debug, PartialEq, Eq)]
pub enum Delta {
    Created { response_id: String },
    Text { item_id: String, text: String },
    ReasoningSummary { item_id: String, text: String },
    ToolArguments { item_id: String, arguments: String },
    ItemDone { item: OutputItem },
}

#[allow(inconsistent_fields)]
#[verifier::ext_equal]
pub enum DeltaModel {
    Created { response_id: Seq<char> },
    Text { item_id: Seq<char>, text: Seq<char> },
    ReasoningSummary { item_id: Seq<char>, text: Seq<char> },
    ToolArguments { item_id: Seq<char>, arguments: Seq<char> },
    ItemDone { item: ItemModel },
}

impl View for Delta {
    type V = DeltaModel;

    open spec fn view(&self) -> DeltaModel {
        match self {
            Delta::Created { response_id } => DeltaModel::Created { response_id: response_id@ },
            Delta::Text { item_id, text } => DeltaModel::Text { item_id: item_id@, text: text@ },
            Delta::ReasoningSummary { item_id, text } => DeltaModel::ReasoningSummary {
                item_id: item_id@,
                text: text@,
            },
            Delta::ToolArguments { item_id, arguments } => DeltaModel::ToolArguments {
                item_id: item_id@,
                arguments: arguments@,
            },
            Delta::ItemDone { item } => DeltaModel::ItemDone { item: item@ },
        }
    }
}

/// An item that was completed at an index of the output.
#[derive(Debug, PartialEq, Eq)]
pub struct CompletedItem {
    pub index: u64,
    pub item: Json,
}

#[verifier::ext_equal]
pub struct CompletedModel {
    pub index: u64,
    pub item: JsonModel,
}

/// What some completed items say.
pub open spec fn completed_models(items: Seq<CompletedItem>) -> Seq<CompletedModel> {
    items.map_values(|item: CompletedItem| CompletedModel { index: item.index, item: item.item@ })
}

/// What a stream has said so far.
#[derive(Debug, PartialEq, Eq)]
pub struct Decoder {
    pub dialect: ResponseDialect,
    pub response_id: Option<String>,
    /// The completed items, by ascending index.
    pub items: Vec<CompletedItem>,
    pub text: String,
    pub terminal: Option<ProviderResponse>,
    pub observed: bool,
}

#[verifier::ext_equal]
pub struct DecoderModel {
    pub dialect: ResponseDialect,
    pub response_id: Option<Seq<char>>,
    pub items: Seq<CompletedModel>,
    pub text: Seq<char>,
    pub terminal: Option<ResponseModel>,
    pub observed: bool,
}

impl View for Decoder {
    type V = DecoderModel;

    open spec fn view(&self) -> DecoderModel {
        DecoderModel {
            dialect: self.dialect,
            response_id: match self.response_id {
                Some(id) => Some(id@),
                None => None,
            },
            items: completed_models(self.items@),
            text: self.text@,
            terminal: match self.terminal {
                Some(response) => Some(response@),
                None => None,
            },
            observed: self.observed,
        }
    }
}

/// A decoder that has seen nothing.
pub open spec fn fresh(dialect: ResponseDialect) -> DecoderModel {
    DecoderModel {
        dialect,
        response_id: None,
        items: Seq::empty(),
        text: Seq::empty(),
        terminal: None,
        observed: false,
    }
}

/// What an event does to a decoder: the next state, whether the response ended, and what
/// is provisionally said.
#[verifier::ext_equal]
pub struct Step {
    pub state: DecoderModel,
    pub result: Result<bool, FailureKind>,
    pub delta: Option<DeltaModel>,
}

pub open spec fn malformed(state: DecoderModel) -> Step {
    Step { state, result: Err(FailureKind::MalformedResponse), delta: None }
}

pub open spec fn progressed(state: DecoderModel, delta: Option<DeltaModel>) -> Step {
    Step { state, result: Ok(false), delta }
}

/// A decoder bound to the identity of a response, unless it is bound to another.
pub open spec fn bound(state: DecoderModel, id: Seq<char>) -> Option<DecoderModel> {
    if id.len() == 0 || state.response_id is Some && state.response_id != Some(id) {
        None
    } else {
        Some(DecoderModel { response_id: Some(id), ..state })
    }
}

/// The identity of the response that an event speaks of.
pub open spec fn event_response_id(event: JsonModel) -> Option<Seq<char>> {
    match event.member("response"@) {
        Some(response) => response.text_member("id"@),
        None => None,
    }
}

pub open spec fn created_step(state: DecoderModel, event: JsonModel, created: bool) -> Step {
    match event_response_id(event) {
        None => malformed(state),
        Some(id) => match bound(state, id) {
            None => malformed(state),
            Some(next) => progressed(
                next,
                if created {
                    Some(DeltaModel::Created { response_id: id })
                } else {
                    None
                },
            ),
        },
    }
}

pub open spec fn text_step(state: DecoderModel, event: JsonModel) -> Step {
    match event.text_member("delta"@) {
        None => malformed(state),
        Some(text) => {
            let next = DecoderModel { text: state.text + text, ..state };
            match event.text_member("item_id"@) {
                None => malformed(next),
                Some(item_id) => progressed(next, Some(DeltaModel::Text { item_id, text })),
            }
        },
    }
}

/// Completed items with one more at its place; an item with the same index is replaced.
pub open spec fn put(items: Seq<CompletedModel>, index: u64, item: JsonModel) -> Seq<CompletedModel>
    decreases items.len(),
{
    let new = CompletedModel { index, item };
    if items.len() == 0 || items.last().index < index {
        items.push(new)
    } else if items.last().index == index {
        items.drop_last().push(new)
    } else {
        put(items.drop_last(), index, item).push(items.last())
    }
}

/// Whether an item was completed at an index.
pub open spec fn has_index(items: Seq<CompletedModel>, index: u64) -> bool
    decreases items.len(),
{
    if items.len() == 0 || items.last().index < index {
        false
    } else if items.last().index == index {
        true
    } else {
        has_index(items.drop_last(), index)
    }
}

pub open spec fn done_step(state: DecoderModel, event: JsonModel) -> Step {
    match (event.whole_member("output_index"@), event.member("item"@)) {
        (Some(index), Some(item)) => match normalized(item) {
            None => malformed(state),
            Some(read) => {
                let next = DecoderModel { items: put(state.items, index, item), ..state };
                if has_index(state.items, index) {
                    malformed(next)
                } else {
                    progressed(next, Some(DeltaModel::ItemDone { item: read }))
                }
            },
        },
        _ => malformed(state),
    }
}

/// Whether a value under a key is there and not null.
pub open spec fn set_member(value: JsonModel, key: Seq<char>) -> bool {
    value.member(key) matches Some(member) && member != JsonModel::Null
}

/// The items of a list read one by one, or that one is malformed.
pub open spec fn all_normalized(items: Seq<JsonModel>, n: int) -> Option<Seq<ItemModel>>
    decreases n,
{
    if n <= 0 {
        Some(Seq::empty())
    } else {
        match all_normalized(items, n - 1) {
            None => None,
            Some(before) => match normalized(items[n - 1]) {
                None => None,
                Some(item) => Some(before.push(item)),
            },
        }
    }
}

/// The identity of the call that an item proposes.
pub open spec fn call_of(item: ItemModel) -> Option<Seq<char>> {
    match item {
        ItemModel::ToolProposal { call_id, .. } => Some(call_id),
        _ => None,
    }
}

/// Whether no call is proposed twice.
pub open spec fn calls_differ(output: Seq<ItemModel>) -> bool {
    forall|i: int, j: int|
        0 <= i < j < output.len() && call_of(#[trigger] output[i]) is Some ==> call_of(output[i])
            != call_of(#[trigger] output[j])
}

/// Whether every completed item is confirmed by the item at its index.
pub open spec fn all_confirmed(items: Seq<CompletedModel>, history: Seq<JsonModel>) -> bool {
    forall|i: int| 0 <= i < items.len() ==> completed_confirmed(#[trigger] items[i], history)
}

pub open spec fn completed_confirmed(item: CompletedModel, history: Seq<JsonModel>) -> bool {
    item_confirms(
        item.item,
        if item.index < history.len() {
            Some(history[item.index as int])
        } else {
            None
        },
    )
}

/// The values of completed items, in the order of their indexes.
pub open spec fn item_values(items: Seq<CompletedModel>) -> Seq<JsonModel> {
    items.map_values(|item: CompletedModel| item.item)
}

/// How a status names the end of a response.
pub open spec fn status_of(name: Seq<char>) -> Option<ResponseStatus> {
    if name == "completed"@ {
        Some(ResponseStatus::Completed)
    } else if name == "failed"@ {
        Some(ResponseStatus::Failed)
    } else if name == "incomplete"@ {
        Some(ResponseStatus::Incomplete)
    } else {
        None
    }
}

/// The items that a terminal response confirms. A completed response of the ChatGPT dialect
/// may leave them out.
pub open spec fn history_of(
    state: DecoderModel,
    status: ResponseStatus,
    output: Seq<JsonModel>,
) -> Seq<JsonModel> {
    if status == ResponseStatus::Completed && output.len() == 0 && state.dialect
        == ResponseDialect::ChatGpt {
        item_values(state.items)
    } else {
        output
    }
}

/// What a terminal response says, if it is consistent with the stream before it.
pub open spec fn response_of(state: DecoderModel, response: JsonModel, id: Seq<char>) -> Option<
    ResponseModel,
> {
    match response.text_member("status"@) {
        None => None,
        Some(name) => match (status_of(name), response.list_member("output"@)) {
            (Some(status), Some(output)) => if status == ResponseStatus::Completed && (set_member(
                response,
                "error"@,
            ) || set_member(response, "incomplete_details"@)) {
                None
            } else {
                let history_items = history_of(state, status, output);
                match all_normalized(history_items, history_items.len() as int) {
                    Some(output) => if all_confirmed(state.items, history_items) && calls_differ(
                        output,
                    ) {
                        Some(
                            ResponseModel {
                                id,
                                status,
                                output,
                                history_items,
                                usage: usage_of(
                                    match response.member("usage"@) {
                                        Some(usage) => usage,
                                        None => JsonModel::Null,
                                    },
                                ),
                            },
                        )
                    } else {
                        None
                    },
                    None => None,
                }
            },
            _ => None,
        },
    }
}

pub open spec fn terminal_step(state: DecoderModel, event: JsonModel) -> Step {
    match event_response_id(event) {
        None => malformed(state),
        Some(id) => match bound(state, id) {
            None => malformed(state),
            Some(next) => match response_of(next, event.member("response"@)->0, id) {
                None => malformed(next),
                Some(response) => Step {
                    state: DecoderModel { terminal: Some(response), ..next },
                    result: Ok(true),
                    delta: None,
                },
            },
        },
    }
}

pub open spec fn summary_step(state: DecoderModel, event: JsonModel) -> Step {
    match (event.text_member("item_id"@), event.text_member("delta"@)) {
        (Some(item_id), Some(text)) => progressed(
            state,
            Some(DeltaModel::ReasoningSummary { item_id, text }),
        ),
        _ => malformed(state),
    }
}

pub open spec fn arguments_step(state: DecoderModel, event: JsonModel) -> Step {
    match (event.text_member("item_id"@), event.text_member("delta"@)) {
        (Some(item_id), Some(arguments)) => progressed(
            state,
            Some(DeltaModel::ToolArguments { item_id, arguments }),
        ),
        _ => malformed(state),
    }
}

/// What an event of a stream does. Unknown progress events have no authority; the status of
/// a terminal response counts, whatever its event is named.
pub open spec fn decoded(before: DecoderModel, event: Option<JsonModel>) -> Step {
    match event {
        None => malformed(before),
        Some(event) => {
            let state = DecoderModel { observed: true, ..before };
            match event.text_member("type"@) {
                None => malformed(state),
                Some(kind) => if kind == "response.created"@ || kind == "response.in_progress"@ {
                    created_step(state, event, kind == "response.created"@)
                } else if kind == "response.output_text.delta"@ || kind
                    == "response.refusal.delta"@ {
                    text_step(state, event)
                } else if kind == "response.reasoning_summary_text.delta"@ {
                    summary_step(state, event)
                } else if kind == "response.function_call_arguments.delta"@ {
                    arguments_step(state, event)
                } else if kind == "response.output_item.done"@ {
                    done_step(state, event)
                } else if kind == "response.completed"@ || kind == "response.failed"@ || kind
                    == "response.incomplete"@ {
                    terminal_step(state, event)
                } else if kind == "error"@ {
                    Step { state, result: Err(FailureKind::ProviderError), delta: None }
                } else {
                    progressed(state, None)
                },
            }
        },
    }
}

/// What an optional delta says.
pub open spec fn optional_delta(delta: Option<Delta>) -> Option<DeltaModel> {
    match delta {
        Some(delta) => Some(delta@),
        None => None,
    }
}

impl Decoder {
    pub fn new(dialect: ResponseDialect) -> (r: Self)
        ensures
            r@ == fresh(dialect),
    {
        let decoder = Decoder {
            dialect,
            response_id: None,
            items: Vec::new(),
            text: String::new(),
            terminal: None,
            observed: false,
        };
        assert(decoder@ =~= fresh(dialect));
        decoder
    }

    fn bind_id(&mut self, id: &str) -> (r: Result<(), FailureKind>)
        ensures
            match (r, bound(old(self)@, id@)) {
                (Ok(()), Some(next)) => final(self)@ == next,
                (Err(error), None) => final(self)@ == old(self)@ && error
                    == FailureKind::MalformedResponse,
                _ => false,
            },
    {
        let taken = match &self.response_id {
            Some(previous) => !same_text(previous.as_str(), id),
            None => false,
        };
        if is_empty(id) || taken {
            return Err(FailureKind::MalformedResponse);
        }
        self.response_id = Some(id.to_owned());
        Ok(())
    }

    fn step_created(&mut self, event: &Json, created: bool) -> (r: (
        Result<bool, FailureKind>,
        Option<Delta>,
    ))
        ensures
            (Step { state: final(self)@, result: r.0, delta: optional_delta(r.1) }) == created_step(
                old(self)@,
                event@,
                created,
            ),
    {
        let response = match event.get("response") {
            Some(response) => response,
            None => return (Err(FailureKind::MalformedResponse), None),
        };
        let id = match string(response, "id") {
            Ok(id) => id,
            Err(error) => return (Err(error), None),
        };
        match self.bind_id(id) {
            Err(error) => return (Err(error), None),
            Ok(()) => {},
        }
        if created {
            (Ok(false), Some(Delta::Created { response_id: id.to_owned() }))
        } else {
            (Ok(false), None)
        }
    }

    fn step_text(&mut self, event: &Json) -> (r: (Result<bool, FailureKind>, Option<Delta>))
        ensures
            (Step { state: final(self)@, result: r.0, delta: optional_delta(r.1) }) == text_step(
                old(self)@,
                event@,
            ),
    {
        let text = match string(event, "delta") {
            Ok(text) => text,
            Err(error) => return (Err(error), None),
        };
        self.text.push_str(text);
        match string(event, "item_id") {
            Ok(item_id) => (
                Ok(false),
                Some(Delta::Text { item_id: item_id.to_owned(), text: text.to_owned() }),
            ),
            Err(error) => (Err(error), None),
        }
    }

    fn step_done(&mut self, event: &Json) -> (r: (Result<bool, FailureKind>, Option<Delta>))
        ensures
            (Step { state: final(self)@, result: r.0, delta: optional_delta(r.1) }) == done_step(
                old(self)@,
                event@,
            ),
    {
        let index = match event.u64_at("output_index") {
            Some(index) => index,
            None => return (Err(FailureKind::MalformedResponse), None),
        };
        let item = match event.get("item") {
            Some(item) => item,
            None => return (Err(FailureKind::MalformedResponse), None),
        };
        let read = match normalize(item) {
            Ok(read) => read,
            Err(error) => return (Err(error), None),
        };
        let replaced = put_item(&mut self.items, index, item);
        if replaced {
            (Err(FailureKind::MalformedResponse), None)
        } else {
            (Ok(false), Some(Delta::ItemDone { item: read }))
        }
    }

    fn step_terminal(&mut self, event: &Json) -> (r: (Result<bool, FailureKind>, Option<Delta>))
        ensures
            (Step { state: final(self)@, result: r.0, delta: optional_delta(r.1) })
                == terminal_step(old(self)@, event@),
    {
        let response = match event.get("response") {
            Some(response) => response,
            None => return (Err(FailureKind::MalformedResponse), None),
        };
        let id = match string(response, "id") {
            Ok(id) => id,
            Err(error) => return (Err(error), None),
        };
        match self.bind_id(id) {
            Err(error) => return (Err(error), None),
            Ok(()) => {},
        }
        match self.terminal_response(response, id) {
            Some(terminal) => {
                self.terminal = Some(terminal);
                (Ok(true), None)
            },
            None => (Err(FailureKind::MalformedResponse), None),
        }
    }

    fn terminal_response(&self, response: &Json, id: &str) -> (r: Option<ProviderResponse>)
        ensures
            match (r, response_of(self@, response@, id@)) {
                (Some(made), Some(expected)) => made@ == expected,
                (None, None) => true,
                _ => false,
            },
    {
        let status = match response.text("status") {
            Some(name) => match read_status(name) {
                Some(status) => status,
                None => return None,
            },
            None => return None,
        };
        let listed = match response.list("output") {
            Some(listed) => listed,
            None => return None,
        };
        if status == ResponseStatus::Completed && (is_set(response, "error") || is_set(
            response,
            "incomplete_details",
        )) {
            return None;
        }
        proof {
            lemma_items(*listed, listed@.len());
        }
        let history_items = if status == ResponseStatus::Completed && listed.len() == 0
            && self.dialect == ResponseDialect::ChatGpt {
            copy_values(&self.items)
        } else {
            copy_items(listed)
        };
        proof {
            lemma_items(history_items, history_items@.len());
        }
        if !check_confirmed(&self.items, &history_items) {
            return None;
        }
        let output = match normalize_all(&history_items) {
            Some(output) => output,
            None => return None,
        };
        if !check_calls(&output) {
            return None;
        }
        let usage = match response.get("usage") {
            Some(usage) => Usage::parse(usage),
            None => Usage::parse(&Json::Null),
        };
        Some(ProviderResponse { id: id.to_owned(), status, output, history_items, usage })
    }

    fn step(&mut self, event: &Json) -> (r: (Result<bool, FailureKind>, Option<Delta>))
        ensures
            (Step { state: final(self)@, result: r.0, delta: optional_delta(r.1) }) == decoded(
                old(self)@,
                Some(event@),
            ),
    {
        self.observed = true;
        let kind = match string(event, "type") {
            Ok(kind) => kind,
            Err(error) => return (Err(error), None),
        };
        if same_text(kind, "response.created") || same_text(kind, "response.in_progress") {
            let created = same_text(kind, "response.created");
            self.step_created(event, created)
        } else if same_text(kind, "response.output_text.delta") || same_text(
            kind,
            "response.refusal.delta",
        ) {
            self.step_text(event)
        } else if same_text(kind, "response.reasoning_summary_text.delta") {
            match (event.text("item_id"), event.text("delta")) {
                (Some(item_id), Some(text)) => (
                    Ok(false),
                    Some(
                        Delta::ReasoningSummary {
                            item_id: item_id.to_owned(),
                            text: text.to_owned(),
                        },
                    ),
                ),
                _ => (Err(FailureKind::MalformedResponse), None),
            }
        } else if same_text(kind, "response.function_call_arguments.delta") {
            match (event.text("item_id"), event.text("delta")) {
                (Some(item_id), Some(arguments)) => (
                    Ok(false),
                    Some(
                        Delta::ToolArguments {
                            item_id: item_id.to_owned(),
                            arguments: arguments.to_owned(),
                        },
                    ),
                ),
                _ => (Err(FailureKind::MalformedResponse), None),
            }
        } else if same_text(kind, "response.output_item.done") {
            self.step_done(event)
        } else if same_text(kind, "response.completed") || same_text(kind, "response.failed")
            || same_text(kind, "response.incomplete") {
            self.step_terminal(event)
        } else if same_text(kind, "error") {
            (Err(FailureKind::ProviderError), None)
        } else {
            (Ok(false), None)
        }
    }

    /// Takes an event that was read from the stream, and appends what it provisionally says.
    pub fn apply(&mut self, event: &Option<Json>, emitted: &mut Vec<Delta>) -> (r: Result<
        bool,
        FailureKind,
    >)
        ensures
            ({
                let step = decoded(old(self)@, optional(*event));
                &&& final(self)@ == step.state
                &&& r == step.result
                &&& deltas(final(emitted)@) == match step.delta {
                    Some(delta) => deltas(old(emitted)@).push(delta),
                    None => deltas(old(emitted)@),
                }
            }),
    {
        match event {
            None => Err(FailureKind::MalformedResponse),
            Some(event) => {
                let (result, delta) = self.step(event);
                match delta {
                    Some(delta) => {
                        let ghost before = emitted@;
                        emitted.push(delta);
                        assert(deltas(emitted@) =~= deltas(before).push(delta@));
                    },
                    None => {},
                }
                result
            },
        }
    }

    /// Takes the bytes of an event of the stream.
    pub fn event(&mut self, bytes: &[u8], emitted: &mut Vec<Delta>) -> (r: Result<bool, FailureKind>)
        ensures
            ({
                let step = decoded(old(self)@, parsed_json(bytes@));
                &&& final(self)@ == step.state
                &&& r == step.result
                &&& deltas(final(emitted)@) == match step.delta {
                    Some(delta) => deltas(old(emitted)@).push(delta),
                    None => deltas(old(emitted)@),
                }
            }),
    {
        let event = Json::parse(bytes);
        self.apply(&event, emitted)
    }
}

/// What some deltas say.
pub open spec fn deltas(items: Seq<Delta>) -> Seq<DeltaModel> {
    items.map_values(|item: Delta| item@)
}

fn read_status(name: &str) -> (r: Option<ResponseStatus>)
    ensures
        r == status_of(name@),
{
    if same_text(name, "completed") {
        Some(ResponseStatus::Completed)
    } else if same_text(name, "failed") {
        Some(ResponseStatus::Failed)
    } else if same_text(name, "incomplete") {
        Some(ResponseStatus::Incomplete)
    } else {
        None
    }
}

fn is_set(value: &Json, key: &str) -> (r: bool)
    ensures
        r == set_member(value@, key@),
{
    match value.get(key) {
        Some(Json::Null) => false,
        Some(_) => true,
        None => false,
    }
}

proof fn lemma_put(items: Seq<CompletedModel>, index: u64, item: JsonModel, k: int)
    requires
        0 <= k <= items.len(),
        forall|j: int| k <= j < items.len() ==> index < (#[trigger] items[j]).index,
        k == 0 || items[k - 1].index <= index,
    ensures
        ({
            let new = CompletedModel { index, item };
            if k > 0 && items[k - 1].index == index {
                &&& has_index(items, index)
                &&& put(items, index, item) == items.update(k - 1, new)
            } else {
                &&& !has_index(items, index)
                &&& put(items, index, item) == items.insert(k, new)
            }
        }),
    decreases items.len(),
{
    let new = CompletedModel { index, item };
    if k == items.len() {
        if k > 0 {
            assert(items.last() == items[k - 1]);
            if items[k - 1].index == index {
                assert(items.drop_last().push(new) =~= items.update(k - 1, new));
            } else {
                assert(items.push(new) =~= items.insert(k, new));
            }
        } else {
            assert(items.push(new) =~= items.insert(k, new));
        }
    } else {
        let rest = items.drop_last();
        assert(items.last() == items[items.len() - 1]);
        assert forall|j: int| k <= j < rest.len() implies index < (#[trigger] rest[j]).index by {
            assert(rest[j] == items[j]);
        }
        if k > 0 {
            assert(rest[k - 1] == items[k - 1]);
        }
        lemma_put(rest, index, item, k);
        if k > 0 && items[k - 1].index == index {
            assert(rest.update(k - 1, new).push(items.last()) =~= items.update(k - 1, new));
        } else {
            assert(rest.insert(k, new).push(items.last()) =~= items.insert(k, new));
        }
    }
}

fn put_item(items: &mut Vec<CompletedItem>, index: u64, item: &Json) -> (replaced: bool)
    ensures
        completed_models(final(items)@) == put(completed_models(old(items)@), index, item@),
        replaced == has_index(completed_models(old(items)@), index),
{
    let ghost before = items@;
    let ghost all = completed_models(before);
    let mut k: usize = items.len();
    while k > 0 && items[k - 1].index > index
        invariant
            k <= items.len(),
            items@ == before,
            all == completed_models(before),
            forall|j: int| k <= j < items.len() ==> index < (#[trigger] all[j]).index,
        decreases k,
    {
        k -= 1;
        assert(all[k as int].index == items@[k as int].index);
    }
    proof {
        if k > 0 {
            assert(all[k - 1].index == items@[k - 1].index);
        }
        lemma_put(all, index, item@, k as int);
    }
    let new = CompletedItem { index, item: item.copy() };
    let ghost shown = CompletedModel { index, item: item@ };
    if k > 0 && items[k - 1].index == index {
        items.set(k - 1, new);
        assert(completed_models(items@) =~= all.update(k - 1, shown));
        true
    } else {
        items.insert(k, new);
        assert(completed_models(items@) =~= all.insert(k as int, shown));
        false
    }
}

fn copy_values(items: &Vec<CompletedItem>) -> (r: Vec<Json>)
    ensures
        models(r) == item_values(completed_models(items@)),
{
    let ghost all = item_values(completed_models(items@));
    let mut values: Vec<Json> = Vec::new();
    let mut i: usize = 0;
    assert(models(values) =~= all.subrange(0, 0));
    while i < items.len()
        invariant
            i <= items.len(),
            all == item_values(completed_models(items@)),
            models(values) == all.subrange(0, i as int),
        decreases items.len() - i,
    {
        add_item(&mut values, items[i].item.copy());
        assert(all[i as int] == items@[i as int].item@);
        i += 1;
        assert(models(values) =~= all.subrange(0, i as int));
    }
    assert(models(values) =~= all);
    values
}

fn check_confirmed(items: &Vec<CompletedItem>, history: &Vec<Json>) -> (r: bool)
    ensures
        r == all_confirmed(completed_models(items@), models(*history)),
{
    proof {
        lemma_items(*history, history@.len());
    }
    let ghost all = completed_models(items@);
    let mut i: usize = 0;
    while i < items.len()
        invariant
            i <= items.len(),
            all == completed_models(items@),
            models(*history).len() == history.len(),
            forall|k: int| 0 <= k < history.len() ==> #[trigger] models(*history)[k]
                == history@[k]@,
            forall|k: int| 0 <= k < i ==> completed_confirmed(#[trigger] all[k], models(*history)),
        decreases items.len() - i,
    {
        let index = items[i].index;
        assert(all[i as int].index == index && all[i as int].item == items@[i as int].item@);
        let found = if index < history.len() as u64 {
            Some(&history[index as usize])
        } else {
            None
        };
        if !terminal_item_confirms(&items[i].item, found) {
            assert(!completed_confirmed(all[i as int], models(*history)));
            return false;
        }
        assert(completed_confirmed(all[i as int], models(*history)));
        i += 1;
    }
    true
}

proof fn lemma_normalized_none(items: Seq<JsonModel>, at: int, n: int)
    requires
        at <= n,
        all_normalized(items, at) is None,
    ensures
        all_normalized(items, n) is None,
    decreases n,
{
    if at < n {
        lemma_normalized_none(items, at, n - 1);
    }
}

fn normalize_all(items: &Vec<Json>) -> (r: Option<Vec<OutputItem>>)
    ensures
        match (r, all_normalized(models(*items), items.len() as int)) {
            (Some(output), Some(expected)) => output_models(output@) == expected,
            (None, None) => true,
            _ => false,
        },
{
    proof {
        lemma_items(*items, items@.len());
    }
    let mut output: Vec<OutputItem> = Vec::new();
    let mut i: usize = 0;
    assert(output_models(output@) =~= Seq::<ItemModel>::empty());
    while i < items.len()
        invariant
            i <= items.len(),
            models(*items).len() == items.len(),
            forall|k: int| 0 <= k < items.len() ==> #[trigger] models(*items)[k] == items@[k]@,
            all_normalized(models(*items), i as int) == Some(output_models(output@)),
        decreases items.len() - i,
    {
        assert(models(*items)[i as int] == items@[i as int]@);
        match normalize(&items[i]) {
            Ok(item) => {
                let ghost before = output@;
                output.push(item);
                assert(output_models(output@) =~= output_models(before).push(item@));
            },
            Err(_) => {
                proof {
                    lemma_normalized_none(models(*items), i as int + 1, items.len() as int);
                }
                return None;
            },
        }
        i += 1;
    }
    Some(output)
}

fn call_repeated(output: &Vec<OutputItem>, i: usize) -> (r: bool)
    requires
        i < output.len(),
    ensures
        r == exists|j: int|
            i < j < output.len() && call_of((#[trigger] output@[j])@) is Some && call_of(
                output@[j]@,
            ) == call_of(output@[i as int]@),
{
    let call = match &output[i] {
        OutputItem::ToolProposal(proposal) => proposal.call_id.as_str(),
        _ => return false,
    };
    let mut j: usize = i + 1;
    while j < output.len()
        invariant
            i < j <= output.len(),
            call_of(output@[i as int]@) == Some(call@),
            forall|k: int| i < k < j ==> call_of((#[trigger] output@[k])@) != Some(call@),
        decreases output.len() - j,
    {
        match &output[j] {
            OutputItem::ToolProposal(proposal) => {
                if same_text(proposal.call_id.as_str(), call) {
                    assert(call_of(output@[j as int]@) == Some(call@));
                    return true;
                }
            },
            _ => {},
        }
        j += 1;
    }
    false
}

fn check_calls(output: &Vec<OutputItem>) -> (r: bool)
    ensures
        r == calls_differ(output_models(output@)),
{
    let ghost all = output_models(output@);
    let mut i: usize = 0;
    while i < output.len()
        invariant
            i <= output.len(),
            all == output_models(output@),
            forall|a: int, b: int|
                0 <= a < b < all.len() && a < i && call_of(#[trigger] all[a]) is Some ==> call_of(
                    all[a],
                ) != call_of(#[trigger] all[b]),
        decreases output.len() - i,
    {
        if call_repeated(output, i) {
            proof {
                let j = choose|j: int|
                    i < j < output.len() && call_of((#[trigger] output@[j])@) is Some && call_of(
                        output@[j]@,
                    ) == call_of(output@[i as int]@);
                assert(all[j] == output@[j]@);
                assert(all[i as int] == output@[i as int]@);
            }
            return false;
        }
        assert forall|a: int, b: int|
            0 <= a < b < all.len() && a < i + 1 && call_of(#[trigger] all[a]) is Some implies call_of(
            all[a],
        ) != call_of(#[trigger] all[b]) by {
            assert(all[a] == output@[a]@);
            assert(all[b] == output@[b]@);
        }
        i += 1;
    }
    true
}

/// Whether completed items have ascending indexes.
pub open spec fn indexes_ascend(items: Seq<CompletedModel>) -> bool {
    forall|i: int, j: int|
        0 <= i < j < items.len() ==> (#[trigger] items[i]).index < (#[trigger] items[j]).index
}

proof fn lemma_put_ascends(items: Seq<CompletedModel>, index: u64, item: JsonModel)
    requires
        indexes_ascend(items),
    ensures
        indexes_ascend(put(items, index, item)),
        forall|i: int|
            0 <= i < put(items, index, item).len() ==> (#[trigger] put(items, index, item)[i]).index
                == index || exists|j: int|
                0 <= j < items.len() && (#[trigger] items[j]).index == put(
                    items,
                    index,
                    item,
                )[i].index,
    decreases items.len(),
{
    let next = put(items, index, item);
    if items.len() > 0 {
        let rest = items.drop_last();
        let last = items.last();
        assert(items[items.len() - 1] == last);
        assert forall|i: int, j: int| 0 <= i < j < rest.len() implies (#[trigger] rest[i]).index < (
        #[trigger] rest[j]).index by {
            assert(rest[i] == items[i] && rest[j] == items[j]);
        }
        if last.index < index {
            assert forall|i: int| 0 <= i < next.len() implies (#[trigger] next[i]).index == index
                || exists|j: int| 0 <= j < items.len() && (#[trigger] items[j]).index
                == next[i].index by {
                if i < items.len() {
                    assert(items[i] == next[i]);
                }
            }
        } else if last.index == index {
            assert forall|i: int| 0 <= i < next.len() implies (#[trigger] next[i]).index == index
                || exists|j: int| 0 <= j < items.len() && (#[trigger] items[j]).index
                == next[i].index by {
                if i < rest.len() {
                    assert(items[i] == next[i]);
                }
            }
        } else {
            lemma_put_ascends(rest, index, item);
            let before = put(rest, index, item);
            assert forall|i: int| 0 <= i < next.len() implies (#[trigger] next[i]).index == index
                || exists|j: int| 0 <= j < items.len() && (#[trigger] items[j]).index
                == next[i].index by {
                if i < before.len() {
                    assert(next[i] == before[i]);
                    if before[i].index != index {
                        let j = choose|j: int|
                            0 <= j < rest.len() && (#[trigger] rest[j]).index == before[i].index;
                        assert(items[j].index == next[i].index);
                    }
                } else {
                    assert(items[items.len() - 1].index == next[i].index);
                }
            }
            assert forall|i: int, j: int| 0 <= i < j < next.len() implies (
            #[trigger] next[i]).index < (#[trigger] next[j]).index by {
                assert(next[i] == before[i]);
                if j < before.len() {
                    assert(next[j] == before[j]);
                } else if before[i].index != index {
                    let k = choose|k: int|
                        0 <= k < rest.len() && (#[trigger] rest[k]).index == before[i].index;
                    assert(items[k].index < items[items.len() - 1].index);
                }
            }
        }
    }
}

/// The completed items of a stream stay in the order of their indexes, whatever arrives.
pub proof fn law_completed_items_stay_in_order(state: DecoderModel, event: Option<JsonModel>)
    requires
        indexes_ascend(state.items),
    ensures
        indexes_ascend(decoded(state, event).state.items),
{
    if event is Some {
        let e = event->0;
        match (e.whole_member("output_index"@), e.member("item"@)) {
            (Some(index), Some(item)) => {
                lemma_put_ascends(state.items, index, item);
            },
            _ => {},
        }
    }
}

/// A decoder never turns to another response, and ends only by a terminal event that
/// confirms every completed item.
pub proof fn law_streams_keep_their_response(state: DecoderModel, event: Option<JsonModel>)
    ensures
        state.response_id is Some ==> decoded(state, event).state.response_id == state.response_id,
        decoded(state, event).result == Ok::<bool, FailureKind>(true) ==> {
            let next = decoded(state, event).state;
            &&& next.terminal matches Some(response) && next.response_id == Some(response.id)
                && all_confirmed(state.items, response.history_items)
        },
{
}

} // verus!
