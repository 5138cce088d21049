//! Answers of a provider: usage, output items and the events of a stream.
use crate::inference::cost::{cost_value, UsdCost};
use crate::inference::failure::FailureKind;
use crate::inference::model::Usage;
use crate::inference::request::{optional, text_is};
use crate::json::{
    alike, lemma_items, lemma_members, member_model, models, notation, object_members, parsed_json,
    Json, JsonModel, Member, MemberModel,
};
use crate::text::{byte_len, same_text};
use vstd::prelude::*;
use vstd::utf8::encode_utf8;

verus! {

/// The value under one key, or else under another.
pub open spec fn cost_member(value: JsonModel) -> Option<JsonModel> {
    match value.member("cost"@) {
        Some(cost) => Some(cost),
        None => value.member("response_cost"@),
    }
}

/// The amount that a value notes, as a text or otherwise.
pub open spec fn noted_cost(value: JsonModel) -> Option<int> {
    match cost_member(value) {
        Some(JsonModel::Text(text)) => cost_value(text),
        Some(cost) => cost_value(notation(cost)),
        None => None,
    }
}

/// A whole number two keys deep.
pub open spec fn nested_whole(value: JsonModel, outer: Seq<char>, inner: Seq<char>) -> Option<u64> {
    match value.member(outer) {
        Some(details) => details.whole_member(inner),
        None => None,
    }
}

/// What a value reports, as far as it is consistent: a total that is not the sum is
/// unknown, and so is a part that exceeds its whole.
pub open spec fn usage_of(value: JsonModel) -> Usage {
    let input = value.whole_member("input_tokens"@);
    let output = value.whole_member("output_tokens"@);
    let total = value.whole_member("total_tokens"@);
    let cached = nested_whole(value, "input_tokens_details"@, "cached_tokens"@);
    let reasoning = nested_whole(value, "output_tokens_details"@, "reasoning_tokens"@);
    Usage {
        input_tokens: input,
        output_tokens: output,
        total_tokens: match (input, output, total) {
            (Some(i), Some(o), Some(t)) => if i + o != t {
                None
            } else {
                total
            },
            _ => total,
        },
        cached_input_tokens: match (cached, input) {
            (Some(c), Some(i)) => if c > i {
                None
            } else {
                cached
            },
            _ => cached,
        },
        reasoning_tokens: match (reasoning, output) {
            (Some(r), Some(o)) => if r > o {
                None
            } else {
                reasoning
            },
            _ => reasoning,
        },
        cost_usd: match noted_cost(value) {
            Some(cost) => Some(UsdCost(cost as u128)),
            None => None,
        },
    }
}

fn nested_u64(value: &Json, outer: &str, inner: &str) -> (r: Option<u64>)
    ensures
        r == nested_whole(value@, outer@, inner@),
{
    match value.get(outer) {
        Some(details) => details.u64_at(inner),
        None => None,
    }
}

fn read_cost(value: &Json) -> (r: Option<UsdCost>)
    ensures
        match r {
            Some(cost) => noted_cost(value@) == Some(cost.0 as int),
            None => noted_cost(value@) is None,
        },
{
    let found = match value.get("cost") {
        Some(cost) => Some(cost),
        None => value.get("response_cost"),
    };
    let parsed = match found {
        Some(Json::Text(text)) => UsdCost::parse(text.as_str()),
        Some(cost) => {
            let text = cost.to_text();
            UsdCost::parse(text.as_str())
        },
        None => return None,
    };
    match parsed {
        Ok(cost) => Some(cost),
        Err(_) => None,
    }
}

impl Usage {
    /// Reads what a response used.
    pub fn parse(value: &Json) -> (r: Self)
        ensures
            r == usage_of(value@),
    {
        let mut usage = Usage {
            input_tokens: value.u64_at("input_tokens"),
            output_tokens: value.u64_at("output_tokens"),
            total_tokens: value.u64_at("total_tokens"),
            cached_input_tokens: nested_u64(value, "input_tokens_details", "cached_tokens"),
            reasoning_tokens: nested_u64(value, "output_tokens_details", "reasoning_tokens"),
            cost_usd: read_cost(value),
        };
        match (usage.input_tokens, usage.output_tokens, usage.total_tokens) {
            (Some(input), Some(output), Some(total)) => {
                let consistent = match input.checked_add(output) {
                    Some(sum) => sum == total,
                    None => false,
                };
                if !consistent {
                    usage.total_tokens = None;
                }
            },
            _ => {},
        }
        match (usage.cached_input_tokens, usage.input_tokens) {
            (Some(cached), Some(input)) => {
                if cached > input {
                    usage.cached_input_tokens = None;
                }
            },
            _ => {},
        }
        match (usage.reasoning_tokens, usage.output_tokens) {
            (Some(reasoning), Some(output)) => {
                if reasoning > output {
                    usage.reasoning_tokens = None;
                }
            },
            _ => {},
        }
        usage
    }
}

/// How a response ended.
#[derive(Clone, Copy, Debug, PartialEq, Eq, Structural)]
pub enum ResponseStatus {
    Completed,
    Failed,
    Incomplete,
}

/// Whether the arguments of a tool call are a JSON object.
#[derive(Clone, Copy, Debug, PartialEq, Eq, Structural)]
pub enum ArgumentValidity {
    JsonObject,
    MalformedJson,
    NotObject,
}

/// A tool call that a model proposes. The arguments are the exact provider bytes: malformed
/// JSON is never repaired or guessed.
#[derive(Debug, PartialEq, Eq)]
pub struct ToolProposal {
    pub item_id: String,
    pub call_id: String,
    pub name: String,
    pub arguments: String,
    pub validity: ArgumentValidity,
}

/// An item of a response.
#[derive(Debug, PartialEq, Eq)]
pub enum OutputItem {
    Message { id: String, text: String, refusals: Vec<String> },
    ToolProposal(ToolProposal),
    /// Opaque reasoning and future output types remain data; they are never executed.
    Opaque { item: Json },
}

/// What an item says.
#[verifier::ext_equal]
pub enum ItemModel {
    Message { id: Seq<char>, text: Seq<char>, refusals: Seq<Seq<char>> },
    ToolProposal {
        item_id: Seq<char>,
        call_id: Seq<char>,
        name: Seq<char>,
        arguments: Seq<char>,
        validity: ArgumentValidity,
    },
    Opaque { item: JsonModel },
}

/// What some texts say.
pub open spec fn texts(items: Seq<String>) -> Seq<Seq<char>> {
    items.map_values(|item: String| item@)
}

impl View for OutputItem {
    type V = ItemModel;

    open spec fn view(&self) -> ItemModel {
        match self {
            OutputItem::Message { id, text, refusals } => ItemModel::Message {
                id: id@,
                text: text@,
                refusals: texts(refusals@),
            },
            OutputItem::ToolProposal(proposal) => ItemModel::ToolProposal {
                item_id: proposal.item_id@,
                call_id: proposal.call_id@,
                name: proposal.name@,
                arguments: proposal.arguments@,
                validity: proposal.validity,
            },
            OutputItem::Opaque { item } => ItemModel::Opaque { item: item@ },
        }
    }
}

/// What a part of a message contributes.
pub enum PartModel {
    Text(Seq<char>),
    Refusal(Seq<char>),
    Unknown,
    Malformed,
}

/// How a part of a message is read.
pub open spec fn part_of(part: JsonModel) -> PartModel {
    match part.text_member("type"@) {
        None => PartModel::Malformed,
        Some(kind) => if kind == "output_text"@ {
            match part.text_member("text"@) {
                Some(text) => PartModel::Text(text),
                None => PartModel::Malformed,
            }
        } else if kind == "refusal"@ {
            match part.text_member("refusal"@) {
                Some(text) => PartModel::Refusal(text),
                None => PartModel::Malformed,
            }
        } else {
            PartModel::Unknown
        },
    }
}

/// What the first `n` parts of a message come to.
pub enum PartsModel {
    Read { text: Seq<char>, refusals: Seq<Seq<char>> },
    Unknown,
    Malformed,
}

pub open spec fn parts_of(parts: Seq<JsonModel>, n: int) -> PartsModel
    decreases n,
{
    if n <= 0 {
        PartsModel::Read { text: Seq::empty(), refusals: Seq::empty() }
    } else {
        match parts_of(parts, n - 1) {
            PartsModel::Read { text, refusals } => match part_of(parts[n - 1]) {
                PartModel::Text(more) => PartsModel::Read { text: text + more, refusals },
                PartModel::Refusal(refusal) => PartsModel::Read {
                    text,
                    refusals: refusals.push(refusal),
                },
                PartModel::Unknown => PartsModel::Unknown,
                PartModel::Malformed => PartsModel::Malformed,
            },
            other => other,
        }
    }
}

/// Whether arguments are a JSON object, by what they spell.
pub open spec fn validity_of(parsed: Option<JsonModel>) -> ArgumentValidity {
    match parsed {
        Some(JsonModel::Object(members)) => ArgumentValidity::JsonObject,
        Some(_) => ArgumentValidity::NotObject,
        None => ArgumentValidity::MalformedJson,
    }
}

/// Judges arguments by what they spell.
pub fn argument_validity(parsed: &Option<Json>) -> (r: ArgumentValidity)
    ensures
        r == validity_of(optional(*parsed)),
{
    match parsed {
        Some(Json::Object(_)) => ArgumentValidity::JsonObject,
        Some(_) => ArgumentValidity::NotObject,
        None => ArgumentValidity::MalformedJson,
    }
}

/// How an item of a response is read, or that it is malformed.
pub open spec fn normalized(item: JsonModel) -> Option<ItemModel> {
    match item.text_member("type"@) {
        None => None,
        Some(kind) => if kind == "message"@ {
            if !text_is(item, "role"@, "assistant"@) {
                None
            } else {
                match item.list_member("content"@) {
                    None => None,
                    Some(parts) => match parts_of(parts, parts.len() as int) {
                        PartsModel::Malformed => None,
                        PartsModel::Unknown => Some(ItemModel::Opaque { item }),
                        PartsModel::Read { text, refusals } => match item.text_member("id"@) {
                            Some(id) => Some(ItemModel::Message { id, text, refusals }),
                            None => None,
                        },
                    },
                }
            }
        } else if kind == "function_call"@ {
            match (
                item.text_member("arguments"@),
                item.text_member("call_id"@),
                item.text_member("name"@),
                item.text_member("id"@),
            ) {
                (Some(arguments), Some(call_id), Some(name), Some(item_id)) => if call_id.len() == 0
                    || name.len() == 0 {
                    None
                } else {
                    Some(
                        ItemModel::ToolProposal {
                            item_id,
                            call_id,
                            name,
                            arguments,
                            validity: validity_of(parsed_json(encode_utf8(arguments))),
                        },
                    )
                },
                _ => None,
            }
        } else {
            Some(ItemModel::Opaque { item })
        },
    }
}

fn read_parts(parts: &Vec<Json>) -> (r: Result<Option<(String, Vec<String>)>, FailureKind>)
    ensures
        match (r, parts_of(models(*parts), parts.len() as int)) {
            (Ok(Some((text, refusals))), PartsModel::Read { text: t, refusals: f }) => text@ == t
                && texts(refusals@) == f,
            (Ok(None), PartsModel::Unknown) => true,
            (Err(error), PartsModel::Malformed) => error == FailureKind::MalformedResponse,
            _ => false,
        },
{
    proof {
        lemma_items(*parts, parts@.len());
    }
    let mut text = String::new();
    let mut refusals: Vec<String> = Vec::new();
    let mut i: usize = 0;
    assert(texts(refusals@) =~= Seq::<Seq<char>>::empty());
    assert(text@ =~= Seq::<char>::empty());
    while i < parts.len()
        invariant
            i <= parts.len(),
            models(*parts).len() == parts.len(),
            forall|k: int| 0 <= k < parts.len() ==> #[trigger] models(*parts)[k] == parts@[k]@,
            parts_of(models(*parts), i as int) == (PartsModel::Read {
                text: text@,
                refusals: texts(refusals@),
            }),
        decreases parts.len() - i,
    {
        let part = &parts[i];
        assert(models(*parts)[i as int] == part@);
        let ghost at = i as int;
        match part.text("type") {
            None => {
                proof {
                    lemma_parts_stop(models(*parts), at + 1, parts.len() as int);
                }
                return Err(FailureKind::MalformedResponse);
            },
            Some(kind) => {
                if same_text(kind, "output_text") {
                    match part.text("text") {
                        Some(more) => {
                            text.push_str(more);
                        },
                        None => {
                            proof {
                                lemma_parts_stop(models(*parts), at + 1, parts.len() as int);
                            }
                            return Err(FailureKind::MalformedResponse);
                        },
                    }
                } else if same_text(kind, "refusal") {
                    match part.text("refusal") {
                        Some(refusal) => {
                            let ghost before = refusals@;
                            refusals.push(refusal.to_owned());
                            assert(texts(refusals@) =~= texts(before).push(refusal@));
                        },
                        None => {
                            proof {
                                lemma_parts_stop(models(*parts), at + 1, parts.len() as int);
                            }
                            return Err(FailureKind::MalformedResponse);
                        },
                    }
                } else {
                    proof {
                        lemma_parts_stop(models(*parts), at + 1, parts.len() as int);
                    }
                    return Ok(None);
                }
            },
        }
        i += 1;
    }
    Ok(Some((text, refusals)))
}

proof fn lemma_parts_stop(parts: Seq<JsonModel>, at: int, n: int)
    requires
        at <= n,
        !(parts_of(parts, at) is Read),
    ensures
        parts_of(parts, n) == parts_of(parts, at),
    decreases n,
{
    if at < n {
        lemma_parts_stop(parts, at, n - 1);
    }
}

/// Whether a result is what an item reads as.
pub open spec fn is_item(result: Result<OutputItem, FailureKind>, item: Option<ItemModel>) -> bool {
    match (result, item) {
        (Ok(read), Some(expected)) => read@ == expected,
        (Err(error), None) => error == FailureKind::MalformedResponse,
        _ => false,
    }
}

pub(crate) fn string<'a>(value: &'a Json, key: &str) -> (r: Result<&'a str, FailureKind>)
    ensures
        match r {
            Ok(text) => value@.text_member(key@) == Some(text@),
            Err(error) => value@.text_member(key@) is None && error
                == FailureKind::MalformedResponse,
        },
{
    match value.text(key) {
        Some(text) => Ok(text),
        None => Err(FailureKind::MalformedResponse),
    }
}

fn normalize_message(item: &Json) -> (r: Result<OutputItem, FailureKind>)
    requires
        item@.text_member("type"@) == Some("message"@),
    ensures
        is_item(r, normalized(item@)),
{
    match string(item, "role") {
        Err(error) => return Err(error),
        Ok(role) => {
            if !same_text(role, "assistant") {
                return Err(FailureKind::MalformedResponse);
            }
        },
    }
    let parts = match item.list("content") {
        Some(parts) => parts,
        None => return Err(FailureKind::MalformedResponse),
    };
    proof {
        lemma_items(*parts, parts@.len());
    }
    match read_parts(parts) {
        Err(error) => Err(error),
        Ok(None) => Ok(OutputItem::Opaque { item: item.copy() }),
        Ok(Some((text, refusals))) => match string(item, "id") {
            Err(error) => Err(error),
            Ok(id) => Ok(OutputItem::Message { id: id.to_owned(), text, refusals }),
        },
    }
}

fn normalize_call(item: &Json) -> (r: Result<OutputItem, FailureKind>)
    requires
        item@.text_member("type"@) == Some("function_call"@),
    ensures
        is_item(r, normalized(item@)),
{
    proof {
        reveal_strlit("message");
        reveal_strlit("function_call");
        assert("message"@.len() != "function_call"@.len());
    }
    let arguments = match string(item, "arguments") {
        Err(error) => return Err(error),
        Ok(arguments) => arguments,
    };
    let parsed = Json::parse(arguments.as_bytes());
    let validity = argument_validity(&parsed);
    let call_id = match string(item, "call_id") {
        Err(error) => return Err(error),
        Ok(call_id) => call_id,
    };
    let name = match string(item, "name") {
        Err(error) => return Err(error),
        Ok(name) => name,
    };
    if is_empty(call_id) || is_empty(name) {
        return Err(FailureKind::MalformedResponse);
    }
    let item_id = match string(item, "id") {
        Err(error) => return Err(error),
        Ok(item_id) => item_id,
    };
    Ok(
        OutputItem::ToolProposal(
            ToolProposal {
                item_id: item_id.to_owned(),
                call_id: call_id.to_owned(),
                name: name.to_owned(),
                arguments: arguments.to_owned(),
                validity,
            },
        ),
    )
}

pub(crate) fn is_empty(text: &str) -> (r: bool)
    ensures
        r == (text@.len() == 0),
{
    let empty = byte_len(text) == 0;
    proof {
        if text@.len() > 0 {
            assert(encode_utf8(text@).len() > 0);
        }
    }
    empty
}

/// Reads an item of a response.
pub fn normalize(item: &Json) -> (r: Result<OutputItem, FailureKind>)
    ensures
        is_item(r, normalized(item@)),
        r matches Ok(OutputItem::ToolProposal(proposal)) ==> {
            &&& item@.text_member("name"@) == Some(proposal.name@)
            &&& item@.text_member("call_id"@) == Some(proposal.call_id@)
            &&& item@.text_member("id"@) == Some(proposal.item_id@)
            &&& item@.text_member("arguments"@) == Some(proposal.arguments@)
        },
        r matches Ok(OutputItem::Message { id, .. }) ==> item@.text_member("id"@) == Some(id@),
        r matches Ok(OutputItem::Opaque { item: kept }) ==> kept@ == item@,
{
    match string(item, "type") {
        Err(error) => Err(error),
        Ok(kind) => if same_text(kind, "message") {
            normalize_message(item)
        } else if same_text(kind, "function_call") {
            normalize_call(item)
        } else {
            Ok(OutputItem::Opaque { item: item.copy() })
        },
    }
}

/// Whether the members of a reasoning item are confirmed by those of another: the same
/// keys with the same values, but for the encrypted content, which both only have to have.
pub open spec fn members_confirm(
    completed: Seq<MemberModel>,
    terminal: Seq<MemberModel>,
    n: int,
) -> bool {
    forall|i: int|
        0 <= i < n ==> member_confirms(#[trigger] completed[i], terminal)
}

pub open spec fn member_confirms(member: MemberModel, terminal: Seq<MemberModel>) -> bool {
    match JsonModel::Object(terminal).member(member.key) {
        None => false,
        Some(value) => if member.key == "encrypted_content"@ {
            (member.value matches JsonModel::Text(a) && a.len() > 0) && (
            value matches JsonModel::Text(b) && b.len() > 0)
        } else {
            alike(member.value, value)
        },
    }
}

/// Whether the terminal form of an item confirms the completed one.
pub open spec fn item_confirms(completed: JsonModel, terminal: Option<JsonModel>) -> bool {
    match terminal {
        None => false,
        Some(terminal) => alike(completed, terminal) || text_is(completed, "type"@, "reasoning"@)
            && text_is(terminal, "type"@, "reasoning"@) && match (completed, terminal) {
            (JsonModel::Object(a), JsonModel::Object(b)) => a.len() == b.len() && members_confirm(
                a,
                b,
                a.len() as int,
            ),
            _ => false,
        },
    }
}

fn confirms_member(member: &Member, terminal: &Json, Ghost(members): Ghost<Seq<MemberModel>>) -> (r:
    bool)
    requires
        terminal@ == JsonModel::Object(members),
    ensures
        r == member_confirms(member_model(*member), members),
{
    match terminal.get(member.key.as_str()) {
        None => false,
        Some(value) => if same_text(member.key.as_str(), "encrypted_content") {
            let a = match &member.value {
                Json::Text(text) => !is_empty(text.as_str()),
                _ => false,
            };
            let b = match value {
                Json::Text(text) => !is_empty(text.as_str()),
                _ => false,
            };
            a && b
        } else {
            member.value.same(value)
        },
    }
}

fn all_confirm(a: &Vec<Member>, terminal: &Json, Ghost(members): Ghost<Seq<MemberModel>>) -> (r:
    bool)
    requires
        terminal@ == JsonModel::Object(members),
    ensures
        r == members_confirm(object_members(*a), members, a.len() as int),
{
    proof {
        lemma_members(*a, a@.len());
    }
    let mut i: usize = 0;
    while i < a.len()
        invariant
            i <= a.len(),
            object_members(*a).len() == a.len(),
            terminal@ == JsonModel::Object(members),
            forall|k: int|
                0 <= k < a.len() ==> #[trigger] object_members(*a)[k] == member_model(a@[k]),
            members_confirm(object_members(*a), members, i as int),
        decreases a.len() - i,
    {
        if !confirms_member(&a[i], terminal, Ghost(members)) {
            assert(!member_confirms(object_members(*a)[i as int], members));
            return false;
        }
        assert(member_confirms(object_members(*a)[i as int], members));
        i += 1;
    }
    true
}

/// Whether the terminal form of an item confirms the completed one.
pub fn terminal_item_confirms(completed: &Json, terminal: Option<&Json>) -> (r: bool)
    ensures
        r == item_confirms(
            completed@,
            match terminal {
                Some(json) => Some(json@),
                None => None,
            },
        ),
{
    let terminal = match terminal {
        Some(terminal) => terminal,
        None => return false,
    };
    if completed.same(terminal) {
        return true;
    }
    let both = match (completed.text("type"), terminal.text("type")) {
        (Some(a), Some(b)) => same_text(a, "reasoning") && same_text(b, "reasoning"),
        _ => false,
    };
    if !both {
        return false;
    }
    match (completed, terminal) {
        (Json::Object(a), Json::Object(b)) => {
            proof {
                lemma_members(*a, a@.len());
                lemma_members(*b, b@.len());
            }
            if a.len() != b.len() {
                return false;
            }
            all_confirm(a, terminal, Ghost(object_members(*b)))
        },
        _ => false,
    }
}

} // verus!
