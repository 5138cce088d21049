//! Requests to a provider: validated input, cache identities and the wire form.
use crate::canonical::{push_digest, quoted};
use crate::digest::{digest_of_text, Digest};
use crate::inference::failure::{FailureKind, ResponseDialect, Transport};
use crate::inference::model::{settings_json, settings_text, Model, ModelSettings, ReasoningMode};
use crate::json::{
    add_item, add_member, copy_items, lemma_items, models, notation, Json, JsonModel, Member,
    MemberModel,
};
use crate::text::{byte_len, chars_of, decimal, push_decimal, same_text};
use vstd::prelude::*;
use vstd::slice::slice_subrange;
use vstd::utf8::encode_utf8;

verus! {

/// Validated protocol shape, not trusted instructions or admitted tool authority. Only
/// caller-owned function tools are accepted.
pub struct PromptInput {
    items: Vec<Json>,
    stable_items: usize,
    stable_segments: Vec<Digest>,
}

impl PromptInput {
    pub closed spec fn spec_items(self) -> Seq<Json> {
        self.items@
    }

    /// What the items say.
    pub open spec fn item_models(self) -> Seq<JsonModel> {
        Seq::new(self.spec_items().len(), |i: int| self.spec_items()[i]@)
    }

    /// How many items at the start are stable.
    pub closed spec fn spec_stable(self) -> int {
        self.stable_items as int
    }

    pub closed spec fn segments(self) -> Seq<Digest> {
        self.stable_segments@
    }

    #[verifier::type_invariant]
    spec fn well_formed(self) -> bool {
        &&& self.stable_items <= self.items@.len()
        &&& self.stable_items > 0 ==> self.stable_segments@.len() > 0
    }

    /// Input with no part that a provider may cache.
    pub fn all_live(items: Vec<Json>) -> (r: Self)
        ensures
            r.spec_items() == items@,
            r.item_models() == models(items),
            r.spec_stable() == 0,
            r.segments() == Seq::<Digest>::empty(),
    {
        proof {
            lemma_items(items, items@.len());
        }
        PromptInput { items, stable_items: 0, stable_segments: Vec::new() }
    }

    /// Input whose first part is stable and identified by segments.
    pub fn segmented(stable: Vec<Json>, live: Vec<Json>, stable_segments: Vec<Digest>) -> (r: Result<
        Self,
        FailureKind,
    >)
        ensures
            match r {
                Ok(input) => (stable@.len() == 0 || stable_segments@.len() > 0)
                    && input.item_models() == models(stable) + models(live)
                    && input.spec_items().subrange(0, stable@.len() as int) == stable@
                    && input.spec_stable() == stable@.len() && input.segments()
                    == stable_segments@,
                Err(error) => stable@.len() > 0 && stable_segments@.len() == 0 && error
                    == FailureKind::InvalidRequest,
            },
    {
        if stable.len() > 0 && stable_segments.len() == 0 {
            return Err(FailureKind::InvalidRequest);
        }
        let stable_items = stable.len();
        let ghost given = stable@;
        let mut items = stable;
        let mut i: usize = 0;
        proof {
            lemma_items(live, live@.len());
            assert(models(items) =~= models(stable) + models(live).subrange(0, 0));
        }
        while i < live.len()
            invariant
                i <= live.len(),
                models(live).len() == live.len(),
                forall|k: int| 0 <= k < live.len() ==> #[trigger] models(live)[k] == live@[k]@,
                models(items) == models(stable) + models(live).subrange(0, i as int),
                given == stable@,
                items.len() == stable@.len() + i,
                items@.subrange(0, given.len() as int) == given,
            decreases live.len() - i,
        {
            let ghost before = items@;
            add_item(&mut items, live[i].copy());
            i += 1;
            assert(items@.subrange(0, given.len() as int) =~= before.subrange(
                0,
                given.len() as int,
            ));
            assert(models(items) =~= models(stable) + models(live).subrange(0, i as int));
        }
        proof {
            assert(models(live).subrange(0, i as int) =~= models(live));
            lemma_items(items, items@.len());
        }
        let ghost all = models(items);
        let input = PromptInput { items, stable_items, stable_segments };
        assert(input.item_models() =~= all);
        Ok(input)
    }

    pub fn stable(&self) -> (r: &[Json])
        ensures
            r@ == self.spec_items().subrange(0, self.spec_stable()),
    {
        proof {
            use_type_invariant(self);
        }
        slice_subrange(self.items.as_slice(), 0, self.stable_items)
    }

    pub fn live(&self) -> (r: &[Json])
        ensures
            r@ == self.spec_items().subrange(self.spec_stable(), self.spec_items().len() as int),
    {
        proof {
            use_type_invariant(self);
        }
        slice_subrange(self.items.as_slice(), self.stable_items, self.items.len())
    }
}

/// Host-generated context media, separate from what a user attaches.
#[derive(Debug, PartialEq, Eq)]
pub struct InternalContextMedia {
    pub digest: Digest,
    pub mime: String,
    pub locator: String,
    /// A reusable provider file identity, when the active transport has one.
    pub provider_file_id: Option<String>,
}

/// What a provider may cache a prompt under.
#[derive(Debug, PartialEq, Eq)]
pub struct PromptCacheIdentity {
    pub version: u32,
    pub routing: Digest,
    pub instructions: Digest,
    pub tools: Digest,
    pub stable_segments: Vec<Digest>,
    pub lineage: Digest,
}

/// What a cache identity says.
#[verifier::ext_equal]
pub struct CacheModel {
    pub version: u32,
    pub routing: Digest,
    pub instructions: Digest,
    pub tools: Digest,
    pub stable_segments: Seq<Digest>,
    pub lineage: Digest,
}

impl View for PromptCacheIdentity {
    type V = CacheModel;

    open spec fn view(&self) -> CacheModel {
        CacheModel {
            version: self.version,
            routing: self.routing,
            instructions: self.instructions,
            tools: self.tools,
            stable_segments: self.stable_segments@,
            lineage: self.lineage,
        }
    }
}

/// The canonical JSON of the first `n` segments, separated by commas.
pub open spec fn segments_json(segments: Seq<Digest>, n: int) -> Seq<char>
    decreases n,
{
    if n <= 0 {
        ""@
    } else {
        segments_json(segments, n - 1) + (if n == 1 {
            ""@
        } else {
            ","@
        }) + quoted(segments[n - 1].text())
    }
}

fn segments_text(segments: &Vec<Digest>) -> (r: String)
    ensures
        r@ == segments_json(segments@, segments.len() as int),
{
    let mut json = "".to_owned();
    let mut i: usize = 0;
    while i < segments.len()
        invariant
            i <= segments.len(),
            json@ == segments_json(segments@, i as int),
        decreases segments.len() - i,
    {
        if i > 0 {
            json.push_str(",");
        } else {
            json.push_str("");
        }
        push_digest(&mut json, &segments[i]);
        i += 1;
    }
    json
}

/// The canonical JSON of a lineage: everything that a cached prefix depends on.
pub open spec fn lineage_json(
    settings: ModelSettings,
    routing: Digest,
    instructions: Digest,
    tools: Digest,
    segments: Seq<Digest>,
) -> Seq<char> {
    "[\"orvek-prompt-cache-lineage-v1\","@ + settings_json(settings) + ","@ + quoted(routing.text())
        + ","@ + quoted(instructions.text()) + ","@ + quoted(tools.text()) + ",["@ + segments_json(
        segments,
        segments.len() as int,
    ) + "]]"@
}

/// The canonical JSON of a lineage with a structured output.
pub open spec fn structured_json(lineage: Digest, format: JsonModel) -> Seq<char> {
    "[\"orvek-structured-output-lineage-v1\","@ + quoted(lineage.text()) + ","@ + notation(format)
        + "]"@
}

/// The cache identity of a request.
pub open spec fn cache_identity_of(
    settings: ModelSettings,
    routing_key: Seq<char>,
    instructions: Seq<char>,
    tools: Seq<JsonModel>,
    segments: Seq<Digest>,
    output_format: Option<JsonModel>,
) -> CacheModel {
    let routing = digest_of_text(routing_key);
    let instructions = digest_of_text(instructions);
    let tools = digest_of_text(notation(JsonModel::List(tools)));
    let lineage = digest_of_text(
        lineage_json(settings, routing, instructions, tools, segments),
    );
    CacheModel {
        version: 1,
        routing,
        instructions,
        tools,
        stable_segments: segments,
        lineage: match output_format {
            Some(format) => digest_of_text(structured_json(lineage, format)),
            None => lineage,
        },
    }
}

fn copy_segments(segments: &Vec<Digest>) -> (r: Vec<Digest>)
    ensures
        r@ == segments@,
{
    let mut copy: Vec<Digest> = Vec::new();
    let mut i: usize = 0;
    while i < segments.len()
        invariant
            i <= segments.len(),
            copy@ == segments@.subrange(0, i as int),
        decreases segments.len() - i,
    {
        copy.push(segments[i]);
        i += 1;
        assert(copy@ =~= segments@.subrange(0, i as int));
    }
    assert(copy@ =~= segments@);
    copy
}

fn cache_identity(
    settings: ModelSettings,
    routing_key: &str,
    instructions: &str,
    tools: &Vec<Json>,
    stable_segments: &Vec<Digest>,
    output_format: &Option<Json>,
) -> (r: PromptCacheIdentity)
    ensures
        r@ == cache_identity_of(
            settings,
            routing_key@,
            instructions@,
            models(*tools),
            stable_segments@,
            optional(*output_format),
        ),
{
    let routing = Digest::of_text(routing_key);
    let instructions = Digest::of_text(instructions);
    let list = Json::List(copy_items(tools));
    let tools = Digest::of_text(list.to_text().as_str());
    let mut json = "[\"orvek-prompt-cache-lineage-v1\",".to_owned();
    json.push_str(settings_text(&settings).as_str());
    json.push_str(",");
    push_digest(&mut json, &routing);
    json.push_str(",");
    push_digest(&mut json, &instructions);
    json.push_str(",");
    push_digest(&mut json, &tools);
    json.push_str(",[");
    json.push_str(segments_text(stable_segments).as_str());
    json.push_str("]]");
    let plain = Digest::of_text(json.as_str());
    let lineage = match output_format {
        Some(format) => {
            let mut json = "[\"orvek-structured-output-lineage-v1\",".to_owned();
            push_digest(&mut json, &plain);
            json.push_str(",");
            json.push_str(format.to_text().as_str());
            json.push_str("]");
            Digest::of_text(json.as_str())
        },
        None => plain,
    };
    PromptCacheIdentity {
        version: 1,
        routing,
        instructions,
        tools,
        stable_segments: copy_segments(stable_segments),
        lineage,
    }
}

/// What an optional value says.
pub open spec fn optional(value: Option<Json>) -> Option<JsonModel> {
    match value {
        Some(json) => Some(json@),
        None => None,
    }
}

/// Whether a character is an ASCII letter or digit.
pub open spec fn alphanumeric(c: char) -> bool {
    'a' <= c <= 'z' || 'A' <= c <= 'Z' || '0' <= c <= '9'
}

fn is_alphanumeric(c: char) -> (r: bool)
    ensures
        r == alphanumeric(c),
{
    ('a' <= c && c <= 'z') || ('A' <= c && c <= 'Z') || ('0' <= c && c <= '9')
}

/// Whether a text routes requests: 1 to 128 ASCII letters, digits, hyphens, underscores
/// and dots.
pub open spec fn routing_key(text: Seq<char>) -> bool {
    &&& 0 < encode_utf8(text).len() <= 128
    &&& forall|i: int|
        0 <= i < text.len() ==> alphanumeric(#[trigger] text[i]) || text[i] == '-' || text[i] == '_'
            || text[i] == '.'
}

/// Whether a text names a tool: 1 to 128 ASCII letters, digits, hyphens and underscores.
pub open spec fn tool_name(text: Seq<char>) -> bool {
    &&& 0 < encode_utf8(text).len() <= 128
    &&& forall|i: int|
        0 <= i < text.len() ==> alphanumeric(#[trigger] text[i]) || text[i] == '-' || text[i] == '_'
}

fn valid_routing_key(value: &str) -> (r: bool)
    ensures
        r == routing_key(value@),
{
    if byte_len(value) == 0 || byte_len(value) > 128 {
        return false;
    }
    let chars = chars_of(value);
    let mut i: usize = 0;
    while i < chars.len()
        invariant
            i <= chars.len(),
            chars@ == value@,
            forall|k: int|
                0 <= k < i ==> alphanumeric(#[trigger] chars@[k]) || chars@[k] == '-' || chars@[k]
                    == '_' || chars@[k] == '.',
        decreases chars.len() - i,
    {
        let c = chars[i];
        if !(is_alphanumeric(c) || c == '-' || c == '_' || c == '.') {
            assert(value@[i as int] == c);
            return false;
        }
        i += 1;
    }
    true
}

fn valid_tool_name(value: &str) -> (r: bool)
    ensures
        r == tool_name(value@),
{
    if byte_len(value) == 0 || byte_len(value) > 128 {
        return false;
    }
    let chars = chars_of(value);
    let mut i: usize = 0;
    while i < chars.len()
        invariant
            i <= chars.len(),
            chars@ == value@,
            forall|k: int|
                0 <= k < i ==> alphanumeric(#[trigger] chars@[k]) || chars@[k] == '-' || chars@[k]
                    == '_',
        decreases chars.len() - i,
    {
        let c = chars[i];
        if !(is_alphanumeric(c) || c == '-' || c == '_') {
            assert(value@[i as int] == c);
            return false;
        }
        i += 1;
    }
    true
}

/// Whether a value has a text under a key.
pub open spec fn has_text(value: JsonModel, key: Seq<char>) -> bool {
    value.text_member(key) is Some
}

fn has_text_at(value: &Json, key: &str) -> (r: bool)
    ensures
        r == has_text(value@, key@),
{
    value.text(key).is_some()
}

/// Whether the text under a key is another.
pub open spec fn text_is(value: JsonModel, key: Seq<char>, text: Seq<char>) -> bool {
    value.text_member(key) == Some(text)
}

fn text_at_is(value: &Json, key: &str, text: &str) -> (r: bool)
    ensures
        r == text_is(value@, key@, text@),
{
    match value.text(key) {
        Some(found) => same_text(found, text),
        None => false,
    }
}

/// Whether a part of a message is one of the known shapes.
pub open spec fn valid_part(part: JsonModel) -> bool {
    match part.text_member("type"@) {
        Some(kind) => if kind == "input_text"@ || kind == "output_text"@ {
            has_text(part, "text"@)
        } else if kind == "refusal"@ {
            has_text(part, "refusal"@)
        } else if kind == "input_image"@ {
            has_text(part, "image_url"@) || has_text(part, "file_id"@)
        } else {
            false
        },
        None => false,
    }
}

fn valid_input_part(part: &Json) -> (r: bool)
    ensures
        r == valid_part(part@),
{
    match part.text("type") {
        Some(kind) => if same_text(kind, "input_text") || same_text(kind, "output_text") {
            has_text_at(part, "text")
        } else if same_text(kind, "refusal") {
            has_text_at(part, "refusal")
        } else if same_text(kind, "input_image") {
            has_text_at(part, "image_url") || has_text_at(part, "file_id")
        } else {
            false
        },
        None => false,
    }
}

/// Whether the value under a key is a text, or a list of at least one valid part.
pub open spec fn valid_content(item: JsonModel, key: Seq<char>) -> bool {
    match item.member(key) {
        Some(JsonModel::Text(text)) => true,
        Some(JsonModel::List(parts)) => parts.len() > 0 && forall|i: int|
            0 <= i < parts.len() ==> valid_part(#[trigger] parts[i]),
        _ => false,
    }
}

fn has_valid_content(item: &Json, key: &str) -> (r: bool)
    ensures
        r == valid_content(item@, key@),
{
    match item.get(key) {
        Some(Json::Text(text)) => true,
        Some(Json::List(parts)) => {
            proof {
                lemma_items(*parts, parts@.len());
            }
            if parts.len() == 0 {
                return false;
            }
            let mut i: usize = 0;
            while i < parts.len()
                invariant
                    i <= parts.len(),
                    models(*parts).len() == parts.len(),
                    item@.member(key@) == Some(JsonModel::List(models(*parts))),
                    forall|k: int|
                        0 <= k < parts.len() ==> #[trigger] models(*parts)[k] == parts@[k]@,
                    forall|k: int| 0 <= k < i ==> valid_part(#[trigger] models(*parts)[k]),
                decreases parts.len() - i,
            {
                if !valid_input_part(&parts[i]) {
                    assert(!valid_part(models(*parts)[i as int]));
                    return false;
                }
                assert(valid_part(models(*parts)[i as int]));
                i += 1;
            }
            true
        },
        _ => false,
    }
}

/// Whether a value is an input item of a known shape.
pub open spec fn valid_item(item: JsonModel) -> bool {
    let kind = match item.text_member("type"@) {
        Some(kind) => kind,
        None => "message"@,
    };
    if kind == "message"@ {
        (text_is(item, "role"@, "user"@) || text_is(item, "role"@, "assistant"@) || text_is(
            item,
            "role"@,
            "developer"@,
        ) || text_is(item, "role"@, "system"@)) && valid_content(item, "content"@)
    } else if kind == "function_call"@ {
        has_text(item, "call_id"@) && has_text(item, "name"@) && has_text(item, "arguments"@)
    } else if kind == "function_call_output"@ {
        (item.text_member("call_id"@) matches Some(id) && encode_utf8(id).len() > 0)
            && valid_content(item, "output"@)
    } else if kind == "reasoning"@ {
        item.list_member("summary"@) is Some && (item.member("encrypted_content"@) is None
            || has_text(item, "encrypted_content"@))
    } else {
        false
    }
}

/// Checks that a value is an input item of a known shape.
pub fn validate_input(item: &Json) -> (r: Result<(), FailureKind>)
    ensures
        r == if valid_item(item@) {
            Ok::<(), FailureKind>(())
        } else {
            Err(FailureKind::InvalidRequest)
        },
{
    let kind = match item.text("type") {
        Some(kind) => kind,
        None => "message",
    };
    let valid = if same_text(kind, "message") {
        (text_at_is(item, "role", "user") || text_at_is(item, "role", "assistant") || text_at_is(
            item,
            "role",
            "developer",
        ) || text_at_is(item, "role", "system")) && has_valid_content(item, "content")
    } else if same_text(kind, "function_call") {
        has_text_at(item, "call_id") && has_text_at(item, "name") && has_text_at(item, "arguments")
    } else if same_text(kind, "function_call_output") {
        let named = match item.text("call_id") {
            Some(id) => byte_len(id) > 0,
            None => false,
        };
        named && has_valid_content(item, "output")
    } else if same_text(kind, "reasoning") {
        item.list("summary").is_some() && (item.get("encrypted_content").is_none() || has_text_at(
            item,
            "encrypted_content",
        ))
    } else {
        false
    };
    if valid {
        Ok(())
    } else {
        Err(FailureKind::InvalidRequest)
    }
}

/// Whether a value is a caller-owned function tool.
pub open spec fn valid_tool(tool: JsonModel) -> bool {
    &&& tool.text_member("name"@) matches Some(name) && tool_name(name)
    &&& text_is(tool, "type"@, "function"@)
    &&& tool.member("parameters"@) matches Some(parameters) && parameters is Object && text_is(
        parameters,
        "type"@,
        "object"@,
    )
    &&& match tool.member("async"@) {
        Some(value) => value == JsonModel::Bool(false),
        None => true,
    }
}

fn is_valid_tool(tool: &Json) -> (r: bool)
    ensures
        r == valid_tool(tool@),
{
    let named = match tool.text("name") {
        Some(name) => valid_tool_name(name),
        None => false,
    };
    let shaped = match tool.get("parameters") {
        Some(parameters) => {
            let object = match parameters {
                Json::Object(_) => true,
                _ => false,
            };
            object && text_at_is(parameters, "type", "object")
        },
        None => false,
    };
    let synchronous = match tool.get("async") {
        Some(Json::Bool(value)) => !*value,
        Some(_) => false,
        None => true,
    };
    named && text_at_is(tool, "type", "function") && shaped && synchronous
}

/// Whether some tools are valid, each with a name of its own.
pub open spec fn valid_tools(tools: Seq<JsonModel>) -> bool {
    &&& forall|i: int| 0 <= i < tools.len() ==> valid_tool(#[trigger] tools[i])
    &&& forall|i: int, j: int|
        0 <= i < j < tools.len() ==> (#[trigger] tools[i]).text_member("name"@) != (
        #[trigger] tools[j]).text_member("name"@)
}

fn name_taken(tools: &Vec<Json>, n: usize) -> (r: bool)
    requires
        n < tools.len(),
        forall|i: int| 0 <= i <= n ==> (#[trigger] tools@[i])@.text_member("name"@) is Some,
    ensures
        r == exists|i: int|
            0 <= i < n && (#[trigger] tools@[i])@.text_member("name"@) == tools@[n as int]@.text_member(
                "name"@,
            ),
{
    let name = match tools[n].text("name") {
        Some(name) => name,
        None => return false,
    };
    let mut i: usize = 0;
    while i < n
        invariant
            i <= n < tools.len(),
            Some(name@) == tools@[n as int]@.text_member("name"@),
            forall|k: int| 0 <= k < i ==> (#[trigger] tools@[k])@.text_member("name"@) != Some(name@),
        decreases n - i,
    {
        if text_at_is(&tools[i], "name", name) {
            return true;
        }
        i += 1;
    }
    false
}

fn validate_tools(tools: &Vec<Json>) -> (r: bool)
    ensures
        r == valid_tools(models(*tools)),
{
    proof {
        lemma_items(*tools, tools@.len());
    }
    let mut i: usize = 0;
    while i < tools.len()
        invariant
            i <= tools.len(),
            models(*tools).len() == tools.len(),
            forall|k: int| 0 <= k < tools.len() ==> #[trigger] models(*tools)[k] == tools@[k]@,
            forall|k: int| 0 <= k < i ==> valid_tool(#[trigger] models(*tools)[k]),
            forall|k: int| 0 <= k < i ==> (#[trigger] tools@[k])@.text_member("name"@) is Some,
            forall|j: int, k: int|
                0 <= j < k < i ==> (#[trigger] models(*tools)[j]).text_member("name"@) != (
                #[trigger] models(*tools)[k]).text_member("name"@),
        decreases tools.len() - i,
    {
        if !is_valid_tool(&tools[i]) {
            assert(!valid_tool(models(*tools)[i as int]));
            return false;
        }
        assert(valid_tool(models(*tools)[i as int]));
        if name_taken(tools, i) {
            proof {
                let k = choose|k: int|
                    0 <= k < i && (#[trigger] tools@[k])@.text_member("name"@)
                        == tools@[i as int]@.text_member("name"@);
                assert(models(*tools)[k].text_member("name"@) == models(
                    *tools,
                )[i as int].text_member("name"@));
            }
            return false;
        }
        assert forall|j: int, k: int| 0 <= j < k < i + 1 implies (
        #[trigger] models(*tools)[j]).text_member("name"@) != (
        #[trigger] models(*tools)[k]).text_member("name"@) by {
            assert(models(*tools)[j] == tools@[j]@);
            assert(models(*tools)[k] == tools@[k]@);
        }
        i += 1;
    }
    true
}

/// A request to a provider.
pub struct InferenceRequest {
    settings: ModelSettings,
    input: PromptInput,
    tools: Vec<Json>,
    instructions: String,
    session_id: String,
    prompt_cache_key: String,
    cache_identity: PromptCacheIdentity,
    max_output_tokens: u64,
    output_format: Option<Json>,
}

/// What a request says.
#[verifier::ext_equal]
pub struct RequestModel {
    pub settings: ModelSettings,
    pub items: Seq<JsonModel>,
    /// How many items at the start are stable.
    pub stable: int,
    pub segments: Seq<Digest>,
    pub tools: Seq<JsonModel>,
    pub instructions: Seq<char>,
    pub session_id: Seq<char>,
    pub prompt_cache_key: Seq<char>,
    pub cache_identity: CacheModel,
    pub max_output_tokens: u64,
    pub output_format: Option<JsonModel>,
}

impl RequestModel {
    /// The cache identity that the request has for a routing key and an output format.
    pub open spec fn identified(
        self,
        prompt_cache_key: Seq<char>,
        output_format: Option<JsonModel>,
    ) -> RequestModel {
        RequestModel {
            prompt_cache_key,
            output_format,
            cache_identity: cache_identity_of(
                self.settings,
                prompt_cache_key,
                self.instructions,
                self.tools,
                self.segments,
                output_format,
            ),
            ..self
        }
    }
}

impl View for InferenceRequest {
    type V = RequestModel;

    closed spec fn view(&self) -> RequestModel {
        RequestModel {
            settings: self.settings,
            items: self.input.item_models(),
            stable: self.input.spec_stable(),
            segments: self.input.segments(),
            tools: models(self.tools),
            instructions: self.instructions@,
            session_id: self.session_id@,
            prompt_cache_key: self.prompt_cache_key@,
            cache_identity: self.cache_identity@,
            max_output_tokens: self.max_output_tokens,
            output_format: optional(self.output_format),
        }
    }
}

/// Whether a request may be made.
pub open spec fn valid_request(
    items: Seq<JsonModel>,
    tools: Seq<JsonModel>,
    session_id: Seq<char>,
    max_output_tokens: u64,
) -> bool {
    &&& items.len() > 0 && max_output_tokens > 0 && routing_key(session_id)
    &&& forall|i: int| 0 <= i < items.len() ==> valid_item(#[trigger] items[i])
    &&& valid_tools(tools)
}

fn validate_items(items: &Vec<Json>) -> (r: bool)
    ensures
        r == forall|i: int|
            0 <= i < models(*items).len() ==> valid_item(#[trigger] models(*items)[i]),
        models(*items).len() == items.len(),
{
    proof {
        lemma_items(*items, items@.len());
    }
    let mut i: usize = 0;
    while i < items.len()
        invariant
            i <= items.len(),
            models(*items).len() == items.len(),
            forall|k: int| 0 <= k < items.len() ==> #[trigger] models(*items)[k] == items@[k]@,
            forall|k: int| 0 <= k < i ==> valid_item(#[trigger] models(*items)[k]),
        decreases items.len() - i,
    {
        if validate_input(&items[i]).is_err() {
            assert(!valid_item(models(*items)[i as int]));
            return false;
        }
        assert(valid_item(models(*items)[i as int]));
        i += 1;
    }
    true
}

impl InferenceRequest {
    pub fn new(
        settings: ModelSettings,
        input: Vec<Json>,
        tools: Vec<Json>,
        instructions: String,
        session_id: String,
        max_output_tokens: u64,
    ) -> (r: Result<Self, FailureKind>)
        ensures
            match r {
                Ok(request) => valid_request(
                    models(input),
                    models(tools),
                    session_id@,
                    max_output_tokens,
                ) && request@ == request_of(
                    settings,
                    models(input),
                    0,
                    Seq::empty(),
                    models(tools),
                    instructions@,
                    session_id@,
                    max_output_tokens,
                ),
                Err(error) => !valid_request(
                    models(input),
                    models(tools),
                    session_id@,
                    max_output_tokens,
                ) && error == FailureKind::InvalidRequest,
            },
    {
        InferenceRequest::new_segmented(
            settings,
            PromptInput::all_live(input),
            tools,
            instructions,
            session_id,
            max_output_tokens,
        )
    }

    pub fn new_segmented(
        settings: ModelSettings,
        input: PromptInput,
        tools: Vec<Json>,
        instructions: String,
        session_id: String,
        max_output_tokens: u64,
    ) -> (r: Result<Self, FailureKind>)
        ensures
            match r {
                Ok(request) => valid_request(
                    input.item_models(),
                    models(tools),
                    session_id@,
                    max_output_tokens,
                ) && request@ == request_of(
                    settings,
                    input.item_models(),
                    input.spec_stable(),
                    input.segments(),
                    models(tools),
                    instructions@,
                    session_id@,
                    max_output_tokens,
                ),
                Err(error) => !valid_request(
                    input.item_models(),
                    models(tools),
                    session_id@,
                    max_output_tokens,
                ) && error == FailureKind::InvalidRequest,
            },
    {
        proof {
            lemma_items(input.items, input.items@.len());
            assert(models(input.items) =~= input.item_models());
        }
        let items_valid = validate_items(&input.items);
        if input.items.len() == 0 || max_output_tokens == 0 || !valid_routing_key(
            session_id.as_str(),
        ) {
            return Err(FailureKind::InvalidRequest);
        }
        if !items_valid {
            return Err(FailureKind::InvalidRequest);
        }
        if !validate_tools(&tools) {
            return Err(FailureKind::InvalidRequest);
        }
        let prompt_cache_key = session_id.clone();
        let output_format: Option<Json> = None;
        let cache_identity = cache_identity(
            settings,
            prompt_cache_key.as_str(),
            instructions.as_str(),
            &tools,
            &input.stable_segments,
            &output_format,
        );
        Ok(
            InferenceRequest {
                settings,
                input,
                tools,
                instructions,
                session_id,
                prompt_cache_key,
                cache_identity,
                max_output_tokens,
                output_format,
            },
        )
    }

    pub fn settings(&self) -> (r: ModelSettings)
        ensures
            r == self@.settings,
    {
        self.settings
    }

    pub fn session_id(&self) -> (r: &str)
        ensures
            r@ == self@.session_id,
    {
        self.session_id.as_str()
    }

    pub fn cache_lineage(&self) -> (r: Digest)
        ensures
            r == self@.cache_identity.lineage,
    {
        self.cache_identity.lineage
    }

    pub fn cache_identity(&self) -> (r: &PromptCacheIdentity)
        ensures
            r@ == self@.cache_identity,
    {
        &self.cache_identity
    }

    pub fn prompt_input(&self) -> (r: &PromptInput)
        ensures
            r.item_models() == self@.items,
            r.spec_stable() == self@.stable,
            r.segments() == self@.segments,
    {
        &self.input
    }

    /// Routes requests with a shared, exact prefix to the same provider cache without
    /// changing this request's session.
    pub fn with_prompt_cache_key(self, prompt_cache_key: String) -> (r: Result<Self, FailureKind>)
        ensures
            match r {
                Ok(request) => routing_key(prompt_cache_key@) && request@ == self@.identified(
                    prompt_cache_key@,
                    self@.output_format,
                ),
                Err(error) => !routing_key(prompt_cache_key@) && error
                    == FailureKind::InvalidRequest,
            },
    {
        if !valid_routing_key(prompt_cache_key.as_str()) {
            return Err(FailureKind::InvalidRequest);
        }
        let mut request = self;
        request.cache_identity =
        cache_identity(
            request.settings,
            prompt_cache_key.as_str(),
            request.instructions.as_str(),
            &request.tools,
            &request.input.stable_segments,
            &request.output_format,
        );
        request.prompt_cache_key = prompt_cache_key;
        Ok(request)
    }

    /// Asks for output of a JSON schema.
    pub fn with_json_schema(self, name: &str, schema: Json) -> (r: Self)
        ensures
            r@ == self@.identified(self@.prompt_cache_key, Some(format_of(name@, schema@))),
    {
        let mut request = self;
        let mut members: Vec<Member> = Vec::new();
        add_member(&mut members, "name", Json::Text(name.to_owned()));
        add_member(&mut members, "schema", schema);
        add_member(&mut members, "strict", Json::Bool(true));
        add_member(&mut members, "type", Json::Text("json_schema".to_owned()));
        request.output_format = Some(Json::Object(members));
        request.cache_identity =
        cache_identity(
            request.settings,
            request.prompt_cache_key.as_str(),
            request.instructions.as_str(),
            &request.tools,
            &request.input.stable_segments,
            &request.output_format,
        );
        request
    }
}

/// A new request: its session routes it, and it asks for no particular format.
pub open spec fn request_of(
    settings: ModelSettings,
    items: Seq<JsonModel>,
    stable: int,
    segments: Seq<Digest>,
    tools: Seq<JsonModel>,
    instructions: Seq<char>,
    session_id: Seq<char>,
    max_output_tokens: u64,
) -> RequestModel {
    RequestModel {
        settings,
        items,
        stable,
        segments,
        tools,
        instructions,
        session_id,
        prompt_cache_key: session_id,
        cache_identity: cache_identity_of(
            settings,
            session_id,
            instructions,
            tools,
            segments,
            None,
        ),
        max_output_tokens,
        output_format: None,
    }
}

/// A member of an object.
pub open spec fn entry(key: Seq<char>, value: JsonModel) -> MemberModel {
    MemberModel { key, value }
}

/// The output format of a JSON schema.
pub open spec fn format_of(name: Seq<char>, schema: JsonModel) -> JsonModel {
    JsonModel::Object(
        Seq::<MemberModel>::empty().push(entry("name"@, JsonModel::Text(name))).push(
            entry("schema"@, schema),
        ).push(entry("strict"@, JsonModel::Bool(true))).push(
            entry("type"@, JsonModel::Text("json_schema"@)),
        ),
    )
}

/// Members with one more, if a condition holds.
pub open spec fn with_if(members: Seq<MemberModel>, condition: bool, member: MemberModel) -> Seq<
    MemberModel,
> {
    if condition {
        members.push(member)
    } else {
        members
    }
}

/// How the wire form describes the reasoning.
pub open spec fn wire_reasoning(settings: ModelSettings) -> JsonModel {
    let start = Seq::<MemberModel>::empty().push(
        entry("context"@, JsonModel::Text("all_turns"@)),
    ).push(entry("effort"@, JsonModel::Text(settings.thinking.spec_name())));
    let moded = with_if(
        start,
        settings.reasoning_mode == ReasoningMode::Pro,
        entry("mode"@, JsonModel::Text("pro"@)),
    );
    JsonModel::Object(moded.push(entry("summary"@, JsonModel::Text("auto"@))))
}

/// How the wire form describes the text.
pub open spec fn wire_text(output_format: Option<JsonModel>) -> JsonModel {
    let start = match output_format {
        Some(format) => Seq::<MemberModel>::empty().push(entry("format"@, format)),
        None => Seq::<MemberModel>::empty(),
    };
    JsonModel::Object(start.push(entry("verbosity"@, JsonModel::Text("low"@))))
}

/// The wire form of a request, with its keys in order. The ChatGPT dialect takes neither a
/// bound on the output nor a truncation.
pub open spec fn wire_of(request: RequestModel, transport: Transport, dialect: ResponseDialect) -> JsonModel {
    let open = dialect == ResponseDialect::OpenAi;
    let m0 = Seq::<MemberModel>::empty().push(
        entry(
            "include"@,
            JsonModel::List(
                Seq::<JsonModel>::empty().push(JsonModel::Text("reasoning.encrypted_content"@)),
            ),
        ),
    ).push(entry("input"@, JsonModel::List(request.items))).push(
        entry("instructions"@, JsonModel::Text(request.instructions)),
    );
    let m1 = with_if(
        m0,
        open,
        entry(
            "max_output_tokens"@,
            JsonModel::Number(decimal(request.max_output_tokens as nat)),
        ),
    );
    let m2 = m1.push(entry("model"@, JsonModel::Text(request.settings.model.wire_name()))).push(
        entry("parallel_tool_calls"@, JsonModel::Bool(false)),
    ).push(entry("prompt_cache_key"@, JsonModel::Text(request.prompt_cache_key))).push(
        entry("reasoning"@, wire_reasoning(request.settings)),
    );
    let m3 = with_if(
        m2,
        request.settings.fast_mode,
        entry("service_tier"@, JsonModel::Text("priority"@)),
    );
    let m4 = m3.push(entry("store"@, JsonModel::Bool(false)));
    let m5 = with_if(m4, transport == Transport::Http, entry("stream"@, JsonModel::Bool(true)));
    let m6 = m5.push(entry("text"@, wire_text(request.output_format))).push(
        entry("tool_choice"@, JsonModel::Text("auto"@)),
    ).push(entry("tools"@, JsonModel::List(request.tools)));
    let m7 = with_if(m6, open, entry("truncation"@, JsonModel::Text("disabled"@)));
    let m8 = with_if(
        m7,
        transport == Transport::WebSocket,
        entry("type"@, JsonModel::Text("response.create"@)),
    );
    JsonModel::Object(m8)
}

fn number(n: u64) -> (r: Json)
    ensures
        r@ == JsonModel::Number(decimal(n as nat)),
{
    let mut digits = String::new();
    push_decimal(&mut digits, n);
    assert(digits@ =~= decimal(n as nat));
    Json::Number(digits)
}

fn text(value: &str) -> (r: Json)
    ensures
        r@ == JsonModel::Text(value@),
{
    Json::Text(value.to_owned())
}

impl InferenceRequest {
    /// The wire form of the request.
    pub fn wire(&self, transport: Transport) -> (r: Json)
        ensures
            r@ == wire_of(self@, transport, ResponseDialect::OpenAi),
    {
        self.wire_for(transport, ResponseDialect::OpenAi)
    }

    /// The wire form of the request in a dialect.
    pub fn wire_for(&self, transport: Transport, dialect: ResponseDialect) -> (r: Json)
        ensures
            r@ == wire_of(self@, transport, dialect),
    {
        let open = dialect == ResponseDialect::OpenAi;
        let mut reasoning: Vec<Member> = Vec::new();
        add_member(&mut reasoning, "context", text("all_turns"));
        add_member(&mut reasoning, "effort", text(self.settings.thinking.as_str()));
        if self.settings.reasoning_mode == ReasoningMode::Pro {
            add_member(&mut reasoning, "mode", text("pro"));
        }
        add_member(&mut reasoning, "summary", text("auto"));
        let mut described: Vec<Member> = Vec::new();
        match &self.output_format {
            Some(format) => {
                add_member(&mut described, "format", format.copy());
            },
            None => {},
        }
        add_member(&mut described, "verbosity", text("low"));
        proof {
            lemma_items(self.input.items, self.input.items@.len());
            assert(models(self.input.items) =~= self.input.item_models());
        }
        let mut included: Vec<Json> = Vec::new();
        add_item(&mut included, text("reasoning.encrypted_content"));
        let mut m: Vec<Member> = Vec::new();
        add_member(&mut m, "include", Json::List(included));
        add_member(&mut m, "input", Json::List(copy_items(&self.input.items)));
        add_member(&mut m, "instructions", text(self.instructions.as_str()));
        if open {
            add_member(&mut m, "max_output_tokens", number(self.max_output_tokens));
        }
        add_member(&mut m, "model", text(self.settings.model.as_str()));
        add_member(&mut m, "parallel_tool_calls", Json::Bool(false));
        add_member(&mut m, "prompt_cache_key", text(self.prompt_cache_key.as_str()));
        add_member(&mut m, "reasoning", Json::Object(reasoning));
        if self.settings.fast_mode {
            add_member(&mut m, "service_tier", text("priority"));
        }
        add_member(&mut m, "store", Json::Bool(false));
        match transport {
            Transport::Http => {
                add_member(&mut m, "stream", Json::Bool(true));
            },
            Transport::WebSocket => {},
        }
        add_member(&mut m, "text", Json::Object(described));
        add_member(&mut m, "tool_choice", text("auto"));
        add_member(&mut m, "tools", Json::List(copy_items(&self.tools)));
        if open {
            add_member(&mut m, "truncation", text("disabled"));
        }
        match transport {
            Transport::Http => {},
            Transport::WebSocket => {
                add_member(&mut m, "type", text("response.create"));
            },
        }
        Json::Object(m)
    }
}

/// The wire form of a question for the number of input tokens.
pub open spec fn count_body(model: Model, items: Seq<JsonModel>) -> JsonModel {
    JsonModel::Object(
        Seq::<MemberModel>::empty().push(entry("input"@, JsonModel::List(items))).push(
            entry("model"@, JsonModel::Text(model.wire_name())),
        ),
    )
}

/// The body of a request to count input tokens, if it is not larger than allowed.
pub fn count_request(model: Model, items: &Vec<Json>, max_request_bytes: usize) -> (r: Result<
    String,
    FailureKind,
>)
    ensures
        ({
            let body = notation(count_body(model, models(*items)));
            match r {
                Ok(text) => encode_utf8(body).len() <= max_request_bytes && text@ == body,
                Err(error) => encode_utf8(body).len() > max_request_bytes && error
                    == FailureKind::SizeLimit,
            }
        }),
{
    let mut m: Vec<Member> = Vec::new();
    add_member(&mut m, "input", Json::List(copy_items(items)));
    add_member(&mut m, "model", text(model.as_str()));
    let body = Json::Object(m).to_text();
    if byte_len(body.as_str()) > max_request_bytes {
        return Err(FailureKind::SizeLimit);
    }
    Ok(body)
}

/// The number of input tokens that a provider reports.
pub fn counted_tokens(reply: &Option<Json>) -> (r: Result<u64, FailureKind>)
    ensures
        r == match optional(*reply) {
            Some(value) => match value.whole_member("input_tokens"@) {
                Some(tokens) => Ok::<u64, FailureKind>(tokens),
                None => Err(FailureKind::MalformedResponse),
            },
            None => Err(FailureKind::MalformedResponse),
        },
{
    match reply {
        Some(value) => match value.u64_at("input_tokens") {
            Some(tokens) => Ok(tokens),
            None => Err(FailureKind::MalformedResponse),
        },
        None => Err(FailureKind::MalformedResponse),
    }
}

/// A routing key changes neither the session nor anything else that is sent but the key.
pub proof fn law_routing_keeps_the_request(request: RequestModel, key: Seq<char>)
    ensures
        request.identified(key, request.output_format).session_id == request.session_id,
        request.identified(key, request.output_format).items == request.items,
        request.identified(key, request.output_format).stable == request.stable,
        request.identified(key, request.output_format).settings == request.settings,
        request.identified(key, request.output_format).tools == request.tools,
        request.identified(key, request.output_format).instructions == request.instructions,
{
}

/// Requests that differ only in their live input share a cache lineage.
pub proof fn law_live_input_keeps_the_lineage(
    settings: ModelSettings,
    stable: Seq<JsonModel>,
    a: Seq<JsonModel>,
    b: Seq<JsonModel>,
    segments: Seq<Digest>,
    tools: Seq<JsonModel>,
    instructions: Seq<char>,
    session_id: Seq<char>,
    max_output_tokens: u64,
)
    ensures
        request_of(
            settings,
            stable + a,
            stable.len() as int,
            segments,
            tools,
            instructions,
            session_id,
            max_output_tokens,
        ).cache_identity == request_of(
            settings,
            stable + b,
            stable.len() as int,
            segments,
            tools,
            instructions,
            session_id,
            max_output_tokens,
        ).cache_identity,
{
}

} // verus!
