//! What requests say on the wire, by the values under their keys.
use crate::inference::auth::refresh_body;
use crate::inference::failure::{ResponseDialect, Transport};
use crate::inference::model::{Model, ModelSettings, ReasoningMode, Thinking};
use crate::inference::request::{
    count_body, entry, format_of, wire_of, wire_reasoning, wire_text, with_if, RequestModel,
};
use crate::json::{JsonModel, MemberModel};
use crate::keyed::{lacks, lemma_nothing, lemma_pushed, tells, under};
use crate::text::decimal;
use vstd::prelude::*;

verus! {

/// The name by which a provider knows a model.
pub open spec fn known_as(model: Model) -> Seq<char> {
    match model {
        Model::Sol => "gpt-5.6-sol"@,
        Model::Terra => "gpt-5.6-terra"@,
        Model::Luna => "gpt-5.6-luna"@,
        Model::Astra => "gpt-6-astra"@,
        Model::Glm => "glm-5.3"@,
        Model::Spark => "gpt-5.3-codex-spark"@,
    }
}

/// The word for how much a model is to think.
pub open spec fn effort_of(thinking: Thinking) -> Seq<char> {
    match thinking {
        Thinking::Low => "low"@,
        Thinking::Medium => "medium"@,
        Thinking::High => "high"@,
        Thinking::Xhigh => "xhigh"@,
        Thinking::Max => "max"@,
    }
}

/// Whether a value stands under a key exactly where a condition holds.
pub open spec fn under_if(
    object: JsonModel,
    key: Seq<char>,
    value: JsonModel,
    condition: bool,
) -> bool {
    forall|v: JsonModel| #[trigger] under(object, key, v) <==> condition && v == value
}

proof fn lemma_keys()
    ensures
        "include"@.len() == 7,
        "input"@.len() == 5,
        "instructions"@.len() == 12,
        "max_output_tokens"@.len() == 17,
        "model"@.len() == 5,
        "parallel_tool_calls"@.len() == 19,
        "prompt_cache_key"@.len() == 16,
        "reasoning"@.len() == 9,
        "service_tier"@.len() == 12,
        "store"@.len() == 5,
        "stream"@.len() == 6,
        "text"@.len() == 4,
        "tool_choice"@.len() == 11,
        "tools"@.len() == 5,
        "truncation"@.len() == 10,
        "type"@.len() == 4,
        "instructions"@ != "service_tier"@,
        "input"@ != "model"@,
        "input"@ != "store"@,
        "input"@ != "tools"@,
        "model"@ != "store"@,
        "model"@ != "tools"@,
        "store"@ != "tools"@,
        "text"@ != "type"@,
{
    reveal_strlit("include");
    reveal_strlit("input");
    reveal_strlit("instructions");
    reveal_strlit("max_output_tokens");
    reveal_strlit("model");
    reveal_strlit("parallel_tool_calls");
    reveal_strlit("prompt_cache_key");
    reveal_strlit("reasoning");
    reveal_strlit("service_tier");
    reveal_strlit("store");
    reveal_strlit("stream");
    reveal_strlit("text");
    reveal_strlit("tool_choice");
    reveal_strlit("tools");
    reveal_strlit("truncation");
    reveal_strlit("type");
    assert("instructions"@[0] != "service_tier"@[0]);
    assert("input"@[0] != "model"@[0]);
    assert("input"@[0] != "store"@[0]);
    assert("input"@[0] != "tools"@[0]);
    assert("model"@[0] != "store"@[0]);
    assert("model"@[0] != "tools"@[0]);
    assert("store"@[0] != "tools"@[0]);
    assert("text"@[1] != "type"@[1]);
}

proof fn lemma_if(members: Seq<MemberModel>, condition: bool, member: MemberModel)
    ensures
        forall|key: Seq<char>, value: JsonModel| #[trigger]
            under(JsonModel::Object(with_if(members, condition, member)), key, value) == (under(
                JsonModel::Object(members),
                key,
                value,
            ) || condition && lacks(members, key) && member.key == key && member.value == value),
        forall|key: Seq<char>| #[trigger]
            lacks(with_if(members, condition, member), key) == (lacks(members, key) && !(condition
                && member.key == key)),
{
    lemma_pushed(members, member);
}

/// A request says on the wire what it is: its input, its instructions, its tools and its model
/// stand under their keys, it is not stored and its tools run one at a time. It says how much it
/// may answer and that nothing is cut off only where the dialect takes that, asks for priority
/// only in fast mode, for a stream only over HTTP, and is named only on a socket.
#[verifier::rlimit(60)]
pub proof fn law_requests_are_sent_by_key(
    request: RequestModel,
    transport: Transport,
    dialect: ResponseDialect,
)
    ensures
        ({
            let body = wire_of(request, transport, dialect);
            &&& under(body, "input"@, JsonModel::List(request.items))
            &&& tells(body, "instructions"@, request.instructions)
            &&& tells(body, "model"@, known_as(request.settings.model))
            &&& under(body, "tools"@, JsonModel::List(request.tools))
            &&& tells(body, "tool_choice"@, "auto"@)
            &&& under(body, "parallel_tool_calls"@, JsonModel::Bool(false))
            &&& tells(body, "prompt_cache_key"@, request.prompt_cache_key)
            &&& under(body, "store"@, JsonModel::Bool(false))
            &&& under(
                body,
                "include"@,
                JsonModel::List(
                    Seq::<JsonModel>::empty().push(JsonModel::Text("reasoning.encrypted_content"@)),
                ),
            )
            &&& under(body, "reasoning"@, wire_reasoning(request.settings))
            &&& under(body, "text"@, wire_text(request.output_format))
            &&& under_if(
                body,
                "max_output_tokens"@,
                JsonModel::Number(decimal(request.max_output_tokens as nat)),
                dialect == ResponseDialect::OpenAi,
            )
            &&& under_if(
                body,
                "truncation"@,
                JsonModel::Text("disabled"@),
                dialect == ResponseDialect::OpenAi,
            )
            &&& under_if(
                body,
                "service_tier"@,
                JsonModel::Text("priority"@),
                request.settings.fast_mode,
            )
            &&& under_if(
                body,
                "stream"@,
                JsonModel::Bool(true),
                transport == Transport::Http,
            )
            &&& under_if(
                body,
                "type"@,
                JsonModel::Text("response.create"@),
                transport == Transport::WebSocket,
            )
        }),
{
    lemma_keys();
    lemma_nothing();
    let open = dialect == ResponseDialect::OpenAi;
    let e = Seq::<MemberModel>::empty();
    let a1 = entry(
        "include"@,
        JsonModel::List(
            Seq::<JsonModel>::empty().push(JsonModel::Text("reasoning.encrypted_content"@)),
        ),
    );
    let a2 = entry("input"@, JsonModel::List(request.items));
    let a3 = entry("instructions"@, JsonModel::Text(request.instructions));
    let a4 = entry(
        "max_output_tokens"@,
        JsonModel::Number(decimal(request.max_output_tokens as nat)),
    );
    let m0 = e.push(a1).push(a2).push(a3);
    lemma_pushed(e, a1);
    lemma_pushed(e.push(a1), a2);
    lemma_pushed(e.push(a1).push(a2), a3);
    let m1 = with_if(m0, open, a4);
    lemma_if(m0, open, a4);
    let b1 = entry("model"@, JsonModel::Text(request.settings.model.wire_name()));
    let b2 = entry("parallel_tool_calls"@, JsonModel::Bool(false));
    let b3 = entry("prompt_cache_key"@, JsonModel::Text(request.prompt_cache_key));
    let b4 = entry("reasoning"@, wire_reasoning(request.settings));
    let m2 = m1.push(b1).push(b2).push(b3).push(b4);
    lemma_pushed(m1, b1);
    lemma_pushed(m1.push(b1), b2);
    lemma_pushed(m1.push(b1).push(b2), b3);
    lemma_pushed(m1.push(b1).push(b2).push(b3), b4);
    let c1 = entry("service_tier"@, JsonModel::Text("priority"@));
    let m3 = with_if(m2, request.settings.fast_mode, c1);
    lemma_if(m2, request.settings.fast_mode, c1);
    let d1 = entry("store"@, JsonModel::Bool(false));
    let m4 = m3.push(d1);
    lemma_pushed(m3, d1);
    let e1 = entry("stream"@, JsonModel::Bool(true));
    let m5 = with_if(m4, transport == Transport::Http, e1);
    lemma_if(m4, transport == Transport::Http, e1);
    let f1 = entry("text"@, wire_text(request.output_format));
    let f2 = entry("tool_choice"@, JsonModel::Text("auto"@));
    let f3 = entry("tools"@, JsonModel::List(request.tools));
    let m6 = m5.push(f1).push(f2).push(f3);
    lemma_pushed(m5, f1);
    lemma_pushed(m5.push(f1), f2);
    lemma_pushed(m5.push(f1).push(f2), f3);
    let g1 = entry("truncation"@, JsonModel::Text("disabled"@));
    let m7 = with_if(m6, open, g1);
    lemma_if(m6, open, g1);
    let h1 = entry("type"@, JsonModel::Text("response.create"@));
    let m8 = with_if(m7, transport == Transport::WebSocket, h1);
    lemma_if(m7, transport == Transport::WebSocket, h1);
    assert(wire_of(request, transport, dialect) == JsonModel::Object(m8));
}

/// The reasoning that a request asks for: over all turns, as much as the settings say, with a
/// summary, and in another mode only where the settings ask for it.
pub proof fn law_reasoning_is_asked_for_by_the_settings(settings: ModelSettings)
    ensures
        ({
            let reasoning = wire_reasoning(settings);
            &&& tells(reasoning, "context"@, "all_turns"@)
            &&& tells(reasoning, "effort"@, effort_of(settings.thinking))
            &&& tells(reasoning, "summary"@, "auto"@)
            &&& under_if(
                reasoning,
                "mode"@,
                JsonModel::Text("pro"@),
                settings.reasoning_mode == ReasoningMode::Pro,
            )
        }),
{
    reveal_strlit("context");
    reveal_strlit("effort");
    reveal_strlit("mode");
    reveal_strlit("summary");
    assert("context"@.len() == 7 && "effort"@.len() == 6 && "mode"@.len() == 4 && "summary"@.len()
        == 7);
    assert("context"@[0] != "summary"@[0]);
    lemma_nothing();
    let e = Seq::<MemberModel>::empty();
    let a = entry("context"@, JsonModel::Text("all_turns"@));
    let b = entry("effort"@, JsonModel::Text(settings.thinking.spec_name()));
    let c = entry("mode"@, JsonModel::Text("pro"@));
    let d = entry("summary"@, JsonModel::Text("auto"@));
    let pro = settings.reasoning_mode == ReasoningMode::Pro;
    lemma_pushed(e, a);
    lemma_pushed(e.push(a), b);
    lemma_if(e.push(a).push(b), pro, c);
    lemma_pushed(with_if(e.push(a).push(b), pro, c), d);
}

/// The text that a request asks for is terse, and of a format only where it has one.
pub proof fn law_text_is_asked_for_in_the_format(format: Option<JsonModel>)
    ensures
        tells(wire_text(format), "verbosity"@, "low"@),
        forall|v: JsonModel| #[trigger]
            under(wire_text(format), "format"@, v) <==> format == Some(v),
{
    reveal_strlit("format");
    reveal_strlit("verbosity");
    assert("format"@.len() != "verbosity"@.len());
    lemma_nothing();
    let e = Seq::<MemberModel>::empty();
    let b = entry("verbosity"@, JsonModel::Text("low"@));
    match format {
        Some(value) => {
            lemma_pushed(e, entry("format"@, value));
            lemma_pushed(e.push(entry("format"@, value)), b);
        },
        None => {
            lemma_pushed(e, b);
        },
    }
}

/// A structured answer is asked for strictly, by its name and its schema.
pub proof fn law_formats_name_their_schema(name: Seq<char>, schema: JsonModel)
    ensures
        tells(format_of(name, schema), "name"@, name),
        under(format_of(name, schema), "schema"@, schema),
        under(format_of(name, schema), "strict"@, JsonModel::Bool(true)),
        tells(format_of(name, schema), "type"@, "json_schema"@),
{
    reveal_strlit("name");
    reveal_strlit("schema");
    reveal_strlit("strict");
    reveal_strlit("type");
    assert("name"@.len() == 4 && "schema"@.len() == 6 && "strict"@.len() == 6 && "type"@.len()
        == 4);
    assert("name"@[0] != "type"@[0]);
    assert("schema"@[1] != "strict"@[1]);
    lemma_nothing();
    let e = Seq::<MemberModel>::empty();
    let a = entry("name"@, JsonModel::Text(name));
    let b = entry("schema"@, schema);
    let c = entry("strict"@, JsonModel::Bool(true));
    let d = entry("type"@, JsonModel::Text("json_schema"@));
    lemma_pushed(e, a);
    lemma_pushed(e.push(a), b);
    lemma_pushed(e.push(a).push(b), c);
    lemma_pushed(e.push(a).push(b).push(c), d);
}

/// A question for the number of tokens names the model and holds the input.
pub proof fn law_counts_are_asked_for_the_input(model: Model, items: Seq<JsonModel>)
    ensures
        tells(count_body(model, items), "model"@, known_as(model)),
        under(count_body(model, items), "input"@, JsonModel::List(items)),
{
    lemma_keys();
    lemma_nothing();
    let e = Seq::<MemberModel>::empty();
    let a = entry("input"@, JsonModel::List(items));
    lemma_pushed(e, a);
    lemma_pushed(e.push(a), entry("model"@, JsonModel::Text(model.wire_name())));
}

/// A refresh presents the refresh token, as one.
pub proof fn law_refreshes_present_their_token(token: Seq<char>)
    ensures
        tells(refresh_body(token), "grant_type"@, "refresh_token"@),
        tells(refresh_body(token), "refresh_token"@, token),
        tells(refresh_body(token), "client_id"@, "app_EMoamEEZ73f0CkXaXp7hrann"@),
{
    reveal_strlit("client_id");
    reveal_strlit("grant_type");
    reveal_strlit("refresh_token");
    assert("client_id"@.len() == 9 && "grant_type"@.len() == 10 && "refresh_token"@.len() == 13);
    lemma_nothing();
    let e = Seq::<MemberModel>::empty();
    let a = MemberModel {
        key: "client_id"@,
        value: JsonModel::Text("app_EMoamEEZ73f0CkXaXp7hrann"@),
    };
    let b = MemberModel { key: "grant_type"@, value: JsonModel::Text("refresh_token"@) };
    let c = MemberModel { key: "refresh_token"@, value: JsonModel::Text(token) };
    lemma_pushed(e, a);
    lemma_pushed(e.push(a), b);
    lemma_pushed(e.push(a).push(b), c);
}

} // verus!
