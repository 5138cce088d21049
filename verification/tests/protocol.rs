use harness::inference::cost::UsdCost;
use harness::inference::decoder::{Decoder, Delta};
use harness::inference::failure::{FailureKind, ResponseDialect, Transport};
use harness::inference::model::{Model, ModelSettings, ReasoningMode, Thinking, Usage};
use harness::inference::request::{count_request, counted_tokens, validate_input, InferenceRequest, PromptInput};
use harness::inference::response::{
    normalize, terminal_item_confirms, ArgumentValidity, OutputItem, ResponseStatus,
};
use harness::inference::sse::Sse;
use harness::json::Json;
use std::str::FromStr;

fn json(text: &str) -> Json {
    Json::parse(text.as_bytes()).unwrap()
}

fn event(decoder: &mut Decoder, text: &str) -> Result<bool, FailureKind> {
    let mut emitted: Vec<Delta> = Vec::new();
    decoder.event(text.as_bytes(), &mut emitted)
}

#[test]
fn usd_cost_keeps_the_provider_decimal_exact() {
    for (input, expected) in [
        ("0", "$0"),
        ("0.000214", "$0.000214"),
        ("1.230000000000000000", "$1.23"),
        ("2.5e-7", "$0.00000025"),
        ("250e-2", "$2.5"),
    ] {
        assert_eq!(input.parse::<UsdCost>().unwrap().to_string(), expected);
    }
    assert!("0.0000000000000000001".parse::<UsdCost>().is_err());
    assert!("-1".parse::<UsdCost>().is_err());
    assert!("NaN".parse::<UsdCost>().is_err());
}

#[test]
fn usd_cost_round_trips_through_journal_json_values() {
    let cost = "0.000000250000000001".parse::<UsdCost>().unwrap();
    let value = cost.decimal_string();

    assert_eq!(value, "0.000000250000000001");
    assert_eq!(value.parse::<UsdCost>().unwrap(), cost);
}

#[test]
fn usd_cost_addition_does_not_round_fractional_cents() {
    let first = "0.00000025".parse::<UsdCost>().unwrap();
    let second = "0.00000075".parse::<UsdCost>().unwrap();
    assert_eq!(first.checked_add(second).unwrap().to_string(), "$0.000001");
}

#[test]
fn astra_model_round_trips_without_changing_existing_defaults() {
    for name in ["astra", "gpt-6-astra"] {
        assert_eq!(name.parse::<Model>().unwrap(), Model::Astra);
        assert_eq!(Model::parse(name).unwrap(), Model::Astra);
    }
    assert_eq!(Model::Astra.to_string(), "gpt-6-astra");
    assert_eq!(Model::Astra.name(), "astra");
    assert_eq!(Model::default(), Model::Sol);
    assert_eq!(Model::Sol.name(), "sol");
    assert!("gpt-6".parse::<Model>().is_err());
}

#[test]
fn astra_uses_its_wire_id_and_supported_efforts_on_both_transports() {
    for thinking in [
        Thinking::Low,
        Thinking::Medium,
        Thinking::High,
        Thinking::Xhigh,
        Thinking::Max,
    ] {
        let request = InferenceRequest::new(
            ModelSettings {
                model: Model::Astra,
                thinking,
                ..ModelSettings::default()
            },
            vec![json(r#"{"role": "user", "content": "hello"}"#)],
            vec![],
            "test".into(),
            "astra-session".into(),
            128,
        )
        .unwrap();
        for transport in [Transport::Http, Transport::WebSocket] {
            let wire = request.wire(transport);
            assert_eq!(wire.text("model"), Some("gpt-6-astra"));
            assert_eq!(
                wire.get("reasoning").unwrap().text("effort"),
                Some(thinking.as_str())
            );
            assert!(wire.get("reasoning").unwrap().get("mode").is_none());
            assert!(wire.get("service_tier").is_none());
        }
    }
}

#[test]
fn astra_catalog_cost_uses_installed_prime_catalog_rates() {
    // Prime Agent's OpenAI catalog: $10 input, $1 cached, $50 output per million.
    let mut usage = Usage {
        input_tokens: Some(1_000_000),
        cached_input_tokens: Some(250_000),
        output_tokens: Some(100_000),
        total_tokens: Some(1_100_000),
        ..Usage::default()
    };
    assert_eq!(
        Model::Astra.catalog_cost(&usage).unwrap().to_string(),
        "$12.75"
    );
    usage.cached_input_tokens = None;
    assert!(Model::Astra.catalog_cost(&usage).is_none());
    usage.cached_input_tokens = Some(1_000_001);
    assert!(Model::Astra.catalog_cost(&usage).is_none());
    usage.cached_input_tokens = Some(0);
    usage.total_tokens = Some(1);
    assert!(Model::Astra.catalog_cost(&usage).is_none());
}

#[test]
fn glm_model_round_trips_through_its_wire_name() {
    for name in ["glm", "glm-5.3"] {
        let model = Model::from_str(name).unwrap();
        assert_eq!(model, Model::Glm);
        assert_eq!(model.as_str(), "glm-5.3");
    }
    let parsed: Result<Model, _> = "glm-5.3".parse();
    assert_eq!(parsed.unwrap().as_str(), "glm-5.3");
    assert!("glm-4".parse::<Model>().is_err());
}

#[test]
fn bridge_shaped_reasoning_items_are_valid_input() {
    let bridge = json(
        r#"{
            "type": "reasoning",
            "id": "rs-1",
            "summary": [{"type": "summary_text", "text": "thinking"}],
            "content": []
        }"#,
    );
    assert!(validate_input(&bridge).is_ok());

    let encrypted = json(
        r#"{
            "type": "reasoning",
            "id": "rs-2",
            "encrypted_content": "ciphertext",
            "summary": [],
            "content": []
        }"#,
    );
    assert!(validate_input(&encrypted).is_ok());

    let malformed = json(r#"{"type": "reasoning", "id": "rs-3"}"#);
    assert!(validate_input(&malformed).is_err());
}

#[test]
fn terminal_reencrypted_reasoning_confirms_the_completed_item() {
    let mut decoder = Decoder::new(ResponseDialect::OpenAi);
    event(
        &mut decoder,
        r#"{
            "type": "response.output_item.done",
            "output_index": 0,
            "item": {
                "type": "reasoning",
                "id": "reasoning-1",
                "encrypted_content": "first-ciphertext",
                "summary": [{"type": "summary_text", "text": "same summary"}],
                "content": []
            }
        }"#,
    )
    .unwrap();

    let terminal = r#"{
        "type": "response.completed",
        "response": {
            "id": "response-1",
            "status": "completed",
            "error": null,
            "incomplete_details": null,
            "output": [{
                "type": "reasoning",
                "id": "reasoning-1",
                "encrypted_content": "terminal-ciphertext",
                "summary": [{"type": "summary_text", "text": "same summary"}],
                "content": []
            }],
            "usage": {"input_tokens": 5, "output_tokens": 1, "total_tokens": 6}
        }
    }"#;

    assert!(event(&mut decoder, terminal).unwrap());
}

#[test]
fn bridge_reasoning_item_keeps_its_output_index_in_the_terminal() {
    let mut decoder = Decoder::new(ResponseDialect::OpenAi);
    event(
        &mut decoder,
        r#"{"type": "response.output_item.done", "output_index": 0, "item": {
            "id": "rs-1", "type": "reasoning",
            "summary": [{"type": "summary_text", "text": "thinking"}], "content": []
        }}"#,
    )
    .unwrap();
    event(
        &mut decoder,
        r#"{"type": "response.output_item.done", "output_index": 1, "item": {
            "id": "msg-1", "type": "message", "role": "assistant", "status": "completed",
            "content": [{"type": "output_text", "text": "{\"kind\":\"information\"}"}]
        }}"#,
    )
    .unwrap();

    let terminal = r#"{
        "type": "response.completed",
        "response": {
            "id": "response-1", "status": "completed",
            "output": [
                {"id": "rs-1", "type": "reasoning",
                 "summary": [{"type": "summary_text", "text": "thinking"}], "content": []},
                {"id": "msg-1", "type": "message", "role": "assistant", "status": "completed",
                 "content": [{"type": "output_text", "text": "{\"kind\":\"information\"}"}]}
            ],
            "usage": {"input_tokens": 41, "output_tokens": 200, "total_tokens": 241}
        }
    }"#;
    assert!(event(&mut decoder, terminal).unwrap());
    let provider = decoder.terminal.expect("terminal response");
    assert_eq!(provider.status, ResponseStatus::Completed);
}

#[test]
fn bridge_terminal_event_name_yields_to_the_status() {
    let mut decoder = Decoder::new(ResponseDialect::OpenAi);
    event(
        &mut decoder,
        r#"{
            "type": "response.output_item.done",
            "output_index": 0,
            "item": {
                "id": "msg-1",
                "type": "message",
                "role": "assistant",
                "status": "completed",
                "content": [{"type": "output_text", "text": "{\"kind\":\"infor"}]
            }
        }"#,
    )
    .unwrap();

    // The z.ai bridge names every terminal event `response.completed`
    // and reports a truncation through `status` and `incomplete_details`.
    let terminal = r#"{
        "type": "response.completed",
        "response": {
            "id": "response-1",
            "status": "incomplete",
            "incomplete_details": {"reason": "max_output_tokens"},
            "output": [{
                "id": "msg-1",
                "type": "message",
                "role": "assistant",
                "status": "completed",
                "content": [{"type": "output_text", "text": "{\"kind\":\"infor"}]
            }],
            "usage": {"input_tokens": 41, "output_tokens": 200, "total_tokens": 241}
        }
    }"#;

    assert!(event(&mut decoder, terminal).unwrap());
    let provider = decoder.terminal.expect("terminal response");
    assert_eq!(provider.status, ResponseStatus::Incomplete);
}

#[test]
fn terminal_reencrypted_reasoning_rejects_semantic_changes() {
    let completed = json(
        r#"{
            "type": "reasoning",
            "id": "reasoning-1",
            "encrypted_content": "first-ciphertext",
            "summary": [{"type": "summary_text", "text": "original summary"}],
            "content": []
        }"#,
    );
    let changed = json(
        r#"{
            "type": "reasoning",
            "id": "reasoning-1",
            "encrypted_content": "terminal-ciphertext",
            "summary": [{"type": "summary_text", "text": "changed summary"}],
            "content": []
        }"#,
    );

    assert!(!terminal_item_confirms(&completed, Some(&changed)));
}

#[test]
fn costs_are_bounded_and_subtract_exactly() {
    let a: UsdCost = "1.5".parse().unwrap();
    let b: UsdCost = "0.25".parse().unwrap();
    assert_eq!(a.checked_sub(b).unwrap().decimal_string(), "1.25");
    assert!(b.checked_sub(a).is_none());
    assert_eq!(UsdCost::zero().to_string(), "$0");
    assert!(UsdCost(u128::MAX).checked_add(UsdCost(1)).is_none());
    assert!("".parse::<UsdCost>().is_err());
    assert!("1.2.3".parse::<UsdCost>().is_err());
    assert_eq!("1e3".parse::<UsdCost>().unwrap().decimal_string(), "1000");
}

#[test]
fn every_model_is_read_back_from_its_names() {
    for model in [
        Model::Sol,
        Model::Terra,
        Model::Luna,
        Model::Astra,
        Model::Glm,
        Model::Spark,
    ] {
        assert_eq!(Model::parse(model.name()), Ok(model));
        assert_eq!(Model::parse(model.as_str()), Ok(model));
    }
    assert_eq!(Model::parse("none"), Err(FailureKind::InvalidRequest));
}

#[test]
fn streams_are_decoded_however_they_are_cut() {
    let stream = "data: {\"type\":\"response.created\",\"response\":{\"id\":\"r-1\"}}\n\ndata: {\"type\":\"response.output_text.delta\",\"item_id\":\"m\",\"delta\":\"hi\"}\r\n\r\n";
    let bytes = stream.as_bytes();
    let mut whole: Vec<Delta> = Vec::new();
    let mut decoder = Decoder::new(ResponseDialect::OpenAi);
    Sse::new().push(bytes, 4096, &mut decoder, &mut whole).unwrap();
    assert_eq!(
        whole,
        vec![
            Delta::Created {
                response_id: "r-1".to_string()
            },
            Delta::Text {
                item_id: "m".to_string(),
                text: "hi".to_string()
            },
        ]
    );
    assert_eq!(decoder.text, "hi");
    for cut in 0..bytes.len() {
        let mut pieces: Vec<Delta> = Vec::new();
        let mut decoder = Decoder::new(ResponseDialect::OpenAi);
        let mut sse = Sse::new();
        sse.push(&bytes[..cut], 4096, &mut decoder, &mut pieces).unwrap();
        sse.push(&bytes[cut..], 4096, &mut decoder, &mut pieces).unwrap();
        assert_eq!(pieces, whole);
    }
    let mut decoder = Decoder::new(ResponseDialect::OpenAi);
    assert_eq!(
        Sse::new().push(bytes, 8, &mut decoder, &mut Vec::new()),
        Err(FailureKind::SizeLimit)
    );
}

#[test]
fn a_stream_keeps_its_response() {
    let mut decoder = Decoder::new(ResponseDialect::OpenAi);
    event(&mut decoder, r#"{"type":"response.created","response":{"id":"r-1"}}"#).unwrap();
    assert_eq!(decoder.response_id.as_deref(), Some("r-1"));
    assert_eq!(
        event(&mut decoder, r#"{"type":"response.created","response":{"id":"r-2"}}"#),
        Err(FailureKind::MalformedResponse)
    );
    assert_eq!(event(&mut decoder, "no json"), Err(FailureKind::MalformedResponse));
}

#[test]
fn items_are_normalized_by_their_type() {
    let message = normalize(&json(
        r#"{"type":"message","id":"m","role":"assistant","content":[
            {"type":"output_text","text":"a"},{"type":"refusal","refusal":"no"},{"type":"output_text","text":"b"}]}"#,
    ))
    .unwrap();
    assert_eq!(
        message,
        OutputItem::Message {
            id: "m".to_string(),
            text: "ab".to_string(),
            refusals: vec!["no".to_string()],
        }
    );
    for (arguments, validity) in [
        ("{}", ArgumentValidity::JsonObject),
        ("[]", ArgumentValidity::NotObject),
        ("{", ArgumentValidity::MalformedJson),
    ] {
        let text = format!(
            r#"{{"type":"function_call","id":"i","call_id":"c","name":"n","arguments":"{arguments}"}}"#
        );
        match normalize(&json(&text)).unwrap() {
            OutputItem::ToolProposal(proposal) => {
                assert_eq!(proposal.validity, validity);
                assert_eq!(proposal.arguments, arguments);
            }
            other => panic!("{other:?}"),
        }
    }
    assert_eq!(
        normalize(&json(r#"{"type":"message","id":"m","role":"user","content":[]}"#)),
        Err(FailureKind::MalformedResponse)
    );
    assert_eq!(
        normalize(&json(r#"{"type":"function_call","id":"i","call_id":"","name":"n","arguments":"{}"}"#)),
        Err(FailureKind::MalformedResponse)
    );
}

#[test]
fn requests_keep_their_lineage_when_live_input_grows() {
    let stable = || vec![json(r#"{"role":"user","content":"stable"}"#)];
    let live = |text: &str| vec![json(&format!(r#"{{"role":"user","content":"{text}"}}"#))];
    let request = |input: PromptInput| {
        InferenceRequest::new_segmented(
            ModelSettings::default(),
            input,
            vec![],
            "do".to_string(),
            "s".to_string(),
            64,
        )
        .unwrap()
    };
    let segment = harness::digest::Digest::of(b"segment");
    let a = request(PromptInput::segmented(stable(), live("one"), vec![segment]).unwrap());
    let b = request(PromptInput::segmented(stable(), live("two"), vec![segment]).unwrap());
    assert_eq!(a.cache_lineage(), b.cache_lineage());
    assert_eq!(a.prompt_input().live().len(), 1);
    assert_eq!(a.prompt_input().stable().len(), 1);
    let routed = b.with_prompt_cache_key("key".to_string()).unwrap();
    assert_ne!(routed.cache_lineage(), a.cache_lineage());
    assert_eq!(routed.wire(Transport::Http).text("prompt_cache_key"), Some("key"));
    assert_eq!(routed.session_id(), "s");
    assert_eq!(routed.prompt_input().stable(), &stable()[..]);
    assert_eq!(routed.prompt_input().live(), &live("two")[..]);
    let shaped = routed.with_json_schema("shape", json("{\"type\":\"object\"}"));
    assert_eq!(shaped.prompt_input().stable(), &stable()[..]);
    assert_eq!(shaped.prompt_input().live(), &live("two")[..]);
    let whole = InferenceRequest::new(
        ModelSettings::default(),
        live("one"),
        vec![],
        "do".to_string(),
        "s".to_string(),
        64,
    )
    .unwrap();
    assert_eq!(whole.prompt_input().stable().len(), 0);
    assert_eq!(whole.prompt_input().live(), &live("one")[..]);
}

#[test]
fn fast_and_pro_settings_reach_the_wire() {
    let request = InferenceRequest::new(
        ModelSettings {
            model: Model::Sol,
            thinking: Thinking::High,
            reasoning_mode: ReasoningMode::Pro,
            fast_mode: true,
        },
        vec![json(r#"{"role":"user","content":"x"}"#)],
        vec![],
        "i".to_string(),
        "s".to_string(),
        1,
    )
    .unwrap()
    .with_json_schema("shape", json("{\"type\":\"object\"}"));
    let http = request.wire(Transport::Http);
    assert_eq!(http.text("service_tier"), Some("priority"));
    assert_eq!(http.get("reasoning").unwrap().text("mode"), Some("pro"));
    assert_eq!(
        http.get("text").unwrap().get("format").unwrap().text("name"),
        Some("shape")
    );
    assert_eq!(
        request.wire(Transport::WebSocket).text("type"),
        Some("response.create")
    );
    assert!(InferenceRequest::new(
        ModelSettings::default(),
        vec![],
        vec![],
        "i".to_string(),
        "s".to_string(),
        0,
    )
    .is_err());
}

#[test]
fn tokens_are_counted_for_the_model() {
    let body = count_request(Model::Sol, &vec![json(r#"{"role":"user","content":"x"}"#)], 4096).unwrap();
    assert_eq!(json(&body).text("model"), Some(Model::Sol.as_str()));
    assert_eq!(
        count_request(Model::Sol, &vec![json(r#"{"role":"user","content":"x"}"#)], 4),
        Err(FailureKind::SizeLimit)
    );
    assert_eq!(
        counted_tokens(&Some(json(r#"{"object":"response.input_tokens","input_tokens":7}"#))),
        Ok(7)
    );
    assert_eq!(counted_tokens(&None), Err(FailureKind::MalformedResponse));
}
