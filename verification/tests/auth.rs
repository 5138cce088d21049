use base64::engine::general_purpose::URL_SAFE_NO_PAD;
use base64::Engine;
use harness::inference::auth::{
    answer_login, auth_headers, authorization_url, callback_code, check_api_key, check_login,
    code_challenge, decode_jwt, document_status, drawn_text, exchange_body, expires_soon, login_code,
    refresh_stamp, stamp_document, token_url, uses_chatgpt, ManagedAuth, QueryPair, SecretString,
};
use harness::inference::call::{
    check_count_reply, count_bytes, is_event_stream, retry_after_ns, socket_step, AttemptFailure, AttemptStatus,
    CallState, NextStep, SocketMessage, SocketStep,
};
use harness::inference::cost::UsdCost;
use harness::inference::failure::{AuthError, FailureKind, ResponseDialect, Transport};
use harness::inference::model::{Model, ModelSettings};
use harness::inference::request::InferenceRequest;
use harness::inference::route::{issuer, AuthMode, Limits, Route};
use harness::json::Json;

fn json(text: &str) -> Json {
    Json::parse(text.as_bytes()).unwrap()
}

fn identity(account: &str) -> String {
    let claims = format!(
        "{{\"email\":\"a@b\",\"exp\":1000,\"https://api.openai.com/auth\":{{\"chatgpt_account_id\":\"{account}\",\"chatgpt_plan_type\":\"plus\"}}}}"
    );
    format!("h.{}.s", URL_SAFE_NO_PAD.encode(claims))
}

fn document(account: &str, refresh: &str) -> Json {
    json(&format!(
        "{{\"auth_mode\":\"chatgpt\",\"tokens\":{{\"access_token\":\"{}\",\"refresh_token\":\"{refresh}\",\"id_token\":\"{}\"}}}}",
        identity(account),
        identity(account)
    ))
}

#[test]
fn keys_and_modes_are_checked() {
    assert_eq!(check_api_key(None), Err(AuthError::LoginRequired));
    assert_eq!(check_api_key(Some(" ")), Err(AuthError::InvalidCredentials));
    assert_eq!(check_api_key(Some("k")), Ok(()));
    assert!(uses_chatgpt(AuthMode::Auto, true));
    assert!(!uses_chatgpt(AuthMode::Auto, false));
    assert!(uses_chatgpt(AuthMode::ChatGpt, false));
    assert!(!uses_chatgpt(AuthMode::ApiKey, true));
    assert_eq!(SecretString::new("s".to_string()).expose_secret(), "s");
}

#[test]
fn tokens_are_read() {
    let claims = decode_jwt(&identity("acc")).unwrap();
    assert_eq!(claims.text("email"), Some("a@b"));
    assert!(decode_jwt("none").is_none());
    assert!(decode_jwt("a.***.c").is_none());
    let status = document_status(&document("acc", "r")).unwrap();
    assert_eq!(status.account_id, "acc");
    assert_eq!(status.email.as_deref(), Some("a@b"));
    assert_eq!(status.plan.as_deref(), Some("plus"));
    assert!(!status.fedramp);
    assert_eq!(
        document_status(&json("{\"auth_mode\":\"apikey\"}")).err(),
        Some(AuthError::LoginRequired)
    );
    assert_eq!(document_status(&json("{}")).err(), Some(AuthError::InvalidCredentials));
    assert!(expires_soon(Some(1000), 700));
    assert!(!expires_soon(Some(1001), 700));
    assert!(!expires_soon(None, 700));
}

#[test]
fn lost_refreshes_are_not_repeated() {
    let mut auth = ManagedAuth::new(document("acc", "r-1")).unwrap();
    assert_eq!(auth.access_token().unwrap(), identity("acc"));
    assert!(auth.refresh_due(900).unwrap());
    assert!(!auth.refresh_due(600).unwrap());
    let body = auth.begin_refresh().unwrap();
    assert_eq!(body.text("refresh_token"), Some("r-1"));
    assert_eq!(auth.begin_refresh().err(), Some(AuthError::RefreshUncertain));
    assert_eq!(
        auth.answer_refresh(&json("{}")).err(),
        Some(AuthError::InvalidCredentials)
    );
    let fresh = json("{\"access_token\":\"a-2\",\"refresh_token\":\"r-2\"}");
    let (next, status) = auth.answer_refresh(&fresh).unwrap();
    assert_eq!(auth.check_stored(&document("acc", "r-1")), Ok(()));
    assert_eq!(auth.check_stored(&document("acc", "r-3")), Err(AuthError::StoreChanged));
    let stored = stamp_document(next, "2026-01-01T00:00:00Z");
    assert_eq!(stored.get("tokens").unwrap().text("refresh_token"), Some("r-2"));
    assert_eq!(stored.text("last_refresh"), Some("2026-01-01T00:00:00Z"));
    auth.commit_refresh(stored, status).unwrap();
    assert!(!auth.refresh_uncertain);
    assert_eq!(auth.generation, 1);
}

#[test]
fn accounts_do_not_change() {
    let mut auth = ManagedAuth::new(document("acc", "r")).unwrap();
    assert_eq!(auth.reload(document("acc", "r")), Ok(false));
    assert_eq!(auth.reload(document("acc", "r-2")), Ok(true));
    assert_eq!(auth.reload(document("other", "r-2")), Err(AuthError::AccountChanged));
    assert_eq!(auth.status.account_id, "acc");
}

#[test]
fn logins_are_answered() {
    let tokens = json(&format!(
        "{{\"access_token\":\"a\",\"refresh_token\":\"r\",\"id_token\":\"{}\"}}",
        identity("acc")
    ));
    assert_eq!(check_login(&tokens), Ok(()));
    assert_eq!(
        check_login(&json("{\"access_token\":\"a\",\"refresh_token\":\" \",\"id_token\":\"i\"}")),
        Err(AuthError::InvalidCredentials)
    );
    let (document, status) = answer_login(&json("{}"), &tokens, "now").unwrap();
    assert_eq!(status.account_id, "acc");
    assert_eq!(document.text("auth_mode"), Some("chatgpt"));
    let headers = auth_headers("token", Some(&status)).unwrap();
    assert_eq!(headers[0].value, "Bearer token");
    assert!(headers[0].sensitive);
    assert_eq!(headers[1].name, "chatgpt-account-id");
    assert_eq!(headers.len(), 2);
    assert_eq!(auth_headers("", None).err(), Some(AuthError::InvalidCredentials));
}

#[test]
fn callbacks_carry_one_code_and_the_state() {
    let request = b"GET /auth/callback?code=a%20b&state=s HTTP/1.1\r\nhost: localhost\r\n\r\n";
    assert_eq!(callback_code(request, "s"), Ok("a b".to_string()));
    assert_eq!(callback_code(request, "t"), Err(AuthError::InvalidCallback));
    assert_eq!(callback_code(b"GET /other HTTP/1.1\r\n\r\n", "s"), Err(AuthError::InvalidCallback));
    let pair = |key: &str, value: &str| QueryPair { key: key.to_string(), value: value.to_string() };
    assert_eq!(
        login_code(&vec![pair("state", "s"), pair("code", "c")], "s"),
        Ok("c".to_string())
    );
    assert_eq!(
        login_code(&vec![pair("state", "s"), pair("code", "c"), pair("code", "d")], "s"),
        Err(AuthError::InvalidCallback)
    );
    assert_eq!(
        login_code(&vec![pair("error", "no")], "s"),
        Err(AuthError::InvalidCallback)
    );
}

#[test]
fn logins_ask_with_a_challenge() {
    let challenge = code_challenge("dBjftJeZ4CVP-mB92K27uhbUJU1p1r_wW1gFWFOEjXk");
    assert_eq!(challenge, "E9Melhoa2OwvFrEMTJguCHaoeK1t8URWbuGJSstw-cM");
    let url = authorization_url("https://auth.openai.com", "http://localhost:1/x", "v", "st").unwrap();
    assert!(url.starts_with("https://auth.openai.com/oauth/authorize?response_type=code&"));
    assert!(url.contains("redirect_uri=http%3A%2F%2Flocalhost%3A1%2Fx"));
    assert!(url.ends_with("&state=st"));
    assert_eq!(
        token_url("https://auth.openai.com"),
        Ok("https://auth.openai.com/oauth/token".to_string())
    );
    assert_eq!(token_url("nothing"), Err(AuthError::InvalidIssuer));
    assert_eq!(drawn_text(&[251, 255, 0]), "-_8A");
    let body = exchange_body("a b", "http://x", "v");
    assert!(body.contains("code=a+b"));
    assert_eq!(refresh_stamp(0), Ok("1970-01-01T00:00:00Z".to_string()));
}

#[test]
fn routes_are_encrypted_or_local() {
    let route = Route::new(Transport::Http, "https://api.example/v1/responses").unwrap();
    assert_eq!(route.endpoint(), "https://api.example/v1/responses");
    assert_eq!(route.transport(), Transport::Http);
    assert!(Route::new(Transport::Http, "http://127.0.0.1:1/v1/responses").is_ok());
    for endpoint in [
        "http://api.example/v1",
        "ws://127.0.0.1/v1",
        "https://u:p@api.example/v1",
        "https://api.example/v1?x=1",
        "nothing",
    ] {
        assert_eq!(
            Route::new(Transport::Http, endpoint).err(),
            Some(FailureKind::InvalidEndpoint),
            "{endpoint}"
        );
    }
    assert_eq!(
        route.count_endpoint(),
        Ok("https://api.example/v1/responses/input_tokens".to_string())
    );
    let overridden =
        Route::from_overrides(AuthMode::ApiKey, Transport::Http, Some("https://x.example/v1/"), None).unwrap();
    assert_eq!(overridden.endpoint(), "https://x.example/v1/responses");
    let usual = Route::from_overrides(AuthMode::ChatGpt, Transport::WebSocket, None, None).unwrap();
    assert_eq!(usual.endpoint(), "wss://chatgpt.com/backend-api/codex/responses");
    assert!(issuer("http://auth.example").is_err());
    assert!(issuer("https://auth.example").is_ok());
}

#[test]
fn limits_are_validated() {
    assert_eq!(Limits::default().validate(), Ok(()));
    let none = Limits { max_attempts: 0, ..Limits::default() };
    assert_eq!(none.validate(), Err(FailureKind::InvalidLimits));
    let wide = Limits { max_event_bytes: 16777217, ..Limits::default() };
    assert_eq!(wide.validate(), Err(FailureKind::InvalidLimits));
}

fn request() -> InferenceRequest {
    InferenceRequest::new(
        ModelSettings::default(),
        vec![json("{\"role\":\"user\",\"content\":\"x\"}")],
        vec![],
        "i".to_string(),
        "s".to_string(),
        16,
    )
    .unwrap()
}

fn rejected(status: u16) -> AttemptFailure {
    AttemptFailure {
        kind: FailureKind::Rejected,
        status: Some(status),
        retry_after_ns: None,
    }
}

#[test]
fn only_clean_rejections_are_retried() {
    let limits = Limits::default();
    let mut call = CallState::new();
    let body = call.prepare(&request(), Transport::Http, AuthMode::ApiKey, false, 4096).unwrap();
    assert_eq!(json(&body).text("model"), Some(Model::Sol.as_str()));
    call.begin_attempt(1);
    call.dispatched();
    assert_eq!(
        call.settle(Err(rejected(429)), 5, &limits),
        NextStep::Retry { delay_ns: 250_000_000 }
    );
    call.begin_attempt(2);
    call.dispatched();
    assert_eq!(
        call.settle(Err(rejected(500)), 5, &limits),
        NextStep::Finish(Err(FailureKind::Rejected))
    );
    let outcome = call.finish(Err(FailureKind::Rejected), 9, Model::Sol);
    assert!(outcome.billing_uncertain());
    assert_eq!(outcome.attempts.len(), 2);
    assert_eq!(outcome.accounted_cost(), None);
    let mut call = CallState::new();
    assert_eq!(
        call.prepare(&request(), Transport::Http, AuthMode::ApiKey, false, 8),
        Err(FailureKind::SizeLimit)
    );
}

#[test]
fn credentials_are_recovered_once() {
    let limits = Limits::default();
    let mut call = CallState::new();
    call.begin_attempt(1);
    call.dispatched();
    assert_eq!(call.settle(Err(rejected(401)), 1, &limits), NextStep::Recover);
    assert_eq!(call.settle_recovery(Ok(()), &limits), NextStep::Retry { delay_ns: 0 });
    call.begin_attempt(2);
    call.dispatched();
    assert_eq!(
        call.settle(Err(rejected(401)), 1, &limits),
        NextStep::Finish(Err(FailureKind::Rejected))
    );
}

#[test]
fn abandoned_attempts_are_uncertain_once_dispatched() {
    let mut call = CallState::new();
    call.begin_attempt(1);
    let quiet = call.finish(Err(FailureKind::Cancelled), 3, Model::Sol);
    assert_eq!(quiet.attempts[0].status, AttemptStatus::Cancelled);
    assert!(!quiet.billing_uncertain());
    let mut call = CallState::new();
    call.begin_attempt(1);
    call.dispatched();
    let sent = call.finish(Err(FailureKind::Timeout), 3, Model::Sol);
    assert_eq!(sent.attempts[0].status, AttemptStatus::TimedOut);
    assert!(sent.billing_uncertain());
    let mut call = CallState::new();
    assert_eq!(
        call.auth_failed(AuthError::LoginRequired),
        NextStep::Finish(Err(FailureKind::Authentication))
    );
}

#[test]
fn answers_are_read_piece_by_piece() {
    assert!(is_event_stream(Some(Some("text/event-stream; charset=utf-8")), ResponseDialect::OpenAi));
    assert!(!is_event_stream(Some(Some("application/json")), ResponseDialect::OpenAi));
    assert_eq!(retry_after_ns("2"), Some(2_000_000_000));
    assert_eq!(retry_after_ns("+0"), Some(0));
    assert_eq!(
        retry_after_ns("18446744073709551615"),
        Some(18_446_744_073_709_551_615_000_000_000)
    );
    assert_eq!(retry_after_ns("18446744073709551616"), None);
    assert_eq!(retry_after_ns("soon"), None);
    assert_eq!(count_bytes(1, 2, 3), Ok(3));
    assert_eq!(count_bytes(1, 3, 3), Err(FailureKind::SizeLimit));
    assert_eq!(check_count_reply(200, Some(3), 3), Ok(()));
    assert_eq!(check_count_reply(204, None, 3), Ok(()));
    assert_eq!(check_count_reply(200, Some(4), 3), Err(FailureKind::SizeLimit));
    assert_eq!(check_count_reply(401, None, 3), Err(FailureKind::Authentication));
    assert_eq!(check_count_reply(302, None, 3), Err(FailureKind::Rejected));
    assert_eq!(socket_step(SocketMessage::Text), SocketStep::Decode);
    assert_eq!(socket_step(SocketMessage::Close), SocketStep::Fail(FailureKind::Interrupted));
}

#[test]
fn credentials_are_wiped() {
    let mut key = SecretString::new("secret".to_string());
    key.wipe();
    assert_eq!(key.expose_secret(), "");
    let mut value = json("{\"a\":[\"b\",{\"c\":1.5}],\"d\":null}");
    value.wipe();
    assert_eq!(value, Json::Null);
    let mut auth = ManagedAuth::new(document("acc", "r")).unwrap();
    auth.wipe();
    assert_eq!(auth.document, Json::Null);
    assert_eq!(auth.status.account_id, "acc");
}

#[test]
fn the_two_floating_point_zeros_are_one_value() {
    let a = json("{\"n\":[0.0,1]}");
    assert!(a.same(&json("{\"n\":[-0.0,1]}")));
    assert!(a.same(&json("{\"n\":[0e5,1]}")));
    assert!(!a.same(&json("{\"n\":[0,1]}")));
    assert!(!a.same(&json("{\"n\":[0.5,1]}")));
    assert!(!a.same(&json("{\"n\":[0.0,1.0]}")));
    assert_ne!(a, json("{\"n\":[-0.0,1]}"));
    let mut auth = ManagedAuth::new(stamp_document(document("acc", "r"), "s")).unwrap();
    let Json::Object(members) = &mut auth.document else { panic!() };
    members.push(harness::json::Member { key: "z".to_string(), value: json("0.0") });
    let mut again = stamp_document(document("acc", "r"), "s");
    let Json::Object(members) = &mut again else { panic!() };
    members.push(harness::json::Member { key: "z".to_string(), value: json("-0.0") });
    assert_eq!(auth.check_stored(&again), Ok(()));
    assert_eq!(auth.reload(again), Ok(false));
}

#[test]
fn a_cost_is_forgotten_before_the_next_attempt() {
    let mut call = CallState::new();
    call.next_attempt();
    call.begin_attempt(1);
    call.dispatched();
    call.response_cost_usd = "0.5".parse::<UsdCost>().ok();
    assert!(call.response_cost_usd.is_some());
    call.next_attempt();
    assert_eq!(
        call.auth_failed(AuthError::LoginRequired),
        NextStep::Finish(Err(FailureKind::Authentication))
    );
    let outcome = call.finish(Err(FailureKind::Authentication), 1, Model::Sol);
    assert_eq!(outcome.accounted_cost(), None);
}
