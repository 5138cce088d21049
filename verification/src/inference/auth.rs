//! Credentials: what a shared credential document says, when it is refreshed, and what a
//! login callback must bring. Claims of a token are read for routing only and are never
//! taken for a verified identity.
use crate::inference::failure::AuthError;
use crate::inference::request::optional;
use crate::inference::route::{optional_text, AuthMode};
use crate::json::{
    alike, object_members, parsed_json, set_member_value, wipe_bytes, wipe_text, with_key, Json,
    JsonModel, Member, MemberModel,
};
use crate::split::{find_turn, line_end_at, turn_at};
use crate::text::{
    blank, chars_between, chars_of, has_prefix, begins_with, is_blank, read_utf8, same_text,
    string_of,
};
use vstd::prelude::*;
use vstd::utf8::{decode_utf8, encode_utf8, valid_utf8};

verus! {

pub const MAX_AUTH_BYTES: usize = 1048576;

/// A credential. It cannot be cloned or formatted, and is read only by name.
pub struct SecretString {
    value: String,
}

impl View for SecretString {
    type V = Seq<char>;

    closed spec fn view(&self) -> Seq<char> {
        self.value@
    }
}

impl SecretString {
    pub fn new(value: String) -> (r: Self)
        ensures
            r@ == value@,
    {
        SecretString { value }
    }

    pub fn expose_secret(&self) -> (r: &str)
        ensures
            r@ == self@,
    {
        self.value.as_str()
    }

    /// Overwrites the credential, and leaves it empty.
    pub fn wipe(&mut self)
        ensures
            final(self)@ == Seq::<char>::empty(),
    {
        wipe_text(&mut self.value);
    }
}

/// What is known of a ChatGPT account.
#[derive(Debug, PartialEq, Eq)]
pub struct ChatGptAuthStatus {
    pub account_id: String,
    pub email: Option<String>,
    pub plan: Option<String>,
    pub fedramp: bool,
}

#[verifier::ext_equal]
pub struct StatusModel {
    pub account_id: Seq<char>,
    pub email: Option<Seq<char>>,
    pub plan: Option<Seq<char>>,
    pub fedramp: bool,
}

impl View for ChatGptAuthStatus {
    type V = StatusModel;

    open spec fn view(&self) -> StatusModel {
        StatusModel {
            account_id: self.account_id@,
            email: optional_text(self.email),
            plan: optional_text(self.plan),
            fedramp: self.fedramp,
        }
    }
}

/// Whether a mode uses the shared credential file. A present file is preferred, even if it
/// is malformed: a broken login never falls back to billed API access.
pub fn uses_chatgpt(mode: AuthMode, file_exists: bool) -> (r: bool)
    ensures
        r == (mode == AuthMode::ChatGpt || mode == AuthMode::Auto && file_exists),
{
    mode == AuthMode::ChatGpt || mode == AuthMode::Auto && file_exists
}

/// Checks that an API key is there.
pub fn check_api_key(key: Option<&str>) -> (r: Result<(), AuthError>)
    ensures
        r == match key {
            None => Err::<(), AuthError>(AuthError::LoginRequired),
            Some(key) => if blank(key@) {
                Err(AuthError::InvalidCredentials)
            } else {
                Ok(())
            },
        },
{
    match key {
        None => Err(AuthError::LoginRequired),
        Some(key) => if is_blank(key) {
            Err(AuthError::InvalidCredentials)
        } else {
            Ok(())
        },
    }
}

/// What URL-safe base64 without padding stands for, if it is such.
pub uninterp spec fn base64_decoded(text: Seq<char>) -> Option<Seq<u8>>;

/// `base64::Engine::decode` of `URL_SAFE_NO_PAD` is a function of the text alone.
#[verifier::external_body]
fn decode_base64(text: &str) -> (r: Option<Vec<u8>>)
    ensures
        match r {
            Some(bytes) => base64_decoded(text@) == Some(bytes@),
            None => base64_decoded(text@) is None,
        },
{
    base64::Engine::decode(&base64::engine::general_purpose::URL_SAFE_NO_PAD, text).ok()
}

/// The URL-safe base64 of bytes, without padding.
pub uninterp spec fn base64_encoded(bytes: Seq<u8>) -> Seq<char>;

/// `base64::Engine::encode` of `URL_SAFE_NO_PAD` is a function of the bytes alone.
#[verifier::external_body]
fn encode_base64(bytes: &[u8]) -> (r: String)
    ensures
        r@ == base64_encoded(bytes@),
{
    base64::Engine::encode(&base64::engine::general_purpose::URL_SAFE_NO_PAD, bytes)
}

/// The first dot at or after an index, or the end.
pub open spec fn dot_at(text: Seq<char>, from: int) -> int
    decreases text.len() - from,
{
    if 0 <= from < text.len() && text[from] != '.' {
        dot_at(text, from + 1)
    } else {
        from
    }
}

/// The payload of a token: what stands between its first two dots, if there is something.
pub open spec fn payload_of(token: Seq<char>) -> Option<Seq<char>> {
    let first = dot_at(token, 0);
    if first >= token.len() {
        None
    } else {
        let payload = token.subrange(first + 1, dot_at(token, first + 1));
        if payload.len() == 0 {
            None
        } else {
            Some(payload)
        }
    }
}

fn find_dot(text: &Vec<char>, from: usize) -> (r: usize)
    requires
        from <= text.len(),
    ensures
        r == dot_at(text@, from as int),
        from <= r <= text.len(),
{
    let mut i: usize = from;
    while i < text.len()
        invariant_except_break
            from <= i <= text.len(),
            dot_at(text@, from as int) == dot_at(text@, i as int),
        ensures
            i == dot_at(text@, from as int),
            from <= i <= text.len(),
        decreases text.len() - i,
    {
        if text[i] == '.' {
            break;
        }
        i += 1;
    }
    i
}

fn token_payload(token: &str) -> (r: Option<String>)
    ensures
        optional_text(r) == payload_of(token@),
{
    let chars = chars_of(token);
    let first = find_dot(&chars, 0);
    if first >= chars.len() {
        return None;
    }
    let second = find_dot(&chars, first + 1);
    if second == first + 1 {
        return None;
    }
    Some(string_of(&chars, first + 1, second))
}

/// The claims that a token carries, if it carries any.
pub open spec fn claims_of(token: Seq<char>) -> Option<JsonModel> {
    match payload_of(token) {
        None => None,
        Some(payload) => match base64_decoded(payload) {
            None => None,
            Some(bytes) => parsed_json(bytes),
        },
    }
}

/// Reads the claims of a token.
pub fn decode_jwt(token: &str) -> (r: Option<Json>)
    ensures
        optional(r) == claims_of(token@),
{
    match token_payload(token) {
        None => None,
        Some(payload) => match decode_base64(payload.as_str()) {
            None => None,
            Some(bytes) => {
                let claims = Json::parse(bytes.as_slice());
                let mut bytes = bytes;
                wipe_bytes(&mut bytes);
                claims
            },
        },
    }
}

fn forget(claims: Option<Json>) {
    match claims {
        Some(claims) => {
            let mut claims = claims;
            claims.wipe();
        },
        None => {},
    }
}

/// A token of a credential document that is not blank.
pub open spec fn token_of(document: JsonModel, name: Seq<char>) -> Option<Seq<char>> {
    match document.member("tokens"@) {
        None => None,
        Some(tokens) => match tokens.text_member(name) {
            Some(token) => if blank(token) {
                None
            } else {
                Some(token)
            },
            None => None,
        },
    }
}

fn token<'a>(document: &'a Json, name: &str) -> (r: Option<&'a str>)
    ensures
        match r {
            Some(token) => token_of(document@, name@) == Some(token@),
            None => token_of(document@, name@) is None,
        },
{
    match document.get("tokens") {
        None => None,
        Some(tokens) => match tokens.text(name) {
            Some(token) => if is_blank(token) {
                None
            } else {
                Some(token)
            },
            None => None,
        },
    }
}

/// The value under a key, or nothing.
pub open spec fn member_or_null(value: JsonModel, key: Seq<char>) -> JsonModel {
    match value.member(key) {
        Some(member) => member,
        None => JsonModel::Null,
    }
}

/// The account that a document and the claims of its identity agree on.
pub open spec fn account_of(document: JsonModel, auth: JsonModel) -> Result<Seq<char>, AuthError> {
    let stored = member_or_null(document, "tokens"@).text_member("account_id"@);
    let claimed = auth.text_member("chatgpt_account_id"@);
    if stored is Some && claimed is Some && stored != claimed {
        Err(AuthError::AccountChanged)
    } else {
        let account = if stored is Some {
            stored
        } else {
            claimed
        };
        match account {
            Some(account) => if blank(account) {
                Err(AuthError::InvalidCredentials)
            } else {
                Ok(account)
            },
            None => Err(AuthError::InvalidCredentials),
        }
    }
}

/// The e-mail address that claims give.
pub open spec fn email_of(claims: JsonModel) -> Option<Seq<char>> {
    match claims.member("email"@) {
        Some(JsonModel::Text(email)) => Some(email),
        Some(_) => None,
        None => member_or_null(claims, "https://api.openai.com/profile"@).text_member("email"@),
    }
}

/// What a document says of its account, given the claims of its identity token.
pub open spec fn status_from(document: JsonModel, claims: Option<JsonModel>) -> Result<
    StatusModel,
    AuthError,
> {
    if document.member("auth_mode"@) is Some && document.text_member("auth_mode"@) != Some(
        "chatgpt"@,
    ) {
        Err(AuthError::LoginRequired)
    } else if token_of(document, "access_token"@) is None || token_of(document, "refresh_token"@)
        is None || token_of(document, "id_token"@) is None {
        Err(AuthError::InvalidCredentials)
    } else {
        match claims {
            None => Err(AuthError::InvalidCredentials),
            Some(claims) => {
                let auth = member_or_null(claims, "https://api.openai.com/auth"@);
                match account_of(document, auth) {
                    Err(error) => Err(error),
                    Ok(account_id) => Ok(
                        StatusModel {
                            account_id,
                            email: email_of(claims),
                            plan: auth.text_member("chatgpt_plan_type"@),
                            fedramp: auth.member("chatgpt_account_is_fedramp"@) == Some(
                                JsonModel::Bool(true),
                            ),
                        },
                    ),
                }
            },
        }
    }
}

/// What a document says of its account.
pub open spec fn status_of(document: JsonModel) -> Result<StatusModel, AuthError> {
    status_from(
        document,
        match token_of(document, "id_token"@) {
            Some(token) => claims_of(token),
            None => None,
        },
    )
}

/// Whether a result is what a status or its refusal makes it.
pub open spec fn is_status(
    result: Result<ChatGptAuthStatus, AuthError>,
    expected: Result<StatusModel, AuthError>,
) -> bool {
    match (result, expected) {
        (Ok(status), Ok(model)) => status@ == model,
        (Err(error), Err(other)) => error == other,
        _ => false,
    }
}

fn owned(text: Option<&str>) -> (r: Option<String>)
    ensures
        optional_text(r) == match text {
            Some(text) => Some(text@),
            None => None,
        },
{
    match text {
        Some(text) => Some(text.to_owned()),
        None => None,
    }
}

fn read_account(document: &Json, auth: &Json) -> (r: Result<String, AuthError>)
    ensures
        match (r, account_of(document@, auth@)) {
            (Ok(account), Ok(expected)) => account@ == expected,
            (Err(error), Err(expected)) => error == expected,
            _ => false,
        },
{
    let stored = match document.get("tokens") {
        Some(tokens) => tokens.text("account_id"),
        None => None,
    };
    let claimed = auth.text("chatgpt_account_id");
    let account = match (stored, claimed) {
        (Some(stored), Some(claimed)) => {
            if !same_text(stored, claimed) {
                return Err(AuthError::AccountChanged);
            }
            stored
        },
        (Some(stored), None) => stored,
        (None, Some(claimed)) => claimed,
        (None, None) => return Err(AuthError::InvalidCredentials),
    };
    if is_blank(account) {
        return Err(AuthError::InvalidCredentials);
    }
    Ok(account.to_owned())
}

fn read_email(claims: &Json) -> (r: Option<String>)
    ensures
        optional_text(r) == email_of(claims@),
{
    match claims.get("email") {
        Some(Json::Text(email)) => Some(email.clone()),
        Some(_) => None,
        None => match claims.get("https://api.openai.com/profile") {
            Some(profile) => owned(profile.text("email")),
            None => None,
        },
    }
}

/// What a document says of its account, given the claims of its identity token.
pub fn account_status(document: &Json, claims: &Option<Json>) -> (r: Result<
    ChatGptAuthStatus,
    AuthError,
>)
    ensures
        is_status(r, status_from(document@, optional(*claims))),
{
    match document.get("auth_mode") {
        Some(Json::Text(mode)) => {
            if !same_text(mode.as_str(), "chatgpt") {
                return Err(AuthError::LoginRequired);
            }
        },
        Some(_) => return Err(AuthError::LoginRequired),
        None => {},
    }
    if token(document, "access_token").is_none() || token(document, "refresh_token").is_none()
        || token(document, "id_token").is_none() {
        return Err(AuthError::InvalidCredentials);
    }
    let claims = match claims {
        Some(claims) => claims,
        None => return Err(AuthError::InvalidCredentials),
    };
    let nothing = Json::Null;
    let auth = match claims.get("https://api.openai.com/auth") {
        Some(auth) => auth,
        None => &nothing,
    };
    let account_id = match read_account(document, auth) {
        Ok(account_id) => account_id,
        Err(error) => return Err(error),
    };
    let fedramp = match auth.get("chatgpt_account_is_fedramp") {
        Some(Json::Bool(value)) => *value,
        _ => false,
    };
    Ok(
        ChatGptAuthStatus {
            account_id,
            email: read_email(claims),
            plan: owned(auth.text("chatgpt_plan_type")),
            fedramp,
        },
    )
}

/// What a document says of its account.
pub fn document_status(document: &Json) -> (r: Result<ChatGptAuthStatus, AuthError>)
    ensures
        is_status(r, status_of(document@)),
{
    let claims = match token(document, "id_token") {
        Some(token) => decode_jwt(token),
        None => None,
    };
    let status = account_status(document, &claims);
    forget(claims);
    status
}

/// Whether a token that expires at a time has to be refreshed: it expires within five
/// minutes.
pub fn expires_soon(expiry: Option<u64>, now: u64) -> (r: bool)
    ensures
        r == (expiry matches Some(at) && (at <= now + 300)),
{
    match expiry {
        Some(at) => at <= now.saturating_add(300),
        None => false,
    }
}

/// The shared credentials of a client.
pub struct ManagedAuth {
    pub document: Json,
    pub status: ChatGptAuthStatus,
    /// How often the credentials changed.
    pub generation: u64,
    /// Whether a refresh may have rotated the token without an answer.
    pub refresh_uncertain: bool,
}

#[verifier::ext_equal]
pub struct ManagedModel {
    pub document: JsonModel,
    pub status: StatusModel,
    pub generation: u64,
    pub refresh_uncertain: bool,
}

impl View for ManagedAuth {
    type V = ManagedModel;

    open spec fn view(&self) -> ManagedModel {
        ManagedModel {
            document: self.document@,
            status: self.status@,
            generation: self.generation,
            refresh_uncertain: self.refresh_uncertain,
        }
    }
}

/// What reading the stored document again does.
pub open spec fn reloaded(managed: ManagedModel, document: JsonModel) -> (
    ManagedModel,
    Result<bool, AuthError>,
) {
    if alike(document, managed.document) {
        (managed, Ok(false))
    } else {
        match status_of(document) {
            Err(error) => (managed, Err(error)),
            Ok(status) => if status.account_id != managed.status.account_id {
                (managed, Err(AuthError::AccountChanged))
            } else {
                let next = ManagedModel { document, status, ..managed };
                if managed.generation == u64::MAX {
                    (next, Err(AuthError::StoreChanged))
                } else {
                    (
                        ManagedModel {
                            generation: (managed.generation + 1) as u64,
                            refresh_uncertain: false,
                            ..next
                        },
                        Ok(true),
                    )
                }
            },
        }
    }
}

/// The body of a request for fresh tokens.
pub open spec fn refresh_body(refresh_token: Seq<char>) -> JsonModel {
    JsonModel::Object(
        Seq::<MemberModel>::empty().push(
            MemberModel {
                key: "client_id"@,
                value: JsonModel::Text("app_EMoamEEZ73f0CkXaXp7hrann"@),
            },
        ).push(
            MemberModel { key: "grant_type"@, value: JsonModel::Text("refresh_token"@) },
        ).push(
            MemberModel { key: "refresh_token"@, value: JsonModel::Text(refresh_token) },
        ),
    )
}

/// Whether a refresh is due, given the claims of the token to authorize with.
pub open spec fn due_from(managed: ManagedModel, claims: Option<JsonModel>, now: u64) -> Result<
    bool,
    AuthError,
> {
    if managed.refresh_uncertain {
        Err(AuthError::RefreshUncertain)
    } else if token_of(managed.document, "access_token"@) is None {
        Err(AuthError::InvalidCredentials)
    } else {
        match claims {
            None => Err(AuthError::InvalidCredentials),
            Some(claims) => Ok(
                match claims.whole_member("exp"@) {
                    Some(at) => at <= now + 300,
                    None => false,
                },
            ),
        }
    }
}

/// What a refresh that is about to be sent does: from here on its outcome is uncertain, as
/// a token that may have been rotated must not be sent again.
pub open spec fn refresh_begun(managed: ManagedModel) -> (ManagedModel, Result<JsonModel, AuthError>) {
    if managed.refresh_uncertain {
        (managed, Err(AuthError::RefreshUncertain))
    } else {
        match token_of(managed.document, "refresh_token"@) {
            None => (managed, Err(AuthError::InvalidCredentials)),
            Some(token) => (
                ManagedModel { refresh_uncertain: true, ..managed },
                Ok(refresh_body(token)),
            ),
        }
    }
}

/// A member of the tokens that an answer refreshes, in an object of tokens.
pub open spec fn token_replaced(tokens: Seq<MemberModel>, refreshed: JsonModel, name: Seq<char>) -> Option<
    Seq<MemberModel>,
> {
    match refreshed.member(name) {
        None => Some(tokens),
        Some(JsonModel::Text(token)) => if blank(token) {
            None
        } else {
            Some(with_key(tokens, name, JsonModel::Text(token)))
        },
        Some(_) => None,
    }
}

/// The tokens after a refresh: those that the answer brings replace the old ones.
pub open spec fn tokens_refreshed(tokens: Seq<MemberModel>, refreshed: JsonModel) -> Option<
    Seq<MemberModel>,
> {
    match token_replaced(tokens, refreshed, "access_token"@) {
        None => None,
        Some(t1) => match token_replaced(t1, refreshed, "refresh_token"@) {
            None => None,
            Some(t2) => token_replaced(t2, refreshed, "id_token"@),
        },
    }
}

/// The document after a refresh, before its time is noted.
pub open spec fn document_refreshed(document: JsonModel, refreshed: JsonModel) -> Option<JsonModel> {
    match (document, document.member("tokens"@)) {
        (JsonModel::Object(members), Some(JsonModel::Object(tokens))) => match tokens_refreshed(
            tokens,
            refreshed,
        ) {
            None => None,
            Some(next) => Some(
                JsonModel::Object(with_key(members, "tokens"@, JsonModel::Object(next))),
            ),
        },
        _ => None,
    }
}

/// What an answer to a refresh comes to: the next document and its status. The account may
/// not change.
pub open spec fn refresh_answered(managed: ManagedModel, refreshed: JsonModel) -> Result<
    (JsonModel, StatusModel),
    AuthError,
> {
    match document_refreshed(managed.document, refreshed) {
        None => Err(AuthError::InvalidCredentials),
        Some(next) => if refreshed.text_member("access_token"@) is None {
            Err(AuthError::InvalidCredentials)
        } else {
            match status_of(next) {
                Err(error) => Err(error),
                Ok(status) => if status.account_id != managed.status.account_id {
                    Err(AuthError::AccountChanged)
                } else {
                    Ok((next, status))
                },
            }
        },
    }
}

/// A document with the time of its last refresh.
pub open spec fn stamped(document: JsonModel, stamp: Seq<char>) -> JsonModel {
    match document {
        JsonModel::Object(members) => JsonModel::Object(
            with_key(members, "last_refresh"@, JsonModel::Text(stamp)),
        ),
        other => other,
    }
}

fn copy_object(value: &Json) -> (r: Option<Vec<Member>>)
    ensures
        match r {
            Some(members) => value@ == JsonModel::Object(object_members(members)),
            None => !(value@ is Object),
        },
{
    match value.copy() {
        Json::Object(members) => Some(members),
        _ => None,
    }
}

fn replace_token(tokens: &mut Vec<Member>, refreshed: &Json, name: &str) -> (r: bool)
    ensures
        match token_replaced(object_members(*old(tokens)), refreshed@, name@) {
            Some(next) => r && object_members(*final(tokens)) == next,
            None => !r,
        },
{
    match refreshed.get(name) {
        None => true,
        Some(Json::Text(token)) => {
            if is_blank(token.as_str()) {
                false
            } else {
                set_member_value(tokens, name, Json::Text(token.clone()));
                true
            }
        },
        Some(_) => false,
    }
}

fn refresh_document(document: &Json, refreshed: &Json) -> (r: Option<Json>)
    ensures
        optional(r) == document_refreshed(document@, refreshed@),
{
    let mut members = match copy_object(document) {
        Some(members) => members,
        None => return None,
    };
    let mut tokens = match document.get("tokens") {
        Some(tokens) => match copy_object(tokens) {
            Some(tokens) => tokens,
            None => return None,
        },
        None => return None,
    };
    if !replace_token(&mut tokens, refreshed, "access_token") {
        return None;
    }
    if !replace_token(&mut tokens, refreshed, "refresh_token") {
        return None;
    }
    if !replace_token(&mut tokens, refreshed, "id_token") {
        return None;
    }
    set_member_value(&mut members, "tokens", Json::Object(tokens));
    Some(Json::Object(members))
}

/// Notes the time of the last refresh in a document.
pub fn stamp_document(document: Json, stamp: &str) -> (r: Json)
    ensures
        r@ == stamped(document@, stamp@),
{
    match document {
        Json::Object(members) => {
            let mut members = members;
            set_member_value(&mut members, "last_refresh", Json::Text(stamp.to_owned()));
            Json::Object(members)
        },
        other => other,
    }
}

impl ManagedAuth {
    /// Takes the credentials of a document.
    pub fn new(document: Json) -> (r: Result<Self, AuthError>)
        ensures
            match (r, status_of(document@)) {
                (Ok(managed), Ok(status)) => managed@ == (ManagedModel {
                    document: document@,
                    status,
                    generation: 0,
                    refresh_uncertain: false,
                }),
                (Err(error), Err(expected)) => error == expected,
                _ => false,
            },
    {
        match document_status(&document) {
            Err(error) => Err(error),
            Ok(status) => Ok(
                ManagedAuth { document, status, generation: 0, refresh_uncertain: false },
            ),
        }
    }

    /// Takes the stored document as it is now. Answers whether it changed.
    pub fn reload(&mut self, document: Json) -> (r: Result<bool, AuthError>)
        ensures
            (final(self)@, r) == reloaded(old(self)@, document@),
    {
        let mut document = document;
        if document.same(&self.document) {
            document.wipe();
            return Ok(false);
        }
        let status = match document_status(&document) {
            Err(error) => {
                document.wipe();
                return Err(error);
            },
            Ok(status) => status,
        };
        if !same_text(status.account_id.as_str(), self.status.account_id.as_str()) {
            document.wipe();
            return Err(AuthError::AccountChanged);
        }
        self.document.wipe();
        self.document = document;
        self.status = status;
        if self.generation == u64::MAX {
            return Err(AuthError::StoreChanged);
        }
        self.generation = self.generation + 1;
        self.refresh_uncertain = false;
        Ok(true)
    }

    /// The token to authorize with, unless the last refresh is uncertain.
    pub fn access_token(&self) -> (r: Result<&str, AuthError>)
        ensures
            match r {
                Ok(token) => !self@.refresh_uncertain && token_of(
                    self@.document,
                    "access_token"@,
                ) == Some(token@),
                Err(error) => if self@.refresh_uncertain {
                    error == AuthError::RefreshUncertain
                } else {
                    token_of(self@.document, "access_token"@) is None && error
                        == AuthError::InvalidCredentials
                },
            },
    {
        if self.refresh_uncertain {
            return Err(AuthError::RefreshUncertain);
        }
        match token(&self.document, "access_token") {
            Some(token) => Ok(token),
            None => Err(AuthError::InvalidCredentials),
        }
    }

    /// Whether the token to authorize with has to be refreshed first.
    pub fn refresh_due(&self, now: u64) -> (r: Result<bool, AuthError>)
        ensures
            r == due_from(
                self@,
                match token_of(self@.document, "access_token"@) {
                    Some(token) => claims_of(token),
                    None => None,
                },
                now,
            ),
    {
        let claims = match self.access_token() {
            Err(error) => return Err(error),
            Ok(token) => decode_jwt(token),
        };
        match claims {
            None => Err(AuthError::InvalidCredentials),
            Some(claims) => {
                let due = expires_soon(claims.u64_at("exp"), now);
                forget(Some(claims));
                Ok(due)
            },
        }
    }

    /// The body of a refresh that is about to be sent.
    pub fn begin_refresh(&mut self) -> (r: Result<Json, AuthError>)
        ensures
            ({
                let (next, body) = refresh_begun(old(self)@);
                &&& final(self)@ == next
                &&& match (r, body) {
                    (Ok(json), Ok(expected)) => json@ == expected,
                    (Err(error), Err(expected)) => error == expected,
                    _ => false,
                }
            }),
    {
        if self.refresh_uncertain {
            return Err(AuthError::RefreshUncertain);
        }
        let refresh_token = match token(&self.document, "refresh_token") {
            Some(token) => token.to_owned(),
            None => return Err(AuthError::InvalidCredentials),
        };
        let mut members: Vec<Member> = Vec::new();
        crate::json::add_member(
            &mut members,
            "client_id",
            Json::Text("app_EMoamEEZ73f0CkXaXp7hrann".to_owned()),
        );
        crate::json::add_member(
            &mut members,
            "grant_type",
            Json::Text("refresh_token".to_owned()),
        );
        crate::json::add_member(&mut members, "refresh_token", Json::Text(refresh_token));
        self.refresh_uncertain = true;
        Ok(Json::Object(members))
    }

    /// The document and the status that an answer to a refresh comes to.
    pub fn answer_refresh(&self, refreshed: &Json) -> (r: Result<
        (Json, ChatGptAuthStatus),
        AuthError,
    >)
        ensures
            match (r, refresh_answered(self@, refreshed@)) {
                (Ok((document, status)), Ok((d, s))) => document@ == d && status@ == s,
                (Err(error), Err(expected)) => error == expected,
                _ => false,
            },
    {
        let mut next = match refresh_document(&self.document, refreshed) {
            Some(next) => next,
            None => return Err(AuthError::InvalidCredentials),
        };
        if refreshed.text("access_token").is_none() {
            next.wipe();
            return Err(AuthError::InvalidCredentials);
        }
        let status = match document_status(&next) {
            Err(error) => {
                next.wipe();
                return Err(error);
            },
            Ok(status) => status,
        };
        if !same_text(status.account_id.as_str(), self.status.account_id.as_str()) {
            next.wipe();
            return Err(AuthError::AccountChanged);
        }
        Ok((next, status))
    }

    /// Refuses a stored document that has changed meanwhile.
    pub fn check_stored(&self, stored: &Json) -> (r: Result<(), AuthError>)
        ensures
            r == if alike(stored@, self@.document) {
                Ok::<(), AuthError>(())
            } else {
                Err(AuthError::StoreChanged)
            },
    {
        if stored.same(&self.document) {
            Ok(())
        } else {
            Err(AuthError::StoreChanged)
        }
    }

    /// Overwrites the document, and leaves it null.
    pub fn wipe(&mut self)
        ensures
            final(self)@ == (ManagedModel { document: JsonModel::Null, ..old(self)@ }),
    {
        self.document.wipe();
    }

    /// Takes a refreshed document that was stored.
    pub fn commit_refresh(&mut self, document: Json, status: ChatGptAuthStatus) -> (r: Result<
        (),
        AuthError,
    >)
        ensures
            final(self)@.document == document@,
            final(self)@.status == status@,
            match r {
                Ok(()) => final(self)@.generation == old(self)@.generation + 1 && !final(self)@.refresh_uncertain,
                Err(error) => old(self)@.generation == u64::MAX && error == AuthError::StoreChanged
                    && final(self)@.generation == old(self)@.generation && final(self)@.refresh_uncertain == old(self)@.refresh_uncertain,
            },
    {
        self.document.wipe();
        self.document = document;
        self.status = status;
        if self.generation == u64::MAX {
            return Err(AuthError::StoreChanged);
        }
        self.generation = self.generation + 1;
        self.refresh_uncertain = false;
        Ok(())
    }
}

/// Whether an answer to a login brings every token.
pub open spec fn complete_tokens(tokens: JsonModel) -> bool {
    &&& tokens.text_member("id_token"@) matches Some(token) && !blank(token)
    &&& tokens.text_member("access_token"@) matches Some(token) && !blank(token)
    &&& tokens.text_member("refresh_token"@) matches Some(token) && !blank(token)
}

fn has_token(tokens: &Json, name: &str) -> (r: bool)
    ensures
        r == (tokens@.text_member(name@) matches Some(token) && !blank(token)),
{
    match tokens.text(name) {
        Some(token) => !is_blank(token),
        None => false,
    }
}

/// The document that a login makes of the existing one, given the account that the claims
/// of the identity token name.
pub open spec fn logged_in(
    existing: JsonModel,
    tokens: JsonModel,
    account: Seq<char>,
    stamp: Seq<char>,
) -> Option<JsonModel> {
    match existing {
        JsonModel::Object(members) => {
            let held = match existing.member("tokens"@) {
                Some(JsonModel::Object(held)) => held,
                _ => Seq::empty(),
            };
            let t1 = with_key(held, "id_token"@, member_or_null(tokens, "id_token"@));
            let t2 = with_key(t1, "access_token"@, member_or_null(tokens, "access_token"@));
            let t3 = with_key(t2, "refresh_token"@, member_or_null(tokens, "refresh_token"@));
            let t4 = with_key(t3, "account_id"@, JsonModel::Text(account));
            let m1 = with_key(members, "auth_mode"@, JsonModel::Text("chatgpt"@));
            let m2 = with_key(m1, "tokens"@, JsonModel::Object(t4));
            let m3 = with_key(m2, "OPENAI_API_KEY"@, JsonModel::Null);
            Some(JsonModel::Object(with_key(m3, "last_refresh"@, JsonModel::Text(stamp))))
        },
        _ => None,
    }
}

/// What a login comes to: the next document and its status.
pub open spec fn login_answered(
    existing: JsonModel,
    tokens: JsonModel,
    claims: Option<JsonModel>,
    stamp: Seq<char>,
) -> Result<(JsonModel, StatusModel), AuthError> {
    if !complete_tokens(tokens) || !(existing is Object) {
        Err(AuthError::InvalidCredentials)
    } else {
        match claims {
            None => Err(AuthError::InvalidCredentials),
            Some(claims) => match member_or_null(claims, "https://api.openai.com/auth"@).text_member(
                "chatgpt_account_id"@,
            ) {
                None => Err(AuthError::InvalidCredentials),
                Some(account) => match logged_in(existing, tokens, account, stamp) {
                    None => Err(AuthError::InvalidCredentials),
                    Some(document) => match status_of(document) {
                        Err(error) => Err(error),
                        Ok(status) => Ok((document, status)),
                    },
                },
            },
        }
    }
}

fn copy_at(value: &Json, key: &str) -> (r: Json)
    ensures
        r@ == member_or_null(value@, key@),
{
    match value.get(key) {
        Some(member) => member.copy(),
        None => Json::Null,
    }
}

fn log_in(existing: &Json, tokens: &Json, account: &str, stamp: &str) -> (r: Option<Json>)
    ensures
        optional(r) == logged_in(existing@, tokens@, account@, stamp@),
{
    let mut members = match copy_object(existing) {
        Some(members) => members,
        None => return None,
    };
    let mut held: Vec<Member> = Vec::new();
    assert(object_members(held) =~= Seq::<MemberModel>::empty());
    match existing.get("tokens") {
        Some(tokens) => match copy_object(tokens) {
            Some(copied) => {
                held = copied;
            },
            None => {},
        },
        None => {},
    }
    set_member_value(&mut held, "id_token", copy_at(tokens, "id_token"));
    set_member_value(&mut held, "access_token", copy_at(tokens, "access_token"));
    set_member_value(&mut held, "refresh_token", copy_at(tokens, "refresh_token"));
    set_member_value(&mut held, "account_id", Json::Text(account.to_owned()));
    set_member_value(&mut members, "auth_mode", Json::Text("chatgpt".to_owned()));
    set_member_value(&mut members, "tokens", Json::Object(held));
    set_member_value(&mut members, "OPENAI_API_KEY", Json::Null);
    set_member_value(&mut members, "last_refresh", Json::Text(stamp.to_owned()));
    Some(Json::Object(members))
}

/// Refuses an answer to a login that does not bring every token.
pub fn check_login(tokens: &Json) -> (r: Result<(), AuthError>)
    ensures
        r == if complete_tokens(tokens@) {
            Ok::<(), AuthError>(())
        } else {
            Err(AuthError::InvalidCredentials)
        },
{
    if has_token(tokens, "id_token") && has_token(tokens, "access_token") && has_token(
        tokens,
        "refresh_token",
    ) {
        Ok(())
    } else {
        Err(AuthError::InvalidCredentials)
    }
}

/// The document and the status that a login comes to, given the claims of the identity
/// token that it brings.
pub fn answer_login_with(
    existing: &Json,
    tokens: &Json,
    claims: &Option<Json>,
    stamp: &str,
) -> (r: Result<(Json, ChatGptAuthStatus), AuthError>)
    ensures
        match (r, login_answered(existing@, tokens@, optional(*claims), stamp@)) {
            (Ok((document, status)), Ok((d, s))) => document@ == d && status@ == s,
            (Err(error), Err(expected)) => error == expected,
            _ => false,
        },
{
    match check_login(tokens) {
        Err(error) => return Err(error),
        Ok(()) => {},
    }
    let object = match existing {
        Json::Object(_) => true,
        _ => false,
    };
    if !object {
        return Err(AuthError::InvalidCredentials);
    }
    let claims = match claims {
        Some(claims) => claims,
        None => return Err(AuthError::InvalidCredentials),
    };
    let account = match claims.get("https://api.openai.com/auth") {
        Some(auth) => match auth.text("chatgpt_account_id") {
            Some(account) => account,
            None => return Err(AuthError::InvalidCredentials),
        },
        None => return Err(AuthError::InvalidCredentials),
    };
    let document = match log_in(existing, tokens, account, stamp) {
        Some(document) => document,
        None => return Err(AuthError::InvalidCredentials),
    };
    match document_status(&document) {
        Err(error) => Err(error),
        Ok(status) => Ok((document, status)),
    }
}

/// The document and the status that a login comes to.
pub fn answer_login(existing: &Json, tokens: &Json, stamp: &str) -> (r: Result<
    (Json, ChatGptAuthStatus),
    AuthError,
>)
    ensures
        match (
            r,
            login_answered(
                existing@,
                tokens@,
                match tokens@.text_member("id_token"@) {
                    Some(token) => claims_of(token),
                    None => None,
                },
                stamp@,
            ),
        ) {
            (Ok((document, status)), Ok((d, s))) => document@ == d && status@ == s,
            (Err(error), Err(expected)) => error == expected,
            _ => false,
        },
{
    let claims = match tokens.text("id_token") {
        Some(token) => decode_jwt(token),
        None => None,
    };
    let answer = answer_login_with(existing, tokens, &claims, stamp);
    forget(claims);
    answer
}

/// A header of a request.
#[derive(Debug, PartialEq, Eq)]
pub struct Header {
    pub name: &'static str,
    pub value: String,
    /// Whether the value must not be shown.
    pub sensitive: bool,
}

#[verifier::ext_equal]
pub struct HeaderModel {
    pub name: Seq<char>,
    pub value: Seq<char>,
    pub sensitive: bool,
}

pub open spec fn header_models(headers: Seq<Header>) -> Seq<HeaderModel> {
    headers.map_values(
        |header: Header|
            HeaderModel {
                name: header.name@,
                value: header.value@,
                sensitive: header.sensitive,
            },
    )
}

/// The headers that authorize a request.
pub open spec fn headers_of(bearer: Seq<char>, status: Option<StatusModel>) -> Seq<HeaderModel> {
    let first = Seq::<HeaderModel>::empty().push(
        HeaderModel { name: "authorization"@, value: "Bearer "@ + bearer, sensitive: true },
    );
    match status {
        None => first,
        Some(status) => {
            let second = first.push(
                HeaderModel {
                    name: "chatgpt-account-id"@,
                    value: status.account_id,
                    sensitive: true,
                },
            );
            if status.fedramp {
                second.push(
                    HeaderModel { name: "x-openai-fedramp"@, value: "true"@, sensitive: false },
                )
            } else {
                second
            }
        },
    }
}

fn add_header(headers: &mut Vec<Header>, name: &'static str, value: String, sensitive: bool)
    ensures
        header_models(final(headers)@) == header_models(old(headers)@).push(
            HeaderModel { name: name@, value: value@, sensitive },
        ),
{
    let ghost before = headers@;
    headers.push(Header { name, value, sensitive });
    assert(header_models(headers@) =~= header_models(before).push(
        HeaderModel { name: name@, value: value@, sensitive },
    ));
}

/// The headers that authorize a request, unless the token is blank.
pub fn auth_headers(bearer: &str, status: Option<&ChatGptAuthStatus>) -> (r: Result<
    Vec<Header>,
    AuthError,
>)
    ensures
        match r {
            Ok(headers) => !blank(bearer@) && header_models(headers@) == headers_of(
                bearer@,
                match status {
                    Some(status) => Some(status@),
                    None => None,
                },
            ),
            Err(error) => blank(bearer@) && error == AuthError::InvalidCredentials,
        },
{
    if is_blank(bearer) {
        return Err(AuthError::InvalidCredentials);
    }
    let mut headers: Vec<Header> = Vec::new();
    assert(header_models(headers@) =~= Seq::<HeaderModel>::empty());
    let mut authorization = "Bearer ".to_owned();
    authorization.push_str(bearer);
    add_header(&mut headers, "authorization", authorization, true);
    match status {
        Some(status) => {
            add_header(&mut headers, "chatgpt-account-id", status.account_id.clone(), true);
            if status.fedramp {
                add_header(&mut headers, "x-openai-fedramp", "true".to_owned(), false);
            }
        },
        None => {},
    }
    Ok(headers)
}

/// A pair of a query.
#[derive(Debug, PartialEq, Eq)]
pub struct QueryPair {
    pub key: String,
    pub value: String,
}

#[verifier::ext_equal]
pub struct PairModel {
    pub key: Seq<char>,
    pub value: Seq<char>,
}

pub open spec fn pair_models(pairs: Seq<QueryPair>) -> Seq<PairModel> {
    pairs.map_values(|pair: QueryPair| PairModel { key: pair.key@, value: pair.value@ })
}

/// The pairs of the query of a URL, decoded, if the text spells a URL.
pub uninterp spec fn query_of(url: Seq<char>) -> Option<Seq<PairModel>>;

/// `url::Url::query_pairs`, of the URL that the text is, is a function of the text alone.
#[verifier::external_body]
fn read_query(url: &str) -> (r: Option<Vec<QueryPair>>)
    ensures
        match r {
            Some(pairs) => query_of(url@) == Some(pair_models(pairs@)),
            None => query_of(url@) is None,
        },
{
    let url = url::Url::parse(url).ok()?;
    Some(
        url.query_pairs()
            .map(|(key, value)| QueryPair { key: key.into_owned(), value: value.into_owned() })
            .collect(),
    )
}

/// The first line of a text, without the line end.
pub open spec fn first_line(text: Seq<char>) -> Seq<char> {
    let end = line_end_at(text, 0);
    if 0 < end < text.len() && text[end - 1] == '\r' {
        text.subrange(0, end - 1)
    } else {
        text.subrange(0, end)
    }
}

/// The target of a request line that asks to get something.
pub open spec fn get_target(line: Seq<char>) -> Option<Seq<char>> {
    let a = turn_at(line, 0, false);
    let b = turn_at(line, a, true);
    let c = turn_at(line, b, false);
    let d = turn_at(line, c, true);
    if line.subrange(a, b) != "GET"@ || c >= line.len() {
        None
    } else {
        Some(line.subrange(c, d))
    }
}

fn request_target(text: &str) -> (r: Option<String>)
    ensures
        optional_text(r) == get_target(first_line(text@)),
{
    let chars = chars_of(text);
    let mut end: usize = 0;
    while end < chars.len()
        invariant_except_break
            end <= chars.len(),
            line_end_at(chars@, 0) == line_end_at(chars@, end as int),
        ensures
            end <= chars.len(),
            end == line_end_at(chars@, 0),
        decreases chars.len() - end,
    {
        if chars[end] == '\n' {
            break;
        }
        end += 1;
    }
    let stop: usize = if end > 0 && end < chars.len() && chars[end - 1] == '\r' {
        end - 1
    } else {
        end
    };
    let line = chars_between(&chars, 0, stop);
    assert(line@ == first_line(text@));
    let a = find_turn(&line, 0, false);
    let b = find_turn(&line, a, true);
    let c = find_turn(&line, b, false);
    let d = find_turn(&line, c, true);
    let method = string_of(&line, a, b);
    if !same_text(method.as_str(), "GET") || c >= line.len() {
        return None;
    }
    Some(string_of(&line, c, d))
}

/// What the pairs of a callback have brought so far.
#[verifier::ext_equal]
pub struct CallbackModel {
    pub state: Option<Seq<char>>,
    pub code: Option<Seq<char>>,
}

/// What the first `n` pairs of a callback bring; none if one is repeated or reports an
/// error.
pub open spec fn callback_of(pairs: Seq<PairModel>, n: int) -> Option<CallbackModel>
    decreases n,
{
    if n <= 0 {
        Some(CallbackModel { state: None, code: None })
    } else {
        match callback_of(pairs, n - 1) {
            None => None,
            Some(before) => {
                let pair = pairs[n - 1];
                if pair.key == "state"@ && before.state is None {
                    Some(CallbackModel { state: Some(pair.value), ..before })
                } else if pair.key == "code"@ && before.code is None {
                    Some(CallbackModel { code: Some(pair.value), ..before })
                } else if pair.key == "state"@ || pair.key == "code"@ || pair.key == "error"@ {
                    None
                } else {
                    Some(before)
                }
            },
        }
    }
}

/// The code of a callback that belongs to a login.
pub open spec fn code_of(pairs: Seq<PairModel>, expected_state: Seq<char>) -> Option<Seq<char>> {
    match callback_of(pairs, pairs.len() as int) {
        None => None,
        Some(found) => if found.state != Some(expected_state) {
            None
        } else {
            match found.code {
                Some(code) => if code.len() == 0 {
                    None
                } else {
                    Some(code)
                },
                None => None,
            }
        },
    }
}

proof fn lemma_callback_none(pairs: Seq<PairModel>, at: int, n: int)
    requires
        0 <= at <= n,
        callback_of(pairs, at) is None,
    ensures
        callback_of(pairs, n) is None,
    decreases n,
{
    if at < n {
        lemma_callback_none(pairs, at, n - 1);
    }
}

/// The code that the pairs of a callback bring to a login.
pub fn login_code(pairs: &Vec<QueryPair>, expected_state: &str) -> (r: Result<String, AuthError>)
    ensures
        match (r, code_of(pair_models(pairs@), expected_state@)) {
            (Ok(code), Some(expected)) => code@ == expected,
            (Err(error), None) => error == AuthError::InvalidCallback,
            _ => false,
        },
{
    let ghost all = pair_models(pairs@);
    let mut state: Option<String> = None;
    let mut code: Option<String> = None;
    let mut i: usize = 0;
    while i < pairs.len()
        invariant
            i <= pairs.len(),
            all == pair_models(pairs@),
            callback_of(all, i as int) == Some(
                CallbackModel { state: optional_text(state), code: optional_text(code) },
            ),
        decreases pairs.len() - i,
    {
        let key = pairs[i].key.as_str();
        assert(all[i as int].key == key@);
        assert(all[i as int].value == pairs@[i as int].value@);
        if same_text(key, "state") && state.is_none() {
            state = Some(pairs[i].value.clone());
        } else if same_text(key, "code") && code.is_none() {
            code = Some(pairs[i].value.clone());
        } else if same_text(key, "state") || same_text(key, "code") || same_text(key, "error") {
            proof {
                lemma_callback_none(all, i as int + 1, pairs.len() as int);
            }
            return Err(AuthError::InvalidCallback);
        }
        i += 1;
    }
    let matches = match &state {
        Some(state) => same_text(state.as_str(), expected_state),
        None => false,
    };
    if !matches {
        return Err(AuthError::InvalidCallback);
    }
    match code {
        Some(code) => {
            if crate::inference::response::is_empty(code.as_str()) {
                Err(AuthError::InvalidCallback)
            } else {
                Ok(code)
            }
        },
        None => Err(AuthError::InvalidCallback),
    }
}

/// The URL that the request of a callback asks for.
pub open spec fn callback_url(bytes: Seq<u8>) -> Option<Seq<char>> {
    if !valid_utf8(bytes) || decode_utf8(bytes).len() == 0 {
        None
    } else {
        match get_target(first_line(decode_utf8(bytes))) {
            None => None,
            Some(target) => if begins_with(target, "/auth/callback?"@) {
                Some("http://localhost"@ + target)
            } else {
                None
            },
        }
    }
}

/// The code that the request of a callback brings to a login.
pub fn callback_code(bytes: &[u8], expected_state: &str) -> (r: Result<String, AuthError>)
    ensures
        ({
            let pairs = match callback_url(bytes@) {
                Some(url) => query_of(url),
                None => None,
            };
            match (r, pairs) {
                (Ok(code), Some(pairs)) => code_of(pairs, expected_state@) == Some(code@),
                (Err(error), Some(pairs)) => code_of(pairs, expected_state@) is None && error
                    == AuthError::InvalidCallback,
                (Err(error), None) => error == AuthError::InvalidCallback,
                _ => false,
            }
        }),
{
    let text = match read_utf8(bytes) {
        Some(text) => text,
        None => return Err(AuthError::InvalidCallback),
    };
    if crate::inference::response::is_empty(text.as_str()) {
        return Err(AuthError::InvalidCallback);
    }
    let target = match request_target(text.as_str()) {
        Some(target) => target,
        None => return Err(AuthError::InvalidCallback),
    };
    if !has_prefix(target.as_str(), "/auth/callback?") {
        return Err(AuthError::InvalidCallback);
    }
    let mut url = "http://localhost".to_owned();
    url.push_str(target.as_str());
    match read_query(url.as_str()) {
        Some(pairs) => login_code(&pairs, expected_state),
        None => Err(AuthError::InvalidCallback),
    }
}

fn add_pair(pairs: &mut Vec<QueryPair>, key: &str, value: &str)
    ensures
        pair_models(final(pairs)@) == pair_models(old(pairs)@).push(
            PairModel { key: key@, value: value@ },
        ),
{
    let ghost before = pairs@;
    pairs.push(QueryPair { key: key.to_owned(), value: value.to_owned() });
    assert(pair_models(pairs@) =~= pair_models(before).push(
        PairModel { key: key@, value: value@ },
    ));
}

/// What a browser is asked for, so that it authorizes a login.
pub open spec fn authorization_query(
    redirect_uri: Seq<char>,
    challenge: Seq<char>,
    state: Seq<char>,
) -> Seq<PairModel> {
    Seq::<PairModel>::empty().push(PairModel { key: "response_type"@, value: "code"@ }).push(
        PairModel { key: "client_id"@, value: "app_EMoamEEZ73f0CkXaXp7hrann"@ },
    ).push(PairModel { key: "redirect_uri"@, value: redirect_uri }).push(
        PairModel {
            key: "scope"@,
            value:
                "openid profile email offline_access api.connectors.read api.connectors.invoke"@,
        },
    ).push(PairModel { key: "code_challenge"@, value: challenge }).push(
        PairModel { key: "code_challenge_method"@, value: "S256"@ },
    ).push(PairModel { key: "id_token_add_organizations"@, value: "true"@ }).push(
        PairModel { key: "codex_cli_simplified_flow"@, value: "true"@ },
    ).push(PairModel { key: "originator"@, value: "tact"@ }).push(
        PairModel { key: "state"@, value: state },
    )
}

/// The pairs of the query that authorizes a login.
pub fn authorization_pairs(redirect_uri: &str, challenge: &str, state: &str) -> (r: Vec<QueryPair>)
    ensures
        pair_models(r@) == authorization_query(redirect_uri@, challenge@, state@),
{
    let mut pairs: Vec<QueryPair> = Vec::new();
    assert(pair_models(pairs@) =~= Seq::<PairModel>::empty());
    add_pair(&mut pairs, "response_type", "code");
    add_pair(&mut pairs, "client_id", "app_EMoamEEZ73f0CkXaXp7hrann");
    add_pair(&mut pairs, "redirect_uri", redirect_uri);
    add_pair(
        &mut pairs,
        "scope",
        "openid profile email offline_access api.connectors.read api.connectors.invoke",
    );
    add_pair(&mut pairs, "code_challenge", challenge);
    add_pair(&mut pairs, "code_challenge_method", "S256");
    add_pair(&mut pairs, "id_token_add_organizations", "true");
    add_pair(&mut pairs, "codex_cli_simplified_flow", "true");
    add_pair(&mut pairs, "originator", "tact");
    add_pair(&mut pairs, "state", state);
    pairs
}

/// The text of a URL below a base URL; none if the base is no URL or the path none.
pub uninterp spec fn url_below(base: Seq<char>, path: Seq<char>) -> Option<Seq<char>>;

/// `url::Url::join`, on the URL that the base is, is a function of the texts alone.
#[verifier::external_body]
fn join(base: &str, path: &str) -> (r: Option<String>)
    ensures
        optional_text(r) == url_below(base@, path@),
{
    Some(url::Url::parse(base).ok()?.join(path).ok()?.into())
}

/// The text of a URL with pairs put behind its query; none if it is no URL.
pub uninterp spec fn url_with_query(url: Seq<char>, query: Seq<PairModel>) -> Option<Seq<char>>;

/// `extend_pairs` of `url::Url::query_pairs_mut`, on the URL that the text is, is a function
/// of the text and the pairs alone.
#[verifier::external_body]
fn add_query(url: &str, query: &Vec<QueryPair>) -> (r: Option<String>)
    ensures
        optional_text(r) == url_with_query(url@, pair_models(query@)),
{
    let mut url = url::Url::parse(url).ok()?;
    url.query_pairs_mut().extend_pairs(query.iter().map(|pair| (&pair.key, &pair.value)));
    Some(url.into())
}

/// The text of a URL below a base URL, with a query.
pub open spec fn joined_url(base: Seq<char>, path: Seq<char>, query: Seq<PairModel>) -> Option<
    Seq<char>,
> {
    match url_below(base, path) {
        Some(url) => url_with_query(url, query),
        None => None,
    }
}

fn join_url(base: &str, path: &str, query: &Vec<QueryPair>) -> (r: Option<String>)
    ensures
        optional_text(r) == joined_url(base@, path@, pair_models(query@)),
{
    match join(base, path) {
        Some(url) => add_query(url.as_str(), query),
        None => None,
    }
}

/// The URL at which an issuer hands out tokens.
pub fn token_url(issuer: &str) -> (r: Result<String, AuthError>)
    ensures
        match r {
            Ok(url) => url_below(issuer@, "oauth/token"@) == Some(url@),
            Err(error) => {
                &&& error == AuthError::InvalidIssuer
                &&& url_below(issuer@, "oauth/token"@) is None
            },
        },
{
    match join(issuer, "oauth/token") {
        Some(url) => Ok(url),
        None => Err(AuthError::InvalidIssuer),
    }
}

/// The URL at which a browser authorizes a login.
pub fn authorization_url(
    issuer: &str,
    redirect_uri: &str,
    verifier: &str,
    state: &str,
) -> (r: Result<String, AuthError>)
    ensures
        match r {
            Ok(url) => joined_url(
                issuer@,
                "oauth/authorize"@,
                authorization_query(redirect_uri@, challenge_of(verifier@), state@),
            ) == Some(url@),
            Err(error) => error == AuthError::InvalidIssuer && joined_url(
                issuer@,
                "oauth/authorize"@,
                authorization_query(redirect_uri@, challenge_of(verifier@), state@),
            ) is None,
        },
{
    let challenge = code_challenge(verifier);
    let pairs = authorization_pairs(redirect_uri, challenge.as_str(), state);
    match join_url(issuer, "oauth/authorize", &pairs) {
        Some(url) => Ok(url),
        None => Err(AuthError::InvalidIssuer),
    }
}

/// What a login asks for, in exchange for its code.
pub open spec fn exchange_query(
    code: Seq<char>,
    redirect_uri: Seq<char>,
    verifier: Seq<char>,
) -> Seq<PairModel> {
    Seq::<PairModel>::empty().push(
        PairModel { key: "grant_type"@, value: "authorization_code"@ },
    ).push(PairModel { key: "code"@, value: code }).push(
        PairModel { key: "redirect_uri"@, value: redirect_uri },
    ).push(PairModel { key: "client_id"@, value: "app_EMoamEEZ73f0CkXaXp7hrann"@ }).push(
        PairModel { key: "code_verifier"@, value: verifier },
    )
}

/// Pairs as a form spells them.
pub uninterp spec fn form_encoded(pairs: Seq<PairModel>) -> Seq<char>;

/// `url::form_urlencoded::Serializer` spells pairs as a function of the pairs alone.
#[verifier::external_body]
fn encode_form(pairs: &Vec<QueryPair>) -> (r: String)
    ensures
        r@ == form_encoded(pair_models(pairs@)),
{
    url::form_urlencoded::Serializer::new(String::new())
        .extend_pairs(pairs.iter().map(|pair| (&pair.key, &pair.value)))
        .finish()
}

/// The pairs of the form that exchanges the code of a login for tokens.
pub fn exchange_pairs(code: &str, redirect_uri: &str, verifier: &str) -> (r: Vec<QueryPair>)
    ensures
        pair_models(r@) == exchange_query(code@, redirect_uri@, verifier@),
{
    let mut pairs: Vec<QueryPair> = Vec::new();
    assert(pair_models(pairs@) =~= Seq::<PairModel>::empty());
    add_pair(&mut pairs, "grant_type", "authorization_code");
    add_pair(&mut pairs, "code", code);
    add_pair(&mut pairs, "redirect_uri", redirect_uri);
    add_pair(&mut pairs, "client_id", "app_EMoamEEZ73f0CkXaXp7hrann");
    add_pair(&mut pairs, "code_verifier", verifier);
    pairs
}

/// The form that exchanges the code of a login for tokens.
pub fn exchange_body(code: &str, redirect_uri: &str, verifier: &str) -> (r: String)
    ensures
        r@ == form_encoded(exchange_query(code@, redirect_uri@, verifier@)),
{
    let pairs = exchange_pairs(code, redirect_uri, verifier);
    encode_form(&pairs)
}

/// A time in seconds since the epoch, as RFC 3339 spells it in UTC, if it can.
pub uninterp spec fn rfc3339_of(seconds: i64) -> Option<Seq<char>>;

/// `chrono::DateTime::to_rfc3339_opts` in UTC, to the second, of the time that the seconds
/// are, is a function of the seconds alone.
#[verifier::external_body]
fn spell_time(seconds: i64) -> (r: Option<String>)
    ensures
        optional_text(r) == rfc3339_of(seconds),
{
    chrono::DateTime::from_timestamp(seconds, 0)
        .map(|time| time.to_rfc3339_opts(chrono::SecondsFormat::Secs, true))
}

/// The time of a refresh, as a credential document notes it.
pub fn refresh_stamp(now: u64) -> (r: Result<String, AuthError>)
    ensures
        match r {
            Ok(stamp) => now <= i64::MAX && rfc3339_of(now as i64) == Some(stamp@),
            Err(error) => error == AuthError::InvalidCredentials && (now > i64::MAX || rfc3339_of(
                now as i64,
            ) is None),
        },
{
    if now > i64::MAX as u64 {
        return Err(AuthError::InvalidCredentials);
    }
    match spell_time(now as i64) {
        Some(stamp) => Ok(stamp),
        None => Err(AuthError::InvalidCredentials),
    }
}

/// The text of bytes that were drawn: their base64.
pub fn drawn_text(bytes: &[u8]) -> (r: String)
    ensures
        r@ == base64_encoded(bytes@),
{
    encode_base64(bytes)
}

/// The challenge of a verifier.
pub open spec fn challenge_of(verifier: Seq<char>) -> Seq<char> {
    base64_encoded(crate::digest::sha256_of(encode_utf8(verifier)))
}

/// The challenge of a login: the base64 of the hash of its verifier.
pub fn code_challenge(verifier: &str) -> (r: String)
    ensures
        r@ == challenge_of(verifier@),
{
    let hash = crate::digest::sha256(verifier.as_bytes());
    encode_base64(hash.as_slice())
}

/// A refresh whose answer was lost is never sent again: once begun, every further refresh is
/// refused until the credentials change.
pub proof fn law_lost_refreshes_are_not_repeated(managed: ManagedModel)
    requires
        refresh_begun(managed).1 is Ok,
    ensures
        refresh_begun(refresh_begun(managed).0).1 == Err::<JsonModel, AuthError>(
            AuthError::RefreshUncertain,
        ),
        reloaded(refresh_begun(managed).0, managed.document).0 == refresh_begun(managed).0,
{
}

/// Credentials of another account are never taken over.
pub proof fn law_accounts_do_not_change(managed: ManagedModel, document: JsonModel)
    ensures
        reloaded(managed, document).0.status.account_id == managed.status.account_id,
{
}

} // verus!
