//! Why inference or authentication fails.
use vstd::prelude::*;

verus! {

/// Why a call to a provider failed.
#[derive(Clone, Copy, Debug, PartialEq, Eq, Structural)]
pub enum FailureKind {
    InvalidRequest,
    InvalidEndpoint,
    InvalidLimits,
    Authentication,
    Rejected,
    Transport,
    Interrupted,
    MalformedResponse,
    ProviderError,
    Cancelled,
    Timeout,
    SizeLimit,
}

impl FailureKind {
    pub open spec fn spec_message(self) -> Seq<char> {
        match self {
            FailureKind::InvalidRequest => "invalid inference request or unsupported tool/input shape"@,
            FailureKind::InvalidEndpoint => "invalid provider endpoint; TLS is required outside loopback"@,
            FailureKind::InvalidLimits => "invalid inference limits"@,
            FailureKind::Authentication => "provider credentials are unavailable or require login"@,
            FailureKind::Rejected => "provider request was rejected"@,
            FailureKind::Transport => "provider connection failed"@,
            FailureKind::Interrupted => "provider stream ended without a terminal response"@,
            FailureKind::MalformedResponse => "provider stream contained malformed or inconsistent protocol data"@,
            FailureKind::ProviderError => "provider reported an error"@,
            FailureKind::Cancelled => "inference was cancelled"@,
            FailureKind::Timeout => "inference timed out"@,
            FailureKind::SizeLimit => "inference exceeded its byte limit"@,
        }
    }

    /// What to tell an operator.
    pub fn message(self) -> (r: &'static str)
        ensures
            r@ == self.spec_message(),
    {
        match self {
            FailureKind::InvalidRequest => "invalid inference request or unsupported tool/input shape",
            FailureKind::InvalidEndpoint => "invalid provider endpoint; TLS is required outside loopback",
            FailureKind::InvalidLimits => "invalid inference limits",
            FailureKind::Authentication => "provider credentials are unavailable or require login",
            FailureKind::Rejected => "provider request was rejected",
            FailureKind::Transport => "provider connection failed",
            FailureKind::Interrupted => "provider stream ended without a terminal response",
            FailureKind::MalformedResponse => "provider stream contained malformed or inconsistent protocol data",
            FailureKind::ProviderError => "provider reported an error",
            FailureKind::Cancelled => "inference was cancelled",
            FailureKind::Timeout => "inference timed out",
            FailureKind::SizeLimit => "inference exceeded its byte limit",
        }
    }
}

impl FailureKind {
    pub open spec fn spec_name(self) -> Seq<char> {
        match self {
            FailureKind::InvalidRequest => "invalid_request"@,
            FailureKind::InvalidEndpoint => "invalid_endpoint"@,
            FailureKind::InvalidLimits => "invalid_limits"@,
            FailureKind::Authentication => "authentication"@,
            FailureKind::Rejected => "rejected"@,
            FailureKind::Transport => "transport"@,
            FailureKind::Interrupted => "interrupted"@,
            FailureKind::MalformedResponse => "malformed_response"@,
            FailureKind::ProviderError => "provider_error"@,
            FailureKind::Cancelled => "cancelled"@,
            FailureKind::Timeout => "timeout"@,
            FailureKind::SizeLimit => "size_limit"@,
        }
    }

    pub fn name(self) -> (r: &'static str)
        ensures
            r@ == self.spec_name(),
    {
        match self {
            FailureKind::InvalidRequest => "invalid_request",
            FailureKind::InvalidEndpoint => "invalid_endpoint",
            FailureKind::InvalidLimits => "invalid_limits",
            FailureKind::Authentication => "authentication",
            FailureKind::Rejected => "rejected",
            FailureKind::Transport => "transport",
            FailureKind::Interrupted => "interrupted",
            FailureKind::MalformedResponse => "malformed_response",
            FailureKind::ProviderError => "provider_error",
            FailureKind::Cancelled => "cancelled",
            FailureKind::Timeout => "timeout",
            FailureKind::SizeLimit => "size_limit",
        }
    }
}

/// Why authentication failed.
#[derive(Clone, Copy, Debug, PartialEq, Eq, Structural)]
pub enum AuthError {
    InvalidCredentials,
    StoreUnavailable,
    StoreChanged,
    AccountChanged,
    LoginRequired,
    RefreshUncertain,
    Transport,
    Rejected,
    Timeout,
    Cancelled,
    InvalidCallback,
    CallbackUnavailable,
    InvalidIssuer,
}

impl AuthError {
    pub open spec fn spec_message(self) -> Seq<char> {
        match self {
            AuthError::InvalidCredentials => "credentials are empty or malformed"@,
            AuthError::StoreUnavailable => "credential file is unavailable"@,
            AuthError::StoreChanged => "credential file changed during authentication; retry after checking login status"@,
            AuthError::AccountChanged => "the shared ChatGPT account changed while this client was active"@,
            AuthError::LoginRequired => "ChatGPT login is required"@,
            AuthError::RefreshUncertain => "credential refresh outcome is unknown; log in again or load externally refreshed credentials"@,
            AuthError::Transport => "authentication transport failed"@,
            AuthError::Rejected => "authentication request was rejected"@,
            AuthError::Timeout => "authentication timed out"@,
            AuthError::Cancelled => "authentication was cancelled"@,
            AuthError::InvalidCallback => "OAuth callback did not match this login"@,
            AuthError::CallbackUnavailable => "OAuth loopback callback ports are unavailable"@,
            AuthError::InvalidIssuer => "invalid authentication issuer"@,
        }
    }

    /// What to tell an operator.
    pub fn message(self) -> (r: &'static str)
        ensures
            r@ == self.spec_message(),
    {
        match self {
            AuthError::InvalidCredentials => "credentials are empty or malformed",
            AuthError::StoreUnavailable => "credential file is unavailable",
            AuthError::StoreChanged => "credential file changed during authentication; retry after checking login status",
            AuthError::AccountChanged => "the shared ChatGPT account changed while this client was active",
            AuthError::LoginRequired => "ChatGPT login is required",
            AuthError::RefreshUncertain => "credential refresh outcome is unknown; log in again or load externally refreshed credentials",
            AuthError::Transport => "authentication transport failed",
            AuthError::Rejected => "authentication request was rejected",
            AuthError::Timeout => "authentication timed out",
            AuthError::Cancelled => "authentication was cancelled",
            AuthError::InvalidCallback => "OAuth callback did not match this login",
            AuthError::CallbackUnavailable => "OAuth loopback callback ports are unavailable",
            AuthError::InvalidIssuer => "invalid authentication issuer",
        }
    }
}

/// How a provider is reached.
#[derive(Clone, Copy, Debug, PartialEq, Eq, Structural)]
pub enum Transport {
    Http,
    WebSocket,
}

impl Transport {
    pub open spec fn spec_name(self) -> Seq<char> {
        match self {
            Transport::Http => "http"@,
            Transport::WebSocket => "web_socket"@,
        }
    }

    pub fn name(self) -> (r: &'static str)
        ensures
            r@ == self.spec_name(),
    {
        match self {
            Transport::Http => "http",
            Transport::WebSocket => "web_socket",
        }
    }
}

/// Which dialect of the response protocol a provider speaks.
#[derive(Clone, Copy, Debug, Default, PartialEq, Eq, Structural)]
pub enum ResponseDialect {
    #[default]
    OpenAi,
    ChatGpt,
}

} // verus!
