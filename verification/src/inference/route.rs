//! Routes to a provider and the limits of a call.
use crate::inference::failure::{AuthError, FailureKind, Transport};
use crate::text::{chars_of, same_text, string_of};
use vstd::prelude::*;

verus! {

/// What a URL is made of, as far as routes depend on it.
#[derive(Debug, PartialEq, Eq)]
pub struct UrlParts {
    /// The URL in its normal form.
    pub text: String,
    pub scheme: String,
    pub host: Option<String>,
    pub path: String,
    pub username: String,
    pub password: Option<String>,
    pub query: Option<String>,
    pub fragment: Option<String>,
}

/// What the parts of a URL say.
#[verifier::ext_equal]
pub struct UrlModel {
    pub text: Seq<char>,
    pub scheme: Seq<char>,
    pub host: Option<Seq<char>>,
    pub path: Seq<char>,
    pub username: Seq<char>,
    pub password: Option<Seq<char>>,
    pub query: Option<Seq<char>>,
    pub fragment: Option<Seq<char>>,
}

/// What an optional text says.
pub open spec fn optional_text(text: Option<String>) -> Option<Seq<char>> {
    match text {
        Some(text) => Some(text@),
        None => None,
    }
}

impl View for UrlParts {
    type V = UrlModel;

    open spec fn view(&self) -> UrlModel {
        UrlModel {
            text: self.text@,
            scheme: self.scheme@,
            host: optional_text(self.host),
            path: self.path@,
            username: self.username@,
            password: optional_text(self.password),
            query: optional_text(self.query),
            fragment: optional_text(self.fragment),
        }
    }
}

/// The URL that a text spells, if it spells one.
pub uninterp spec fn parsed_url(text: Seq<char>) -> Option<UrlModel>;

/// `url::Url::parse` is a function of the text alone; the parts are what the accessors of
/// the `Url` return.
#[verifier::external_body]
fn read_url(text: &str) -> (r: Option<UrlParts>)
    ensures
        match r {
            Some(parts) => parsed_url(text@) == Some(parts@),
            None => parsed_url(text@) is None,
        },
{
    let url = url::Url::parse(text).ok()?;
    Some(UrlParts {
        text: url.as_str().to_owned(),
        scheme: url.scheme().to_owned(),
        host: url.host_str().map(str::to_owned),
        path: url.path().to_owned(),
        username: url.username().to_owned(),
        password: url.password().map(str::to_owned),
        query: url.query().map(str::to_owned),
        fragment: url.fragment().map(str::to_owned),
    })
}

/// The text of a URL under another scheme; none if it is no URL or cannot have the scheme.
pub uninterp spec fn url_with_scheme(text: Seq<char>, scheme: Seq<char>) -> Option<Seq<char>>;

/// `url::Url::set_scheme`, on the URL that the text is, is a function of the texts alone.
#[verifier::external_body]
fn set_scheme(text: &str, scheme: &str) -> (r: Option<String>)
    ensures
        match r {
            Some(moved) => url_with_scheme(text@, scheme@) == Some(moved@),
            None => url_with_scheme(text@, scheme@) is None,
        },
{
    let mut url = url::Url::parse(text).ok()?;
    url.set_scheme(scheme).ok()?;
    Some(url.into())
}

/// The text of a URL with another path; none if it is no URL.
pub uninterp spec fn url_with_path(text: Seq<char>, path: Seq<char>) -> Option<Seq<char>>;

/// `url::Url::set_path`, on the URL that the text is, is a function of the texts alone.
#[verifier::external_body]
fn set_path(text: &str, path: &str) -> (r: Option<String>)
    ensures
        match r {
            Some(moved) => url_with_path(text@, path@) == Some(moved@),
            None => url_with_path(text@, path@) is None,
        },
{
    let mut url = url::Url::parse(text).ok()?;
    url.set_path(path);
    Some(url.into())
}

/// The text of a URL under another scheme and with another path.
pub open spec fn moved_url(text: Seq<char>, scheme: Seq<char>, path: Seq<char>) -> Option<
    Seq<char>,
> {
    match url_with_scheme(text, scheme) {
        Some(moved) => url_with_path(moved, path),
        None => None,
    }
}

fn move_url(text: &str, scheme: &str, path: &str) -> (r: Option<String>)
    ensures
        match r {
            Some(moved) => moved_url(text@, scheme@, path@) == Some(moved@),
            None => moved_url(text@, scheme@, path@) is None,
        },
{
    match set_scheme(text, scheme) {
        Some(moved) => set_path(moved.as_str(), path),
        None => None,
    }
}

/// Whether a host is this machine.
pub open spec fn loopback(host: Option<Seq<char>>) -> bool {
    host == Some("localhost"@) || host == Some("127.0.0.1"@) || host == Some("[::1]"@)
}

fn is_loopback(host: &Option<String>) -> (r: bool)
    ensures
        r == loopback(optional_text(*host)),
{
    match host {
        Some(host) => same_text(host.as_str(), "localhost") || same_text(
            host.as_str(),
            "127.0.0.1",
        ) || same_text(host.as_str(), "[::1]"),
        None => false,
    }
}

/// The secure scheme of a transport.
pub open spec fn secure_scheme(transport: Transport) -> Seq<char> {
    match transport {
        Transport::Http => "https"@,
        Transport::WebSocket => "wss"@,
    }
}

/// The plain scheme of a transport.
pub open spec fn local_scheme(transport: Transport) -> Seq<char> {
    match transport {
        Transport::Http => "http"@,
        Transport::WebSocket => "ws"@,
    }
}

/// Whether a URL carries nothing but where to go: no credentials, query or fragment.
pub open spec fn bare(url: UrlModel) -> bool {
    url.username == ""@ && url.password is None && url.query is None && url.fragment is None
}

fn is_bare(url: &UrlParts) -> (r: bool)
    ensures
        r == bare(url@),
{
    same_text(url.username.as_str(), "") && url.password.is_none() && url.query.is_none()
        && url.fragment.is_none()
}

/// Whether a URL is an endpoint: secure unless it is this machine, with a host and without
/// credentials, query or fragment.
pub open spec fn valid_endpoint(transport: Transport, url: UrlModel) -> bool {
    &&& url.scheme == secure_scheme(transport) || url.scheme == local_scheme(transport) && loopback(
        url.host,
    )
    &&& url.host is Some
    &&& bare(url)
}

/// Checks the parts of an endpoint.
pub fn check_endpoint(transport: Transport, url: &UrlParts) -> (r: bool)
    ensures
        r == valid_endpoint(transport, url@),
{
    let scheme = url.scheme.as_str();
    let secure = match transport {
        Transport::Http => same_text(scheme, "https"),
        Transport::WebSocket => same_text(scheme, "wss"),
    };
    let local = match transport {
        Transport::Http => same_text(scheme, "http"),
        Transport::WebSocket => same_text(scheme, "ws"),
    };
    (secure || local && is_loopback(&url.host)) && url.host.is_some() && is_bare(url)
}

/// How to authenticate.
#[derive(Clone, Copy, Debug, PartialEq, Eq, Structural)]
pub enum AuthMode {
    Auto,
    ApiKey,
    ChatGpt,
}

impl AuthMode {
    pub open spec fn spec_base_url(self) -> Seq<char> {
        match self {
            AuthMode::ChatGpt => "https://chatgpt.com/backend-api/codex"@,
            _ => "https://api.openai.com/v1"@,
        }
    }

    pub open spec fn spec_websocket_url(self) -> Seq<char> {
        match self {
            AuthMode::ChatGpt => "wss://chatgpt.com/backend-api/codex/responses"@,
            _ => "wss://api.openai.com/v1/responses"@,
        }
    }

    pub fn api_base_url(self) -> (r: &'static str)
        ensures
            r@ == self.spec_base_url(),
    {
        match self {
            AuthMode::ChatGpt => "https://chatgpt.com/backend-api/codex",
            _ => "https://api.openai.com/v1",
        }
    }

    pub fn websocket_url(self) -> (r: &'static str)
        ensures
            r@ == self.spec_websocket_url(),
    {
        match self {
            AuthMode::ChatGpt => "wss://chatgpt.com/backend-api/codex/responses",
            _ => "wss://api.openai.com/v1/responses",
        }
    }
}

/// A text without the slashes at its end.
pub open spec fn without_slashes(text: Seq<char>) -> Seq<char>
    decreases text.len(),
{
    if text.len() > 0 && text.last() == '/' {
        without_slashes(text.drop_last())
    } else {
        text
    }
}

fn drop_slashes(text: &str) -> (r: String)
    ensures
        r@ == without_slashes(text@),
{
    let chars = chars_of(text);
    let mut n: usize = chars.len();
    assert(chars@.subrange(0, n as int) =~= chars@);
    while n > 0 && chars[n - 1] == '/'
        invariant
            n <= chars.len(),
            chars@ == text@,
            without_slashes(chars@.subrange(0, n as int)) == without_slashes(text@),
        decreases n,
    {
        assert(chars@.subrange(0, n as int).drop_last() =~= chars@.subrange(0, n - 1));
        n -= 1;
    }
    string_of(&chars, 0, n)
}

/// An endpoint of a provider.
#[derive(Debug, PartialEq, Eq)]
pub struct Route {
    endpoint: UrlParts,
    transport: Transport,
}

impl Route {
    pub closed spec fn spec_endpoint(self) -> UrlModel {
        self.endpoint@
    }

    pub closed spec fn spec_transport(self) -> Transport {
        self.transport
    }

    #[verifier::type_invariant]
    spec fn well_formed(self) -> bool {
        valid_endpoint(self.transport, self.endpoint@)
    }

    /// A route to the complete Responses endpoint.
    pub fn new(transport: Transport, endpoint: &str) -> (r: Result<Self, FailureKind>)
        ensures
            match (r, parsed_url(endpoint@)) {
                (Ok(route), Some(url)) => valid_endpoint(transport, url) && route.spec_endpoint()
                    == url && route.spec_transport() == transport,
                (Err(error), Some(url)) => !valid_endpoint(transport, url) && error
                    == FailureKind::InvalidEndpoint,
                (Err(error), None) => error == FailureKind::InvalidEndpoint,
                _ => false,
            },
    {
        Route::from_url(transport, read_url(endpoint))
    }

    /// A route to an endpoint whose URL was read, if it could be read.
    pub fn from_url(transport: Transport, url: Option<UrlParts>) -> (r: Result<Self, FailureKind>)
        ensures
            match (r, url) {
                (Ok(route), Some(url)) => valid_endpoint(transport, url@) && route.spec_endpoint()
                    == url@ && route.spec_transport() == transport,
                (Err(error), Some(url)) => !valid_endpoint(transport, url@) && error
                    == FailureKind::InvalidEndpoint,
                (Err(error), None) => error == FailureKind::InvalidEndpoint,
                _ => false,
            },
    {
        match url {
            Some(endpoint) => {
                if check_endpoint(transport, &endpoint) {
                    Ok(Route { endpoint, transport })
                } else {
                    Err(FailureKind::InvalidEndpoint)
                }
            },
            None => Err(FailureKind::InvalidEndpoint),
        }
    }

    /// A route to the endpoint of an authentication mode, unless it is overridden. An
    /// override of the base applies to HTTP, one of the socket to WebSocket.
    pub fn from_overrides(
        mode: AuthMode,
        transport: Transport,
        api_base_url: Option<&str>,
        websocket_url: Option<&str>,
    ) -> (r: Result<Self, FailureKind>)
        ensures
            ({
                let endpoint = overridden(
                    mode,
                    transport,
                    match api_base_url {
                        Some(url) => Some(url@),
                        None => None,
                    },
                    match websocket_url {
                        Some(url) => Some(url@),
                        None => None,
                    },
                );
                match (r, parsed_url(endpoint)) {
                    (Ok(route), Some(url)) => valid_endpoint(transport, url)
                        && route.spec_endpoint() == url && route.spec_transport() == transport,
                    (Err(error), Some(url)) => !valid_endpoint(transport, url) && error
                        == FailureKind::InvalidEndpoint,
                    (Err(error), None) => error == FailureKind::InvalidEndpoint,
                    _ => false,
                }
            }),
    {
        let endpoint = match transport {
            Transport::Http => {
                let base = match api_base_url {
                    Some(url) => url,
                    None => mode.api_base_url(),
                };
                let mut endpoint = drop_slashes(base);
                endpoint.push_str("/responses");
                endpoint
            },
            Transport::WebSocket => {
                let url = match websocket_url {
                    Some(url) => url,
                    None => mode.websocket_url(),
                };
                url.to_owned()
            },
        };
        Route::new(transport, endpoint.as_str())
    }

    pub fn transport(&self) -> (r: Transport)
        ensures
            r == self.spec_transport(),
    {
        self.transport
    }

    pub fn endpoint(&self) -> (r: &str)
        ensures
            r@ == self.spec_endpoint().text,
            valid_endpoint(self.spec_transport(), self.spec_endpoint()),
    {
        proof {
            use_type_invariant(self);
        }
        self.endpoint.text.as_str()
    }

    /// The endpoint that counts input tokens: over HTTP, below the route's path.
    pub fn count_endpoint(&self) -> (r: Result<String, FailureKind>)
        ensures
            ({
                let url = self.spec_endpoint();
                match (r, moved_url(url.text, count_scheme(url.scheme), count_path(url.path))) {
                    (Ok(text), Some(moved)) => text@ == moved,
                    (Err(error), None) => error == FailureKind::InvalidEndpoint,
                    _ => false,
                }
            }),
    {
        let scheme = if same_text(self.endpoint.scheme.as_str(), "wss") {
            "https"
        } else if same_text(self.endpoint.scheme.as_str(), "ws") {
            "http"
        } else {
            self.endpoint.scheme.as_str()
        };
        let mut path = drop_slashes(self.endpoint.path.as_str());
        path.push_str("/input_tokens");
        match move_url(self.endpoint.text.as_str(), scheme, path.as_str()) {
            Some(moved) => Ok(moved),
            None => Err(FailureKind::InvalidEndpoint),
        }
    }
}

/// The endpoint of a mode, unless it is overridden.
pub open spec fn overridden(
    mode: AuthMode,
    transport: Transport,
    api_base_url: Option<Seq<char>>,
    websocket_url: Option<Seq<char>>,
) -> Seq<char> {
    match transport {
        Transport::Http => without_slashes(
            match api_base_url {
                Some(url) => url,
                None => mode.spec_base_url(),
            },
        ) + "/responses"@,
        Transport::WebSocket => match websocket_url {
            Some(url) => url,
            None => mode.spec_websocket_url(),
        },
    }
}

/// The HTTP scheme of a socket scheme.
pub open spec fn count_scheme(scheme: Seq<char>) -> Seq<char> {
    if scheme == "wss"@ {
        "https"@
    } else if scheme == "ws"@ {
        "http"@
    } else {
        scheme
    }
}

pub open spec fn count_path(path: Seq<char>) -> Seq<char> {
    without_slashes(path) + "/input_tokens"@
}

/// Whether a URL is an issuer of tokens: secure unless it is this machine, without
/// credentials, query, fragment or path.
pub open spec fn valid_issuer(url: UrlModel) -> bool {
    &&& url.scheme == "https"@ || url.scheme == "http"@ && loopback(url.host)
    &&& bare(url)
    &&& url.path == ""@ || url.path == "/"@
}

/// Checks the parts of an issuer.
pub fn check_issuer(url: &UrlParts) -> (r: bool)
    ensures
        r == valid_issuer(url@),
{
    let scheme = url.scheme.as_str();
    (same_text(scheme, "https") || same_text(scheme, "http") && is_loopback(&url.host)) && is_bare(
        url,
    ) && (same_text(url.path.as_str(), "")
        || same_text(url.path.as_str(), "/"))
}

/// The normal form of an issuer.
pub fn issuer(value: &str) -> (r: Result<String, AuthError>)
    ensures
        match (r, parsed_url(value@)) {
            (Ok(text), Some(url)) => valid_issuer(url) && text@ == url.text,
            (Err(error), Some(url)) => !valid_issuer(url) && error == AuthError::InvalidIssuer,
            (Err(error), None) => error == AuthError::InvalidIssuer,
            _ => false,
        },
{
    match read_url(value) {
        Some(url) => {
            if check_issuer(&url) {
                Ok(url.text)
            } else {
                Err(AuthError::InvalidIssuer)
            }
        },
        None => Err(AuthError::InvalidIssuer),
    }
}

/// The limits of a call. Every attempt counts, including a rejection before generation.
#[derive(Clone, Copy, Debug, PartialEq, Eq, Structural)]
pub struct Limits {
    pub max_attempts: u32,
    pub connect_timeout_ns: u128,
    pub idle_timeout_ns: u128,
    pub total_timeout_ns: u128,
    pub retry_delay_ns: u128,
    pub max_retry_delay_ns: u128,
    pub max_request_bytes: usize,
    pub max_response_bytes: usize,
    pub max_event_bytes: usize,
}

impl Default for Limits {
    fn default() -> (r: Self)
        ensures
            r == (Limits {
                max_attempts: 3,
                connect_timeout_ns: 20_000_000_000,
                idle_timeout_ns: 90_000_000_000,
                total_timeout_ns: 300_000_000_000,
                retry_delay_ns: 250_000_000,
                max_retry_delay_ns: 5_000_000_000,
                max_request_bytes: 2097152,
                max_response_bytes: 16777216,
                max_event_bytes: 8388608,
            }),
            r.valid(),
    {
        Limits {
            max_attempts: 3,
            connect_timeout_ns: 20_000_000_000,
            idle_timeout_ns: 90_000_000_000,
            total_timeout_ns: 300_000_000_000,
            retry_delay_ns: 250_000_000,
            max_retry_delay_ns: 5_000_000_000,
            max_request_bytes: 2097152,
            max_response_bytes: 16777216,
            max_event_bytes: 8388608,
        }
    }
}

impl Limits {
    pub open spec fn valid(self) -> bool {
        &&& 1 <= self.max_attempts <= 8
        &&& self.connect_timeout_ns > 0 && self.idle_timeout_ns > 0 && self.total_timeout_ns > 0
        &&& 0 < self.max_event_bytes <= self.max_response_bytes <= 134217728
        &&& 0 < self.max_request_bytes <= 33554432
    }

    pub fn validate(&self) -> (r: Result<(), FailureKind>)
        ensures
            r == if self.valid() {
                Ok::<(), FailureKind>(())
            } else {
                Err(FailureKind::InvalidLimits)
            },
    {
        if self.max_attempts == 0 || self.max_attempts > 8 || self.connect_timeout_ns == 0
            || self.idle_timeout_ns == 0 || self.total_timeout_ns == 0 || self.max_request_bytes
            == 0 || self.max_event_bytes == 0 || self.max_event_bytes > self.max_response_bytes
            || self.max_response_bytes > 134217728 || self.max_request_bytes > 33554432 {
            return Err(FailureKind::InvalidLimits);
        }
        Ok(())
    }
}

/// Every route is encrypted, or stays on this machine.
pub proof fn law_routes_are_encrypted_or_local(transport: Transport, url: UrlModel)
    requires
        valid_endpoint(transport, url),
    ensures
        url.scheme == "https"@ || url.scheme == "wss"@ || loopback(url.host),
        bare(url),
{
}

} // verus!
