//! One call to a provider: its attempts, when it is tried again, and what it cost.
use crate::inference::cost::UsdCost;
use crate::inference::decoder::{
    fresh, item_values, Decoder, DecoderModel, ProviderResponse, ResponseModel,
};
use crate::inference::failure::{AuthError, FailureKind, ResponseDialect, Transport};
use crate::inference::model::{catalog_price, Model, Usage};
use crate::inference::request::{wire_of, InferenceRequest};
use crate::inference::route::{AuthMode, Limits};
use crate::json::{add_item, lemma_items, models, notation, Json, JsonModel};
use crate::text::{
    all_digits, byte_len, chars_between, chars_of, digits_value, is_digit, lemma_digits_grow,
    lower_chars, lowered, trim_chars, trimmed,
};
use vstd::prelude::*;
use vstd::utf8::encode_utf8;

verus! {

/// Why a call failed.
#[derive(Clone, Copy, Debug, PartialEq, Eq, Structural)]
pub struct Failure {
    pub kind: FailureKind,
    pub http_status: Option<u16>,
    pub auth_error: Option<AuthError>,
}

/// How an attempt stands.
#[derive(Clone, Copy, Debug, PartialEq, Eq, Structural)]
pub enum AttemptStatus {
    Started,
    Rejected,
    ResponseReceived,
    Failed,
    Cancelled,
    TimedOut,
}

/// A record of an attempt.
#[derive(Clone, Copy, Debug, PartialEq, Eq, Structural)]
pub struct AttemptRecord {
    pub number: u32,
    pub status: AttemptStatus,
    pub http_status: Option<u16>,
    /// True once the request could have reached the provider.
    pub dispatched: bool,
    /// A rejection with unknown billing, a lost terminal event or missing usage, none of
    /// which may be taken for zero spend.
    pub billing_uncertain: bool,
    pub elapsed_ms: u64,
}

/// Which route a request took, without where it leads.
#[derive(Clone, Copy, Debug, PartialEq, Eq, Structural)]
pub enum RequestRoute {
    Default,
    ModelOverride,
}

/// The body that every attempt of a call shares. It is no proof of delivery.
#[derive(Debug, PartialEq, Eq)]
pub enum RequestProvenance {
    /// Preparation did not finish.
    Unavailable,
    Prepared { transport: Transport, dialect: ResponseDialect, route: RequestRoute, body: String },
}

/// What the provenance of a request says.
#[verifier::ext_equal]
pub enum ProvenanceModel {
    Unavailable,
    Prepared {
        transport: Transport,
        dialect: ResponseDialect,
        route: RequestRoute,
        body: Seq<char>,
    },
}

impl View for RequestProvenance {
    type V = ProvenanceModel;

    open spec fn view(&self) -> ProvenanceModel {
        match self {
            RequestProvenance::Unavailable => ProvenanceModel::Unavailable,
            RequestProvenance::Prepared { transport, dialect, route, body } =>
                ProvenanceModel::Prepared {
                transport: *transport,
                dialect: *dialect,
                route: *route,
                body: body@,
            },
        }
    }
}

/// What a call came to.
#[derive(Debug, PartialEq, Eq)]
pub struct CallOutcome {
    pub request: RequestProvenance,
    pub response: Option<ProviderResponse>,
    pub failure: Option<Failure>,
    pub attempts: Vec<AttemptRecord>,
    pub partial_text: String,
    pub partial_items: Vec<Json>,
    pub response_id: Option<String>,
    pub cost_usd: Option<UsdCost>,
}

#[verifier::ext_equal]
pub struct OutcomeModel {
    pub request: ProvenanceModel,
    pub response: Option<ResponseModel>,
    pub failure: Option<Failure>,
    pub attempts: Seq<AttemptRecord>,
    pub partial_text: Seq<char>,
    pub partial_items: Seq<JsonModel>,
    pub response_id: Option<Seq<char>>,
    pub cost_usd: Option<UsdCost>,
}

impl View for CallOutcome {
    type V = OutcomeModel;

    open spec fn view(&self) -> OutcomeModel {
        OutcomeModel {
            request: self.request@,
            response: match self.response {
                Some(response) => Some(response@),
                None => None,
            },
            failure: self.failure,
            attempts: self.attempts@,
            partial_text: self.partial_text@,
            partial_items: models(self.partial_items),
            response_id: match self.response_id {
                Some(id) => Some(id@),
                None => None,
            },
            cost_usd: self.cost_usd,
        }
    }
}

/// Whether an attempt may have been billed without a record of how much.
pub open spec fn any_uncertain(attempts: Seq<AttemptRecord>) -> bool {
    exists|i: int| 0 <= i < attempts.len() && (#[trigger] attempts[i]).billing_uncertain
}

/// Whether no attempt reached the provider.
pub open spec fn none_dispatched(attempts: Seq<AttemptRecord>) -> bool {
    forall|i: int| 0 <= i < attempts.len() ==> !(#[trigger] attempts[i]).dispatched
}

/// Whether every attempt was rejected with a status, without a doubt about its billing.
pub open spec fn all_rejected(attempts: Seq<AttemptRecord>, status: u16) -> bool {
    forall|i: int|
        0 <= i < attempts.len() ==> (#[trigger] attempts[i]).status == AttemptStatus::Rejected
            && attempts[i].http_status == Some(status) && !attempts[i].billing_uncertain
}

impl OutcomeModel {
    /// Whether a call was rejected with a status before anything was generated.
    pub open spec fn clean_rejection(self, status: u16) -> bool {
        &&& self.failure matches Some(failure) && failure.http_status == Some(status)
        &&& self.response is None && self.response_id is None
        &&& self.partial_text.len() == 0 && self.partial_items.len() == 0
        &&& self.attempts.len() > 0 && all_rejected(self.attempts, status)
    }

    pub open spec fn rate_limited(self) -> bool {
        &&& self.clean_rejection(429)
        &&& self.failure matches Some(failure) && failure.kind == FailureKind::Rejected
            && failure.auth_error is None
    }

    pub open spec fn authentication_rejected(self) -> bool {
        &&& self.clean_rejection(401)
        &&& self.failure matches Some(failure) && (failure.kind == FailureKind::Authentication
            || failure.kind == FailureKind::Rejected) && failure.auth_error is None
    }

    pub open spec fn retryable(self) -> bool {
        self.rate_limited() || self.authentication_rejected()
    }

    /// The tokens that a call is known to have used.
    pub open spec fn accounted_tokens(self) -> Option<u64> {
        if self.retryable() {
            Some(0)
        } else if any_uncertain(self.attempts) {
            None
        } else {
            match self.response {
                Some(response) => match response.usage.total_tokens {
                    Some(tokens) => Some(tokens),
                    None => if none_dispatched(self.attempts) {
                        Some(0)
                    } else {
                        None
                    },
                },
                None => if none_dispatched(self.attempts) {
                    Some(0)
                } else {
                    None
                },
            }
        }
    }

    /// What a call is known to have cost.
    pub open spec fn accounted_cost(self) -> Option<UsdCost> {
        match self.cost_usd {
            Some(cost) => Some(cost),
            None => if self.retryable() || none_dispatched(self.attempts) {
                Some(UsdCost(0))
            } else {
                None
            },
        }
    }
}

fn is_none_dispatched(attempts: &Vec<AttemptRecord>) -> (r: bool)
    ensures
        r == none_dispatched(attempts@),
{
    let mut i: usize = 0;
    while i < attempts.len()
        invariant
            i <= attempts.len(),
            forall|k: int| 0 <= k < i ==> !(#[trigger] attempts@[k]).dispatched,
        decreases attempts.len() - i,
    {
        if attempts[i].dispatched {
            return false;
        }
        i += 1;
    }
    true
}

impl CallOutcome {
    pub fn billing_uncertain(&self) -> (r: bool)
        ensures
            r == any_uncertain(self@.attempts),
    {
        let mut i: usize = 0;
        while i < self.attempts.len()
            invariant
                i <= self.attempts.len(),
                forall|k: int|
                    0 <= k < i ==> !(#[trigger] self.attempts@[k]).billing_uncertain,
            decreases self.attempts.len() - i,
        {
            if self.attempts[i].billing_uncertain {
                return true;
            }
            i += 1;
        }
        false
    }

    fn clean_rejection(&self, status: u16) -> (r: bool)
        ensures
            r == self@.clean_rejection(status),
    {
        let failed = match &self.failure {
            Some(failure) => failure.http_status == Some(status),
            None => false,
        };
        proof {
            lemma_items(self.partial_items, self.partial_items@.len());
        }
        if !failed || self.response.is_some() || self.response_id.is_some() || byte_len(
            self.partial_text.as_str(),
        ) > 0 || self.partial_items.len() > 0 || self.attempts.len() == 0 {
            proof {
                if self.partial_text@.len() == 0 {
                    assert(encode_utf8(self.partial_text@).len() == 0);
                }
            }
            return false;
        }
        proof {
            if self.partial_text@.len() > 0 {
                assert(encode_utf8(self.partial_text@).len() > 0);
            }
        }
        let mut i: usize = 0;
        while i < self.attempts.len()
            invariant
                i <= self.attempts.len(),
                forall|k: int|
                    0 <= k < i ==> (#[trigger] self.attempts@[k]).status
                        == AttemptStatus::Rejected && self.attempts@[k].http_status == Some(status)
                        && !self.attempts@[k].billing_uncertain,
            decreases self.attempts.len() - i,
        {
            let attempt = self.attempts[i];
            if attempt.status != AttemptStatus::Rejected || attempt.http_status != Some(status)
                || attempt.billing_uncertain {
                assert(!all_rejected(self@.attempts, status)) by {
                    assert(self@.attempts[i as int] == attempt);
                }
                return false;
            }
            i += 1;
        }
        true
    }

    /// A rate-limit rejection can be admitted again without duplicating a billed
    /// generation.
    pub fn rate_limited(&self) -> (r: bool)
        ensures
            r == self@.rate_limited(),
    {
        let kind = match &self.failure {
            Some(failure) => failure.kind == FailureKind::Rejected && failure.auth_error.is_none(),
            None => false,
        };
        self.clean_rejection(429) && kind
    }

    /// A clean authentication rejection has no generated output or uncertain billing.
    pub fn authentication_rejected(&self) -> (r: bool)
        ensures
            r == self@.authentication_rejected(),
    {
        let kind = match &self.failure {
            Some(failure) => (failure.kind == FailureKind::Authentication || failure.kind
                == FailureKind::Rejected) && failure.auth_error.is_none(),
            None => false,
        };
        self.clean_rejection(401) && kind
    }

    pub fn retryable_pre_generation_rejection(&self) -> (r: bool)
        ensures
            r == self@.retryable(),
    {
        self.rate_limited() || self.authentication_rejected()
    }

    /// Usage, only where the record establishes an exact amount.
    pub fn accounted_tokens(&self) -> (r: Option<u64>)
        ensures
            r == self@.accounted_tokens(),
    {
        if self.retryable_pre_generation_rejection() {
            return Some(0);
        }
        if self.billing_uncertain() {
            return None;
        }
        match &self.response {
            Some(response) => match response.usage.total_tokens {
                Some(tokens) => return Some(tokens),
                None => {},
            },
            None => {},
        }
        if is_none_dispatched(&self.attempts) {
            Some(0)
        } else {
            None
        }
    }

    /// A reported or catalog cost, or zero only where no generation could have been billed.
    pub fn accounted_cost(&self) -> (r: Option<UsdCost>)
        ensures
            r == self@.accounted_cost(),
    {
        match self.cost_usd {
            Some(cost) => Some(cost),
            None => if self.retryable_pre_generation_rejection() || is_none_dispatched(
                &self.attempts,
            ) {
                Some(UsdCost(0))
            } else {
                None
            },
        }
    }
}

/// How an attempt failed.
#[derive(Clone, Copy, Debug, PartialEq, Eq, Structural)]
pub struct AttemptFailure {
    pub kind: FailureKind,
    pub status: Option<u16>,
    pub retry_after_ns: Option<u128>,
}

impl AttemptFailure {
    /// A failure without an answer of the provider.
    pub fn of_kind(kind: FailureKind) -> (r: Self)
        ensures
            r == (AttemptFailure { kind, status: None, retry_after_ns: None }),
    {
        AttemptFailure { kind, status: None, retry_after_ns: None }
    }
}

/// What to do after an attempt.
#[derive(Clone, Copy, Debug, PartialEq, Eq)]
pub enum NextStep {
    /// The call is over.
    Finish(Result<(), FailureKind>),
    /// Credentials have to be recovered.
    Recover,
    /// Another attempt is made after a delay.
    Retry { delay_ns: u128 },
}

/// A call in progress.
#[derive(Debug, PartialEq, Eq)]
pub struct CallState {
    pub request: RequestProvenance,
    pub attempts: Vec<AttemptRecord>,
    pub decoder: Decoder,
    pub auth_error: Option<AuthError>,
    pub response_cost_usd: Option<UsdCost>,
    pub recovered: bool,
}

#[verifier::ext_equal]
pub struct StateModel {
    pub request: ProvenanceModel,
    pub attempts: Seq<AttemptRecord>,
    pub decoder: DecoderModel,
    pub auth_error: Option<AuthError>,
    pub response_cost_usd: Option<UsdCost>,
    pub recovered: bool,
}

impl View for CallState {
    type V = StateModel;

    open spec fn view(&self) -> StateModel {
        StateModel {
            request: self.request@,
            attempts: self.attempts@,
            decoder: self.decoder@,
            auth_error: self.auth_error,
            response_cost_usd: self.response_cost_usd,
            recovered: self.recovered,
        }
    }
}

/// The dialect that an authentication mode speaks.
pub open spec fn dialect_of(mode: AuthMode) -> ResponseDialect {
    match mode {
        AuthMode::ChatGpt => ResponseDialect::ChatGpt,
        _ => ResponseDialect::OpenAi,
    }
}

/// A call that is about to begin.
pub open spec fn begun() -> StateModel {
    StateModel {
        request: ProvenanceModel::Unavailable,
        attempts: Seq::empty(),
        decoder: fresh(ResponseDialect::OpenAi),
        auth_error: None,
        response_cost_usd: None,
        recovered: false,
    }
}

/// A new record of an attempt.
pub open spec fn started_record(number: u32) -> AttemptRecord {
    AttemptRecord {
        number,
        status: AttemptStatus::Started,
        http_status: None,
        dispatched: false,
        billing_uncertain: false,
        elapsed_ms: 0,
    }
}

/// Whether a status is a rejection that is known not to be billed.
pub open spec fn unbilled_status(status: Option<u16>) -> bool {
    status matches Some(code) && 400 <= code <= 499 && code != 408
}

/// The record of an attempt that failed.
pub open spec fn failed_record(record: AttemptRecord, failure: AttemptFailure, elapsed_ms: u64) -> AttemptRecord {
    AttemptRecord {
        http_status: failure.status,
        status: if failure.status is Some {
            AttemptStatus::Rejected
        } else if failure.kind == FailureKind::Timeout {
            AttemptStatus::TimedOut
        } else {
            AttemptStatus::Failed
        },
        billing_uncertain: record.dispatched && !unbilled_status(failure.status),
        elapsed_ms,
        ..record
    }
}

/// Whether a decoded stream ended with complete usage.
pub open spec fn usage_recorded(decoder: DecoderModel) -> bool {
    decoder.terminal matches Some(response) && response.usage.input_tokens is Some
        && response.usage.output_tokens is Some && response.usage.total_tokens is Some
}

/// The record of an attempt that brought a response.
pub open spec fn received_record(record: AttemptRecord, decoder: DecoderModel, elapsed_ms: u64) -> AttemptRecord {
    AttemptRecord {
        status: AttemptStatus::ResponseReceived,
        billing_uncertain: !usage_recorded(decoder),
        elapsed_ms,
        ..record
    }
}

/// How long to wait before another attempt.
pub open spec fn retry_delay(failure: AttemptFailure, limits: Limits) -> u128 {
    let wanted = match failure.retry_after_ns {
        Some(delay) => delay,
        None => limits.retry_delay_ns,
    };
    if wanted <= limits.max_retry_delay_ns {
        wanted
    } else {
        limits.max_retry_delay_ns
    }
}

/// What follows an attempt. Only an explicit rejection before the stream is tried again: a
/// broken stream may already have generated and billed output.
pub open spec fn settled(
    state: StateModel,
    result: Result<(), AttemptFailure>,
    elapsed_ms: u64,
    limits: Limits,
) -> (StateModel, NextStep)
    recommends
        state.attempts.len() > 0,
{
    let last = state.attempts.len() - 1;
    match result {
        Ok(()) => (
            StateModel {
                attempts: state.attempts.update(
                    last,
                    received_record(state.attempts[last], state.decoder, elapsed_ms),
                ),
                ..state
            },
            NextStep::Finish(Ok(())),
        ),
        Err(failure) => {
            let record = failed_record(state.attempts[last], failure, elapsed_ms);
            let next = StateModel { attempts: state.attempts.update(last, record), ..state };
            if failure.status == Some(401u16) && !state.recovered {
                (next, NextStep::Recover)
            } else if record.number == limits.max_attempts || record.billing_uncertain
                || failure.status != Some(429u16) || state.decoder.observed {
                (next, NextStep::Finish(Err(failure.kind)))
            } else {
                (next, NextStep::Retry { delay_ns: retry_delay(failure, limits) })
            }
        },
    }
}

/// What follows the recovery of credentials. One attempt more is made if one is left;
/// otherwise the caller may admit the call again.
pub open spec fn recovered_step(
    state: StateModel,
    result: Result<(), AuthError>,
    limits: Limits,
) -> (StateModel, NextStep)
    recommends
        state.attempts.len() > 0,
{
    match result {
        Err(error) => (
            StateModel { auth_error: Some(error), ..state },
            NextStep::Finish(Err(FailureKind::Authentication)),
        ),
        Ok(()) => (
            StateModel { recovered: true, ..state },
            if state.attempts.last().number < limits.max_attempts {
                NextStep::Retry { delay_ns: 0 }
            } else {
                NextStep::Finish(Err(FailureKind::Authentication))
            },
        ),
    }
}

/// The record of an attempt that was given up while it ran.
pub open spec fn abandoned_record(record: AttemptRecord, kind: FailureKind, elapsed_ms: u64) -> AttemptRecord {
    if record.status == AttemptStatus::Started {
        AttemptRecord {
            status: match kind {
                FailureKind::Cancelled => AttemptStatus::Cancelled,
                FailureKind::Timeout => AttemptStatus::TimedOut,
                _ => AttemptStatus::Failed,
            },
            billing_uncertain: record.dispatched,
            elapsed_ms,
            ..record
        }
    } else {
        record
    }
}

/// What a call cost: what the provider reports, unless it contradicts itself, or else the
/// catalog price of the usage.
pub open spec fn call_cost(state: StateModel, model: Model) -> Option<UsdCost> {
    match (state.response_cost_usd, state.decoder.terminal) {
        (Some(header), Some(response)) => match response.usage.cost_usd {
            Some(terminal) => if header != terminal {
                None
            } else {
                Some(header)
            },
            None => Some(header),
        },
        (Some(header), None) => Some(header),
        (None, Some(response)) => match response.usage.cost_usd {
            Some(terminal) => Some(terminal),
            None => match catalog_price(model, response.usage) {
                Some(price) => Some(UsdCost(price as u128)),
                None => None,
            },
        },
        (None, None) => None,
    }
}

/// What a call that is over comes to.
pub open spec fn finished(
    state: StateModel,
    result: Result<(), FailureKind>,
    elapsed_ms: u64,
    model: Model,
) -> OutcomeModel {
    let attempts = match result {
        Err(kind) => if state.attempts.len() > 0 {
            state.attempts.update(
                state.attempts.len() - 1,
                abandoned_record(state.attempts.last(), kind, elapsed_ms),
            )
        } else {
            state.attempts
        },
        Ok(()) => state.attempts,
    };
    let cost = call_cost(state, model);
    OutcomeModel {
        request: state.request,
        response: match state.decoder.terminal {
            Some(response) => Some(
                ResponseModel {
                    usage: Usage { cost_usd: cost, ..response.usage },
                    ..response
                },
            ),
            None => None,
        },
        failure: match result {
            Err(kind) => Some(
                Failure {
                    kind,
                    http_status: if attempts.len() > 0 {
                        attempts.last().http_status
                    } else {
                        None
                    },
                    auth_error: state.auth_error,
                },
            ),
            Ok(()) => None,
        },
        attempts,
        partial_text: state.decoder.text,
        partial_items: item_values(state.decoder.items),
        response_id: state.decoder.response_id,
        cost_usd: cost,
    }
}

fn is_unbilled(status: Option<u16>) -> (r: bool)
    ensures
        r == unbilled_status(status),
{
    match status {
        Some(code) => 400 <= code && code <= 499 && code != 408,
        None => false,
    }
}

impl CallState {
    pub fn new() -> (r: Self)
        ensures
            r@ == begun(),
    {
        let state = CallState {
            request: RequestProvenance::Unavailable,
            attempts: Vec::new(),
            decoder: Decoder::new(ResponseDialect::OpenAi),
            auth_error: None,
            response_cost_usd: None,
            recovered: false,
        };
        assert(state@ =~= begun());
        state
    }

    /// Prepares the body that every attempt shares, if it is not larger than allowed.
    pub fn prepare(
        &mut self,
        request: &InferenceRequest,
        transport: Transport,
        mode: AuthMode,
        overridden: bool,
        max_request_bytes: usize,
    ) -> (r: Result<String, FailureKind>)
        ensures
            ({
                let dialect = if dialect_of(mode) == ResponseDialect::ChatGpt {
                    ResponseDialect::ChatGpt
                } else {
                    old(self)@.decoder.dialect
                };
                let body = notation(wire_of(request@, transport, dialect_of(mode)));
                let decoder = DecoderModel { dialect, ..old(self)@.decoder };
                match r {
                    Ok(text) => encode_utf8(body).len() <= max_request_bytes && text@ == body
                        && final(self)@ == (StateModel {
                        decoder,
                        request: ProvenanceModel::Prepared {
                            transport,
                            dialect,
                            route: if overridden {
                                RequestRoute::ModelOverride
                            } else {
                                RequestRoute::Default
                            },
                            body,
                        },
                        ..old(self)@
                    }),
                    Err(error) => encode_utf8(body).len() > max_request_bytes && error
                        == FailureKind::SizeLimit && final(self)@ == (StateModel {
                        decoder,
                        ..old(self)@
                    }),
                }
            }),
    {
        let dialect = match mode {
            AuthMode::ChatGpt => ResponseDialect::ChatGpt,
            _ => ResponseDialect::OpenAi,
        };
        if dialect == ResponseDialect::ChatGpt {
            self.decoder.dialect = ResponseDialect::ChatGpt;
        }
        let wire = request.wire_for(transport, dialect);
        let body = wire.to_text();
        if byte_len(body.as_str()) > max_request_bytes {
            return Err(FailureKind::SizeLimit);
        }
        self.request = RequestProvenance::Prepared {
            transport,
            dialect: self.decoder.dialect,
            route: if overridden {
                RequestRoute::ModelOverride
            } else {
                RequestRoute::Default
            },
            body: body.clone(),
        };
        Ok(body)
    }

    /// Forgets the cost that an attempt before reported. It comes before the credentials of the
    /// next attempt are asked for, so that a call that ends there reports none.
    pub fn next_attempt(&mut self)
        ensures
            final(self)@ == (StateModel { response_cost_usd: None, ..old(self)@ }),
    {
        self.response_cost_usd = None;
    }

    /// Records that an attempt begins.
    pub fn begin_attempt(&mut self, number: u32)
        ensures
            final(self)@ == (StateModel {
                attempts: old(self)@.attempts.push(started_record(number)),
                ..old(self)@
            }),
    {
        self.attempts.push(
            AttemptRecord {
                number,
                status: AttemptStatus::Started,
                http_status: None,
                dispatched: false,
                billing_uncertain: false,
                elapsed_ms: 0,
            },
        );
    }

    /// Records that the request could have reached the provider.
    pub fn dispatched(&mut self)
        requires
            old(self).attempts@.len() > 0,
        ensures
            ({
                let last = old(self)@.attempts.len() - 1;
                final(self)@ == (StateModel {
                    attempts: old(self)@.attempts.update(
                        last,
                        AttemptRecord { dispatched: true, ..old(self)@.attempts[last] },
                    ),
                    ..old(self)@
                })
            }),
    {
        let last = self.attempts.len() - 1;
        let mut record = self.attempts[last];
        record.dispatched = true;
        self.attempts.set(last, record);
    }

    /// Records that credentials were not to be had.
    pub fn auth_failed(&mut self, error: AuthError) -> (r: NextStep)
        ensures
            final(self)@ == (StateModel { auth_error: Some(error), ..old(self)@ }),
            r == NextStep::Finish(Err(FailureKind::Authentication)),
    {
        self.auth_error = Some(error);
        NextStep::Finish(Err(FailureKind::Authentication))
    }

    /// Records how an attempt ended, and says what to do next.
    pub fn settle(&mut self, result: Result<(), AttemptFailure>, elapsed_ms: u64, limits: &Limits) -> (r:
        NextStep)
        requires
            old(self).attempts@.len() > 0,
        ensures
            (final(self)@, r) == settled(old(self)@, result, elapsed_ms, *limits),
    {
        let last = self.attempts.len() - 1;
        let mut record = self.attempts[last];
        record.elapsed_ms = elapsed_ms;
        match result {
            Ok(()) => {
                record.status = AttemptStatus::ResponseReceived;
                record.billing_uncertain = match &self.decoder.terminal {
                    Some(response) => !response.usage.recorded(),
                    None => true,
                };
                self.attempts.set(last, record);
                NextStep::Finish(Ok(()))
            },
            Err(failure) => {
                record.http_status = failure.status;
                record.status = if failure.status.is_some() {
                    AttemptStatus::Rejected
                } else if failure.kind == FailureKind::Timeout {
                    AttemptStatus::TimedOut
                } else {
                    AttemptStatus::Failed
                };
                record.billing_uncertain = record.dispatched && !is_unbilled(failure.status);
                self.attempts.set(last, record);
                if failure.status == Some(401u16) && !self.recovered {
                    return NextStep::Recover;
                }
                if record.number == limits.max_attempts || record.billing_uncertain
                    || failure.status != Some(429u16) || self.decoder.observed {
                    return NextStep::Finish(Err(failure.kind));
                }
                let wanted = match failure.retry_after_ns {
                    Some(delay) => delay,
                    None => limits.retry_delay_ns,
                };
                let delay_ns = if wanted <= limits.max_retry_delay_ns {
                    wanted
                } else {
                    limits.max_retry_delay_ns
                };
                NextStep::Retry { delay_ns }
            },
        }
    }

    /// Records whether credentials were recovered, and says what to do next.
    pub fn settle_recovery(&mut self, result: Result<(), AuthError>, limits: &Limits) -> (r:
        NextStep)
        requires
            old(self).attempts@.len() > 0,
        ensures
            (final(self)@, r) == recovered_step(old(self)@, result, *limits),
    {
        match result {
            Err(error) => {
                self.auth_error = Some(error);
                NextStep::Finish(Err(FailureKind::Authentication))
            },
            Ok(()) => {
                self.recovered = true;
                if self.attempts[self.attempts.len() - 1].number < limits.max_attempts {
                    NextStep::Retry { delay_ns: 0 }
                } else {
                    NextStep::Finish(Err(FailureKind::Authentication))
                }
            },
        }
    }

    fn cost(&self, model: Model) -> (r: Option<UsdCost>)
        ensures
            r == call_cost(self@, model),
    {
        match (self.response_cost_usd, &self.decoder.terminal) {
            (Some(header), Some(response)) => match response.usage.cost_usd {
                Some(terminal) => if header != terminal {
                    None
                } else {
                    Some(header)
                },
                None => Some(header),
            },
            (Some(header), None) => Some(header),
            (None, Some(response)) => match response.usage.cost_usd {
                Some(terminal) => Some(terminal),
                None => model.catalog_cost(&response.usage),
            },
            (None, None) => None,
        }
    }

    /// Ends the call.
    pub fn finish(self, result: Result<(), FailureKind>, elapsed_ms: u64, model: Model) -> (r:
        CallOutcome)
        ensures
            r@ == finished(self@, result, elapsed_ms, model),
    {
        let cost = self.cost(model);
        let ghost before = self@;
        let mut attempts = self.attempts;
        let failure = match result {
            Ok(()) => None,
            Err(kind) => {
                let mut http_status: Option<u16> = None;
                if attempts.len() > 0 {
                    let last = attempts.len() - 1;
                    let mut record = attempts[last];
                    if record.status == AttemptStatus::Started {
                        record.status = match kind {
                            FailureKind::Cancelled => AttemptStatus::Cancelled,
                            FailureKind::Timeout => AttemptStatus::TimedOut,
                            _ => AttemptStatus::Failed,
                        };
                        record.billing_uncertain = record.dispatched;
                        record.elapsed_ms = elapsed_ms;
                    }
                    attempts.set(last, record);
                    http_status = record.http_status;
                }
                Some(Failure { kind, http_status, auth_error: self.auth_error })
            },
        };
        let decoder = self.decoder;
        let partial_items = values_of(&decoder);
        let response = match decoder.terminal {
            Some(response) => {
                let mut response = response;
                response.usage.cost_usd = cost;
                Some(response)
            },
            None => None,
        };
        let outcome = CallOutcome {
            request: self.request,
            response,
            failure,
            attempts,
            partial_text: decoder.text,
            partial_items,
            response_id: decoder.response_id,
            cost_usd: cost,
        };
        assert(outcome@ =~= finished(before, result, elapsed_ms, model));
        outcome
    }
}

fn values_of(decoder: &Decoder) -> (r: Vec<Json>)
    ensures
        models(r) == item_values(decoder@.items),
{
    let ghost all = item_values(decoder@.items);
    let mut values: Vec<Json> = Vec::new();
    let mut i: usize = 0;
    assert(models(values) =~= all.subrange(0, 0));
    while i < decoder.items.len()
        invariant
            i <= decoder.items.len(),
            all == item_values(decoder@.items),
            models(values) == all.subrange(0, i as int),
        decreases decoder.items.len() - i,
    {
        add_item(&mut values, decoder.items[i].item.copy());
        assert(all[i as int] == decoder.items@[i as int].item@);
        i += 1;
        assert(models(values) =~= all.subrange(0, i as int));
    }
    assert(models(values) =~= all);
    values
}

/// The first part of a text up to a semicolon.
pub open spec fn before_semicolon(text: Seq<char>, n: int) -> Seq<char>
    decreases text.len() - n,
{
    if 0 <= n < text.len() && text[n] != ';' {
        before_semicolon(text, n + 1)
    } else {
        text.subrange(0, n)
    }
}

/// Whether a content type announces an event stream.
pub open spec fn announces_events(content_type: Seq<char>) -> bool {
    lowered(trimmed(before_semicolon(content_type, 0))) == "text/event-stream"@
}

/// Whether an answer is an event stream. A missing content type is one in the ChatGPT
/// dialect; one that is no text is none.
pub fn is_event_stream(content_type: Option<Option<&str>>, dialect: ResponseDialect) -> (r: bool)
    ensures
        r == match content_type {
            None => dialect == ResponseDialect::ChatGpt,
            Some(None) => false,
            Some(Some(value)) => announces_events(value@),
        },
{
    match content_type {
        None => dialect == ResponseDialect::ChatGpt,
        Some(None) => false,
        Some(Some(value)) => {
            let chars = chars_of(value);
            let mut n: usize = 0;
            while n < chars.len()
                invariant_except_break
                    n <= chars.len(),
                    chars@ == value@,
                    before_semicolon(value@, 0) == before_semicolon(value@, n as int),
                ensures
                    n <= chars.len(),
                    chars@ == value@,
                    before_semicolon(value@, 0) == value@.subrange(0, n as int),
                decreases chars.len() - n,
            {
                if chars[n] == ';' {
                    break;
                }
                n += 1;
            }
            let mime = chars_between(&chars, 0, n);
            let shown = trim_chars(&mime);
            let low = lower_chars(&shown);
            let wanted = chars_of("text/event-stream");
            same_chars(&low, &wanted)
        },
    }
}

fn same_chars(a: &Vec<char>, b: &Vec<char>) -> (r: bool)
    ensures
        r == (a@ == b@),
{
    if a.len() != b.len() {
        return false;
    }
    let mut i: usize = 0;
    while i < a.len()
        invariant
            i <= a.len(),
            a.len() == b.len(),
            forall|k: int| 0 <= k < i ==> a@[k] == b@[k],
        decreases a.len() - i,
    {
        if a[i] != b[i] {
            return false;
        }
        i += 1;
    }
    assert(a@ =~= b@);
    true
}

/// The seconds that a `retry-after` header asks for.
pub open spec fn seconds_value(text: Seq<char>) -> Option<int> {
    let digits = if text.len() > 0 && text[0] == '+' {
        text.drop_first()
    } else {
        text
    };
    if digits.len() == 0 || !all_digits(digits) || digits_value(digits) > u64::MAX {
        None
    } else {
        Some(digits_value(digits))
    }
}

/// The delay that a `retry-after` header asks for, in nanoseconds.
pub fn retry_after_ns(value: &str) -> (r: Option<u128>)
    ensures
        match (r, seconds_value(value@)) {
            (Some(delay), Some(seconds)) => delay == seconds * 1_000_000_000,
            (None, None) => true,
            _ => false,
        },
{
    let chars = chars_of(value);
    let start: usize = if chars.len() > 0 && chars[0] == '+' {
        1
    } else {
        0
    };
    let digits = chars_between(&chars, start, chars.len());
    let ghost wanted = if value@.len() > 0 && value@[0] == '+' {
        value@.drop_first()
    } else {
        value@
    };
    assert(digits@ =~= wanted);
    if digits.len() == 0 {
        return None;
    }
    let mut n: u64 = 0;
    let mut i: usize = 0;
    assert(digits_value(digits@.subrange(0, 0)) == 0);
    while i < digits.len()
        invariant
            i <= digits.len(),
            digits.len() > 0,
            digits@ == wanted,
            wanted == if value@.len() > 0 && value@[0] == '+' {
                value@.drop_first()
            } else {
                value@
            },
            forall|k: int| 0 <= k < i ==> is_digit(#[trigger] digits@[k]),
            n == digits_value(digits@.subrange(0, i as int)),
        decreases digits.len() - i,
    {
        let c = digits[i];
        if c < '0' || c > '9' {
            assert(!is_digit(digits@[i as int]));
            return None;
        }
        let ghost upto = digits@.subrange(0, i + 1);
        assert(upto.drop_last() =~= digits@.subrange(0, i as int));
        assert(upto.last() == c);
        let d: u64 = (c as u32 - '0' as u32) as u64;
        assert(digits_value(upto) == n * 10 + d);
        if n > (u64::MAX - d) / 10 {
            proof {
                if all_digits(digits@) {
                    lemma_digits_grow(digits@, i + 1);
                }
            }
            return None;
        }
        n = n * 10 + d;
        i += 1;
    }
    assert(digits@.subrange(0, digits.len() as int) =~= digits@);
    Some(n as u128 * 1_000_000_000)
}

/// What a socket brings.
#[derive(Clone, Copy, Debug, PartialEq, Eq, Structural)]
pub enum SocketMessage {
    Text,
    Ping,
    Pong,
    Close,
    Other,
}

/// What to do with a message of a socket.
#[derive(Clone, Copy, Debug, PartialEq, Eq, Structural)]
pub enum SocketStep {
    Decode,
    Flush,
    Skip,
    Fail(FailureKind),
}

/// Refuses the answer to a count by its status, or by a length that exceeds a limit.
pub fn check_count_reply(status: u16, length: Option<u64>, limit: usize) -> (r: Result<
    (),
    FailureKind,
>)
    ensures
        r == if status == 401 {
            Err::<(), FailureKind>(FailureKind::Authentication)
        } else if !(200 <= status < 300) {
            Err(FailureKind::Rejected)
        } else if length matches Some(length) && length > limit {
            Err(FailureKind::SizeLimit)
        } else {
            Ok(())
        },
{
    if status == 401 {
        return Err(FailureKind::Authentication);
    }
    if status < 200 || status >= 300 {
        return Err(FailureKind::Rejected);
    }
    match length {
        Some(length) => if length > limit as u64 {
            Err(FailureKind::SizeLimit)
        } else {
            Ok(())
        },
        None => Ok(()),
    }
}

/// What the next piece of a response does to the bytes received: they may not exceed a
/// limit.
pub fn count_bytes(total: usize, more: usize, limit: usize) -> (r: Result<usize, FailureKind>)
    ensures
        r == if total + more <= limit {
            Ok::<usize, FailureKind>((total + more) as usize)
        } else {
            Err(FailureKind::SizeLimit)
        },
{
    match total.checked_add(more) {
        Some(sum) => {
            if sum > limit {
                Err(FailureKind::SizeLimit)
            } else {
                Ok(sum)
            }
        },
        None => Err(FailureKind::SizeLimit),
    }
}

/// What to do with a message of a socket: a text is decoded, a ping is answered, and the
/// end of the socket before that of the response is an interruption.
pub fn socket_step(message: SocketMessage) -> (r: SocketStep)
    ensures
        r == match message {
            SocketMessage::Text => SocketStep::Decode,
            SocketMessage::Ping => SocketStep::Flush,
            SocketMessage::Pong => SocketStep::Skip,
            SocketMessage::Close => SocketStep::Fail(FailureKind::Interrupted),
            SocketMessage::Other => SocketStep::Fail(FailureKind::MalformedResponse),
        },
{
    match message {
        SocketMessage::Text => SocketStep::Decode,
        SocketMessage::Ping => SocketStep::Flush,
        SocketMessage::Pong => SocketStep::Skip,
        SocketMessage::Close => SocketStep::Fail(FailureKind::Interrupted),
        SocketMessage::Other => SocketStep::Fail(FailureKind::MalformedResponse),
    }
}

/// A doubt about billing is never normalized to zero spend: neither tokens nor, without a
/// reported cost, an amount are accounted.
pub proof fn law_uncertain_billing_is_not_zero(outcome: OutcomeModel)
    requires
        any_uncertain(outcome.attempts),
    ensures
        outcome.accounted_tokens() is None,
        outcome.cost_usd is None && !none_dispatched(outcome.attempts)
            ==> outcome.accounted_cost() is None,
{
    let i = choose|i: int|
        0 <= i < outcome.attempts.len() && (#[trigger] outcome.attempts[i]).billing_uncertain;
    assert(!outcome.clean_rejection(429) && !outcome.clean_rejection(401)) by {
        assert(outcome.attempts[i].billing_uncertain);
    }
}

/// An attempt is repeated only after a rejection that brought no output and is known not to
/// be billed, and never beyond the limit.
pub proof fn law_only_clean_rejections_are_retried(
    state: StateModel,
    result: Result<(), AttemptFailure>,
    elapsed_ms: u64,
    limits: Limits,
)
    requires
        state.attempts.len() > 0,
        settled(state, result, elapsed_ms, limits).1 is Retry,
    ensures
        result matches Err(failure) && failure.status == Some(429u16),
        !state.decoder.observed,
        !settled(state, result, elapsed_ms, limits).0.attempts.last().billing_uncertain,
        state.attempts.last().number != limits.max_attempts,
        settled(state, result, elapsed_ms, limits).1->delay_ns <= limits.max_retry_delay_ns,
{
}

/// Credentials are recovered at most once in a call.
pub proof fn law_credentials_are_recovered_once(
    state: StateModel,
    result: Result<(), AttemptFailure>,
    elapsed_ms: u64,
    limits: Limits,
)
    requires
        state.recovered,
    ensures
        !(settled(state, result, elapsed_ms, limits).1 is Recover),
{
}

} // verus!
