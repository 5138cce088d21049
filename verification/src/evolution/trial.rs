//! Paired trials of a candidate against its parent.
use crate::canonical::{
    json_string, push_digest, push_json_string, push_quoted, push_uuid, quoted,
};
use crate::contract::{same_limits, Limits};
use crate::digest::{digest_of_text, Digest};
use crate::evolution::campaign::types::{EffectId, LeaseEpoch};
use crate::evolution::ids::{
    CampaignId, CandidateId, CaseIdentity, EnvironmentIdentity, EvaluatorIdentity,
    IndependentBlockId, InputCommitment, IsolatedRunReceiptId, IsolationInstanceId, ModelIdentity,
    PairedTrialReceiptId, PartitionCommitment, ProtocolIdentity, TrialKeyId, TrialPairId,
};
use crate::first::{either, refused};
use crate::text::{
    blank, byte_len, controlled, decimal, has_control, is_blank, push_decimal,
};
use crate::text_map::{has_key, key_at, keys_ascend, value_of, Entry, TextMap};
use vstd::prelude::*;
use vstd::utf8::encode_utf8;

verus! {

pub const MAX_METRIC_NAME_BYTES: usize = 128;

pub const MAX_PARTITION_EPOCH: u64 = 0x7fff_ffff_ffff_ffff;

pub const SCORE_SCALE: u32 = 1_000_000;

/// Why trial data is not acceptable.
#[derive(Clone, Copy, Debug, PartialEq, Eq, Structural)]
pub enum TrialError {
    InvalidPartitionEpoch,
    InvalidLimits,
    InvalidMetricName,
    InvalidMetricScore,
    TamperedPairIdentity,
    TamperedTrialKey,
    TamperedRunReceipt,
    TamperedPairedReceipt,
    FencedAttemptMustBeUnknown,
    NonBehavioralPair,
}

/// The ledger that pays for a trial.
#[derive(Clone, Copy, Debug, PartialEq, Eq, PartialOrd, Ord, Hash, Structural)]
pub enum TrialLedgerRole {
    AdaptivePromotion,
    FinalAudit,
}

impl TrialLedgerRole {
    pub open spec fn spec_name(self) -> Seq<char> {
        match self {
            TrialLedgerRole::AdaptivePromotion => "adaptive_promotion"@,
            TrialLedgerRole::FinalAudit => "final_audit"@,
        }
    }

    pub fn name(self) -> (r: &'static str)
        ensures
            r@ == self.spec_name(),
    {
        match self {
            TrialLedgerRole::AdaptivePromotion => "adaptive_promotion",
            TrialLedgerRole::FinalAudit => "final_audit",
        }
    }
}

/// A side of a pair of trials.
#[derive(Clone, Copy, Debug, PartialEq, Eq, PartialOrd, Ord, Hash, Structural)]
pub enum TrialSide {
    Parent,
    Candidate,
}

impl TrialSide {
    pub open spec fn spec_name(self) -> Seq<char> {
        match self {
            TrialSide::Parent => "parent"@,
            TrialSide::Candidate => "candidate"@,
        }
    }

    pub fn name(self) -> (r: &'static str)
        ensures
            r@ == self.spec_name(),
    {
        match self {
            TrialSide::Parent => "parent",
            TrialSide::Candidate => "candidate",
        }
    }
}

/// The part of the data that a trial draws on.
#[derive(Clone, Copy, Debug, PartialEq, Eq, Structural)]
pub struct TrialPartition {
    pub role: TrialLedgerRole,
    pub epoch: u64,
    pub commitment: PartitionCommitment,
}

impl TrialPartition {
    pub open spec fn problem(self) -> Option<TrialError> {
        if self.epoch == 0 || self.epoch > MAX_PARTITION_EPOCH {
            Some(TrialError::InvalidPartitionEpoch)
        } else {
            None
        }
    }

    pub fn new(role: TrialLedgerRole, epoch: u64, commitment: PartitionCommitment) -> (r: Result<
        Self,
        TrialError,
    >)
        ensures
            ({
                let partition = TrialPartition { role, epoch, commitment };
                r == match partition.problem() {
                    Some(error) => Err::<TrialPartition, TrialError>(error),
                    None => Ok(partition),
                }
            }),
    {
        if epoch == 0 || epoch > MAX_PARTITION_EPOCH {
            return Err(TrialError::InvalidPartitionEpoch);
        }
        Ok(TrialPartition { role, epoch, commitment })
    }

    fn validate(self) -> (r: Result<(), TrialError>)
        ensures
            r == refused(self.problem()),
    {
        match TrialPartition::new(self.role, self.epoch, self.commitment) {
            Ok(_) => Ok(()),
            Err(error) => Err(error),
        }
    }
}

impl TrialPartition {
    pub fn role(&self) -> (r: TrialLedgerRole)
        ensures
            r == self.role,
    {
        self.role
    }

    pub fn epoch(&self) -> (r: u64)
        ensures
            r == self.epoch,
    {
        self.epoch
    }

    pub fn commitment(&self) -> (r: PartitionCommitment)
        ensures
            r == self.commitment,
    {
        self.commitment
    }
}

/// What a trial runs on.
#[derive(Clone, Copy, Debug, PartialEq, Eq, Structural)]
pub struct TrialRuntimeIdentity {
    pub model: ModelIdentity,
    pub protocol: ProtocolIdentity,
    pub evaluator: EvaluatorIdentity,
    pub environment: EnvironmentIdentity,
}

impl TrialRuntimeIdentity {
    pub fn new(
        model: ModelIdentity,
        protocol: ProtocolIdentity,
        evaluator: EvaluatorIdentity,
        environment: EnvironmentIdentity,
    ) -> (r: Self)
        ensures
            r == (TrialRuntimeIdentity { model, protocol, evaluator, environment }),
    {
        TrialRuntimeIdentity { model, protocol, evaluator, environment }
    }
}

impl TrialRuntimeIdentity {
    pub fn model(&self) -> (r: ModelIdentity)
        ensures
            r == self.model,
    {
        self.model
    }

    pub fn protocol(&self) -> (r: ProtocolIdentity)
        ensures
            r == self.protocol,
    {
        self.protocol
    }

    pub fn evaluator(&self) -> (r: EvaluatorIdentity)
        ensures
            r == self.evaluator,
    {
        self.evaluator
    }

    pub fn environment(&self) -> (r: EnvironmentIdentity)
        ensures
            r == self.environment,
    {
        self.environment
    }
}

/// Where a trial belongs.
#[derive(Debug, PartialEq, Eq)]
pub struct TrialContext {
    pub campaign: CampaignId,
    pub candidate: CandidateId,
    pub partition: TrialPartition,
    pub runtime: TrialRuntimeIdentity,
    pub limits: Limits,
}

/// Whether two contexts say the same.
pub open spec fn same_context(a: TrialContext, b: TrialContext) -> bool {
    a.campaign == b.campaign && a.candidate == b.candidate && a.partition == b.partition && a.runtime
        == b.runtime && same_limits(a.limits, b.limits)
}

impl TrialContext {
    pub open spec fn problem(self) -> Option<TrialError> {
        either(
            self.partition.problem(),
            if self.limits.positive {
                None
            } else {
                Some(TrialError::InvalidLimits)
            },
        )
    }

    pub fn new(
        campaign: CampaignId,
        candidate: CandidateId,
        partition: TrialPartition,
        runtime: TrialRuntimeIdentity,
        limits: Limits,
    ) -> (r: Result<Self, TrialError>)
        ensures
            ({
                let context = TrialContext { campaign, candidate, partition, runtime, limits };
                r == match context.problem() {
                    Some(error) => Err::<TrialContext, TrialError>(error),
                    None => Ok(context),
                }
            }),
    {
        match partition.validate() {
            Err(error) => return Err(error),
            Ok(()) => {},
        }
        if !limits.positive {
            return Err(TrialError::InvalidLimits);
        }
        Ok(TrialContext { campaign, candidate, partition, runtime, limits })
    }

    fn validate(&self) -> (r: Result<(), TrialError>)
        ensures
            r == refused(self.problem()),
    {
        match self.partition.validate() {
            Err(error) => return Err(error),
            Ok(()) => {},
        }
        if !self.limits.positive {
            return Err(TrialError::InvalidLimits);
        }
        Ok(())
    }

    fn same(&self, other: &TrialContext) -> (r: bool)
        ensures
            r == same_context(*self, *other),
    {
        self.campaign == other.campaign && self.candidate == other.candidate && self.partition
            == other.partition && self.runtime == other.runtime && self.limits.same(&other.limits)
    }
}

impl Clone for TrialContext {
    fn clone(&self) -> (r: Self)
        ensures
            r == *self,
    {
        TrialContext {
            campaign: self.campaign,
            candidate: self.candidate,
            partition: self.partition,
            runtime: self.runtime,
            limits: self.limits.clone(),
        }
    }
}

impl TrialContext {
    pub fn campaign(&self) -> (r: CampaignId)
        ensures
            r == self.campaign,
    {
        self.campaign
    }

    pub fn candidate(&self) -> (r: CandidateId)
        ensures
            r == self.candidate,
    {
        self.candidate
    }

    pub fn partition(&self) -> (r: TrialPartition)
        ensures
            r == self.partition,
    {
        self.partition
    }

    pub fn runtime(&self) -> (r: TrialRuntimeIdentity)
        ensures
            r == self.runtime,
    {
        self.runtime
    }

    pub fn limits(&self) -> (r: &Limits)
        ensures
            *r == self.limits,
    {
        &self.limits
    }
}

/// The canonical JSON of a partition.
pub open spec fn partition_json(v: TrialPartition) -> Seq<char> {
    "{\"role\":"@ + quoted(v.role.spec_name()) + ",\"epoch\":"@ + decimal(v.epoch as nat) + ",\"commitment\":"@ + quoted(v.commitment.0.text()) + "}"@
}

pub(crate) fn partition_text(v: &TrialPartition) -> (r: String)
    ensures
        r@ == partition_json(*v),
{
    let mut json = "{\"role\":".to_owned();
    push_quoted(&mut json, v.role.name());
    json.push_str(",\"epoch\":");
    push_decimal(&mut json, v.epoch as u64);
    json.push_str(",\"commitment\":");
    push_digest(&mut json, &v.commitment.0);
    json.push_str("}");
    json
}

/// The canonical JSON of a runtime.
pub open spec fn runtime_json(v: TrialRuntimeIdentity) -> Seq<char> {
    "{\"model\":"@ + quoted(v.model.0.text()) + ",\"protocol\":"@ + quoted(v.protocol.0.text()) + ",\"evaluator\":"@ + quoted(v.evaluator.0.text()) + ",\"environment\":"@ + quoted(v.environment.0.text()) + "}"@
}

fn runtime_text(v: &TrialRuntimeIdentity) -> (r: String)
    ensures
        r@ == runtime_json(*v),
{
    let mut json = "{\"model\":".to_owned();
    push_digest(&mut json, &v.model.0);
    json.push_str(",\"protocol\":");
    push_digest(&mut json, &v.protocol.0);
    json.push_str(",\"evaluator\":");
    push_digest(&mut json, &v.evaluator.0);
    json.push_str(",\"environment\":");
    push_digest(&mut json, &v.environment.0);
    json.push_str("}");
    json
}

/// The canonical JSON of a context.
pub open spec fn context_json(v: TrialContext) -> Seq<char> {
    "{\"campaign\":"@ + quoted(v.campaign.0.text()) + ",\"candidate\":"@ + quoted(v.candidate.0.text()) + ",\"partition\":"@ + partition_json(v.partition) + ",\"runtime\":"@ + runtime_json(v.runtime) + ",\"limits\":"@ + v.limits.canonical@ + "}"@
}

fn context_text(v: &TrialContext) -> (r: String)
    ensures
        r@ == context_json(*v),
{
    let mut json = "{\"campaign\":".to_owned();
    push_uuid(&mut json, &v.campaign.0);
    json.push_str(",\"candidate\":");
    push_digest(&mut json, &v.candidate.0);
    json.push_str(",\"partition\":");
    json.push_str(partition_text(&v.partition).as_str());
    json.push_str(",\"runtime\":");
    json.push_str(runtime_text(&v.runtime).as_str());
    json.push_str(",\"limits\":");
    json.push_str(v.limits.canonical.as_str());
    json.push_str("}");
    json
}

/// A pair of trials, frozen before it runs.
#[derive(Debug, PartialEq, Eq)]
pub struct TrialPairSpec {
    pub id: TrialPairId,
    pub context: TrialContext,
    pub block: IndependentBlockId,
    pub case: CaseIdentity,
    pub repeat: u32,
    pub input: InputCommitment,
}

/// The canonical JSON of what identifies a pair.
pub open spec fn pair_identity_json(v: TrialPairSpec) -> Seq<char> {
    "[\"orvek:trial-pair:v1\","@ + context_json(v.context) + ","@ + quoted(v.block.0.text()) + ","@ + quoted(v.case.0.text()) + ","@ + decimal(v.repeat as nat) + ","@ + quoted(v.input.0.text()) + "]"@
}

fn pair_identity_text(v: &TrialPairSpec) -> (r: String)
    ensures
        r@ == pair_identity_json(*v),
{
    let mut json = "[\"orvek:trial-pair:v1\",".to_owned();
    json.push_str(context_text(&v.context).as_str());
    json.push_str(",");
    push_digest(&mut json, &v.block.0);
    json.push_str(",");
    push_digest(&mut json, &v.case.0);
    json.push_str(",");
    push_decimal(&mut json, v.repeat as u64);
    json.push_str(",");
    push_digest(&mut json, &v.input.0);
    json.push_str("]");
    json
}

/// The canonical JSON of a pair.
pub open spec fn pair_json(v: TrialPairSpec) -> Seq<char> {
    "{\"id\":"@ + quoted(v.id.0.text()) + ",\"context\":"@ + context_json(v.context) + ",\"block\":"@ + quoted(v.block.0.text()) + ",\"case\":"@ + quoted(v.case.0.text()) + ",\"repeat\":"@ + decimal(v.repeat as nat) + ",\"input\":"@ + quoted(v.input.0.text()) + "}"@
}

pub(crate) fn pair_text(v: &TrialPairSpec) -> (r: String)
    ensures
        r@ == pair_json(*v),
{
    let mut json = "{\"id\":".to_owned();
    push_digest(&mut json, &v.id.0);
    json.push_str(",\"context\":");
    json.push_str(context_text(&v.context).as_str());
    json.push_str(",\"block\":");
    push_digest(&mut json, &v.block.0);
    json.push_str(",\"case\":");
    push_digest(&mut json, &v.case.0);
    json.push_str(",\"repeat\":");
    push_decimal(&mut json, v.repeat as u64);
    json.push_str(",\"input\":");
    push_digest(&mut json, &v.input.0);
    json.push_str("}");
    json
}

impl Clone for TrialPairSpec {
    fn clone(&self) -> (r: Self)
        ensures
            r == *self,
    {
        TrialPairSpec {
            id: self.id,
            context: self.context.clone(),
            block: self.block,
            case: self.case,
            repeat: self.repeat,
            input: self.input,
        }
    }
}

/// The sides of a pair in the order in which they run: the first hexadecimal digit of a
/// hash over the pair decides.
pub open spec fn side_order(pair: TrialPairId) -> Seq<TrialSide> {
    let schedule = digest_of_text("orvek:trial-order:v1:"@ + pair.0.text());
    if schedule.text()[0] as u32 % 2 == 0 {
        seq![TrialSide::Parent, TrialSide::Candidate]
    } else {
        seq![TrialSide::Candidate, TrialSide::Parent]
    }
}

impl TrialPairSpec {
    /// The identity that the content of a pair gives.
    pub open spec fn content_id(self) -> TrialPairId {
        TrialPairId(digest_of_text(pair_identity_json(self)))
    }

    pub open spec fn problem(self) -> Option<TrialError> {
        either(
            self.context.problem(),
            if self.id == self.content_id() {
                None
            } else {
                Some(TrialError::TamperedPairIdentity)
            },
        )
    }

    pub fn new(
        context: TrialContext,
        block: IndependentBlockId,
        case: CaseIdentity,
        repeat: u32,
        input: InputCommitment,
    ) -> (r: Result<Self, TrialError>)
        ensures
            match r {
                Ok(pair) => {
                    &&& context.problem() is None
                    &&& pair.id == pair.content_id()
                    &&& pair.context == context && pair.block == block && pair.case == case
                    &&& pair.repeat == repeat && pair.input == input
                },
                Err(error) => context.problem() == Some(error),
            },
    {
        match context.validate() {
            Err(error) => return Err(error),
            Ok(()) => {},
        }
        let draft = TrialPairSpec {
            id: TrialPairId(Digest::of(&[])),
            context,
            block,
            case,
            repeat,
            input,
        };
        let id = draft.pair_id();
        let pair = TrialPairSpec { id, context: draft.context, block, case, repeat, input };
        assert(pair_identity_json(pair) == pair_identity_json(draft));
        Ok(pair)
    }

    fn pair_id(&self) -> (r: TrialPairId)
        ensures
            r == self.content_id(),
    {
        TrialPairId(Digest::of_text(pair_identity_text(self).as_str()))
    }

    pub fn key(&self, side: TrialSide) -> (r: Result<TrialKey, TrialError>)
        ensures
            match r {
                Ok(key) => self.problem() is None && is_key(key, *self, side),
                Err(error) => self.problem() == Some(error),
            },
    {
        match self.validate() {
            Err(error) => return Err(error),
            Ok(()) => {},
        }
        Ok(TrialKey::new(self, side))
    }

    pub fn ordered_sides(&self) -> (r: [TrialSide; 2])
        ensures
            r@ == side_order(self.id),
    {
        let mut text = "orvek:trial-order:v1:".to_owned();
        text.push_str(self.id.0.to_string().as_str());
        let schedule = Digest::of_text(text.as_str());
        let odd = schedule.first_digit_is_odd();
        let order = if odd {
            [TrialSide::Candidate, TrialSide::Parent]
        } else {
            [TrialSide::Parent, TrialSide::Candidate]
        };
        assert(order@ =~= side_order(self.id));
        order
    }

    pub fn validate(&self) -> (r: Result<(), TrialError>)
        ensures
            r == refused(self.problem()),
    {
        match self.context.validate() {
            Err(error) => return Err(error),
            Ok(()) => {},
        }
        if self.id != self.pair_id() {
            return Err(TrialError::TamperedPairIdentity);
        }
        Ok(())
    }
}

impl TrialPairSpec {
    pub fn id(&self) -> (r: TrialPairId)
        ensures
            r == self.id,
    {
        self.id
    }

    pub fn context(&self) -> (r: &TrialContext)
        ensures
            *r == self.context,
    {
        &self.context
    }

    pub fn block(&self) -> (r: IndependentBlockId)
        ensures
            r == self.block,
    {
        self.block
    }

    pub fn case(&self) -> (r: CaseIdentity)
        ensures
            r == self.case,
    {
        self.case
    }

    pub fn repeat(&self) -> (r: u32)
        ensures
            r == self.repeat,
    {
        self.repeat
    }

    pub fn input(&self) -> (r: InputCommitment)
        ensures
            r == self.input,
    {
        self.input
    }
}

/// One side of a pair.
#[derive(Debug, PartialEq, Eq)]
pub struct TrialKey {
    pub id: TrialKeyId,
    pub pair: TrialPairId,
    pub context: TrialContext,
    pub block: IndependentBlockId,
    pub case: CaseIdentity,
    pub repeat: u32,
    pub side: TrialSide,
    pub input: InputCommitment,
}

/// Whether a key is that of a side of a pair.
pub open spec fn is_key(key: TrialKey, pair: TrialPairSpec, side: TrialSide) -> bool {
    &&& key.id == key.content_id()
    &&& key.pair == pair.id && key.context == pair.context && key.block == pair.block
    &&& key.case == pair.case && key.repeat == pair.repeat && key.side == side
    &&& key.input == pair.input
}

/// Whether two keys say the same.
pub open spec fn same_key(a: TrialKey, b: TrialKey) -> bool {
    &&& a.id == b.id && a.pair == b.pair && same_context(a.context, b.context)
    &&& a.block == b.block && a.case == b.case && a.repeat == b.repeat && a.side == b.side
    &&& a.input == b.input
}

/// The canonical JSON of what identifies a key.
pub open spec fn key_identity_json(v: TrialKey) -> Seq<char> {
    "[\"orvek:trial-key:v1\","@ + quoted(v.pair.0.text()) + ","@ + context_json(v.context) + ","@ + quoted(v.block.0.text()) + ","@ + quoted(v.case.0.text()) + ","@ + decimal(v.repeat as nat) + ","@ + quoted(v.side.spec_name()) + ","@ + quoted(v.input.0.text()) + "]"@
}

fn key_identity_text(v: &TrialKey) -> (r: String)
    ensures
        r@ == key_identity_json(*v),
{
    let mut json = "[\"orvek:trial-key:v1\",".to_owned();
    push_digest(&mut json, &v.pair.0);
    json.push_str(",");
    json.push_str(context_text(&v.context).as_str());
    json.push_str(",");
    push_digest(&mut json, &v.block.0);
    json.push_str(",");
    push_digest(&mut json, &v.case.0);
    json.push_str(",");
    push_decimal(&mut json, v.repeat as u64);
    json.push_str(",");
    push_quoted(&mut json, v.side.name());
    json.push_str(",");
    push_digest(&mut json, &v.input.0);
    json.push_str("]");
    json
}

/// The canonical JSON of a key.
pub open spec fn key_json(v: TrialKey) -> Seq<char> {
    "{\"id\":"@ + quoted(v.id.0.text()) + ",\"pair\":"@ + quoted(v.pair.0.text()) + ",\"context\":"@ + context_json(v.context) + ",\"block\":"@ + quoted(v.block.0.text()) + ",\"case\":"@ + quoted(v.case.0.text()) + ",\"repeat\":"@ + decimal(v.repeat as nat) + ",\"side\":"@ + quoted(v.side.spec_name()) + ",\"input\":"@ + quoted(v.input.0.text()) + "}"@
}

fn key_text(v: &TrialKey) -> (r: String)
    ensures
        r@ == key_json(*v),
{
    let mut json = "{\"id\":".to_owned();
    push_digest(&mut json, &v.id.0);
    json.push_str(",\"pair\":");
    push_digest(&mut json, &v.pair.0);
    json.push_str(",\"context\":");
    json.push_str(context_text(&v.context).as_str());
    json.push_str(",\"block\":");
    push_digest(&mut json, &v.block.0);
    json.push_str(",\"case\":");
    push_digest(&mut json, &v.case.0);
    json.push_str(",\"repeat\":");
    push_decimal(&mut json, v.repeat as u64);
    json.push_str(",\"side\":");
    push_quoted(&mut json, v.side.name());
    json.push_str(",\"input\":");
    push_digest(&mut json, &v.input.0);
    json.push_str("}");
    json
}

impl TrialKey {
    /// The identity that the content of a key gives.
    pub open spec fn content_id(self) -> TrialKeyId {
        TrialKeyId(digest_of_text(key_identity_json(self)))
    }

    /// The pair that a key belongs to.
    pub open spec fn spec_of_pair(self) -> TrialPairSpec {
        TrialPairSpec {
            id: self.pair,
            context: self.context,
            block: self.block,
            case: self.case,
            repeat: self.repeat,
            input: self.input,
        }
    }

    pub open spec fn problem(self) -> Option<TrialError> {
        either(
            self.spec_of_pair().problem(),
            if self.id == self.content_id() {
                None
            } else {
                Some(TrialError::TamperedTrialKey)
            },
        )
    }

    fn new(pair: &TrialPairSpec, side: TrialSide) -> (r: Self)
        ensures
            is_key(r, *pair, side),
    {
        let draft = TrialKey {
            id: TrialKeyId(pair.id.0),
            pair: pair.id,
            context: pair.context.clone(),
            block: pair.block,
            case: pair.case,
            repeat: pair.repeat,
            side,
            input: pair.input,
        };
        let id = draft.key_id();
        let key = TrialKey {
            id,
            pair: draft.pair,
            context: draft.context,
            block: draft.block,
            case: draft.case,
            repeat: draft.repeat,
            side,
            input: draft.input,
        };
        assert(key_identity_json(key) == key_identity_json(draft));
        key
    }

    fn key_id(&self) -> (r: TrialKeyId)
        ensures
            r == self.content_id(),
    {
        TrialKeyId(Digest::of_text(key_identity_text(self).as_str()))
    }

    pub(crate) fn validate(&self) -> (r: Result<(), TrialError>)
        ensures
            r == refused(self.problem()),
    {
        let pair = TrialPairSpec {
            id: self.pair,
            context: self.context.clone(),
            block: self.block,
            case: self.case,
            repeat: self.repeat,
            input: self.input,
        };
        match pair.validate() {
            Err(error) => return Err(error),
            Ok(()) => {},
        }
        if self.id != self.key_id() {
            return Err(TrialError::TamperedTrialKey);
        }
        Ok(())
    }

    fn same(&self, other: &TrialKey) -> (r: bool)
        ensures
            r == same_key(*self, *other),
    {
        self.id == other.id && self.pair == other.pair && self.context.same(&other.context)
            && self.block == other.block && self.case == other.case && self.repeat == other.repeat
            && self.side == other.side && self.input == other.input
    }
}

impl Clone for TrialKey {
    fn clone(&self) -> (r: Self)
        ensures
            r == *self,
    {
        TrialKey {
            id: self.id,
            pair: self.pair,
            context: self.context.clone(),
            block: self.block,
            case: self.case,
            repeat: self.repeat,
            side: self.side,
            input: self.input,
        }
    }
}

impl TrialKey {
    pub fn id(&self) -> (r: TrialKeyId)
        ensures
            r == self.id,
    {
        self.id
    }

    pub fn pair(&self) -> (r: TrialPairId)
        ensures
            r == self.pair,
    {
        self.pair
    }

    pub fn context(&self) -> (r: &TrialContext)
        ensures
            *r == self.context,
    {
        &self.context
    }

    pub fn block(&self) -> (r: IndependentBlockId)
        ensures
            r == self.block,
    {
        self.block
    }

    pub fn case(&self) -> (r: CaseIdentity)
        ensures
            r == self.case,
    {
        self.case
    }

    pub fn repeat(&self) -> (r: u32)
        ensures
            r == self.repeat,
    {
        self.repeat
    }

    pub fn side(&self) -> (r: TrialSide)
        ensures
            r == self.side,
    {
        self.side
    }

    pub fn input(&self) -> (r: InputCommitment)
        ensures
            r == self.input,
    {
        self.input
    }
}

/// The only isolation profile admitted for evolution trials.
#[derive(Clone, Copy, Debug, PartialEq, Eq, Structural)]
pub enum TrialIsolationProfile {
    StrictCandidateTrialV1,
}

impl TrialIsolationProfile {
    pub open spec fn spec_name(self) -> Seq<char> {
        match self {
            TrialIsolationProfile::StrictCandidateTrialV1 => "strict_candidate_trial_v1"@,
        }
    }

    pub fn name(self) -> (r: &'static str)
        ensures
            r@ == self.spec_name(),
    {
        match self {
            TrialIsolationProfile::StrictCandidateTrialV1 => "strict_candidate_trial_v1",
        }
    }
}

impl TrialIsolationProfile {
    pub fn strict() -> (r: Self)
        ensures
            r == TrialIsolationProfile::StrictCandidateTrialV1,
    {
        TrialIsolationProfile::StrictCandidateTrialV1
    }

    pub fn fresh_exclusive_workspace(self) -> (r: bool)
        ensures
            r == true,
    {
        true
    }

    pub fn network_enabled(self) -> (r: bool)
        ensures
            r == false,
    {
        false
    }

    pub fn private_ipc(self) -> (r: bool)
        ensures
            r == true,
    {
        true
    }

    pub fn host_control_available(self) -> (r: bool)
        ensures
            r == false,
    {
        false
    }

    pub fn store_available(self) -> (r: bool)
        ensures
            r == false,
    {
        false
    }

    pub fn credential_access(self) -> (r: bool)
        ensures
            r == false,
    {
        false
    }

    pub fn sealed_artifact_access(self) -> (r: bool)
        ensures
            r == false,
    {
        false
    }

    pub fn shared_writable_mounts(self) -> (r: bool)
        ensures
            r == false,
    {
        false
    }
}

/// How far the transport of a run can be trusted after it started.
#[derive(Clone, Copy, Debug, PartialEq, Eq, Structural)]
pub enum TrialTransportCapability {
    DurableStartInspectCollectFence,
    FenceUnknownAfterStart,
}

impl TrialTransportCapability {
    pub open spec fn spec_name(self) -> Seq<char> {
        match self {
            TrialTransportCapability::DurableStartInspectCollectFence => "durable_start_inspect_collect_fence"@,
            TrialTransportCapability::FenceUnknownAfterStart => "fence_unknown_after_start"@,
        }
    }

    pub fn name(self) -> (r: &'static str)
        ensures
            r@ == self.spec_name(),
    {
        match self {
            TrialTransportCapability::DurableStartInspectCollectFence => "durable_start_inspect_collect_fence",
            TrialTransportCapability::FenceUnknownAfterStart => "fence_unknown_after_start",
        }
    }
}

/// How a run ended on its transport.
#[derive(Clone, Copy, Debug, PartialEq, Eq, Structural)]
pub enum TrialTransportTerminal {
    Collected(Digest),
    Fenced(Digest),
}

/// The canonical JSON of the end of a run on its transport.
pub open spec fn transport_terminal_json(v: TrialTransportTerminal) -> Seq<char> {
    match v {
        TrialTransportTerminal::Collected(receipt) => "{\"kind\":\"collected\",\"receipt\":"@ + quoted(receipt.text()) + "}"@,
        TrialTransportTerminal::Fenced(receipt) => "{\"kind\":\"fenced\",\"receipt\":"@ + quoted(receipt.text()) + "}"@,
    }
}

fn transport_terminal_text(v: &TrialTransportTerminal) -> (r: String)
    ensures
        r@ == transport_terminal_json(*v),
{
    match *v {
        TrialTransportTerminal::Collected(receipt) => {
            let mut json = "{\"kind\":\"collected\",\"receipt\":".to_owned();
            push_digest(&mut json, &receipt);
            json.push_str("}");
            json
        },
        TrialTransportTerminal::Fenced(receipt) => {
            let mut json = "{\"kind\":\"fenced\",\"receipt\":".to_owned();
            push_digest(&mut json, &receipt);
            json.push_str("}");
            json
        },
    }
}

/// A run that is about to take place.
#[derive(Debug, PartialEq, Eq)]
pub struct TrialRunAssignment {
    pub key: TrialKey,
    pub isolation_instance: IsolationInstanceId,
    pub isolation: TrialIsolationProfile,
    pub transport: TrialTransportCapability,
}

impl TrialRunAssignment {
    pub fn new(
        key: TrialKey,
        isolation_instance: IsolationInstanceId,
        transport: TrialTransportCapability,
    ) -> (r: Self)
        ensures
            r == (TrialRunAssignment {
                key,
                isolation_instance,
                isolation: TrialIsolationProfile::StrictCandidateTrialV1,
                transport,
            }),
    {
        TrialRunAssignment {
            key,
            isolation_instance,
            isolation: TrialIsolationProfile::strict(),
            transport,
        }
    }
}

impl TrialRunAssignment {
    pub fn key(&self) -> (r: &TrialKey)
        ensures
            *r == self.key,
    {
        &self.key
    }

    pub fn isolation_instance(&self) -> (r: IsolationInstanceId)
        ensures
            r == self.isolation_instance,
    {
        self.isolation_instance
    }

    pub fn isolation(&self) -> (r: TrialIsolationProfile)
        ensures
            r == self.isolation,
    {
        self.isolation
    }

    pub fn transport(&self) -> (r: TrialTransportCapability)
        ensures
            r == self.transport,
    {
        self.transport
    }
}

/// Whether a text can name something: not blank, within a bound of bytes, without
/// control characters.
pub open spec fn nameable(text: Seq<char>, maximum: int) -> bool {
    !blank(text) && encode_utf8(text).len() <= maximum && !controlled(text)
}

pub(crate) fn is_nameable(text: &str, maximum: usize) -> (r: bool)
    ensures
        r == nameable(text@, maximum as int),
{
    !is_blank(text) && byte_len(text) <= maximum && !has_control(text)
}

/// The name of a metric.
#[derive(Debug, PartialEq, Eq, PartialOrd, Ord, Hash)]
pub struct MetricName {
    text: String,
}

impl MetricName {
    pub closed spec fn text(self) -> Seq<char> {
        self.text@
    }

    #[verifier::type_invariant]
    spec fn acceptable(self) -> bool {
        nameable(self.text@, MAX_METRIC_NAME_BYTES as int)
    }

    pub fn new(value: String) -> (r: Result<Self, TrialError>)
        ensures
            match r {
                Ok(name) => nameable(value@, MAX_METRIC_NAME_BYTES as int) && name.text() == value@,
                Err(error) => !nameable(value@, MAX_METRIC_NAME_BYTES as int) && error
                    == TrialError::InvalidMetricName,
            },
    {
        if !is_nameable(value.as_str(), MAX_METRIC_NAME_BYTES) {
            return Err(TrialError::InvalidMetricName);
        }
        Ok(MetricName { text: value })
    }

    pub fn as_str(&self) -> (r: &str)
        ensures
            r@ == self.text(),
            nameable(self.text(), MAX_METRIC_NAME_BYTES as int),
    {
        proof {
            use_type_invariant(self);
        }
        self.text.as_str()
    }
}

impl Clone for MetricName {
    fn clone(&self) -> (r: Self)
        ensures
            r == *self,
    {
        proof {
            use_type_invariant(self);
        }
        MetricName { text: self.text.clone() }
    }
}

/// A score between zero and one, in millionths.
#[derive(Clone, Copy, Debug, PartialEq, Eq, PartialOrd, Ord, Structural)]
pub struct MetricScore {
    value: u32,
}

impl MetricScore {
    pub closed spec fn spec_millionths(self) -> u32 {
        self.value
    }

    #[verifier::type_invariant]
    spec fn in_range(self) -> bool {
        self.value <= SCORE_SCALE
    }

    pub fn from_millionths(value: u32) -> (r: Result<Self, TrialError>)
        ensures
            match r {
                Ok(score) => value <= SCORE_SCALE && score.spec_millionths() == value,
                Err(error) => value > SCORE_SCALE && error == TrialError::InvalidMetricScore,
            },
    {
        if value > SCORE_SCALE {
            return Err(TrialError::InvalidMetricScore);
        }
        Ok(MetricScore { value })
    }

    pub fn millionths(self) -> (r: u32)
        ensures
            r == self.spec_millionths(),
            r <= SCORE_SCALE,
    {
        proof {
            use_type_invariant(&self);
        }
        self.value
    }
}

/// Why a run counts as a failure of what it ran.
#[derive(Clone, Copy, Debug, PartialEq, Eq, Structural)]
pub enum BehavioralFailureReason {
    AttributableCandidateCrash,
    BudgetExhaustion,
    EvaluatorRejection,
    ProtocolTimeout,
}

impl BehavioralFailureReason {
    pub open spec fn spec_name(self) -> Seq<char> {
        match self {
            BehavioralFailureReason::AttributableCandidateCrash => "attributable_candidate_crash"@,
            BehavioralFailureReason::BudgetExhaustion => "budget_exhaustion"@,
            BehavioralFailureReason::EvaluatorRejection => "evaluator_rejection"@,
            BehavioralFailureReason::ProtocolTimeout => "protocol_timeout"@,
        }
    }

    pub fn name(self) -> (r: &'static str)
        ensures
            r@ == self.spec_name(),
    {
        match self {
            BehavioralFailureReason::AttributableCandidateCrash => "attributable_candidate_crash",
            BehavioralFailureReason::BudgetExhaustion => "budget_exhaustion",
            BehavioralFailureReason::EvaluatorRejection => "evaluator_rejection",
            BehavioralFailureReason::ProtocolTimeout => "protocol_timeout",
        }
    }
}

/// Why a run says nothing about what it ran.
#[derive(Clone, Copy, Debug, PartialEq, Eq, Structural)]
pub enum InfrastructureUnknownReason {
    EnvironmentDrift,
    EvaluatorDrift,
    MissingReceipt,
    ModelDrift,
    TamperedReceipt,
    TransportLoss,
    UnreconciledExternalAttempt,
}

impl InfrastructureUnknownReason {
    pub open spec fn spec_name(self) -> Seq<char> {
        match self {
            InfrastructureUnknownReason::EnvironmentDrift => "environment_drift"@,
            InfrastructureUnknownReason::EvaluatorDrift => "evaluator_drift"@,
            InfrastructureUnknownReason::MissingReceipt => "missing_receipt"@,
            InfrastructureUnknownReason::ModelDrift => "model_drift"@,
            InfrastructureUnknownReason::TamperedReceipt => "tampered_receipt"@,
            InfrastructureUnknownReason::TransportLoss => "transport_loss"@,
            InfrastructureUnknownReason::UnreconciledExternalAttempt => "unreconciled_external_attempt"@,
        }
    }

    pub fn name(self) -> (r: &'static str)
        ensures
            r@ == self.spec_name(),
    {
        match self {
            InfrastructureUnknownReason::EnvironmentDrift => "environment_drift",
            InfrastructureUnknownReason::EvaluatorDrift => "evaluator_drift",
            InfrastructureUnknownReason::MissingReceipt => "missing_receipt",
            InfrastructureUnknownReason::ModelDrift => "model_drift",
            InfrastructureUnknownReason::TamperedReceipt => "tampered_receipt",
            InfrastructureUnknownReason::TransportLoss => "transport_loss",
            InfrastructureUnknownReason::UnreconciledExternalAttempt => "unreconciled_external_attempt",
        }
    }
}

/// Scores under the names of their metrics, in ascending order of the names.
pub struct Metrics {
    scores: TextMap<MetricScore>,
}

impl View for Metrics {
    type V = Seq<Entry<MetricScore>>;

    closed spec fn view(&self) -> Seq<Entry<MetricScore>> {
        self.scores@
    }
}

impl Metrics {
    #[verifier::type_invariant]
    spec fn well_formed(self) -> bool {
        forall|name: Seq<char>| #[trigger]
            has_key(self.scores@, name) ==> nameable(name, MAX_METRIC_NAME_BYTES as int)
    }

    pub fn new() -> (r: Self)
        ensures
            r@ == Seq::<Entry<MetricScore>>::empty(),
    {
        let scores: TextMap<MetricScore> = TextMap::new();
        Metrics { scores }
    }

    pub fn len(&self) -> (r: usize)
        ensures
            r == self@.len(),
            keys_ascend(self@),
    {
        self.scores.len()
    }

    /// The name at an index: that of a metric.
    pub fn name(&self, i: usize) -> (r: &str)
        requires
            i < self@.len(),
        ensures
            r@ == self@[i as int].key@,
            nameable(r@, MAX_METRIC_NAME_BYTES as int),
    {
        proof {
            use_type_invariant(self);
            assert(key_at(self.scores@, self@[i as int].key@, i as int));
            assert(has_key(self.scores@, self@[i as int].key@));
        }
        self.scores.key(i)
    }

    /// The score at an index.
    pub fn score(&self, i: usize) -> (r: MetricScore)
        requires
            i < self@.len(),
        ensures
            r == self@[i as int].value,
    {
        *self.scores.value(i)
    }

    /// The score under a name.
    pub fn get(&self, name: &str) -> (r: Option<&MetricScore>)
        ensures
            match r {
                Some(score) => value_of(self@, name@) == Some(*score),
                None => value_of(self@, name@) is None,
            },
    {
        self.scores.get(name)
    }

    /// Puts a score under a name; tells whether another one was there.
    pub fn insert(&mut self, name: MetricName, score: MetricScore) -> (replaced: bool)
        ensures
            replaced == has_key(old(self)@, name.text()),
            keys_ascend(final(self)@),
            value_of(final(self)@, name.text()) == Some(score),
            forall|other: Seq<char>|
                other != name.text() ==> #[trigger] value_of(final(self)@, other) == value_of(
                    old(self)@,
                    other,
                ),
            final(self)@.len() == old(self)@.len() + if replaced {
                0int
            } else {
                1int
            },
    {
        proof {
            use_type_invariant(&*self);
            use_type_invariant(&name);
        }
        let mut scores: TextMap<MetricScore> = TextMap::new();
        std::mem::swap(&mut scores, &mut self.scores);
        let ghost before = scores@;
        let replaced = scores.insert(name.text, score);
        assert forall|other: Seq<char>| #[trigger] has_key(scores@, other) implies nameable(
            other,
            MAX_METRIC_NAME_BYTES as int,
        ) by {
            if other != name.text() {
                assert(value_of(scores@, other) == value_of(before, other));
                assert(has_key(before, other));
            }
        }
        self.scores = scores;
        replaced
    }

    pub(crate) fn copied(&self) -> (r: Self)
        ensures
            r@.len() == self@.len(),
            forall|i: int|
                0 <= i < self@.len() ==> (#[trigger] r@[i]).key@ == self@[i].key@ && r@[i].value
                    == self@[i].value,
    {
        proof {
            use_type_invariant(self);
        }
        let scores = self.scores.copied();
        assert forall|name: Seq<char>| #[trigger] has_key(scores@, name) implies nameable(
            name,
            MAX_METRIC_NAME_BYTES as int,
        ) by {
            let i = choose|i: int| key_at(scores@, name, i);
            assert(scores@[i].key@ == self.scores@[i].key@);
            assert(key_at(self.scores@, name, i));
            assert(has_key(self.scores@, name));
        }
        Metrics { scores }
    }
}

/// The canonical JSON of the first `n` metrics, separated by commas.
pub open spec fn metrics_json(metrics: Seq<Entry<MetricScore>>, n: int) -> Seq<char>
    decreases n,
{
    if n <= 0 {
        ""@
    } else {
        metrics_json(metrics, n - 1) + (if n == 1 {
            ""@
        } else {
            ","@
        }) + json_string(metrics[n - 1].key@) + ":"@ + decimal(
            metrics[n - 1].value.spec_millionths() as nat,
        )
    }
}

fn metrics_text(metrics: &Metrics) -> (r: String)
    ensures
        r@ == metrics_json(metrics@, metrics@.len() as int),
{
    let mut json = "".to_owned();
    let mut i: usize = 0;
    while i < metrics.len()
        invariant
            i <= metrics@.len(),
            json@ == metrics_json(metrics@, i as int),
        decreases metrics@.len() - i,
    {
        if i > 0 {
            json.push_str(",");
        } else {
            json.push_str("");
        }
        push_json_string(&mut json, metrics.name(i));
        json.push_str(":");
        push_decimal(&mut json, metrics.score(i).millionths() as u64);
        i += 1;
    }
    json
}

/// How a run ended that says something about what it ran.
pub enum BehavioralTrialOutcome {
    Pass { metrics: Metrics },
    BehavioralFailure { reason: BehavioralFailureReason },
}

impl BehavioralTrialOutcome {
    pub fn pass(metrics: Metrics) -> (r: Self)
        ensures
            r == (BehavioralTrialOutcome::Pass { metrics }),
    {
        BehavioralTrialOutcome::Pass { metrics }
    }

    pub fn failure(reason: BehavioralFailureReason) -> (r: Self)
        ensures
            r == (BehavioralTrialOutcome::BehavioralFailure { reason }),
    {
        BehavioralTrialOutcome::BehavioralFailure { reason }
    }
}

/// The canonical JSON of a behavioral outcome.
pub open spec fn behavior_json(v: BehavioralTrialOutcome) -> Seq<char> {
    match v {
        BehavioralTrialOutcome::Pass { metrics } => "{\"kind\":\"Pass\",\"metrics\":{"@
            + metrics_json(metrics@, metrics@.len() as int) + "}}"@,
        BehavioralTrialOutcome::BehavioralFailure { reason } => {
            "{\"kind\":\"BehavioralFailure\",\"reason\":"@ + quoted(reason.spec_name()) + "}"@
        },
    }
}

pub(crate) fn behavior_text(v: &BehavioralTrialOutcome) -> (r: String)
    ensures
        r@ == behavior_json(*v),
{
    match v {
        BehavioralTrialOutcome::Pass { metrics } => {
            let mut json = "{\"kind\":\"Pass\",\"metrics\":{".to_owned();
            json.push_str(metrics_text(metrics).as_str());
            json.push_str("}}");
            json
        },
        BehavioralTrialOutcome::BehavioralFailure { reason } => {
            let mut json = "{\"kind\":\"BehavioralFailure\",\"reason\":".to_owned();
            push_quoted(&mut json, reason.name());
            json.push_str("}");
            json
        },
    }
}

/// How a run ended.
#[allow(inconsistent_fields)]
pub enum TerminalTrialOutcome {
    Pass { metrics: Metrics },
    BehavioralFailure { reason: BehavioralFailureReason },
    InfrastructureUnknown { reason: InfrastructureUnknownReason },
}

impl TerminalTrialOutcome {
    pub fn pass(metrics: Metrics) -> (r: Self)
        ensures
            r == (TerminalTrialOutcome::Pass { metrics }),
    {
        TerminalTrialOutcome::Pass { metrics }
    }

    pub fn behavioral_failure(reason: BehavioralFailureReason) -> (r: Self)
        ensures
            r == (TerminalTrialOutcome::BehavioralFailure { reason }),
    {
        TerminalTrialOutcome::BehavioralFailure { reason }
    }

    pub fn infrastructure_unknown(reason: InfrastructureUnknownReason) -> (r: Self)
        ensures
            r == (TerminalTrialOutcome::InfrastructureUnknown { reason }),
    {
        TerminalTrialOutcome::InfrastructureUnknown { reason }
    }

    pub open spec fn spec_unknown_reason(self) -> Option<InfrastructureUnknownReason> {
        match self {
            TerminalTrialOutcome::InfrastructureUnknown { reason } => Some(reason),
            _ => None,
        }
    }

    /// The behavioral outcome, unless the end is unknown.
    fn behavioral(&self) -> (r: Option<BehavioralTrialOutcome>)
        ensures
            match r {
                Some(outcome) => same_outcome(outcome, *self),
                None => self is InfrastructureUnknown,
            },
    {
        match self {
            TerminalTrialOutcome::Pass { metrics } => Some(
                BehavioralTrialOutcome::Pass { metrics: metrics.copied() },
            ),
            TerminalTrialOutcome::BehavioralFailure { reason } => Some(
                BehavioralTrialOutcome::BehavioralFailure { reason: *reason },
            ),
            TerminalTrialOutcome::InfrastructureUnknown { .. } => None,
        }
    }

    pub fn unknown_reason(&self) -> (r: Option<InfrastructureUnknownReason>)
        ensures
            r == self.spec_unknown_reason(),
    {
        match self {
            TerminalTrialOutcome::InfrastructureUnknown { reason } => Some(*reason),
            _ => None,
        }
    }
}

/// The canonical JSON of an outcome.
pub open spec fn outcome_json(v: TerminalTrialOutcome) -> Seq<char> {
    match v {
        TerminalTrialOutcome::Pass { metrics } => "{\"kind\":\"Pass\",\"metrics\":{"@
            + metrics_json(metrics@, metrics@.len() as int) + "}}"@,
        TerminalTrialOutcome::BehavioralFailure { reason } => {
            "{\"kind\":\"BehavioralFailure\",\"reason\":"@ + quoted(reason.spec_name()) + "}"@
        },
        TerminalTrialOutcome::InfrastructureUnknown { reason } => {
            "{\"kind\":\"InfrastructureUnknown\",\"reason\":"@ + quoted(reason.spec_name()) + "}"@
        },
    }
}

fn outcome_text(v: &TerminalTrialOutcome) -> (r: String)
    ensures
        r@ == outcome_json(*v),
{
    match v {
        TerminalTrialOutcome::Pass { metrics } => {
            let mut json = "{\"kind\":\"Pass\",\"metrics\":{".to_owned();
            json.push_str(metrics_text(metrics).as_str());
            json.push_str("}}");
            json
        },
        TerminalTrialOutcome::BehavioralFailure { reason } => {
            let mut json = "{\"kind\":\"BehavioralFailure\",\"reason\":".to_owned();
            push_quoted(&mut json, reason.name());
            json.push_str("}");
            json
        },
        TerminalTrialOutcome::InfrastructureUnknown { reason } => {
            let mut json = "{\"kind\":\"InfrastructureUnknown\",\"reason\":".to_owned();
            push_quoted(&mut json, reason.name());
            json.push_str("}");
            json
        },
    }
}

/// What a receipt of one isolated run would say.
pub struct UncheckedIsolatedRunReceipt {
    pub id: IsolatedRunReceiptId,
    pub key: TrialKey,
    pub effect: EffectId,
    pub lease_epoch: LeaseEpoch,
    pub isolation_instance: IsolationInstanceId,
    pub isolation: TrialIsolationProfile,
    pub capability: TrialTransportCapability,
    pub terminal: TrialTransportTerminal,
    pub outcome: TerminalTrialOutcome,
}

/// The canonical JSON of what identifies a receipt.
pub open spec fn receipt_identity_json(v: UncheckedIsolatedRunReceipt) -> Seq<char> {
    "[\"orvek:isolated-run-receipt:v1\","@ + key_json(v.key) + ","@ + quoted(v.effect.0.text()) + ","@ + decimal(v.lease_epoch.0 as nat) + ","@ + quoted(v.isolation_instance.0.text()) + ","@ + quoted(v.isolation.spec_name()) + ","@ + quoted(v.capability.spec_name()) + ","@ + transport_terminal_json(v.terminal) + ","@ + outcome_json(v.outcome) + "]"@
}

fn receipt_identity_text(v: &UncheckedIsolatedRunReceipt) -> (r: String)
    ensures
        r@ == receipt_identity_json(*v),
{
    let mut json = "[\"orvek:isolated-run-receipt:v1\",".to_owned();
    json.push_str(key_text(&v.key).as_str());
    json.push_str(",");
    push_digest(&mut json, &v.effect.0);
    json.push_str(",");
    push_decimal(&mut json, v.lease_epoch.0 as u64);
    json.push_str(",");
    push_uuid(&mut json, &v.isolation_instance.0);
    json.push_str(",");
    push_quoted(&mut json, v.isolation.name());
    json.push_str(",");
    push_quoted(&mut json, v.capability.name());
    json.push_str(",");
    json.push_str(transport_terminal_text(&v.terminal).as_str());
    json.push_str(",");
    json.push_str(outcome_text(&v.outcome).as_str());
    json.push_str("]");
    json
}

/// What is wrong with the end of a run: a fenced run has an unknown outcome.
pub open spec fn terminal_problem(
    terminal: TrialTransportTerminal,
    outcome: TerminalTrialOutcome,
) -> Option<TrialError> {
    if terminal is Fenced && outcome.spec_unknown_reason() is None {
        Some(TrialError::FencedAttemptMustBeUnknown)
    } else {
        None
    }
}

fn validate_terminal(terminal: TrialTransportTerminal, outcome: &TerminalTrialOutcome) -> (r: Result<
    (),
    TrialError,
>)
    ensures
        r == refused(terminal_problem(terminal, *outcome)),
{
    match terminal {
        TrialTransportTerminal::Fenced(_) => {
            if outcome.unknown_reason().is_none() {
                return Err(TrialError::FencedAttemptMustBeUnknown);
            }
        },
        _ => {},
    }
    Ok(())
}

/// Whether a receipt is what a run, an effect, a lease and an end make it.
pub open spec fn is_receipt(
    receipt: UncheckedIsolatedRunReceipt,
    run: TrialRunAssignment,
    effect: EffectId,
    lease_epoch: LeaseEpoch,
    terminal: TrialTransportTerminal,
    outcome: TerminalTrialOutcome,
) -> bool {
    &&& receipt.id == receipt.content_id()
    &&& receipt.key == run.key && receipt.effect == effect && receipt.lease_epoch == lease_epoch
    &&& receipt.isolation_instance == run.isolation_instance
    &&& receipt.isolation == run.isolation && receipt.capability == run.transport
    &&& receipt.terminal == terminal && receipt.outcome == outcome
}

impl UncheckedIsolatedRunReceipt {
    /// The identity that the content of a receipt gives.
    pub open spec fn content_id(self) -> IsolatedRunReceiptId {
        IsolatedRunReceiptId(digest_of_text(receipt_identity_json(self)))
    }

    pub open spec fn problem(self) -> Option<TrialError> {
        either(
            self.key.problem(),
            either(
                terminal_problem(self.terminal, self.outcome),
                if self.id == self.content_id() {
                    None
                } else {
                    Some(TrialError::TamperedRunReceipt)
                },
            ),
        )
    }

    fn receipt_id(&self) -> (r: IsolatedRunReceiptId)
        ensures
            r == self.content_id(),
    {
        IsolatedRunReceiptId(Digest::of_text(receipt_identity_text(self).as_str()))
    }

    pub fn validate(&self) -> (r: Result<(), TrialError>)
        ensures
            r == refused(self.problem()),
    {
        match self.key.validate() {
            Err(error) => return Err(error),
            Ok(()) => {},
        }
        match validate_terminal(self.terminal, &self.outcome) {
            Err(error) => return Err(error),
            Ok(()) => {},
        }
        if self.id != self.receipt_id() {
            return Err(TrialError::TamperedRunReceipt);
        }
        Ok(())
    }
}

/// A receipt of one isolated run: one whose identity is that of its content.
pub struct IsolatedRunReceipt {
    record: UncheckedIsolatedRunReceipt,
}

impl View for IsolatedRunReceipt {
    type V = UncheckedIsolatedRunReceipt;

    closed spec fn view(&self) -> UncheckedIsolatedRunReceipt {
        self.record
    }
}

impl IsolatedRunReceipt {
    #[verifier::type_invariant]
    spec fn checked(self) -> bool {
        self.record.problem() is None
    }

    /// The receipt that a record is, if it is one.
    pub fn try_from(record: UncheckedIsolatedRunReceipt) -> (r: Result<Self, TrialError>)
        ensures
            match r {
                Ok(receipt) => record.problem() is None && receipt@ == record,
                Err(error) => record.problem() == Some(error),
            },
    {
        match record.validate() {
            Err(error) => Err(error),
            Ok(()) => Ok(IsolatedRunReceipt { record }),
        }
    }

    pub fn collected(
        run: &TrialRunAssignment,
        effect: EffectId,
        lease_epoch: LeaseEpoch,
        outcome: TerminalTrialOutcome,
        runtime_receipt: Digest,
    ) -> (r: Result<Self, TrialError>)
        ensures
            match r {
                Ok(receipt) => run.key.problem() is None && is_receipt(
                    receipt@,
                    *run,
                    effect,
                    lease_epoch,
                    TrialTransportTerminal::Collected(runtime_receipt),
                    outcome,
                ),
                Err(error) => run.key.problem() == Some(error),
            },
    {
        IsolatedRunReceipt::new(
            run,
            effect,
            lease_epoch,
            TrialTransportTerminal::Collected(runtime_receipt),
            outcome,
        )
    }

    pub fn fenced_unknown(
        run: &TrialRunAssignment,
        effect: EffectId,
        lease_epoch: LeaseEpoch,
        reason: InfrastructureUnknownReason,
        fence_receipt: Digest,
    ) -> (r: Result<Self, TrialError>)
        ensures
            match r {
                Ok(receipt) => run.key.problem() is None && is_receipt(
                    receipt@,
                    *run,
                    effect,
                    lease_epoch,
                    TrialTransportTerminal::Fenced(fence_receipt),
                    TerminalTrialOutcome::InfrastructureUnknown { reason },
                ),
                Err(error) => run.key.problem() == Some(error),
            },
    {
        IsolatedRunReceipt::new(
            run,
            effect,
            lease_epoch,
            TrialTransportTerminal::Fenced(fence_receipt),
            TerminalTrialOutcome::InfrastructureUnknown { reason },
        )
    }

    fn new(
        run: &TrialRunAssignment,
        effect: EffectId,
        lease_epoch: LeaseEpoch,
        terminal: TrialTransportTerminal,
        outcome: TerminalTrialOutcome,
    ) -> (r: Result<Self, TrialError>)
        ensures
            match r {
                Ok(receipt) => {
                    &&& run.key.problem() is None
                    &&& terminal_problem(terminal, outcome) is None
                    &&& is_receipt(receipt@, *run, effect, lease_epoch, terminal, outcome)
                },
                Err(error) => either(run.key.problem(), terminal_problem(terminal, outcome))
                    == Some(error),
            },
    {
        match run.key.validate() {
            Err(error) => return Err(error),
            Ok(()) => {},
        }
        match validate_terminal(terminal, &outcome) {
            Err(error) => return Err(error),
            Ok(()) => {},
        }
        let draft = UncheckedIsolatedRunReceipt {
            id: IsolatedRunReceiptId(run.key.id.0),
            key: run.key.clone(),
            effect,
            lease_epoch,
            isolation_instance: run.isolation_instance,
            isolation: run.isolation,
            capability: run.transport,
            terminal,
            outcome,
        };
        let id = draft.receipt_id();
        let record = UncheckedIsolatedRunReceipt {
            id,
            key: draft.key,
            effect,
            lease_epoch,
            isolation_instance: draft.isolation_instance,
            isolation: draft.isolation,
            capability: draft.capability,
            terminal,
            outcome: draft.outcome,
        };
        assert(receipt_identity_json(record) == receipt_identity_json(draft));
        Ok(IsolatedRunReceipt { record })
    }

    /// A terminal attempt is never locally retryable. Campaign reconciliation owns retries.
    pub fn retry_permitted(&self) -> (r: bool)
        ensures
            !r,
    {
        false
    }

    /// A receipt is always what it says it is.
    pub fn validate(&self) -> (r: Result<(), TrialError>)
        ensures
            r == Ok::<(), TrialError>(()),
            self@.problem() is None,
    {
        proof {
            use_type_invariant(self);
        }
        self.record.validate()
    }

    pub fn id(&self) -> (r: IsolatedRunReceiptId)
        ensures
            r == self@.id,
    {
        self.record.id
    }

    pub fn key(&self) -> (r: &TrialKey)
        ensures
            *r == self@.key,
    {
        &self.record.key
    }

    pub fn effect(&self) -> (r: EffectId)
        ensures
            r == self@.effect,
    {
        self.record.effect
    }

    pub fn lease_epoch(&self) -> (r: LeaseEpoch)
        ensures
            r == self@.lease_epoch,
    {
        self.record.lease_epoch
    }

    pub fn isolation_instance(&self) -> (r: IsolationInstanceId)
        ensures
            r == self@.isolation_instance,
    {
        self.record.isolation_instance
    }

    pub fn isolation(&self) -> (r: TrialIsolationProfile)
        ensures
            r == self@.isolation,
    {
        self.record.isolation
    }

    pub fn capability(&self) -> (r: TrialTransportCapability)
        ensures
            r == self@.capability,
    {
        self.record.capability
    }

    pub fn terminal(&self) -> (r: TrialTransportTerminal)
        ensures
            r == self@.terminal,
    {
        self.record.terminal
    }

    pub fn outcome(&self) -> (r: &TerminalTrialOutcome)
        ensures
            *r == self@.outcome,
    {
        &self.record.outcome
    }
}

/// A receipt of a pair whose two runs both say something.
pub struct PairedTrialReceipt {
    pub id: PairedTrialReceiptId,
    pub pair: TrialPairId,
    pub effect: EffectId,
    pub lease_epoch: LeaseEpoch,
    pub parent_receipt: IsolatedRunReceiptId,
    pub candidate_receipt: IsolatedRunReceiptId,
    pub parent: BehavioralTrialOutcome,
    pub candidate: BehavioralTrialOutcome,
}

/// The canonical JSON of what identifies a paired receipt.
pub open spec fn paired_identity_json(v: PairedTrialReceipt) -> Seq<char> {
    "[\"orvek:paired-trial-receipt:v1\","@ + quoted(v.pair.0.text()) + ","@ + quoted(v.effect.0.text()) + ","@ + decimal(v.lease_epoch.0 as nat) + ","@ + quoted(v.parent_receipt.0.text()) + ","@ + quoted(v.candidate_receipt.0.text()) + ","@ + behavior_json(v.parent) + ","@ + behavior_json(v.candidate) + "]"@
}

fn paired_identity_text(v: &PairedTrialReceipt) -> (r: String)
    ensures
        r@ == paired_identity_json(*v),
{
    let mut json = "[\"orvek:paired-trial-receipt:v1\",".to_owned();
    push_digest(&mut json, &v.pair.0);
    json.push_str(",");
    push_digest(&mut json, &v.effect.0);
    json.push_str(",");
    push_decimal(&mut json, v.lease_epoch.0 as u64);
    json.push_str(",");
    push_digest(&mut json, &v.parent_receipt.0);
    json.push_str(",");
    push_digest(&mut json, &v.candidate_receipt.0);
    json.push_str(",");
    json.push_str(behavior_text(&v.parent).as_str());
    json.push_str(",");
    json.push_str(behavior_text(&v.candidate).as_str());
    json.push_str("]");
    json
}

/// The canonical JSON of a paired receipt.
pub open spec fn paired_json(v: PairedTrialReceipt) -> Seq<char> {
    "{\"id\":"@ + quoted(v.id.0.text()) + ",\"pair\":"@ + quoted(v.pair.0.text()) + ",\"effect\":"@ + quoted(v.effect.0.text()) + ",\"lease_epoch\":"@ + decimal(v.lease_epoch.0 as nat) + ",\"parent_receipt\":"@ + quoted(v.parent_receipt.0.text()) + ",\"candidate_receipt\":"@ + quoted(v.candidate_receipt.0.text()) + ",\"parent\":"@ + behavior_json(v.parent) + ",\"candidate\":"@ + behavior_json(v.candidate) + "}"@
}

fn paired_text(v: &PairedTrialReceipt) -> (r: String)
    ensures
        r@ == paired_json(*v),
{
    let mut json = "{\"id\":".to_owned();
    push_digest(&mut json, &v.id.0);
    json.push_str(",\"pair\":");
    push_digest(&mut json, &v.pair.0);
    json.push_str(",\"effect\":");
    push_digest(&mut json, &v.effect.0);
    json.push_str(",\"lease_epoch\":");
    push_decimal(&mut json, v.lease_epoch.0 as u64);
    json.push_str(",\"parent_receipt\":");
    push_digest(&mut json, &v.parent_receipt.0);
    json.push_str(",\"candidate_receipt\":");
    push_digest(&mut json, &v.candidate_receipt.0);
    json.push_str(",\"parent\":");
    json.push_str(behavior_text(&v.parent).as_str());
    json.push_str(",\"candidate\":");
    json.push_str(behavior_text(&v.candidate).as_str());
    json.push_str("}");
    json
}

impl PairedTrialReceipt {
    /// The identity that the content of a paired receipt gives.
    pub open spec fn content_id(self) -> PairedTrialReceiptId {
        PairedTrialReceiptId(digest_of_text(paired_identity_json(self)))
    }

    fn receipt_id(&self) -> (r: PairedTrialReceiptId)
        ensures
            r == self.content_id(),
    {
        PairedTrialReceiptId(Digest::of_text(paired_identity_text(self).as_str()))
    }
}

impl PairedTrialReceipt {
    pub fn id(&self) -> (r: PairedTrialReceiptId)
        ensures
            r == self.id,
    {
        self.id
    }

    pub fn pair(&self) -> (r: TrialPairId)
        ensures
            r == self.pair,
    {
        self.pair
    }

    pub fn effect(&self) -> (r: EffectId)
        ensures
            r == self.effect,
    {
        self.effect
    }

    pub fn lease_epoch(&self) -> (r: LeaseEpoch)
        ensures
            r == self.lease_epoch,
    {
        self.lease_epoch
    }

    pub fn parent_receipt(&self) -> (r: IsolatedRunReceiptId)
        ensures
            r == self.parent_receipt,
    {
        self.parent_receipt
    }

    pub fn candidate_receipt(&self) -> (r: IsolatedRunReceiptId)
        ensures
            r == self.candidate_receipt,
    {
        self.candidate_receipt
    }

    pub fn parent(&self) -> (r: &BehavioralTrialOutcome)
        ensures
            *r == self.parent,
    {
        &self.parent
    }

    pub fn candidate(&self) -> (r: &BehavioralTrialOutcome)
        ensures
            *r == self.candidate,
    {
        &self.candidate
    }
}

/// A pair that says nothing about the candidate.
#[derive(Clone, Copy, Debug, PartialEq, Eq, Structural)]
pub struct PairedInfrastructureUnknown {
    pub pair: TrialPairId,
    pub reason: InfrastructureUnknownReason,
}

impl PairedInfrastructureUnknown {
    pub fn retry_permitted(self) -> (r: bool)
        ensures
            !r,
    {
        false
    }
}

impl PairedInfrastructureUnknown {
    pub fn pair(&self) -> (r: TrialPairId)
        ensures
            r == self.pair,
    {
        self.pair
    }

    pub fn reason(&self) -> (r: InfrastructureUnknownReason)
        ensures
            r == self.reason,
    {
        self.reason
    }
}

/// What a pair of trials says.
pub enum PairedTrialEvidence {
    Usable(PairedTrialReceipt),
    InfrastructureUnknown(PairedInfrastructureUnknown),
}

/// The canonical JSON of the evidence of a pair.
pub open spec fn evidence_json(v: PairedTrialEvidence) -> Seq<char> {
    match v {
        PairedTrialEvidence::Usable(receipt) => "{\"kind\":\"usable\",\"data\":"@ + paired_json(
            receipt,
        ) + "}"@,
        PairedTrialEvidence::InfrastructureUnknown(unknown) => {
            "{\"kind\":\"infrastructure_unknown\",\"data\":{\"pair\":"@ + quoted(
                unknown.pair.0.text(),
            ) + ",\"reason\":"@ + quoted(unknown.reason.spec_name()) + "}}"@
        },
    }
}

pub(crate) fn evidence_text(v: &PairedTrialEvidence) -> (r: String)
    ensures
        r@ == evidence_json(*v),
{
    match v {
        PairedTrialEvidence::Usable(receipt) => {
            let mut json = "{\"kind\":\"usable\",\"data\":".to_owned();
            json.push_str(paired_text(receipt).as_str());
            json.push_str("}");
            json
        },
        PairedTrialEvidence::InfrastructureUnknown(unknown) => {
            let mut json =
                "{\"kind\":\"infrastructure_unknown\",\"data\":{\"pair\":".to_owned();
            push_digest(&mut json, &unknown.pair.0);
            json.push_str(",\"reason\":");
            push_quoted(&mut json, unknown.reason.name());
            json.push_str("}}");
            json
        },
    }
}

impl PairedTrialEvidence {
    /// What is wrong with evidence that should be that of a pair.
    pub open spec fn problem_for(self, expected: TrialPairSpec) -> Option<TrialError> {
        either(
            expected.problem(),
            match self {
                PairedTrialEvidence::Usable(receipt) => if receipt.pair == expected.id && receipt.id
                    == receipt.content_id() {
                    None
                } else {
                    Some(TrialError::TamperedPairedReceipt)
                },
                PairedTrialEvidence::InfrastructureUnknown(unknown) => if unknown.pair
                    == expected.id {
                    None
                } else {
                    Some(TrialError::TamperedPairedReceipt)
                },
            },
        )
    }

    pub(crate) fn validate_for_pair(&self, expected: &TrialPairSpec) -> (r: Result<(), TrialError>)
        ensures
            r == refused(self.problem_for(*expected)),
    {
        match expected.validate() {
            Err(error) => return Err(error),
            Ok(()) => {},
        }
        match self {
            PairedTrialEvidence::Usable(receipt) => {
                if receipt.pair != expected.id || receipt.id != receipt.receipt_id() {
                    return Err(TrialError::TamperedPairedReceipt);
                }
            },
            PairedTrialEvidence::InfrastructureUnknown(unknown) => {
                if unknown.pair != expected.id {
                    return Err(TrialError::TamperedPairedReceipt);
                }
            },
        }
        Ok(())
    }
}

/// In what respect a run did not take place as it was to.
pub open spec fn drift(expected: TrialRuntimeIdentity, actual: TrialRuntimeIdentity) ->
    InfrastructureUnknownReason {
    if expected.model != actual.model {
        InfrastructureUnknownReason::ModelDrift
    } else if expected.evaluator != actual.evaluator {
        InfrastructureUnknownReason::EvaluatorDrift
    } else if expected.environment != actual.environment || expected.protocol != actual.protocol {
        InfrastructureUnknownReason::EnvironmentDrift
    } else {
        InfrastructureUnknownReason::TamperedReceipt
    }
}

fn binding_mismatch(expected: TrialRuntimeIdentity, actual: TrialRuntimeIdentity) -> (r:
    InfrastructureUnknownReason)
    ensures
        r == drift(expected, actual),
{
    if expected.model != actual.model {
        InfrastructureUnknownReason::ModelDrift
    } else if expected.evaluator != actual.evaluator {
        InfrastructureUnknownReason::EvaluatorDrift
    } else if expected.environment != actual.environment || expected.protocol != actual.protocol {
        InfrastructureUnknownReason::EnvironmentDrift
    } else {
        InfrastructureUnknownReason::TamperedReceipt
    }
}

/// Whether a receipt is for a side of a pair, as its key says.
pub open spec fn bound_to(
    receipt: UncheckedIsolatedRunReceipt,
    pair: TrialPairSpec,
    side: TrialSide,
) -> bool {
    &&& receipt.key.pair == pair.id && same_context(receipt.key.context, pair.context)
    &&& receipt.key.block == pair.block && receipt.key.case == pair.case
    &&& receipt.key.repeat == pair.repeat && receipt.key.input == pair.input
    &&& receipt.key.side == side
}

/// Why two receipts say nothing about a pair, if they do not.
pub open spec fn pair_unknown(
    expected: TrialPairSpec,
    parent: UncheckedIsolatedRunReceipt,
    candidate: UncheckedIsolatedRunReceipt,
) -> Option<InfrastructureUnknownReason> {
    if !bound_to(parent, expected, TrialSide::Parent) {
        Some(drift(expected.context.runtime, parent.key.context.runtime))
    } else if !bound_to(candidate, expected, TrialSide::Candidate) {
        Some(drift(expected.context.runtime, candidate.key.context.runtime))
    } else if parent.effect != candidate.effect || parent.lease_epoch != candidate.lease_epoch {
        Some(InfrastructureUnknownReason::TamperedReceipt)
    } else if parent.isolation_instance == candidate.isolation_instance {
        Some(InfrastructureUnknownReason::EnvironmentDrift)
    } else {
        either(parent.outcome.spec_unknown_reason(), candidate.outcome.spec_unknown_reason())
    }
}

/// Whether a paired receipt records two outcomes by their canonical content.
pub open spec fn records(
    receipt: PairedTrialReceipt,
    pair: TrialPairId,
    parent: UncheckedIsolatedRunReceipt,
    candidate: UncheckedIsolatedRunReceipt,
) -> bool {
    &&& receipt.id == receipt.content_id()
    &&& receipt.pair == pair && receipt.effect == parent.effect
    &&& receipt.lease_epoch == parent.lease_epoch
    &&& receipt.parent_receipt == parent.id && receipt.candidate_receipt == candidate.id
    &&& same_outcome(receipt.parent, parent.outcome)
    &&& same_outcome(receipt.candidate, candidate.outcome)
}

/// Whether a behavioral outcome says what a terminal outcome says.
pub open spec fn same_outcome(a: BehavioralTrialOutcome, b: TerminalTrialOutcome) -> bool {
    match (a, b) {
        (BehavioralTrialOutcome::Pass { metrics: x }, TerminalTrialOutcome::Pass { metrics: y }) => {
            same_metrics(x@, y@)
        },
        (
            BehavioralTrialOutcome::BehavioralFailure { reason: x },
            TerminalTrialOutcome::BehavioralFailure { reason: y },
        ) => x == y,
        _ => false,
    }
}

/// Whether two lists of metrics hold the same names and scores.
pub open spec fn same_metrics(a: Seq<Entry<MetricScore>>, b: Seq<Entry<MetricScore>>) -> bool {
    a.len() == b.len() && forall|i: int|
        0 <= i < a.len() ==> (#[trigger] a[i]).key@ == b[i].key@ && a[i].value == b[i].value
}

/// What two runs say about a pair.
pub fn classify_paired_trial(
    expected: &TrialPairSpec,
    parent: Option<&IsolatedRunReceipt>,
    candidate: Option<&IsolatedRunReceipt>,
) -> (r: Result<PairedTrialEvidence, TrialError>)
    ensures
        match (expected.problem(), parent, candidate) {
            (Some(error), _, _) => r == Err::<PairedTrialEvidence, TrialError>(error),
            (None, Some(p), Some(c)) => match pair_unknown(*expected, p@, c@) {
                Some(reason) => r == Ok::<PairedTrialEvidence, TrialError>(
                    PairedTrialEvidence::InfrastructureUnknown(
                        PairedInfrastructureUnknown { pair: expected.id, reason },
                    ),
                ),
                None => r matches Ok(PairedTrialEvidence::Usable(receipt)) && records(
                    receipt,
                    expected.id,
                    p@,
                    c@,
                ),
            },
            (None, _, _) => r == Ok::<PairedTrialEvidence, TrialError>(
                PairedTrialEvidence::InfrastructureUnknown(
                    PairedInfrastructureUnknown {
                        pair: expected.id,
                        reason: InfrastructureUnknownReason::MissingReceipt,
                    },
                ),
            ),
        },
{
    match expected.validate() {
        Err(error) => return Err(error),
        Ok(()) => {},
    }
    let (parent, candidate) = match (parent, candidate) {
        (Some(parent), Some(candidate)) => (parent, candidate),
        _ => {
            return Ok(unknown(expected.id, InfrastructureUnknownReason::MissingReceipt));
        },
    };
    match parent.validate() {
        Err(error) => return Err(error),
        Ok(()) => {},
    }
    match candidate.validate() {
        Err(error) => return Err(error),
        Ok(()) => {},
    }
    let parent = &parent.record;
    let candidate = &candidate.record;
    let parent_key = TrialKey::new(expected, TrialSide::Parent);
    let candidate_key = TrialKey::new(expected, TrialSide::Candidate);
    proof {
        lemma_keys_agree(parent_key, parent.key);
        lemma_keys_agree(candidate_key, candidate.key);
    }
    if !parent_key.same(&parent.key) {
        return Ok(
            unknown(
                expected.id,
                binding_mismatch(expected.context.runtime, parent.key.context.runtime),
            ),
        );
    }
    if !candidate_key.same(&candidate.key) {
        return Ok(
            unknown(
                expected.id,
                binding_mismatch(expected.context.runtime, candidate.key.context.runtime),
            ),
        );
    }
    if parent.effect != candidate.effect || parent.lease_epoch != candidate.lease_epoch {
        return Ok(unknown(expected.id, InfrastructureUnknownReason::TamperedReceipt));
    }
    if parent.isolation != TrialIsolationProfile::strict() || candidate.isolation
        != TrialIsolationProfile::strict() || parent.isolation_instance
        == candidate.isolation_instance {
        return Ok(unknown(expected.id, InfrastructureUnknownReason::EnvironmentDrift));
    }
    match parent.outcome.unknown_reason() {
        Some(reason) => return Ok(unknown(expected.id, reason)),
        None => {},
    }
    match candidate.outcome.unknown_reason() {
        Some(reason) => return Ok(unknown(expected.id, reason)),
        None => {},
    }
    let parent_outcome = match parent.outcome.behavioral() {
        Some(outcome) => outcome,
        None => return Err(TrialError::NonBehavioralPair),
    };
    let candidate_outcome = match candidate.outcome.behavioral() {
        Some(outcome) => outcome,
        None => return Err(TrialError::NonBehavioralPair),
    };
    let draft = PairedTrialReceipt {
        id: PairedTrialReceiptId(parent.id.0),
        pair: expected.id,
        effect: parent.effect,
        lease_epoch: parent.lease_epoch,
        parent_receipt: parent.id,
        candidate_receipt: candidate.id,
        parent: parent_outcome,
        candidate: candidate_outcome,
    };
    let id = draft.receipt_id();
    let receipt = PairedTrialReceipt {
        id,
        pair: draft.pair,
        effect: draft.effect,
        lease_epoch: draft.lease_epoch,
        parent_receipt: draft.parent_receipt,
        candidate_receipt: draft.candidate_receipt,
        parent: draft.parent,
        candidate: draft.candidate,
    };
    assert(paired_identity_json(receipt) == paired_identity_json(draft));
    Ok(PairedTrialEvidence::Usable(receipt))
}

/// Keys with their own identities say the same when their content does.
proof fn lemma_keys_agree(a: TrialKey, b: TrialKey)
    requires
        a.id == a.content_id(),
        b.id == b.content_id(),
    ensures
        same_key(a, b) <==> {
            &&& a.pair == b.pair && same_context(a.context, b.context)
            &&& a.block == b.block && a.case == b.case && a.repeat == b.repeat
            &&& a.side == b.side && a.input == b.input
        },
{
    if same_context(a.context, b.context) {
        assert(context_json(a.context) == context_json(b.context));
    }
}

fn unknown(pair: TrialPairId, reason: InfrastructureUnknownReason) -> (r: PairedTrialEvidence)
    ensures
        r == PairedTrialEvidence::InfrastructureUnknown(
            PairedInfrastructureUnknown { pair, reason },
        ),
{
    PairedTrialEvidence::InfrastructureUnknown(PairedInfrastructureUnknown { pair, reason })
}

/// A pair is usable evidence only when both runs were bound to it, under one lease and
/// in environments of their own, and both outcomes are behavioral.
pub proof fn law_usable_pairs_are_bound_and_isolated(
    expected: TrialPairSpec,
    parent: UncheckedIsolatedRunReceipt,
    candidate: UncheckedIsolatedRunReceipt,
)
    requires
        pair_unknown(expected, parent, candidate) is None,
    ensures
        bound_to(parent, expected, TrialSide::Parent),
        bound_to(candidate, expected, TrialSide::Candidate),
        parent.effect == candidate.effect,
        parent.lease_epoch == candidate.lease_epoch,
        parent.isolation_instance != candidate.isolation_instance,
        !(parent.outcome is InfrastructureUnknown),
        !(candidate.outcome is InfrastructureUnknown),
{
}

/// Evidence that a classification calls usable is accepted for its pair.
pub proof fn law_classified_evidence_is_accepted(
    expected: TrialPairSpec,
    receipt: PairedTrialReceipt,
    parent: UncheckedIsolatedRunReceipt,
    candidate: UncheckedIsolatedRunReceipt,
)
    requires
        expected.problem() is None,
        records(receipt, expected.id, parent, candidate),
    ensures
        PairedTrialEvidence::Usable(receipt).problem_for(expected) is None,
{
}

/// A fenced run never says anything about the candidate.
pub proof fn law_fenced_runs_are_unknown(receipt: UncheckedIsolatedRunReceipt)
    requires
        receipt.problem() is None,
        receipt.terminal is Fenced,
    ensures
        receipt.outcome.spec_unknown_reason() is Some,
{
}

/// A run that did not take place as it was to is blamed on what differs: on the model where that
/// differs, else on the evaluator, else on the environment or the protocol. Where the runtime is
/// the same, the receipt does not belong to the pair.
pub proof fn law_drift_is_blamed_on_what_differs(
    expected: TrialRuntimeIdentity,
    actual: TrialRuntimeIdentity,
)
    ensures
        drift(expected, actual) == InfrastructureUnknownReason::TamperedReceipt <==> expected
            == actual,
        drift(expected, actual) == InfrastructureUnknownReason::ModelDrift <==> expected.model
            != actual.model,
        drift(expected, actual) == InfrastructureUnknownReason::EvaluatorDrift ==> expected.evaluator
            != actual.evaluator,
        drift(expected, actual) == InfrastructureUnknownReason::EnvironmentDrift ==> expected.model
            == actual.model && expected.evaluator == actual.evaluator,
        drift(expected, actual) == drift(actual, expected),
{
}

} // verus!
