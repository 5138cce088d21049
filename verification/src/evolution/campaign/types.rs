//! What a campaign records.
use crate::digest::{digest_of_text, Digest};
use crate::evolution::composition::{CompositePlan, CompositionFailure, CompositionFallback};
use crate::evolution::ids::{
    ActivationReceiptId, ApprovalId, AuditReportId, CampaignId, CandidateId, CompositionId,
    EffectFailureId, EffectOutputId, EffectReceiptId, EffectUncertaintyId, EffectWorkId,
    MiningResultId, MonitoringReportId, ProposalId, ReconciliationId, RollbackReceiptId, RoundId,
    RoundVerdictId, ScoreResultId, TrialResultId,
};
use crate::first::refused;
use crate::text::{blank, byte_len, controlled, decimal, has_control, is_blank, push_decimal};
use vstd::prelude::*;
use vstd::utf8::encode_utf8;

verus! {

pub const MAX_NOTE_BYTES: usize = 512;

pub const MAX_ROUNDS: usize = 64;

pub const MAX_CANDIDATES_PER_ROUND: usize = 128;

pub const MAX_EFFECTS: u32 = 4096;

pub const MAX_STORED_NUMBER: u64 = 0x7fff_ffff_ffff_ffff;

/// Why a value of a campaign is not acceptable.
#[derive(Clone, Copy, Debug, PartialEq, Eq)]
pub enum CampaignValidationError {
    EmptyText { field: &'static str },
    TextTooLarge { field: &'static str, maximum: usize },
    ControlCharacter { field: &'static str },
    NumberOutOfRange { field: &'static str },
    TooManyEntries { field: &'static str, maximum: usize },
    DuplicateIdentity { field: &'static str },
    BadEffectIdentity,
    InconsistentState(&'static str),
}

/// An external effect, named after the event that first made it durable.
#[derive(Clone, Copy, Debug, PartialEq, Eq, PartialOrd, Ord, Hash, Structural)]
pub struct EffectId(pub Digest);

/// The text whose hash names an effect.
pub open spec fn effect_text(
    campaign: CampaignId,
    transition_revision: u64,
    kind: EffectKind,
    work: EffectWorkId,
) -> Seq<char> {
    "orvek:campaign-effect:v1:"@ + campaign.0.text() + ":"@ + decimal(transition_revision as nat)
        + ":"@ + kind.spec_as_str() + ":"@ + work.0.text()
}

impl EffectId {
    /// The name that a campaign, a revision, a kind and a piece of work give an effect.
    pub open spec fn spec_derive(
        campaign: CampaignId,
        transition_revision: u64,
        kind: EffectKind,
        work: EffectWorkId,
    ) -> EffectId {
        EffectId(digest_of_text(effect_text(campaign, transition_revision, kind, work)))
    }

    /// Binds an external effect to the event that first made it durable.
    pub fn derive(
        campaign: CampaignId,
        transition_revision: u64,
        kind: EffectKind,
        work: EffectWorkId,
    ) -> (r: Self)
        ensures
            r == EffectId::spec_derive(campaign, transition_revision, kind, work),
    {
        let mut text = "orvek:campaign-effect:v1:".to_owned();
        campaign.0.push_to(&mut text);
        text.push_str(":");
        push_decimal(&mut text, transition_revision);
        text.push_str(":");
        text.push_str(kind.as_str());
        text.push_str(":");
        work.0.push_to(&mut text);
        EffectId(Digest::of_text(text.as_str()))
    }

    pub fn digest(self) -> (r: Digest)
        ensures
            r == self.0,
    {
        self.0
    }

    /// The hexadecimal text of the identity.
    pub fn to_string(&self) -> (r: String)
        ensures
            r@ == self.0.text(),
    {
        self.0.to_string()
    }
}

/// What is wrong with the text of a note: it is blank, longer than 512 bytes, or holds
/// a control character.
pub open spec fn note_problem(text: Seq<char>) -> Option<CampaignValidationError> {
    if blank(text) {
        Some(CampaignValidationError::EmptyText { field: "campaign note" })
    } else if encode_utf8(text).len() > MAX_NOTE_BYTES {
        Some(
            CampaignValidationError::TextTooLarge {
                field: "campaign note",
                maximum: MAX_NOTE_BYTES,
            },
        )
    } else if controlled(text) {
        Some(CampaignValidationError::ControlCharacter { field: "campaign note" })
    } else {
        None
    }
}

/// A short remark of an operator.
#[derive(Debug, PartialEq, Eq)]
pub struct CampaignNote {
    text: String,
}

impl CampaignNote {
    pub closed spec fn text(self) -> Seq<char> {
        self.text@
    }

    #[verifier::type_invariant]
    spec fn acceptable(self) -> bool {
        note_problem(self.text@) is None
    }

    pub fn new(value: String) -> (r: Result<Self, CampaignValidationError>)
        ensures
            match r {
                Ok(note) => note_problem(value@) is None && note.text() == value@,
                Err(error) => note_problem(value@) == Some(error),
            },
    {
        if is_blank(value.as_str()) {
            return Err(CampaignValidationError::EmptyText { field: "campaign note" });
        }
        if byte_len(value.as_str()) > MAX_NOTE_BYTES {
            return Err(
                CampaignValidationError::TextTooLarge {
                    field: "campaign note",
                    maximum: MAX_NOTE_BYTES,
                },
            );
        }
        if has_control(value.as_str()) {
            return Err(CampaignValidationError::ControlCharacter { field: "campaign note" });
        }
        Ok(CampaignNote { text: value })
    }

    pub fn as_str(&self) -> (r: &str)
        ensures
            r@ == self.text(),
            note_problem(self.text()) is None,
    {
        proof {
            use_type_invariant(self);
        }
        self.text.as_str()
    }

    /// The text of the note.
    pub fn into_string(self) -> (r: String)
        ensures
            r@ == self.text(),
    {
        self.text
    }
}

impl Clone for CampaignNote {
    fn clone(&self) -> (r: Self)
        ensures
            r == *self,
    {
        proof {
            use_type_invariant(self);
        }
        CampaignNote { text: self.text.clone() }
    }
}

#[derive(Clone, Copy, Debug, PartialEq, Eq, Structural)]
pub enum CampaignPhase {
    Ready,
    Mining,
    Proposing,
    Trialing,
    Scoring,
    Composing,
    Auditing,
    AwaitingApproval,
    Activating,
    Monitoring,
    Paused,
    Terminal,
}

/// Amounts of what effects consume.
#[derive(Clone, Copy, Debug, PartialEq, Eq, Structural)]
pub struct ResourceUsage {
    pub queries: u64,
    pub error_nanos: u64,
    pub artifact_bytes: u64,
}

impl Default for ResourceUsage {
    fn default() -> (r: Self)
        ensures
            r == (ResourceUsage { queries: 0, error_nanos: 0, artifact_bytes: 0 }),
    {
        ResourceUsage { queries: 0, error_nanos: 0, artifact_bytes: 0 }
    }
}

/// Amounts beyond any machine limit.
pub struct Totals {
    pub queries: int,
    pub error_nanos: int,
    pub artifact_bytes: int,
}

impl Totals {
    pub open spec fn zero() -> Totals {
        Totals { queries: 0, error_nanos: 0, artifact_bytes: 0 }
    }

    pub open spec fn plus(self, usage: ResourceUsage) -> Totals {
        Totals {
            queries: self.queries + usage.queries,
            error_nanos: self.error_nanos + usage.error_nanos,
            artifact_bytes: self.artifact_bytes + usage.artifact_bytes,
        }
    }

    /// Whether every amount can be stored.
    pub open spec fn fits(self) -> bool {
        self.queries <= u64::MAX && self.error_nanos <= u64::MAX && self.artifact_bytes <= u64::MAX
    }
}

impl ResourceUsage {
    pub open spec fn totals(self) -> Totals {
        Totals {
            queries: self.queries as int,
            error_nanos: self.error_nanos as int,
            artifact_bytes: self.artifact_bytes as int,
        }
    }

    pub open spec fn storable(self) -> bool {
        self.queries <= MAX_STORED_NUMBER && self.error_nanos <= MAX_STORED_NUMBER
            && self.artifact_bytes <= MAX_STORED_NUMBER
    }

    /// Whether no amount exceeds its limit.
    pub open spec fn spec_fits_within(self, limit: Self) -> bool {
        self.queries <= limit.queries && self.error_nanos <= limit.error_nanos
            && self.artifact_bytes <= limit.artifact_bytes
    }

    pub open spec fn problem(self, field: &'static str) -> Option<CampaignValidationError> {
        if self.storable() {
            None
        } else {
            Some(CampaignValidationError::NumberOutOfRange { field })
        }
    }

    pub fn new(queries: u64, error_nanos: u64, artifact_bytes: u64) -> (r: Self)
        ensures
            r == (ResourceUsage { queries, error_nanos, artifact_bytes }),
    {
        ResourceUsage { queries, error_nanos, artifact_bytes }
    }

    pub(crate) fn validate(self, field: &'static str) -> (r: Result<(), CampaignValidationError>)
        ensures
            r == refused(self.problem(field)),
    {
        if self.queries > MAX_STORED_NUMBER || self.error_nanos > MAX_STORED_NUMBER
            || self.artifact_bytes > MAX_STORED_NUMBER {
            return Err(CampaignValidationError::NumberOutOfRange { field });
        }
        Ok(())
    }

    pub(crate) fn checked_add(self, other: Self) -> (r: Option<Self>)
        ensures
            match r {
                Some(sum) => sum.totals() == self.totals().plus(other),
                None => !self.totals().plus(other).fits(),
            },
    {
        let queries = match self.queries.checked_add(other.queries) {
            Some(sum) => sum,
            None => return None,
        };
        let error_nanos = match self.error_nanos.checked_add(other.error_nanos) {
            Some(sum) => sum,
            None => return None,
        };
        let artifact_bytes = match self.artifact_bytes.checked_add(other.artifact_bytes) {
            Some(sum) => sum,
            None => return None,
        };
        Some(ResourceUsage { queries, error_nanos, artifact_bytes })
    }

    pub(crate) fn checked_sub(self, other: Self) -> (r: Option<Self>)
        ensures
            match r {
                Some(rest) => rest.totals().plus(other) == self.totals(),
                None => !other.spec_fits_within(self),
            },
    {
        let queries = match self.queries.checked_sub(other.queries) {
            Some(rest) => rest,
            None => return None,
        };
        let error_nanos = match self.error_nanos.checked_sub(other.error_nanos) {
            Some(rest) => rest,
            None => return None,
        };
        let artifact_bytes = match self.artifact_bytes.checked_sub(other.artifact_bytes) {
            Some(rest) => rest,
            None => return None,
        };
        Some(ResourceUsage { queries, error_nanos, artifact_bytes })
    }

    pub(crate) fn fits_within(self, limit: Self) -> (r: bool)
        ensures
            r == self.spec_fits_within(limit),
    {
        self.queries <= limit.queries && self.error_nanos <= limit.error_nanos
            && self.artifact_bytes <= limit.artifact_bytes
    }
}

#[derive(Clone, Copy, Debug, PartialEq, Eq, Structural)]
pub struct CampaignBudget {
    pub max_effects: u32,
    pub resources: ResourceUsage,
}

impl CampaignBudget {
    pub open spec fn problem(self) -> Option<CampaignValidationError> {
        if self.max_effects == 0 || self.max_effects > MAX_EFFECTS {
            Some(CampaignValidationError::NumberOutOfRange { field: "campaign max effects" })
        } else {
            self.resources.problem("campaign resource budget")
        }
    }

    pub fn new(max_effects: u32, resources: ResourceUsage) -> (r: Result<
        Self,
        CampaignValidationError,
    >)
        ensures
            ({
                let budget = CampaignBudget { max_effects, resources };
                r == match budget.problem() {
                    Some(error) => Err::<CampaignBudget, CampaignValidationError>(error),
                    None => Ok(budget),
                }
            }),
    {
        let budget = CampaignBudget { max_effects, resources };
        match budget.validate() {
            Err(error) => Err(error),
            Ok(()) => Ok(budget),
        }
    }

    pub(crate) fn validate(self) -> (r: Result<(), CampaignValidationError>)
        ensures
            r == refused(self.problem()),
    {
        if self.max_effects == 0 || self.max_effects > MAX_EFFECTS {
            return Err(CampaignValidationError::NumberOutOfRange { field: "campaign max effects" });
        }
        self.resources.validate("campaign resource budget")
    }
}

/// What the effects of a campaign have used and hold in reserve.
#[derive(Clone, Copy, Debug, PartialEq, Eq, Structural)]
pub struct CampaignUsage {
    pub effects_intended: u32,
    pub used: ResourceUsage,
    pub reserved: ResourceUsage,
}

impl CampaignUsage {
    pub open spec fn none() -> CampaignUsage {
        CampaignUsage {
            effects_intended: 0,
            used: ResourceUsage { queries: 0, error_nanos: 0, artifact_bytes: 0 },
            reserved: ResourceUsage { queries: 0, error_nanos: 0, artifact_bytes: 0 },
        }
    }
}

impl Default for CampaignUsage {
    fn default() -> (r: Self)
        ensures
            r == CampaignUsage::none(),
    {
        CampaignUsage {
            effects_intended: 0,
            used: ResourceUsage::default(),
            reserved: ResourceUsage::default(),
        }
    }
}

/// What one effect may consume.
#[derive(Clone, Copy, Debug, PartialEq, Eq, Structural)]
pub struct EffectBudget {
    pub resources: ResourceUsage,
}

impl EffectBudget {
    pub fn new(resources: ResourceUsage) -> (r: Result<Self, CampaignValidationError>)
        ensures
            r == match resources.problem("effect resource budget") {
                Some(error) => Err::<EffectBudget, CampaignValidationError>(error),
                None => Ok(EffectBudget { resources }),
            },
    {
        match resources.validate("effect resource budget") {
            Err(error) => Err(error),
            Ok(()) => Ok(EffectBudget { resources }),
        }
    }
}

#[derive(Clone, Copy, Debug, PartialEq, Eq, PartialOrd, Ord, Hash, Structural)]
pub enum EffectKind {
    Mine,
    Propose,
    Trial,
    Score,
    Compose,
    Audit,
    RequestApproval,
    Activate,
    Monitor,
    Rollback,
}

impl EffectKind {
    pub open spec fn spec_as_str(self) -> Seq<char> {
        match self {
            EffectKind::Mine => "mine"@,
            EffectKind::Propose => "propose"@,
            EffectKind::Trial => "trial"@,
            EffectKind::Score => "score"@,
            EffectKind::Compose => "compose"@,
            EffectKind::Audit => "audit"@,
            EffectKind::RequestApproval => "request_approval"@,
            EffectKind::Activate => "activate"@,
            EffectKind::Monitor => "monitor"@,
            EffectKind::Rollback => "rollback"@,
        }
    }

    /// The phase in which effects of this kind are intended and leased.
    pub open spec fn home(self) -> CampaignPhase {
        match self {
            EffectKind::Mine => CampaignPhase::Mining,
            EffectKind::Propose => CampaignPhase::Proposing,
            EffectKind::Trial => CampaignPhase::Trialing,
            EffectKind::Score => CampaignPhase::Scoring,
            EffectKind::Compose => CampaignPhase::Composing,
            EffectKind::Audit => CampaignPhase::Auditing,
            EffectKind::RequestApproval => CampaignPhase::AwaitingApproval,
            EffectKind::Activate => CampaignPhase::Activating,
            EffectKind::Monitor => CampaignPhase::Monitoring,
            EffectKind::Rollback => CampaignPhase::Monitoring,
        }
    }

    pub fn as_str(self) -> (r: &'static str)
        ensures
            r@ == self.spec_as_str(),
    {
        match self {
            EffectKind::Mine => "mine",
            EffectKind::Propose => "propose",
            EffectKind::Trial => "trial",
            EffectKind::Score => "score",
            EffectKind::Compose => "compose",
            EffectKind::Audit => "audit",
            EffectKind::RequestApproval => "request_approval",
            EffectKind::Activate => "activate",
            EffectKind::Monitor => "monitor",
            EffectKind::Rollback => "rollback",
        }
    }

    pub(crate) fn allowed_in(self, phase: CampaignPhase) -> (r: bool)
        ensures
            r == (phase == self.home()),
    {
        match (self, phase) {
            (EffectKind::Mine, CampaignPhase::Mining) => true,
            (EffectKind::Propose, CampaignPhase::Proposing) => true,
            (EffectKind::Trial, CampaignPhase::Trialing) => true,
            (EffectKind::Score, CampaignPhase::Scoring) => true,
            (EffectKind::Compose, CampaignPhase::Composing) => true,
            (EffectKind::Audit, CampaignPhase::Auditing) => true,
            (EffectKind::RequestApproval, CampaignPhase::AwaitingApproval) => true,
            (EffectKind::Activate, CampaignPhase::Activating) => true,
            (EffectKind::Monitor, CampaignPhase::Monitoring) => true,
            (EffectKind::Rollback, CampaignPhase::Monitoring) => true,
            _ => false,
        }
    }
}

/// A lease of an effect; each new lease has a higher number.
#[derive(Clone, Copy, Debug, PartialEq, Eq, PartialOrd, Ord, Hash, Structural)]
pub struct LeaseEpoch(pub u64);

impl LeaseEpoch {
    pub open spec fn problem(self) -> Option<CampaignValidationError> {
        if self.0 == 0 || self.0 > MAX_STORED_NUMBER {
            Some(CampaignValidationError::NumberOutOfRange { field: "lease epoch" })
        } else {
            None
        }
    }

    pub fn new(value: u64) -> (r: Result<Self, CampaignValidationError>)
        ensures
            r == match LeaseEpoch(value).problem() {
                Some(error) => Err::<LeaseEpoch, CampaignValidationError>(error),
                None => Ok(LeaseEpoch(value)),
            },
    {
        if value == 0 || value > MAX_STORED_NUMBER {
            return Err(CampaignValidationError::NumberOutOfRange { field: "lease epoch" });
        }
        Ok(LeaseEpoch(value))
    }

    pub fn initial() -> (r: Self)
        ensures
            r == LeaseEpoch(1),
    {
        LeaseEpoch(1)
    }

    pub fn value(self) -> (r: u64)
        ensures
            r == self.0,
    {
        self.0
    }

    /// The following lease, where its number can still be stored.
    pub(crate) fn next(self) -> (r: Option<Self>)
        ensures
            r == if self.0 < MAX_STORED_NUMBER {
                Some(LeaseEpoch((self.0 + 1) as u64))
            } else {
                None::<LeaseEpoch>
            },
    {
        if self.0 < MAX_STORED_NUMBER {
            Some(LeaseEpoch(self.0 + 1))
        } else {
            None
        }
    }

    pub(crate) fn validate(self) -> (r: Result<(), CampaignValidationError>)
        ensures
            r == refused(self.problem()),
    {
        match LeaseEpoch::new(self.0) {
            Err(error) => Err(error),
            Ok(_) => Ok(()),
        }
    }
}

/// What is wrong with a revision number.
pub open spec fn revision_problem(revision: u64, field: &'static str) -> Option<
    CampaignValidationError,
> {
    if revision == 0 || revision > MAX_STORED_NUMBER {
        Some(CampaignValidationError::NumberOutOfRange { field })
    } else {
        None
    }
}

pub(crate) fn validate_revision(revision: u64, field: &'static str) -> (r: Result<
    (),
    CampaignValidationError,
>)
    ensures
        r == refused(revision_problem(revision, field)),
{
    if revision == 0 || revision > MAX_STORED_NUMBER {
        return Err(CampaignValidationError::NumberOutOfRange { field });
    }
    Ok(())
}

/// An effect that a campaign is about to cause.
#[derive(Clone, Copy, Debug, PartialEq, Eq, Structural)]
pub struct EffectIntent {
    pub id: EffectId,
    pub campaign: CampaignId,
    pub transition_revision: u64,
    pub kind: EffectKind,
    pub work: EffectWorkId,
    pub budget: EffectBudget,
}

impl EffectIntent {
    /// What is wrong with the revision or the budget of an intent.
    pub open spec fn number_problem(transition_revision: u64, budget: EffectBudget) -> Option<
        CampaignValidationError,
    > {
        match revision_problem(transition_revision, "effect transition revision") {
            Some(error) => Some(error),
            None => budget.resources.problem("effect resource budget"),
        }
    }

    pub open spec fn problem(self) -> Option<CampaignValidationError> {
        match EffectIntent::number_problem(self.transition_revision, self.budget) {
            Some(error) => Some(error),
            None => if self.id == EffectId::spec_derive(
                self.campaign,
                self.transition_revision,
                self.kind,
                self.work,
            ) {
                None
            } else {
                Some(CampaignValidationError::BadEffectIdentity)
            },
        }
    }

    pub fn new(
        campaign: CampaignId,
        transition_revision: u64,
        kind: EffectKind,
        work: EffectWorkId,
        budget: EffectBudget,
    ) -> (r: Result<Self, CampaignValidationError>)
        ensures
            r == match EffectIntent::number_problem(transition_revision, budget) {
                Some(error) => Err::<EffectIntent, CampaignValidationError>(error),
                None => Ok(
                    EffectIntent {
                        id: EffectId::spec_derive(campaign, transition_revision, kind, work),
                        campaign,
                        transition_revision,
                        kind,
                        work,
                        budget,
                    },
                ),
            },
    {
        match validate_revision(transition_revision, "effect transition revision") {
            Err(error) => return Err(error),
            Ok(()) => {},
        }
        match budget.resources.validate("effect resource budget") {
            Err(error) => return Err(error),
            Ok(()) => {},
        }
        Ok(
            EffectIntent {
                id: EffectId::derive(campaign, transition_revision, kind, work),
                campaign,
                transition_revision,
                kind,
                work,
                budget,
            },
        )
    }

    pub(crate) fn validate(&self) -> (r: Result<(), CampaignValidationError>)
        ensures
            r == refused(self.problem()),
    {
        match validate_revision(self.transition_revision, "effect transition revision") {
            Err(error) => return Err(error),
            Ok(()) => {},
        }
        match self.budget.resources.validate("effect resource budget") {
            Err(error) => return Err(error),
            Ok(()) => {},
        }
        if self.id != EffectId::derive(
            self.campaign,
            self.transition_revision,
            self.kind,
            self.work,
        ) {
            return Err(CampaignValidationError::BadEffectIdentity);
        }
        Ok(())
    }
}

impl EffectIntent {
    pub fn id(&self) -> (r: EffectId)
        ensures
            r == self.id,
    {
        self.id
    }

    pub fn campaign(&self) -> (r: CampaignId)
        ensures
            r == self.campaign,
    {
        self.campaign
    }

    pub fn transition_revision(&self) -> (r: u64)
        ensures
            r == self.transition_revision,
    {
        self.transition_revision
    }

    pub fn kind(&self) -> (r: EffectKind)
        ensures
            r == self.kind,
    {
        self.kind
    }

    pub fn work(&self) -> (r: EffectWorkId)
        ensures
            r == self.work,
    {
        self.work
    }

    pub fn budget(&self) -> (r: EffectBudget)
        ensures
            r == self.budget,
    {
        self.budget
    }
}

#[derive(Clone, Copy, Debug, PartialEq, Eq, Structural)]
pub enum EffectOutcome {
    Succeeded { output: EffectOutputId },
    Failed { failure: EffectFailureId },
    InfrastructureUnknown { uncertainty: EffectUncertaintyId },
}

#[derive(Clone, Copy, Debug, PartialEq, Eq, Structural)]
pub enum EffectAccounting {
    Known(ResourceUsage),
    ReservationCharged,
}

#[derive(Clone, Copy, Debug, PartialEq, Eq, Structural)]
pub struct EffectReceipt {
    pub id: EffectReceiptId,
    pub outcome: EffectOutcome,
    pub accounting: EffectAccounting,
}

impl EffectReceipt {
    /// What the receipt charges against a reservation.
    pub open spec fn charge(self, reservation: EffectBudget) -> ResourceUsage {
        match self.accounting {
            EffectAccounting::Known(usage) => usage,
            EffectAccounting::ReservationCharged => reservation.resources,
        }
    }
}

#[derive(Clone, Copy, Debug, PartialEq, Eq, Structural)]
pub enum EffectReconciliation {
    RetryAuthorized { evidence: ReconciliationId },
    Recovered { receipt: EffectReceipt },
    FencedInfrastructureUnknown { receipt: EffectReceipt },
}

#[derive(Clone, Copy, Debug, PartialEq, Eq, Structural)]
pub enum EffectLifecycle {
    Intended { lease_epoch: LeaseEpoch },
    Leased { epoch: LeaseEpoch },
    Reconciled { lease_epoch: LeaseEpoch, evidence: ReconciliationId },
    Settled { epoch: LeaseEpoch, receipt: EffectReceipt },
}

impl EffectLifecycle {
    /// The lease that an effect waits for, is under, or was settled at.
    pub open spec fn epoch(self) -> LeaseEpoch {
        match self {
            EffectLifecycle::Intended { lease_epoch } => lease_epoch,
            EffectLifecycle::Leased { epoch } => epoch,
            EffectLifecycle::Reconciled { lease_epoch, .. } => lease_epoch,
            EffectLifecycle::Settled { epoch, .. } => epoch,
        }
    }

    pub fn is_terminal(&self) -> (r: bool)
        ensures
            r == (self is Settled),
    {
        match self {
            EffectLifecycle::Settled { .. } => true,
            _ => false,
        }
    }
}

#[derive(Clone, Copy, Debug, PartialEq, Eq, Structural)]
pub struct EffectState {
    pub intent: EffectIntent,
    pub lifecycle: EffectLifecycle,
}

impl EffectState {
    pub fn intent(&self) -> (r: &EffectIntent)
        ensures
            *r == self.intent,
    {
        &self.intent
    }

    pub fn lifecycle(&self) -> (r: &EffectLifecycle)
        ensures
            *r == self.lifecycle,
    {
        &self.lifecycle
    }
}

#[derive(Clone, Copy, Debug, PartialEq, Eq, Structural)]
pub enum CandidateParent {
    BaseRevision(Digest),
    Candidate(CandidateId),
}

#[derive(Clone, Copy, Debug, PartialEq, Eq, Structural)]
pub enum CandidateStage {
    Proposed { proposal: ProposalId },
    Trialed { proposal: ProposalId, trial: TrialResultId },
    Scored { proposal: ProposalId, trial: TrialResultId, score: ScoreResultId },
    Composed {
        proposal: ProposalId,
        trial: TrialResultId,
        score: ScoreResultId,
        composition: CompositionId,
        revision: Digest,
    },
    Audited {
        proposal: ProposalId,
        trial: TrialResultId,
        score: ScoreResultId,
        composition: CompositionId,
        revision: Digest,
        report: AuditReportId,
    },
}

#[derive(Clone, Copy, Debug, PartialEq, Eq, Structural)]
pub enum CompositeOutcome {
    Verified,
    NotVerified,
    Inconclusive,
}

#[derive(Clone, Copy, Debug, PartialEq, Eq, Structural)]
pub enum CompositeStage {
    AwaitingTrial,
    Trialed { trial: TrialResultId },
    Scored { trial: TrialResultId, score: ScoreResultId, outcome: CompositeOutcome },
    Audited { trial: TrialResultId, score: ScoreResultId, report: AuditReportId },
}

#[derive(Debug, PartialEq, Eq)]
pub struct CompositeState {
    pub plan: CompositePlan,
    pub stage: CompositeStage,
}

impl CompositeState {
    pub fn plan(&self) -> (r: &CompositePlan)
        ensures
            *r == self.plan,
    {
        &self.plan
    }

    pub fn stage(&self) -> (r: CompositeStage)
        ensures
            r == self.stage,
    {
        self.stage
    }
}

#[derive(Clone, Copy, Debug, PartialEq, Eq, Structural)]
pub struct CandidateState {
    pub id: CandidateId,
    pub parent: CandidateParent,
    pub stage: CandidateStage,
}

impl CandidateState {
    pub fn id(&self) -> (r: CandidateId)
        ensures
            r == self.id,
    {
        self.id
    }

    pub fn parent(&self) -> (r: CandidateParent)
        ensures
            r == self.parent,
    {
        self.parent
    }

    pub fn stage(&self) -> (r: CandidateStage)
        ensures
            r == self.stage,
    {
        self.stage
    }
}

#[derive(Clone, Copy, Debug, PartialEq, Eq, Structural)]
pub enum RoundVerdict {
    Continue { basis: RoundVerdictId },
    Compose { candidate: CandidateId, basis: RoundVerdictId },
    ComposeComposite { candidate: CandidateId, composition: CompositionId, basis: RoundVerdictId },
    NoUpdate { basis: RoundVerdictId },
    Inconclusive { basis: RoundVerdictId },
}

#[derive(Debug, PartialEq, Eq)]
pub struct RoundState {
    pub id: RoundId,
    pub ordinal: u32,
    pub mining: Option<MiningResultId>,
    pub candidates: Vec<CandidateState>,
    pub verdict: Option<RoundVerdict>,
    pub composite: Option<CompositeState>,
}

impl RoundState {
    pub fn id(&self) -> (r: RoundId)
        ensures
            r == self.id,
    {
        self.id
    }

    pub fn ordinal(&self) -> (r: u32)
        ensures
            r == self.ordinal,
    {
        self.ordinal
    }

    pub fn mining(&self) -> (r: Option<MiningResultId>)
        ensures
            r == self.mining,
    {
        self.mining
    }

    pub fn candidates(&self) -> (r: &[CandidateState])
        ensures
            r@ == self.candidates@,
    {
        self.candidates.as_slice()
    }

    pub fn verdict(&self) -> (r: Option<RoundVerdict>)
        ensures
            r == self.verdict,
    {
        self.verdict
    }

    pub fn composite(&self) -> (r: Option<&CompositeState>)
        ensures
            match r {
                Some(value) => self.composite == Some(*value),
                None => self.composite is None,
            },
    {
        self.composite.as_ref()
    }
}

#[derive(Clone, Copy, Debug, PartialEq, Eq, Structural)]
pub enum FinalVerdict {
    Verified { candidate: CandidateId, revision: Digest, report: AuditReportId },
    NotVerified { candidate: CandidateId, revision: Digest, report: AuditReportId },
    Inconclusive { candidate: CandidateId, revision: Digest, report: AuditReportId },
}

impl FinalVerdict {
    pub open spec fn spec_candidate(self) -> CandidateId {
        match self {
            FinalVerdict::Verified { candidate, .. } => candidate,
            FinalVerdict::NotVerified { candidate, .. } => candidate,
            FinalVerdict::Inconclusive { candidate, .. } => candidate,
        }
    }

    pub open spec fn spec_revision(self) -> Digest {
        match self {
            FinalVerdict::Verified { revision, .. } => revision,
            FinalVerdict::NotVerified { revision, .. } => revision,
            FinalVerdict::Inconclusive { revision, .. } => revision,
        }
    }

    pub open spec fn spec_report(self) -> AuditReportId {
        match self {
            FinalVerdict::Verified { report, .. } => report,
            FinalVerdict::NotVerified { report, .. } => report,
            FinalVerdict::Inconclusive { report, .. } => report,
        }
    }

    pub(crate) fn candidate(self) -> (r: CandidateId)
        ensures
            r == self.spec_candidate(),
    {
        match self {
            FinalVerdict::Verified { candidate, .. } => candidate,
            FinalVerdict::NotVerified { candidate, .. } => candidate,
            FinalVerdict::Inconclusive { candidate, .. } => candidate,
        }
    }

    pub fn revision(self) -> (r: Digest)
        ensures
            r == self.spec_revision(),
    {
        match self {
            FinalVerdict::Verified { revision, .. } => revision,
            FinalVerdict::NotVerified { revision, .. } => revision,
            FinalVerdict::Inconclusive { revision, .. } => revision,
        }
    }

    pub fn report(self) -> (r: AuditReportId)
        ensures
            r == self.spec_report(),
    {
        match self {
            FinalVerdict::Verified { report, .. } => report,
            FinalVerdict::NotVerified { report, .. } => report,
            FinalVerdict::Inconclusive { report, .. } => report,
        }
    }
}

#[derive(Debug, PartialEq, Eq)]
pub enum ApprovalDecision {
    Approved { id: ApprovalId, revision: Digest },
    Rejected { id: ApprovalId, revision: Digest, reason: CampaignNote },
}

impl ApprovalDecision {
    pub open spec fn spec_revision(self) -> Digest {
        match self {
            ApprovalDecision::Approved { revision, .. } => revision,
            ApprovalDecision::Rejected { revision, .. } => revision,
        }
    }

    pub fn revision(&self) -> (r: Digest)
        ensures
            r == self.spec_revision(),
    {
        match self {
            ApprovalDecision::Approved { revision, .. } => *revision,
            ApprovalDecision::Rejected { revision, .. } => *revision,
        }
    }
}

impl Clone for ApprovalDecision {
    fn clone(&self) -> (r: Self)
        ensures
            r == *self,
    {
        match self {
            ApprovalDecision::Approved { id, revision } => ApprovalDecision::Approved {
                id: *id,
                revision: *revision,
            },
            ApprovalDecision::Rejected { id, revision, reason } => ApprovalDecision::Rejected {
                id: *id,
                revision: *revision,
                reason: reason.clone(),
            },
        }
    }
}

#[derive(Debug, PartialEq, Eq)]
pub enum ApprovalState {
    Awaiting { revision: Digest },
    Approved { id: ApprovalId, revision: Digest },
    Rejected { id: ApprovalId, revision: Digest, reason: CampaignNote },
}

impl Clone for ApprovalState {
    fn clone(&self) -> (r: Self)
        ensures
            r == *self,
    {
        match self {
            ApprovalState::Awaiting { revision } => ApprovalState::Awaiting { revision: *revision },
            ApprovalState::Approved { id, revision } => ApprovalState::Approved {
                id: *id,
                revision: *revision,
            },
            ApprovalState::Rejected { id, revision, reason } => ApprovalState::Rejected {
                id: *id,
                revision: *revision,
                reason: reason.clone(),
            },
        }
    }
}

#[derive(Clone, Copy, Debug, PartialEq, Eq, Structural)]
pub enum ActivationOutcome {
    Activated { revision: Digest, receipt: ActivationReceiptId },
    Superseded {
        requested_revision: Digest,
        active_revision: Digest,
        receipt: ActivationReceiptId,
    },
}

impl ActivationOutcome {
    pub open spec fn spec_requested_revision(self) -> Digest {
        match self {
            ActivationOutcome::Activated { revision, .. } => revision,
            ActivationOutcome::Superseded { requested_revision, .. } => requested_revision,
        }
    }

    pub(crate) fn requested_revision(self) -> (r: Digest)
        ensures
            r == self.spec_requested_revision(),
    {
        match self {
            ActivationOutcome::Activated { revision, .. } => revision,
            ActivationOutcome::Superseded { requested_revision, .. } => requested_revision,
        }
    }
}

#[derive(Clone, Copy, Debug, PartialEq, Eq, Structural)]
pub enum ActivationState {
    Awaiting { revision: Digest },
    Activated { revision: Digest, receipt: ActivationReceiptId },
    Superseded {
        requested_revision: Digest,
        active_revision: Digest,
        receipt: ActivationReceiptId,
    },
}

#[derive(Clone, Copy, Debug, PartialEq, Eq, Structural)]
pub enum MonitoringOutcome {
    Healthy { revision: Digest, report: MonitoringReportId },
    RolledBack {
        from_revision: Digest,
        restored_revision: Digest,
        report: MonitoringReportId,
        receipt: RollbackReceiptId,
    },
    InfrastructureUnknown { revision: Digest, report: MonitoringReportId },
}

impl MonitoringOutcome {
    pub open spec fn spec_monitored_revision(self) -> Digest {
        match self {
            MonitoringOutcome::Healthy { revision, .. } => revision,
            MonitoringOutcome::InfrastructureUnknown { revision, .. } => revision,
            MonitoringOutcome::RolledBack { from_revision, .. } => from_revision,
        }
    }

    pub(crate) fn monitored_revision(self) -> (r: Digest)
        ensures
            r == self.spec_monitored_revision(),
    {
        match self {
            MonitoringOutcome::Healthy { revision, .. } => revision,
            MonitoringOutcome::InfrastructureUnknown { revision, .. } => revision,
            MonitoringOutcome::RolledBack { from_revision, .. } => from_revision,
        }
    }
}

#[derive(Clone, Copy, Debug, PartialEq, Eq, Structural)]
pub enum MonitoringState {
    Active { revision: Digest, activation: ActivationReceiptId },
    Completed(MonitoringOutcome),
}

#[derive(Debug, PartialEq, Eq)]
pub enum TerminalState {
    NoUpdate { round: RoundId, verdict: RoundVerdict },
    RoundInconclusive { round: RoundId, verdict: RoundVerdict },
    CompositionFallback { round: RoundId, failure: CompositionFailure },
    CompositeFallback {
        round: RoundId,
        candidate: CandidateId,
        revision: Digest,
        score: ScoreResultId,
        outcome: CompositeOutcome,
        fallback: CompositionFallback,
    },
    NotVerified(FinalVerdict),
    AuditInconclusive(FinalVerdict),
    ApprovalRejected(ApprovalDecision),
    Superseded(ActivationOutcome),
    MonitoringCompleted(MonitoringOutcome),
}

#[derive(Debug, PartialEq, Eq)]
pub struct PauseState {
    pub previous_phase: CampaignPhase,
    pub reason: CampaignNote,
}

impl Clone for PauseState {
    fn clone(&self) -> (r: Self)
        ensures
            r == *self,
    {
        PauseState { previous_phase: self.previous_phase, reason: self.reason.clone() }
    }
}

impl PauseState {
    pub fn previous_phase(&self) -> (r: CampaignPhase)
        ensures
            r == self.previous_phase,
    {
        self.previous_phase
    }

    pub fn reason(&self) -> (r: &CampaignNote)
        ensures
            *r == self.reason,
    {
        &self.reason
    }
}

} // verus!
