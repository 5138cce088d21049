//! Identities of campaigns and of what they work on.
use crate::digest::Digest;
use crate::uuid::{parsed_uuid, Uuid};
use vstd::prelude::*;

verus! {

/// A round of a campaign.
#[derive(Clone, Copy, Debug, PartialEq, Eq, PartialOrd, Ord, Hash, Structural)]
pub struct RoundId(pub Digest);

impl RoundId {
    pub fn from_digest(digest: Digest) -> (r: Self)
        ensures
            r == RoundId(digest),
    {
        RoundId(digest)
    }

    pub fn digest(self) -> (r: Digest)
        ensures
            r == self.0,
    {
        self.0
    }

    /// The hexadecimal text of the identity.
    pub fn to_string(&self) -> (r: String)
        ensures
            r@ == self.0.text(),
    {
        self.0.to_string()
    }
}

/// A proposed or composed candidate.
#[derive(Clone, Copy, Debug, PartialEq, Eq, PartialOrd, Ord, Hash, Structural)]
pub struct CandidateId(pub Digest);

impl CandidateId {
    pub fn from_digest(digest: Digest) -> (r: Self)
        ensures
            r == CandidateId(digest),
    {
        CandidateId(digest)
    }

    pub fn digest(self) -> (r: Digest)
        ensures
            r == self.0,
    {
        self.0
    }

    /// The hexadecimal text of the identity.
    pub fn to_string(&self) -> (r: String)
        ensures
            r@ == self.0.text(),
    {
        self.0.to_string()
    }
}

/// What mining found for a round.
#[derive(Clone, Copy, Debug, PartialEq, Eq, PartialOrd, Ord, Hash, Structural)]
pub struct MiningResultId(pub Digest);

impl MiningResultId {
    pub fn from_digest(digest: Digest) -> (r: Self)
        ensures
            r == MiningResultId(digest),
    {
        MiningResultId(digest)
    }

    pub fn digest(self) -> (r: Digest)
        ensures
            r == self.0,
    {
        self.0
    }

    /// The hexadecimal text of the identity.
    pub fn to_string(&self) -> (r: String)
        ensures
            r@ == self.0.text(),
    {
        self.0.to_string()
    }
}

/// A proposal that a candidate came from.
#[derive(Clone, Copy, Debug, PartialEq, Eq, PartialOrd, Ord, Hash, Structural)]
pub struct ProposalId(pub Digest);

impl ProposalId {
    pub fn from_digest(digest: Digest) -> (r: Self)
        ensures
            r == ProposalId(digest),
    {
        ProposalId(digest)
    }

    pub fn digest(self) -> (r: Digest)
        ensures
            r == self.0,
    {
        self.0
    }

    /// The hexadecimal text of the identity.
    pub fn to_string(&self) -> (r: String)
        ensures
            r@ == self.0.text(),
    {
        self.0.to_string()
    }
}

/// The trials of a candidate.
#[derive(Clone, Copy, Debug, PartialEq, Eq, PartialOrd, Ord, Hash, Structural)]
pub struct TrialResultId(pub Digest);

impl TrialResultId {
    pub fn from_digest(digest: Digest) -> (r: Self)
        ensures
            r == TrialResultId(digest),
    {
        TrialResultId(digest)
    }

    pub fn digest(self) -> (r: Digest)
        ensures
            r == self.0,
    {
        self.0
    }

    /// The hexadecimal text of the identity.
    pub fn to_string(&self) -> (r: String)
        ensures
            r@ == self.0.text(),
    {
        self.0.to_string()
    }
}

/// The score of a candidate.
#[derive(Clone, Copy, Debug, PartialEq, Eq, PartialOrd, Ord, Hash, Structural)]
pub struct ScoreResultId(pub Digest);

impl ScoreResultId {
    pub fn from_digest(digest: Digest) -> (r: Self)
        ensures
            r == ScoreResultId(digest),
    {
        ScoreResultId(digest)
    }

    pub fn digest(self) -> (r: Digest)
        ensures
            r == self.0,
    {
        self.0
    }

    /// The hexadecimal text of the identity.
    pub fn to_string(&self) -> (r: String)
        ensures
            r@ == self.0.text(),
    {
        self.0.to_string()
    }
}

/// What a round verdict was based on.
#[derive(Clone, Copy, Debug, PartialEq, Eq, PartialOrd, Ord, Hash, Structural)]
pub struct RoundVerdictId(pub Digest);

impl RoundVerdictId {
    pub fn from_digest(digest: Digest) -> (r: Self)
        ensures
            r == RoundVerdictId(digest),
    {
        RoundVerdictId(digest)
    }

    pub fn digest(self) -> (r: Digest)
        ensures
            r == self.0,
    {
        self.0
    }

    /// The hexadecimal text of the identity.
    pub fn to_string(&self) -> (r: String)
        ensures
            r@ == self.0.text(),
    {
        self.0.to_string()
    }
}

/// A composition of candidates.
#[derive(Clone, Copy, Debug, PartialEq, Eq, PartialOrd, Ord, Hash, Structural)]
pub struct CompositionId(pub Digest);

impl CompositionId {
    pub fn from_digest(digest: Digest) -> (r: Self)
        ensures
            r == CompositionId(digest),
    {
        CompositionId(digest)
    }

    pub fn digest(self) -> (r: Digest)
        ensures
            r == self.0,
    {
        self.0
    }

    /// The hexadecimal text of the identity.
    pub fn to_string(&self) -> (r: String)
        ensures
            r@ == self.0.text(),
    {
        self.0.to_string()
    }
}

/// A final audit.
#[derive(Clone, Copy, Debug, PartialEq, Eq, PartialOrd, Ord, Hash, Structural)]
pub struct AuditReportId(pub Digest);

impl AuditReportId {
    pub fn from_digest(digest: Digest) -> (r: Self)
        ensures
            r == AuditReportId(digest),
    {
        AuditReportId(digest)
    }

    pub fn digest(self) -> (r: Digest)
        ensures
            r == self.0,
    {
        self.0
    }

    /// The hexadecimal text of the identity.
    pub fn to_string(&self) -> (r: String)
        ensures
            r@ == self.0.text(),
    {
        self.0.to_string()
    }
}

/// A decision of an approver.
#[derive(Clone, Copy, Debug, PartialEq, Eq, PartialOrd, Ord, Hash, Structural)]
pub struct ApprovalId(pub Digest);

impl ApprovalId {
    pub fn from_digest(digest: Digest) -> (r: Self)
        ensures
            r == ApprovalId(digest),
    {
        ApprovalId(digest)
    }

    pub fn digest(self) -> (r: Digest)
        ensures
            r == self.0,
    {
        self.0
    }

    /// The hexadecimal text of the identity.
    pub fn to_string(&self) -> (r: String)
        ensures
            r@ == self.0.text(),
    {
        self.0.to_string()
    }
}

/// An activation that took place.
#[derive(Clone, Copy, Debug, PartialEq, Eq, PartialOrd, Ord, Hash, Structural)]
pub struct ActivationReceiptId(pub Digest);

impl ActivationReceiptId {
    pub fn from_digest(digest: Digest) -> (r: Self)
        ensures
            r == ActivationReceiptId(digest),
    {
        ActivationReceiptId(digest)
    }

    pub fn digest(self) -> (r: Digest)
        ensures
            r == self.0,
    {
        self.0
    }

    /// The hexadecimal text of the identity.
    pub fn to_string(&self) -> (r: String)
        ensures
            r@ == self.0.text(),
    {
        self.0.to_string()
    }
}

/// A monitoring report.
#[derive(Clone, Copy, Debug, PartialEq, Eq, PartialOrd, Ord, Hash, Structural)]
pub struct MonitoringReportId(pub Digest);

impl MonitoringReportId {
    pub fn from_digest(digest: Digest) -> (r: Self)
        ensures
            r == MonitoringReportId(digest),
    {
        MonitoringReportId(digest)
    }

    pub fn digest(self) -> (r: Digest)
        ensures
            r == self.0,
    {
        self.0
    }

    /// The hexadecimal text of the identity.
    pub fn to_string(&self) -> (r: String)
        ensures
            r@ == self.0.text(),
    {
        self.0.to_string()
    }
}

/// A rollback that took place.
#[derive(Clone, Copy, Debug, PartialEq, Eq, PartialOrd, Ord, Hash, Structural)]
pub struct RollbackReceiptId(pub Digest);

impl RollbackReceiptId {
    pub fn from_digest(digest: Digest) -> (r: Self)
        ensures
            r == RollbackReceiptId(digest),
    {
        RollbackReceiptId(digest)
    }

    pub fn digest(self) -> (r: Digest)
        ensures
            r == self.0,
    {
        self.0
    }

    /// The hexadecimal text of the identity.
    pub fn to_string(&self) -> (r: String)
        ensures
            r@ == self.0.text(),
    {
        self.0.to_string()
    }
}

/// The work that an effect carries out.
#[derive(Clone, Copy, Debug, PartialEq, Eq, PartialOrd, Ord, Hash, Structural)]
pub struct EffectWorkId(pub Digest);

impl EffectWorkId {
    pub fn from_digest(digest: Digest) -> (r: Self)
        ensures
            r == EffectWorkId(digest),
    {
        EffectWorkId(digest)
    }

    pub fn digest(self) -> (r: Digest)
        ensures
            r == self.0,
    {
        self.0
    }

    /// The hexadecimal text of the identity.
    pub fn to_string(&self) -> (r: String)
        ensures
            r@ == self.0.text(),
    {
        self.0.to_string()
    }
}

/// What a successful effect produced.
#[derive(Clone, Copy, Debug, PartialEq, Eq, PartialOrd, Ord, Hash, Structural)]
pub struct EffectOutputId(pub Digest);

impl EffectOutputId {
    pub fn from_digest(digest: Digest) -> (r: Self)
        ensures
            r == EffectOutputId(digest),
    {
        EffectOutputId(digest)
    }

    pub fn digest(self) -> (r: Digest)
        ensures
            r == self.0,
    {
        self.0
    }

    /// The hexadecimal text of the identity.
    pub fn to_string(&self) -> (r: String)
        ensures
            r@ == self.0.text(),
    {
        self.0.to_string()
    }
}

/// Why an effect failed.
#[derive(Clone, Copy, Debug, PartialEq, Eq, PartialOrd, Ord, Hash, Structural)]
pub struct EffectFailureId(pub Digest);

impl EffectFailureId {
    pub fn from_digest(digest: Digest) -> (r: Self)
        ensures
            r == EffectFailureId(digest),
    {
        EffectFailureId(digest)
    }

    pub fn digest(self) -> (r: Digest)
        ensures
            r == self.0,
    {
        self.0
    }

    /// The hexadecimal text of the identity.
    pub fn to_string(&self) -> (r: String)
        ensures
            r@ == self.0.text(),
    {
        self.0.to_string()
    }
}

/// Why the end of an effect is unknown.
#[derive(Clone, Copy, Debug, PartialEq, Eq, PartialOrd, Ord, Hash, Structural)]
pub struct EffectUncertaintyId(pub Digest);

impl EffectUncertaintyId {
    pub fn from_digest(digest: Digest) -> (r: Self)
        ensures
            r == EffectUncertaintyId(digest),
    {
        EffectUncertaintyId(digest)
    }

    pub fn digest(self) -> (r: Digest)
        ensures
            r == self.0,
    {
        self.0
    }

    /// The hexadecimal text of the identity.
    pub fn to_string(&self) -> (r: String)
        ensures
            r@ == self.0.text(),
    {
        self.0.to_string()
    }
}

/// A receipt of an effect.
#[derive(Clone, Copy, Debug, PartialEq, Eq, PartialOrd, Ord, Hash, Structural)]
pub struct EffectReceiptId(pub Digest);

impl EffectReceiptId {
    pub fn from_digest(digest: Digest) -> (r: Self)
        ensures
            r == EffectReceiptId(digest),
    {
        EffectReceiptId(digest)
    }

    pub fn digest(self) -> (r: Digest)
        ensures
            r == self.0,
    {
        self.0
    }

    /// The hexadecimal text of the identity.
    pub fn to_string(&self) -> (r: String)
        ensures
            r@ == self.0.text(),
    {
        self.0.to_string()
    }
}

/// The evidence of a reconciliation.
#[derive(Clone, Copy, Debug, PartialEq, Eq, PartialOrd, Ord, Hash, Structural)]
pub struct ReconciliationId(pub Digest);

impl ReconciliationId {
    pub fn from_digest(digest: Digest) -> (r: Self)
        ensures
            r == ReconciliationId(digest),
    {
        ReconciliationId(digest)
    }

    pub fn digest(self) -> (r: Digest)
        ensures
            r == self.0,
    {
        self.0
    }

    /// The hexadecimal text of the identity.
    pub fn to_string(&self) -> (r: String)
        ensures
            r@ == self.0.text(),
    {
        self.0.to_string()
    }
}

/// A model.
#[derive(Clone, Copy, Debug, PartialEq, Eq, PartialOrd, Ord, Hash, Structural)]
pub struct ModelIdentity(pub Digest);

impl ModelIdentity {
    pub fn from_digest(digest: Digest) -> (r: Self)
        ensures
            r == ModelIdentity(digest),
    {
        ModelIdentity(digest)
    }

    pub fn digest(self) -> (r: Digest)
        ensures
            r == self.0,
    {
        self.0
    }

    /// Reads an identity from its text.
    pub fn parse(text: &str) -> (r: Option<Self>)
        ensures
            match r {
                Some(id) => id.0.text() == text@,
                None => forall|digest: Digest| #[trigger] digest.text() != text@,
            },
    {
        match Digest::parse(text) {
            Some(digest) => Some(ModelIdentity(digest)),
            None => None,
        }
    }

    /// The hexadecimal text of the identity.
    pub fn to_string(&self) -> (r: String)
        ensures
            r@ == self.0.text(),
    {
        self.0.to_string()
    }
}

/// A protocol.
#[derive(Clone, Copy, Debug, PartialEq, Eq, PartialOrd, Ord, Hash, Structural)]
pub struct ProtocolIdentity(pub Digest);

impl ProtocolIdentity {
    pub fn from_digest(digest: Digest) -> (r: Self)
        ensures
            r == ProtocolIdentity(digest),
    {
        ProtocolIdentity(digest)
    }

    pub fn digest(self) -> (r: Digest)
        ensures
            r == self.0,
    {
        self.0
    }

    /// Reads an identity from its text.
    pub fn parse(text: &str) -> (r: Option<Self>)
        ensures
            match r {
                Some(id) => id.0.text() == text@,
                None => forall|digest: Digest| #[trigger] digest.text() != text@,
            },
    {
        match Digest::parse(text) {
            Some(digest) => Some(ProtocolIdentity(digest)),
            None => None,
        }
    }

    /// The hexadecimal text of the identity.
    pub fn to_string(&self) -> (r: String)
        ensures
            r@ == self.0.text(),
    {
        self.0.to_string()
    }
}

/// An execution environment.
#[derive(Clone, Copy, Debug, PartialEq, Eq, PartialOrd, Ord, Hash, Structural)]
pub struct EnvironmentIdentity(pub Digest);

impl EnvironmentIdentity {
    pub fn from_digest(digest: Digest) -> (r: Self)
        ensures
            r == EnvironmentIdentity(digest),
    {
        EnvironmentIdentity(digest)
    }

    pub fn digest(self) -> (r: Digest)
        ensures
            r == self.0,
    {
        self.0
    }

    /// Reads an identity from its text.
    pub fn parse(text: &str) -> (r: Option<Self>)
        ensures
            match r {
                Some(id) => id.0.text() == text@,
                None => forall|digest: Digest| #[trigger] digest.text() != text@,
            },
    {
        match Digest::parse(text) {
            Some(digest) => Some(EnvironmentIdentity(digest)),
            None => None,
        }
    }

    /// The hexadecimal text of the identity.
    pub fn to_string(&self) -> (r: String)
        ensures
            r@ == self.0.text(),
    {
        self.0.to_string()
    }
}

/// A profile of tasks.
#[derive(Clone, Copy, Debug, PartialEq, Eq, PartialOrd, Ord, Hash, Structural)]
pub struct TaskProfileIdentity(pub Digest);

impl TaskProfileIdentity {
    pub fn from_digest(digest: Digest) -> (r: Self)
        ensures
            r == TaskProfileIdentity(digest),
    {
        TaskProfileIdentity(digest)
    }

    pub fn digest(self) -> (r: Digest)
        ensures
            r == self.0,
    {
        self.0
    }

    /// Reads an identity from its text.
    pub fn parse(text: &str) -> (r: Option<Self>)
        ensures
            match r {
                Some(id) => id.0.text() == text@,
                None => forall|digest: Digest| #[trigger] digest.text() != text@,
            },
    {
        match Digest::parse(text) {
            Some(digest) => Some(TaskProfileIdentity(digest)),
            None => None,
        }
    }

    /// The hexadecimal text of the identity.
    pub fn to_string(&self) -> (r: String)
        ensures
            r@ == self.0.text(),
    {
        self.0.to_string()
    }
}

/// An evaluator.
#[derive(Clone, Copy, Debug, PartialEq, Eq, PartialOrd, Ord, Hash, Structural)]
pub struct EvaluatorIdentity(pub Digest);

impl EvaluatorIdentity {
    pub fn from_digest(digest: Digest) -> (r: Self)
        ensures
            r == EvaluatorIdentity(digest),
    {
        EvaluatorIdentity(digest)
    }

    pub fn digest(self) -> (r: Digest)
        ensures
            r == self.0,
    {
        self.0
    }

    /// Reads an identity from its text.
    pub fn parse(text: &str) -> (r: Option<Self>)
        ensures
            match r {
                Some(id) => id.0.text() == text@,
                None => forall|digest: Digest| #[trigger] digest.text() != text@,
            },
    {
        match Digest::parse(text) {
            Some(digest) => Some(EvaluatorIdentity(digest)),
            None => None,
        }
    }

    /// The hexadecimal text of the identity.
    pub fn to_string(&self) -> (r: String)
        ensures
            r@ == self.0.text(),
    {
        self.0.to_string()
    }
}

/// A scoring policy.
#[derive(Clone, Copy, Debug, PartialEq, Eq, PartialOrd, Ord, Hash, Structural)]
pub struct PolicyIdentity(pub Digest);

impl PolicyIdentity {
    pub fn from_digest(digest: Digest) -> (r: Self)
        ensures
            r == PolicyIdentity(digest),
    {
        PolicyIdentity(digest)
    }

    pub fn digest(self) -> (r: Digest)
        ensures
            r == self.0,
    {
        self.0
    }

    /// Reads an identity from its text.
    pub fn parse(text: &str) -> (r: Option<Self>)
        ensures
            match r {
                Some(id) => id.0.text() == text@,
                None => forall|digest: Digest| #[trigger] digest.text() != text@,
            },
    {
        match Digest::parse(text) {
            Some(digest) => Some(PolicyIdentity(digest)),
            None => None,
        }
    }

    /// The hexadecimal text of the identity.
    pub fn to_string(&self) -> (r: String)
        ensures
            r@ == self.0.text(),
    {
        self.0.to_string()
    }
}

/// A commitment to a data partition.
#[derive(Clone, Copy, Debug, PartialEq, Eq, PartialOrd, Ord, Hash, Structural)]
pub struct PartitionCommitment(pub Digest);

impl PartitionCommitment {
    pub fn from_digest(digest: Digest) -> (r: Self)
        ensures
            r == PartitionCommitment(digest),
    {
        PartitionCommitment(digest)
    }

    pub fn digest(self) -> (r: Digest)
        ensures
            r == self.0,
    {
        self.0
    }

    /// Reads an identity from its text.
    pub fn parse(text: &str) -> (r: Option<Self>)
        ensures
            match r {
                Some(id) => id.0.text() == text@,
                None => forall|digest: Digest| #[trigger] digest.text() != text@,
            },
    {
        match Digest::parse(text) {
            Some(digest) => Some(PartitionCommitment(digest)),
            None => None,
        }
    }

    /// The hexadecimal text of the identity.
    pub fn to_string(&self) -> (r: String)
        ensures
            r@ == self.0.text(),
    {
        self.0.to_string()
    }
}

/// A block of independent cases.
#[derive(Clone, Copy, Debug, PartialEq, Eq, PartialOrd, Ord, Hash, Structural)]
pub struct IndependentBlockId(pub Digest);

impl IndependentBlockId {
    pub fn from_digest(digest: Digest) -> (r: Self)
        ensures
            r == IndependentBlockId(digest),
    {
        IndependentBlockId(digest)
    }

    pub fn digest(self) -> (r: Digest)
        ensures
            r == self.0,
    {
        self.0
    }

    /// Reads an identity from its text.
    pub fn parse(text: &str) -> (r: Option<Self>)
        ensures
            match r {
                Some(id) => id.0.text() == text@,
                None => forall|digest: Digest| #[trigger] digest.text() != text@,
            },
    {
        match Digest::parse(text) {
            Some(digest) => Some(IndependentBlockId(digest)),
            None => None,
        }
    }

    /// The hexadecimal text of the identity.
    pub fn to_string(&self) -> (r: String)
        ensures
            r@ == self.0.text(),
    {
        self.0.to_string()
    }
}

/// An evaluation case.
#[derive(Clone, Copy, Debug, PartialEq, Eq, PartialOrd, Ord, Hash, Structural)]
pub struct CaseIdentity(pub Digest);

impl CaseIdentity {
    pub fn from_digest(digest: Digest) -> (r: Self)
        ensures
            r == CaseIdentity(digest),
    {
        CaseIdentity(digest)
    }

    pub fn digest(self) -> (r: Digest)
        ensures
            r == self.0,
    {
        self.0
    }

    /// Reads an identity from its text.
    pub fn parse(text: &str) -> (r: Option<Self>)
        ensures
            match r {
                Some(id) => id.0.text() == text@,
                None => forall|digest: Digest| #[trigger] digest.text() != text@,
            },
    {
        match Digest::parse(text) {
            Some(digest) => Some(CaseIdentity(digest)),
            None => None,
        }
    }

    /// The hexadecimal text of the identity.
    pub fn to_string(&self) -> (r: String)
        ensures
            r@ == self.0.text(),
    {
        self.0.to_string()
    }
}

/// A task.
#[derive(Clone, Copy, Debug, PartialEq, Eq, PartialOrd, Ord, Hash, Structural)]
pub struct TaskIdentity(pub Digest);

impl TaskIdentity {
    pub fn from_digest(digest: Digest) -> (r: Self)
        ensures
            r == TaskIdentity(digest),
    {
        TaskIdentity(digest)
    }

    pub fn digest(self) -> (r: Digest)
        ensures
            r == self.0,
    {
        self.0
    }

    /// Reads an identity from its text.
    pub fn parse(text: &str) -> (r: Option<Self>)
        ensures
            match r {
                Some(id) => id.0.text() == text@,
                None => forall|digest: Digest| #[trigger] digest.text() != text@,
            },
    {
        match Digest::parse(text) {
            Some(digest) => Some(TaskIdentity(digest)),
            None => None,
        }
    }

    /// The hexadecimal text of the identity.
    pub fn to_string(&self) -> (r: String)
        ensures
            r@ == self.0.text(),
    {
        self.0.to_string()
    }
}

/// A commitment to a trial input.
#[derive(Clone, Copy, Debug, PartialEq, Eq, PartialOrd, Ord, Hash, Structural)]
pub struct InputCommitment(pub Digest);

impl InputCommitment {
    pub fn from_digest(digest: Digest) -> (r: Self)
        ensures
            r == InputCommitment(digest),
    {
        InputCommitment(digest)
    }

    pub fn digest(self) -> (r: Digest)
        ensures
            r == self.0,
    {
        self.0
    }

    /// The hexadecimal text of the identity.
    pub fn to_string(&self) -> (r: String)
        ensures
            r@ == self.0.text(),
    {
        self.0.to_string()
    }
}

/// A pair of trials.
#[derive(Clone, Copy, Debug, PartialEq, Eq, PartialOrd, Ord, Hash, Structural)]
pub struct TrialPairId(pub Digest);

impl TrialPairId {
    pub fn from_digest(digest: Digest) -> (r: Self)
        ensures
            r == TrialPairId(digest),
    {
        TrialPairId(digest)
    }

    pub fn digest(self) -> (r: Digest)
        ensures
            r == self.0,
    {
        self.0
    }

    /// The hexadecimal text of the identity.
    pub fn to_string(&self) -> (r: String)
        ensures
            r@ == self.0.text(),
    {
        self.0.to_string()
    }
}

/// One side of a pair of trials.
#[derive(Clone, Copy, Debug, PartialEq, Eq, PartialOrd, Ord, Hash, Structural)]
pub struct TrialKeyId(pub Digest);

impl TrialKeyId {
    pub fn from_digest(digest: Digest) -> (r: Self)
        ensures
            r == TrialKeyId(digest),
    {
        TrialKeyId(digest)
    }

    pub fn digest(self) -> (r: Digest)
        ensures
            r == self.0,
    {
        self.0
    }

    /// The hexadecimal text of the identity.
    pub fn to_string(&self) -> (r: String)
        ensures
            r@ == self.0.text(),
    {
        self.0.to_string()
    }
}

/// A receipt of one isolated run.
#[derive(Clone, Copy, Debug, PartialEq, Eq, PartialOrd, Ord, Hash, Structural)]
pub struct IsolatedRunReceiptId(pub Digest);

impl IsolatedRunReceiptId {
    pub fn from_digest(digest: Digest) -> (r: Self)
        ensures
            r == IsolatedRunReceiptId(digest),
    {
        IsolatedRunReceiptId(digest)
    }

    pub fn digest(self) -> (r: Digest)
        ensures
            r == self.0,
    {
        self.0
    }

    /// The hexadecimal text of the identity.
    pub fn to_string(&self) -> (r: String)
        ensures
            r@ == self.0.text(),
    {
        self.0.to_string()
    }
}

/// A receipt of a pair of trials.
#[derive(Clone, Copy, Debug, PartialEq, Eq, PartialOrd, Ord, Hash, Structural)]
pub struct PairedTrialReceiptId(pub Digest);

impl PairedTrialReceiptId {
    pub fn from_digest(digest: Digest) -> (r: Self)
        ensures
            r == PairedTrialReceiptId(digest),
    {
        PairedTrialReceiptId(digest)
    }

    pub fn digest(self) -> (r: Digest)
        ensures
            r == self.0,
    {
        self.0
    }

    /// The hexadecimal text of the identity.
    pub fn to_string(&self) -> (r: String)
        ensures
            r@ == self.0.text(),
    {
        self.0.to_string()
    }
}

/// A request for proposals.
#[derive(Clone, Copy, Debug, PartialEq, Eq, PartialOrd, Ord, Hash, Structural)]
pub struct ProposalRequestRoot(pub Digest);

impl ProposalRequestRoot {
    pub fn from_digest(digest: Digest) -> (r: Self)
        ensures
            r == ProposalRequestRoot(digest),
    {
        ProposalRequestRoot(digest)
    }

    pub fn digest(self) -> (r: Digest)
        ensures
            r == self.0,
    {
        self.0
    }

    /// The hexadecimal text of the identity.
    pub fn to_string(&self) -> (r: String)
        ensures
            r@ == self.0.text(),
    {
        self.0.to_string()
    }
}

/// One proposal of a request.
#[derive(Clone, Copy, Debug, PartialEq, Eq, PartialOrd, Ord, Hash, Structural)]
pub struct ProposalIntentId(pub Digest);

impl ProposalIntentId {
    pub fn from_digest(digest: Digest) -> (r: Self)
        ensures
            r == ProposalIntentId(digest),
    {
        ProposalIntentId(digest)
    }

    pub fn digest(self) -> (r: Digest)
        ensures
            r == self.0,
    {
        self.0
    }

    /// The hexadecimal text of the identity.
    pub fn to_string(&self) -> (r: String)
        ensures
            r@ == self.0.text(),
    {
        self.0.to_string()
    }
}

/// A receipt of a provider.
#[derive(Clone, Copy, Debug, PartialEq, Eq, PartialOrd, Ord, Hash, Structural)]
pub struct ProposalProviderReceiptId(pub Digest);

impl ProposalProviderReceiptId {
    pub fn from_digest(digest: Digest) -> (r: Self)
        ensures
            r == ProposalProviderReceiptId(digest),
    {
        ProposalProviderReceiptId(digest)
    }

    pub fn digest(self) -> (r: Digest)
        ensures
            r == self.0,
    {
        self.0
    }

    /// The hexadecimal text of the identity.
    pub fn to_string(&self) -> (r: String)
        ensures
            r@ == self.0.text(),
    {
        self.0.to_string()
    }
}

/// A batch of proposals.
#[derive(Clone, Copy, Debug, PartialEq, Eq, PartialOrd, Ord, Hash, Structural)]
pub struct ProposalBatchRoot(pub Digest);

impl ProposalBatchRoot {
    pub fn from_digest(digest: Digest) -> (r: Self)
        ensures
            r == ProposalBatchRoot(digest),
    {
        ProposalBatchRoot(digest)
    }

    pub fn digest(self) -> (r: Digest)
        ensures
            r == self.0,
    {
        self.0
    }

    /// The hexadecimal text of the identity.
    pub fn to_string(&self) -> (r: String)
        ensures
            r@ == self.0.text(),
    {
        self.0.to_string()
    }
}

/// A piece of mining evidence.
#[derive(Clone, Copy, Debug, PartialEq, Eq, PartialOrd, Ord, Hash, Structural)]
pub struct MiningEvidenceId(pub Digest);

impl MiningEvidenceId {
    pub fn from_digest(digest: Digest) -> (r: Self)
        ensures
            r == MiningEvidenceId(digest),
    {
        MiningEvidenceId(digest)
    }

    pub fn digest(self) -> (r: Digest)
        ensures
            r == self.0,
    {
        self.0
    }

    /// The hexadecimal text of the identity.
    pub fn to_string(&self) -> (r: String)
        ensures
            r@ == self.0.text(),
    {
        self.0.to_string()
    }
}

/// A receipt of a verifier.
#[derive(Clone, Copy, Debug, PartialEq, Eq, PartialOrd, Ord, Hash, Structural)]
pub struct VerifierReceiptId(pub Digest);

impl VerifierReceiptId {
    pub fn from_digest(digest: Digest) -> (r: Self)
        ensures
            r == VerifierReceiptId(digest),
    {
        VerifierReceiptId(digest)
    }

    pub fn digest(self) -> (r: Digest)
        ensures
            r == self.0,
    {
        self.0
    }

    /// The hexadecimal text of the identity.
    pub fn to_string(&self) -> (r: String)
        ensures
            r@ == self.0.text(),
    {
        self.0.to_string()
    }
}

/// A receipt of a classifier.
#[derive(Clone, Copy, Debug, PartialEq, Eq, PartialOrd, Ord, Hash, Structural)]
pub struct ClassifierReceiptId(pub Digest);

impl ClassifierReceiptId {
    pub fn from_digest(digest: Digest) -> (r: Self)
        ensures
            r == ClassifierReceiptId(digest),
    {
        ClassifierReceiptId(digest)
    }

    pub fn digest(self) -> (r: Digest)
        ensures
            r == self.0,
    {
        self.0
    }

    /// The hexadecimal text of the identity.
    pub fn to_string(&self) -> (r: String)
        ensures
            r@ == self.0.text(),
    {
        self.0.to_string()
    }
}

/// An observation.
#[derive(Clone, Copy, Debug, PartialEq, Eq, PartialOrd, Ord, Hash, Structural)]
pub struct MiningObservationId(pub Digest);

impl MiningObservationId {
    pub fn from_digest(digest: Digest) -> (r: Self)
        ensures
            r == MiningObservationId(digest),
    {
        MiningObservationId(digest)
    }

    pub fn digest(self) -> (r: Digest)
        ensures
            r == self.0,
    {
        self.0
    }

    /// The hexadecimal text of the identity.
    pub fn to_string(&self) -> (r: String)
        ensures
            r@ == self.0.text(),
    {
        self.0.to_string()
    }
}

/// A bundle of mining evidence.
#[derive(Clone, Copy, Debug, PartialEq, Eq, PartialOrd, Ord, Hash, Structural)]
pub struct MiningBundleRoot(pub Digest);

impl MiningBundleRoot {
    pub fn from_digest(digest: Digest) -> (r: Self)
        ensures
            r == MiningBundleRoot(digest),
    {
        MiningBundleRoot(digest)
    }

    pub fn digest(self) -> (r: Digest)
        ensures
            r == self.0,
    {
        self.0
    }

    /// The hexadecimal text of the identity.
    pub fn to_string(&self) -> (r: String)
        ensures
            r@ == self.0.text(),
    {
        self.0.to_string()
    }
}

/// A campaign.
#[derive(Clone, Copy, Debug, PartialEq, Eq, PartialOrd, Ord, Hash, Structural)]
pub struct CampaignId(pub Uuid);

impl CampaignId {
    pub fn from_uuid(id: Uuid) -> (r: Self)
        ensures
            r == CampaignId(id),
    {
        CampaignId(id)
    }

    pub fn as_uuid(self) -> (r: Uuid)
        ensures
            r == self.0,
    {
        self.0
    }

    /// Reads an identifier from its text.
    pub fn parse(text: &str) -> (r: Option<Self>)
        ensures
            match r {
                Some(id) => parsed_uuid(text@) == Some(id.0.number()),
                None => parsed_uuid(text@) is None,
            },
    {
        match Uuid::parse(text) {
            Some(id) => Some(CampaignId(id)),
            None => None,
        }
    }

    /// The hyphenated text of the identifier.
    pub fn to_string(&self) -> (r: String)
        ensures
            r@ == self.0.text(),
    {
        self.0.to_string()
    }
}

/// An evaluation cohort.
#[derive(Clone, Copy, Debug, PartialEq, Eq, PartialOrd, Ord, Hash, Structural)]
pub struct CohortId(pub Uuid);

impl CohortId {
    pub fn from_uuid(id: Uuid) -> (r: Self)
        ensures
            r == CohortId(id),
    {
        CohortId(id)
    }

    pub fn as_uuid(self) -> (r: Uuid)
        ensures
            r == self.0,
    {
        self.0
    }

    /// Reads an identifier from its text.
    pub fn parse(text: &str) -> (r: Option<Self>)
        ensures
            match r {
                Some(id) => parsed_uuid(text@) == Some(id.0.number()),
                None => parsed_uuid(text@) is None,
            },
    {
        match Uuid::parse(text) {
            Some(id) => Some(CohortId(id)),
            None => None,
        }
    }

    /// The hyphenated text of the identifier.
    pub fn to_string(&self) -> (r: String)
        ensures
            r@ == self.0.text(),
    {
        self.0.to_string()
    }
}

/// An epoch of final audits.
#[derive(Clone, Copy, Debug, PartialEq, Eq, PartialOrd, Ord, Hash, Structural)]
pub struct AuditEpochId(pub Uuid);

impl AuditEpochId {
    pub fn from_uuid(id: Uuid) -> (r: Self)
        ensures
            r == AuditEpochId(id),
    {
        AuditEpochId(id)
    }

    pub fn as_uuid(self) -> (r: Uuid)
        ensures
            r == self.0,
    {
        self.0
    }

    /// Reads an identifier from its text.
    pub fn parse(text: &str) -> (r: Option<Self>)
        ensures
            match r {
                Some(id) => parsed_uuid(text@) == Some(id.0.number()),
                None => parsed_uuid(text@) is None,
            },
    {
        match Uuid::parse(text) {
            Some(id) => Some(AuditEpochId(id)),
            None => None,
        }
    }

    /// The hyphenated text of the identifier.
    pub fn to_string(&self) -> (r: String)
        ensures
            r@ == self.0.text(),
    {
        self.0.to_string()
    }
}

/// An isolated environment of one run.
#[derive(Clone, Copy, Debug, PartialEq, Eq, PartialOrd, Ord, Hash, Structural)]
pub struct IsolationInstanceId(pub Uuid);

impl IsolationInstanceId {
    pub fn from_uuid(id: Uuid) -> (r: Self)
        ensures
            r == IsolationInstanceId(id),
    {
        IsolationInstanceId(id)
    }

    pub fn as_uuid(self) -> (r: Uuid)
        ensures
            r == self.0,
    {
        self.0
    }

    /// Reads an identifier from its text.
    pub fn parse(text: &str) -> (r: Option<Self>)
        ensures
            match r {
                Some(id) => parsed_uuid(text@) == Some(id.0.number()),
                None => parsed_uuid(text@) is None,
            },
    {
        match Uuid::parse(text) {
            Some(id) => Some(IsolationInstanceId(id)),
            None => None,
        }
    }

    /// The hyphenated text of the identifier.
    pub fn to_string(&self) -> (r: String)
        ensures
            r@ == self.0.text(),
    {
        self.0.to_string()
    }
}

} // verus!
