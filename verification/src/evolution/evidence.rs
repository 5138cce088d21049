//! Evidence of failures and passes, and references to sealed artifacts.
use crate::canonical::{bool_text, json_string, push_bool, push_digest, push_json_string, push_quoted, quoted};
use crate::digest::{digest_of_text, Digest};
use crate::evolution::ids::{
    AuditEpochId, CaseIdentity, ClassifierReceiptId, CohortId, IndependentBlockId,
    MiningEvidenceId, MiningObservationId, VerifierReceiptId,
};
use crate::text::{decimal, push_decimal, same_text};
use crate::uuid::Uuid;
use vstd::prelude::*;

verus! {

/// Why a run ended.
#[derive(Clone, Copy, Debug, PartialEq, Eq, PartialOrd, Ord, Hash, Structural)]
pub enum TerminalCause {
    BudgetExhaustion,
    CandidateCrash,
    CompletionRejected,
    ModelRefusal,
    ProtocolTimeout,
    ToolFailure,
}

impl TerminalCause {
    pub open spec fn spec_name(self) -> Seq<char> {
        match self {
            TerminalCause::BudgetExhaustion => "budget_exhaustion"@,
            TerminalCause::CandidateCrash => "candidate_crash"@,
            TerminalCause::CompletionRejected => "completion_rejected"@,
            TerminalCause::ModelRefusal => "model_refusal"@,
            TerminalCause::ProtocolTimeout => "protocol_timeout"@,
            TerminalCause::ToolFailure => "tool_failure"@,
        }
    }

    pub fn name(self) -> (r: &'static str)
        ensures
            r@ == self.spec_name(),
    {
        match self {
            TerminalCause::BudgetExhaustion => "budget_exhaustion",
            TerminalCause::CandidateCrash => "candidate_crash",
            TerminalCause::CompletionRejected => "completion_rejected",
            TerminalCause::ModelRefusal => "model_refusal",
            TerminalCause::ProtocolTimeout => "protocol_timeout",
            TerminalCause::ToolFailure => "tool_failure",
        }
    }
}

impl TerminalCause {
    /// The place in the order of the variants.
    pub open spec fn spec_place(self) -> int {
        match self {
            TerminalCause::BudgetExhaustion => 0,
            TerminalCause::CandidateCrash => 1,
            TerminalCause::CompletionRejected => 2,
            TerminalCause::ModelRefusal => 3,
            TerminalCause::ProtocolTimeout => 4,
            TerminalCause::ToolFailure => 5,
        }
    }

    pub(crate) fn place(self) -> (r: u32)
        ensures
            r == self.spec_place(),
            r < 6,
    {
        match self {
            TerminalCause::BudgetExhaustion => 0,
            TerminalCause::CandidateCrash => 1,
            TerminalCause::CompletionRejected => 2,
            TerminalCause::ModelRefusal => 3,
            TerminalCause::ProtocolTimeout => 4,
            TerminalCause::ToolFailure => 5,
        }
    }
}

/// Whom a failure is attributed to.
#[derive(Clone, Copy, Debug, PartialEq, Eq, PartialOrd, Ord, Hash, Structural)]
pub enum CausalStatus {
    CandidateAttributable,
    HarnessAddressable,
    Mixed,
    Unresolved,
}

impl CausalStatus {
    pub open spec fn spec_name(self) -> Seq<char> {
        match self {
            CausalStatus::CandidateAttributable => "candidate_attributable"@,
            CausalStatus::HarnessAddressable => "harness_addressable"@,
            CausalStatus::Mixed => "mixed"@,
            CausalStatus::Unresolved => "unresolved"@,
        }
    }

    pub fn name(self) -> (r: &'static str)
        ensures
            r@ == self.spec_name(),
    {
        match self {
            CausalStatus::CandidateAttributable => "candidate_attributable",
            CausalStatus::HarnessAddressable => "harness_addressable",
            CausalStatus::Mixed => "mixed",
            CausalStatus::Unresolved => "unresolved",
        }
    }
}

impl CausalStatus {
    /// The place in the order of the variants.
    pub open spec fn spec_place(self) -> int {
        match self {
            CausalStatus::CandidateAttributable => 0,
            CausalStatus::HarnessAddressable => 1,
            CausalStatus::Mixed => 2,
            CausalStatus::Unresolved => 3,
        }
    }

    pub(crate) fn place(self) -> (r: u32)
        ensures
            r == self.spec_place(),
            r < 4,
    {
        match self {
            CausalStatus::CandidateAttributable => 0,
            CausalStatus::HarnessAddressable => 1,
            CausalStatus::Mixed => 2,
            CausalStatus::Unresolved => 3,
        }
    }
}

/// What a failure is thought to come from.
#[derive(Clone, Copy, Debug, PartialEq, Eq, PartialOrd, Ord, Hash, Structural)]
pub enum FailureMechanism {
    CompletionDiscipline,
    ContextHandling,
    InstructionFollowing,
    RecoveryStrategy,
    ToolSelection,
    VerificationStrategy,
    Unclassified,
}

impl FailureMechanism {
    pub open spec fn spec_name(self) -> Seq<char> {
        match self {
            FailureMechanism::CompletionDiscipline => "completion_discipline"@,
            FailureMechanism::ContextHandling => "context_handling"@,
            FailureMechanism::InstructionFollowing => "instruction_following"@,
            FailureMechanism::RecoveryStrategy => "recovery_strategy"@,
            FailureMechanism::ToolSelection => "tool_selection"@,
            FailureMechanism::VerificationStrategy => "verification_strategy"@,
            FailureMechanism::Unclassified => "unclassified"@,
        }
    }

    pub fn name(self) -> (r: &'static str)
        ensures
            r@ == self.spec_name(),
    {
        match self {
            FailureMechanism::CompletionDiscipline => "completion_discipline",
            FailureMechanism::ContextHandling => "context_handling",
            FailureMechanism::InstructionFollowing => "instruction_following",
            FailureMechanism::RecoveryStrategy => "recovery_strategy",
            FailureMechanism::ToolSelection => "tool_selection",
            FailureMechanism::VerificationStrategy => "verification_strategy",
            FailureMechanism::Unclassified => "unclassified",
        }
    }
}

impl FailureMechanism {
    /// The place in the order of the variants.
    pub open spec fn spec_place(self) -> int {
        match self {
            FailureMechanism::CompletionDiscipline => 0,
            FailureMechanism::ContextHandling => 1,
            FailureMechanism::InstructionFollowing => 2,
            FailureMechanism::RecoveryStrategy => 3,
            FailureMechanism::ToolSelection => 4,
            FailureMechanism::VerificationStrategy => 5,
            FailureMechanism::Unclassified => 6,
        }
    }

    pub(crate) fn place(self) -> (r: u32)
        ensures
            r == self.spec_place(),
            r < 7,
    {
        match self {
            FailureMechanism::CompletionDiscipline => 0,
            FailureMechanism::ContextHandling => 1,
            FailureMechanism::InstructionFollowing => 2,
            FailureMechanism::RecoveryStrategy => 3,
            FailureMechanism::ToolSelection => 4,
            FailureMechanism::VerificationStrategy => 5,
            FailureMechanism::Unclassified => 6,
        }
    }
}

/// Why evidence is refused.
#[derive(Clone, Copy, Debug, PartialEq, Eq)]
pub enum MiningError {
    EmptyText,
    RawTextTooLarge { maximum: usize },
    TooManyProtectedTerms { maximum: usize },
    ProtectedTermTooLarge { maximum: usize },
    EvidenceSourceMismatch,
    UnclassifiedHypothesis,
    InvalidLimit { field: &'static str, maximum: usize },
    TooManyObservations { actual: usize, maximum: usize },
    TooManyClusters { actual: usize, maximum: usize },
    ClusterTooLarge { actual: usize, maximum: usize },
}

/// What a verifier found of a failure.
#[derive(Clone, Copy, Debug, PartialEq, Eq, Structural)]
pub struct VerifiedFailureFact {
    pub receipt: VerifierReceiptId,
    pub terminal_cause: TerminalCause,
    pub causal_status: CausalStatus,
}

impl VerifiedFailureFact {
    pub fn new(
        receipt: VerifierReceiptId,
        terminal_cause: TerminalCause,
        causal_status: CausalStatus,
    ) -> (r: Self)
        ensures
            r == (VerifiedFailureFact { receipt, terminal_cause, causal_status }),
    {
        VerifiedFailureFact { receipt, terminal_cause, causal_status }
    }
}

impl VerifiedFailureFact {
    pub fn receipt(self) -> (r: VerifierReceiptId)
        ensures
            r == self.receipt,
    {
        self.receipt
    }

    pub fn terminal_cause(self) -> (r: TerminalCause)
        ensures
            r == self.terminal_cause,
    {
        self.terminal_cause
    }

    pub fn causal_status(self) -> (r: CausalStatus)
        ensures
            r == self.causal_status,
    {
        self.causal_status
    }
}

/// What a classifier takes for the mechanism of a failure.
#[derive(Clone, Copy, Debug, PartialEq, Eq, Structural)]
pub struct MechanismHypothesis {
    receipt: ClassifierReceiptId,
    mechanism: FailureMechanism,
}

impl MechanismHypothesis {
    pub closed spec fn spec_receipt(self) -> ClassifierReceiptId {
        self.receipt
    }

    pub closed spec fn spec_mechanism(self) -> FailureMechanism {
        self.mechanism
    }

    #[verifier::type_invariant]
    spec fn well_formed(self) -> bool {
        self.mechanism != FailureMechanism::Unclassified
    }

    pub fn new(receipt: ClassifierReceiptId, mechanism: FailureMechanism) -> (r: Result<
        Self,
        MiningError,
    >)
        ensures
            match r {
                Ok(hypothesis) => mechanism != FailureMechanism::Unclassified
                    && hypothesis.spec_receipt() == receipt && hypothesis.spec_mechanism()
                    == mechanism,
                Err(error) => mechanism == FailureMechanism::Unclassified && error
                    == MiningError::UnclassifiedHypothesis,
            },
    {
        if mechanism == FailureMechanism::Unclassified {
            return Err(MiningError::UnclassifiedHypothesis);
        }
        Ok(MechanismHypothesis { receipt, mechanism })
    }

    pub fn receipt(self) -> (r: ClassifierReceiptId)
        ensures
            r == self.spec_receipt(),
    {
        self.receipt
    }

    pub fn mechanism(self) -> (r: FailureMechanism)
        ensures
            r == self.spec_mechanism(),
            r != FailureMechanism::Unclassified,
    {
        proof {
            use_type_invariant(self);
        }
        self.mechanism
    }
}

/// How much of a text was redacted.
#[derive(Clone, Copy, Debug, PartialEq, Eq, Structural)]
pub struct RedactionSummary {
    pub protected_terms: u32,
    pub sensitive_values: u32,
    pub control_characters: u32,
    pub truncated: bool,
}

impl Default for RedactionSummary {
    fn default() -> (r: Self)
        ensures
            r == (RedactionSummary {
                protected_terms: 0,
                sensitive_values: 0,
                control_characters: 0,
                truncated: false,
            }),
    {
        RedactionSummary {
            protected_terms: 0,
            sensitive_values: 0,
            control_characters: 0,
            truncated: false,
        }
    }
}

impl RedactionSummary {
    pub(crate) fn new(
        protected_terms: u32,
        sensitive_values: u32,
        control_characters: u32,
        truncated: bool,
    ) -> (r: Self)
        ensures
            r == (RedactionSummary {
                protected_terms,
                sensitive_values,
                control_characters,
                truncated,
            }),
    {
        RedactionSummary { protected_terms, sensitive_values, control_characters, truncated }
    }
}

impl RedactionSummary {
    pub fn protected_terms(self) -> (r: u32)
        ensures
            r == self.protected_terms,
    {
        self.protected_terms
    }

    pub fn sensitive_values(self) -> (r: u32)
        ensures
            r == self.sensitive_values,
    {
        self.sensitive_values
    }

    pub fn control_characters(self) -> (r: u32)
        ensures
            r == self.control_characters,
    {
        self.control_characters
    }

    pub fn truncated(self) -> (r: bool)
        ensures
            r == self.truncated,
    {
        self.truncated
    }
}

/// Bounded, normalized trace text that remains data rather than an instruction channel.
#[derive(PartialEq, Eq)]
pub struct SanitizedEvidenceText {
    pub(crate) source: MiningEvidenceId,
    pub(crate) text: String,
    pub(crate) redactions: RedactionSummary,
}

/// What a sanitized text says.
#[verifier::ext_equal]
pub struct TextModel {
    pub source: MiningEvidenceId,
    pub text: Seq<char>,
    pub redactions: RedactionSummary,
}

impl View for SanitizedEvidenceText {
    type V = TextModel;

    closed spec fn view(&self) -> TextModel {
        TextModel { source: self.source, text: self.text@, redactions: self.redactions }
    }
}

impl SanitizedEvidenceText {
    pub(crate) fn new(source: MiningEvidenceId, text: String, redactions: RedactionSummary) -> (r:
        Self)
        ensures
            r@ == (TextModel { source, text: text@, redactions }),
    {
        SanitizedEvidenceText { source, text, redactions }
    }

    pub fn source(&self) -> (r: MiningEvidenceId)
        ensures
            r == self@.source,
    {
        self.source
    }

    pub fn as_str(&self) -> (r: &str)
        ensures
            r@ == self@.text,
    {
        self.text.as_str()
    }

    pub fn redactions(&self) -> (r: RedactionSummary)
        ensures
            r == self@.redactions,
    {
        self.redactions
    }
}

impl Clone for SanitizedEvidenceText {
    fn clone(&self) -> (r: Self)
        ensures
            r == *self,
    {
        SanitizedEvidenceText {
            source: self.source,
            text: self.text.clone(),
            redactions: self.redactions,
        }
    }
}

/// The canonical JSON of a fact.
pub open spec fn fact_json(v: VerifiedFailureFact) -> Seq<char> {
    "{\"receipt\":"@ + quoted(v.receipt.0.text()) + ",\"terminal_cause\":"@ + quoted(v.terminal_cause.spec_name()) + ",\"causal_status\":"@ + quoted(v.causal_status.spec_name()) + "}"@
}

fn fact_text(v: &VerifiedFailureFact) -> (r: String)
    ensures
        r@ == fact_json(*v),
{
    let mut json = "{\"receipt\":".to_owned();
    push_digest(&mut json, &v.receipt.0);
    json.push_str(",\"terminal_cause\":");
    push_quoted(&mut json, v.terminal_cause.name());
    json.push_str(",\"causal_status\":");
    push_quoted(&mut json, v.causal_status.name());
    json.push_str("}");
    json
}

/// The canonical JSON of a hypothesis.
pub open spec fn hypothesis_json(v: Option<MechanismHypothesis>) -> Seq<char> {
    match v {
        Some(hypothesis) => "{\"receipt\":"@ + quoted(hypothesis.spec_receipt().0.text())
            + ",\"mechanism\":"@ + quoted(hypothesis.spec_mechanism().spec_name()) + "}"@,
        None => "null"@,
    }
}

fn hypothesis_text(v: &Option<MechanismHypothesis>) -> (r: String)
    ensures
        r@ == hypothesis_json(*v),
{
    match v {
        Some(hypothesis) => {
            let mut json = "{\"receipt\":".to_owned();
            push_digest(&mut json, &hypothesis.receipt.0);
            json.push_str(",\"mechanism\":");
            push_quoted(&mut json, hypothesis.mechanism.name());
            json.push_str("}");
            json
        },
        None => "null".to_owned(),
    }
}

/// The canonical JSON of a redaction summary.
pub open spec fn redactions_json(v: RedactionSummary) -> Seq<char> {
    "{\"protected_terms\":"@ + decimal(v.protected_terms as nat) + ",\"sensitive_values\":"@ + decimal(v.sensitive_values as nat) + ",\"control_characters\":"@ + decimal(v.control_characters as nat) + ",\"truncated\":"@ + bool_text(v.truncated) + "}"@
}

fn redactions_text(v: &RedactionSummary) -> (r: String)
    ensures
        r@ == redactions_json(*v),
{
    let mut json = "{\"protected_terms\":".to_owned();
    push_decimal(&mut json, v.protected_terms as u64);
    json.push_str(",\"sensitive_values\":");
    push_decimal(&mut json, v.sensitive_values as u64);
    json.push_str(",\"control_characters\":");
    push_decimal(&mut json, v.control_characters as u64);
    json.push_str(",\"truncated\":");
    push_bool(&mut json, v.truncated);
    json.push_str("}");
    json
}

/// The canonical JSON of a sanitized text.
pub open spec fn detail_json(v: TextModel) -> Seq<char> {
    "{\"source\":"@ + quoted(v.source.0.text()) + ",\"text\":"@ + json_string(v.text) + ",\"redactions\":"@ + redactions_json(v.redactions) + "}"@
}

fn detail_text(v: &SanitizedEvidenceText) -> (r: String)
    ensures
        r@ == detail_json(v@),
{
    let mut json = "{\"source\":".to_owned();
    push_digest(&mut json, &v.source.0);
    json.push_str(",\"text\":");
    push_json_string(&mut json, v.text.as_str());
    json.push_str(",\"redactions\":");
    json.push_str(redactions_text(&v.redactions).as_str());
    json.push_str("}");
    json
}

/// Evidence of a failure.
#[derive(PartialEq, Eq)]
pub struct MiningFailureEvidence {
    id: MiningObservationId,
    evidence: MiningEvidenceId,
    case: CaseIdentity,
    block: IndependentBlockId,
    fact: VerifiedFailureFact,
    hypothesis: Option<MechanismHypothesis>,
    detail: SanitizedEvidenceText,
}

/// What such evidence says.
#[verifier::ext_equal]
pub struct FailureEvidenceModel {
    pub id: MiningObservationId,
    pub evidence: MiningEvidenceId,
    pub case: CaseIdentity,
    pub block: IndependentBlockId,
    pub fact: VerifiedFailureFact,
    pub hypothesis: Option<MechanismHypothesis>,
    pub detail: TextModel,
}

impl View for MiningFailureEvidence {
    type V = FailureEvidenceModel;

    closed spec fn view(&self) -> FailureEvidenceModel {
        FailureEvidenceModel {
            id: self.id,
            evidence: self.evidence,
            case: self.case,
            block: self.block,
            fact: self.fact,
            hypothesis: self.hypothesis,
            detail: self.detail@,
        }
    }
}

/// The canonical JSON of what identifies such evidence.
pub open spec fn failure_evidence_identity_json(v: FailureEvidenceModel) -> Seq<char> {
    "{\"evidence\":"@ + quoted(v.evidence.0.text()) + ",\"case\":"@ + quoted(v.case.0.text()) + ",\"block\":"@ + quoted(v.block.0.text()) + ",\"fact\":"@ + fact_json(v.fact) + ",\"hypothesis\":"@ + hypothesis_json(v.hypothesis) + ",\"detail\":"@ + detail_json(v.detail) + "}"@
}

/// The canonical JSON of such evidence.
pub open spec fn failure_evidence_json(v: FailureEvidenceModel) -> Seq<char> {
    "{\"id\":"@ + quoted(v.id.0.text()) + ",\"evidence\":"@ + quoted(v.evidence.0.text()) + ",\"case\":"@ + quoted(v.case.0.text()) + ",\"block\":"@ + quoted(v.block.0.text()) + ",\"fact\":"@ + fact_json(v.fact) + ",\"hypothesis\":"@ + hypothesis_json(v.hypothesis) + ",\"detail\":"@ + detail_json(v.detail) + "}"@
}

impl MiningFailureEvidence {
    #[verifier::type_invariant]
    spec fn well_formed(self) -> bool {
        &&& self.detail@.source == self.evidence
        &&& self.id == MiningObservationId(digest_of_text(failure_evidence_identity_json(self@)))
    }

    pub fn new(
        evidence: MiningEvidenceId,
        case: CaseIdentity,
        block: IndependentBlockId,
        fact: VerifiedFailureFact,
        hypothesis: Option<MechanismHypothesis>,
        detail: SanitizedEvidenceText,
    ) -> (r: Result<Self, MiningError>)
        ensures
            match r {
                Ok(made) => detail@.source == evidence && made@ == (FailureEvidenceModel {
                    id: MiningObservationId(digest_of_text(failure_evidence_identity_json(made@))),
                    evidence,
                    case,
                    block,
                    fact,
                    hypothesis,
                    detail: detail@,
                }),
                Err(error) => detail@.source != evidence && error
                    == MiningError::EvidenceSourceMismatch,
            },
    {
        if detail.source() != evidence {
            return Err(MiningError::EvidenceSourceMismatch);
        }
        let mut json = "{\"evidence\":".to_owned();
        push_digest(&mut json, &evidence.0);
        json.push_str(",\"case\":");
        push_digest(&mut json, &case.0);
        json.push_str(",\"block\":");
        push_digest(&mut json, &block.0);
        json.push_str(",\"fact\":");
        json.push_str(fact_text(&fact).as_str());
        json.push_str(",\"hypothesis\":");
        json.push_str(hypothesis_text(&hypothesis).as_str());
        json.push_str(",\"detail\":");
        json.push_str(detail_text(&detail).as_str());
        json.push_str("}");
        let id = MiningObservationId(Digest::of_text(json.as_str()));
        Ok(MiningFailureEvidence { id, evidence, case, block, fact, hypothesis, detail })
    }

    pub(crate) fn to_json(&self) -> (r: String)
        ensures
            r@ == failure_evidence_json(self@),
    {
        let v = self;
        let mut json = "{\"id\":".to_owned();
        push_digest(&mut json, &v.id.0);
        json.push_str(",\"evidence\":");
        push_digest(&mut json, &v.evidence.0);
        json.push_str(",\"case\":");
        push_digest(&mut json, &v.case.0);
        json.push_str(",\"block\":");
        push_digest(&mut json, &v.block.0);
        json.push_str(",\"fact\":");
        json.push_str(fact_text(&v.fact).as_str());
        json.push_str(",\"hypothesis\":");
        json.push_str(hypothesis_text(&v.hypothesis).as_str());
        json.push_str(",\"detail\":");
        json.push_str(detail_text(&v.detail).as_str());
        json.push_str("}");
        json
    }

    pub fn id(&self) -> (r: MiningObservationId)
        ensures
            r == self@.id,
            r == MiningObservationId(digest_of_text(failure_evidence_identity_json(self@))),
            self@.detail.source == self@.evidence,
    {
        proof {
            use_type_invariant(self);
        }
        self.id
    }

    pub fn evidence(&self) -> (r: MiningEvidenceId)
        ensures
            r == self@.evidence,
    {
        self.evidence
    }

    pub fn case(&self) -> (r: CaseIdentity)
        ensures
            r == self@.case,
    {
        self.case
    }

    pub fn block(&self) -> (r: IndependentBlockId)
        ensures
            r == self@.block,
    {
        self.block
    }

    pub fn fact(&self) -> (r: VerifiedFailureFact)
        ensures
            r == self@.fact,
    {
        self.fact
    }

    pub fn hypothesis(&self) -> (r: Option<MechanismHypothesis>)
        ensures
            r == self@.hypothesis,
    {
        self.hypothesis
    }

    pub fn detail(&self) -> (r: &SanitizedEvidenceText)
        ensures
            r@ == self@.detail,
    {
        &self.detail
    }
}

impl Clone for MiningFailureEvidence {
    fn clone(&self) -> (r: Self)
        ensures
            r@ == self@,
    {
        proof {
            use_type_invariant(self);
        }
        MiningFailureEvidence { id: self.id, evidence: self.evidence, case: self.case, block: self.block, fact: self.fact, hypothesis: self.hypothesis, detail: self.detail.clone() }
    }
}

/// Evidence of a pass.
#[derive(PartialEq, Eq)]
pub struct MiningPassEvidence {
    id: MiningObservationId,
    evidence: MiningEvidenceId,
    case: CaseIdentity,
    block: IndependentBlockId,
    receipt: VerifierReceiptId,
    summary: SanitizedEvidenceText,
}

/// What such evidence says.
#[verifier::ext_equal]
pub struct PassEvidenceModel {
    pub id: MiningObservationId,
    pub evidence: MiningEvidenceId,
    pub case: CaseIdentity,
    pub block: IndependentBlockId,
    pub receipt: VerifierReceiptId,
    pub summary: TextModel,
}

impl View for MiningPassEvidence {
    type V = PassEvidenceModel;

    closed spec fn view(&self) -> PassEvidenceModel {
        PassEvidenceModel {
            id: self.id,
            evidence: self.evidence,
            case: self.case,
            block: self.block,
            receipt: self.receipt,
            summary: self.summary@,
        }
    }
}

/// The canonical JSON of what identifies such evidence.
pub open spec fn pass_evidence_identity_json(v: PassEvidenceModel) -> Seq<char> {
    "{\"evidence\":"@ + quoted(v.evidence.0.text()) + ",\"case\":"@ + quoted(v.case.0.text()) + ",\"block\":"@ + quoted(v.block.0.text()) + ",\"receipt\":"@ + quoted(v.receipt.0.text()) + ",\"summary\":"@ + detail_json(v.summary) + "}"@
}

/// The canonical JSON of such evidence.
pub open spec fn pass_evidence_json(v: PassEvidenceModel) -> Seq<char> {
    "{\"id\":"@ + quoted(v.id.0.text()) + ",\"evidence\":"@ + quoted(v.evidence.0.text()) + ",\"case\":"@ + quoted(v.case.0.text()) + ",\"block\":"@ + quoted(v.block.0.text()) + ",\"receipt\":"@ + quoted(v.receipt.0.text()) + ",\"summary\":"@ + detail_json(v.summary) + "}"@
}

impl MiningPassEvidence {
    #[verifier::type_invariant]
    spec fn well_formed(self) -> bool {
        &&& self.summary@.source == self.evidence
        &&& self.id == MiningObservationId(digest_of_text(pass_evidence_identity_json(self@)))
    }

    pub fn new(
        evidence: MiningEvidenceId,
        case: CaseIdentity,
        block: IndependentBlockId,
        receipt: VerifierReceiptId,
        summary: SanitizedEvidenceText,
    ) -> (r: Result<Self, MiningError>)
        ensures
            match r {
                Ok(made) => summary@.source == evidence && made@ == (PassEvidenceModel {
                    id: MiningObservationId(digest_of_text(pass_evidence_identity_json(made@))),
                    evidence,
                    case,
                    block,
                    receipt,
                    summary: summary@,
                }),
                Err(error) => summary@.source != evidence && error
                    == MiningError::EvidenceSourceMismatch,
            },
    {
        if summary.source() != evidence {
            return Err(MiningError::EvidenceSourceMismatch);
        }
        let mut json = "{\"evidence\":".to_owned();
        push_digest(&mut json, &evidence.0);
        json.push_str(",\"case\":");
        push_digest(&mut json, &case.0);
        json.push_str(",\"block\":");
        push_digest(&mut json, &block.0);
        json.push_str(",\"receipt\":");
        push_digest(&mut json, &receipt.0);
        json.push_str(",\"summary\":");
        json.push_str(detail_text(&summary).as_str());
        json.push_str("}");
        let id = MiningObservationId(Digest::of_text(json.as_str()));
        Ok(MiningPassEvidence { id, evidence, case, block, receipt, summary })
    }

    pub(crate) fn to_json(&self) -> (r: String)
        ensures
            r@ == pass_evidence_json(self@),
    {
        let v = self;
        let mut json = "{\"id\":".to_owned();
        push_digest(&mut json, &v.id.0);
        json.push_str(",\"evidence\":");
        push_digest(&mut json, &v.evidence.0);
        json.push_str(",\"case\":");
        push_digest(&mut json, &v.case.0);
        json.push_str(",\"block\":");
        push_digest(&mut json, &v.block.0);
        json.push_str(",\"receipt\":");
        push_digest(&mut json, &v.receipt.0);
        json.push_str(",\"summary\":");
        json.push_str(detail_text(&v.summary).as_str());
        json.push_str("}");
        json
    }

    pub fn id(&self) -> (r: MiningObservationId)
        ensures
            r == self@.id,
            r == MiningObservationId(digest_of_text(pass_evidence_identity_json(self@))),
            self@.summary.source == self@.evidence,
    {
        proof {
            use_type_invariant(self);
        }
        self.id
    }

    pub fn evidence(&self) -> (r: MiningEvidenceId)
        ensures
            r == self@.evidence,
    {
        self.evidence
    }

    pub fn case(&self) -> (r: CaseIdentity)
        ensures
            r == self@.case,
    {
        self.case
    }

    pub fn block(&self) -> (r: IndependentBlockId)
        ensures
            r == self@.block,
    {
        self.block
    }

    pub fn receipt(&self) -> (r: VerifierReceiptId)
        ensures
            r == self@.receipt,
    {
        self.receipt
    }

    pub fn summary(&self) -> (r: &SanitizedEvidenceText)
        ensures
            r@ == self@.summary,
    {
        &self.summary
    }
}

impl Clone for MiningPassEvidence {
    fn clone(&self) -> (r: Self)
        ensures
            r@ == self@,
    {
        proof {
            use_type_invariant(self);
        }
        MiningPassEvidence { id: self.id, evidence: self.evidence, case: self.case, block: self.block, receipt: self.receipt, summary: self.summary.clone() }
    }
}

/// An observation to mine.
#[derive(PartialEq, Eq)]
pub enum MiningObservation {
    Failure(MiningFailureEvidence),
    Pass(MiningPassEvidence),
}

/// What an observation says.
#[verifier::ext_equal]
pub enum ObservationModel {
    Failure(FailureEvidenceModel),
    Pass(PassEvidenceModel),
}

impl ObservationModel {
    pub open spec fn id(self) -> MiningObservationId {
        match self {
            ObservationModel::Failure(failure) => failure.id,
            ObservationModel::Pass(pass) => pass.id,
        }
    }
}

impl View for MiningObservation {
    type V = ObservationModel;

    open spec fn view(&self) -> ObservationModel {
        match self {
            MiningObservation::Failure(failure) => ObservationModel::Failure(failure@),
            MiningObservation::Pass(pass) => ObservationModel::Pass(pass@),
        }
    }
}

impl MiningObservation {
    pub fn id(&self) -> (r: MiningObservationId)
        ensures
            r == self@.id(),
    {
        match self {
            MiningObservation::Failure(failure) => failure.id(),
            MiningObservation::Pass(pass) => pass.id(),
        }
    }

    pub fn from_failure(failure: MiningFailureEvidence) -> (r: Self)
        ensures
            r@ == ObservationModel::Failure(failure@),
    {
        MiningObservation::Failure(failure)
    }

    pub fn from_pass(pass: MiningPassEvidence) -> (r: Self)
        ensures
            r@ == ObservationModel::Pass(pass@),
    {
        MiningObservation::Pass(pass)
    }
}

/// What sealed evidence is for.
#[derive(Clone, Copy, Debug, PartialEq, Eq, Structural)]
pub enum EvidencePurpose {
    Mining,
    AdaptivePromotion,
    FinalAudit,
}

impl EvidencePurpose {
    pub open spec fn spec_name(self) -> Seq<char> {
        match self {
            EvidencePurpose::Mining => "mining"@,
            EvidencePurpose::AdaptivePromotion => "adaptive_promotion"@,
            EvidencePurpose::FinalAudit => "final_audit"@,
        }
    }

    pub fn as_str(self) -> (r: &'static str)
        ensures
            r@ == self.spec_name(),
    {
        match self {
            EvidencePurpose::Mining => "mining",
            EvidencePurpose::AdaptivePromotion => "adaptive_promotion",
            EvidencePurpose::FinalAudit => "final_audit",
        }
    }
}

impl EvidencePurpose {
    pub fn parse(value: &str) -> (r: Result<Self, &'static str>)
        ensures
            match r {
                Ok(purpose) => value@ == purpose.spec_name(),
                Err(message) => message@ == "unknown evolution evidence purpose"@ && forall|
                    purpose: EvidencePurpose,
                | value@ != #[trigger] purpose.spec_name(),
            },
    {
        if same_text(value, "mining") {
            Ok(EvidencePurpose::Mining)
        } else if same_text(value, "adaptive_promotion") {
            Ok(EvidencePurpose::AdaptivePromotion)
        } else if same_text(value, "final_audit") {
            Ok(EvidencePurpose::FinalAudit)
        } else {
            assert forall|purpose: EvidencePurpose| value@ != #[trigger] purpose.spec_name() by {
                match purpose {
                    EvidencePurpose::Mining => {},
                    EvidencePurpose::AdaptivePromotion => {},
                    EvidencePurpose::FinalAudit => {},
                }
            }
            Err("unknown evolution evidence purpose")
        }
    }
}

/// A purpose is read back from its name.
pub proof fn law_purposes_are_read_back(a: EvidencePurpose, b: EvidencePurpose)
    requires
        a.spec_name() == b.spec_name(),
    ensures
        a == b,
{
    reveal_strlit("mining");
    reveal_strlit("adaptive_promotion");
    reveal_strlit("final_audit");
    assert("mining"@.len() == 6 && "adaptive_promotion"@.len() == 18 && "final_audit"@.len() == 11);
}

/// A reference to a sealed artifact.
#[derive(Clone, Copy, PartialEq, Eq, Structural)]
pub struct SealedArtifactRef {
    pub digest: Digest,
    pub cohort: CohortId,
    pub purpose: EvidencePurpose,
}

impl SealedArtifactRef {
    pub fn cohort(self) -> (r: CohortId)
        ensures
            r == self.cohort,
    {
        self.cohort
    }

    pub fn registered(digest: Digest, cohort: CohortId, purpose: EvidencePurpose) -> (r: Self)
        ensures
            r == (SealedArtifactRef { digest, cohort, purpose }),
    {
        SealedArtifactRef { digest, cohort, purpose }
    }
}

/// A reference to mining evidence.
#[derive(Clone, Copy, PartialEq, Eq, Structural)]
pub struct MiningEvidenceRef(pub SealedArtifactRef);

impl MiningEvidenceRef {
    pub fn cohort(self) -> (r: CohortId)
        ensures
            r == self.0.cohort,
    {
        self.0.cohort
    }
}

/// A reference to adaptive-promotion evidence.
#[derive(Clone, Copy, PartialEq, Eq, Structural)]
pub struct AdaptivePromotionRef(pub SealedArtifactRef);

impl AdaptivePromotionRef {
    pub fn cohort(self) -> (r: CohortId)
        ensures
            r == self.0.cohort,
    {
        self.0.cohort
    }
}

/// A reference to final-audit evidence.
#[derive(Clone, Copy, PartialEq, Eq, Structural)]
pub struct FinalAuditRef(pub SealedArtifactRef);

impl FinalAuditRef {
    pub fn cohort(self) -> (r: CohortId)
        ensures
            r == self.0.cohort,
    {
        self.0.cohort
    }
}

/// A reservation of room for evidence.
#[derive(Clone, Copy, PartialEq, Eq, Structural)]
pub struct EvidenceReservation {
    pub id: Uuid,
    pub cohort: CohortId,
    pub max_bytes: u64,
    pub purpose: EvidencePurpose,
}

/// A reservation for mining evidence.
pub struct MiningEvidenceReservation(pub EvidenceReservation);

impl MiningEvidenceReservation {
    pub fn cohort(&self) -> (r: CohortId)
        ensures
            r == self.0.cohort,
    {
        self.0.cohort
    }

    pub fn max_bytes(&self) -> (r: u64)
        ensures
            r == self.0.max_bytes,
    {
        self.0.max_bytes
    }
}

/// A reservation for adaptive-promotion evidence.
pub struct AdaptivePromotionReservation(pub EvidenceReservation);

impl AdaptivePromotionReservation {
    pub fn cohort(&self) -> (r: CohortId)
        ensures
            r == self.0.cohort,
    {
        self.0.cohort
    }

    pub fn max_bytes(&self) -> (r: u64)
        ensures
            r == self.0.max_bytes,
    {
        self.0.max_bytes
    }
}

/// A reservation for final-audit evidence.
pub struct FinalAuditReservation(pub EvidenceReservation);

impl FinalAuditReservation {
    pub fn cohort(&self) -> (r: CohortId)
        ensures
            r == self.0.cohort,
    {
        self.0.cohort
    }

    pub fn max_bytes(&self) -> (r: u64)
        ensures
            r == self.0.max_bytes,
    {
        self.0.max_bytes
    }
}

/// The evidence that an audit epoch may read.
#[derive(Clone, Copy, PartialEq, Eq, Structural)]
pub struct FinalAuditAccess {
    pub epoch: AuditEpochId,
    pub evidence: FinalAuditRef,
}

} // verus!
