//! Descriptive monitoring of traces, and one deterministic recovery of a configuration.
//! No quality of a model is inferred, no generated code is run, no live policy changes.
use crate::canonical::{json_string, push_digest, push_json_string, quoted};
use crate::digest::{digest_of_text, Digest};
use crate::evolution::registry::TargetProfile;
use crate::inference::cost::UsdCost;
use crate::text::{byte_len, decimal, push_decimal};
use vstd::prelude::*;
use vstd::utf8::encode_utf8;

verus! {

pub const DEFAULT_READ_OUTPUT_BYTES: u32 = 32768;

/// The behavior that a task is bound to.
#[derive(Clone, Copy, Debug, PartialEq, Eq, Structural)]
pub struct PinnedBehavior {
    pub release: Digest,
    pub native_read_output_bytes: u32,
    pub build: Option<Digest>,
}

/// A release of the read envelope.
#[derive(Debug, PartialEq, Eq)]
pub struct Release {
    pub parent: Option<Digest>,
    pub native_read_output_bytes: u32,
    /// Where the release comes from; never an instruction.
    pub note: String,
}

/// The canonical JSON of an optional parent.
pub open spec fn parent_json(v: Option<Digest>) -> Seq<char> {
    match v {
        Some(value) => ""@ + quoted(value.text()),
        None => "null"@,
    }
}

fn parent_text(v: &Option<Digest>) -> (r: String)
    ensures
        r@ == parent_json(*v),
{
    match v {
        Some(value) => {
            let mut json = "".to_owned();
            push_digest(&mut json, value);
            json
        },
        None => "null".to_owned(),
    }
}

/// The canonical JSON of a release.
pub open spec fn release_json(v: Release) -> Seq<char> {
    "{\"parent\":"@ + parent_json(v.parent) + ",\"native_read_output_bytes\":"@ + decimal(v.native_read_output_bytes as nat) + ",\"note\":"@ + json_string(v.note@) + "}"@
}

fn release_text(v: &Release) -> (r: String)
    ensures
        r@ == release_json(*v),
{
    let mut json = "{\"parent\":".to_owned();
    json.push_str(parent_text(&v.parent).as_str());
    json.push_str(",\"native_read_output_bytes\":");
    push_decimal(&mut json, v.native_read_output_bytes as u64);
    json.push_str(",\"note\":");
    push_json_string(&mut json, v.note.as_str());
    json.push_str("}");
    json
}

/// Whether a release can be installed.
pub open spec fn release_valid(release: Release) -> bool {
    4096 <= release.native_read_output_bytes <= DEFAULT_READ_OUTPUT_BYTES && encode_utf8(
        release.note@,
    ).len() <= 1024
}

impl Release {
    /// The envelope that is compiled in.
    pub fn baseline() -> (r: Self)
        ensures
            r.parent is None,
            r.native_read_output_bytes == DEFAULT_READ_OUTPUT_BYTES,
            r.note@ == "compiled native read envelope"@,
    {
        Release {
            parent: None,
            native_read_output_bytes: DEFAULT_READ_OUTPUT_BYTES,
            note: "compiled native read envelope".to_owned(),
        }
    }

    /// The identity of a release: that of its canonical JSON.
    pub fn id(&self) -> (r: Digest)
        ensures
            r == digest_of_text(release_json(*self)),
    {
        Digest::of_text(release_text(self).as_str())
    }

    /// Checks that a release can be installed.
    pub fn validate(&self) -> (r: Result<(), &'static str>)
        ensures
            r == if release_valid(*self) {
                Ok::<(), &'static str>(())
            } else {
                Err("read envelope must be 4096..32768 bytes; provenance at most 1024 bytes")
            },
    {
        if self.native_read_output_bytes < 4096 || self.native_read_output_bytes
            > DEFAULT_READ_OUTPUT_BYTES || byte_len(self.note.as_str()) > 1024 {
            return Err("read envelope must be 4096..32768 bytes; provenance at most 1024 bytes");
        }
        Ok(())
    }
}

/// The compiled envelope can be installed.
pub proof fn law_the_baseline_is_valid(release: Release)
    requires
        release.native_read_output_bytes == DEFAULT_READ_OUTPUT_BYTES,
        release.note@ == "compiled native read envelope"@,
    ensures
        release_valid(release),
{
    reveal_strlit("compiled native read envelope");
    crate::input::lemma_bytes_bounded(release.note@);
}

/// What measures are counted for.
#[derive(Clone, Copy, Debug, PartialEq, Eq, Structural)]
pub struct Cohort {
    pub target: TargetProfile,
    pub build: Option<Digest>,
    pub behavior: Digest,
    pub release: Option<Digest>,
}

/// Where a request comes from.
#[derive(Clone, Copy, Debug, PartialEq, Eq, Structural)]
pub enum Origin {
    User,
    Repair,
    Evaluation,
}

impl Origin {
    pub open spec fn spec_name(self) -> Seq<char> {
        match self {
            Origin::User => "user"@,
            Origin::Repair => "repair"@,
            Origin::Evaluation => "evaluation"@,
        }
    }

    pub fn name(self) -> (r: &'static str)
        ensures
            r@ == self.spec_name(),
    {
        match self {
            Origin::User => "user",
            Origin::Repair => "repair",
            Origin::Evaluation => "evaluation",
        }
    }
}

/// What a measure counts.
#[derive(Clone, Copy, Debug, PartialEq, Eq, Structural)]
pub enum Signature {
    JobOutcome,
    UnresolvedEffect,
    UnresolvedJob,
    ProviderError,
    MissingUsage,
    VerificationFailure,
    UserCorrection,
    ReadUnderfill,
    EvaluatorFailure,
    Cost,
}

impl Signature {
    pub open spec fn spec_name(self) -> Seq<char> {
        match self {
            Signature::JobOutcome => "job_outcome"@,
            Signature::UnresolvedEffect => "unresolved_effect"@,
            Signature::UnresolvedJob => "unresolved_job"@,
            Signature::ProviderError => "provider_error"@,
            Signature::MissingUsage => "missing_usage"@,
            Signature::VerificationFailure => "verification_failure"@,
            Signature::UserCorrection => "user_correction"@,
            Signature::ReadUnderfill => "read_underfill"@,
            Signature::EvaluatorFailure => "evaluator_failure"@,
            Signature::Cost => "cost"@,
        }
    }

    pub fn name(self) -> (r: &'static str)
        ensures
            r@ == self.spec_name(),
    {
        match self {
            Signature::JobOutcome => "job_outcome",
            Signature::UnresolvedEffect => "unresolved_effect",
            Signature::UnresolvedJob => "unresolved_job",
            Signature::ProviderError => "provider_error",
            Signature::MissingUsage => "missing_usage",
            Signature::VerificationFailure => "verification_failure",
            Signature::UserCorrection => "user_correction",
            Signature::ReadUnderfill => "read_underfill",
            Signature::EvaluatorFailure => "evaluator_failure",
            Signature::Cost => "cost",
        }
    }
}

/// What a signature tells of.
#[derive(Clone, Copy, Debug, PartialEq, Eq, Structural)]
pub enum SignalClass {
    Operational,
    TaskQualitySignal,
    EvaluatorFailure,
}

impl SignalClass {
    pub open spec fn spec_name(self) -> Seq<char> {
        match self {
            SignalClass::Operational => "operational"@,
            SignalClass::TaskQualitySignal => "task_quality_signal"@,
            SignalClass::EvaluatorFailure => "evaluator_failure"@,
        }
    }

    pub fn name(self) -> (r: &'static str)
        ensures
            r@ == self.spec_name(),
    {
        match self {
            SignalClass::Operational => "operational",
            SignalClass::TaskQualitySignal => "task_quality_signal",
            SignalClass::EvaluatorFailure => "evaluator_failure",
        }
    }
}

/// What a signature tells of.
pub open spec fn class_of(signature: Signature) -> SignalClass {
    match signature {
        Signature::VerificationFailure
        | Signature::UserCorrection
        | Signature::ReadUnderfill => SignalClass::TaskQualitySignal,
        Signature::EvaluatorFailure => SignalClass::EvaluatorFailure,
        _ => SignalClass::Operational,
    }
}

impl Signature {
    /// What a signature tells of.
    pub fn class(self) -> (r: SignalClass)
        ensures
            r == class_of(self),
    {
        match self {
            Signature::VerificationFailure
            | Signature::UserCorrection
            | Signature::ReadUnderfill => SignalClass::TaskQualitySignal,
            Signature::EvaluatorFailure => SignalClass::EvaluatorFailure,
            _ => SignalClass::Operational,
        }
    }
}

/// A count of opportunities and of failures.
#[derive(Clone, Copy, Debug, PartialEq, Eq, Structural)]
pub struct Measure {
    pub class: SignalClass,
    pub cohort: Cohort,
    pub signature: Signature,
    pub opportunities: u64,
    pub failures: u64,
    pub measured: u64,
    pub recorded_usd: UsdCost,
}

impl Measure {
    /// A count without a cost, in the class of its signature.
    pub fn new(
        cohort: Cohort,
        signature: Signature,
        opportunities: u64,
        failures: u64,
        measured: u64,
    ) -> (r: Self)
        ensures
            r == (Measure {
                class: class_of(signature),
                cohort,
                signature,
                opportunities,
                failures,
                measured,
                recorded_usd: UsdCost(0),
            }),
    {
        Measure {
            class: signature.class(),
            cohort,
            signature,
            opportunities,
            failures,
            measured,
            recorded_usd: UsdCost::zero(),
        }
    }
}

/// What one durable opportunity contributes; a later reconciliation replaces it.
#[derive(Clone, Copy, Debug, PartialEq, Eq, Structural)]
pub struct Measurement {
    pub identity: Digest,
    pub value: Measure,
}

impl Measurement {
    pub fn new(identity: Digest, value: Measure) -> (r: Self)
        ensures
            r == (Measurement { identity, value }),
    {
        Measurement { identity, value }
    }
}

/// How samples were chosen.
#[derive(Clone, Copy, Debug, PartialEq, Eq, Structural)]
pub struct Sampling {
    pub considered: u64,
    pub selected: u64,
    pub skipped_sampling: u64,
    pub skipped_origin: u64,
    pub skipped_no_hypothesis: u64,
    pub skipped_capacity: u64,
}

impl Default for Sampling {
    fn default() -> (r: Self)
        ensures
            r == (Sampling {
                considered: 0,
                selected: 0,
                skipped_sampling: 0,
                skipped_origin: 0,
                skipped_no_hypothesis: 0,
                skipped_capacity: 0,
            }),
    {
        Sampling {
            considered: 0,
            selected: 0,
            skipped_sampling: 0,
            skipped_origin: 0,
            skipped_no_hypothesis: 0,
            skipped_capacity: 0,
        }
    }
}

/// Where monitoring stands.
#[derive(Debug, PartialEq, Eq)]
pub struct MonitorStatus {
    pub cursor: u64,
    pub sample_every: u32,
    pub sampling: Sampling,
    pub last_error: Option<String>,
    pub active: Digest,
    pub previous: Option<Digest>,
}

/// A read whose outcome is known.
#[derive(Debug, PartialEq, Eq)]
pub struct ReadCase {
    pub bytes: Vec<u8>,
    pub offset: usize,
    pub max_bytes: usize,
}

/// Where an episode stands.
#[derive(Debug, PartialEq, Eq)]
pub enum EpisodeState {
    Diagnosed,
    Evaluating,
    Rejected { reason: String },
    Uncertain { reason: String },
    Promoted { release: Digest },
    Superseded,
}

/// A regression, and what was tried against it.
#[derive(Debug, PartialEq, Eq)]
pub struct Episode {
    pub id: Digest,
    pub origin: Origin,
    pub sequence: u64,
    pub cohort: Cohort,
    pub regressed: Digest,
    pub parent: Digest,
    pub hypothesis: String,
    pub source_diff: Digest,
    pub trace_receipt: Digest,
    pub regression: Digest,
    pub heldout: Digest,
    pub candidate: Option<Digest>,
    pub result: Option<Digest>,
    pub state: EpisodeState,
}

/// A pair of measures side by side; no test of significance, and no gate.
#[derive(Debug, PartialEq, Eq)]
pub struct Comparison {
    pub signature: Signature,
    pub before: Measure,
    pub after: Measure,
    pub assessment: String,
}

/// A page of what monitoring found.
#[derive(Debug, PartialEq, Eq)]
pub struct MonitorReport {
    pub status: MonitorStatus,
    /// Counts by cohort and signature, not pooled over models, builds or environments.
    pub measures: Vec<Measure>,
    pub episodes: Vec<Episode>,
    pub comparisons: Vec<Comparison>,
    pub next: Option<usize>,
    pub interpretation: String,
}

} // verus!
