//! The scoring policy that is frozen with a cohort.
use crate::canonical::{json_string, push_digest, push_json_string, push_quoted, quoted};
use crate::digest::Digest;
use crate::digest_set::{digests_json, digests_text, DigestSet};
use crate::evolution::ids::{CaseIdentity, IndependentBlockId};
use crate::evolution::registry::{
    EvaluationCase, EvaluationCohortSpec, IndependentBlock, LedgerLimit,
};
use crate::evolution::trial::{
    is_nameable, nameable, MetricName, MetricScore, TrialError,
};
use crate::first::{either, refused};
use crate::text::{decimal, push_decimal, same_text};
use vstd::prelude::*;

verus! {

pub const ERROR_SCALE: u64 = 1_000_000_000;

pub const MAX_NAME_BYTES: usize = 128;

pub const MAX_LABEL_BYTES: usize = 256;

pub const MAX_EXACT_BLOCKS: u32 = 20;

/// Why a policy or its evidence is not acceptable.
#[derive(Clone, Copy, Debug, PartialEq, Eq, Structural)]
pub enum ScoringError {
    InvalidGateName,
    InvalidStratumName,
    InvalidCandidateLabel,
    InvalidGateReason,
    UnsupportedSchema,
    InvalidEstimatorVersion,
    InvalidCalibration,
    InvalidBlockBounds,
    UnknownCriticalCase,
    TooManyExactBlocks,
    InvalidStrata,
    InvalidMetrics,
    InvalidRequiredGates,
    EmptyMultiplicityDimension,
    MultiplicityOverflow,
    MultiplicitySchemaMismatch,
    InvalidErrorAllocation,
    IncompleteFamilyAllocation,
    CoordinatesOutsideFamily,
    WrongEvidenceRole,
    DuplicatePair,
    DuplicateGateEvidence,
    WrongEvaluationContext,
    PairOutsideManifest,
    UndeclaredGate,
    MissingMetric,
    /// An exact fraction does not fit in 128 bits.
    ArithmeticOverflow,
    Trial(TrialError),
}

/// The name of a hard gate.
#[derive(Debug, PartialEq, Eq, PartialOrd, Ord, Hash)]
pub struct GateName {
    text: String,
}

impl GateName {
    pub closed spec fn text(self) -> Seq<char> {
        self.text@
    }

    #[verifier::type_invariant]
    spec fn acceptable(self) -> bool {
        nameable(self.text@, MAX_NAME_BYTES as int)
    }

    pub fn new(value: String) -> (r: Result<Self, ScoringError>)
        ensures
            match r {
                Ok(name) => nameable(value@, MAX_NAME_BYTES as int) && name.text() == value@,
                Err(error) => !nameable(value@, MAX_NAME_BYTES as int) && error == ScoringError::InvalidGateName,
            },
    {
        if !is_nameable(value.as_str(), MAX_NAME_BYTES) {
            return Err(ScoringError::InvalidGateName);
        }
        Ok(GateName { text: value })
    }

    pub fn as_str(&self) -> (r: &str)
        ensures
            r@ == self.text(),
            nameable(self.text(), MAX_NAME_BYTES as int),
    {
        proof {
            use_type_invariant(self);
        }
        self.text.as_str()
    }
}

impl Clone for GateName {
    fn clone(&self) -> (r: Self)
        ensures
            r == *self,
    {
        proof {
            use_type_invariant(self);
        }
        GateName { text: self.text.clone() }
    }
}

/// The name of a stratum of cases.
#[derive(Debug, PartialEq, Eq, PartialOrd, Ord, Hash)]
pub struct StratumName {
    text: String,
}

impl StratumName {
    pub closed spec fn text(self) -> Seq<char> {
        self.text@
    }

    #[verifier::type_invariant]
    spec fn acceptable(self) -> bool {
        nameable(self.text@, MAX_NAME_BYTES as int)
    }

    pub fn new(value: String) -> (r: Result<Self, ScoringError>)
        ensures
            match r {
                Ok(name) => nameable(value@, MAX_NAME_BYTES as int) && name.text() == value@,
                Err(error) => !nameable(value@, MAX_NAME_BYTES as int) && error == ScoringError::InvalidStratumName,
            },
    {
        if !is_nameable(value.as_str(), MAX_NAME_BYTES) {
            return Err(ScoringError::InvalidStratumName);
        }
        Ok(StratumName { text: value })
    }

    pub fn as_str(&self) -> (r: &str)
        ensures
            r@ == self.text(),
            nameable(self.text(), MAX_NAME_BYTES as int),
    {
        proof {
            use_type_invariant(self);
        }
        self.text.as_str()
    }
}

impl Clone for StratumName {
    fn clone(&self) -> (r: Self)
        ensures
            r == *self,
    {
        proof {
            use_type_invariant(self);
        }
        StratumName { text: self.text.clone() }
    }
}

/// What people call a candidate.
#[derive(Debug, PartialEq, Eq, PartialOrd, Ord, Hash)]
pub struct CandidateLabel {
    text: String,
}

impl CandidateLabel {
    pub closed spec fn text(self) -> Seq<char> {
        self.text@
    }

    #[verifier::type_invariant]
    spec fn acceptable(self) -> bool {
        nameable(self.text@, MAX_LABEL_BYTES as int)
    }

    pub fn new(value: String) -> (r: Result<Self, ScoringError>)
        ensures
            match r {
                Ok(name) => nameable(value@, MAX_LABEL_BYTES as int) && name.text() == value@,
                Err(error) => !nameable(value@, MAX_LABEL_BYTES as int) && error == ScoringError::InvalidCandidateLabel,
            },
    {
        if !is_nameable(value.as_str(), MAX_LABEL_BYTES) {
            return Err(ScoringError::InvalidCandidateLabel);
        }
        Ok(CandidateLabel { text: value })
    }

    pub fn as_str(&self) -> (r: &str)
        ensures
            r@ == self.text(),
            nameable(self.text(), MAX_LABEL_BYTES as int),
    {
        proof {
            use_type_invariant(self);
        }
        self.text.as_str()
    }
}

impl Clone for CandidateLabel {
    fn clone(&self) -> (r: Self)
        ensures
            r == *self,
    {
        proof {
            use_type_invariant(self);
        }
        CandidateLabel { text: self.text.clone() }
    }
}

/// Whether a metric is to improve or only not to get worse.
#[derive(Clone, Copy, Debug, PartialEq, Eq, Structural)]
pub enum MetricKind {
    Primary,
    Protected,
}

impl MetricKind {
    pub open spec fn spec_name(self) -> Seq<char> {
        match self {
            MetricKind::Primary => "primary"@,
            MetricKind::Protected => "protected"@,
        }
    }

    pub fn name(self) -> (r: &'static str)
        ensures
            r@ == self.spec_name(),
    {
        match self {
            MetricKind::Primary => "primary",
            MetricKind::Protected => "protected",
        }
    }
}

#[derive(Debug, PartialEq, Eq)]
pub struct MetricPolicy {
    pub name: MetricName,
    pub kind: MetricKind,
    pub margin: MetricScore,
}

#[derive(Debug, PartialEq, Eq)]
pub struct StratumPolicy {
    pub name: StratumName,
    pub cases: Vec<CaseIdentity>,
}

/// How many decisions and hypotheses share one error budget.
#[derive(Clone, Copy, Debug, PartialEq, Eq, Structural)]
pub struct MultiplicityFamily {
    pub candidates: u64,
    pub rounds: u64,
    pub metrics: u64,
    pub strata: u64,
    pub composites: u64,
    pub fallbacks: u64,
    pub campaigns: u64,
    pub activation_attempts: u64,
}

/// The product of the first `n` dimensions, each of them positive.
pub open spec fn dimension_product(dimensions: Seq<u64>, n: int) -> Result<int, ScoringError>
    decreases n,
{
    if n <= 0 {
        Ok(1)
    } else {
        match dimension_product(dimensions, n - 1) {
            Err(error) => Err(error),
            Ok(product) => if dimensions[n - 1] == 0 {
                Err(ScoringError::EmptyMultiplicityDimension)
            } else if product * dimensions[n - 1] > u64::MAX {
                Err(ScoringError::MultiplicityOverflow)
            } else {
                Ok(product * dimensions[n - 1])
            },
        }
    }
}

impl MultiplicityFamily {
    pub open spec fn dimensions(self) -> Seq<u64> {
        seq![
            self.candidates,
            self.rounds,
            self.composites,
            self.fallbacks,
            self.campaigns,
            self.activation_attempts,
            self.metrics,
            self.strata,
        ]
    }

    /// The product of all dimensions.
    pub open spec fn spec_size(self) -> Result<int, ScoringError> {
        dimension_product(self.dimensions(), 8)
    }

    pub fn hypotheses_per_decision(self) -> (r: Result<u64, ScoringError>)
        ensures
            r == if self.metrics * self.strata <= u64::MAX {
                Ok::<u64, ScoringError>((self.metrics * self.strata) as u64)
            } else {
                Err(ScoringError::MultiplicityOverflow)
            },
    {
        match self.metrics.checked_mul(self.strata) {
            Some(product) => Ok(product),
            None => Err(ScoringError::MultiplicityOverflow),
        }
    }

    pub fn size(self) -> (r: Result<u64, ScoringError>)
        ensures
            match r {
                Ok(size) => self.spec_size() == Ok::<int, ScoringError>(size as int),
                Err(error) => self.spec_size() == Err::<int, ScoringError>(error),
            },
    {
        let dimensions: [u64; 8] = [
            self.candidates,
            self.rounds,
            self.composites,
            self.fallbacks,
            self.campaigns,
            self.activation_attempts,
            self.metrics,
            self.strata,
        ];
        assert(dimensions@ =~= self.dimensions());
        let mut product: u64 = 1;
        let mut i: usize = 0;
        while i < 8
            invariant
                i <= 8,
                dimensions@ == self.dimensions(),
                dimension_product(self.dimensions(), i as int) == Ok::<int, ScoringError>(
                    product as int,
                ),
            decreases 8 - i,
        {
            if dimensions[i] == 0 {
                proof {
                    lemma_product_fails(self.dimensions(), i + 1, 8);
                }
                return Err(ScoringError::EmptyMultiplicityDimension);
            }
            match product.checked_mul(dimensions[i]) {
                Some(next) => {
                    product = next;
                },
                None => {
                    proof {
                        lemma_product_fails(self.dimensions(), i + 1, 8);
                    }
                    return Err(ScoringError::MultiplicityOverflow);
                },
            }
            i += 1;
        }
        Ok(product)
    }
}

proof fn lemma_product_fails(dimensions: Seq<u64>, i: int, n: int)
    requires
        0 <= i <= n,
        dimension_product(dimensions, i) is Err,
    ensures
        dimension_product(dimensions, n) == dimension_product(dimensions, i),
    decreases n,
{
    if i < n {
        lemma_product_fails(dimensions, i, n - 1);
    }
}

/// Which of the decisions of a family one decision is.
#[derive(Clone, Copy, Debug, PartialEq, Eq, Structural)]
pub struct DecisionCoordinates {
    pub candidate: u64,
    pub round: u64,
    pub composite: u64,
    pub fallback: u64,
    pub campaign: u64,
    pub activation_attempt: u64,
}

impl DecisionCoordinates {
    pub open spec fn within(self, family: MultiplicityFamily) -> bool {
        self.candidate < family.candidates && self.round < family.rounds && self.composite
            < family.composites && self.fallback < family.fallbacks && self.campaign
            < family.campaigns && self.activation_attempt < family.activation_attempts
    }

    pub(crate) fn validate(self, family: MultiplicityFamily) -> (r: Result<(), ScoringError>)
        ensures
            r == if self.within(family) {
                Ok::<(), ScoringError>(())
            } else {
                Err(ScoringError::CoordinatesOutsideFamily)
            },
    {
        if self.candidate < family.candidates && self.round < family.rounds && self.composite
            < family.composites && self.fallback < family.fallbacks && self.campaign
            < family.campaigns && self.activation_attempt < family.activation_attempts {
            Ok(())
        } else {
            Err(ScoringError::CoordinatesOutsideFamily)
        }
    }
}

#[derive(Debug, PartialEq, Eq)]
pub struct FrozenScoringPolicy {
    pub schema_version: u32,
    pub estimator_version: String,
    pub calibration: String,
    /// The identities of the cases that must not fail.
    pub critical_cases: DigestSet,
    pub strata: Vec<StratumPolicy>,
    pub metrics: Vec<MetricPolicy>,
    pub minimum_complete_blocks: u32,
    pub maximum_exact_blocks: u32,
    pub required_hard_gates: Vec<GateName>,
    pub multiplicity_family: MultiplicityFamily,
    pub adaptive_error_nanos_per_hypothesis: u64,
    pub final_error_nanos_per_hypothesis: u64,
}

/// The canonical JSON of a family.
pub open spec fn family_json(v: MultiplicityFamily) -> Seq<char> {
    "{\"candidates\":"@ + decimal(v.candidates as nat) + ",\"rounds\":"@ + decimal(v.rounds as nat) + ",\"metrics\":"@ + decimal(v.metrics as nat) + ",\"strata\":"@ + decimal(v.strata as nat) + ",\"composites\":"@ + decimal(v.composites as nat) + ",\"fallbacks\":"@ + decimal(v.fallbacks as nat) + ",\"campaigns\":"@ + decimal(v.campaigns as nat) + ",\"activation_attempts\":"@ + decimal(v.activation_attempts as nat) + "}"@
}

fn family_text(v: &MultiplicityFamily) -> (r: String)
    ensures
        r@ == family_json(*v),
{
    let mut json = "{\"candidates\":".to_owned();
    push_decimal(&mut json, v.candidates as u64);
    json.push_str(",\"rounds\":");
    push_decimal(&mut json, v.rounds as u64);
    json.push_str(",\"metrics\":");
    push_decimal(&mut json, v.metrics as u64);
    json.push_str(",\"strata\":");
    push_decimal(&mut json, v.strata as u64);
    json.push_str(",\"composites\":");
    push_decimal(&mut json, v.composites as u64);
    json.push_str(",\"fallbacks\":");
    push_decimal(&mut json, v.fallbacks as u64);
    json.push_str(",\"campaigns\":");
    push_decimal(&mut json, v.campaigns as u64);
    json.push_str(",\"activation_attempts\":");
    push_decimal(&mut json, v.activation_attempts as u64);
    json.push_str("}");
    json
}

/// The canonical JSON of the first `n` identities of cases, separated by commas.
pub open spec fn case_ids_json(items: Seq<CaseIdentity>, n: int) -> Seq<char>
    decreases n,
{
    if n <= 0 {
        ""@
    } else if n == 1 {
        ""@ + quoted(items[0].0.text())
    } else {
        case_ids_json(items, n - 1) + ","@ + quoted(items[n - 1].0.text())
    }
}

fn case_ids_text(items: &Vec<CaseIdentity>) -> (r: String)
    ensures
        r@ == case_ids_json(items@, items.len() as int),
{
    let mut json = "".to_owned();
    let mut i: usize = 0;
    while i < items.len()
        invariant
            i <= items.len(),
            json@ == case_ids_json(items@, i as int),
        decreases items.len() - i,
    {
        if i > 0 {
            json.push_str(",");
        }
        push_digest(&mut json, &items[i].0);
        i += 1;
    }
    json
}

/// The canonical JSON of a stratum.
pub open spec fn stratum_json(v: StratumPolicy) -> Seq<char> {
    "{\"name\":"@ + json_string(v.name.text()) + ",\"cases\":["@ + case_ids_json(v.cases@, v.cases@.len() as int) + "]}"@
}

fn stratum_text(v: &StratumPolicy) -> (r: String)
    ensures
        r@ == stratum_json(*v),
{
    let mut json = "{\"name\":".to_owned();
    push_json_string(&mut json, v.name.as_str());
    json.push_str(",\"cases\":[");
    json.push_str(case_ids_text(&v.cases).as_str());
    json.push_str("]}");
    json
}

/// The canonical JSON of the first `n` strata, separated by commas.
pub open spec fn strata_json(items: Seq<StratumPolicy>, n: int) -> Seq<char>
    decreases n,
{
    if n <= 0 {
        ""@
    } else if n == 1 {
        ""@ + stratum_json(items[0])
    } else {
        strata_json(items, n - 1) + ","@ + stratum_json(items[n - 1])
    }
}

fn strata_text(items: &Vec<StratumPolicy>) -> (r: String)
    ensures
        r@ == strata_json(items@, items.len() as int),
{
    let mut json = "".to_owned();
    let mut i: usize = 0;
    while i < items.len()
        invariant
            i <= items.len(),
            json@ == strata_json(items@, i as int),
        decreases items.len() - i,
    {
        if i > 0 {
            json.push_str(",");
        }
        json.push_str(stratum_text(&items[i]).as_str());
        i += 1;
    }
    json
}

/// The canonical JSON of a metric policy.
pub open spec fn metric_policy_json(v: MetricPolicy) -> Seq<char> {
    "{\"name\":"@ + json_string(v.name.text()) + ",\"kind\":"@ + quoted(v.kind.spec_name()) + ",\"margin\":"@ + decimal(v.margin.spec_millionths() as nat) + "}"@
}

fn metric_policy_text(v: &MetricPolicy) -> (r: String)
    ensures
        r@ == metric_policy_json(*v),
{
    let mut json = "{\"name\":".to_owned();
    push_json_string(&mut json, v.name.as_str());
    json.push_str(",\"kind\":");
    push_quoted(&mut json, v.kind.name());
    json.push_str(",\"margin\":");
    push_decimal(&mut json, v.margin.millionths() as u64);
    json.push_str("}");
    json
}

/// The canonical JSON of the first `n` metric policies, separated by commas.
pub open spec fn metric_policies_json(items: Seq<MetricPolicy>, n: int) -> Seq<char>
    decreases n,
{
    if n <= 0 {
        ""@
    } else if n == 1 {
        ""@ + metric_policy_json(items[0])
    } else {
        metric_policies_json(items, n - 1) + ","@ + metric_policy_json(items[n - 1])
    }
}

fn metric_policies_text(items: &Vec<MetricPolicy>) -> (r: String)
    ensures
        r@ == metric_policies_json(items@, items.len() as int),
{
    let mut json = "".to_owned();
    let mut i: usize = 0;
    while i < items.len()
        invariant
            i <= items.len(),
            json@ == metric_policies_json(items@, i as int),
        decreases items.len() - i,
    {
        if i > 0 {
            json.push_str(",");
        }
        json.push_str(metric_policy_text(&items[i]).as_str());
        i += 1;
    }
    json
}

/// The canonical JSON of the first `n` names of gates, separated by commas.
pub open spec fn gate_names_json(items: Seq<GateName>, n: int) -> Seq<char>
    decreases n,
{
    if n <= 0 {
        ""@
    } else if n == 1 {
        ""@ + json_string(items[0].text())
    } else {
        gate_names_json(items, n - 1) + ","@ + json_string(items[n - 1].text())
    }
}

fn gate_names_text(items: &Vec<GateName>) -> (r: String)
    ensures
        r@ == gate_names_json(items@, items.len() as int),
{
    let mut json = "".to_owned();
    let mut i: usize = 0;
    while i < items.len()
        invariant
            i <= items.len(),
            json@ == gate_names_json(items@, i as int),
        decreases items.len() - i,
    {
        if i > 0 {
            json.push_str(",");
        }
        push_json_string(&mut json, items[i].as_str());
        i += 1;
    }
    json
}

/// The canonical JSON of a scoring policy.
pub open spec fn policy_json(v: FrozenScoringPolicy) -> Seq<char> {
    "{\"schema_version\":"@ + decimal(v.schema_version as nat) + ",\"estimator_version\":"@ + json_string(v.estimator_version@) + ",\"calibration\":"@ + json_string(v.calibration@) + ",\"critical_cases\":["@ + digests_json(v.critical_cases@, v.critical_cases@.len() as int) + "],\"strata\":["@ + strata_json(v.strata@, v.strata@.len() as int) + "],\"metrics\":["@ + metric_policies_json(v.metrics@, v.metrics@.len() as int) + "],\"minimum_complete_blocks\":"@ + decimal(v.minimum_complete_blocks as nat) + ",\"maximum_exact_blocks\":"@ + decimal(v.maximum_exact_blocks as nat) + ",\"required_hard_gates\":["@ + gate_names_json(v.required_hard_gates@, v.required_hard_gates@.len() as int) + "],\"multiplicity_family\":"@ + family_json(v.multiplicity_family) + ",\"adaptive_error_nanos_per_hypothesis\":"@ + decimal(v.adaptive_error_nanos_per_hypothesis as nat) + ",\"final_error_nanos_per_hypothesis\":"@ + decimal(v.final_error_nanos_per_hypothesis as nat) + "}"@
}

pub(crate) fn policy_text(v: &FrozenScoringPolicy) -> (r: String)
    ensures
        r@ == policy_json(*v),
{
    let mut json = "{\"schema_version\":".to_owned();
    push_decimal(&mut json, v.schema_version as u64);
    json.push_str(",\"estimator_version\":");
    push_json_string(&mut json, v.estimator_version.as_str());
    json.push_str(",\"calibration\":");
    push_json_string(&mut json, v.calibration.as_str());
    json.push_str(",\"critical_cases\":[");
    json.push_str(digests_text(&v.critical_cases).as_str());
    json.push_str("],\"strata\":[");
    json.push_str(strata_text(&v.strata).as_str());
    json.push_str("],\"metrics\":[");
    json.push_str(metric_policies_text(&v.metrics).as_str());
    json.push_str("],\"minimum_complete_blocks\":");
    push_decimal(&mut json, v.minimum_complete_blocks as u64);
    json.push_str(",\"maximum_exact_blocks\":");
    push_decimal(&mut json, v.maximum_exact_blocks as u64);
    json.push_str(",\"required_hard_gates\":[");
    json.push_str(gate_names_text(&v.required_hard_gates).as_str());
    json.push_str("],\"multiplicity_family\":");
    json.push_str(family_text(&v.multiplicity_family).as_str());
    json.push_str(",\"adaptive_error_nanos_per_hypothesis\":");
    push_decimal(&mut json, v.adaptive_error_nanos_per_hypothesis as u64);
    json.push_str(",\"final_error_nanos_per_hypothesis\":");
    push_decimal(&mut json, v.final_error_nanos_per_hypothesis as u64);
    json.push_str("}");
    json
}

/// A case with its block and its repeats.
#[derive(Clone, Copy, Debug, PartialEq, Eq, Structural)]
pub struct ManifestEntry {
    pub case: CaseIdentity,
    pub block: IndependentBlockId,
    pub repeats: u32,
}

/// Whether a case is the one at an index.
pub open spec fn case_at(manifest: Seq<ManifestEntry>, case: CaseIdentity, i: int) -> bool {
    0 <= i < manifest.len() && manifest[i].case == case
}

/// Whether a case is listed.
pub open spec fn is_listed(manifest: Seq<ManifestEntry>, case: CaseIdentity) -> bool {
    exists|i: int| case_at(manifest, case, i)
}

/// What is listed for a case, if it is.
pub open spec fn entry_of(manifest: Seq<ManifestEntry>, case: CaseIdentity) -> Option<
    ManifestEntry,
> {
    if is_listed(manifest, case) {
        Some(manifest[choose|i: int| case_at(manifest, case, i)])
    } else {
        None
    }
}

/// A list with one more entry, in the place of one for the same case.
pub open spec fn listing(manifest: Seq<ManifestEntry>, entry: ManifestEntry) -> Seq<ManifestEntry> {
    if is_listed(manifest, entry.case) {
        manifest.update(choose|i: int| case_at(manifest, entry.case, i), entry)
    } else {
        manifest.push(entry)
    }
}

/// A list extended by the first `n` cases of a block.
pub open spec fn listing_cases(
    manifest: Seq<ManifestEntry>,
    block: IndependentBlockId,
    cases: Seq<EvaluationCase>,
    n: int,
) -> Seq<ManifestEntry>
    decreases n,
{
    if n <= 0 {
        manifest
    } else {
        listing(
            listing_cases(manifest, block, cases, n - 1),
            ManifestEntry { case: cases[n - 1].id, block, repeats: cases[n - 1].repeats },
        )
    }
}

/// The cases of the first `n` blocks, each with what was said of it last.
pub open spec fn manifest_of(blocks: Seq<IndependentBlock>, n: int) -> Seq<ManifestEntry>
    decreases n,
{
    if n <= 0 {
        Seq::empty()
    } else {
        listing_cases(
            manifest_of(blocks, n - 1),
            blocks[n - 1].id,
            blocks[n - 1].cases@,
            blocks[n - 1].cases@.len() as int,
        )
    }
}

/// The cases of a cohort.
pub open spec fn cohort_manifest(cohort: EvaluationCohortSpec) -> Seq<ManifestEntry> {
    manifest_of(cohort.blocks@, cohort.blocks@.len() as int)
}

/// Whether no case is listed twice.
pub open spec fn cases_unique(manifest: Seq<ManifestEntry>) -> bool {
    forall|i: int, j: int|
        0 <= i < j < manifest.len() ==> (#[trigger] manifest[i]).case != (
        #[trigger] manifest[j]).case
}

proof fn lemma_listing_unique(manifest: Seq<ManifestEntry>, entry: ManifestEntry)
    requires
        cases_unique(manifest),
    ensures
        cases_unique(listing(manifest, entry)),
{
    let after = listing(manifest, entry);
    if is_listed(manifest, entry.case) {
        let k = choose|i: int| case_at(manifest, entry.case, i);
        assert(case_at(manifest, entry.case, k));
        assert forall|i: int, j: int| 0 <= i < j < after.len() implies (#[trigger] after[i]).case
            != (#[trigger] after[j]).case by {
            assert(after[i].case == manifest[i].case);
            assert(after[j].case == manifest[j].case);
        }
    } else {
        assert forall|i: int| 0 <= i < manifest.len() implies (#[trigger] manifest[i]).case
            != entry.case by {
            assert(!case_at(manifest, entry.case, i));
        }
    }
}

proof fn lemma_listing_cases_unique(
    manifest: Seq<ManifestEntry>,
    block: IndependentBlockId,
    cases: Seq<EvaluationCase>,
    n: int,
)
    requires
        cases_unique(manifest),
    ensures
        cases_unique(listing_cases(manifest, block, cases, n)),
    decreases n,
{
    if n > 0 {
        lemma_listing_cases_unique(manifest, block, cases, n - 1);
        lemma_listing_unique(
            listing_cases(manifest, block, cases, n - 1),
            ManifestEntry { case: cases[n - 1].id, block, repeats: cases[n - 1].repeats },
        );
    }
}

/// The manifest of some blocks lists no case twice.
pub proof fn lemma_manifest_unique(blocks: Seq<IndependentBlock>, n: int)
    ensures
        cases_unique(manifest_of(blocks, n)),
    decreases n,
{
    if n > 0 {
        lemma_manifest_unique(blocks, n - 1);
        lemma_listing_cases_unique(
            manifest_of(blocks, n - 1),
            blocks[n - 1].id,
            blocks[n - 1].cases@,
            blocks[n - 1].cases@.len() as int,
        );
    }
}

/// Whether an entry says what a cohort says of a case.
pub open spec fn entered(entry: ManifestEntry, block: IndependentBlock, c: int) -> bool {
    entry == (ManifestEntry {
        case: block.cases@[c].id,
        block: block.id,
        repeats: block.cases@[c].repeats,
    })
}

/// Whether an entry says what one of some blocks says of a case.
pub open spec fn is_entered(entry: ManifestEntry, blocks: Seq<IndependentBlock>) -> bool {
    exists|b: int, c: int|
        0 <= b < blocks.len() && 0 <= c < blocks[b].cases@.len() && #[trigger] entered(
            entry,
            blocks[b],
            c,
        )
}

/// Whether two places of a cohort name one case.
pub open spec fn same_case(
    blocks: Seq<IndependentBlock>,
    b: int,
    c: int,
    d: int,
    e: int,
) -> bool {
    blocks[b].cases@[c].id == blocks[d].cases@[e].id
}

proof fn lemma_listing_cases(
    manifest: Seq<ManifestEntry>,
    block: IndependentBlock,
    n: int,
    entry: ManifestEntry,
)
    requires
        0 <= n <= block.cases@.len(),
        cases_unique(manifest),
    ensures
        ({
            let after = listing_cases(manifest, block.id, block.cases@, n);
            &&& after.contains(entry) ==> manifest.contains(entry) || exists|c: int|
                0 <= c < n && #[trigger] entered(entry, block, c)
            &&& manifest.contains(entry) && (forall|c: int|
                0 <= c < n ==> (#[trigger] block.cases@[c]).id != entry.case) ==> after.contains(
                entry,
            )
            &&& (exists|c: int|
                0 <= c < n && #[trigger] entered(entry, block, c) && forall|e: int|
                    c < e < n ==> (#[trigger] block.cases@[e]).id != entry.case)
                ==> after.contains(entry)
        }),
    decreases n,
{
    if n > 0 {
        lemma_listing_cases(manifest, block, n - 1, entry);
        lemma_listing_cases_unique(manifest, block.id, block.cases@, n - 1);
        let before = listing_cases(manifest, block.id, block.cases@, n - 1);
        let after = listing_cases(manifest, block.id, block.cases@, n);
        let new = ManifestEntry {
            case: block.cases@[n - 1].id,
            block: block.id,
            repeats: block.cases@[n - 1].repeats,
        };
        assert(entered(new, block, n - 1));
        let k = choose|i: int| case_at(before, new.case, i);
        if is_listed(before, new.case) {
            assert(case_at(before, new.case, k));
            assert(after[k] == new);
        } else {
            assert(after[before.len() as int] == new);
        }
        if after.contains(entry) && entry != new {
            let i = choose|i: int| 0 <= i < after.len() && after[i] == entry;
            assert(before[i] == entry);
        }
        if before.contains(entry) && block.cases@[n - 1].id != entry.case {
            let i = choose|i: int| 0 <= i < before.len() && before[i] == entry;
            assert(after[i] == entry);
        }
        assert(after.contains(new));
        if exists|c: int|
            0 <= c < n && #[trigger] entered(entry, block, c) && forall|e: int|
                c < e < n ==> (#[trigger] block.cases@[e]).id != entry.case {
            let c = choose|c: int|
                0 <= c < n && #[trigger] entered(entry, block, c) && forall|e: int|
                    c < e < n ==> (#[trigger] block.cases@[e]).id != entry.case;
            if c < n - 1 {
                assert(block.cases@[n - 1].id != entry.case);
                assert(entered(entry, block, c));
            }
        }
    }
}

proof fn lemma_manifest_lists(blocks: Seq<IndependentBlock>, n: int, b: int, c: int)
    requires
        0 <= b < n <= blocks.len(),
        0 <= c < blocks[b].cases@.len(),
        forall|d: int, e: int|
            0 <= d < n && 0 <= e < blocks[d].cases@.len() && #[trigger] same_case(
                blocks,
                b,
                c,
                d,
                e,
            ) ==> d == b && e == c,
    ensures
        manifest_of(blocks, n).contains(
            ManifestEntry {
                case: blocks[b].cases@[c].id,
                block: blocks[b].id,
                repeats: blocks[b].cases@[c].repeats,
            },
        ),
    decreases n,
{
    let entry = ManifestEntry {
        case: blocks[b].cases@[c].id,
        block: blocks[b].id,
        repeats: blocks[b].cases@[c].repeats,
    };
    let last = blocks[n - 1];
    lemma_manifest_unique(blocks, n - 1);
    lemma_listing_cases(manifest_of(blocks, n - 1), last, last.cases@.len() as int, entry);
    if b < n - 1 {
        lemma_manifest_lists(blocks, n - 1, b, c);
        assert forall|e: int| 0 <= e < last.cases@.len() implies (
        #[trigger] last.cases@[e]).id != entry.case by {
            if last.cases@[e].id == entry.case {
                assert(same_case(blocks, b, c, n - 1, e));
            }
        }
    } else {
        assert(entered(entry, last, c));
        assert forall|e: int| c < e < last.cases@.len() implies (
        #[trigger] last.cases@[e]).id != entry.case by {
            if last.cases@[e].id == entry.case {
                assert(same_case(blocks, b, c, n - 1, e));
            }
        }
    }
}

proof fn lemma_manifest_holds(blocks: Seq<IndependentBlock>, n: int, entry: ManifestEntry)
    requires
        0 <= n <= blocks.len(),
        manifest_of(blocks, n).contains(entry),
    ensures
        exists|b: int, c: int|
            0 <= b < n && 0 <= c < blocks[b].cases@.len() && #[trigger] entered(
                entry,
                blocks[b],
                c,
            ),
    decreases n,
{
    if n > 0 {
        let last = blocks[n - 1];
        lemma_manifest_unique(blocks, n - 1);
        lemma_listing_cases(manifest_of(blocks, n - 1), last, last.cases@.len() as int, entry);
        if manifest_of(blocks, n - 1).contains(entry) {
            lemma_manifest_holds(blocks, n - 1, entry);
        } else {
            let c = choose|c: int|
                0 <= c < last.cases@.len() && #[trigger] entered(entry, last, c);
            assert(entered(entry, blocks[n - 1], c));
        }
    } else {
        assert(false);
    }
}

/// The manifest of a cohort lists each case that the cohort names once, with its block and
/// its repeats, and nothing that the cohort does not say.
pub proof fn law_manifests_list_the_cohort(cohort: EvaluationCohortSpec)
    ensures
        forall|b: int, c: int|
            0 <= b < cohort.blocks@.len() && 0 <= c < cohort.blocks@[b].cases@.len() && (forall|
                d: int,
                e: int,
            |
                0 <= d < cohort.blocks@.len() && 0 <= e < cohort.blocks@[d].cases@.len()
                    && #[trigger] same_case(cohort.blocks@, b, c, d, e) ==> d == b && e == c)
                ==> cohort_manifest(cohort).contains(
                ManifestEntry {
                    case: (#[trigger] cohort.blocks@[b].cases@[c]).id,
                    block: cohort.blocks@[b].id,
                    repeats: cohort.blocks@[b].cases@[c].repeats,
                },
            ),
        forall|i: int|
            0 <= i < cohort_manifest(cohort).len() ==> is_entered(
                #[trigger] cohort_manifest(cohort)[i],
                cohort.blocks@,
            ),
{
    let blocks = cohort.blocks@;
    let n = blocks.len() as int;
    assert forall|b: int, c: int|
        0 <= b < n && 0 <= c < blocks[b].cases@.len() && (forall|d: int, e: int|
            0 <= d < n && 0 <= e < blocks[d].cases@.len() && #[trigger] same_case(
                blocks,
                b,
                c,
                d,
                e,
            ) ==> d == b && e == c) implies cohort_manifest(cohort).contains(
        ManifestEntry {
            case: (#[trigger] cohort.blocks@[b].cases@[c]).id,
            block: blocks[b].id,
            repeats: blocks[b].cases@[c].repeats,
        },
    ) by {
        lemma_manifest_lists(blocks, n, b, c);
    }
    assert forall|i: int| 0 <= i < cohort_manifest(cohort).len() implies is_entered(
        #[trigger] cohort_manifest(cohort)[i],
        cohort.blocks@,
    ) by {
        lemma_manifest_holds(blocks, n, cohort_manifest(cohort)[i]);
    }
}

proof fn lemma_entry_at(manifest: Seq<ManifestEntry>, i: int)
    requires
        cases_unique(manifest),
        0 <= i < manifest.len(),
    ensures
        entry_of(manifest, manifest[i].case) == Some(manifest[i]),
        i == (choose|k: int| case_at(manifest, manifest[i].case, k)),
{
    let case = manifest[i].case;
    assert(case_at(manifest, case, i));
    let k = choose|k: int| case_at(manifest, case, k);
    assert(case_at(manifest, case, k));
}

/// The cases of a cohort, each listed once.
#[derive(Debug, PartialEq, Eq)]
pub struct Manifest {
    entries: Vec<ManifestEntry>,
}

impl View for Manifest {
    type V = Seq<ManifestEntry>;

    closed spec fn view(&self) -> Seq<ManifestEntry> {
        self.entries@
    }
}

impl Manifest {
    #[verifier::type_invariant]
    spec fn well_formed(self) -> bool {
        cases_unique(self.entries@)
    }

    pub fn of(cohort: &EvaluationCohortSpec) -> (r: Self)
        ensures
            r@ == cohort_manifest(*cohort),
            cases_unique(r@),
    {
        let mut entries: Vec<ManifestEntry> = Vec::new();
        let mut b: usize = 0;
        while b < cohort.blocks.len()
            invariant
                b <= cohort.blocks.len(),
                entries@ == manifest_of(cohort.blocks@, b as int),
                cases_unique(entries@),
            decreases cohort.blocks.len() - b,
        {
            let block = &cohort.blocks[b];
            let ghost base = entries@;
            let mut c: usize = 0;
            while c < block.cases.len()
                invariant
                    c <= block.cases.len(),
                    entries@ == listing_cases(base, block.id, block.cases@, c as int),
                    cases_unique(entries@),
                decreases block.cases.len() - c,
            {
                let entry = ManifestEntry {
                    case: block.cases[c].id,
                    block: block.id,
                    repeats: block.cases[c].repeats,
                };
                proof {
                    lemma_listing_unique(entries@, entry);
                }
                match position(&entries, entry.case) {
                    Some(i) => {
                        entries.set(i, entry);
                    },
                    None => {
                        entries.push(entry);
                    },
                }
                c += 1;
            }
            b += 1;
        }
        Manifest { entries }
    }

    pub fn len(&self) -> (r: usize)
        ensures
            r == self@.len(),
            cases_unique(self@),
    {
        proof {
            use_type_invariant(self);
        }
        self.entries.len()
    }

    pub fn entry(&self, i: usize) -> (r: ManifestEntry)
        requires
            i < self@.len(),
        ensures
            r == self@[i as int],
    {
        self.entries[i]
    }

    pub fn get(&self, case: CaseIdentity) -> (r: Option<ManifestEntry>)
        ensures
            r == entry_of(self@, case),
            r is Some ==> r->0.case == case,
    {
        proof {
            use_type_invariant(self);
        }
        match position(&self.entries, case) {
            Some(i) => Some(self.entries[i]),
            None => None,
        }
    }
}

fn position(entries: &Vec<ManifestEntry>, case: CaseIdentity) -> (r: Option<usize>)
    requires
        cases_unique(entries@),
    ensures
        match r {
            Some(i) => {
                &&& case_at(entries@, case, i as int)
                &&& i == (choose|k: int| case_at(entries@, case, k))
                &&& entry_of(entries@, case) == Some(entries@[i as int])
            },
            None => !is_listed(entries@, case),
        },
{
    let mut i: usize = 0;
    while i < entries.len()
        invariant
            i <= entries.len(),
            cases_unique(entries@),
            forall|k: int| 0 <= k < i ==> !#[trigger] case_at(entries@, case, k),
        decreases entries.len() - i,
    {
        if entries[i].case == case {
            proof {
                lemma_entry_at(entries@, i as int);
            }
            return Some(i);
        }
        i += 1;
    }
    None
}

/// The blocks that a list of cases belongs to.
pub open spec fn blocks_of(entries: Seq<ManifestEntry>) -> Seq<Digest> {
    entries.map_values(|entry: ManifestEntry| entry.block.0)
}

/// How many different blocks a list of cases belongs to.
pub open spec fn block_count(entries: Seq<ManifestEntry>) -> nat {
    blocks_of(entries).to_set().len()
}

pub(crate) fn count_blocks(entries: &Vec<ManifestEntry>) -> (r: usize)
    ensures
        r == block_count(entries@),
{
    let mut seen = DigestSet::new();
    let mut i: usize = 0;
    proof {
        assert(seen@.to_set() =~= blocks_of(entries@.subrange(0, 0)).to_set());
    }
    while i < entries.len()
        invariant
            i <= entries.len(),
            seen@.to_set() == blocks_of(entries@.subrange(0, i as int)).to_set(),
        decreases entries.len() - i,
    {
        let ghost before = blocks_of(entries@.subrange(0, i as int));
        let ghost after = blocks_of(entries@.subrange(0, i + 1));
        seen.insert(entries[i].block.0);
        proof {
            assert(after =~= before.push(entries@[i as int].block.0));
            lemma_push_to_set(before, entries@[i as int].block.0);
        }
        i += 1;
    }
    assert(entries@.subrange(0, entries.len() as int) =~= entries@);
    seen.len()
}

pub(crate) proof fn lemma_push_to_set(before: Seq<Digest>, new: Digest)
    ensures
        before.push(new).to_set() == before.to_set().insert(new),
{
    let a = before.push(new).to_set();
    let b = before.to_set().insert(new);
    assert forall|x: Digest| a.contains(x) <==> b.contains(x) by {
        if before.to_set().contains(x) {
            let i = choose|i: int| 0 <= i < before.len() && before[i] == x;
            assert(before.push(new)[i] == x);
        }
        if x == new {
            assert(before.push(new)[before.len() as int] == x);
        }
        if a.contains(x) && x != new {
            let i = choose|i: int| 0 <= i < before.len() + 1 && before.push(new)[i] == x;
            assert(before[i] == x);
        }
    }
    assert(a =~= b);
}

/// Whether a stratum is a proper one: it has cases, no case twice, and only cases of the
/// cohort.
pub open spec fn stratum_valid(stratum: StratumPolicy, manifest: Seq<ManifestEntry>) -> bool {
    &&& stratum.cases@.len() > 0
    &&& stratum.cases@.no_duplicates()
    &&& forall|i: int|
        0 <= i < stratum.cases@.len() ==> is_listed(manifest, #[trigger] stratum.cases@[i])
}

/// Whether the strata are proper ones, each with a name of its own.
pub open spec fn strata_valid(strata: Seq<StratumPolicy>, manifest: Seq<ManifestEntry>) -> bool {
    &&& strata.len() > 0
    &&& forall|i: int| 0 <= i < strata.len() ==> stratum_valid(#[trigger] strata[i], manifest)
    &&& forall|i: int, j: int|
        0 <= i < j < strata.len() ==> (#[trigger] strata[i]).name.text() != (
        #[trigger] strata[j]).name.text()
}

/// Whether the metrics have names of their own, and exactly one of them is primary.
pub open spec fn metrics_valid(metrics: Seq<MetricPolicy>) -> bool {
    &&& forall|i: int, j: int|
        0 <= i < j < metrics.len() ==> (#[trigger] metrics[i]).name.text() != (
        #[trigger] metrics[j]).name.text()
    &&& primaries(metrics, metrics.len() as int) == 1
}

/// How many of the first `n` metrics are primary.
pub open spec fn primaries(metrics: Seq<MetricPolicy>, n: int) -> int
    decreases n,
{
    if n <= 0 {
        0
    } else {
        primaries(metrics, n - 1) + if metrics[n - 1].kind == MetricKind::Primary {
            1int
        } else {
            0int
        }
    }
}

/// Whether there are hard gates, each with a name of its own.
pub open spec fn gates_valid(gates: Seq<GateName>) -> bool {
    &&& gates.len() > 0
    &&& forall|i: int, j: int|
        0 <= i < j < gates.len() ==> (#[trigger] gates[i]).text() != (#[trigger] gates[j]).text()
}

/// What is wrong with the allocation of a ledger: it has exactly one query for every
/// hypothesis of the family, and the error of each.
pub open spec fn allocation_problem(limit: LedgerLimit, family_size: int, error_nanos: u64) -> Option<
    ScoringError,
> {
    if error_nanos == 0 || error_nanos > ERROR_SCALE {
        Some(ScoringError::InvalidErrorAllocation)
    } else if family_size * error_nanos > u64::MAX {
        Some(ScoringError::MultiplicityOverflow)
    } else if limit.queries != family_size || limit.error_nanos != family_size * error_nanos {
        Some(ScoringError::IncompleteFamilyAllocation)
    } else {
        None
    }
}

/// What is wrong with the multiplicity family of a policy and its allocations.
pub open spec fn family_problem(policy: FrozenScoringPolicy, cohort: EvaluationCohortSpec) -> Option<
    ScoringError,
> {
    match policy.multiplicity_family.spec_size() {
        Err(error) => Some(error),
        Ok(size) => if policy.multiplicity_family.metrics != policy.metrics@.len()
            || policy.multiplicity_family.strata != policy.strata@.len() {
            Some(ScoringError::MultiplicitySchemaMismatch)
        } else {
            either(
                allocation_problem(
                    cohort.adaptive_promotion,
                    size,
                    policy.adaptive_error_nanos_per_hypothesis,
                ),
                allocation_problem(
                    cohort.final_audit,
                    size,
                    policy.final_error_nanos_per_hypothesis,
                ),
            )
        },
    }
}

/// What is wrong with a scoring policy for a cohort.
pub open spec fn policy_problem(policy: FrozenScoringPolicy, cohort: EvaluationCohortSpec) -> Option<
    ScoringError,
> {
    let manifest = cohort_manifest(cohort);
    if policy.schema_version != 1 {
        Some(ScoringError::UnsupportedSchema)
    } else if !nameable(policy.estimator_version@, MAX_NAME_BYTES as int) {
        Some(ScoringError::InvalidEstimatorVersion)
    } else if !nameable(policy.calibration@, MAX_NAME_BYTES as int) {
        Some(ScoringError::InvalidCalibration)
    } else if policy.minimum_complete_blocks == 0 || policy.maximum_exact_blocks == 0
        || policy.maximum_exact_blocks > MAX_EXACT_BLOCKS {
        Some(ScoringError::InvalidBlockBounds)
    } else if exists|i: int|
        0 <= i < policy.critical_cases@.len() && !is_listed(
            manifest,
            CaseIdentity(#[trigger] policy.critical_cases@[i]),
        ) {
        Some(ScoringError::UnknownCriticalCase)
    } else if block_count(manifest) > policy.maximum_exact_blocks {
        Some(ScoringError::TooManyExactBlocks)
    } else if !strata_valid(policy.strata@, manifest) {
        Some(ScoringError::InvalidStrata)
    } else if !metrics_valid(policy.metrics@) {
        Some(ScoringError::InvalidMetrics)
    } else if !gates_valid(policy.required_hard_gates@) {
        Some(ScoringError::InvalidRequiredGates)
    } else {
        family_problem(policy, cohort)
    }
}

fn validate_allocation(limit: LedgerLimit, family_size: u64, error_nanos: u64) -> (r: Result<
    (),
    ScoringError,
>)
    ensures
        r == refused(allocation_problem(limit, family_size as int, error_nanos)),
{
    if error_nanos == 0 || error_nanos > ERROR_SCALE {
        return Err(ScoringError::InvalidErrorAllocation);
    }
    let total = match family_size.checked_mul(error_nanos) {
        Some(total) => total,
        None => return Err(ScoringError::MultiplicityOverflow),
    };
    if limit.queries != family_size || limit.error_nanos != total {
        return Err(ScoringError::IncompleteFamilyAllocation);
    }
    Ok(())
}

fn cases_distinct(cases: &Vec<CaseIdentity>) -> (r: bool)
    ensures
        r == cases@.no_duplicates(),
{
    let mut i: usize = 0;
    while i < cases.len()
        invariant
            i <= cases.len(),
            forall|a: int, b: int| 0 <= a < b < i ==> cases@[a] != cases@[b],
        decreases cases.len() - i,
    {
        let mut j: usize = 0;
        while j < i
            invariant
                j <= i < cases.len(),
                forall|a: int| 0 <= a < j ==> cases@[a] != cases@[i as int],
            decreases i - j,
        {
            if cases[j] == cases[i] {
                return false;
            }
            j += 1;
        }
        i += 1;
    }
    true
}

impl StratumPolicy {
    fn is_valid(&self, manifest: &Manifest) -> (r: bool)
        ensures
            r == stratum_valid(*self, manifest@),
    {
        if self.cases.len() == 0 || !cases_distinct(&self.cases) {
            return false;
        }
        let mut i: usize = 0;
        while i < self.cases.len()
            invariant
                i <= self.cases.len(),
                forall|k: int| 0 <= k < i ==> is_listed(manifest@, #[trigger] self.cases@[k]),
            decreases self.cases.len() - i,
        {
            if manifest.get(self.cases[i]).is_none() {
                assert(!is_listed(manifest@, self.cases@[i as int]));
                return false;
            }
            i += 1;
        }
        true
    }
}

impl FrozenScoringPolicy {
    fn strata_are_valid(&self, manifest: &Manifest) -> (r: bool)
        ensures
            r == strata_valid(self.strata@, manifest@),
    {
        if self.strata.len() == 0 {
            return false;
        }
        let mut i: usize = 0;
        while i < self.strata.len()
            invariant
                i <= self.strata.len(),
                forall|k: int| 0 <= k < i ==> stratum_valid(#[trigger] self.strata@[k], manifest@),
                forall|a: int, b: int|
                    0 <= a < b < i ==> (#[trigger] self.strata@[a]).name.text() != (
                    #[trigger] self.strata@[b]).name.text(),
            decreases self.strata.len() - i,
        {
            if !self.strata[i].is_valid(manifest) {
                assert(!stratum_valid(self.strata@[i as int], manifest@));
                return false;
            }
            let mut j: usize = 0;
            while j < i
                invariant
                    j <= i < self.strata.len(),
                    forall|a: int|
                        0 <= a < j ==> (#[trigger] self.strata@[a]).name.text()
                            != self.strata@[i as int].name.text(),
                decreases i - j,
            {
                if same_text(self.strata[j].name.as_str(), self.strata[i].name.as_str()) {
                    assert(self.strata@[j as int].name.text() == self.strata@[i as int].name.text());
                    return false;
                }
                j += 1;
            }
            i += 1;
        }
        true
    }

    fn metrics_are_valid(&self) -> (r: bool)
        ensures
            r == metrics_valid(self.metrics@),
    {
        let mut primary: usize = 0;
        let mut i: usize = 0;
        while i < self.metrics.len()
            invariant
                i <= self.metrics.len(),
                primary <= i,
                primary == primaries(self.metrics@, i as int),
                forall|a: int, b: int|
                    0 <= a < b < i ==> (#[trigger] self.metrics@[a]).name.text() != (
                    #[trigger] self.metrics@[b]).name.text(),
            decreases self.metrics.len() - i,
        {
            let mut j: usize = 0;
            while j < i
                invariant
                    j <= i < self.metrics.len(),
                    forall|a: int|
                        0 <= a < j ==> (#[trigger] self.metrics@[a]).name.text()
                            != self.metrics@[i as int].name.text(),
                decreases i - j,
            {
                if same_text(self.metrics[j].name.as_str(), self.metrics[i].name.as_str()) {
                    assert(self.metrics@[j as int].name.text()
                        == self.metrics@[i as int].name.text());
                    return false;
                }
                j += 1;
            }
            if self.metrics[i].kind == MetricKind::Primary {
                primary += 1;
            }
            i += 1;
        }
        primary == 1
    }

    fn gates_are_valid(&self) -> (r: bool)
        ensures
            r == gates_valid(self.required_hard_gates@),
    {
        let gates = &self.required_hard_gates;
        if gates.len() == 0 {
            return false;
        }
        let mut i: usize = 0;
        while i < gates.len()
            invariant
                i <= gates.len(),
                gates@ == self.required_hard_gates@,
                forall|a: int, b: int|
                    0 <= a < b < i ==> (#[trigger] gates@[a]).text() != (
                    #[trigger] gates@[b]).text(),
            decreases gates.len() - i,
        {
            let mut j: usize = 0;
            while j < i
                invariant
                    j <= i < gates.len(),
                    gates@ == self.required_hard_gates@,
                    forall|a: int|
                        0 <= a < j ==> (#[trigger] gates@[a]).text() != gates@[i as int].text(),
                decreases i - j,
            {
                if same_text(gates[j].as_str(), gates[i].as_str()) {
                    assert(gates@[j as int].text() == gates@[i as int].text());
                    return false;
                }
                j += 1;
            }
            i += 1;
        }
        true
    }

    fn critical_cases_known(&self, manifest: &Manifest) -> (r: bool)
        ensures
            r == !(exists|i: int|
                0 <= i < self.critical_cases@.len() && !is_listed(
                    manifest@,
                    CaseIdentity(#[trigger] self.critical_cases@[i]),
                )),
    {
        let mut i: usize = 0;
        while i < self.critical_cases.len()
            invariant
                i <= self.critical_cases@.len(),
                forall|k: int|
                    0 <= k < i ==> is_listed(
                        manifest@,
                        CaseIdentity(#[trigger] self.critical_cases@[k]),
                    ),
            decreases self.critical_cases@.len() - i,
        {
            let case = CaseIdentity(self.critical_cases.get(i));
            if manifest.get(case).is_none() {
                assert(!is_listed(manifest@, CaseIdentity(self.critical_cases@[i as int])));
                return false;
            }
            i += 1;
        }
        true
    }

    pub fn validate(&self, cohort: &EvaluationCohortSpec) -> (r: Result<(), ScoringError>)
        ensures
            r == refused(policy_problem(*self, *cohort)),
    {
        if self.schema_version != 1 {
            return Err(ScoringError::UnsupportedSchema);
        }
        if !is_nameable(self.estimator_version.as_str(), MAX_NAME_BYTES) {
            return Err(ScoringError::InvalidEstimatorVersion);
        }
        if !is_nameable(self.calibration.as_str(), MAX_NAME_BYTES) {
            return Err(ScoringError::InvalidCalibration);
        }
        if self.minimum_complete_blocks == 0 || self.maximum_exact_blocks == 0
            || self.maximum_exact_blocks > MAX_EXACT_BLOCKS {
            return Err(ScoringError::InvalidBlockBounds);
        }
        let manifest = Manifest::of(cohort);
        if !self.critical_cases_known(&manifest) {
            return Err(ScoringError::UnknownCriticalCase);
        }
        if count_blocks(&manifest.entries) > self.maximum_exact_blocks as usize {
            return Err(ScoringError::TooManyExactBlocks);
        }
        if !self.strata_are_valid(&manifest) {
            return Err(ScoringError::InvalidStrata);
        }
        if !self.metrics_are_valid() {
            return Err(ScoringError::InvalidMetrics);
        }
        if !self.gates_are_valid() {
            return Err(ScoringError::InvalidRequiredGates);
        }
        let family_size = match self.multiplicity_family.size() {
            Ok(size) => size,
            Err(error) => return Err(error),
        };
        if self.multiplicity_family.metrics != self.metrics.len() as u64
            || self.multiplicity_family.strata != self.strata.len() as u64 {
            return Err(ScoringError::MultiplicitySchemaMismatch);
        }
        match validate_allocation(
            cohort.adaptive_promotion,
            family_size,
            self.adaptive_error_nanos_per_hypothesis,
        ) {
            Err(error) => return Err(error),
            Ok(()) => {},
        }
        validate_allocation(
            cohort.final_audit,
            family_size,
            self.final_error_nanos_per_hypothesis,
        )
    }
}

/// An accepted policy spends the whole error budget of each ledger on its family, and no
/// more.
pub proof fn law_allocations_exhaust_the_ledgers(
    policy: FrozenScoringPolicy,
    cohort: EvaluationCohortSpec,
)
    requires
        policy_problem(policy, cohort) is None,
    ensures
        policy.multiplicity_family.spec_size() is Ok,
        cohort.adaptive_promotion.queries == policy.multiplicity_family.spec_size()->Ok_0,
        cohort.adaptive_promotion.error_nanos == cohort.adaptive_promotion.queries
            * policy.adaptive_error_nanos_per_hypothesis,
        cohort.final_audit.queries == policy.multiplicity_family.spec_size()->Ok_0,
        cohort.final_audit.error_nanos == cohort.final_audit.queries
            * policy.final_error_nanos_per_hypothesis,
{
}

} // verus!
