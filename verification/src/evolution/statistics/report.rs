//! Evidence for an adaptive decision, and the report on it.
use crate::canonical::{json_string, push_digest, push_json_string, push_quoted, push_uuid, quoted};
use crate::digest::{digest_of_text, Digest};
use crate::evolution::ids::{
    CampaignId, CandidateId, CaseIdentity, CohortId, IndependentBlockId, RoundId, ScoreResultId,
};
use crate::evolution::registry::LedgerStatus;
use crate::evolution::statistics::policy::{
    CandidateLabel, DecisionCoordinates, GateName, ScoringError, StratumName,
};
use crate::evolution::statistics::rational::{ExactRatio, Fraction};
use crate::evolution::trial::{
    evidence_json, evidence_text, is_nameable, nameable, pair_json, pair_text, partition_json,
    partition_text, MetricName, PairedTrialEvidence, TrialLedgerRole, TrialPairSpec, TrialPartition,
};
use crate::order::{numbers, sorted, sorted_order, Ordered};
use crate::text::{
    decimal, push_decimal, push_signed, same_text, signed_decimal, text_before, text_precedes,
};
use vstd::prelude::*;

verus! {

/// What one pair of trials says.
pub struct AdaptiveTrialEvidence {
    pub spec: TrialPairSpec,
    pub evidence: PairedTrialEvidence,
}

/// What a gate found.
#[derive(Clone, Copy, Debug, PartialEq, Eq, Structural)]
pub enum GateStatus {
    Verified,
    NotVerified,
    Inconclusive,
}

impl GateStatus {
    pub open spec fn spec_name(self) -> Seq<char> {
        match self {
            GateStatus::Verified => "verified"@,
            GateStatus::NotVerified => "not_verified"@,
            GateStatus::Inconclusive => "inconclusive"@,
        }
    }

    pub fn name(self) -> (r: &'static str)
        ensures
            r@ == self.spec_name(),
    {
        match self {
            GateStatus::Verified => "verified",
            GateStatus::NotVerified => "not_verified",
            GateStatus::Inconclusive => "inconclusive",
        }
    }
}

#[derive(Debug, PartialEq, Eq)]
pub struct GateEvidence {
    pub name: GateName,
    pub status: GateStatus,
    pub reason: String,
}

impl Ordered for AdaptiveTrialEvidence {
    open spec fn comes_before(self, other: Self) -> bool {
        self.spec.case.0.precedes(other.spec.case.0) || self.spec.case == other.spec.case
            && self.spec.repeat < other.spec.repeat
    }

    fn is_before(&self, other: &Self) -> (r: bool) {
        self.spec.case.0.before(&other.spec.case.0) || self.spec.case == other.spec.case
            && self.spec.repeat < other.spec.repeat
    }
}

impl Ordered for GateEvidence {
    open spec fn comes_before(self, other: Self) -> bool {
        text_precedes(self.name.text(), other.name.text())
    }

    fn is_before(&self, other: &Self) -> (r: bool) {
        text_before(self.name.as_str(), other.name.as_str())
    }
}

/// All that is known of a candidate when it is to be promoted.
pub struct AdaptivePromotionDataset {
    pub cohort: CohortId,
    pub adaptive_partition: TrialPartition,
    pub candidate: CandidateId,
    pub candidate_label: CandidateLabel,
    pub pairs: Vec<AdaptiveTrialEvidence>,
    pub hard_gate_evidence: Vec<GateEvidence>,
}

/// Whether two pieces of evidence are for the same case and repeat.
pub open spec fn same_pair(a: AdaptiveTrialEvidence, b: AdaptiveTrialEvidence) -> bool {
    a.spec.case == b.spec.case && a.spec.repeat == b.spec.repeat
}

/// Whether no case and repeat occurs twice.
pub open spec fn pairs_distinct(pairs: Seq<AdaptiveTrialEvidence>) -> bool {
    forall|i: int, j: int|
        0 <= i < j < pairs.len() ==> !same_pair(#[trigger] pairs[i], #[trigger] pairs[j])
}

/// Whether no gate occurs twice.
pub open spec fn gates_distinct(gates: Seq<GateEvidence>) -> bool {
    forall|i: int, j: int|
        0 <= i < j < gates.len() ==> (#[trigger] gates[i]).name.text() != (
        #[trigger] gates[j]).name.text()
}

pub const MAX_REASON_BYTES: usize = 1024;

/// What is wrong with the parts of a dataset.
pub open spec fn dataset_problem(
    partition: TrialPartition,
    pairs: Seq<AdaptiveTrialEvidence>,
    gates: Seq<GateEvidence>,
) -> Option<ScoringError> {
    if partition.role != TrialLedgerRole::AdaptivePromotion {
        Some(ScoringError::WrongEvidenceRole)
    } else if !pairs_distinct(pairs) {
        Some(ScoringError::DuplicatePair)
    } else if !gates_distinct(gates) {
        Some(ScoringError::DuplicateGateEvidence)
    } else if exists|i: int|
        0 <= i < gates.len() && !nameable(
            (#[trigger] gates[i]).reason@,
            MAX_REASON_BYTES as int,
        ) {
        Some(ScoringError::InvalidGateReason)
    } else {
        None
    }
}

fn are_pairs_distinct(pairs: &Vec<AdaptiveTrialEvidence>) -> (r: bool)
    ensures
        r == pairs_distinct(pairs@),
{
    let mut i: usize = 0;
    while i < pairs.len()
        invariant
            i <= pairs.len(),
            forall|a: int, b: int|
                0 <= a < b < i ==> !same_pair(#[trigger] pairs@[a], #[trigger] pairs@[b]),
        decreases pairs.len() - i,
    {
        let mut j: usize = 0;
        while j < i
            invariant
                j <= i < pairs.len(),
                forall|a: int| 0 <= a < j ==> !same_pair(#[trigger] pairs@[a], pairs@[i as int]),
            decreases i - j,
        {
            if pairs[j].spec.case == pairs[i].spec.case && pairs[j].spec.repeat
                == pairs[i].spec.repeat {
                assert(same_pair(pairs@[j as int], pairs@[i as int]));
                return false;
            }
            j += 1;
        }
        i += 1;
    }
    true
}

fn are_gates_distinct(gates: &Vec<GateEvidence>) -> (r: bool)
    ensures
        r == gates_distinct(gates@),
{
    let mut i: usize = 0;
    while i < gates.len()
        invariant
            i <= gates.len(),
            forall|a: int, b: int|
                0 <= a < b < i ==> (#[trigger] gates@[a]).name.text() != (
                #[trigger] gates@[b]).name.text(),
        decreases gates.len() - i,
    {
        let mut j: usize = 0;
        while j < i
            invariant
                j <= i < gates.len(),
                forall|a: int|
                    0 <= a < j ==> (#[trigger] gates@[a]).name.text() != gates@[i as int].name.text(),
            decreases i - j,
        {
            if same_text(gates[j].name.as_str(), gates[i].name.as_str()) {
                assert(gates@[j as int].name.text() == gates@[i as int].name.text());
                return false;
            }
            j += 1;
        }
        i += 1;
    }
    true
}

impl AdaptivePromotionDataset {
    pub fn new(
        cohort: CohortId,
        adaptive_partition: TrialPartition,
        candidate: CandidateId,
        candidate_label: CandidateLabel,
        pairs: Vec<AdaptiveTrialEvidence>,
        hard_gate_evidence: Vec<GateEvidence>,
    ) -> (r: Result<Self, ScoringError>)
        ensures
            r == match dataset_problem(adaptive_partition, pairs@, hard_gate_evidence@) {
                Some(error) => Err::<AdaptivePromotionDataset, ScoringError>(error),
                None => Ok(
                    AdaptivePromotionDataset {
                        cohort,
                        adaptive_partition,
                        candidate,
                        candidate_label,
                        pairs,
                        hard_gate_evidence,
                    },
                ),
            },
    {
        if adaptive_partition.role != TrialLedgerRole::AdaptivePromotion {
            return Err(ScoringError::WrongEvidenceRole);
        }
        if !are_pairs_distinct(&pairs) {
            return Err(ScoringError::DuplicatePair);
        }
        if !are_gates_distinct(&hard_gate_evidence) {
            return Err(ScoringError::DuplicateGateEvidence);
        }
        let mut i: usize = 0;
        while i < hard_gate_evidence.len()
            invariant
                i <= hard_gate_evidence.len(),
                adaptive_partition.role == TrialLedgerRole::AdaptivePromotion,
                pairs_distinct(pairs@),
                gates_distinct(hard_gate_evidence@),
                forall|k: int|
                    0 <= k < i ==> nameable(
                        (#[trigger] hard_gate_evidence@[k]).reason@,
                        MAX_REASON_BYTES as int,
                    ),
            decreases hard_gate_evidence.len() - i,
        {
            if !is_nameable(hard_gate_evidence[i].reason.as_str(), MAX_REASON_BYTES) {
                assert(!nameable(
                    hard_gate_evidence@[i as int].reason@,
                    MAX_REASON_BYTES as int,
                ));
                return Err(ScoringError::InvalidGateReason);
            }
            i += 1;
        }
        Ok(
            AdaptivePromotionDataset {
                cohort,
                adaptive_partition,
                candidate,
                candidate_label,
                pairs,
                hard_gate_evidence,
            },
        )
    }

    pub fn partition(&self) -> (r: TrialPartition)
        ensures
            r == self.adaptive_partition,
    {
        self.adaptive_partition
    }
}

impl AdaptivePromotionDataset {
    pub fn cohort(&self) -> (r: CohortId)
        ensures
            r == self.cohort,
    {
        self.cohort
    }

    pub fn candidate(&self) -> (r: CandidateId)
        ensures
            r == self.candidate,
    {
        self.candidate
    }

    pub fn candidate_label(&self) -> (r: &CandidateLabel)
        ensures
            *r == self.candidate_label,
    {
        &self.candidate_label
    }

    pub fn pairs(&self) -> (r: &[AdaptiveTrialEvidence])
        ensures
            r@ == self.pairs@,
    {
        self.pairs.as_slice()
    }

    pub fn hard_gate_evidence(&self) -> (r: &[GateEvidence])
        ensures
            r@ == self.hard_gate_evidence@,
    {
        self.hard_gate_evidence.as_slice()
    }
}

/// The canonical JSON of the evidence of a pair with its specification.
pub open spec fn trial_evidence_json(v: AdaptiveTrialEvidence) -> Seq<char> {
    "{\"spec\":"@ + pair_json(v.spec) + ",\"evidence\":"@ + evidence_json(v.evidence) + "}"@
}

fn trial_evidence_text(v: &AdaptiveTrialEvidence) -> (r: String)
    ensures
        r@ == trial_evidence_json(*v),
{
    let mut json = "{\"spec\":".to_owned();
    json.push_str(pair_text(&v.spec).as_str());
    json.push_str(",\"evidence\":");
    json.push_str(evidence_text(&v.evidence).as_str());
    json.push_str("}");
    json
}

/// The canonical JSON of the evidence of a gate.
pub open spec fn gate_evidence_json(v: GateEvidence) -> Seq<char> {
    "{\"name\":"@ + json_string(v.name.text()) + ",\"status\":"@ + quoted(v.status.spec_name()) + ",\"reason\":"@ + json_string(v.reason@) + "}"@
}

fn gate_evidence_text(v: &GateEvidence) -> (r: String)
    ensures
        r@ == gate_evidence_json(*v),
{
    let mut json = "{\"name\":".to_owned();
    push_json_string(&mut json, v.name.as_str());
    json.push_str(",\"status\":");
    push_quoted(&mut json, v.status.name());
    json.push_str(",\"reason\":");
    push_json_string(&mut json, v.reason.as_str());
    json.push_str("}");
    json
}

/// The canonical JSON of the first `n` pairs of an order, separated by commas.
pub open spec fn ordered_pairs_json(items: Seq<AdaptiveTrialEvidence>, order: Seq<int>, n: int) -> Seq<char>
    decreases n,
{
    if n <= 0 {
        ""@
    } else if n == 1 {
        ""@ + trial_evidence_json(items[order[0]])
    } else {
        ordered_pairs_json(items, order, n - 1) + ","@ + trial_evidence_json(items[order[n - 1]])
    }
}

fn ordered_pairs_text(items: &Vec<AdaptiveTrialEvidence>) -> (r: String)
    ensures
        r@ == ordered_pairs_json(items@, sorted(items@, items.len() as int), items.len() as int),
{
    let order = sorted_order(items);
    let ghost indexes = numbers(order@);
    let mut json = "".to_owned();
    let mut i: usize = 0;
    while i < order.len()
        invariant
            i <= order.len(),
            indexes == numbers(order@),
            forall|k: int| 0 <= k < order.len() ==> (#[trigger] order@[k]) < items.len(),
            json@ == ordered_pairs_json(items@, indexes, i as int),
        decreases order.len() - i,
    {
        if i > 0 {
            json.push_str(",");
        }
        assert(indexes[i as int] == order@[i as int]);
        json.push_str(trial_evidence_text(&items[order[i]]).as_str());
        i += 1;
    }
    json
}

/// The canonical JSON of the first `n` gates of an order, separated by commas.
pub open spec fn ordered_gates_json(items: Seq<GateEvidence>, order: Seq<int>, n: int) -> Seq<char>
    decreases n,
{
    if n <= 0 {
        ""@
    } else if n == 1 {
        ""@ + gate_evidence_json(items[order[0]])
    } else {
        ordered_gates_json(items, order, n - 1) + ","@ + gate_evidence_json(items[order[n - 1]])
    }
}

fn ordered_gates_text(items: &Vec<GateEvidence>) -> (r: String)
    ensures
        r@ == ordered_gates_json(items@, sorted(items@, items.len() as int), items.len() as int),
{
    let order = sorted_order(items);
    let ghost indexes = numbers(order@);
    let mut json = "".to_owned();
    let mut i: usize = 0;
    while i < order.len()
        invariant
            i <= order.len(),
            indexes == numbers(order@),
            forall|k: int| 0 <= k < order.len() ==> (#[trigger] order@[k]) < items.len(),
            json@ == ordered_gates_json(items@, indexes, i as int),
        decreases order.len() - i,
    {
        if i > 0 {
            json.push_str(",");
        }
        assert(indexes[i as int] == order@[i as int]);
        json.push_str(gate_evidence_text(&items[order[i]]).as_str());
        i += 1;
    }
    json
}

/// The canonical JSON of a dataset: its pairs by case and repeat, its gates by name.
pub open spec fn dataset_json(v: AdaptivePromotionDataset) -> Seq<char> {
    "[\"orvek:adaptive-promotion-evidence:v1\","@ + quoted(v.cohort.0.text()) + ","@
        + partition_json(v.adaptive_partition) + ","@ + quoted(v.candidate.0.text()) + ",["@
        + ordered_pairs_json(
        v.pairs@,
        sorted(v.pairs@, v.pairs@.len() as int),
        v.pairs@.len() as int,
    ) + "],["@ + ordered_gates_json(
        v.hard_gate_evidence@,
        sorted(v.hard_gate_evidence@, v.hard_gate_evidence@.len() as int),
        v.hard_gate_evidence@.len() as int,
    ) + "]]"@
}

/// The identity of all evidence of a dataset.
pub fn evidence_root(dataset: &AdaptivePromotionDataset) -> (r: Digest)
    ensures
        r == digest_of_text(dataset_json(*dataset)),
{
    let mut json = "[\"orvek:adaptive-promotion-evidence:v1\",".to_owned();
    push_uuid(&mut json, &dataset.cohort.0);
    json.push_str(",");
    json.push_str(partition_text(&dataset.adaptive_partition).as_str());
    json.push_str(",");
    push_digest(&mut json, &dataset.candidate.0);
    json.push_str(",[");
    json.push_str(ordered_pairs_text(&dataset.pairs).as_str());
    json.push_str("],[");
    json.push_str(ordered_gates_text(&dataset.hard_gate_evidence).as_str());
    json.push_str("]]");
    Digest::of_text(json.as_str())
}

/// What all gates together support.
#[derive(Clone, Copy, Debug, PartialEq, Eq, Structural)]
pub enum AdaptiveVerdict {
    Verified,
    NotVerified,
    Inconclusive,
}

impl AdaptiveVerdict {
    pub open spec fn spec_name(self) -> Seq<char> {
        match self {
            AdaptiveVerdict::Verified => "verified"@,
            AdaptiveVerdict::NotVerified => "not_verified"@,
            AdaptiveVerdict::Inconclusive => "inconclusive"@,
        }
    }

    pub fn name(self) -> (r: &'static str)
        ensures
            r@ == self.spec_name(),
    {
        match self {
            AdaptiveVerdict::Verified => "verified",
            AdaptiveVerdict::NotVerified => "not_verified",
            AdaptiveVerdict::Inconclusive => "inconclusive",
        }
    }
}

#[derive(Debug, PartialEq, Eq)]
pub struct GateResult {
    pub name: String,
    pub status: GateStatus,
    pub reason: String,
}

/// What a gate result records.
#[verifier::ext_equal]
pub struct GateModel {
    pub name: Seq<char>,
    pub status: GateStatus,
    pub reason: Seq<char>,
}

impl View for GateResult {
    type V = GateModel;

    open spec fn view(&self) -> GateModel {
        GateModel { name: self.name@, status: self.status, reason: self.reason@ }
    }
}

/// What a list of gate results records.
pub open spec fn gate_models(gates: Seq<GateResult>) -> Seq<GateModel> {
    gates.map_values(|gate: GateResult| gate@)
}

/// An exact effect.
#[derive(Clone, Copy, Debug, PartialEq, Eq, Structural)]
pub struct ExactEffect {
    pub numerator: i128,
    pub denominator: u64,
}

#[derive(Clone, Copy, Debug, PartialEq, Eq, Structural)]
pub struct CaseEffect {
    pub case: CaseIdentity,
    pub effect: ExactEffect,
}

#[derive(Clone, Copy, Debug, PartialEq, Eq, Structural)]
pub struct BlockEffect {
    pub block: IndependentBlockId,
    pub effect: ExactEffect,
}

#[derive(Debug, PartialEq, Eq)]
pub struct MetricStatistic {
    pub metric: MetricName,
    pub stratum: StratumName,
    pub case_effects: Vec<CaseEffect>,
    pub block_effects: Vec<BlockEffect>,
    pub observed_effect: ExactEffect,
    pub adjusted_effect: ExactEffect,
    pub minimum_block_effect: ExactEffect,
    pub maximum_block_effect: ExactEffect,
    pub p_value: ExactRatio,
    pub alpha: ExactRatio,
}

/// What a statistic records.
#[verifier::ext_equal]
pub struct StatisticModel {
    pub metric: Seq<char>,
    pub stratum: Seq<char>,
    pub case_effects: Seq<CaseEffect>,
    pub block_effects: Seq<BlockEffect>,
    pub observed_effect: ExactEffect,
    pub adjusted_effect: ExactEffect,
    pub minimum_block_effect: ExactEffect,
    pub maximum_block_effect: ExactEffect,
    pub p_value: Fraction,
    pub alpha: Fraction,
}

impl View for MetricStatistic {
    type V = StatisticModel;

    open spec fn view(&self) -> StatisticModel {
        StatisticModel {
            metric: self.metric.text(),
            stratum: self.stratum.text(),
            case_effects: self.case_effects@,
            block_effects: self.block_effects@,
            observed_effect: self.observed_effect,
            adjusted_effect: self.adjusted_effect,
            minimum_block_effect: self.minimum_block_effect,
            maximum_block_effect: self.maximum_block_effect,
            p_value: self.p_value.fraction(),
            alpha: self.alpha.fraction(),
        }
    }
}

/// What a list of statistics records.
pub open spec fn statistic_models(statistics: Seq<MetricStatistic>) -> Seq<StatisticModel> {
    statistics.map_values(|statistic: MetricStatistic| statistic@)
}

/// What a decision took from a ledger.
#[derive(Clone, Copy, Debug, PartialEq, Eq, Structural)]
pub struct LedgerTransition {
    pub before: LedgerStatus,
    pub query_debit: u64,
    pub error_nanos_debit: u64,
    pub after: LedgerStatus,
}

#[derive(Debug, PartialEq, Eq)]
pub struct AdaptiveScoreReport {
    pub cohort: CohortId,
    pub campaign: CampaignId,
    pub round: RoundId,
    pub candidate: CandidateId,
    pub verdict: AdaptiveVerdict,
    pub estimator_version: String,
    pub calibration: String,
    pub policy_digest: Digest,
    pub coordinates: DecisionCoordinates,
    pub gates: Vec<GateResult>,
    pub statistics: Vec<MetricStatistic>,
    pub ledger: LedgerTransition,
    pub evidence_root: Digest,
    pub production_activation: AdaptiveVerdict,
    pub production_activation_reason: String,
}

/// What a report records.
#[verifier::ext_equal]
pub struct ReportModel {
    pub cohort: CohortId,
    pub campaign: CampaignId,
    pub round: RoundId,
    pub candidate: CandidateId,
    pub verdict: AdaptiveVerdict,
    pub estimator_version: Seq<char>,
    pub calibration: Seq<char>,
    pub policy_digest: Digest,
    pub coordinates: DecisionCoordinates,
    pub gates: Seq<GateModel>,
    pub statistics: Seq<StatisticModel>,
    pub ledger: LedgerTransition,
    pub evidence_root: Digest,
    pub production_activation: AdaptiveVerdict,
    pub production_activation_reason: Seq<char>,
}

impl View for AdaptiveScoreReport {
    type V = ReportModel;

    open spec fn view(&self) -> ReportModel {
        ReportModel {
            cohort: self.cohort,
            campaign: self.campaign,
            round: self.round,
            candidate: self.candidate,
            verdict: self.verdict,
            estimator_version: self.estimator_version@,
            calibration: self.calibration@,
            policy_digest: self.policy_digest,
            coordinates: self.coordinates,
            gates: gate_models(self.gates@),
            statistics: statistic_models(self.statistics@),
            ledger: self.ledger,
            evidence_root: self.evidence_root,
            production_activation: self.production_activation,
            production_activation_reason: self.production_activation_reason@,
        }
    }
}

/// The canonical JSON of the coordinates of a decision.
pub open spec fn coordinates_json(v: DecisionCoordinates) -> Seq<char> {
    "{\"candidate\":"@ + decimal(v.candidate as nat) + ",\"round\":"@ + decimal(v.round as nat) + ",\"composite\":"@ + decimal(v.composite as nat) + ",\"fallback\":"@ + decimal(v.fallback as nat) + ",\"campaign\":"@ + decimal(v.campaign as nat) + ",\"activation_attempt\":"@ + decimal(v.activation_attempt as nat) + "}"@
}

fn coordinates_text(v: &DecisionCoordinates) -> (r: String)
    ensures
        r@ == coordinates_json(*v),
{
    let mut json = "{\"candidate\":".to_owned();
    push_decimal(&mut json, v.candidate as u64);
    json.push_str(",\"round\":");
    push_decimal(&mut json, v.round as u64);
    json.push_str(",\"composite\":");
    push_decimal(&mut json, v.composite as u64);
    json.push_str(",\"fallback\":");
    push_decimal(&mut json, v.fallback as u64);
    json.push_str(",\"campaign\":");
    push_decimal(&mut json, v.campaign as u64);
    json.push_str(",\"activation_attempt\":");
    push_decimal(&mut json, v.activation_attempt as u64);
    json.push_str("}");
    json
}

/// The canonical JSON of a gate result.
pub open spec fn gate_json(v: GateResult) -> Seq<char> {
    "{\"name\":"@ + json_string(v.name@) + ",\"status\":"@ + quoted(v.status.spec_name()) + ",\"reason\":"@ + json_string(v.reason@) + "}"@
}

fn gate_text(v: &GateResult) -> (r: String)
    ensures
        r@ == gate_json(*v),
{
    let mut json = "{\"name\":".to_owned();
    push_json_string(&mut json, v.name.as_str());
    json.push_str(",\"status\":");
    push_quoted(&mut json, v.status.name());
    json.push_str(",\"reason\":");
    push_json_string(&mut json, v.reason.as_str());
    json.push_str("}");
    json
}

/// The canonical JSON of the first `n` gate results, separated by commas.
pub open spec fn gates_json(items: Seq<GateResult>, n: int) -> Seq<char>
    decreases n,
{
    if n <= 0 {
        ""@
    } else if n == 1 {
        ""@ + gate_json(items[0])
    } else {
        gates_json(items, n - 1) + ","@ + gate_json(items[n - 1])
    }
}

fn gates_text(items: &Vec<GateResult>) -> (r: String)
    ensures
        r@ == gates_json(items@, items.len() as int),
{
    let mut json = "".to_owned();
    let mut i: usize = 0;
    while i < items.len()
        invariant
            i <= items.len(),
            json@ == gates_json(items@, i as int),
        decreases items.len() - i,
    {
        if i > 0 {
            json.push_str(",");
        }
        json.push_str(gate_text(&items[i]).as_str());
        i += 1;
    }
    json
}

/// The canonical JSON of an effect.
pub open spec fn effect_json(v: ExactEffect) -> Seq<char> {
    "{\"numerator\":"@ + signed_decimal(v.numerator as int) + ",\"denominator\":"@ + decimal(v.denominator as nat) + "}"@
}

fn effect_text(v: &ExactEffect) -> (r: String)
    ensures
        r@ == effect_json(*v),
{
    let mut json = "{\"numerator\":".to_owned();
    push_signed(&mut json, v.numerator);
    json.push_str(",\"denominator\":");
    push_decimal(&mut json, v.denominator as u64);
    json.push_str("}");
    json
}

/// The canonical JSON of a ratio.
pub open spec fn ratio_json(v: ExactRatio) -> Seq<char> {
    "{\"numerator\":"@ + decimal(v.numerator as nat) + ",\"denominator\":"@ + decimal(v.denominator as nat) + "}"@
}

fn ratio_text(v: &ExactRatio) -> (r: String)
    ensures
        r@ == ratio_json(*v),
{
    let mut json = "{\"numerator\":".to_owned();
    push_decimal(&mut json, v.numerator as u64);
    json.push_str(",\"denominator\":");
    push_decimal(&mut json, v.denominator as u64);
    json.push_str("}");
    json
}

/// The canonical JSON of the effect in a case.
pub open spec fn case_effect_json(v: CaseEffect) -> Seq<char> {
    "{\"case\":"@ + quoted(v.case.0.text()) + ",\"effect\":"@ + effect_json(v.effect) + "}"@
}

fn case_effect_text(v: &CaseEffect) -> (r: String)
    ensures
        r@ == case_effect_json(*v),
{
    let mut json = "{\"case\":".to_owned();
    push_digest(&mut json, &v.case.0);
    json.push_str(",\"effect\":");
    json.push_str(effect_text(&v.effect).as_str());
    json.push_str("}");
    json
}

/// The canonical JSON of the first `n` effects in cases, separated by commas.
pub open spec fn case_effects_json(items: Seq<CaseEffect>, n: int) -> Seq<char>
    decreases n,
{
    if n <= 0 {
        ""@
    } else if n == 1 {
        ""@ + case_effect_json(items[0])
    } else {
        case_effects_json(items, n - 1) + ","@ + case_effect_json(items[n - 1])
    }
}

fn case_effects_text(items: &Vec<CaseEffect>) -> (r: String)
    ensures
        r@ == case_effects_json(items@, items.len() as int),
{
    let mut json = "".to_owned();
    let mut i: usize = 0;
    while i < items.len()
        invariant
            i <= items.len(),
            json@ == case_effects_json(items@, i as int),
        decreases items.len() - i,
    {
        if i > 0 {
            json.push_str(",");
        }
        json.push_str(case_effect_text(&items[i]).as_str());
        i += 1;
    }
    json
}

/// The canonical JSON of the effect in a block.
pub open spec fn block_effect_json(v: BlockEffect) -> Seq<char> {
    "{\"block\":"@ + quoted(v.block.0.text()) + ",\"effect\":"@ + effect_json(v.effect) + "}"@
}

fn block_effect_text(v: &BlockEffect) -> (r: String)
    ensures
        r@ == block_effect_json(*v),
{
    let mut json = "{\"block\":".to_owned();
    push_digest(&mut json, &v.block.0);
    json.push_str(",\"effect\":");
    json.push_str(effect_text(&v.effect).as_str());
    json.push_str("}");
    json
}

/// The canonical JSON of the first `n` effects in blocks, separated by commas.
pub open spec fn block_effects_json(items: Seq<BlockEffect>, n: int) -> Seq<char>
    decreases n,
{
    if n <= 0 {
        ""@
    } else if n == 1 {
        ""@ + block_effect_json(items[0])
    } else {
        block_effects_json(items, n - 1) + ","@ + block_effect_json(items[n - 1])
    }
}

fn block_effects_text(items: &Vec<BlockEffect>) -> (r: String)
    ensures
        r@ == block_effects_json(items@, items.len() as int),
{
    let mut json = "".to_owned();
    let mut i: usize = 0;
    while i < items.len()
        invariant
            i <= items.len(),
            json@ == block_effects_json(items@, i as int),
        decreases items.len() - i,
    {
        if i > 0 {
            json.push_str(",");
        }
        json.push_str(block_effect_text(&items[i]).as_str());
        i += 1;
    }
    json
}

/// The canonical JSON of a statistic.
pub open spec fn statistic_json(v: MetricStatistic) -> Seq<char> {
    "{\"metric\":"@ + json_string(v.metric.text()) + ",\"stratum\":"@ + json_string(v.stratum.text()) + ",\"case_effects\":["@ + case_effects_json(v.case_effects@, v.case_effects@.len() as int) + "],\"block_effects\":["@ + block_effects_json(v.block_effects@, v.block_effects@.len() as int) + "],\"observed_effect\":"@ + effect_json(v.observed_effect) + ",\"adjusted_effect\":"@ + effect_json(v.adjusted_effect) + ",\"minimum_block_effect\":"@ + effect_json(v.minimum_block_effect) + ",\"maximum_block_effect\":"@ + effect_json(v.maximum_block_effect) + ",\"p_value\":"@ + ratio_json(v.p_value) + ",\"alpha\":"@ + ratio_json(v.alpha) + "}"@
}

fn statistic_text(v: &MetricStatistic) -> (r: String)
    ensures
        r@ == statistic_json(*v),
{
    let mut json = "{\"metric\":".to_owned();
    push_json_string(&mut json, v.metric.as_str());
    json.push_str(",\"stratum\":");
    push_json_string(&mut json, v.stratum.as_str());
    json.push_str(",\"case_effects\":[");
    json.push_str(case_effects_text(&v.case_effects).as_str());
    json.push_str("],\"block_effects\":[");
    json.push_str(block_effects_text(&v.block_effects).as_str());
    json.push_str("],\"observed_effect\":");
    json.push_str(effect_text(&v.observed_effect).as_str());
    json.push_str(",\"adjusted_effect\":");
    json.push_str(effect_text(&v.adjusted_effect).as_str());
    json.push_str(",\"minimum_block_effect\":");
    json.push_str(effect_text(&v.minimum_block_effect).as_str());
    json.push_str(",\"maximum_block_effect\":");
    json.push_str(effect_text(&v.maximum_block_effect).as_str());
    json.push_str(",\"p_value\":");
    json.push_str(ratio_text(&v.p_value).as_str());
    json.push_str(",\"alpha\":");
    json.push_str(ratio_text(&v.alpha).as_str());
    json.push_str("}");
    json
}

/// The canonical JSON of the first `n` statistics, separated by commas.
pub open spec fn statistics_json(items: Seq<MetricStatistic>, n: int) -> Seq<char>
    decreases n,
{
    if n <= 0 {
        ""@
    } else if n == 1 {
        ""@ + statistic_json(items[0])
    } else {
        statistics_json(items, n - 1) + ","@ + statistic_json(items[n - 1])
    }
}

fn statistics_text(items: &Vec<MetricStatistic>) -> (r: String)
    ensures
        r@ == statistics_json(items@, items.len() as int),
{
    let mut json = "".to_owned();
    let mut i: usize = 0;
    while i < items.len()
        invariant
            i <= items.len(),
            json@ == statistics_json(items@, i as int),
        decreases items.len() - i,
    {
        if i > 0 {
            json.push_str(",");
        }
        json.push_str(statistic_text(&items[i]).as_str());
        i += 1;
    }
    json
}

/// The canonical JSON of the status of a ledger.
pub open spec fn status_json(v: LedgerStatus) -> Seq<char> {
    "{\"query_limit\":"@ + decimal(v.query_limit as nat) + ",\"query_used\":"@ + decimal(v.query_used as nat) + ",\"error_limit_nanos\":"@ + decimal(v.error_limit_nanos as nat) + ",\"error_used_nanos\":"@ + decimal(v.error_used_nanos as nat) + "}"@
}

pub(crate) fn status_text(v: &LedgerStatus) -> (r: String)
    ensures
        r@ == status_json(*v),
{
    let mut json = "{\"query_limit\":".to_owned();
    push_decimal(&mut json, v.query_limit as u64);
    json.push_str(",\"query_used\":");
    push_decimal(&mut json, v.query_used as u64);
    json.push_str(",\"error_limit_nanos\":");
    push_decimal(&mut json, v.error_limit_nanos as u64);
    json.push_str(",\"error_used_nanos\":");
    push_decimal(&mut json, v.error_used_nanos as u64);
    json.push_str("}");
    json
}

/// The canonical JSON of a ledger transition.
pub open spec fn transition_json(v: LedgerTransition) -> Seq<char> {
    "{\"before\":"@ + status_json(v.before) + ",\"query_debit\":"@ + decimal(v.query_debit as nat) + ",\"error_nanos_debit\":"@ + decimal(v.error_nanos_debit as nat) + ",\"after\":"@ + status_json(v.after) + "}"@
}

fn transition_text(v: &LedgerTransition) -> (r: String)
    ensures
        r@ == transition_json(*v),
{
    let mut json = "{\"before\":".to_owned();
    json.push_str(status_text(&v.before).as_str());
    json.push_str(",\"query_debit\":");
    push_decimal(&mut json, v.query_debit as u64);
    json.push_str(",\"error_nanos_debit\":");
    push_decimal(&mut json, v.error_nanos_debit as u64);
    json.push_str(",\"after\":");
    json.push_str(status_text(&v.after).as_str());
    json.push_str("}");
    json
}

/// The canonical JSON of what identifies a report.
pub open spec fn report_json(v: AdaptiveScoreReport) -> Seq<char> {
    "[\"orvek:adaptive-score-report:v1\",{\"cohort\":"@ + quoted(v.cohort.0.text()) + ",\"campaign\":"@ + quoted(v.campaign.0.text()) + ",\"round\":"@ + quoted(v.round.0.text()) + ",\"candidate\":"@ + quoted(v.candidate.0.text()) + ",\"verdict\":"@ + quoted(v.verdict.spec_name()) + ",\"estimator_version\":"@ + json_string(v.estimator_version@) + ",\"calibration\":"@ + json_string(v.calibration@) + ",\"policy_digest\":"@ + quoted(v.policy_digest.text()) + ",\"coordinates\":"@ + coordinates_json(v.coordinates) + ",\"gates\":["@ + gates_json(v.gates@, v.gates@.len() as int) + "],\"statistics\":["@ + statistics_json(v.statistics@, v.statistics@.len() as int) + "],\"ledger\":"@ + transition_json(v.ledger) + ",\"evidence_root\":"@ + quoted(v.evidence_root.text()) + ",\"production_activation\":"@ + quoted(v.production_activation.spec_name()) + ",\"production_activation_reason\":"@ + json_string(v.production_activation_reason@) + "}]"@
}

fn report_text(v: &AdaptiveScoreReport) -> (r: String)
    ensures
        r@ == report_json(*v),
{
    let mut json = "[\"orvek:adaptive-score-report:v1\",{\"cohort\":".to_owned();
    push_uuid(&mut json, &v.cohort.0);
    json.push_str(",\"campaign\":");
    push_uuid(&mut json, &v.campaign.0);
    json.push_str(",\"round\":");
    push_digest(&mut json, &v.round.0);
    json.push_str(",\"candidate\":");
    push_digest(&mut json, &v.candidate.0);
    json.push_str(",\"verdict\":");
    push_quoted(&mut json, v.verdict.name());
    json.push_str(",\"estimator_version\":");
    push_json_string(&mut json, v.estimator_version.as_str());
    json.push_str(",\"calibration\":");
    push_json_string(&mut json, v.calibration.as_str());
    json.push_str(",\"policy_digest\":");
    push_digest(&mut json, &v.policy_digest);
    json.push_str(",\"coordinates\":");
    json.push_str(coordinates_text(&v.coordinates).as_str());
    json.push_str(",\"gates\":[");
    json.push_str(gates_text(&v.gates).as_str());
    json.push_str("],\"statistics\":[");
    json.push_str(statistics_text(&v.statistics).as_str());
    json.push_str("],\"ledger\":");
    json.push_str(transition_text(&v.ledger).as_str());
    json.push_str(",\"evidence_root\":");
    push_digest(&mut json, &v.evidence_root);
    json.push_str(",\"production_activation\":");
    push_quoted(&mut json, v.production_activation.name());
    json.push_str(",\"production_activation_reason\":");
    push_json_string(&mut json, v.production_activation_reason.as_str());
    json.push_str("}]");
    json
}

impl AdaptiveScoreReport {
    /// The identity of the report.
    pub fn result_id(&self) -> (r: ScoreResultId)
        ensures
            r == ScoreResultId(digest_of_text(report_json(*self))),
    {
        ScoreResultId(Digest::of_text(report_text(self).as_str()))
    }
}

} // verus!
