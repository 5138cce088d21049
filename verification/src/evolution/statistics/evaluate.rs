//! Adaptive evaluation of a candidate against its frozen cohort.
use crate::digest::digest_of_text;
use crate::evolution::ids::{CampaignId, CaseIdentity, RoundId};
use crate::evolution::registry::{
    cohort_policy_json, scoring_policy_digest, EvaluationCohortSpec, LedgerStatus,
};
use crate::evolution::statistics::policy::{
    block_count, blocks_of, case_at, cases_unique, cohort_manifest, count_blocks, entry_of,
    is_listed, policy_problem, strata_valid, stratum_valid, DecisionCoordinates, GateName, Manifest, ManifestEntry,
    MetricKind, MetricPolicy, ScoringError, StratumPolicy,
};
use crate::evolution::statistics::report::{
    dataset_json, evidence_root, gate_models, statistic_models, AdaptivePromotionDataset,
    AdaptiveScoreReport, AdaptiveTrialEvidence, AdaptiveVerdict, GateEvidence, GateModel,
    GateResult, GateStatus, LedgerTransition, MetricStatistic, ReportModel, StatisticModel,
};
use crate::evolution::statistics::score::{
    case_complete, entries_for, entries_of, find_pair, has_pair, metric_statistic, pair_at, pair_of,
    pairs_unique, score_metric, stratum_complete,
};
use crate::evolution::trial::{BehavioralTrialOutcome, PairedTrialEvidence};
use crate::first::{
    count_true, first_some, lemma_count_bounds, lemma_count_zero, lemma_first_some_at,
    lemma_first_some_none,
};
use crate::order::{numbers, sorted, sorted_order, Ordered};
use crate::text::{
    debug_of, debug_text, decimal, push_decimal, push_wide, same_text, text_before, text_precedes,
};
use vstd::prelude::*;
use vstd::set_lib::lemma_len_subset;

verus! {

impl Ordered for MetricPolicy {
    open spec fn comes_before(self, other: Self) -> bool {
        text_precedes(self.name.text(), other.name.text())
    }

    fn is_before(&self, other: &Self) -> (r: bool) {
        text_before(self.name.as_str(), other.name.as_str())
    }
}

impl Ordered for StratumPolicy {
    open spec fn comes_before(self, other: Self) -> bool {
        text_precedes(self.name.text(), other.name.text())
    }

    fn is_before(&self, other: &Self) -> (r: bool) {
        text_before(self.name.as_str(), other.name.as_str())
    }
}

/// What a decision takes from a ledger: one query for every hypothesis and its error, or
/// nothing where that does not fit.
pub open spec fn ledger_reserved(cohort: EvaluationCohortSpec, before: LedgerStatus) -> Result<
    LedgerTransition,
    ScoringError,
> {
    let queries = cohort.scoring.multiplicity_family.metrics
        * cohort.scoring.multiplicity_family.strata;
    let error_nanos = queries * cohort.scoring.adaptive_error_nanos_per_hypothesis;
    if queries > u64::MAX || error_nanos > u64::MAX {
        Err(ScoringError::MultiplicityOverflow)
    } else if before.query_used + queries > before.query_limit || before.error_used_nanos
        + error_nanos > before.error_limit_nanos {
        Ok(LedgerTransition { before, query_debit: 0, error_nanos_debit: 0, after: before })
    } else {
        Ok(
            LedgerTransition {
                before,
                query_debit: queries as u64,
                error_nanos_debit: error_nanos as u64,
                after: LedgerStatus {
                    query_limit: before.query_limit,
                    query_used: (before.query_used + queries) as u64,
                    error_limit_nanos: before.error_limit_nanos,
                    error_used_nanos: (before.error_used_nanos + error_nanos) as u64,
                },
            },
        )
    }
}

/// What a decision takes from a ledger.
pub fn reserve_ledger(cohort: &EvaluationCohortSpec, before: LedgerStatus) -> (r: Result<
    LedgerTransition,
    ScoringError,
>)
    ensures
        r == ledger_reserved(*cohort, before),
{
    let query_debit = match cohort.scoring.multiplicity_family.hypotheses_per_decision() {
        Ok(product) => product,
        Err(error) => return Err(error),
    };
    let error_nanos_debit = match query_debit.checked_mul(
        cohort.scoring.adaptive_error_nanos_per_hypothesis,
    ) {
        Some(product) => product,
        None => return Err(ScoringError::MultiplicityOverflow),
    };
    match (
        before.query_used.checked_add(query_debit),
        before.error_used_nanos.checked_add(error_nanos_debit),
    ) {
        (Some(query_used), Some(error_used_nanos)) => {
            if query_used <= before.query_limit && error_used_nanos <= before.error_limit_nanos {
                return Ok(
                    LedgerTransition {
                        before,
                        query_debit,
                        error_nanos_debit,
                        after: LedgerStatus {
                            query_limit: before.query_limit,
                            query_used,
                            error_limit_nanos: before.error_limit_nanos,
                            error_used_nanos,
                        },
                    },
                );
            }
        },
        _ => {},
    }
    Ok(LedgerTransition { before, query_debit: 0, error_nanos_debit: 0, after: before })
}

/// What is wrong with the evidence at an index.
pub open spec fn pair_problem(
    manifest: Seq<ManifestEntry>,
    campaign: CampaignId,
    dataset: AdaptivePromotionDataset,
    i: int,
) -> Option<ScoringError> {
    let pair = dataset.pairs@[i];
    let problem = pair.evidence.problem_for(pair.spec);
    match entry_of(manifest, pair.spec.case) {
        _ if problem is Some => Some(ScoringError::Trial(problem->0)),
        None => Some(ScoringError::PairOutsideManifest),
        Some(entry) => if pair.spec.repeat >= entry.repeats {
            Some(ScoringError::PairOutsideManifest)
        } else if pair.spec.context.campaign != campaign || pair.spec.context.candidate
            != dataset.candidate {
            Some(ScoringError::WrongEvaluationContext)
        } else if exists|j: int|
            0 <= j < i && pair_at(
                dataset.pairs@,
                pair.spec.case,
                pair.spec.repeat as int,
                j,
            ) {
            Some(ScoringError::DuplicatePair)
        } else {
            None
        },
    }
}

pub open spec fn pair_check(
    manifest: Seq<ManifestEntry>,
    campaign: CampaignId,
    dataset: AdaptivePromotionDataset,
) -> spec_fn(int) -> Option<ScoringError> {
    |i: int| pair_problem(manifest, campaign, dataset, i)
}

/// Whether a pair was run on something else than the cohort was frozen for.
pub open spec fn drifted(
    cohort: EvaluationCohortSpec,
    manifest: Seq<ManifestEntry>,
    dataset: AdaptivePromotionDataset,
    i: int,
) -> bool {
    let pair = dataset.pairs@[i].spec;
    let runtime = pair.context.runtime;
    ||| pair.block != entry_of(manifest, pair.case)->0.block
    ||| pair.context.partition != dataset.adaptive_partition
    ||| runtime.model != cohort.target.model
    ||| runtime.protocol != cohort.target.protocol
    ||| runtime.evaluator != cohort.evaluator
    ||| runtime.environment != cohort.target.environment
}

pub open spec fn drift_condition(
    cohort: EvaluationCohortSpec,
    manifest: Seq<ManifestEntry>,
    dataset: AdaptivePromotionDataset,
) -> spec_fn(int) -> bool {
    |i: int| drifted(cohort, manifest, dataset, i)
}

pub open spec fn unknown_condition(pairs: Seq<AdaptiveTrialEvidence>) -> spec_fn(int) -> bool {
    |i: int| pairs[i].evidence is InfrastructureUnknown
}

/// Whether the candidate failed in a pair.
pub open spec fn candidate_failed(pair: AdaptiveTrialEvidence) -> bool {
    pair.evidence matches PairedTrialEvidence::Usable(receipt)
        && receipt.candidate is BehavioralFailure
}

pub open spec fn failure_condition(pairs: Seq<AdaptiveTrialEvidence>) -> spec_fn(int) -> bool {
    |i: int| candidate_failed(pairs[i])
}

pub open spec fn critical_condition(
    cohort: EvaluationCohortSpec,
    pairs: Seq<AdaptiveTrialEvidence>,
) -> spec_fn(int) -> bool {
    |i: int|
        candidate_failed(pairs[i]) && cohort.scoring.critical_cases@.contains(pairs[i].spec.case.0)
}

pub open spec fn missing_condition(pairs: Seq<AdaptiveTrialEvidence>, case: CaseIdentity) -> spec_fn(
    int,
) -> bool {
    |r: int| !has_pair(pairs, case, r)
}

/// How many repeats of the first `n` frozen cases have no evidence.
pub open spec fn missing(
    manifest: Seq<ManifestEntry>,
    pairs: Seq<AdaptiveTrialEvidence>,
    n: int,
) -> int
    decreases n,
{
    if n <= 0 {
        0
    } else {
        missing(manifest, pairs, n - 1) + count_true(
            missing_condition(pairs, manifest[n - 1].case),
            manifest[n - 1].repeats as int,
        )
    }
}

/// What is counted in the evidence.
#[verifier::ext_equal]
pub struct Counts {
    pub missing: int,
    pub unknown: int,
    pub drift: int,
    pub failures: int,
    pub critical: int,
}

/// What the evidence holds.
pub open spec fn counted(
    cohort: EvaluationCohortSpec,
    manifest: Seq<ManifestEntry>,
    dataset: AdaptivePromotionDataset,
) -> Counts {
    let pairs = dataset.pairs@;
    let n = pairs.len() as int;
    Counts {
        missing: missing(manifest, pairs, manifest.len() as int),
        unknown: count_true(unknown_condition(pairs), n),
        drift: count_true(drift_condition(cohort, manifest, dataset), n),
        failures: count_true(failure_condition(pairs), n),
        critical: count_true(critical_condition(cohort, pairs), n),
    }
}

/// What was counted.
#[derive(Clone, Copy, Debug, PartialEq, Eq, Structural)]
pub struct Tally {
    missing: u128,
    unknown: u64,
    drift: u64,
    failures: u64,
    critical: u64,
}

impl View for Tally {
    type V = Counts;

    closed spec fn view(&self) -> Counts {
        Counts {
            missing: self.missing as int,
            unknown: self.unknown as int,
            drift: self.drift as int,
            failures: self.failures as int,
            critical: self.critical as int,
        }
    }
}

pub open spec fn gate_model(name: Seq<char>, status: GateStatus, reason: Seq<char>) -> GateModel {
    GateModel { name, status, reason }
}

/// Gate on complete data.
pub open spec fn completeness_gate(counts: Counts) -> GateModel {
    if counts.missing > 0 || counts.unknown > 0 {
        gate_model(
            "data_completeness"@,
            GateStatus::Inconclusive,
            ""@ + decimal(counts.missing as nat) + " paired trials are missing; "@ + decimal(
                counts.unknown as nat,
            ) + " trials are InfrastructureUnknown"@,
        )
    } else {
        gate_model(
            "data_completeness"@,
            GateStatus::Verified,
            "all frozen pairs are complete"@,
        )
    }
}

/// Gate on what the pairs were run on.
pub open spec fn integrity_gate(counts: Counts, partition_matches: bool) -> GateModel {
    if counts.drift > 0 || !partition_matches {
        gate_model(
            "pairing_integrity"@,
            GateStatus::Inconclusive,
            ""@ + decimal(counts.drift as nat)
                + " pairs have identity or block drift; partition match="@ + (
            if partition_matches {
                "true"@
            } else {
                "false"@
            }),
        )
    } else {
        gate_model(
            "pairing_integrity"@,
            GateStatus::Verified,
            "all paired identities match the frozen cohort"@,
        )
    }
}

/// Gate on the candidate's correctness.
pub open spec fn correctness_gate(counts: Counts) -> GateModel {
    if counts.missing > 0 || counts.unknown > 0 {
        gate_model(
            "correctness"@,
            GateStatus::Inconclusive,
            "candidate correctness evidence is incomplete"@,
        )
    } else {
        gate_model(
            "correctness"@,
            if counts.failures == 0 {
                GateStatus::Verified
            } else {
                GateStatus::NotVerified
            },
            ""@ + decimal(counts.failures as nat) + " candidate BehavioralFailure outcomes"@,
        )
    }
}

/// Gate on the critical cases.
pub open spec fn critical_gate(counts: Counts) -> GateModel {
    if counts.missing > 0 || counts.unknown > 0 {
        gate_model(
            "critical_cases"@,
            GateStatus::Inconclusive,
            "critical-case evidence is incomplete"@,
        )
    } else {
        gate_model(
            "critical_cases"@,
            if counts.critical == 0 {
                GateStatus::Verified
            } else {
                GateStatus::NotVerified
            },
            ""@ + decimal(counts.critical as nat) + " critical candidate failures"@,
        )
    }
}

/// Whether the evidence at an index is the last one for a gate.
pub open spec fn last_gate(evidence: Seq<GateEvidence>, name: Seq<char>, i: int) -> bool {
    &&& 0 <= i < evidence.len()
    &&& evidence[i].name.text() == name
    &&& forall|j: int| i < j < evidence.len() ==> (#[trigger] evidence[j]).name.text() != name
}

/// A gate that was decided elsewhere.
pub open spec fn external_gate(evidence: Seq<GateEvidence>, name: Seq<char>) -> GateModel {
    if exists|i: int| last_gate(evidence, name, i) {
        let item = evidence[choose|i: int| last_gate(evidence, name, i)];
        gate_model(name, item.status, item.reason@)
    } else {
        gate_model(
            name,
            GateStatus::Inconclusive,
            "required hard-gate evidence is missing"@,
        )
    }
}

/// The first `n` gates that were decided elsewhere, in the order of the policy.
pub open spec fn external_gates(
    evidence: Seq<GateEvidence>,
    required: Seq<GateName>,
    n: int,
) -> Seq<GateModel>
    decreases n,
{
    if n <= 0 {
        Seq::empty()
    } else {
        external_gates(evidence, required, n - 1).push(
            external_gate(evidence, required[n - 1].text()),
        )
    }
}

/// Whether a gate is one that the policy asks for.
pub open spec fn gate_declared(required: Seq<GateName>, name: Seq<char>) -> bool {
    exists|j: int| 0 <= j < required.len() && (#[trigger] required[j]).text() == name
}

/// Whether every gate with evidence is one that the policy asks for.
pub open spec fn gates_declared(evidence: Seq<GateEvidence>, required: Seq<GateName>) -> bool {
    forall|i: int|
        0 <= i < evidence.len() ==> gate_declared(required, (#[trigger] evidence[i]).name.text())
}

/// How many independent blocks a stratum draws on.
pub open spec fn stratum_blocks(manifest: Seq<ManifestEntry>, stratum: StratumPolicy) -> nat {
    block_count(entries_of(manifest, stratum.cases@))
}

/// The strata among the first `n` with too few blocks, as a list.
pub open spec fn underpowered_text(
    manifest: Seq<ManifestEntry>,
    strata: Seq<StratumPolicy>,
    minimum: u32,
    n: int,
) -> Seq<char>
    decreases n,
{
    if n <= 0 {
        ""@
    } else {
        let before = underpowered_text(manifest, strata, minimum, n - 1);
        let blocks = stratum_blocks(manifest, strata[n - 1]);
        if blocks < minimum {
            before + (if underpowered(manifest, strata, minimum, n - 1) {
                ", ("@
            } else {
                "("@
            }) + debug_text(strata[n - 1].name.text()) + ", "@ + decimal(blocks) + ")"@
        } else {
            before
        }
    }
}

/// Whether one of the first `n` strata has too few blocks.
pub open spec fn underpowered(
    manifest: Seq<ManifestEntry>,
    strata: Seq<StratumPolicy>,
    minimum: u32,
    n: int,
) -> bool
    decreases n,
{
    n > 0 && (underpowered(manifest, strata, minimum, n - 1) || stratum_blocks(
        manifest,
        strata[n - 1],
    ) < minimum)
}

/// Gate on statistical power.
pub open spec fn power_gate(
    manifest: Seq<ManifestEntry>,
    strata: Seq<StratumPolicy>,
    minimum: u32,
) -> GateModel {
    let n = strata.len() as int;
    if underpowered(manifest, strata, minimum, n) {
        gate_model(
            "minimum_power"@,
            GateStatus::Inconclusive,
            "complete independent blocks are below the frozen minimum: ["@ + underpowered_text(
                manifest,
                strata,
                minimum,
                n,
            ) + "]"@,
        )
    } else {
        gate_model(
            "minimum_power"@,
            GateStatus::Verified,
            "each stratum has at least "@ + decimal(minimum as nat) + " independent blocks"@,
        )
    }
}

/// The name of a gate for a metric in a stratum.
pub open spec fn statistical_name(metric: MetricPolicy, stratum: Seq<char>) -> Seq<char> {
    (match metric.kind {
        MetricKind::Primary => "useful_effect:"@,
        MetricKind::Protected => "protected_noninferiority:"@,
    }) + metric.name.text() + ":"@ + stratum
}

/// Whether the statistics can be computed at all.
pub open spec fn scorable(
    cohort: EvaluationCohortSpec,
    manifest: Seq<ManifestEntry>,
    counts: Counts,
    partition_matches: bool,
) -> bool {
    &&& counts.missing == 0 && counts.unknown == 0 && counts.drift == 0 && partition_matches
    &&& !underpowered(
        manifest,
        cohort.scoring.strata@,
        cohort.scoring.minimum_complete_blocks,
        cohort.scoring.strata@.len() as int,
    )
}

/// Statistics with the gates that they decide.
#[verifier::ext_equal]
pub struct Rows {
    pub statistics: Seq<StatisticModel>,
    pub gates: Seq<GateModel>,
}

/// The rows with that of one more metric and stratum.
pub open spec fn with_row(
    rows: Rows,
    cohort: EvaluationCohortSpec,
    manifest: Seq<ManifestEntry>,
    pairs: Seq<AdaptiveTrialEvidence>,
    can_score: bool,
    metric: MetricPolicy,
    stratum: StratumPolicy,
) -> Result<Rows, ScoringError> {
    let name = statistical_name(metric, stratum.name.text());
    if !can_score {
        Ok(
            Rows {
                statistics: rows.statistics,
                gates: rows.gates.push(
                    gate_model(
                        name,
                        GateStatus::Inconclusive,
                        "paired block statistic is unavailable"@,
                    ),
                ),
            },
        )
    } else {
        match metric_statistic(
            pairs,
            manifest,
            metric,
            stratum,
            cohort.scoring.adaptive_error_nanos_per_hypothesis,
        ) {
            Err(error) => Err(error),
            Ok((statistic, status)) => Ok(
                Rows {
                    statistics: rows.statistics.push(statistic),
                    gates: rows.gates.push(
                        gate_model(
                            name,
                            status,
                            if status == GateStatus::Verified {
                                "adjusted block effect is positive at the frozen exact-sign allocation"@
                            } else {
                                "effect margin or frozen exact-sign allocation was not satisfied"@
                            },
                        ),
                    ),
                },
            ),
        }
    }
}

/// The rows of the first `m` metrics by name in all strata, and of the following metric
/// in the first `s` strata by name.
pub open spec fn rows_until(
    cohort: EvaluationCohortSpec,
    manifest: Seq<ManifestEntry>,
    pairs: Seq<AdaptiveTrialEvidence>,
    can_score: bool,
    m: int,
    s: int,
) -> Result<Rows, ScoringError>
    decreases m, s,
{
    let metrics = cohort.scoring.metrics@;
    let strata = cohort.scoring.strata@;
    if s > 0 {
        match rows_until(cohort, manifest, pairs, can_score, m, s - 1) {
            Err(error) => Err(error),
            Ok(rows) => with_row(
                rows,
                cohort,
                manifest,
                pairs,
                can_score,
                metrics[sorted(metrics, metrics.len() as int)[m]],
                strata[sorted(strata, strata.len() as int)[s - 1]],
            ),
        }
    } else if m > 0 {
        rows_until(cohort, manifest, pairs, can_score, m - 1, strata.len() as int)
    } else {
        Ok(Rows { statistics: Seq::empty(), gates: Seq::empty() })
    }
}

/// Whether one of the gates found something.
pub open spec fn some_gate(gates: Seq<GateModel>, status: GateStatus) -> bool {
    exists|i: int| 0 <= i < gates.len() && (#[trigger] gates[i]).status == status
}

/// What the gates together support: nothing while one of them is inconclusive.
pub open spec fn combined(gates: Seq<GateModel>) -> AdaptiveVerdict {
    if some_gate(gates, GateStatus::Inconclusive) {
        AdaptiveVerdict::Inconclusive
    } else if some_gate(gates, GateStatus::NotVerified) {
        AdaptiveVerdict::NotVerified
    } else {
        AdaptiveVerdict::Verified
    }
}

/// The gates that do not rest on statistics, in the order of the report.
pub open spec fn leading_gates(
    cohort: EvaluationCohortSpec,
    manifest: Seq<ManifestEntry>,
    dataset: AdaptivePromotionDataset,
    counts: Counts,
    partition_matches: bool,
) -> Seq<GateModel> {
    let required = cohort.scoring.required_hard_gates@;
    seq![completeness_gate(counts), integrity_gate(counts, partition_matches)] + external_gates(
        dataset.hard_gate_evidence@,
        required,
        required.len() as int,
    ) + seq![
        correctness_gate(counts),
        critical_gate(counts),
        power_gate(
            manifest,
            cohort.scoring.strata@,
            cohort.scoring.minimum_complete_blocks,
        ),
    ]
}

/// The report with given gates and statistics.
pub open spec fn report_with(
    cohort: EvaluationCohortSpec,
    campaign: CampaignId,
    round: RoundId,
    dataset: AdaptivePromotionDataset,
    coordinates: DecisionCoordinates,
    ledger: LedgerTransition,
    verdict: AdaptiveVerdict,
    gates: Seq<GateModel>,
    statistics: Seq<StatisticModel>,
) -> ReportModel {
    ReportModel {
        cohort: cohort.id,
        campaign,
        round,
        candidate: dataset.candidate,
        verdict,
        estimator_version: cohort.scoring.estimator_version@,
        calibration: cohort.scoring.calibration@,
        policy_digest: digest_of_text(cohort_policy_json(cohort)),
        coordinates,
        gates,
        statistics,
        ledger,
        evidence_root: digest_of_text(dataset_json(dataset)),
        production_activation: AdaptiveVerdict::Inconclusive,
        production_activation_reason: cohort.scoring.calibration@
            + " calibration cannot authorize production activation"@,
    }
}

/// A gate that stands alone where a ledger is spent.
pub open spec fn capacity_gate() -> GateModel {
    gate_model(
        "ledger_capacity"@,
        GateStatus::Inconclusive,
        "Store-global query or error ledger has no allocation for this decision"@,
    )
}

/// What the evaluation of evidence comes to, once the ledger has paid for it.
pub open spec fn evaluated_evidence(
    cohort: EvaluationCohortSpec,
    campaign: CampaignId,
    round: RoundId,
    dataset: AdaptivePromotionDataset,
    coordinates: DecisionCoordinates,
    ledger: LedgerTransition,
) -> Result<ReportModel, ScoringError> {
    let manifest = cohort_manifest(cohort);
    let counts = counted(cohort, manifest, dataset);
    let pairs = dataset.pairs@;
    let matches = dataset.adaptive_partition.commitment == cohort.partitions.adaptive_promotion;
    match first_some(pair_check(manifest, campaign, dataset), pairs.len() as int) {
        Some(error) => Err(error),
        None => if !gates_declared(
            dataset.hard_gate_evidence@,
            cohort.scoring.required_hard_gates@,
        ) {
            Err(ScoringError::UndeclaredGate)
        } else {
            match rows_until(
                cohort,
                manifest,
                pairs,
                scorable(cohort, manifest, counts, matches),
                cohort.scoring.metrics@.len() as int,
                0,
            ) {
                Err(error) => Err(error),
                Ok(rows) => {
                    let gates = leading_gates(cohort, manifest, dataset, counts, matches)
                        + rows.gates;
                    Ok(
                        report_with(
                            cohort,
                            campaign,
                            round,
                            dataset,
                            coordinates,
                            ledger,
                            combined(gates),
                            gates,
                            rows.statistics,
                        ),
                    )
                },
            }
        },
    }
}

/// Whether nothing is wrong with evidence, and it is complete enough to be scored.
pub open spec fn reaches_scores(
    cohort: EvaluationCohortSpec,
    campaign: CampaignId,
    dataset: AdaptivePromotionDataset,
) -> bool {
    let manifest = cohort_manifest(cohort);
    &&& first_some(
        pair_check(manifest, campaign, dataset),
        dataset.pairs@.len() as int,
    ) is None
    &&& gates_declared(dataset.hard_gate_evidence@, cohort.scoring.required_hard_gates@)
    &&& scorable(
        cohort,
        manifest,
        counted(cohort, manifest, dataset),
        dataset.adaptive_partition.commitment == cohort.partitions.adaptive_promotion,
    )
}

/// Whether each case that a stratum names is repeated at least once.
pub open spec fn strata_repeated(cohort: EvaluationCohortSpec) -> bool {
    forall|i: int, c: int|
        0 <= i < cohort.scoring.strata@.len() && 0 <= c < cohort.scoring.strata@[i].cases@.len()
            ==> entry_of(
            cohort_manifest(cohort),
            #[trigger] cohort.scoring.strata@[i].cases@[c],
        )->0.repeats > 0
}

/// Whether an evaluation gets as far as scores: it is well posed and the ledger pays for it.
pub open spec fn comes_to_scores(
    cohort: EvaluationCohortSpec,
    campaign: CampaignId,
    dataset: AdaptivePromotionDataset,
    ledger: LedgerStatus,
    coordinates: DecisionCoordinates,
) -> bool {
    &&& policy_problem(cohort.scoring, cohort) is None
    &&& coordinates.within(cohort.scoring.multiplicity_family)
    &&& dataset.cohort == cohort.id
    &&& ledger_reserved(cohort, ledger) matches Ok(transition) && transition.query_debit > 0
    &&& reaches_scores(cohort, campaign, dataset)
}

/// What the evaluation comes to.
pub open spec fn evaluated(
    cohort: EvaluationCohortSpec,
    campaign: CampaignId,
    round: RoundId,
    dataset: AdaptivePromotionDataset,
    ledger: LedgerStatus,
    coordinates: DecisionCoordinates,
) -> Result<ReportModel, ScoringError> {
    if policy_problem(cohort.scoring, cohort) is Some {
        Err(policy_problem(cohort.scoring, cohort)->0)
    } else if !coordinates.within(cohort.scoring.multiplicity_family) {
        Err(ScoringError::CoordinatesOutsideFamily)
    } else if dataset.cohort != cohort.id {
        Err(ScoringError::WrongEvaluationContext)
    } else {
        match ledger_reserved(cohort, ledger) {
            Err(error) => Err(error),
            Ok(transition) => if transition.query_debit == 0 {
                Ok(
                    report_with(
                        cohort,
                        campaign,
                        round,
                        dataset,
                        coordinates,
                        transition,
                        AdaptiveVerdict::Inconclusive,
                        seq![capacity_gate()],
                        Seq::empty(),
                    ),
                )
            } else {
                evaluated_evidence(
                    cohort,
                    campaign,
                    round,
                    dataset,
                    coordinates,
                    transition,
                )
            },
        }
    }
}

fn gate(name: &str, status: GateStatus, reason: &str) -> (r: GateResult)
    ensures
        r@ == gate_model(name@, status, reason@),
{
    GateResult { name: name.to_owned(), status, reason: reason.to_owned() }
}

fn check_pair(
    manifest: &Manifest,
    campaign: CampaignId,
    dataset: &AdaptivePromotionDataset,
    i: usize,
) -> (r: Option<ScoringError>)
    requires
        i < dataset.pairs.len(),
    ensures
        r == pair_problem(manifest@, campaign, *dataset, i as int),
{
    let pair = &dataset.pairs[i];
    match pair.evidence.validate_for_pair(&pair.spec) {
        Err(error) => return Some(ScoringError::Trial(error)),
        Ok(()) => {},
    }
    let entry = match manifest.get(pair.spec.case) {
        Some(entry) => entry,
        None => return Some(ScoringError::PairOutsideManifest),
    };
    if pair.spec.repeat >= entry.repeats {
        return Some(ScoringError::PairOutsideManifest);
    }
    if pair.spec.context.campaign != campaign || pair.spec.context.candidate != dataset.candidate {
        return Some(ScoringError::WrongEvaluationContext);
    }
    let mut j: usize = 0;
    while j < i
        invariant
            j <= i < dataset.pairs.len(),
            *pair == dataset.pairs@[i as int],
            forall|k: int|
                0 <= k < j ==> !#[trigger] pair_at(
                    dataset.pairs@,
                    pair.spec.case,
                    pair.spec.repeat as int,
                    k,
                ),
            pair.evidence.problem_for(pair.spec) is None,
            entry_of(manifest@, pair.spec.case) == Some(entry),
            pair.spec.repeat < entry.repeats,
            pair.spec.context.campaign == campaign,
            pair.spec.context.candidate == dataset.candidate,
        decreases i - j,
    {
        if dataset.pairs[j].spec.case == pair.spec.case && dataset.pairs[j].spec.repeat
            == pair.spec.repeat {
            assert(pair_at(dataset.pairs@, pair.spec.case, pair.spec.repeat as int, j as int));
            return Some(ScoringError::DuplicatePair);
        }
        j += 1;
    }
    None
}

fn check_pairs(manifest: &Manifest, campaign: CampaignId, dataset: &AdaptivePromotionDataset) -> (r:
    Option<ScoringError>)
    ensures
        r == first_some(pair_check(manifest@, campaign, *dataset), dataset.pairs.len() as int),
{
    let mut i: usize = 0;
    while i < dataset.pairs.len()
        invariant
            i <= dataset.pairs.len(),
            first_some(pair_check(manifest@, campaign, *dataset), i as int) is None,
        decreases dataset.pairs.len() - i,
    {
        assert(pair_check(manifest@, campaign, *dataset)(i as int) == pair_problem(
            manifest@,
            campaign,
            *dataset,
            i as int,
        ));
        match check_pair(manifest, campaign, dataset, i) {
            Some(error) => {
                proof {
                    lemma_first_some_at(
                        pair_check(manifest@, campaign, *dataset),
                        i as int,
                        dataset.pairs.len() as int,
                    );
                }
                return Some(error);
            },
            None => {},
        }
        i += 1;
    }
    None
}

fn count_missing(manifest: &Manifest, pairs: &Vec<AdaptiveTrialEvidence>) -> (r: u128)
    ensures
        r == missing(manifest@, pairs@, manifest@.len() as int),
{
    let mut total: u128 = 0;
    let size = manifest.len();
    let mut n: usize = 0;
    while n < size
        invariant
            n <= size,
            size == manifest@.len(),
            total <= n * 0x1_0000_0000,
            total == missing(manifest@, pairs@, n as int),
        decreases manifest@.len() - n,
    {
        let entry = manifest.entry(n);
        let ghost condition = missing_condition(pairs@, entry.case);
        let mut count: u32 = 0;
        let mut r: u32 = 0;
        while r < entry.repeats
            invariant
                r <= entry.repeats,
                count <= r,
                condition == missing_condition(pairs@, entry.case),
                count == count_true(condition, r as int),
            decreases entry.repeats - r,
        {
            assert(condition(r as int) == !has_pair(pairs@, entry.case, r as int));
            if find_pair(pairs, entry.case, r).is_none() {
                count += 1;
            } else {
                assert(has_pair(pairs@, entry.case, r as int));
            }
            r += 1;
        }
        assert(n * 0x1_0000_0000 + 0x1_0000_0000 == (n + 1) * 0x1_0000_0000);
        total = total + count as u128;
        n += 1;
    }
    total
}

fn tally_of(cohort: &EvaluationCohortSpec, manifest: &Manifest, dataset: &AdaptivePromotionDataset)
    -> (r: Tally)
    requires
        forall|i: int|
            0 <= i < dataset.pairs.len() ==> is_listed(
                manifest@,
                (#[trigger] dataset.pairs@[i]).spec.case,
            ),
    ensures
        r@ == counted(*cohort, manifest@, *dataset),
{
    let ghost pairs = dataset.pairs@;
    let ghost of_unknown = unknown_condition(pairs);
    let ghost of_drift = drift_condition(*cohort, manifest@, *dataset);
    let ghost of_failure = failure_condition(pairs);
    let ghost of_critical = critical_condition(*cohort, pairs);
    let mut unknown: u64 = 0;
    let mut drift: u64 = 0;
    let mut failures: u64 = 0;
    let mut critical: u64 = 0;
    let mut i: usize = 0;
    while i < dataset.pairs.len()
        invariant
            i <= dataset.pairs.len(),
            pairs == dataset.pairs@,
            forall|k: int|
                0 <= k < dataset.pairs.len() ==> is_listed(
                    manifest@,
                    (#[trigger] dataset.pairs@[k]).spec.case,
                ),
            of_unknown == unknown_condition(pairs),
            of_drift == drift_condition(*cohort, manifest@, *dataset),
            of_failure == failure_condition(pairs),
            of_critical == critical_condition(*cohort, pairs),
            unknown <= i,
            drift <= i,
            failures <= i,
            critical <= i,
            unknown == count_true(of_unknown, i as int),
            drift == count_true(of_drift, i as int),
            failures == count_true(of_failure, i as int),
            critical == count_true(of_critical, i as int),
        decreases dataset.pairs.len() - i,
    {
        let pair = &dataset.pairs[i];
        assert(is_listed(manifest@, dataset.pairs@[i as int].spec.case));
        let block = match manifest.get(pair.spec.case) {
            Some(entry) => entry.block,
            None => pair.spec.block,
        };
        let runtime = pair.spec.context.runtime;
        let off = pair.spec.block != block || pair.spec.context.partition
            != dataset.adaptive_partition || runtime.model != cohort.target.model
            || runtime.protocol != cohort.target.protocol || runtime.evaluator != cohort.evaluator
            || runtime.environment != cohort.target.environment;
        assert(of_drift(i as int) == off);
        if off {
            drift += 1;
        }
        match &pair.evidence {
            PairedTrialEvidence::InfrastructureUnknown(_) => {
                assert(of_unknown(i as int));
                assert(!of_failure(i as int));
                assert(!of_critical(i as int));
                unknown += 1;
            },
            PairedTrialEvidence::Usable(receipt) => {
                assert(!of_unknown(i as int));
                match &receipt.candidate {
                    BehavioralTrialOutcome::BehavioralFailure { .. } => {
                        assert(of_failure(i as int));
                        failures += 1;
                        let counts = cohort.scoring.critical_cases.contains(pair.spec.case.0);
                        assert(of_critical(i as int) == counts);
                        if counts {
                            critical += 1;
                        }
                    },
                    BehavioralTrialOutcome::Pass { .. } => {
                        assert(!of_failure(i as int));
                        assert(!of_critical(i as int));
                    },
                }
            },
        }
        i += 1;
    }
    let missing = count_missing(manifest, &dataset.pairs);
    Tally { missing, unknown, drift, failures, critical }
}

fn data_gate(tally: Tally) -> (r: GateResult)
    ensures
        r@ == completeness_gate(tally@),
{
    if tally.missing > 0 || tally.unknown > 0 {
        let mut reason = "".to_owned();
        push_wide(&mut reason, tally.missing);
        reason.push_str(" paired trials are missing; ");
        push_decimal(&mut reason, tally.unknown);
        reason.push_str(" trials are InfrastructureUnknown");
        gate("data_completeness", GateStatus::Inconclusive, reason.as_str())
    } else {
        gate("data_completeness", GateStatus::Verified, "all frozen pairs are complete")
    }
}

fn pairing_gate(tally: Tally, partition_matches: bool) -> (r: GateResult)
    ensures
        r@ == integrity_gate(tally@, partition_matches),
{
    if tally.drift > 0 || !partition_matches {
        let mut reason = "".to_owned();
        push_decimal(&mut reason, tally.drift);
        reason.push_str(" pairs have identity or block drift; partition match=");
        if partition_matches {
            reason.push_str("true");
        } else {
            reason.push_str("false");
        }
        gate("pairing_integrity", GateStatus::Inconclusive, reason.as_str())
    } else {
        gate(
            "pairing_integrity",
            GateStatus::Verified,
            "all paired identities match the frozen cohort",
        )
    }
}

fn failure_gate(tally: Tally) -> (r: GateResult)
    ensures
        r@ == correctness_gate(tally@),
{
    if tally.missing > 0 || tally.unknown > 0 {
        gate(
            "correctness",
            GateStatus::Inconclusive,
            "candidate correctness evidence is incomplete",
        )
    } else {
        let mut reason = "".to_owned();
        push_decimal(&mut reason, tally.failures);
        reason.push_str(" candidate BehavioralFailure outcomes");
        let status = if tally.failures == 0 {
            GateStatus::Verified
        } else {
            GateStatus::NotVerified
        };
        gate("correctness", status, reason.as_str())
    }
}

fn critical_cases_gate(tally: Tally) -> (r: GateResult)
    ensures
        r@ == critical_gate(tally@),
{
    if tally.missing > 0 || tally.unknown > 0 {
        gate(
            "critical_cases",
            GateStatus::Inconclusive,
            "critical-case evidence is incomplete",
        )
    } else {
        let mut reason = "".to_owned();
        push_decimal(&mut reason, tally.critical);
        reason.push_str(" critical candidate failures");
        let status = if tally.critical == 0 {
            GateStatus::Verified
        } else {
            GateStatus::NotVerified
        };
        gate("critical_cases", status, reason.as_str())
    }
}

fn hard_gate(evidence: &Vec<GateEvidence>, name: &GateName) -> (r: GateResult)
    ensures
        r@ == external_gate(evidence@, name.text()),
{
    let mut i: usize = evidence.len();
    while i > 0
        invariant
            i <= evidence.len(),
            forall|j: int|
                i <= j < evidence.len() ==> (#[trigger] evidence@[j]).name.text() != name.text(),
        decreases i,
    {
        if same_text(evidence[i - 1].name.as_str(), name.as_str()) {
            proof {
                let k = (i - 1) as int;
                assert(last_gate(evidence@, name.text(), k));
                let other = choose|o: int| last_gate(evidence@, name.text(), o);
                assert(last_gate(evidence@, name.text(), other));
                assert(evidence@[k].name.text() == evidence@[other].name.text());
            }
            return gate(
                name.as_str(),
                evidence[i - 1].status,
                evidence[i - 1].reason.as_str(),
            );
        }
        i -= 1;
    }
    gate(name.as_str(), GateStatus::Inconclusive, "required hard-gate evidence is missing")
}

fn is_gate_declared(required: &Vec<GateName>, name: &GateName) -> (r: bool)
    ensures
        r == gate_declared(required@, name.text()),
{
    let mut j: usize = 0;
    while j < required.len()
        invariant
            j <= required.len(),
            forall|k: int| 0 <= k < j ==> (#[trigger] required@[k]).text() != name.text(),
        decreases required.len() - j,
    {
        if same_text(required[j].as_str(), name.as_str()) {
            assert(required@[j as int].text() == name.text());
            return true;
        }
        j += 1;
    }
    false
}

fn are_gates_declared(evidence: &Vec<GateEvidence>, required: &Vec<GateName>) -> (r: bool)
    ensures
        r == gates_declared(evidence@, required@),
{
    let mut i: usize = 0;
    while i < evidence.len()
        invariant
            i <= evidence.len(),
            forall|a: int|
                0 <= a < i ==> gate_declared(required@, (#[trigger] evidence@[a]).name.text()),
        decreases evidence.len() - i,
    {
        if !is_gate_declared(required, &evidence[i].name) {
            assert(!gate_declared(required@, evidence@[i as int].name.text()));
            return false;
        }
        i += 1;
    }
    true
}

fn is_underpowered(manifest: &Manifest, strata: &Vec<StratumPolicy>, minimum: u32) -> (r: (
    bool,
    String,
))
    requires
        strata_valid(strata@, manifest@),
    ensures
        r.0 == underpowered(manifest@, strata@, minimum, strata.len() as int),
        r.1@ == underpowered_text(manifest@, strata@, minimum, strata.len() as int),
{
    let mut any = false;
    let mut text = "".to_owned();
    let mut n: usize = 0;
    while n < strata.len()
        invariant
            n <= strata.len(),
            strata_valid(strata@, manifest@),
            any == underpowered(manifest@, strata@, minimum, n as int),
            text@ == underpowered_text(manifest@, strata@, minimum, n as int),
        decreases strata.len() - n,
    {
        assert(stratum_valid(
            strata@[n as int],
            manifest@,
        ));
        let entries = entries_for(manifest, &strata[n].cases);
        let blocks = count_blocks(&entries);
        if (blocks as u64) < minimum as u64 {
            if any {
                text.push_str(", (");
            } else {
                text.push_str("(");
            }
            text.push_str(debug_of(strata[n].name.as_str()).as_str());
            text.push_str(", ");
            push_decimal(&mut text, blocks as u64);
            text.push_str(")");
            any = true;
        }
        n += 1;
    }
    (any, text)
}

fn statistical_gate_name(metric: &MetricPolicy, stratum: &str) -> (r: String)
    ensures
        r@ == statistical_name(*metric, stratum@),
{
    let mut name = match metric.kind {
        MetricKind::Primary => "useful_effect:".to_owned(),
        MetricKind::Protected => "protected_noninferiority:".to_owned(),
    };
    name.push_str(metric.name.as_str());
    name.push_str(":");
    name.push_str(stratum);
    name
}

fn combine_gate_statuses(gates: &Vec<GateResult>) -> (r: AdaptiveVerdict)
    ensures
        r == combined(gate_models(gates@)),
{
    let ghost models = gate_models(gates@);
    let mut inconclusive = false;
    let mut refuted = false;
    let mut i: usize = 0;
    while i < gates.len()
        invariant
            i <= gates.len(),
            models == gate_models(gates@),
            inconclusive == exists|k: int|
                0 <= k < i && (#[trigger] models[k]).status == GateStatus::Inconclusive,
            refuted == exists|k: int|
                0 <= k < i && (#[trigger] models[k]).status == GateStatus::NotVerified,
        decreases gates.len() - i,
    {
        assert(models[i as int] == gates@[i as int]@);
        if gates[i].status == GateStatus::Inconclusive {
            inconclusive = true;
        }
        if gates[i].status == GateStatus::NotVerified {
            refuted = true;
        }
        i += 1;
    }
    if inconclusive {
        AdaptiveVerdict::Inconclusive
    } else if refuted {
        AdaptiveVerdict::NotVerified
    } else {
        AdaptiveVerdict::Verified
    }
}

/// Evidence without a problem has no pair twice, and only frozen cases.
pub(crate) proof fn lemma_pairs_sound(
    manifest: Seq<ManifestEntry>,
    campaign: CampaignId,
    dataset: AdaptivePromotionDataset,
)
    requires
        first_some(
            pair_check(manifest, campaign, dataset),
            dataset.pairs@.len() as int,
        ) is None,
    ensures
        pairs_unique(dataset.pairs@),
        forall|i: int|
            0 <= i < dataset.pairs@.len() ==> is_listed(
                manifest,
                (#[trigger] dataset.pairs@[i]).spec.case,
            ),
{
    let check = pair_check(manifest, campaign, dataset);
    let pairs = dataset.pairs@;
    lemma_first_some_none(check, pairs.len() as int);
    assert forall|i: int| 0 <= i < pairs.len() implies is_listed(
        manifest,
        (#[trigger] pairs[i]).spec.case,
    ) by {
        assert(check(i) is None);
        assert(pair_problem(manifest, campaign, dataset, i) is None);
    }
    assert forall|i: int, j: int| 0 <= i < j < pairs.len() implies !((
    #[trigger] pairs[i]).spec.case == (#[trigger] pairs[j]).spec.case && pairs[i].spec.repeat
        == pairs[j].spec.repeat) by {
        assert(check(j) is None);
        assert(pair_problem(manifest, campaign, dataset, j) is None);
        if pairs[i].spec.case == pairs[j].spec.case && pairs[i].spec.repeat
            == pairs[j].spec.repeat {
            assert(pair_at(pairs, pairs[j].spec.case, pairs[j].spec.repeat as int, i));
        }
    }
}

proof fn lemma_missing_monotone(
    manifest: Seq<ManifestEntry>,
    pairs: Seq<AdaptiveTrialEvidence>,
    i: int,
    n: int,
)
    requires
        0 <= i < n <= manifest.len(),
    ensures
        0 <= missing(manifest, pairs, n),
        count_true(missing_condition(pairs, manifest[i].case), manifest[i].repeats as int)
            <= missing(manifest, pairs, n),
    decreases n,
{
    lemma_count_bounds(
        missing_condition(pairs, manifest[n - 1].case),
        manifest[n - 1].repeats as int,
    );
    if i < n - 1 {
        lemma_missing_monotone(manifest, pairs, i, n - 1);
    } else {
        lemma_missing_nonnegative(manifest, pairs, n - 1);
    }
}

pub(crate) proof fn lemma_missing_nonnegative(
    manifest: Seq<ManifestEntry>,
    pairs: Seq<AdaptiveTrialEvidence>,
    n: int,
)
    requires
        n <= manifest.len(),
    ensures
        0 <= missing(manifest, pairs, n),
    decreases n,
{
    if n > 0 {
        lemma_count_bounds(
            missing_condition(pairs, manifest[n - 1].case),
            manifest[n - 1].repeats as int,
        );
        lemma_missing_nonnegative(manifest, pairs, n - 1);
    }
}

/// Where nothing is missing or unknown, every stratum is complete.
proof fn lemma_strata_complete(
    cohort: EvaluationCohortSpec,
    manifest: Seq<ManifestEntry>,
    dataset: AdaptivePromotionDataset,
    stratum: StratumPolicy,
)
    requires
        counted(cohort, manifest, dataset).missing == 0,
        counted(cohort, manifest, dataset).unknown == 0,
        pairs_unique(dataset.pairs@),
        cases_unique(manifest),
        forall|c: int|
            0 <= c < stratum.cases@.len() ==> entry_of(
                manifest,
                #[trigger] stratum.cases@[c],
            )->0.repeats > 0,
        stratum_valid(stratum, manifest),
    ensures
        stratum_complete(dataset.pairs@, manifest, stratum.cases@),
{
    let pairs = dataset.pairs@;
    let cases = stratum.cases@;
    lemma_count_zero(unknown_condition(pairs), pairs.len() as int);
    assert forall|c: int| 0 <= c < cases.len() implies {
        &&& is_listed(manifest, #[trigger] cases[c])
        &&& entry_of(manifest, cases[c])->0.repeats > 0
        &&& case_complete(pairs, cases[c], entry_of(manifest, cases[c])->0.repeats as int)
    } by {
        assert(is_listed(manifest, cases[c]));
        let k = choose|k: int| case_at(manifest, cases[c], k);
        assert(case_at(manifest, cases[c], k));
        let condition = missing_condition(pairs, cases[c]);
        lemma_missing_monotone(manifest, pairs, k, manifest.len() as int);
        lemma_count_bounds(condition, manifest[k].repeats as int);
        lemma_count_zero(condition, manifest[k].repeats as int);
        assert forall|r: int| 0 <= r < manifest[k].repeats implies #[trigger] has_pair(
            pairs,
            cases[c],
            r,
        ) && pair_of(pairs, cases[c], r).evidence is Usable by {
            assert(!condition(r));
            let i = choose|i: int| pair_at(pairs, cases[c], r, i);
            assert(pair_at(pairs, cases[c], r, i));
            assert(!unknown_condition(pairs)(i));
        }
    }
}

/// A stratum draws on no more blocks than there are.
proof fn lemma_stratum_blocks(manifest: Seq<ManifestEntry>, stratum: StratumPolicy)
    requires
        stratum_valid(stratum, manifest),
    ensures
        stratum_blocks(manifest, stratum) <= block_count(manifest),
{
    let entries = entries_of(manifest, stratum.cases@);
    let part = blocks_of(entries).to_set();
    let whole = blocks_of(manifest).to_set();
    vstd::seq_lib::seq_to_set_is_finite(blocks_of(manifest));
    assert forall|x| part.contains(x) implies whole.contains(x) by {
        let i = choose|i: int| 0 <= i < blocks_of(entries).len() && blocks_of(entries)[i] == x;
        assert(entries[i].block.0 == x);
        let case = stratum.cases@[i];
        assert(is_listed(manifest, case));
        let k = choose|k: int| case_at(manifest, case, k);
        assert(case_at(manifest, case, k));
        assert(blocks_of(manifest)[k] == x);
    }
    lemma_len_subset(part, whole);
}

proof fn lemma_rows_fail(
    cohort: EvaluationCohortSpec,
    manifest: Seq<ManifestEntry>,
    pairs: Seq<AdaptiveTrialEvidence>,
    can_score: bool,
    m: int,
    s: int,
    m_end: int,
    s_end: int,
)
    requires
        rows_until(cohort, manifest, pairs, can_score, m, s) is Err,
        0 <= m <= m_end,
        0 <= s <= cohort.scoring.strata@.len(),
        0 <= s_end <= cohort.scoring.strata@.len(),
        m == m_end ==> s <= s_end,
    ensures
        rows_until(cohort, manifest, pairs, can_score, m_end, s_end) == rows_until(
            cohort,
            manifest,
            pairs,
            can_score,
            m,
            s,
        ),
    decreases m_end, s_end,
{
    if m == m_end && s == s_end {
    } else if s_end > 0 {
        lemma_rows_fail(cohort, manifest, pairs, can_score, m, s, m_end, s_end - 1);
    } else {
        lemma_rows_fail(
            cohort,
            manifest,
            pairs,
            can_score,
            m,
            s,
            m_end - 1,
            cohort.scoring.strata@.len() as int,
        );
    }
}

fn score_row(
    cohort: &EvaluationCohortSpec,
    manifest: &Manifest,
    pairs: &Vec<AdaptiveTrialEvidence>,
    can_score: bool,
    metric: &MetricPolicy,
    stratum: &StratumPolicy,
    statistics: &mut Vec<MetricStatistic>,
    gates: &mut Vec<GateResult>,
    Ghost(rows): Ghost<Rows>,
    Ghost(lead): Ghost<Seq<GateModel>>,
) -> (r: Result<(), ScoringError>)
    requires
        rows.statistics == statistic_models(old(statistics)@),
        gate_models(old(gates)@) == lead + rows.gates,
        can_score ==> {
            &&& pairs_unique(pairs@)
            &&& stratum.cases@.len() > 0
            &&& stratum_complete(pairs@, manifest@, stratum.cases@)
            &&& block_count(entries_of(manifest@, stratum.cases@)) < 64
        },
    ensures
        match with_row(rows, *cohort, manifest@, pairs@, can_score, *metric, *stratum) {
            Err(error) => r == Err::<(), ScoringError>(error),
            Ok(next) => {
                &&& r is Ok
                &&& next.statistics == statistic_models(final(statistics)@)
                &&& gate_models(final(gates)@) == lead + next.gates
            },
        },
{
    let name = statistical_gate_name(metric, stratum.name.as_str());
    if !can_score {
        let result = gate(
            name.as_str(),
            GateStatus::Inconclusive,
            "paired block statistic is unavailable",
        );
        gates.push(result);
        assert(gate_models(gates@) =~= gate_models(old(gates)@).push(result@));
        assert((lead + rows.gates).push(result@) =~= lead + rows.gates.push(result@));
        return Ok(());
    }
    let (statistic, status) = match score_metric(
        pairs,
        manifest,
        metric,
        stratum,
        cohort.scoring.adaptive_error_nanos_per_hypothesis,
    ) {
        Ok(scored) => scored,
        Err(error) => return Err(error),
    };
    let result = if status == GateStatus::Verified {
        gate(
            name.as_str(),
            status,
            "adjusted block effect is positive at the frozen exact-sign allocation",
        )
    } else {
        gate(
            name.as_str(),
            status,
            "effect margin or frozen exact-sign allocation was not satisfied",
        )
    };
    let ghost model = statistic@;
    statistics.push(statistic);
    gates.push(result);
    assert(statistic_models(statistics@) =~= statistic_models(old(statistics)@).push(model));
    assert(gate_models(gates@) =~= gate_models(old(gates)@).push(result@));
    assert((lead + rows.gates).push(result@) =~= lead + rows.gates.push(result@));
    Ok(())
}

fn score_rows(
    cohort: &EvaluationCohortSpec,
    manifest: &Manifest,
    dataset: &AdaptivePromotionDataset,
    can_score: bool,
    gates: &mut Vec<GateResult>,
) -> (r: Result<Vec<MetricStatistic>, ScoringError>)
    requires
        can_score ==> {
            &&& pairs_unique(dataset.pairs@)
            &&& forall|i: int|
                0 <= i < cohort.scoring.strata@.len() ==> {
                    &&& (#[trigger] cohort.scoring.strata@[i]).cases@.len() > 0
                    &&& stratum_complete(
                        dataset.pairs@,
                        manifest@,
                        cohort.scoring.strata@[i].cases@,
                    )
                    &&& block_count(
                        entries_of(manifest@, cohort.scoring.strata@[i].cases@),
                    ) < 64
                }
        },
    ensures
        match rows_until(
            *cohort,
            manifest@,
            dataset.pairs@,
            can_score,
            cohort.scoring.metrics@.len() as int,
            0,
        ) {
            Err(error) => r == Err::<Vec<MetricStatistic>, ScoringError>(error),
            Ok(rows) => {
                &&& r is Ok
                &&& statistic_models(r->Ok_0@) == rows.statistics
                &&& gate_models(final(gates)@) == gate_models(old(gates)@) + rows.gates
            },
        },
{
    let metrics = &cohort.scoring.metrics;
    let strata = &cohort.scoring.strata;
    let metric_order = sorted_order(metrics);
    let stratum_order = sorted_order(strata);
    let ghost lead = gate_models(gates@);
    let ghost mut rows = Rows { statistics: Seq::empty(), gates: Seq::empty() };
    let mut statistics: Vec<MetricStatistic> = Vec::new();
    assert(statistic_models(statistics@) =~= rows.statistics);
    assert(lead + rows.gates =~= lead);
    let mut m: usize = 0;
    while m < metric_order.len()
        invariant
            m <= metric_order.len(),
            *metrics == cohort.scoring.metrics,
            *strata == cohort.scoring.strata,
            metric_order.len() == metrics.len(),
            stratum_order.len() == strata.len(),
            numbers(metric_order@) == sorted(metrics@, metrics.len() as int),
            numbers(stratum_order@) == sorted(strata@, strata.len() as int),
            forall|i: int|
                0 <= i < metric_order.len() ==> (#[trigger] metric_order@[i]) < metrics.len(),
            forall|i: int|
                0 <= i < stratum_order.len() ==> (#[trigger] stratum_order@[i]) < strata.len(),
            can_score ==> {
                &&& pairs_unique(dataset.pairs@)
                &&& forall|i: int|
                    0 <= i < strata@.len() ==> {
                        &&& (#[trigger] strata@[i]).cases@.len() > 0
                        &&& stratum_complete(dataset.pairs@, manifest@, strata@[i].cases@)
                        &&& block_count(entries_of(manifest@, strata@[i].cases@)) < 64
                    }
            },
            rows_until(*cohort, manifest@, dataset.pairs@, can_score, m as int, 0) == Ok::<
                Rows,
                ScoringError,
            >(rows),
            rows.statistics == statistic_models(statistics@),
            gate_models(gates@) == lead + rows.gates,
        decreases metric_order.len() - m,
    {
        let mut s: usize = 0;
        while s < stratum_order.len()
            invariant
                m < metric_order.len(),
                s <= stratum_order.len(),
                *metrics == cohort.scoring.metrics,
                *strata == cohort.scoring.strata,
                metric_order.len() == metrics.len(),
                stratum_order.len() == strata.len(),
                numbers(metric_order@) == sorted(metrics@, metrics.len() as int),
                numbers(stratum_order@) == sorted(strata@, strata.len() as int),
                forall|i: int|
                    0 <= i < metric_order.len() ==> (#[trigger] metric_order@[i]) < metrics.len(),
                forall|i: int|
                    0 <= i < stratum_order.len() ==> (#[trigger] stratum_order@[i]) < strata.len(),
                can_score ==> {
                    &&& pairs_unique(dataset.pairs@)
                    &&& forall|i: int|
                        0 <= i < strata@.len() ==> {
                            &&& (#[trigger] strata@[i]).cases@.len() > 0
                            &&& stratum_complete(dataset.pairs@, manifest@, strata@[i].cases@)
                            &&& block_count(entries_of(manifest@, strata@[i].cases@)) < 64
                        }
                },
                rows_until(
                    *cohort,
                    manifest@,
                    dataset.pairs@,
                    can_score,
                    m as int,
                    s as int,
                ) == Ok::<Rows, ScoringError>(rows),
                rows.statistics == statistic_models(statistics@),
                gate_models(gates@) == lead + rows.gates,
            decreases stratum_order.len() - s,
        {
            assert(numbers(metric_order@)[m as int] == metric_order@[m as int]);
            assert(numbers(stratum_order@)[s as int] == stratum_order@[s as int]);
            let metric = &metrics[metric_order[m]];
            let stratum = &strata[stratum_order[s]];
            let ghost next = with_row(
                rows,
                *cohort,
                manifest@,
                dataset.pairs@,
                can_score,
                *metric,
                *stratum,
            );
            match score_row(
                cohort,
                manifest,
                &dataset.pairs,
                can_score,
                metric,
                stratum,
                &mut statistics,
                gates,
                Ghost(rows),
                Ghost(lead),
            ) {
                Err(error) => {
                    proof {
                        lemma_rows_fail(
                            *cohort,
                            manifest@,
                            dataset.pairs@,
                            can_score,
                            m as int,
                            s + 1,
                            metrics.len() as int,
                            0,
                        );
                    }
                    return Err(error);
                },
                Ok(()) => {},
            }
            proof {
                rows = next->Ok_0;
            }
            s += 1;
        }
        m += 1;
    }
    Ok(statistics)
}

fn production_activation_reason(cohort: &EvaluationCohortSpec) -> (r: String)
    ensures
        r@ == cohort.scoring.calibration@
            + " calibration cannot authorize production activation"@,
{
    let mut reason = cohort.scoring.calibration.clone();
    reason.push_str(" calibration cannot authorize production activation");
    reason
}

fn write_report(
    cohort: &EvaluationCohortSpec,
    campaign: CampaignId,
    round: RoundId,
    dataset: &AdaptivePromotionDataset,
    coordinates: DecisionCoordinates,
    ledger: LedgerTransition,
    verdict: AdaptiveVerdict,
    gates: Vec<GateResult>,
    statistics: Vec<MetricStatistic>,
) -> (r: AdaptiveScoreReport)
    ensures
        r@ == report_with(
            *cohort,
            campaign,
            round,
            *dataset,
            coordinates,
            ledger,
            verdict,
            gate_models(gates@),
            statistic_models(statistics@),
        ),
{
    AdaptiveScoreReport {
        cohort: cohort.id,
        campaign,
        round,
        candidate: dataset.candidate,
        verdict,
        estimator_version: cohort.scoring.estimator_version.clone(),
        calibration: cohort.scoring.calibration.clone(),
        policy_digest: scoring_policy_digest(cohort),
        coordinates,
        gates,
        statistics,
        ledger,
        evidence_root: evidence_root(dataset),
        production_activation: AdaptiveVerdict::Inconclusive,
        production_activation_reason: production_activation_reason(cohort),
    }
}

fn write_leading_gates(
    cohort: &EvaluationCohortSpec,
    dataset: &AdaptivePromotionDataset,
    tally: Tally,
    partition_matches: bool,
    power: GateResult,
) -> (r: Vec<GateResult>)
    requires
        power@ == power_gate(
            cohort_manifest(*cohort),
            cohort.scoring.strata@,
            cohort.scoring.minimum_complete_blocks,
        ),
    ensures
        gate_models(r@) == leading_gates(
            *cohort,
            cohort_manifest(*cohort),
            *dataset,
            tally@,
            partition_matches,
        ),
{
    let mut gates: Vec<GateResult> = Vec::new();
    gates.push(data_gate(tally));
    gates.push(pairing_gate(tally, partition_matches));
    let ghost head = seq![completeness_gate(tally@), integrity_gate(tally@, partition_matches)];
    let required = &cohort.scoring.required_hard_gates;
    let mut i: usize = 0;
    assert(gate_models(gates@) =~= head + external_gates(
        dataset.hard_gate_evidence@,
        required@,
        0,
    ));
    while i < required.len()
        invariant
            i <= required.len(),
            gate_models(gates@) == head + external_gates(
                dataset.hard_gate_evidence@,
                required@,
                i as int,
            ),
        decreases required.len() - i,
    {
        let ghost before = gate_models(gates@);
        let result = hard_gate(&dataset.hard_gate_evidence, &required[i]);
        gates.push(result);
        i += 1;
        assert(gate_models(gates@) =~= before.push(result@));
        assert(gate_models(gates@) =~= head + external_gates(
            dataset.hard_gate_evidence@,
            required@,
            i as int,
        ));
    }
    let ghost before = gate_models(gates@);
    let correctness = failure_gate(tally);
    let critical = critical_cases_gate(tally);
    gates.push(correctness);
    gates.push(critical);
    let ghost power_model = power@;
    gates.push(power);
    assert(gate_models(gates@) =~= before + seq![correctness@, critical@, power_model]);
    gates
}

fn evaluate_evidence(
    cohort: &EvaluationCohortSpec,
    campaign: CampaignId,
    round: RoundId,
    dataset: &AdaptivePromotionDataset,
    coordinates: DecisionCoordinates,
    transition: LedgerTransition,
) -> (r: Result<AdaptiveScoreReport, ScoringError>)
    requires
        policy_problem(cohort.scoring, *cohort) is None,
        reaches_scores(*cohort, campaign, *dataset) ==> strata_repeated(*cohort),
    ensures
        match r {
            Ok(report) => evaluated_evidence(
                *cohort,
                campaign,
                round,
                *dataset,
                coordinates,
                transition,
            ) == Ok::<ReportModel, ScoringError>(report@),
            Err(error) => evaluated_evidence(
                *cohort,
                campaign,
                round,
                *dataset,
                coordinates,
                transition,
            ) == Err::<ReportModel, ScoringError>(error),
        },
{
    let manifest = Manifest::of(cohort);
    match check_pairs(&manifest, campaign, dataset) {
        Some(error) => return Err(error),
        None => {},
    }
    proof {
        lemma_pairs_sound(manifest@, campaign, *dataset);
    }
    let tally = tally_of(cohort, &manifest, dataset);
    if !are_gates_declared(&dataset.hard_gate_evidence, &cohort.scoring.required_hard_gates) {
        return Err(ScoringError::UndeclaredGate);
    }
    let partition_matches = dataset.adaptive_partition.commitment
        == cohort.partitions.adaptive_promotion;
    let (weak, power) = power_of(cohort, &manifest);
    let mut gates = write_leading_gates(cohort, dataset, tally, partition_matches, power);
    let can_score = tally.missing == 0 && tally.unknown == 0 && tally.drift == 0
        && partition_matches && !weak;
    proof {
        if can_score {
            lemma_all_strata(*cohort, manifest@, *dataset);
        }
    }
    let statistics = match score_rows(cohort, &manifest, dataset, can_score, &mut gates) {
        Ok(statistics) => statistics,
        Err(error) => return Err(error),
    };
    let verdict = combine_gate_statuses(&gates);
    Ok(
        write_report(
            cohort,
            campaign,
            round,
            dataset,
            coordinates,
            transition,
            verdict,
            gates,
            statistics,
        ),
    )
}

pub(crate) proof fn lemma_all_strata(
    cohort: EvaluationCohortSpec,
    manifest: Seq<ManifestEntry>,
    dataset: AdaptivePromotionDataset,
)
    requires
        manifest == cohort_manifest(cohort),
        policy_problem(cohort.scoring, cohort) is None,
        counted(cohort, manifest, dataset).missing == 0,
        counted(cohort, manifest, dataset).unknown == 0,
        pairs_unique(dataset.pairs@),
        cases_unique(manifest),
        strata_repeated(cohort),
    ensures
        forall|i: int|
            0 <= i < cohort.scoring.strata@.len() ==> {
                &&& (#[trigger] cohort.scoring.strata@[i]).cases@.len() > 0
                &&& stratum_complete(dataset.pairs@, manifest, cohort.scoring.strata@[i].cases@)
                &&& block_count(entries_of(manifest, cohort.scoring.strata@[i].cases@)) < 64
            },
{
    assert forall|i: int| 0 <= i < cohort.scoring.strata@.len() implies {
        &&& (#[trigger] cohort.scoring.strata@[i]).cases@.len() > 0
        &&& stratum_complete(dataset.pairs@, manifest, cohort.scoring.strata@[i].cases@)
        &&& block_count(entries_of(manifest, cohort.scoring.strata@[i].cases@)) < 64
    } by {
        let stratum = cohort.scoring.strata@[i];
        assert(stratum_valid(stratum, manifest));
        assert forall|c: int| 0 <= c < stratum.cases@.len() implies entry_of(
            manifest,
            #[trigger] stratum.cases@[c],
        )->0.repeats > 0 by {
            assert(stratum.cases@[c] == cohort.scoring.strata@[i].cases@[c]);
        }
        lemma_strata_complete(cohort, manifest, dataset, stratum);
        lemma_stratum_blocks(manifest, stratum);
    }
}

fn power_of(cohort: &EvaluationCohortSpec, manifest: &Manifest) -> (r: (bool, GateResult))
    requires
        manifest@ == cohort_manifest(*cohort),
        strata_valid(cohort.scoring.strata@, manifest@),
    ensures
        r.0 == underpowered(
            manifest@,
            cohort.scoring.strata@,
            cohort.scoring.minimum_complete_blocks,
            cohort.scoring.strata@.len() as int,
        ),
        r.1@ == power_gate(
            manifest@,
            cohort.scoring.strata@,
            cohort.scoring.minimum_complete_blocks,
        ),
{
    let minimum = cohort.scoring.minimum_complete_blocks;
    let (weak, weak_text) = is_underpowered(manifest, &cohort.scoring.strata, minimum);
    let power = if weak {
        let mut reason =
            "complete independent blocks are below the frozen minimum: [".to_owned();
        reason.push_str(weak_text.as_str());
        reason.push_str("]");
        gate("minimum_power", GateStatus::Inconclusive, reason.as_str())
    } else {
        let mut reason = "each stratum has at least ".to_owned();
        push_decimal(&mut reason, minimum as u64);
        reason.push_str(" independent blocks");
        gate("minimum_power", GateStatus::Verified, reason.as_str())
    };
    (weak, power)
}

/// Evaluates the evidence on a candidate against its cohort.
pub fn evaluate_adaptive(
    cohort: &EvaluationCohortSpec,
    campaign: CampaignId,
    round: RoundId,
    dataset: &AdaptivePromotionDataset,
    ledger: LedgerStatus,
    coordinates: DecisionCoordinates,
) -> (r: Result<AdaptiveScoreReport, ScoringError>)
    requires
        comes_to_scores(*cohort, campaign, *dataset, ledger, coordinates) ==> strata_repeated(
            *cohort,
        ),
    ensures
        match r {
            Ok(report) => evaluated(
                *cohort,
                campaign,
                round,
                *dataset,
                ledger,
                coordinates,
            ) == Ok::<ReportModel, ScoringError>(report@),
            Err(error) => evaluated(
                *cohort,
                campaign,
                round,
                *dataset,
                ledger,
                coordinates,
            ) == Err::<ReportModel, ScoringError>(error),
        },
{
    match cohort.scoring.validate(cohort) {
        Err(error) => return Err(error),
        Ok(()) => {},
    }
    match coordinates.validate(cohort.scoring.multiplicity_family) {
        Err(error) => return Err(error),
        Ok(()) => {},
    }
    if dataset.cohort != cohort.id {
        return Err(ScoringError::WrongEvaluationContext);
    }
    let transition = match reserve_ledger(cohort, ledger) {
        Ok(transition) => transition,
        Err(error) => return Err(error),
    };
    if transition.query_debit == 0 {
        let mut gates: Vec<GateResult> = Vec::new();
        gates.push(
            gate(
                "ledger_capacity",
                GateStatus::Inconclusive,
                "Store-global query or error ledger has no allocation for this decision",
            ),
        );
        assert(gate_models(gates@) =~= seq![capacity_gate()]);
        let statistics: Vec<MetricStatistic> = Vec::new();
        assert(statistic_models(statistics@) =~= Seq::<StatisticModel>::empty());
        return Ok(
            write_report(
                cohort,
                campaign,
                round,
                dataset,
                coordinates,
                transition,
                AdaptiveVerdict::Inconclusive,
                gates,
                statistics,
            ),
        );
    }
    evaluate_evidence(cohort, campaign, round, dataset, coordinates, transition)
}

/// No report authorizes production activation.
pub proof fn law_reports_never_authorize_activation(
    cohort: EvaluationCohortSpec,
    campaign: CampaignId,
    round: RoundId,
    dataset: AdaptivePromotionDataset,
    ledger: LedgerStatus,
    coordinates: DecisionCoordinates,
    report: ReportModel,
)
    requires
        evaluated(cohort, campaign, round, dataset, ledger, coordinates) == Ok::<
            ReportModel,
            ScoringError,
        >(report),
    ensures
        report.production_activation == AdaptiveVerdict::Inconclusive,
{
}

proof fn lemma_all_verified(gates: Seq<GateModel>)
    requires
        combined(gates) == AdaptiveVerdict::Verified,
    ensures
        forall|i: int|
            0 <= i < gates.len() ==> (#[trigger] gates[i]).status == GateStatus::Verified,
{
    assert forall|i: int| 0 <= i < gates.len() implies (#[trigger] gates[i]).status
        == GateStatus::Verified by {
        match gates[i].status {
            GateStatus::Verified => {},
            GateStatus::NotVerified => {},
            GateStatus::Inconclusive => {},
        }
    }
}

proof fn lemma_leading_verified(
    cohort: EvaluationCohortSpec,
    manifest: Seq<ManifestEntry>,
    dataset: AdaptivePromotionDataset,
    counts: Counts,
    matches: bool,
    tail: Seq<GateModel>,
)
    requires
        combined(leading_gates(cohort, manifest, dataset, counts, matches) + tail)
            == AdaptiveVerdict::Verified,
    ensures
        counts.missing <= 0 && counts.unknown <= 0 && counts.drift <= 0,
        counts.failures == 0 && counts.critical == 0,
        matches,
{
    let lead = leading_gates(cohort, manifest, dataset, counts, matches);
    let gates = lead + tail;
    let required = cohort.scoring.required_hard_gates@;
    let n = external_gates(
        dataset.hard_gate_evidence@,
        required,
        required.len() as int,
    ).len() as int;
    lemma_all_verified(gates);
    assert(gates[0] == completeness_gate(counts));
    assert(gates[1] == integrity_gate(counts, matches));
    assert(gates[2 + n] == correctness_gate(counts));
    assert(gates[3 + n] == critical_gate(counts));
}

/// A verdict of a report is what its gates support, and verified evidence is complete,
/// without drift, and of the frozen partition.
pub proof fn law_verified_reports_rest_on_complete_evidence(
    cohort: EvaluationCohortSpec,
    campaign: CampaignId,
    round: RoundId,
    dataset: AdaptivePromotionDataset,
    ledger: LedgerStatus,
    coordinates: DecisionCoordinates,
    report: ReportModel,
)
    requires
        evaluated(cohort, campaign, round, dataset, ledger, coordinates) == Ok::<
            ReportModel,
            ScoringError,
        >(report),
    ensures
        report.verdict == combined(report.gates),
        report.verdict == AdaptiveVerdict::Verified ==> {
            let counts = counted(cohort, cohort_manifest(cohort), dataset);
            &&& counts.missing <= 0 && counts.unknown <= 0 && counts.drift <= 0
            &&& counts.failures == 0 && counts.critical == 0
            &&& dataset.adaptive_partition.commitment == cohort.partitions.adaptive_promotion
            &&& forall|i: int|
                0 <= i < report.gates.len() ==> (#[trigger] report.gates[i]).status
                    == GateStatus::Verified
        },
{
    let manifest = cohort_manifest(cohort);
    let counts = counted(cohort, manifest, dataset);
    let matches = dataset.adaptive_partition.commitment == cohort.partitions.adaptive_promotion;
    let transition = ledger_reserved(cohort, ledger)->Ok_0;
    if transition.query_debit == 0 {
        assert(report.gates =~= seq![capacity_gate()]);
        assert(report.gates[0].status == GateStatus::Inconclusive);
    } else {
        let rows = rows_until(
            cohort,
            manifest,
            dataset.pairs@,
            scorable(cohort, manifest, counts, matches),
            cohort.scoring.metrics@.len() as int,
            0,
        )->Ok_0;
        assert(report.gates == leading_gates(cohort, manifest, dataset, counts, matches)
            + rows.gates);
        if report.verdict == AdaptiveVerdict::Verified {
            lemma_all_verified(report.gates);
            lemma_leading_verified(cohort, manifest, dataset, counts, matches, rows.gates);
        }
    }
}

/// A ledger never spends more than its limits.
pub proof fn law_reservations_stay_within_limits(
    cohort: EvaluationCohortSpec,
    before: LedgerStatus,
    transition: LedgerTransition,
)
    requires
        before.query_used <= before.query_limit,
        before.error_used_nanos <= before.error_limit_nanos,
        ledger_reserved(cohort, before) == Ok::<LedgerTransition, ScoringError>(transition),
    ensures
        transition.after.query_used <= transition.after.query_limit,
        transition.after.error_used_nanos <= transition.after.error_limit_nanos,
        transition.after.query_used == before.query_used + transition.query_debit,
        transition.after.error_used_nanos == before.error_used_nanos
            + transition.error_nanos_debit,
{
}

} // verus!
