//! What the gates and the verdict of a report mean.
use crate::evolution::ids::{CampaignId, RoundId};
use crate::evolution::registry::{EvaluationCohortSpec, LedgerStatus};
use crate::evolution::statistics::evaluate::{
    combined, counted, critical_condition, drift_condition, evaluated, external_gate,
    external_gates, failure_condition, last_gate, leading_gates, ledger_reserved, lemma_all_strata,
    lemma_missing_nonnegative, lemma_pairs_sound, missing, missing_condition, pair_check,
    pair_problem, rows_until, scorable, strata_repeated, stratum_blocks, underpowered,
    unknown_condition, with_row, Rows,
};
use crate::evolution::statistics::laws::{
    average, block_gains, blocks_shown, law_statistics_are_exact,
};
use crate::evolution::statistics::policy::{
    block_count, cohort_manifest, entry_of, lemma_manifest_unique, DecisionCoordinates, GateName,
    ManifestEntry, MetricKind, MetricPolicy, ScoringError, StratumPolicy,
};
use crate::evolution::statistics::report::{
    AdaptivePromotionDataset, AdaptiveTrialEvidence, AdaptiveVerdict, GateEvidence, GateModel,
    GateStatus, ReportModel, StatisticModel,
};
use crate::evolution::statistics::score::{
    entries_of, has_pair, metric_statistic, pair_at,
};
use crate::evolution::trial::{BehavioralTrialOutcome, PairedTrialEvidence};
use crate::first::{
    count_true, first_some, lemma_count_bounds, lemma_count_zero, lemma_first_some_none,
};
use crate::order::{lemma_sorted_holds, lemma_sorted_indexes, sorted};
use vstd::prelude::*;

verus! {

/// Whether some evidence is for a repeat of a case.
pub open spec fn tried(
    pairs: Seq<AdaptiveTrialEvidence>,
    entry: ManifestEntry,
    repeat: int,
) -> bool {
    exists|i: int|
        0 <= i < pairs.len() && (#[trigger] pairs[i]).spec.case == entry.case
            && pairs[i].spec.repeat == repeat
}

/// Whether every repeat of every frozen case has evidence, and all evidence is usable.
pub open spec fn complete(
    manifest: Seq<ManifestEntry>,
    pairs: Seq<AdaptiveTrialEvidence>,
) -> bool {
    &&& forall|i: int, repeat: int|
        0 <= i < manifest.len() && 0 <= repeat < manifest[i].repeats ==> #[trigger] tried(
            pairs,
            manifest[i],
            repeat,
        )
    &&& forall|i: int| 0 <= i < pairs.len() ==> (#[trigger] pairs[i]).evidence is Usable
}

/// Whether a pair was run on what the cohort was frozen for.
pub open spec fn as_frozen(
    cohort: EvaluationCohortSpec,
    dataset: AdaptivePromotionDataset,
    i: int,
) -> bool {
    let pair = dataset.pairs@[i].spec;
    &&& entry_of(cohort_manifest(cohort), pair.case) matches Some(entry) && entry.block
        == pair.block
    &&& pair.context.partition == dataset.adaptive_partition
    &&& pair.context.runtime.model == cohort.target.model
    &&& pair.context.runtime.protocol == cohort.target.protocol
    &&& pair.context.runtime.environment == cohort.target.environment
    &&& pair.context.runtime.evaluator == cohort.evaluator
}

/// Whether the partition and every pair are those of the cohort.
pub open spec fn undrifted(cohort: EvaluationCohortSpec, dataset: AdaptivePromotionDataset) -> bool {
    &&& dataset.adaptive_partition.commitment == cohort.partitions.adaptive_promotion
    &&& forall|i: int| 0 <= i < dataset.pairs@.len() ==> #[trigger] as_frozen(cohort, dataset, i)
}

/// Whether the candidate failed in a pair.
pub open spec fn fails(pair: AdaptiveTrialEvidence) -> bool {
    match pair.evidence {
        PairedTrialEvidence::Usable(receipt) => match receipt.candidate {
            BehavioralTrialOutcome::BehavioralFailure { .. } => true,
            BehavioralTrialOutcome::Pass { .. } => false,
        },
        PairedTrialEvidence::InfrastructureUnknown(_) => false,
    }
}

/// What the last evidence for a hard gate found; nothing conclusive without any.
pub open spec fn hard_status(evidence: Seq<GateEvidence>, name: Seq<char>, n: int) -> GateStatus
    decreases n,
{
    if n <= 0 {
        GateStatus::Inconclusive
    } else if evidence[n - 1].name.text() == name {
        evidence[n - 1].status
    } else {
        hard_status(evidence, name, n - 1)
    }
}

/// Whether each stratum draws on enough blocks.
pub open spec fn powered(cohort: EvaluationCohortSpec) -> bool {
    forall|i: int|
        0 <= i < cohort.scoring.strata@.len() ==> block_count(
            entries_of(cohort_manifest(cohort), (#[trigger] cohort.scoring.strata@[i]).cases@),
        ) >= cohort.scoring.minimum_complete_blocks
}

proof fn lemma_missing_zero(
    manifest: Seq<ManifestEntry>,
    pairs: Seq<AdaptiveTrialEvidence>,
    n: int,
)
    requires
        0 <= n <= manifest.len(),
    ensures
        missing(manifest, pairs, n) == 0 <==> forall|i: int, repeat: int|
            0 <= i < n && 0 <= repeat < manifest[i].repeats ==> #[trigger] tried(
                pairs,
                manifest[i],
                repeat,
            ),
        missing(manifest, pairs, n) >= 0,
    decreases n,
{
    lemma_missing_nonnegative(manifest, pairs, n);
    if n > 0 {
        lemma_missing_nonnegative(manifest, pairs, n - 1);
        lemma_missing_zero(manifest, pairs, n - 1);
        let entry = manifest[n - 1];
        let condition = missing_condition(pairs, entry.case);
        lemma_count_bounds(condition, entry.repeats as int);
        lemma_count_zero(condition, entry.repeats as int);
        assert forall|repeat: int| (#[trigger] condition(repeat)) == !tried(pairs, entry, repeat) by {
            if has_pair(pairs, entry.case, repeat) {
                let i = choose|i: int| pair_at(pairs, entry.case, repeat, i);
                assert(pair_at(pairs, entry.case, repeat, i));
                assert(pairs[i].spec.case == entry.case && pairs[i].spec.repeat == repeat);
            }
            if tried(pairs, entry, repeat) {
                let i = choose|i: int|
                    0 <= i < pairs.len() && (#[trigger] pairs[i]).spec.case == entry.case
                        && pairs[i].spec.repeat == repeat;
                assert(pair_at(pairs, entry.case, repeat, i));
            }
        }
        if missing(manifest, pairs, n) == 0 {
            assert forall|i: int, repeat: int|
                0 <= i < n && 0 <= repeat < manifest[i].repeats implies #[trigger] tried(
                pairs,
                manifest[i],
                repeat,
            ) by {
                if i == n - 1 {
                    assert(!condition(repeat));
                }
            }
        }
        if forall|i: int, repeat: int|
            0 <= i < n && 0 <= repeat < manifest[i].repeats ==> #[trigger] tried(
                pairs,
                manifest[i],
                repeat,
            ) {
            assert forall|repeat: int| 0 <= repeat < entry.repeats implies !(#[trigger] condition(
                repeat,
            )) by {
                assert(tried(pairs, manifest[n - 1], repeat));
            }
        }
    }
}

proof fn lemma_complete(
    cohort: EvaluationCohortSpec,
    dataset: AdaptivePromotionDataset,
)
    ensures
        ({
            let manifest = cohort_manifest(cohort);
            let counts = counted(cohort, manifest, dataset);
            &&& counts.missing >= 0 && counts.unknown >= 0 && counts.drift >= 0
            &&& (counts.missing == 0 && counts.unknown == 0) == complete(manifest, dataset.pairs@)
            &&& (counts.failures == 0) == forall|i: int|
                0 <= i < dataset.pairs@.len() ==> !fails(#[trigger] dataset.pairs@[i])
            &&& (counts.critical == 0) == forall|i: int|
                0 <= i < dataset.pairs@.len() ==> !(fails(#[trigger] dataset.pairs@[i])
                    && cohort.scoring.critical_cases@.contains(dataset.pairs@[i].spec.case.0))
        }),
{
    let manifest = cohort_manifest(cohort);
    let pairs = dataset.pairs@;
    let n = pairs.len() as int;
    lemma_missing_zero(manifest, pairs, manifest.len() as int);
    let unknown = unknown_condition(pairs);
    let drift = drift_condition(cohort, manifest, dataset);
    let failure = failure_condition(pairs);
    let critical = critical_condition(cohort, pairs);
    lemma_count_bounds(unknown, n);
    lemma_count_bounds(drift, n);
    lemma_count_zero(unknown, n);
    lemma_count_zero(failure, n);
    lemma_count_zero(critical, n);
    assert forall|i: int| (#[trigger] unknown(i)) == !(pairs[i].evidence is Usable) by {}
    assert forall|i: int| (#[trigger] failure(i)) == fails(pairs[i]) by {}
    assert forall|i: int| (#[trigger] critical(i)) == (fails(pairs[i])
        && cohort.scoring.critical_cases@.contains(pairs[i].spec.case.0)) by {}
    if count_true(unknown, n) == 0 {
        assert forall|i: int| 0 <= i < n implies (#[trigger] pairs[i]).evidence is Usable by {
            assert(!unknown(i));
        }
    }
    if complete(manifest, pairs) {
        assert forall|i: int| 0 <= i < n implies !(#[trigger] unknown(i)) by {
            assert(pairs[i].evidence is Usable);
        }
    }
    if count_true(failure, n) == 0 {
        assert forall|i: int| 0 <= i < n implies !fails(#[trigger] pairs[i]) by {
            assert(!failure(i));
        }
    }
    if forall|i: int| 0 <= i < n ==> !fails(#[trigger] pairs[i]) {
        assert forall|i: int| 0 <= i < n implies !(#[trigger] failure(i)) by {
            assert(!fails(pairs[i]));
        }
    }
    if count_true(critical, n) == 0 {
        assert forall|i: int| 0 <= i < n implies !(fails(#[trigger] pairs[i])
            && cohort.scoring.critical_cases@.contains(pairs[i].spec.case.0)) by {
            assert(!critical(i));
        }
    }
    if forall|i: int|
        0 <= i < n ==> !(fails(#[trigger] pairs[i]) && cohort.scoring.critical_cases@.contains(
            pairs[i].spec.case.0,
        )) {
        assert forall|i: int| 0 <= i < n implies !(#[trigger] critical(i)) by {
            assert(!(fails(pairs[i]) && cohort.scoring.critical_cases@.contains(
                pairs[i].spec.case.0,
            )));
        }
    }
}

proof fn lemma_undrifted(
    cohort: EvaluationCohortSpec,
    campaign: CampaignId,
    dataset: AdaptivePromotionDataset,
)
    requires
        first_some(
            pair_check(cohort_manifest(cohort), campaign, dataset),
            dataset.pairs@.len() as int,
        ) is None,
    ensures
        (counted(cohort, cohort_manifest(cohort), dataset).drift == 0
            && dataset.adaptive_partition.commitment == cohort.partitions.adaptive_promotion)
            == undrifted(cohort, dataset),
        forall|i: int|
            0 <= i < dataset.pairs@.len() ==> (#[trigger] dataset.pairs@[i]).spec.context.campaign
                == campaign && dataset.pairs@[i].spec.context.candidate == dataset.candidate,
{
    let manifest = cohort_manifest(cohort);
    let pairs = dataset.pairs@;
    let n = pairs.len() as int;
    let drift = drift_condition(cohort, manifest, dataset);
    let check = pair_check(manifest, campaign, dataset);
    lemma_first_some_none(check, n);
    lemma_count_zero(drift, n);
    assert forall|i: int| 0 <= i < n implies (#[trigger] drift(i)) == !as_frozen(
        cohort,
        dataset,
        i,
    ) && pairs[i].spec.context.campaign == campaign && pairs[i].spec.context.candidate
        == dataset.candidate by {
        assert(check(i) is None);
        assert(pair_problem(manifest, campaign, dataset, i) is None);
    }
    if count_true(drift, n) == 0 {
        assert forall|i: int| 0 <= i < n implies #[trigger] as_frozen(cohort, dataset, i) by {
            assert(!drift(i));
        }
    }
    if undrifted(cohort, dataset) {
        assert forall|i: int| 0 <= i < n implies !(#[trigger] drift(i)) by {
            assert(as_frozen(cohort, dataset, i));
        }
    }
    assert forall|i: int| 0 <= i < n implies (
    #[trigger] dataset.pairs@[i]).spec.context.campaign == campaign
        && dataset.pairs@[i].spec.context.candidate == dataset.candidate by {
        let d = drift(i);
    }
}

proof fn lemma_underpowered(
    manifest: Seq<ManifestEntry>,
    strata: Seq<StratumPolicy>,
    minimum: u32,
    n: int,
)
    requires
        0 <= n <= strata.len(),
    ensures
        underpowered(manifest, strata, minimum, n) <==> exists|i: int|
            0 <= i < n && block_count(entries_of(manifest, (#[trigger] strata[i]).cases@))
                < minimum,
    decreases n,
{
    if n > 0 {
        lemma_underpowered(manifest, strata, minimum, n - 1);
        if stratum_blocks(manifest, strata[n - 1]) < minimum {
            assert(block_count(entries_of(manifest, strata[n - 1].cases@)) < minimum);
        }
    }
}

proof fn lemma_hard_status(evidence: Seq<GateEvidence>, name: Seq<char>, n: int)
    requires
        0 <= n <= evidence.len(),
        forall|j: int| n <= j < evidence.len() ==> (#[trigger] evidence[j]).name.text() != name,
    ensures
        external_gate(evidence, name).status == hard_status(evidence, name, n),
        external_gate(evidence, name).name == name,
    decreases n,
{
    if n > 0 && evidence[n - 1].name.text() == name {
        assert(last_gate(evidence, name, n - 1));
        let i = choose|i: int| last_gate(evidence, name, i);
        assert(last_gate(evidence, name, i));
        assert(i == n - 1) by {
            if i < n - 1 {
                assert(evidence[n - 1].name.text() != name);
            }
            if i > n - 1 {
                assert(evidence[i].name.text() == name);
            }
        }
    } else if n > 0 {
        lemma_hard_status(evidence, name, n - 1);
    } else {
        assert forall|i: int| !#[trigger] last_gate(evidence, name, i) by {
            if 0 <= i < evidence.len() {
                assert(evidence[i].name.text() != name);
            }
        }
    }
}

proof fn lemma_external(evidence: Seq<GateEvidence>, required: Seq<GateName>, n: int)
    requires
        0 <= n <= required.len(),
    ensures
        external_gates(evidence, required, n).len() == n,
        forall|i: int|
            0 <= i < n ==> #[trigger] external_gates(evidence, required, n)[i] == external_gate(
                evidence,
                required[i].text(),
            ),
    decreases n,
{
    if n > 0 {
        lemma_external(evidence, required, n - 1);
    }
}

/// How a metric in a stratum is named in a report: a primary metric has to show a useful
/// effect, a protected one no harm.
pub open spec fn row_name(metric: MetricPolicy, stratum: StratumPolicy) -> Seq<char> {
    (match metric.kind {
        MetricKind::Primary => "useful_effect:"@,
        MetricKind::Protected => "protected_noninferiority:"@,
    }) + metric.name.text() + ":"@ + stratum.name.text()
}

/// Whether a gate is that of a metric in a stratum: decided by their statistic, which stands
/// at the same place, or inconclusive without statistics.
pub open spec fn decides(
    gate: GateModel,
    statistics: Seq<StatisticModel>,
    place: int,
    cohort: EvaluationCohortSpec,
    pairs: Seq<AdaptiveTrialEvidence>,
    scored: bool,
    metric: MetricPolicy,
    stratum: StratumPolicy,
) -> bool {
    &&& gate.name == row_name(metric, stratum)
    &&& if scored {
        0 <= place < statistics.len() && metric_statistic(
            pairs,
            cohort_manifest(cohort),
            metric,
            stratum,
            cohort.scoring.adaptive_error_nanos_per_hypothesis,
        ) == Ok::<(StatisticModel, GateStatus), ScoringError>((statistics[place], gate.status))
    } else {
        gate.status == GateStatus::Inconclusive
    }
}

/// Whether one of some gates, from an index on, is that of a metric in a stratum.
#[verifier::opaque]
pub open spec fn is_decided(
    gates: Seq<GateModel>,
    from: int,
    statistics: Seq<StatisticModel>,
    cohort: EvaluationCohortSpec,
    pairs: Seq<AdaptiveTrialEvidence>,
    scored: bool,
    metric: MetricPolicy,
    stratum: StratumPolicy,
) -> bool {
    exists|g: int|
        from <= g < gates.len() && decides(
            #[trigger] gates[g],
            statistics,
            g - from,
            cohort,
            pairs,
            scored,
            metric,
            stratum,
        )
}

proof fn lemma_decided_grows(
    before: Rows,
    after: Rows,
    cohort: EvaluationCohortSpec,
    pairs: Seq<AdaptiveTrialEvidence>,
    scored: bool,
    metric: MetricPolicy,
    stratum: StratumPolicy,
)
    requires
        is_decided(before.gates, 0, before.statistics, cohort, pairs, scored, metric, stratum),
        before.gates.len() <= after.gates.len(),
        before.statistics.len() <= after.statistics.len(),
        forall|g: int| 0 <= g < before.gates.len() ==> #[trigger] after.gates[g] == before.gates[g],
        forall|g: int|
            0 <= g < before.statistics.len() ==> #[trigger] after.statistics[g]
                == before.statistics[g],
    ensures
        is_decided(after.gates, 0, after.statistics, cohort, pairs, scored, metric, stratum),
{
    reveal(is_decided);
    let g = choose|g: int|
        0 <= g < before.gates.len() && decides(
            #[trigger] before.gates[g],
            before.statistics,
            g - 0,
            cohort,
            pairs,
            scored,
            metric,
            stratum,
        );
    assert(decides(
        after.gates[g],
        after.statistics,
        g - 0,
        cohort,
        pairs,
        scored,
        metric,
        stratum,
    ));
}

spec fn metric_at(cohort: EvaluationCohortSpec, a: int) -> MetricPolicy {
    let metrics = cohort.scoring.metrics@;
    metrics[sorted(metrics, metrics.len() as int)[a]]
}

spec fn stratum_at(cohort: EvaluationCohortSpec, b: int) -> StratumPolicy {
    let strata = cohort.scoring.strata@;
    strata[sorted(strata, strata.len() as int)[b]]
}

spec fn done(m: int, s: int, width: int, a: int, b: int) -> bool {
    0 <= b < width && (0 <= a < m || a == m && b < s)
}

/// The rows of `rows_until`, where they can be made.
#[verifier::opaque]
spec fn rows_made(
    cohort: EvaluationCohortSpec,
    pairs: Seq<AdaptiveTrialEvidence>,
    scored: bool,
    m: int,
    s: int,
) -> Option<Rows> {
    match rows_until(cohort, cohort_manifest(cohort), pairs, scored, m, s) {
        Ok(rows) => Some(rows),
        Err(_) => None,
    }
}

/// Whether some rows are others with that of a metric in a stratum.
spec fn extends(
    before: Rows,
    after: Rows,
    cohort: EvaluationCohortSpec,
    pairs: Seq<AdaptiveTrialEvidence>,
    scored: bool,
    metric: MetricPolicy,
    stratum: StratumPolicy,
) -> bool {
    &&& after.gates.len() == before.gates.len() + 1
    &&& after.statistics.len() == before.statistics.len() + if scored {
        1int
    } else {
        0
    }
    &&& forall|g: int| 0 <= g < before.gates.len() ==> #[trigger] after.gates[g] == before.gates[g]
    &&& forall|g: int|
        0 <= g < before.statistics.len() ==> #[trigger] after.statistics[g] == before.statistics[g]
    &&& scored ==> before.statistics.len() == before.gates.len() ==> is_decided(
        after.gates,
        0,
        after.statistics,
        cohort,
        pairs,
        scored,
        metric,
        stratum,
    )
    &&& !scored ==> is_decided(
        after.gates,
        0,
        after.statistics,
        cohort,
        pairs,
        scored,
        metric,
        stratum,
    )
}

#[verifier::rlimit(60)]
proof fn lemma_next_row(
    cohort: EvaluationCohortSpec,
    pairs: Seq<AdaptiveTrialEvidence>,
    scored: bool,
    m: int,
    s: int,
)
    requires
        s > 0,
        rows_made(cohort, pairs, scored, m, s) is Some,
    ensures
        rows_made(cohort, pairs, scored, m, s - 1) is Some,
        extends(
            rows_made(cohort, pairs, scored, m, s - 1)->0,
            rows_made(cohort, pairs, scored, m, s)->0,
            cohort,
            pairs,
            scored,
            metric_at(cohort, m),
            stratum_at(cohort, s - 1),
        ),
{
    reveal(rows_made);
    let manifest = cohort_manifest(cohort);
    let before = rows_until(cohort, manifest, pairs, scored, m, s - 1)->Ok_0;
    let after = rows_until(cohort, manifest, pairs, scored, m, s)->Ok_0;
    let metric = metric_at(cohort, m);
    let stratum = stratum_at(cohort, s - 1);
    lemma_with_row(before, after, cohort, pairs, scored, metric, stratum);
}

#[verifier::rlimit(60)]
proof fn lemma_with_row(
    before: Rows,
    after: Rows,
    cohort: EvaluationCohortSpec,
    pairs: Seq<AdaptiveTrialEvidence>,
    scored: bool,
    metric: MetricPolicy,
    stratum: StratumPolicy,
)
    requires
        with_row(before, cohort, cohort_manifest(cohort), pairs, scored, metric, stratum) == Ok::<
            Rows,
            ScoringError,
        >(after),
    ensures
        extends(before, after, cohort, pairs, scored, metric, stratum),
{
    reveal(is_decided);
    let g = before.gates.len() as int;
    if !scored || before.statistics.len() == g {
        assert(decides(
            after.gates[g],
            after.statistics,
            g - 0,
            cohort,
            pairs,
            scored,
            metric,
            stratum,
        ));
    }
}

proof fn lemma_next_metric(
    cohort: EvaluationCohortSpec,
    pairs: Seq<AdaptiveTrialEvidence>,
    scored: bool,
    m: int,
)
    ensures
        m > 0 ==> rows_made(cohort, pairs, scored, m, 0) == rows_made(
            cohort,
            pairs,
            scored,
            m - 1,
            cohort.scoring.strata@.len() as int,
        ),
        m == 0 ==> rows_made(cohort, pairs, scored, m, 0) == Some(
            Rows { statistics: Seq::empty(), gates: Seq::empty() },
        ),
{
    reveal(rows_made);
}

proof fn lemma_rows(
    cohort: EvaluationCohortSpec,
    pairs: Seq<AdaptiveTrialEvidence>,
    scored: bool,
    m: int,
    s: int,
)
    requires
        0 <= m <= cohort.scoring.metrics@.len(),
        0 <= s <= cohort.scoring.strata@.len(),
        rows_made(cohort, pairs, scored, m, s) is Some,
    ensures
        ({
            let rows = rows_made(cohort, pairs, scored, m, s)->0;
            let width = cohort.scoring.strata@.len() as int;
            &&& rows.gates.len() == m * width + s
            &&& rows.statistics.len() == if scored {
                rows.gates.len()
            } else {
                0
            }
            &&& forall|a: int, b: int| #[trigger]
                done(m, s, width, a, b) ==> is_decided(
                    rows.gates,
                    0,
                    rows.statistics,
                    cohort,
                    pairs,
                    scored,
                    metric_at(cohort, a),
                    stratum_at(cohort, b),
                )
        }),
    decreases m, s,
{
    let width = cohort.scoring.strata@.len() as int;
    let rows = rows_made(cohort, pairs, scored, m, s)->0;
    if s > 0 {
        lemma_next_row(cohort, pairs, scored, m, s);
        lemma_rows(cohort, pairs, scored, m, s - 1);
        let before = rows_made(cohort, pairs, scored, m, s - 1)->0;
        assert forall|a: int, b: int| #[trigger] done(m, s, width, a, b) implies is_decided(
            rows.gates,
            0,
            rows.statistics,
            cohort,
            pairs,
            scored,
            metric_at(cohort, a),
            stratum_at(cohort, b),
        ) by {
            if !(a == m && b == s - 1) {
                assert(done(m, s - 1, width, a, b));
                lemma_decided_grows(
                    before,
                    rows,
                    cohort,
                    pairs,
                    scored,
                    metric_at(cohort, a),
                    stratum_at(cohort, b),
                );
            }
        }
    } else {
        lemma_next_metric(cohort, pairs, scored, m);
        if m > 0 {
            lemma_rows(cohort, pairs, scored, m - 1, width);
            assert((m - 1) * width + width == m * width) by (nonlinear_arith);
            assert forall|a: int, b: int| #[trigger] done(m, s, width, a, b) implies is_decided(
                rows.gates,
                0,
                rows.statistics,
                cohort,
                pairs,
                scored,
                metric_at(cohort, a),
                stratum_at(cohort, b),
            ) by {
                assert(done(m - 1, width, width, a, b));
            }
        }
    }
}

/// Whether a verdict is what gates together support: it is verified where all of them are,
/// inconclusive where one of them is, and otherwise not verified.
pub open spec fn supports(gates: Seq<GateModel>, verdict: AdaptiveVerdict) -> bool {
    &&& verdict == AdaptiveVerdict::Verified <==> forall|i: int|
        0 <= i < gates.len() ==> (#[trigger] gates[i]).status == GateStatus::Verified
    &&& verdict == AdaptiveVerdict::Inconclusive <==> exists|i: int|
        0 <= i < gates.len() && (#[trigger] gates[i]).status == GateStatus::Inconclusive
}

/// Whether a gate is the one with a name, and verified exactly where its condition holds.
pub open spec fn holds_where(
    gate: GateModel,
    name: Seq<char>,
    condition: bool,
    otherwise: GateStatus,
) -> bool {
    gate.name == name && gate.status == if condition {
        GateStatus::Verified
    } else {
        otherwise
    }
}

/// Whether an evaluation gets as far as statistics.
pub open spec fn is_scored(cohort: EvaluationCohortSpec, dataset: AdaptivePromotionDataset) -> bool {
    complete(cohort_manifest(cohort), dataset.pairs@) && undrifted(cohort, dataset) && powered(
        cohort,
    )
}

/// Whether a report gates what is asked of a candidate.
pub open spec fn gates_what_is_asked(
    cohort: EvaluationCohortSpec,
    dataset: AdaptivePromotionDataset,
    report: ReportModel,
) -> bool {
    let gates = report.gates;
    let required = cohort.scoring.required_hard_gates@;
    let n = required.len() as int;
    let pairs = dataset.pairs@;
    let whole = complete(cohort_manifest(cohort), pairs);
    let metrics = cohort.scoring.metrics@;
    let strata = cohort.scoring.strata@;
    &&& supports(gates, report.verdict)
    &&& gates.len() == 5 + n + metrics.len() * strata.len()
    &&& holds_where(gates[0], "data_completeness"@, whole, GateStatus::Inconclusive)
    &&& holds_where(
        gates[1],
        "pairing_integrity"@,
        undrifted(cohort, dataset),
        GateStatus::Inconclusive,
    )
    &&& forall|k: int|
        0 <= k < n ==> {
            let gate = gates[2 + k];
            &&& gate.name == (#[trigger] required[k]).text()
            &&& gate.status == hard_status(
                dataset.hard_gate_evidence@,
                required[k].text(),
                dataset.hard_gate_evidence@.len() as int,
            )
        }
    &&& gates[2 + n].name == "correctness"@
    &&& gates[2 + n].status == if !whole {
        GateStatus::Inconclusive
    } else if forall|i: int| 0 <= i < pairs.len() ==> !fails(#[trigger] pairs[i]) {
        GateStatus::Verified
    } else {
        GateStatus::NotVerified
    }
    &&& gates[3 + n].name == "critical_cases"@
    &&& gates[3 + n].status == if !whole {
        GateStatus::Inconclusive
    } else if forall|i: int|
        0 <= i < pairs.len() ==> !(fails(#[trigger] pairs[i])
            && cohort.scoring.critical_cases@.contains(pairs[i].spec.case.0)) {
        GateStatus::Verified
    } else {
        GateStatus::NotVerified
    }
    &&& holds_where(
        gates[4 + n],
        "minimum_power"@,
        powered(cohort),
        GateStatus::Inconclusive,
    )
    &&& forall|m: int, s: int|
        0 <= m < metrics.len() && 0 <= s < strata.len() ==> is_decided(
            gates,
            5 + n,
            report.statistics,
            cohort,
            pairs,
            is_scored(cohort, dataset),
            #[trigger] metrics[m],
            #[trigger] strata[s],
        )
    &&& report.statistics.len() == if is_scored(cohort, dataset) {
        metrics.len() * strata.len()
    } else {
        0
    }
}

/// A report that the ledger has paid for has one gate for each thing that is asked of a
/// candidate, and its verdict is what they together support. Data is complete where every
/// frozen repeat has usable evidence, and pairs are sound where they were run on what the
/// cohort froze. Each required gate is what its last evidence found. A candidate is correct
/// where it fails nowhere, and its critical cases where it fails in none of them. Each metric
/// has a gate in each stratum, decided by its statistic where there is one.
#[verifier::rlimit(60)]
pub proof fn law_reports_gate_what_is_asked(
    cohort: EvaluationCohortSpec,
    campaign: CampaignId,
    round: RoundId,
    dataset: AdaptivePromotionDataset,
    ledger: LedgerStatus,
    coordinates: DecisionCoordinates,
    report: ReportModel,
)
    requires
        evaluated(cohort, campaign, round, dataset, ledger, coordinates) == Ok::<
            ReportModel,
            ScoringError,
        >(report),
        ledger_reserved(cohort, ledger)->Ok_0.query_debit > 0,
    ensures
        gates_what_is_asked(cohort, dataset, report),
{
    let manifest = cohort_manifest(cohort);
    let counts = counted(cohort, manifest, dataset);
    let matches = dataset.adaptive_partition.commitment == cohort.partitions.adaptive_promotion;
    let scored = scorable(cohort, manifest, counts, matches);
    let rows = rows_made(
        cohort,
        dataset.pairs@,
        scored,
        cohort.scoring.metrics@.len() as int,
        0,
    )->0;
    reveal(rows_made);
    lemma_gates(cohort, campaign, dataset, rows, report);
}

#[verifier::rlimit(60)]
proof fn lemma_gates(
    cohort: EvaluationCohortSpec,
    campaign: CampaignId,
    dataset: AdaptivePromotionDataset,
    rows: Rows,
    report: ReportModel,
)
    requires
        first_some(
            pair_check(cohort_manifest(cohort), campaign, dataset),
            dataset.pairs@.len() as int,
        ) is None,
        ({
            let manifest = cohort_manifest(cohort);
            let counts = counted(cohort, manifest, dataset);
            let matches = dataset.adaptive_partition.commitment
                == cohort.partitions.adaptive_promotion;
            &&& rows_made(
                cohort,
                dataset.pairs@,
                scorable(cohort, manifest, counts, matches),
                cohort.scoring.metrics@.len() as int,
                0,
            ) == Some(rows)
            &&& report.gates == leading_gates(cohort, manifest, dataset, counts, matches)
                + rows.gates
        }),
        report.statistics == rows.statistics,
        report.verdict == combined(report.gates),
    ensures
        gates_what_is_asked(cohort, dataset, report),
{
    let manifest = cohort_manifest(cohort);
    let counts = counted(cohort, manifest, dataset);
    let pairs = dataset.pairs@;
    let evidence = dataset.hard_gate_evidence@;
    let required = cohort.scoring.required_hard_gates@;
    let n = required.len() as int;
    let metrics = cohort.scoring.metrics@;
    let strata = cohort.scoring.strata@;
    let matches = dataset.adaptive_partition.commitment == cohort.partitions.adaptive_promotion;
    lemma_complete(cohort, dataset);
    lemma_undrifted(cohort, campaign, dataset);
    lemma_underpowered(
        manifest,
        strata,
        cohort.scoring.minimum_complete_blocks,
        strata.len() as int,
    );
    let scored = scorable(cohort, manifest, counts, matches);
    assert(scored == is_scored(cohort, dataset));
    lemma_rows(cohort, pairs, scored, metrics.len() as int, 0);
    lemma_external(evidence, required, n);
    let lead = leading_gates(cohort, manifest, dataset, counts, matches);
    let gates = lead + rows.gates;
    assert(lead.len() == 5 + n);
    assert forall|k: int| 0 <= k < n implies {
        let gate = gates[2 + k];
        &&& gate.name == (#[trigger] required[k]).text()
        &&& gate.status == hard_status(evidence, required[k].text(), evidence.len() as int)
    } by {
        assert(gates[2 + k] == external_gates(evidence, required, n)[k]);
        lemma_hard_status(evidence, required[k].text(), evidence.len() as int);
    }
    assert forall|m: int, s: int| 0 <= m < metrics.len() && 0 <= s < strata.len() implies is_decided(
        gates,
        5 + n,
        report.statistics,
        cohort,
        pairs,
        scored,
        #[trigger] metrics[m],
        #[trigger] strata[s],
    ) by {
        lemma_sorted_holds(metrics, metrics.len() as int, m);
        lemma_sorted_holds(strata, strata.len() as int, s);
        let a = choose|a: int|
            0 <= a < sorted(metrics, metrics.len() as int).len() && sorted(
                metrics,
                metrics.len() as int,
            )[a] == m;
        let b = choose|b: int|
            0 <= b < sorted(strata, strata.len() as int).len() && sorted(
                strata,
                strata.len() as int,
            )[b] == s;
        lemma_sorted_indexes(metrics, metrics.len() as int);
        lemma_sorted_indexes(strata, strata.len() as int);
        assert(done(metrics.len() as int, 0, strata.len() as int, a, b));
        assert(metric_at(cohort, a) == metrics[m] && stratum_at(cohort, b) == strata[s]);
        reveal(is_decided);
        let g = choose|g: int|
            0 <= g < rows.gates.len() && decides(
                #[trigger] rows.gates[g],
                rows.statistics,
                g - 0,
                cohort,
                pairs,
                scored,
                metrics[m],
                strata[s],
            );
        assert(gates[5 + n + g] == rows.gates[g]);
    }
    lemma_supports(gates);
}

proof fn lemma_supports(gates: Seq<GateModel>)
    ensures
        supports(gates, combined(gates)),
{
    if exists|i: int| 0 <= i < gates.len() && (#[trigger] gates[i]).status
        == GateStatus::Inconclusive {
        let i = choose|i: int|
            0 <= i < gates.len() && (#[trigger] gates[i]).status == GateStatus::Inconclusive;
        assert(gates[i].status != GateStatus::Verified);
    } else if exists|i: int| 0 <= i < gates.len() && (#[trigger] gates[i]).status
        == GateStatus::NotVerified {
        let i = choose|i: int|
            0 <= i < gates.len() && (#[trigger] gates[i]).status == GateStatus::NotVerified;
        assert(gates[i].status != GateStatus::Verified);
    } else {
        assert forall|i: int| 0 <= i < gates.len() implies (#[trigger] gates[i]).status
            == GateStatus::Verified by {
            assert(gates[i].status != GateStatus::Inconclusive && gates[i].status
                != GateStatus::NotVerified);
        }
    }
}

/// Whether the mean effect over the blocks of a statistic is beyond the margin of a metric.
pub open spec fn beats_margin(
    statistic: StatisticModel,
    pairs: Seq<AdaptiveTrialEvidence>,
    manifest: Seq<ManifestEntry>,
    metric: MetricPolicy,
    stratum: StratumPolicy,
) -> bool {
    let blocks = blocks_shown(statistic);
    let effect = average(
        block_gains(pairs, manifest, stratum.cases@, metric.name.text(), blocks, 0 as real),
        blocks.len() as int,
    );
    let margin = metric.margin.spec_millionths() as real / 1000000 as real;
    match metric.kind {
        MetricKind::Primary => effect > margin,
        MetricKind::Protected => effect > -margin,
    }
}

/// A candidate is verified only where, in every stratum, its primary metric gains more than
/// its margin on the mean over the blocks and every protected one loses less than its own, and
/// where it fails in no pair.
#[verifier::rlimit(60)]
pub proof fn law_verified_candidates_beat_every_margin(
    cohort: EvaluationCohortSpec,
    campaign: CampaignId,
    round: RoundId,
    dataset: AdaptivePromotionDataset,
    ledger: LedgerStatus,
    coordinates: DecisionCoordinates,
    report: ReportModel,
    m: int,
    s: int,
) -> (h: int)
    requires
        evaluated(cohort, campaign, round, dataset, ledger, coordinates) == Ok::<
            ReportModel,
            ScoringError,
        >(report),
        report.verdict == AdaptiveVerdict::Verified,
        strata_repeated(cohort),
        0 <= m < cohort.scoring.metrics@.len(),
        0 <= s < cohort.scoring.strata@.len(),
    ensures
        0 <= h < report.statistics.len(),
        report.statistics[h].metric == cohort.scoring.metrics@[m].name.text(),
        report.statistics[h].stratum == cohort.scoring.strata@[s].name.text(),
        beats_margin(
            report.statistics[h],
            dataset.pairs@,
            cohort_manifest(cohort),
            cohort.scoring.metrics@[m],
            cohort.scoring.strata@[s],
        ),
        forall|i: int| 0 <= i < dataset.pairs@.len() ==> !fails(#[trigger] dataset.pairs@[i]),
{
    let manifest = cohort_manifest(cohort);
    let metric = cohort.scoring.metrics@[m];
    let stratum = cohort.scoring.strata@[s];
    let pairs = dataset.pairs@;
    let n = cohort.scoring.required_hard_gates@.len() as int;
    law_reports_gate_what_is_asked(cohort, campaign, round, dataset, ledger, coordinates, report);
    let gates = report.gates;
    assert(gates[0].status == GateStatus::Verified);
    assert(gates[1].status == GateStatus::Verified);
    assert(gates[2 + n].status == GateStatus::Verified);
    assert(gates[4 + n].status == GateStatus::Verified);
    assert(is_scored(cohort, dataset));
    reveal(is_decided);
    let g = choose|g: int|
        5 + n <= g < gates.len() && decides(
            #[trigger] gates[g],
            report.statistics,
            g - (5 + n),
            cohort,
            pairs,
            true,
            metric,
            stratum,
        );
    assert(gates[g].status == GateStatus::Verified);
    let h = g - (5 + n);
    lemma_complete(cohort, dataset);
    lemma_pairs_sound(manifest, campaign, dataset);
    lemma_manifest_unique(cohort.blocks@, cohort.blocks@.len() as int);
    lemma_all_strata(cohort, manifest, dataset);
    law_statistics_are_exact(
        pairs,
        manifest,
        metric,
        stratum,
        cohort.scoring.adaptive_error_nanos_per_hypothesis,
        report.statistics[h],
        GateStatus::Verified,
    );
    h
}

/// An evaluation that the ledger does not pay for is inconclusive, has no statistics and takes
/// nothing. One that it pays for takes one query for each hypothesis and its error, within the
/// limits.
pub proof fn law_evaluations_are_paid_for(
    cohort: EvaluationCohortSpec,
    campaign: CampaignId,
    round: RoundId,
    dataset: AdaptivePromotionDataset,
    ledger: LedgerStatus,
    coordinates: DecisionCoordinates,
    report: ReportModel,
)
    requires
        evaluated(cohort, campaign, round, dataset, ledger, coordinates) == Ok::<
            ReportModel,
            ScoringError,
        >(report),
    ensures
        ({
            let family = cohort.scoring.multiplicity_family;
            let queries = family.metrics * family.strata;
            let nanos = queries * cohort.scoring.adaptive_error_nanos_per_hypothesis;
            let spent = report.ledger;
            &&& spent.before == ledger
            &&& spent.after.query_limit == ledger.query_limit
            &&& spent.after.error_limit_nanos == ledger.error_limit_nanos
            &&& spent.after.query_used == ledger.query_used + spent.query_debit
            &&& spent.after.error_used_nanos == ledger.error_used_nanos + spent.error_nanos_debit
            &&& if ledger.query_used + queries <= ledger.query_limit && ledger.error_used_nanos
                + nanos <= ledger.error_limit_nanos {
                spent.query_debit == queries && spent.error_nanos_debit == nanos
            } else {
                &&& spent.query_debit == 0 && spent.error_nanos_debit == 0
                &&& report.verdict == AdaptiveVerdict::Inconclusive
                &&& report.statistics.len() == 0
            }
        }),
        report.candidate == dataset.candidate,
        report.cohort == cohort.id,
        report.campaign == campaign,
        report.round == round,
        report.coordinates == coordinates,
        report.production_activation == AdaptiveVerdict::Inconclusive,
{
}

} // verus!
