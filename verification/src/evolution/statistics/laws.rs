//! What the paired statistics of a candidate mean: effects are differences of scores, means
//! are means, and a metric passes only beyond its margin.
use crate::digest::Digest;
use crate::digest_set::{ascending_of, digests_ascend, lemma_ascending_of_exists};
use crate::evolution::ids::CaseIdentity;
use crate::evolution::statistics::policy::{
    blocks_of, case_at, entry_of, ManifestEntry, MetricKind, MetricPolicy, ScoringError,
    StratumPolicy,
};
use crate::evolution::statistics::rational::{at_least, lowest, mean, zero, Fraction};
use crate::evolution::statistics::report::{
    AdaptiveTrialEvidence, ExactEffect, GateStatus, StatisticModel,
};
use crate::evolution::statistics::score::{
    adjusted_all, block_means, block_values, case_complete, case_means, effect_of, entries_of,
    greatest, has_pair, least, metric_statistic, pair_at, pair_of, pairs_unique, repeat_effect,
    repeats_total, score_of, stratum_complete,
};
use crate::evolution::statistics::worth::{
    law_p_values_count_sign_patterns, lemma_at_least, lemma_lowest, lemma_mean, lemma_minus,
    lemma_over, lemma_plus, lemma_reaching_same, lemma_sign, lemma_total_same, noted, proper,
    reaching, total, worth, worths,
};
use crate::evolution::trial::{BehavioralTrialOutcome, PairedTrialEvidence};
use crate::text_map::value_of;
use vstd::arithmetic::power2::pow2;
use vstd::prelude::*;

verus! {

/// The points of an outcome in a metric: a share of one, and nothing for a failure.
pub open spec fn points(outcome: BehavioralTrialOutcome, metric: Seq<char>) -> real {
    match outcome {
        BehavioralTrialOutcome::BehavioralFailure { .. } => 0 as real,
        BehavioralTrialOutcome::Pass { metrics } => (value_of(
            metrics@,
            metric,
        )->0).spec_millionths() as real / 1000000 as real,
    }
}

/// The evidence of a repeat of a case.
pub open spec fn run(pairs: Seq<AdaptiveTrialEvidence>, case: CaseIdentity, repeat: int) ->
    PairedTrialEvidence {
    pairs[choose|i: int|
        0 <= i < pairs.len() && (#[trigger] pairs[i]).spec.case == case && pairs[i].spec.repeat
            == repeat].evidence
}

/// How many points the candidate has more than its parent in a repeat of a case.
pub open spec fn gain(
    pairs: Seq<AdaptiveTrialEvidence>,
    case: CaseIdentity,
    metric: Seq<char>,
    repeat: int,
) -> real {
    match run(pairs, case, repeat) {
        PairedTrialEvidence::Usable(receipt) => points(receipt.candidate, metric) - points(
            receipt.parent,
            metric,
        ),
        PairedTrialEvidence::InfrastructureUnknown(_) => 0 as real,
    }
}

/// The gain in each repeat of a case.
pub open spec fn gains(
    pairs: Seq<AdaptiveTrialEvidence>,
    case: CaseIdentity,
    metric: Seq<char>,
) -> spec_fn(int) -> real {
    |repeat: int| gain(pairs, case, metric, repeat)
}

/// What is frozen for a case.
pub open spec fn frozen(manifest: Seq<ManifestEntry>, case: CaseIdentity) -> ManifestEntry {
    manifest[choose|i: int| 0 <= i < manifest.len() && (#[trigger] manifest[i]).case == case]
}

/// The mean gain over the repeats of a case.
pub open spec fn case_gain(
    pairs: Seq<AdaptiveTrialEvidence>,
    manifest: Seq<ManifestEntry>,
    case: CaseIdentity,
    metric: Seq<char>,
) -> real {
    total(gains(pairs, case, metric), frozen(manifest, case).repeats as int) / frozen(
        manifest,
        case,
    ).repeats as real
}

/// The gains of the cases that belong to a block, and nothing for the others.
pub open spec fn gains_in(
    pairs: Seq<AdaptiveTrialEvidence>,
    manifest: Seq<ManifestEntry>,
    cases: Seq<CaseIdentity>,
    metric: Seq<char>,
    block: Digest,
) -> spec_fn(int) -> real {
    |i: int|
        if frozen(manifest, cases[i]).block.0 == block {
            case_gain(pairs, manifest, cases[i], metric)
        } else {
            0 as real
        }
}

/// One for each case that belongs to a block.
pub open spec fn ones_in(
    manifest: Seq<ManifestEntry>,
    cases: Seq<CaseIdentity>,
    block: Digest,
) -> spec_fn(int) -> real {
    |i: int|
        if frozen(manifest, cases[i]).block.0 == block {
            1 as real
        } else {
            0 as real
        }
}

/// The mean gain over the cases of a block.
pub open spec fn block_gain(
    pairs: Seq<AdaptiveTrialEvidence>,
    manifest: Seq<ManifestEntry>,
    cases: Seq<CaseIdentity>,
    metric: Seq<char>,
    block: Digest,
) -> real {
    total(gains_in(pairs, manifest, cases, metric, block), cases.len() as int) / total(
        ones_in(manifest, cases, block),
        cases.len() as int,
    )
}

/// The mean gain of each of some blocks, and what is added to it.
pub open spec fn block_gains(
    pairs: Seq<AdaptiveTrialEvidence>,
    manifest: Seq<ManifestEntry>,
    cases: Seq<CaseIdentity>,
    metric: Seq<char>,
    blocks: Seq<Digest>,
    more: real,
) -> spec_fn(int) -> real {
    |i: int| block_gain(pairs, manifest, cases, metric, blocks[i]) + more
}

/// What a margin adds to an effect: a primary metric has to gain more than it, a protected
/// one may lose less.
pub open spec fn allowance(metric: MetricPolicy) -> real {
    match metric.kind {
        MetricKind::Primary => -(metric.margin.spec_millionths() as real / 1000000 as real),
        MetricKind::Protected => metric.margin.spec_millionths() as real / 1000000 as real,
    }
}

/// Whether an effect notes a value: its numerator over a denominator of which it holds the
/// low 64 bits.
pub open spec fn shows(effect: ExactEffect, value: real) -> bool {
    exists|d: int|
        0 < d && #[trigger] low_bits(d) == effect.denominator && effect.numerator as real == value
            * d as real
}

/// The low 64 bits of a number.
pub open spec fn low_bits(d: int) -> int {
    d % 0x1_0000_0000_0000_0000
}

/// Whether each case is frozen once.
pub open spec fn well_frozen(manifest: Seq<ManifestEntry>) -> bool {
    forall|i: int, j: int|
        0 <= i < j < manifest.len() ==> (#[trigger] manifest[i]).case != (
        #[trigger] manifest[j]).case
}

proof fn lemma_shows(value: Fraction)
    requires
        value.denominator > 0,
        -i128::MAX <= value.numerator <= i128::MAX,
    ensures
        shows(effect_of(value), worth(value)),
{
    let d = value.denominator;
    let e = effect_of(value);
    assert(low_bits(d) == e.denominator);
    let n = value.numerator as real;
    let q = d as real;
    assert(n == (n / q) * q) by (nonlinear_arith)
        requires
            q > 0 as real,
    ;
    assert(0 < d && low_bits(d) == e.denominator && e.numerator as real == worth(value)
        * d as real);
}

proof fn lemma_frozen(manifest: Seq<ManifestEntry>, case: CaseIdentity)
    requires
        well_frozen(manifest),
        entry_of(manifest, case) is Some,
    ensures
        entry_of(manifest, case)->0 == frozen(manifest, case),
        frozen(manifest, case).case == case,
{
    let i = choose|i: int| case_at(manifest, case, i);
    assert(case_at(manifest, case, i));
    assert(manifest[i].case == case);
    let j = choose|j: int| 0 <= j < manifest.len() && (#[trigger] manifest[j]).case == case;
    assert(manifest[j].case == case);
}

proof fn lemma_run(pairs: Seq<AdaptiveTrialEvidence>, case: CaseIdentity, repeat: int)
    requires
        pairs_unique(pairs),
        has_pair(pairs, case, repeat),
    ensures
        pair_of(pairs, case, repeat).evidence == run(pairs, case, repeat),
{
    let i = choose|i: int| pair_at(pairs, case, repeat, i);
    assert(pair_at(pairs, case, repeat, i));
    assert(pairs[i].spec.case == case && pairs[i].spec.repeat == repeat);
    let j = choose|j: int|
        0 <= j < pairs.len() && (#[trigger] pairs[j]).spec.case == case && pairs[j].spec.repeat
            == repeat;
    assert(pairs[j].spec.case == case && pairs[j].spec.repeat == repeat);
}

proof fn lemma_zero()
    ensures
        worth(zero()) == 0 as real,
        zero().denominator > 0,
{
    assert(0 as real / 1 as real == 0 as real) by (nonlinear_arith);
}

proof fn lemma_points(outcome: BehavioralTrialOutcome, metric: Seq<char>)
    requires
        score_of(outcome, metric) is Ok,
    ensures
        (score_of(outcome, metric)->Ok_0).denominator > 0,
        worth(score_of(outcome, metric)->Ok_0) == points(outcome, metric),
{
    lemma_zero();
    match outcome {
        BehavioralTrialOutcome::BehavioralFailure { .. } => {},
        BehavioralTrialOutcome::Pass { metrics } => {
            lemma_lowest((value_of(metrics@, metric)->0).spec_millionths() as int, 1000000);
        },
    }
}

/// The effect of a repeat is what the candidate scores above its parent, and is owed wherever
/// both have a score.
pub proof fn law_effects_are_differences_of_scores(
    evidence: PairedTrialEvidence,
    metric: Seq<char>,
)
    requires
        evidence is Usable,
        repeat_effect(evidence, metric) is Ok,
    ensures
        (repeat_effect(evidence, metric)->Ok_0).denominator > 0,
        worth(repeat_effect(evidence, metric)->Ok_0) == points(
            evidence->Usable_0.candidate,
            metric,
        ) - points(evidence->Usable_0.parent, metric),
{
    let receipt = evidence->Usable_0;
    lemma_points(receipt.candidate, metric);
    lemma_points(receipt.parent, metric);
    lemma_minus(score_of(receipt.candidate, metric)->Ok_0, score_of(receipt.parent, metric)->Ok_0);
}

proof fn lemma_repeats(
    pairs: Seq<AdaptiveTrialEvidence>,
    case: CaseIdentity,
    metric: Seq<char>,
    repeats: int,
    n: int,
)
    requires
        pairs_unique(pairs),
        case_complete(pairs, case, repeats),
        0 <= n <= repeats,
        repeats_total(pairs, case, metric, n) is Ok,
    ensures
        (repeats_total(pairs, case, metric, n)->Ok_0).denominator > 0,
        worth(repeats_total(pairs, case, metric, n)->Ok_0) == total(gains(pairs, case, metric), n),
    decreases n,
{
    lemma_zero();
    if n > 0 {
        lemma_repeats(pairs, case, metric, repeats, n - 1);
        assert(has_pair(pairs, case, n - 1));
        let evidence = pair_of(pairs, case, n - 1).evidence;
        lemma_run(pairs, case, n - 1);
        law_effects_are_differences_of_scores(evidence, metric);
        lemma_plus(
            repeats_total(pairs, case, metric, n - 1)->Ok_0,
            repeat_effect(evidence, metric)->Ok_0,
        );
        assert(gains(pairs, case, metric)(n - 1) == gain(pairs, case, metric, n - 1));
    }
}

proof fn lemma_case_means(
    pairs: Seq<AdaptiveTrialEvidence>,
    manifest: Seq<ManifestEntry>,
    cases: Seq<CaseIdentity>,
    metric: Seq<char>,
    n: int,
)
    requires
        pairs_unique(pairs),
        well_frozen(manifest),
        stratum_complete(pairs, manifest, cases),
        0 <= n <= cases.len(),
        case_means(pairs, manifest, cases, metric, n) is Ok,
    ensures
        ({
            let means = case_means(pairs, manifest, cases, metric, n)->Ok_0;
            &&& means.len() == n
            &&& proper(means)
            &&& noted(means)
            &&& forall|i: int|
                0 <= i < n ==> worth(#[trigger] means[i]) == case_gain(
                    pairs,
                    manifest,
                    cases[i],
                    metric,
                )
        }),
    decreases n,
{
    if n > 0 {
        lemma_case_means(pairs, manifest, cases, metric, n - 1);
        let case = cases[n - 1];
        let repeats = entry_of(manifest, case)->0.repeats as int;
        lemma_frozen(manifest, case);
        lemma_repeats(pairs, case, metric, repeats, repeats);
        lemma_over(repeats_total(pairs, case, metric, repeats)->Ok_0, repeats);
        let before = case_means(pairs, manifest, cases, metric, n - 1)->Ok_0;
        let means = case_means(pairs, manifest, cases, metric, n)->Ok_0;
        assert forall|i: int| 0 <= i < n implies (#[trigger] means[i]).denominator > 0
            && -i128::MAX <= means[i].numerator <= i128::MAX && worth(means[i]) == case_gain(pairs, manifest, cases[i], metric) by {
            if i < n - 1 {
                assert(means[i] == before[i]);
            }
        }
    }
}

proof fn lemma_block_values(
    pairs: Seq<AdaptiveTrialEvidence>,
    manifest: Seq<ManifestEntry>,
    cases: Seq<CaseIdentity>,
    metric: Seq<char>,
    effects: Seq<Fraction>,
    block: Digest,
    n: int,
)
    requires
        well_frozen(manifest),
        forall|i: int| 0 <= i < cases.len() ==> entry_of(manifest, #[trigger] cases[i]) is Some,
        effects.len() == cases.len(),
        proper(effects),
        forall|i: int|
            0 <= i < cases.len() ==> worth(#[trigger] effects[i]) == case_gain(
                pairs,
                manifest,
                cases[i],
                metric,
            ),
        0 <= n <= cases.len(),
    ensures
        ({
            let values = block_values(entries_of(manifest, cases), effects, block, n);
            &&& proper(values)
            &&& values.len() as real == total(ones_in(manifest, cases, block), n)
            &&& total(worths(values), values.len() as int) == total(
                gains_in(pairs, manifest, cases, metric, block),
                n,
            )
            &&& (exists|i: int| 0 <= i < n && (#[trigger] entries_of(manifest, cases)[i]).block.0
                == block) ==> values.len() > 0
        }),
    decreases n,
{
    let entries = entries_of(manifest, cases);
    if n > 0 {
        lemma_block_values(pairs, manifest, cases, metric, effects, block, n - 1);
        lemma_frozen(manifest, cases[n - 1]);
        assert(entries[n - 1] == frozen(manifest, cases[n - 1]));
        let before = block_values(entries, effects, block, n - 1);
        let values = block_values(entries, effects, block, n);
        assert(ones_in(manifest, cases, block)(n - 1) == if entries[n - 1].block.0 == block {
            1 as real
        } else {
            0 as real
        });
        assert(gains_in(pairs, manifest, cases, metric, block)(n - 1) == if entries[n
            - 1].block.0 == block {
            worth(effects[n - 1])
        } else {
            0 as real
        });
        if entries[n - 1].block.0 == block {
            assert forall|i: int| 0 <= i < values.len() implies (
            #[trigger] values[i]).denominator > 0 by {
                if i < before.len() {
                    assert(values[i] == before[i]);
                } else {
                    assert(values[i] == effects[n - 1]);
                }
            }
            assert forall|i: int| 0 <= i < before.len() implies #[trigger] worths(values)(i)
                == worths(before)(i) by {
                assert(values[i] == before[i]);
            }
            lemma_total_same(worths(values), worths(before), before.len() as int);
            assert(worths(values)(before.len() as int) == worth(effects[n - 1]));
        }
    }
}

proof fn lemma_block_means(
    pairs: Seq<AdaptiveTrialEvidence>,
    manifest: Seq<ManifestEntry>,
    cases: Seq<CaseIdentity>,
    metric: Seq<char>,
    effects: Seq<Fraction>,
    blocks: Seq<Digest>,
    n: int,
)
    requires
        well_frozen(manifest),
        forall|i: int| 0 <= i < cases.len() ==> entry_of(manifest, #[trigger] cases[i]) is Some,
        effects.len() == cases.len(),
        proper(effects),
        forall|i: int|
            0 <= i < cases.len() ==> worth(#[trigger] effects[i]) == case_gain(
                pairs,
                manifest,
                cases[i],
                metric,
            ),
        blocks.to_set() == blocks_of(entries_of(manifest, cases)).to_set(),
        0 <= n <= blocks.len(),
        block_means(entries_of(manifest, cases), effects, blocks, n) is Some,
    ensures
        ({
            let means = block_means(entries_of(manifest, cases), effects, blocks, n)->0;
            &&& means.len() == n
            &&& proper(means)
            &&& noted(means)
            &&& forall|i: int|
                0 <= i < n ==> worth(#[trigger] means[i]) == block_gain(
                    pairs,
                    manifest,
                    cases,
                    metric,
                    blocks[i],
                )
        }),
    decreases n,
{
    let entries = entries_of(manifest, cases);
    if n > 0 {
        lemma_block_means(pairs, manifest, cases, metric, effects, blocks, n - 1);
        let block = blocks[n - 1];
        let m = cases.len() as int;
        lemma_block_values(pairs, manifest, cases, metric, effects, block, m);
        assert(blocks.to_set().contains(block));
        assert(blocks_of(entries).contains(block));
        let k = choose|k: int| 0 <= k < blocks_of(entries).len() && blocks_of(entries)[k] == block;
        assert(entries[k].block.0 == block);
        lemma_mean(block_values(entries, effects, block, m));
        let before = block_means(entries, effects, blocks, n - 1)->0;
        let means = block_means(entries, effects, blocks, n)->0;
        assert forall|i: int| 0 <= i < n implies (#[trigger] means[i]).denominator > 0
            && -i128::MAX <= means[i].numerator <= i128::MAX && worth(means[i]) == block_gain(pairs, manifest, cases, metric, blocks[i]) by {
            if i < n - 1 {
                assert(means[i] == before[i]);
            }
        }
    }
}

proof fn lemma_adjusted(metric: MetricPolicy, values: Seq<Fraction>, n: int)
    requires
        proper(values),
        0 <= n <= values.len(),
        adjusted_all(
            metric.kind,
            lowest(metric.margin.spec_millionths() as int, 1000000),
            values,
            n,
        ) is Some,
    ensures
        ({
            let shifted = adjusted_all(
                metric.kind,
                lowest(metric.margin.spec_millionths() as int, 1000000),
                values,
                n,
            )->0;
            &&& shifted.len() == n
            &&& proper(shifted)
            &&& forall|i: int|
                0 <= i < n ==> worth(#[trigger] shifted[i]) == worth(values[i]) + allowance(metric)
        }),
    decreases n,
{
    let margin = lowest(metric.margin.spec_millionths() as int, 1000000);
    lemma_lowest(metric.margin.spec_millionths() as int, 1000000);
    if n > 0 {
        lemma_adjusted(metric, values, n - 1);
        assert(values[n - 1].denominator > 0);
        match metric.kind {
            MetricKind::Primary => {
                lemma_minus(values[n - 1], margin);
            },
            MetricKind::Protected => {
                lemma_plus(values[n - 1], margin);
            },
        }
        let before = adjusted_all(metric.kind, margin, values, n - 1)->0;
        let shifted = adjusted_all(metric.kind, margin, values, n)->0;
        assert forall|i: int| 0 <= i < n implies (#[trigger] shifted[i]).denominator > 0 && worth(
            shifted[i],
        ) == worth(values[i]) + allowance(metric) by {
            if i < n - 1 {
                assert(shifted[i] == before[i]);
            }
        }
    }
}

proof fn lemma_total_shifted(
    a: spec_fn(int) -> real,
    b: spec_fn(int) -> real,
    more: real,
    n: int,
)
    requires
        0 <= n,
        forall|i: int| 0 <= i < n ==> #[trigger] b(i) == a(i) + more,
    ensures
        total(b, n) == total(a, n) + n as real * more,
    decreases n,
{
    if n > 0 {
        lemma_total_shifted(a, b, more, n - 1);
        assert(b(n - 1) == a(n - 1) + more);
        let m = (n - 1) as real;
        assert((m + 1 as real) * more == m * more + more) by (nonlinear_arith);
        assert(n as real == m + 1 as real);
    } else {
        assert(0 as real * more == 0 as real) by (nonlinear_arith);
    }
}

proof fn lemma_extreme_values(values: Seq<Fraction>, n: int)
    requires
        proper(values),
        1 <= n <= values.len(),
    ensures
        least(values, n) matches Some(low) ==> low.denominator > 0 && (exists|i: int|
            0 <= i < n && #[trigger] values[i] == low) && forall|i: int|
            0 <= i < n ==> worth(low) <= worth(#[trigger] values[i]),
        greatest(values, n) matches Some(high) ==> high.denominator > 0 && (exists|i: int|
            0 <= i < n && #[trigger] values[i] == high) && forall|i: int|
            0 <= i < n ==> worth(high) >= worth(#[trigger] values[i]),
    decreases n,
{
    if n > 1 {
        lemma_extreme_values(values, n - 1);
        assert(values[n - 1].denominator > 0);
        if let Some(low) = least(values, n - 1) {
            if at_least(values[n - 1], low) is Some {
                lemma_at_least(values[n - 1], low);
            }
        }
        if let Some(high) = greatest(values, n - 1) {
            if at_least(values[n - 1], high) is Some {
                lemma_at_least(values[n - 1], high);
            }
        }
    } else {
        assert(values[0].denominator > 0);
    }
}

/// The blocks that a statistic has effects of.
pub open spec fn blocks_shown(statistic: StatisticModel) -> Seq<Digest> {
    Seq::new(statistic.block_effects.len(), |i: int| statistic.block_effects[i].block.0)
}

/// The mean of the first `n` terms.
pub open spec fn average(term: spec_fn(int) -> real, n: int) -> real {
    total(term, n) / n as real
}

/// The statistic of a metric in a stratum is exact: the effect of a case is the mean gain of
/// the candidate over its parent, that of a block the mean over its cases, the observed effect
/// the mean over the blocks, and the adjusted effect that with the margin of the metric taken
/// off or granted. The least and the greatest block effect bound them all. The p-value is the
/// share of sign patterns of the adjusted block effects that reach their sum, and the metric
/// passes exactly where the adjusted effect is positive and the p-value within the error that
/// a hypothesis is allotted.
pub proof fn law_statistics_are_exact(
    pairs: Seq<AdaptiveTrialEvidence>,
    manifest: Seq<ManifestEntry>,
    metric: MetricPolicy,
    stratum: StratumPolicy,
    error_nanos: u64,
    statistic: StatisticModel,
    status: GateStatus,
)
    requires
        pairs_unique(pairs),
        well_frozen(manifest),
        stratum.cases@.len() > 0,
        stratum_complete(pairs, manifest, stratum.cases@),
        metric_statistic(pairs, manifest, metric, stratum, error_nanos) == Ok::<
            (StatisticModel, GateStatus),
            ScoringError,
        >((statistic, status)),
    ensures
        ({
            let cases = stratum.cases@;
            let name = metric.name.text();
            let blocks = blocks_shown(statistic);
            let n = blocks.len() as int;
            let effects = block_gains(pairs, manifest, cases, name, blocks, 0 as real);
            let adjusted = block_gains(pairs, manifest, cases, name, blocks, allowance(metric));
            &&& statistic.metric == name
            &&& statistic.stratum == stratum.name.text()
            &&& statistic.case_effects.len() == cases.len()
            &&& forall|i: int|
                0 <= i < cases.len() ==> (#[trigger] statistic.case_effects[i]).case == cases[i]
                    && shows(
                    statistic.case_effects[i].effect,
                    case_gain(pairs, manifest, cases[i], name),
                )
            &&& n > 0
            &&& digests_ascend(blocks)
            &&& forall|i: int|
                0 <= i < cases.len() ==> blocks.contains(
                    frozen(manifest, #[trigger] cases[i]).block.0,
                )
            &&& forall|b: int|
                0 <= b < n ==> exists|i: int|
                    0 <= i < cases.len() && frozen(manifest, #[trigger] cases[i]).block.0
                        == #[trigger] blocks[b]
            &&& forall|b: int|
                0 <= b < n ==> shows(
                    (#[trigger] statistic.block_effects[b]).effect,
                    block_gain(pairs, manifest, cases, name, blocks[b]),
                )
            &&& shows(statistic.observed_effect, average(effects, n))
            &&& shows(statistic.adjusted_effect, average(effects, n) + allowance(metric))
            &&& exists|b: int|
                0 <= b < n && shows(statistic.minimum_block_effect, #[trigger] effects(b))
                    && forall|c: int| 0 <= c < n ==> effects(b) <= #[trigger] effects(c)
            &&& exists|b: int|
                0 <= b < n && shows(statistic.maximum_block_effect, #[trigger] effects(b))
                    && forall|c: int| 0 <= c < n ==> effects(b) >= #[trigger] effects(c)
            &&& worth(statistic.p_value) == reaching(
                adjusted,
                n,
                pow2(n as nat) as int,
            ).len() as real / pow2(n as nat) as real
            &&& worth(statistic.alpha) == error_nanos as real / 1000000000 as real
            &&& status == if average(effects, n) + allowance(metric) > 0 as real && worth(
                statistic.p_value,
            ) <= worth(statistic.alpha) {
                GateStatus::Verified
            } else {
                GateStatus::NotVerified
            }
        }),
{
    let cases = stratum.cases@;
    let name = metric.name.text();
    let entries = entries_of(manifest, cases);
    let blocks = ascending_of(blocks_of(entries));
    let n = blocks.len() as int;
    let none = 0 as real;
    lemma_ascending_of_exists(blocks_of(entries));
    let found = case_means(pairs, manifest, cases, name, cases.len() as int)->Ok_0;
    lemma_case_means(pairs, manifest, cases, name, cases.len() as int);
    assert forall|i: int| 0 <= i < cases.len() implies entry_of(
        manifest,
        #[trigger] cases[i],
    ) is Some by {}
    lemma_block_means(pairs, manifest, cases, name, found, blocks, n);
    let values = block_means(entries, found, blocks, n)->0;
    let margin = lowest(metric.margin.spec_millionths() as int, 1000000);
    lemma_adjusted(metric, values, n);
    let shifted = adjusted_all(metric.kind, margin, values, n)->0;
    assert(blocks_shown(statistic) =~= blocks);
    assert forall|i: int| 0 <= i < cases.len() implies blocks.contains(
        frozen(manifest, #[trigger] cases[i]).block.0,
    ) by {
        lemma_frozen(manifest, cases[i]);
        assert(entries[i] == frozen(manifest, cases[i]));
        assert(blocks_of(entries)[i] == entries[i].block.0);
        assert(blocks_of(entries).to_set().contains(entries[i].block.0));
        assert(blocks.to_set().contains(entries[i].block.0));
    }
    assert(blocks.contains(frozen(manifest, cases[0]).block.0));
    assert forall|b: int| 0 <= b < n implies exists|i: int|
        0 <= i < cases.len() && frozen(manifest, #[trigger] cases[i]).block.0
            == #[trigger] blocks[b] by {
        assert(blocks.to_set().contains(blocks[b]));
        assert(blocks_of(entries).contains(blocks[b]));
        let i = choose|i: int|
            0 <= i < blocks_of(entries).len() && blocks_of(entries)[i] == blocks[b];
        lemma_frozen(manifest, cases[i]);
        assert(frozen(manifest, cases[i]).block.0 == blocks[b]);
    }
    assert forall|i: int| 0 <= i < cases.len() implies (
    #[trigger] statistic.case_effects[i]).case == cases[i] && shows(
        statistic.case_effects[i].effect,
        case_gain(pairs, manifest, cases[i], name),
    ) by {
        assert(found[i].denominator > 0);
        lemma_shows(found[i]);
    }
    assert forall|b: int| 0 <= b < n implies shows(
        (#[trigger] statistic.block_effects[b]).effect,
        block_gain(pairs, manifest, cases, name, blocks[b]),
    ) by {
        assert(values[b].denominator > 0);
        lemma_shows(values[b]);
    }
    let effects = block_gains(pairs, manifest, cases, name, blocks, none);
    let adjusted = block_gains(pairs, manifest, cases, name, blocks, allowance(metric));
    assert forall|b: int| 0 <= b < n implies #[trigger] effects(b) == worths(values)(b) by {
        assert(worth(values[b]) == block_gain(pairs, manifest, cases, name, blocks[b]));
    }
    assert forall|b: int| 0 <= b < n implies #[trigger] adjusted(b) == worths(shifted)(b) by {
        assert(worth(shifted[b]) == worth(values[b]) + allowance(metric));
        assert(worth(values[b]) == block_gain(pairs, manifest, cases, name, blocks[b]));
    }
    lemma_mean(values);
    lemma_mean(shifted);
    lemma_total_same(effects, worths(values), n);
    lemma_total_same(adjusted, worths(shifted), n);
    assert forall|b: int| 0 <= b < n implies #[trigger] adjusted(b) == effects(b) + allowance(
        metric,
    ) by {}
    lemma_total_shifted(effects, adjusted, allowance(metric), n);
    let t = total(effects, n);
    let q = n as real;
    let a = allowance(metric);
    assert((t + q * a) / q == t / q + a) by (nonlinear_arith)
        requires
            q > 0 as real,
    ;
    let observed = mean(values)->0;
    let moved = mean(shifted)->0;
    lemma_shows(observed);
    lemma_shows(moved);
    lemma_sign(moved);
    lemma_extreme_values(values, n);
    let low = least(values, n)->0;
    let high = greatest(values, n)->0;
    let l = choose|i: int| 0 <= i < n && #[trigger] values[i] == low;
    let h = choose|i: int| 0 <= i < n && #[trigger] values[i] == high;
    lemma_shows(low);
    lemma_shows(high);
    assert(effects(l) == worth(low) && effects(h) == worth(high));
    assert forall|c: int| 0 <= c < n implies effects(l) <= #[trigger] effects(c) && effects(h)
        >= effects(c) by {
        assert(effects(c) == worth(values[c]));
    }
    law_p_values_count_sign_patterns(shifted, statistic.p_value);
    lemma_reaching_same(adjusted, worths(shifted), n, pow2(n as nat) as int);
    lemma_lowest(error_nanos as int, 1000000000);
    let p = statistic.p_value;
    let e = statistic.alpha;
    lemma_compared(p, e);
}

proof fn lemma_compared(a: Fraction, b: Fraction)
    requires
        a.denominator > 0,
        b.denominator > 0,
    ensures
        a.numerator * b.denominator <= b.numerator * a.denominator <==> worth(a) <= worth(b),
{
    let p = a.numerator as real;
    let q = a.denominator as real;
    let r = b.numerator as real;
    let s = b.denominator as real;
    assert((a.numerator * b.denominator) as real == p * s) by (nonlinear_arith)
        requires
            p == a.numerator as real,
            s == b.denominator as real,
    ;
    assert((b.numerator * a.denominator) as real == r * q) by (nonlinear_arith)
        requires
            r == b.numerator as real,
            q == a.denominator as real,
    ;
    assert(p * s <= r * q <==> p / q <= r / s) by (nonlinear_arith)
        requires
            q > 0 as real,
            s > 0 as real,
    ;
}

/// A primary metric passes only where the candidate gains more than the margin on the mean
/// over the blocks, and a protected one only where it loses less.
pub proof fn law_passed_metrics_beat_their_margin(
    pairs: Seq<AdaptiveTrialEvidence>,
    manifest: Seq<ManifestEntry>,
    metric: MetricPolicy,
    stratum: StratumPolicy,
    error_nanos: u64,
    statistic: StatisticModel,
)
    requires
        pairs_unique(pairs),
        well_frozen(manifest),
        stratum.cases@.len() > 0,
        stratum_complete(pairs, manifest, stratum.cases@),
        metric_statistic(pairs, manifest, metric, stratum, error_nanos) == Ok::<
            (StatisticModel, GateStatus),
            ScoringError,
        >((statistic, GateStatus::Verified)),
    ensures
        ({
            let blocks = blocks_shown(statistic);
            let effect = average(
                block_gains(
                    pairs,
                    manifest,
                    stratum.cases@,
                    metric.name.text(),
                    blocks,
                    0 as real,
                ),
                blocks.len() as int,
            );
            let margin = metric.margin.spec_millionths() as real / 1000000 as real;
            &&& shows(statistic.observed_effect, effect)
            &&& metric.kind == MetricKind::Primary ==> effect > margin
            &&& metric.kind == MetricKind::Protected ==> effect > -margin
        }),
{
    law_statistics_are_exact(
        pairs,
        manifest,
        metric,
        stratum,
        error_nanos,
        statistic,
        GateStatus::Verified,
    );
}

} // verus!
