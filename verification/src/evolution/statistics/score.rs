//! The paired statistic of one metric in one stratum.
use crate::digest::Digest;
use crate::digest_set::{
    ascending_of, digests_ascend, lemma_is_ascending_of, DigestSet,
};
use crate::evolution::ids::{CaseIdentity, IndependentBlockId};
use crate::evolution::statistics::policy::{
    block_count, blocks_of, entry_of, is_listed, Manifest, ManifestEntry, MetricKind, MetricPolicy,
    ScoringError, StratumPolicy, ERROR_SCALE,
};
use crate::evolution::statistics::rational::{
    at_least, exact_sign_flip_p_value, fractions, lowest, mean, mean_of, minus, over, plus,
    ratio_le, sign_flip, zero, ExactRatio, Fraction, Rational,
};
use crate::evolution::statistics::report::{
    AdaptiveTrialEvidence, BlockEffect, CaseEffect, ExactEffect, GateStatus, MetricStatistic,
    StatisticModel,
};
use crate::evolution::trial::{
    BehavioralTrialOutcome, MetricName, PairedTrialEvidence, SCORE_SCALE,
};
use crate::text_map::value_of;
use vstd::prelude::*;

verus! {

/// Whether the evidence at an index is for a case and a repeat.
pub open spec fn pair_at(
    pairs: Seq<AdaptiveTrialEvidence>,
    case: CaseIdentity,
    repeat: int,
    i: int,
) -> bool {
    0 <= i < pairs.len() && pairs[i].spec.case == case && pairs[i].spec.repeat == repeat
}

/// Whether there is evidence for a case and a repeat.
pub open spec fn has_pair(
    pairs: Seq<AdaptiveTrialEvidence>,
    case: CaseIdentity,
    repeat: int,
) -> bool {
    exists|i: int| pair_at(pairs, case, repeat, i)
}

/// The evidence for a case and a repeat.
pub open spec fn pair_of(
    pairs: Seq<AdaptiveTrialEvidence>,
    case: CaseIdentity,
    repeat: int,
) -> AdaptiveTrialEvidence {
    pairs[choose|i: int| pair_at(pairs, case, repeat, i)]
}

/// Whether every repeat of a case has usable evidence, and only one.
pub open spec fn case_complete(
    pairs: Seq<AdaptiveTrialEvidence>,
    case: CaseIdentity,
    repeats: int,
) -> bool {
    forall|r: int|
        0 <= r < repeats ==> #[trigger] has_pair(pairs, case, r) && pair_of(
            pairs,
            case,
            r,
        ).evidence is Usable
}

/// Whether the cases of a stratum are frozen ones with complete evidence.
pub open spec fn stratum_complete(
    pairs: Seq<AdaptiveTrialEvidence>,
    manifest: Seq<ManifestEntry>,
    cases: Seq<CaseIdentity>,
) -> bool {
    forall|i: int|
        0 <= i < cases.len() ==> {
            &&& is_listed(manifest, #[trigger] cases[i])
            &&& entry_of(manifest, cases[i])->0.repeats > 0
            &&& case_complete(pairs, cases[i], entry_of(manifest, cases[i])->0.repeats as int)
        }
}

/// The score of an outcome: nothing for a failure.
pub open spec fn score_of(outcome: BehavioralTrialOutcome, metric: Seq<char>) -> Result<
    Fraction,
    ScoringError,
> {
    match outcome {
        BehavioralTrialOutcome::BehavioralFailure { .. } => Ok(zero()),
        BehavioralTrialOutcome::Pass { metrics } => match value_of(metrics@, metric) {
            Some(score) => Ok(lowest(score.spec_millionths() as int, SCORE_SCALE as int)),
            None => Err(ScoringError::MissingMetric),
        },
    }
}

/// An exact result, or the error for one that does not fit.
pub open spec fn exact(value: Option<Fraction>) -> Result<Fraction, ScoringError> {
    match value {
        Some(fraction) => Ok(fraction),
        None => Err(ScoringError::ArithmeticOverflow),
    }
}

/// How much the candidate scores above its parent in one repeat.
pub open spec fn repeat_effect(evidence: PairedTrialEvidence, metric: Seq<char>) -> Result<
    Fraction,
    ScoringError,
> {
    match evidence {
        PairedTrialEvidence::Usable(receipt) => match score_of(receipt.candidate, metric) {
            Err(error) => Err(error),
            Ok(candidate) => match score_of(receipt.parent, metric) {
                Err(error) => Err(error),
                Ok(parent) => exact(minus(candidate, parent)),
            },
        },
        PairedTrialEvidence::InfrastructureUnknown(_) => Ok(zero()),
    }
}

/// The sum of the effects of the first `n` repeats of a case.
pub open spec fn repeats_total(
    pairs: Seq<AdaptiveTrialEvidence>,
    case: CaseIdentity,
    metric: Seq<char>,
    n: int,
) -> Result<Fraction, ScoringError>
    decreases n,
{
    if n <= 0 {
        Ok(zero())
    } else {
        match repeats_total(pairs, case, metric, n - 1) {
            Err(error) => Err(error),
            Ok(before) => match repeat_effect(pair_of(pairs, case, n - 1).evidence, metric) {
                Err(error) => Err(error),
                Ok(effect) => exact(plus(before, effect)),
            },
        }
    }
}

/// The mean effect over the repeats of a case.
pub open spec fn case_mean(
    pairs: Seq<AdaptiveTrialEvidence>,
    case: CaseIdentity,
    metric: Seq<char>,
    repeats: int,
) -> Result<Fraction, ScoringError> {
    match repeats_total(pairs, case, metric, repeats) {
        Err(error) => Err(error),
        Ok(total) => exact(over(total, repeats)),
    }
}

/// The mean effects of the first `n` cases.
pub open spec fn case_means(
    pairs: Seq<AdaptiveTrialEvidence>,
    manifest: Seq<ManifestEntry>,
    cases: Seq<CaseIdentity>,
    metric: Seq<char>,
    n: int,
) -> Result<Seq<Fraction>, ScoringError>
    decreases n,
{
    if n <= 0 {
        Ok(Seq::empty())
    } else {
        match case_means(pairs, manifest, cases, metric, n - 1) {
            Err(error) => Err(error),
            Ok(before) => match case_mean(
                pairs,
                cases[n - 1],
                metric,
                entry_of(manifest, cases[n - 1])->0.repeats as int,
            ) {
                Err(error) => Err(error),
                Ok(effect) => Ok(before.push(effect)),
            },
        }
    }
}

/// What is frozen for some cases.
pub open spec fn entries_of(manifest: Seq<ManifestEntry>, cases: Seq<CaseIdentity>) -> Seq<
    ManifestEntry,
> {
    cases.map_values(|case: CaseIdentity| entry_of(manifest, case)->0)
}

/// The effects among the first `n` cases that belong to a block.
pub open spec fn block_values(
    entries: Seq<ManifestEntry>,
    effects: Seq<Fraction>,
    block: Digest,
    n: int,
) -> Seq<Fraction>
    decreases n,
{
    if n <= 0 {
        Seq::empty()
    } else if entries[n - 1].block.0 == block {
        block_values(entries, effects, block, n - 1).push(effects[n - 1])
    } else {
        block_values(entries, effects, block, n - 1)
    }
}

/// The mean effects of the first `n` blocks.
pub open spec fn block_means(
    entries: Seq<ManifestEntry>,
    effects: Seq<Fraction>,
    blocks: Seq<Digest>,
    n: int,
) -> Option<Seq<Fraction>>
    decreases n,
{
    if n <= 0 {
        Some(Seq::empty())
    } else {
        match (
            block_means(entries, effects, blocks, n - 1),
            mean(block_values(entries, effects, blocks[n - 1], entries.len() as int)),
        ) {
            (Some(before), Some(effect)) => Some(before.push(effect)),
            _ => None,
        }
    }
}

/// An effect with the margin of its metric taken off or granted.
pub open spec fn adjusted(kind: MetricKind, margin: Fraction, value: Fraction) -> Option<Fraction> {
    match kind {
        MetricKind::Primary => minus(value, margin),
        MetricKind::Protected => plus(value, margin),
    }
}

/// The first `n` effects, adjusted.
pub open spec fn adjusted_all(kind: MetricKind, margin: Fraction, values: Seq<Fraction>, n: int) ->
    Option<Seq<Fraction>>
    decreases n,
{
    if n <= 0 {
        Some(Seq::empty())
    } else {
        match (adjusted_all(kind, margin, values, n - 1), adjusted(kind, margin, values[n - 1])) {
            (Some(before), Some(effect)) => Some(before.push(effect)),
            _ => None,
        }
    }
}

/// The least of the first `n` effects.
pub open spec fn least(values: Seq<Fraction>, n: int) -> Option<Fraction>
    decreases n,
{
    if n <= 1 {
        Some(values[0])
    } else {
        match least(values, n - 1) {
            None => None,
            Some(so_far) => match at_least(values[n - 1], so_far) {
                Some(true) => Some(so_far),
                Some(false) => Some(values[n - 1]),
                None => None,
            },
        }
    }
}

/// The greatest of the first `n` effects.
pub open spec fn greatest(values: Seq<Fraction>, n: int) -> Option<Fraction>
    decreases n,
{
    if n <= 1 {
        Some(values[0])
    } else {
        match greatest(values, n - 1) {
            None => None,
            Some(so_far) => match at_least(values[n - 1], so_far) {
                Some(true) => Some(values[n - 1]),
                Some(false) => Some(so_far),
                None => None,
            },
        }
    }
}

/// A fraction as an effect, its denominator cut to 64 bits.
pub open spec fn effect_of(value: Fraction) -> ExactEffect {
    ExactEffect {
        numerator: value.numerator as i128,
        denominator: (value.denominator % 0x1_0000_0000_0000_0000) as u64,
    }
}

/// The effects of cases.
pub open spec fn case_effects_of(cases: Seq<CaseIdentity>, effects: Seq<Fraction>) -> Seq<
    CaseEffect,
> {
    Seq::new(
        cases.len(),
        |i: int| CaseEffect { case: cases[i], effect: effect_of(effects[i]) },
    )
}

/// The effects of blocks.
pub open spec fn block_effects_of(blocks: Seq<Digest>, effects: Seq<Fraction>) -> Seq<BlockEffect> {
    Seq::new(
        blocks.len(),
        |i: int|
            BlockEffect { block: IndependentBlockId(blocks[i]), effect: effect_of(effects[i]) },
    )
}

/// The statistic of a metric in a stratum, and whether it passes.
pub open spec fn metric_statistic(
    pairs: Seq<AdaptiveTrialEvidence>,
    manifest: Seq<ManifestEntry>,
    metric: MetricPolicy,
    stratum: StratumPolicy,
    error_nanos: u64,
) -> Result<(StatisticModel, GateStatus), ScoringError> {
    let cases = stratum.cases@;
    let entries = entries_of(manifest, cases);
    let blocks = ascending_of(blocks_of(entries));
    let margin = lowest(metric.margin.spec_millionths() as int, SCORE_SCALE as int);
    let alpha = lowest(error_nanos as int, ERROR_SCALE as int);
    match case_means(pairs, manifest, cases, metric.name.text(), cases.len() as int) {
        Err(error) => Err(error),
        Ok(effects) => match block_means(entries, effects, blocks, blocks.len() as int) {
            None => Err(ScoringError::ArithmeticOverflow),
            Some(values) => match adjusted_all(metric.kind, margin, values, values.len() as int) {
                None => Err(ScoringError::ArithmeticOverflow),
                Some(shifted) => match (
                    mean(values),
                    mean(shifted),
                    sign_flip(shifted),
                    least(values, values.len() as int),
                    greatest(values, values.len() as int),
                ) {
                    (
                        Some(observed),
                        Some(adjusted_effect),
                        Some(p_value),
                        Some(minimum),
                        Some(maximum),
                    ) => Ok(
                        (
                            StatisticModel {
                                metric: metric.name.text(),
                                stratum: stratum.name.text(),
                                case_effects: case_effects_of(cases, effects),
                                block_effects: block_effects_of(blocks, values),
                                observed_effect: effect_of(observed),
                                adjusted_effect: effect_of(adjusted_effect),
                                minimum_block_effect: effect_of(minimum),
                                maximum_block_effect: effect_of(maximum),
                                p_value,
                                alpha,
                            },
                            if adjusted_effect.numerator > 0 && p_value.numerator
                                * alpha.denominator <= alpha.numerator * p_value.denominator {
                                GateStatus::Verified
                            } else {
                                GateStatus::NotVerified
                            },
                        ),
                    ),
                    _ => Err(ScoringError::ArithmeticOverflow),
                },
            },
        },
    }
}

fn score(outcome: &BehavioralTrialOutcome, metric: &MetricName) -> (r: Result<
    Rational,
    ScoringError,
>)
    ensures
        match r {
            Ok(value) => score_of(*outcome, metric.text()) == Ok::<Fraction, ScoringError>(value@),
            Err(error) => score_of(*outcome, metric.text()) == Err::<Fraction, ScoringError>(error),
        },
{
    match outcome {
        BehavioralTrialOutcome::BehavioralFailure { .. } => Ok(Rational::zero()),
        BehavioralTrialOutcome::Pass { metrics } => match metrics.get(metric.as_str()) {
            Some(score) => Ok(Rational::new(score.millionths() as i128, SCORE_SCALE as i128)),
            None => Err(ScoringError::MissingMetric),
        },
    }
}

fn effect_in(evidence: &PairedTrialEvidence, metric: &MetricName) -> (r: Result<
    Rational,
    ScoringError,
>)
    ensures
        match r {
            Ok(value) => repeat_effect(*evidence, metric.text()) == Ok::<Fraction, ScoringError>(
                value@,
            ),
            Err(error) => repeat_effect(*evidence, metric.text()) == Err::<Fraction, ScoringError>(
                error,
            ),
        },
{
    match evidence {
        PairedTrialEvidence::Usable(receipt) => {
            let candidate = match score(&receipt.candidate, metric) {
                Ok(value) => value,
                Err(error) => return Err(error),
            };
            let parent = match score(&receipt.parent, metric) {
                Ok(value) => value,
                Err(error) => return Err(error),
            };
            match candidate.sub(parent) {
                Some(effect) => Ok(effect),
                None => Err(ScoringError::ArithmeticOverflow),
            }
        },
        PairedTrialEvidence::InfrastructureUnknown(_) => Ok(Rational::zero()),
    }
}

/// The place of the evidence for a case and a repeat.
pub(crate) fn find_pair(
    pairs: &Vec<AdaptiveTrialEvidence>,
    case: CaseIdentity,
    repeat: u32,
) -> (r: Option<usize>)
    ensures
        match r {
            Some(i) => pair_at(pairs@, case, repeat as int, i as int),
            None => !has_pair(pairs@, case, repeat as int),
        },
{
    let mut i: usize = 0;
    while i < pairs.len()
        invariant
            i <= pairs.len(),
            forall|k: int| 0 <= k < i ==> !#[trigger] pair_at(pairs@, case, repeat as int, k),
        decreases pairs.len() - i,
    {
        if pairs[i].spec.case == case && pairs[i].spec.repeat == repeat {
            assert(pair_at(pairs@, case, repeat as int, i as int));
            return Some(i);
        }
        i += 1;
    }
    None
}

/// Whether no case and repeat has two pieces of evidence.
pub open spec fn pairs_unique(pairs: Seq<AdaptiveTrialEvidence>) -> bool {
    forall|i: int, j: int|
        0 <= i < j < pairs.len() ==> !((#[trigger] pairs[i]).spec.case == (
        #[trigger] pairs[j]).spec.case && pairs[i].spec.repeat == pairs[j].spec.repeat)
}

proof fn lemma_pair_place(
    pairs: Seq<AdaptiveTrialEvidence>,
    case: CaseIdentity,
    repeat: int,
    i: int,
)
    requires
        pairs_unique(pairs),
        pair_at(pairs, case, repeat, i),
    ensures
        pair_of(pairs, case, repeat) == pairs[i],
{
    let k = choose|k: int| pair_at(pairs, case, repeat, k);
    assert(pair_at(pairs, case, repeat, k));
}

fn mean_of_case(
    pairs: &Vec<AdaptiveTrialEvidence>,
    case: CaseIdentity,
    metric: &MetricName,
    repeats: u32,
) -> (r: Result<Rational, ScoringError>)
    requires
        pairs_unique(pairs@),
        repeats > 0,
        case_complete(pairs@, case, repeats as int),
    ensures
        match r {
            Ok(value) => case_mean(pairs@, case, metric.text(), repeats as int) == Ok::<
                Fraction,
                ScoringError,
            >(value@),
            Err(error) => case_mean(pairs@, case, metric.text(), repeats as int) == Err::<
                Fraction,
                ScoringError,
            >(error),
        },
{
    let mut total = Rational::zero();
    let mut n: u32 = 0;
    while n < repeats
        invariant
            n <= repeats,
            pairs_unique(pairs@),
            case_complete(pairs@, case, repeats as int),
            repeats_total(pairs@, case, metric.text(), n as int) == Ok::<Fraction, ScoringError>(
                total@,
            ),
        decreases repeats - n,
    {
        assert(has_pair(pairs@, case, n as int));
        let next = match find_pair(pairs, case, n) {
            Some(i) => {
                proof {
                    lemma_pair_place(pairs@, case, n as int, i as int);
                }
                match effect_in(&pairs[i].evidence, metric) {
                    Ok(effect) => match total.add(effect) {
                        Some(sum) => Ok(sum),
                        None => Err(ScoringError::ArithmeticOverflow),
                    },
                    Err(error) => Err(error),
                }
            },
            None => Err(ScoringError::ArithmeticOverflow),
        };
        match next {
            Ok(sum) => {
                total = sum;
            },
            Err(error) => {
                proof {
                    lemma_total_fails(pairs@, case, metric.text(), n + 1, repeats as int);
                }
                return Err(error);
            },
        }
        n += 1;
    }
    match total.divide(repeats as i128) {
        Some(effect) => Ok(effect),
        None => Err(ScoringError::ArithmeticOverflow),
    }
}

proof fn lemma_total_fails(
    pairs: Seq<AdaptiveTrialEvidence>,
    case: CaseIdentity,
    metric: Seq<char>,
    i: int,
    n: int,
)
    requires
        0 <= i <= n,
        repeats_total(pairs, case, metric, i) is Err,
    ensures
        repeats_total(pairs, case, metric, n) == repeats_total(pairs, case, metric, i),
    decreases n,
{
    if i < n {
        lemma_total_fails(pairs, case, metric, i, n - 1);
    }
}

proof fn lemma_means_fail(
    pairs: Seq<AdaptiveTrialEvidence>,
    manifest: Seq<ManifestEntry>,
    cases: Seq<CaseIdentity>,
    metric: Seq<char>,
    i: int,
    n: int,
)
    requires
        0 <= i <= n,
        case_means(pairs, manifest, cases, metric, i) is Err,
    ensures
        case_means(pairs, manifest, cases, metric, n) == case_means(
            pairs,
            manifest,
            cases,
            metric,
            i,
        ),
    decreases n,
{
    if i < n {
        lemma_means_fail(pairs, manifest, cases, metric, i, n - 1);
    }
}

fn means_of_cases(
    pairs: &Vec<AdaptiveTrialEvidence>,
    manifest: &Manifest,
    cases: &Vec<CaseIdentity>,
    metric: &MetricName,
) -> (r: Result<Vec<Rational>, ScoringError>)
    requires
        pairs_unique(pairs@),
        stratum_complete(pairs@, manifest@, cases@),
    ensures
        match r {
            Ok(values) => values.len() == cases.len() && case_means(
                pairs@,
                manifest@,
                cases@,
                metric.text(),
                cases.len() as int,
            ) == Ok::<Seq<Fraction>, ScoringError>(fractions(values@)),
            Err(error) => case_means(
                pairs@,
                manifest@,
                cases@,
                metric.text(),
                cases.len() as int,
            ) == Err::<Seq<Fraction>, ScoringError>(error),
        },
{
    let mut values: Vec<Rational> = Vec::new();
    let mut n: usize = 0;
    assert(fractions(values@) =~= Seq::<Fraction>::empty());
    while n < cases.len()
        invariant
            n <= cases.len(),
            values.len() == n,
            pairs_unique(pairs@),
            stratum_complete(pairs@, manifest@, cases@),
            case_means(pairs@, manifest@, cases@, metric.text(), n as int) == Ok::<
                Seq<Fraction>,
                ScoringError,
            >(fractions(values@)),
        decreases cases.len() - n,
    {
        let case = cases[n];
        assert(is_listed(manifest@, cases@[n as int]));
        let entry = match manifest.get(case) {
            Some(entry) => entry,
            None => return Err(ScoringError::PairOutsideManifest),
        };
        match mean_of_case(pairs, case, metric, entry.repeats) {
            Ok(value) => {
                let ghost before = values@;
                values.push(value);
                assert(fractions(values@) =~= fractions(before).push(value@));
            },
            Err(error) => {
                proof {
                    lemma_means_fail(
                        pairs@,
                        manifest@,
                        cases@,
                        metric.text(),
                        n + 1,
                        cases.len() as int,
                    );
                }
                return Err(error);
            },
        }
        n += 1;
    }
    Ok(values)
}

/// What is frozen for the cases of a stratum.
pub(crate) fn entries_for(manifest: &Manifest, cases: &Vec<CaseIdentity>) -> (r: Vec<ManifestEntry>)
    requires
        forall|i: int| 0 <= i < cases.len() ==> is_listed(manifest@, #[trigger] cases@[i]),
    ensures
        r@ == entries_of(manifest@, cases@),
{
    let mut entries: Vec<ManifestEntry> = Vec::new();
    let mut i: usize = 0;
    while i < cases.len()
        invariant
            i <= cases.len(),
            entries.len() == i,
            forall|k: int| 0 <= k < cases.len() ==> is_listed(manifest@, #[trigger] cases@[k]),
            forall|k: int|
                0 <= k < i ==> #[trigger] entries@[k] == entry_of(manifest@, cases@[k])->0,
        decreases cases.len() - i,
    {
        assert(is_listed(manifest@, cases@[i as int]));
        match manifest.get(cases[i]) {
            Some(entry) => {
                entries.push(entry);
            },
            None => {
                assert(false);
            },
        }
        i += 1;
    }
    assert(entries@ =~= entries_of(manifest@, cases@));
    entries
}

fn blocks_in(entries: &Vec<ManifestEntry>) -> (r: DigestSet)
    ensures
        r@ == ascending_of(blocks_of(entries@)),
        digests_ascend(r@),
        r@.to_set() == blocks_of(entries@).to_set(),
        r@.len() == block_count(entries@),
{
    let mut seen = DigestSet::new();
    let mut i: usize = 0;
    proof {
        assert(seen@.to_set() =~= blocks_of(entries@.subrange(0, 0)).to_set());
    }
    while i < entries.len()
        invariant
            i <= entries.len(),
            seen@.to_set() == blocks_of(entries@.subrange(0, i as int)).to_set(),
        decreases entries.len() - i,
    {
        let ghost before = blocks_of(entries@.subrange(0, i as int));
        let ghost after = blocks_of(entries@.subrange(0, i + 1));
        seen.insert(entries[i].block.0);
        proof {
            assert(after =~= before.push(entries@[i as int].block.0));
            crate::evolution::statistics::policy::lemma_push_to_set(
                before,
                entries@[i as int].block.0,
            );
        }
        i += 1;
    }
    assert(entries@.subrange(0, entries.len() as int) =~= entries@);
    let count = seen.len();
    proof {
        lemma_is_ascending_of(seen@, blocks_of(entries@));
    }
    seen
}

fn values_in_block(entries: &Vec<ManifestEntry>, effects: &Vec<Rational>, block: Digest) -> (r: Vec<
    Rational,
>)
    requires
        entries.len() == effects.len(),
    ensures
        fractions(r@) == block_values(
            entries@,
            fractions(effects@),
            block,
            entries.len() as int,
        ),
        blocks_of(entries@).contains(block) ==> r.len() > 0,
{
    let mut values: Vec<Rational> = Vec::new();
    let mut i: usize = 0;
    assert(fractions(values@) =~= Seq::<Fraction>::empty());
    while i < entries.len()
        invariant
            i <= entries.len(),
            entries.len() == effects.len(),
            fractions(values@) == block_values(entries@, fractions(effects@), block, i as int),
            forall|k: int| 0 <= k < i && (#[trigger] entries@[k]).block.0 == block ==> values.len() > 0,
        decreases entries.len() - i,
    {
        if entries[i].block.0 == block {
            let ghost before = values@;
            values.push(effects[i]);
            assert(fractions(values@) =~= fractions(before).push(effects@[i as int]@));
        }
        i += 1;
    }
    proof {
        if blocks_of(entries@).contains(block) {
            let k = choose|k: int|
                0 <= k < blocks_of(entries@).len() && blocks_of(entries@)[k] == block;
            assert(entries@[k].block.0 == block);
        }
    }
    values
}

proof fn lemma_block_means_none(
    entries: Seq<ManifestEntry>,
    effects: Seq<Fraction>,
    blocks: Seq<Digest>,
    i: int,
    n: int,
)
    requires
        0 <= i <= n,
        block_means(entries, effects, blocks, i) is None,
    ensures
        block_means(entries, effects, blocks, n) is None,
    decreases n,
{
    if i < n {
        lemma_block_means_none(entries, effects, blocks, i, n - 1);
    }
}

fn means_of_blocks(entries: &Vec<ManifestEntry>, effects: &Vec<Rational>, blocks: &DigestSet) -> (r:
    Option<Vec<Rational>>)
    requires
        entries.len() == effects.len(),
        blocks@.to_set() == blocks_of(entries@).to_set(),
    ensures
        match r {
            Some(values) => values.len() == blocks@.len() && block_means(
                entries@,
                fractions(effects@),
                blocks@,
                blocks@.len() as int,
            ) == Some(fractions(values@)),
            None => block_means(
                entries@,
                fractions(effects@),
                blocks@,
                blocks@.len() as int,
            ) is None,
        },
{
    let mut values: Vec<Rational> = Vec::new();
    let mut i: usize = 0;
    assert(fractions(values@) =~= Seq::<Fraction>::empty());
    while i < blocks.len()
        invariant
            i <= blocks@.len(),
            values.len() == i,
            entries.len() == effects.len(),
            blocks@.to_set() == blocks_of(entries@).to_set(),
            block_means(entries@, fractions(effects@), blocks@, i as int) == Some(
                fractions(values@),
            ),
        decreases blocks@.len() - i,
    {
        let block = blocks.get(i);
        assert(blocks@.contains(block));
        assert(blocks@.to_set().contains(block));
        assert(blocks_of(entries@).to_set().contains(block));
        let inside = values_in_block(entries, effects, block);
        match mean_of(&inside) {
            Some(value) => {
                let ghost before = values@;
                values.push(value);
                assert(fractions(values@) =~= fractions(before).push(value@));
            },
            None => {
                proof {
                    lemma_block_means_none(
                        entries@,
                        fractions(effects@),
                        blocks@,
                        i + 1,
                        blocks@.len() as int,
                    );
                }
                return None;
            },
        }
        i += 1;
    }
    Some(values)
}

proof fn lemma_adjusted_none(
    kind: MetricKind,
    margin: Fraction,
    values: Seq<Fraction>,
    i: int,
    n: int,
)
    requires
        0 <= i <= n,
        adjusted_all(kind, margin, values, i) is None,
    ensures
        adjusted_all(kind, margin, values, n) is None,
    decreases n,
{
    if i < n {
        lemma_adjusted_none(kind, margin, values, i, n - 1);
    }
}

fn adjust(kind: MetricKind, margin: Rational, values: &Vec<Rational>) -> (r: Option<Vec<Rational>>)
    ensures
        match r {
            Some(shifted) => shifted.len() == values.len() && adjusted_all(
                kind,
                margin@,
                fractions(values@),
                values.len() as int,
            ) == Some(fractions(shifted@)),
            None => adjusted_all(
                kind,
                margin@,
                fractions(values@),
                values.len() as int,
            ) is None,
        },
{
    let mut shifted: Vec<Rational> = Vec::new();
    let mut i: usize = 0;
    assert(fractions(shifted@) =~= Seq::<Fraction>::empty());
    while i < values.len()
        invariant
            i <= values.len(),
            shifted.len() == i,
            adjusted_all(kind, margin@, fractions(values@), i as int) == Some(fractions(shifted@)),
        decreases values.len() - i,
    {
        let next = match kind {
            MetricKind::Primary => values[i].sub(margin),
            MetricKind::Protected => values[i].add(margin),
        };
        match next {
            Some(value) => {
                let ghost before = shifted@;
                shifted.push(value);
                assert(fractions(shifted@) =~= fractions(before).push(value@));
            },
            None => {
                proof {
                    lemma_adjusted_none(
                        kind,
                        margin@,
                        fractions(values@),
                        i + 1,
                        values.len() as int,
                    );
                }
                return None;
            },
        }
        i += 1;
    }
    Some(shifted)
}

proof fn lemma_least_none(values: Seq<Fraction>, i: int, n: int)
    requires
        1 <= i <= n,
        least(values, i) is None,
    ensures
        least(values, n) is None,
    decreases n,
{
    if i < n {
        lemma_least_none(values, i, n - 1);
    }
}

proof fn lemma_greatest_none(values: Seq<Fraction>, i: int, n: int)
    requires
        1 <= i <= n,
        greatest(values, i) is None,
    ensures
        greatest(values, n) is None,
    decreases n,
{
    if i < n {
        lemma_greatest_none(values, i, n - 1);
    }
}

fn extremes_of(values: &Vec<Rational>) -> (r: Option<(Rational, Rational)>)
    requires
        values.len() > 0,
    ensures
        match r {
            Some((low, high)) => least(fractions(values@), values.len() as int) == Some(low@)
                && greatest(fractions(values@), values.len() as int) == Some(high@),
            None => least(fractions(values@), values.len() as int) is None || greatest(
                fractions(values@),
                values.len() as int,
            ) is None,
        },
{
    let mut low = values[0];
    let mut high = values[0];
    let mut i: usize = 1;
    while i < values.len()
        invariant
            1 <= i <= values.len(),
            least(fractions(values@), i as int) == Some(low@),
            greatest(fractions(values@), i as int) == Some(high@),
        decreases values.len() - i,
    {
        match values[i].is_at_least(low) {
            Some(keep) => {
                if !keep {
                    low = values[i];
                }
            },
            None => {
                proof {
                    lemma_least_none(fractions(values@), i + 1, values.len() as int);
                }
                return None;
            },
        }
        match values[i].is_at_least(high) {
            Some(raise) => {
                if raise {
                    high = values[i];
                }
            },
            None => {
                proof {
                    lemma_greatest_none(fractions(values@), i + 1, values.len() as int);
                }
                return None;
            },
        }
        i += 1;
    }
    Some((low, high))
}

fn to_effect(value: Rational) -> (r: ExactEffect)
    ensures
        r == effect_of(value@),
{
    let numerator = value.numerator();
    let denominator = value.denominator();
    let rest: u128 = (denominator as u128) % 0x1_0000_0000_0000_0000;
    ExactEffect { numerator, denominator: rest as u64 }
}

fn case_effect_list(cases: &Vec<CaseIdentity>, effects: &Vec<Rational>) -> (r: Vec<CaseEffect>)
    requires
        cases.len() == effects.len(),
    ensures
        r@ == case_effects_of(cases@, fractions(effects@)),
{
    let mut list: Vec<CaseEffect> = Vec::new();
    let mut i: usize = 0;
    while i < cases.len()
        invariant
            i <= cases.len(),
            cases.len() == effects.len(),
            list@ == case_effects_of(cases@, fractions(effects@)).subrange(0, i as int),
        decreases cases.len() - i,
    {
        list.push(CaseEffect { case: cases[i], effect: to_effect(effects[i]) });
        i += 1;
        assert(list@ =~= case_effects_of(cases@, fractions(effects@)).subrange(0, i as int));
    }
    assert(list@ =~= case_effects_of(cases@, fractions(effects@)));
    list
}

fn block_effect_list(blocks: &DigestSet, effects: &Vec<Rational>) -> (r: Vec<BlockEffect>)
    requires
        blocks@.len() == effects.len(),
    ensures
        r@ == block_effects_of(blocks@, fractions(effects@)),
{
    let mut list: Vec<BlockEffect> = Vec::new();
    let mut i: usize = 0;
    while i < effects.len()
        invariant
            i <= effects.len(),
            blocks@.len() == effects.len(),
            list@ == block_effects_of(blocks@, fractions(effects@)).subrange(0, i as int),
        decreases effects.len() - i,
    {
        list.push(
            BlockEffect {
                block: IndependentBlockId(blocks.get(i)),
                effect: to_effect(effects[i]),
            },
        );
        i += 1;
        assert(list@ =~= block_effects_of(blocks@, fractions(effects@)).subrange(0, i as int));
    }
    assert(list@ =~= block_effects_of(blocks@, fractions(effects@)));
    list
}

/// The statistic of a metric in a stratum, and whether it passes.
pub fn score_metric(
    pairs: &Vec<AdaptiveTrialEvidence>,
    manifest: &Manifest,
    metric: &MetricPolicy,
    stratum: &StratumPolicy,
    error_nanos_per_hypothesis: u64,
) -> (r: Result<(MetricStatistic, GateStatus), ScoringError>)
    requires
        pairs_unique(pairs@),
        stratum.cases@.len() > 0,
        stratum_complete(pairs@, manifest@, stratum.cases@),
        block_count(entries_of(manifest@, stratum.cases@)) < 64,
    ensures
        match r {
            Ok((statistic, status)) => metric_statistic(
                pairs@,
                manifest@,
                *metric,
                *stratum,
                error_nanos_per_hypothesis,
            ) == Ok::<(StatisticModel, GateStatus), ScoringError>((statistic@, status)),
            Err(error) => metric_statistic(
                pairs@,
                manifest@,
                *metric,
                *stratum,
                error_nanos_per_hypothesis,
            ) == Err::<(StatisticModel, GateStatus), ScoringError>(error),
        },
{
    let effects = match means_of_cases(pairs, manifest, &stratum.cases, &metric.name) {
        Ok(effects) => effects,
        Err(error) => return Err(error),
    };
    let entries = entries_for(manifest, &stratum.cases);
    let blocks = blocks_in(&entries);
    proof {
        let all = blocks_of(entries@);
        assert(all[0] == entries@[0].block.0);
        assert(all.to_set().contains(all[0]));
        assert(blocks@.to_set().contains(all[0]));
    }
    let values = match means_of_blocks(&entries, &effects, &blocks) {
        Some(values) => values,
        None => return Err(ScoringError::ArithmeticOverflow),
    };
    let margin = Rational::new(metric.margin.millionths() as i128, SCORE_SCALE as i128);
    let shifted = match adjust(metric.kind, margin, &values) {
        Some(shifted) => shifted,
        None => return Err(ScoringError::ArithmeticOverflow),
    };
    let observed = match mean_of(&values) {
        Some(observed) => observed,
        None => return Err(ScoringError::ArithmeticOverflow),
    };
    let adjusted_effect = match mean_of(&shifted) {
        Some(effect) => effect,
        None => return Err(ScoringError::ArithmeticOverflow),
    };
    let p_value = match exact_sign_flip_p_value(&shifted) {
        Some(p_value) => p_value,
        None => return Err(ScoringError::ArithmeticOverflow),
    };
    let (minimum, maximum) = match extremes_of(&values) {
        Some(bounds) => bounds,
        None => return Err(ScoringError::ArithmeticOverflow),
    };
    let alpha = ExactRatio::new(error_nanos_per_hypothesis, ERROR_SCALE);
    let verified = adjusted_effect.numerator() > 0 && ratio_le(p_value, alpha);
    let statistic = MetricStatistic {
        metric: metric.name.clone(),
        stratum: stratum.name.clone(),
        case_effects: case_effect_list(&stratum.cases, &effects),
        block_effects: block_effect_list(&blocks, &values),
        observed_effect: to_effect(observed),
        adjusted_effect: to_effect(adjusted_effect),
        minimum_block_effect: to_effect(minimum),
        maximum_block_effect: to_effect(maximum),
        p_value,
        alpha,
    };
    let status = if verified {
        GateStatus::Verified
    } else {
        GateStatus::NotVerified
    };
    Ok((statistic, status))
}

} // verus!
