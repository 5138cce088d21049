//! What makes a campaign projection consistent.
use crate::evolution::campaign::state::{
    CampaignModel, CampaignState, EffectEntry, RoundModel, TerminalModel,
};
use crate::evolution::campaign::types::{
    validate_revision, revision_problem, CampaignBudget, CampaignPhase, CampaignUsage,
    CampaignValidationError, CandidateParent, CandidateStage, CandidateState, EffectAccounting,
    EffectLifecycle, EffectOutcome, EffectState, ResourceUsage, RoundVerdict, TerminalState, Totals,
    MAX_CANDIDATES_PER_ROUND, MAX_EFFECTS, MAX_ROUNDS,
};
use crate::evolution::composition::{failure_problem, plan_problem, CompositionChild};
use crate::evolution::ids::{CandidateId, CompositionId, RoundId};
use crate::first::{either, first_some, lemma_first_some_at, refused};
use vstd::prelude::*;

verus! {

/// Whether an index is the first one with a candidate's name.
pub open spec fn first_candidate(candidates: Seq<CandidateState>, id: CandidateId, i: int) -> bool {
    &&& 0 <= i < candidates.len()
    &&& candidates[i].id == id
    &&& forall|j: int| 0 <= j < i ==> (#[trigger] candidates[j]).id != id
}

/// The place of a candidate in a round, if it is there.
pub open spec fn find_candidate(candidates: Seq<CandidateState>, id: CandidateId) -> Option<int> {
    if exists|i: int| first_candidate(candidates, id, i) {
        Some(choose|i: int| first_candidate(candidates, id, i))
    } else {
        None
    }
}

pub(crate) fn position_of(candidates: &Vec<CandidateState>, id: CandidateId) -> (r: Option<usize>)
    ensures
        match r {
            Some(i) => i < candidates.len() && candidates@[i as int].id == id && find_candidate(
                candidates@,
                id,
            ) == Some(i as int),
            None => find_candidate(candidates@, id) is None && forall|i: int|
                0 <= i < candidates.len() ==> (#[trigger] candidates@[i]).id != id,
        },
{
    let mut i: usize = 0;
    while i < candidates.len()
        invariant
            i <= candidates.len(),
            forall|j: int| 0 <= j < i ==> (#[trigger] candidates@[j]).id != id,
        decreases candidates.len() - i,
    {
        if candidates[i].id == id {
            proof {
                let all = candidates@;
                assert(first_candidate(all, id, i as int));
                let k = choose|k: int| first_candidate(all, id, k);
                assert(first_candidate(all, id, k));
                assert(all[i as int].id == id && all[k].id == id);
            }
            return Some(i);
        }
        i += 1;
    }
    None
}

/// How a child of a composition relates to the candidates of its round.
#[derive(Clone, Copy, Debug, PartialEq, Eq, Structural)]
pub enum Lineage {
    /// The candidate is there, scored as the child says.
    Agrees,
    /// There is no such candidate.
    Missing,
    /// The candidate is not scored, or not as the child says.
    Differs,
}

/// Whether a stage is that of a scored candidate with the child's proposal and score.
pub open spec fn scored_as(stage: CandidateStage, child: CompositionChild) -> bool {
    match stage {
        CandidateStage::Scored { proposal, score, .. } => proposal == child.proposal && score
            == child.score,
        _ => false,
    }
}

pub open spec fn lineage(candidates: Seq<CandidateState>, child: CompositionChild) -> Lineage {
    match find_candidate(candidates, child.candidate) {
        None => Lineage::Missing,
        Some(i) => if scored_as(candidates[i].stage, child) {
            Lineage::Agrees
        } else {
            Lineage::Differs
        },
    }
}

pub(crate) fn lineage_of(candidates: &Vec<CandidateState>, child: &CompositionChild) -> (r: Lineage)
    ensures
        r == lineage(candidates@, *child),
{
    match position_of(candidates, child.candidate) {
        None => Lineage::Missing,
        Some(i) => match candidates[i].stage {
            CandidateStage::Scored { proposal, score, .. } => {
                if proposal == child.proposal && score == child.score {
                    Lineage::Agrees
                } else {
                    Lineage::Differs
                }
            },
            _ => Lineage::Differs,
        },
    }
}

/// Whether a candidate, plain or composed, stands before the candidate at an index of a
/// round.
pub open spec fn stands_before(rounds: Seq<RoundModel>, i: int, j: int, id: CandidateId) -> bool {
    ||| exists|b: int| 0 <= b < j && (#[trigger] rounds[i].candidates[b]).id == id
    ||| exists|a: int| 0 <= a < i && in_round(#[trigger] rounds[a], id)
}

/// Whether a candidate, plain or composed, belongs to a round.
pub open spec fn in_round(round: RoundModel, id: CandidateId) -> bool {
    ||| exists|b: int| 0 <= b < round.candidates.len() && (#[trigger] round.candidates[b]).id == id
    ||| round.composite matches Some(composite) && composite.plan.candidate == id
}

/// What is wrong with a candidate of a round.
pub open spec fn candidate_problem(s: CampaignModel, i: int, j: int) -> Option<
    CampaignValidationError,
> {
    let candidate = s.rounds[i].candidates[j];
    if stands_before(s.rounds, i, j, candidate.id) {
        Some(CampaignValidationError::DuplicateIdentity { field: "candidate" })
    } else {
        match candidate.parent {
            CandidateParent::BaseRevision(revision) => if revision != s.base_revision {
                Some(
                    CampaignValidationError::InconsistentState(
                        "candidate base revision differs from campaign base",
                    ),
                )
            } else {
                None
            },
            CandidateParent::Candidate(parent) => if !stands_before(s.rounds, i, j, parent) {
                Some(
                    CampaignValidationError::InconsistentState(
                        "candidate parent does not precede its child",
                    ),
                )
            } else {
                None
            },
        }
    }
}

pub open spec fn candidate_check(s: CampaignModel, i: int) -> spec_fn(int) -> Option<
    CampaignValidationError,
> {
    |j: int| candidate_problem(s, i, j)
}

/// What is wrong with a child of a composition, in the words for its two faults.
pub open spec fn child_problem(
    candidates: Seq<CandidateState>,
    child: CompositionChild,
    missing: &'static str,
    differs: &'static str,
) -> Option<CampaignValidationError> {
    match lineage(candidates, child) {
        Lineage::Agrees => None,
        Lineage::Missing => Some(CampaignValidationError::InconsistentState(missing)),
        Lineage::Differs => Some(CampaignValidationError::InconsistentState(differs)),
    }
}

pub open spec fn children_check(
    candidates: Seq<CandidateState>,
    children: Seq<CompositionChild>,
    missing: &'static str,
    differs: &'static str,
) -> spec_fn(int) -> Option<CampaignValidationError> {
    |k: int| child_problem(candidates, children[k], missing, differs)
}

/// What is wrong with the composite of a round.
pub open spec fn composite_problem(s: CampaignModel, i: int) -> Option<CampaignValidationError> {
    let round = s.rounds[i];
    match round.composite {
        None => None,
        Some(composite) => if plan_problem(composite.plan) is Some {
            Some(CampaignValidationError::InconsistentState("composite plan identity is invalid"))
        } else if composite.plan.parent != s.base_revision {
            Some(
                CampaignValidationError::InconsistentState(
                    "composite parent differs from campaign base",
                ),
            )
        } else if stands_before(
            s.rounds,
            i,
            round.candidates.len() as int,
            composite.plan.candidate,
        ) {
            Some(CampaignValidationError::DuplicateIdentity { field: "candidate" })
        } else {
            first_some(
                children_check(
                    round.candidates,
                    composite.plan.children,
                    "composite child is not in its round",
                    "composite child lineage differs from its scored candidate",
                ),
                composite.plan.children.len() as int,
            )
        },
    }
}

/// What is wrong with a round.
pub open spec fn round_problem(s: CampaignModel, i: int) -> Option<CampaignValidationError> {
    let round = s.rounds[i];
    if exists|a: int| 0 <= a < i && (#[trigger] s.rounds[a]).id == round.id {
        Some(CampaignValidationError::DuplicateIdentity { field: "round" })
    } else if round.ordinal != i + 1 {
        Some(CampaignValidationError::InconsistentState("round ordinals are not contiguous"))
    } else if round.candidates.len() > MAX_CANDIDATES_PER_ROUND {
        Some(
            CampaignValidationError::TooManyEntries {
                field: "round candidates",
                maximum: MAX_CANDIDATES_PER_ROUND,
            },
        )
    } else {
        either(
            first_some(candidate_check(s, i), round.candidates.len() as int),
            composite_problem(s, i),
        )
    }
}

pub open spec fn round_check(s: CampaignModel) -> spec_fn(int) -> Option<CampaignValidationError> {
    |i: int| round_problem(s, i)
}

/// What is wrong with the bounds and markers of a campaign.
pub open spec fn head_problem(s: CampaignModel) -> Option<CampaignValidationError> {
    if revision_problem(s.revision, "campaign revision") is Some {
        revision_problem(s.revision, "campaign revision")
    } else if s.budget.problem() is Some {
        s.budget.problem()
    } else if s.rounds.len() > MAX_ROUNDS {
        Some(
            CampaignValidationError::TooManyEntries {
                field: "campaign rounds",
                maximum: MAX_ROUNDS,
            },
        )
    } else if s.effects.len() > MAX_EFFECTS {
        Some(
            CampaignValidationError::TooManyEntries {
                field: "campaign effects",
                maximum: MAX_EFFECTS as usize,
            },
        )
    } else if (s.phase == CampaignPhase::Terminal) != (s.terminal is Some) {
        Some(
            CampaignValidationError::InconsistentState(
                "terminal marker does not match campaign phase",
            ),
        )
    } else if (s.phase == CampaignPhase::Paused) != (s.pause is Some) {
        Some(
            CampaignValidationError::InconsistentState("pause marker does not match campaign phase"),
        )
    } else {
        None
    }
}

/// Whether an index is the first one with a round's name.
pub open spec fn first_round(rounds: Seq<RoundModel>, id: RoundId, i: int) -> bool {
    &&& 0 <= i < rounds.len()
    &&& rounds[i].id == id
    &&& forall|j: int| 0 <= j < i ==> (#[trigger] rounds[j]).id != id
}

/// The place of a round, if it is there.
pub open spec fn find_round(rounds: Seq<RoundModel>, id: RoundId) -> Option<int> {
    if exists|i: int| first_round(rounds, id, i) {
        Some(choose|i: int| first_round(rounds, id, i))
    } else {
        None
    }
}

/// Whether a round was to be composed into this candidate by this composition.
pub open spec fn composite_chosen(
    verdict: Option<RoundVerdict>,
    chosen: CandidateId,
    by: CompositionId,
) -> bool {
    match verdict {
        Some(RoundVerdict::ComposeComposite { candidate, composition, .. }) => candidate == chosen
            && composition == by,
        _ => false,
    }
}

/// What is wrong with the record of a composition that failed.
pub open spec fn fallback_problem(s: CampaignModel) -> Option<CampaignValidationError> {
    match s.terminal {
        Some(TerminalModel::CompositionFallback { round, failure }) => if failure_problem(
            failure,
        ) is Some {
            Some(
                CampaignValidationError::InconsistentState(
                    "composition failure identity is invalid",
                ),
            )
        } else if failure.parent != s.base_revision {
            Some(
                CampaignValidationError::InconsistentState(
                    "composition failure parent differs from campaign base",
                ),
            )
        } else {
            match find_round(s.rounds, round) {
                None => Some(
                    CampaignValidationError::InconsistentState(
                        "composition failure round is not in the campaign",
                    ),
                ),
                Some(i) => if !composite_chosen(
                    s.rounds[i].verdict,
                    failure.candidate,
                    failure.id,
                ) {
                    Some(
                        CampaignValidationError::InconsistentState(
                            "composition failure differs from the round verdict",
                        ),
                    )
                } else {
                    first_some(
                        children_check(
                            s.rounds[i].candidates,
                            failure.children,
                            "composition failure child is not in its round",
                            "composition failure child differs from its scored candidate",
                        ),
                        failure.children.len() as int,
                    )
                },
            }
        },
        _ => None,
    }
}

/// What the effects that are not settled hold in reserve, over the first `n` of them.
pub open spec fn reserved_total(effects: Seq<EffectEntry>, n: int) -> Totals
    decreases n,
{
    if n <= 0 {
        Totals::zero()
    } else {
        let before = reserved_total(effects, n - 1);
        match effects[n - 1].state.lifecycle {
            EffectLifecycle::Settled { .. } => before,
            _ => before.plus(effects[n - 1].state.intent.budget.resources),
        }
    }
}

/// What the settled effects have used, over the first `n` effects.
pub open spec fn used_total(effects: Seq<EffectEntry>, n: int) -> Totals
    decreases n,
{
    if n <= 0 {
        Totals::zero()
    } else {
        let before = used_total(effects, n - 1);
        match effects[n - 1].state.lifecycle {
            EffectLifecycle::Settled { receipt, .. } => before.plus(
                receipt.charge(effects[n - 1].state.intent.budget),
            ),
            _ => before,
        }
    }
}

/// What is wrong with the state that an effect is in, whatever the others hold.
pub open spec fn lifecycle_problem(effect: EffectState) -> Option<CampaignValidationError> {
    if effect.lifecycle.epoch().problem() is Some {
        effect.lifecycle.epoch().problem()
    } else {
        match effect.lifecycle {
            EffectLifecycle::Settled { receipt, .. } => match receipt.accounting {
                EffectAccounting::Known(usage) => if !usage.storable() {
                    usage.problem("effect receipt usage")
                } else if receipt.outcome is InfrastructureUnknown || !usage.spec_fits_within(
                    effect.intent.budget.resources,
                ) {
                    Some(
                        CampaignValidationError::InconsistentState(
                            "effect receipt accounting is invalid",
                        ),
                    )
                } else {
                    None
                },
                EffectAccounting::ReservationCharged => None,
            },
            _ => None,
        }
    }
}

/// What is wrong with an effect.
pub open spec fn effect_problem(s: CampaignModel, i: int) -> Option<CampaignValidationError> {
    let effect = s.effects[i].state;
    if effect.intent.problem() is Some {
        effect.intent.problem()
    } else if s.effects[i].id != effect.intent.id || effect.intent.campaign != s.id {
        Some(CampaignValidationError::BadEffectIdentity)
    } else if effect.intent.transition_revision > s.revision {
        Some(
            CampaignValidationError::InconsistentState(
                "effect intent is newer than campaign projection",
            ),
        )
    } else if lifecycle_problem(effect) is Some {
        lifecycle_problem(effect)
    } else if !reserved_total(s.effects, i + 1).fits() {
        Some(CampaignValidationError::NumberOutOfRange { field: "campaign reserved usage" })
    } else if !used_total(s.effects, i + 1).fits() {
        Some(CampaignValidationError::NumberOutOfRange { field: "campaign used resources" })
    } else {
        None
    }
}

pub open spec fn effect_check(s: CampaignModel) -> spec_fn(int) -> Option<CampaignValidationError> {
    |i: int| effect_problem(s, i)
}

/// Whether the recorded usage is what the effects add up to.
pub open spec fn usage_adds_up(usage: CampaignUsage, effects: Seq<EffectEntry>) -> bool {
    &&& usage.effects_intended == effects.len()
    &&& usage.used.totals() == used_total(effects, effects.len() as int)
    &&& usage.reserved.totals() == reserved_total(effects, effects.len() as int)
}

/// Whether what is used and what is reserved together stay within a budget.
pub open spec fn within_budget(usage: CampaignUsage, budget: CampaignBudget) -> bool {
    &&& usage.effects_intended <= budget.max_effects
    &&& usage.used.queries + usage.reserved.queries <= budget.resources.queries
    &&& usage.used.error_nanos + usage.reserved.error_nanos <= budget.resources.error_nanos
    &&& usage.used.artifact_bytes + usage.reserved.artifact_bytes <= budget.resources.artifact_bytes
}

/// What is wrong with the usage of a campaign.
pub open spec fn usage_problem(s: CampaignModel) -> Option<CampaignValidationError> {
    if !usage_adds_up(s.usage, s.effects) {
        Some(
            CampaignValidationError::InconsistentState(
                "campaign usage does not match effect records",
            ),
        )
    } else if !within_budget(s.usage, s.budget) {
        Some(CampaignValidationError::InconsistentState("campaign usage exceeds its budget"))
    } else {
        None
    }
}

/// The first thing that is wrong with a campaign.
pub open spec fn campaign_problem(s: CampaignModel) -> Option<CampaignValidationError> {
    either(
        head_problem(s),
        either(
            first_some(round_check(s), s.rounds.len() as int),
            either(
                fallback_problem(s),
                either(first_some(effect_check(s), s.effects.len() as int), usage_problem(s)),
            ),
        ),
    )
}

fn validate_children(
    candidates: &Vec<CandidateState>,
    children: &Vec<CompositionChild>,
    missing: &'static str,
    differs: &'static str,
) -> (r: Result<(), CampaignValidationError>)
    ensures
        r == refused(
            first_some(
                children_check(candidates@, children@, missing, differs),
                children.len() as int,
            ),
        ),
{
    let mut k: usize = 0;
    while k < children.len()
        invariant
            k <= children.len(),
            first_some(children_check(candidates@, children@, missing, differs), k as int) is None,
        decreases children.len() - k,
    {
        match lineage_of(candidates, &children[k]) {
            Lineage::Agrees => {},
            Lineage::Missing => {
                proof {
                    lemma_first_some_at(
                        children_check(candidates@, children@, missing, differs),
                        k as int,
                        children.len() as int,
                    );
                }
                return Err(CampaignValidationError::InconsistentState(missing));
            },
            Lineage::Differs => {
                proof {
                    lemma_first_some_at(
                        children_check(candidates@, children@, missing, differs),
                        k as int,
                        children.len() as int,
                    );
                }
                return Err(CampaignValidationError::InconsistentState(differs));
            },
        }
        k += 1;
    }
    Ok(())
}

fn listed(ids: &Vec<CandidateId>, id: CandidateId) -> (r: bool)
    ensures
        r == ids@.contains(id),
{
    let mut i: usize = 0;
    while i < ids.len()
        invariant
            i <= ids.len(),
            forall|j: int| 0 <= j < i ==> ids@[j] != id,
        decreases ids.len() - i,
    {
        if ids[i] == id {
            return true;
        }
        i += 1;
    }
    false
}

/// Whether a list names exactly the candidates that stand before one of a round.
spec fn lists(seen: Seq<CandidateId>, rounds: Seq<RoundModel>, i: int, j: int) -> bool {
    forall|id: CandidateId| #[trigger] seen.contains(id) <==> stands_before(rounds, i, j, id)
}

proof fn lemma_lists_push(seen: Seq<CandidateId>, rounds: Seq<RoundModel>, i: int, j: int)
    requires
        lists(seen, rounds, i, j),
        0 <= i < rounds.len(),
        0 <= j < rounds[i].candidates.len(),
    ensures
        lists(seen.push(rounds[i].candidates[j].id), rounds, i, j + 1),
{
    let new = rounds[i].candidates[j].id;
    let after = seen.push(new);
    assert forall|id: CandidateId| #[trigger] after.contains(id) <==> stands_before(
        rounds,
        i,
        j + 1,
        id,
    ) by {
        if after.contains(id) {
            let k = choose|k: int| 0 <= k < after.len() && after[k] == id;
            if k < seen.len() {
                assert(seen[k] == id);
                assert(seen.contains(id));
            } else {
                assert(rounds[i].candidates[j].id == id);
            }
        }
        if stands_before(rounds, i, j + 1, id) {
            if id == new {
                assert(after[seen.len() as int] == id);
            } else {
                assert(stands_before(rounds, i, j, id));
                assert(seen.contains(id));
                let k = choose|k: int| 0 <= k < seen.len() && seen[k] == id;
                assert(after[k] == id);
            }
        }
    }
}

proof fn lemma_lists_next(
    seen: Seq<CandidateId>,
    after: Seq<CandidateId>,
    rounds: Seq<RoundModel>,
    i: int,
)
    requires
        0 <= i < rounds.len(),
        lists(seen, rounds, i, rounds[i].candidates.len() as int),
        after == match rounds[i].composite {
            Some(composite) => seen.push(composite.plan.candidate),
            None => seen,
        },
    ensures
        lists(after, rounds, i + 1, 0),
{
    assert forall|id: CandidateId| #[trigger] after.contains(id) <==> stands_before(
        rounds,
        i + 1,
        0,
        id,
    ) by {
        let n = rounds[i].candidates.len() as int;
        assert(in_round(rounds[i], id) ==> stands_before(rounds, i + 1, 0, id));
        if after.contains(id) {
            let k = choose|k: int| 0 <= k < after.len() && after[k] == id;
            if k < seen.len() {
                assert(seen[k] == id);
                assert(seen.contains(id));
                assert(stands_before(rounds, i, n, id));
                if exists|b: int| 0 <= b < n && (#[trigger] rounds[i].candidates[b]).id == id {
                    assert(in_round(rounds[i], id));
                }
            } else {
                assert(in_round(rounds[i], id));
            }
        }
        if stands_before(rounds, i + 1, 0, id) {
            let a = choose|a: int| 0 <= a < i + 1 && in_round(#[trigger] rounds[a], id);
            if seen.contains(id) {
                let k = choose|k: int| 0 <= k < seen.len() && seen[k] == id;
                assert(after[k] == id);
            } else {
                assert(!stands_before(rounds, i, n, id));
                assert(a == i);
                assert(after[seen.len() as int] == id);
            }
        }
    }
}

impl CampaignState {
    fn validate_head(&self) -> (r: Result<(), CampaignValidationError>)
        ensures
            r == refused(head_problem(self@)),
    {
        match validate_revision(self.revision, "campaign revision") {
            Err(error) => return Err(error),
            Ok(()) => {},
        }
        match self.budget.validate() {
            Err(error) => return Err(error),
            Ok(()) => {},
        }
        if self.rounds.len() > MAX_ROUNDS {
            return Err(
                CampaignValidationError::TooManyEntries {
                    field: "campaign rounds",
                    maximum: MAX_ROUNDS,
                },
            );
        }
        if self.effects.len() > MAX_EFFECTS as usize {
            return Err(
                CampaignValidationError::TooManyEntries {
                    field: "campaign effects",
                    maximum: MAX_EFFECTS as usize,
                },
            );
        }
        if (self.phase == CampaignPhase::Terminal) != self.terminal.is_some() {
            return Err(
                CampaignValidationError::InconsistentState(
                    "terminal marker does not match campaign phase",
                ),
            );
        }
        if (self.phase == CampaignPhase::Paused) != self.pause.is_some() {
            return Err(
                CampaignValidationError::InconsistentState(
                    "pause marker does not match campaign phase",
                ),
            );
        }
        Ok(())
    }

    fn validate_candidates(&self, i: usize, seen: &mut Vec<CandidateId>) -> (r: Result<
        (),
        CampaignValidationError,
    >)
        requires
            i < self.rounds.len(),
            lists(old(seen)@, self@.rounds, i as int, 0),
        ensures
            r == refused(
                first_some(
                    candidate_check(self@, i as int),
                    self@.rounds[i as int].candidates.len() as int,
                ),
            ),
            r is Ok ==> lists(
                final(seen)@,
                self@.rounds,
                i as int,
                self@.rounds[i as int].candidates.len() as int,
            ),
    {
        let candidates = &self.rounds[i].candidates;
        assert(candidates@ == self@.rounds[i as int].candidates);
        let mut j: usize = 0;
        while j < candidates.len()
            invariant
                i < self.rounds.len(),
                j <= candidates.len(),
                candidates@ == self@.rounds[i as int].candidates,
                lists(seen@, self@.rounds, i as int, j as int),
                first_some(candidate_check(self@, i as int), j as int) is None,
            decreases candidates.len() - j,
        {
            let candidate = candidates[j];
            assert(candidate_check(self@, i as int)(j as int) == candidate_problem(
                self@,
                i as int,
                j as int,
            ));
            let mut problem: Option<CampaignValidationError> = None;
            if listed(seen, candidate.id) {
                problem = Some(CampaignValidationError::DuplicateIdentity { field: "candidate" });
            } else {
                match candidate.parent {
                    CandidateParent::BaseRevision(revision) => {
                        if revision != self.base_revision {
                            problem = Some(
                                CampaignValidationError::InconsistentState(
                                    "candidate base revision differs from campaign base",
                                ),
                            );
                        }
                    },
                    CandidateParent::Candidate(parent) => {
                        if !listed(seen, parent) {
                            problem = Some(
                                CampaignValidationError::InconsistentState(
                                    "candidate parent does not precede its child",
                                ),
                            );
                        }
                    },
                }
            }
            match problem {
                Some(error) => {
                    proof {
                        lemma_first_some_at(
                            candidate_check(self@, i as int),
                            j as int,
                            candidates.len() as int,
                        );
                    }
                    return Err(error);
                },
                None => {},
            }
            proof {
                lemma_lists_push(seen@, self@.rounds, i as int, j as int);
            }
            seen.push(candidate.id);
            j += 1;
        }
        Ok(())
    }

    fn validate_composite(&self, i: usize, seen: &mut Vec<CandidateId>) -> (r: Result<
        (),
        CampaignValidationError,
    >)
        requires
            i < self.rounds.len(),
            lists(
                old(seen)@,
                self@.rounds,
                i as int,
                self@.rounds[i as int].candidates.len() as int,
            ),
        ensures
            r == refused(composite_problem(self@, i as int)),
            r is Ok ==> lists(final(seen)@, self@.rounds, i + 1, 0),
    {
        let round = &self.rounds[i];
        assert(round@ == self@.rounds[i as int]);
        match &round.composite {
            None => {
                proof {
                    lemma_lists_next(seen@, seen@, self@.rounds, i as int);
                }
                Ok(())
            },
            Some(composite) => {
                if composite.plan.validate().is_err() {
                    return Err(
                        CampaignValidationError::InconsistentState(
                            "composite plan identity is invalid",
                        ),
                    );
                }
                if composite.plan.parent != self.base_revision {
                    return Err(
                        CampaignValidationError::InconsistentState(
                            "composite parent differs from campaign base",
                        ),
                    );
                }
                if listed(seen, composite.plan.candidate) {
                    return Err(CampaignValidationError::DuplicateIdentity { field: "candidate" });
                }
                match validate_children(
                    &round.candidates,
                    &composite.plan.children,
                    "composite child is not in its round",
                    "composite child lineage differs from its scored candidate",
                ) {
                    Err(error) => return Err(error),
                    Ok(()) => {},
                }
                proof {
                    lemma_lists_next(
                        seen@,
                        seen@.push(composite.plan.candidate),
                        self@.rounds,
                        i as int,
                    );
                }
                seen.push(composite.plan.candidate);
                Ok(())
            },
        }
    }

    fn round_repeats(&self, i: usize) -> (r: bool)
        requires
            i < self.rounds.len(),
        ensures
            r == exists|a: int|
                0 <= a < i && (#[trigger] self@.rounds[a]).id == self@.rounds[i as int].id,
    {
        let mut a: usize = 0;
        while a < i
            invariant
                a <= i < self.rounds.len(),
                forall|b: int|
                    0 <= b < a ==> (#[trigger] self@.rounds[b]).id != self@.rounds[i as int].id,
            decreases i - a,
        {
            assert(self@.rounds[a as int] == self.rounds@[a as int]@);
            assert(self@.rounds[i as int] == self.rounds@[i as int]@);
            if self.rounds[a].id == self.rounds[i].id {
                return true;
            }
            a += 1;
        }
        false
    }

    fn validate_rounds(&self) -> (r: Result<(), CampaignValidationError>)
        requires
            self.rounds.len() <= MAX_ROUNDS,
        ensures
            r == refused(first_some(round_check(self@), self@.rounds.len() as int)),
    {
        let mut seen: Vec<CandidateId> = Vec::new();
        let mut i: usize = 0;
        assert(lists(seen@, self@.rounds, 0, 0)) by {
            assert forall|id: CandidateId| #[trigger] seen@.contains(id) <==> stands_before(
                self@.rounds,
                0,
                0,
                id,
            ) by {}
        }
        while i < self.rounds.len()
            invariant
                i <= self.rounds.len() <= MAX_ROUNDS,
                lists(seen@, self@.rounds, i as int, 0),
                first_some(round_check(self@), i as int) is None,
            decreases self.rounds.len() - i,
        {
            assert(self@.rounds[i as int] == self.rounds@[i as int]@);
            assert(round_check(self@)(i as int) == round_problem(self@, i as int));
            let mut checked: Result<(), CampaignValidationError> = Ok(());
            if self.round_repeats(i) {
                checked = Err(CampaignValidationError::DuplicateIdentity { field: "round" });
            } else if self.rounds[i].ordinal as usize != i + 1 {
                checked =
                Err(
                    CampaignValidationError::InconsistentState("round ordinals are not contiguous"),
                );
            } else if self.rounds[i].candidates.len() > MAX_CANDIDATES_PER_ROUND {
                checked =
                Err(
                    CampaignValidationError::TooManyEntries {
                        field: "round candidates",
                        maximum: MAX_CANDIDATES_PER_ROUND,
                    },
                );
            } else {
                checked = self.validate_candidates(i, &mut seen);
                if checked.is_ok() {
                    checked = self.validate_composite(i, &mut seen);
                }
            }
            match checked {
                Err(error) => {
                    proof {
                        lemma_first_some_at(
                            round_check(self@),
                            i as int,
                            self@.rounds.len() as int,
                        );
                    }
                    return Err(error);
                },
                Ok(()) => {},
            }
            i += 1;
        }
        Ok(())
    }

    fn round_position(&self, id: RoundId) -> (r: Option<usize>)
        ensures
            match r {
                Some(i) => i < self.rounds.len() && find_round(self@.rounds, id) == Some(i as int),
                None => find_round(self@.rounds, id) is None,
            },
    {
        let mut i: usize = 0;
        while i < self.rounds.len()
            invariant
                i <= self.rounds.len(),
                forall|j: int| 0 <= j < i ==> (#[trigger] self@.rounds[j]).id != id,
            decreases self.rounds.len() - i,
        {
            assert(self@.rounds[i as int] == self.rounds@[i as int]@);
            if self.rounds[i].id == id {
                proof {
                    let all = self@.rounds;
                    assert(first_round(all, id, i as int));
                    let k = choose|k: int| first_round(all, id, k);
                    assert(first_round(all, id, k));
                    assert(all[i as int].id == id && all[k].id == id);
                }
                return Some(i);
            }
            i += 1;
        }
        None
    }

    fn validate_fallback(&self) -> (r: Result<(), CampaignValidationError>)
        ensures
            r == refused(fallback_problem(self@)),
    {
        match &self.terminal {
            Some(TerminalState::CompositionFallback { round, failure }) => {
                if failure.validate().is_err() {
                    return Err(
                        CampaignValidationError::InconsistentState(
                            "composition failure identity is invalid",
                        ),
                    );
                }
                if failure.parent != self.base_revision {
                    return Err(
                        CampaignValidationError::InconsistentState(
                            "composition failure parent differs from campaign base",
                        ),
                    );
                }
                match self.round_position(*round) {
                    None => Err(
                        CampaignValidationError::InconsistentState(
                            "composition failure round is not in the campaign",
                        ),
                    ),
                    Some(i) => {
                        assert(self@.rounds[i as int] == self.rounds@[i as int]@);
                        if !is_composite_chosen(
                            self.rounds[i].verdict,
                            failure.candidate,
                            failure.id,
                        ) {
                            return Err(
                                CampaignValidationError::InconsistentState(
                                    "composition failure differs from the round verdict",
                                ),
                            );
                        }
                        validate_children(
                            &self.rounds[i].candidates,
                            &failure.children,
                            "composition failure child is not in its round",
                            "composition failure child differs from its scored candidate",
                        )
                    },
                }
            },
            _ => Ok(()),
        }
    }

    /// Checks one effect, and adds it to what the effects before it add up to.
    fn validate_effect(&self, i: usize, calculated: CampaignUsage) -> (r: Result<
        CampaignUsage,
        CampaignValidationError,
    >)
        requires
            i < self@.effects.len() <= MAX_EFFECTS,
            calculated.effects_intended == i,
            calculated.used.totals() == used_total(self@.effects, i as int),
            calculated.reserved.totals() == reserved_total(self@.effects, i as int),
        ensures
            match r {
                Ok(next) => {
                    &&& effect_problem(self@, i as int) is None
                    &&& next.effects_intended == i + 1
                    &&& next.used.totals() == used_total(self@.effects, i + 1)
                    &&& next.reserved.totals() == reserved_total(self@.effects, i + 1)
                },
                Err(error) => effect_problem(self@, i as int) == Some(error),
            },
    {
        let entry = self.effects.entry(i);
        let effect = entry.state;
        match effect.intent.validate() {
            Err(error) => return Err(error),
            Ok(()) => {},
        }
        if entry.id != effect.intent.id || effect.intent.campaign != self.id {
            return Err(CampaignValidationError::BadEffectIdentity);
        }
        if effect.intent.transition_revision > self.revision {
            return Err(
                CampaignValidationError::InconsistentState(
                    "effect intent is newer than campaign projection",
                ),
            );
        }
        let effects_intended = calculated.effects_intended + 1;
        assert(calculated.used.totals().fits());
        assert(calculated.reserved.totals().fits());
        match effect.lifecycle {
            EffectLifecycle::Settled { epoch, receipt } => {
                match epoch.validate() {
                    Err(error) => return Err(error),
                    Ok(()) => {},
                }
                let charged = match receipt.accounting {
                    EffectAccounting::Known(usage) => {
                        match usage.validate("effect receipt usage") {
                            Err(error) => return Err(error),
                            Ok(()) => {},
                        }
                        let unknown = match receipt.outcome {
                            EffectOutcome::InfrastructureUnknown { .. } => true,
                            _ => false,
                        };
                        if unknown || !usage.fits_within(effect.intent.budget.resources) {
                            return Err(
                                CampaignValidationError::InconsistentState(
                                    "effect receipt accounting is invalid",
                                ),
                            );
                        }
                        usage
                    },
                    EffectAccounting::ReservationCharged => effect.intent.budget.resources,
                };
                match calculated.used.checked_add(charged) {
                    None => Err(
                        CampaignValidationError::NumberOutOfRange {
                            field: "campaign used resources",
                        },
                    ),
                    Some(used) => Ok(
                        CampaignUsage { effects_intended, used, reserved: calculated.reserved },
                    ),
                }
            },
            EffectLifecycle::Intended { lease_epoch } => self.validate_reservation(
                i,
                calculated,
                lease_epoch.validate(),
                effect.intent.budget.resources,
            ),
            EffectLifecycle::Reconciled { lease_epoch, .. } => self.validate_reservation(
                i,
                calculated,
                lease_epoch.validate(),
                effect.intent.budget.resources,
            ),
            EffectLifecycle::Leased { epoch } => self.validate_reservation(
                i,
                calculated,
                epoch.validate(),
                effect.intent.budget.resources,
            ),
        }
    }

    fn validate_reservation(
        &self,
        i: usize,
        calculated: CampaignUsage,
        epoch: Result<(), CampaignValidationError>,
        resources: ResourceUsage,
    ) -> (r: Result<CampaignUsage, CampaignValidationError>)
        requires
            calculated.effects_intended < MAX_EFFECTS,
        ensures
            match r {
                Ok(next) => {
                    &&& epoch is Ok
                    &&& next.effects_intended == calculated.effects_intended + 1
                    &&& next.used == calculated.used
                    &&& next.reserved.totals() == calculated.reserved.totals().plus(resources)
                },
                Err(error) => match epoch {
                    Err(bad) => error == bad,
                    Ok(()) => {
                        &&& !calculated.reserved.totals().plus(resources).fits()
                        &&& error == (CampaignValidationError::NumberOutOfRange {
                            field: "campaign reserved usage",
                        })
                    },
                },
            },
    {
        match epoch {
            Err(error) => return Err(error),
            Ok(()) => {},
        }
        match calculated.reserved.checked_add(resources) {
            None => Err(
                CampaignValidationError::NumberOutOfRange { field: "campaign reserved usage" },
            ),
            Some(reserved) => Ok(
                CampaignUsage {
                    effects_intended: calculated.effects_intended + 1,
                    used: calculated.used,
                    reserved,
                },
            ),
        }
    }

    fn validate_effects(&self) -> (r: Result<(), CampaignValidationError>)
        requires
            self@.effects.len() <= MAX_EFFECTS,
        ensures
            r == refused(
                either(
                    first_some(effect_check(self@), self@.effects.len() as int),
                    usage_problem(self@),
                ),
            ),
    {
        let mut calculated = CampaignUsage::default();
        let mut i: usize = 0;
        while i < self.effects.len()
            invariant
                i <= self@.effects.len() <= MAX_EFFECTS,
                calculated.effects_intended == i,
                calculated.used.totals() == used_total(self@.effects, i as int),
                calculated.reserved.totals() == reserved_total(self@.effects, i as int),
                first_some(effect_check(self@), i as int) is None,
            decreases self@.effects.len() - i,
        {
            assert(effect_check(self@)(i as int) == effect_problem(self@, i as int));
            match self.validate_effect(i, calculated) {
                Err(error) => {
                    proof {
                        lemma_first_some_at(
                            effect_check(self@),
                            i as int,
                            self@.effects.len() as int,
                        );
                    }
                    return Err(error);
                },
                Ok(next) => {
                    calculated = next;
                },
            }
            i += 1;
        }
        if calculated != self.usage {
            return Err(
                CampaignValidationError::InconsistentState(
                    "campaign usage does not match effect records",
                ),
            );
        }
        let fits = match calculated.used.checked_add(calculated.reserved) {
            Some(total) => total.fits_within(self.budget.resources),
            None => false,
        };
        if calculated.effects_intended > self.budget.max_effects || !fits {
            return Err(
                CampaignValidationError::InconsistentState("campaign usage exceeds its budget"),
            );
        }
        Ok(())
    }

    /// Checks the whole projection and reports the first thing that is wrong.
    pub fn validate(&self) -> (r: Result<(), CampaignValidationError>)
        ensures
            r == refused(campaign_problem(self@)),
    {
        match self.validate_head() {
            Err(error) => return Err(error),
            Ok(()) => {},
        }
        match self.validate_rounds() {
            Err(error) => return Err(error),
            Ok(()) => {},
        }
        match self.validate_fallback() {
            Err(error) => return Err(error),
            Ok(()) => {},
        }
        self.validate_effects()
    }
}

pub(crate) fn is_composite_chosen(
    verdict: Option<RoundVerdict>,
    chosen: CandidateId,
    by: CompositionId,
) -> (r: bool)
    ensures
        r == composite_chosen(verdict, chosen, by),
{
    match verdict {
        Some(RoundVerdict::ComposeComposite { candidate, composition, .. }) => candidate == chosen
            && composition == by,
        _ => false,
    }
}

} // verus!
