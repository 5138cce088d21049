//! The events of a campaign and what each of them does.
use crate::digest::Digest;
use crate::evolution::campaign::state::{
    effect_of, known, with_effect, CampaignModel, CompositeModel, EffectEntry, RoundModel,
    TerminalModel,
};
use crate::evolution::campaign::types::{
    ActivationOutcome, ActivationState, ApprovalDecision, ApprovalState, CampaignBudget,
    CampaignNote, CampaignPhase, CampaignUsage, CampaignValidationError, CandidateParent,
    CandidateStage, CandidateState, CompositeOutcome, CompositeStage, EffectAccounting,
    EffectBudget, EffectId, EffectIntent, EffectLifecycle, EffectReceipt, EffectReconciliation,
    EffectState, FinalVerdict, LeaseEpoch, MonitoringOutcome, MonitoringState, PauseState,
    ResourceUsage, RoundVerdict, MAX_CANDIDATES_PER_ROUND, MAX_ROUNDS, MAX_STORED_NUMBER,
};
use crate::evolution::campaign::validate::{
    campaign_problem, composite_chosen, find_candidate, in_round, lineage, Lineage,
};
use crate::evolution::composition::{
    failure_problem, plan_problem, CompositePlan, CompositionChild, CompositionFailure,
    FailureModel, PlanModel,
};
use crate::evolution::ids::{
    CampaignId, CandidateId, CohortId, CompositionId, MiningResultId, PolicyIdentity, ProposalId,
    RoundId, ScoreResultId, TrialResultId,
};
use crate::first::first_some;
use vstd::prelude::*;

verus! {

#[allow(inconsistent_fields)]
#[derive(Debug, PartialEq, Eq)]
pub enum CampaignEvent {
    Started {
        campaign: CampaignId,
        cohort: CohortId,
        base_revision: Digest,
        policy: PolicyIdentity,
        budget: CampaignBudget,
    },
    RoundStarted { round: RoundId },
    MiningCompleted { round: RoundId, result: MiningResultId },
    CandidateProposed {
        round: RoundId,
        candidate: CandidateId,
        parent: CandidateParent,
        proposal: ProposalId,
    },
    ProposalsCompleted { round: RoundId },
    CandidateTrialRecorded { round: RoundId, candidate: CandidateId, trial: TrialResultId },
    TrialsCompleted { round: RoundId },
    CandidateScoreRecorded { round: RoundId, candidate: CandidateId, score: ScoreResultId },
    RoundVerdictRecorded { round: RoundId, verdict: RoundVerdict },
    CompositionRecorded {
        round: RoundId,
        candidate: CandidateId,
        composition: CompositionId,
        revision: Digest,
    },
    CompositeCompositionRecorded { round: RoundId, plan: CompositePlan },
    CompositeCompositionFailed { round: RoundId, failure: CompositionFailure },
    CompositeScoreRecorded {
        round: RoundId,
        candidate: CandidateId,
        score: ScoreResultId,
        outcome: CompositeOutcome,
    },
    FinalVerdictRecorded { verdict: FinalVerdict },
    ApprovalRecorded { decision: ApprovalDecision },
    ActivationRecorded { outcome: ActivationOutcome },
    MonitoringCompleted { outcome: MonitoringOutcome },
    Paused { reason: CampaignNote },
    Resumed,
    EffectIntended { intent: EffectIntent },
    EffectLeased { effect: EffectId, epoch: LeaseEpoch },
    EffectReconciled {
        effect: EffectId,
        leased_epoch: LeaseEpoch,
        next_epoch: LeaseEpoch,
        outcome: EffectReconciliation,
    },
    EffectSettled { effect: EffectId, epoch: LeaseEpoch, receipt: EffectReceipt },
}

impl CampaignEvent {
    pub open spec fn spec_name(self) -> &'static str {
        match self {
            CampaignEvent::Started { .. } => "started",
            CampaignEvent::RoundStarted { .. } => "round_started",
            CampaignEvent::MiningCompleted { .. } => "mining_completed",
            CampaignEvent::CandidateProposed { .. } => "candidate_proposed",
            CampaignEvent::ProposalsCompleted { .. } => "proposals_completed",
            CampaignEvent::CandidateTrialRecorded { .. } => "candidate_trial_recorded",
            CampaignEvent::TrialsCompleted { .. } => "trials_completed",
            CampaignEvent::CandidateScoreRecorded { .. } => "candidate_score_recorded",
            CampaignEvent::RoundVerdictRecorded { .. } => "round_verdict_recorded",
            CampaignEvent::CompositionRecorded { .. } => "composition_recorded",
            CampaignEvent::CompositeCompositionRecorded { .. } => "composite_composition_recorded",
            CampaignEvent::CompositeCompositionFailed { .. } => "composite_composition_failed",
            CampaignEvent::CompositeScoreRecorded { .. } => "composite_score_recorded",
            CampaignEvent::FinalVerdictRecorded { .. } => "final_verdict_recorded",
            CampaignEvent::ApprovalRecorded { .. } => "approval_recorded",
            CampaignEvent::ActivationRecorded { .. } => "activation_recorded",
            CampaignEvent::MonitoringCompleted { .. } => "monitoring_completed",
            CampaignEvent::Paused { .. } => "paused",
            CampaignEvent::Resumed => "resumed",
            CampaignEvent::EffectIntended { .. } => "effect_intended",
            CampaignEvent::EffectLeased { .. } => "effect_leased",
            CampaignEvent::EffectReconciled { .. } => "effect_reconciled",
            CampaignEvent::EffectSettled { .. } => "effect_settled",
        }
    }

    pub(crate) fn name(&self) -> (r: &'static str)
        ensures
            r == self.spec_name(),
    {
        match self {
            CampaignEvent::Started { .. } => "started",
            CampaignEvent::RoundStarted { .. } => "round_started",
            CampaignEvent::MiningCompleted { .. } => "mining_completed",
            CampaignEvent::CandidateProposed { .. } => "candidate_proposed",
            CampaignEvent::ProposalsCompleted { .. } => "proposals_completed",
            CampaignEvent::CandidateTrialRecorded { .. } => "candidate_trial_recorded",
            CampaignEvent::TrialsCompleted { .. } => "trials_completed",
            CampaignEvent::CandidateScoreRecorded { .. } => "candidate_score_recorded",
            CampaignEvent::RoundVerdictRecorded { .. } => "round_verdict_recorded",
            CampaignEvent::CompositionRecorded { .. } => "composition_recorded",
            CampaignEvent::CompositeCompositionRecorded { .. } => "composite_composition_recorded",
            CampaignEvent::CompositeCompositionFailed { .. } => "composite_composition_failed",
            CampaignEvent::CompositeScoreRecorded { .. } => "composite_score_recorded",
            CampaignEvent::FinalVerdictRecorded { .. } => "final_verdict_recorded",
            CampaignEvent::ApprovalRecorded { .. } => "approval_recorded",
            CampaignEvent::ActivationRecorded { .. } => "activation_recorded",
            CampaignEvent::MonitoringCompleted { .. } => "monitoring_completed",
            CampaignEvent::Paused { .. } => "paused",
            CampaignEvent::Resumed => "resumed",
            CampaignEvent::EffectIntended { .. } => "effect_intended",
            CampaignEvent::EffectLeased { .. } => "effect_leased",
            CampaignEvent::EffectReconciled { .. } => "effect_reconciled",
            CampaignEvent::EffectSettled { .. } => "effect_settled",
        }
    }
}

/// Why an event is refused.
#[derive(Clone, Copy, Debug, PartialEq, Eq)]
pub enum CampaignTransitionError {
    Invalid(CampaignValidationError),
    NotStarted,
    AlreadyStarted,
    IllegalTransition { phase: CampaignPhase, event: &'static str },
    RevisionExhausted,
    TerminalMutation { event: &'static str },
    WrongRound { round: RoundId },
    DuplicateRound { round: RoundId },
    DuplicateCandidate { candidate: CandidateId },
    UnknownCandidate { candidate: CandidateId },
    WrongCandidateStage { candidate: CandidateId },
    InvalidCandidateParent { candidate: CandidateId },
    EmptyRound,
    IncompleteCandidates,
    InvalidVerdictCandidate { candidate: CandidateId },
    RevisionMismatch,
    OpenEffects,
    BudgetExceeded,
    DuplicateEffect { effect: EffectId },
    UnknownEffect { effect: EffectId },
    ReconciliationRequired { effect: EffectId },
    EffectNotLeased { effect: EffectId },
    EffectAlreadySettled { effect: EffectId },
    StaleLeaseEpoch { effect: EffectId, expected: u64, actual: u64 },
    InvalidLeaseEpoch { effect: EffectId, expected: u64, actual: u64 },
    ReceiptExceedsReservation,
    UnknownEffectMustChargeReservation,
    FenceRequiresInfrastructureUnknown,
    ConflictingTerminalReceipt { effect: EffectId },
}

/// What an event leads to: the next record, or a refusal.
pub type Step = Result<CampaignModel, CampaignTransitionError>;

pub open spec fn illegal(s: CampaignModel, event: &'static str) -> Step {
    Err(CampaignTransitionError::IllegalTransition { phase: s.phase, event })
}

/// Whether an effect is under way or waits to be.
pub open spec fn effects_open(effects: Seq<EffectEntry>) -> bool {
    exists|i: int| 0 <= i < effects.len() && !((#[trigger] effects[i]).state.lifecycle is Settled)
}

/// Whether a round is the last one that was started.
pub open spec fn is_current(s: CampaignModel, round: RoundId) -> bool {
    s.rounds.len() > 0 && s.rounds.last().id == round
}

/// Whether a candidate, plain or composed, belongs to any round.
pub open spec fn candidate_known(s: CampaignModel, id: CandidateId) -> bool {
    exists|a: int| 0 <= a < s.rounds.len() && in_round(#[trigger] s.rounds[a], id)
}

/// The record with another last round.
pub open spec fn with_last(s: CampaignModel, round: RoundModel) -> CampaignModel {
    CampaignModel { rounds: s.rounds.update(s.rounds.len() - 1, round), ..s }
}

/// The record with the candidate at an index of the last round in another stage.
pub open spec fn with_stage(s: CampaignModel, i: int, stage: CandidateStage) -> CampaignModel {
    let round = s.rounds.last();
    with_last(
        s,
        RoundModel {
            candidates: round.candidates.update(
                i,
                CandidateState { stage, ..round.candidates[i] },
            ),
            ..round
        },
    )
}

/// The record with the composite of the last round in another stage.
pub open spec fn with_composite_stage(s: CampaignModel, stage: CompositeStage) -> CampaignModel {
    let round = s.rounds.last();
    with_last(
        s,
        RoundModel {
            composite: match round.composite {
                Some(composite) => Some(CompositeModel { stage, ..composite }),
                None => None,
            },
            ..round
        },
    )
}

/// The record in another phase.
pub open spec fn in_phase(s: CampaignModel, phase: CampaignPhase) -> CampaignModel {
    CampaignModel { phase, ..s }
}

/// The record of a campaign that has ended.
pub open spec fn ended(s: CampaignModel, terminal: TerminalModel) -> CampaignModel {
    CampaignModel { phase: CampaignPhase::Terminal, terminal: Some(terminal), ..s }
}

/// Whether the last round has this candidate as its composite.
pub open spec fn is_composite(round: RoundModel, candidate: CandidateId) -> bool {
    round.composite matches Some(composite) && composite.plan.candidate == candidate
}

pub open spec fn round_started(s: CampaignModel, round: RoundId) -> Step {
    if s.phase != CampaignPhase::Ready {
        illegal(s, "round_started")
    } else if exists|a: int| 0 <= a < s.rounds.len() && (#[trigger] s.rounds[a]).id == round {
        Err(CampaignTransitionError::DuplicateRound { round })
    } else if s.rounds.len() == MAX_ROUNDS {
        Err(
            CampaignTransitionError::Invalid(
                CampaignValidationError::TooManyEntries {
                    field: "campaign rounds",
                    maximum: MAX_ROUNDS,
                },
            ),
        )
    } else {
        Ok(
            CampaignModel {
                rounds: s.rounds.push(
                    RoundModel {
                        id: round,
                        ordinal: (s.rounds.len() + 1) as u32,
                        mining: None,
                        candidates: Seq::empty(),
                        verdict: None,
                        composite: None,
                    },
                ),
                phase: CampaignPhase::Mining,
                ..s
            },
        )
    }
}

pub open spec fn mining_completed(s: CampaignModel, round: RoundId, result: MiningResultId) -> Step {
    if s.phase != CampaignPhase::Mining {
        illegal(s, "mining_completed")
    } else if effects_open(s.effects) {
        Err(CampaignTransitionError::OpenEffects)
    } else if !is_current(s, round) {
        Err(CampaignTransitionError::WrongRound { round })
    } else if s.rounds.last().mining is Some {
        illegal(s, "mining_completed")
    } else {
        Ok(
            in_phase(
                with_last(s, RoundModel { mining: Some(result), ..s.rounds.last() }),
                CampaignPhase::Proposing,
            ),
        )
    }
}

pub open spec fn candidate_proposed(
    s: CampaignModel,
    round: RoundId,
    candidate: CandidateId,
    parent: CandidateParent,
    proposal: ProposalId,
) -> Step {
    let parent_is_valid = match parent {
        CandidateParent::BaseRevision(revision) => revision == s.base_revision,
        CandidateParent::Candidate(parent) => candidate_known(s, parent),
    };
    if s.phase != CampaignPhase::Proposing {
        illegal(s, "candidate_proposed")
    } else if candidate_known(s, candidate) {
        Err(CampaignTransitionError::DuplicateCandidate { candidate })
    } else if !parent_is_valid {
        Err(CampaignTransitionError::InvalidCandidateParent { candidate })
    } else if !is_current(s, round) {
        Err(CampaignTransitionError::WrongRound { round })
    } else if s.rounds.last().candidates.len() == MAX_CANDIDATES_PER_ROUND {
        Err(
            CampaignTransitionError::Invalid(
                CampaignValidationError::TooManyEntries {
                    field: "round candidates",
                    maximum: MAX_CANDIDATES_PER_ROUND,
                },
            ),
        )
    } else {
        let last = s.rounds.last();
        Ok(
            with_last(
                s,
                RoundModel {
                    candidates: last.candidates.push(
                        CandidateState {
                            id: candidate,
                            parent,
                            stage: CandidateStage::Proposed { proposal },
                        },
                    ),
                    ..last
                },
            ),
        )
    }
}

pub open spec fn proposals_completed(s: CampaignModel, round: RoundId) -> Step {
    if s.phase != CampaignPhase::Proposing {
        illegal(s, "proposals_completed")
    } else if effects_open(s.effects) {
        Err(CampaignTransitionError::OpenEffects)
    } else if !is_current(s, round) {
        Err(CampaignTransitionError::WrongRound { round })
    } else if s.rounds.last().candidates.len() == 0 {
        Err(CampaignTransitionError::EmptyRound)
    } else {
        Ok(in_phase(s, CampaignPhase::Trialing))
    }
}

pub open spec fn trial_recorded(
    s: CampaignModel,
    round: RoundId,
    candidate: CandidateId,
    trial: TrialResultId,
) -> Step {
    let last = s.rounds.last();
    if s.phase != CampaignPhase::Trialing {
        illegal(s, "candidate_trial_recorded")
    } else if !is_current(s, round) {
        Err(CampaignTransitionError::WrongRound { round })
    } else if is_composite(last, candidate) {
        if last.composite->0.stage != CompositeStage::AwaitingTrial {
            Err(CampaignTransitionError::WrongCandidateStage { candidate })
        } else {
            Ok(with_composite_stage(s, CompositeStage::Trialed { trial }))
        }
    } else {
        match find_candidate(last.candidates, candidate) {
            None => Err(CampaignTransitionError::UnknownCandidate { candidate }),
            Some(i) => match last.candidates[i].stage {
                CandidateStage::Proposed { proposal } => Ok(
                    with_stage(s, i, CandidateStage::Trialed { proposal, trial }),
                ),
                _ => Err(CampaignTransitionError::WrongCandidateStage { candidate }),
            },
        }
    }
}

/// Whether the trials of a round are complete: that of its composite where it has one,
/// else those of all its candidates.
pub open spec fn trials_complete(round: RoundModel) -> bool {
    match round.composite {
        Some(composite) => composite.stage is Trialed,
        None => forall|i: int|
            0 <= i < round.candidates.len() ==> (#[trigger] round.candidates[i]).stage is Trialed,
    }
}

pub open spec fn trials_completed(s: CampaignModel, round: RoundId) -> Step {
    if s.phase != CampaignPhase::Trialing {
        illegal(s, "trials_completed")
    } else if effects_open(s.effects) {
        Err(CampaignTransitionError::OpenEffects)
    } else if !is_current(s, round) {
        Err(CampaignTransitionError::WrongRound { round })
    } else if !trials_complete(s.rounds.last()) {
        Err(CampaignTransitionError::IncompleteCandidates)
    } else {
        Ok(in_phase(s, CampaignPhase::Scoring))
    }
}

pub open spec fn score_recorded(
    s: CampaignModel,
    round: RoundId,
    candidate: CandidateId,
    score: ScoreResultId,
) -> Step {
    let last = s.rounds.last();
    if s.phase != CampaignPhase::Scoring {
        illegal(s, "candidate_score_recorded")
    } else if !is_current(s, round) {
        Err(CampaignTransitionError::WrongRound { round })
    } else {
        match find_candidate(last.candidates, candidate) {
            None => Err(CampaignTransitionError::UnknownCandidate { candidate }),
            Some(i) => match last.candidates[i].stage {
                CandidateStage::Trialed { proposal, trial } => Ok(
                    with_stage(s, i, CandidateStage::Scored { proposal, trial, score }),
                ),
                _ => Err(CampaignTransitionError::WrongCandidateStage { candidate }),
            },
        }
    }
}

/// Whether a round has candidates and all of them are scored.
pub open spec fn all_scored(round: RoundModel) -> bool {
    round.candidates.len() > 0 && forall|i: int|
        0 <= i < round.candidates.len() ==> (#[trigger] round.candidates[i]).stage is Scored
}

pub open spec fn round_verdict_recorded(
    s: CampaignModel,
    round: RoundId,
    verdict: RoundVerdict,
) -> Step {
    let last = s.rounds.last();
    let decided = with_last(s, RoundModel { verdict: Some(verdict), ..last });
    if s.phase != CampaignPhase::Scoring {
        illegal(s, "round_verdict_recorded")
    } else if effects_open(s.effects) {
        Err(CampaignTransitionError::OpenEffects)
    } else if !is_current(s, round) {
        Err(CampaignTransitionError::WrongRound { round })
    } else if !all_scored(last) {
        Err(CampaignTransitionError::IncompleteCandidates)
    } else {
        match verdict {
            RoundVerdict::Continue { .. } => Ok(in_phase(decided, CampaignPhase::Ready)),
            RoundVerdict::Compose { candidate, .. } => if find_candidate(
                last.candidates,
                candidate,
            ) is None {
                Err(CampaignTransitionError::InvalidVerdictCandidate { candidate })
            } else {
                Ok(in_phase(decided, CampaignPhase::Composing))
            },
            RoundVerdict::ComposeComposite { candidate, .. } => if candidate_known(s, candidate) {
                Err(CampaignTransitionError::DuplicateCandidate { candidate })
            } else {
                Ok(in_phase(decided, CampaignPhase::Composing))
            },
            RoundVerdict::NoUpdate { .. } => Ok(
                ended(decided, TerminalModel::NoUpdate { round, verdict }),
            ),
            RoundVerdict::Inconclusive { .. } => Ok(
                ended(decided, TerminalModel::RoundInconclusive { round, verdict }),
            ),
        }
    }
}

/// Why a child of a composition is refused.
pub open spec fn child_refusal(candidates: Seq<CandidateState>, child: CompositionChild) -> Option<
    CampaignTransitionError,
> {
    match lineage(candidates, child) {
        Lineage::Agrees => None,
        Lineage::Missing => Some(
            CampaignTransitionError::UnknownCandidate { candidate: child.candidate },
        ),
        Lineage::Differs => Some(
            CampaignTransitionError::WrongCandidateStage { candidate: child.candidate },
        ),
    }
}

pub open spec fn child_refusals(
    candidates: Seq<CandidateState>,
    children: Seq<CompositionChild>,
) -> spec_fn(int) -> Option<CampaignTransitionError> {
    |k: int| child_refusal(candidates, children[k])
}

pub open spec fn composite_composition_recorded(
    s: CampaignModel,
    round: RoundId,
    plan: PlanModel,
) -> Step {
    let last = s.rounds.last();
    if s.phase != CampaignPhase::Composing {
        illegal(s, "composite_composition_recorded")
    } else if effects_open(s.effects) {
        Err(CampaignTransitionError::OpenEffects)
    } else if plan_problem(plan) is Some {
        Err(
            CampaignTransitionError::Invalid(
                CampaignValidationError::InconsistentState("composite plan identity is invalid"),
            ),
        )
    } else if plan.parent != s.base_revision {
        Err(CampaignTransitionError::RevisionMismatch)
    } else if !is_current(s, round) {
        Err(CampaignTransitionError::WrongRound { round })
    } else if !composite_chosen(last.verdict, plan.candidate, plan.id) {
        Err(CampaignTransitionError::InvalidVerdictCandidate { candidate: plan.candidate })
    } else if last.composite is Some {
        Err(CampaignTransitionError::DuplicateCandidate { candidate: plan.candidate })
    } else {
        match first_some(
            child_refusals(last.candidates, plan.children),
            plan.children.len() as int,
        ) {
            Some(error) => Err(error),
            None => Ok(
                in_phase(
                    with_last(
                        s,
                        RoundModel {
                            composite: Some(
                                CompositeModel { plan, stage: CompositeStage::AwaitingTrial },
                            ),
                            ..last
                        },
                    ),
                    CampaignPhase::Trialing,
                ),
            ),
        }
    }
}

pub open spec fn composite_composition_failed(
    s: CampaignModel,
    round: RoundId,
    failure: FailureModel,
) -> Step {
    let last = s.rounds.last();
    if s.phase != CampaignPhase::Composing {
        illegal(s, "composite_composition_failed")
    } else if effects_open(s.effects) {
        Err(CampaignTransitionError::OpenEffects)
    } else if failure_problem(failure) is Some {
        Err(
            CampaignTransitionError::Invalid(
                CampaignValidationError::InconsistentState(
                    "composition failure identity is invalid",
                ),
            ),
        )
    } else if failure.parent != s.base_revision {
        Err(CampaignTransitionError::RevisionMismatch)
    } else if !is_current(s, round) {
        Err(CampaignTransitionError::WrongRound { round })
    } else if !composite_chosen(last.verdict, failure.candidate, failure.id) {
        Err(CampaignTransitionError::InvalidVerdictCandidate { candidate: failure.candidate })
    } else {
        match first_some(
            child_refusals(last.candidates, failure.children),
            failure.children.len() as int,
        ) {
            Some(error) => Err(error),
            None => Ok(ended(s, TerminalModel::CompositionFallback { round, failure })),
        }
    }
}

pub open spec fn composite_score_recorded(
    s: CampaignModel,
    round: RoundId,
    candidate: CandidateId,
    score: ScoreResultId,
    outcome: CompositeOutcome,
) -> Step {
    let last = s.rounds.last();
    if s.phase != CampaignPhase::Scoring {
        illegal(s, "composite_score_recorded")
    } else if !is_current(s, round) {
        Err(CampaignTransitionError::WrongRound { round })
    } else if !is_composite(last, candidate) {
        Err(CampaignTransitionError::UnknownCandidate { candidate })
    } else {
        let composite = last.composite->0;
        match composite.stage {
            CompositeStage::Trialed { trial } => {
                let scored = with_composite_stage(
                    s,
                    CompositeStage::Scored { trial, score, outcome },
                );
                if outcome == CompositeOutcome::Verified {
                    Ok(in_phase(scored, CampaignPhase::Auditing))
                } else if effects_open(s.effects) {
                    Err(CampaignTransitionError::OpenEffects)
                } else {
                    Ok(
                        ended(
                            scored,
                            TerminalModel::CompositeFallback {
                                round,
                                candidate,
                                revision: composite.plan.revision,
                                score,
                                outcome,
                                fallback: composite.plan.fallback,
                            },
                        ),
                    )
                }
            },
            _ => Err(CampaignTransitionError::WrongCandidateStage { candidate }),
        }
    }
}

/// Whether a round was to be composed of this one candidate.
pub open spec fn candidate_chosen(verdict: Option<RoundVerdict>, chosen: CandidateId) -> bool {
    match verdict {
        Some(RoundVerdict::Compose { candidate, .. }) => candidate == chosen,
        _ => false,
    }
}

pub open spec fn composition_recorded(
    s: CampaignModel,
    round: RoundId,
    candidate: CandidateId,
    composition: CompositionId,
    revision: Digest,
) -> Step {
    let last = s.rounds.last();
    if s.phase != CampaignPhase::Composing {
        illegal(s, "composition_recorded")
    } else if effects_open(s.effects) {
        Err(CampaignTransitionError::OpenEffects)
    } else if !is_current(s, round) {
        Err(CampaignTransitionError::WrongRound { round })
    } else if !candidate_chosen(last.verdict, candidate) {
        Err(CampaignTransitionError::InvalidVerdictCandidate { candidate })
    } else {
        match find_candidate(last.candidates, candidate) {
            None => Err(CampaignTransitionError::UnknownCandidate { candidate }),
            Some(i) => match last.candidates[i].stage {
                CandidateStage::Scored { proposal, trial, score } => Ok(
                    in_phase(
                        with_stage(
                            s,
                            i,
                            CandidateStage::Composed {
                                proposal,
                                trial,
                                score,
                                composition,
                                revision,
                            },
                        ),
                        CampaignPhase::Auditing,
                    ),
                ),
                _ => Err(CampaignTransitionError::WrongCandidateStage { candidate }),
            },
        }
    }
}

/// The record with the audited candidate marked so.
pub open spec fn audited(s: CampaignModel, verdict: FinalVerdict) -> Step {
    let candidate = verdict.spec_candidate();
    let revision = verdict.spec_revision();
    let report = verdict.spec_report();
    let last = s.rounds.last();
    if s.rounds.len() == 0 {
        Err(CampaignTransitionError::UnknownCandidate { candidate })
    } else if is_composite(last, candidate) {
        let composite = last.composite->0;
        match composite.stage {
            CompositeStage::Scored {
                trial,
                score,
                outcome: CompositeOutcome::Verified,
            } => if revision != composite.plan.revision {
                Err(CampaignTransitionError::RevisionMismatch)
            } else {
                Ok(with_composite_stage(s, CompositeStage::Audited { trial, score, report }))
            },
            _ => Err(CampaignTransitionError::WrongCandidateStage { candidate }),
        }
    } else {
        match find_candidate(last.candidates, candidate) {
            None => Err(CampaignTransitionError::UnknownCandidate { candidate }),
            Some(i) => match last.candidates[i].stage {
                CandidateStage::Composed {
                    proposal,
                    trial,
                    score,
                    composition,
                    revision: composed_revision,
                } => if revision != composed_revision {
                    Err(CampaignTransitionError::RevisionMismatch)
                } else {
                    Ok(
                        with_stage(
                            s,
                            i,
                            CandidateStage::Audited {
                                proposal,
                                trial,
                                score,
                                composition,
                                revision,
                                report,
                            },
                        ),
                    )
                },
                _ => Err(CampaignTransitionError::WrongCandidateStage { candidate }),
            },
        }
    }
}

pub open spec fn final_verdict_recorded(s: CampaignModel, verdict: FinalVerdict) -> Step {
    if s.phase != CampaignPhase::Auditing {
        illegal(s, "final_verdict_recorded")
    } else if effects_open(s.effects) {
        Err(CampaignTransitionError::OpenEffects)
    } else {
        match audited(s, verdict) {
            Err(error) => Err(error),
            Ok(marked) => {
                let decided = CampaignModel { final_verdict: Some(verdict), ..marked };
                match verdict {
                    FinalVerdict::Verified { revision, .. } => Ok(
                        CampaignModel {
                            phase: CampaignPhase::AwaitingApproval,
                            approval: Some(ApprovalState::Awaiting { revision }),
                            ..decided
                        },
                    ),
                    FinalVerdict::NotVerified { .. } => Ok(
                        ended(decided, TerminalModel::NotVerified(verdict)),
                    ),
                    FinalVerdict::Inconclusive { .. } => Ok(
                        ended(decided, TerminalModel::AuditInconclusive(verdict)),
                    ),
                }
            },
        }
    }
}

pub open spec fn approval_recorded(s: CampaignModel, decision: ApprovalDecision) -> Step {
    if s.phase != CampaignPhase::AwaitingApproval {
        illegal(s, "approval_recorded")
    } else if effects_open(s.effects) {
        Err(CampaignTransitionError::OpenEffects)
    } else {
        match s.approval {
            Some(ApprovalState::Awaiting { revision: awaited }) => if decision.spec_revision()
                != awaited {
                Err(CampaignTransitionError::RevisionMismatch)
            } else {
                match decision {
                    ApprovalDecision::Approved { id, revision } => Ok(
                        CampaignModel {
                            approval: Some(ApprovalState::Approved { id, revision }),
                            activation: Some(ActivationState::Awaiting { revision }),
                            phase: CampaignPhase::Activating,
                            ..s
                        },
                    ),
                    ApprovalDecision::Rejected { id, revision, reason } => Ok(
                        ended(
                            CampaignModel {
                                approval: Some(ApprovalState::Rejected { id, revision, reason }),
                                ..s
                            },
                            TerminalModel::ApprovalRejected(decision),
                        ),
                    ),
                }
            },
            _ => illegal(s, "approval_recorded"),
        }
    }
}

pub open spec fn activation_recorded(s: CampaignModel, outcome: ActivationOutcome) -> Step {
    if s.phase != CampaignPhase::Activating {
        illegal(s, "activation_recorded")
    } else if effects_open(s.effects) {
        Err(CampaignTransitionError::OpenEffects)
    } else {
        match s.activation {
            Some(ActivationState::Awaiting { revision: awaited }) => {
                if outcome.spec_requested_revision() != awaited {
                    Err(CampaignTransitionError::RevisionMismatch)
                } else {
                    match outcome {
                        ActivationOutcome::Activated { revision, receipt } => Ok(
                            CampaignModel {
                                activation: Some(ActivationState::Activated { revision, receipt }),
                                monitoring: Some(
                                    MonitoringState::Active { revision, activation: receipt },
                                ),
                                phase: CampaignPhase::Monitoring,
                                ..s
                            },
                        ),
                        ActivationOutcome::Superseded {
                            requested_revision,
                            active_revision,
                            receipt,
                        } => Ok(
                            ended(
                                CampaignModel {
                                    activation: Some(
                                        ActivationState::Superseded {
                                            requested_revision,
                                            active_revision,
                                            receipt,
                                        },
                                    ),
                                    ..s
                                },
                                TerminalModel::Superseded(outcome),
                            ),
                        ),
                    }
                }
            },
            _ => illegal(s, "activation_recorded"),
        }
    }
}

pub open spec fn monitoring_completed(s: CampaignModel, outcome: MonitoringOutcome) -> Step {
    if s.phase != CampaignPhase::Monitoring {
        illegal(s, "monitoring_completed")
    } else {
        match s.monitoring {
            Some(MonitoringState::Active { revision, .. }) => {
                if outcome.spec_monitored_revision() != revision {
                    Err(CampaignTransitionError::RevisionMismatch)
                } else if effects_open(s.effects) {
                    Err(CampaignTransitionError::OpenEffects)
                } else {
                    Ok(
                        ended(
                            CampaignModel {
                                monitoring: Some(MonitoringState::Completed(outcome)),
                                ..s
                            },
                            TerminalModel::MonitoringCompleted(outcome),
                        ),
                    )
                }
            },
            _ => illegal(s, "monitoring_completed"),
        }
    }
}

pub open spec fn paused(s: CampaignModel, reason: CampaignNote) -> Step {
    if s.phase == CampaignPhase::Paused {
        illegal(s, "paused")
    } else {
        Ok(
            CampaignModel {
                pause: Some(PauseState { previous_phase: s.phase, reason }),
                phase: CampaignPhase::Paused,
                ..s
            },
        )
    }
}

pub open spec fn resumed(s: CampaignModel) -> Step {
    if s.phase != CampaignPhase::Paused {
        illegal(s, "resumed")
    } else {
        match s.pause {
            Some(pause) => Ok(CampaignModel { pause: None, phase: pause.previous_phase, ..s }),
            None => Err(
                CampaignTransitionError::Invalid(
                    CampaignValidationError::InconsistentState(
                        "paused campaign has no pause record",
                    ),
                ),
            ),
        }
    }
}

/// The sum of two amounts, where it can be stored.
pub open spec fn usage_sum(a: ResourceUsage, b: ResourceUsage) -> ResourceUsage {
    ResourceUsage {
        queries: (a.queries + b.queries) as u64,
        error_nanos: (a.error_nanos + b.error_nanos) as u64,
        artifact_bytes: (a.artifact_bytes + b.artifact_bytes) as u64,
    }
}

/// The difference of two amounts, where the second fits within the first.
pub open spec fn usage_rest(a: ResourceUsage, b: ResourceUsage) -> ResourceUsage {
    ResourceUsage {
        queries: (a.queries - b.queries) as u64,
        error_nanos: (a.error_nanos - b.error_nanos) as u64,
        artifact_bytes: (a.artifact_bytes - b.artifact_bytes) as u64,
    }
}

/// The usage with one more effect and its reservation.
pub open spec fn usage_reserving(usage: CampaignUsage, resources: ResourceUsage) -> CampaignUsage {
    CampaignUsage {
        effects_intended: (usage.effects_intended + 1) as u32,
        used: usage.used,
        reserved: usage_sum(usage.reserved, resources),
    }
}

/// Whether one more effect with a reservation stays within a budget.
pub open spec fn affordable(
    usage: CampaignUsage,
    budget: CampaignBudget,
    resources: ResourceUsage,
) -> bool {
    &&& usage.effects_intended + 1 <= budget.max_effects
    &&& usage.used.queries + usage.reserved.queries + resources.queries <= budget.resources.queries
    &&& usage.used.error_nanos + usage.reserved.error_nanos + resources.error_nanos
        <= budget.resources.error_nanos
    &&& usage.used.artifact_bytes + usage.reserved.artifact_bytes + resources.artifact_bytes
        <= budget.resources.artifact_bytes
}

pub open spec fn effect_intended(s: CampaignModel, intent: EffectIntent) -> Step {
    if intent.problem() is Some {
        Err(CampaignTransitionError::Invalid(intent.problem()->0))
    } else if s.phase != intent.kind.home() {
        illegal(s, "effect_intended")
    } else if s.revision == u64::MAX {
        Err(CampaignTransitionError::RevisionExhausted)
    } else if intent.campaign != s.id || intent.transition_revision != s.revision + 1 {
        Err(CampaignTransitionError::RevisionMismatch)
    } else if known(s.effects, intent.id) {
        Err(CampaignTransitionError::DuplicateEffect { effect: intent.id })
    } else if !affordable(s.usage, s.budget, intent.budget.resources) {
        Err(CampaignTransitionError::BudgetExceeded)
    } else {
        Ok(
            CampaignModel {
                usage: usage_reserving(s.usage, intent.budget.resources),
                effects: with_effect(
                    s.effects,
                    intent.id,
                    EffectState {
                        intent,
                        lifecycle: EffectLifecycle::Intended { lease_epoch: LeaseEpoch(1) },
                    },
                ),
                ..s
            },
        )
    }
}

/// Why a lease does not match the one that is expected.
pub open spec fn epoch_problem(effect: EffectId, expected: LeaseEpoch, actual: LeaseEpoch) -> Option<
    CampaignTransitionError,
> {
    if actual == expected {
        None
    } else if actual.0 < expected.0 {
        Some(
            CampaignTransitionError::StaleLeaseEpoch {
                effect,
                expected: expected.0,
                actual: actual.0,
            },
        )
    } else {
        Some(
            CampaignTransitionError::InvalidLeaseEpoch {
                effect,
                expected: expected.0,
                actual: actual.0,
            },
        )
    }
}

/// The record with an effect in another state of its life.
pub open spec fn with_lifecycle(
    s: CampaignModel,
    effect: EffectId,
    state: EffectState,
    lifecycle: EffectLifecycle,
) -> CampaignModel {
    CampaignModel {
        effects: with_effect(s.effects, effect, EffectState { lifecycle, ..state }),
        ..s
    }
}

pub open spec fn effect_leased(s: CampaignModel, effect: EffectId, epoch: LeaseEpoch) -> Step {
    if epoch.problem() is Some {
        Err(CampaignTransitionError::Invalid(epoch.problem()->0))
    } else {
        match effect_of(s.effects, effect) {
            None => Err(CampaignTransitionError::UnknownEffect { effect }),
            Some(state) => if s.phase != state.intent.kind.home() {
                illegal(s, "effect_leased")
            } else {
                match state.lifecycle {
                    EffectLifecycle::Leased { .. } => Err(
                        CampaignTransitionError::ReconciliationRequired { effect },
                    ),
                    EffectLifecycle::Settled { .. } => Err(
                        CampaignTransitionError::EffectAlreadySettled { effect },
                    ),
                    _ => match epoch_problem(effect, state.lifecycle.epoch(), epoch) {
                        Some(error) => Err(error),
                        None => Ok(
                            with_lifecycle(s, effect, state, EffectLifecycle::Leased { epoch }),
                        ),
                    },
                }
            },
        }
    }
}

/// Why a receipt is not accepted against a reservation.
pub open spec fn receipt_problem(receipt: EffectReceipt, reservation: EffectBudget) -> Option<
    CampaignTransitionError,
> {
    match receipt.accounting {
        EffectAccounting::Known(usage) => if !usage.storable() {
            Some(
                CampaignTransitionError::Invalid(
                    CampaignValidationError::NumberOutOfRange { field: "effect receipt usage" },
                ),
            )
        } else if receipt.outcome is InfrastructureUnknown {
            Some(CampaignTransitionError::UnknownEffectMustChargeReservation)
        } else if !usage.spec_fits_within(reservation.resources) {
            Some(CampaignTransitionError::ReceiptExceedsReservation)
        } else {
            None
        },
        EffectAccounting::ReservationCharged => None,
    }
}

/// The record with an effect settled: its reservation is released and its charge booked.
pub open spec fn settled(
    s: CampaignModel,
    effect: EffectId,
    state: EffectState,
    epoch: LeaseEpoch,
    receipt: EffectReceipt,
) -> Step {
    let budget = state.intent.budget;
    let charge = receipt.charge(budget);
    if receipt_problem(receipt, budget) is Some {
        Err(receipt_problem(receipt, budget)->0)
    } else if !budget.resources.spec_fits_within(s.usage.reserved) {
        Err(
            CampaignTransitionError::Invalid(
                CampaignValidationError::InconsistentState(
                    "effect reservation exceeds campaign reservation",
                ),
            ),
        )
    } else if !s.usage.used.totals().plus(charge).fits() {
        Err(CampaignTransitionError::BudgetExceeded)
    } else {
        Ok(
            CampaignModel {
                usage: CampaignUsage {
                    effects_intended: s.usage.effects_intended,
                    used: usage_sum(s.usage.used, charge),
                    reserved: usage_rest(s.usage.reserved, budget.resources),
                },
                ..with_lifecycle(s, effect, state, EffectLifecycle::Settled { epoch, receipt })
            },
        )
    }
}

/// The lease after a given one, where its number can be stored.
pub open spec fn next_lease(epoch: LeaseEpoch) -> Option<LeaseEpoch> {
    if epoch.0 < MAX_STORED_NUMBER {
        Some(LeaseEpoch((epoch.0 + 1) as u64))
    } else {
        None
    }
}

pub open spec fn effect_reconciled(
    s: CampaignModel,
    effect: EffectId,
    leased_epoch: LeaseEpoch,
    next_epoch: LeaseEpoch,
    outcome: EffectReconciliation,
) -> Step {
    if leased_epoch.problem() is Some {
        Err(CampaignTransitionError::Invalid(leased_epoch.problem()->0))
    } else if next_epoch.problem() is Some {
        Err(CampaignTransitionError::Invalid(next_epoch.problem()->0))
    } else {
        match effect_of(s.effects, effect) {
            None => Err(CampaignTransitionError::UnknownEffect { effect }),
            Some(state) => match state.lifecycle {
                EffectLifecycle::Settled { .. } => Err(
                    CampaignTransitionError::EffectAlreadySettled { effect },
                ),
                EffectLifecycle::Leased { epoch } => if epoch_problem(
                    effect,
                    epoch,
                    leased_epoch,
                ) is Some {
                    Err(epoch_problem(effect, epoch, leased_epoch)->0)
                } else {
                    match next_lease(epoch) {
                        None => Err(CampaignTransitionError::RevisionExhausted),
                        Some(following) => if epoch_problem(effect, following, next_epoch) is Some {
                            Err(epoch_problem(effect, following, next_epoch)->0)
                        } else {
                            match outcome {
                                EffectReconciliation::RetryAuthorized { evidence } => Ok(
                                    with_lifecycle(
                                        s,
                                        effect,
                                        state,
                                        EffectLifecycle::Reconciled {
                                            lease_epoch: next_epoch,
                                            evidence,
                                        },
                                    ),
                                ),
                                EffectReconciliation::Recovered { receipt } => settled(
                                    s,
                                    effect,
                                    state,
                                    next_epoch,
                                    receipt,
                                ),
                                EffectReconciliation::FencedInfrastructureUnknown { receipt } => {
                                    if !(receipt.outcome is InfrastructureUnknown) {
                                        Err(
                                            CampaignTransitionError::FenceRequiresInfrastructureUnknown,
                                        )
                                    } else {
                                        settled(s, effect, state, next_epoch, receipt)
                                    }
                                },
                            }
                        },
                    }
                },
                _ => Err(CampaignTransitionError::EffectNotLeased { effect }),
            },
        }
    }
}

pub open spec fn effect_settled(
    s: CampaignModel,
    effect: EffectId,
    epoch: LeaseEpoch,
    receipt: EffectReceipt,
) -> Step {
    if epoch.problem() is Some {
        Err(CampaignTransitionError::Invalid(epoch.problem()->0))
    } else {
        match effect_of(s.effects, effect) {
            None => Err(CampaignTransitionError::UnknownEffect { effect }),
            Some(state) => if state.lifecycle is Settled {
                Err(CampaignTransitionError::EffectAlreadySettled { effect })
            } else if epoch_problem(effect, state.lifecycle.epoch(), epoch) is Some {
                Err(epoch_problem(effect, state.lifecycle.epoch(), epoch)->0)
            } else if !(state.lifecycle is Leased) {
                Err(CampaignTransitionError::EffectNotLeased { effect })
            } else {
                settled(s, effect, state, epoch, receipt)
            },
        }
    }
}

/// What an event does to a campaign that is under way, apart from its revision.
pub open spec fn step(s: CampaignModel, event: CampaignEvent) -> Step {
    match event {
        CampaignEvent::Started { .. } => Err(CampaignTransitionError::AlreadyStarted),
        CampaignEvent::RoundStarted { round } => round_started(s, round),
        CampaignEvent::MiningCompleted { round, result } => mining_completed(s, round, result),
        CampaignEvent::CandidateProposed { round, candidate, parent, proposal } => {
            candidate_proposed(s, round, candidate, parent, proposal)
        },
        CampaignEvent::ProposalsCompleted { round } => proposals_completed(s, round),
        CampaignEvent::CandidateTrialRecorded { round, candidate, trial } => {
            trial_recorded(s, round, candidate, trial)
        },
        CampaignEvent::TrialsCompleted { round } => trials_completed(s, round),
        CampaignEvent::CandidateScoreRecorded { round, candidate, score } => {
            score_recorded(s, round, candidate, score)
        },
        CampaignEvent::RoundVerdictRecorded { round, verdict } => {
            round_verdict_recorded(s, round, verdict)
        },
        CampaignEvent::CompositionRecorded { round, candidate, composition, revision } => {
            composition_recorded(s, round, candidate, composition, revision)
        },
        CampaignEvent::CompositeCompositionRecorded { round, plan } => {
            composite_composition_recorded(s, round, plan@)
        },
        CampaignEvent::CompositeCompositionFailed { round, failure } => {
            composite_composition_failed(s, round, failure@)
        },
        CampaignEvent::CompositeScoreRecorded { round, candidate, score, outcome } => {
            composite_score_recorded(s, round, candidate, score, outcome)
        },
        CampaignEvent::FinalVerdictRecorded { verdict } => final_verdict_recorded(s, verdict),
        CampaignEvent::ApprovalRecorded { decision } => approval_recorded(s, decision),
        CampaignEvent::ActivationRecorded { outcome } => activation_recorded(s, outcome),
        CampaignEvent::MonitoringCompleted { outcome } => monitoring_completed(s, outcome),
        CampaignEvent::Paused { reason } => paused(s, reason),
        CampaignEvent::Resumed => resumed(s),
        CampaignEvent::EffectIntended { intent } => effect_intended(s, intent),
        CampaignEvent::EffectLeased { effect, epoch } => effect_leased(s, effect, epoch),
        CampaignEvent::EffectReconciled { effect, leased_epoch, next_epoch, outcome } => {
            effect_reconciled(s, effect, leased_epoch, next_epoch, outcome)
        },
        CampaignEvent::EffectSettled { effect, epoch, receipt } => {
            effect_settled(s, effect, epoch, receipt)
        },
    }
}

/// Whether a terminal receipt is the one on record: nothing on record is no replay, and
/// another one conflicts.
pub open spec fn receipt_replay(
    s: CampaignModel,
    effect: EffectId,
    epoch: LeaseEpoch,
    receipt: EffectReceipt,
) -> Result<bool, CampaignTransitionError> {
    match effect_of(s.effects, effect) {
        Some(state) => match state.lifecycle {
            EffectLifecycle::Settled { epoch: stored_epoch, receipt: stored_receipt } => {
                if stored_epoch == epoch && stored_receipt == receipt {
                    Ok(true)
                } else {
                    Err(CampaignTransitionError::ConflictingTerminalReceipt { effect })
                }
            },
            _ => Ok(false),
        },
        None => Ok(false),
    }
}

/// Whether an event repeats a terminal receipt that is already on record.
pub open spec fn replay(s: CampaignModel, event: CampaignEvent) -> Result<
    bool,
    CampaignTransitionError,
> {
    match event {
        CampaignEvent::EffectSettled { effect, epoch, receipt } => {
            receipt_replay(s, effect, epoch, receipt)
        },
        CampaignEvent::EffectReconciled { effect, leased_epoch, next_epoch, outcome } => {
            if leased_epoch.problem() is Some {
                Err(CampaignTransitionError::Invalid(leased_epoch.problem()->0))
            } else if next_epoch.problem() is Some {
                Err(CampaignTransitionError::Invalid(next_epoch.problem()->0))
            } else {
                match next_lease(leased_epoch) {
                    None => Err(CampaignTransitionError::RevisionExhausted),
                    Some(following) => if epoch_problem(effect, following, next_epoch) is Some {
                        Err(epoch_problem(effect, following, next_epoch)->0)
                    } else {
                        match outcome {
                            EffectReconciliation::RetryAuthorized { .. } => Ok(false),
                            EffectReconciliation::Recovered { receipt } => receipt_replay(
                                s,
                                effect,
                                next_epoch,
                                receipt,
                            ),
                            EffectReconciliation::FencedInfrastructureUnknown { receipt } => {
                                if !(receipt.outcome is InfrastructureUnknown) {
                                    Err(CampaignTransitionError::FenceRequiresInfrastructureUnknown)
                                } else {
                                    receipt_replay(s, effect, next_epoch, receipt)
                                }
                            },
                        }
                    },
                }
            }
        },
        _ => Ok(false),
    }
}

/// The record that the first event of a campaign leads to.
pub open spec fn started(event: CampaignEvent) -> Step {
    match event {
        CampaignEvent::Started { campaign, cohort, base_revision, policy, budget } => {
            match budget.problem() {
                Some(error) => Err(CampaignTransitionError::Invalid(error)),
                None => Ok(
                    CampaignModel {
                        id: campaign,
                        cohort,
                        base_revision,
                        policy,
                        revision: 1,
                        phase: CampaignPhase::Ready,
                        budget,
                        usage: CampaignUsage::none(),
                        rounds: Seq::empty(),
                        effects: Seq::empty(),
                        final_verdict: None,
                        approval: None,
                        activation: None,
                        monitoring: None,
                        terminal: None,
                        pause: None,
                    },
                ),
            }
        },
        _ => Err(CampaignTransitionError::NotStarted),
    }
}

/// The record after an accepted change, under the following revision.
pub open spec fn advanced(before: CampaignModel, changed: CampaignModel) -> Step {
    if before.revision >= MAX_STORED_NUMBER {
        Err(CampaignTransitionError::RevisionExhausted)
    } else {
        let next = CampaignModel { revision: (before.revision + 1) as u64, ..changed };
        match campaign_problem(next) {
            Some(error) => Err(CampaignTransitionError::Invalid(error)),
            None => Ok(next),
        }
    }
}

/// What one journal event leads to.
pub open spec fn applied(s: CampaignModel, event: CampaignEvent) -> Step {
    if campaign_problem(s) is Some {
        Err(CampaignTransitionError::Invalid(campaign_problem(s)->0))
    } else if event is Started {
        Err(CampaignTransitionError::AlreadyStarted)
    } else {
        match replay(s, event) {
            Err(error) => Err(error),
            Ok(true) => Ok(s),
            Ok(false) => if s.phase == CampaignPhase::Terminal {
                Err(CampaignTransitionError::TerminalMutation { event: event.spec_name() })
            } else {
                match step(s, event) {
                    Err(error) => Err(error),
                    Ok(changed) => advanced(s, changed),
                }
            },
        }
    }
}

} // verus!
