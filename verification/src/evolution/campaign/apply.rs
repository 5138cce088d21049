//! Application of journal events.
use crate::digest::Digest;
use crate::evolution::campaign::event::{
    activation_recorded, affordable, all_scored, applied, approval_recorded, candidate_chosen,
    candidate_known, candidate_proposed, child_refusal, child_refusals,
    composite_composition_failed, composite_composition_recorded, composite_score_recorded,
    composition_recorded, effect_intended, effect_leased, effect_reconciled, effect_settled,
    effects_open, epoch_problem, final_verdict_recorded, is_composite, is_current, mining_completed,
    monitoring_completed, paused, proposals_completed, receipt_problem, replay, resumed,
    round_started, round_verdict_recorded, score_recorded, settled, started, step, trial_recorded,
    trials_complete, trials_completed, CampaignEvent, CampaignTransitionError, Step,
};
use crate::evolution::campaign::state::{
    rounds_model, CampaignModel, CampaignState, EffectTable, RoundModel,
};
use crate::evolution::campaign::types::{
    ActivationOutcome, ActivationState, ApprovalDecision, ApprovalState, CampaignBudget,
    CampaignNote, CampaignPhase, CampaignUsage, CampaignValidationError, CandidateParent,
    CandidateStage, CandidateState, CompositeOutcome, CompositeStage, CompositeState,
    EffectAccounting, EffectBudget, EffectId, EffectIntent, EffectLifecycle, EffectOutcome,
    EffectReceipt, EffectReconciliation, EffectState, FinalVerdict, LeaseEpoch, MonitoringOutcome,
    MonitoringState, PauseState, ResourceUsage, RoundState, RoundVerdict, TerminalState,
    MAX_CANDIDATES_PER_ROUND, MAX_ROUNDS, MAX_STORED_NUMBER,
};
use crate::evolution::campaign::validate::{
    in_round, is_composite_chosen, lineage_of, position_of, Lineage,
};
use crate::evolution::composition::{CompositePlan, CompositionChild, CompositionFailure};
use crate::evolution::ids::{
    CandidateId, CompositionId, MiningResultId, ProposalId, RoundId, ScoreResultId, TrialResultId,
};
use crate::first::{first_some, lemma_first_some_at, refused};
use vstd::prelude::*;

verus! {

/// Whether a change in place did what a step says: the same refusal, or the next record.
pub open spec fn follows(
    step: Step,
    outcome: Result<(), CampaignTransitionError>,
    after: CampaignModel,
) -> bool {
    match step {
        Ok(next) => outcome is Ok && after == next,
        Err(error) => outcome == Err::<(), CampaignTransitionError>(error),
    }
}

proof fn lemma_last_model(rounds: Seq<RoundState>)
    requires
        rounds.len() > 0,
    ensures
        rounds_model(rounds).last() == rounds.last()@,
        rounds_model(rounds).len() == rounds.len(),
{
}

proof fn lemma_update_model(before: Seq<RoundState>, after: Seq<RoundState>)
    requires
        before.len() > 0,
        after.len() == before.len(),
        forall|i: int| 0 <= i < before.len() - 1 ==> after[i] == before[i],
    ensures
        rounds_model(after) == rounds_model(before).update(before.len() - 1, after.last()@),
{
    assert(rounds_model(after) =~= rounds_model(before).update(before.len() - 1, after.last()@));
}

impl RoundState {
    fn has_candidate(&self, id: CandidateId) -> (r: bool)
        ensures
            r == in_round(self@, id),
    {
        if position_of(&self.candidates, id).is_some() {
            return true;
        }
        match &self.composite {
            Some(composite) => composite.plan.candidate == id,
            None => false,
        }
    }

    fn has_composite(&self, id: CandidateId) -> (r: bool)
        ensures
            r == is_composite(self@, id),
    {
        match &self.composite {
            Some(composite) => composite.plan.candidate == id,
            None => false,
        }
    }

    fn trials_done(&self) -> (r: bool)
        ensures
            r == trials_complete(self@),
    {
        match &self.composite {
            Some(composite) => match composite.stage {
                CompositeStage::Trialed { .. } => true,
                _ => false,
            },
            None => {
                let mut i: usize = 0;
                while i < self.candidates.len()
                    invariant
                        i <= self.candidates.len(),
                        self.composite is None,
                        forall|k: int|
                            0 <= k < i ==> (#[trigger] self.candidates@[k]).stage is Trialed,
                    decreases self.candidates.len() - i,
                {
                    let trialed = match self.candidates[i].stage {
                        CandidateStage::Trialed { .. } => true,
                        _ => false,
                    };
                    if !trialed {
                        assert(!(self@.candidates[i as int].stage is Trialed));
                        return false;
                    }
                    i += 1;
                }
                true
            },
        }
    }

    fn scores_done(&self) -> (r: bool)
        ensures
            r == all_scored(self@),
    {
        if self.candidates.len() == 0 {
            return false;
        }
        let mut i: usize = 0;
        while i < self.candidates.len()
            invariant
                i <= self.candidates.len(),
                forall|k: int| 0 <= k < i ==> (#[trigger] self.candidates@[k]).stage is Scored,
            decreases self.candidates.len() - i,
        {
            let scored = match self.candidates[i].stage {
                CandidateStage::Scored { .. } => true,
                _ => false,
            };
            if !scored {
                assert(!(self@.candidates[i as int].stage is Scored));
                return false;
            }
            i += 1;
        }
        true
    }

    fn admit_children(&self, children: &Vec<CompositionChild>) -> (r: Result<
        (),
        CampaignTransitionError,
    >)
        ensures
            r == refused(
                first_some(child_refusals(self@.candidates, children@), children.len() as int),
            ),
    {
        let mut k: usize = 0;
        while k < children.len()
            invariant
                k <= children.len(),
                first_some(child_refusals(self@.candidates, children@), k as int) is None,
            decreases children.len() - k,
        {
            let child = children[k];
            assert(child_refusals(self@.candidates, children@)(k as int) == child_refusal(
                self@.candidates,
                child,
            ));
            let refusal = match lineage_of(&self.candidates, &child) {
                Lineage::Agrees => None,
                Lineage::Missing => Some(
                    CampaignTransitionError::UnknownCandidate { candidate: child.candidate },
                ),
                Lineage::Differs => Some(
                    CampaignTransitionError::WrongCandidateStage { candidate: child.candidate },
                ),
            };
            match refusal {
                Some(error) => {
                    proof {
                        lemma_first_some_at(
                            child_refusals(self@.candidates, children@),
                            k as int,
                            children.len() as int,
                        );
                    }
                    return Err(error);
                },
                None => {},
            }
            k += 1;
        }
        Ok(())
    }
}

impl CampaignState {
    fn candidate_exists(&self, id: CandidateId) -> (r: bool)
        ensures
            r == candidate_known(self@, id),
    {
        let mut a: usize = 0;
        while a < self.rounds.len()
            invariant
                a <= self.rounds.len(),
                forall|b: int| 0 <= b < a ==> !in_round(#[trigger] self@.rounds[b], id),
            decreases self.rounds.len() - a,
        {
            assert(self@.rounds[a as int] == self.rounds@[a as int]@);
            if self.rounds[a].has_candidate(id) {
                return true;
            }
            a += 1;
        }
        false
    }

    fn has_open_effects(&self) -> (r: bool)
        ensures
            r == effects_open(self@.effects),
    {
        let mut i: usize = 0;
        while i < self.effects.len()
            invariant
                i <= self@.effects.len(),
                forall|k: int|
                    0 <= k < i ==> (#[trigger] self@.effects[k]).state.lifecycle is Settled,
            decreases self@.effects.len() - i,
        {
            if !self.effects.entry(i).state.lifecycle.is_terminal() {
                assert(!(self@.effects[i as int].state.lifecycle is Settled));
                return true;
            }
            i += 1;
        }
        false
    }

    fn current_is(&self, round: RoundId) -> (r: bool)
        ensures
            r == is_current(self@, round),
            r ==> self.rounds.len() > 0,
    {
        proof {
            if self.rounds.len() > 0 {
                lemma_last_model(self.rounds@);
            }
        }
        self.rounds.len() > 0 && self.rounds[self.rounds.len() - 1].id == round
    }

    fn has_round(&self, round: RoundId) -> (r: bool)
        ensures
            r == exists|a: int|
                0 <= a < self@.rounds.len() && (#[trigger] self@.rounds[a]).id == round,
    {
        let mut a: usize = 0;
        while a < self.rounds.len()
            invariant
                a <= self.rounds.len(),
                forall|b: int| 0 <= b < a ==> (#[trigger] self@.rounds[b]).id != round,
            decreases self.rounds.len() - a,
        {
            assert(self@.rounds[a as int] == self.rounds@[a as int]@);
            if self.rounds[a].id == round {
                return true;
            }
            a += 1;
        }
        false
    }

    fn illegal(&self, event: &'static str) -> (r: CampaignTransitionError)
        ensures
            r == (CampaignTransitionError::IllegalTransition { phase: self@.phase, event }),
    {
        CampaignTransitionError::IllegalTransition { phase: self.phase, event }
    }

    /// Puts the candidate at an index of the last round into another stage.
    fn set_stage(&mut self, i: usize, stage: CandidateStage)
        requires
            old(self).rounds.len() > 0,
            i < old(self).rounds@.last().candidates.len(),
        ensures
            final(self)@ == crate::evolution::campaign::event::with_stage(
                old(self)@,
                i as int,
                stage,
            ),
    {
        let n = self.rounds.len() - 1;
        let changed = CandidateState {
            id: self.rounds[n].candidates[i].id,
            parent: self.rounds[n].candidates[i].parent,
            stage,
        };
        self.rounds[n].candidates[i] = changed;
        proof {
            lemma_last_model(old(self).rounds@);
            lemma_update_model(old(self).rounds@, self.rounds@);
        }
    }

    /// Puts the composite of the last round into another stage.
    fn set_composite_stage(&mut self, stage: CompositeStage)
        requires
            old(self).rounds.len() > 0,
            old(self).rounds@.last().composite is Some,
        ensures
            final(self)@ == crate::evolution::campaign::event::with_composite_stage(
                old(self)@,
                stage,
            ),
    {
        let n = self.rounds.len() - 1;
        let composite = self.rounds[n].composite.take();
        match composite {
            Some(composite) => {
                self.rounds[n].composite = Some(CompositeState { plan: composite.plan, stage });
            },
            None => {},
        }
        proof {
            lemma_last_model(old(self).rounds@);
            lemma_update_model(old(self).rounds@, self.rounds@);
        }
    }

    /// Applies one journal event.
    pub fn apply(&self, event: &CampaignEvent) -> (r: Result<Self, CampaignTransitionError>)
        ensures
            match r {
                Ok(next) => applied(self@, *event) == Ok::<CampaignModel, CampaignTransitionError>(
                    next@,
                ),
                Err(error) => applied(self@, *event) == Err::<
                    CampaignModel,
                    CampaignTransitionError,
                >(error),
            },
    {
        apply_campaign(Some(self), event)
    }
}

/// What an event leads to, from a record or from nothing.
pub open spec fn journaled(state: Option<CampaignModel>, event: CampaignEvent) -> Step {
    match state {
        None => started(event),
        Some(s) => applied(s, event),
    }
}

/// Applies one journal event. A terminal receipt replay returns the state unchanged.
pub fn apply_campaign(state: Option<&CampaignState>, event: &CampaignEvent) -> (r: Result<
    CampaignState,
    CampaignTransitionError,
>)
    ensures
        ({
            let before = match state {
                Some(s) => Some(s@),
                None => None,
            };
            match r {
                Ok(next) => journaled(before, *event) == Ok::<
                    CampaignModel,
                    CampaignTransitionError,
                >(next@),
                Err(error) => journaled(before, *event) == Err::<
                    CampaignModel,
                    CampaignTransitionError,
                >(error),
            }
        }),
{
    let state = match state {
        Some(state) => state,
        None => return start_campaign(event),
    };
    match state.validate() {
        Err(error) => return Err(CampaignTransitionError::Invalid(error)),
        Ok(()) => {},
    }
    match event {
        CampaignEvent::Started { .. } => return Err(CampaignTransitionError::AlreadyStarted),
        _ => {},
    }
    match terminal_effect_replay(state, event) {
        Err(error) => return Err(error),
        Ok(replayed) => {
            if replayed {
                return Ok(state.clone());
            }
        },
    }
    if state.phase == CampaignPhase::Terminal {
        return Err(CampaignTransitionError::TerminalMutation { event: event.name() });
    }
    let mut next = state.clone();
    assert(next@.rounds.len() == state@.rounds.len());
    match apply_existing(&mut next, event) {
        Err(error) => return Err(error),
        Ok(()) => {},
    }
    if state.revision >= MAX_STORED_NUMBER {
        return Err(CampaignTransitionError::RevisionExhausted);
    }
    next.revision = state.revision + 1;
    match next.validate() {
        Err(error) => Err(CampaignTransitionError::Invalid(error)),
        Ok(()) => Ok(next),
    }
}

fn start_campaign(event: &CampaignEvent) -> (r: Result<CampaignState, CampaignTransitionError>)
    ensures
        match r {
            Ok(state) => started(*event) == Ok::<CampaignModel, CampaignTransitionError>(state@),
            Err(error) => started(*event) == Err::<CampaignModel, CampaignTransitionError>(error),
        },
{
    match event {
        CampaignEvent::Started { campaign, cohort, base_revision, policy, budget } => {
            match budget.validate() {
                Err(error) => return Err(CampaignTransitionError::Invalid(error)),
                Ok(()) => {},
            }
            let state = CampaignState {
                id: *campaign,
                cohort: *cohort,
                base_revision: *base_revision,
                policy: *policy,
                revision: 1,
                phase: CampaignPhase::Ready,
                budget: *budget,
                usage: CampaignUsage::default(),
                rounds: Vec::new(),
                effects: EffectTable::new(),
                final_verdict: None,
                approval: None,
                activation: None,
                monitoring: None,
                terminal: None,
                pause: None,
            };
            assert(state@.rounds =~= Seq::<RoundModel>::empty());
            Ok(state)
        },
        _ => Err(CampaignTransitionError::NotStarted),
    }
}

fn apply_existing(state: &mut CampaignState, event: &CampaignEvent) -> (r: Result<
    (),
    CampaignTransitionError,
>)
    requires
        old(state).rounds.len() <= MAX_ROUNDS,
    ensures
        follows(step(old(state)@, *event), r, final(state)@),
{
    match event {
        CampaignEvent::Started { .. } => Err(CampaignTransitionError::AlreadyStarted),
        CampaignEvent::RoundStarted { round } => start_round(state, *round),
        CampaignEvent::MiningCompleted { round, result } => complete_mining(
            state,
            *round,
            *result,
        ),
        CampaignEvent::CandidateProposed { round, candidate, parent, proposal } => {
            propose_candidate(state, *round, *candidate, *parent, *proposal)
        },
        CampaignEvent::ProposalsCompleted { round } => complete_proposals(state, *round),
        CampaignEvent::CandidateTrialRecorded { round, candidate, trial } => {
            record_trial(state, *round, *candidate, *trial)
        },
        CampaignEvent::TrialsCompleted { round } => complete_trials(state, *round),
        CampaignEvent::CandidateScoreRecorded { round, candidate, score } => {
            record_score(state, *round, *candidate, *score)
        },
        CampaignEvent::RoundVerdictRecorded { round, verdict } => {
            record_round_verdict(state, *round, *verdict)
        },
        CampaignEvent::CompositionRecorded { round, candidate, composition, revision } => {
            record_composition(state, *round, *candidate, *composition, *revision)
        },
        CampaignEvent::CompositeCompositionRecorded { round, plan } => {
            record_composite_composition(state, *round, plan)
        },
        CampaignEvent::CompositeCompositionFailed { round, failure } => {
            record_composite_composition_failure(state, *round, failure)
        },
        CampaignEvent::CompositeScoreRecorded { round, candidate, score, outcome } => {
            record_composite_score(state, *round, *candidate, *score, *outcome)
        },
        CampaignEvent::FinalVerdictRecorded { verdict } => record_final_verdict(state, *verdict),
        CampaignEvent::ApprovalRecorded { decision } => record_approval(state, decision),
        CampaignEvent::ActivationRecorded { outcome } => record_activation(state, *outcome),
        CampaignEvent::MonitoringCompleted { outcome } => record_monitoring(state, *outcome),
        CampaignEvent::Paused { reason } => pause(state, reason),
        CampaignEvent::Resumed => resume(state),
        CampaignEvent::EffectIntended { intent } => intend_effect(state, *intent),
        CampaignEvent::EffectLeased { effect, epoch } => lease_effect(state, *effect, *epoch),
        CampaignEvent::EffectReconciled { effect, leased_epoch, next_epoch, outcome } => {
            reconcile_effect(state, *effect, *leased_epoch, *next_epoch, *outcome)
        },
        CampaignEvent::EffectSettled { effect, epoch, receipt } => {
            settle_effect(state, *effect, *epoch, *receipt)
        },
    }
}

fn start_round(state: &mut CampaignState, round: RoundId) -> (r: Result<
    (),
    CampaignTransitionError,
>)
    requires
        old(state).rounds.len() <= MAX_ROUNDS,
    ensures
        follows(round_started(old(state)@, round), r, final(state)@),
{
    if state.phase != CampaignPhase::Ready {
        return Err(state.illegal("round_started"));
    }
    if state.has_round(round) {
        return Err(CampaignTransitionError::DuplicateRound { round });
    }
    let n = state.rounds.len();
    if n == MAX_ROUNDS {
        return Err(
            CampaignTransitionError::Invalid(
                CampaignValidationError::TooManyEntries {
                    field: "campaign rounds",
                    maximum: MAX_ROUNDS,
                },
            ),
        );
    }
    let new = RoundState {
        id: round,
        ordinal: n as u32 + 1,
        mining: None,
        candidates: Vec::new(),
        verdict: None,
        composite: None,
    };
    state.rounds.push(new);
    state.phase = CampaignPhase::Mining;
    assert(new@.candidates =~= Seq::<CandidateState>::empty());
    assert(state@.rounds =~= old(state)@.rounds.push(new@));
    Ok(())
}

fn complete_mining(state: &mut CampaignState, round: RoundId, result: MiningResultId) -> (r: Result<
    (),
    CampaignTransitionError,
>)
    ensures
        follows(mining_completed(old(state)@, round, result), r, final(state)@),
{
    if state.phase != CampaignPhase::Mining {
        return Err(state.illegal("mining_completed"));
    }
    if state.has_open_effects() {
        return Err(CampaignTransitionError::OpenEffects);
    }
    if !state.current_is(round) {
        return Err(CampaignTransitionError::WrongRound { round });
    }
    proof {
        lemma_last_model(state.rounds@);
    }
    let n = state.rounds.len() - 1;
    if state.rounds[n].mining.is_some() {
        return Err(state.illegal("mining_completed"));
    }
    state.rounds[n].mining = Some(result);
    state.phase = CampaignPhase::Proposing;
    proof {
        lemma_update_model(old(state).rounds@, state.rounds@);
    }
    Ok(())
}

fn propose_candidate(
    state: &mut CampaignState,
    round: RoundId,
    candidate: CandidateId,
    parent: CandidateParent,
    proposal: ProposalId,
) -> (r: Result<(), CampaignTransitionError>)
    ensures
        follows(
            candidate_proposed(old(state)@, round, candidate, parent, proposal),
            r,
            final(state)@,
        ),
{
    if state.phase != CampaignPhase::Proposing {
        return Err(state.illegal("candidate_proposed"));
    }
    if state.candidate_exists(candidate) {
        return Err(CampaignTransitionError::DuplicateCandidate { candidate });
    }
    let parent_is_valid = match parent {
        CandidateParent::BaseRevision(revision) => revision == state.base_revision,
        CandidateParent::Candidate(parent) => state.candidate_exists(parent),
    };
    if !parent_is_valid {
        return Err(CampaignTransitionError::InvalidCandidateParent { candidate });
    }
    if !state.current_is(round) {
        return Err(CampaignTransitionError::WrongRound { round });
    }
    proof {
        lemma_last_model(state.rounds@);
    }
    let n = state.rounds.len() - 1;
    if state.rounds[n].candidates.len() == MAX_CANDIDATES_PER_ROUND {
        return Err(
            CampaignTransitionError::Invalid(
                CampaignValidationError::TooManyEntries {
                    field: "round candidates",
                    maximum: MAX_CANDIDATES_PER_ROUND,
                },
            ),
        );
    }
    state.rounds[n].candidates.push(
        CandidateState { id: candidate, parent, stage: CandidateStage::Proposed { proposal } },
    );
    proof {
        lemma_update_model(old(state).rounds@, state.rounds@);
    }
    Ok(())
}

fn complete_proposals(state: &mut CampaignState, round: RoundId) -> (r: Result<
    (),
    CampaignTransitionError,
>)
    ensures
        follows(proposals_completed(old(state)@, round), r, final(state)@),
{
    if state.phase != CampaignPhase::Proposing {
        return Err(state.illegal("proposals_completed"));
    }
    if state.has_open_effects() {
        return Err(CampaignTransitionError::OpenEffects);
    }
    if !state.current_is(round) {
        return Err(CampaignTransitionError::WrongRound { round });
    }
    proof {
        lemma_last_model(state.rounds@);
    }
    if state.rounds[state.rounds.len() - 1].candidates.len() == 0 {
        return Err(CampaignTransitionError::EmptyRound);
    }
    state.phase = CampaignPhase::Trialing;
    Ok(())
}

fn record_trial(
    state: &mut CampaignState,
    round: RoundId,
    candidate: CandidateId,
    trial: TrialResultId,
) -> (r: Result<(), CampaignTransitionError>)
    ensures
        follows(trial_recorded(old(state)@, round, candidate, trial), r, final(state)@),
{
    if state.phase != CampaignPhase::Trialing {
        return Err(state.illegal("candidate_trial_recorded"));
    }
    if !state.current_is(round) {
        return Err(CampaignTransitionError::WrongRound { round });
    }
    proof {
        lemma_last_model(state.rounds@);
    }
    let n = state.rounds.len() - 1;
    if state.rounds[n].has_composite(candidate) {
        let awaiting = match &state.rounds[n].composite {
            Some(composite) => composite.stage == CompositeStage::AwaitingTrial,
            None => false,
        };
        if !awaiting {
            return Err(CampaignTransitionError::WrongCandidateStage { candidate });
        }
        state.set_composite_stage(CompositeStage::Trialed { trial });
        return Ok(());
    }
    match position_of(&state.rounds[n].candidates, candidate) {
        None => Err(CampaignTransitionError::UnknownCandidate { candidate }),
        Some(i) => match state.rounds[n].candidates[i].stage {
            CandidateStage::Proposed { proposal } => {
                state.set_stage(i, CandidateStage::Trialed { proposal, trial });
                Ok(())
            },
            _ => Err(CampaignTransitionError::WrongCandidateStage { candidate }),
        },
    }
}

fn complete_trials(state: &mut CampaignState, round: RoundId) -> (r: Result<
    (),
    CampaignTransitionError,
>)
    ensures
        follows(trials_completed(old(state)@, round), r, final(state)@),
{
    if state.phase != CampaignPhase::Trialing {
        return Err(state.illegal("trials_completed"));
    }
    if state.has_open_effects() {
        return Err(CampaignTransitionError::OpenEffects);
    }
    if !state.current_is(round) {
        return Err(CampaignTransitionError::WrongRound { round });
    }
    proof {
        lemma_last_model(state.rounds@);
    }
    if !state.rounds[state.rounds.len() - 1].trials_done() {
        return Err(CampaignTransitionError::IncompleteCandidates);
    }
    state.phase = CampaignPhase::Scoring;
    Ok(())
}

fn record_score(
    state: &mut CampaignState,
    round: RoundId,
    candidate: CandidateId,
    score: ScoreResultId,
) -> (r: Result<(), CampaignTransitionError>)
    ensures
        follows(score_recorded(old(state)@, round, candidate, score), r, final(state)@),
{
    if state.phase != CampaignPhase::Scoring {
        return Err(state.illegal("candidate_score_recorded"));
    }
    if !state.current_is(round) {
        return Err(CampaignTransitionError::WrongRound { round });
    }
    proof {
        lemma_last_model(state.rounds@);
    }
    let n = state.rounds.len() - 1;
    match position_of(&state.rounds[n].candidates, candidate) {
        None => Err(CampaignTransitionError::UnknownCandidate { candidate }),
        Some(i) => match state.rounds[n].candidates[i].stage {
            CandidateStage::Trialed { proposal, trial } => {
                state.set_stage(i, CandidateStage::Scored { proposal, trial, score });
                Ok(())
            },
            _ => Err(CampaignTransitionError::WrongCandidateStage { candidate }),
        },
    }
}

fn record_round_verdict(state: &mut CampaignState, round: RoundId, verdict: RoundVerdict) -> (r:
    Result<(), CampaignTransitionError>)
    ensures
        follows(round_verdict_recorded(old(state)@, round, verdict), r, final(state)@),
{
    if state.phase != CampaignPhase::Scoring {
        return Err(state.illegal("round_verdict_recorded"));
    }
    if state.has_open_effects() {
        return Err(CampaignTransitionError::OpenEffects);
    }
    if !state.current_is(round) {
        return Err(CampaignTransitionError::WrongRound { round });
    }
    proof {
        lemma_last_model(state.rounds@);
    }
    let n = state.rounds.len() - 1;
    if !state.rounds[n].scores_done() {
        return Err(CampaignTransitionError::IncompleteCandidates);
    }
    match verdict {
        RoundVerdict::Compose { candidate, .. } => {
            if position_of(&state.rounds[n].candidates, candidate).is_none() {
                return Err(CampaignTransitionError::InvalidVerdictCandidate { candidate });
            }
        },
        RoundVerdict::ComposeComposite { candidate, .. } => {
            if state.candidate_exists(candidate) {
                return Err(CampaignTransitionError::DuplicateCandidate { candidate });
            }
        },
        _ => {},
    }
    state.rounds[n].verdict = Some(verdict);
    proof {
        lemma_update_model(old(state).rounds@, state.rounds@);
    }
    match verdict {
        RoundVerdict::Continue { .. } => {
            state.phase = CampaignPhase::Ready;
        },
        RoundVerdict::Compose { .. } => {
            state.phase = CampaignPhase::Composing;
        },
        RoundVerdict::ComposeComposite { .. } => {
            state.phase = CampaignPhase::Composing;
        },
        RoundVerdict::NoUpdate { .. } => {
            state.phase = CampaignPhase::Terminal;
            state.terminal = Some(TerminalState::NoUpdate { round, verdict });
        },
        RoundVerdict::Inconclusive { .. } => {
            state.phase = CampaignPhase::Terminal;
            state.terminal = Some(TerminalState::RoundInconclusive { round, verdict });
        },
    }
    Ok(())
}

fn record_composite_composition(
    state: &mut CampaignState,
    round: RoundId,
    plan: &CompositePlan,
) -> (r: Result<(), CampaignTransitionError>)
    ensures
        follows(composite_composition_recorded(old(state)@, round, plan@), r, final(state)@),
{
    if state.phase != CampaignPhase::Composing {
        return Err(state.illegal("composite_composition_recorded"));
    }
    if state.has_open_effects() {
        return Err(CampaignTransitionError::OpenEffects);
    }
    if plan.validate().is_err() {
        return Err(
            CampaignTransitionError::Invalid(
                CampaignValidationError::InconsistentState("composite plan identity is invalid"),
            ),
        );
    }
    if plan.parent != state.base_revision {
        return Err(CampaignTransitionError::RevisionMismatch);
    }
    if !state.current_is(round) {
        return Err(CampaignTransitionError::WrongRound { round });
    }
    proof {
        lemma_last_model(state.rounds@);
    }
    let n = state.rounds.len() - 1;
    if !is_composite_chosen(state.rounds[n].verdict, plan.candidate, plan.id) {
        return Err(CampaignTransitionError::InvalidVerdictCandidate { candidate: plan.candidate });
    }
    if state.rounds[n].composite.is_some() {
        return Err(CampaignTransitionError::DuplicateCandidate { candidate: plan.candidate });
    }
    match state.rounds[n].admit_children(&plan.children) {
        Err(error) => return Err(error),
        Ok(()) => {},
    }
    state.rounds[n].composite = Some(
        CompositeState { plan: plan.clone(), stage: CompositeStage::AwaitingTrial },
    );
    state.phase = CampaignPhase::Trialing;
    proof {
        lemma_update_model(old(state).rounds@, state.rounds@);
    }
    Ok(())
}

fn record_composite_composition_failure(
    state: &mut CampaignState,
    round: RoundId,
    failure: &CompositionFailure,
) -> (r: Result<(), CampaignTransitionError>)
    ensures
        follows(composite_composition_failed(old(state)@, round, failure@), r, final(state)@),
{
    if state.phase != CampaignPhase::Composing {
        return Err(state.illegal("composite_composition_failed"));
    }
    if state.has_open_effects() {
        return Err(CampaignTransitionError::OpenEffects);
    }
    if failure.validate().is_err() {
        return Err(
            CampaignTransitionError::Invalid(
                CampaignValidationError::InconsistentState(
                    "composition failure identity is invalid",
                ),
            ),
        );
    }
    if failure.parent != state.base_revision {
        return Err(CampaignTransitionError::RevisionMismatch);
    }
    if !state.current_is(round) {
        return Err(CampaignTransitionError::WrongRound { round });
    }
    proof {
        lemma_last_model(state.rounds@);
    }
    let n = state.rounds.len() - 1;
    if !is_composite_chosen(state.rounds[n].verdict, failure.candidate, failure.id) {
        return Err(
            CampaignTransitionError::InvalidVerdictCandidate { candidate: failure.candidate },
        );
    }
    match state.rounds[n].admit_children(&failure.children) {
        Err(error) => return Err(error),
        Ok(()) => {},
    }
    state.phase = CampaignPhase::Terminal;
    state.terminal = Some(TerminalState::CompositionFallback { round, failure: failure.clone() });
    Ok(())
}

fn record_composite_score(
    state: &mut CampaignState,
    round: RoundId,
    candidate: CandidateId,
    score: ScoreResultId,
    outcome: CompositeOutcome,
) -> (r: Result<(), CampaignTransitionError>)
    ensures
        follows(
            composite_score_recorded(old(state)@, round, candidate, score, outcome),
            r,
            final(state)@,
        ),
{
    if state.phase != CampaignPhase::Scoring {
        return Err(state.illegal("composite_score_recorded"));
    }
    if !state.current_is(round) {
        return Err(CampaignTransitionError::WrongRound { round });
    }
    proof {
        lemma_last_model(state.rounds@);
    }
    let n = state.rounds.len() - 1;
    if !state.rounds[n].has_composite(candidate) {
        return Err(CampaignTransitionError::UnknownCandidate { candidate });
    }
    let (stage, revision, fallback) = match &state.rounds[n].composite {
        Some(composite) => (composite.stage, composite.plan.revision, composite.plan.fallback),
        None => return Err(CampaignTransitionError::UnknownCandidate { candidate }),
    };
    let trial = match stage {
        CompositeStage::Trialed { trial } => trial,
        _ => return Err(CampaignTransitionError::WrongCandidateStage { candidate }),
    };
    state.set_composite_stage(CompositeStage::Scored { trial, score, outcome });
    if outcome == CompositeOutcome::Verified {
        state.phase = CampaignPhase::Auditing;
        return Ok(());
    }
    if state.has_open_effects() {
        return Err(CampaignTransitionError::OpenEffects);
    }
    state.phase = CampaignPhase::Terminal;
    state.terminal = Some(
        TerminalState::CompositeFallback { round, candidate, revision, score, outcome, fallback },
    );
    Ok(())
}

fn is_candidate_chosen(verdict: Option<RoundVerdict>, chosen: CandidateId) -> (r: bool)
    ensures
        r == candidate_chosen(verdict, chosen),
{
    match verdict {
        Some(RoundVerdict::Compose { candidate, .. }) => candidate == chosen,
        _ => false,
    }
}

fn record_composition(
    state: &mut CampaignState,
    round: RoundId,
    candidate: CandidateId,
    composition: CompositionId,
    revision: Digest,
) -> (r: Result<(), CampaignTransitionError>)
    ensures
        follows(
            composition_recorded(old(state)@, round, candidate, composition, revision),
            r,
            final(state)@,
        ),
{
    if state.phase != CampaignPhase::Composing {
        return Err(state.illegal("composition_recorded"));
    }
    if state.has_open_effects() {
        return Err(CampaignTransitionError::OpenEffects);
    }
    if !state.current_is(round) {
        return Err(CampaignTransitionError::WrongRound { round });
    }
    proof {
        lemma_last_model(state.rounds@);
    }
    let n = state.rounds.len() - 1;
    if !is_candidate_chosen(state.rounds[n].verdict, candidate) {
        return Err(CampaignTransitionError::InvalidVerdictCandidate { candidate });
    }
    match position_of(&state.rounds[n].candidates, candidate) {
        None => Err(CampaignTransitionError::UnknownCandidate { candidate }),
        Some(i) => match state.rounds[n].candidates[i].stage {
            CandidateStage::Scored { proposal, trial, score } => {
                state.set_stage(
                    i,
                    CandidateStage::Composed { proposal, trial, score, composition, revision },
                );
                state.phase = CampaignPhase::Auditing;
                Ok(())
            },
            _ => Err(CampaignTransitionError::WrongCandidateStage { candidate }),
        },
    }
}

fn mark_audited(state: &mut CampaignState, verdict: FinalVerdict) -> (r: Result<
    (),
    CampaignTransitionError,
>)
    ensures
        follows(
            crate::evolution::campaign::event::audited(old(state)@, verdict),
            r,
            final(state)@,
        ),
{
    let candidate = verdict.candidate();
    let revision = verdict.revision();
    let report = verdict.report();
    if state.rounds.len() == 0 {
        return Err(CampaignTransitionError::UnknownCandidate { candidate });
    }
    proof {
        lemma_last_model(state.rounds@);
    }
    let n = state.rounds.len() - 1;
    if state.rounds[n].has_composite(candidate) {
        let (stage, composed) = match &state.rounds[n].composite {
            Some(composite) => (composite.stage, composite.plan.revision),
            None => return Err(CampaignTransitionError::UnknownCandidate { candidate }),
        };
        return match stage {
            CompositeStage::Scored { trial, score, outcome: CompositeOutcome::Verified } => {
                if revision != composed {
                    return Err(CampaignTransitionError::RevisionMismatch);
                }
                state.set_composite_stage(CompositeStage::Audited { trial, score, report });
                Ok(())
            },
            _ => Err(CampaignTransitionError::WrongCandidateStage { candidate }),
        };
    }
    match position_of(&state.rounds[n].candidates, candidate) {
        None => Err(CampaignTransitionError::UnknownCandidate { candidate }),
        Some(i) => match state.rounds[n].candidates[i].stage {
            CandidateStage::Composed {
                proposal,
                trial,
                score,
                composition,
                revision: composed,
            } => {
                if revision != composed {
                    return Err(CampaignTransitionError::RevisionMismatch);
                }
                state.set_stage(
                    i,
                    CandidateStage::Audited {
                        proposal,
                        trial,
                        score,
                        composition,
                        revision,
                        report,
                    },
                );
                Ok(())
            },
            _ => Err(CampaignTransitionError::WrongCandidateStage { candidate }),
        },
    }
}

fn record_final_verdict(state: &mut CampaignState, verdict: FinalVerdict) -> (r: Result<
    (),
    CampaignTransitionError,
>)
    ensures
        follows(final_verdict_recorded(old(state)@, verdict), r, final(state)@),
{
    if state.phase != CampaignPhase::Auditing {
        return Err(state.illegal("final_verdict_recorded"));
    }
    if state.has_open_effects() {
        return Err(CampaignTransitionError::OpenEffects);
    }
    match mark_audited(state, verdict) {
        Err(error) => return Err(error),
        Ok(()) => {},
    }
    state.final_verdict = Some(verdict);
    match verdict {
        FinalVerdict::Verified { revision, .. } => {
            state.phase = CampaignPhase::AwaitingApproval;
            state.approval = Some(ApprovalState::Awaiting { revision });
        },
        FinalVerdict::NotVerified { .. } => {
            state.phase = CampaignPhase::Terminal;
            state.terminal = Some(TerminalState::NotVerified(verdict));
        },
        FinalVerdict::Inconclusive { .. } => {
            state.phase = CampaignPhase::Terminal;
            state.terminal = Some(TerminalState::AuditInconclusive(verdict));
        },
    }
    Ok(())
}

fn record_approval(state: &mut CampaignState, decision: &ApprovalDecision) -> (r: Result<
    (),
    CampaignTransitionError,
>)
    ensures
        follows(approval_recorded(old(state)@, *decision), r, final(state)@),
{
    if state.phase != CampaignPhase::AwaitingApproval {
        return Err(state.illegal("approval_recorded"));
    }
    if state.has_open_effects() {
        return Err(CampaignTransitionError::OpenEffects);
    }
    let revision = match &state.approval {
        Some(ApprovalState::Awaiting { revision }) => *revision,
        _ => return Err(state.illegal("approval_recorded")),
    };
    if decision.revision() != revision {
        return Err(CampaignTransitionError::RevisionMismatch);
    }
    match decision {
        ApprovalDecision::Approved { id, revision } => {
            state.approval = Some(ApprovalState::Approved { id: *id, revision: *revision });
            state.activation = Some(ActivationState::Awaiting { revision: *revision });
            state.phase = CampaignPhase::Activating;
        },
        ApprovalDecision::Rejected { id, revision, reason } => {
            state.approval = Some(
                ApprovalState::Rejected { id: *id, revision: *revision, reason: reason.clone() },
            );
            state.phase = CampaignPhase::Terminal;
            state.terminal = Some(TerminalState::ApprovalRejected(decision.clone()));
        },
    }
    Ok(())
}

fn record_activation(state: &mut CampaignState, outcome: ActivationOutcome) -> (r: Result<
    (),
    CampaignTransitionError,
>)
    ensures
        follows(activation_recorded(old(state)@, outcome), r, final(state)@),
{
    if state.phase != CampaignPhase::Activating {
        return Err(state.illegal("activation_recorded"));
    }
    if state.has_open_effects() {
        return Err(CampaignTransitionError::OpenEffects);
    }
    let revision = match state.activation {
        Some(ActivationState::Awaiting { revision }) => revision,
        _ => return Err(state.illegal("activation_recorded")),
    };
    if outcome.requested_revision() != revision {
        return Err(CampaignTransitionError::RevisionMismatch);
    }
    match outcome {
        ActivationOutcome::Activated { revision, receipt } => {
            state.activation = Some(ActivationState::Activated { revision, receipt });
            state.monitoring = Some(MonitoringState::Active { revision, activation: receipt });
            state.phase = CampaignPhase::Monitoring;
        },
        ActivationOutcome::Superseded { requested_revision, active_revision, receipt } => {
            state.activation = Some(
                ActivationState::Superseded { requested_revision, active_revision, receipt },
            );
            state.phase = CampaignPhase::Terminal;
            state.terminal = Some(TerminalState::Superseded(outcome));
        },
    }
    Ok(())
}

fn record_monitoring(state: &mut CampaignState, outcome: MonitoringOutcome) -> (r: Result<
    (),
    CampaignTransitionError,
>)
    ensures
        follows(monitoring_completed(old(state)@, outcome), r, final(state)@),
{
    if state.phase != CampaignPhase::Monitoring {
        return Err(state.illegal("monitoring_completed"));
    }
    let revision = match state.monitoring {
        Some(MonitoringState::Active { revision, .. }) => revision,
        _ => return Err(state.illegal("monitoring_completed")),
    };
    if outcome.monitored_revision() != revision {
        return Err(CampaignTransitionError::RevisionMismatch);
    }
    if state.has_open_effects() {
        return Err(CampaignTransitionError::OpenEffects);
    }
    state.monitoring = Some(MonitoringState::Completed(outcome));
    state.phase = CampaignPhase::Terminal;
    state.terminal = Some(TerminalState::MonitoringCompleted(outcome));
    Ok(())
}

fn pause(state: &mut CampaignState, reason: &CampaignNote) -> (r: Result<
    (),
    CampaignTransitionError,
>)
    ensures
        follows(paused(old(state)@, *reason), r, final(state)@),
{
    if state.phase == CampaignPhase::Paused {
        return Err(state.illegal("paused"));
    }
    state.pause = Some(PauseState { previous_phase: state.phase, reason: reason.clone() });
    state.phase = CampaignPhase::Paused;
    Ok(())
}

fn resume(state: &mut CampaignState) -> (r: Result<(), CampaignTransitionError>)
    ensures
        follows(resumed(old(state)@), r, final(state)@),
{
    if state.phase != CampaignPhase::Paused {
        return Err(state.illegal("resumed"));
    }
    match state.pause.take() {
        Some(pause) => {
            state.phase = pause.previous_phase;
            Ok(())
        },
        None => Err(
            CampaignTransitionError::Invalid(
                CampaignValidationError::InconsistentState("paused campaign has no pause record"),
            ),
        ),
    }
}

/// The usage with one more effect and its reservation, if the budget allows it.
fn reserve(usage: CampaignUsage, budget: CampaignBudget, resources: ResourceUsage) -> (r: Option<
    CampaignUsage,
>)
    ensures
        r == if affordable(usage, budget, resources) {
            Some(crate::evolution::campaign::event::usage_reserving(usage, resources))
        } else {
            None::<CampaignUsage>
        },
{
    let effects_intended = match usage.effects_intended.checked_add(1) {
        Some(count) => count,
        None => return None,
    };
    let reserved = match usage.reserved.checked_add(resources) {
        Some(reserved) => reserved,
        None => return None,
    };
    let total = match usage.used.checked_add(reserved) {
        Some(total) => total,
        None => return None,
    };
    if effects_intended > budget.max_effects || !total.fits_within(budget.resources) {
        return None;
    }
    Some(CampaignUsage { effects_intended, used: usage.used, reserved })
}

fn intend_effect(state: &mut CampaignState, intent: EffectIntent) -> (r: Result<
    (),
    CampaignTransitionError,
>)
    ensures
        follows(effect_intended(old(state)@, intent), r, final(state)@),
{
    match intent.validate() {
        Err(error) => return Err(CampaignTransitionError::Invalid(error)),
        Ok(()) => {},
    }
    if !intent.kind.allowed_in(state.phase) {
        return Err(state.illegal("effect_intended"));
    }
    let expected_revision = match state.revision.checked_add(1) {
        Some(revision) => revision,
        None => return Err(CampaignTransitionError::RevisionExhausted),
    };
    if intent.campaign != state.id || intent.transition_revision != expected_revision {
        return Err(CampaignTransitionError::RevisionMismatch);
    }
    if state.effects.get(intent.id).is_some() {
        return Err(CampaignTransitionError::DuplicateEffect { effect: intent.id });
    }
    match reserve(state.usage, state.budget, intent.budget.resources) {
        None => return Err(CampaignTransitionError::BudgetExceeded),
        Some(usage) => {
            state.usage = usage;
        },
    }
    state.effects.insert(
        intent.id,
        EffectState {
            intent,
            lifecycle: EffectLifecycle::Intended { lease_epoch: LeaseEpoch::initial() },
        },
    );
    Ok(())
}

fn lease_effect(state: &mut CampaignState, effect: EffectId, epoch: LeaseEpoch) -> (r: Result<
    (),
    CampaignTransitionError,
>)
    ensures
        follows(effect_leased(old(state)@, effect, epoch), r, final(state)@),
{
    match epoch.validate() {
        Err(error) => return Err(CampaignTransitionError::Invalid(error)),
        Ok(()) => {},
    }
    let stored = match state.effects.get(effect) {
        Some(stored) => stored,
        None => return Err(CampaignTransitionError::UnknownEffect { effect }),
    };
    if !stored.intent.kind.allowed_in(state.phase) {
        return Err(state.illegal("effect_leased"));
    }
    let expected = match stored.lifecycle {
        EffectLifecycle::Intended { lease_epoch } => lease_epoch,
        EffectLifecycle::Reconciled { lease_epoch, .. } => lease_epoch,
        EffectLifecycle::Leased { .. } => {
            return Err(CampaignTransitionError::ReconciliationRequired { effect });
        },
        EffectLifecycle::Settled { .. } => {
            return Err(CampaignTransitionError::EffectAlreadySettled { effect });
        },
    };
    match check_epoch(effect, expected, epoch) {
        Err(error) => return Err(error),
        Ok(()) => {},
    }
    state.effects.insert(
        effect,
        EffectState { intent: stored.intent, lifecycle: EffectLifecycle::Leased { epoch } },
    );
    Ok(())
}

fn reconcile_effect(
    state: &mut CampaignState,
    effect: EffectId,
    leased_epoch: LeaseEpoch,
    next_epoch: LeaseEpoch,
    outcome: EffectReconciliation,
) -> (r: Result<(), CampaignTransitionError>)
    ensures
        follows(
            effect_reconciled(old(state)@, effect, leased_epoch, next_epoch, outcome),
            r,
            final(state)@,
        ),
{
    match leased_epoch.validate() {
        Err(error) => return Err(CampaignTransitionError::Invalid(error)),
        Ok(()) => {},
    }
    match next_epoch.validate() {
        Err(error) => return Err(CampaignTransitionError::Invalid(error)),
        Ok(()) => {},
    }
    let stored = match state.effects.get(effect) {
        Some(stored) => stored,
        None => return Err(CampaignTransitionError::UnknownEffect { effect }),
    };
    let current = match stored.lifecycle {
        EffectLifecycle::Leased { epoch } => epoch,
        EffectLifecycle::Settled { .. } => {
            return Err(CampaignTransitionError::EffectAlreadySettled { effect });
        },
        _ => return Err(CampaignTransitionError::EffectNotLeased { effect }),
    };
    match check_epoch(effect, current, leased_epoch) {
        Err(error) => return Err(error),
        Ok(()) => {},
    }
    let following = match current.next() {
        Some(following) => following,
        None => return Err(CampaignTransitionError::RevisionExhausted),
    };
    match check_epoch(effect, following, next_epoch) {
        Err(error) => return Err(error),
        Ok(()) => {},
    }
    match outcome {
        EffectReconciliation::RetryAuthorized { evidence } => {
            state.effects.insert(
                effect,
                EffectState {
                    intent: stored.intent,
                    lifecycle: EffectLifecycle::Reconciled { lease_epoch: next_epoch, evidence },
                },
            );
            Ok(())
        },
        EffectReconciliation::Recovered { receipt } => settle_at_reconciliation(
            state,
            effect,
            stored,
            next_epoch,
            receipt,
        ),
        EffectReconciliation::FencedInfrastructureUnknown { receipt } => {
            if !receipt.is_unknown() {
                return Err(CampaignTransitionError::FenceRequiresInfrastructureUnknown);
            }
            settle_at_reconciliation(state, effect, stored, next_epoch, receipt)
        },
    }
}

fn settle_effect(
    state: &mut CampaignState,
    effect: EffectId,
    epoch: LeaseEpoch,
    receipt: EffectReceipt,
) -> (r: Result<(), CampaignTransitionError>)
    ensures
        follows(effect_settled(old(state)@, effect, epoch, receipt), r, final(state)@),
{
    match epoch.validate() {
        Err(error) => return Err(CampaignTransitionError::Invalid(error)),
        Ok(()) => {},
    }
    let stored = match state.effects.get(effect) {
        Some(stored) => stored,
        None => return Err(CampaignTransitionError::UnknownEffect { effect }),
    };
    let (expected, leased) = match stored.lifecycle {
        EffectLifecycle::Leased { epoch } => (epoch, true),
        EffectLifecycle::Settled { .. } => {
            return Err(CampaignTransitionError::EffectAlreadySettled { effect });
        },
        EffectLifecycle::Reconciled { lease_epoch, .. } => (lease_epoch, false),
        EffectLifecycle::Intended { lease_epoch } => (lease_epoch, false),
    };
    match check_epoch(effect, expected, epoch) {
        Err(error) => return Err(error),
        Ok(()) => {},
    }
    if !leased {
        return Err(CampaignTransitionError::EffectNotLeased { effect });
    }
    settle_at_reconciliation(state, effect, stored, epoch, receipt)
}

impl EffectReceipt {
    fn is_unknown(&self) -> (r: bool)
        ensures
            r == (self.outcome is InfrastructureUnknown),
    {
        match self.outcome {
            EffectOutcome::InfrastructureUnknown { .. } => true,
            _ => false,
        }
    }

    /// What the receipt charges, if it is acceptable against a reservation.
    pub(crate) fn charged_usage(self, reservation: EffectBudget) -> (r: Result<
        ResourceUsage,
        CampaignTransitionError,
    >)
        ensures
            r == match receipt_problem(self, reservation) {
                Some(error) => Err::<ResourceUsage, CampaignTransitionError>(error),
                None => Ok(self.charge(reservation)),
            },
    {
        match self.accounting {
            EffectAccounting::Known(usage) => {
                match usage.validate("effect receipt usage") {
                    Err(error) => return Err(CampaignTransitionError::Invalid(error)),
                    Ok(()) => {},
                }
                if self.is_unknown() {
                    return Err(CampaignTransitionError::UnknownEffectMustChargeReservation);
                }
                if !usage.fits_within(reservation.resources) {
                    return Err(CampaignTransitionError::ReceiptExceedsReservation);
                }
                Ok(usage)
            },
            EffectAccounting::ReservationCharged => Ok(reservation.resources),
        }
    }
}

fn settle_at_reconciliation(
    state: &mut CampaignState,
    effect: EffectId,
    stored: EffectState,
    epoch: LeaseEpoch,
    receipt: EffectReceipt,
) -> (r: Result<(), CampaignTransitionError>)
    ensures
        follows(settled(old(state)@, effect, stored, epoch, receipt), r, final(state)@),
{
    let budget = stored.intent.budget;
    let charged = match receipt.charged_usage(budget) {
        Err(error) => return Err(error),
        Ok(charged) => charged,
    };
    let reserved = match state.usage.reserved.checked_sub(budget.resources) {
        Some(reserved) => reserved,
        None => {
            return Err(
                CampaignTransitionError::Invalid(
                    CampaignValidationError::InconsistentState(
                        "effect reservation exceeds campaign reservation",
                    ),
                ),
            );
        },
    };
    let used = match state.usage.used.checked_add(charged) {
        Some(used) => used,
        None => return Err(CampaignTransitionError::BudgetExceeded),
    };
    state.usage = CampaignUsage { effects_intended: state.usage.effects_intended, used, reserved };
    state.effects.insert(
        effect,
        EffectState {
            intent: stored.intent,
            lifecycle: EffectLifecycle::Settled { epoch, receipt },
        },
    );
    Ok(())
}

fn check_epoch(effect: EffectId, expected: LeaseEpoch, actual: LeaseEpoch) -> (r: Result<
    (),
    CampaignTransitionError,
>)
    ensures
        r == refused(epoch_problem(effect, expected, actual)),
{
    if actual == expected {
        return Ok(());
    }
    if actual.0 < expected.0 {
        return Err(
            CampaignTransitionError::StaleLeaseEpoch {
                effect,
                expected: expected.0,
                actual: actual.0,
            },
        );
    }
    Err(
        CampaignTransitionError::InvalidLeaseEpoch {
            effect,
            expected: expected.0,
            actual: actual.0,
        },
    )
}

fn terminal_effect_replay(state: &CampaignState, event: &CampaignEvent) -> (r: Result<
    bool,
    CampaignTransitionError,
>)
    ensures
        r == replay(state@, *event),
{
    let (effect, epoch, receipt) = match event {
        CampaignEvent::EffectSettled { effect, epoch, receipt } => (*effect, *epoch, *receipt),
        CampaignEvent::EffectReconciled { effect, leased_epoch, next_epoch, outcome } => {
            match leased_epoch.validate() {
                Err(error) => return Err(CampaignTransitionError::Invalid(error)),
                Ok(()) => {},
            }
            match next_epoch.validate() {
                Err(error) => return Err(CampaignTransitionError::Invalid(error)),
                Ok(()) => {},
            }
            let following = match leased_epoch.next() {
                Some(following) => following,
                None => return Err(CampaignTransitionError::RevisionExhausted),
            };
            match check_epoch(*effect, following, *next_epoch) {
                Err(error) => return Err(error),
                Ok(()) => {},
            }
            let receipt = match outcome {
                EffectReconciliation::Recovered { receipt } => *receipt,
                EffectReconciliation::FencedInfrastructureUnknown { receipt } => {
                    if !receipt.is_unknown() {
                        return Err(CampaignTransitionError::FenceRequiresInfrastructureUnknown);
                    }
                    *receipt
                },
                EffectReconciliation::RetryAuthorized { .. } => return Ok(false),
            };
            (*effect, *next_epoch, receipt)
        },
        _ => return Ok(false),
    };
    match state.effects.get(effect) {
        None => Ok(false),
        Some(stored) => match stored.lifecycle {
            EffectLifecycle::Settled { epoch: stored_epoch, receipt: stored_receipt } => {
                if stored_epoch == epoch && stored_receipt == receipt {
                    Ok(true)
                } else {
                    Err(CampaignTransitionError::ConflictingTerminalReceipt { effect })
                }
            },
            _ => Ok(false),
        },
    }
}

} // verus!
