//! What holds of every campaign.
use crate::evolution::campaign::apply::journaled;
use crate::evolution::campaign::event::{
    affordable, applied, effect_reconciled, effects_open, replay, settled, started, step,
    usage_reserving, CampaignEvent, CampaignTransitionError, Step,
};
use crate::evolution::campaign::state::{
    ascending, belongs_at, effect_of, known, lemma_room, lemma_with_effect, with_effect,
    CampaignModel, EffectEntry,
};
use crate::evolution::campaign::types::{
    ActivationState, ApprovalState, CampaignNote, CampaignPhase, CompositeOutcome, EffectId,
    EffectIntent, EffectLifecycle, EffectReceipt, EffectReconciliation, EffectState, FinalVerdict,
    LeaseEpoch, MonitoringState, RoundVerdict,
};
use crate::evolution::campaign::validate::{
    campaign_problem, candidate_check, effect_check, reserved_total, round_check, usage_adds_up,
    used_total, within_budget,
};
use crate::digest::Digest;
use crate::first::{first_some, lemma_first_some_none};
use vstd::prelude::*;

verus! {

/// Whether an event concerns an effect.
pub open spec fn concerns_effect(event: CampaignEvent) -> bool {
    event is EffectIntended || event is EffectLeased || event is EffectReconciled
        || event is EffectSettled
}

/// What a change leaves as it was.
spec fn keeps(s: CampaignModel, n: CampaignModel) -> bool {
    &&& n.id == s.id && n.cohort == s.cohort && n.base_revision == s.base_revision
    &&& n.policy == s.policy && n.budget == s.budget && n.revision == s.revision
    &&& s.rounds.len() <= n.rounds.len() <= s.rounds.len() + 1
    &&& forall|i: int| 0 <= i < s.rounds.len() - 1 ==> n.rounds[i] == s.rounds[i]
}

/// Events other than those of effects leave effects and usage as they were.
#[verifier::spinoff_prover]
#[verifier::rlimit(60)]
proof fn lemma_plain_step(s: CampaignModel, event: CampaignEvent, n: CampaignModel)
    requires
        !concerns_effect(event),
        step(s, event) == Ok::<CampaignModel, CampaignTransitionError>(n),
    ensures
        keeps(s, n),
        n.usage == s.usage,
        n.effects == s.effects,
        n.terminal != s.terminal ==> !effects_open(s.effects),
{
    match event {
        CampaignEvent::Started { .. } => {},
        CampaignEvent::RoundStarted { .. } => {},
        CampaignEvent::MiningCompleted { .. } => {},
        CampaignEvent::CandidateProposed { .. } => {},
        CampaignEvent::ProposalsCompleted { .. } => {},
        CampaignEvent::CandidateTrialRecorded { .. } => {},
        CampaignEvent::TrialsCompleted { .. } => {},
        CampaignEvent::CandidateScoreRecorded { .. } => {},
        CampaignEvent::RoundVerdictRecorded { verdict, .. } => match verdict {
            RoundVerdict::Continue { .. } => {},
            RoundVerdict::Compose { .. } => {},
            RoundVerdict::ComposeComposite { .. } => {},
            RoundVerdict::NoUpdate { .. } => {},
            RoundVerdict::Inconclusive { .. } => {},
        },
        CampaignEvent::CompositionRecorded { .. } => {},
        CampaignEvent::CompositeCompositionRecorded { .. } => {},
        CampaignEvent::CompositeCompositionFailed { .. } => {},
        CampaignEvent::CompositeScoreRecorded { .. } => {},
        CampaignEvent::FinalVerdictRecorded { .. } => {},
        CampaignEvent::ApprovalRecorded { .. } => {},
        CampaignEvent::ActivationRecorded { .. } => {},
        CampaignEvent::MonitoringCompleted { .. } => {},
        CampaignEvent::Paused { .. } => {},
        CampaignEvent::Resumed => {},
        CampaignEvent::EffectIntended { .. } => {},
        CampaignEvent::EffectLeased { .. } => {},
        CampaignEvent::EffectReconciled { .. } => {},
        CampaignEvent::EffectSettled { .. } => {},
    }
}

/// Events of effects leave all but effects and usage as it was.
proof fn lemma_effect_step(s: CampaignModel, event: CampaignEvent, n: CampaignModel)
    requires
        concerns_effect(event),
        step(s, event) == Ok::<CampaignModel, CampaignTransitionError>(n),
    ensures
        keeps(s, n),
        n.phase == s.phase,
        n.terminal == s.terminal,
        n.rounds == s.rounds,
        s.usage.used.spec_fits_within(n.usage.used),
        !(event is EffectIntended) ==> {
            &&& n.usage.used.queries + n.usage.reserved.queries <= s.usage.used.queries
                + s.usage.reserved.queries
            &&& n.usage.used.error_nanos + n.usage.reserved.error_nanos <= s.usage.used.error_nanos
                + s.usage.reserved.error_nanos
            &&& n.usage.used.artifact_bytes + n.usage.reserved.artifact_bytes
                <= s.usage.used.artifact_bytes + s.usage.reserved.artifact_bytes
        },
{
}

/// The change behind an accepted event that is no repetition.
proof fn lemma_behind(s: CampaignModel, event: CampaignEvent, next: CampaignModel) -> (n:
    CampaignModel)
    requires
        applied(s, event) == Ok::<CampaignModel, CampaignTransitionError>(next),
    ensures
        next == s || {
            &&& s.phase != CampaignPhase::Terminal
            &&& step(s, event) == Ok::<CampaignModel, CampaignTransitionError>(n)
            &&& next == (CampaignModel { revision: (s.revision + 1) as u64, ..n })
            &&& campaign_problem(next) is None
            &&& campaign_problem(s) is None
            &&& if concerns_effect(event) {
                true
            } else {
                n.effects == s.effects && n.usage == s.usage
            }
            &&& keeps(s, n)
        },
{
    match step(s, event) {
        Ok(n) => {
            if concerns_effect(event) {
                lemma_effect_step(s, event, n);
            } else {
                lemma_plain_step(s, event, n);
            }
            n
        },
        Err(_) => s,
    }
}

/// Every record that an accepted event leads to is consistent.
pub proof fn law_accepted_records_are_consistent(
    state: Option<CampaignModel>,
    event: CampaignEvent,
    next: CampaignModel,
)
    requires
        journaled(state, event) == Ok::<CampaignModel, CampaignTransitionError>(next),
    ensures
        campaign_problem(next) is None,
{
    if state is None {
        assert(first_some(round_check(next), 0) is None);
        assert(first_some(effect_check(next), 0) is None);
    }
}

/// What is used and what is reserved never exceed the budget, and add up to what the
/// effects on record say.
pub proof fn law_usage_stays_within_budget(
    state: Option<CampaignModel>,
    event: CampaignEvent,
    next: CampaignModel,
)
    requires
        journaled(state, event) == Ok::<CampaignModel, CampaignTransitionError>(next),
    ensures
        usage_adds_up(next.usage, next.effects),
        within_budget(next.usage, next.budget),
{
    law_accepted_records_are_consistent(state, event, next);
}

/// An accepted event raises the revision by one, or repeats a receipt on record and
/// changes nothing.
pub proof fn law_revision_counts_changes(
    s: CampaignModel,
    event: CampaignEvent,
    next: CampaignModel,
)
    requires
        applied(s, event) == Ok::<CampaignModel, CampaignTransitionError>(next),
    ensures
        next == s || next.revision == s.revision + 1,
        replay(s, event) == Ok::<bool, CampaignTransitionError>(true) <==> next == s,
{
}

/// No event changes an ended campaign.
pub proof fn law_terminal_campaigns_do_not_change(
    s: CampaignModel,
    event: CampaignEvent,
    next: CampaignModel,
)
    requires
        s.phase == CampaignPhase::Terminal,
        applied(s, event) == Ok::<CampaignModel, CampaignTransitionError>(next),
    ensures
        next == s,
{
}

/// The identity, the base and the budget of a campaign are fixed when it starts.
pub proof fn law_identity_is_fixed(s: CampaignModel, event: CampaignEvent, next: CampaignModel)
    requires
        applied(s, event) == Ok::<CampaignModel, CampaignTransitionError>(next),
    ensures
        next.id == s.id,
        next.cohort == s.cohort,
        next.base_revision == s.base_revision,
        next.policy == s.policy,
        next.budget == s.budget,
{
    let n = lemma_behind(s, event, next);
}

/// Rounds are only added: one that is no longer the last does not change, and none is
/// taken away.
pub proof fn law_earlier_rounds_are_fixed(
    s: CampaignModel,
    event: CampaignEvent,
    next: CampaignModel,
    i: int,
)
    requires
        applied(s, event) == Ok::<CampaignModel, CampaignTransitionError>(next),
        0 <= i < s.rounds.len() - 1,
    ensures
        s.rounds.len() <= next.rounds.len() <= s.rounds.len() + 1,
        next.rounds[i] == s.rounds[i],
{
    let n = lemma_behind(s, event, next);
}

/// What an accepted event does to one effect on record.
proof fn lemma_effect_after(s: CampaignModel, event: CampaignEvent, n: CampaignModel, id: EffectId)
    requires
        ascending(s.effects),
        step(s, event) == Ok::<CampaignModel, CampaignTransitionError>(n),
    ensures
        ascending(n.effects),
        match effect_of(s.effects, id) {
            None => true,
            Some(before) => {
                &&& effect_of(n.effects, id) is Some
                &&& effect_of(n.effects, id)->0.intent == before.intent
                &&& effect_of(n.effects, id)->0.lifecycle.epoch().0 >= before.lifecycle.epoch().0
                &&& before.lifecycle is Settled ==> effect_of(n.effects, id) == Some(before)
            },
        },
{
    match event {
        CampaignEvent::EffectIntended { intent } => {
            lemma_with_effect(
                s.effects,
                intent.id,
                EffectState {
                    intent,
                    lifecycle: EffectLifecycle::Intended { lease_epoch: LeaseEpoch(1) },
                },
            );
        },
        CampaignEvent::EffectLeased { effect, epoch } => {
            lemma_with_effect(
                s.effects,
                effect,
                EffectState {
                    lifecycle: EffectLifecycle::Leased { epoch },
                    ..effect_of(s.effects, effect)->0
                },
            );
        },
        CampaignEvent::EffectSettled { effect, epoch, receipt } => {
            lemma_with_effect(
                s.effects,
                effect,
                EffectState {
                    lifecycle: EffectLifecycle::Settled { epoch, receipt },
                    ..effect_of(s.effects, effect)->0
                },
            );
        },
        CampaignEvent::EffectReconciled { effect, next_epoch, outcome, .. } => {
            let lifecycle = match outcome {
                EffectReconciliation::RetryAuthorized { evidence } => EffectLifecycle::Reconciled {
                    lease_epoch: next_epoch,
                    evidence,
                },
                EffectReconciliation::Recovered { receipt } => EffectLifecycle::Settled {
                    epoch: next_epoch,
                    receipt,
                },
                EffectReconciliation::FencedInfrastructureUnknown { receipt } => {
                    EffectLifecycle::Settled { epoch: next_epoch, receipt }
                },
            };
            lemma_with_effect(
                s.effects,
                effect,
                EffectState { lifecycle, ..effect_of(s.effects, effect)->0 },
            );
        },
        _ => {},
    }
}

/// An effect on record stays on record with the same intent, its lease number never
/// falls, and once settled it never changes.
pub proof fn law_effects_only_advance(
    s: CampaignModel,
    event: CampaignEvent,
    next: CampaignModel,
    id: EffectId,
    before: EffectState,
)
    requires
        ascending(s.effects),
        applied(s, event) == Ok::<CampaignModel, CampaignTransitionError>(next),
        effect_of(s.effects, id) == Some(before),
    ensures
        effect_of(next.effects, id) is Some,
        effect_of(next.effects, id)->0.intent == before.intent,
        effect_of(next.effects, id)->0.lifecycle.epoch().0 >= before.lifecycle.epoch().0,
        before.lifecycle is Settled ==> effect_of(next.effects, id) == Some(before),
{
    match step(s, event) {
        Ok(n) => lemma_effect_after(s, event, n, id),
        Err(_) => {},
    }
}

/// Settling an effect again with the same receipt changes nothing.
pub proof fn law_settlement_is_idempotent(
    s: CampaignModel,
    effect: EffectId,
    epoch: LeaseEpoch,
    receipt: EffectReceipt,
    next: CampaignModel,
)
    requires
        ascending(s.effects),
        applied(s, CampaignEvent::EffectSettled { effect, epoch, receipt }) == Ok::<
            CampaignModel,
            CampaignTransitionError,
        >(next),
    ensures
        applied(next, CampaignEvent::EffectSettled { effect, epoch, receipt }) == Ok::<
            CampaignModel,
            CampaignTransitionError,
        >(next),
{
    let event = CampaignEvent::EffectSettled { effect, epoch, receipt };
    law_accepted_records_are_consistent(Some(s), event, next);
    match effect_of(s.effects, effect) {
        Some(state) => lemma_with_effect(
            s.effects,
            effect,
            EffectState { lifecycle: EffectLifecycle::Settled { epoch, receipt }, ..state },
        ),
        None => {},
    }
}

/// A settled effect refuses every other receipt, and keeps the campaign as it is.
pub proof fn law_other_receipts_conflict(
    s: CampaignModel,
    effect: EffectId,
    epoch: LeaseEpoch,
    receipt: EffectReceipt,
    state: EffectState,
)
    requires
        campaign_problem(s) is None,
        effect_of(s.effects, effect) == Some(state),
        state.lifecycle is Settled,
        state.lifecycle != (EffectLifecycle::Settled { epoch, receipt }),
    ensures
        applied(s, CampaignEvent::EffectSettled { effect, epoch, receipt }) == Err::<
            CampaignModel,
            CampaignTransitionError,
        >(CampaignTransitionError::ConflictingTerminalReceipt { effect }),
{
}

/// A worker whose lease was followed by another cannot settle the effect.
pub proof fn law_stale_workers_are_fenced(
    s: CampaignModel,
    effect: EffectId,
    epoch: LeaseEpoch,
    receipt: EffectReceipt,
    state: EffectState,
)
    requires
        campaign_problem(s) is None,
        s.phase != CampaignPhase::Terminal,
        effect_of(s.effects, effect) == Some(state),
        !(state.lifecycle is Settled),
        epoch.problem() is None,
        epoch.0 < state.lifecycle.epoch().0,
    ensures
        applied(s, CampaignEvent::EffectSettled { effect, epoch, receipt }) == Err::<
            CampaignModel,
            CampaignTransitionError,
        >(
            CampaignTransitionError::StaleLeaseEpoch {
                effect,
                expected: state.lifecycle.epoch().0,
                actual: epoch.0,
            },
        ),
{
}

/// A leased effect cannot be leased again before it is reconciled.
pub proof fn law_leased_effects_need_reconciliation(
    s: CampaignModel,
    effect: EffectId,
    epoch: LeaseEpoch,
    state: EffectState,
)
    requires
        campaign_problem(s) is None,
        s.phase == state.intent.kind.home(),
        effect_of(s.effects, effect) == Some(state),
        state.lifecycle is Leased,
        epoch.problem() is None,
    ensures
        applied(s, CampaignEvent::EffectLeased { effect, epoch }) == Err::<
            CampaignModel,
            CampaignTransitionError,
        >(CampaignTransitionError::ReconciliationRequired { effect }),
{
}

/// Effects are intended and leased only in the phase of their kind, so never while the
/// campaign is paused or ended.
pub proof fn law_effects_start_in_their_phase(
    s: CampaignModel,
    event: CampaignEvent,
    next: CampaignModel,
)
    requires
        applied(s, event) == Ok::<CampaignModel, CampaignTransitionError>(next),
    ensures
        event matches CampaignEvent::EffectIntended { intent } ==> s.phase == intent.kind.home(),
        event matches CampaignEvent::EffectLeased { effect, .. } ==> effect_of(
            s.effects,
            effect,
        ) is Some && s.phase == effect_of(s.effects, effect)->0.intent.kind.home(),
        event is EffectIntended || event is EffectLeased ==> s.phase != CampaignPhase::Paused
            && s.phase != CampaignPhase::Terminal,
{
}

/// Open effects block every change of phase but a pause, a resumption, the start of a
/// round and the verified score of a composite.
pub proof fn law_open_effects_block_the_stages(
    s: CampaignModel,
    event: CampaignEvent,
    next: CampaignModel,
)
    requires
        applied(s, event) == Ok::<CampaignModel, CampaignTransitionError>(next),
        effects_open(s.effects),
        next.phase != s.phase,
    ensures
        ({
            ||| event is Paused
            ||| event is Resumed
            ||| event is RoundStarted
            ||| event matches CampaignEvent::CompositeScoreRecorded { outcome, .. } && outcome
                == CompositeOutcome::Verified
        }),
{
}

/// A campaign ends only when every effect is settled.
pub proof fn law_ended_campaigns_have_no_open_effects(
    s: CampaignModel,
    event: CampaignEvent,
    next: CampaignModel,
)
    requires
        applied(s, event) == Ok::<CampaignModel, CampaignTransitionError>(next),
        s.phase == CampaignPhase::Terminal ==> !effects_open(s.effects),
        next.phase == CampaignPhase::Terminal,
    ensures
        !effects_open(next.effects),
{
    let n = lemma_behind(s, event, next);
    if next != s {
        if concerns_effect(event) {
            lemma_effect_step(s, event, n);
        } else {
            lemma_plain_step(s, event, n);
        }
    }
}

/// Resuming undoes a pause: only the revision tells the difference.
pub proof fn law_resume_undoes_pause(
    s: CampaignModel,
    reason: CampaignNote,
    between: CampaignModel,
    after: CampaignModel,
)
    requires
        applied(s, CampaignEvent::Paused { reason }) == Ok::<
            CampaignModel,
            CampaignTransitionError,
        >(between),
        applied(between, CampaignEvent::Resumed) == Ok::<CampaignModel, CampaignTransitionError>(
            after,
        ),
    ensures
        after == (CampaignModel { revision: (s.revision + 2) as u64, ..s }),
{
}

proof fn lemma_fenced_step(
    s: CampaignModel,
    effect: EffectId,
    leased_epoch: LeaseEpoch,
    next_epoch: LeaseEpoch,
    receipt: EffectReceipt,
    state: EffectState,
    n: CampaignModel,
)
    requires
        effect_of(s.effects, effect) == Some(state),
        effect_reconciled(
            s,
            effect,
            leased_epoch,
            next_epoch,
            EffectReconciliation::FencedInfrastructureUnknown { receipt },
        ) == Ok::<CampaignModel, CampaignTransitionError>(n),
    ensures
        n.usage.used.totals() == s.usage.used.totals().plus(state.intent.budget.resources),
        n.usage.reserved.totals().plus(state.intent.budget.resources) == s.usage.reserved.totals(),
{
    assert(settled(s, effect, state, next_epoch, receipt) == Ok::<
        CampaignModel,
        CampaignTransitionError,
    >(n));
}

/// An effect that is fenced with its end unknown is charged its whole reservation.
pub proof fn law_fenced_effects_are_charged_in_full(
    s: CampaignModel,
    effect: EffectId,
    leased_epoch: LeaseEpoch,
    next_epoch: LeaseEpoch,
    receipt: EffectReceipt,
    state: EffectState,
    next: CampaignModel,
)
    requires
        effect_of(s.effects, effect) == Some(state),
        !(state.lifecycle is Settled),
        applied(
            s,
            CampaignEvent::EffectReconciled {
                effect,
                leased_epoch,
                next_epoch,
                outcome: EffectReconciliation::FencedInfrastructureUnknown { receipt },
            },
        ) == Ok::<CampaignModel, CampaignTransitionError>(next),
    ensures
        next.usage.used.totals() == s.usage.used.totals().plus(state.intent.budget.resources),
        next.usage.reserved.totals().plus(state.intent.budget.resources)
            == s.usage.reserved.totals(),
{
    let event = CampaignEvent::EffectReconciled {
        effect,
        leased_epoch,
        next_epoch,
        outcome: EffectReconciliation::FencedInfrastructureUnknown { receipt },
    };
    assert(replay(s, event) != Ok::<bool, CampaignTransitionError>(true));
    let n = lemma_behind(s, event, next);
    if next != s {
        lemma_fenced_step(s, effect, leased_epoch, next_epoch, receipt, state, n);
    }
}

/// What was used stays used, and only a new intent adds to what is used and reserved
/// together.
pub proof fn law_usage_only_grows(s: CampaignModel, event: CampaignEvent, next: CampaignModel)
    requires
        applied(s, event) == Ok::<CampaignModel, CampaignTransitionError>(next),
    ensures
        s.usage.used.spec_fits_within(next.usage.used),
        !(event is EffectIntended) ==> {
            &&& next.usage.used.queries + next.usage.reserved.queries <= s.usage.used.queries
                + s.usage.reserved.queries
            &&& next.usage.used.error_nanos + next.usage.reserved.error_nanos
                <= s.usage.used.error_nanos + s.usage.reserved.error_nanos
            &&& next.usage.used.artifact_bytes + next.usage.reserved.artifact_bytes
                <= s.usage.used.artifact_bytes + s.usage.reserved.artifact_bytes
        },
{
    let n = lemma_behind(s, event, next);
    if next != s && concerns_effect(event) {
        lemma_effect_step(s, event, n);
    }
}

/// The revision that an activation was asked for.
pub open spec fn requested(activation: ActivationState) -> Digest {
    match activation {
        ActivationState::Awaiting { revision } => revision,
        ActivationState::Activated { revision, .. } => revision,
        ActivationState::Superseded { requested_revision, .. } => requested_revision,
    }
}

/// The revision that is or was monitored.
pub open spec fn monitored(monitoring: MonitoringState) -> Digest {
    match monitoring {
        MonitoringState::Active { revision, .. } => revision,
        MonitoringState::Completed(outcome) => outcome.spec_monitored_revision(),
    }
}

/// Whether the audit verified a revision.
pub open spec fn verified(s: CampaignModel, revision: Digest) -> bool {
    s.final_verdict matches Some(FinalVerdict::Verified { revision: audited, .. }) && audited
        == revision
}

/// Whether a revision was approved.
pub open spec fn approved(s: CampaignModel, revision: Digest) -> bool {
    s.approval matches Some(ApprovalState::Approved { revision: agreed, .. }) && agreed == revision
}

/// Whether a revision was activated.
pub open spec fn activated(s: CampaignModel, revision: Digest) -> bool {
    s.activation matches Some(ActivationState::Activated { revision: active, .. }) && active
        == revision
}

/// Whether no pointer moved without the approval of what the audit verified: approval is
/// asked only for a verified revision, activation comes only behind its approval, and
/// monitoring only behind its activation.
pub open spec fn activation_authorized(s: CampaignModel) -> bool {
    &&& s.approval matches Some(ApprovalState::Awaiting { revision }) ==> verified(s, revision)
    &&& s.activation matches Some(activation) ==> approved(s, requested(activation)) && verified(
        s,
        requested(activation),
    )
    &&& s.monitoring matches Some(monitoring) ==> activated(s, monitored(monitoring))
}

/// The phase that a campaign is in, or that it was paused in.
pub open spec fn stage(s: CampaignModel) -> CampaignPhase {
    match s.pause {
        Some(pause) => pause.previous_phase,
        None => s.phase,
    }
}

/// Whether what is on record of a promotion fits the stage that a campaign is in.
pub open spec fn well_staged(s: CampaignModel) -> bool {
    &&& (s.phase == CampaignPhase::Paused) == (s.pause is Some)
    &&& match stage(s) {
        CampaignPhase::Paused => false,
        CampaignPhase::Terminal => s.pause is None && activation_authorized(s),
        CampaignPhase::AwaitingApproval => {
            &&& s.approval matches Some(ApprovalState::Awaiting { revision }) && verified(
                s,
                revision,
            )
            &&& s.activation is None
            &&& s.monitoring is None
        },
        CampaignPhase::Activating => {
            &&& s.activation matches Some(ActivationState::Awaiting { revision }) && approved(
                s,
                revision,
            ) && verified(s, revision)
            &&& s.monitoring is None
        },
        CampaignPhase::Monitoring => {
            &&& s.monitoring matches Some(MonitoringState::Active { revision, .. }) && activated(
                s,
                revision,
            ) && approved(s, revision) && verified(s, revision)
        },
        _ => {
            &&& s.final_verdict is None
            &&& s.approval is None
            &&& s.activation is None
            &&& s.monitoring is None
        },
    }
}

/// Whether a round was told to continue.
pub open spec fn continued(verdict: Option<RoundVerdict>) -> bool {
    verdict matches Some(RoundVerdict::Continue { .. })
}

/// Whether every round but the last was told to continue, and the last one too where another
/// may start.
pub open spec fn rounds_continued(s: CampaignModel) -> bool {
    &&& forall|i: int| 0 <= i < s.rounds.len() - 1 ==> continued((#[trigger] s.rounds[i]).verdict)
    &&& stage(s) == CampaignPhase::Ready && s.rounds.len() > 0 ==> continued(
        s.rounds.last().verdict,
    )
}

/// A campaign starts well staged.
pub proof fn law_campaigns_start_well_staged(event: CampaignEvent, s: CampaignModel)
    requires
        started(event) == Ok::<CampaignModel, CampaignTransitionError>(s),
    ensures
        well_staged(s),
        activation_authorized(s),
        rounds_continued(s),
{
}

#[verifier::spinoff_prover]
#[verifier::rlimit(80)]
proof fn lemma_staged_step(s: CampaignModel, event: CampaignEvent, n: CampaignModel)
    requires
        s.phase != CampaignPhase::Terminal,
        step(s, event) == Ok::<CampaignModel, CampaignTransitionError>(n),
        well_staged(s),
        rounds_continued(s),
    ensures
        well_staged(n),
        rounds_continued(n),
{
    match event {
        CampaignEvent::Started { .. } => {},
        CampaignEvent::RoundStarted { .. } => {},
        CampaignEvent::MiningCompleted { .. } => {},
        CampaignEvent::CandidateProposed { .. } => {},
        CampaignEvent::ProposalsCompleted { .. } => {},
        CampaignEvent::CandidateTrialRecorded { .. } => {},
        CampaignEvent::TrialsCompleted { .. } => {},
        CampaignEvent::CandidateScoreRecorded { .. } => {},
        CampaignEvent::RoundVerdictRecorded { verdict, .. } => match verdict {
            RoundVerdict::Continue { .. } => {},
            RoundVerdict::Compose { .. } => {},
            RoundVerdict::ComposeComposite { .. } => {},
            RoundVerdict::NoUpdate { .. } => {},
            RoundVerdict::Inconclusive { .. } => {},
        },
        CampaignEvent::CompositionRecorded { .. } => {},
        CampaignEvent::CompositeCompositionRecorded { .. } => {},
        CampaignEvent::CompositeCompositionFailed { .. } => {},
        CampaignEvent::CompositeScoreRecorded { .. } => {},
        CampaignEvent::FinalVerdictRecorded { .. } => {},
        CampaignEvent::ApprovalRecorded { .. } => {},
        CampaignEvent::ActivationRecorded { .. } => {},
        CampaignEvent::MonitoringCompleted { .. } => {},
        CampaignEvent::Paused { .. } => {},
        CampaignEvent::Resumed => {},
        CampaignEvent::EffectIntended { .. } => {},
        CampaignEvent::EffectLeased { .. } => {},
        CampaignEvent::EffectReconciled { .. } => {},
        CampaignEvent::EffectSettled { .. } => {},
    }
}

/// Every accepted event keeps a campaign well staged, and no pointer moves by verification
/// alone.
pub proof fn law_events_keep_campaigns_well_staged(
    s: CampaignModel,
    event: CampaignEvent,
    next: CampaignModel,
)
    requires
        applied(s, event) == Ok::<CampaignModel, CampaignTransitionError>(next),
        well_staged(s),
        rounds_continued(s),
    ensures
        well_staged(next),
        activation_authorized(next),
        rounds_continued(next),
{
    if next != s {
        let n = lemma_behind(s, event, next);
        lemma_staged_step(s, event, n);
    }
}

/// What a journal of events leads to.
pub open spec fn recorded(events: Seq<CampaignEvent>) -> Step
    decreases events.len(),
{
    if events.len() <= 1 {
        if events.len() == 0 {
            Err(CampaignTransitionError::NotStarted)
        } else {
            journaled(None, events[0])
        }
    } else {
        match recorded(events.drop_last()) {
            Err(error) => Err(error),
            Ok(s) => journaled(Some(s), events.last()),
        }
    }
}

/// Whatever a journal holds, an activation is behind the approval of a revision that the audit
/// verified, monitoring is behind its activation, and no round started before the one before
/// it was told to continue.
pub proof fn law_promotions_are_authorized(events: Seq<CampaignEvent>, s: CampaignModel)
    requires
        recorded(events) == Ok::<CampaignModel, CampaignTransitionError>(s),
    ensures
        activation_authorized(s),
        forall|i: int|
            0 <= i < s.rounds.len() - 1 ==> continued((#[trigger] s.rounds[i]).verdict),
{
    lemma_recorded(events, s);
}

proof fn lemma_recorded(events: Seq<CampaignEvent>, s: CampaignModel)
    requires
        recorded(events) == Ok::<CampaignModel, CampaignTransitionError>(s),
    ensures
        well_staged(s),
        activation_authorized(s),
        rounds_continued(s),
    decreases events.len(),
{
    if events.len() == 1 {
        law_campaigns_start_well_staged(events[0], s);
    } else {
        let before = recorded(events.drop_last())->Ok_0;
        lemma_recorded(events.drop_last(), before);
        law_events_keep_campaigns_well_staged(before, events.last(), s);
    }
}

/// What the effects reserve and have used, with one more among them that is intended.
proof fn lemma_inserted_totals(effects: Seq<EffectEntry>, k: int, entry: EffectEntry, n: int)
    requires
        0 <= k <= effects.len(),
        0 <= n <= effects.len() + 1,
        entry.state.lifecycle is Intended,
    ensures
        ({
            let after = effects.insert(k, entry);
            if n <= k {
                &&& reserved_total(after, n) == reserved_total(effects, n)
                &&& used_total(after, n) == used_total(effects, n)
            } else {
                &&& reserved_total(after, n) == reserved_total(effects, n - 1).plus(
                    entry.state.intent.budget.resources,
                )
                &&& used_total(after, n) == used_total(effects, n - 1)
            }
        }),
    decreases n,
{
    let after = effects.insert(k, entry);
    if n > 0 {
        lemma_inserted_totals(effects, k, entry, n - 1);
        if n - 1 < k {
            assert(after[n - 1] == effects[n - 1]);
        } else if n - 1 > k {
            assert(after[n - 1] == effects[n - 2]);
        }
    }
}

/// What a part of the effects reserves and has used is no more than what all of them do.
proof fn lemma_totals_grow(effects: Seq<EffectEntry>, m: int, n: int)
    requires
        0 <= m <= n <= effects.len(),
    ensures
        reserved_total(effects, m).queries <= reserved_total(effects, n).queries,
        reserved_total(effects, m).error_nanos <= reserved_total(effects, n).error_nanos,
        reserved_total(effects, m).artifact_bytes <= reserved_total(effects, n).artifact_bytes,
        used_total(effects, m).queries <= used_total(effects, n).queries,
        used_total(effects, m).error_nanos <= used_total(effects, n).error_nanos,
        used_total(effects, m).artifact_bytes <= used_total(effects, n).artifact_bytes,
    decreases n - m,
{
    if m < n {
        lemma_totals_grow(effects, m, n - 1);
    }
}

/// What is wrong with the rounds of a campaign does not rest on its effects.
proof fn lemma_rounds_stand(s: CampaignModel, next: CampaignModel)
    requires
        first_some(round_check(s), s.rounds.len() as int) is None,
        next == (CampaignModel {
            revision: next.revision,
            usage: next.usage,
            effects: next.effects,
            ..s
        }),
    ensures
        first_some(round_check(next), next.rounds.len() as int) is None,
{
    let n = s.rounds.len() as int;
    lemma_first_some_none(round_check(s), n);
    assert forall|i: int| 0 <= i < n implies (#[trigger] round_check(next)(i)) is None by {
        assert(round_check(s)(i) is None);
        let m = s.rounds[i].candidates.len() as int;
        lemma_first_some_none(candidate_check(s, i), m);
        lemma_first_some_none(candidate_check(next, i), m);
        assert forall|j: int| 0 <= j < m implies (#[trigger] candidate_check(next, i)(j)) is None by {
            assert(candidate_check(s, i)(j) is None);
        }
    }
    lemma_first_some_none(round_check(next), n);
}

/// A new intent of the next revision, in the phase of its kind and within the budget, is
/// accepted.
pub proof fn law_affordable_intents_are_accepted(s: CampaignModel, intent: EffectIntent)
    requires
        campaign_problem(s) is None,
        ascending(s.effects),
        intent.problem() is None,
        s.phase == intent.kind.home(),
        intent.campaign == s.id,
        intent.transition_revision == s.revision + 1,
        !known(s.effects, intent.id),
        affordable(s.usage, s.budget, intent.budget.resources),
    ensures
        applied(s, CampaignEvent::EffectIntended { intent }) == Ok::<
            CampaignModel,
            CampaignTransitionError,
        >(
            CampaignModel {
                revision: (s.revision + 1) as u64,
                usage: usage_reserving(s.usage, intent.budget.resources),
                effects: with_effect(
                    s.effects,
                    intent.id,
                    EffectState {
                        intent,
                        lifecycle: EffectLifecycle::Intended { lease_epoch: LeaseEpoch(1) },
                    },
                ),
                ..s
            },
        ),
{
    let state = EffectState {
        intent,
        lifecycle: EffectLifecycle::Intended { lease_epoch: LeaseEpoch(1) },
    };
    let entry = EffectEntry { id: intent.id, state };
    let changed = step(s, CampaignEvent::EffectIntended { intent })->Ok_0;
    let next = CampaignModel { revision: (s.revision + 1) as u64, ..changed };
    lemma_room(s.effects, intent.id);
    let k = choose|k: int| belongs_at(s.effects, intent.id, k);
    assert(belongs_at(s.effects, intent.id, k));
    assert(next.effects == s.effects.insert(k, entry));
    let n = s.effects.len() as int;
    lemma_inserted_totals(s.effects, k, entry, n + 1);
    lemma_rounds_stand(s, next);
    lemma_first_some_none(effect_check(s), n);
    assert forall|i: int| 0 <= i < n + 1 implies (#[trigger] effect_check(next)(i)) is None by {
        lemma_totals_grow(next.effects, i + 1, n + 1);
        if i < k {
            assert(effect_check(s)(i) is None);
            assert(next.effects[i] == s.effects[i]);
        } else if i > k {
            assert(effect_check(s)(i - 1) is None);
            assert(next.effects[i] == s.effects[i - 1]);
        }
    }
    lemma_first_some_none(effect_check(next), n + 1);
    assert(campaign_problem(next) is None);
}

} // verus!
