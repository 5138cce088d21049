use harness::digest::Digest;
use harness::evolution::campaign::apply::apply_campaign;
use harness::evolution::campaign::event::{CampaignEvent, CampaignTransitionError};
use harness::evolution::campaign::state::CampaignState;
use harness::evolution::campaign::types::{
    ActivationOutcome, ApprovalDecision, CampaignBudget, CampaignNote, CampaignPhase,
    CampaignValidationError, CandidateParent, EffectAccounting, EffectBudget, EffectId,
    EffectIntent, EffectKind, EffectLifecycle, EffectOutcome, EffectReceipt, EffectReconciliation,
    FinalVerdict, LeaseEpoch, MonitoringOutcome, ResourceUsage, RoundVerdict, TerminalState,
    MAX_EFFECTS, MAX_NOTE_BYTES,
};
use harness::evolution::ids::{
    ActivationReceiptId, ApprovalId, AuditReportId, CampaignId, CandidateId, CohortId,
    CompositionId, EffectFailureId, EffectOutputId, EffectReceiptId, EffectUncertaintyId,
    EffectWorkId, MiningResultId, MonitoringReportId, PolicyIdentity, ProposalId,
    ReconciliationId, RollbackReceiptId, RoundId, RoundVerdictId, ScoreResultId, TrialResultId,
};
use harness::uuid::Uuid;

fn digest(value: u8) -> Digest {
    Digest::of(&[value])
}

fn started() -> CampaignEvent {
    CampaignEvent::Started {
        campaign: CampaignId::from_uuid(Uuid::from_u128(1)),
        cohort: CohortId::from_uuid(Uuid::from_u128(2)),
        base_revision: digest(3),
        policy: PolicyIdentity::from_digest(digest(4)),
        budget: CampaignBudget::new(32, ResourceUsage::new(100, 1_000, 10_000)).unwrap(),
    }
}

fn id<T>(value: u8, make: impl FnOnce(Digest) -> T) -> T {
    make(digest(value))
}

fn state_in_mining() -> (CampaignState, RoundId) {
    let state = apply_campaign(None, &started()).unwrap();
    let round = id(10, RoundId::from_digest);
    let state = state.apply(&CampaignEvent::RoundStarted { round }).unwrap();
    (state, round)
}

fn state_in_scoring() -> (CampaignState, RoundId, CandidateId) {
    let (state, round) = state_in_mining();
    let state = state
        .apply(&CampaignEvent::MiningCompleted {
            round,
            result: id(11, MiningResultId::from_digest),
        })
        .unwrap();
    let candidate = id(12, CandidateId::from_digest);
    let state = state
        .apply(&CampaignEvent::CandidateProposed {
            round,
            candidate,
            parent: CandidateParent::BaseRevision(state.base_revision()),
            proposal: id(13, ProposalId::from_digest),
        })
        .unwrap()
        .apply(&CampaignEvent::ProposalsCompleted { round })
        .unwrap()
        .apply(&CampaignEvent::CandidateTrialRecorded {
            round,
            candidate,
            trial: id(14, TrialResultId::from_digest),
        })
        .unwrap()
        .apply(&CampaignEvent::TrialsCompleted { round })
        .unwrap()
        .apply(&CampaignEvent::CandidateScoreRecorded {
            round,
            candidate,
            score: id(15, ScoreResultId::from_digest),
        })
        .unwrap();
    (state, round, candidate)
}

#[test]
fn transition_table_reaches_verified_activation_and_monitoring_terminal() {
    let (state, round, candidate) = state_in_scoring();
    let revision = digest(20);
    let state = state
        .apply(&CampaignEvent::RoundVerdictRecorded {
            round,
            verdict: RoundVerdict::Compose {
                candidate,
                basis: id(16, RoundVerdictId::from_digest),
            },
        })
        .unwrap()
        .apply(&CampaignEvent::CompositionRecorded {
            round,
            candidate,
            composition: id(17, CompositionId::from_digest),
            revision,
        })
        .unwrap()
        .apply(&CampaignEvent::FinalVerdictRecorded {
            verdict: FinalVerdict::Verified {
                candidate,
                revision,
                report: id(18, AuditReportId::from_digest),
            },
        })
        .unwrap()
        .apply(&CampaignEvent::ApprovalRecorded {
            decision: ApprovalDecision::Approved {
                id: id(19, ApprovalId::from_digest),
                revision,
            },
        })
        .unwrap();
    assert_eq!(state.phase(), CampaignPhase::Activating);

    let activation = id(21, ActivationReceiptId::from_digest);
    let state = state
        .apply(&CampaignEvent::ActivationRecorded {
            outcome: ActivationOutcome::Activated {
                revision,
                receipt: activation,
            },
        })
        .unwrap()
        .apply(&CampaignEvent::MonitoringCompleted {
            outcome: MonitoringOutcome::Healthy {
                revision,
                report: id(22, MonitoringReportId::from_digest),
            },
        })
        .unwrap();
    assert_eq!(state.phase(), CampaignPhase::Terminal);
    assert!(matches!(
        state.terminal(),
        Some(TerminalState::MonitoringCompleted(
            MonitoringOutcome::Healthy { .. }
        ))
    ));
}

#[test]
fn transition_table_rejects_wrong_phase_and_terminal_mutation() {
    let state = apply_campaign(None, &started()).unwrap();
    let round = id(30, RoundId::from_digest);
    assert!(matches!(
        state.apply(&CampaignEvent::MiningCompleted {
            round,
            result: id(31, MiningResultId::from_digest),
        }),
        Err(CampaignTransitionError::IllegalTransition {
            phase: CampaignPhase::Ready,
            ..
        })
    ));

    let (state, round, _) = state_in_scoring();
    let state = state
        .apply(&CampaignEvent::RoundVerdictRecorded {
            round,
            verdict: RoundVerdict::NoUpdate {
                basis: id(32, RoundVerdictId::from_digest),
            },
        })
        .unwrap();
    assert!(matches!(
        state.apply(&CampaignEvent::Paused {
            reason: CampaignNote::new("too late".to_string()).unwrap(),
        }),
        Err(CampaignTransitionError::TerminalMutation { .. })
    ));
}

#[test]
fn effect_identity_binds_campaign_revision_kind_and_work() {
    let campaign = CampaignId::from_uuid(Uuid::from_u128(40));
    let other_campaign = CampaignId::from_uuid(Uuid::from_u128(41));
    let work = id(42, EffectWorkId::from_digest);
    let effect = EffectId::derive(campaign, 7, EffectKind::Mine, work);
    assert_eq!(
        effect,
        EffectId::derive(campaign, 7, EffectKind::Mine, work)
    );
    assert_ne!(
        effect,
        EffectId::derive(campaign, 8, EffectKind::Mine, work)
    );
    assert_ne!(
        effect,
        EffectId::derive(campaign, 7, EffectKind::Trial, work)
    );
    assert_ne!(
        effect,
        EffectId::derive(other_campaign, 7, EffectKind::Mine, work)
    );
    assert_ne!(
        effect,
        EffectId::derive(
            campaign,
            7,
            EffectKind::Mine,
            id(43, EffectWorkId::from_digest)
        )
    );
}

#[test]
fn uncertain_effect_requires_reconciliation_and_fences_stale_worker() {
    let (state, _) = state_in_mining();
    let intent = EffectIntent::new(
        state.id(),
        state.revision() + 1,
        EffectKind::Mine,
        id(50, EffectWorkId::from_digest),
        EffectBudget::new(ResourceUsage::new(10, 100, 1_000)).unwrap(),
    )
    .unwrap();
    let effect = intent.id();
    let state = state
        .apply(&CampaignEvent::EffectIntended { intent })
        .unwrap()
        .apply(&CampaignEvent::EffectLeased {
            effect,
            epoch: LeaseEpoch::initial(),
        })
        .unwrap();
    assert_eq!(
        state.apply(&CampaignEvent::EffectLeased {
            effect,
            epoch: LeaseEpoch::initial(),
        }),
        Err(CampaignTransitionError::ReconciliationRequired { effect })
    );

    let epoch_two = LeaseEpoch::new(2).unwrap();
    let state = state
        .apply(&CampaignEvent::EffectReconciled {
            effect,
            leased_epoch: LeaseEpoch::initial(),
            next_epoch: epoch_two,
            outcome: EffectReconciliation::RetryAuthorized {
                evidence: id(51, ReconciliationId::from_digest),
            },
        })
        .unwrap();
    let receipt = EffectReceipt {
        id: id(52, EffectReceiptId::from_digest),
        outcome: EffectOutcome::Succeeded {
            output: id(53, EffectOutputId::from_digest),
        },
        accounting: EffectAccounting::Known(ResourceUsage::new(2, 20, 200)),
    };
    assert!(matches!(
        state.apply(&CampaignEvent::EffectSettled {
            effect,
            epoch: LeaseEpoch::initial(),
            receipt,
        }),
        Err(CampaignTransitionError::StaleLeaseEpoch { .. })
    ));
    let state = state
        .apply(&CampaignEvent::EffectLeased {
            effect,
            epoch: epoch_two,
        })
        .unwrap();
    assert!(matches!(
        state.apply(&CampaignEvent::EffectSettled {
            effect,
            epoch: LeaseEpoch::initial(),
            receipt,
        }),
        Err(CampaignTransitionError::StaleLeaseEpoch { .. })
    ));

    let settled = state
        .apply(&CampaignEvent::EffectSettled {
            effect,
            epoch: epoch_two,
            receipt,
        })
        .unwrap();
    let replayed = settled
        .apply(&CampaignEvent::EffectSettled {
            effect,
            epoch: epoch_two,
            receipt,
        })
        .unwrap();
    assert_eq!(replayed, settled);
    assert_eq!(replayed.revision(), settled.revision());

    let conflicting = EffectReceipt {
        id: id(54, EffectReceiptId::from_digest),
        ..receipt
    };
    assert_eq!(
        settled.apply(&CampaignEvent::EffectSettled {
            effect,
            epoch: epoch_two,
            receipt: conflicting,
        }),
        Err(CampaignTransitionError::ConflictingTerminalReceipt { effect })
    );
}

#[test]
fn open_effect_blocks_stage_advance_and_cannot_be_newly_leased_while_paused() {
    let (state, round) = state_in_mining();
    let intent = EffectIntent::new(
        state.id(),
        state.revision() + 1,
        EffectKind::Mine,
        id(55, EffectWorkId::from_digest),
        EffectBudget::new(ResourceUsage::new(1, 1, 1)).unwrap(),
    )
    .unwrap();
    let effect = intent.id();
    let state = state
        .apply(&CampaignEvent::EffectIntended { intent })
        .unwrap();
    assert_eq!(
        state.apply(&CampaignEvent::MiningCompleted {
            round,
            result: id(56, MiningResultId::from_digest),
        }),
        Err(CampaignTransitionError::OpenEffects)
    );

    let state = state
        .apply(&CampaignEvent::Paused {
            reason: CampaignNote::new("operator investigation".to_string()).unwrap(),
        })
        .unwrap();
    assert!(matches!(
        state.apply(&CampaignEvent::EffectLeased {
            effect,
            epoch: LeaseEpoch::initial(),
        }),
        Err(CampaignTransitionError::IllegalTransition {
            phase: CampaignPhase::Paused,
            ..
        })
    ));
}

#[test]
fn fenced_unknown_receipt_charges_the_full_reservation() {
    let (state, _) = state_in_mining();
    let reservation = ResourceUsage::new(10, 100, 1_000);
    let intent = EffectIntent::new(
        state.id(),
        state.revision() + 1,
        EffectKind::Mine,
        id(60, EffectWorkId::from_digest),
        EffectBudget::new(reservation).unwrap(),
    )
    .unwrap();
    let effect = intent.id();
    let state = state
        .apply(&CampaignEvent::EffectIntended { intent })
        .unwrap()
        .apply(&CampaignEvent::EffectLeased {
            effect,
            epoch: LeaseEpoch::initial(),
        })
        .unwrap()
        .apply(&CampaignEvent::EffectReconciled {
            effect,
            leased_epoch: LeaseEpoch::initial(),
            next_epoch: LeaseEpoch::new(2).unwrap(),
            outcome: EffectReconciliation::FencedInfrastructureUnknown {
                receipt: EffectReceipt {
                    id: id(61, EffectReceiptId::from_digest),
                    outcome: EffectOutcome::InfrastructureUnknown {
                        uncertainty: id(62, EffectUncertaintyId::from_digest),
                    },
                    accounting: EffectAccounting::ReservationCharged,
                },
            },
        })
        .unwrap();
    assert_eq!(state.usage().used, reservation);
    assert_eq!(state.usage().reserved, ResourceUsage::default());
}

#[test]
fn serde_and_validation_reject_unbounded_values() {
    assert!(CampaignNote::new(" ".to_string()).is_err());
    assert!(CampaignNote::new("x".repeat(MAX_NOTE_BYTES + 1)).is_err());
    assert!(CampaignBudget::new(MAX_EFFECTS + 1, ResourceUsage::default()).is_err());

    let state = apply_campaign(None, &started()).unwrap();
    state.validate().unwrap();
}

fn mine(state: &CampaignState, work: u8, usage: ResourceUsage) -> EffectIntent {
    EffectIntent::new(
        state.id(),
        state.revision() + 1,
        EffectKind::Mine,
        id(work, EffectWorkId::from_digest),
        EffectBudget::new(usage).unwrap(),
    )
    .unwrap()
}

fn receipt(value: u8, outcome: EffectOutcome, accounting: EffectAccounting) -> EffectReceipt {
    EffectReceipt {
        id: id(value, EffectReceiptId::from_digest),
        outcome,
        accounting,
    }
}

#[test]
fn a_campaign_starts_once() {
    let state = apply_campaign(None, &started()).unwrap();
    assert_eq!(state.phase(), CampaignPhase::Ready);
    assert_eq!(state.revision(), 1);
    assert_eq!(state.rounds().len(), 0);
    assert_eq!(state.effects().len(), 0);
    assert_eq!(state.cohort(), CohortId::from_uuid(Uuid::from_u128(2)));
    assert_eq!(
        apply_campaign(Some(&state), &started()),
        Err(CampaignTransitionError::AlreadyStarted)
    );
    let round = id(10, RoundId::from_digest);
    assert_eq!(
        apply_campaign(None, &CampaignEvent::RoundStarted { round }),
        Err(CampaignTransitionError::NotStarted)
    );
}

#[test]
fn each_change_counts_one_revision() {
    let (state, round) = state_in_mining();
    assert_eq!(state.revision(), 2);
    let next = state
        .apply(&CampaignEvent::MiningCompleted {
            round,
            result: id(11, MiningResultId::from_digest),
        })
        .unwrap();
    assert_eq!(next.revision(), 3);
    assert_eq!(next.rounds()[0].mining(), Some(id(11, MiningResultId::from_digest)));
    assert_eq!(next.id(), state.id());
    assert_eq!(next.budget(), state.budget());
}

#[test]
fn resuming_undoes_pausing() {
    let (state, _) = state_in_mining();
    let paused = state
        .apply(&CampaignEvent::Paused {
            reason: CampaignNote::new("wait".to_string()).unwrap(),
        })
        .unwrap();
    assert_eq!(paused.phase(), CampaignPhase::Paused);
    assert_eq!(paused.pause().unwrap().previous_phase(), CampaignPhase::Mining);
    assert_eq!(paused.pause().unwrap().reason().as_str(), "wait");
    let resumed = paused.apply(&CampaignEvent::Resumed).unwrap();
    assert_eq!(resumed.phase(), CampaignPhase::Mining);
    assert!(resumed.pause().is_none());
    assert_eq!(resumed.rounds(), state.rounds());
}

#[test]
fn effects_stay_within_the_budget() {
    let (state, _) = state_in_mining();
    let intent = mine(&state, 70, ResourceUsage::new(101, 1, 1));
    assert_eq!(
        state.apply(&CampaignEvent::EffectIntended { intent }),
        Err(CampaignTransitionError::BudgetExceeded)
    );
    let intent = mine(&state, 70, ResourceUsage::new(100, 1_000, 10_000));
    let effect = intent.id();
    let state = state
        .apply(&CampaignEvent::EffectIntended { intent })
        .unwrap();
    assert_eq!(state.usage().reserved, ResourceUsage::new(100, 1_000, 10_000));
    let more = mine(&state, 71, ResourceUsage::new(1, 0, 0));
    assert_eq!(
        state.apply(&CampaignEvent::EffectIntended { intent: more }),
        Err(CampaignTransitionError::BudgetExceeded)
    );
    let state = state
        .apply(&CampaignEvent::EffectLeased {
            effect,
            epoch: LeaseEpoch::initial(),
        })
        .unwrap();
    let over = receipt(
        72,
        EffectOutcome::Failed {
            failure: id(73, EffectFailureId::from_digest),
        },
        EffectAccounting::Known(ResourceUsage::new(101, 0, 0)),
    );
    assert_eq!(
        state.apply(&CampaignEvent::EffectSettled {
            effect,
            epoch: LeaseEpoch::initial(),
            receipt: over,
        }),
        Err(CampaignTransitionError::ReceiptExceedsReservation)
    );
    let unknown = receipt(
        74,
        EffectOutcome::InfrastructureUnknown {
            uncertainty: id(75, EffectUncertaintyId::from_digest),
        },
        EffectAccounting::Known(ResourceUsage::new(1, 0, 0)),
    );
    assert_eq!(
        state.apply(&CampaignEvent::EffectSettled {
            effect,
            epoch: LeaseEpoch::initial(),
            receipt: unknown,
        }),
        Err(CampaignTransitionError::UnknownEffectMustChargeReservation)
    );
    let known = receipt(
        76,
        EffectOutcome::Succeeded {
            output: id(77, EffectOutputId::from_digest),
        },
        EffectAccounting::Known(ResourceUsage::new(3, 4, 5)),
    );
    let state = state
        .apply(&CampaignEvent::EffectSettled {
            effect,
            epoch: LeaseEpoch::initial(),
            receipt: known,
        })
        .unwrap();
    assert_eq!(state.usage().used, ResourceUsage::new(3, 4, 5));
    assert_eq!(state.usage().reserved, ResourceUsage::new(0, 0, 0));
    assert!(state.effects().get(effect).unwrap().lifecycle().is_terminal());
    assert!(matches!(
        state.effects().get(effect).unwrap().lifecycle(),
        EffectLifecycle::Settled { .. }
    ));
}

#[test]
fn unknown_effects_and_rounds_are_refused() {
    let (state, _) = state_in_mining();
    let intent = mine(&state, 80, ResourceUsage::new(1, 1, 1));
    assert_eq!(
        state.apply(&CampaignEvent::EffectLeased {
            effect: intent.id(),
            epoch: LeaseEpoch::initial(),
        }),
        Err(CampaignTransitionError::UnknownEffect { effect: intent.id() })
    );
    let other = id(81, RoundId::from_digest);
    assert_eq!(
        state.apply(&CampaignEvent::MiningCompleted {
            round: other,
            result: id(82, MiningResultId::from_digest),
        }),
        Err(CampaignTransitionError::WrongRound { round: other })
    );
    let effect = intent.id();
    let state = state.apply(&CampaignEvent::EffectIntended { intent }).unwrap();
    let late = receipt(
        83,
        EffectOutcome::Succeeded {
            output: id(84, EffectOutputId::from_digest),
        },
        EffectAccounting::Known(ResourceUsage::new(1, 1, 1)),
    );
    assert_eq!(
        state.apply(&CampaignEvent::EffectSettled {
            effect,
            epoch: LeaseEpoch::initial(),
            receipt: late,
        }),
        Err(CampaignTransitionError::EffectNotLeased { effect })
    );
}

#[test]
fn proposals_need_candidates_and_candidates_are_told_apart() {
    let (state, round) = state_in_mining();
    let state = state
        .apply(&CampaignEvent::MiningCompleted {
            round,
            result: id(11, MiningResultId::from_digest),
        })
        .unwrap();
    assert_eq!(
        state.apply(&CampaignEvent::ProposalsCompleted { round }),
        Err(CampaignTransitionError::EmptyRound)
    );
    let candidate = id(12, CandidateId::from_digest);
    let proposed = CampaignEvent::CandidateProposed {
        round,
        candidate,
        parent: CandidateParent::BaseRevision(state.base_revision()),
        proposal: id(13, ProposalId::from_digest),
    };
    let state = state.apply(&proposed).unwrap();
    assert_eq!(
        state.apply(&proposed),
        Err(CampaignTransitionError::DuplicateCandidate { candidate })
    );
    let stray = id(90, CandidateId::from_digest);
    assert_eq!(
        state.apply(&CampaignEvent::CandidateProposed {
            round,
            candidate: stray,
            parent: CandidateParent::BaseRevision(digest(99)),
            proposal: id(91, ProposalId::from_digest),
        }),
        Err(CampaignTransitionError::InvalidCandidateParent { candidate: stray })
    );
    let state = state.apply(&CampaignEvent::ProposalsCompleted { round }).unwrap();
    assert_eq!(
        state.apply(&CampaignEvent::TrialsCompleted { round }),
        Err(CampaignTransitionError::IncompleteCandidates)
    );
    assert_eq!(
        state.apply(&CampaignEvent::CandidateTrialRecorded {
            round,
            candidate: stray,
            trial: id(92, TrialResultId::from_digest),
        }),
        Err(CampaignTransitionError::UnknownCandidate { candidate: stray })
    );
}

#[test]
fn a_regression_is_rolled_back() {
    let (state, round, candidate) = state_in_scoring();
    let revision = digest(20);
    let state = state
        .apply(&CampaignEvent::RoundVerdictRecorded {
            round,
            verdict: RoundVerdict::Compose {
                candidate,
                basis: id(16, RoundVerdictId::from_digest),
            },
        })
        .unwrap()
        .apply(&CampaignEvent::CompositionRecorded {
            round,
            candidate,
            composition: id(17, CompositionId::from_digest),
            revision,
        })
        .unwrap();
    assert_eq!(
        state.apply(&CampaignEvent::FinalVerdictRecorded {
            verdict: FinalVerdict::Verified {
                candidate,
                revision: digest(21),
                report: id(18, AuditReportId::from_digest),
            },
        }),
        Err(CampaignTransitionError::RevisionMismatch)
    );
    let state = state
        .apply(&CampaignEvent::FinalVerdictRecorded {
            verdict: FinalVerdict::Verified {
                candidate,
                revision,
                report: id(18, AuditReportId::from_digest),
            },
        })
        .unwrap()
        .apply(&CampaignEvent::ApprovalRecorded {
            decision: ApprovalDecision::Approved {
                id: id(19, ApprovalId::from_digest),
                revision,
            },
        })
        .unwrap()
        .apply(&CampaignEvent::ActivationRecorded {
            outcome: ActivationOutcome::Activated {
                revision,
                receipt: id(21, ActivationReceiptId::from_digest),
            },
        })
        .unwrap()
        .apply(&CampaignEvent::MonitoringCompleted {
            outcome: MonitoringOutcome::RolledBack {
                from_revision: revision,
                restored_revision: digest(3),
                report: id(22, MonitoringReportId::from_digest),
                receipt: id(23, RollbackReceiptId::from_digest),
            },
        })
        .unwrap();
    assert_eq!(state.phase(), CampaignPhase::Terminal);
    state.validate().unwrap();
}

#[test]
fn notes_and_epochs_are_bounded() {
    assert_eq!(
        CampaignNote::new(String::new()).err(),
        Some(CampaignValidationError::EmptyText { field: "campaign note" })
    );
    assert_eq!(CampaignNote::new("why".to_string()).unwrap().into_string(), "why");
    assert!(CampaignNote::new("x".repeat(MAX_NOTE_BYTES)).is_ok());
    let refused: Option<CampaignValidationError> = LeaseEpoch::new(0).err();
    assert!(refused.is_some());
    assert_eq!(LeaseEpoch::initial().value(), 1);
    assert!(EffectBudget::new(ResourceUsage::new(u64::MAX, 0, 0)).is_err());
}

#[test]
fn effect_identities_are_digests_of_their_parts() {
    let campaign = CampaignId::from_uuid(Uuid::from_u128(40));
    let work = id(42, EffectWorkId::from_digest);
    let effect = EffectId::derive(campaign, 7, EffectKind::Mine, work);
    let text = format!("orvek:campaign-effect:v1:{}:7:mine:{}", campaign.to_string(), work.to_string());
    assert_eq!(effect.digest(), Digest::of(text.as_bytes()));
    assert_eq!(campaign.to_string(), "00000000-0000-0000-0000-000000000028");
    assert_eq!(CampaignId::parse("00000000-0000-0000-0000-000000000028"), Some(campaign));
    assert_eq!(CampaignId::parse("28"), None);
    assert_eq!(EffectKind::Mine.as_str(), "mine");
}

#[test]
fn only_an_approved_revision_is_activated() {
    let (state, round, candidate) = state_in_scoring();
    let revision = digest(20);
    let activation = CampaignEvent::ActivationRecorded {
        outcome: ActivationOutcome::Activated {
            revision,
            receipt: id(21, ActivationReceiptId::from_digest),
        },
    };
    let approval = CampaignEvent::ApprovalRecorded {
        decision: ApprovalDecision::Approved {
            id: id(19, ApprovalId::from_digest),
            revision,
        },
    };
    assert!(state.apply(&activation).is_err());
    let state = state
        .apply(&CampaignEvent::RoundVerdictRecorded {
            round,
            verdict: RoundVerdict::Compose {
                candidate,
                basis: id(16, RoundVerdictId::from_digest),
            },
        })
        .unwrap();
    assert!(state.apply(&approval).is_err());
    let state = state
        .apply(&CampaignEvent::CompositionRecorded {
            round,
            candidate,
            composition: id(17, CompositionId::from_digest),
            revision,
        })
        .unwrap();
    assert!(state.apply(&approval).is_err());
    assert!(state.apply(&activation).is_err());
    let state = state
        .apply(&CampaignEvent::FinalVerdictRecorded {
            verdict: FinalVerdict::Verified {
                candidate,
                revision,
                report: id(18, AuditReportId::from_digest),
            },
        })
        .unwrap();
    assert!(state.apply(&activation).is_err());
    let state = state.apply(&approval).unwrap();
    let other = CampaignEvent::ActivationRecorded {
        outcome: ActivationOutcome::Activated {
            revision: digest(24),
            receipt: id(21, ActivationReceiptId::from_digest),
        },
    };
    assert_eq!(state.apply(&other), Err(CampaignTransitionError::RevisionMismatch));
    let state = state.apply(&activation).unwrap();
    assert_eq!(state.phase(), CampaignPhase::Monitoring);
}

#[test]
fn a_round_follows_one_that_was_told_to_continue() {
    let (state, round, _) = state_in_scoring();
    let next = id(40, RoundId::from_digest);
    assert!(state.apply(&CampaignEvent::RoundStarted { round: next }).is_err());
    let state = state
        .apply(&CampaignEvent::RoundVerdictRecorded {
            round,
            verdict: RoundVerdict::Continue {
                basis: id(16, RoundVerdictId::from_digest),
            },
        })
        .unwrap()
        .apply(&CampaignEvent::RoundStarted { round: next })
        .unwrap();
    assert_eq!(state.rounds().len(), 2);
    assert!(matches!(
        state.rounds()[0].verdict(),
        Some(RoundVerdict::Continue { .. })
    ));
    assert_eq!(state.rounds()[1].verdict(), None);
}
