use harness::contract::Limits;
use harness::digest::Digest;
use harness::digest_set::DigestSet;
use harness::evolution::campaign::types::{EffectId, EffectKind, FinalVerdict, LeaseEpoch, MonitoringOutcome};
use harness::evolution::compose::{compose_candidate, compose_candidates, CompositionInput};
use harness::evolution::composition::{CompositeField, CompositionError, CompositionFailure, CompositionFailureReason};
use harness::evolution::evidence::{
    CausalStatus, EvidencePurpose, FailureMechanism, MechanismHypothesis, MiningError,
    MiningFailureEvidence, MiningObservation, MiningPassEvidence, TerminalCause,
    VerifiedFailureFact,
};
use harness::evolution::harness::{
    BehaviorLayer, HarnessRevision, ManifestError, ManifestPatch, ReminderSet, ResourceBudgets,
    SubagentRole, ToolSet,
    ValidatedHarnessRevision, VerifierSchedule, MAX_ELAPSED_MS, MAX_OUTPUT_BYTES, MAX_TOKENS,
};
use harness::evolution::ids::{
    ActivationReceiptId, AuditEpochId, AuditReportId, CampaignId, CandidateId, CaseIdentity,
    ClassifierReceiptId, CohortId, CompositionId, EffectWorkId, EnvironmentIdentity,
    EvaluatorIdentity, IndependentBlockId, InputCommitment, IsolationInstanceId, MiningBundleRoot,
    MiningEvidenceId, ModelIdentity, MonitoringReportId, PartitionCommitment, PolicyIdentity,
    ProposalProviderReceiptId, ProtocolIdentity, RoundId, ScoreResultId, TaskIdentity,
    TaskProfileIdentity, VerifierReceiptId,
};
use harness::evolution::mining::{mine_evidence, MiningLimits};
use harness::evolution::promotion::{
    resolve_rollback, validate_rollback, ActivationCertificate, ApprovalRequest,
    FinalAuditDataset, PromotionError, RollbackTarget,
};
use harness::evolution::proposal::{
    validate_proposal_batch, DiversityDimension, ProposalAttempt, ProposalError, ProposalIntent,
    ProposalRequest, ProviderManifestPatch, ProviderProposalEnvelope,
};
use harness::evolution::registry::{
    Channel, EvaluationCase, EvaluationCohortSpec, IndependentBlock, LedgerDebit, LedgerLimit,
    LedgerStatus, PartitionCommitments, TargetProfile,
};
use harness::evolution::sanitize::sanitize_untrusted_text;
use harness::evolution::statistics::evaluate::{evaluate_adaptive, reserve_ledger};
use harness::evolution::statistics::policy::{
    CandidateLabel, DecisionCoordinates, FrozenScoringPolicy, GateName, MetricKind, MetricPolicy,
    MultiplicityFamily, ScoringError, StratumName, StratumPolicy,
};
use harness::evolution::statistics::rational::{exact_sign_flip_p_value, mean_of, sum_of, Rational};
use harness::evolution::statistics::report::{
    AdaptivePromotionDataset, AdaptiveTrialEvidence, AdaptiveVerdict, GateEvidence, GateStatus,
};
use harness::evolution::trial::{
    classify_paired_trial, BehavioralFailureReason, InfrastructureUnknownReason,
    IsolatedRunReceipt, MetricName, MetricScore, Metrics, PairedTrialEvidence, TerminalTrialOutcome,
    UncheckedIsolatedRunReceipt,
    TrialContext, TrialError, TrialLedgerRole, TrialPairSpec, TrialPartition, TrialRunAssignment,
    TrialRuntimeIdentity, TrialSide, TrialTransportCapability,
};
use harness::json::Json;
use harness::canonical::push_json_string;
use harness::evolution::manifest::read_canonical;
use harness::text::is_blank;
use harness::text_map::TextMap;
use harness::uuid::Uuid;

fn d(value: u8) -> Digest {
    Digest::of(&[value])
}

fn empty_patch() -> ManifestPatch {
    ManifestPatch {
        instructions: None,
        skills: None,
        recovery_reminders: None,
        subagent_roles: None,
        verifier: None,
        budgets: None,
    }
}

fn instructions(text: &str) -> ManifestPatch {
    ManifestPatch {
        instructions: Some(text.to_string()),
        ..empty_patch()
    }
}

fn schedule(after: u32) -> ManifestPatch {
    ManifestPatch {
        verifier: Some(VerifierSchedule {
            after_tool_calls: Some(after),
            before_completion: true,
        }),
        ..empty_patch()
    }
}

#[test]
fn patches_are_bound_to_what_they_patch() {
    let baseline = ValidatedHarnessRevision::compiled_baseline().unwrap();
    assert_eq!(baseline.parent(), Digest::of(b"orvek:harness:compiled-baseline:v1"));
    let next = baseline.apply_patch(instructions("Work in small steps.")).unwrap();
    assert_eq!(next.parent(), baseline.digest());
    assert_eq!(next.behavior_instructions(), "Work in small steps.");
    assert_ne!(next.behavior_digest(), baseline.behavior_digest());
    assert_eq!(next.envelope_digest(), baseline.envelope_digest());
    assert_eq!(next.digest(), Digest::of(next.canonical_bytes()));
    assert_eq!(baseline.apply_patch(empty_patch()).err(), Some(ManifestError::EmptyPatch));
    assert!(matches!(
        baseline.apply_patch(instructions(" ")).err(),
        Some(ManifestError::EmptyText { .. })
    ));
    assert!(matches!(
        baseline.apply_patch(instructions("a\u{7}")).err(),
        Some(ManifestError::TerminalControl { .. })
    ));
}

#[test]
fn revisions_are_read_back() {
    let next = ValidatedHarnessRevision::compiled_baseline()
        .unwrap()
        .apply_patch(instructions("Work in small steps."))
        .unwrap();
    let spelled = |text: &str| HarnessRevision {
        schema_version: 1,
        parent: next.parent(),
        envelope_digest: next.envelope_digest(),
        behavior_digest: next.behavior_digest(),
        behavior: BehaviorLayer {
            instructions: text.to_string(),
            skills: TextMap::new(),
            recovery_reminders: ReminderSet {
                inspect_status_before_retry: true,
                preserve_pinned_revision: true,
                stop_after_unknown_effect: true,
            },
            subagent_roles: TextMap::new(),
            verifier: VerifierSchedule { after_tool_calls: Some(16), before_completion: true },
            budgets: ResourceBudgets {
                tool_calls: 256,
                subagents: 4,
                verifier_runs: 17,
                output_bytes: MAX_OUTPUT_BYTES,
                tokens: MAX_TOKENS,
                elapsed_ms: MAX_ELAPSED_MS,
            },
        },
    };
    let bytes = next.canonical_bytes();
    for parsed in [None, Some(spelled("Other."))] {
        let read = ValidatedHarnessRevision::from_manifest_json(bytes, parsed).unwrap();
        assert_eq!(read.digest(), next.digest());
        assert_eq!(read.canonical_bytes(), bytes);
    }
    let mut spaced = bytes.to_vec();
    spaced.push(b' ');
    let read = ValidatedHarnessRevision::from_manifest_json(
        &spaced,
        Some(spelled("Work in small steps.")),
    )
    .unwrap();
    assert_eq!(read.digest(), next.digest());
    assert_eq!(read.canonical_bytes(), bytes);
    assert_eq!(
        ValidatedHarnessRevision::from_manifest_json(&spaced, Some(spelled("Other."))).err(),
        Some(ManifestError::IdentityMismatch { identity: "behavior" })
    );
    assert_eq!(
        ValidatedHarnessRevision::from_manifest_json(&spaced, None).err(),
        Some(ManifestError::InvalidJson { kind: "manifest" })
    );
    let large = vec![b' '; 262145];
    assert_eq!(
        ValidatedHarnessRevision::from_manifest_json(&large, Some(spelled("Other."))).err(),
        Some(ManifestError::InputTooLarge { kind: "manifest", maximum: 262144 })
    );
}

#[test]
fn canonical_manifests_are_read_back_whole() {
    let mut skills: TextMap<String> = TextMap::new();
    skills.insert("read".to_string(), "Say \"yes\"\tor \\ no,\n}\u{e9}\u{1f600}".to_string());
    skills.insert("write".to_string(), "Write.".to_string());
    let mut roles: TextMap<SubagentRole> = TextMap::new();
    let tools = ToolSet { exec_command: false, read_file: true, search: false, write_file: true };
    roles.insert("helper".to_string(), SubagentRole { instructions: "Help.".to_string(), tools });
    let every = ToolSet { exec_command: true, read_file: true, search: true, write_file: true };
    roles.insert("idle".to_string(), SubagentRole { instructions: "[]".to_string(), tools: every });
    let baseline = ValidatedHarnessRevision::compiled_baseline().unwrap();
    let next = baseline
        .apply_patch(ManifestPatch {
            instructions: Some("Quote \"{}\".".to_string()),
            skills: Some(skills),
            recovery_reminders: Some(ReminderSet {
                inspect_status_before_retry: false,
                preserve_pinned_revision: true,
                stop_after_unknown_effect: true,
            }),
            subagent_roles: Some(roles),
            verifier: Some(VerifierSchedule { after_tool_calls: None, before_completion: true }),
            budgets: None,
        })
        .unwrap();
    let bytes = next.canonical_bytes();
    let read = read_canonical(bytes).unwrap();
    assert_eq!(read.parent, baseline.digest());
    assert_eq!(read.behavior.instructions, "Quote \"{}\".");
    assert_eq!(read.behavior.skills.len(), 2);
    assert_eq!(read.behavior.skills.key(0), "read");
    assert_eq!(read.behavior.skills.value(0), "Say \"yes\"\tor \\ no,\n}\u{e9}\u{1f600}");
    assert_eq!(read.behavior.subagent_roles.key(1), "idle");
    assert_eq!(read.behavior.subagent_roles.value(0).tools, tools);
    assert_eq!(read.behavior.verifier.after_tool_calls, None);
    let again = ValidatedHarnessRevision::from_manifest_json(bytes, None).unwrap();
    assert_eq!(again.digest(), Digest::of(bytes));
    assert_eq!(again.digest(), next.digest());
    assert_eq!(again.canonical_bytes(), bytes);
    let text = String::from_utf8(bytes.to_vec()).unwrap();
    for other in [
        text.replace("\"schema_version\":1", "\"schema_version\":01"),
        text.replace("\"schema_version\":1", "\"schema_version\": 1"),
        text.replace("\\t", "\\u0009"),
        text.replace("[\"read_file\",\"write_file\"]", "[\"write_file\",\"read_file\"]"),
        text.replace("\"idle\"", "\"a-idle\""),
        format!("{text}\n"),
        text[..text.len() - 1].to_string(),
        String::new(),
    ] {
        assert_ne!(other, text);
        assert!(read_canonical(other.as_bytes()).is_none());
    }
    assert!(read_canonical(&[0xff]).is_none());
}

#[test]
fn canonical_strings_are_escaped() {
    let mut json = String::new();
    push_json_string(&mut json, "a\"\\\u{8}\t\n\u{c}\r\u{1}\u{1f}\u{7f}/\u{e9}");
    assert_eq!(
        json,
        "\"a\\\"\\\\\\b\\t\\n\\f\\r\\u0001\\u001f\u{7f}/\u{e9}\""
    );
}

#[test]
fn white_space_is_told_from_other_characters() {
    for c in ['\t', '\u{b}', ' ', '\u{85}', '\u{a0}', '\u{1680}', '\u{200a}', '\u{2028}', '\u{3000}'] {
        assert!(is_blank(&c.to_string()));
    }
    for c in ['\u{8}', '\u{e}', '\u{1c}', '\u{180e}', '\u{200b}', '\u{feff}', 'a'] {
        assert!(!is_blank(&c.to_string()));
    }
}

fn behavior() -> BehaviorLayer {
    BehaviorLayer {
        instructions: "Do it.".to_string(),
        skills: TextMap::new(),
        recovery_reminders: ReminderSet::new(),
        subagent_roles: TextMap::new(),
        verifier: VerifierSchedule {
            after_tool_calls: Some(4),
            before_completion: true,
        },
        budgets: ResourceBudgets {
            tool_calls: 8,
            subagents: 1,
            verifier_runs: 3,
            output_bytes: 1,
            tokens: 1,
            elapsed_ms: 1,
        },
    }
}

#[test]
fn behaviors_fit_their_budget() {
    assert_eq!(behavior().validate(), Ok(()));
    let mut many = behavior();
    many.budgets.verifier_runs = 2;
    assert_eq!(many.validate(), Err(ManifestError::VerifierScheduleExceedsBudget));
    let mut rare = behavior();
    rare.verifier.after_tool_calls = Some(9);
    assert_eq!(rare.validate(), Err(ManifestError::VerifierIntervalExceedsBudget));
    let mut never = behavior();
    never.verifier = VerifierSchedule {
        after_tool_calls: None,
        before_completion: false,
    };
    assert_eq!(never.validate(), Err(ManifestError::EmptyVerifierSchedule));
    let mut free = behavior();
    free.budgets.tokens = 0;
    assert!(matches!(free.validate(), Err(ManifestError::InvalidBudget { .. })));
    assert!(ValidatedHarnessRevision::from_behavior_json(d(1), b"{}", Some(behavior())).is_ok());
    assert!(matches!(
        ValidatedHarnessRevision::from_behavior_json(d(1), b"{}", None).err(),
        Some(ManifestError::InvalidJson { .. })
    ));
}

fn request(parent: &ValidatedHarnessRevision) -> ProposalRequest {
    ProposalRequest::new(
        parent.digest(),
        MiningBundleRoot::from_digest(d(2)),
        parent.policy_identity(),
        ModelIdentity::from_digest(d(3)),
        ProtocolIdentity::from_digest(d(4)),
        2,
        4096,
    )
    .unwrap()
}

fn envelope(
    request: ProposalRequest,
    intent: ProposalIntent,
    dimension: DiversityDimension,
    value: &str,
) -> ProviderProposalEnvelope {
    let json = Some(Json::parse(value.as_bytes()).unwrap());
    let mut patch = ProviderManifestPatch {
        budgets: None,
        instructions: None,
        recovery_reminders: None,
        skills: None,
        subagent_roles: None,
        verifier: None,
    };
    match dimension {
        DiversityDimension::Instructions => patch.instructions = json,
        _ => patch.verifier = json,
    }
    ProviderProposalEnvelope {
        schema_version: 1,
        request: request.root(),
        intent: intent.id(),
        parent: request.parent(),
        evidence: request.evidence(),
        policy: request.policy(),
        dimensions: vec![dimension],
        patch,
    }
}

fn attempts(request: ProposalRequest, swapped: bool) -> Vec<ProposalAttempt> {
    let intents = request.intents();
    let first = ProposalAttempt::settled(
        intents[0],
        ProposalProviderReceiptId::from_digest(d(5)),
        b"{}".to_vec(),
        Some(envelope(request, intents[0], DiversityDimension::Instructions, "\"Be brief.\"")),
        Some(instructions("Be brief.")),
    );
    let second = ProposalAttempt::settled(
        intents[1],
        ProposalProviderReceiptId::from_digest(d(6)),
        b"{}".to_vec(),
        Some(envelope(
            request,
            intents[1],
            DiversityDimension::Verifier,
            "{\"after_tool_calls\":32,\"before_completion\":true}",
        )),
        Some(schedule(32)),
    );
    if swapped {
        vec![second, first]
    } else {
        vec![first, second]
    }
}

#[test]
fn batches_do_not_depend_on_arrival() {
    let parent = ValidatedHarnessRevision::compiled_baseline().unwrap();
    let request = request(&parent);
    assert_eq!(request.intents().len(), 2);
    let one = validate_proposal_batch(request, &parent, attempts(request, false)).unwrap();
    let other = validate_proposal_batch(request, &parent, attempts(request, true)).unwrap();
    assert_eq!(one.root(), other.root());
    assert_eq!(one.canonical_bytes(), other.canonical_bytes());
    assert_eq!(one.proposals().len(), 2);
    let ids: Vec<_> = one.proposals().iter().map(|proposal| proposal.id()).collect();
    assert!(ids[0].digest().to_string() < ids[1].digest().to_string());
    let mut asked: Vec<_> = request.intents().iter().map(|intent| intent.id()).collect();
    let mut answered: Vec<_> = one.proposals().iter().map(|proposal| proposal.intent()).collect();
    asked.sort();
    answered.sort();
    assert_eq!(asked, answered);
    assert_ne!(asked[0], asked[1]);
    assert_eq!(request.intents()[1].index(), 1);
    assert_eq!(request.intents()[1].request(), request.root());
    assert_ne!(
        one.proposals()[0].revision().behavior_digest(),
        one.proposals()[1].revision().behavior_digest()
    );
    for proposal in one.proposals() {
        assert_eq!(proposal.revision().parent(), parent.digest());
        assert_ne!(proposal.revision().behavior_digest(), parent.behavior_digest());
    }
    assert_eq!(
        validate_proposal_batch(request, &parent, vec![]).err(),
        Some(ProposalError::WrongAttemptCount { expected: 2, actual: 0 })
    );
    let unknown = ProposalAttempt::infrastructure_unknown(
        request.intents()[0],
        ProposalProviderReceiptId::from_digest(d(7)),
        10,
    )
    .unwrap();
    assert!(!unknown.retry_permitted());
    let mut mixed = attempts(request, false);
    mixed[0] = unknown;
    assert_eq!(
        validate_proposal_batch(request, &parent, mixed).err(),
        Some(ProposalError::ProviderUnknown {
            intent: request.intents()[0].id(),
            receipt: ProposalProviderReceiptId::from_digest(d(7)),
            charged_tokens: 10,
        })
    );
    assert_eq!(
        ProposalAttempt::infrastructure_unknown(
            request.intents()[0],
            ProposalProviderReceiptId::from_digest(d(7)),
            0
        )
        .err(),
        Some(ProposalError::EmptyUnknownCharge)
    );
    assert!(ProposalRequest::new(
        parent.digest(),
        MiningBundleRoot::from_digest(d(2)),
        parent.policy_identity(),
        ModelIdentity::from_digest(d(3)),
        ProtocolIdentity::from_digest(d(4)),
        1,
        4096,
    )
    .is_err());
}

#[test]
fn compositions_do_not_depend_on_order() {
    let parent = ValidatedHarnessRevision::compiled_baseline().unwrap();
    let request = request(&parent);
    let batch = validate_proposal_batch(request, &parent, attempts(request, false)).unwrap();
    let a = CompositionInput::new(
        CandidateId::from_digest(d(20)),
        ScoreResultId::from_digest(d(21)),
        &batch.proposals()[0],
    );
    let b = CompositionInput::new(
        CandidateId::from_digest(d(22)),
        ScoreResultId::from_digest(d(23)),
        &batch.proposals()[1],
    );
    let one = compose_candidates(&parent, vec![a, b]).unwrap();
    let other = compose_candidates(&parent, vec![b, a]).unwrap();
    assert_eq!(one.plan().id(), other.plan().id());
    assert_eq!(one.revision().digest(), other.revision().digest());
    assert_eq!(one.plan().children().len(), 2);
    assert_eq!(one.plan().validate(), Ok(()));
    assert_eq!(one.plan().parent(), parent.digest());
    assert_eq!(one.revision().parent(), parent.digest());
    assert_eq!(one.plan().revision(), one.revision().digest());
    let children = one.plan().children();
    assert!(children[0].candidate.digest().to_string() < children[1].candidate.digest().to_string());
    for input in [a, b] {
        let child = children.iter().find(|child| child.candidate == input.candidate()).unwrap();
        assert_eq!(child.proposal, input.proposal().id());
        assert_eq!(child.score, input.score());
    }
    assert_eq!(one.revision().behavior_instructions(), "Be brief.");
    assert_eq!(
        compose_candidates(&parent, vec![a]).err(),
        Some(CompositionError::TooFewCandidates)
    );
    let selected = compose_candidate(&parent, a).unwrap();
    assert_eq!(selected.candidate(), CandidateId::from_digest(d(20)));
    let failure = CompositionFailure::from_inputs(
        &parent,
        vec![b, a],
        CompositionFailureReason::FieldConflict {
            field: CompositeField::Instructions,
            first: a.candidate(),
            second: b.candidate(),
        },
    )
    .unwrap();
    assert_eq!(failure.validate(), Ok(()));
    assert_eq!(failure.parent(), parent.digest());
}

#[test]
fn rollbacks_restore_what_was_active() {
    let campaign = CampaignId::from_uuid(Uuid::from_u128(1));
    let receipt = ActivationReceiptId::from_digest(d(30));
    let report = MonitoringReportId::from_digest(d(31));
    let target = RollbackTarget::LastKnownGood { activation: receipt };
    let (outcome, _) =
        resolve_rollback(campaign, d(33), target, Some((d(32), d(33))), report, "slow").unwrap();
    assert!(matches!(
        outcome,
        MonitoringOutcome::RolledBack { restored_revision, from_revision, .. }
            if restored_revision == d(32) && from_revision == d(33)
    ));
    assert_eq!(
        resolve_rollback(campaign, d(34), target, Some((d(32), d(33))), report, "slow"),
        Err(PromotionError::ReceiptRevision(receipt.digest(), d(33), d(34)))
    );
    assert_eq!(
        validate_rollback(campaign, d(33), target, |_: ActivationReceiptId| None, report, "slow"),
        Err(PromotionError::UnknownReceipt(receipt.digest(), campaign))
    );
    let prior = RollbackTarget::PriorReceipt { receipt, restores: d(35) };
    assert_eq!(
        resolve_rollback(campaign, d(33), prior, Some((d(32), d(33))), report, "slow"),
        Err(PromotionError::ReceiptRevision(receipt.digest(), d(33), d(35)))
    );
}

#[test]
fn certificates_bind_their_campaign_and_channel() {
    let campaign = CampaignId::from_uuid(Uuid::from_u128(1));
    let dataset = |verified: bool| FinalAuditDataset {
        campaign,
        cohort: CohortId::from_uuid(Uuid::from_u128(2)),
        epoch: AuditEpochId::from_uuid(Uuid::from_u128(3)),
        verdict: if verified {
            FinalVerdict::Verified {
                candidate: CandidateId::from_digest(d(40)),
                revision: d(41),
                report: AuditReportId::from_digest(d(42)),
            }
        } else {
            FinalVerdict::NotVerified {
                candidate: CandidateId::from_digest(d(40)),
                revision: d(41),
                report: AuditReportId::from_digest(d(42)),
            }
        },
        score: ScoreResultId::from_digest(d(43)),
        composition: CompositionId::from_digest(d(44)),
        evidence: d(45),
        campaign_root: d(46),
        cohort_root: d(47),
        ledger: ledger(),
        expected_base: d(48),
        rollback_target: None,
    };
    assert_eq!(
        ActivationCertificate::issue(dataset(false)).err(),
        Some(PromotionError::UnverifiedVerdict)
    );
    let certificate = ActivationCertificate::issue(dataset(true)).unwrap();
    assert_eq!(certificate.revision(), d(41));
    let ask = |campaign: CampaignId, channel: Channel| ApprovalRequest {
        campaign,
        certificate: &certificate,
        channel,
    };
    assert!(ask(campaign, Channel::Canary).validate(d(41), d(48)).is_ok());
    assert!(matches!(
        ask(campaign, Channel::Stable).validate(d(41), d(48)),
        Err(PromotionError::UnboundedChannel(_))
    ));
    assert!(matches!(
        ask(CampaignId::from_uuid(Uuid::from_u128(9)), Channel::Canary).validate(d(41), d(48)),
        Err(PromotionError::CertificateCampaign(..))
    ));
    assert!(matches!(
        ask(campaign, Channel::Canary).validate(d(49), d(48)),
        Err(PromotionError::CertificateRevision(..))
    ));
}

#[test]
fn purposes_are_read_back() {
    for purpose in [
        EvidencePurpose::Mining,
        EvidencePurpose::AdaptivePromotion,
        EvidencePurpose::FinalAudit,
    ] {
        assert_eq!(EvidencePurpose::parse(purpose.as_str()), Ok(purpose));
    }
    assert!(EvidencePurpose::parse("other").is_err());
}

#[test]
fn untrusted_text_is_redacted() {
    let source = MiningEvidenceId::from_digest(d(50));
    let text = sanitize_untrusted_text(source, "see alpha\npassword: hunter2\nok\u{7}", &["alpha"]).unwrap();
    assert_eq!(text.source(), source);
    assert_eq!(text.as_str(), "see [REDACTED] password: [REDACTED] ok\u{fffd}");
    assert_eq!(text.redactions().protected_terms(), 1);
    assert_eq!(text.redactions().sensitive_values(), 1);
    assert_eq!(text.redactions().control_characters(), 3);
    assert!(!text.redactions().truncated());
    let kept = sanitize_untrusted_text(source, "alphabet gamma alpha", &["gamma", "alpha"]).unwrap();
    assert!(!kept.as_str().contains("gamma"));
    assert!(!kept.as_str().contains("alpha"));
    let long = sanitize_untrusted_text(source, &"x".repeat(5000), &[]).unwrap();
    assert!(long.redactions().truncated());
    assert!(long.as_str().len() <= 4096);
    assert_eq!(
        sanitize_untrusted_text(source, &"x".repeat(65537), &[]).err(),
        Some(MiningError::RawTextTooLarge { maximum: 65536 })
    );
    assert_eq!(sanitize_untrusted_text(source, "", &[]).err(), Some(MiningError::EmptyText));
}

fn failure(value: u8, cause: TerminalCause) -> MiningObservation {
    let source = MiningEvidenceId::from_digest(d(value));
    let detail = sanitize_untrusted_text(source, "failed", &[]).unwrap();
    MiningObservation::from_failure(
        MiningFailureEvidence::new(
            source,
            CaseIdentity::from_digest(d(value)),
            IndependentBlockId::from_digest(d(value)),
            VerifiedFailureFact::new(
                VerifierReceiptId::from_digest(d(value)),
                cause,
                CausalStatus::HarnessAddressable,
            ),
            Some(
                MechanismHypothesis::new(
                    ClassifierReceiptId::from_digest(d(value)),
                    FailureMechanism::ToolSelection,
                )
                .unwrap(),
            ),
            detail,
        )
        .unwrap(),
    )
}

fn pass(value: u8) -> MiningObservation {
    let source = MiningEvidenceId::from_digest(d(value));
    let summary = sanitize_untrusted_text(source, "passed", &[]).unwrap();
    MiningObservation::from_pass(
        MiningPassEvidence::new(
            source,
            CaseIdentity::from_digest(d(value)),
            IndependentBlockId::from_digest(d(value)),
            VerifierReceiptId::from_digest(d(value)),
            summary,
        )
        .unwrap(),
    )
}

#[test]
fn mining_does_not_depend_on_arrival() {
    let observed = || {
        vec![
            failure(60, TerminalCause::ToolFailure),
            failure(61, TerminalCause::ModelRefusal),
            failure(62, TerminalCause::ToolFailure),
            pass(63),
        ]
    };
    let mut backwards = observed();
    backwards.reverse();
    let one = mine_evidence(observed(), MiningLimits::default()).unwrap();
    let other = mine_evidence(backwards, MiningLimits::default()).unwrap();
    assert_eq!(one.root(), other.root());
    assert_eq!(one.canonical_bytes(), other.canonical_bytes());
    assert_eq!(one.clusters().len(), 2);
    assert_eq!(one.clusters()[0].support(), 2);
    assert_eq!(one.clusters()[0].signature().terminal_cause(), TerminalCause::ToolFailure);
    assert_eq!(one.clusters()[0].rank(), 1);
    assert_eq!(one.clusters()[1].rank(), 2);
    let mut members = Vec::new();
    for cluster in one.clusters() {
        assert_eq!(cluster.support() as usize, cluster.members().len());
        assert_eq!(cluster.representative().id(), cluster.members()[0]);
        let texts: Vec<_> = cluster.members().iter().map(|id| id.digest().to_string()).collect();
        assert!(texts.windows(2).all(|pair| pair[0] < pair[1]));
        members.extend(texts);
    }
    let mut failures: Vec<_> =
        observed()[..3].iter().map(|failure| failure.id().digest().to_string()).collect();
    members.sort();
    failures.sort();
    assert_eq!(members, failures);
    assert_eq!(one.pass_anchors().len(), 1);
    assert_eq!(
        mine_evidence(observed(), MiningLimits::new(3, 10, 10, 10).unwrap()).err(),
        Some(MiningError::TooManyObservations { actual: 4, maximum: 3 })
    );
    assert_eq!(
        mine_evidence(observed(), MiningLimits::new(10, 1, 10, 10).unwrap()).err(),
        Some(MiningError::TooManyClusters { actual: 2, maximum: 1 })
    );
    assert_eq!(
        MechanismHypothesis::new(
            ClassifierReceiptId::from_digest(d(64)),
            FailureMechanism::Unclassified
        )
        .err(),
        Some(MiningError::UnclassifiedHypothesis)
    );
}

fn partition() -> TrialPartition {
    TrialPartition::new(
        TrialLedgerRole::AdaptivePromotion,
        1,
        PartitionCommitment::from_digest(d(70)),
    )
    .unwrap()
}

fn spec(case: u8) -> TrialPairSpec {
    let context = TrialContext::new(
        CampaignId::from_uuid(Uuid::from_u128(1)),
        CandidateId::from_digest(d(71)),
        partition(),
        TrialRuntimeIdentity::new(
            ModelIdentity::from_digest(d(72)),
            ProtocolIdentity::from_digest(d(73)),
            EvaluatorIdentity::from_digest(d(74)),
            EnvironmentIdentity::from_digest(d(75)),
        ),
        Limits::new("{}".to_string(), true),
    )
    .unwrap();
    TrialPairSpec::new(
        context,
        IndependentBlockId::from_digest(d(case)),
        CaseIdentity::from_digest(d(case)),
        0,
        InputCommitment::from_digest(d(76)),
    )
    .unwrap()
}

fn metrics(value: u32) -> Metrics {
    let mut map = Metrics::new();
    let quality = MetricName::new("quality".to_string()).unwrap();
    map.insert(quality, MetricScore::from_millionths(value).unwrap());
    map
}

fn run(spec: &TrialPairSpec, side: TrialSide, instance: u128, outcome: TerminalTrialOutcome) -> IsolatedRunReceipt {
    let assignment = TrialRunAssignment::new(
        spec.key(side).unwrap(),
        IsolationInstanceId::from_uuid(Uuid::from_u128(instance)),
        TrialTransportCapability::DurableStartInspectCollectFence,
    );
    let effect = EffectId::derive(
        CampaignId::from_uuid(Uuid::from_u128(1)),
        1,
        EffectKind::Trial,
        EffectWorkId::from_digest(d(77)),
    );
    IsolatedRunReceipt::collected(&assignment, effect, LeaseEpoch::initial(), outcome, d(78)).unwrap()
}

fn paired(case: u8, parent: u32, candidate: u32) -> AdaptiveTrialEvidence {
    let spec = spec(case);
    let p = run(&spec, TrialSide::Parent, 1000 + case as u128, TerminalTrialOutcome::pass(metrics(parent)));
    let c = run(&spec, TrialSide::Candidate, 2000 + case as u128, TerminalTrialOutcome::pass(metrics(candidate)));
    let evidence = classify_paired_trial(&spec, Some(&p), Some(&c)).unwrap();
    AdaptiveTrialEvidence { spec, evidence }
}

#[test]
fn receipts_are_what_their_identity_says() {
    let spec = spec(3);
    let p = run(&spec, TrialSide::Parent, 5, TerminalTrialOutcome::pass(metrics(1)));
    let c = run(&spec, TrialSide::Candidate, 6, TerminalTrialOutcome::pass(metrics(1)));
    let record = |id| UncheckedIsolatedRunReceipt {
        id,
        key: p.key().clone(),
        effect: p.effect(),
        lease_epoch: p.lease_epoch(),
        isolation_instance: p.isolation_instance(),
        isolation: p.isolation(),
        capability: p.capability(),
        terminal: p.terminal(),
        outcome: TerminalTrialOutcome::pass(metrics(1)),
    };
    let restored = IsolatedRunReceipt::try_from(record(p.id())).ok().unwrap();
    assert_eq!(restored.id(), p.id());
    assert_eq!(restored.validate(), Ok(()));
    assert_eq!(
        IsolatedRunReceipt::try_from(record(c.id())).err(),
        Some(TrialError::TamperedRunReceipt)
    );
    let mut other = record(p.id());
    other.outcome = TerminalTrialOutcome::pass(metrics(2));
    assert_eq!(IsolatedRunReceipt::try_from(other).err(), Some(TrialError::TamperedRunReceipt));
    let mut scores = metrics(1);
    let quality = MetricName::new("quality".to_string()).unwrap();
    assert!(scores.insert(quality, MetricScore::from_millionths(2).unwrap()));
    let cost = MetricName::new("cost".to_string()).unwrap();
    assert!(!scores.insert(cost, MetricScore::from_millionths(3).unwrap()));
    assert_eq!((scores.len(), scores.name(0), scores.name(1)), (2, "cost", "quality"));
    assert_eq!(scores.get("quality").unwrap().millionths(), 2);
}

#[test]
fn pairs_are_usable_only_when_bound_and_isolated() {
    let pair = paired(100, 1, 2);
    assert!(matches!(pair.evidence, PairedTrialEvidence::Usable(_)));
    let spec = spec(100);
    let p = run(&spec, TrialSide::Parent, 5, TerminalTrialOutcome::pass(metrics(1)));
    let c = run(&spec, TrialSide::Candidate, 5, TerminalTrialOutcome::pass(metrics(1)));
    assert!(matches!(
        classify_paired_trial(&spec, Some(&p), Some(&c)),
        Ok(PairedTrialEvidence::InfrastructureUnknown(_))
    ));
    match classify_paired_trial(&spec, Some(&p), None).unwrap() {
        PairedTrialEvidence::InfrastructureUnknown(unknown) => {
            assert_eq!(unknown.reason(), InfrastructureUnknownReason::MissingReceipt);
            assert!(!unknown.retry_permitted());
        }
        _ => panic!("usable"),
    }
    let failed = run(
        &spec,
        TrialSide::Candidate,
        6,
        TerminalTrialOutcome::behavioral_failure(BehavioralFailureReason::ProtocolTimeout),
    );
    assert!(matches!(
        classify_paired_trial(&spec, Some(&p), Some(&failed)),
        Ok(PairedTrialEvidence::Usable(_))
    ));
    assert_eq!(
        TrialPartition::new(
            TrialLedgerRole::FinalAudit,
            0,
            PartitionCommitment::from_digest(d(1))
        )
        .err(),
        Some(TrialError::InvalidPartitionEpoch)
    );
    let schedule = Digest::of(format!("orvek:trial-order:v1:{}", spec.id().digest().to_string()).as_bytes());
    let odd = schedule.to_string().as_bytes()[0] % 2 == 1;
    let order = if odd {
        [TrialSide::Candidate, TrialSide::Parent]
    } else {
        [TrialSide::Parent, TrialSide::Candidate]
    };
    assert_eq!(spec.ordered_sides(), order);
    assert_eq!(MetricName::new(" ".to_string()).err(), Some(TrialError::InvalidMetricName));
    assert_eq!(MetricScore::from_millionths(1_000_001).err(), Some(TrialError::InvalidMetricScore));
}

#[test]
fn fractions_are_exact() {
    let third = Rational::new(1, 3);
    let half = Rational::new(2, 4);
    assert_eq!((half.numerator(), half.denominator()), (1, 2));
    let sum = third.add(half).unwrap();
    assert_eq!((sum.numerator(), sum.denominator()), (5, 6));
    let difference = third.sub(half).unwrap();
    assert_eq!((difference.numerator(), difference.denominator()), (-1, 6));
    assert_eq!(half.is_at_least(third), Some(true));
    let all = sum_of(&vec![third, third, third]).unwrap();
    assert_eq!((all.numerator(), all.denominator()), (1, 1));
    let mean = mean_of(&vec![Rational::new(1, 1), Rational::new(0, 1)]).unwrap();
    assert_eq!((mean.numerator(), mean.denominator()), (1, 2));
    let p = exact_sign_flip_p_value(&vec![Rational::new(1, 1); 5]).unwrap();
    assert_eq!((p.numerator, p.denominator), (1, 32));
}

fn ledger() -> LedgerStatus {
    LedgerStatus {
        query_limit: 1,
        query_used: 0,
        error_limit_nanos: 62_500_000,
        error_used_nanos: 0,
    }
}

fn cohort() -> EvaluationCohortSpec {
    let mut blocks: Vec<IndependentBlock> = Vec::new();
    let mut cases: Vec<CaseIdentity> = Vec::new();
    for value in 100u8..105 {
        blocks.push(IndependentBlock {
            id: IndependentBlockId::from_digest(d(value)),
            cases: vec![EvaluationCase {
                id: CaseIdentity::from_digest(d(value)),
                task: TaskIdentity::from_digest(d(value)),
                repeats: 1,
            }],
        });
        cases.push(CaseIdentity::from_digest(d(value)));
    }
    EvaluationCohortSpec {
        id: CohortId::from_uuid(Uuid::from_u128(2)),
        target: TargetProfile::new(
            ModelIdentity::from_digest(d(72)),
            ProtocolIdentity::from_digest(d(73)),
            EnvironmentIdentity::from_digest(d(75)),
            TaskProfileIdentity::from_digest(d(79)),
            Channel::Canary,
        ),
        base_revision: d(80),
        evaluator: EvaluatorIdentity::from_digest(d(74)),
        policy: PolicyIdentity::from_digest(d(81)),
        partitions: PartitionCommitments {
            mining: PartitionCommitment::from_digest(d(82)),
            adaptive_promotion: PartitionCommitment::from_digest(d(70)),
            final_audit: PartitionCommitment::from_digest(d(83)),
        },
        blocks,
        adaptive_promotion: LedgerLimit::new(1, 62_500_000),
        final_audit: LedgerLimit::new(1, 62_500_000),
        audit_epoch: AuditEpochId::from_uuid(Uuid::from_u128(3)),
        scoring: FrozenScoringPolicy {
            schema_version: 1,
            estimator_version: "sign-flip-1".to_string(),
            calibration: "none".to_string(),
            critical_cases: DigestSet::new(),
            strata: vec![StratumPolicy {
                name: StratumName::new("all".to_string()).unwrap(),
                cases,
            }],
            metrics: vec![MetricPolicy {
                name: MetricName::new("quality".to_string()).unwrap(),
                kind: MetricKind::Primary,
                margin: MetricScore::from_millionths(0).unwrap(),
            }],
            minimum_complete_blocks: 5,
            maximum_exact_blocks: 10,
            required_hard_gates: vec![GateName::new("safety".to_string()).unwrap()],
            multiplicity_family: MultiplicityFamily {
                candidates: 1,
                rounds: 1,
                metrics: 1,
                strata: 1,
                composites: 1,
                fallbacks: 1,
                campaigns: 1,
                activation_attempts: 1,
            },
            adaptive_error_nanos_per_hypothesis: 62_500_000,
            final_error_nanos_per_hypothesis: 62_500_000,
        },
    }
}

fn coordinates() -> DecisionCoordinates {
    DecisionCoordinates {
        candidate: 0,
        round: 0,
        composite: 0,
        fallback: 0,
        campaign: 0,
        activation_attempt: 0,
    }
}

fn dataset(candidate: u32, gate: GateStatus) -> AdaptivePromotionDataset {
    AdaptivePromotionDataset::new(
        CohortId::from_uuid(Uuid::from_u128(2)),
        partition(),
        CandidateId::from_digest(d(71)),
        CandidateLabel::new("candidate".to_string()).unwrap(),
        (100u8..105).map(|case| paired(case, 500_000, candidate)).collect(),
        vec![GateEvidence {
            name: GateName::new("safety".to_string()).unwrap(),
            status: gate,
            reason: "decided".to_string(),
        }],
    )
    .unwrap()
}

#[test]
fn candidates_are_verified_on_complete_evidence() {
    let campaign = CampaignId::from_uuid(Uuid::from_u128(1));
    let round = RoundId::from_digest(d(90));
    let cohort = cohort();
    let better = evaluate_adaptive(
        &cohort,
        campaign,
        round,
        &dataset(900_000, GateStatus::Verified),
        ledger(),
        coordinates(),
    )
    .unwrap();
    assert_eq!(better.verdict, AdaptiveVerdict::Verified);
    assert_eq!(better.ledger.query_debit, 1);
    assert_eq!(better.ledger.after.query_used, 1);
    assert_ne!(better.production_activation, AdaptiveVerdict::Verified);
    let worse = evaluate_adaptive(
        &cohort,
        campaign,
        round,
        &dataset(100_000, GateStatus::Verified),
        ledger(),
        coordinates(),
    )
    .unwrap();
    assert_ne!(worse.verdict, AdaptiveVerdict::Verified);
    assert_ne!(worse.result_id(), better.result_id());
    let unsafe_one = evaluate_adaptive(
        &cohort,
        campaign,
        round,
        &dataset(900_000, GateStatus::NotVerified),
        ledger(),
        coordinates(),
    )
    .unwrap();
    assert_eq!(unsafe_one.verdict, AdaptiveVerdict::NotVerified);
    let spent = LedgerStatus { query_used: 1, ..ledger() };
    let refused = evaluate_adaptive(
        &cohort,
        campaign,
        round,
        &dataset(900_000, GateStatus::Verified),
        spent,
        coordinates(),
    )
    .unwrap();
    assert_eq!(refused.verdict, AdaptiveVerdict::Inconclusive);
    assert_eq!(refused.ledger.after, spent);
    let outside = DecisionCoordinates { round: 1, ..coordinates() };
    assert_eq!(
        evaluate_adaptive(
            &cohort,
            campaign,
            round,
            &dataset(900_000, GateStatus::Verified),
            ledger(),
            outside
        )
        .err(),
        Some(ScoringError::CoordinatesOutsideFamily)
    );
}

#[test]
fn allocations_exhaust_the_ledgers() {
    let good = cohort();
    assert_eq!(good.scoring.validate(&good), Ok(()));
    let mut spare = cohort();
    spare.adaptive_promotion = LedgerLimit::new(2, 62_500_000);
    assert_eq!(
        spare.scoring.validate(&spare),
        Err(ScoringError::IncompleteFamilyAllocation)
    );
    let mut gateless = cohort();
    gateless.scoring.required_hard_gates = vec![];
    assert_eq!(gateless.scoring.validate(&gateless), Err(ScoringError::InvalidRequiredGates));
    let mut old = cohort();
    old.scoring.schema_version = 2;
    assert_eq!(old.scoring.validate(&old), Err(ScoringError::UnsupportedSchema));
    let transition = reserve_ledger(&good, ledger()).unwrap();
    assert_eq!(transition.error_nanos_debit, 62_500_000);
    assert_eq!(ledger().queries_remaining(), 1);
    let debit = LedgerDebit {
        campaign: CampaignId::from_uuid(Uuid::from_u128(1)),
        use_id: d(1),
        queries: 0,
        error_nanos: 0,
    };
    assert!(debit.validate().is_err());
}

#[test]
fn identities_are_read_back_from_their_texts() {
    let digest = Digest::of(b"abc");
    let text = "ba7816bf8f01cfea414140de5dae2223b00361a396177a9cb410ff61f20015ad";
    assert_eq!(digest.to_string(), text);
    assert_eq!(Digest::parse(text), Some(digest));
    assert_eq!(PolicyIdentity::parse(text), Some(PolicyIdentity::from_digest(digest)));
    for wrong in [&text[1..], &text.to_uppercase(), &format!("{text}0"), ""] {
        assert_eq!(Digest::parse(wrong), None);
        assert_eq!(CaseIdentity::parse(wrong), None);
    }
    assert_ne!(Digest::parse(&d(1).to_string()), Digest::parse(&d(2).to_string()));
}
