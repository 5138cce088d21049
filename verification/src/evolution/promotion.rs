//! Final-audit certificates, approval on a bounded channel, and named rollbacks.
use crate::canonical::{json_string, push_digest, push_json_string, push_uuid, quoted};
use crate::digest::{digest_of_text, Digest};
use crate::evolution::campaign::types::{ApprovalDecision, FinalVerdict, MonitoringOutcome};
use crate::evolution::ids::{
    ActivationReceiptId, ApprovalId, AuditEpochId, CampaignId, CohortId, CompositionId,
    MonitoringReportId, RollbackReceiptId, ScoreResultId,
};
use crate::evolution::registry::{Channel, LedgerStatus};
use crate::evolution::statistics::report::{status_json, status_text};
use vstd::prelude::*;

verus! {

/// Everything a one-use final audit binds into a certificate.
#[derive(Clone, Copy, Debug, PartialEq, Eq, Structural)]
pub struct FinalAuditDataset {
    pub campaign: CampaignId,
    pub cohort: CohortId,
    pub epoch: AuditEpochId,
    /// The verified candidate, its revision and its audit report.
    pub verdict: FinalVerdict,
    /// The adaptive score report that verified the candidate.
    pub score: ScoreResultId,
    /// The composition that produced the revision.
    pub composition: CompositionId,
    /// The sealed evidence that the audit consumed.
    pub evidence: Digest,
    /// The campaign and cohort aggregates at audit time.
    pub campaign_root: Digest,
    pub cohort_root: Digest,
    /// The debits of the cohort ledger after the audit.
    pub ledger: LedgerStatus,
    /// The active revision that the activation expects to replace.
    pub expected_base: Digest,
    /// The revision that a rollback restores, if an activation came before.
    pub rollback_target: Option<Digest>,
}

/// The canonical JSON of a final verdict.
pub open spec fn verdict_json(v: FinalVerdict) -> Seq<char> {
    match v {
        FinalVerdict::Verified { candidate, revision, report } => "{\"kind\":\"verified\",\"data\":{\"candidate\":"@ + quoted(candidate.0.text()) + ",\"revision\":"@ + quoted(revision.text()) + ",\"report\":"@ + quoted(report.0.text()) + "}}"@,
        FinalVerdict::NotVerified { candidate, revision, report } => "{\"kind\":\"not_verified\",\"data\":{\"candidate\":"@ + quoted(candidate.0.text()) + ",\"revision\":"@ + quoted(revision.text()) + ",\"report\":"@ + quoted(report.0.text()) + "}}"@,
        FinalVerdict::Inconclusive { candidate, revision, report } => "{\"kind\":\"inconclusive\",\"data\":{\"candidate\":"@ + quoted(candidate.0.text()) + ",\"revision\":"@ + quoted(revision.text()) + ",\"report\":"@ + quoted(report.0.text()) + "}}"@,
    }
}

fn verdict_text(v: &FinalVerdict) -> (r: String)
    ensures
        r@ == verdict_json(*v),
{
    match *v {
        FinalVerdict::Verified { candidate, revision, report } => {
            let mut json = "{\"kind\":\"verified\",\"data\":{\"candidate\":".to_owned();
            push_digest(&mut json, &candidate.0);
            json.push_str(",\"revision\":");
            push_digest(&mut json, &revision);
            json.push_str(",\"report\":");
            push_digest(&mut json, &report.0);
            json.push_str("}}");
            json
        },
        FinalVerdict::NotVerified { candidate, revision, report } => {
            let mut json = "{\"kind\":\"not_verified\",\"data\":{\"candidate\":".to_owned();
            push_digest(&mut json, &candidate.0);
            json.push_str(",\"revision\":");
            push_digest(&mut json, &revision);
            json.push_str(",\"report\":");
            push_digest(&mut json, &report.0);
            json.push_str("}}");
            json
        },
        FinalVerdict::Inconclusive { candidate, revision, report } => {
            let mut json = "{\"kind\":\"inconclusive\",\"data\":{\"candidate\":".to_owned();
            push_digest(&mut json, &candidate.0);
            json.push_str(",\"revision\":");
            push_digest(&mut json, &revision);
            json.push_str(",\"report\":");
            push_digest(&mut json, &report.0);
            json.push_str("}}");
            json
        },
    }
}

/// The canonical JSON of a rollback target.
pub open spec fn target_json(v: Option<Digest>) -> Seq<char> {
    match v {
        Some(digest) => ""@ + quoted(digest.text()),
        None => "null"@,
    }
}

fn target_text(v: &Option<Digest>) -> (r: String)
    ensures
        r@ == target_json(*v),
{
    match v {
        Some(digest) => {
            let mut json = "".to_owned();
            push_digest(&mut json, digest);
            json
        },
        None => "null".to_owned(),
    }
}

/// The canonical JSON of a final-audit dataset.
pub open spec fn dataset_json(v: FinalAuditDataset) -> Seq<char> {
    "{\"campaign\":"@ + quoted(v.campaign.0.text()) + ",\"cohort\":"@ + quoted(v.cohort.0.text()) + ",\"epoch\":"@ + quoted(v.epoch.0.text()) + ",\"verdict\":"@ + verdict_json(v.verdict) + ",\"score\":"@ + quoted(v.score.0.text()) + ",\"composition\":"@ + quoted(v.composition.0.text()) + ",\"evidence\":"@ + quoted(v.evidence.text()) + ",\"campaign_root\":"@ + quoted(v.campaign_root.text()) + ",\"cohort_root\":"@ + quoted(v.cohort_root.text()) + ",\"ledger\":"@ + status_json(v.ledger) + ",\"expected_base\":"@ + quoted(v.expected_base.text()) + ",\"rollback_target\":"@ + target_json(v.rollback_target) + "}"@
}

fn dataset_text(v: &FinalAuditDataset) -> (r: String)
    ensures
        r@ == dataset_json(*v),
{
    let mut json = "{\"campaign\":".to_owned();
    push_uuid(&mut json, &v.campaign.0);
    json.push_str(",\"cohort\":");
    push_uuid(&mut json, &v.cohort.0);
    json.push_str(",\"epoch\":");
    push_uuid(&mut json, &v.epoch.0);
    json.push_str(",\"verdict\":");
    json.push_str(verdict_text(&v.verdict).as_str());
    json.push_str(",\"score\":");
    push_digest(&mut json, &v.score.0);
    json.push_str(",\"composition\":");
    push_digest(&mut json, &v.composition.0);
    json.push_str(",\"evidence\":");
    push_digest(&mut json, &v.evidence);
    json.push_str(",\"campaign_root\":");
    push_digest(&mut json, &v.campaign_root);
    json.push_str(",\"cohort_root\":");
    push_digest(&mut json, &v.cohort_root);
    json.push_str(",\"ledger\":");
    json.push_str(status_text(&v.ledger).as_str());
    json.push_str(",\"expected_base\":");
    push_digest(&mut json, &v.expected_base);
    json.push_str(",\"rollback_target\":");
    json.push_str(target_text(&v.rollback_target).as_str());
    json.push_str("}");
    json
}

/// Why a promotion or a rollback is refused.
#[derive(Debug, PartialEq, Eq)]
pub enum PromotionError {
    UnverifiedVerdict,
    NotAwaitingApproval(CampaignId),
    CertificateCampaign(Digest, CampaignId),
    CertificateRevision(Digest, Digest, Digest),
    UnboundedChannel(String),
    UnnamedRollback,
    UnknownReceipt(Digest, CampaignId),
    ReceiptRevision(Digest, Digest, Digest),
}

/// A certificate over a final-audit dataset, identified by the dataset's content. The
/// identity is what approvals and activation receipts refer to.
#[derive(Clone, Copy, Debug, PartialEq, Eq, Structural)]
pub struct ActivationCertificate {
    digest: Digest,
    dataset: FinalAuditDataset,
}

impl ActivationCertificate {
    pub closed spec fn spec_dataset(self) -> FinalAuditDataset {
        self.dataset
    }

    /// The identity of a certificate: that of the canonical JSON of its dataset.
    pub open spec fn spec_digest(self) -> Digest {
        digest_of_text(dataset_json(self.spec_dataset()))
    }

    #[verifier::type_invariant]
    spec fn well_formed(self) -> bool {
        &&& self.dataset.verdict is Verified
        &&& self.digest == digest_of_text(dataset_json(self.dataset))
    }

    /// Issues a certificate over a verified final audit.
    pub fn issue(dataset: FinalAuditDataset) -> (r: Result<Self, PromotionError>)
        ensures
            match r {
                Ok(certificate) => dataset.verdict is Verified && certificate.spec_dataset()
                    == dataset,
                Err(error) => !(dataset.verdict is Verified) && error
                    == PromotionError::UnverifiedVerdict,
            },
    {
        match dataset.verdict {
            FinalVerdict::Verified { .. } => {},
            _ => return Err(PromotionError::UnverifiedVerdict),
        }
        let digest = Digest::of_text(dataset_text(&dataset).as_str());
        Ok(ActivationCertificate { digest, dataset })
    }

    pub fn digest(&self) -> (r: Digest)
        ensures
            r == self.spec_digest(),
    {
        proof {
            use_type_invariant(self);
        }
        self.digest
    }

    pub fn dataset(&self) -> (r: &FinalAuditDataset)
        ensures
            *r == self.spec_dataset(),
            r.verdict is Verified,
    {
        proof {
            use_type_invariant(self);
        }
        &self.dataset
    }

    /// The revision that this certificate proposes to activate.
    pub fn revision(&self) -> (r: Digest)
        ensures
            r == self.spec_dataset().verdict.spec_revision(),
    {
        self.dataset.verdict.revision()
    }
}

/// A bounded approval request: campaign, certificate, channel. The channel is part of the
/// request so that an approval cannot be replayed across channels.
#[derive(Clone, Copy, Debug, PartialEq, Eq)]
pub struct ApprovalRequest<'a> {
    pub campaign: CampaignId,
    pub certificate: &'a ActivationCertificate,
    pub channel: Channel,
}

/// Whether a result is what a request for approval comes to. The revision always comes
/// from the certificate, and only the canary channel is bounded.
pub open spec fn is_approval(
    request: ApprovalRequest<'_>,
    awaiting_revision: Digest,
    approval_id: Digest,
    result: Result<ApprovalDecision, PromotionError>,
) -> bool {
    let certificate = request.certificate;
    let revision = certificate.spec_dataset().verdict.spec_revision();
    if certificate.spec_dataset().campaign != request.campaign {
        result == Err::<ApprovalDecision, PromotionError>(
            PromotionError::CertificateCampaign(certificate.spec_digest(), request.campaign),
        )
    } else if revision != awaiting_revision {
        result == Err::<ApprovalDecision, PromotionError>(
            PromotionError::CertificateRevision(
                certificate.spec_digest(),
                revision,
                awaiting_revision,
            ),
        )
    } else if !(request.channel is Canary) {
        result matches Err(PromotionError::UnboundedChannel(channel)) && channel@
            == request.channel.spec_name()
    } else {
        result == Ok::<ApprovalDecision, PromotionError>(
            ApprovalDecision::Approved { id: ApprovalId(approval_id), revision },
        )
    }
}

impl<'a> ApprovalRequest<'a> {
    /// Checks the request against its certificate and returns the decision that an
    /// approval may record.
    pub fn validate(&self, awaiting_revision: Digest, approval_id: Digest) -> (r: Result<
        ApprovalDecision,
        PromotionError,
    >)
        ensures
            is_approval(*self, awaiting_revision, approval_id, r),
    {
        let certificate = self.certificate;
        if certificate.dataset().campaign != self.campaign {
            return Err(
                PromotionError::CertificateCampaign(certificate.digest(), self.campaign),
            );
        }
        if certificate.revision() != awaiting_revision {
            return Err(
                PromotionError::CertificateRevision(
                    certificate.digest(),
                    certificate.revision(),
                    awaiting_revision,
                ),
            );
        }
        match self.channel {
            Channel::Canary => {},
            Channel::Stable => {
                return Err(PromotionError::UnboundedChannel(self.channel.as_str().to_owned()));
            },
        }
        Ok(
            ApprovalDecision::Approved {
                id: ApprovalId(approval_id),
                revision: certificate.revision(),
            },
        )
    }
}

/// What a rollback restores: a named prior activation, or what the activation of the
/// currently monitored revision replaced.
#[derive(Clone, Copy, Debug, PartialEq, Eq, Structural)]
pub enum RollbackTarget {
    PriorReceipt { receipt: ActivationReceiptId, restores: Digest },
    LastKnownGood { activation: ActivationReceiptId },
}

impl RollbackTarget {
    /// The receipt that the target names.
    pub open spec fn spec_receipt(self) -> ActivationReceiptId {
        match self {
            RollbackTarget::PriorReceipt { receipt, .. } => receipt,
            RollbackTarget::LastKnownGood { activation } => activation,
        }
    }

    pub fn receipt(self) -> (r: ActivationReceiptId)
        ensures
            r == self.spec_receipt(),
    {
        match self {
            RollbackTarget::PriorReceipt { receipt, .. } => receipt,
            RollbackTarget::LastKnownGood { activation } => activation,
        }
    }
}

/// The revision that a rollback restores, given the revisions that the named receipt
/// moved from and to.
pub open spec fn restored_revision(
    campaign: CampaignId,
    from_revision: Digest,
    target: RollbackTarget,
    found: Option<(Digest, Digest)>,
) -> Result<Digest, PromotionError> {
    match found {
        None => Err(PromotionError::UnknownReceipt(target.spec_receipt().0, campaign)),
        Some((activated_from, activated_to)) => match target {
            RollbackTarget::PriorReceipt { receipt, restores } => if activated_to != restores {
                Err(PromotionError::ReceiptRevision(receipt.0, activated_to, restores))
            } else {
                Ok(restores)
            },
            RollbackTarget::LastKnownGood { activation } => if activated_to != from_revision {
                Err(PromotionError::ReceiptRevision(activation.0, activated_to, from_revision))
            } else {
                Ok(activated_from)
            },
        },
    }
}

/// The canonical JSON of a rollback, with its keys in order.
pub open spec fn rollback_json(
    campaign: CampaignId,
    from: Digest,
    reason: Seq<char>,
    report: MonitoringReportId,
    restored: Digest,
) -> Seq<char> {
    "{\"campaign\":"@ + quoted(campaign.0.text()) + ",\"from\":"@ + quoted(from.text())
        + ",\"reason\":"@ + json_string(reason) + ",\"report\":"@ + quoted(report.0.text())
        + ",\"restored\":"@ + quoted(restored.text()) + "}"@
}

/// What a rollback comes to: the monitoring outcome and its receipt.
pub open spec fn rollback_outcome(
    campaign: CampaignId,
    from_revision: Digest,
    target: RollbackTarget,
    found: Option<(Digest, Digest)>,
    report: MonitoringReportId,
    reason: Seq<char>,
) -> Result<(MonitoringOutcome, RollbackReceiptId), PromotionError> {
    match restored_revision(campaign, from_revision, target, found) {
        Err(error) => Err(error),
        Ok(restored) => {
            let receipt = RollbackReceiptId(
                digest_of_text(rollback_json(campaign, from_revision, reason, report, restored)),
            );
            Ok(
                (
                    MonitoringOutcome::RolledBack {
                        from_revision,
                        restored_revision: restored,
                        report,
                        receipt,
                    },
                    receipt,
                ),
            )
        },
    }
}

/// Derives the outcome of a rollback from what the named receipt is found to have moved.
pub fn resolve_rollback(
    campaign: CampaignId,
    from_revision: Digest,
    target: RollbackTarget,
    found: Option<(Digest, Digest)>,
    report: MonitoringReportId,
    reason: &str,
) -> (r: Result<(MonitoringOutcome, RollbackReceiptId), PromotionError>)
    ensures
        r == rollback_outcome(campaign, from_revision, target, found, report, reason@),
{
    let (activated_from, activated_to) = match found {
        Some(revisions) => revisions,
        None => return Err(PromotionError::UnknownReceipt(target.receipt().0, campaign)),
    };
    let restored = match target {
        RollbackTarget::PriorReceipt { receipt, restores } => {
            if activated_to != restores {
                return Err(PromotionError::ReceiptRevision(receipt.0, activated_to, restores));
            }
            restores
        },
        RollbackTarget::LastKnownGood { activation } => {
            if activated_to != from_revision {
                return Err(
                    PromotionError::ReceiptRevision(activation.0, activated_to, from_revision),
                );
            }
            activated_from
        },
    };
    let mut json = "{\"campaign\":".to_owned();
    push_uuid(&mut json, &campaign.0);
    json.push_str(",\"from\":");
    push_digest(&mut json, &from_revision);
    json.push_str(",\"reason\":");
    push_json_string(&mut json, reason);
    json.push_str(",\"report\":");
    push_digest(&mut json, &report.0);
    json.push_str(",\"restored\":");
    push_digest(&mut json, &restored);
    json.push_str("}");
    let receipt = RollbackReceiptId(Digest::of_text(json.as_str()));
    Ok(
        (
            MonitoringOutcome::RolledBack {
                from_revision,
                restored_revision: restored,
                report,
                receipt,
            },
            receipt,
        ),
    )
}

/// Validates a rollback request and derives the monitoring outcome. The caller supplies
/// the lookup of a receipt, which answers with the revisions it moved from and to.
pub fn validate_rollback(
    campaign: CampaignId,
    from_revision: Digest,
    target: RollbackTarget,
    receipt_revisions: impl Fn(ActivationReceiptId) -> Option<(Digest, Digest)>,
    report: MonitoringReportId,
    reason: &str,
) -> (r: Result<(MonitoringOutcome, RollbackReceiptId), PromotionError>)
    requires
        call_requires(receipt_revisions, (target.spec_receipt(),)),
    ensures
        exists|found: Option<(Digest, Digest)>|
            call_ensures(receipt_revisions, (target.spec_receipt(),), found) && r
                == #[trigger] rollback_outcome(
                campaign,
                from_revision,
                target,
                found,
                report,
                reason@,
            ),
{
    let found = receipt_revisions(target.receipt());
    resolve_rollback(campaign, from_revision, target, found, report, reason)
}

/// A rollback only restores what the named receipt vouches for: the revision it activated,
/// or the one that was replaced by the revision now rolled back.
pub proof fn law_rollbacks_restore_what_was_active(
    campaign: CampaignId,
    from_revision: Digest,
    target: RollbackTarget,
    found: Option<(Digest, Digest)>,
    report: MonitoringReportId,
    reason: Seq<char>,
)
    requires
        rollback_outcome(campaign, from_revision, target, found, report, reason) is Ok,
    ensures
        found is Some,
        ({
            let (outcome, receipt) = rollback_outcome(
                campaign,
                from_revision,
                target,
                found,
                report,
                reason,
            )->Ok_0;
            &&& outcome matches MonitoringOutcome::RolledBack {
                from_revision: from,
                restored_revision,
                report: reported,
                receipt: recorded,
            }
            &&& from == from_revision && reported == report && recorded == receipt
            &&& target is PriorReceipt ==> restored_revision == (found->0).1
            &&& target is LastKnownGood ==> (found->0).1 == from_revision && restored_revision == (
            found->0).0
        }),
{
}

} // verus!
