//! Canonical texts tell what they identify apart: each depends on everything that it is
//! written from.
use crate::canonical::{json_string, quoted};
use crate::digest::Digest;
use crate::evolution::composition::{
    child_json, children_json, fallback_text, plan_json, selected_json, CompositionChild, PlanModel,
    COMPOSITION_SCHEMA_VERSION,
};
use crate::evolution::ids::{
    CampaignId, CandidateId, MonitoringReportId, ProposalId, ScoreResultId,
};
use crate::evolution::promotion::rollback_json;
use crate::evolution::proposal::{request_json, ProposalRequest, PROPOSAL_SCHEMA_VERSION};
use crate::evolution::readback::{lemma_digests_tell, lemma_numbers_tell};
use crate::evolution::registry::{
    case_json, commitments_json, limit_json, target_json, Channel, EvaluationCase, LedgerLimit,
    LedgerStatus, PartitionCommitments, TargetProfile,
};
use crate::evolution::statistics::policy::DecisionCoordinates;
use crate::evolution::statistics::report::{
    coordinates_json, status_json, transition_json, LedgerTransition,
};
use crate::evolution::trial::{
    context_json, key_identity_json, pair_identity_json, partition_json, runtime_json, TrialContext,
    TrialKey, TrialLedgerRole, TrialPairSpec, TrialPartition, TrialRuntimeIdentity, TrialSide,
};
use crate::readback::{
    commas, lemma_ended_pairs_tell, lemma_ends_tell, lemma_equal_lengths_tell,
    lemma_json_strings_tell, lemma_marked_lists_tell, lemma_pairs_tell, tells,
};
use crate::text::decimal;
use crate::uuid::{law_texts_tell_identifiers_apart, lemma_text_len, Uuid};
use vstd::prelude::*;

verus! {

proof fn lemma_roles_tell(a: TrialLedgerRole, b: TrialLedgerRole)
    ensures
        tells(quoted(a.spec_name()), quoted(b.spec_name())),
        quoted(a.spec_name()) == quoted(b.spec_name()) ==> a == b,
{
    reveal_strlit("\"");
    reveal_strlit("adaptive_promotion");
    reveal_strlit("final_audit");
    lemma_ends_tell(a.spec_name(), b.spec_name(), "\""@);
    lemma_equal_lengths_tell("\""@, "\""@);
    lemma_ended_pairs_tell("\""@, "\""@, a.spec_name(), b.spec_name(), "\""@);
    assert(quoted(a.spec_name()) == "\""@ + a.spec_name() + "\""@);
    assert(quoted(b.spec_name()) == "\""@ + b.spec_name() + "\""@);
}

proof fn lemma_sides_tell(a: TrialSide, b: TrialSide)
    ensures
        tells(quoted(a.spec_name()), quoted(b.spec_name())),
        quoted(a.spec_name()) == quoted(b.spec_name()) ==> a == b,
{
    reveal_strlit("\"");
    reveal_strlit("parent");
    reveal_strlit("candidate");
    lemma_ends_tell(a.spec_name(), b.spec_name(), "\""@);
    lemma_equal_lengths_tell("\""@, "\""@);
    lemma_ended_pairs_tell("\""@, "\""@, a.spec_name(), b.spec_name(), "\""@);
    assert(quoted(a.spec_name()) == "\""@ + a.spec_name() + "\""@);
    assert(quoted(b.spec_name()) == "\""@ + b.spec_name() + "\""@);
}

proof fn lemma_channels_tell(a: Channel, b: Channel)
    ensures
        tells(quoted(a.spec_name()), quoted(b.spec_name())),
        quoted(a.spec_name()) == quoted(b.spec_name()) ==> a == b,
{
    reveal_strlit("\"");
    reveal_strlit("canary");
    reveal_strlit("stable");
    assert("canary"@[0] != "stable"@[0]);
    lemma_ends_tell(a.spec_name(), b.spec_name(), "\""@);
    lemma_equal_lengths_tell("\""@, "\""@);
    lemma_ended_pairs_tell("\""@, "\""@, a.spec_name(), b.spec_name(), "\""@);
    assert(quoted(a.spec_name()) == "\""@ + a.spec_name() + "\""@);
    assert(quoted(b.spec_name()) == "\""@ + b.spec_name() + "\""@);
}

proof fn lemma_partitions_tell(a: TrialPartition, b: TrialPartition)
    ensures
        tells(partition_json(a), partition_json(b)),
        partition_json(a) == partition_json(b) ==> a.role == b.role && a.epoch == b.epoch && a.commitment.0 == b.commitment.0,
{
    reveal_strlit("{\"role\":");
    reveal_strlit(",\"epoch\":");
    reveal_strlit(",\"commitment\":");
    reveal_strlit("}");
    let p0 = "{\"role\":"@;
    let q0 = "{\"role\":"@;
    lemma_equal_lengths_tell(p0, q0);
    lemma_roles_tell(a.role, b.role);
    lemma_pairs_tell(p0, q0, quoted(a.role.spec_name()), quoted(b.role.spec_name()));
    let p1 = p0 + quoted(a.role.spec_name());
    let q1 = q0 + quoted(b.role.spec_name());
    lemma_equal_lengths_tell(",\"epoch\":"@, ",\"epoch\":"@);
    lemma_pairs_tell(p1, q1, ",\"epoch\":"@, ",\"epoch\":"@);
    let p2 = p1 + ",\"epoch\":"@;
    let q2 = q1 + ",\"epoch\":"@;
    lemma_numbers_tell(a.epoch as nat, b.epoch as nat, ",\"commitment\":"@);
    lemma_ended_pairs_tell(p2, q2, decimal(a.epoch as nat), decimal(b.epoch as nat), ",\"commitment\":"@);
    let p3 = p2 + decimal(a.epoch as nat) + ",\"commitment\":"@;
    let q3 = q2 + decimal(b.epoch as nat) + ",\"commitment\":"@;
    lemma_digests_tell(a.commitment.0, b.commitment.0);
    lemma_pairs_tell(p3, q3, quoted(a.commitment.0.text()), quoted(b.commitment.0.text()));
    let p4 = p3 + quoted(a.commitment.0.text());
    let q4 = q3 + quoted(b.commitment.0.text());
    lemma_equal_lengths_tell("}"@, "}"@);
    lemma_pairs_tell(p4, q4, "}"@, "}"@);
    let p5 = p4 + "}"@;
    let q5 = q4 + "}"@;
    assert(p5 == partition_json(a));
    assert(q5 == partition_json(b));
}

proof fn lemma_runtimes_tell(a: TrialRuntimeIdentity, b: TrialRuntimeIdentity)
    ensures
        tells(runtime_json(a), runtime_json(b)),
        runtime_json(a) == runtime_json(b) ==> a.model.0 == b.model.0 && a.protocol.0 == b.protocol.0 && a.evaluator.0 == b.evaluator.0 && a.environment.0 == b.environment.0,
{
    reveal_strlit("{\"model\":");
    reveal_strlit(",\"protocol\":");
    reveal_strlit(",\"evaluator\":");
    reveal_strlit(",\"environment\":");
    reveal_strlit("}");
    let p0 = "{\"model\":"@;
    let q0 = "{\"model\":"@;
    lemma_equal_lengths_tell(p0, q0);
    lemma_digests_tell(a.model.0, b.model.0);
    lemma_pairs_tell(p0, q0, quoted(a.model.0.text()), quoted(b.model.0.text()));
    let p1 = p0 + quoted(a.model.0.text());
    let q1 = q0 + quoted(b.model.0.text());
    lemma_equal_lengths_tell(",\"protocol\":"@, ",\"protocol\":"@);
    lemma_pairs_tell(p1, q1, ",\"protocol\":"@, ",\"protocol\":"@);
    let p2 = p1 + ",\"protocol\":"@;
    let q2 = q1 + ",\"protocol\":"@;
    lemma_digests_tell(a.protocol.0, b.protocol.0);
    lemma_pairs_tell(p2, q2, quoted(a.protocol.0.text()), quoted(b.protocol.0.text()));
    let p3 = p2 + quoted(a.protocol.0.text());
    let q3 = q2 + quoted(b.protocol.0.text());
    lemma_equal_lengths_tell(",\"evaluator\":"@, ",\"evaluator\":"@);
    lemma_pairs_tell(p3, q3, ",\"evaluator\":"@, ",\"evaluator\":"@);
    let p4 = p3 + ",\"evaluator\":"@;
    let q4 = q3 + ",\"evaluator\":"@;
    lemma_digests_tell(a.evaluator.0, b.evaluator.0);
    lemma_pairs_tell(p4, q4, quoted(a.evaluator.0.text()), quoted(b.evaluator.0.text()));
    let p5 = p4 + quoted(a.evaluator.0.text());
    let q5 = q4 + quoted(b.evaluator.0.text());
    lemma_equal_lengths_tell(",\"environment\":"@, ",\"environment\":"@);
    lemma_pairs_tell(p5, q5, ",\"environment\":"@, ",\"environment\":"@);
    let p6 = p5 + ",\"environment\":"@;
    let q6 = q5 + ",\"environment\":"@;
    lemma_digests_tell(a.environment.0, b.environment.0);
    lemma_pairs_tell(p6, q6, quoted(a.environment.0.text()), quoted(b.environment.0.text()));
    let p7 = p6 + quoted(a.environment.0.text());
    let q7 = q6 + quoted(b.environment.0.text());
    lemma_equal_lengths_tell("}"@, "}"@);
    lemma_pairs_tell(p7, q7, "}"@, "}"@);
    let p8 = p7 + "}"@;
    let q8 = q7 + "}"@;
    assert(p8 == runtime_json(a));
    assert(q8 == runtime_json(b));
}

/// Whether two contexts say the same of everything but their limits.
pub open spec fn same_but_limits(a: TrialContext, b: TrialContext) -> bool {
    a.campaign == b.campaign && a.candidate == b.candidate && a.partition == b.partition && a.runtime
        == b.runtime
}

proof fn lemma_contexts_tell(a: TrialContext, b: TrialContext)
    requires
        a.limits.canonical@ == b.limits.canonical@,
    ensures
        tells(context_json(a), context_json(b)),
        context_json(a) == context_json(b) ==> a.campaign.0 == b.campaign.0 && a.candidate.0 == b.candidate.0 && a.partition == b.partition && a.runtime == b.runtime,
{
    reveal_strlit("{\"campaign\":");
    reveal_strlit(",\"candidate\":");
    reveal_strlit(",\"partition\":");
    reveal_strlit(",\"runtime\":");
    reveal_strlit(",\"limits\":");
    reveal_strlit("}");
    let p0 = "{\"campaign\":"@;
    let q0 = "{\"campaign\":"@;
    lemma_equal_lengths_tell(p0, q0);
    lemma_uuids_tell(a.campaign.0, b.campaign.0);
    lemma_pairs_tell(p0, q0, quoted(a.campaign.0.text()), quoted(b.campaign.0.text()));
    let p1 = p0 + quoted(a.campaign.0.text());
    let q1 = q0 + quoted(b.campaign.0.text());
    lemma_equal_lengths_tell(",\"candidate\":"@, ",\"candidate\":"@);
    lemma_pairs_tell(p1, q1, ",\"candidate\":"@, ",\"candidate\":"@);
    let p2 = p1 + ",\"candidate\":"@;
    let q2 = q1 + ",\"candidate\":"@;
    lemma_digests_tell(a.candidate.0, b.candidate.0);
    lemma_pairs_tell(p2, q2, quoted(a.candidate.0.text()), quoted(b.candidate.0.text()));
    let p3 = p2 + quoted(a.candidate.0.text());
    let q3 = q2 + quoted(b.candidate.0.text());
    lemma_equal_lengths_tell(",\"partition\":"@, ",\"partition\":"@);
    lemma_pairs_tell(p3, q3, ",\"partition\":"@, ",\"partition\":"@);
    let p4 = p3 + ",\"partition\":"@;
    let q4 = q3 + ",\"partition\":"@;
    lemma_partitions_tell(a.partition, b.partition);
    lemma_pairs_tell(p4, q4, partition_json(a.partition), partition_json(b.partition));
    let p5 = p4 + partition_json(a.partition);
    let q5 = q4 + partition_json(b.partition);
    lemma_equal_lengths_tell(",\"runtime\":"@, ",\"runtime\":"@);
    lemma_pairs_tell(p5, q5, ",\"runtime\":"@, ",\"runtime\":"@);
    let p6 = p5 + ",\"runtime\":"@;
    let q6 = q5 + ",\"runtime\":"@;
    lemma_runtimes_tell(a.runtime, b.runtime);
    lemma_pairs_tell(p6, q6, runtime_json(a.runtime), runtime_json(b.runtime));
    let p7 = p6 + runtime_json(a.runtime);
    let q7 = q6 + runtime_json(b.runtime);
    lemma_equal_lengths_tell(",\"limits\":"@, ",\"limits\":"@);
    lemma_pairs_tell(p7, q7, ",\"limits\":"@, ",\"limits\":"@);
    let p8 = p7 + ",\"limits\":"@;
    let q8 = q7 + ",\"limits\":"@;
    lemma_equal_lengths_tell(a.limits.canonical@, b.limits.canonical@);
    lemma_pairs_tell(p8, q8, a.limits.canonical@, b.limits.canonical@);
    let p9 = p8 + a.limits.canonical@;
    let q9 = q8 + b.limits.canonical@;
    lemma_equal_lengths_tell("}"@, "}"@);
    lemma_pairs_tell(p9, q9, "}"@, "}"@);
    let p10 = p9 + "}"@;
    let q10 = q9 + "}"@;
    assert(p10 == context_json(a));
    assert(q10 == context_json(b));
}

/// Pairs under the same limits are identified alike only where they agree in all that they are
/// made of: the context, the block, the case, the repeat and the input.
pub proof fn law_pair_identities_cover_the_pair(a: TrialPairSpec, b: TrialPairSpec)
    requires
        a.context.limits.canonical@ == b.context.limits.canonical@,
    ensures
        tells(pair_identity_json(a), pair_identity_json(b)),
        pair_identity_json(a) == pair_identity_json(b) ==> same_but_limits(a.context, b.context) && a.block.0 == b.block.0 && a.case.0 == b.case.0 && a.repeat == b.repeat && a.input.0 == b.input.0,
{
    reveal_strlit("[\"orvek:trial-pair:v1\",");
    reveal_strlit(",");
    reveal_strlit("]");
    let p0 = "[\"orvek:trial-pair:v1\","@;
    let q0 = "[\"orvek:trial-pair:v1\","@;
    lemma_equal_lengths_tell(p0, q0);
    lemma_contexts_tell(a.context, b.context);
    lemma_pairs_tell(p0, q0, context_json(a.context), context_json(b.context));
    let p1 = p0 + context_json(a.context);
    let q1 = q0 + context_json(b.context);
    lemma_equal_lengths_tell(","@, ","@);
    lemma_pairs_tell(p1, q1, ","@, ","@);
    let p2 = p1 + ","@;
    let q2 = q1 + ","@;
    lemma_digests_tell(a.block.0, b.block.0);
    lemma_pairs_tell(p2, q2, quoted(a.block.0.text()), quoted(b.block.0.text()));
    let p3 = p2 + quoted(a.block.0.text());
    let q3 = q2 + quoted(b.block.0.text());
    lemma_equal_lengths_tell(","@, ","@);
    lemma_pairs_tell(p3, q3, ","@, ","@);
    let p4 = p3 + ","@;
    let q4 = q3 + ","@;
    lemma_digests_tell(a.case.0, b.case.0);
    lemma_pairs_tell(p4, q4, quoted(a.case.0.text()), quoted(b.case.0.text()));
    let p5 = p4 + quoted(a.case.0.text());
    let q5 = q4 + quoted(b.case.0.text());
    lemma_equal_lengths_tell(","@, ","@);
    lemma_pairs_tell(p5, q5, ","@, ","@);
    let p6 = p5 + ","@;
    let q6 = q5 + ","@;
    lemma_numbers_tell(a.repeat as nat, b.repeat as nat, ","@);
    lemma_ended_pairs_tell(p6, q6, decimal(a.repeat as nat), decimal(b.repeat as nat), ","@);
    let p7 = p6 + decimal(a.repeat as nat) + ","@;
    let q7 = q6 + decimal(b.repeat as nat) + ","@;
    lemma_digests_tell(a.input.0, b.input.0);
    lemma_pairs_tell(p7, q7, quoted(a.input.0.text()), quoted(b.input.0.text()));
    let p8 = p7 + quoted(a.input.0.text());
    let q8 = q7 + quoted(b.input.0.text());
    lemma_equal_lengths_tell("]"@, "]"@);
    lemma_pairs_tell(p8, q8, "]"@, "]"@);
    let p9 = p8 + "]"@;
    let q9 = q8 + "]"@;
    assert(p9 == pair_identity_json(a));
    assert(q9 == pair_identity_json(b));
}

/// Keys under the same limits are identified alike only where they agree in all that they are
/// made of, the side of the pair among it.
pub proof fn law_key_identities_cover_the_key(a: TrialKey, b: TrialKey)
    requires
        a.context.limits.canonical@ == b.context.limits.canonical@,
    ensures
        tells(key_identity_json(a), key_identity_json(b)),
        key_identity_json(a) == key_identity_json(b) ==> a.pair.0 == b.pair.0 && same_but_limits(a.context, b.context) && a.block.0 == b.block.0 && a.case.0 == b.case.0 && a.repeat == b.repeat && a.side == b.side && a.input.0 == b.input.0,
{
    reveal_strlit("[\"orvek:trial-key:v1\",");
    reveal_strlit(",");
    reveal_strlit("]");
    let p0 = "[\"orvek:trial-key:v1\","@;
    let q0 = "[\"orvek:trial-key:v1\","@;
    lemma_equal_lengths_tell(p0, q0);
    lemma_digests_tell(a.pair.0, b.pair.0);
    lemma_pairs_tell(p0, q0, quoted(a.pair.0.text()), quoted(b.pair.0.text()));
    let p1 = p0 + quoted(a.pair.0.text());
    let q1 = q0 + quoted(b.pair.0.text());
    lemma_equal_lengths_tell(","@, ","@);
    lemma_pairs_tell(p1, q1, ","@, ","@);
    let p2 = p1 + ","@;
    let q2 = q1 + ","@;
    lemma_contexts_tell(a.context, b.context);
    lemma_pairs_tell(p2, q2, context_json(a.context), context_json(b.context));
    let p3 = p2 + context_json(a.context);
    let q3 = q2 + context_json(b.context);
    lemma_equal_lengths_tell(","@, ","@);
    lemma_pairs_tell(p3, q3, ","@, ","@);
    let p4 = p3 + ","@;
    let q4 = q3 + ","@;
    lemma_digests_tell(a.block.0, b.block.0);
    lemma_pairs_tell(p4, q4, quoted(a.block.0.text()), quoted(b.block.0.text()));
    let p5 = p4 + quoted(a.block.0.text());
    let q5 = q4 + quoted(b.block.0.text());
    lemma_equal_lengths_tell(","@, ","@);
    lemma_pairs_tell(p5, q5, ","@, ","@);
    let p6 = p5 + ","@;
    let q6 = q5 + ","@;
    lemma_digests_tell(a.case.0, b.case.0);
    lemma_pairs_tell(p6, q6, quoted(a.case.0.text()), quoted(b.case.0.text()));
    let p7 = p6 + quoted(a.case.0.text());
    let q7 = q6 + quoted(b.case.0.text());
    lemma_equal_lengths_tell(","@, ","@);
    lemma_pairs_tell(p7, q7, ","@, ","@);
    let p8 = p7 + ","@;
    let q8 = q7 + ","@;
    lemma_numbers_tell(a.repeat as nat, b.repeat as nat, ","@);
    lemma_ended_pairs_tell(p8, q8, decimal(a.repeat as nat), decimal(b.repeat as nat), ","@);
    let p9 = p8 + decimal(a.repeat as nat) + ","@;
    let q9 = q8 + decimal(b.repeat as nat) + ","@;
    lemma_sides_tell(a.side, b.side);
    lemma_pairs_tell(p9, q9, quoted(a.side.spec_name()), quoted(b.side.spec_name()));
    let p10 = p9 + quoted(a.side.spec_name());
    let q10 = q9 + quoted(b.side.spec_name());
    lemma_equal_lengths_tell(","@, ","@);
    lemma_pairs_tell(p10, q10, ","@, ","@);
    let p11 = p10 + ","@;
    let q11 = q10 + ","@;
    lemma_digests_tell(a.input.0, b.input.0);
    lemma_pairs_tell(p11, q11, quoted(a.input.0.text()), quoted(b.input.0.text()));
    let p12 = p11 + quoted(a.input.0.text());
    let q12 = q11 + quoted(b.input.0.text());
    lemma_equal_lengths_tell("]"@, "]"@);
    lemma_pairs_tell(p12, q12, "]"@, "]"@);
    let p13 = p12 + "]"@;
    let q13 = q12 + "]"@;
    assert(p13 == key_identity_json(a));
    assert(q13 == key_identity_json(b));
}

/// Targets are written alike only where they agree in everything.
pub proof fn law_targets_are_told_apart(a: TargetProfile, b: TargetProfile)
    ensures
        tells(target_json(a), target_json(b)),
        target_json(a) == target_json(b) ==> a.model.0 == b.model.0 && a.protocol.0 == b.protocol.0 && a.environment.0 == b.environment.0 && a.task_profile.0 == b.task_profile.0 && a.channel == b.channel,
{
    reveal_strlit("{\"model\":");
    reveal_strlit(",\"protocol\":");
    reveal_strlit(",\"environment\":");
    reveal_strlit(",\"task_profile\":");
    reveal_strlit(",\"channel\":");
    reveal_strlit("}");
    let p0 = "{\"model\":"@;
    let q0 = "{\"model\":"@;
    lemma_equal_lengths_tell(p0, q0);
    lemma_digests_tell(a.model.0, b.model.0);
    lemma_pairs_tell(p0, q0, quoted(a.model.0.text()), quoted(b.model.0.text()));
    let p1 = p0 + quoted(a.model.0.text());
    let q1 = q0 + quoted(b.model.0.text());
    lemma_equal_lengths_tell(",\"protocol\":"@, ",\"protocol\":"@);
    lemma_pairs_tell(p1, q1, ",\"protocol\":"@, ",\"protocol\":"@);
    let p2 = p1 + ",\"protocol\":"@;
    let q2 = q1 + ",\"protocol\":"@;
    lemma_digests_tell(a.protocol.0, b.protocol.0);
    lemma_pairs_tell(p2, q2, quoted(a.protocol.0.text()), quoted(b.protocol.0.text()));
    let p3 = p2 + quoted(a.protocol.0.text());
    let q3 = q2 + quoted(b.protocol.0.text());
    lemma_equal_lengths_tell(",\"environment\":"@, ",\"environment\":"@);
    lemma_pairs_tell(p3, q3, ",\"environment\":"@, ",\"environment\":"@);
    let p4 = p3 + ",\"environment\":"@;
    let q4 = q3 + ",\"environment\":"@;
    lemma_digests_tell(a.environment.0, b.environment.0);
    lemma_pairs_tell(p4, q4, quoted(a.environment.0.text()), quoted(b.environment.0.text()));
    let p5 = p4 + quoted(a.environment.0.text());
    let q5 = q4 + quoted(b.environment.0.text());
    lemma_equal_lengths_tell(",\"task_profile\":"@, ",\"task_profile\":"@);
    lemma_pairs_tell(p5, q5, ",\"task_profile\":"@, ",\"task_profile\":"@);
    let p6 = p5 + ",\"task_profile\":"@;
    let q6 = q5 + ",\"task_profile\":"@;
    lemma_digests_tell(a.task_profile.0, b.task_profile.0);
    lemma_pairs_tell(p6, q6, quoted(a.task_profile.0.text()), quoted(b.task_profile.0.text()));
    let p7 = p6 + quoted(a.task_profile.0.text());
    let q7 = q6 + quoted(b.task_profile.0.text());
    lemma_equal_lengths_tell(",\"channel\":"@, ",\"channel\":"@);
    lemma_pairs_tell(p7, q7, ",\"channel\":"@, ",\"channel\":"@);
    let p8 = p7 + ",\"channel\":"@;
    let q8 = q7 + ",\"channel\":"@;
    lemma_channels_tell(a.channel, b.channel);
    lemma_pairs_tell(p8, q8, quoted(a.channel.spec_name()), quoted(b.channel.spec_name()));
    let p9 = p8 + quoted(a.channel.spec_name());
    let q9 = q8 + quoted(b.channel.spec_name());
    lemma_equal_lengths_tell("}"@, "}"@);
    lemma_pairs_tell(p9, q9, "}"@, "}"@);
    let p10 = p9 + "}"@;
    let q10 = q9 + "}"@;
    assert(p10 == target_json(a));
    assert(q10 == target_json(b));
}

/// Commitments are written alike only where they agree in every partition.
pub proof fn law_commitments_are_told_apart(a: PartitionCommitments, b: PartitionCommitments)
    ensures
        tells(commitments_json(a), commitments_json(b)),
        commitments_json(a) == commitments_json(b) ==> a.mining.0 == b.mining.0 && a.adaptive_promotion.0 == b.adaptive_promotion.0 && a.final_audit.0 == b.final_audit.0,
{
    reveal_strlit("{\"mining\":");
    reveal_strlit(",\"adaptive_promotion\":");
    reveal_strlit(",\"final_audit\":");
    reveal_strlit("}");
    let p0 = "{\"mining\":"@;
    let q0 = "{\"mining\":"@;
    lemma_equal_lengths_tell(p0, q0);
    lemma_digests_tell(a.mining.0, b.mining.0);
    lemma_pairs_tell(p0, q0, quoted(a.mining.0.text()), quoted(b.mining.0.text()));
    let p1 = p0 + quoted(a.mining.0.text());
    let q1 = q0 + quoted(b.mining.0.text());
    lemma_equal_lengths_tell(",\"adaptive_promotion\":"@, ",\"adaptive_promotion\":"@);
    lemma_pairs_tell(p1, q1, ",\"adaptive_promotion\":"@, ",\"adaptive_promotion\":"@);
    let p2 = p1 + ",\"adaptive_promotion\":"@;
    let q2 = q1 + ",\"adaptive_promotion\":"@;
    lemma_digests_tell(a.adaptive_promotion.0, b.adaptive_promotion.0);
    lemma_pairs_tell(p2, q2, quoted(a.adaptive_promotion.0.text()), quoted(b.adaptive_promotion.0.text()));
    let p3 = p2 + quoted(a.adaptive_promotion.0.text());
    let q3 = q2 + quoted(b.adaptive_promotion.0.text());
    lemma_equal_lengths_tell(",\"final_audit\":"@, ",\"final_audit\":"@);
    lemma_pairs_tell(p3, q3, ",\"final_audit\":"@, ",\"final_audit\":"@);
    let p4 = p3 + ",\"final_audit\":"@;
    let q4 = q3 + ",\"final_audit\":"@;
    lemma_digests_tell(a.final_audit.0, b.final_audit.0);
    lemma_pairs_tell(p4, q4, quoted(a.final_audit.0.text()), quoted(b.final_audit.0.text()));
    let p5 = p4 + quoted(a.final_audit.0.text());
    let q5 = q4 + quoted(b.final_audit.0.text());
    lemma_equal_lengths_tell("}"@, "}"@);
    lemma_pairs_tell(p5, q5, "}"@, "}"@);
    let p6 = p5 + "}"@;
    let q6 = q5 + "}"@;
    assert(p6 == commitments_json(a));
    assert(q6 == commitments_json(b));
}

/// Cases are written alike only where they agree in everything.
pub proof fn law_cases_are_told_apart(a: EvaluationCase, b: EvaluationCase)
    ensures
        tells(case_json(a), case_json(b)),
        case_json(a) == case_json(b) ==> a.id.0 == b.id.0 && a.task.0 == b.task.0 && a.repeats == b.repeats,
{
    reveal_strlit("{\"id\":");
    reveal_strlit(",\"task\":");
    reveal_strlit(",\"repeats\":");
    reveal_strlit("}");
    let p0 = "{\"id\":"@;
    let q0 = "{\"id\":"@;
    lemma_equal_lengths_tell(p0, q0);
    lemma_digests_tell(a.id.0, b.id.0);
    lemma_pairs_tell(p0, q0, quoted(a.id.0.text()), quoted(b.id.0.text()));
    let p1 = p0 + quoted(a.id.0.text());
    let q1 = q0 + quoted(b.id.0.text());
    lemma_equal_lengths_tell(",\"task\":"@, ",\"task\":"@);
    lemma_pairs_tell(p1, q1, ",\"task\":"@, ",\"task\":"@);
    let p2 = p1 + ",\"task\":"@;
    let q2 = q1 + ",\"task\":"@;
    lemma_digests_tell(a.task.0, b.task.0);
    lemma_pairs_tell(p2, q2, quoted(a.task.0.text()), quoted(b.task.0.text()));
    let p3 = p2 + quoted(a.task.0.text());
    let q3 = q2 + quoted(b.task.0.text());
    lemma_equal_lengths_tell(",\"repeats\":"@, ",\"repeats\":"@);
    lemma_pairs_tell(p3, q3, ",\"repeats\":"@, ",\"repeats\":"@);
    let p4 = p3 + ",\"repeats\":"@;
    let q4 = q3 + ",\"repeats\":"@;
    lemma_numbers_tell(a.repeats as nat, b.repeats as nat, "}"@);
    lemma_ended_pairs_tell(p4, q4, decimal(a.repeats as nat), decimal(b.repeats as nat), "}"@);
    let p5 = p4 + decimal(a.repeats as nat) + "}"@;
    let q5 = q4 + decimal(b.repeats as nat) + "}"@;
    assert(p5 == case_json(a));
    assert(q5 == case_json(b));
}

/// Limits are written alike only where they agree in both bounds.
pub proof fn law_limits_are_told_apart(a: LedgerLimit, b: LedgerLimit)
    ensures
        tells(limit_json(a), limit_json(b)),
        limit_json(a) == limit_json(b) ==> a.queries == b.queries && a.error_nanos == b.error_nanos,
{
    reveal_strlit("{\"queries\":");
    reveal_strlit(",\"error_nanos\":");
    reveal_strlit("}");
    let p0 = "{\"queries\":"@;
    let q0 = "{\"queries\":"@;
    lemma_equal_lengths_tell(p0, q0);
    lemma_numbers_tell(a.queries as nat, b.queries as nat, ",\"error_nanos\":"@);
    lemma_ended_pairs_tell(p0, q0, decimal(a.queries as nat), decimal(b.queries as nat), ",\"error_nanos\":"@);
    let p1 = p0 + decimal(a.queries as nat) + ",\"error_nanos\":"@;
    let q1 = q0 + decimal(b.queries as nat) + ",\"error_nanos\":"@;
    lemma_numbers_tell(a.error_nanos as nat, b.error_nanos as nat, "}"@);
    lemma_ended_pairs_tell(p1, q1, decimal(a.error_nanos as nat), decimal(b.error_nanos as nat), "}"@);
    let p2 = p1 + decimal(a.error_nanos as nat) + "}"@;
    let q2 = q1 + decimal(b.error_nanos as nat) + "}"@;
    assert(p2 == limit_json(a));
    assert(q2 == limit_json(b));
}

/// Coordinates are written alike only where they agree in every count.
pub proof fn law_coordinates_are_told_apart(a: DecisionCoordinates, b: DecisionCoordinates)
    ensures
        tells(coordinates_json(a), coordinates_json(b)),
        coordinates_json(a) == coordinates_json(b) ==> a.candidate == b.candidate && a.round == b.round && a.composite == b.composite && a.fallback == b.fallback && a.campaign == b.campaign && a.activation_attempt == b.activation_attempt,
{
    reveal_strlit("{\"candidate\":");
    reveal_strlit(",\"round\":");
    reveal_strlit(",\"composite\":");
    reveal_strlit(",\"fallback\":");
    reveal_strlit(",\"campaign\":");
    reveal_strlit(",\"activation_attempt\":");
    reveal_strlit("}");
    let p0 = "{\"candidate\":"@;
    let q0 = "{\"candidate\":"@;
    lemma_equal_lengths_tell(p0, q0);
    lemma_numbers_tell(a.candidate as nat, b.candidate as nat, ",\"round\":"@);
    lemma_ended_pairs_tell(p0, q0, decimal(a.candidate as nat), decimal(b.candidate as nat), ",\"round\":"@);
    let p1 = p0 + decimal(a.candidate as nat) + ",\"round\":"@;
    let q1 = q0 + decimal(b.candidate as nat) + ",\"round\":"@;
    lemma_numbers_tell(a.round as nat, b.round as nat, ",\"composite\":"@);
    lemma_ended_pairs_tell(p1, q1, decimal(a.round as nat), decimal(b.round as nat), ",\"composite\":"@);
    let p2 = p1 + decimal(a.round as nat) + ",\"composite\":"@;
    let q2 = q1 + decimal(b.round as nat) + ",\"composite\":"@;
    lemma_numbers_tell(a.composite as nat, b.composite as nat, ",\"fallback\":"@);
    lemma_ended_pairs_tell(p2, q2, decimal(a.composite as nat), decimal(b.composite as nat), ",\"fallback\":"@);
    let p3 = p2 + decimal(a.composite as nat) + ",\"fallback\":"@;
    let q3 = q2 + decimal(b.composite as nat) + ",\"fallback\":"@;
    lemma_numbers_tell(a.fallback as nat, b.fallback as nat, ",\"campaign\":"@);
    lemma_ended_pairs_tell(p3, q3, decimal(a.fallback as nat), decimal(b.fallback as nat), ",\"campaign\":"@);
    let p4 = p3 + decimal(a.fallback as nat) + ",\"campaign\":"@;
    let q4 = q3 + decimal(b.fallback as nat) + ",\"campaign\":"@;
    lemma_numbers_tell(a.campaign as nat, b.campaign as nat, ",\"activation_attempt\":"@);
    lemma_ended_pairs_tell(p4, q4, decimal(a.campaign as nat), decimal(b.campaign as nat), ",\"activation_attempt\":"@);
    let p5 = p4 + decimal(a.campaign as nat) + ",\"activation_attempt\":"@;
    let q5 = q4 + decimal(b.campaign as nat) + ",\"activation_attempt\":"@;
    lemma_numbers_tell(a.activation_attempt as nat, b.activation_attempt as nat, "}"@);
    lemma_ended_pairs_tell(p5, q5, decimal(a.activation_attempt as nat), decimal(b.activation_attempt as nat), "}"@);
    let p6 = p5 + decimal(a.activation_attempt as nat) + "}"@;
    let q6 = q5 + decimal(b.activation_attempt as nat) + "}"@;
    assert(p6 == coordinates_json(a));
    assert(q6 == coordinates_json(b));
}

proof fn lemma_statuses_tell(a: LedgerStatus, b: LedgerStatus)
    ensures
        tells(status_json(a), status_json(b)),
        status_json(a) == status_json(b) ==> a.query_limit == b.query_limit && a.query_used == b.query_used && a.error_limit_nanos == b.error_limit_nanos && a.error_used_nanos == b.error_used_nanos,
{
    reveal_strlit("{\"query_limit\":");
    reveal_strlit(",\"query_used\":");
    reveal_strlit(",\"error_limit_nanos\":");
    reveal_strlit(",\"error_used_nanos\":");
    reveal_strlit("}");
    let p0 = "{\"query_limit\":"@;
    let q0 = "{\"query_limit\":"@;
    lemma_equal_lengths_tell(p0, q0);
    lemma_numbers_tell(a.query_limit as nat, b.query_limit as nat, ",\"query_used\":"@);
    lemma_ended_pairs_tell(p0, q0, decimal(a.query_limit as nat), decimal(b.query_limit as nat), ",\"query_used\":"@);
    let p1 = p0 + decimal(a.query_limit as nat) + ",\"query_used\":"@;
    let q1 = q0 + decimal(b.query_limit as nat) + ",\"query_used\":"@;
    lemma_numbers_tell(a.query_used as nat, b.query_used as nat, ",\"error_limit_nanos\":"@);
    lemma_ended_pairs_tell(p1, q1, decimal(a.query_used as nat), decimal(b.query_used as nat), ",\"error_limit_nanos\":"@);
    let p2 = p1 + decimal(a.query_used as nat) + ",\"error_limit_nanos\":"@;
    let q2 = q1 + decimal(b.query_used as nat) + ",\"error_limit_nanos\":"@;
    lemma_numbers_tell(a.error_limit_nanos as nat, b.error_limit_nanos as nat, ",\"error_used_nanos\":"@);
    lemma_ended_pairs_tell(p2, q2, decimal(a.error_limit_nanos as nat), decimal(b.error_limit_nanos as nat), ",\"error_used_nanos\":"@);
    let p3 = p2 + decimal(a.error_limit_nanos as nat) + ",\"error_used_nanos\":"@;
    let q3 = q2 + decimal(b.error_limit_nanos as nat) + ",\"error_used_nanos\":"@;
    lemma_numbers_tell(a.error_used_nanos as nat, b.error_used_nanos as nat, "}"@);
    lemma_ended_pairs_tell(p3, q3, decimal(a.error_used_nanos as nat), decimal(b.error_used_nanos as nat), "}"@);
    let p4 = p3 + decimal(a.error_used_nanos as nat) + "}"@;
    let q4 = q3 + decimal(b.error_used_nanos as nat) + "}"@;
    assert(p4 == status_json(a));
    assert(q4 == status_json(b));
}

/// Transitions of a ledger are written alike only where they agree before, after and in what
/// they take.
pub proof fn law_transitions_are_told_apart(a: LedgerTransition, b: LedgerTransition)
    ensures
        tells(transition_json(a), transition_json(b)),
        transition_json(a) == transition_json(b) ==> a.before == b.before && a.query_debit == b.query_debit && a.error_nanos_debit == b.error_nanos_debit && a.after == b.after,
{
    reveal_strlit("{\"before\":");
    reveal_strlit(",\"query_debit\":");
    reveal_strlit(",\"error_nanos_debit\":");
    reveal_strlit(",\"after\":");
    reveal_strlit("}");
    let p0 = "{\"before\":"@;
    let q0 = "{\"before\":"@;
    lemma_equal_lengths_tell(p0, q0);
    lemma_statuses_tell(a.before, b.before);
    lemma_pairs_tell(p0, q0, status_json(a.before), status_json(b.before));
    let p1 = p0 + status_json(a.before);
    let q1 = q0 + status_json(b.before);
    lemma_equal_lengths_tell(",\"query_debit\":"@, ",\"query_debit\":"@);
    lemma_pairs_tell(p1, q1, ",\"query_debit\":"@, ",\"query_debit\":"@);
    let p2 = p1 + ",\"query_debit\":"@;
    let q2 = q1 + ",\"query_debit\":"@;
    lemma_numbers_tell(a.query_debit as nat, b.query_debit as nat, ",\"error_nanos_debit\":"@);
    lemma_ended_pairs_tell(p2, q2, decimal(a.query_debit as nat), decimal(b.query_debit as nat), ",\"error_nanos_debit\":"@);
    let p3 = p2 + decimal(a.query_debit as nat) + ",\"error_nanos_debit\":"@;
    let q3 = q2 + decimal(b.query_debit as nat) + ",\"error_nanos_debit\":"@;
    lemma_numbers_tell(a.error_nanos_debit as nat, b.error_nanos_debit as nat, ",\"after\":"@);
    lemma_ended_pairs_tell(p3, q3, decimal(a.error_nanos_debit as nat), decimal(b.error_nanos_debit as nat), ",\"after\":"@);
    let p4 = p3 + decimal(a.error_nanos_debit as nat) + ",\"after\":"@;
    let q4 = q3 + decimal(b.error_nanos_debit as nat) + ",\"after\":"@;
    lemma_statuses_tell(a.after, b.after);
    lemma_pairs_tell(p4, q4, status_json(a.after), status_json(b.after));
    let p5 = p4 + status_json(a.after);
    let q5 = q4 + status_json(b.after);
    lemma_equal_lengths_tell("}"@, "}"@);
    lemma_pairs_tell(p5, q5, "}"@, "}"@);
    let p6 = p5 + "}"@;
    let q6 = q5 + "}"@;
    assert(p6 == transition_json(a));
    assert(q6 == transition_json(b));
}

/// Requests for proposals are identified alike only where they ask for the same.
pub proof fn law_requests_are_told_apart(a: ProposalRequest, b: ProposalRequest)
    ensures
        tells(request_json(a), request_json(b)),
        request_json(a) == request_json(b) ==> a.parent == b.parent && a.evidence.0 == b.evidence.0 && a.policy.0 == b.policy.0 && a.model.0 == b.model.0 && a.protocol.0 == b.protocol.0 && a.candidate_count == b.candidate_count && a.max_patch_bytes == b.max_patch_bytes,
{
    reveal_strlit("{\"schema_version\":");
    reveal_strlit(",\"parent\":");
    reveal_strlit(",\"evidence\":");
    reveal_strlit(",\"policy\":");
    reveal_strlit(",\"model\":");
    reveal_strlit(",\"protocol\":");
    reveal_strlit(",\"candidate_count\":");
    reveal_strlit(",\"max_patch_bytes\":");
    reveal_strlit("}");
    let p0 = "{\"schema_version\":"@;
    let q0 = "{\"schema_version\":"@;
    lemma_equal_lengths_tell(p0, q0);
    lemma_numbers_tell(PROPOSAL_SCHEMA_VERSION as nat, PROPOSAL_SCHEMA_VERSION as nat, ",\"parent\":"@);
    lemma_ended_pairs_tell(p0, q0, decimal(PROPOSAL_SCHEMA_VERSION as nat), decimal(PROPOSAL_SCHEMA_VERSION as nat), ",\"parent\":"@);
    let p1 = p0 + decimal(PROPOSAL_SCHEMA_VERSION as nat) + ",\"parent\":"@;
    let q1 = q0 + decimal(PROPOSAL_SCHEMA_VERSION as nat) + ",\"parent\":"@;
    lemma_digests_tell(a.parent, b.parent);
    lemma_pairs_tell(p1, q1, quoted(a.parent.text()), quoted(b.parent.text()));
    let p2 = p1 + quoted(a.parent.text());
    let q2 = q1 + quoted(b.parent.text());
    lemma_equal_lengths_tell(",\"evidence\":"@, ",\"evidence\":"@);
    lemma_pairs_tell(p2, q2, ",\"evidence\":"@, ",\"evidence\":"@);
    let p3 = p2 + ",\"evidence\":"@;
    let q3 = q2 + ",\"evidence\":"@;
    lemma_digests_tell(a.evidence.0, b.evidence.0);
    lemma_pairs_tell(p3, q3, quoted(a.evidence.0.text()), quoted(b.evidence.0.text()));
    let p4 = p3 + quoted(a.evidence.0.text());
    let q4 = q3 + quoted(b.evidence.0.text());
    lemma_equal_lengths_tell(",\"policy\":"@, ",\"policy\":"@);
    lemma_pairs_tell(p4, q4, ",\"policy\":"@, ",\"policy\":"@);
    let p5 = p4 + ",\"policy\":"@;
    let q5 = q4 + ",\"policy\":"@;
    lemma_digests_tell(a.policy.0, b.policy.0);
    lemma_pairs_tell(p5, q5, quoted(a.policy.0.text()), quoted(b.policy.0.text()));
    let p6 = p5 + quoted(a.policy.0.text());
    let q6 = q5 + quoted(b.policy.0.text());
    lemma_equal_lengths_tell(",\"model\":"@, ",\"model\":"@);
    lemma_pairs_tell(p6, q6, ",\"model\":"@, ",\"model\":"@);
    let p7 = p6 + ",\"model\":"@;
    let q7 = q6 + ",\"model\":"@;
    lemma_digests_tell(a.model.0, b.model.0);
    lemma_pairs_tell(p7, q7, quoted(a.model.0.text()), quoted(b.model.0.text()));
    let p8 = p7 + quoted(a.model.0.text());
    let q8 = q7 + quoted(b.model.0.text());
    lemma_equal_lengths_tell(",\"protocol\":"@, ",\"protocol\":"@);
    lemma_pairs_tell(p8, q8, ",\"protocol\":"@, ",\"protocol\":"@);
    let p9 = p8 + ",\"protocol\":"@;
    let q9 = q8 + ",\"protocol\":"@;
    lemma_digests_tell(a.protocol.0, b.protocol.0);
    lemma_pairs_tell(p9, q9, quoted(a.protocol.0.text()), quoted(b.protocol.0.text()));
    let p10 = p9 + quoted(a.protocol.0.text());
    let q10 = q9 + quoted(b.protocol.0.text());
    lemma_equal_lengths_tell(",\"candidate_count\":"@, ",\"candidate_count\":"@);
    lemma_pairs_tell(p10, q10, ",\"candidate_count\":"@, ",\"candidate_count\":"@);
    let p11 = p10 + ",\"candidate_count\":"@;
    let q11 = q10 + ",\"candidate_count\":"@;
    lemma_numbers_tell(a.candidate_count as nat, b.candidate_count as nat, ",\"max_patch_bytes\":"@);
    lemma_ended_pairs_tell(p11, q11, decimal(a.candidate_count as nat), decimal(b.candidate_count as nat), ",\"max_patch_bytes\":"@);
    let p12 = p11 + decimal(a.candidate_count as nat) + ",\"max_patch_bytes\":"@;
    let q12 = q11 + decimal(b.candidate_count as nat) + ",\"max_patch_bytes\":"@;
    lemma_numbers_tell(a.max_patch_bytes as nat, b.max_patch_bytes as nat, "}"@);
    lemma_ended_pairs_tell(p12, q12, decimal(a.max_patch_bytes as nat), decimal(b.max_patch_bytes as nat), "}"@);
    let p13 = p12 + decimal(a.max_patch_bytes as nat) + "}"@;
    let q13 = q12 + decimal(b.max_patch_bytes as nat) + "}"@;
    assert(p13 == request_json(a));
    assert(q13 == request_json(b));
}

proof fn lemma_children_tell(a: CompositionChild, b: CompositionChild)
    ensures
        tells(child_json(a), child_json(b)),
        child_json(a) == child_json(b) ==> a.candidate.0 == b.candidate.0 && a.proposal.0 == b.proposal.0 && a.score.0 == b.score.0 && a.patch == b.patch && a.revision == b.revision,
{
    reveal_strlit("{\"candidate\":");
    reveal_strlit(",\"proposal\":");
    reveal_strlit(",\"score\":");
    reveal_strlit(",\"patch\":");
    reveal_strlit(",\"revision\":");
    reveal_strlit("}");
    let p0 = "{\"candidate\":"@;
    let q0 = "{\"candidate\":"@;
    lemma_equal_lengths_tell(p0, q0);
    lemma_digests_tell(a.candidate.0, b.candidate.0);
    lemma_pairs_tell(p0, q0, quoted(a.candidate.0.text()), quoted(b.candidate.0.text()));
    let p1 = p0 + quoted(a.candidate.0.text());
    let q1 = q0 + quoted(b.candidate.0.text());
    lemma_equal_lengths_tell(",\"proposal\":"@, ",\"proposal\":"@);
    lemma_pairs_tell(p1, q1, ",\"proposal\":"@, ",\"proposal\":"@);
    let p2 = p1 + ",\"proposal\":"@;
    let q2 = q1 + ",\"proposal\":"@;
    lemma_digests_tell(a.proposal.0, b.proposal.0);
    lemma_pairs_tell(p2, q2, quoted( a.proposal.0.text(), ), quoted( b.proposal.0.text(), ));
    let p3 = p2 + quoted( a.proposal.0.text(), );
    let q3 = q2 + quoted( b.proposal.0.text(), );
    lemma_equal_lengths_tell(",\"score\":"@, ",\"score\":"@);
    lemma_pairs_tell(p3, q3, ",\"score\":"@, ",\"score\":"@);
    let p4 = p3 + ",\"score\":"@;
    let q4 = q3 + ",\"score\":"@;
    lemma_digests_tell(a.score.0, b.score.0);
    lemma_pairs_tell(p4, q4, quoted(a.score.0.text()), quoted(b.score.0.text()));
    let p5 = p4 + quoted(a.score.0.text());
    let q5 = q4 + quoted(b.score.0.text());
    lemma_equal_lengths_tell(",\"patch\":"@, ",\"patch\":"@);
    lemma_pairs_tell(p5, q5, ",\"patch\":"@, ",\"patch\":"@);
    let p6 = p5 + ",\"patch\":"@;
    let q6 = q5 + ",\"patch\":"@;
    lemma_digests_tell(a.patch, b.patch);
    lemma_pairs_tell(p6, q6, quoted(a.patch.text()), quoted(b.patch.text()));
    let p7 = p6 + quoted(a.patch.text());
    let q7 = q6 + quoted(b.patch.text());
    lemma_equal_lengths_tell(",\"revision\":"@, ",\"revision\":"@);
    lemma_pairs_tell(p7, q7, ",\"revision\":"@, ",\"revision\":"@);
    let p8 = p7 + ",\"revision\":"@;
    let q8 = q7 + ",\"revision\":"@;
    lemma_digests_tell(a.revision, b.revision);
    lemma_pairs_tell(p8, q8, quoted(a.revision.text()), quoted(b.revision.text()));
    let p9 = p8 + quoted(a.revision.text());
    let q9 = q8 + quoted(b.revision.text());
    lemma_equal_lengths_tell("}"@, "}"@);
    lemma_pairs_tell(p9, q9, "}"@, "}"@);
    let p10 = p9 + "}"@;
    let q10 = q9 + "}"@;
    assert(p10 == child_json(a));
    assert(q10 == child_json(b));
}

/// The canonical texts of children.
spec fn child_texts(children: Seq<CompositionChild>) -> Seq<Seq<char>> {
    children.map_values(|child: CompositionChild| child_json(child))
}

proof fn lemma_children_listed(children: Seq<CompositionChild>, n: int)
    requires
        0 <= n <= children.len(),
    ensures
        children_json(children, n) == commas(child_texts(children), n),
    decreases n,
{
    reveal_strlit("");
    reveal_strlit(",");
    if n > 0 {
        lemma_children_listed(children, n - 1);
        assert(child_texts(children)[n - 1] == child_json(children[n - 1]));
        assert(children_json(children, n) =~= commas(child_texts(children), n));
    }
}

proof fn lemma_child_lists_tell(
    a: Seq<CompositionChild>,
    b: Seq<CompositionChild>,
    end: Seq<char>,
)
    requires
        end.len() > 0 && end[0] == ']',
    ensures
        tells(
            children_json(a, a.len() as int) + end,
            children_json(b, b.len() as int) + end,
        ),
        children_json(a, a.len() as int) == children_json(b, b.len() as int) ==> a == b,
{
    let p = child_texts(a);
    let q = child_texts(b);
    lemma_children_listed(a, a.len() as int);
    lemma_children_listed(b, b.len() as int);
    reveal_strlit("{\"candidate\":");
    assert forall|i: int| 0 <= i < p.len() implies (#[trigger] p[i]).len() > 0 && p[i][0]
        == '{' by {
        assert(p[i] == child_json(a[i]));
    }
    assert forall|i: int| 0 <= i < q.len() implies (#[trigger] q[i]).len() > 0 && q[i][0]
        == '{' by {
        assert(q[i] == child_json(b[i]));
    }
    assert forall|i: int| 0 <= i < p.len() && i < q.len() implies tells(
        #[trigger] p[i],
        #[trigger] q[i],
    ) by {
        lemma_children_tell(a[i], b[i]);
    }
    lemma_marked_lists_tell(p, q, end, '{');
    if commas(p, p.len() as int) == commas(q, q.len() as int) {
        assert(p == q);
        assert(a.len() == p.len() && b.len() == q.len());
        assert forall|i: int| 0 <= i < a.len() implies a[i] == b[i] by {
            assert(p[i] == child_json(a[i]) && q[i] == child_json(b[i]));
            lemma_children_tell(a[i], b[i]);
        }
        assert(a =~= b);
    }
}

proof fn lemma_fallbacks_tell(
    a: crate::evolution::composition::CompositionFallback,
    b: crate::evolution::composition::CompositionFallback,
)
    ensures
        tells(quoted(fallback_text(a)), quoted(fallback_text(b))),
        a == b,
{
    lemma_equal_lengths_tell(quoted(fallback_text(a)), quoted(fallback_text(b)));
}

/// Compositions are identified alike only where they agree in their parent, their children, their
/// patch and their revision.
pub proof fn law_plans_are_told_apart(a: PlanModel, b: PlanModel)
    ensures
        tells(plan_json(a), plan_json(b)),
        plan_json(a) == plan_json(b) ==> a.schema_version == b.schema_version && a.parent == b.parent && a.children == b.children && a.patch == b.patch && a.revision == b.revision && a.fallback == b.fallback,
{
    reveal_strlit("{\"schema_version\":");
    reveal_strlit(",\"parent\":");
    reveal_strlit(",\"children\":[");
    reveal_strlit("],\"patch\":");
    reveal_strlit(",\"revision\":");
    reveal_strlit(",\"fallback\":");
    reveal_strlit("}");
    let p0 = "{\"schema_version\":"@;
    let q0 = "{\"schema_version\":"@;
    lemma_equal_lengths_tell(p0, q0);
    lemma_numbers_tell(a.schema_version as nat, b.schema_version as nat, ",\"parent\":"@);
    lemma_ended_pairs_tell(p0, q0, decimal(a.schema_version as nat), decimal(b.schema_version as nat), ",\"parent\":"@);
    let p1 = p0 + decimal(a.schema_version as nat) + ",\"parent\":"@;
    let q1 = q0 + decimal(b.schema_version as nat) + ",\"parent\":"@;
    lemma_digests_tell(a.parent, b.parent);
    lemma_pairs_tell(p1, q1, quoted( a.parent.text(), ), quoted( b.parent.text(), ));
    let p2 = p1 + quoted( a.parent.text(), );
    let q2 = q1 + quoted( b.parent.text(), );
    lemma_equal_lengths_tell(",\"children\":["@, ",\"children\":["@);
    lemma_pairs_tell(p2, q2, ",\"children\":["@, ",\"children\":["@);
    let p3 = p2 + ",\"children\":["@;
    let q3 = q2 + ",\"children\":["@;
    lemma_child_lists_tell(a.children, b.children, "],\"patch\":"@);
    lemma_ended_pairs_tell(p3, q3, children_json(a.children, a.children.len() as int), children_json(b.children, b.children.len() as int), "],\"patch\":"@);
    let p4 = p3 + children_json(a.children, a.children.len() as int) + "],\"patch\":"@;
    let q4 = q3 + children_json(b.children, b.children.len() as int) + "],\"patch\":"@;
    lemma_digests_tell(a.patch, b.patch);
    lemma_pairs_tell(p4, q4, quoted(a.patch.text()), quoted(b.patch.text()));
    let p5 = p4 + quoted(a.patch.text());
    let q5 = q4 + quoted(b.patch.text());
    lemma_equal_lengths_tell(",\"revision\":"@, ",\"revision\":"@);
    lemma_pairs_tell(p5, q5, ",\"revision\":"@, ",\"revision\":"@);
    let p6 = p5 + ",\"revision\":"@;
    let q6 = q5 + ",\"revision\":"@;
    lemma_digests_tell(a.revision, b.revision);
    lemma_pairs_tell(p6, q6, quoted( a.revision.text(), ), quoted( b.revision.text(), ));
    let p7 = p6 + quoted( a.revision.text(), );
    let q7 = q6 + quoted( b.revision.text(), );
    lemma_equal_lengths_tell(",\"fallback\":"@, ",\"fallback\":"@);
    lemma_pairs_tell(p7, q7, ",\"fallback\":"@, ",\"fallback\":"@);
    let p8 = p7 + ",\"fallback\":"@;
    let q8 = q7 + ",\"fallback\":"@;
    lemma_fallbacks_tell(a.fallback, b.fallback);
    lemma_pairs_tell(p8, q8, quoted(fallback_text(a.fallback)), quoted(fallback_text(b.fallback)));
    let p9 = p8 + quoted(fallback_text(a.fallback));
    let q9 = q8 + quoted(fallback_text(b.fallback));
    lemma_equal_lengths_tell("}"@, "}"@);
    lemma_pairs_tell(p9, q9, "}"@, "}"@);
    let p10 = p9 + "}"@;
    let q10 = q9 + "}"@;
    assert(p10 == plan_json(a));
    assert(q10 == plan_json(b));
}

/// Selections are identified alike only where they agree in everything.
pub proof fn law_selections_are_told_apart(parent: Digest, candidate: CandidateId, proposal: ProposalId, score: ScoreResultId, revision: Digest, parent_b: Digest, candidate_b: CandidateId, proposal_b: ProposalId, score_b: ScoreResultId, revision_b: Digest)
    ensures
        tells(selected_json(parent, candidate, proposal, score, revision), selected_json(parent_b, candidate_b, proposal_b, score_b, revision_b)),
        selected_json(parent, candidate, proposal, score, revision) == selected_json(parent_b, candidate_b, proposal_b, score_b, revision_b) ==> parent == parent_b && candidate.0 == candidate_b.0 && proposal.0 == proposal_b.0 && score.0 == score_b.0 && revision == revision_b,
{
    reveal_strlit("{\"schema_version\":");
    reveal_strlit(",\"kind\":\"selected_candidate\",\"parent\":");
    reveal_strlit(",\"candidate\":");
    reveal_strlit(",\"proposal\":");
    reveal_strlit(",\"score\":");
    reveal_strlit(",\"revision\":");
    reveal_strlit("}");
    let p0 = "{\"schema_version\":"@;
    let q0 = "{\"schema_version\":"@;
    lemma_equal_lengths_tell(p0, q0);
    lemma_numbers_tell(COMPOSITION_SCHEMA_VERSION as nat, COMPOSITION_SCHEMA_VERSION as nat, ",\"kind\":\"selected_candidate\",\"parent\":"@);
    lemma_ended_pairs_tell(p0, q0, decimal(COMPOSITION_SCHEMA_VERSION as nat), decimal(COMPOSITION_SCHEMA_VERSION as nat), ",\"kind\":\"selected_candidate\",\"parent\":"@);
    let p1 = p0 + decimal(COMPOSITION_SCHEMA_VERSION as nat) + ",\"kind\":\"selected_candidate\",\"parent\":"@;
    let q1 = q0 + decimal(COMPOSITION_SCHEMA_VERSION as nat) + ",\"kind\":\"selected_candidate\",\"parent\":"@;
    lemma_digests_tell(parent, parent_b);
    lemma_pairs_tell(p1, q1, quoted(parent.text()), quoted(parent_b.text()));
    let p2 = p1 + quoted(parent.text());
    let q2 = q1 + quoted(parent_b.text());
    lemma_equal_lengths_tell(",\"candidate\":"@, ",\"candidate\":"@);
    lemma_pairs_tell(p2, q2, ",\"candidate\":"@, ",\"candidate\":"@);
    let p3 = p2 + ",\"candidate\":"@;
    let q3 = q2 + ",\"candidate\":"@;
    lemma_digests_tell(candidate.0, candidate_b.0);
    lemma_pairs_tell(p3, q3, quoted(candidate.0.text()), quoted(candidate_b.0.text()));
    let p4 = p3 + quoted(candidate.0.text());
    let q4 = q3 + quoted(candidate_b.0.text());
    lemma_equal_lengths_tell(",\"proposal\":"@, ",\"proposal\":"@);
    lemma_pairs_tell(p4, q4, ",\"proposal\":"@, ",\"proposal\":"@);
    let p5 = p4 + ",\"proposal\":"@;
    let q5 = q4 + ",\"proposal\":"@;
    lemma_digests_tell(proposal.0, proposal_b.0);
    lemma_pairs_tell(p5, q5, quoted( proposal.0.text(), ), quoted( proposal_b.0.text(), ));
    let p6 = p5 + quoted( proposal.0.text(), );
    let q6 = q5 + quoted( proposal_b.0.text(), );
    lemma_equal_lengths_tell(",\"score\":"@, ",\"score\":"@);
    lemma_pairs_tell(p6, q6, ",\"score\":"@, ",\"score\":"@);
    let p7 = p6 + ",\"score\":"@;
    let q7 = q6 + ",\"score\":"@;
    lemma_digests_tell(score.0, score_b.0);
    lemma_pairs_tell(p7, q7, quoted(score.0.text()), quoted(score_b.0.text()));
    let p8 = p7 + quoted(score.0.text());
    let q8 = q7 + quoted(score_b.0.text());
    lemma_equal_lengths_tell(",\"revision\":"@, ",\"revision\":"@);
    lemma_pairs_tell(p8, q8, ",\"revision\":"@, ",\"revision\":"@);
    let p9 = p8 + ",\"revision\":"@;
    let q9 = q8 + ",\"revision\":"@;
    lemma_digests_tell(revision, revision_b);
    lemma_pairs_tell(p9, q9, quoted(revision.text()), quoted(revision_b.text()));
    let p10 = p9 + quoted(revision.text());
    let q10 = q9 + quoted(revision_b.text());
    lemma_equal_lengths_tell("}"@, "}"@);
    lemma_pairs_tell(p10, q10, "}"@, "}"@);
    let p11 = p10 + "}"@;
    let q11 = q10 + "}"@;
    assert(p11 == selected_json(parent, candidate, proposal, score, revision));
    assert(q11 == selected_json(parent_b, candidate_b, proposal_b, score_b, revision_b));
}

/// Rollbacks are identified alike only where they agree in everything, the reason among it.
pub proof fn law_rollbacks_are_told_apart(campaign: CampaignId, from: Digest, reason: Seq<char>, report: MonitoringReportId, restored: Digest, campaign_b: CampaignId, from_b: Digest, reason_b: Seq<char>, report_b: MonitoringReportId, restored_b: Digest)
    ensures
        tells(rollback_json(campaign, from, reason, report, restored), rollback_json(campaign_b, from_b, reason_b, report_b, restored_b)),
        rollback_json(campaign, from, reason, report, restored) == rollback_json(campaign_b, from_b, reason_b, report_b, restored_b) ==> campaign.0 == campaign_b.0 && from == from_b && reason == reason_b && report.0 == report_b.0 && restored == restored_b,
{
    reveal_strlit("{\"campaign\":");
    reveal_strlit(",\"from\":");
    reveal_strlit(",\"reason\":");
    reveal_strlit(",\"report\":");
    reveal_strlit(",\"restored\":");
    reveal_strlit("}");
    let p0 = "{\"campaign\":"@;
    let q0 = "{\"campaign\":"@;
    lemma_equal_lengths_tell(p0, q0);
    lemma_uuids_tell(campaign.0, campaign_b.0);
    lemma_pairs_tell(p0, q0, quoted(campaign.0.text()), quoted(campaign_b.0.text()));
    let p1 = p0 + quoted(campaign.0.text());
    let q1 = q0 + quoted(campaign_b.0.text());
    lemma_equal_lengths_tell(",\"from\":"@, ",\"from\":"@);
    lemma_pairs_tell(p1, q1, ",\"from\":"@, ",\"from\":"@);
    let p2 = p1 + ",\"from\":"@;
    let q2 = q1 + ",\"from\":"@;
    lemma_digests_tell(from, from_b);
    lemma_pairs_tell(p2, q2, quoted(from.text()), quoted(from_b.text()));
    let p3 = p2 + quoted(from.text());
    let q3 = q2 + quoted(from_b.text());
    lemma_equal_lengths_tell(",\"reason\":"@, ",\"reason\":"@);
    lemma_pairs_tell(p3, q3, ",\"reason\":"@, ",\"reason\":"@);
    let p4 = p3 + ",\"reason\":"@;
    let q4 = q3 + ",\"reason\":"@;
    lemma_json_strings_tell(reason, reason_b);
    lemma_pairs_tell(p4, q4, json_string(reason), json_string(reason_b));
    let p5 = p4 + json_string(reason);
    let q5 = q4 + json_string(reason_b);
    lemma_equal_lengths_tell(",\"report\":"@, ",\"report\":"@);
    lemma_pairs_tell(p5, q5, ",\"report\":"@, ",\"report\":"@);
    let p6 = p5 + ",\"report\":"@;
    let q6 = q5 + ",\"report\":"@;
    lemma_digests_tell(report.0, report_b.0);
    lemma_pairs_tell(p6, q6, quoted(report.0.text()), quoted(report_b.0.text()));
    let p7 = p6 + quoted(report.0.text());
    let q7 = q6 + quoted(report_b.0.text());
    lemma_equal_lengths_tell(",\"restored\":"@, ",\"restored\":"@);
    lemma_pairs_tell(p7, q7, ",\"restored\":"@, ",\"restored\":"@);
    let p8 = p7 + ",\"restored\":"@;
    let q8 = q7 + ",\"restored\":"@;
    lemma_digests_tell(restored, restored_b);
    lemma_pairs_tell(p8, q8, quoted(restored.text()), quoted(restored_b.text()));
    let p9 = p8 + quoted(restored.text());
    let q9 = q8 + quoted(restored_b.text());
    lemma_equal_lengths_tell("}"@, "}"@);
    lemma_pairs_tell(p9, q9, "}"@, "}"@);
    let p10 = p9 + "}"@;
    let q10 = q9 + "}"@;
    assert(p10 == rollback_json(campaign, from, reason, report, restored));
    assert(q10 == rollback_json(campaign_b, from_b, reason_b, report_b, restored_b));
}

proof fn lemma_uuids_tell(a: Uuid, b: Uuid)
    ensures
        tells(quoted(a.text()), quoted(b.text())),
        quoted(a.text()) == quoted(b.text()) ==> a == b,
{
    lemma_text_len(a);
    lemma_text_len(b);
    reveal_strlit("\"");
    lemma_equal_lengths_tell(quoted(a.text()), quoted(b.text()));
    if quoted(a.text()) == quoted(b.text()) {
        assert(a.text() =~= quoted(a.text()).subrange(1, 37));
        assert(b.text() =~= quoted(b.text()).subrange(1, 37));
        law_texts_tell_identifiers_apart(a, b);
    }
}

} // verus!
