//! What evaluation cohorts are registered with.
use crate::canonical::{push_digest, push_quoted, push_uuid, quoted};
use crate::digest::{digest_of_text, Digest};
use crate::digest_set::DigestSet;
use crate::evolution::ids::{
    AuditEpochId, CampaignId, CaseIdentity, CohortId, EnvironmentIdentity, EvaluatorIdentity,
    IndependentBlockId, ModelIdentity, PartitionCommitment, PolicyIdentity, ProtocolIdentity,
    TaskIdentity, TaskProfileIdentity,
};
use crate::evolution::statistics::policy::{
    policy_json, policy_problem, policy_text, FrozenScoringPolicy,
};
use crate::first::{either, first_some, lemma_first_some_at, refused};
use crate::text::{decimal, push_decimal, same_text};
use vstd::prelude::*;

verus! {

pub const MAX_STORED: u64 = 0x7fff_ffff_ffff_ffff;

/// Who gets a harness.
#[derive(Clone, Copy, Debug, PartialEq, Eq, PartialOrd, Ord, Hash, Structural)]
pub enum Channel {
    Canary,
    Stable,
}

impl Channel {
    pub open spec fn spec_name(self) -> Seq<char> {
        match self {
            Channel::Canary => "canary"@,
            Channel::Stable => "stable"@,
        }
    }

    pub fn as_str(self) -> (r: &'static str)
        ensures
            r@ == self.spec_name(),
    {
        match self {
            Channel::Canary => "canary",
            Channel::Stable => "stable",
        }
    }
}

impl Channel {
    /// The name of the channel.
    pub(crate) fn name(self) -> (r: &'static str)
        ensures
            r@ == self.spec_name(),
    {
        self.as_str()
    }

    /// The channel with a name.
    pub fn from_str(value: &str) -> (r: Result<Self, &'static str>)
        ensures
            match r {
                Ok(channel) => value@ == channel.spec_name(),
                Err(error) => error == "unknown harness channel" && value@
                    != Channel::Canary.spec_name() && value@ != Channel::Stable.spec_name(),
            },
    {
        if same_text(value, "canary") {
            Ok(Channel::Canary)
        } else if same_text(value, "stable") {
            Ok(Channel::Stable)
        } else {
            Err("unknown harness channel")
        }
    }
}

/// Why the compiled baseline is used.
#[derive(Clone, Copy, Debug, PartialEq, Eq, Structural)]
pub enum BaselineReason {
    UnregisteredTarget,
    LegacyImport,
    StoreFixture,
}

#[derive(Clone, Copy, Debug, PartialEq, Eq, Structural)]
pub enum HarnessProvenance {
    Registered,
    CompiledBaseline { reason: BaselineReason },
}

/// What a harness is meant for.
#[derive(Clone, Copy, Debug, PartialEq, Eq, PartialOrd, Ord, Hash, Structural)]
pub struct TargetProfile {
    pub model: ModelIdentity,
    pub protocol: ProtocolIdentity,
    pub environment: EnvironmentIdentity,
    pub task_profile: TaskProfileIdentity,
    pub channel: Channel,
}

impl TargetProfile {
    pub fn new(
        model: ModelIdentity,
        protocol: ProtocolIdentity,
        environment: EnvironmentIdentity,
        task_profile: TaskProfileIdentity,
        channel: Channel,
    ) -> (r: Self)
        ensures
            r == (TargetProfile { model, protocol, environment, task_profile, channel }),
    {
        TargetProfile { model, protocol, environment, task_profile, channel }
    }
}

/// An immutable registry result. It contains identities, not manifest authority.
#[derive(Clone, Copy, Debug, PartialEq, Eq, Structural)]
pub struct HarnessBinding {
    target: TargetProfile,
    revision: Digest,
    behavior: Digest,
    envelope: Digest,
    policy: PolicyIdentity,
}

/// What a binding names.
pub struct BindingModel {
    pub target: TargetProfile,
    pub revision: Digest,
    pub behavior: Digest,
    pub envelope: Digest,
    pub policy: PolicyIdentity,
}

impl View for HarnessBinding {
    type V = BindingModel;

    closed spec fn view(&self) -> BindingModel {
        BindingModel {
            target: self.target,
            revision: self.revision,
            behavior: self.behavior,
            envelope: self.envelope,
            policy: self.policy,
        }
    }
}

impl HarnessBinding {
    pub fn registered(
        target: TargetProfile,
        revision: Digest,
        behavior: Digest,
        envelope: Digest,
        policy: PolicyIdentity,
    ) -> (r: Self)
        ensures
            r@ == (BindingModel { target, revision, behavior, envelope, policy }),
    {
        HarnessBinding { target, revision, behavior, envelope, policy }
    }

    pub fn baseline(
        target: TargetProfile,
        revision: Digest,
        behavior: Digest,
        envelope: Digest,
        policy: PolicyIdentity,
    ) -> (r: Self)
        ensures
            r@ == (BindingModel { target, revision, behavior, envelope, policy }),
    {
        HarnessBinding::registered(target, revision, behavior, envelope, policy)
    }

    pub fn target(&self) -> (r: TargetProfile)
        ensures
            r == self@.target,
    {
        self.target
    }

    pub fn revision(&self) -> (r: Digest)
        ensures
            r == self@.revision,
    {
        self.revision
    }

    pub fn behavior(&self) -> (r: Digest)
        ensures
            r == self@.behavior,
    {
        self.behavior
    }

    pub fn envelope(&self) -> (r: Digest)
        ensures
            r == self@.envelope,
    {
        self.envelope
    }

    pub fn policy(&self) -> (r: PolicyIdentity)
        ensures
            r == self@.policy,
    {
        self.policy
    }
}

/// Commitments to the three parts of the data.
#[derive(Clone, Copy, Debug, PartialEq, Eq, Structural)]
pub struct PartitionCommitments {
    pub mining: PartitionCommitment,
    pub adaptive_promotion: PartitionCommitment,
    pub final_audit: PartitionCommitment,
}

impl PartitionCommitments {
    pub open spec fn problem(self) -> Option<&'static str> {
        if self.mining == self.adaptive_promotion || self.mining == self.final_audit
            || self.adaptive_promotion == self.final_audit {
            Some("cohort partition commitments must be distinct")
        } else {
            None
        }
    }

    pub fn validate(self) -> (r: Result<(), &'static str>)
        ensures
            r == refused(self.problem()),
    {
        if self.mining == self.adaptive_promotion || self.mining == self.final_audit
            || self.adaptive_promotion == self.final_audit {
            return Err("cohort partition commitments must be distinct");
        }
        Ok(())
    }
}

#[derive(Clone, Copy, Debug, PartialEq, Eq, Structural)]
pub struct EvaluationCase {
    pub id: CaseIdentity,
    pub task: TaskIdentity,
    pub repeats: u32,
}

#[derive(Debug, PartialEq, Eq)]
pub struct IndependentBlock {
    pub id: IndependentBlockId,
    pub cases: Vec<EvaluationCase>,
}

/// What a ledger may spend.
#[derive(Clone, Copy, Debug, PartialEq, Eq, Structural)]
pub struct LedgerLimit {
    pub queries: u64,
    pub error_nanos: u64,
}

impl LedgerLimit {
    pub open spec fn problem(self) -> Option<&'static str> {
        if self.queries == 0 || self.error_nanos == 0 {
            Some("cohort ledger limits must be positive")
        } else if self.queries > MAX_STORED || self.error_nanos > MAX_STORED {
            Some("cohort ledger limits exceed storage bounds")
        } else {
            None
        }
    }

    pub fn new(queries: u64, error_nanos: u64) -> (r: Self)
        ensures
            r == (LedgerLimit { queries, error_nanos }),
    {
        LedgerLimit { queries, error_nanos }
    }

    pub fn validate(self) -> (r: Result<(), &'static str>)
        ensures
            r == refused(self.problem()),
    {
        if self.queries == 0 || self.error_nanos == 0 {
            return Err("cohort ledger limits must be positive");
        }
        if self.queries > MAX_STORED || self.error_nanos > MAX_STORED {
            return Err("cohort ledger limits exceed storage bounds");
        }
        Ok(())
    }
}

/// A cohort, frozen before any trial.
#[derive(Debug, PartialEq, Eq)]
pub struct EvaluationCohortSpec {
    pub id: CohortId,
    pub target: TargetProfile,
    pub base_revision: Digest,
    pub evaluator: EvaluatorIdentity,
    pub policy: PolicyIdentity,
    pub partitions: PartitionCommitments,
    pub blocks: Vec<IndependentBlock>,
    pub adaptive_promotion: LedgerLimit,
    pub final_audit: LedgerLimit,
    pub audit_epoch: AuditEpochId,
    pub scoring: FrozenScoringPolicy,
}

/// Whether a case occurs before the one at an index of a block.
pub open spec fn case_before(blocks: Seq<IndependentBlock>, i: int, j: int, id: CaseIdentity) -> bool {
    ||| exists|b: int| 0 <= b < j && (#[trigger] blocks[i].cases@[b]).id == id
    ||| exists|a: int| 0 <= a < i && case_in(#[trigger] blocks[a], id)
}

/// Whether a case belongs to a block.
pub open spec fn case_in(block: IndependentBlock, id: CaseIdentity) -> bool {
    exists|b: int| 0 <= b < block.cases@.len() && (#[trigger] block.cases@[b]).id == id
}

/// What is wrong with a case.
pub open spec fn case_problem(blocks: Seq<IndependentBlock>, i: int, j: int) -> Option<
    &'static str,
> {
    if blocks[i].cases@[j].repeats == 0 {
        Some("evaluation case repeats must be positive")
    } else if case_before(blocks, i, j, blocks[i].cases@[j].id) {
        Some("evaluation case identities must be unique")
    } else {
        None
    }
}

pub open spec fn case_check(blocks: Seq<IndependentBlock>, i: int) -> spec_fn(int) -> Option<
    &'static str,
> {
    |j: int| case_problem(blocks, i, j)
}

/// What is wrong with a block.
pub open spec fn block_problem(blocks: Seq<IndependentBlock>, i: int) -> Option<&'static str> {
    if exists|a: int| 0 <= a < i && (#[trigger] blocks[a]).id == blocks[i].id {
        Some("independent block identities must be unique")
    } else if blocks[i].cases@.len() == 0 {
        Some("independent block must contain cases")
    } else {
        first_some(case_check(blocks, i), blocks[i].cases@.len() as int)
    }
}

pub open spec fn block_check(blocks: Seq<IndependentBlock>) -> spec_fn(int) -> Option<&'static str> {
    |i: int| block_problem(blocks, i)
}

/// What is wrong with a cohort.
pub open spec fn cohort_problem(cohort: EvaluationCohortSpec) -> Option<&'static str> {
    either(
        cohort.partitions.problem(),
        either(
            cohort.adaptive_promotion.problem(),
            either(
                cohort.final_audit.problem(),
                if cohort.blocks@.len() == 0 {
                    Some("evaluation cohort must contain independent blocks")
                } else {
                    either(
                        first_some(block_check(cohort.blocks@), cohort.blocks@.len() as int),
                        if policy_problem(cohort.scoring, cohort) is Some {
                            Some("evaluation cohort scoring policy is invalid")
                        } else {
                            None
                        },
                    )
                },
            ),
        ),
    )
}

/// Whether a set holds exactly the cases before one of a block.
spec fn holds_cases(seen: Seq<Digest>, blocks: Seq<IndependentBlock>, i: int, j: int) -> bool {
    forall|id: CaseIdentity| #[trigger] seen.to_set().contains(id.0) <==> case_before(blocks, i, j, id)
}

proof fn lemma_holds_next(
    seen: Set<Digest>,
    after: Set<Digest>,
    blocks: Seq<IndependentBlock>,
    i: int,
    j: int,
)
    requires
        0 <= i < blocks.len(),
        0 <= j < blocks[i].cases@.len(),
        forall|id: CaseIdentity| #[trigger] seen.contains(id.0) <==> case_before(blocks, i, j, id),
        after == seen.insert(blocks[i].cases@[j].id.0),
    ensures
        forall|id: CaseIdentity| #[trigger]
            after.contains(id.0) <==> case_before(blocks, i, j + 1, id),
{
    assert forall|id: CaseIdentity| #[trigger] after.contains(id.0) <==> case_before(
        blocks,
        i,
        j + 1,
        id,
    ) by {
        if after.contains(id.0) {
            if seen.contains(id.0) {
                assert(case_before(blocks, i, j, id));
            } else {
                assert(blocks[i].cases@[j].id == id);
            }
        }
        if case_before(blocks, i, j + 1, id) && id != blocks[i].cases@[j].id {
            assert(case_before(blocks, i, j, id));
            assert(seen.contains(id.0));
        }
    }
}

impl EvaluationCohortSpec {
    fn validate_cases(&self, i: usize, seen: &mut DigestSet) -> (r: Result<(), &'static str>)
        requires
            i < self.blocks.len(),
            holds_cases(old(seen)@, self.blocks@, i as int, 0),
        ensures
            r == refused(
                first_some(
                    case_check(self.blocks@, i as int),
                    self.blocks@[i as int].cases@.len() as int,
                ),
            ),
            r is Ok ==> holds_cases(
                final(seen)@,
                self.blocks@,
                i as int,
                self.blocks@[i as int].cases@.len() as int,
            ),
    {
        let cases = &self.blocks[i].cases;
        let mut j: usize = 0;
        while j < cases.len()
            invariant
                i < self.blocks.len(),
                cases@ == self.blocks@[i as int].cases@,
                j <= cases.len(),
                holds_cases(seen@, self.blocks@, i as int, j as int),
                first_some(case_check(self.blocks@, i as int), j as int) is None,
            decreases cases.len() - j,
        {
            assert(case_check(self.blocks@, i as int)(j as int) == case_problem(
                self.blocks@,
                i as int,
                j as int,
            ));
            if cases[j].repeats == 0 {
                proof {
                    lemma_first_some_at(
                        case_check(self.blocks@, i as int),
                        j as int,
                        cases.len() as int,
                    );
                }
                return Err("evaluation case repeats must be positive");
            }
            let ghost before = seen@;
            assert(before.to_set().contains(cases@[j as int].id.0) <==> before.contains(
                cases@[j as int].id.0,
            ));
            if !seen.insert(cases[j].id.0) {
                proof {
                    lemma_first_some_at(
                        case_check(self.blocks@, i as int),
                        j as int,
                        cases.len() as int,
                    );
                }
                return Err("evaluation case identities must be unique");
            }
            proof {
                lemma_holds_next(
                    before.to_set(),
                    seen@.to_set(),
                    self.blocks@,
                    i as int,
                    j as int,
                );
            }
            j += 1;
        }
        Ok(())
    }

    fn block_repeats(&self, i: usize) -> (r: bool)
        requires
            i < self.blocks.len(),
        ensures
            r == exists|a: int|
                0 <= a < i && (#[trigger] self.blocks@[a]).id == self.blocks@[i as int].id,
    {
        let mut a: usize = 0;
        while a < i
            invariant
                a <= i < self.blocks.len(),
                forall|b: int|
                    0 <= b < a ==> (#[trigger] self.blocks@[b]).id != self.blocks@[i as int].id,
            decreases i - a,
        {
            if self.blocks[a].id == self.blocks[i].id {
                assert(self.blocks@[a as int].id == self.blocks@[i as int].id);
                return true;
            }
            a += 1;
        }
        false
    }

    pub fn validate(&self) -> (r: Result<(), &'static str>)
        ensures
            r == refused(cohort_problem(*self)),
    {
        match self.partitions.validate() {
            Err(error) => return Err(error),
            Ok(()) => {},
        }
        match self.adaptive_promotion.validate() {
            Err(error) => return Err(error),
            Ok(()) => {},
        }
        match self.final_audit.validate() {
            Err(error) => return Err(error),
            Ok(()) => {},
        }
        if self.blocks.len() == 0 {
            return Err("evaluation cohort must contain independent blocks");
        }
        let mut seen = DigestSet::new();
        let mut i: usize = 0;
        while i < self.blocks.len()
            invariant
                i <= self.blocks.len(),
                self.blocks.len() > 0,
                self.partitions.problem() is None,
                self.adaptive_promotion.problem() is None,
                self.final_audit.problem() is None,
                holds_cases(seen@, self.blocks@, i as int, 0),
                first_some(block_check(self.blocks@), i as int) is None,
            decreases self.blocks.len() - i,
        {
            assert(block_check(self.blocks@)(i as int) == block_problem(self.blocks@, i as int));
            let checked = if self.block_repeats(i) {
                Err("independent block identities must be unique")
            } else if self.blocks[i].cases.len() == 0 {
                Err("independent block must contain cases")
            } else {
                self.validate_cases(i, &mut seen)
            };
            match checked {
                Err(error) => {
                    proof {
                        lemma_first_some_at(
                            block_check(self.blocks@),
                            i as int,
                            self.blocks.len() as int,
                        );
                    }
                    return Err(error);
                },
                Ok(()) => {},
            }
            proof {
                lemma_next_block(seen@, self.blocks@, i as int);
            }
            i += 1;
        }
        if self.scoring.validate(self).is_err() {
            return Err("evaluation cohort scoring policy is invalid");
        }
        Ok(())
    }
}

proof fn lemma_next_block(seen: Seq<Digest>, blocks: Seq<IndependentBlock>, i: int)
    requires
        0 <= i < blocks.len(),
        holds_cases(seen, blocks, i, blocks[i].cases@.len() as int),
    ensures
        holds_cases(seen, blocks, i + 1, 0),
{
    assert forall|id: CaseIdentity| #[trigger] seen.to_set().contains(id.0) <==> case_before(
        blocks,
        i + 1,
        0,
        id,
    ) by {
        let n = blocks[i].cases@.len() as int;
        if case_before(blocks, i, n, id) {
            if exists|b: int| 0 <= b < n && (#[trigger] blocks[i].cases@[b]).id == id {
                assert(case_in(blocks[i], id));
            }
        }
        if case_before(blocks, i + 1, 0, id) {
            let a = choose|a: int| 0 <= a < i + 1 && case_in(#[trigger] blocks[a], id);
            assert(case_before(blocks, i, n, id));
        }
    }
}

/// The canonical JSON of a target.
pub open spec fn target_json(v: TargetProfile) -> Seq<char> {
    "{\"model\":"@ + quoted(v.model.0.text()) + ",\"protocol\":"@ + quoted(v.protocol.0.text()) + ",\"environment\":"@ + quoted(v.environment.0.text()) + ",\"task_profile\":"@ + quoted(v.task_profile.0.text()) + ",\"channel\":"@ + quoted(v.channel.spec_name()) + "}"@
}

fn target_text(v: &TargetProfile) -> (r: String)
    ensures
        r@ == target_json(*v),
{
    let mut json = "{\"model\":".to_owned();
    push_digest(&mut json, &v.model.0);
    json.push_str(",\"protocol\":");
    push_digest(&mut json, &v.protocol.0);
    json.push_str(",\"environment\":");
    push_digest(&mut json, &v.environment.0);
    json.push_str(",\"task_profile\":");
    push_digest(&mut json, &v.task_profile.0);
    json.push_str(",\"channel\":");
    push_quoted(&mut json, v.channel.name());
    json.push_str("}");
    json
}

/// The canonical JSON of the commitments of a cohort.
pub open spec fn commitments_json(v: PartitionCommitments) -> Seq<char> {
    "{\"mining\":"@ + quoted(v.mining.0.text()) + ",\"adaptive_promotion\":"@ + quoted(v.adaptive_promotion.0.text()) + ",\"final_audit\":"@ + quoted(v.final_audit.0.text()) + "}"@
}

fn commitments_text(v: &PartitionCommitments) -> (r: String)
    ensures
        r@ == commitments_json(*v),
{
    let mut json = "{\"mining\":".to_owned();
    push_digest(&mut json, &v.mining.0);
    json.push_str(",\"adaptive_promotion\":");
    push_digest(&mut json, &v.adaptive_promotion.0);
    json.push_str(",\"final_audit\":");
    push_digest(&mut json, &v.final_audit.0);
    json.push_str("}");
    json
}

/// The canonical JSON of a case.
pub open spec fn case_json(v: EvaluationCase) -> Seq<char> {
    "{\"id\":"@ + quoted(v.id.0.text()) + ",\"task\":"@ + quoted(v.task.0.text()) + ",\"repeats\":"@ + decimal(v.repeats as nat) + "}"@
}

fn case_text(v: &EvaluationCase) -> (r: String)
    ensures
        r@ == case_json(*v),
{
    let mut json = "{\"id\":".to_owned();
    push_digest(&mut json, &v.id.0);
    json.push_str(",\"task\":");
    push_digest(&mut json, &v.task.0);
    json.push_str(",\"repeats\":");
    push_decimal(&mut json, v.repeats as u64);
    json.push_str("}");
    json
}

/// The canonical JSON of the first `n` cases, separated by commas.
pub open spec fn cases_json(items: Seq<EvaluationCase>, n: int) -> Seq<char>
    decreases n,
{
    if n <= 0 {
        ""@
    } else if n == 1 {
        ""@ + case_json(items[0])
    } else {
        cases_json(items, n - 1) + ","@ + case_json(items[n - 1])
    }
}

fn cases_text(items: &Vec<EvaluationCase>) -> (r: String)
    ensures
        r@ == cases_json(items@, items.len() as int),
{
    let mut json = "".to_owned();
    let mut i: usize = 0;
    while i < items.len()
        invariant
            i <= items.len(),
            json@ == cases_json(items@, i as int),
        decreases items.len() - i,
    {
        if i > 0 {
            json.push_str(",");
        }
        json.push_str(case_text(&items[i]).as_str());
        i += 1;
    }
    json
}

/// The canonical JSON of a block.
pub open spec fn block_json(v: IndependentBlock) -> Seq<char> {
    "{\"id\":"@ + quoted(v.id.0.text()) + ",\"cases\":["@ + cases_json(v.cases@, v.cases@.len() as int) + "]}"@
}

fn block_text(v: &IndependentBlock) -> (r: String)
    ensures
        r@ == block_json(*v),
{
    let mut json = "{\"id\":".to_owned();
    push_digest(&mut json, &v.id.0);
    json.push_str(",\"cases\":[");
    json.push_str(cases_text(&v.cases).as_str());
    json.push_str("]}");
    json
}

/// The canonical JSON of the first `n` blocks, separated by commas.
pub open spec fn blocks_json(items: Seq<IndependentBlock>, n: int) -> Seq<char>
    decreases n,
{
    if n <= 0 {
        ""@
    } else if n == 1 {
        ""@ + block_json(items[0])
    } else {
        blocks_json(items, n - 1) + ","@ + block_json(items[n - 1])
    }
}

fn blocks_text(items: &Vec<IndependentBlock>) -> (r: String)
    ensures
        r@ == blocks_json(items@, items.len() as int),
{
    let mut json = "".to_owned();
    let mut i: usize = 0;
    while i < items.len()
        invariant
            i <= items.len(),
            json@ == blocks_json(items@, i as int),
        decreases items.len() - i,
    {
        if i > 0 {
            json.push_str(",");
        }
        json.push_str(block_text(&items[i]).as_str());
        i += 1;
    }
    json
}

/// The canonical JSON of a ledger limit.
pub open spec fn limit_json(v: LedgerLimit) -> Seq<char> {
    "{\"queries\":"@ + decimal(v.queries as nat) + ",\"error_nanos\":"@ + decimal(v.error_nanos as nat) + "}"@
}

fn limit_text(v: &LedgerLimit) -> (r: String)
    ensures
        r@ == limit_json(*v),
{
    let mut json = "{\"queries\":".to_owned();
    push_decimal(&mut json, v.queries as u64);
    json.push_str(",\"error_nanos\":");
    push_decimal(&mut json, v.error_nanos as u64);
    json.push_str("}");
    json
}

/// The canonical JSON of what a cohort is scored by.
pub open spec fn cohort_policy_json(v: EvaluationCohortSpec) -> Seq<char> {
    "[\"orvek:frozen-scoring-policy:v1\","@ + quoted(v.id.0.text()) + ","@ + target_json(v.target) + ","@ + quoted(v.base_revision.text()) + ","@ + quoted(v.evaluator.0.text()) + ","@ + quoted(v.policy.0.text()) + ","@ + commitments_json(v.partitions) + ",["@ + blocks_json(v.blocks@, v.blocks@.len() as int) + "],"@ + limit_json(v.adaptive_promotion) + ","@ + limit_json(v.final_audit) + ","@ + policy_json(v.scoring) + "]"@
}

fn cohort_policy_text(v: &EvaluationCohortSpec) -> (r: String)
    ensures
        r@ == cohort_policy_json(*v),
{
    let mut json = "[\"orvek:frozen-scoring-policy:v1\",".to_owned();
    push_uuid(&mut json, &v.id.0);
    json.push_str(",");
    json.push_str(target_text(&v.target).as_str());
    json.push_str(",");
    push_digest(&mut json, &v.base_revision);
    json.push_str(",");
    push_digest(&mut json, &v.evaluator.0);
    json.push_str(",");
    push_digest(&mut json, &v.policy.0);
    json.push_str(",");
    json.push_str(commitments_text(&v.partitions).as_str());
    json.push_str(",[");
    json.push_str(blocks_text(&v.blocks).as_str());
    json.push_str("],");
    json.push_str(limit_text(&v.adaptive_promotion).as_str());
    json.push_str(",");
    json.push_str(limit_text(&v.final_audit).as_str());
    json.push_str(",");
    json.push_str(policy_text(&v.scoring).as_str());
    json.push_str("]");
    json
}

/// The identity of what a cohort is scored by.
pub fn scoring_policy_digest(cohort: &EvaluationCohortSpec) -> (r: Digest)
    ensures
        r == digest_of_text(cohort_policy_json(*cohort)),
{
    Digest::of_text(cohort_policy_text(cohort).as_str())
}

/// A ledger of a cohort.
#[derive(Clone, Copy, Debug, PartialEq, Eq, Structural)]
pub enum CohortLedger {
    AdaptivePromotion,
    FinalAudit,
}

impl CohortLedger {
    pub open spec fn spec_name(self) -> Seq<char> {
        match self {
            CohortLedger::AdaptivePromotion => "adaptive_promotion"@,
            CohortLedger::FinalAudit => "final_audit"@,
        }
    }

    pub fn as_str(self) -> (r: &'static str)
        ensures
            r@ == self.spec_name(),
    {
        match self {
            CohortLedger::AdaptivePromotion => "adaptive_promotion",
            CohortLedger::FinalAudit => "final_audit",
        }
    }
}

/// An amount that a campaign spends of a ledger.
#[derive(Clone, Copy, Debug, PartialEq, Eq, Structural)]
pub struct LedgerDebit {
    pub campaign: CampaignId,
    pub use_id: Digest,
    pub queries: u64,
    pub error_nanos: u64,
}

impl LedgerDebit {
    pub open spec fn problem(self) -> Option<&'static str> {
        if self.queries == 0 && self.error_nanos == 0 {
            Some("cohort ledger debit must spend queries or error")
        } else if self.queries > MAX_STORED || self.error_nanos > MAX_STORED {
            Some("cohort ledger debit exceeds storage bounds")
        } else {
            None
        }
    }

    pub fn validate(self) -> (r: Result<(), &'static str>)
        ensures
            r == refused(self.problem()),
    {
        if self.queries == 0 && self.error_nanos == 0 {
            return Err("cohort ledger debit must spend queries or error");
        }
        if self.queries > MAX_STORED || self.error_nanos > MAX_STORED {
            return Err("cohort ledger debit exceeds storage bounds");
        }
        Ok(())
    }
}

/// What a ledger may spend and has spent.
#[derive(Clone, Copy, Debug, PartialEq, Eq, Structural)]
pub struct LedgerStatus {
    pub query_limit: u64,
    pub query_used: u64,
    pub error_limit_nanos: u64,
    pub error_used_nanos: u64,
}

impl LedgerStatus {
    pub fn queries_remaining(self) -> (r: u64)
        requires
            self.query_used <= self.query_limit,
        ensures
            r == self.query_limit - self.query_used,
    {
        self.query_limit - self.query_used
    }

    pub fn error_remaining_nanos(self) -> (r: u64)
        requires
            self.error_used_nanos <= self.error_limit_nanos,
        ensures
            r == self.error_limit_nanos - self.error_used_nanos,
    {
        self.error_limit_nanos - self.error_used_nanos
    }
}

/// Whether an audit epoch can still be used.
#[derive(Clone, Copy, Debug, PartialEq, Eq, Structural)]
pub enum AuditEpochStatus {
    Active,
    Retired,
}

} // verus!
