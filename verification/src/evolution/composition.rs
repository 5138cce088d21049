//! Composition of verified candidates into one harness revision.
use crate::canonical::{push_digest, push_quoted, quoted};
use crate::digest::{digest_of_text, Digest};
use crate::evolution::harness::ManifestError;
use crate::evolution::ids::{CandidateId, CompositionId, ProposalId, ScoreResultId};
use crate::first::{either, first_some, lemma_first_some_at, refused};
use crate::text::{decimal, push_decimal};
use vstd::prelude::*;

verus! {

pub const COMPOSITION_SCHEMA_VERSION: u32 = 1;

/// A field of the behavior layer that a patch replaces as a whole.
#[derive(Clone, Copy, Debug, PartialEq, Eq, PartialOrd, Ord, Structural)]
pub enum CompositeField {
    Budgets,
    Instructions,
    RecoveryReminders,
    Skills,
    SubagentRoles,
    Verifier,
}

impl CompositeField {
    pub open spec fn spec_name(self) -> Seq<char> {
        match self {
            CompositeField::Budgets => "budgets"@,
            CompositeField::Instructions => "instructions"@,
            CompositeField::RecoveryReminders => "recovery_reminders"@,
            CompositeField::Skills => "skills"@,
            CompositeField::SubagentRoles => "subagent_roles"@,
            CompositeField::Verifier => "verifier"@,
        }
    }

    /// The name of the field in a behavior patch.
    pub fn name(self) -> (r: &'static str)
        ensures
            r@ == self.spec_name(),
    {
        match self {
            CompositeField::Budgets => "budgets",
            CompositeField::Instructions => "instructions",
            CompositeField::RecoveryReminders => "recovery_reminders",
            CompositeField::Skills => "skills",
            CompositeField::SubagentRoles => "subagent_roles",
            CompositeField::Verifier => "verifier",
        }
    }
}

/// What happens when a composition does not come about.
#[derive(Clone, Copy, Debug, PartialEq, Eq, Structural)]
pub enum CompositionFallback {
    KeepParent,
}

#[derive(Clone, Copy, Debug, PartialEq, Eq, Structural)]
pub enum CompositionFailureReason {
    FieldConflict { field: CompositeField, first: CandidateId, second: CandidateId },
    CombinedManifestRejected,
}

/// One verified candidate that takes part in a composition.
#[derive(Clone, Copy, Debug, PartialEq, Eq, Structural)]
pub struct CompositionChild {
    pub candidate: CandidateId,
    pub proposal: ProposalId,
    pub score: ScoreResultId,
    pub patch: Digest,
    pub revision: Digest,
}

impl CompositionChild {
    pub fn candidate(self) -> (r: CandidateId)
        ensures
            r == self.candidate,
    {
        self.candidate
    }

    pub fn proposal(self) -> (r: ProposalId)
        ensures
            r == self.proposal,
    {
        self.proposal
    }

    pub fn score(self) -> (r: ScoreResultId)
        ensures
            r == self.score,
    {
        self.score
    }

    pub fn patch(self) -> (r: Digest)
        ensures
            r == self.patch,
    {
        self.patch
    }

    pub fn revision(self) -> (r: Digest)
        ensures
            r == self.revision,
    {
        self.revision
    }
}

/// A composition that succeeded.
#[derive(Debug, PartialEq, Eq)]
pub struct CompositePlan {
    pub schema_version: u32,
    pub id: CompositionId,
    pub candidate: CandidateId,
    pub parent: Digest,
    pub children: Vec<CompositionChild>,
    pub patch: Digest,
    pub revision: Digest,
    pub fallback: CompositionFallback,
}

/// A composition that failed.
#[derive(Debug, PartialEq, Eq)]
pub struct CompositionFailure {
    pub schema_version: u32,
    pub id: CompositionId,
    pub candidate: CandidateId,
    pub parent: Digest,
    pub children: Vec<CompositionChild>,
    pub reason: CompositionFailureReason,
    pub fallback: CompositionFallback,
}

/// What a [`CompositePlan`] records.
#[verifier::ext_equal]
pub struct PlanModel {
    pub schema_version: u32,
    pub id: CompositionId,
    pub candidate: CandidateId,
    pub parent: Digest,
    pub children: Seq<CompositionChild>,
    pub patch: Digest,
    pub revision: Digest,
    pub fallback: CompositionFallback,
}

/// What a [`CompositionFailure`] records.
#[verifier::ext_equal]
pub struct FailureModel {
    pub schema_version: u32,
    pub id: CompositionId,
    pub candidate: CandidateId,
    pub parent: Digest,
    pub children: Seq<CompositionChild>,
    pub reason: CompositionFailureReason,
    pub fallback: CompositionFallback,
}

impl View for CompositePlan {
    type V = PlanModel;

    open spec fn view(&self) -> PlanModel {
        PlanModel {
            schema_version: self.schema_version,
            id: self.id,
            candidate: self.candidate,
            parent: self.parent,
            children: self.children@,
            patch: self.patch,
            revision: self.revision,
            fallback: self.fallback,
        }
    }
}

impl View for CompositionFailure {
    type V = FailureModel;

    open spec fn view(&self) -> FailureModel {
        FailureModel {
            schema_version: self.schema_version,
            id: self.id,
            candidate: self.candidate,
            parent: self.parent,
            children: self.children@,
            reason: self.reason,
            fallback: self.fallback,
        }
    }
}

#[derive(Clone, Copy, Debug, PartialEq, Eq)]
pub enum CompositionError {
    TooFewCandidates,
    DuplicateCandidate { candidate: CandidateId },
    DuplicateProposal { proposal: ProposalId },
    ParentMismatch { candidate: CandidateId },
    ProposalRevisionMismatch { candidate: CandidateId },
    FieldConflict { field: CompositeField, first: CandidateId, second: CandidateId },
    Manifest(ManifestError),
    UnsupportedSchema { actual: u32 },
    NonCanonicalChildren,
    IdentityMismatch,
}

/// What is wrong with the child at an index: it does not come after its predecessor,
/// or its proposal occurred before.
pub open spec fn child_problem(children: Seq<CompositionChild>, i: int) -> Option<CompositionError> {
    if i > 0 && !children[i - 1].candidate.0.precedes(children[i].candidate.0) {
        Some(CompositionError::NonCanonicalChildren)
    } else if exists|j: int| 0 <= j < i && children[j].proposal == children[i].proposal {
        Some(CompositionError::DuplicateProposal { proposal: children[i].proposal })
    } else {
        None
    }
}

pub open spec fn child_check(children: Seq<CompositionChild>) -> spec_fn(int) -> Option<
    CompositionError,
> {
    |i: int| child_problem(children, i)
}

/// What is wrong with a list of children: there are at least two, in strictly
/// ascending order of candidates, with no proposal twice.
pub open spec fn children_problem(children: Seq<CompositionChild>) -> Option<CompositionError> {
    if children.len() < 2 {
        Some(CompositionError::TooFewCandidates)
    } else {
        first_some(child_check(children), children.len() as int)
    }
}

fn proposal_seen(children: &Vec<CompositionChild>, n: usize, proposal: ProposalId) -> (r: bool)
    requires
        n <= children.len(),
    ensures
        r == exists|j: int| 0 <= j < n && children@[j].proposal == proposal,
{
    let mut j: usize = 0;
    while j < n
        invariant
            j <= n <= children.len(),
            forall|k: int| 0 <= k < j ==> children@[k].proposal != proposal,
        decreases n - j,
    {
        if children[j].proposal == proposal {
            return true;
        }
        j += 1;
    }
    false
}

fn validate_children(children: &Vec<CompositionChild>) -> (r: Result<(), CompositionError>)
    ensures
        r == refused(children_problem(children@)),
{
    if children.len() < 2 {
        return Err(CompositionError::TooFewCandidates);
    }
    let mut i: usize = 0;
    while i < children.len()
        invariant
            i <= children.len(),
            2 <= children.len(),
            first_some(child_check(children@), i as int) is None,
        decreases children.len() - i,
    {
        let ordered = i == 0 || children[i - 1].candidate.0.before(&children[i].candidate.0);
        if !ordered {
            proof {
                lemma_first_some_at(child_check(children@), i as int, children.len() as int);
            }
            return Err(CompositionError::NonCanonicalChildren);
        }
        if proposal_seen(children, i, children[i].proposal) {
            proof {
                lemma_first_some_at(child_check(children@), i as int, children.len() as int);
            }
            return Err(CompositionError::DuplicateProposal { proposal: children[i].proposal });
        }
        i += 1;
    }
    Ok(())
}

/// The canonical JSON of a child.
pub open spec fn child_json(child: CompositionChild) -> Seq<char> {
    "{\"candidate\":"@ + quoted(child.candidate.0.text()) + ",\"proposal\":"@ + quoted(
        child.proposal.0.text(),
    ) + ",\"score\":"@ + quoted(child.score.0.text()) + ",\"patch\":"@ + quoted(child.patch.text())
        + ",\"revision\":"@ + quoted(child.revision.text()) + "}"@
}

/// The canonical JSON of the first `n` children, separated by commas.
pub open spec fn children_json(children: Seq<CompositionChild>, n: int) -> Seq<char>
    decreases n,
{
    if n <= 0 {
        ""@
    } else if n == 1 {
        ""@ + child_json(children[0])
    } else {
        children_json(children, n - 1) + ","@ + child_json(children[n - 1])
    }
}

/// The text of a fallback.
pub open spec fn fallback_text(fallback: CompositionFallback) -> Seq<char> {
    match fallback {
        CompositionFallback::KeepParent => "keep_parent"@,
    }
}

/// The canonical JSON of the reason of a failure.
pub open spec fn reason_json(reason: CompositionFailureReason) -> Seq<char> {
    match reason {
        CompositionFailureReason::FieldConflict { field, first, second } => {
            "{\"kind\":\"field_conflict\",\"data\":{\"field\":"@ + quoted(field.spec_name())
                + ",\"first\":"@ + quoted(first.0.text()) + ",\"second\":"@ + quoted(
                second.0.text(),
            ) + "}}"@
        },
        CompositionFailureReason::CombinedManifestRejected => {
            "{\"kind\":\"combined_manifest_rejected\"}"@
        },
    }
}

/// The canonical JSON that identifies a composition.
pub open spec fn plan_json(plan: PlanModel) -> Seq<char> {
    "{\"schema_version\":"@ + decimal(plan.schema_version as nat) + ",\"parent\":"@ + quoted(
        plan.parent.text(),
    ) + ",\"children\":["@ + children_json(plan.children, plan.children.len() as int)
        + "],\"patch\":"@ + quoted(plan.patch.text()) + ",\"revision\":"@ + quoted(
        plan.revision.text(),
    ) + ",\"fallback\":"@ + quoted(fallback_text(plan.fallback)) + "}"@
}

/// The canonical JSON that identifies a failed composition.
pub open spec fn failure_json(failure: FailureModel) -> Seq<char> {
    "{\"schema_version\":"@ + decimal(failure.schema_version as nat) + ",\"parent\":"@ + quoted(
        failure.parent.text(),
    ) + ",\"children\":["@ + children_json(failure.children, failure.children.len() as int)
        + "],\"reason\":"@ + reason_json(failure.reason) + ",\"fallback\":"@ + quoted(
        fallback_text(failure.fallback),
    ) + "}"@
}

/// The canonical JSON that identifies a single selected candidate.
pub open spec fn selected_json(
    parent: Digest,
    candidate: CandidateId,
    proposal: ProposalId,
    score: ScoreResultId,
    revision: Digest,
) -> Seq<char> {
    "{\"schema_version\":"@ + decimal(COMPOSITION_SCHEMA_VERSION as nat)
        + ",\"kind\":\"selected_candidate\",\"parent\":"@ + quoted(parent.text())
        + ",\"candidate\":"@ + quoted(candidate.0.text()) + ",\"proposal\":"@ + quoted(
        proposal.0.text(),
    ) + ",\"score\":"@ + quoted(score.0.text()) + ",\"revision\":"@ + quoted(revision.text())
        + "}"@
}

/// The candidate that a composition brings about.
pub open spec fn composed_candidate(composition: CompositionId) -> CandidateId {
    CandidateId(digest_of_text("orvek:composite-candidate:v1:"@ + composition.0.text()))
}

/// What is wrong with the identity of a composition: it is the hash of its canonical
/// JSON, and its candidate is derived from it.
pub open spec fn identity_problem(
    json: Seq<char>,
    id: CompositionId,
    candidate: CandidateId,
) -> Option<CompositionError> {
    if CompositionId(digest_of_text(json)) != id || composed_candidate(id) != candidate {
        Some(CompositionError::IdentityMismatch)
    } else {
        None
    }
}

/// What is wrong with a composition.
pub open spec fn plan_problem(plan: PlanModel) -> Option<CompositionError> {
    if plan.schema_version != COMPOSITION_SCHEMA_VERSION {
        Some(CompositionError::UnsupportedSchema { actual: plan.schema_version })
    } else {
        either(
            children_problem(plan.children),
            identity_problem(plan_json(plan), plan.id, plan.candidate),
        )
    }
}

/// What is wrong with a failed composition.
pub open spec fn failure_problem(failure: FailureModel) -> Option<CompositionError> {
    if failure.schema_version != COMPOSITION_SCHEMA_VERSION {
        Some(CompositionError::UnsupportedSchema { actual: failure.schema_version })
    } else {
        either(
            children_problem(failure.children),
            identity_problem(failure_json(failure), failure.id, failure.candidate),
        )
    }
}

fn push_child(json: &mut String, child: &CompositionChild)
    ensures
        final(json)@ == old(json)@ + child_json(*child),
{
    let mut text = "{\"candidate\":".to_owned();
    push_digest(&mut text, &child.candidate.0);
    text.push_str(",\"proposal\":");
    push_digest(&mut text, &child.proposal.0);
    text.push_str(",\"score\":");
    push_digest(&mut text, &child.score.0);
    text.push_str(",\"patch\":");
    push_digest(&mut text, &child.patch);
    text.push_str(",\"revision\":");
    push_digest(&mut text, &child.revision);
    text.push_str("}");
    json.push_str(text.as_str());
}

fn children_text(children: &Vec<CompositionChild>) -> (r: String)
    ensures
        r@ == children_json(children@, children.len() as int),
{
    let mut json = "".to_owned();
    let mut i: usize = 0;
    while i < children.len()
        invariant
            i <= children.len(),
            json@ == children_json(children@, i as int),
        decreases children.len() - i,
    {
        if i > 0 {
            json.push_str(",");
        }
        push_child(&mut json, &children[i]);
        i += 1;
    }
    json
}

fn fallback_name(fallback: CompositionFallback) -> (r: &'static str)
    ensures
        r@ == fallback_text(fallback),
{
    match fallback {
        CompositionFallback::KeepParent => "keep_parent",
    }
}

fn reason_text(reason: CompositionFailureReason) -> (r: String)
    ensures
        r@ == reason_json(reason),
{
    match reason {
        CompositionFailureReason::FieldConflict { field, first, second } => {
            let mut json = "{\"kind\":\"field_conflict\",\"data\":{\"field\":".to_owned();
            push_quoted(&mut json, field.name());
            json.push_str(",\"first\":");
            push_digest(&mut json, &first.0);
            json.push_str(",\"second\":");
            push_digest(&mut json, &second.0);
            json.push_str("}}");
            json
        },
        CompositionFailureReason::CombinedManifestRejected => {
            "{\"kind\":\"combined_manifest_rejected\"}".to_owned()
        },
    }
}

pub(crate) fn composite_candidate(composition: CompositionId) -> (r: CandidateId)
    ensures
        r == composed_candidate(composition),
{
    let mut text = "orvek:composite-candidate:v1:".to_owned();
    text.push_str(composition.0.to_string().as_str());
    CandidateId(Digest::of_text(text.as_str()))
}

pub fn selected_composition_id(
    parent: Digest,
    candidate: CandidateId,
    proposal: ProposalId,
    score: ScoreResultId,
    revision: Digest,
) -> (r: CompositionId)
    ensures
        r == CompositionId(
            digest_of_text(selected_json(parent, candidate, proposal, score, revision)),
        ),
{
    let mut json = "{\"schema_version\":".to_owned();
    push_decimal(&mut json, COMPOSITION_SCHEMA_VERSION as u64);
    json.push_str(",\"kind\":\"selected_candidate\",\"parent\":");
    push_digest(&mut json, &parent);
    json.push_str(",\"candidate\":");
    push_digest(&mut json, &candidate.0);
    json.push_str(",\"proposal\":");
    push_digest(&mut json, &proposal.0);
    json.push_str(",\"score\":");
    push_digest(&mut json, &score.0);
    json.push_str(",\"revision\":");
    push_digest(&mut json, &revision);
    json.push_str("}");
    CompositionId(Digest::of_text(json.as_str()))
}

impl CompositePlan {
    /// The identity that the lineage of this composition gives.
    pub(crate) fn lineage_id(&self) -> (r: CompositionId)
        ensures
            r == CompositionId(digest_of_text(plan_json(self@))),
    {
        let mut json = "{\"schema_version\":".to_owned();
        push_decimal(&mut json, self.schema_version as u64);
        json.push_str(",\"parent\":");
        push_digest(&mut json, &self.parent);
        json.push_str(",\"children\":[");
        json.push_str(children_text(&self.children).as_str());
        json.push_str("],\"patch\":");
        push_digest(&mut json, &self.patch);
        json.push_str(",\"revision\":");
        push_digest(&mut json, &self.revision);
        json.push_str(",\"fallback\":");
        push_quoted(&mut json, fallback_name(self.fallback));
        json.push_str("}");
        CompositionId(Digest::of_text(json.as_str()))
    }

    pub fn validate(&self) -> (r: Result<(), CompositionError>)
        ensures
            r == refused(plan_problem(self@)),
    {
        if self.schema_version != COMPOSITION_SCHEMA_VERSION {
            return Err(CompositionError::UnsupportedSchema { actual: self.schema_version });
        }
        match validate_children(&self.children) {
            Err(error) => return Err(error),
            Ok(()) => {},
        }
        let id = self.lineage_id();
        if id != self.id || composite_candidate(id) != self.candidate {
            return Err(CompositionError::IdentityMismatch);
        }
        Ok(())
    }

    pub fn id(&self) -> (r: CompositionId)
        ensures
            r == self@.id,
    {
        self.id
    }

    pub fn candidate(&self) -> (r: CandidateId)
        ensures
            r == self@.candidate,
    {
        self.candidate
    }

    pub fn parent(&self) -> (r: Digest)
        ensures
            r == self@.parent,
    {
        self.parent
    }

    pub fn children(&self) -> (r: &[CompositionChild])
        ensures
            r@ == self@.children,
    {
        self.children.as_slice()
    }

    pub fn patch(&self) -> (r: Digest)
        ensures
            r == self@.patch,
    {
        self.patch
    }

    pub fn revision(&self) -> (r: Digest)
        ensures
            r == self@.revision,
    {
        self.revision
    }

    pub fn fallback(&self) -> (r: CompositionFallback)
        ensures
            r == self@.fallback,
    {
        self.fallback
    }
}

/// A copy of a list of children.
fn copy_children(children: &Vec<CompositionChild>) -> (r: Vec<CompositionChild>)
    ensures
        r@ == children@,
{
    let mut copy: Vec<CompositionChild> = Vec::new();
    let mut i: usize = 0;
    while i < children.len()
        invariant
            i <= children.len(),
            copy@ == children@.subrange(0, i as int),
        decreases children.len() - i,
    {
        copy.push(children[i]);
        i += 1;
        assert(copy@ =~= children@.subrange(0, i as int));
    }
    assert(copy@ =~= children@);
    copy
}

impl Clone for CompositePlan {
    fn clone(&self) -> (r: Self)
        ensures
            r@ == self@,
    {
        CompositePlan {
            schema_version: self.schema_version,
            id: self.id,
            candidate: self.candidate,
            parent: self.parent,
            children: copy_children(&self.children),
            patch: self.patch,
            revision: self.revision,
            fallback: self.fallback,
        }
    }
}

impl Clone for CompositionFailure {
    fn clone(&self) -> (r: Self)
        ensures
            r@ == self@,
    {
        CompositionFailure {
            schema_version: self.schema_version,
            id: self.id,
            candidate: self.candidate,
            parent: self.parent,
            children: copy_children(&self.children),
            reason: self.reason,
            fallback: self.fallback,
        }
    }
}

impl CompositionFailure {
    /// The identity that the lineage of this failure gives.
    pub(crate) fn lineage_id(&self) -> (r: CompositionId)
        ensures
            r == CompositionId(digest_of_text(failure_json(self@))),
    {
        let mut json = "{\"schema_version\":".to_owned();
        push_decimal(&mut json, self.schema_version as u64);
        json.push_str(",\"parent\":");
        push_digest(&mut json, &self.parent);
        json.push_str(",\"children\":[");
        json.push_str(children_text(&self.children).as_str());
        json.push_str("],\"reason\":");
        json.push_str(reason_text(self.reason).as_str());
        json.push_str(",\"fallback\":");
        push_quoted(&mut json, fallback_name(self.fallback));
        json.push_str("}");
        CompositionId(Digest::of_text(json.as_str()))
    }

    pub fn validate(&self) -> (r: Result<(), CompositionError>)
        ensures
            r == refused(failure_problem(self@)),
    {
        if self.schema_version != COMPOSITION_SCHEMA_VERSION {
            return Err(CompositionError::UnsupportedSchema { actual: self.schema_version });
        }
        match validate_children(&self.children) {
            Err(error) => return Err(error),
            Ok(()) => {},
        }
        let id = self.lineage_id();
        if id != self.id || composite_candidate(id) != self.candidate {
            return Err(CompositionError::IdentityMismatch);
        }
        Ok(())
    }

    pub fn id(&self) -> (r: CompositionId)
        ensures
            r == self@.id,
    {
        self.id
    }

    pub fn candidate(&self) -> (r: CandidateId)
        ensures
            r == self@.candidate,
    {
        self.candidate
    }

    pub fn parent(&self) -> (r: Digest)
        ensures
            r == self@.parent,
    {
        self.parent
    }

    pub fn children(&self) -> (r: &[CompositionChild])
        ensures
            r@ == self@.children,
    {
        self.children.as_slice()
    }

    pub fn reason(&self) -> (r: CompositionFailureReason)
        ensures
            r == self@.reason,
    {
        self.reason
    }

    pub fn fallback(&self) -> (r: CompositionFallback)
        ensures
            r == self@.fallback,
    {
        self.fallback
    }
}

} // verus!
