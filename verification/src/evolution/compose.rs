//! Composing candidates: one that is selected, or several that are merged.
use crate::arrange::{lemma_arranged_is_order_free, lemma_sorted_weakly, StrictlyOrdered};
use crate::digest::{digest_of_text, lemma_precedes_total, lemma_precedes_transitive, Digest};
use crate::evolution::composition::{
    child_check, child_problem, children_problem, composed_candidate, composite_candidate,
    failure_json, failure_problem, plan_json, plan_problem, selected_composition_id,
    selected_json, CompositeField, CompositePlan, CompositionChild, CompositionError,
    CompositionFailure, CompositionFailureReason, CompositionFallback, FailureModel, PlanModel,
    COMPOSITION_SCHEMA_VERSION,
};
use crate::evolution::harness::{
    patched, read_problem, revision_id, ManifestError, ManifestPatch, PatchModel, RevisionModel,
    ValidatedHarnessRevision,
};
use crate::evolution::ids::{CandidateId, CompositionId, ScoreResultId};
use crate::evolution::proposal::{
    dimension_at, nth_dimension, BoundedProposal, DiversityDimension, FieldsModel, ProposalModel,
    ProviderManifestPatch,
};
use crate::json::{alike, JsonModel};
use crate::first::{first_some, lemma_first_some_at, lemma_first_some_none, refused};
use crate::order::{
    arranged, lemma_sorted_holds, lemma_sorted_indexes, numbers, sorted, sorted_order, Ordered,
};
use vstd::prelude::*;
use vstd::utf8::encode_utf8;

verus! {

/// A candidate to be composed: its score and the proposal that it came from.
#[derive(Clone, Copy)]
pub struct CompositionInput<'a> {
    pub candidate: CandidateId,
    pub score: ScoreResultId,
    pub proposal: &'a BoundedProposal,
}

/// What an input says.
#[verifier::ext_equal]
pub struct InputModel {
    pub candidate: CandidateId,
    pub score: ScoreResultId,
    pub proposal: ProposalModel,
}

impl<'a> View for CompositionInput<'a> {
    type V = InputModel;

    open spec fn view(&self) -> InputModel {
        InputModel { candidate: self.candidate, score: self.score, proposal: self.proposal@ }
    }
}

impl<'a> CompositionInput<'a> {
    pub fn new(candidate: CandidateId, score: ScoreResultId, proposal: &'a BoundedProposal) -> (r:
        Self)
        ensures
            r@ == (InputModel { candidate, score, proposal: proposal@ }),
    {
        CompositionInput { candidate, score, proposal }
    }

    pub fn candidate(self) -> (r: CandidateId)
        ensures
            r == self@.candidate,
    {
        self.candidate
    }

    pub fn score(self) -> (r: ScoreResultId)
        ensures
            r == self@.score,
    {
        self.score
    }

    pub fn proposal(self) -> (r: &'a BoundedProposal)
        ensures
            r@ == self@.proposal,
    {
        self.proposal
    }
}

/// What inputs are arranged by: the candidate, then the proposal.
#[derive(Clone, Copy, Debug, PartialEq, Eq, Structural)]
pub struct InputKey {
    pub candidate: Digest,
    pub proposal: Digest,
}

impl Ordered for InputKey {
    open spec fn comes_before(self, other: Self) -> bool {
        self.candidate.precedes(other.candidate) || self.candidate == other.candidate
            && self.proposal.precedes(other.proposal)
    }

    fn is_before(&self, other: &Self) -> (r: bool) {
        self.candidate.before(&other.candidate) || self.candidate == other.candidate
            && self.proposal.before(&other.proposal)
    }
}

impl StrictlyOrdered for InputKey {
    proof fn total(a: Self, b: Self) {
        lemma_precedes_total(a.candidate, b.candidate);
        lemma_precedes_total(b.candidate, a.candidate);
        lemma_precedes_total(a.proposal, b.proposal);
        lemma_precedes_total(b.proposal, a.proposal);
    }

    proof fn transitive(a: Self, b: Self, c: Self) {
        if a.candidate.precedes(b.candidate) && b.candidate.precedes(c.candidate) {
            lemma_precedes_transitive(a.candidate, b.candidate, c.candidate);
        }
        if a.proposal.precedes(b.proposal) && b.proposal.precedes(c.proposal) {
            lemma_precedes_transitive(a.proposal, b.proposal, c.proposal);
        }
    }
}

pub open spec fn input_key() -> spec_fn(InputModel) -> InputKey {
    |input: InputModel|
        InputKey { candidate: input.candidate.0, proposal: input.proposal.id.0 }
}

/// What the patch of an input makes of the parent, read from its canonical JSON again.
pub open spec fn input_revision(parent: RevisionModel, input: InputModel) -> Result<
    RevisionModel,
    CompositionError,
> {
    let proposal = input.proposal;
    if proposal.revision.parent != revision_id(parent) {
        Err(CompositionError::ParentMismatch { candidate: input.candidate })
    } else {
        match applied_patch(parent, proposal.canonical_patch, proposal.patch) {
            Err(error) => Err(CompositionError::Manifest(error)),
            Ok(revision) => if revision_id(revision) != revision_id(proposal.revision) {
                Err(CompositionError::ProposalRevisionMismatch { candidate: input.candidate })
            } else {
                Ok(revision)
            },
        }
    }
}

/// What a patch with its canonical JSON makes of a revision.
pub open spec fn applied_patch(
    parent: RevisionModel,
    canonical: Seq<char>,
    patch: PatchModel,
) -> Result<RevisionModel, ManifestError> {
    match read_problem(encode_utf8(canonical), "patch", Some(patch)) {
        Some(error) => Err(error),
        None => patched(parent, patch),
    }
}

/// Whether a result is what a revision or its refusal makes it.
pub open spec fn is_revision(
    result: Result<ValidatedHarnessRevision, CompositionError>,
    outcome: Result<RevisionModel, CompositionError>,
) -> bool {
    match (result, outcome) {
        (Ok(revision), Ok(expected)) => revision@ == expected,
        (Err(error), Err(expected)) => error == expected,
        _ => false,
    }
}

fn validate_input(parent: &ValidatedHarnessRevision, input: CompositionInput<'_>) -> (r: Result<
    ValidatedHarnessRevision,
    CompositionError,
>)
    ensures
        is_revision(r, input_revision(parent@, input@)),
{
    let proposal = input.proposal;
    if proposal.revision().parent() != parent.digest() {
        return Err(CompositionError::ParentMismatch { candidate: input.candidate });
    }
    let patch = proposal.patch().copy();
    let reconstructed = match parent.apply_patch_json(
        proposal.canonical_patch_bytes(),
        Some(patch),
    ) {
        Err(error) => return Err(CompositionError::Manifest(error)),
        Ok(revision) => revision,
    };
    if reconstructed.digest() != proposal.revision().digest() {
        return Err(CompositionError::ProposalRevisionMismatch { candidate: input.candidate });
    }
    Ok(reconstructed)
}

/// A candidate that is taken as it is.
pub struct SelectedHarness {
    candidate: CandidateId,
    composition: CompositionId,
    revision: ValidatedHarnessRevision,
}

/// What a selection says.
#[verifier::ext_equal]
pub struct SelectedModel {
    pub candidate: CandidateId,
    pub composition: CompositionId,
    pub revision: RevisionModel,
}

impl View for SelectedHarness {
    type V = SelectedModel;

    closed spec fn view(&self) -> SelectedModel {
        SelectedModel {
            candidate: self.candidate,
            composition: self.composition,
            revision: self.revision@,
        }
    }
}

impl SelectedHarness {
    pub fn candidate(&self) -> (r: CandidateId)
        ensures
            r == self@.candidate,
    {
        self.candidate
    }

    pub fn composition(&self) -> (r: CompositionId)
        ensures
            r == self@.composition,
    {
        self.composition
    }

    pub fn revision(&self) -> (r: &ValidatedHarnessRevision)
        ensures
            r@ == self@.revision,
    {
        &self.revision
    }
}

/// What the selection of a candidate comes to.
pub open spec fn selected(parent: RevisionModel, input: InputModel) -> Result<
    SelectedModel,
    CompositionError,
> {
    match input_revision(parent, input) {
        Err(error) => Err(error),
        Ok(revision) => Ok(
            SelectedModel {
                candidate: input.candidate,
                composition: CompositionId(
                    digest_of_text(
                        selected_json(
                            revision_id(parent),
                            input.candidate,
                            input.proposal.id,
                            input.score,
                            revision_id(revision),
                        ),
                    ),
                ),
                revision,
            },
        ),
    }
}

/// Selects one candidate.
pub fn compose_candidate(parent: &ValidatedHarnessRevision, input: CompositionInput<'_>) -> (r:
    Result<SelectedHarness, CompositionError>)
    ensures
        match (r, selected(parent@, input@)) {
            (Ok(harness), Ok(expected)) => harness@ == expected,
            (Err(error), Err(expected)) => error == expected,
            _ => false,
        },
{
    let revision = match validate_input(parent, input) {
        Err(error) => return Err(error),
        Ok(revision) => revision,
    };
    let composition = selected_composition_id(
        parent.digest(),
        input.candidate,
        input.proposal.id(),
        input.score,
        revision.digest(),
    );
    Ok(SelectedHarness { candidate: input.candidate, composition, revision })
}

/// The models of some inputs.
pub open spec fn input_models(inputs: Seq<CompositionInput<'_>>) -> Seq<InputModel> {
    inputs.map_values(|input: CompositionInput<'_>| input@)
}

pub open spec fn candidate_before(inputs: Seq<InputModel>, i: int) -> bool {
    exists|j: int| 0 <= j < i && (#[trigger] inputs[j]).candidate == inputs[i].candidate
}

pub open spec fn proposal_before(inputs: Seq<InputModel>, i: int) -> bool {
    exists|j: int| 0 <= j < i && (#[trigger] inputs[j]).proposal.id == inputs[i].proposal.id
}

/// The child that an input becomes among others in their order.
#[verifier::opaque]
pub open spec fn child_of(parent: RevisionModel, inputs: Seq<InputModel>, i: int) -> Result<
    CompositionChild,
    CompositionError,
> {
    let input = inputs[i];
    if candidate_before(inputs, i) {
        Err(CompositionError::DuplicateCandidate { candidate: input.candidate })
    } else if proposal_before(inputs, i) {
        Err(CompositionError::DuplicateProposal { proposal: input.proposal.id })
    } else {
        match input_revision(parent, input) {
            Err(error) => Err(error),
            Ok(revision) => Ok(
                CompositionChild {
                    candidate: input.candidate,
                    proposal: input.proposal.id,
                    score: input.score,
                    patch: digest_of_text(input.proposal.canonical_patch),
                    revision: revision_id(revision),
                },
            ),
        }
    }
}

/// The children that the first `n` inputs become, or the first refusal.
pub open spec fn children_of(parent: RevisionModel, inputs: Seq<InputModel>, n: int) -> Result<
    Seq<CompositionChild>,
    CompositionError,
>
    decreases n,
{
    if n <= 0 {
        Ok(Seq::empty())
    } else {
        match children_of(parent, inputs, n - 1) {
            Err(error) => Err(error),
            Ok(before) => match child_of(parent, inputs, n - 1) {
                Err(error) => Err(error),
                Ok(child) => Ok(before.push(child)),
            },
        }
    }
}

proof fn lemma_children_refused(parent: RevisionModel, inputs: Seq<InputModel>, at: int, n: int)
    requires
        at <= n,
        children_of(parent, inputs, at) is Err,
    ensures
        children_of(parent, inputs, n) == children_of(parent, inputs, at),
    decreases n,
{
    if at < n {
        lemma_children_refused(parent, inputs, at, n - 1);
    }
}

fn seen_before(inputs: &Vec<CompositionInput<'_>>, i: usize) -> (r: (bool, bool))
    requires
        i < inputs.len(),
    ensures
        r.0 == candidate_before(input_models(inputs@), i as int),
        r.1 == proposal_before(input_models(inputs@), i as int),
{
    let ghost models = input_models(inputs@);
    let candidate = inputs[i].candidate;
    let proposal = inputs[i].proposal.id();
    let mut candidate_seen = false;
    let mut proposal_seen = false;
    let mut j: usize = 0;
    while j < i
        invariant
            j <= i < inputs.len(),
            models == input_models(inputs@),
            candidate == models[i as int].candidate,
            proposal == models[i as int].proposal.id,
            candidate_seen == exists|k: int|
                0 <= k < j && (#[trigger] models[k]).candidate == candidate,
            proposal_seen == exists|k: int|
                0 <= k < j && (#[trigger] models[k]).proposal.id == proposal,
        decreases i - j,
    {
        assert(models[j as int] == inputs@[j as int]@);
        if inputs[j].candidate == candidate {
            candidate_seen = true;
        }
        let id = inputs[j].proposal.id();
        if id == proposal {
            proposal_seen = true;
        }
        j += 1;
    }
    (candidate_seen, proposal_seen)
}

/// Inputs in the order of their candidates.
pub open spec fn inputs_in_order(inputs: Seq<InputModel>) -> Seq<InputModel> {
    arranged(inputs, inputs.map_values(input_key()))
}

fn arrange_inputs<'a>(inputs: &Vec<CompositionInput<'a>>) -> (r: Vec<CompositionInput<'a>>)
    ensures
        input_models(r@) == inputs_in_order(input_models(inputs@)),
        r.len() == inputs.len(),
{
    let ghost models = input_models(inputs@);
    let ghost in_order = inputs_in_order(models);
    let mut keys: Vec<InputKey> = Vec::new();
    let mut i: usize = 0;
    while i < inputs.len()
        invariant
            i <= inputs.len(),
            models == input_models(inputs@),
            keys@ == models.map_values(input_key()).subrange(0, i as int),
        decreases inputs.len() - i,
    {
        keys.push(
            InputKey { candidate: inputs[i].candidate.0, proposal: inputs[i].proposal.id().0 },
        );
        i += 1;
        assert(keys@ =~= models.map_values(input_key()).subrange(0, i as int));
    }
    assert(keys@ =~= models.map_values(input_key()));
    let order = sorted_order(&keys);
    let mut result: Vec<CompositionInput<'a>> = Vec::new();
    let mut k: usize = 0;
    while k < order.len()
        invariant
            k <= order.len() == inputs.len(),
            result.len() == k,
            models == input_models(inputs@),
            in_order == inputs_in_order(models),
            keys@ == models.map_values(input_key()),
            numbers(order@) == sorted(keys@, keys.len() as int),
            forall|i: int| 0 <= i < order.len() ==> (#[trigger] order@[i]) < keys.len(),
            input_models(result@) == in_order.subrange(0, k as int),
        decreases order.len() - k,
    {
        assert(numbers(order@)[k as int] == order@[k as int]);
        let at = order[k];
        let ghost before = result@;
        result.push(inputs[at]);
        assert(models[at as int] == inputs@[at as int]@);
        k += 1;
        assert(input_models(result@) =~= input_models(before).push(inputs@[at as int]@));
        assert(input_models(result@) =~= in_order.subrange(0, k as int));
    }
    assert(input_models(result@) =~= in_order);
    result
}

/// The children that inputs become, or why they cannot be composed.
pub open spec fn canonical_lineage(parent: RevisionModel, inputs: Seq<InputModel>) -> Result<
    Seq<CompositionChild>,
    CompositionError,
> {
    if inputs.len() < 2 {
        Err(CompositionError::TooFewCandidates)
    } else {
        children_of(parent, inputs_in_order(inputs), inputs.len() as int)
    }
}

fn make_child(
    parent: &ValidatedHarnessRevision,
    inputs: &Vec<CompositionInput<'_>>,
    i: usize,
) -> (r: Result<CompositionChild, CompositionError>)
    requires
        i < inputs.len(),
    ensures
        r == child_of(parent@, input_models(inputs@), i as int),
{
    reveal(child_of);
    let (candidate_seen, proposal_seen) = seen_before(inputs, i);
    assert(input_models(inputs@)[i as int] == inputs@[i as int]@);
    let input = inputs[i];
    if candidate_seen {
        return Err(CompositionError::DuplicateCandidate { candidate: input.candidate });
    }
    if proposal_seen {
        return Err(CompositionError::DuplicateProposal { proposal: input.proposal.id() });
    }
    let revision = match validate_input(parent, input) {
        Err(error) => return Err(error),
        Ok(revision) => revision,
    };
    Ok(
        CompositionChild {
            candidate: input.candidate,
            proposal: input.proposal.id(),
            score: input.score,
            patch: Digest::of(input.proposal.canonical_patch_bytes()),
            revision: revision.digest(),
        },
    )
}

fn collect_children(
    parent: &ValidatedHarnessRevision,
    in_order: &Vec<CompositionInput<'_>>,
) -> (r: Result<Vec<CompositionChild>, CompositionError>)
    ensures
        match (r, children_of(parent@, input_models(in_order@), in_order.len() as int)) {
            (Ok(children), Ok(expected)) => children@ == expected,
            (Err(error), Err(expected)) => error == expected,
            _ => false,
        },
{
    let ghost models = input_models(in_order@);
    let mut children: Vec<CompositionChild> = Vec::new();
    let mut i: usize = 0;
    while i < in_order.len()
        invariant
            i <= in_order.len(),
            models == input_models(in_order@),
            children_of(parent@, models, i as int) == Ok::<Seq<CompositionChild>, CompositionError>(
                children@,
            ),
        decreases in_order.len() - i,
    {
        assert(models[i as int] == in_order@[i as int]@);
        let ghost here = i as int;
        match make_child(parent, in_order, i) {
            Err(error) => {
                proof {
                    lemma_children_refused(parent@, models, here + 1, in_order.len() as int);
                }
                return Err(error);
            },
            Ok(child) => children.push(child),
        }
        i += 1;
    }
    Ok(children)
}

fn canonical_children<'a>(
    parent: &ValidatedHarnessRevision,
    inputs: &Vec<CompositionInput<'a>>,
) -> (r: Result<(Vec<CompositionInput<'a>>, Vec<CompositionChild>), CompositionError>)
    ensures
        match (r, canonical_lineage(parent@, input_models(inputs@))) {
            (Ok((in_order, children)), Ok(expected)) => children@ == expected && input_models(
                in_order@,
            ) == inputs_in_order(input_models(inputs@)),
            (Err(error), Err(expected)) => error == expected,
            _ => false,
        },
{
    if inputs.len() < 2 {
        return Err(CompositionError::TooFewCandidates);
    }
    let in_order = arrange_inputs(inputs);
    match collect_children(parent, &in_order) {
        Err(error) => Err(error),
        Ok(children) => Ok((in_order, children)),
    }
}

/// The composed field that a dimension is.
pub open spec fn field_of(dimension: DiversityDimension) -> CompositeField {
    match dimension {
        DiversityDimension::Budgets => CompositeField::Budgets,
        DiversityDimension::Instructions => CompositeField::Instructions,
        DiversityDimension::RecoveryReminders => CompositeField::RecoveryReminders,
        DiversityDimension::Skills => CompositeField::Skills,
        DiversityDimension::SubagentRoles => CompositeField::SubagentRoles,
        DiversityDimension::Verifier => CompositeField::Verifier,
    }
}

fn composite_field(dimension: DiversityDimension) -> (r: CompositeField)
    ensures
        r == field_of(dimension),
{
    match dimension {
        DiversityDimension::Budgets => CompositeField::Budgets,
        DiversityDimension::Instructions => CompositeField::Instructions,
        DiversityDimension::RecoveryReminders => CompositeField::RecoveryReminders,
        DiversityDimension::Skills => CompositeField::Skills,
        DiversityDimension::SubagentRoles => CompositeField::SubagentRoles,
        DiversityDimension::Verifier => CompositeField::Verifier,
    }
}

/// The candidates that the fields of a merged patch come from.
#[derive(Clone, Copy, Debug, PartialEq, Eq, Structural)]
pub struct FieldOwners {
    pub budgets: Option<CandidateId>,
    pub instructions: Option<CandidateId>,
    pub recovery_reminders: Option<CandidateId>,
    pub skills: Option<CandidateId>,
    pub subagent_roles: Option<CandidateId>,
    pub verifier: Option<CandidateId>,
}

impl FieldOwners {
    pub open spec fn owner(self, dimension: DiversityDimension) -> Option<CandidateId> {
        match dimension {
            DiversityDimension::Budgets => self.budgets,
            DiversityDimension::Instructions => self.instructions,
            DiversityDimension::RecoveryReminders => self.recovery_reminders,
            DiversityDimension::Skills => self.skills,
            DiversityDimension::SubagentRoles => self.subagent_roles,
            DiversityDimension::Verifier => self.verifier,
        }
    }

    fn get(&self, dimension: DiversityDimension) -> (r: Option<CandidateId>)
        ensures
            r == self.owner(dimension),
    {
        match dimension {
            DiversityDimension::Budgets => self.budgets,
            DiversityDimension::Instructions => self.instructions,
            DiversityDimension::RecoveryReminders => self.recovery_reminders,
            DiversityDimension::Skills => self.skills,
            DiversityDimension::SubagentRoles => self.subagent_roles,
            DiversityDimension::Verifier => self.verifier,
        }
    }
}

/// A patch that is merged from several.
struct Merged {
    fields: ProviderManifestPatch,
    patch: ManifestPatch,
    owners: FieldOwners,
}

/// What a merged patch says.
#[verifier::ext_equal]
pub struct MergedModel {
    pub fields: FieldsModel,
    pub patch: PatchModel,
    pub owners: FieldOwners,
}

/// The merge of no patches.
pub open spec fn nothing_merged() -> MergedModel {
    MergedModel {
        fields: FieldsModel { budgets: None, instructions: None, recovery_reminders: None, skills: None, subagent_roles: None, verifier: None },
        patch: PatchModel { budgets: None, instructions: None, recovery_reminders: None, skills: None, subagent_roles: None, verifier: None },
        owners: FieldOwners { budgets: None, instructions: None, recovery_reminders: None, skills: None, subagent_roles: None, verifier: None },
    }
}

/// What a field is after a patch is merged: the first patch that has the field gives it.
pub open spec fn kept<T>(
    merged: Option<JsonModel>,
    added: Option<JsonModel>,
    current: Option<T>,
    next: Option<T>,
) -> Option<T> {
    if merged is None && added is Some {
        next
    } else {
        current
    }
}

impl MergedModel {
    pub open spec fn with(self, input: InputModel) -> MergedModel {
        let m = self.fields;
        let a = input.proposal.fields;
        let p = input.proposal.patch;
        MergedModel {
            fields: FieldsModel {
                budgets: kept(m.budgets, a.budgets, m.budgets, a.budgets),
                instructions: kept(m.instructions, a.instructions, m.instructions, a.instructions),
                recovery_reminders: kept(m.recovery_reminders, a.recovery_reminders, m.recovery_reminders, a.recovery_reminders),
                skills: kept(m.skills, a.skills, m.skills, a.skills),
                subagent_roles: kept(m.subagent_roles, a.subagent_roles, m.subagent_roles, a.subagent_roles),
                verifier: kept(m.verifier, a.verifier, m.verifier, a.verifier),
            },
            patch: PatchModel {
                budgets: kept(m.budgets, a.budgets, self.patch.budgets, p.budgets),
                instructions: kept(m.instructions, a.instructions, self.patch.instructions, p.instructions),
                recovery_reminders: kept(m.recovery_reminders, a.recovery_reminders, self.patch.recovery_reminders, p.recovery_reminders),
                skills: kept(m.skills, a.skills, self.patch.skills, p.skills),
                subagent_roles: kept(m.subagent_roles, a.subagent_roles, self.patch.subagent_roles, p.subagent_roles),
                verifier: kept(m.verifier, a.verifier, self.patch.verifier, p.verifier),
            },
            owners: FieldOwners {
                budgets: kept(m.budgets, a.budgets, self.owners.budgets, Some(input.candidate)),
                instructions: kept(m.instructions, a.instructions, self.owners.instructions, Some(input.candidate)),
                recovery_reminders: kept(m.recovery_reminders, a.recovery_reminders, self.owners.recovery_reminders, Some(input.candidate)),
                skills: kept(m.skills, a.skills, self.owners.skills, Some(input.candidate)),
                subagent_roles: kept(m.subagent_roles, a.subagent_roles, self.owners.subagent_roles, Some(input.candidate)),
                verifier: kept(m.verifier, a.verifier, self.owners.verifier, Some(input.candidate)),
            },
        }
    }

    /// The conflict of an input with what is merged, in one dimension.
    pub open spec fn conflict(self, input: InputModel, i: int) -> Option<CompositionError> {
        let dimension = dimension_at(i);
        match (
            self.fields.field(dimension),
            input.proposal.fields.field(dimension),
            self.owners.owner(dimension),
        ) {
            (Some(existing), Some(value), Some(owner)) => if !alike(existing, value) {
                Some(
                    CompositionError::FieldConflict {
                        field: field_of(dimension),
                        first: owner,
                        second: input.candidate,
                    },
                )
            } else {
                None
            },
            _ => None,
        }
    }
}

pub open spec fn conflicts(merged: MergedModel, input: InputModel) -> spec_fn(int) -> Option<
    CompositionError,
> {
    |i: int| merged.conflict(input, i)
}

/// The merge of the first `n` patches, or the first conflict.
pub open spec fn merge_of(inputs: Seq<InputModel>, n: int) -> Result<MergedModel, CompositionError>
    decreases n,
{
    if n <= 0 {
        Ok(nothing_merged())
    } else {
        match merge_of(inputs, n - 1) {
            Err(error) => Err(error),
            Ok(merged) => match first_some(conflicts(merged, inputs[n - 1]), 6) {
                Some(error) => Err(error),
                None => Ok(merged.with(inputs[n - 1])),
            },
        }
    }
}

proof fn lemma_merge_refused(inputs: Seq<InputModel>, at: int, n: int)
    requires
        at <= n,
        merge_of(inputs, at) is Err,
    ensures
        merge_of(inputs, n) == merge_of(inputs, at),
    decreases n,
{
    if at < n {
        lemma_merge_refused(inputs, at, n - 1);
    }
}

impl Merged {
    spec fn model(self) -> MergedModel {
        MergedModel { fields: self.fields@, patch: self.patch@, owners: self.owners }
    }

    fn new() -> (r: Self)
        ensures
            r.model() == nothing_merged(),
    {
        Merged {
            fields: ProviderManifestPatch { budgets: None, instructions: None, recovery_reminders: None, skills: None, subagent_roles: None, verifier: None },
            patch: ManifestPatch { budgets: None, instructions: None, recovery_reminders: None, skills: None, subagent_roles: None, verifier: None },
            owners: FieldOwners { budgets: None, instructions: None, recovery_reminders: None, skills: None, subagent_roles: None, verifier: None },
        }
    }

    fn check(&self, input: CompositionInput<'_>) -> (r: Result<(), CompositionError>)
        ensures
            r == refused(first_some(conflicts(self.model(), input@), 6)),
    {
        let ghost found = conflicts(self.model(), input@);
        let mut i: usize = 0;
        while i < 6
            invariant
                i <= 6,
                found == conflicts(self.model(), input@),
                first_some(found, i as int) is None,
            decreases 6 - i,
        {
            let dimension = nth_dimension(i);
            assert(found(i as int) == self.model().conflict(input@, i as int));
            match (
                self.fields.field(dimension),
                input.proposal.fields().field(dimension),
                self.owners.get(dimension),
            ) {
                (Some(existing), Some(value), Some(owner)) => {
                    if !existing.same(value) {
                        proof {
                            lemma_first_some_at(found, i as int, 6);
                        }
                        return Err(
                            CompositionError::FieldConflict {
                                field: composite_field(dimension),
                                first: owner,
                                second: input.candidate,
                            },
                        );
                    }
                },
                _ => {},
            }
            i += 1;
        }
        Ok(())
    }

    fn take(self, input: CompositionInput<'_>) -> (r: Self)
        ensures
            r.model() == self.model().with(input@),
    {
        let added = input.proposal.fields().copy();
        let next = input.proposal.patch().copy();
        let m = self.fields;
        let p = self.patch;
        let w = self.owners;
        let c = Some(input.candidate);
        let take_budgets = m.budgets.is_none() && added.budgets.is_some();
        let take_instructions = m.instructions.is_none() && added.instructions.is_some();
        let take_recovery_reminders = m.recovery_reminders.is_none() && added.recovery_reminders.is_some();
        let take_skills = m.skills.is_none() && added.skills.is_some();
        let take_subagent_roles = m.subagent_roles.is_none() && added.subagent_roles.is_some();
        let take_verifier = m.verifier.is_none() && added.verifier.is_some();
        Merged {
            fields: ProviderManifestPatch {
                budgets: if take_budgets {
                    added.budgets
                } else {
                    m.budgets
                },
                instructions: if take_instructions {
                    added.instructions
                } else {
                    m.instructions
                },
                recovery_reminders: if take_recovery_reminders {
                    added.recovery_reminders
                } else {
                    m.recovery_reminders
                },
                skills: if take_skills {
                    added.skills
                } else {
                    m.skills
                },
                subagent_roles: if take_subagent_roles {
                    added.subagent_roles
                } else {
                    m.subagent_roles
                },
                verifier: if take_verifier {
                    added.verifier
                } else {
                    m.verifier
                },
            },
            patch: ManifestPatch {
                budgets: if take_budgets {
                    next.budgets
                } else {
                    p.budgets
                },
                instructions: if take_instructions {
                    next.instructions
                } else {
                    p.instructions
                },
                recovery_reminders: if take_recovery_reminders {
                    next.recovery_reminders
                } else {
                    p.recovery_reminders
                },
                skills: if take_skills {
                    next.skills
                } else {
                    p.skills
                },
                subagent_roles: if take_subagent_roles {
                    next.subagent_roles
                } else {
                    p.subagent_roles
                },
                verifier: if take_verifier {
                    next.verifier
                } else {
                    p.verifier
                },
            },
            owners: FieldOwners {
                budgets: if take_budgets {
                    c
                } else {
                    w.budgets
                },
                instructions: if take_instructions {
                    c
                } else {
                    w.instructions
                },
                recovery_reminders: if take_recovery_reminders {
                    c
                } else {
                    w.recovery_reminders
                },
                skills: if take_skills {
                    c
                } else {
                    w.skills
                },
                subagent_roles: if take_subagent_roles {
                    c
                } else {
                    w.subagent_roles
                },
                verifier: if take_verifier {
                    c
                } else {
                    w.verifier
                },
            },
        }
    }
}

fn merge_patches(inputs: &Vec<CompositionInput<'_>>) -> (r: Result<Merged, CompositionError>)
    ensures
        match (r, merge_of(input_models(inputs@), inputs.len() as int)) {
            (Ok(merged), Ok(expected)) => merged.model() == expected,
            (Err(error), Err(expected)) => error == expected,
            _ => false,
        },
{
    let ghost models = input_models(inputs@);
    let mut merged = Merged::new();
    let mut i: usize = 0;
    while i < inputs.len()
        invariant
            i <= inputs.len(),
            models == input_models(inputs@),
            merge_of(models, i as int) == Ok::<MergedModel, CompositionError>(merged.model()),
        decreases inputs.len() - i,
    {
        assert(models[i as int] == inputs@[i as int]@);
        match merged.check(inputs[i]) {
            Err(error) => {
                proof {
                    lemma_merge_refused(models, i as int + 1, inputs.len() as int);
                }
                return Err(error);
            },
            Ok(()) => {},
        }
        merged = merged.take(inputs[i]);
        i += 1;
    }
    Ok(merged)
}

/// Several candidates merged into one harness.
pub struct ComposedHarness {
    plan: CompositePlan,
    canonical_patch: String,
    revision: ValidatedHarnessRevision,
}

/// What a composed harness says.
#[verifier::ext_equal]
pub struct ComposedModel {
    pub plan: PlanModel,
    pub canonical_patch: Seq<char>,
    pub revision: RevisionModel,
}

impl View for ComposedHarness {
    type V = ComposedModel;

    closed spec fn view(&self) -> ComposedModel {
        ComposedModel {
            plan: self.plan@,
            canonical_patch: self.canonical_patch@,
            revision: self.revision@,
        }
    }
}

impl ComposedHarness {
    pub fn plan(&self) -> (r: &CompositePlan)
        ensures
            r@ == self@.plan,
    {
        &self.plan
    }

    pub fn canonical_patch_bytes(&self) -> (r: &[u8])
        ensures
            r@ == encode_utf8(self@.canonical_patch),
    {
        self.canonical_patch.as_str().as_bytes()
    }

    pub fn revision(&self) -> (r: &ValidatedHarnessRevision)
        ensures
            r@ == self@.revision,
    {
        &self.revision
    }
}

/// A composition as it is recorded, with the identities that its lineage gives.
pub open spec fn plan_of(
    parent: Digest,
    children: Seq<CompositionChild>,
    patch: Digest,
    revision: Digest,
) -> PlanModel {
    let blank = PlanModel {
        schema_version: COMPOSITION_SCHEMA_VERSION,
        id: CompositionId(parent),
        candidate: CandidateId(parent),
        parent,
        children,
        patch,
        revision,
        fallback: CompositionFallback::KeepParent,
    };
    let id = CompositionId(digest_of_text(plan_json(blank)));
    PlanModel { id, candidate: composed_candidate(id), ..blank }
}

/// A failed composition as it is recorded, with the identities that its lineage gives.
pub open spec fn failure_of(
    parent: Digest,
    children: Seq<CompositionChild>,
    reason: CompositionFailureReason,
) -> FailureModel {
    let blank = FailureModel {
        schema_version: COMPOSITION_SCHEMA_VERSION,
        id: CompositionId(parent),
        candidate: CandidateId(parent),
        parent,
        children,
        reason,
        fallback: CompositionFallback::KeepParent,
    };
    let id = CompositionId(digest_of_text(failure_json(blank)));
    FailureModel { id, candidate: composed_candidate(id), ..blank }
}

/// What the composition of several candidates comes to.
pub open spec fn composed(parent: RevisionModel, inputs: Seq<InputModel>) -> Result<
    ComposedModel,
    CompositionError,
> {
    match canonical_lineage(parent, inputs) {
        Err(error) => Err(error),
        Ok(children) => match merge_of(inputs_in_order(inputs), inputs.len() as int) {
            Err(error) => Err(error),
            Ok(merged) => {
                let canonical = merged.fields.canonical();
                match applied_patch(parent, canonical, merged.patch) {
                    Err(error) => Err(CompositionError::Manifest(error)),
                    Ok(revision) => Ok(
                        ComposedModel {
                            plan: plan_of(
                                revision_id(parent),
                                children,
                                digest_of_text(canonical),
                                revision_id(revision),
                            ),
                            canonical_patch: canonical,
                            revision,
                        },
                    ),
                }
            },
        },
    }
}

/// The children of a lineage are in canonical order, each with a proposal of its own.
proof fn lemma_lineage_is_canonical(parent: RevisionModel, inputs: Seq<InputModel>)
    requires
        canonical_lineage(parent, inputs) is Ok,
    ensures
        children_problem(canonical_lineage(parent, inputs)->Ok_0) is None,
{
    reveal(child_of);
    let in_order = inputs_in_order(inputs);
    let n = inputs.len() as int;
    let keys = inputs.map_values(input_key());
    lemma_sorted_indexes(keys, n);
    lemma_children(parent, in_order, n);
    let children = canonical_lineage(parent, inputs)->Ok_0;
    lemma_sorted_weakly(keys, n);
    assert forall|i: int| 0 <= i < n implies (#[trigger] child_check(children)(i)) is None by {
        assert(child_of(parent, in_order, i) == Ok::<CompositionChild, CompositionError>(
            children[i],
        ));
        if i > 0 {
            assert(child_of(parent, in_order, i - 1) == Ok::<CompositionChild, CompositionError>(
                children[i - 1],
            ));
            let order = sorted(keys, n);
            assert(!keys[order[i]].comes_before(keys[order[i - 1]]));
            assert(in_order[i] == inputs[order[i]]);
            assert(in_order[i - 1] == inputs[order[i - 1]]);
            assert(!candidate_before(in_order, i));
            assert(in_order[i - 1].candidate != in_order[i].candidate);
            lemma_precedes_total(in_order[i - 1].candidate.0, in_order[i].candidate.0);
        }
        assert forall|j: int| 0 <= j < i implies (#[trigger] children[j]).proposal
            != children[i].proposal by {
            assert(child_of(parent, in_order, j) == Ok::<CompositionChild, CompositionError>(
                children[j],
            ));
            assert(in_order[j].proposal.id == children[j].proposal);
            assert(!proposal_before(in_order, i));
        }
        assert(child_problem(children, i) is None);
    }
    lemma_first_some_none(child_check(children), n);
}

pub(crate) proof fn lemma_children(parent: RevisionModel, inputs: Seq<InputModel>, n: int)
    requires
        0 <= n,
        children_of(parent, inputs, n) is Ok,
    ensures
        children_of(parent, inputs, n)->Ok_0.len() == n,
        forall|i: int|
            0 <= i < n ==> #[trigger] child_of(parent, inputs, i) == Ok::<
                CompositionChild,
                CompositionError,
            >(children_of(parent, inputs, n)->Ok_0[i]),
    decreases n,
{
    if n > 0 {
        lemma_children(parent, inputs, n - 1);
    }
}

/// Merges several candidates: fields that only one of them replaces, or that all replace
/// with the same value.
pub fn compose_candidates(
    parent: &ValidatedHarnessRevision,
    inputs: Vec<CompositionInput<'_>>,
) -> (r: Result<ComposedHarness, CompositionError>)
    ensures
        match (r, composed(parent@, input_models(inputs@))) {
            (Ok(harness), Ok(expected)) => harness@ == expected,
            (Err(error), Err(expected)) => error == expected,
            _ => false,
        },
{
    let (in_order, children) = match canonical_children(parent, &inputs) {
        Err(error) => return Err(error),
        Ok(lineage) => lineage,
    };
    assert(in_order.len() == inputs.len()) by {
        assert(input_models(in_order@).len() == in_order.len());
        let keys = input_models(inputs@).map_values(input_key());
        lemma_sorted_indexes(keys, keys.len() as int);
    }
    let merged = match merge_patches(&in_order) {
        Err(error) => return Err(error),
        Ok(merged) => merged,
    };
    let canonical_patch = merged.fields.canonical();
    let revision = match parent.apply_patch_json(
        canonical_patch.as_str().as_bytes(),
        Some(merged.patch),
    ) {
        Err(error) => return Err(CompositionError::Manifest(error)),
        Ok(revision) => revision,
    };
    let parent_digest = parent.digest();
    let mut plan = CompositePlan {
        schema_version: COMPOSITION_SCHEMA_VERSION,
        id: CompositionId(parent_digest),
        candidate: CandidateId(parent_digest),
        parent: parent_digest,
        children,
        patch: Digest::of_text(canonical_patch.as_str()),
        revision: revision.digest(),
        fallback: CompositionFallback::KeepParent,
    };
    let id = plan.lineage_id();
    plan.id = id;
    plan.candidate = composite_candidate(id);
    Ok(ComposedHarness { plan, canonical_patch, revision })
}

impl CompositionFailure {
    /// The record of a composition that failed for a reason.
    pub fn from_inputs(
        parent: &ValidatedHarnessRevision,
        inputs: Vec<CompositionInput<'_>>,
        reason: CompositionFailureReason,
    ) -> (r: Result<Self, CompositionError>)
        ensures
            match (r, canonical_lineage(parent@, input_models(inputs@))) {
                (Ok(failure), Ok(children)) => failure@ == failure_of(
                    revision_id(parent@),
                    children,
                    reason,
                ),
                (Err(error), Err(expected)) => error == expected,
                _ => false,
            },
    {
        let (in_order, children) = match canonical_children(parent, &inputs) {
            Err(error) => return Err(error),
            Ok(lineage) => lineage,
        };
        let parent_digest = parent.digest();
        let mut failure = CompositionFailure {
            schema_version: COMPOSITION_SCHEMA_VERSION,
            id: CompositionId(parent_digest),
            candidate: CandidateId(parent_digest),
            parent: parent_digest,
            children,
            reason,
            fallback: CompositionFallback::KeepParent,
        };
        let id = failure.lineage_id();
        failure.id = id;
        failure.candidate = composite_candidate(id);
        Ok(failure)
    }
}

/// What a verified composition ended in.
pub enum VerifiedComposition {
    Composed(Box<ComposedHarness>),
    FellBack(CompositionFailure),
}

/// Every composition that succeeds is recorded consistently: its children are in order and
/// its identities follow from its lineage.
pub proof fn law_composed_plans_are_consistent(parent: RevisionModel, inputs: Seq<InputModel>)
    requires
        composed(parent, inputs) is Ok,
    ensures
        plan_problem(composed(parent, inputs)->Ok_0.plan) is None,
{
    lemma_lineage_is_canonical(parent, inputs);
}

/// Every failure that is recorded is recorded consistently.
pub proof fn law_recorded_failures_are_consistent(
    parent: RevisionModel,
    inputs: Seq<InputModel>,
    reason: CompositionFailureReason,
)
    requires
        canonical_lineage(parent, inputs) is Ok,
    ensures
        failure_problem(
            failure_of(revision_id(parent), canonical_lineage(parent, inputs)->Ok_0, reason),
        ) is None,
{
    lemma_lineage_is_canonical(parent, inputs);
}

/// A composition does not depend on the order in which its candidates are given.
pub proof fn law_compositions_do_not_depend_on_order(
    parent: RevisionModel,
    inputs: Seq<InputModel>,
    rearranged: Seq<InputModel>,
)
    requires
        inputs.to_multiset() == rearranged.to_multiset(),
        inputs.map_values(input_key()).no_duplicates(),
    ensures
        composed(parent, inputs) == composed(parent, rearranged),
{
    inputs.to_multiset_ensures();
    rearranged.to_multiset_ensures();
    lemma_arranged_is_order_free(inputs, rearranged, input_key());
}

/// Whether a child records an input.
pub open spec fn records(child: CompositionChild, input: InputModel) -> bool {
    child.candidate == input.candidate && child.proposal == input.proposal.id && child.score
        == input.score
}

/// Whether one of some children records an input.
#[verifier::opaque]
pub open spec fn is_recorded(children: Seq<CompositionChild>, input: InputModel) -> bool {
    exists|i: int| 0 <= i < children.len() && records(#[trigger] children[i], input)
}

/// Whether a child records one of some inputs.
#[verifier::opaque]
pub open spec fn is_record(child: CompositionChild, inputs: Seq<InputModel>) -> bool {
    exists|k: int| 0 <= k < inputs.len() && records(child, #[trigger] inputs[k])
}

proof fn lemma_children_record(parent: RevisionModel, inputs: Seq<InputModel>)
    requires
        canonical_lineage(parent, inputs) is Ok,
    ensures
        ({
            let children = canonical_lineage(parent, inputs)->Ok_0;
            &&& children.len() == inputs.len() >= 2
            &&& forall|k: int|
                0 <= k < inputs.len() ==> is_recorded(children, #[trigger] inputs[k])
            &&& forall|i: int|
                0 <= i < children.len() ==> is_record(#[trigger] children[i], inputs)
            &&& forall|i: int, j: int|
                0 <= i < j < children.len() ==> (#[trigger] children[i]).candidate.0.precedes(
                    (#[trigger] children[j]).candidate.0,
                ) && children[i].proposal != children[j].proposal
        }),
{
    let in_order = inputs_in_order(inputs);
    let n = inputs.len() as int;
    let keys = inputs.map_values(input_key());
    let order = sorted(keys, n);
    let children = canonical_lineage(parent, inputs)->Ok_0;
    lemma_sorted_indexes(keys, n);
    lemma_sorted_weakly(keys, n);
    lemma_children(parent, in_order, n);
    assert forall|i: int| 0 <= i < n implies records(#[trigger] children[i], inputs[order[i]])
        && !candidate_before(in_order, i) && !proposal_before(in_order, i) by {
        reveal(child_of);
        assert(child_of(parent, in_order, i) == Ok::<CompositionChild, CompositionError>(
            children[i],
        ));
        assert(in_order[i] == inputs[order[i]]);
    }
    assert forall|k: int| 0 <= k < inputs.len() implies is_recorded(
        children,
        #[trigger] inputs[k],
    ) by {
        reveal(is_recorded);
        lemma_sorted_holds(keys, n, k);
        let i = choose|i: int| 0 <= i < order.len() && order[i] == k;
        assert(records(children[i], inputs[k]));
    }
    assert forall|i: int| 0 <= i < children.len() implies is_record(
        #[trigger] children[i],
        inputs,
    ) by {
        reveal(is_record);
        assert(records(children[i], inputs[order[i]]));
    }
    assert forall|i: int, j: int| 0 <= i < j < children.len() implies (
    #[trigger] children[i]).candidate.0.precedes((#[trigger] children[j]).candidate.0)
        && children[i].proposal != children[j].proposal by {
        assert(in_order[i] == inputs[order[i]] && in_order[j] == inputs[order[j]]);
        assert(records(children[i], inputs[order[i]]) && records(children[j], inputs[order[j]]));
        assert(!candidate_before(in_order, j) && !proposal_before(in_order, j));
        assert(in_order[i].candidate != in_order[j].candidate);
        assert(in_order[i].proposal.id != in_order[j].proposal.id);
        assert(!keys[order[j]].comes_before(keys[order[i]]));
        lemma_precedes_total(in_order[i].candidate.0, in_order[j].candidate.0);
    }
}

/// Whether two fields are set to the same value.
pub open spec fn agree(a: Option<JsonModel>, b: Option<JsonModel>) -> bool {
    match (a, b) {
        (Some(x), Some(y)) => alike(x, y),
        _ => false,
    }
}

pub(crate) proof fn lemma_merge_keeps_fields(
    inputs: Seq<InputModel>,
    n: int,
    dimension: DiversityDimension,
)
    requires
        0 <= n,
        merge_of(inputs, n) is Ok,
    ensures
        ({
            let merged = merge_of(inputs, n)->Ok_0;
            &&& merged.fields.field(dimension) is Some <==> merged.owners.owner(dimension) is Some
            &&& forall|i: int|
                0 <= i < n && (#[trigger] inputs[i]).proposal.fields.field(dimension) is Some
                    ==> agree(
                    inputs[i].proposal.fields.field(dimension),
                    merged.fields.field(dimension),
                )
        }),
    decreases n,
{
    if n > 0 {
        lemma_merge_keeps_fields(inputs, n - 1, dimension);
        let before = merge_of(inputs, n - 1)->Ok_0;
        let merged = merge_of(inputs, n)->Ok_0;
        let input = inputs[n - 1];
        let found = conflicts(before, input);
        lemma_first_some_none(found, 6);
        let d: int = match dimension {
            DiversityDimension::Budgets => 0,
            DiversityDimension::Instructions => 1,
            DiversityDimension::RecoveryReminders => 2,
            DiversityDimension::Skills => 3,
            DiversityDimension::SubagentRoles => 4,
            DiversityDimension::Verifier => 5,
        };
        assert(dimension_at(d) == dimension);
        assert(found(d) is None);
        assert(before.conflict(input, d) is None);
    }
}

proof fn lemma_fields_agree(
    inputs: Seq<InputModel>,
    j: int,
    k: int,
    dimension: DiversityDimension,
)
    requires
        merge_of(inputs_in_order(inputs), inputs.len() as int) is Ok,
        0 <= j < inputs.len(),
        0 <= k < inputs.len(),
        inputs[j].proposal.fields.field(dimension) is Some,
        inputs[k].proposal.fields.field(dimension) is Some,
    ensures
        agree(
            inputs[j].proposal.fields.field(dimension),
            inputs[k].proposal.fields.field(dimension),
        ),
{
    let in_order = inputs_in_order(inputs);
    let n = inputs.len() as int;
    let keys = inputs.map_values(input_key());
    let order = sorted(keys, n);
    lemma_sorted_indexes(keys, n);
    lemma_merge_keeps_fields(in_order, n, dimension);
    lemma_sorted_holds(keys, n, j);
    lemma_sorted_holds(keys, n, k);
    let a = choose|a: int| 0 <= a < order.len() && order[a] == j;
    let b = choose|b: int| 0 <= b < order.len() && order[b] == k;
    assert(in_order[a] == inputs[j] && in_order[b] == inputs[k]);
}

pub(crate) proof fn lemma_composed(parent: RevisionModel, inputs: Seq<InputModel>)
    requires
        composed(parent, inputs) is Ok,
    ensures
        canonical_lineage(parent, inputs) is Ok,
        merge_of(inputs_in_order(inputs), inputs.len() as int) is Ok,
        ({
            let harness = composed(parent, inputs)->Ok_0;
            &&& harness.plan.children == canonical_lineage(parent, inputs)->Ok_0
            &&& harness.plan.parent == revision_id(parent)
            &&& harness.revision.parent == revision_id(parent)
            &&& harness.plan.revision == revision_id(harness.revision)
            &&& harness.plan.patch == digest_of_text(harness.canonical_patch)
        }),
{
}

/// A composition has one child for each of at least two inputs, in strictly ascending order
/// of candidates and with no proposal twice. Its plan and its revision name the parent, the
/// plan names the revision, and no two inputs set one field differently.
pub proof fn law_compositions_record_their_inputs(
    parent: RevisionModel,
    inputs: Seq<InputModel>,
)
    requires
        composed(parent, inputs) is Ok,
    ensures
        ({
            let harness = composed(parent, inputs)->Ok_0;
            let children = harness.plan.children;
            &&& children.len() == inputs.len() >= 2
            &&& forall|k: int|
                0 <= k < inputs.len() ==> is_recorded(children, #[trigger] inputs[k])
            &&& forall|i: int|
                0 <= i < children.len() ==> is_record(#[trigger] children[i], inputs)
            &&& forall|i: int, j: int|
                0 <= i < j < children.len() ==> (#[trigger] children[i]).candidate.0.precedes(
                    (#[trigger] children[j]).candidate.0,
                ) && children[i].proposal != children[j].proposal
            &&& harness.plan.parent == revision_id(parent)
            &&& harness.revision.parent == revision_id(parent)
            &&& harness.plan.revision == revision_id(harness.revision)
            &&& harness.plan.patch == digest_of_text(harness.canonical_patch)
        }),
        forall|j: int, k: int, dimension: DiversityDimension|
            0 <= j < inputs.len() && 0 <= k < inputs.len() && (
            #[trigger] inputs[j].proposal.fields.field(dimension)) is Some && (
            #[trigger] inputs[k].proposal.fields.field(dimension)) is Some ==> agree(
                inputs[j].proposal.fields.field(dimension),
                inputs[k].proposal.fields.field(dimension),
            ),
{
    lemma_composed(parent, inputs);
    lemma_children_record(parent, inputs);
    assert forall|j: int, k: int, dimension: DiversityDimension|
        0 <= j < inputs.len() && 0 <= k < inputs.len() && (
        #[trigger] inputs[j].proposal.fields.field(dimension)) is Some && (
        #[trigger] inputs[k].proposal.fields.field(dimension)) is Some implies agree(
        inputs[j].proposal.fields.field(dimension),
        inputs[k].proposal.fields.field(dimension),
    ) by {
        lemma_fields_agree(inputs, j, k, dimension);
    }
}

} // verus!
