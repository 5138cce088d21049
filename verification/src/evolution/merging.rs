//! What a merge of patches makes of a behavior, dimension by dimension.
use crate::evolution::compose::{
    child_of, children_of, composed, conflicts, input_key, inputs_in_order,
    law_compositions_record_their_inputs, lemma_composed, lemma_merge_keeps_fields, merge_of,
    selected, InputModel,
};
use crate::evolution::composition::{CompositeField, CompositionError};
use crate::evolution::harness::{
    patched, revision_id, PatchModel, ReminderSet, ResourceBudgets, RevisionModel, SubagentRole,
    VerifierSchedule,
};
use crate::evolution::ids::CandidateId;
use crate::evolution::proposal::{dimension_at, DiversityDimension, FieldsModel};
use crate::first::first_some;
use crate::json::{alike, notation, JsonModel, MemberModel};
use crate::keyed::{lacks, lemma_lacking, lemma_nothing, lemma_pushed, under};
use crate::order::{lemma_sorted_holds, lemma_sorted_indexes, sorted};
use crate::text_map::Entry;
use vstd::prelude::*;

verus! {

/// Whether one setting is there exactly where it is noted.
pub open spec fn goes_with<T>(notes: Seq<Option<JsonModel>>, settings: Seq<Option<T>>) -> bool {
    &&& notes.len() == settings.len()
    &&& forall|k: int|
        0 <= k < settings.len() ==> (notes[k] is Some <==> (#[trigger] settings[k]) is Some)
}

/// Whether settings that are noted alike are one.
pub open spec fn faithful<T>(notes: Seq<Option<JsonModel>>, settings: Seq<Option<T>>) -> bool {
    forall|j: int, k: int|
        0 <= j < settings.len() && 0 <= k < settings.len() && (#[trigger] settings[j]) is Some && (
        #[trigger] settings[k]) is Some && alike(notes[j]->0, notes[k]->0) ==> settings[j]
            == settings[k]
}

/// Whether a value is the one that is set: that of an input which sets it, that of all of
/// them where what is noted alike is one, and the earlier value where none sets it.
pub open spec fn settles<T>(
    notes: Seq<Option<JsonModel>>,
    settings: Seq<Option<T>>,
    before: T,
    after: T,
) -> bool {
    &&& (forall|k: int| 0 <= k < settings.len() ==> (#[trigger] settings[k]) is None) ==> after
        == before
    &&& (exists|k: int| 0 <= k < settings.len() && (#[trigger] settings[k]) is Some) ==> exists|
        k: int,
    |
        0 <= k < settings.len() && #[trigger] settings[k] == Some(after)
    &&& faithful(notes, settings) ==> forall|k: int|
        0 <= k < settings.len() && (#[trigger] settings[k]) is Some ==> settings[k] == Some(after)
}

/// The budgets that the patches of inputs set.
pub open spec fn budgets_set(inputs: Seq<InputModel>) -> Seq<Option<ResourceBudgets>> {
    inputs.map_values(|input: InputModel| input.proposal.patch.budgets)
}

/// The budgets as the patches of inputs note them.
pub open spec fn budgets_noted(inputs: Seq<InputModel>) -> Seq<Option<JsonModel>> {
    inputs.map_values(|input: InputModel| input.proposal.fields.budgets)
}

/// The instructions that the patches of inputs set.
pub open spec fn instructions_set(inputs: Seq<InputModel>) -> Seq<Option<Seq<char>>> {
    inputs.map_values(|input: InputModel| input.proposal.patch.instructions)
}

/// The instructions as the patches of inputs note them.
pub open spec fn instructions_noted(inputs: Seq<InputModel>) -> Seq<Option<JsonModel>> {
    inputs.map_values(|input: InputModel| input.proposal.fields.instructions)
}

/// The recovery reminders that the patches of inputs set.
pub open spec fn recovery_reminders_set(inputs: Seq<InputModel>) -> Seq<Option<ReminderSet>> {
    inputs.map_values(|input: InputModel| input.proposal.patch.recovery_reminders)
}

/// The recovery reminders as the patches of inputs note them.
pub open spec fn recovery_reminders_noted(inputs: Seq<InputModel>) -> Seq<Option<JsonModel>> {
    inputs.map_values(|input: InputModel| input.proposal.fields.recovery_reminders)
}

/// The skills that the patches of inputs set.
pub open spec fn skills_set(inputs: Seq<InputModel>) -> Seq<Option<Seq<Entry<String>>>> {
    inputs.map_values(|input: InputModel| input.proposal.patch.skills)
}

/// The skills as the patches of inputs note them.
pub open spec fn skills_noted(inputs: Seq<InputModel>) -> Seq<Option<JsonModel>> {
    inputs.map_values(|input: InputModel| input.proposal.fields.skills)
}

/// The subagent roles that the patches of inputs set.
pub open spec fn subagent_roles_set(inputs: Seq<InputModel>) -> Seq<Option<Seq<Entry<SubagentRole>>>> {
    inputs.map_values(|input: InputModel| input.proposal.patch.subagent_roles)
}

/// The subagent roles as the patches of inputs note them.
pub open spec fn subagent_roles_noted(inputs: Seq<InputModel>) -> Seq<Option<JsonModel>> {
    inputs.map_values(|input: InputModel| input.proposal.fields.subagent_roles)
}

/// The verifier that the patches of inputs set.
pub open spec fn verifier_set(inputs: Seq<InputModel>) -> Seq<Option<VerifierSchedule>> {
    inputs.map_values(|input: InputModel| input.proposal.patch.verifier)
}

/// The verifier as the patches of inputs note them.
pub open spec fn verifier_noted(inputs: Seq<InputModel>) -> Seq<Option<JsonModel>> {
    inputs.map_values(|input: InputModel| input.proposal.fields.verifier)
}

/// Whether the patches of inputs set what they note, in every dimension.
pub open spec fn read_as_noted(inputs: Seq<InputModel>) -> bool {
    &&& goes_with(budgets_noted(inputs), budgets_set(inputs))
    &&& goes_with(instructions_noted(inputs), instructions_set(inputs))
    &&& goes_with(recovery_reminders_noted(inputs), recovery_reminders_set(inputs))
    &&& goes_with(skills_noted(inputs), skills_set(inputs))
    &&& goes_with(subagent_roles_noted(inputs), subagent_roles_set(inputs))
    &&& goes_with(verifier_noted(inputs), verifier_set(inputs))
}

/// Whether a field and a setting are those of the first of `n` inputs that notes one.
spec fn first_noted<T>(
    notes: Seq<Option<JsonModel>>,
    settings: Seq<Option<T>>,
    n: int,
    note: Option<JsonModel>,
    setting: Option<T>,
) -> bool {
    if note is None {
        setting is None && forall|k: int| 0 <= k < n ==> (#[trigger] notes[k]) is None
    } else {
        exists|k: int|
            0 <= k < n && (#[trigger] notes[k]) is Some && note == notes[k] && setting
                == settings[k]
    }
}

proof fn lemma_merged(inputs: Seq<InputModel>, n: int)
    requires
        0 <= n <= inputs.len(),
        merge_of(inputs, n) is Ok,
    ensures
        ({
            let merged = merge_of(inputs, n)->Ok_0;
            &&& first_noted(budgets_noted(inputs), budgets_set(inputs), n, merged.fields.budgets, merged.patch.budgets)
            &&& first_noted(instructions_noted(inputs), instructions_set(inputs), n, merged.fields.instructions, merged.patch.instructions)
            &&& first_noted(recovery_reminders_noted(inputs), recovery_reminders_set(inputs), n, merged.fields.recovery_reminders, merged.patch.recovery_reminders)
            &&& first_noted(skills_noted(inputs), skills_set(inputs), n, merged.fields.skills, merged.patch.skills)
            &&& first_noted(subagent_roles_noted(inputs), subagent_roles_set(inputs), n, merged.fields.subagent_roles, merged.patch.subagent_roles)
            &&& first_noted(verifier_noted(inputs), verifier_set(inputs), n, merged.fields.verifier, merged.patch.verifier)
        }),
    decreases n,
{
    if n > 0 {
        lemma_merged(inputs, n - 1);
        let before = merge_of(inputs, n - 1)->Ok_0;
        let merged = merge_of(inputs, n)->Ok_0;
        assert(merged == before.with(inputs[n - 1]));
        assert(budgets_noted(inputs)[n - 1] == inputs[n - 1].proposal.fields.budgets);
        assert(budgets_set(inputs)[n - 1] == inputs[n - 1].proposal.patch.budgets);
        lemma_noted(
            budgets_noted(inputs),
            budgets_set(inputs),
            n,
            before.fields.budgets,
            before.patch.budgets,
            merged.fields.budgets,
            merged.patch.budgets,
        );
        assert(instructions_noted(inputs)[n - 1] == inputs[n - 1].proposal.fields.instructions);
        assert(instructions_set(inputs)[n - 1] == inputs[n - 1].proposal.patch.instructions);
        lemma_noted(
            instructions_noted(inputs),
            instructions_set(inputs),
            n,
            before.fields.instructions,
            before.patch.instructions,
            merged.fields.instructions,
            merged.patch.instructions,
        );
        assert(recovery_reminders_noted(inputs)[n - 1] == inputs[n - 1].proposal.fields.recovery_reminders);
        assert(recovery_reminders_set(inputs)[n - 1] == inputs[n - 1].proposal.patch.recovery_reminders);
        lemma_noted(
            recovery_reminders_noted(inputs),
            recovery_reminders_set(inputs),
            n,
            before.fields.recovery_reminders,
            before.patch.recovery_reminders,
            merged.fields.recovery_reminders,
            merged.patch.recovery_reminders,
        );
        assert(skills_noted(inputs)[n - 1] == inputs[n - 1].proposal.fields.skills);
        assert(skills_set(inputs)[n - 1] == inputs[n - 1].proposal.patch.skills);
        lemma_noted(
            skills_noted(inputs),
            skills_set(inputs),
            n,
            before.fields.skills,
            before.patch.skills,
            merged.fields.skills,
            merged.patch.skills,
        );
        assert(subagent_roles_noted(inputs)[n - 1] == inputs[n - 1].proposal.fields.subagent_roles);
        assert(subagent_roles_set(inputs)[n - 1] == inputs[n - 1].proposal.patch.subagent_roles);
        lemma_noted(
            subagent_roles_noted(inputs),
            subagent_roles_set(inputs),
            n,
            before.fields.subagent_roles,
            before.patch.subagent_roles,
            merged.fields.subagent_roles,
            merged.patch.subagent_roles,
        );
        assert(verifier_noted(inputs)[n - 1] == inputs[n - 1].proposal.fields.verifier);
        assert(verifier_set(inputs)[n - 1] == inputs[n - 1].proposal.patch.verifier);
        lemma_noted(
            verifier_noted(inputs),
            verifier_set(inputs),
            n,
            before.fields.verifier,
            before.patch.verifier,
            merged.fields.verifier,
            merged.patch.verifier,
        );
    }
}

proof fn lemma_noted<T>(
    notes: Seq<Option<JsonModel>>,
    settings: Seq<Option<T>>,
    n: int,
    note: Option<JsonModel>,
    setting: Option<T>,
    next_note: Option<JsonModel>,
    next_setting: Option<T>,
)
    requires
        0 < n,
        first_noted(notes, settings, n - 1, note, setting),
        note is None && notes[n - 1] is Some ==> next_note == notes[n - 1] && next_setting
            == settings[n - 1],
        note is Some || notes[n - 1] is None ==> next_note == note && next_setting == setting,
    ensures
        first_noted(notes, settings, n, next_note, next_setting),
{
    if note is Some {
        let k = choose|k: int|
            0 <= k < n - 1 && (#[trigger] notes[k]) is Some && note == notes[k] && setting
                == settings[k];
        assert(notes[k] is Some && next_note == notes[k]);
    }
}

proof fn lemma_settles<T>(
    notes: Seq<Option<JsonModel>>,
    settings: Seq<Option<T>>,
    ordered_notes: Seq<Option<JsonModel>>,
    ordered_settings: Seq<Option<T>>,
    order: Seq<int>,
    note: Option<JsonModel>,
    setting: Option<T>,
    before: T,
    after: T,
)
    requires
        goes_with(notes, settings),
        order.len() == settings.len() == ordered_notes.len() == ordered_settings.len(),
        forall|a: int| 0 <= a < order.len() ==> 0 <= #[trigger] order[a] < settings.len(),
        forall|k: int| 0 <= k < settings.len() ==> #[trigger] order.contains(k),
        forall|a: int|
            #![trigger ordered_notes[a]]
            #![trigger ordered_settings[a]]
            0 <= a < order.len() ==> ordered_notes[a] == notes[order[a]] && ordered_settings[a]
                == settings[order[a]],
        first_noted(ordered_notes, ordered_settings, order.len() as int, note, setting),
        forall|a: int|
            0 <= a < order.len() && (#[trigger] ordered_notes[a]) is Some ==> note is Some && alike(
                ordered_notes[a]->0,
                note->0,
            ),
        after == match setting {
            Some(value) => value,
            None => before,
        },
    ensures
        settles(notes, settings, before, after),
{
    let n = settings.len() as int;
    assert forall|k: int| 0 <= k < n && (#[trigger] settings[k]) is Some implies note is Some
        && alike(notes[k]->0, note->0) by {
        assert(order.contains(k));
        let a = choose|a: int| 0 <= a < order.len() && order[a] == k;
        assert(ordered_notes[a] == notes[k]);
    }
    if note is Some {
        let a = choose|a: int|
            0 <= a < n && (#[trigger] ordered_notes[a]) is Some && note == ordered_notes[a]
                && setting == ordered_settings[a];
        let f = order[a];
        assert(ordered_notes[a] == notes[f]);
        assert(settings[f] is Some && settings[f] == Some(after));
        if faithful(notes, settings) {
            assert forall|k: int| 0 <= k < n && (
            #[trigger] settings[k]) is Some implies settings[k] == Some(after) by {
                assert(alike(notes[k]->0, notes[f]->0));
            }
        }
    }
}

proof fn lemma_arrangement(inputs: Seq<InputModel>)
    ensures
        ({
            let keys = inputs.map_values(input_key());
            let order = sorted(keys, inputs.len() as int);
            let in_order = inputs_in_order(inputs);
            &&& order.len() == inputs.len() == in_order.len()
            &&& forall|a: int|
                0 <= a < order.len() ==> 0 <= #[trigger] order[a] < inputs.len()
            &&& forall|a: int|
                0 <= a < order.len() ==> #[trigger] in_order[a] == inputs[order[a]]
            &&& forall|k: int| 0 <= k < inputs.len() ==> #[trigger] order.contains(k)
        }),
{
    let keys = inputs.map_values(input_key());
    let n = inputs.len() as int;
    lemma_sorted_indexes(keys, n);
    assert forall|k: int| 0 <= k < inputs.len() implies #[trigger] sorted(keys, n).contains(k) by {
        lemma_sorted_holds(keys, n, k);
    }
}

proof fn lemma_budgets(parent: RevisionModel, inputs: Seq<InputModel>)
    requires
        composed(parent, inputs) is Ok,
        goes_with(budgets_noted(inputs), budgets_set(inputs)),
    ensures
        settles(
            budgets_noted(inputs),
            budgets_set(inputs),
            parent.behavior.budgets,
            composed(parent, inputs)->Ok_0.revision.behavior.budgets,
        ),
{
    let in_order = inputs_in_order(inputs);
    let n = inputs.len() as int;
    lemma_composed(parent, inputs);
    lemma_arrangement(inputs);
    lemma_merged(in_order, n);
    lemma_merge_keeps_fields(in_order, n, DiversityDimension::Budgets);
    let merged = merge_of(in_order, n)->Ok_0;
    assert forall|a: int| 0 <= a < n && (#[trigger] budgets_noted(in_order)[a]) is Some implies
        merged.fields.budgets is Some && alike(budgets_noted(in_order)[a]->0, merged.fields.budgets->0) by {
        assert(in_order[a].proposal.fields.field(DiversityDimension::Budgets) is Some);
    }
    lemma_settles(
        budgets_noted(inputs),
        budgets_set(inputs),
        budgets_noted(in_order),
        budgets_set(in_order),
        sorted(inputs.map_values(input_key()), n),
        merged.fields.budgets,
        merged.patch.budgets,
        parent.behavior.budgets,
        composed(parent, inputs)->Ok_0.revision.behavior.budgets,
    );
}

proof fn lemma_instructions(parent: RevisionModel, inputs: Seq<InputModel>)
    requires
        composed(parent, inputs) is Ok,
        goes_with(instructions_noted(inputs), instructions_set(inputs)),
    ensures
        settles(
            instructions_noted(inputs),
            instructions_set(inputs),
            parent.behavior.instructions,
            composed(parent, inputs)->Ok_0.revision.behavior.instructions,
        ),
{
    let in_order = inputs_in_order(inputs);
    let n = inputs.len() as int;
    lemma_composed(parent, inputs);
    lemma_arrangement(inputs);
    lemma_merged(in_order, n);
    lemma_merge_keeps_fields(in_order, n, DiversityDimension::Instructions);
    let merged = merge_of(in_order, n)->Ok_0;
    assert forall|a: int| 0 <= a < n && (#[trigger] instructions_noted(in_order)[a]) is Some implies
        merged.fields.instructions is Some && alike(instructions_noted(in_order)[a]->0, merged.fields.instructions->0) by {
        assert(in_order[a].proposal.fields.field(DiversityDimension::Instructions) is Some);
    }
    lemma_settles(
        instructions_noted(inputs),
        instructions_set(inputs),
        instructions_noted(in_order),
        instructions_set(in_order),
        sorted(inputs.map_values(input_key()), n),
        merged.fields.instructions,
        merged.patch.instructions,
        parent.behavior.instructions,
        composed(parent, inputs)->Ok_0.revision.behavior.instructions,
    );
}

proof fn lemma_recovery_reminders(parent: RevisionModel, inputs: Seq<InputModel>)
    requires
        composed(parent, inputs) is Ok,
        goes_with(recovery_reminders_noted(inputs), recovery_reminders_set(inputs)),
    ensures
        settles(
            recovery_reminders_noted(inputs),
            recovery_reminders_set(inputs),
            parent.behavior.recovery_reminders,
            composed(parent, inputs)->Ok_0.revision.behavior.recovery_reminders,
        ),
{
    let in_order = inputs_in_order(inputs);
    let n = inputs.len() as int;
    lemma_composed(parent, inputs);
    lemma_arrangement(inputs);
    lemma_merged(in_order, n);
    lemma_merge_keeps_fields(in_order, n, DiversityDimension::RecoveryReminders);
    let merged = merge_of(in_order, n)->Ok_0;
    assert forall|a: int| 0 <= a < n && (#[trigger] recovery_reminders_noted(in_order)[a]) is Some implies
        merged.fields.recovery_reminders is Some && alike(recovery_reminders_noted(in_order)[a]->0, merged.fields.recovery_reminders->0) by {
        assert(in_order[a].proposal.fields.field(DiversityDimension::RecoveryReminders) is Some);
    }
    lemma_settles(
        recovery_reminders_noted(inputs),
        recovery_reminders_set(inputs),
        recovery_reminders_noted(in_order),
        recovery_reminders_set(in_order),
        sorted(inputs.map_values(input_key()), n),
        merged.fields.recovery_reminders,
        merged.patch.recovery_reminders,
        parent.behavior.recovery_reminders,
        composed(parent, inputs)->Ok_0.revision.behavior.recovery_reminders,
    );
}

proof fn lemma_skills(parent: RevisionModel, inputs: Seq<InputModel>)
    requires
        composed(parent, inputs) is Ok,
        goes_with(skills_noted(inputs), skills_set(inputs)),
    ensures
        settles(
            skills_noted(inputs),
            skills_set(inputs),
            parent.behavior.skills,
            composed(parent, inputs)->Ok_0.revision.behavior.skills,
        ),
{
    let in_order = inputs_in_order(inputs);
    let n = inputs.len() as int;
    lemma_composed(parent, inputs);
    lemma_arrangement(inputs);
    lemma_merged(in_order, n);
    lemma_merge_keeps_fields(in_order, n, DiversityDimension::Skills);
    let merged = merge_of(in_order, n)->Ok_0;
    assert forall|a: int| 0 <= a < n && (#[trigger] skills_noted(in_order)[a]) is Some implies
        merged.fields.skills is Some && alike(skills_noted(in_order)[a]->0, merged.fields.skills->0) by {
        assert(in_order[a].proposal.fields.field(DiversityDimension::Skills) is Some);
    }
    lemma_settles(
        skills_noted(inputs),
        skills_set(inputs),
        skills_noted(in_order),
        skills_set(in_order),
        sorted(inputs.map_values(input_key()), n),
        merged.fields.skills,
        merged.patch.skills,
        parent.behavior.skills,
        composed(parent, inputs)->Ok_0.revision.behavior.skills,
    );
}

proof fn lemma_subagent_roles(parent: RevisionModel, inputs: Seq<InputModel>)
    requires
        composed(parent, inputs) is Ok,
        goes_with(subagent_roles_noted(inputs), subagent_roles_set(inputs)),
    ensures
        settles(
            subagent_roles_noted(inputs),
            subagent_roles_set(inputs),
            parent.behavior.subagent_roles,
            composed(parent, inputs)->Ok_0.revision.behavior.subagent_roles,
        ),
{
    let in_order = inputs_in_order(inputs);
    let n = inputs.len() as int;
    lemma_composed(parent, inputs);
    lemma_arrangement(inputs);
    lemma_merged(in_order, n);
    lemma_merge_keeps_fields(in_order, n, DiversityDimension::SubagentRoles);
    let merged = merge_of(in_order, n)->Ok_0;
    assert forall|a: int| 0 <= a < n && (#[trigger] subagent_roles_noted(in_order)[a]) is Some implies
        merged.fields.subagent_roles is Some && alike(subagent_roles_noted(in_order)[a]->0, merged.fields.subagent_roles->0) by {
        assert(in_order[a].proposal.fields.field(DiversityDimension::SubagentRoles) is Some);
    }
    lemma_settles(
        subagent_roles_noted(inputs),
        subagent_roles_set(inputs),
        subagent_roles_noted(in_order),
        subagent_roles_set(in_order),
        sorted(inputs.map_values(input_key()), n),
        merged.fields.subagent_roles,
        merged.patch.subagent_roles,
        parent.behavior.subagent_roles,
        composed(parent, inputs)->Ok_0.revision.behavior.subagent_roles,
    );
}

proof fn lemma_verifier(parent: RevisionModel, inputs: Seq<InputModel>)
    requires
        composed(parent, inputs) is Ok,
        goes_with(verifier_noted(inputs), verifier_set(inputs)),
    ensures
        settles(
            verifier_noted(inputs),
            verifier_set(inputs),
            parent.behavior.verifier,
            composed(parent, inputs)->Ok_0.revision.behavior.verifier,
        ),
{
    let in_order = inputs_in_order(inputs);
    let n = inputs.len() as int;
    lemma_composed(parent, inputs);
    lemma_arrangement(inputs);
    lemma_merged(in_order, n);
    lemma_merge_keeps_fields(in_order, n, DiversityDimension::Verifier);
    let merged = merge_of(in_order, n)->Ok_0;
    assert forall|a: int| 0 <= a < n && (#[trigger] verifier_noted(in_order)[a]) is Some implies
        merged.fields.verifier is Some && alike(verifier_noted(in_order)[a]->0, merged.fields.verifier->0) by {
        assert(in_order[a].proposal.fields.field(DiversityDimension::Verifier) is Some);
    }
    lemma_settles(
        verifier_noted(inputs),
        verifier_set(inputs),
        verifier_noted(in_order),
        verifier_set(in_order),
        sorted(inputs.map_values(input_key()), n),
        merged.fields.verifier,
        merged.patch.verifier,
        parent.behavior.verifier,
        composed(parent, inputs)->Ok_0.revision.behavior.verifier,
    );
}

/// A composition joins what its inputs set: in each dimension the composed behavior is what
/// the inputs that set the dimension set it to, and the parent's where none sets it.
pub proof fn law_compositions_join_what_their_inputs_set(
    parent: RevisionModel,
    inputs: Seq<InputModel>,
)
    requires
        composed(parent, inputs) is Ok,
        read_as_noted(inputs),
    ensures
        ({
            let before = parent.behavior;
            let after = composed(parent, inputs)->Ok_0.revision.behavior;
            &&& settles(budgets_noted(inputs), budgets_set(inputs), before.budgets, after.budgets)
            &&& settles(instructions_noted(inputs), instructions_set(inputs), before.instructions, after.instructions)
            &&& settles(recovery_reminders_noted(inputs), recovery_reminders_set(inputs), before.recovery_reminders, after.recovery_reminders)
            &&& settles(skills_noted(inputs), skills_set(inputs), before.skills, after.skills)
            &&& settles(subagent_roles_noted(inputs), subagent_roles_set(inputs), before.subagent_roles, after.subagent_roles)
            &&& settles(verifier_noted(inputs), verifier_set(inputs), before.verifier, after.verifier)
        }),
{
    lemma_budgets(parent, inputs);
    lemma_instructions(parent, inputs);
    lemma_recovery_reminders(parent, inputs);
    lemma_skills(parent, inputs);
    lemma_subagent_roles(parent, inputs);
    lemma_verifier(parent, inputs);
}

/// A patch replaces each dimension that it sets and keeps the others.
pub proof fn law_patches_replace_what_they_set(base: RevisionModel, patch: PatchModel)
    requires
        patched(base, patch) is Ok,
    ensures
        ({
            let before = base.behavior;
            let after = patched(base, patch)->Ok_0.behavior;
            &&& patch.budgets matches Some(value) ==> after.budgets == value
            &&& patch.budgets is None ==> after.budgets == before.budgets
            &&& patch.instructions matches Some(value) ==> after.instructions == value
            &&& patch.instructions is None ==> after.instructions == before.instructions
            &&& patch.recovery_reminders matches Some(value) ==> after.recovery_reminders == value
            &&& patch.recovery_reminders is None ==> after.recovery_reminders == before.recovery_reminders
            &&& patch.skills matches Some(value) ==> after.skills == value
            &&& patch.skills is None ==> after.skills == before.skills
            &&& patch.subagent_roles matches Some(value) ==> after.subagent_roles == value
            &&& patch.subagent_roles is None ==> after.subagent_roles == before.subagent_roles
            &&& patch.verifier matches Some(value) ==> after.verifier == value
            &&& patch.verifier is None ==> after.verifier == before.verifier
        }),
        patched(base, patch)->Ok_0.parent == revision_id(base),
{
}

/// A selected candidate runs the behavior of its own patch: each dimension that it sets, and
/// the parent's others. It is the revision that the candidate was proposed with.
pub proof fn law_selections_take_the_candidate(parent: RevisionModel, input: InputModel)
    requires
        selected(parent, input) is Ok,
    ensures
        ({
            let patch = input.proposal.patch;
            let before = parent.behavior;
            let after = selected(parent, input)->Ok_0.revision.behavior;
            &&& patch.budgets matches Some(value) ==> after.budgets == value
            &&& patch.budgets is None ==> after.budgets == before.budgets
            &&& patch.instructions matches Some(value) ==> after.instructions == value
            &&& patch.instructions is None ==> after.instructions == before.instructions
            &&& patch.recovery_reminders matches Some(value) ==> after.recovery_reminders == value
            &&& patch.recovery_reminders is None ==> after.recovery_reminders == before.recovery_reminders
            &&& patch.skills matches Some(value) ==> after.skills == value
            &&& patch.skills is None ==> after.skills == before.skills
            &&& patch.subagent_roles matches Some(value) ==> after.subagent_roles == value
            &&& patch.subagent_roles is None ==> after.subagent_roles == before.subagent_roles
            &&& patch.verifier matches Some(value) ==> after.verifier == value
            &&& patch.verifier is None ==> after.verifier == before.verifier
        }),
        selected(parent, input)->Ok_0.candidate == input.candidate,
        selected(parent, input)->Ok_0.revision.parent == revision_id(parent),
        revision_id(selected(parent, input)->Ok_0.revision) == revision_id(
            input.proposal.revision,
        ),
{
}

/// What the patch of an input notes of a field.
pub open spec fn note_of(input: InputModel, field: CompositeField) -> Option<JsonModel> {
    match field {
        CompositeField::Budgets => input.proposal.fields.budgets,
        CompositeField::Instructions => input.proposal.fields.instructions,
        CompositeField::RecoveryReminders => input.proposal.fields.recovery_reminders,
        CompositeField::Skills => input.proposal.fields.skills,
        CompositeField::SubagentRoles => input.proposal.fields.subagent_roles,
        CompositeField::Verifier => input.proposal.fields.verifier,
    }
}

/// Whether an input of a candidate notes a value for a field.
pub open spec fn notes_for(
    input: InputModel,
    candidate: CandidateId,
    field: CompositeField,
    value: JsonModel,
) -> bool {
    input.candidate == candidate && note_of(input, field) == Some(value)
}

/// Whether an input of the first candidate and one of the second note values for a field
/// that are not worth the same.
#[verifier::opaque]
pub open spec fn disagree(
    inputs: Seq<InputModel>,
    field: CompositeField,
    first: CandidateId,
    second: CandidateId,
) -> bool {
    exists|j: int, k: int, a: JsonModel, b: JsonModel|
        0 <= j < inputs.len() && 0 <= k < inputs.len() && #[trigger] notes_for(
            inputs[j],
            first,
            field,
            a,
        ) && #[trigger] notes_for(inputs[k], second, field, b) && !alike(a, b)
}

spec fn owned(
    inputs: Seq<InputModel>,
    n: int,
    dimension: DiversityDimension,
    owner: CandidateId,
    note: Option<JsonModel>,
) -> bool {
    exists|j: int|
        0 <= j < n && (#[trigger] inputs[j]).candidate == owner
            && inputs[j].proposal.fields.field(dimension) == note
}

proof fn lemma_owned(inputs: Seq<InputModel>, n: int, dimension: DiversityDimension)
    requires
        0 <= n <= inputs.len(),
        merge_of(inputs, n) is Ok,
    ensures
        merge_of(inputs, n)->Ok_0.owners.owner(dimension) matches Some(owner) ==> owned(
            inputs,
            n,
            dimension,
            owner,
            merge_of(inputs, n)->Ok_0.fields.field(dimension),
        ),
    decreases n,
{
    if n > 0 {
        lemma_owned(inputs, n - 1, dimension);
        lemma_merge_keeps_fields(inputs, n - 1, dimension);
        let before = merge_of(inputs, n - 1)->Ok_0;
        let merged = merge_of(inputs, n)->Ok_0;
        assert(merged == before.with(inputs[n - 1]));
        if let Some(owner) = merged.owners.owner(dimension) {
            if before.fields.field(dimension) is Some {
                let note = before.fields.field(dimension);
                assert(merged.fields.field(dimension) == note);
                assert(before.owners.owner(dimension) == Some(owner));
                let j = choose|j: int|
                    0 <= j < n - 1 && (#[trigger] inputs[j]).candidate == owner
                        && inputs[j].proposal.fields.field(dimension) == note;
                assert(inputs[j].candidate == owner);
            } else {
                assert(inputs[n - 1].candidate == owner);
                assert(inputs[n - 1].proposal.fields.field(dimension) == merged.fields.field(
                    dimension,
                ));
            }
        }
    }
}

proof fn lemma_some_finding<E>(finding: spec_fn(int) -> Option<E>, n: int, error: E)
    requires
        first_some(finding, n) == Some(error),
    ensures
        exists|i: int| 0 <= i < n && #[trigger] finding(i) == Some(error),
    decreases n,
{
    if n > 0 && first_some(finding, n - 1) is Some {
        lemma_some_finding(finding, n - 1, error);
    } else {
        assert(finding(n - 1) == Some(error));
    }
}

proof fn lemma_conflict(inputs: Seq<InputModel>, n: int)
    requires
        0 <= n <= inputs.len(),
        merge_of(inputs, n) is Err,
    ensures
        merge_of(inputs, n)->Err_0 matches CompositionError::FieldConflict {
            field,
            first,
            second,
        } && disagree(inputs, field, first, second),
    decreases n,
{
    reveal(disagree);
    if n > 0 {
        if merge_of(inputs, n - 1) is Err {
            lemma_conflict(inputs, n - 1);
        } else {
            let before = merge_of(inputs, n - 1)->Ok_0;
            let input = inputs[n - 1];
            let found = conflicts(before, input);
            let error = merge_of(inputs, n)->Err_0;
            lemma_some_finding(found, 6, error);
            let i = choose|i: int| 0 <= i < 6 && #[trigger] found(i) == Some(error);
            assert(before.conflict(input, i) == Some(error));
            let dimension = dimension_at(i);
            lemma_owned(inputs, n - 1, dimension);
            let owner = before.owners.owner(dimension)->0;
            let note = before.fields.field(dimension);
            let j = choose|j: int|
                0 <= j < n - 1 && (#[trigger] inputs[j]).candidate == owner
                    && inputs[j].proposal.fields.field(dimension) == note;
            let value = input.proposal.fields.field(dimension)->0;
            let field = error->FieldConflict_field;
            assert(notes_for(inputs[j], owner, field, note->0));
            assert(notes_for(inputs[n - 1], input.candidate, field, value));
        }
    }
}

proof fn lemma_no_conflict_of_children(parent: RevisionModel, inputs: Seq<InputModel>, n: int)
    requires
        children_of(parent, inputs, n) is Err,
    ensures
        !(children_of(parent, inputs, n)->Err_0 is FieldConflict),
    decreases n,
{
    reveal(child_of);
    if n > 0 && children_of(parent, inputs, n - 1) is Err {
        lemma_no_conflict_of_children(parent, inputs, n - 1);
    }
}

/// A composition is refused for a conflict only where two of its inputs set the named field
/// differently, and the refusal names their candidates. A composition that succeeds has no
/// such inputs.
pub proof fn law_conflicts_name_inputs_that_disagree(
    parent: RevisionModel,
    inputs: Seq<InputModel>,
)
    ensures
        composed(parent, inputs) matches Err(
            CompositionError::FieldConflict { field, first, second },
        ) ==> disagree(inputs, field, first, second),
        composed(parent, inputs) is Ok ==> forall|
            field: CompositeField,
            first: CandidateId,
            second: CandidateId,
        | !#[trigger] disagree(inputs, field, first, second),
{
    let in_order = inputs_in_order(inputs);
    let n = inputs.len() as int;
    lemma_arrangement(inputs);
    let order = sorted(inputs.map_values(input_key()), n);
    if composed(parent, inputs) is Err && composed(parent, inputs)->Err_0 is FieldConflict {
        if children_of(parent, in_order, n) is Err {
            lemma_no_conflict_of_children(parent, in_order, n);
        }
        lemma_conflict(in_order, n);
        let error = composed(parent, inputs)->Err_0;
        let field = error->FieldConflict_field;
        let first = error->FieldConflict_first;
        let second = error->FieldConflict_second;
        assert(disagree(in_order, field, first, second));
        assert(disagree(inputs, field, first, second)) by {
            reveal(disagree);
            let (j, k, a, b) = choose|j: int, k: int, a: JsonModel, b: JsonModel|
                0 <= j < in_order.len() && 0 <= k < in_order.len() && #[trigger] notes_for(
                    in_order[j],
                    first,
                    field,
                    a,
                ) && #[trigger] notes_for(in_order[k], second, field, b) && !alike(a, b);
            assert(in_order[j] == inputs[order[j]] && in_order[k] == inputs[order[k]]);
            assert(notes_for(inputs[order[j]], first, field, a));
            assert(notes_for(inputs[order[k]], second, field, b));
        }
    }
    if composed(parent, inputs) is Ok {
        assert forall|field: CompositeField, first: CandidateId, second: CandidateId|
            !#[trigger] disagree(inputs, field, first, second) by {
            if disagree(inputs, field, first, second) {
                reveal(disagree);
                let (j, k, a, b) = choose|j: int, k: int, a: JsonModel, b: JsonModel|
                    0 <= j < inputs.len() && 0 <= k < inputs.len() && #[trigger] notes_for(
                        inputs[j],
                        first,
                        field,
                        a,
                    ) && #[trigger] notes_for(inputs[k], second, field, b) && !alike(a, b);
                let dimension = match field {
                    CompositeField::Budgets => DiversityDimension::Budgets,
                    CompositeField::Instructions => DiversityDimension::Instructions,
                    CompositeField::RecoveryReminders => DiversityDimension::RecoveryReminders,
                    CompositeField::Skills => DiversityDimension::Skills,
                    CompositeField::SubagentRoles => DiversityDimension::SubagentRoles,
                    CompositeField::Verifier => DiversityDimension::Verifier,
                };
                law_compositions_record_their_inputs(parent, inputs);
                assert(inputs[j].proposal.fields.field(dimension) is Some);
                assert(inputs[k].proposal.fields.field(dimension) is Some);
            }
        }
    }
}

/// Whether a value stands under a key exactly where a field has it.
pub open spec fn noted_under(patch: JsonModel, key: Seq<char>, field: Option<JsonModel>) -> bool {
    forall|v: JsonModel| #[trigger] under(patch, key, v) <==> field == Some(v)
}

/// The canonical form of a patch notes each field that it sets under the name of the field,
/// and nothing else.
pub proof fn law_canonical_patches_note_their_fields(fields: FieldsModel)
    ensures
        ({
            let patch = JsonModel::Object(fields.members(6));
            &&& fields.canonical() == notation(patch)
            &&& noted_under(patch, "budgets"@, fields.budgets)
            &&& noted_under(patch, "instructions"@, fields.instructions)
            &&& noted_under(patch, "recovery_reminders"@, fields.recovery_reminders)
            &&& noted_under(patch, "skills"@, fields.skills)
            &&& noted_under(patch, "subagent_roles"@, fields.subagent_roles)
            &&& noted_under(patch, "verifier"@, fields.verifier)
            &&& forall|key: Seq<char>|
                key != "budgets"@ && key != "instructions"@ && key != "recovery_reminders"@ && key != "skills"@ && key != "subagent_roles"@ && key != "verifier"@ ==> #[trigger] lacks(fields.members(6), key)
        }),
{
    reveal_strlit("budgets");
    reveal_strlit("instructions");
    reveal_strlit("recovery_reminders");
    reveal_strlit("skills");
    reveal_strlit("subagent_roles");
    reveal_strlit("verifier");
    assert("budgets"@.len() == 7 && "instructions"@.len() == 12 && "recovery_reminders"@.len() == 18 && "skills"@.len() == 6 && "subagent_roles"@.len() == 14 && "verifier"@.len() == 8);
    lemma_nothing();
    lemma_lacking(fields.members(6));
    assert(dimension_at(0) == DiversityDimension::Budgets);
    if fields.budgets is Some {
        lemma_pushed(
            fields.members(0),
            MemberModel { key: "budgets"@, value: fields.budgets->0 },
        );
    }
    assert(fields.members(1) == match fields.budgets {
        Some(value) => fields.members(0).push(MemberModel { key: "budgets"@, value }),
        None => fields.members(0),
    });
    assert(dimension_at(1) == DiversityDimension::Instructions);
    if fields.instructions is Some {
        lemma_pushed(
            fields.members(1),
            MemberModel { key: "instructions"@, value: fields.instructions->0 },
        );
    }
    assert(fields.members(2) == match fields.instructions {
        Some(value) => fields.members(1).push(MemberModel { key: "instructions"@, value }),
        None => fields.members(1),
    });
    assert(dimension_at(2) == DiversityDimension::RecoveryReminders);
    if fields.recovery_reminders is Some {
        lemma_pushed(
            fields.members(2),
            MemberModel { key: "recovery_reminders"@, value: fields.recovery_reminders->0 },
        );
    }
    assert(fields.members(3) == match fields.recovery_reminders {
        Some(value) => fields.members(2).push(MemberModel { key: "recovery_reminders"@, value }),
        None => fields.members(2),
    });
    assert(dimension_at(3) == DiversityDimension::Skills);
    if fields.skills is Some {
        lemma_pushed(
            fields.members(3),
            MemberModel { key: "skills"@, value: fields.skills->0 },
        );
    }
    assert(fields.members(4) == match fields.skills {
        Some(value) => fields.members(3).push(MemberModel { key: "skills"@, value }),
        None => fields.members(3),
    });
    assert(dimension_at(4) == DiversityDimension::SubagentRoles);
    if fields.subagent_roles is Some {
        lemma_pushed(
            fields.members(4),
            MemberModel { key: "subagent_roles"@, value: fields.subagent_roles->0 },
        );
    }
    assert(fields.members(5) == match fields.subagent_roles {
        Some(value) => fields.members(4).push(MemberModel { key: "subagent_roles"@, value }),
        None => fields.members(4),
    });
    assert(dimension_at(5) == DiversityDimension::Verifier);
    if fields.verifier is Some {
        lemma_pushed(
            fields.members(5),
            MemberModel { key: "verifier"@, value: fields.verifier->0 },
        );
    }
    assert(fields.members(6) == match fields.verifier {
        Some(value) => fields.members(5).push(MemberModel { key: "verifier"@, value }),
        None => fields.members(5),
    });
    assert(fields.members(0) =~= Seq::<MemberModel>::empty());
}

/// Whether a merged field is what the inputs note: one that some input notes, worth the same
/// as every input notes, and absent where none notes it.
pub open spec fn agrees_with(field: Option<JsonModel>, notes: Seq<Option<JsonModel>>) -> bool {
    &&& field matches Some(value) ==> notes.contains(Some(value))
    &&& forall|k: int|
        0 <= k < notes.len() && (#[trigger] notes[k]) is Some ==> field is Some && alike(
            notes[k]->0,
            field->0,
        )
}

proof fn lemma_agrees<T>(
    notes: Seq<Option<JsonModel>>,
    ordered_notes: Seq<Option<JsonModel>>,
    settings: Seq<Option<T>>,
    order: Seq<int>,
    note: Option<JsonModel>,
    setting: Option<T>,
)
    requires
        order.len() == notes.len() == ordered_notes.len(),
        forall|a: int| 0 <= a < order.len() ==> 0 <= #[trigger] order[a] < notes.len(),
        forall|k: int| 0 <= k < notes.len() ==> #[trigger] order.contains(k),
        forall|a: int|
            0 <= a < order.len() ==> #[trigger] ordered_notes[a] == notes[order[a]],
        first_noted(ordered_notes, settings, order.len() as int, note, setting),
        forall|a: int|
            0 <= a < order.len() && (#[trigger] ordered_notes[a]) is Some ==> note is Some && alike(
                ordered_notes[a]->0,
                note->0,
            ),
    ensures
        agrees_with(note, notes),
{
    assert forall|k: int| 0 <= k < notes.len() && (#[trigger] notes[k]) is Some implies note is Some
        && alike(notes[k]->0, note->0) by {
        assert(order.contains(k));
        let a = choose|a: int| 0 <= a < order.len() && order[a] == k;
        assert(ordered_notes[a] == notes[k]);
    }
    if note is Some {
        let a = choose|a: int|
            0 <= a < order.len() && (#[trigger] ordered_notes[a]) is Some && note
                == ordered_notes[a] && setting == settings[a];
        assert(ordered_notes[a] == notes[order[a]]);
        assert(notes[order[a]] == note);
    }
}

/// The patch of a composition notes the fields that its inputs note, each as they note it.
pub proof fn law_composed_patches_note_what_their_inputs_note(
    parent: RevisionModel,
    inputs: Seq<InputModel>,
) -> (fields: FieldsModel)
    requires
        composed(parent, inputs) is Ok,
    ensures
        composed(parent, inputs)->Ok_0.canonical_patch == fields.canonical(),
        agrees_with(fields.budgets, budgets_noted(inputs)),
        agrees_with(fields.instructions, instructions_noted(inputs)),
        agrees_with(fields.recovery_reminders, recovery_reminders_noted(inputs)),
        agrees_with(fields.skills, skills_noted(inputs)),
        agrees_with(fields.subagent_roles, subagent_roles_noted(inputs)),
        agrees_with(fields.verifier, verifier_noted(inputs)),
{
    let in_order = inputs_in_order(inputs);
    let n = inputs.len() as int;
    lemma_composed(parent, inputs);
    lemma_arrangement(inputs);
    lemma_merged(in_order, n);
    let merged = merge_of(in_order, n)->Ok_0;
    lemma_budgets_agree(inputs, merged.fields.budgets, merged.patch.budgets);
    lemma_instructions_agree(inputs, merged.fields.instructions, merged.patch.instructions);
    lemma_recovery_reminders_agree(inputs, merged.fields.recovery_reminders, merged.patch.recovery_reminders);
    lemma_skills_agree(inputs, merged.fields.skills, merged.patch.skills);
    lemma_subagent_roles_agree(inputs, merged.fields.subagent_roles, merged.patch.subagent_roles);
    lemma_verifier_agree(inputs, merged.fields.verifier, merged.patch.verifier);
    merged.fields
}

proof fn lemma_budgets_agree(
    inputs: Seq<InputModel>,
    note: Option<JsonModel>,
    setting: Option<ResourceBudgets>,
)
    requires
        merge_of(inputs_in_order(inputs), inputs.len() as int) is Ok,
        note == merge_of(inputs_in_order(inputs), inputs.len() as int)->Ok_0.fields.budgets,
        first_noted(
            budgets_noted(inputs_in_order(inputs)),
            budgets_set(inputs_in_order(inputs)),
            inputs.len() as int,
            note,
            setting,
        ),
    ensures
        agrees_with(note, budgets_noted(inputs)),
{
    let in_order = inputs_in_order(inputs);
    let n = inputs.len() as int;
    lemma_arrangement(inputs);
    lemma_merge_keeps_fields(in_order, n, DiversityDimension::Budgets);
    assert forall|a: int| 0 <= a < n && (#[trigger] budgets_noted(in_order)[a]) is Some implies note
        is Some && alike(budgets_noted(in_order)[a]->0, note->0) by {
        assert(in_order[a].proposal.fields.field(DiversityDimension::Budgets) is Some);
    }
    lemma_agrees(
        budgets_noted(inputs),
        budgets_noted(in_order),
        budgets_set(in_order),
        sorted(inputs.map_values(input_key()), n),
        note,
        setting,
    );
}

proof fn lemma_instructions_agree(
    inputs: Seq<InputModel>,
    note: Option<JsonModel>,
    setting: Option<Seq<char>>,
)
    requires
        merge_of(inputs_in_order(inputs), inputs.len() as int) is Ok,
        note == merge_of(inputs_in_order(inputs), inputs.len() as int)->Ok_0.fields.instructions,
        first_noted(
            instructions_noted(inputs_in_order(inputs)),
            instructions_set(inputs_in_order(inputs)),
            inputs.len() as int,
            note,
            setting,
        ),
    ensures
        agrees_with(note, instructions_noted(inputs)),
{
    let in_order = inputs_in_order(inputs);
    let n = inputs.len() as int;
    lemma_arrangement(inputs);
    lemma_merge_keeps_fields(in_order, n, DiversityDimension::Instructions);
    assert forall|a: int| 0 <= a < n && (#[trigger] instructions_noted(in_order)[a]) is Some implies note
        is Some && alike(instructions_noted(in_order)[a]->0, note->0) by {
        assert(in_order[a].proposal.fields.field(DiversityDimension::Instructions) is Some);
    }
    lemma_agrees(
        instructions_noted(inputs),
        instructions_noted(in_order),
        instructions_set(in_order),
        sorted(inputs.map_values(input_key()), n),
        note,
        setting,
    );
}

proof fn lemma_recovery_reminders_agree(
    inputs: Seq<InputModel>,
    note: Option<JsonModel>,
    setting: Option<ReminderSet>,
)
    requires
        merge_of(inputs_in_order(inputs), inputs.len() as int) is Ok,
        note == merge_of(inputs_in_order(inputs), inputs.len() as int)->Ok_0.fields.recovery_reminders,
        first_noted(
            recovery_reminders_noted(inputs_in_order(inputs)),
            recovery_reminders_set(inputs_in_order(inputs)),
            inputs.len() as int,
            note,
            setting,
        ),
    ensures
        agrees_with(note, recovery_reminders_noted(inputs)),
{
    let in_order = inputs_in_order(inputs);
    let n = inputs.len() as int;
    lemma_arrangement(inputs);
    lemma_merge_keeps_fields(in_order, n, DiversityDimension::RecoveryReminders);
    assert forall|a: int| 0 <= a < n && (#[trigger] recovery_reminders_noted(in_order)[a]) is Some implies note
        is Some && alike(recovery_reminders_noted(in_order)[a]->0, note->0) by {
        assert(in_order[a].proposal.fields.field(DiversityDimension::RecoveryReminders) is Some);
    }
    lemma_agrees(
        recovery_reminders_noted(inputs),
        recovery_reminders_noted(in_order),
        recovery_reminders_set(in_order),
        sorted(inputs.map_values(input_key()), n),
        note,
        setting,
    );
}

proof fn lemma_skills_agree(
    inputs: Seq<InputModel>,
    note: Option<JsonModel>,
    setting: Option<Seq<Entry<String>>>,
)
    requires
        merge_of(inputs_in_order(inputs), inputs.len() as int) is Ok,
        note == merge_of(inputs_in_order(inputs), inputs.len() as int)->Ok_0.fields.skills,
        first_noted(
            skills_noted(inputs_in_order(inputs)),
            skills_set(inputs_in_order(inputs)),
            inputs.len() as int,
            note,
            setting,
        ),
    ensures
        agrees_with(note, skills_noted(inputs)),
{
    let in_order = inputs_in_order(inputs);
    let n = inputs.len() as int;
    lemma_arrangement(inputs);
    lemma_merge_keeps_fields(in_order, n, DiversityDimension::Skills);
    assert forall|a: int| 0 <= a < n && (#[trigger] skills_noted(in_order)[a]) is Some implies note
        is Some && alike(skills_noted(in_order)[a]->0, note->0) by {
        assert(in_order[a].proposal.fields.field(DiversityDimension::Skills) is Some);
    }
    lemma_agrees(
        skills_noted(inputs),
        skills_noted(in_order),
        skills_set(in_order),
        sorted(inputs.map_values(input_key()), n),
        note,
        setting,
    );
}

proof fn lemma_subagent_roles_agree(
    inputs: Seq<InputModel>,
    note: Option<JsonModel>,
    setting: Option<Seq<Entry<SubagentRole>>>,
)
    requires
        merge_of(inputs_in_order(inputs), inputs.len() as int) is Ok,
        note == merge_of(inputs_in_order(inputs), inputs.len() as int)->Ok_0.fields.subagent_roles,
        first_noted(
            subagent_roles_noted(inputs_in_order(inputs)),
            subagent_roles_set(inputs_in_order(inputs)),
            inputs.len() as int,
            note,
            setting,
        ),
    ensures
        agrees_with(note, subagent_roles_noted(inputs)),
{
    let in_order = inputs_in_order(inputs);
    let n = inputs.len() as int;
    lemma_arrangement(inputs);
    lemma_merge_keeps_fields(in_order, n, DiversityDimension::SubagentRoles);
    assert forall|a: int| 0 <= a < n && (#[trigger] subagent_roles_noted(in_order)[a]) is Some implies note
        is Some && alike(subagent_roles_noted(in_order)[a]->0, note->0) by {
        assert(in_order[a].proposal.fields.field(DiversityDimension::SubagentRoles) is Some);
    }
    lemma_agrees(
        subagent_roles_noted(inputs),
        subagent_roles_noted(in_order),
        subagent_roles_set(in_order),
        sorted(inputs.map_values(input_key()), n),
        note,
        setting,
    );
}

proof fn lemma_verifier_agree(
    inputs: Seq<InputModel>,
    note: Option<JsonModel>,
    setting: Option<VerifierSchedule>,
)
    requires
        merge_of(inputs_in_order(inputs), inputs.len() as int) is Ok,
        note == merge_of(inputs_in_order(inputs), inputs.len() as int)->Ok_0.fields.verifier,
        first_noted(
            verifier_noted(inputs_in_order(inputs)),
            verifier_set(inputs_in_order(inputs)),
            inputs.len() as int,
            note,
            setting,
        ),
    ensures
        agrees_with(note, verifier_noted(inputs)),
{
    let in_order = inputs_in_order(inputs);
    let n = inputs.len() as int;
    lemma_arrangement(inputs);
    lemma_merge_keeps_fields(in_order, n, DiversityDimension::Verifier);
    assert forall|a: int| 0 <= a < n && (#[trigger] verifier_noted(in_order)[a]) is Some implies note
        is Some && alike(verifier_noted(in_order)[a]->0, note->0) by {
        assert(in_order[a].proposal.fields.field(DiversityDimension::Verifier) is Some);
    }
    lemma_agrees(
        verifier_noted(inputs),
        verifier_noted(in_order),
        verifier_set(in_order),
        sorted(inputs.map_values(input_key()), n),
        note,
        setting,
    );
}

} // verus!
