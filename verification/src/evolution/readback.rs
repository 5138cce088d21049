//! Canonical manifests are read back as the revisions that they were written from.
use crate::canonical::{bool_text, json_string, quoted};
use crate::digest::{digest_of, law_texts_tell_digests_apart, lemma_text_len, Digest};
use crate::evolution::harness::{
    accepted, behavior_json, budgets_json, interval_json, is_alike, is_reading, read_problem,
    reminder_set_json, revision_id, revision_json, revision_sound, role_check, role_json,
    roles_json, schedule_json, skill_check, skills_json, tool_set_json, BehaviorModel,
    ManifestError, ReminderSet, ResourceBudgets, RevisionModel, SubagentRole, ToolSet,
    ValidatedHarnessRevision, VerifierSchedule,
};
use crate::evolution::manifest::{law_same_revisions_are_written_alike, ordered, spells};
use crate::first::lemma_first_some_same;
use crate::readback::{
    commas, lacks, lemma_ended_pairs_tell, lemma_ends_tell, lemma_equal_lengths_tell,
    lemma_json_strings_tell, lemma_lists_tell, lemma_pairs_tell, tells,
};
use crate::text::{decimal, lemma_decimal};
use crate::text_map::Entry;
use vstd::prelude::*;
use vstd::utf8::encode_utf8;

verus! {

/// Whether two lists of skills say the same.
pub open spec fn same_skills(a: Seq<Entry<String>>, b: Seq<Entry<String>>) -> bool {
    &&& a.len() == b.len()
    &&& forall|i: int|
        0 <= i < a.len() ==> (#[trigger] a[i]).key@ == b[i].key@ && a[i].value@ == b[i].value@
}

/// Whether two lists of roles say the same.
pub open spec fn same_roles(a: Seq<Entry<SubagentRole>>, b: Seq<Entry<SubagentRole>>) -> bool {
    &&& a.len() == b.len()
    &&& forall|i: int|
        0 <= i < a.len() ==> {
            &&& (#[trigger] a[i]).key@ == b[i].key@
            &&& a[i].value.instructions@ == b[i].value.instructions@
            &&& a[i].value.tools == b[i].value.tools
        }
}

/// Whether two behaviors say the same.
pub open spec fn same_behavior(a: BehaviorModel, b: BehaviorModel) -> bool {
    &&& a.instructions == b.instructions
    &&& same_skills(a.skills, b.skills)
    &&& a.recovery_reminders == b.recovery_reminders
    &&& same_roles(a.subagent_roles, b.subagent_roles)
    &&& a.verifier == b.verifier
    &&& a.budgets == b.budgets
}

/// Whether two revisions say the same.
pub open spec fn same_revision(a: RevisionModel, b: RevisionModel) -> bool {
    &&& a.schema_version == b.schema_version
    &&& a.parent == b.parent
    &&& a.envelope_digest == b.envelope_digest
    &&& a.behavior_digest == b.behavior_digest
    &&& same_behavior(a.behavior, b.behavior)
}

pub(crate) proof fn lemma_numbers_tell(m: nat, n: nat, end: Seq<char>)
    requires
        end.len() > 0,
        end[0] == ',' || end[0] == '}' || end[0] == ']',
    ensures
        tells(decimal(m) + end, decimal(n) + end),
        decimal(m) == decimal(n) ==> m == n,
{
    lemma_decimal(m);
    lemma_decimal(n);
    lemma_ends_tell(decimal(m), decimal(n), end);
}

pub(crate) proof fn lemma_digests_tell(a: Digest, b: Digest)
    ensures
        tells(quoted(a.text()), quoted(b.text())),
        quoted(a.text()) == quoted(b.text()) ==> a == b,
{
    lemma_text_len(a);
    lemma_text_len(b);
    lemma_equal_lengths_tell(quoted(a.text()), quoted(b.text()));
    if quoted(a.text()) == quoted(b.text()) {
        reveal_strlit("\"");
        assert(a.text() =~= quoted(a.text()).subrange(1, 65));
        assert(b.text() =~= quoted(b.text()).subrange(1, 65));
        law_texts_tell_digests_apart(a, b);
    }
}

proof fn lemma_tool_set(v: ToolSet)
    ensures
        lacks(tool_set_json(v), ']'),
        tool_set_json(v).len() == if v == ToolSet::none() {
            0
        } else {
            (if v.exec_command { 15int } else { 0 }) + (if v.read_file { 12int } else { 0 }) + (
            if v.search { 9int } else { 0 }) + (if v.write_file { 13int } else { 0 }) - 1
        },
{
    reveal_strlit("");
    reveal_strlit("\"exec_command\"");
    reveal_strlit("\"read_file\"");
    reveal_strlit(",\"read_file\"");
    reveal_strlit("\"search\"");
    reveal_strlit(",\"search\"");
    reveal_strlit("\"write_file\"");
    reveal_strlit(",\"write_file\"");
}

pub proof fn lemma_tool_sets_tell(a: ToolSet, b: ToolSet, end: Seq<char>)
    requires
        end.len() > 0,
        end[0] == ']',
    ensures
        tells(tool_set_json(a) + end, tool_set_json(b) + end),
        tool_set_json(a) == tool_set_json(b) ==> a == b,
{
    lemma_tool_set(a);
    lemma_tool_set(b);
    lemma_ends_tell(tool_set_json(a), tool_set_json(b), end);
}

proof fn lemma_reminder_set(v: ReminderSet)
    ensures
        lacks(reminder_set_json(v), ']'),
        reminder_set_json(v).len() == if v == ReminderSet::none() {
            0
        } else {
            (if v.inspect_status_before_retry { 30int } else { 0 }) + (
            if v.preserve_pinned_revision { 27int } else { 0 }) + (
            if v.stop_after_unknown_effect { 28int } else { 0 }) - 1
        },
{
    reveal_strlit("");
    reveal_strlit("\"inspect_status_before_retry\"");
    reveal_strlit("\"preserve_pinned_revision\"");
    reveal_strlit(",\"preserve_pinned_revision\"");
    reveal_strlit("\"stop_after_unknown_effect\"");
    reveal_strlit(",\"stop_after_unknown_effect\"");
}

pub proof fn lemma_reminder_sets_tell(a: ReminderSet, b: ReminderSet, end: Seq<char>)
    requires
        end.len() > 0,
        end[0] == ']',
    ensures
        tells(reminder_set_json(a) + end, reminder_set_json(b) + end),
        reminder_set_json(a) == reminder_set_json(b) ==> a == b,
{
    lemma_reminder_set(a);
    lemma_reminder_set(b);
    lemma_ends_tell(reminder_set_json(a), reminder_set_json(b), end);
}

proof fn lemma_interval(v: Option<u32>)
    ensures
        lacks(interval_json(v), ','),
        interval_json(v).len() > 0,
        v is Some ==> interval_json(v) == decimal((v->0) as nat) && interval_json(v)[0] != 'n',
        v is None ==> interval_json(v)[0] == 'n',
{
    reveal_strlit("");
    reveal_strlit("null");
    if v is Some {
        lemma_decimal((v->0) as nat);
        assert(interval_json(v) =~= decimal((v->0) as nat));
    }
}

proof fn lemma_schedules_tell(a: VerifierSchedule, b: VerifierSchedule)
    ensures
        tells(schedule_json(a), schedule_json(b)),
        schedule_json(a) == schedule_json(b) ==> a == b,
{
    reveal_strlit(",\"before_completion\":");
    reveal_strlit("}");
    reveal_strlit("true");
    reveal_strlit("false");
    let start = "{\"after_tool_calls\":"@;
    let middle = ",\"before_completion\":"@;
    let p = interval_json(a.after_tool_calls);
    let q = interval_json(b.after_tool_calls);
    lemma_interval(a.after_tool_calls);
    lemma_interval(b.after_tool_calls);
    if p == q && a.after_tool_calls is Some {
        lemma_decimal((a.after_tool_calls->0) as nat);
        lemma_decimal((b.after_tool_calls->0) as nat);
    }
    lemma_equal_lengths_tell(start, start);
    lemma_ends_tell(p, q, middle);
    lemma_ended_pairs_tell(start, start, p, q, middle);
    let r = bool_text(a.before_completion);
    let s = bool_text(b.before_completion);
    if r == s {
        assert(r[0] == s[0]);
    }
    lemma_ends_tell(r, s, "}"@);
    lemma_ended_pairs_tell(start + p + middle, start + q + middle, r, s, "}"@);
}

proof fn lemma_budgets_tell(a: ResourceBudgets, b: ResourceBudgets)
    ensures
        tells(budgets_json(a), budgets_json(b)),
        budgets_json(a) == budgets_json(b) ==> a == b,
{
    reveal_strlit(",\"subagents\":");
    reveal_strlit(",\"verifier_runs\":");
    reveal_strlit(",\"output_bytes\":");
    reveal_strlit(",\"tokens\":");
    reveal_strlit(",\"elapsed_ms\":");
    reveal_strlit("}");
    let p = "{\"tool_calls\":"@;
    let q = p;
    lemma_equal_lengths_tell(p, q);
    let end = ",\"subagents\":"@;
    lemma_numbers_tell(a.tool_calls as nat, b.tool_calls as nat, end);
    lemma_ended_pairs_tell(p, q, decimal(a.tool_calls as nat), decimal(b.tool_calls as nat), end);
    let p = p + decimal(a.tool_calls as nat) + end;
    let q = q + decimal(b.tool_calls as nat) + end;
    let end = ",\"verifier_runs\":"@;
    lemma_numbers_tell(a.subagents as nat, b.subagents as nat, end);
    lemma_ended_pairs_tell(p, q, decimal(a.subagents as nat), decimal(b.subagents as nat), end);
    let p = p + decimal(a.subagents as nat) + end;
    let q = q + decimal(b.subagents as nat) + end;
    let end = ",\"output_bytes\":"@;
    lemma_numbers_tell(a.verifier_runs as nat, b.verifier_runs as nat, end);
    lemma_ended_pairs_tell(
        p,
        q,
        decimal(a.verifier_runs as nat),
        decimal(b.verifier_runs as nat),
        end,
    );
    let p = p + decimal(a.verifier_runs as nat) + end;
    let q = q + decimal(b.verifier_runs as nat) + end;
    let end = ",\"tokens\":"@;
    lemma_numbers_tell(a.output_bytes as nat, b.output_bytes as nat, end);
    lemma_ended_pairs_tell(
        p,
        q,
        decimal(a.output_bytes as nat),
        decimal(b.output_bytes as nat),
        end,
    );
    let p = p + decimal(a.output_bytes as nat) + end;
    let q = q + decimal(b.output_bytes as nat) + end;
    let end = ",\"elapsed_ms\":"@;
    lemma_numbers_tell(a.tokens as nat, b.tokens as nat, end);
    lemma_ended_pairs_tell(p, q, decimal(a.tokens as nat), decimal(b.tokens as nat), end);
    let p = p + decimal(a.tokens as nat) + end;
    let q = q + decimal(b.tokens as nat) + end;
    let end = "}"@;
    lemma_numbers_tell(a.elapsed_ms as nat, b.elapsed_ms as nat, end);
    lemma_ended_pairs_tell(p, q, decimal(a.elapsed_ms as nat), decimal(b.elapsed_ms as nat), end);
}

proof fn lemma_roles_tell(a: SubagentRole, b: SubagentRole)
    ensures
        tells(role_json(a), role_json(b)),
        role_json(a) == role_json(b) ==> a.instructions@ == b.instructions@ && a.tools == b.tools,
{
    reveal_strlit("]}");
    let p = "{\"instructions\":"@;
    let q = p;
    lemma_equal_lengths_tell(p, q);
    lemma_json_strings_tell(a.instructions@, b.instructions@);
    lemma_pairs_tell(p, q, json_string(a.instructions@), json_string(b.instructions@));
    let p = p + json_string(a.instructions@);
    let q = q + json_string(b.instructions@);
    let middle = ",\"tools\":["@;
    lemma_equal_lengths_tell(middle, middle);
    lemma_pairs_tell(p, q, middle, middle);
    lemma_tool_sets_tell(a.tools, b.tools, "]}"@);
    lemma_ended_pairs_tell(
        p + middle,
        q + middle,
        tool_set_json(a.tools),
        tool_set_json(b.tools),
        "]}"@,
    );
}

/// The JSON of a value under a text.
spec fn entry_json(key: Seq<char>, value: Seq<char>) -> Seq<char> {
    json_string(key) + ":"@ + value
}

proof fn lemma_entries_tell(a: Seq<char>, b: Seq<char>, x: Seq<char>, y: Seq<char>)
    requires
        tells(x, y),
    ensures
        tells(entry_json(a, x), entry_json(b, y)),
        entry_json(a, x) == entry_json(b, y) ==> a == b && x == y,
        entry_json(a, x).len() > 0,
        entry_json(a, x)[0] == '"',
{
    reveal_strlit("\"");
    lemma_json_strings_tell(a, b);
    lemma_equal_lengths_tell(":"@, ":"@);
    lemma_pairs_tell(json_string(a), json_string(b), ":"@, ":"@);
    lemma_pairs_tell(json_string(a) + ":"@, json_string(b) + ":"@, x, y);
}

spec fn skill_items(skills: Seq<Entry<String>>) -> Seq<Seq<char>> {
    Seq::new(skills.len(), |i: int| entry_json(skills[i].key@, json_string(skills[i].value@)))
}

proof fn lemma_skill_items(skills: Seq<Entry<String>>, n: int)
    requires
        0 <= n <= skills.len(),
    ensures
        skills_json(skills, n) == commas(skill_items(skills), n),
    decreases n,
{
    if n > 0 {
        lemma_skill_items(skills, n - 1);
        assert(skills_json(skills, n) =~= commas(skill_items(skills), n));
    }
}

proof fn lemma_skills_tell(a: Seq<Entry<String>>, b: Seq<Entry<String>>, end: Seq<char>)
    requires
        end.len() > 0,
        end[0] == '}',
    ensures
        tells(skills_json(a, a.len() as int) + end, skills_json(b, b.len() as int) + end),
        skills_json(a, a.len() as int) == skills_json(b, b.len() as int) ==> same_skills(a, b),
{
    let p = skill_items(a);
    let q = skill_items(b);
    lemma_skill_items(a, a.len() as int);
    lemma_skill_items(b, b.len() as int);
    assert forall|i: int, j: int| 0 <= i < a.len() && 0 <= j < b.len() implies {
        &&& tells(#[trigger] p[i], #[trigger] q[j])
        &&& p[i] == q[j] ==> a[i].key@ == b[j].key@ && a[i].value@ == b[j].value@
    } by {
        lemma_json_strings_tell(a[i].value@, b[j].value@);
        lemma_entries_tell(
            a[i].key@,
            b[j].key@,
            json_string(a[i].value@),
            json_string(b[j].value@),
        );
    }
    assert forall|i: int| 0 <= i < p.len() implies (#[trigger] p[i]).len() > 0 && p[i][0]
        == '"' by {
        let value = json_string(a[i].value@);
        lemma_equal_lengths_tell(value, value);
        lemma_entries_tell(a[i].key@, a[i].key@, value, value);
    }
    assert forall|i: int| 0 <= i < q.len() implies (#[trigger] q[i]).len() > 0 && q[i][0]
        == '"' by {
        let value = json_string(b[i].value@);
        lemma_equal_lengths_tell(value, value);
        lemma_entries_tell(b[i].key@, b[i].key@, value, value);
    }
    lemma_lists_tell(p, q, end);
    if skills_json(a, a.len() as int) == skills_json(b, b.len() as int) {
        assert(p.len() == q.len());
        assert forall|i: int| 0 <= i < a.len() implies (#[trigger] a[i]).key@ == b[i].key@
            && a[i].value@ == b[i].value@ by {
            assert(p[i] == q[i]);
        }
    }
}

spec fn role_items(roles: Seq<Entry<SubagentRole>>) -> Seq<Seq<char>> {
    Seq::new(roles.len(), |i: int| entry_json(roles[i].key@, role_json(roles[i].value)))
}

proof fn lemma_role_items(roles: Seq<Entry<SubagentRole>>, n: int)
    requires
        0 <= n <= roles.len(),
    ensures
        roles_json(roles, n) == commas(role_items(roles), n),
    decreases n,
{
    if n > 0 {
        lemma_role_items(roles, n - 1);
        assert(roles_json(roles, n) =~= commas(role_items(roles), n));
    }
}

proof fn lemma_role_lists_tell(
    a: Seq<Entry<SubagentRole>>,
    b: Seq<Entry<SubagentRole>>,
    end: Seq<char>,
)
    requires
        end.len() > 0,
        end[0] == '}',
    ensures
        tells(roles_json(a, a.len() as int) + end, roles_json(b, b.len() as int) + end),
        roles_json(a, a.len() as int) == roles_json(b, b.len() as int) ==> same_roles(a, b),
{
    let p = role_items(a);
    let q = role_items(b);
    lemma_role_items(a, a.len() as int);
    lemma_role_items(b, b.len() as int);
    assert forall|i: int, j: int| 0 <= i < a.len() && 0 <= j < b.len() implies {
        &&& tells(#[trigger] p[i], #[trigger] q[j])
        &&& p[i] == q[j] ==> {
            &&& a[i].key@ == b[j].key@
            &&& a[i].value.instructions@ == b[j].value.instructions@
            &&& a[i].value.tools == b[j].value.tools
        }
    } by {
        lemma_roles_tell(a[i].value, b[j].value);
        lemma_entries_tell(a[i].key@, b[j].key@, role_json(a[i].value), role_json(b[j].value));
    }
    assert forall|i: int| 0 <= i < p.len() implies (#[trigger] p[i]).len() > 0 && p[i][0]
        == '"' by {
        let value = role_json(a[i].value);
        lemma_equal_lengths_tell(value, value);
        lemma_entries_tell(a[i].key@, a[i].key@, value, value);
    }
    assert forall|i: int| 0 <= i < q.len() implies (#[trigger] q[i]).len() > 0 && q[i][0]
        == '"' by {
        let value = role_json(b[i].value);
        lemma_equal_lengths_tell(value, value);
        lemma_entries_tell(b[i].key@, b[i].key@, value, value);
    }
    lemma_lists_tell(p, q, end);
    if roles_json(a, a.len() as int) == roles_json(b, b.len() as int) {
        assert(p.len() == q.len());
        assert forall|i: int| 0 <= i < a.len() implies {
            &&& (#[trigger] a[i]).key@ == b[i].key@
            &&& a[i].value.instructions@ == b[i].value.instructions@
            &&& a[i].value.tools == b[i].value.tools
        } by {
            assert(p[i] == q[i]);
        }
    }
}

proof fn lemma_behaviors_tell(a: BehaviorModel, b: BehaviorModel)
    ensures
        tells(behavior_json(a), behavior_json(b)),
        behavior_json(a) == behavior_json(b) ==> same_behavior(a, b),
{
    reveal_strlit("},\"recovery_reminders\":[");
    reveal_strlit("],\"subagent_roles\":{");
    reveal_strlit("},\"verifier\":");
    let p = "{\"instructions\":"@;
    let q = p;
    lemma_equal_lengths_tell(p, q);
    lemma_json_strings_tell(a.instructions, b.instructions);
    lemma_pairs_tell(p, q, json_string(a.instructions), json_string(b.instructions));
    let p = p + json_string(a.instructions);
    let q = q + json_string(b.instructions);
    let part = ",\"skills\":{"@;
    lemma_equal_lengths_tell(part, part);
    lemma_pairs_tell(p, q, part, part);
    let p = p + part;
    let q = q + part;
    let end = "},\"recovery_reminders\":["@;
    let r = skills_json(a.skills, a.skills.len() as int);
    let s = skills_json(b.skills, b.skills.len() as int);
    lemma_skills_tell(a.skills, b.skills, end);
    lemma_ended_pairs_tell(p, q, r, s, end);
    let p = p + r + end;
    let q = q + s + end;
    let end = "],\"subagent_roles\":{"@;
    let r = reminder_set_json(a.recovery_reminders);
    let s = reminder_set_json(b.recovery_reminders);
    lemma_reminder_sets_tell(a.recovery_reminders, b.recovery_reminders, end);
    lemma_ended_pairs_tell(p, q, r, s, end);
    let p = p + r + end;
    let q = q + s + end;
    let end = "},\"verifier\":"@;
    let r = roles_json(a.subagent_roles, a.subagent_roles.len() as int);
    let s = roles_json(b.subagent_roles, b.subagent_roles.len() as int);
    lemma_role_lists_tell(a.subagent_roles, b.subagent_roles, end);
    lemma_ended_pairs_tell(p, q, r, s, end);
    let p = p + r + end;
    let q = q + s + end;
    lemma_schedules_tell(a.verifier, b.verifier);
    lemma_pairs_tell(p, q, schedule_json(a.verifier), schedule_json(b.verifier));
    let p = p + schedule_json(a.verifier);
    let q = q + schedule_json(b.verifier);
    let part = ",\"budgets\":"@;
    lemma_equal_lengths_tell(part, part);
    lemma_pairs_tell(p, q, part, part);
    let p = p + part;
    let q = q + part;
    lemma_budgets_tell(a.budgets, b.budgets);
    lemma_pairs_tell(p, q, budgets_json(a.budgets), budgets_json(b.budgets));
    lemma_equal_lengths_tell("}"@, "}"@);
    lemma_pairs_tell(p + budgets_json(a.budgets), q + budgets_json(b.budgets), "}"@, "}"@);
}

/// Behaviors that have the same canonical JSON say the same, so that a behavior can be read
/// back from it.
pub proof fn law_canonical_json_tells_behaviors_apart(a: BehaviorModel, b: BehaviorModel)
    requires
        behavior_json(a) == behavior_json(b),
    ensures
        same_behavior(a, b),
{
    lemma_behaviors_tell(a, b);
}

/// Revisions that have the same canonical JSON say the same, so that a revision can be read
/// back from it.
pub proof fn law_canonical_json_tells_revisions_apart(a: RevisionModel, b: RevisionModel)
    requires
        revision_json(a) == revision_json(b),
    ensures
        same_revision(a, b),
        behavior_json(a.behavior) == behavior_json(b.behavior),
{
    reveal_strlit(",\"parent\":");
    let p = "{\"schema_version\":"@;
    let q = p;
    lemma_equal_lengths_tell(p, q);
    let end = ",\"parent\":"@;
    let r = decimal(a.schema_version as nat);
    let s = decimal(b.schema_version as nat);
    lemma_numbers_tell(a.schema_version as nat, b.schema_version as nat, end);
    lemma_ended_pairs_tell(p, q, r, s, end);
    let p = p + r + end;
    let q = q + s + end;
    lemma_digests_tell(a.parent, b.parent);
    lemma_pairs_tell(p, q, quoted(a.parent.text()), quoted(b.parent.text()));
    let p = p + quoted(a.parent.text());
    let q = q + quoted(b.parent.text());
    let part = ",\"policy_id\":\"behavior-v1\",\"envelope_digest\":"@;
    lemma_equal_lengths_tell(part, part);
    lemma_pairs_tell(p, q, part, part);
    let p = p + part;
    let q = q + part;
    lemma_digests_tell(a.envelope_digest, b.envelope_digest);
    lemma_pairs_tell(p, q, quoted(a.envelope_digest.text()), quoted(b.envelope_digest.text()));
    let p = p + quoted(a.envelope_digest.text());
    let q = q + quoted(b.envelope_digest.text());
    let part = ",\"behavior_digest\":"@;
    lemma_equal_lengths_tell(part, part);
    lemma_pairs_tell(p, q, part, part);
    let p = p + part;
    let q = q + part;
    lemma_digests_tell(a.behavior_digest, b.behavior_digest);
    lemma_pairs_tell(p, q, quoted(a.behavior_digest.text()), quoted(b.behavior_digest.text()));
    let p = p + quoted(a.behavior_digest.text());
    let q = q + quoted(b.behavior_digest.text());
    let part = ",\"behavior\":"@;
    lemma_equal_lengths_tell(part, part);
    lemma_pairs_tell(p, q, part, part);
    let p = p + part;
    let q = q + part;
    lemma_behaviors_tell(a.behavior, b.behavior);
    lemma_pairs_tell(p, q, behavior_json(a.behavior), behavior_json(b.behavior));
    lemma_equal_lengths_tell("}"@, "}"@);
    lemma_pairs_tell(p + behavior_json(a.behavior), q + behavior_json(b.behavior), "}"@, "}"@);
}

proof fn lemma_same_problems(a: BehaviorModel, b: BehaviorModel)
    requires
        same_behavior(a, b),
    ensures
        a.problem() == b.problem(),
{
    let skills = skill_check(a.skills);
    let others = skill_check(b.skills);
    assert forall|i: int| 0 <= i < a.skills.len() implies #[trigger] skills(i) == others(i) by {
        assert(a.skills[i].key@ == b.skills[i].key@);
    }
    lemma_first_some_same(skills, others, a.skills.len() as int);
    let roles = role_check(a.subagent_roles);
    let others = role_check(b.subagent_roles);
    assert forall|i: int| 0 <= i < a.subagent_roles.len() implies #[trigger] roles(i) == others(
        i,
    ) by {
        assert(a.subagent_roles[i].key@ == b.subagent_roles[i].key@);
    }
    lemma_first_some_same(roles, others, a.subagent_roles.len() as int);
}

/// Revisions with the same canonical JSON are accepted alike.
pub proof fn lemma_accepted_alike(a: RevisionModel, b: RevisionModel)
    requires
        revision_json(a) == revision_json(b),
    ensures
        same_revision(a, b),
        is_alike(accepted(a), accepted(b)),
{
    law_canonical_json_tells_revisions_apart(a, b);
    lemma_same_problems(a.behavior, b.behavior);
}

/// The canonical JSON of an acceptable revision is read back as that revision, under the same
/// identity: whatever a reading of the bytes makes of them is an acceptable revision that
/// says the same.
pub proof fn law_canonical_manifests_read_back(
    revision: RevisionModel,
    read: Result<ValidatedHarnessRevision, ManifestError>,
)
    requires
        revision_sound(revision),
        ordered(revision.behavior),
        is_reading(
            read,
            match read_problem(
                encode_utf8(revision_json(revision)),
                "manifest",
                Some(revision),
            ) {
                Some(error) => Err::<RevisionModel, ManifestError>(error),
                None => accepted(revision),
            },
        ),
    ensures
        spells(encode_utf8(revision_json(revision)), revision),
        read is Ok,
        same_revision(read->Ok_0@, revision),
        revision_json(read->Ok_0@) == revision_json(revision),
        revision_id(read->Ok_0@) == digest_of(encode_utf8(revision_json(revision))),
{
    law_same_revisions_are_written_alike(read->Ok_0@, revision);
}

} // verus!
