//! Canonical manifests: revisions read from the JSON that they are written as.
use crate::canonical::{bool_text, json_string, quoted};
use crate::evolution::harness::{
    behavior_json, budgets_json, interval_json, reminder_set_json, reminder_set_text,
    revision_json, revision_text, role_json, roles_json, schedule_json, skills_json,
    tool_set_json, tool_set_text, BehaviorLayer, BehaviorModel, HarnessRevision, ReminderSet,
    ResourceBudgets, RevisionModel, SubagentRole, ToolSet, VerifierSchedule,
};
use crate::evolution::readback::{
    lemma_reminder_sets_tell, lemma_tool_sets_tell, same_behavior, same_revision, same_roles,
    same_skills,
};
use crate::readback::{lemma_taken_off, tells};
use crate::reading::{lemma_parts_occur, take_digest, take_number, take_part, take_string};
use crate::text::{
    chars_of, decimal, is_digit, lemma_decimal, occurs_at, read_utf8, same_text, text_precedes,
};
use crate::text_map::{keys_ascend, Entry, TextMap};
use vstd::prelude::*;
use vstd::utf8::{
    decode_utf8_encode_utf8, encode_utf8, encode_utf8_decode_utf8, encode_utf8_valid_utf8,
};

verus! {

/// Two texts at one place are the same if they tell where they end.
proof fn lemma_one_piece(text: Seq<char>, p: Seq<char>, q: Seq<char>, at: int)
    requires
        tells(p, q),
        occurs_at(text, p, at),
        occurs_at(text, q, at),
    ensures
        p == q,
{
    let rest = text.skip(at);
    let x = rest.skip(p.len() as int);
    let y = rest.skip(q.len() as int);
    assert(rest =~= text.subrange(at, at + p.len()) + x);
    assert(rest =~= text.subrange(at, at + q.len()) + y);
    lemma_taken_off(p, q, x, y);
}

fn take_bool(chars: &Vec<char>, at: usize, Ghost(v): Ghost<bool>) -> (r: Option<(bool, usize)>)
    ensures
        occurs_at(chars@, bool_text(v), at as int) ==> r == Some(
            (v, (at + bool_text(v).len()) as usize),
        ),
        r is Some ==> at <= (r->0).1 <= chars.len(),
{
    proof {
        reveal_strlit("true");
        reveal_strlit("false");
        if occurs_at(chars@, bool_text(v), at as int) {
            assert(chars@.subrange(at as int, at + bool_text(v).len())[0] == bool_text(v)[0]);
        }
        if occurs_at(chars@, "true"@, at as int) {
            assert(chars@.subrange(at as int, at + 4)[0] == 't');
        }
    }
    match take_part(chars, at, "true") {
        Some(next) => Some((true, next)),
        None => match take_part(chars, at, "false") {
            Some(next) => Some((false, next)),
            None => None,
        },
    }
}

fn take_small(
    chars: &Vec<char>,
    at: usize,
    Ghost(n): Ghost<u32>,
    Ghost(end): Ghost<Seq<char>>,
) -> (r: Option<(u32, usize)>)
    requires
        end.len() > 0,
        !is_digit(end[0]),
    ensures
        occurs_at(chars@, decimal(n as nat) + end, at as int) ==> r == Some(
            (n, (at + decimal(n as nat).len()) as usize),
        ),
        r is Some ==> at <= (r->0).1 <= chars.len(),
{
    match take_number(chars, at, Ghost(n as u64), Ghost(end)) {
        Some((m, next)) => if m <= u32::MAX as u64 {
            Some((m as u32, next))
        } else {
            None
        },
        None => None,
    }
}

fn take_interval(
    chars: &Vec<char>,
    at: usize,
    Ghost(v): Ghost<Option<u32>>,
    Ghost(end): Ghost<Seq<char>>,
) -> (r: Option<(Option<u32>, usize)>)
    requires
        end.len() > 0,
        !is_digit(end[0]),
    ensures
        occurs_at(chars@, interval_json(v) + end, at as int) ==> r == Some(
            (v, (at + interval_json(v).len()) as usize),
        ),
        r is Some ==> at <= (r->0).1 <= chars.len(),
{
    let ghost stands = occurs_at(chars@, interval_json(v) + end, at as int);
    let ghost n: u32 = match v {
        Some(n) => n,
        None => 0,
    };
    proof {
        reveal_strlit("");
        reveal_strlit("null");
        lemma_decimal(n as nat);
        if stands {
            lemma_parts_occur(chars@, interval_json(v), end, at as int);
            if v is Some {
                assert(interval_json(v) =~= decimal(n as nat));
                assert(chars@.subrange(at as int, at + decimal(n as nat).len())[0] == decimal(
                    n as nat,
                )[0]);
            }
        }
        if occurs_at(chars@, "null"@, at as int) {
            assert(chars@.subrange(at as int, at + 4)[0] == 'n');
        }
    }
    match take_part(chars, at, "null") {
        Some(next) => Some((None, next)),
        None => match take_small(chars, at, Ghost(n), Ghost(end)) {
            Some((interval, next)) => Some((Some(interval), next)),
            None => None,
        },
    }
}

/// The set of tools with a number: one bit for each.
spec fn tools_numbered(n: int) -> ToolSet {
    ToolSet {
        exec_command: n % 2 == 1,
        read_file: n / 2 % 2 == 1,
        search: n / 4 % 2 == 1,
        write_file: n / 8 % 2 == 1,
    }
}

fn take_tools(chars: &Vec<char>, at: usize, Ghost(v): Ghost<ToolSet>) -> (r: Option<
    (ToolSet, usize),
>)
    ensures
        occurs_at(chars@, tool_set_json(v) + "]"@, at as int) ==> r == Some(
            (v, (at + tool_set_json(v).len()) as usize),
        ),
        r is Some ==> at <= (r->0).1 <= chars.len(),
{
    let ghost stands = occurs_at(chars@, tool_set_json(v) + "]"@, at as int);
    let mut n: u8 = 0;
    while n < 16
        invariant
            n <= 16,
            stands == occurs_at(chars@, tool_set_json(v) + "]"@, at as int),
            stands ==> forall|m: int| 0 <= m < n ==> #[trigger] tools_numbered(m) != v,
        decreases 16 - n,
    {
        let set = ToolSet {
            exec_command: n % 2 == 1,
            read_file: n / 2 % 2 == 1,
            search: n / 4 % 2 == 1,
            write_file: n / 8 % 2 == 1,
        };
        assert(set == tools_numbered(n as int));
        let text = tool_set_text(&set);
        match take_part(chars, at, text.as_str()) {
            Some(next) => match take_part(chars, next, "]") {
                Some(_) => {
                    proof {
                        reveal_strlit("]");
                        if stands {
                            assert(chars@.subrange(at as int, next + 1) =~= tool_set_json(set)
                                + "]"@);
                            lemma_tool_sets_tell(set, v, "]"@);
                            lemma_one_piece(
                                chars@,
                                tool_set_json(set) + "]"@,
                                tool_set_json(v) + "]"@,
                                at as int,
                            );
                            assert(tool_set_json(set) =~= (tool_set_json(set) + "]"@).drop_last());
                            assert(tool_set_json(v) =~= (tool_set_json(v) + "]"@).drop_last());
                        }
                    }
                    return Some((set, next));
                },
                None => {
                    proof {
                        if stands && set == v {
                            lemma_parts_occur(chars@, tool_set_json(v), "]"@, at as int);
                        }
                    }
                },
            },
            None => {
                proof {
                    if stands && set == v {
                        lemma_parts_occur(chars@, tool_set_json(v), "]"@, at as int);
                    }
                }
            },
        }
        n += 1;
    }
    proof {
        let m = (if v.exec_command { 1int } else { 0 }) + (if v.read_file { 2int } else { 0 }) + (
        if v.search { 4int } else { 0 }) + (if v.write_file { 8int } else { 0 });
        assert(tools_numbered(m) == v);
    }
    None
}

/// The set of reminders with a number: one bit for each.
spec fn reminders_numbered(n: int) -> ReminderSet {
    ReminderSet {
        inspect_status_before_retry: n % 2 == 1,
        preserve_pinned_revision: n / 2 % 2 == 1,
        stop_after_unknown_effect: n / 4 % 2 == 1,
    }
}

fn take_reminders(chars: &Vec<char>, at: usize, Ghost(v): Ghost<ReminderSet>) -> (r: Option<
    (ReminderSet, usize),
>)
    ensures
        occurs_at(chars@, reminder_set_json(v) + "]"@, at as int) ==> r == Some(
            (v, (at + reminder_set_json(v).len()) as usize),
        ),
        r is Some ==> at <= (r->0).1 <= chars.len(),
{
    let ghost stands = occurs_at(chars@, reminder_set_json(v) + "]"@, at as int);
    let mut n: u8 = 0;
    while n < 8
        invariant
            n <= 8,
            stands == occurs_at(chars@, reminder_set_json(v) + "]"@, at as int),
            stands ==> forall|m: int| 0 <= m < n ==> #[trigger] reminders_numbered(m) != v,
        decreases 8 - n,
    {
        let set = ReminderSet {
            inspect_status_before_retry: n % 2 == 1,
            preserve_pinned_revision: n / 2 % 2 == 1,
            stop_after_unknown_effect: n / 4 % 2 == 1,
        };
        assert(set == reminders_numbered(n as int));
        let text = reminder_set_text(&set);
        match take_part(chars, at, text.as_str()) {
            Some(next) => match take_part(chars, next, "]") {
                Some(_) => {
                    proof {
                        reveal_strlit("]");
                        if stands {
                            assert(chars@.subrange(at as int, next + 1) =~= reminder_set_json(set)
                                + "]"@);
                            lemma_reminder_sets_tell(set, v, "]"@);
                            lemma_one_piece(
                                chars@,
                                reminder_set_json(set) + "]"@,
                                reminder_set_json(v) + "]"@,
                                at as int,
                            );
                            assert(reminder_set_json(set) =~= (reminder_set_json(set)
                                + "]"@).drop_last());
                            assert(reminder_set_json(v) =~= (reminder_set_json(v)
                                + "]"@).drop_last());
                        }
                    }
                    return Some((set, next));
                },
                None => {
                    proof {
                        if stands && set == v {
                            lemma_parts_occur(chars@, reminder_set_json(v), "]"@, at as int);
                        }
                    }
                },
            },
            None => {
                proof {
                    if stands && set == v {
                        lemma_parts_occur(chars@, reminder_set_json(v), "]"@, at as int);
                    }
                }
            },
        }
        n += 1;
    }
    proof {
        let m = (if v.inspect_status_before_retry { 1int } else { 0 }) + (
        if v.preserve_pinned_revision { 2int } else { 0 }) + (
        if v.stop_after_unknown_effect { 4int } else { 0 });
        assert(reminders_numbered(m) == v);
    }
    None
}

fn take_schedule(chars: &Vec<char>, at: usize, Ghost(v): Ghost<VerifierSchedule>) -> (r: Option<
    (VerifierSchedule, usize),
>)
    ensures
        occurs_at(chars@, schedule_json(v), at as int) ==> r == Some(
            (v, (at + schedule_json(v).len()) as usize),
        ),
        r is Some ==> at <= (r->0).1 <= chars.len(),
{
    let ghost middle = ",\"before_completion\":"@;
    proof {
        reveal_strlit(",\"before_completion\":");
        if occurs_at(chars@, schedule_json(v), at as int) {
            let start = "{\"after_tool_calls\":"@;
            let interval = interval_json(v.after_tool_calls);
            let before = start + interval + middle;
            lemma_parts_occur(chars@, before + bool_text(v.before_completion), "}"@, at as int);
            lemma_parts_occur(chars@, before, bool_text(v.before_completion), at as int);
            lemma_parts_occur(chars@, start + interval, middle, at as int);
            assert(before =~= start + (interval + middle));
            lemma_parts_occur(chars@, start, interval + middle, at as int);
        }
    }
    let at = match take_part(chars, at, "{\"after_tool_calls\":") {
        Some(next) => next,
        None => return None,
    };
    let (after_tool_calls, at) = match take_interval(
        chars,
        at,
        Ghost(v.after_tool_calls),
        Ghost(middle),
    ) {
        Some(found) => found,
        None => return None,
    };
    let at = match take_part(chars, at, ",\"before_completion\":") {
        Some(next) => next,
        None => return None,
    };
    let (before_completion, at) = match take_bool(chars, at, Ghost(v.before_completion)) {
        Some(found) => found,
        None => return None,
    };
    let at = match take_part(chars, at, "}") {
        Some(next) => next,
        None => return None,
    };
    Some((VerifierSchedule { after_tool_calls, before_completion }, at))
}

#[verifier::spinoff_prover]
#[verifier::rlimit(60)]
fn take_budgets(chars: &Vec<char>, at: usize, Ghost(v): Ghost<ResourceBudgets>) -> (r: Option<
    (ResourceBudgets, usize),
>)
    ensures
        occurs_at(chars@, budgets_json(v), at as int) ==> r == Some(
            (v, (at + budgets_json(v).len()) as usize),
        ),
        r is Some ==> at <= (r->0).1 <= chars.len(),
{
    proof {
        reveal_strlit(",\"subagents\":");
        reveal_strlit(",\"verifier_runs\":");
        reveal_strlit(",\"output_bytes\":");
        reveal_strlit(",\"tokens\":");
        reveal_strlit(",\"elapsed_ms\":");
        reveal_strlit("}");
        if occurs_at(chars@, budgets_json(v), at as int) {
            let p0 = "{\"tool_calls\":"@;
            let p1 = p0 + decimal(v.tool_calls as nat) + ",\"subagents\":"@;
            let p2 = p1 + decimal(v.subagents as nat) + ",\"verifier_runs\":"@;
            let p3 = p2 + decimal(v.verifier_runs as nat) + ",\"output_bytes\":"@;
            let p4 = p3 + decimal(v.output_bytes as nat) + ",\"tokens\":"@;
            let p5 = p4 + decimal(v.tokens as nat) + ",\"elapsed_ms\":"@;
            let p6 = p5 + decimal(v.elapsed_ms as nat) + "}"@;
            assert(p6 =~= p5 + (decimal(v.elapsed_ms as nat) + "}"@));
            lemma_parts_occur(chars@, p5, decimal(v.elapsed_ms as nat) + "}"@, at as int);
            lemma_parts_occur(chars@, p5 + decimal(v.elapsed_ms as nat), "}"@, at as int);
            assert(p5 =~= p4 + (decimal(v.tokens as nat) + ",\"elapsed_ms\":"@));
            lemma_parts_occur(chars@, p4, decimal(v.tokens as nat) + ",\"elapsed_ms\":"@, at as int);
            lemma_parts_occur(chars@, p4 + decimal(v.tokens as nat), ",\"elapsed_ms\":"@, at as int);
            assert(p4 =~= p3 + (decimal(v.output_bytes as nat) + ",\"tokens\":"@));
            lemma_parts_occur(chars@, p3, decimal(v.output_bytes as nat) + ",\"tokens\":"@, at as int);
            lemma_parts_occur(chars@, p3 + decimal(v.output_bytes as nat), ",\"tokens\":"@, at as int);
            assert(p3 =~= p2 + (decimal(v.verifier_runs as nat) + ",\"output_bytes\":"@));
            lemma_parts_occur(chars@, p2, decimal(v.verifier_runs as nat) + ",\"output_bytes\":"@, at as int);
            lemma_parts_occur(chars@, p2 + decimal(v.verifier_runs as nat), ",\"output_bytes\":"@, at as int);
            assert(p2 =~= p1 + (decimal(v.subagents as nat) + ",\"verifier_runs\":"@));
            lemma_parts_occur(chars@, p1, decimal(v.subagents as nat) + ",\"verifier_runs\":"@, at as int);
            lemma_parts_occur(chars@, p1 + decimal(v.subagents as nat), ",\"verifier_runs\":"@, at as int);
            assert(p1 =~= p0 + (decimal(v.tool_calls as nat) + ",\"subagents\":"@));
            lemma_parts_occur(chars@, p0, decimal(v.tool_calls as nat) + ",\"subagents\":"@, at as int);
            lemma_parts_occur(chars@, p0 + decimal(v.tool_calls as nat), ",\"subagents\":"@, at as int);
        }
    }
    let at = match take_part(chars, at, "{\"tool_calls\":") {
        Some(next) => next,
        None => return None,
    };
    let (tool_calls, at) = match take_number(
        chars,
        at,
        Ghost(v.tool_calls as u64),
        Ghost(",\"subagents\":"@),
    ) {
        Some(found) => found,
        None => return None,
    };
    let at = match take_part(chars, at, ",\"subagents\":") {
        Some(next) => next,
        None => return None,
    };
    let (subagents, at) = match take_number(
        chars,
        at,
        Ghost(v.subagents as u64),
        Ghost(",\"verifier_runs\":"@),
    ) {
        Some(found) => found,
        None => return None,
    };
    let at = match take_part(chars, at, ",\"verifier_runs\":") {
        Some(next) => next,
        None => return None,
    };
    let (verifier_runs, at) = match take_number(
        chars,
        at,
        Ghost(v.verifier_runs as u64),
        Ghost(",\"output_bytes\":"@),
    ) {
        Some(found) => found,
        None => return None,
    };
    let at = match take_part(chars, at, ",\"output_bytes\":") {
        Some(next) => next,
        None => return None,
    };
    let (output_bytes, at) = match take_number(
        chars,
        at,
        Ghost(v.output_bytes as u64),
        Ghost(",\"tokens\":"@),
    ) {
        Some(found) => found,
        None => return None,
    };
    let at = match take_part(chars, at, ",\"tokens\":") {
        Some(next) => next,
        None => return None,
    };
    let (tokens, at) = match take_number(
        chars,
        at,
        Ghost(v.tokens as u64),
        Ghost(",\"elapsed_ms\":"@),
    ) {
        Some(found) => found,
        None => return None,
    };
    let at = match take_part(chars, at, ",\"elapsed_ms\":") {
        Some(next) => next,
        None => return None,
    };
    let (elapsed_ms, at) = match take_number(
        chars,
        at,
        Ghost(v.elapsed_ms as u64),
        Ghost("}"@),
    ) {
        Some(found) => found,
        None => return None,
    };
    let at = match take_part(chars, at, "}") {
        Some(next) => next,
        None => return None,
    };
    if tool_calls > u32::MAX as u64 || subagents > u16::MAX as u64 || verifier_runs
        > u16::MAX as u64 {
        return None;
    }
    let budgets = ResourceBudgets {
        tool_calls: tool_calls as u32,
        subagents: subagents as u16,
        verifier_runs: verifier_runs as u16,
        output_bytes,
        tokens,
        elapsed_ms,
    };
    Some((budgets, at))
}

/// The first entries of a list of skills stand where the list stands.
proof fn lemma_skills_begin(text: Seq<char>, v: Seq<Entry<String>>, k: int, n: int, at: int)
    requires
        0 <= k <= n,
        occurs_at(text, skills_json(v, n), at),
    ensures
        occurs_at(text, skills_json(v, k), at),
    decreases n,
{
    if k < n {
        let before = skills_json(v, n - 1);
        let comma = if n == 1 {
            ""@
        } else {
            ","@
        };
        let key = json_string(v[n - 1].key@);
        lemma_parts_occur(text, before + comma + key + ":"@, json_string(v[n - 1].value@), at);
        lemma_parts_occur(text, before + comma + key, ":"@, at);
        lemma_parts_occur(text, before + comma, key, at);
        lemma_parts_occur(text, before, comma, at);
        lemma_skills_begin(text, v, k, n - 1, at);
    }
}

fn take_skills(
    chars: &Vec<char>,
    at: usize,
    Ghost(v): Ghost<Seq<Entry<String>>>,
    Ghost(end): Ghost<Seq<char>>,
) -> (r: Option<(Vec<Entry<String>>, usize)>)
    requires
        end.len() > 0,
        end[0] == '}',
    ensures
        occurs_at(chars@, skills_json(v, v.len() as int) + end, at as int) ==> {
            &&& r is Some
            &&& same_skills((r->0).0@, v)
            &&& (r->0).1 == at + skills_json(v, v.len() as int).len()
        },
        r is Some ==> at <= (r->0).1 <= chars.len(),
{
    let ghost all = skills_json(v, v.len() as int);
    let ghost stands = occurs_at(chars@, all + end, at as int);
    let mut entries: Vec<Entry<String>> = Vec::new();
    let mut i: usize = at;
    proof {
        reveal_strlit("");
    }
    while i < chars.len()
        invariant
            at <= i,
            end.len() > 0,
            end[0] == '}',
            all == skills_json(v, v.len() as int),
            stands == occurs_at(chars@, all + end, at as int),
            stands ==> {
                &&& entries.len() <= v.len()
                &&& same_skills(entries@, v.take(entries.len() as int))
                &&& i == at + skills_json(v, entries.len() as int).len()
            },
        decreases chars.len() - i,
    {
        let ghost k = entries.len() as int;
        proof {
            reveal_strlit("");
            reveal_strlit(",");
            reveal_strlit(":");
            reveal_strlit("\"");
            if stands {
                lemma_parts_occur(chars@, all, end, at as int);
                if k == v.len() {
                    assert(chars@.subrange(i as int, i + end.len())[0] == end[0]);
                    assert(v.take(k) =~= v);
                } else {
                    lemma_skills_begin(chars@, v, k + 1, v.len() as int, at as int);
                    let before = skills_json(v, k);
                    let comma = if k == 0 {
                        ""@
                    } else {
                        ","@
                    };
                    let key = json_string(v[k].key@);
                    let value = json_string(v[k].value@);
                    lemma_parts_occur(chars@, before + comma + key + ":"@, value, at as int);
                    lemma_parts_occur(chars@, before + comma + key, ":"@, at as int);
                    lemma_parts_occur(chars@, before + comma, key, at as int);
                    lemma_parts_occur(chars@, before, comma, at as int);
                    assert(chars@.subrange(i + comma.len(), i + comma.len() + key.len())[0] == '"');
                    if k > 0 {
                        assert(chars@.subrange(i as int, i + 1)[0] == ',');
                    }
                }
            }
        }
        if chars[i] == '}' {
            return Some((entries, i));
        }
        let start = if entries.len() == 0 {
            i
        } else {
            match take_part(chars, i, ",") {
                Some(next) => next,
                None => return None,
            }
        };
        let (key, next) = match take_string(chars, start, Ghost(v[k].key@)) {
            Some(found) => found,
            None => return None,
        };
        let next = match take_part(chars, next, ":") {
            Some(next) => next,
            None => return None,
        };
        let (value, next) = match take_string(chars, next, Ghost(v[k].value@)) {
            Some(found) => found,
            None => return None,
        };
        let ghost before = entries@;
        entries.push(Entry { key, value });
        i = next;
        proof {
            if stands {
                let now = v.take(k + 1);
                assert forall|j: int| 0 <= j < entries@.len() implies (#[trigger] entries@[j]).key@
                    == now[j].key@ && entries@[j].value@ == now[j].value@ by {
                    if j < k {
                        assert(entries@[j] == before[j]);
                        assert(v.take(k)[j] == v[j]);
                    }
                }
            }
        }
    }
    proof {
        if stands {
            let k = entries.len() as int;
            lemma_parts_occur(chars@, all, end, at as int);
            if k < v.len() {
                reveal_strlit(":");
                lemma_skills_begin(chars@, v, k + 1, v.len() as int, at as int);
            }
        }
    }
    None
}

fn take_role(chars: &Vec<char>, at: usize, Ghost(v): Ghost<SubagentRole>) -> (r: Option<
    (SubagentRole, usize),
>)
    ensures
        occurs_at(chars@, role_json(v), at as int) ==> {
            &&& r is Some
            &&& (r->0).0.instructions@ == v.instructions@
            &&& (r->0).0.tools == v.tools
            &&& (r->0).1 == at + role_json(v).len()
        },
        r is Some ==> at < (r->0).1 <= chars.len(),
{
    proof {
        reveal_strlit("{\"instructions\":");
        reveal_strlit("]}");
        reveal_strlit("]");
        reveal_strlit("}");
        if occurs_at(chars@, role_json(v), at as int) {
            let p0 = "{\"instructions\":"@;
            let p1 = p0 + json_string(v.instructions@);
            let p2 = p1 + ",\"tools\":["@;
            let tools = tool_set_json(v.tools);
            assert(p2 + tools + "]}"@ =~= p2 + (tools + "]"@) + "}"@);
            lemma_parts_occur(chars@, p2 + (tools + "]"@), "}"@, at as int);
            lemma_parts_occur(chars@, p2, tools + "]"@, at as int);
            lemma_parts_occur(chars@, p2 + tools, "]}"@, at as int);
            lemma_parts_occur(chars@, p1, ",\"tools\":["@, at as int);
            lemma_parts_occur(chars@, p0, json_string(v.instructions@), at as int);
        }
    }
    let at = match take_part(chars, at, "{\"instructions\":") {
        Some(next) => next,
        None => return None,
    };
    let (instructions, at) = match take_string(chars, at, Ghost(v.instructions@)) {
        Some(found) => found,
        None => return None,
    };
    let at = match take_part(chars, at, ",\"tools\":[") {
        Some(next) => next,
        None => return None,
    };
    let (tools, at) = match take_tools(chars, at, Ghost(v.tools)) {
        Some(found) => found,
        None => return None,
    };
    let at = match take_part(chars, at, "]}") {
        Some(next) => next,
        None => return None,
    };
    Some((SubagentRole { instructions, tools }, at))
}

/// The first entries of a list of roles stand where the list stands.
proof fn lemma_roles_begin(text: Seq<char>, v: Seq<Entry<SubagentRole>>, k: int, n: int, at: int)
    requires
        0 <= k <= n,
        occurs_at(text, roles_json(v, n), at),
    ensures
        occurs_at(text, roles_json(v, k), at),
    decreases n,
{
    if k < n {
        let before = roles_json(v, n - 1);
        let comma = if n == 1 {
            ""@
        } else {
            ","@
        };
        let key = json_string(v[n - 1].key@);
        lemma_parts_occur(text, before + comma + key + ":"@, role_json(v[n - 1].value), at);
        lemma_parts_occur(text, before + comma + key, ":"@, at);
        lemma_parts_occur(text, before + comma, key, at);
        lemma_parts_occur(text, before, comma, at);
        lemma_roles_begin(text, v, k, n - 1, at);
    }
}

fn take_roles(
    chars: &Vec<char>,
    at: usize,
    Ghost(v): Ghost<Seq<Entry<SubagentRole>>>,
    Ghost(end): Ghost<Seq<char>>,
) -> (r: Option<(Vec<Entry<SubagentRole>>, usize)>)
    requires
        end.len() > 0,
        end[0] == '}',
    ensures
        occurs_at(chars@, roles_json(v, v.len() as int) + end, at as int) ==> {
            &&& r is Some
            &&& same_roles((r->0).0@, v)
            &&& (r->0).1 == at + roles_json(v, v.len() as int).len()
        },
        r is Some ==> at <= (r->0).1 <= chars.len(),
{
    let ghost all = roles_json(v, v.len() as int);
    let ghost stands = occurs_at(chars@, all + end, at as int);
    let mut entries: Vec<Entry<SubagentRole>> = Vec::new();
    let mut i: usize = at;
    proof {
        reveal_strlit("");
    }
    while i < chars.len()
        invariant
            at <= i,
            end.len() > 0,
            end[0] == '}',
            all == roles_json(v, v.len() as int),
            stands == occurs_at(chars@, all + end, at as int),
            stands ==> {
                &&& entries.len() <= v.len()
                &&& same_roles(entries@, v.take(entries.len() as int))
                &&& i == at + roles_json(v, entries.len() as int).len()
            },
        decreases chars.len() - i,
    {
        let ghost k = entries.len() as int;
        proof {
            reveal_strlit("");
            reveal_strlit(",");
            reveal_strlit(":");
            reveal_strlit("\"");
            if stands {
                lemma_parts_occur(chars@, all, end, at as int);
                if k == v.len() {
                    assert(chars@.subrange(i as int, i + end.len())[0] == end[0]);
                    assert(v.take(k) =~= v);
                } else {
                    lemma_roles_begin(chars@, v, k + 1, v.len() as int, at as int);
                    let before = roles_json(v, k);
                    let comma = if k == 0 {
                        ""@
                    } else {
                        ","@
                    };
                    let key = json_string(v[k].key@);
                    let value = role_json(v[k].value);
                    lemma_parts_occur(chars@, before + comma + key + ":"@, value, at as int);
                    lemma_parts_occur(chars@, before + comma + key, ":"@, at as int);
                    lemma_parts_occur(chars@, before + comma, key, at as int);
                    lemma_parts_occur(chars@, before, comma, at as int);
                    assert(chars@.subrange(i + comma.len(), i + comma.len() + key.len())[0] == '"');
                    if k > 0 {
                        assert(chars@.subrange(i as int, i + 1)[0] == ',');
                    }
                }
            }
        }
        if chars[i] == '}' {
            return Some((entries, i));
        }
        let start = if entries.len() == 0 {
            i
        } else {
            match take_part(chars, i, ",") {
                Some(next) => next,
                None => return None,
            }
        };
        let (key, next) = match take_string(chars, start, Ghost(v[k].key@)) {
            Some(found) => found,
            None => return None,
        };
        let next = match take_part(chars, next, ":") {
            Some(next) => next,
            None => return None,
        };
        let (value, next) = match take_role(chars, next, Ghost(v[k].value)) {
            Some(found) => found,
            None => return None,
        };
        let ghost before = entries@;
        entries.push(Entry { key, value });
        i = next;
        proof {
            if stands {
                let now = v.take(k + 1);
                assert forall|j: int| 0 <= j < entries@.len() implies {
                    &&& (#[trigger] entries@[j]).key@ == now[j].key@
                    &&& entries@[j].value.instructions@ == now[j].value.instructions@
                    &&& entries@[j].value.tools == now[j].value.tools
                } by {
                    if j < k {
                        assert(entries@[j] == before[j]);
                        assert(v.take(k)[j] == v[j]);
                    }
                }
            }
        }
    }
    proof {
        if stands {
            let k = entries.len() as int;
            lemma_parts_occur(chars@, all, end, at as int);
            if k < v.len() {
                reveal_strlit(":");
                lemma_roles_begin(chars@, v, k + 1, v.len() as int, at as int);
            }
        }
    }
    None
}

/// Whether the entries of a behavior stand in the order of their texts.
pub open spec fn ordered(behavior: BehaviorModel) -> bool {
    keys_ascend(behavior.skills) && keys_ascend(behavior.subagent_roles)
}

proof fn lemma_ordered_alike(a: BehaviorModel, b: BehaviorModel)
    requires
        same_behavior(a, b),
        ordered(b),
    ensures
        ordered(a),
{
    assert forall|i: int, j: int| 0 <= i < j < a.skills.len() implies text_precedes(
        (#[trigger] a.skills[i]).key@,
        (#[trigger] a.skills[j]).key@,
    ) by {
        assert(text_precedes(b.skills[i].key@, b.skills[j].key@));
    }
    assert forall|i: int, j: int| 0 <= i < j < a.subagent_roles.len() implies text_precedes(
        (#[trigger] a.subagent_roles[i]).key@,
        (#[trigger] a.subagent_roles[j]).key@,
    ) by {
        assert(text_precedes(b.subagent_roles[i].key@, b.subagent_roles[j].key@));
    }
}

#[verifier::spinoff_prover]
#[verifier::rlimit(60)]
fn take_behavior(chars: &Vec<char>, at: usize, Ghost(v): Ghost<BehaviorModel>) -> (r: Option<
    (BehaviorLayer, usize),
>)
    ensures
        ordered(v) && occurs_at(chars@, behavior_json(v), at as int) ==> {
            &&& r is Some
            &&& same_behavior((r->0).0@, v)
            &&& (r->0).1 == at + behavior_json(v).len()
        },
        r is Some ==> at <= (r->0).1 <= chars.len(),
{
    let ghost first_end = "},\"recovery_reminders\":["@;
    let ghost second_end = "},\"verifier\":"@;
    proof {
        reveal_strlit("},\"recovery_reminders\":[");
        reveal_strlit("],\"subagent_roles\":{");
        reveal_strlit(",\"subagent_roles\":{");
        reveal_strlit("},\"verifier\":");
        reveal_strlit("]");
        if occurs_at(chars@, behavior_json(v), at as int) {
            let skills = skills_json(v.skills, v.skills.len() as int);
            let reminders = reminder_set_json(v.recovery_reminders);
            let roles = roles_json(v.subagent_roles, v.subagent_roles.len() as int);
            let p0 = "{\"instructions\":"@;
            let p1 = p0 + json_string(v.instructions);
            let p2 = p1 + ",\"skills\":{"@;
            let p3 = p2 + skills + first_end;
            let p4 = p3 + reminders + "],\"subagent_roles\":{"@;
            let p5 = p4 + roles + second_end;
            let p6 = p5 + schedule_json(v.verifier);
            let p7 = p6 + ",\"budgets\":"@;
            lemma_parts_occur(chars@, p7 + budgets_json(v.budgets), "}"@, at as int);
            lemma_parts_occur(chars@, p7, budgets_json(v.budgets), at as int);
            lemma_parts_occur(chars@, p6, ",\"budgets\":"@, at as int);
            lemma_parts_occur(chars@, p5, schedule_json(v.verifier), at as int);
            lemma_parts_occur(chars@, p4 + roles, second_end, at as int);
            assert(p5 =~= p4 + (roles + second_end));
            lemma_parts_occur(chars@, p4, roles + second_end, at as int);
            lemma_parts_occur(chars@, p3 + reminders, "],\"subagent_roles\":{"@, at as int);
            assert("],\"subagent_roles\":{"@ =~= "]"@ + ",\"subagent_roles\":{"@);
            assert(p4 =~= p3 + (reminders + "]"@) + ",\"subagent_roles\":{"@);
            lemma_parts_occur(chars@, p3 + (reminders + "]"@), ",\"subagent_roles\":{"@, at as int);
            lemma_parts_occur(chars@, p3, reminders + "]"@, at as int);
            lemma_parts_occur(chars@, p2 + skills, first_end, at as int);
            assert(p3 =~= p2 + (skills + first_end));
            lemma_parts_occur(chars@, p2, skills + first_end, at as int);
            lemma_parts_occur(chars@, p1, ",\"skills\":{"@, at as int);
            lemma_parts_occur(chars@, p0, json_string(v.instructions), at as int);
        }
    }
    let at = match take_part(chars, at, "{\"instructions\":") {
        Some(next) => next,
        None => return None,
    };
    let (instructions, at) = match take_string(chars, at, Ghost(v.instructions)) {
        Some(found) => found,
        None => return None,
    };
    let at = match take_part(chars, at, ",\"skills\":{") {
        Some(next) => next,
        None => return None,
    };
    let (skills, at) = match take_skills(chars, at, Ghost(v.skills), Ghost(first_end)) {
        Some(found) => found,
        None => return None,
    };
    let at = match take_part(chars, at, "},\"recovery_reminders\":[") {
        Some(next) => next,
        None => return None,
    };
    let (recovery_reminders, at) = match take_reminders(chars, at, Ghost(v.recovery_reminders)) {
        Some(found) => found,
        None => return None,
    };
    let at = match take_part(chars, at, "],\"subagent_roles\":{") {
        Some(next) => next,
        None => return None,
    };
    let (roles, at) = match take_roles(chars, at, Ghost(v.subagent_roles), Ghost(second_end)) {
        Some(found) => found,
        None => return None,
    };
    let at = match take_part(chars, at, "},\"verifier\":") {
        Some(next) => next,
        None => return None,
    };
    let (verifier, at) = match take_schedule(chars, at, Ghost(v.verifier)) {
        Some(found) => found,
        None => return None,
    };
    let at = match take_part(chars, at, ",\"budgets\":") {
        Some(next) => next,
        None => return None,
    };
    let (budgets, at) = match take_budgets(chars, at, Ghost(v.budgets)) {
        Some(found) => found,
        None => return None,
    };
    let at = match take_part(chars, at, "}") {
        Some(next) => next,
        None => return None,
    };
    proof {
        let found = BehaviorModel {
            instructions: instructions@,
            skills: skills@,
            recovery_reminders,
            subagent_roles: roles@,
            verifier,
            budgets,
        };
        if same_behavior(found, v) && ordered(v) {
            lemma_ordered_alike(found, v);
        }
    }
    match (TextMap::from_entries(skills), TextMap::from_entries(roles)) {
        (Some(skills), Some(subagent_roles)) => {
            let behavior = BehaviorLayer {
                instructions,
                skills,
                recovery_reminders,
                subagent_roles,
                verifier,
                budgets,
            };
            Some((behavior, at))
        },
        _ => None,
    }
}

#[verifier::spinoff_prover]
#[verifier::rlimit(60)]
fn take_revision(chars: &Vec<char>, at: usize, Ghost(v): Ghost<RevisionModel>) -> (r: Option<
    HarnessRevision,
>)
    ensures
        ordered(v.behavior) && occurs_at(chars@, revision_json(v), at as int) ==> {
            &&& r is Some
            &&& same_revision((r->0)@, v)
        },
{
    let ghost end = ",\"parent\":"@;
    proof {
        reveal_strlit(",\"parent\":");
        if occurs_at(chars@, revision_json(v), at as int) {
            let schema = decimal(v.schema_version as nat);
            let parent = quoted(v.parent.text());
            let envelope = quoted(v.envelope_digest.text());
            let digest = quoted(v.behavior_digest.text());
            let behavior = behavior_json(v.behavior);
            let p0 = "{\"schema_version\":"@;
            let p1 = p0 + schema + end;
            let p2 = p1 + parent;
            let p3 = p2 + ",\"policy_id\":\"behavior-v1\",\"envelope_digest\":"@;
            let p4 = p3 + envelope;
            let p5 = p4 + ",\"behavior_digest\":"@;
            let p6 = p5 + digest;
            let p7 = p6 + ",\"behavior\":"@;
            lemma_parts_occur(chars@, p7 + behavior, "}"@, at as int);
            lemma_parts_occur(chars@, p7, behavior, at as int);
            lemma_parts_occur(chars@, p6, ",\"behavior\":"@, at as int);
            lemma_parts_occur(chars@, p5, digest, at as int);
            lemma_parts_occur(chars@, p4, ",\"behavior_digest\":"@, at as int);
            lemma_parts_occur(chars@, p3, envelope, at as int);
            lemma_parts_occur(
                chars@,
                p2,
                ",\"policy_id\":\"behavior-v1\",\"envelope_digest\":"@,
                at as int,
            );
            lemma_parts_occur(chars@, p1, parent, at as int);
            lemma_parts_occur(chars@, p0 + schema, end, at as int);
            assert(p1 =~= p0 + (schema + end));
            lemma_parts_occur(chars@, p0, schema + end, at as int);
        }
    }
    let at = match take_part(chars, at, "{\"schema_version\":") {
        Some(next) => next,
        None => return None,
    };
    let (schema_version, at) = match take_small(chars, at, Ghost(v.schema_version), Ghost(end)) {
        Some(found) => found,
        None => return None,
    };
    let at = match take_part(chars, at, ",\"parent\":") {
        Some(next) => next,
        None => return None,
    };
    let (parent, at) = match take_digest(chars, at, Ghost(v.parent)) {
        Some(found) => found,
        None => return None,
    };
    let at = match take_part(
        chars,
        at,
        ",\"policy_id\":\"behavior-v1\",\"envelope_digest\":",
    ) {
        Some(next) => next,
        None => return None,
    };
    let (envelope_digest, at) = match take_digest(chars, at, Ghost(v.envelope_digest)) {
        Some(found) => found,
        None => return None,
    };
    let at = match take_part(chars, at, ",\"behavior_digest\":") {
        Some(next) => next,
        None => return None,
    };
    let (behavior_digest, at) = match take_digest(chars, at, Ghost(v.behavior_digest)) {
        Some(found) => found,
        None => return None,
    };
    let at = match take_part(chars, at, ",\"behavior\":") {
        Some(next) => next,
        None => return None,
    };
    match take_behavior(chars, at, Ghost(v.behavior)) {
        Some((behavior, _)) => Some(
            HarnessRevision { schema_version, parent, envelope_digest, behavior_digest, behavior },
        ),
        None => None,
    }
}

proof fn lemma_skills_written_alike(a: Seq<Entry<String>>, b: Seq<Entry<String>>, n: int)
    requires
        same_skills(a, b),
        0 <= n <= a.len(),
    ensures
        skills_json(a, n) == skills_json(b, n),
    decreases n,
{
    if n > 0 {
        lemma_skills_written_alike(a, b, n - 1);
        assert(a[n - 1].key@ == b[n - 1].key@);
    }
}

proof fn lemma_roles_written_alike(
    a: Seq<Entry<SubagentRole>>,
    b: Seq<Entry<SubagentRole>>,
    n: int,
)
    requires
        same_roles(a, b),
        0 <= n <= a.len(),
    ensures
        roles_json(a, n) == roles_json(b, n),
    decreases n,
{
    if n > 0 {
        lemma_roles_written_alike(a, b, n - 1);
        assert(a[n - 1].key@ == b[n - 1].key@);
    }
}

/// Revisions that say the same have the same canonical JSON.
pub proof fn law_same_revisions_are_written_alike(a: RevisionModel, b: RevisionModel)
    requires
        same_revision(a, b),
    ensures
        revision_json(a) == revision_json(b),
{
    lemma_skills_written_alike(a.behavior.skills, b.behavior.skills, a.behavior.skills.len() as int);
    lemma_roles_written_alike(
        a.behavior.subagent_roles,
        b.behavior.subagent_roles,
        a.behavior.subagent_roles.len() as int,
    );
}

/// Whether bytes are the canonical JSON of a revision.
pub open spec fn spells(bytes: Seq<u8>, revision: RevisionModel) -> bool {
    ordered(revision.behavior) && bytes == encode_utf8(revision_json(revision))
}

/// The revision that bytes are the canonical JSON of, if they are that of one.
pub fn read_canonical(bytes: &[u8]) -> (r: Option<HarnessRevision>)
    ensures
        match r {
            Some(revision) => spells(bytes@, revision@),
            None => forall|revision: RevisionModel| !#[trigger] spells(bytes@, revision),
        },
{
    let ghost v = choose|v: RevisionModel| #[trigger] spells(bytes@, v);
    let ghost canonical = exists|v: RevisionModel| #[trigger] spells(bytes@, v);
    proof {
        if canonical {
            encode_utf8_valid_utf8(revision_json(v));
            encode_utf8_decode_utf8(revision_json(v));
        }
    }
    let text = match read_utf8(bytes) {
        Some(text) => text,
        None => return None,
    };
    let chars = chars_of(text.as_str());
    proof {
        decode_utf8_encode_utf8(bytes@);
        if canonical {
            assert(chars@.subrange(0, chars@.len() as int) =~= text@);
            assert(occurs_at(chars@, revision_json(v), 0));
        }
    }
    match take_revision(&chars, 0, Ghost(v)) {
        Some(revision) => {
            proof {
                if canonical {
                    law_same_revisions_are_written_alike(revision@, v);
                }
            }
            let again = revision_text(&revision);
            if same_text(again.as_str(), text.as_str()) {
                Some(revision)
            } else {
                None
            }
        },
        None => None,
    }
}

} // verus!
