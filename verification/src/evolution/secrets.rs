//! What redaction does to a text: which values of a line are secrets, and what becomes of it.
use crate::evolution::evidence::SanitizedEvidenceText;
use crate::evolution::ids::MiningEvidenceId;
use crate::evolution::sanitize::{
    assigned_value, controls, counted, filled_terms, first_secret, first_value, fitting, free_of,
    is_sanitized, is_sorted_terms, lemma_fitting_fits, lemma_secret_start, lemma_skip_spaces,
    line_end, line_redacted, lines_redacted, occurrences, plain, replaced, sanitized, secret_key,
    secret_start, skip_spaces, term_texts, terms_redacted, ProtectedTerm, Redacted,
};
use crate::order::{lemma_sorted_indexes, picked, sorted};
use crate::text::{control, lowered, occurs_at};
use vstd::prelude::*;
use vstd::utf8::encode_utf8;

verus! {

/// A character with an ASCII capital made small.
pub open spec fn small(c: char) -> char {
    if 'A' <= c <= 'Z' {
        ((c as u32) + 32) as char
    } else {
        c
    }
}

/// Whether a name stands at an index, in capitals or not.
pub open spec fn named_at(line: Seq<char>, name: Seq<char>, start: int) -> bool {
    &&& 0 <= start && start + name.len() <= line.len()
    &&& forall|i: int| 0 <= i < name.len() ==> small(line[start + i]) == (#[trigger] name[i])
}

/// Whether a character can be part of a longer name.
pub open spec fn joins(c: char) -> bool {
    'a' <= c <= 'z' || 'A' <= c <= 'Z' || '0' <= c <= '9' || c == '_'
}

/// Whether what stands between two indexes is no part of a longer name.
pub open spec fn alone(line: Seq<char>, start: int, end: int) -> bool {
    &&& start > 0 ==> !joins(line[start - 1])
    &&& end < line.len() ==> !joins(line[end])
}

/// Whether a character is a space, a tab or ends a line or a page.
pub open spec fn spaces(c: char) -> bool {
    c == ' ' || c == '\t' || c == '\n' || c == '\r' || c == '\u{0c}'
}

/// Whether nothing but white space stands between two indexes.
pub open spec fn apart(line: Seq<char>, a: int, b: int) -> bool {
    &&& 0 <= a <= b <= line.len()
    &&& forall|i: int| a <= i < b ==> spaces(#[trigger] line[i])
}

/// Whether a name that stands alone is followed by a colon or an equals sign, and that by a
/// value, with nothing but white space between them.
pub open spec fn assigns(
    line: Seq<char>,
    name: Seq<char>,
    start: int,
    sign: int,
    value: int,
) -> bool {
    &&& named_at(line, name, start)
    &&& alone(line, start, start + name.len())
    &&& apart(line, start + name.len(), sign)
    &&& sign < line.len() && (line[sign] == ':' || line[sign] == '=')
    &&& apart(line, sign + 1, value)
    &&& value < line.len() && !spaces(line[value])
}

/// Whether the bearer scheme stands alone and presents a value after white space.
pub open spec fn presents(line: Seq<char>, start: int, value: int) -> bool {
    let end = start + "bearer"@.len();
    &&& named_at(line, "bearer"@, start)
    &&& alone(line, start, end)
    &&& end < value < line.len()
    &&& apart(line, end, value)
    &&& !spaces(line[value])
}

/// Whether a name is one of those that secrets are assigned to.
pub open spec fn names_a_secret(name: Seq<char>) -> bool {
    name == "api_key"@
        || name == "apikey"@
        || name == "authorization"@
        || name == "credential"@
        || name == "password"@
        || name == "passwd"@
        || name == "secret"@
        || name == "token"@
}

/// Whether a secret begins at an index of a line.
#[verifier::opaque]
pub open spec fn is_secret(line: Seq<char>, value: int) -> bool {
    ||| exists|name: Seq<char>, start: int, sign: int|
        names_a_secret(name) && #[trigger] assigns(line, name, start, sign, value)
    ||| exists|start: int| #[trigger] presents(line, start, value)
}

proof fn lemma_lowered(line: Seq<char>, i: int)
    requires
        0 <= i < line.len(),
    ensures
        lowered(line)[i] == small(line[i]),
        joins(small(line[i])) == joins(line[i]),
        spaces(small(line[i])) == spaces(line[i]),
        (small(line[i]) == ':') == (line[i] == ':'),
        (small(line[i]) == '=') == (line[i] == '='),
{
}

proof fn lemma_named(line: Seq<char>, name: Seq<char>, start: int)
    ensures
        occurs_at(lowered(line), name, start) == named_at(line, name, start),
{
    let low = lowered(line);
    if occurs_at(low, name, start) {
        assert forall|i: int| 0 <= i < name.len() implies small(line[start + i]) == (
        #[trigger] name[i]) by {
            assert(low.subrange(start, start + name.len())[i] == name[i]);
            lemma_lowered(line, start + i);
        }
    }
    if named_at(line, name, start) {
        assert forall|i: int| 0 <= i < name.len() implies low.subrange(
            start,
            start + name.len(),
        )[i] == name[i] by {
            lemma_lowered(line, start + i);
        }
        assert(low.subrange(start, start + name.len()) =~= name);
    }
}

proof fn lemma_alone(line: Seq<char>, start: int, end: int)
    requires
        0 <= start <= end <= line.len(),
    ensures
        alone(lowered(line), start, end) == alone(line, start, end),
{
    if start > 0 {
        lemma_lowered(line, start - 1);
    }
    if end < line.len() {
        lemma_lowered(line, end);
    }
}

proof fn lemma_apart(line: Seq<char>, a: int, b: int)
    requires
        0 <= a <= line.len(),
    ensures
        apart(line, a, b) && (b == line.len() || !spaces(line[b])) <==> skip_spaces(lowered(line), a)
            == b,
    decreases line.len() - a,
{
    let low = lowered(line);
    assert(low.len() == line.len());
    if a < line.len() {
        lemma_lowered(line, a);
        if spaces(line[a]) {
            lemma_apart(line, a + 1, b);
            lemma_skip_spaces(low, a + 1);
            if apart(line, a, b) && (b == line.len() || !spaces(line[b])) {
                assert(b != a);
                assert(apart(line, a + 1, b));
            }
            if apart(line, a + 1, b) {
                assert forall|i: int| a <= i < b implies spaces(#[trigger] line[i]) by {}
            }
        } else if apart(line, a, b) && b > a {
            assert(spaces(line[a]));
        }
    }
}

proof fn lemma_assigned(line: Seq<char>, name: Seq<char>, start: int, value: int)
    requires
        0 <= start < line.len(),
    ensures
        assigned_value(lowered(line), name, false, start) == Some(value) <==> exists|sign: int|
            #[trigger] assigns(line, name, start, sign, value),
{
    let low = lowered(line);
    lemma_named(line, name, start);
    if named_at(line, name, start) {
        let after = start + name.len();
        lemma_alone(line, start, after);
        let sign = skip_spaces(low, after);
        lemma_apart(line, after, sign);
        if sign < line.len() {
            lemma_lowered(line, sign);
            lemma_apart(line, sign + 1, skip_spaces(low, sign + 1));
            lemma_apart(line, sign + 1, value);
        }
        if assigned_value(low, name, false, start) == Some(value) {
            assert(assigns(line, name, start, sign, value));
        }
        if exists|s: int| #[trigger] assigns(line, name, start, s, value) {
            let s = choose|s: int| #[trigger] assigns(line, name, start, s, value);
            lemma_apart(line, after, s);
            assert(s == sign);
        }
    }
}

proof fn lemma_presented(line: Seq<char>, start: int, value: int)
    requires
        0 <= start < line.len(),
    ensures
        assigned_value(lowered(line), "bearer"@, true, start) == Some(value) <==> presents(
            line,
            start,
            value,
        ),
{
    let low = lowered(line);
    lemma_named(line, "bearer"@, start);
    if named_at(line, "bearer"@, start) {
        let after = start + "bearer"@.len();
        lemma_alone(line, start, after);
        let sign = skip_spaces(low, after);
        lemma_apart(line, after, sign);
        lemma_apart(line, after, value);
    }
}

/// Whether a name assigns or presents a value at one of the first `n` indexes.
spec fn found(low: Seq<char>, key: Seq<char>, bearer: bool, n: int, value: int) -> bool {
    exists|start: int|
        0 <= start < n && #[trigger] assigned_value(low, key, bearer, start) == Some(value)
}

proof fn lemma_first(low: Seq<char>, key: Seq<char>, bearer: bool, n: int)
    ensures
        first_value(low, key, bearer, n) matches Some(v) ==> found(low, key, bearer, n, v),
        forall|w: int| #[trigger] found(low, key, bearer, n, w) ==> first_value(
            low,
            key,
            bearer,
            n,
        ) is Some && first_value(low, key, bearer, n)->0 <= w,
    decreases n,
{
    if n > 0 {
        lemma_first(low, key, bearer, n - 1);
        let here = assigned_value(low, key, bearer, n - 1);
        let before = first_value(low, key, bearer, n - 1);
        if let Some(v) = first_value(low, key, bearer, n) {
            if before == Some(v) {
                let start = choose|start: int|
                    0 <= start < n - 1 && #[trigger] assigned_value(low, key, bearer, start)
                        == Some(v);
                assert(assigned_value(low, key, bearer, start) == Some(v));
            } else {
                assert(assigned_value(low, key, bearer, n - 1) == Some(v));
            }
        }
        assert forall|w: int| #[trigger] found(low, key, bearer, n, w) implies first_value(
            low,
            key,
            bearer,
            n,
        ) is Some && first_value(low, key, bearer, n)->0 <= w by {
            let start = choose|start: int|
                0 <= start < n && #[trigger] assigned_value(low, key, bearer, start) == Some(w);
            if start < n - 1 {
                assert(found(low, key, bearer, n - 1, w));
            }
        }
    }
}

/// Whether a key finds a value.
spec fn found_of(low: Seq<char>, k: int, value: int) -> bool {
    found(low, secret_key(k), k == 8, low.len() as int, value)
}

/// Whether one of the first `n` keys finds a value.
spec fn found_by(low: Seq<char>, n: int, value: int) -> bool {
    exists|k: int| 0 <= k < n && #[trigger] found_of(low, k, value)
}

proof fn lemma_first_of(low: Seq<char>, n: int)
    ensures
        first_secret(low, n) matches Some(v) ==> found_by(low, n, v),
        forall|w: int| #[trigger] found_by(low, n, w) ==> first_secret(low, n) is Some
            && first_secret(low, n)->0 <= w,
    decreases n,
{
    if n > 0 {
        lemma_first_of(low, n - 1);
        let len = low.len() as int;
        lemma_first(low, secret_key(n - 1), n - 1 == 8, len);
        if let Some(v) = first_secret(low, n) {
            if first_secret(low, n - 1) == Some(v) {
                let k = choose|k: int|
                    0 <= k < n - 1 && #[trigger] found_of(low, k, v);
                assert(found_of(low, k, v));
            } else {
                assert(found_of(low, n - 1, v));
            }
        }
        assert forall|w: int| #[trigger] found_by(low, n, w) implies first_secret(low, n) is Some
            && first_secret(low, n)->0 <= w by {
            let k = choose|k: int|
                0 <= k < n && #[trigger] found_of(low, k, w);
            if k < n - 1 {
                assert(found_by(low, n - 1, w));
            }
        }
    }
}

proof fn lemma_found(line: Seq<char>, value: int)
    ensures
        found_by(lowered(line), 9, value) <==> is_secret(line, value),
{
    reveal(is_secret);
    let low = lowered(line);
    let len = low.len() as int;
    assert(len == line.len());
    if found_by(low, 9, value) {
        let k = choose|k: int|
            0 <= k < 9 && #[trigger] found_of(low, k, value);
        let key = secret_key(k);
        let bearer = k == 8;
        let start = choose|start: int|
            0 <= start < len && #[trigger] assigned_value(low, key, bearer, start) == Some(value);
        if k == 8 {
            lemma_presented(line, start, value);
            assert(presents(line, start, value));
        } else {
            lemma_assigned(line, key, start, value);
            let sign = choose|sign: int| #[trigger] assigns(line, key, start, sign, value);
            assert(names_a_secret(key));
            assert(assigns(line, key, start, sign, value));
        }
    }
    if exists|start: int| #[trigger] presents(line, start, value) {
        let start = choose|start: int| #[trigger] presents(line, start, value);
        lemma_presented(line, start, value);
        assert(found_of(low, 8, value));
    }
    if exists|name: Seq<char>, start: int, sign: int|
        names_a_secret(name) && #[trigger] assigns(line, name, start, sign, value) {
        let (name, start, sign) = choose|name: Seq<char>, start: int, sign: int|
            names_a_secret(name) && #[trigger] assigns(line, name, start, sign, value);
        lemma_assigned(line, name, start, value);
        let k = lemma_secret_name(name);
        assert(assigned_value(low, name, k == 8, start) == Some(value));
        assert(found_of(low, k, value));
    }
}

proof fn lemma_secret_name(name: Seq<char>) -> (k: int)
    requires
        names_a_secret(name),
    ensures
        0 <= k < 8,
        secret_key(k) == name,
{
    if name == "api_key"@ {
        0
    } else if name == "apikey"@ {
        1
    } else if name == "authorization"@ {
        2
    } else if name == "credential"@ {
        3
    } else if name == "password"@ {
        4
    } else if name == "passwd"@ {
        5
    } else if name == "secret"@ {
        6
    } else {
        7
    }
}

/// The secret of a line begins at the first value that one of the names assigns or the bearer
/// scheme presents; a line without one has no secret.
pub proof fn law_secrets_begin_at_the_first_value(line: Seq<char>)
    ensures
        secret_start(line) matches Some(v) ==> 0 <= v < line.len() && is_secret(line, v),
        forall|w: int| #[trigger] is_secret(line, w) ==> secret_start(line) is Some && secret_start(
            line,
        )->0 <= w,
{
    lemma_secret_start(line);
    lemma_first_of(lowered(line), 9);
    if let Some(v) = secret_start(line) {
        lemma_found(line, v);
    }
    assert forall|w: int| #[trigger] is_secret(line, w) implies secret_start(line) is Some
        && secret_start(line)->0 <= w by {
        lemma_found(line, w);
        assert(found_by(lowered(line), 9, w));
    }
}

/// A text with the secret of each line redacted.
pub open spec fn hidden(text: Seq<char>) -> Redacted {
    lines_redacted(text, 0, Redacted { text: Seq::empty(), count: 0 })
}

/// Whether a text is one line: it has no line feed.
pub open spec fn is_line(text: Seq<char>) -> bool {
    forall|i: int| 0 <= i < text.len() ==> (#[trigger] text[i]) != '\n'
}

/// Whether a text is whole lines: it is empty or ends with a line feed.
pub open spec fn is_lines(text: Seq<char>) -> bool {
    text.len() == 0 || text[text.len() - 1] == '\n'
}

/// Whether a line is shown as it should be: up to its first secret, with the mark in place of
/// that and all that follows, or whole where it has none.
pub open spec fn shows_line(shown: Seq<char>, line: Seq<char>) -> bool {
    ||| (forall|w: int| !#[trigger] is_secret(line, w)) && shown == line
    ||| exists|v: int|
        0 <= v < line.len() && #[trigger] is_secret(line, v) && (forall|w: int| #[trigger]
            is_secret(line, w) ==> v <= w) && shown == line.subrange(0, v) + "[REDACTED]"@
}

/// Two counts together, up to the largest.
pub open spec fn together(a: u32, b: u32) -> u32 {
    if a + b > u32::MAX {
        u32::MAX
    } else {
        (a + b) as u32
    }
}

proof fn lemma_line_end_of(text: Seq<char>, from: int)
    requires
        0 <= from <= text.len(),
    ensures
        from <= line_end(text, from) <= text.len(),
        line_end(text, from) < text.len() ==> text[line_end(text, from)] == '\n',
        forall|i: int| from <= i < line_end(text, from) ==> (#[trigger] text[i]) != '\n',
    decreases text.len() - from,
{
    if from < text.len() && text[from] != '\n' {
        lemma_line_end_of(text, from + 1);
    }
}

proof fn lemma_line_end_moved(text: Seq<char>, from: int, by: int)
    requires
        0 <= by <= from <= text.len(),
    ensures
        line_end(text.skip(by), from - by) == line_end(text, from) - by,
    decreases text.len() - from,
{
    if from < text.len() {
        assert(text.skip(by)[from - by] == text[from]);
        if text[from] != '\n' {
            lemma_line_end_moved(text, from + 1, by);
        }
    }
}

proof fn lemma_hidden_from(text: Seq<char>, from: int, before: Redacted)
    requires
        0 <= from <= text.len(),
    ensures
        ({
            let rest = hidden(text.skip(from));
            &&& lines_redacted(text, from, before).text == before.text + rest.text
            &&& lines_redacted(text, from, before).count == together(before.count, rest.count)
        }),
    decreases text.len() - from,
{
    let rest = text.skip(from);
    let empty = Redacted { text: Seq::empty(), count: 0 };
    if from < text.len() {
        let end = line_end(text, from);
        lemma_line_end_of(text, from);
        lemma_line_end_moved(text, from, from);
        assert(line_end(rest, 0) == end - from);
        let line = text.subrange(from, end);
        assert(rest.subrange(0, end - from) =~= line);
        let shown = line_redacted(line);
        if end < text.len() {
            let count: u32 = if secret_start(line) is Some {
                1
            } else {
                0
            };
            let next = Redacted {
                text: (before.text + shown).push('\n'),
                count: counted(before.count, count),
            };
            let first = Redacted { text: (empty.text + shown).push('\n'), count };
            lemma_hidden_from(text, end + 1, next);
            lemma_hidden_from(rest, end - from + 1, first);
            assert(rest.skip(end - from + 1) =~= text.skip(end + 1));
            assert(lines_redacted(text, from, before) == lines_redacted(text, end + 1, next));
            assert(hidden(rest) == lines_redacted(rest, end - from + 1, first));
            let tail = hidden(text.skip(end + 1)).text;
            assert(next.text + tail =~= before.text + (first.text + tail));
        } else {
            assert(before.text + (empty.text + shown) =~= before.text + shown);
        }
    } else {
        assert(before.text + empty.text =~= before.text);
    }
}

/// Redaction goes line by line: the first line is shown up to its secret, if it has one, and
/// the rest is redacted by itself. Each line with a secret counts once.
pub proof fn law_lines_are_redacted_one_by_one(line: Seq<char>, rest: Seq<char>)
    requires
        is_line(line),
    ensures
        shows_line(hidden(line).text, line),
        hidden(line).count == if exists|w: int| #[trigger] is_secret(line, w) {
            1u32
        } else {
            0
        },
        hidden(line.push('\n') + rest).text == hidden(line).text.push('\n') + hidden(rest).text,
        hidden(line.push('\n') + rest).count == together(hidden(line).count, hidden(rest).count),
{
    let empty = Redacted { text: Seq::empty(), count: 0 };
    let n = line.len() as int;
    law_secrets_begin_at_the_first_value(line);
    lemma_line_end_of(line, 0);
    assert(line_end(line, 0) == n);
    assert(line.subrange(0, n) =~= line);
    let shown = line_redacted(line);
    assert(empty.text + shown =~= shown);
    if n == 0 {
        assert(line =~= Seq::<char>::empty());
        if let Some(v) = secret_start(line) {
            assert(false);
        }
        assert(hidden(line).text =~= line);
    }
    assert(hidden(line).text =~= shown);
    if secret_start(line) is Some {
        assert(is_secret(line, secret_start(line)->0));
    }
    let whole = line.push('\n') + rest;
    lemma_line_end_of(whole, 0);
    assert(line_end(whole, 0) == n) by {
        let e = line_end(whole, 0);
        if e < n {
            assert(whole[e] == line[e]);
        }
        if e > n {
            assert(whole[n] == '\n');
        }
    }
    assert(whole.subrange(0, n) =~= line);
    assert(whole.skip(n + 1) =~= rest);
    let count: u32 = if secret_start(line) is Some {
        1
    } else {
        0
    };
    let next = Redacted { text: (empty.text + shown).push('\n'), count };
    lemma_hidden_from(whole, n + 1, next);
}

/// Whole lines are redacted by themselves, whatever follows them.
pub proof fn law_redaction_splits_at_line_ends(lines: Seq<char>, rest: Seq<char>)
    requires
        is_lines(lines),
    ensures
        hidden(lines + rest).text == hidden(lines).text + hidden(rest).text,
        hidden(lines + rest).count == together(hidden(lines).count, hidden(rest).count),
    decreases lines.len(),
{
    if lines.len() == 0 {
        assert(lines + rest =~= rest);
        assert(hidden(lines).text =~= Seq::<char>::empty());
        assert(hidden(lines).text + hidden(rest).text =~= hidden(rest).text);
    } else {
        lemma_line_end_of(lines, 0);
        let end = line_end(lines, 0);
        assert(end < lines.len()) by {
            if end == lines.len() {
                assert(lines[lines.len() - 1] != '\n');
            }
        }
        let line = lines.subrange(0, end);
        let more = lines.skip(end + 1);
        assert forall|i: int| 0 <= i < line.len() implies (#[trigger] line[i]) != '\n' by {
            assert(lines[i] != '\n');
        }
        assert(lines =~= line.push('\n') + more);
        assert(lines + rest =~= line.push('\n') + (more + rest));
        if more.len() > 0 {
            assert(more[more.len() - 1] == lines[lines.len() - 1]);
        }
        law_redaction_splits_at_line_ends(more, rest);
        law_lines_are_redacted_one_by_one(line, more);
        law_lines_are_redacted_one_by_one(line, more + rest);
        let first = hidden(line).text.push('\n');
        assert(first + (hidden(more).text + hidden(rest).text) =~= (first + hidden(more).text)
            + hidden(rest).text);
    }
}

/// Whether a character shows another: a line end or a tab as a space, another control as the
/// replacement character, and anything else as itself.
pub open spec fn shows_char(shown: char, c: char) -> bool {
    if c == '\n' || c == '\r' || c == '\t' {
        shown == ' '
    } else if c as u32 <= 0x1f || 0x7f <= c as u32 <= 0x9f {
        shown == '\u{fffd}'
    } else {
        shown == c
    }
}

/// Whether a text shows as much of the beginning of another as 4096 bytes hold.
pub open spec fn shows_text(shown: Seq<char>, whole: Seq<char>, truncated: bool) -> bool {
    &&& shown.len() <= whole.len()
    &&& forall|i: int| 0 <= i < shown.len() ==> shows_char(#[trigger] shown[i], whole[i])
    &&& encode_utf8(shown).len() <= 4096
    &&& truncated == (shown.len() < whole.len())
    &&& truncated ==> forall|c: char| #[trigger]
        shows_char(c, whole[shown.len() as int]) ==> encode_utf8(shown.push(c)).len() > 4096
}

proof fn lemma_controls(text: Seq<char>, n: int)
    requires
        0 <= n <= text.len(),
    ensures
        controls(text, n) == 0 <==> forall|i: int| 0 <= i < n ==> !control(#[trigger] text[i]),
    decreases n,
{
    if n > 0 {
        lemma_controls(text, n - 1);
    }
}

proof fn lemma_shown(whole: Seq<char>)
    ensures
        ({
            let shown = plain(whole);
            let kept = fitting(shown, shown.len() as int, 4096);
            shows_text(shown.subrange(0, kept), whole, encode_utf8(shown).len() > 4096)
        }),
{
    let shown = plain(whole);
    let n = shown.len() as int;
    let kept = fitting(shown, n, 4096);
    lemma_fitting_fits(shown, n, 4096);
    let out = shown.subrange(0, kept);
    assert(shown.subrange(0, n) =~= shown);
    assert forall|i: int| 0 <= i < out.len() implies shows_char(#[trigger] out[i], whole[i]) by {
        assert(out[i] == shown[i]);
    }
    if kept < n {
        assert forall|c: char| #[trigger] shows_char(c, whole[kept]) implies encode_utf8(
            out.push(c),
        ).len() > 4096 by {
            assert(shows_char(shown[kept], whole[kept]));
            assert(c == shown[kept]);
            assert(out.push(c) =~= shown.subrange(0, kept + 1));
        }
    }
}

/// Sanitizing redacts the protected terms first and then the secrets of the lines, and shows
/// as much of the outcome as fits. It counts both, and it counts control characters exactly
/// where there are any to replace.
pub proof fn law_sanitizing_counts_what_it_redacts(raw: Seq<char>, sorted_terms: Seq<Seq<char>>)
    ensures
        ({
            let protected = terms_redacted(raw, sorted_terms, sorted_terms.len() as int);
            let whole = hidden(protected.text);
            let (shown, summary) = sanitized(raw, sorted_terms);
            &&& shows_text(shown, whole.text, summary.truncated)
            &&& summary.protected_terms == protected.count
            &&& summary.sensitive_values == whole.count
            &&& summary.control_characters == 0 <==> forall|i: int|
                0 <= i < whole.text.len() ==> !control(#[trigger] whole.text[i])
        }),
{
    let protected = terms_redacted(raw, sorted_terms, sorted_terms.len() as int);
    let whole = hidden(protected.text);
    lemma_shown(whole.text);
    lemma_controls(whole.text, whole.text.len() as int);
}

/// What sanitizing shows of a text whose protected terms are redacted: its lines without their
/// secrets, in order, as far as they fit. Where a line has a secret, the line is shown up to
/// the first one, followed by the mark, and at least one sensitive value is counted.
pub proof fn law_secrets_of_lines_are_redacted(
    raw: Seq<char>,
    sorted_terms: Seq<Seq<char>>,
    lines: Seq<char>,
    line: Seq<char>,
    rest: Seq<char>,
    value: int,
)
    requires
        terms_redacted(raw, sorted_terms, sorted_terms.len() as int).text == lines + line + rest,
        is_lines(lines),
        is_line(line),
        rest.len() == 0 || rest[0] == '\n',
        is_secret(line, value),
    ensures
        exists|cut: int, after: Seq<char>|
            {
                &&& 0 <= cut <= value
                &&& is_secret(line, cut)
                &&& after.len() == 0 || after[0] == '\n'
                &&& rest.len() == 0 <==> after.len() == 0
                &&& shows_text(
                    sanitized(raw, sorted_terms).0,
                    #[trigger] cut_short(hidden(lines).text, line, cut, after),
                    sanitized(raw, sorted_terms).1.truncated,
                )
            },
        sanitized(raw, sorted_terms).1.sensitive_values >= 1,
{
    let protected = terms_redacted(raw, sorted_terms, sorted_terms.len() as int).text;
    assert(lines + line + rest =~= lines + (line + rest));
    law_redaction_splits_at_line_ends(lines, line + rest);
    law_secrets_begin_at_the_first_value(line);
    let cut = secret_start(line)->0;
    let tail = if rest.len() > 0 {
        rest.skip(1)
    } else {
        Seq::empty()
    };
    law_lines_are_redacted_one_by_one(line, tail);
    let after = if rest.len() > 0 {
        seq!['\n'] + hidden(tail).text
    } else {
        Seq::empty()
    };
    if rest.len() > 0 {
        assert(line + rest =~= line.push('\n') + tail);
    } else {
        assert(line + rest =~= line);
    }
    let shown = hidden(line).text;
    assert(shown == line.subrange(0, cut) + "[REDACTED]"@) by {
        if exists|v: int|
            0 <= v < line.len() && #[trigger] is_secret(line, v) && (forall|w: int| #[trigger]
                is_secret(line, w) ==> v <= w) && shown == line.subrange(0, v) + "[REDACTED]"@ {
            let v = choose|v: int|
                0 <= v < line.len() && #[trigger] is_secret(line, v) && (forall|w: int| #[trigger]
                    is_secret(line, w) ==> v <= w) && shown == line.subrange(0, v) + "[REDACTED]"@;
            assert(v == cut);
        }
    }
    let whole = cut_short(hidden(lines).text, line, cut, after);
    assert(hidden(protected).text =~= whole);
    lemma_shown(whole);
}

/// A line that is cut short at a secret, with what is shown before and after it.
pub open spec fn cut_short(
    before: Seq<char>,
    line: Seq<char>,
    cut: int,
    after: Seq<char>,
) -> Seq<char> {
    before + line.subrange(0, cut) + "[REDACTED]"@ + after
}

proof fn lemma_replaced_moved(text: Seq<char>, term: Seq<char>, from: int, by: int)
    requires
        0 <= by <= from <= text.len(),
    ensures
        replaced(text.skip(by), term, from - by) == replaced(text, term, from),
        occurrences(text.skip(by), term, from - by) == occurrences(text, term, from),
    decreases text.len() - from,
{
    let moved = text.skip(by);
    if from < text.len() {
        let end = from + term.len();
        assert(occurs_at(moved, term, from - by) == occurs_at(text, term, from)) by {
            if end <= text.len() {
                assert(moved.subrange(from - by, end - by) =~= text.subrange(from, end));
            }
        }
        if term.len() > 0 && occurs_at(text, term, from) {
            lemma_replaced_moved(text, term, end, by);
        } else {
            assert(moved[from - by] == text[from]);
            lemma_replaced_moved(text, term, from + 1, by);
        }
    }
}

proof fn lemma_replaced_until(text: Seq<char>, term: Seq<char>, from: int, a: int)
    requires
        0 <= from <= a <= text.len(),
        forall|i: int| from <= i < a ==> !#[trigger] occurs_at(text, term, i),
    ensures
        replaced(text, term, from) == text.subrange(from, a) + replaced(text, term, a),
        occurrences(text, term, from) == occurrences(text, term, a),
    decreases a - from,
{
    if from < a {
        lemma_replaced_until(text, term, from + 1, a);
        assert(!occurs_at(text, term, from));
        assert(seq![text[from]] + (text.subrange(from + 1, a) + replaced(text, term, a))
            =~= text.subrange(from, a) + replaced(text, term, a));
    } else {
        assert(text.subrange(from, a) + replaced(text, term, a) =~= replaced(text, term, a));
    }
}

/// A protected term is replaced by the mark where it first stands, what comes before it stays,
/// and what comes after it is searched by itself. A text without the term stays as it is.
pub proof fn law_terms_are_replaced_where_they_stand(text: Seq<char>, term: Seq<char>, at: int)
    requires
        term.len() > 0,
    ensures
        free_of(text, term) ==> replaced(text, term, 0) == text && occurrences(text, term, 0) == 0,
        occurs_at(text, term, at) && (forall|i: int| 0 <= i < at ==> !#[trigger] occurs_at(
            text,
            term,
            i,
        )) ==> {
            let rest = text.skip(at + term.len());
            &&& replaced(text, term, 0) == text.subrange(0, at) + "[REDACTED]"@ + replaced(
                rest,
                term,
                0,
            )
            &&& occurrences(text, term, 0) == 1 + occurrences(rest, term, 0)
        },
{
    if free_of(text, term) {
        let n = text.len() as int;
        lemma_replaced_until(text, term, 0, n);
        assert(text.subrange(0, n) + replaced(text, term, n) =~= text);
    }
    if occurs_at(text, term, at) && (forall|i: int| 0 <= i < at ==> !#[trigger] occurs_at(
        text,
        term,
        i,
    )) {
        let end = at + term.len();
        lemma_replaced_until(text, term, 0, at);
        lemma_replaced_moved(text, term, end, end);
        let rest = replaced(text, term, end);
        assert(text.subrange(0, at) + ("[REDACTED]"@ + rest) =~= text.subrange(0, at)
            + "[REDACTED]"@ + rest);
    }
}

proof fn lemma_terms_absent(raw: Seq<char>, terms: Seq<Seq<char>>, n: int)
    requires
        0 <= n <= terms.len(),
        forall|k: int|
            0 <= k < n ==> (#[trigger] terms[k]).len() > 0 && free_of(raw, terms[k]),
    ensures
        terms_redacted(raw, terms, n).text == raw,
        terms_redacted(raw, terms, n).count == 0,
    decreases n,
{
    if n > 0 {
        lemma_terms_absent(raw, terms, n - 1);
        assert(free_of(raw, terms[n - 1]));
        law_terms_are_replaced_where_they_stand(raw, terms[n - 1], 0);
    }
}

proof fn lemma_filled_from(terms: Seq<Seq<char>>, n: int)
    requires
        0 <= n <= terms.len(),
    ensures
        forall|i: int|
            0 <= i < filled_terms(terms, n).len() ==> (#[trigger] filled_terms(terms, n)[i]).len()
                > 0 && terms.contains(filled_terms(terms, n)[i]),
    decreases n,
{
    if n > 0 {
        lemma_filled_from(terms, n - 1);
        let before = filled_terms(terms, n - 1);
        let after = filled_terms(terms, n);
        assert forall|i: int| 0 <= i < after.len() implies (#[trigger] after[i]).len() > 0
            && terms.contains(after[i]) by {
            if i < before.len() {
                assert(after[i] == before[i]);
            } else {
                assert(after[i] == terms[n - 1]);
            }
        }
    }
}

/// A secret never shows: where a line of a text assigns a value to one of the names or presents
/// one as a bearer, and no protected term stands in the text, the line is shown up to its first
/// secret and the mark in place of the rest, and a sensitive value is counted.
pub proof fn law_assigned_secrets_are_redacted(
    result: SanitizedEvidenceText,
    source: MiningEvidenceId,
    terms: Seq<Seq<char>>,
    lines: Seq<char>,
    line: Seq<char>,
    rest: Seq<char>,
    value: int,
)
    requires
        is_sanitized(result, source, lines + line + rest, terms),
        forall|k: int|
            0 <= k < terms.len() && (#[trigger] terms[k]).len() > 0 ==> free_of(
                lines + line + rest,
                terms[k],
            ),
        is_lines(lines),
        is_line(line),
        rest.len() == 0 || rest[0] == '\n',
        is_secret(line, value),
    ensures
        exists|cut: int, after: Seq<char>|
            {
                &&& 0 <= cut <= value
                &&& is_secret(line, cut)
                &&& after.len() == 0 || after[0] == '\n'
                &&& rest.len() == 0 <==> after.len() == 0
                &&& shows_text(
                    result@.text,
                    #[trigger] cut_short(hidden(lines).text, line, cut, after),
                    result@.redactions.truncated,
                )
            },
        result@.redactions.sensitive_values >= 1,
        result@.redactions.protected_terms == 0,
{
    let raw = lines + line + rest;
    let filled = filled_terms(terms, terms.len() as int);
    let in_order = choose|sorted_terms: Seq<Seq<char>>|
        is_sorted_terms(sorted_terms, filled) && (result@.text, result@.redactions)
            == #[trigger] sanitized(raw, sorted_terms);
    let given = choose|given: Seq<ProtectedTerm>|
        term_texts(given) == filled && in_order == #[trigger] term_texts(
            picked(given, sorted(given, given.len() as int)),
        );
    lemma_filled_from(terms, terms.len() as int);
    assert(given.len() == filled.len()) by {
        assert(term_texts(given).len() == given.len());
    }
    let order = sorted(given, given.len() as int);
    lemma_sorted_indexes(given, given.len() as int);
    assert forall|k: int| 0 <= k < in_order.len() implies (#[trigger] in_order[k]).len() > 0
        && free_of(raw, in_order[k]) by {
        assert(0 <= order[k] < given.len());
        assert(in_order[k] == given[order[k]].text@);
        assert(filled[order[k]] == given[order[k]].text@);
        let j = choose|j: int| 0 <= j < terms.len() && terms[j] == filled[order[k]];
        assert(free_of(raw, terms[j]));
    }
    lemma_terms_absent(raw, in_order, in_order.len() as int);
    law_secrets_of_lines_are_redacted(raw, in_order, lines, line, rest, value);
}

} // verus!
