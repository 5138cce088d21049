//! Turning trace text into bounded data: protected terms and assigned secrets are
//! redacted, control characters replaced, and the length is bounded.
use crate::evolution::evidence::{MiningError, RedactionSummary, SanitizedEvidenceText};
use crate::evolution::ids::MiningEvidenceId;
use crate::order::{
    indexes_below, lemma_sorted_holds, lemma_sorted_indexes, numbers, picked, placed, sorted, sorted_order, Ordered,
};
use crate::text::{
    byte_len, chars_at, chars_between, chars_of, control, lower_chars, lowered, occurs_at, same_text,
    string_of, text_before, text_precedes,
};
use vstd::prelude::*;
use vstd::utf8::{encode_scalar, encode_utf8};

verus! {

pub const MAX_RAW_TEXT_BYTES: usize = 65536;

pub const MAX_SANITIZED_TEXT_BYTES: usize = 4096;

pub const MAX_PROTECTED_TERMS: usize = 128;

pub const MAX_PROTECTED_TERM_BYTES: usize = 4096;

/// What stands in place of a secret.
pub open spec fn redacted() -> Seq<char> {
    "[REDACTED]"@
}

/// A protected term. Longer terms come first, so that a term is redacted before its parts.
pub struct ProtectedTerm {
    pub text: String,
}

impl Ordered for ProtectedTerm {
    open spec fn comes_before(self, other: Self) -> bool {
        let a = encode_utf8(self.text@).len();
        let b = encode_utf8(other.text@).len();
        a > b || a == b && text_precedes(self.text@, other.text@)
    }

    fn is_before(&self, other: &Self) -> (r: bool) {
        let a = byte_len(self.text.as_str());
        let b = byte_len(other.text.as_str());
        a > b || a == b && text_before(self.text.as_str(), other.text.as_str())
    }
}

/// The terms among the first `n` that are not empty.
pub open spec fn filled_terms(terms: Seq<Seq<char>>, n: int) -> Seq<Seq<char>>
    decreases n,
{
    if n <= 0 {
        Seq::empty()
    } else if terms[n - 1].len() == 0 {
        filled_terms(terms, n - 1)
    } else {
        filled_terms(terms, n - 1).push(terms[n - 1])
    }
}

/// A text with every occurrence of a term, from the left, replaced.
pub open spec fn replaced(text: Seq<char>, term: Seq<char>, from: int) -> Seq<char>
    decreases text.len() - from,
{
    if from < 0 || from >= text.len() {
        Seq::empty()
    } else if term.len() > 0 && occurs_at(text, term, from) {
        redacted() + replaced(text, term, from + term.len())
    } else {
        seq![text[from]] + replaced(text, term, from + 1)
    }
}

/// How many occurrences of a term are replaced.
pub open spec fn occurrences(text: Seq<char>, term: Seq<char>, from: int) -> int
    decreases text.len() - from,
{
    if from < 0 || from >= text.len() {
        0
    } else if term.len() > 0 && occurs_at(text, term, from) {
        1 + occurrences(text, term, from + term.len())
    } else {
        occurrences(text, term, from + 1)
    }
}

fn replace_term(text: &Vec<char>, term: &Vec<char>) -> (r: (Vec<char>, usize))
    requires
        term.len() > 0,
    ensures
        r.0@ == replaced(text@, term@, 0),
        r.1 == occurrences(text@, term@, 0),
{
    let mark = chars_of("[REDACTED]");
    let mut out: Vec<char> = Vec::new();
    let mut count: usize = 0;
    let mut i: usize = 0;
    assert(out@ + replaced(text@, term@, 0) =~= replaced(text@, term@, 0));
    while i < text.len()
        invariant
            i <= text.len(),
            term.len() > 0,
            mark@ == redacted(),
            count <= i,
            out@ + replaced(text@, term@, i as int) == replaced(text@, term@, 0),
            count + occurrences(text@, term@, i as int) == occurrences(text@, term@, 0),
        decreases text.len() - i,
    {
        let ghost before = out@;
        if chars_at(text, term, i) {
            append_chars(&mut out, &mark);
            count += 1;
            assert(before + (redacted() + replaced(text@, term@, i + term@.len())) =~= (before
                + redacted()) + replaced(text@, term@, i + term@.len()));
            i += term.len();
        } else {
            out.push(text[i]);
            assert(before + (seq![text@[i as int]] + replaced(text@, term@, i + 1)) =~= before.push(
                text@[i as int],
            ) + replaced(text@, term@, i + 1));
            i += 1;
        }
    }
    assert(out@ =~= replaced(text@, term@, 0));
    (out, count)
}

fn append_chars(out: &mut Vec<char>, chars: &Vec<char>)
    ensures
        final(out)@ == old(out)@ + chars@,
{
    let mut i: usize = 0;
    assert(out@ =~= old(out)@ + chars@.subrange(0, 0));
    while i < chars.len()
        invariant
            i <= chars.len(),
            out@ == old(out)@ + chars@.subrange(0, i as int),
        decreases chars.len() - i,
    {
        out.push(chars[i]);
        i += 1;
        assert(out@ =~= old(out)@ + chars@.subrange(0, i as int));
    }
    assert(chars@.subrange(0, chars@.len() as int) =~= chars@);
}

/// Text and how much of it was redacted.
#[verifier::ext_equal]
pub struct Redacted {
    pub text: Seq<char>,
    pub count: u32,
}

/// A count with more added, up to the largest.
pub open spec fn counted(count: u32, more: u32) -> u32 {
    if count + more > u32::MAX {
        u32::MAX
    } else {
        (count + more) as u32
    }
}

/// A text with the first `n` of some sorted terms redacted; equal terms count once.
pub open spec fn terms_redacted(raw: Seq<char>, terms: Seq<Seq<char>>, n: int) -> Redacted
    decreases n,
{
    if n <= 0 {
        Redacted { text: raw, count: 0 }
    } else {
        let before = terms_redacted(raw, terms, n - 1);
        let term = terms[n - 1];
        if n >= 2 && terms[n - 2] == term {
            before
        } else {
            Redacted {
                text: replaced(before.text, term, 0),
                count: counted(before.count, occurrences(before.text, term, 0) as u32),
            }
        }
    }
}

/// The texts of some terms.
pub open spec fn term_texts(terms: Seq<ProtectedTerm>) -> Seq<Seq<char>> {
    terms.map_values(|term: ProtectedTerm| term.text@)
}

/// Whether a sequence of terms holds what some texts hold, in the order in which terms are
/// redacted.
pub open spec fn is_sorted_terms(sorted_texts: Seq<Seq<char>>, texts: Seq<Seq<char>>) -> bool {
    exists|terms: Seq<ProtectedTerm>|
        term_texts(terms) == texts && sorted_texts == #[trigger] term_texts(
            picked(terms, sorted(terms, terms.len() as int)),
        )
}

fn sort_terms(protected_terms: &[&str]) -> (r: Vec<String>)
    ensures
        ({
            let given = protected_terms@.map_values(|term: &str| term@);
            &&& is_sorted_terms(
                r@.map_values(|term: String| term@),
                filled_terms(given, given.len() as int),
            )
            &&& forall|i: int| 0 <= i < r.len() ==> (#[trigger] r@[i])@.len() > 0
        }),
{
    let ghost given = protected_terms@.map_values(|term: &str| term@);
    let mut terms: Vec<ProtectedTerm> = Vec::new();
    let mut i: usize = 0;
    assert(term_texts(terms@) =~= Seq::<Seq<char>>::empty());
    while i < protected_terms.len()
        invariant
            i <= protected_terms.len(),
            given == protected_terms@.map_values(|term: &str| term@),
            term_texts(terms@) == filled_terms(given, i as int),
            forall|k: int| 0 <= k < terms.len() ==> (#[trigger] terms@[k]).text@.len() > 0,
        decreases protected_terms.len() - i,
    {
        let term = protected_terms[i];
        assert(given[i as int] == term@);
        if byte_len(term) > 0 {
            proof {
                if term@.len() == 0 {
                    assert(encode_utf8(term@).len() == 0);
                }
            }
            let ghost before = terms@;
            terms.push(ProtectedTerm { text: term.to_owned() });
            assert(term_texts(terms@) =~= term_texts(before).push(term@));
        } else {
            proof {
                if term@.len() > 0 {
                    lemma_width(term@[0]);
                    assert(encode_utf8(term@).len() > 0);
                }
            }
        }
        i += 1;
    }
    let order = sorted_order(&terms);
    let mut result: Vec<String> = Vec::new();
    let ghost in_order = picked(terms@, sorted(terms@, terms.len() as int));
    let mut k: usize = 0;
    while k < order.len()
        invariant
            k <= order.len() == terms.len(),
            numbers(order@) == sorted(terms@, terms.len() as int),
            in_order == picked(terms@, sorted(terms@, terms.len() as int)),
            forall|i: int| 0 <= i < order.len() ==> (#[trigger] order@[i]) < terms.len(),
            forall|k: int| 0 <= k < terms.len() ==> (#[trigger] terms@[k]).text@.len() > 0,
            result@.map_values(|term: String| term@) == term_texts(in_order).subrange(0, k as int),
            result.len() == k,
            forall|k: int| 0 <= k < result.len() ==> (#[trigger] result@[k])@.len() > 0,
        decreases order.len() - k,
    {
        assert(numbers(order@)[k as int] == order@[k as int]);
        let at = order[k];
        let text = terms[at].text.clone();
        let ghost before = result@;
        result.push(text);
        assert(in_order[k as int] == terms@[at as int]);
        k += 1;
        assert(result@.map_values(|term: String| term@) =~= term_texts(in_order).subrange(
            0,
            k as int,
        ));
    }
    assert(result@.map_values(|term: String| term@) =~= term_texts(in_order));
    result
}

fn redact_terms(raw: &str, terms: &Vec<String>) -> (r: (Vec<char>, u32))
    requires
        forall|i: int| 0 <= i < terms.len() ==> (#[trigger] terms@[i])@.len() > 0,
    ensures
        ({
            let texts = terms@.map_values(|term: String| term@);
            (Redacted { text: r.0@, count: r.1 }) == terms_redacted(
                raw@,
                texts,
                texts.len() as int,
            )
        }),
{
    let ghost texts = terms@.map_values(|term: String| term@);
    let mut text = chars_of(raw);
    let mut count: u32 = 0;
    let mut i: usize = 0;
    while i < terms.len()
        invariant
            i <= terms.len(),
            forall|i: int| 0 <= i < terms.len() ==> (#[trigger] terms@[i])@.len() > 0,
            texts == terms@.map_values(|term: String| term@),
            (Redacted { text: text@, count }) == terms_redacted(raw@, texts, i as int),
        decreases terms.len() - i,
    {
        assert(texts[i as int] == terms@[i as int]@);
        let repeated = if i > 0 {
            assert(texts[i - 1] == terms@[i - 1]@);
            same_text(terms[i - 1].as_str(), terms[i].as_str())
        } else {
            false
        };
        if !repeated {
            let term = chars_of(terms[i].as_str());
            let (next, matches) = replace_term(&text, &term);
            text = next;
            count = count.saturating_add(matches as u32);
        }
        i += 1;
    }
    (text, count)
}

/// Whether a character belongs to an identifier.
pub open spec fn identifier_part(c: char) -> bool {
    'a' <= c <= 'z' || 'A' <= c <= 'Z' || '0' <= c <= '9' || c == '_'
}

fn is_identifier_part(c: char) -> (r: bool)
    ensures
        r == identifier_part(c),
{
    ('a' <= c && c <= 'z') || ('A' <= c && c <= 'Z') || ('0' <= c && c <= '9') || c == '_'
}

/// Whether a character is ASCII white space: a space, a tab or a line or page end.
pub open spec fn ascii_space(c: char) -> bool {
    c == ' ' || c == '\t' || c == '\n' || c == '\r' || c == '\u{0c}'
}

/// The first index at or after another whose character is not ASCII white space.
pub open spec fn skip_spaces(text: Seq<char>, i: int) -> int
    decreases text.len() - i,
{
    if 0 <= i < text.len() && ascii_space(text[i]) {
        skip_spaces(text, i + 1)
    } else {
        i
    }
}

fn skip_space_chars(text: &Vec<char>, from: usize) -> (r: usize)
    requires
        from <= text.len(),
    ensures
        r == skip_spaces(text@, from as int),
        from <= r <= text.len(),
{
    let mut i: usize = from;
    while i < text.len()
        invariant_except_break
            from <= i <= text.len(),
            skip_spaces(text@, from as int) == skip_spaces(text@, i as int),
        ensures
            i == skip_spaces(text@, from as int),
            from <= i <= text.len(),
        decreases text.len() - i,
    {
        let c = text[i];
        if !(c == ' ' || c == '\t' || c == '\n' || c == '\r' || c == '\u{0c}') {
            break;
        }
        i += 1;
    }
    i
}

/// Where the value begins that a key at an index assigns, if it assigns one: the key
/// stands alone, and a colon or an equals sign follows it, and something after that. The
/// bearer scheme takes white space in place of the sign.
pub open spec fn assigned_value(text: Seq<char>, key: Seq<char>, bearer: bool, start: int) -> Option<
    int,
> {
    let after = start + key.len();
    if !occurs_at(text, key, start) {
        None
    } else if start > 0 && identifier_part(text[start - 1]) {
        None
    } else if after < text.len() && identifier_part(text[after]) {
        None
    } else {
        let sign = skip_spaces(text, after);
        if bearer {
            if sign == after || sign >= text.len() {
                None
            } else {
                Some(sign)
            }
        } else if sign < text.len() && (text[sign] == ':' || text[sign] == '=') {
            let value = skip_spaces(text, sign + 1);
            if value >= text.len() {
                None
            } else {
                Some(value)
            }
        } else {
            None
        }
    }
}

/// The smaller of two indexes that may be absent.
pub open spec fn least(a: Option<int>, b: Option<int>) -> Option<int> {
    match (a, b) {
        (Some(x), Some(y)) => Some(
            if x <= y {
                x
            } else {
                y
            },
        ),
        (Some(x), None) => Some(x),
        (None, y) => y,
    }
}

/// The first value that a key assigns at one of the first `n` indexes.
pub open spec fn first_value(text: Seq<char>, key: Seq<char>, bearer: bool, n: int) -> Option<int>
    decreases n,
{
    if n <= 0 {
        None
    } else {
        least(
            first_value(text, key, bearer, n - 1),
            assigned_value(text, key, bearer, n - 1),
        )
    }
}

/// The key at an index among those that name secrets.
pub open spec fn secret_key(i: int) -> Seq<char> {
    if i == 0 {
        "api_key"@
    } else if i == 1 {
        "apikey"@
    } else if i == 2 {
        "authorization"@
    } else if i == 3 {
        "credential"@
    } else if i == 4 {
        "password"@
    } else if i == 5 {
        "passwd"@
    } else if i == 6 {
        "secret"@
    } else if i == 7 {
        "token"@
    } else {
        "bearer"@
    }
}

fn nth_secret_key(i: usize) -> (r: &'static str)
    requires
        i < 9,
    ensures
        r@ == secret_key(i as int),
        r@.len() > 0,
{
    proof {
        reveal_strlit("api_key");
        reveal_strlit("apikey");
        reveal_strlit("authorization");
        reveal_strlit("credential");
        reveal_strlit("password");
        reveal_strlit("passwd");
        reveal_strlit("secret");
        reveal_strlit("token");
        reveal_strlit("bearer");
    }
    if i == 0 {
        "api_key"
    } else if i == 1 {
        "apikey"
    } else if i == 2 {
        "authorization"
    } else if i == 3 {
        "credential"
    } else if i == 4 {
        "password"
    } else if i == 5 {
        "passwd"
    } else if i == 6 {
        "secret"
    } else if i == 7 {
        "token"
    } else {
        "bearer"
    }
}

/// The first value that one of the first `n` keys assigns in a lower-cased line.
pub open spec fn first_secret(line: Seq<char>, n: int) -> Option<int>
    decreases n,
{
    if n <= 0 {
        None
    } else {
        least(
            first_secret(line, n - 1),
            first_value(line, secret_key(n - 1), n - 1 == 8, line.len() as int),
        )
    }
}

/// Where the secret of a line begins, if it assigns one.
pub open spec fn secret_start(line: Seq<char>) -> Option<int> {
    first_secret(lowered(line), 9)
}

fn find_assigned(text: &Vec<char>, key: &Vec<char>, bearer: bool, start: usize) -> (r: Option<
    usize,
>)
    requires
        start < text.len(),
    ensures
        r matches Some(v) ==> v < text.len(),
        match r {
            Some(v) => assigned_value(text@, key@, bearer, start as int) == Some(v as int),
            None => assigned_value(text@, key@, bearer, start as int) is None,
        },
{
    if !chars_at(text, key, start) {
        return None;
    }
    if start > 0 && is_identifier_part(text[start - 1]) {
        return None;
    }
    let after = start + key.len();
    if after < text.len() && is_identifier_part(text[after]) {
        return None;
    }
    let sign = skip_space_chars(text, after);
    if bearer {
        if sign == after || sign >= text.len() {
            return None;
        }
        return Some(sign);
    }
    if sign >= text.len() {
        return None;
    }
    if text[sign] != ':' && text[sign] != '=' {
        return None;
    }
    let value = skip_space_chars(text, sign + 1);
    if value >= text.len() {
        return None;
    }
    Some(value)
}

/// An index that may be absent, as a number.
pub open spec fn index_of(i: Option<usize>) -> Option<int> {
    match i {
        Some(v) => Some(v as int),
        None => None,
    }
}

fn smaller(a: Option<usize>, b: Option<usize>) -> (r: Option<usize>)
    ensures
        index_of(r) == least(index_of(a), index_of(b)),
        r == a || r == b,
{
    match (a, b) {
        (Some(x), Some(y)) => if x <= y {
            a
        } else {
            b
        },
        (Some(x), None) => a,
        (None, _) => b,
    }
}

fn find_value(text: &Vec<char>, key: &Vec<char>, bearer: bool) -> (r: Option<usize>)
    ensures
        r matches Some(v) ==> v < text.len(),
        index_of(r) == first_value(text@, key@, bearer, text.len() as int),
{
    let mut found: Option<usize> = None;
    let mut start: usize = 0;
    while start < text.len()
        invariant
            start <= text.len(),
            found matches Some(v) ==> v < text.len(),
            index_of(found) == first_value(text@, key@, bearer, start as int),
        decreases text.len() - start,
    {
        let here = find_assigned(text, key, bearer, start);
        found = smaller(found, here);
        start += 1;
    }
    found
}

/// Where the secret of a line begins, if it assigns one.
pub fn sensitive_value_start(line: &Vec<char>) -> (r: Option<usize>)
    ensures
        index_of(r) == secret_start(line@),
        r matches Some(v) ==> v < line.len(),
{
    let lower = lower_chars(line);
    let mut found: Option<usize> = None;
    let mut i: usize = 0;
    while i < 9
        invariant
            i <= 9,
            lower@ == lowered(line@),
            found matches Some(v) ==> v < line.len(),
            index_of(found) == first_secret(lower@, i as int),
        decreases 9 - i,
    {
        let key = chars_of(nth_secret_key(i));
        let here = find_value(&lower, &key, i == 8);
        found = smaller(found, here);
        i += 1;
    }
    found
}

/// The end of the line that an index lies in: the next line feed, or the end.
pub open spec fn line_end(text: Seq<char>, from: int) -> int
    decreases text.len() - from,
{
    if 0 <= from < text.len() && text[from] != '\n' {
        line_end(text, from + 1)
    } else {
        from
    }
}

fn find_line_end(text: &Vec<char>, from: usize) -> (r: usize)
    requires
        from <= text.len(),
    ensures
        r == line_end(text@, from as int),
        from <= r <= text.len(),
        r < text.len() ==> text@[r as int] == '\n',
{
    let mut i: usize = from;
    while i < text.len()
        invariant_except_break
            from <= i <= text.len(),
            line_end(text@, from as int) == line_end(text@, i as int),
        ensures
            i == line_end(text@, from as int),
            from <= i <= text.len(),
            i < text.len() ==> text@[i as int] == '\n',
        decreases text.len() - i,
    {
        if text[i] == '\n' {
            break;
        }
        i += 1;
    }
    i
}

/// A line with its secret redacted.
pub open spec fn line_redacted(line: Seq<char>) -> Seq<char> {
    match secret_start(line) {
        Some(start) => line.subrange(0, start) + redacted(),
        None => line,
    }
}

pub proof fn lemma_line_end(text: Seq<char>, from: int)
    requires
        0 <= from <= text.len(),
    ensures
        from <= line_end(text, from) <= text.len(),
    decreases text.len() - from,
{
    if from < text.len() && text[from] != '\n' {
        lemma_line_end(text, from + 1);
    }
}

/// A text from an index on with the secret of each line redacted, given the text and the
/// count before it.
pub open spec fn lines_redacted(text: Seq<char>, from: int, before: Redacted) -> Redacted
    decreases text.len() - from,
{
    if 0 <= from < text.len() {
        let end = line_end(text, from);
        let line = text.subrange(from, end);
        let count = if secret_start(line) is Some {
            counted(before.count, 1)
        } else {
            before.count
        };
        let shown = before.text + line_redacted(line);
        proof {
            lemma_line_end(text, from);
        }
        if end < text.len() {
            lines_redacted(text, end + 1, Redacted { text: shown.push('\n'), count })
        } else {
            Redacted { text: shown, count }
        }
    } else {
        before
    }
}

fn redact_lines(text: &Vec<char>) -> (r: (Vec<char>, u32))
    ensures
        (Redacted { text: r.0@, count: r.1 }) == lines_redacted(
            text@,
            0,
            (Redacted { text: Seq::empty(), count: 0 }),
        ),
{
    let mark = chars_of("[REDACTED]");
    let mut out: Vec<char> = Vec::new();
    let mut count: u32 = 0;
    let mut from: usize = 0;
    assert(out@ =~= Seq::<char>::empty());
    while from < text.len()
        invariant
            from <= text.len(),
            mark@ == redacted(),
            lines_redacted(text@, 0, (Redacted { text: Seq::empty(), count: 0 })) == lines_redacted(
                text@,
                from as int,
                (Redacted { text: out@, count }),
            ),
        decreases text.len() - from,
    {
        let ghost start = from as int;
        let ghost before = Redacted { text: out@, count };
        let end = find_line_end(text, from);
        let line = chars_between(text, from, end);
        match sensitive_value_start(&line) {
            Some(at) => {
                let shown = chars_between(&line, 0, at);
                append_chars(&mut out, &shown);
                append_chars(&mut out, &mark);
                count = count.saturating_add(1);
                assert(out@ =~= before.text + line_redacted(line@));
            },
            None => {
                append_chars(&mut out, &line);
            },
        }
        assert(out@ == before.text + line_redacted(line@));
        if end < text.len() {
            out.push('\n');
            from = end + 1;
        } else {
            assert(lines_redacted(text@, start, before) == (Redacted { text: out@, count }));
            from = end;
        }
    }
    (out, count)
}

/// What a character becomes: line ends and tabs a space, other controls the replacement
/// character.
pub open spec fn plain_char(c: char) -> char {
    if !control(c) {
        c
    } else if c == '\n' || c == '\r' || c == '\t' {
        ' '
    } else {
        '\u{fffd}'
    }
}

/// A text without control characters, and how many the first `n` characters had.
pub open spec fn controls(text: Seq<char>, n: int) -> u32
    decreases n,
{
    if n <= 0 {
        0
    } else if control(text[n - 1]) {
        counted(controls(text, n - 1), 1)
    } else {
        controls(text, n - 1)
    }
}

pub open spec fn plain(text: Seq<char>) -> Seq<char> {
    text.map_values(|c: char| plain_char(c))
}

fn replace_controls(text: &Vec<char>) -> (r: (Vec<char>, u32))
    ensures
        r.0@ == plain(text@),
        r.1 == controls(text@, text.len() as int),
{
    let mut out: Vec<char> = Vec::new();
    let mut count: u32 = 0;
    let mut i: usize = 0;
    while i < text.len()
        invariant
            i <= text.len(),
            out@ == plain(text@).subrange(0, i as int),
            count == controls(text@, i as int),
        decreases text.len() - i,
    {
        let c = text[i];
        if c.is_control() {
            count = count.saturating_add(1);
            if c == '\n' || c == '\r' || c == '\t' {
                out.push(' ');
            } else {
                out.push('\u{fffd}');
            }
        } else {
            out.push(c);
        }
        i += 1;
        assert(out@ =~= plain(text@).subrange(0, i as int));
    }
    assert(out@ =~= plain(text@));
    (out, count)
}

/// How many bytes a character takes in UTF-8.
pub open spec fn width(c: char) -> int {
    encode_scalar(c as u32).len() as int
}

fn char_width(c: char) -> (r: usize)
    ensures
        r == width(c),
        1 <= r <= 4,
{
    let code = c as u32;
    if code <= 0x7f {
        1
    } else if code <= 0x7ff {
        2
    } else if code <= 0xffff {
        3
    } else {
        4
    }
}

pub proof fn lemma_width(c: char)
    ensures
        1 <= width(c) <= 4,
{
}

/// The bytes of a text with one more character.
pub proof fn lemma_encode_push(text: Seq<char>, c: char)
    ensures
        encode_utf8(text.push(c)).len() == encode_utf8(text).len() + width(c),
    decreases text.len(),
{
    if text.len() == 0 {
        assert(text.push(c).drop_first() =~= Seq::<char>::empty());
        assert(encode_utf8(text).len() == 0);
        assert(encode_utf8(Seq::<char>::empty()).len() == 0);
    } else {
        assert(text.push(c).drop_first() =~= text.drop_first().push(c));
        lemma_encode_push(text.drop_first(), c);
    }
}

/// How many of the first `n` characters of a text fit into a number of bytes.
pub open spec fn fitting(text: Seq<char>, n: int, limit: int) -> int
    decreases n,
{
    if n <= 0 {
        0
    } else if encode_utf8(text.subrange(0, n)).len() <= limit {
        n
    } else {
        fitting(text, n - 1, limit)
    }
}

proof fn lemma_fitting(text: Seq<char>, k: int, n: int, limit: int)
    requires
        0 <= k < n <= text.len(),
        0 <= limit,
        encode_utf8(text.subrange(0, k)).len() <= limit,
        encode_utf8(text.subrange(0, k + 1)).len() > limit,
    ensures
        fitting(text, n, limit) == k,
        encode_utf8(text.subrange(0, n)).len() > limit,
    decreases n,
{
    if n == k + 1 {
        assert(fitting(text, k, limit) == k);
    } else {
        lemma_fitting(text, k, n - 1, limit);
        assert(text.subrange(0, n) =~= text.subrange(0, n - 1).push(text[n - 1]));
        lemma_encode_push(text.subrange(0, n - 1), text[n - 1]);
        lemma_width(text[n - 1]);
    }
}

pub(crate) fn count_fitting(text: &Vec<char>, limit: usize) -> (r: usize)
    requires
        limit <= 4096,
    ensures
        r <= text.len(),
        r == fitting(text@, text.len() as int, limit as int),
        r == text.len() <==> encode_utf8(text@).len() <= limit,
{
    let mut bytes: usize = 0;
    let mut k: usize = 0;
    assert(text@.subrange(0, 0) =~= Seq::<char>::empty());
    assert(encode_utf8(Seq::<char>::empty()).len() == 0);
    while k < text.len()
        invariant
            k <= text.len(),
            bytes <= limit <= 4096,
            bytes == encode_utf8(text@.subrange(0, k as int)).len(),
        decreases text.len() - k,
    {
        let more = char_width(text[k]);
        proof {
            assert(text@.subrange(0, k + 1) =~= text@.subrange(0, k as int).push(text@[k as int]));
            lemma_encode_push(text@.subrange(0, k as int), text@[k as int]);
        }
        if bytes + more > limit {
            proof {
                lemma_fitting(text@, k as int, text.len() as int, limit as int);
                assert(text@.subrange(0, text@.len() as int) =~= text@);
            }
            return k;
        }
        bytes += more;
        k += 1;
    }
    assert(text@.subrange(0, text@.len() as int) =~= text@);
    k
}

/// What is wrong with a text or the terms to protect in it.
pub open spec fn input_problem(raw: Seq<char>, terms: Seq<Seq<char>>) -> Option<MiningError> {
    if raw.len() == 0 {
        Some(MiningError::EmptyText)
    } else if encode_utf8(raw).len() > MAX_RAW_TEXT_BYTES {
        Some(MiningError::RawTextTooLarge { maximum: MAX_RAW_TEXT_BYTES })
    } else if terms.len() > MAX_PROTECTED_TERMS {
        Some(MiningError::TooManyProtectedTerms { maximum: MAX_PROTECTED_TERMS })
    } else if exists|i: int|
        0 <= i < terms.len() && encode_utf8(#[trigger] terms[i]).len() > MAX_PROTECTED_TERM_BYTES {
        Some(MiningError::ProtectedTermTooLarge { maximum: MAX_PROTECTED_TERM_BYTES })
    } else {
        None
    }
}

fn check_input(raw: &str, protected_terms: &[&str]) -> (r: Result<(), MiningError>)
    ensures
        r == crate::first::refused(
            input_problem(raw@, protected_terms@.map_values(|term: &str| term@)),
        ),
{
    let ghost terms = protected_terms@.map_values(|term: &str| term@);
    if byte_len(raw) == 0 {
        proof {
            if raw@.len() > 0 {
                lemma_width(raw@[0]);
                assert(encode_utf8(raw@).len() > 0);
            }
        }
        return Err(MiningError::EmptyText);
    }
    assert(raw@.len() > 0) by {
        if raw@.len() == 0 {
            assert(encode_utf8(raw@).len() == 0);
        }
    }
    if byte_len(raw) > MAX_RAW_TEXT_BYTES {
        return Err(MiningError::RawTextTooLarge { maximum: MAX_RAW_TEXT_BYTES });
    }
    if protected_terms.len() > MAX_PROTECTED_TERMS {
        return Err(MiningError::TooManyProtectedTerms { maximum: MAX_PROTECTED_TERMS });
    }
    let mut i: usize = 0;
    while i < protected_terms.len()
        invariant
            i <= protected_terms.len(),
            raw@.len() > 0,
            encode_utf8(raw@).len() <= MAX_RAW_TEXT_BYTES,
            protected_terms.len() <= MAX_PROTECTED_TERMS,
            terms == protected_terms@.map_values(|term: &str| term@),
            forall|k: int|
                0 <= k < i ==> encode_utf8(#[trigger] terms[k]).len() <= MAX_PROTECTED_TERM_BYTES,
        decreases protected_terms.len() - i,
    {
        assert(terms[i as int] == protected_terms@[i as int]@);
        if byte_len(protected_terms[i]) > MAX_PROTECTED_TERM_BYTES {
            return Err(MiningError::ProtectedTermTooLarge { maximum: MAX_PROTECTED_TERM_BYTES });
        }
        i += 1;
    }
    Ok(())
}

/// What sanitizing a text comes to, with its protected terms in the order in which they
/// are redacted: terms, then assigned secrets, then control characters, then the length.
pub open spec fn sanitized(raw: Seq<char>, sorted_terms: Seq<Seq<char>>) -> (
    Seq<char>,
    RedactionSummary,
) {
    let protected = terms_redacted(raw, sorted_terms, sorted_terms.len() as int);
    let assigned = lines_redacted(
        protected.text,
        0,
        (Redacted { text: Seq::empty(), count: 0 }),
    );
    let shown = plain(assigned.text);
    let kept = fitting(shown, shown.len() as int, MAX_SANITIZED_TEXT_BYTES as int);
    (
        shown.subrange(0, kept),
        RedactionSummary {
            protected_terms: protected.count,
            sensitive_values: assigned.count,
            control_characters: controls(assigned.text, assigned.text.len() as int),
            truncated: encode_utf8(shown).len() > MAX_SANITIZED_TEXT_BYTES,
        },
    )
}

/// Whether a text is what sanitizing another comes to.
pub open spec fn is_sanitized(
    result: SanitizedEvidenceText,
    source: MiningEvidenceId,
    raw: Seq<char>,
    terms: Seq<Seq<char>>,
) -> bool {
    &&& result@.source == source
    &&& exists|sorted_terms: Seq<Seq<char>>|
        is_sorted_terms(sorted_terms, filled_terms(terms, terms.len() as int)) && (
        result@.text,
        result@.redactions,
    ) == #[trigger] sanitized(raw, sorted_terms)
}

/// Converts trace text into bounded data. The result is still untrusted and is never
/// executed.
pub fn sanitize_untrusted_text(
    source: MiningEvidenceId,
    raw: &str,
    protected_terms: &[&str],
) -> (r: Result<SanitizedEvidenceText, MiningError>)
    ensures
        ({
            let terms = protected_terms@.map_values(|term: &str| term@);
            match (r, input_problem(raw@, terms)) {
                (Ok(text), None) => is_sanitized(text, source, raw@, terms),
                (Err(error), Some(expected)) => error == expected,
                _ => false,
            }
        }),
{
    match check_input(raw, protected_terms) {
        Err(error) => return Err(error),
        Ok(()) => {},
    }
    let terms = sort_terms(protected_terms);
    let (protected, protected_count) = redact_terms(raw, &terms);
    let (assigned, sensitive_count) = redact_lines(&protected);
    let (shown, control_count) = replace_controls(&assigned);
    let kept = count_fitting(&shown, MAX_SANITIZED_TEXT_BYTES);
    let text = string_of(&shown, 0, kept);
    let truncated = kept < shown.len();
    let redactions = RedactionSummary::new(
        protected_count,
        sensitive_count,
        control_count,
        truncated,
    );
    proof {
        let ghost sorted_terms = terms@.map_values(|term: String| term@);
        assert((text@, redactions) == sanitized(raw@, sorted_terms));
    }
    Ok(SanitizedEvidenceText::new(source, text, redactions))
}

proof fn lemma_same_placing(a: Seq<ProtectedTerm>, b: Seq<ProtectedTerm>, order: Seq<int>, x: int)
    requires
        term_texts(a) == term_texts(b),
        0 <= x < a.len(),
        indexes_below(order, a.len() as int),
    ensures
        placed(a, order, x) == placed(b, order, x),
    decreases order.len(),
{
    assert(a.len() == term_texts(a).len() && b.len() == term_texts(b).len());
    assert(a[x].text@ == term_texts(a)[x] && b[x].text@ == term_texts(b)[x]);
    if order.len() > 0 {
        let last = order.last();
        assert(0 <= order[order.len() - 1] < a.len());
        assert(a[last].text@ == term_texts(a)[last] && b[last].text@ == term_texts(b)[last]);
        if a[x].comes_before(a[last]) {
            assert forall|i: int| 0 <= i < order.drop_last().len() implies 0
                <= #[trigger] order.drop_last()[i] < a.len() by {
                assert(order.drop_last()[i] == order[i]);
            }
            lemma_same_placing(a, b, order.drop_last(), x);
        }
    }
}

proof fn lemma_same_sorting(a: Seq<ProtectedTerm>, b: Seq<ProtectedTerm>, n: int)
    requires
        term_texts(a) == term_texts(b),
        0 <= n <= a.len(),
    ensures
        sorted(a, n) == sorted(b, n),
    decreases n,
{
    if n > 0 {
        lemma_same_sorting(a, b, n - 1);
        lemma_sorted_indexes(a, n - 1);
        let order = sorted(a, n - 1);
        assert forall|i: int| 0 <= i < order.len() implies 0 <= #[trigger] order[i] < a.len() by {}
        lemma_same_placing(a, b, order, n - 1);
    }
}

/// The order in which terms are redacted follows from the terms.
pub proof fn lemma_sorted_terms_are_determined(
    texts: Seq<Seq<char>>,
    a: Seq<Seq<char>>,
    b: Seq<Seq<char>>,
)
    requires
        is_sorted_terms(a, texts),
        is_sorted_terms(b, texts),
    ensures
        a == b,
{
    let x = choose|terms: Seq<ProtectedTerm>|
        term_texts(terms) == texts && a == #[trigger] term_texts(
            picked(terms, sorted(terms, terms.len() as int)),
        );
    let y = choose|terms: Seq<ProtectedTerm>|
        term_texts(terms) == texts && b == #[trigger] term_texts(
            picked(terms, sorted(terms, terms.len() as int)),
        );
    assert(x.len() == texts.len()) by {
        assert(term_texts(x).len() == x.len());
    }
    assert(y.len() == texts.len()) by {
        assert(term_texts(y).len() == y.len());
    }
    lemma_same_sorting(x, y, x.len() as int);
    lemma_sorted_indexes(x, x.len() as int);
    let order = sorted(x, x.len() as int);
    assert(a =~= b) by {
        assert forall|k: int| 0 <= k < order.len() implies a[k] == b[k] by {
            assert(x[order[k]].text@ == term_texts(x)[order[k]]);
            assert(y[order[k]].text@ == term_texts(y)[order[k]]);
        }
    }
}

/// Sanitizing is determined: two results for one text and its terms say the same.
pub proof fn law_sanitizing_is_determined(
    a: SanitizedEvidenceText,
    b: SanitizedEvidenceText,
    source: MiningEvidenceId,
    raw: Seq<char>,
    terms: Seq<Seq<char>>,
)
    requires
        is_sanitized(a, source, raw, terms),
        is_sanitized(b, source, raw, terms),
    ensures
        a@ == b@,
{
    let filled = filled_terms(terms, terms.len() as int);
    let x = choose|sorted_terms: Seq<Seq<char>>|
        is_sorted_terms(sorted_terms, filled) && (a@.text, a@.redactions) == #[trigger] sanitized(
            raw,
            sorted_terms,
        );
    let y = choose|sorted_terms: Seq<Seq<char>>|
        is_sorted_terms(sorted_terms, filled) && (b@.text, b@.redactions) == #[trigger] sanitized(
            raw,
            sorted_terms,
        );
    lemma_sorted_terms_are_determined(filled, x, y);
    assert(a@ =~= b@);
}

pub(crate) proof fn lemma_fitting_fits(text: Seq<char>, n: int, limit: int)
    requires
        0 <= n <= text.len(),
        0 <= limit,
    ensures
        0 <= fitting(text, n, limit) <= n,
        encode_utf8(text.subrange(0, fitting(text, n, limit))).len() <= limit,
        fitting(text, n, limit) < n ==> encode_utf8(
            text.subrange(0, fitting(text, n, limit) + 1),
        ).len() > limit,
    decreases n,
{
    if n == 0 {
        assert(text.subrange(0, 0) =~= Seq::<char>::empty());
        assert(encode_utf8(Seq::<char>::empty()).len() == 0);
    } else if encode_utf8(text.subrange(0, n)).len() > limit {
        lemma_fitting_fits(text, n - 1, limit);
    }
}

/// Sanitized text is bounded and holds no control character, whatever it was made from.
pub proof fn law_sanitized_text_is_bounded_data(raw: Seq<char>, sorted_terms: Seq<Seq<char>>)
    ensures
        encode_utf8(sanitized(raw, sorted_terms).0).len() <= MAX_SANITIZED_TEXT_BYTES,
        forall|i: int|
            0 <= i < sanitized(raw, sorted_terms).0.len() ==> !control(
                #[trigger] sanitized(raw, sorted_terms).0[i],
            ),
{
    let protected = terms_redacted(raw, sorted_terms, sorted_terms.len() as int);
    let assigned = lines_redacted(
        protected.text,
        0,
        (Redacted { text: Seq::empty(), count: 0 }),
    );
    let shown = plain(assigned.text);
    lemma_fitting_fits(shown, shown.len() as int, MAX_SANITIZED_TEXT_BYTES as int);
    let out = sanitized(raw, sorted_terms).0;
    assert forall|i: int| 0 <= i < out.len() implies !control(#[trigger] out[i]) by {
        assert(out[i] == shown[i]);
        assert(shown[i] == plain_char(assigned.text[i]));
    }
}

/// Whether a term shares no character with what sanitizing puts into a text.
pub open spec fn foreign(term: Seq<char>) -> bool {
    &&& term.len() > 0
    &&& forall|i: int|
        0 <= i < term.len() ==> (#[trigger] term[i]) != ' ' && term[i] != '\u{fffd}'
            && !redacted().contains(term[i])
}

/// Whether a text begins, at an index, with another.
spec fn reads(text: Seq<char>, at: int, part: Seq<char>) -> bool {
    &&& 0 <= at && at + part.len() <= text.len()
    &&& forall|i: int| 0 <= i < part.len() ==> text[at + i] == (#[trigger] part[i])
}

proof fn lemma_reads(text: Seq<char>, at: int, part: Seq<char>)
    ensures
        reads(text, at, part) <==> occurs_at(text, part, at),
{
    if occurs_at(text, part, at) {
        assert forall|i: int| 0 <= i < part.len() implies text[at + i] == (#[trigger] part[i]) by {
            assert(text.subrange(at, at + part.len())[i] == part[i]);
        }
    }
    if reads(text, at, part) {
        assert(text.subrange(at, at + part.len()) =~= part);
    }
}

/// Where a text with a term replaced begins with characters that the mark does not have, the
/// text itself does.
proof fn lemma_replaced_start(text: Seq<char>, term: Seq<char>, from: int, part: Seq<char>)
    requires
        0 <= from <= text.len(),
        forall|i: int| 0 <= i < part.len() ==> !redacted().contains(#[trigger] part[i]),
        reads(replaced(text, term, from), 0, part),
    ensures
        reads(text, from, part),
    decreases text.len() - from,
{
    reveal_strlit("[REDACTED]");
    let out = replaced(text, term, from);
    if part.len() > 0 && from < text.len() {
        assert(out[0] == part[0]);
        if term.len() > 0 && occurs_at(text, term, from) {
            assert(out[0] == redacted()[0]);
            assert(redacted().contains(part[0]));
        } else {
            let rest = replaced(text, term, from + 1);
            let tail = part.drop_first();
            assert forall|i: int| 0 <= i < tail.len() implies !redacted().contains(
                #[trigger] tail[i],
            ) && rest[0 + i] == tail[i] by {
                assert(tail[i] == part[i + 1]);
                assert(out[0 + (i + 1)] == part[i + 1]);
                assert(out[i + 1] == rest[i]);
            }
            lemma_replaced_start(text, term, from + 1, tail);
            assert forall|i: int| 0 <= i < part.len() implies text[from + i] == (
            #[trigger] part[i]) by {
                if i > 0 {
                    assert(tail[i - 1] == part[i]);
                    assert(text[from + 1 + (i - 1)] == tail[i - 1]);
                }
            }
        }
    }
}

/// What a text with a term replaced holds of the characters that the mark does not have, the
/// text itself holds, at a place where the term does not stand.
proof fn lemma_replaced_keeps(
    text: Seq<char>,
    term: Seq<char>,
    from: int,
    part: Seq<char>,
    at: int,
) -> (place: int)
    requires
        0 <= from <= text.len(),
        part.len() > 0,
        forall|i: int| 0 <= i < part.len() ==> !redacted().contains(#[trigger] part[i]),
        reads(replaced(text, term, from), at, part),
    ensures
        reads(text, place, part),
        term.len() > 0 ==> !occurs_at(text, term, place),
    decreases text.len() - from,
{
    reveal_strlit("[REDACTED]");
    let out = replaced(text, term, from);
    assert(out[at + 0] == part[0]);
    if term.len() > 0 && occurs_at(text, term, from) {
        let rest = replaced(text, term, from + term.len());
        if at < redacted().len() {
            assert(out[at] == redacted()[at]);
            assert(redacted().contains(part[0]));
            from
        } else {
            assert forall|i: int| 0 <= i < part.len() implies rest[at - redacted().len() + i] == (
            #[trigger] part[i]) by {
                assert(out[at + i] == part[i]);
            }
            lemma_replaced_keeps(text, term, from + term.len(), part, at - redacted().len())
        }
    } else {
        let rest = replaced(text, term, from + 1);
        if at == 0 {
            lemma_replaced_start(text, term, from, part);
            from
        } else {
            assert forall|i: int| 0 <= i < part.len() implies rest[at - 1 + i] == (
            #[trigger] part[i]) by {
                assert(out[at + i] == part[i]);
            }
            lemma_replaced_keeps(text, term, from + 1, part, at - 1)
        }
    }
}

/// Whether a text does not hold another.
pub open spec fn free_of(text: Seq<char>, part: Seq<char>) -> bool {
    forall|i: int| !#[trigger] occurs_at(text, part, i)
}

proof fn lemma_terms_free(raw: Seq<char>, terms: Seq<Seq<char>>, n: int, k: int)
    requires
        0 <= k < n <= terms.len(),
        foreign(terms[k]),
    ensures
        free_of(terms_redacted(raw, terms, n).text, terms[k]),
    decreases n,
{
    let term = terms[k];
    let before = terms_redacted(raw, terms, n - 1).text;
    if n >= 2 && terms[n - 2] == terms[n - 1] {
        if k == n - 1 {
            lemma_terms_free(raw, terms, n - 1, n - 2);
        } else {
            lemma_terms_free(raw, terms, n - 1, k);
        }
    } else {
        if k < n - 1 {
            lemma_terms_free(raw, terms, n - 1, k);
        }
        let after = replaced(before, terms[n - 1], 0);
        assert forall|i: int| !#[trigger] occurs_at(after, term, i) by {
            if occurs_at(after, term, i) {
                lemma_reads(after, i, term);
                let place = lemma_replaced_keeps(before, terms[n - 1], 0, term, i);
                lemma_reads(before, place, term);
            }
        }
    }
}

proof fn lemma_line_free(text: Seq<char>, from: int, end: int, term: Seq<char>)
    requires
        0 <= from <= end <= text.len(),
        foreign(term),
        free_of(text, term),
    ensures
        free_of(line_redacted(text.subrange(from, end)), term),
{
    let line = text.subrange(from, end);
    let out = line_redacted(line);
    assert forall|i: int| !#[trigger] occurs_at(out, term, i) by {
        if occurs_at(out, term, i) {
            lemma_reads(out, i, term);
            let start = match secret_start(line) {
                Some(start) => start,
                None => line.len() as int,
            };
            lemma_secret_start(line);
            assert forall|j: int| 0 <= j < term.len() implies text[from + i + j] == (
            #[trigger] term[j]) && i + j < start by {
                assert(out[i + j] == term[j]);
                if i + j >= start {
                    assert(out[i + j] == redacted()[i + j - start]);
                    assert(redacted().contains(term[j]));
                } else {
                    assert(out[i + j] == line[i + j]);
                }
            }
            assert(i + term.len() - 1 < start) by {
                assert(term[term.len() - 1] == term.last());
            }
            assert(reads(text, from + i, term));
            lemma_reads(text, from + i, term);
        }
    }
}

pub(crate) proof fn lemma_skip_spaces(text: Seq<char>, i: int)
    ensures
        skip_spaces(text, i) >= i,
    decreases text.len() - i,
{
    if 0 <= i < text.len() && ascii_space(text[i]) {
        lemma_skip_spaces(text, i + 1);
    }
}

proof fn lemma_first_value(text: Seq<char>, key: Seq<char>, bearer: bool, n: int)
    ensures
        first_value(text, key, bearer, n) matches Some(v) ==> 0 <= v < text.len(),
    decreases n,
{
    if n > 0 {
        lemma_first_value(text, key, bearer, n - 1);
        let after = n - 1 + key.len();
        lemma_skip_spaces(text, after);
        lemma_skip_spaces(text, skip_spaces(text, after) + 1);
    }
}

proof fn lemma_first_secret(line: Seq<char>, n: int)
    ensures
        first_secret(line, n) matches Some(v) ==> 0 <= v < line.len(),
    decreases n,
{
    if n > 0 {
        lemma_first_secret(line, n - 1);
        lemma_first_value(line, secret_key(n - 1), n - 1 == 8, line.len() as int);
    }
}

/// A secret begins within its line.
pub(crate) proof fn lemma_secret_start(line: Seq<char>)
    ensures
        secret_start(line) matches Some(v) ==> 0 <= v < line.len(),
{
    lemma_first_secret(lowered(line), 9);
}

proof fn lemma_lines_free(text: Seq<char>, from: int, before: Redacted, term: Seq<char>)
    requires
        0 <= from <= text.len(),
        foreign(term),
        !term.contains('\n'),
        free_of(text, term),
        free_of(before.text, term),
        before.text.len() == 0 || before.text.last() == '\n',
    ensures
        free_of(lines_redacted(text, from, before).text, term),
    decreases text.len() - from,
{
    if from < text.len() {
        let end = line_end(text, from);
        lemma_line_end(text, from);
        let line = text.subrange(from, end);
        let added = line_redacted(line);
        let shown = before.text + added;
        lemma_line_free(text, from, end, term);
        let m = before.text.len() as int;
        assert forall|i: int| !#[trigger] occurs_at(shown, term, i) by {
            if occurs_at(shown, term, i) {
                lemma_reads(shown, i, term);
                if i >= m {
                    assert forall|j: int| 0 <= j < term.len() implies added[i - m + j] == (
                    #[trigger] term[j]) by {
                        assert(shown[i + j] == term[j]);
                    }
                    lemma_reads(added, i - m, term);
                    assert(occurs_at(added, term, i - m));
                } else if i + term.len() > m - 1 {
                    assert(shown[i + (m - 1 - i)] == term[m - 1 - i]);
                    assert(term.contains('\n'));
                } else {
                    assert forall|j: int| 0 <= j < term.len() implies before.text[i + j] == (
                    #[trigger] term[j]) by {
                        assert(shown[i + j] == term[j]);
                    }
                    lemma_reads(before.text, i, term);
                    assert(occurs_at(before.text, term, i));
                }
            }
        }
        if end < text.len() {
            let next = shown.push('\n');
            assert forall|i: int| !#[trigger] occurs_at(next, term, i) by {
                if occurs_at(next, term, i) {
                    lemma_reads(next, i, term);
                    if i + term.len() > shown.len() {
                        assert(next[i + (term.len() - 1)] == term[term.len() - 1]);
                        assert(term.contains('\n'));
                    } else {
                        assert forall|j: int| 0 <= j < term.len() implies shown[i + j] == (
                        #[trigger] term[j]) by {
                            assert(next[i + j] == term[j]);
                        }
                        lemma_reads(shown, i, term);
                        assert(occurs_at(shown, term, i));
                    }
                }
            }
            let count = if secret_start(line) is Some {
                counted(before.count, 1)
            } else {
                before.count
            };
            lemma_lines_free(text, end + 1, Redacted { text: next, count }, term);
        }
    }
}

proof fn lemma_sanitized_free(raw: Seq<char>, sorted_terms: Seq<Seq<char>>, k: int)
    requires
        0 <= k < sorted_terms.len(),
        foreign(sorted_terms[k]),
    ensures
        free_of(sanitized(raw, sorted_terms).0, sorted_terms[k]),
{
    let term = sorted_terms[k];
    let protected = terms_redacted(raw, sorted_terms, sorted_terms.len() as int);
    let empty = Redacted { text: Seq::empty(), count: 0 };
    let assigned = lines_redacted(protected.text, 0, empty);
    let shown = plain(assigned.text);
    let out = sanitized(raw, sorted_terms).0;
    lemma_fitting_fits(shown, shown.len() as int, MAX_SANITIZED_TEXT_BYTES as int);
    law_sanitized_text_is_bounded_data(raw, sorted_terms);
    lemma_terms_free(raw, sorted_terms, sorted_terms.len() as int, k);
    assert forall|i: int| !#[trigger] occurs_at(out, term, i) by {
        if occurs_at(out, term, i) {
            lemma_reads(out, i, term);
            assert forall|j: int| 0 <= j < term.len() implies assigned.text[i + j] == (
            #[trigger] term[j]) && !control(term[j]) by {
                assert(out[i + j] == term[j]);
                assert(!control(out[i + j]));
                assert(out[i + j] == shown[i + j]);
                assert(shown[i + j] == plain_char(assigned.text[i + j]));
            }
            assert(!term.contains('\n'));
            assert(free_of(empty.text, term));
            lemma_lines_free(protected.text, 0, empty, term);
            lemma_reads(assigned.text, i, term);
            assert(occurs_at(assigned.text, term, i));
        }
    }
}

proof fn lemma_filled(terms: Seq<Seq<char>>, n: int, k: int)
    requires
        0 <= k < n <= terms.len(),
        terms[k].len() > 0,
    ensures
        filled_terms(terms, n).contains(terms[k]),
    decreases n,
{
    let before = filled_terms(terms, n - 1);
    if k < n - 1 {
        lemma_filled(terms, n - 1, k);
        let i = choose|i: int| 0 <= i < before.len() && before[i] == terms[k];
        assert(filled_terms(terms, n)[i] == terms[k]);
    } else {
        assert(filled_terms(terms, n)[before.len() as int] == terms[k]);
    }
}

/// No protected term is left in sanitized text, unless it has a character of those that
/// sanitizing puts there: a space, the replacement character or one of the mark.
pub proof fn law_protected_terms_are_redacted(
    result: SanitizedEvidenceText,
    source: MiningEvidenceId,
    raw: Seq<char>,
    terms: Seq<Seq<char>>,
    k: int,
)
    requires
        is_sanitized(result, source, raw, terms),
        0 <= k < terms.len(),
        foreign(terms[k]),
    ensures
        free_of(result@.text, terms[k]),
{
    let filled = filled_terms(terms, terms.len() as int);
    let in_order = choose|sorted_terms: Seq<Seq<char>>|
        is_sorted_terms(sorted_terms, filled) && (result@.text, result@.redactions)
            == #[trigger] sanitized(raw, sorted_terms);
    lemma_filled(terms, terms.len() as int, k);
    let at = choose|i: int| 0 <= i < filled.len() && filled[i] == terms[k];
    let given = choose|given: Seq<ProtectedTerm>|
        term_texts(given) == filled && in_order == #[trigger] term_texts(
            picked(given, sorted(given, given.len() as int)),
        );
    let order = sorted(given, given.len() as int);
    assert(given.len() == filled.len());
    lemma_sorted_holds(given, given.len() as int, at);
    let i = choose|i: int| 0 <= i < order.len() && order[i] == at;
    assert(in_order[i] == given[at].text@);
    assert(filled[at] == given[at].text@);
    lemma_sanitized_free(raw, in_order, i);
}

} // verus!
