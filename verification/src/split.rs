//! Splitting of text into lines, words and parts, and the numbers that words spell.
use crate::text::{chars_of, string_of, white_space};
use vstd::prelude::*;

verus! {

/// The first line end at or after an index, or the end.
pub open spec fn line_end_at(text: Seq<char>, from: int) -> int
    decreases text.len() - from,
{
    if 0 <= from < text.len() && text[from] != '\n' {
        line_end_at(text, from + 1)
    } else {
        from
    }
}

/// The first index at or after another that is, or is not, white space; or the end.
pub open spec fn turn_at(text: Seq<char>, from: int, space: bool) -> int
    decreases text.len() - from,
{
    if 0 <= from < text.len() && white_space(text[from]) != space {
        turn_at(text, from + 1, space)
    } else {
        from
    }
}

pub fn find_turn(text: &Vec<char>, from: usize, space: bool) -> (r: usize)
    requires
        from <= text.len(),
    ensures
        r == turn_at(text@, from as int, space),
        from <= r <= text.len(),
{
    let mut i: usize = from;
    while i < text.len()
        invariant_except_break
            from <= i <= text.len(),
            turn_at(text@, from as int, space) == turn_at(text@, i as int, space),
        ensures
            i == turn_at(text@, from as int, space),
            from <= i <= text.len(),
        decreases text.len() - i,
    {
        if text[i].is_whitespace() == space {
            break;
        }
        i += 1;
    }
    i
}

/// The first place of a character at or after an index, or the end.
pub open spec fn place_of(text: Seq<char>, c: char, from: int) -> int
    decreases text.len() - from,
{
    if 0 <= from < text.len() && text[from] != c {
        place_of(text, c, from + 1)
    } else {
        from
    }
}

pub fn find_place(text: &Vec<char>, c: char, from: usize) -> (r: usize)
    requires
        from <= text.len(),
    ensures
        r == place_of(text@, c, from as int),
        from <= r <= text.len(),
{
    let mut i: usize = from;
    while i < text.len()
        invariant_except_break
            from <= i <= text.len(),
            place_of(text@, c, from as int) == place_of(text@, c, i as int),
        ensures
            i == place_of(text@, c, from as int),
            from <= i <= text.len(),
        decreases text.len() - i,
    {
        if text[i] == c {
            break;
        }
        i += 1;
    }
    i
}

/// The texts of strings.
pub open spec fn shown(items: Seq<String>) -> Seq<Seq<char>> {
    items.map_values(|item: String| item@)
}

pub fn push_shown(items: &mut Vec<String>, item: String)
    ensures
        shown(final(items)@) == shown(old(items)@).push(item@),
{
    let ghost before = items@;
    items.push(item);
    assert(shown(items@) =~= shown(before).push(item@));
}

proof fn lemma_turn(text: Seq<char>, from: int, space: bool)
    requires
        0 <= from <= text.len(),
    ensures
        from <= turn_at(text, from, space) <= text.len(),
        turn_at(text, from, space) < text.len() ==> white_space(
            text[turn_at(text, from, space)],
        ) == space,
    decreases text.len() - from,
{
    if from < text.len() && white_space(text[from]) != space {
        lemma_turn(text, from + 1, space);
    }
}

/// The words of a text from an index on: what stands between white space.
pub open spec fn words_from(text: Seq<char>, from: int) -> Seq<Seq<char>>
    decreases text.len() - from,
{
    let a = turn_at(text, from, false);
    let b = turn_at(text, a, true);
    if from < 0 || a >= text.len() || b <= from || b > text.len() {
        Seq::empty()
    } else {
        Seq::empty().push(text.subrange(a, b)) + words_from(text, b)
    }
}

/// The words of a text.
pub open spec fn words_of(text: Seq<char>) -> Seq<Seq<char>> {
    words_from(text, 0)
}

/// The words of a text.
pub fn words(text: &str) -> (r: Vec<String>)
    ensures
        shown(r@) == words_of(text@),
{
    let chars = chars_of(text);
    let ghost whole = words_of(chars@);
    let mut list: Vec<String> = Vec::new();
    let mut at: usize = 0;
    let mut done = false;
    proof {
        assert(shown(list@) + whole =~= whole);
    }
    while !done
        invariant
            at <= chars.len(),
            whole == words_of(chars@),
            !done ==> shown(list@) + words_from(chars@, at as int) == whole,
            done ==> shown(list@) == whole,
        decreases chars.len() - at, (if done { 0int } else { 1int }),
    {
        let a = find_turn(&chars, at, false);
        let b = find_turn(&chars, a, true);
        proof {
            lemma_turn(chars@, at as int, false);
            lemma_turn(chars@, a as int, true);
        }
        if a >= chars.len() {
            proof {
                assert(words_from(chars@, at as int) =~= Seq::<Seq<char>>::empty());
                assert(shown(list@) + Seq::<Seq<char>>::empty() =~= shown(list@));
            }
            done = true;
        } else {
            assert(turn_at(chars@, a as int, true) > a);
            let ghost before = shown(list@);
            let ghost rest = words_from(chars@, b as int);
            let word = string_of(&chars, a, b);
            let ghost one = word@;
            push_shown(&mut list, word);
            proof {
                assert(before + (Seq::empty().push(one) + rest) =~= before.push(one) + rest);
            }
            at = b;
        }
    }
    list
}

/// The end of the line at an index, without its line end.
pub open spec fn line_stop(text: Seq<char>, from: int) -> int {
    let end = line_end_at(text, from);
    if from < end < text.len() && text[end - 1] == '\r' {
        end - 1
    } else {
        end
    }
}

/// The lines of a text from an index on.
pub open spec fn lines_from(text: Seq<char>, from: int) -> Seq<Seq<char>>
    decreases text.len() - from,
{
    if from < 0 || from >= text.len() || line_end_at(text, from) < from {
        Seq::empty()
    } else if line_end_at(text, from) >= text.len() {
        Seq::empty().push(text.subrange(from, line_stop(text, from)))
    } else {
        Seq::empty().push(text.subrange(from, line_stop(text, from))) + lines_from(
            text,
            line_end_at(text, from) + 1,
        )
    }
}

/// The lines of a text.
pub open spec fn lines_of(text: Seq<char>) -> Seq<Seq<char>> {
    lines_from(text, 0)
}

proof fn lemma_line_end(text: Seq<char>, from: int)
    requires
        0 <= from <= text.len(),
    ensures
        line_end_at(text, from) == place_of(text, '\n', from),
        from <= line_end_at(text, from) <= text.len(),
    decreases text.len() - from,
{
    if from < text.len() && text[from] != '\n' {
        lemma_line_end(text, from + 1);
    }
}

/// The lines of a text.
pub fn lines(text: &str) -> (r: Vec<String>)
    ensures
        shown(r@) == lines_of(text@),
{
    let chars = chars_of(text);
    let ghost whole = lines_of(chars@);
    let mut list: Vec<String> = Vec::new();
    let mut at: usize = 0;
    proof {
        assert(shown(list@) + whole =~= whole);
    }
    while at < chars.len()
        invariant
            at <= chars.len(),
            whole == lines_of(chars@),
            shown(list@) + lines_from(chars@, at as int) == whole,
        decreases chars.len() - at,
    {
        proof {
            lemma_line_end(chars@, at as int);
        }
        let end = find_place(&chars, '\n', at);
        let stop: usize = if at < end && end < chars.len() && chars[end - 1] == '\r' {
            end - 1
        } else {
            end
        };
        let ghost before = shown(list@);
        let ghost rest = if end < chars.len() {
            lines_from(chars@, end + 1)
        } else {
            Seq::empty()
        };
        let line = string_of(&chars, at, stop);
        let ghost one = line@;
        push_shown(&mut list, line);
        proof {
            assert(before + (Seq::empty().push(one) + rest) =~= before.push(one) + rest);
            assert(before.push(one) + Seq::<Seq<char>>::empty() =~= before.push(one));
        }
        at = if end < chars.len() {
            end + 1
        } else {
            end
        };
    }
    proof {
        assert(shown(list@) + lines_from(chars@, at as int) =~= shown(list@));
    }
    list
}

/// The parts of a text from an index on, between occurrences of a character.
pub open spec fn parts_from(text: Seq<char>, c: char, from: int) -> Seq<Seq<char>>
    decreases text.len() - from,
{
    let end = place_of(text, c, from);
    if from < 0 || from > text.len() || end < from || end >= text.len() {
        Seq::empty().push(text.subrange(from, text.len() as int))
    } else {
        Seq::empty().push(text.subrange(from, end)) + parts_from(text, c, end + 1)
    }
}

/// The parts of a text between occurrences of a character.
pub open spec fn parts_of(text: Seq<char>, c: char) -> Seq<Seq<char>> {
    parts_from(text, c, 0)
}

/// The parts of a text between occurrences of a character.
pub fn parts(text: &str, c: char) -> (r: Vec<String>)
    ensures
        shown(r@) == parts_of(text@, c),
{
    let chars = chars_of(text);
    let ghost whole = parts_of(chars@, c);
    let mut list: Vec<String> = Vec::new();
    let mut at: usize = 0;
    proof {
        assert(shown(list@) + whole =~= whole);
    }
    let mut end = find_place(&chars, c, 0);
    while end < chars.len()
        invariant
            at <= end <= chars.len(),
            end == place_of(chars@, c, at as int),
            whole == parts_of(chars@, c),
            shown(list@) + parts_from(chars@, c, at as int) == whole,
        decreases chars.len() - end,
    {
        let ghost before = shown(list@);
        let ghost rest = parts_from(chars@, c, end + 1);
        let part = string_of(&chars, at, end);
        let ghost one = part@;
        push_shown(&mut list, part);
        proof {
            assert(before + (Seq::empty().push(one) + rest) =~= before.push(one) + rest);
        }
        at = end + 1;
        end = find_place(&chars, c, at);
    }
    let ghost before = shown(list@);
    let last = string_of(&chars, at, chars.len());
    let ghost one = last@;
    push_shown(&mut list, last);
    proof {
        assert(before + Seq::empty().push(one) =~= before.push(one));
    }
    list
}

/// The value of a digit in a base of at most ten.
pub open spec fn digit_in(c: char, base: int) -> Option<int> {
    if '0' <= c <= '9' && (c as int) - ('0' as int) < base {
        Some((c as int) - ('0' as int))
    } else {
        None
    }
}

/// The number that digits spell in a base, if they are digits of it.
pub open spec fn spelled(digits: Seq<char>, base: int) -> Option<int>
    decreases digits.len(),
{
    if digits.len() == 0 {
        Some(0)
    } else {
        match (spelled(digits.drop_last(), base), digit_in(digits.last(), base)) {
            (Some(rest), Some(digit)) => Some(rest * base + digit),
            _ => None,
        }
    }
}

/// The number that a text spells in a base: digits, with at most one plus sign before them.
pub open spec fn number_of(text: Seq<char>, base: int) -> Option<int> {
    let digits = if text.len() > 0 && text[0] == '+' {
        text.subrange(1, text.len() as int)
    } else {
        text
    };
    if digits.len() == 0 {
        None
    } else {
        spelled(digits, base)
    }
}

proof fn lemma_spelled_none(digits: Seq<char>, base: int, k: int, n: int)
    requires
        0 <= k <= n <= digits.len(),
        spelled(digits.subrange(0, k), base) is None,
    ensures
        spelled(digits.subrange(0, n), base) is None,
    decreases n,
{
    if k < n {
        lemma_spelled_none(digits, base, k, n - 1);
        assert(digits.subrange(0, n).drop_last() =~= digits.subrange(0, n - 1));
    }
}

proof fn lemma_spelled_grows(digits: Seq<char>, base: int, k: int, n: int)
    requires
        0 <= k <= n <= digits.len(),
        2 <= base,
        spelled(digits.subrange(0, k), base) is Some,
        spelled(digits.subrange(0, k), base)->0 >= 0,
    ensures
        spelled(digits.subrange(0, n), base) is Some ==> spelled(digits.subrange(0, n), base)->0
            >= spelled(digits.subrange(0, k), base)->0,
    decreases n,
{
    if k < n {
        lemma_spelled_grows(digits, base, k, n - 1);
        let all = digits.subrange(0, n);
        assert(all.drop_last() =~= digits.subrange(0, n - 1));
        if spelled(all, base) is Some {
            let rest = spelled(digits.subrange(0, n - 1), base)->0;
            assert(rest * base >= rest) by (nonlinear_arith)
                requires
                    rest >= 0,
                    base >= 2,
            ;
        }
    }
}

/// The number that a text spells in a base; none if it spells none, or a larger one than
/// the bound.
pub fn parse_number(text: &str, base: u64, bound: u64) -> (r: Option<u64>)
    requires
        2 <= base <= 10,
    ensures
        match r {
            Some(n) => number_of(text@, base as int) == Some(n as int) && n <= bound,
            None => match number_of(text@, base as int) {
                Some(n) => n > bound,
                None => true,
            },
        },
{
    let chars = chars_of(text);
    let start: usize = if chars.len() > 0 && chars[0] == '+' {
        1
    } else {
        0
    };
    if start >= chars.len() {
        return None;
    }
    let ghost digits = chars@.subrange(start as int, chars@.len() as int);
    assert(start == 0 ==> digits =~= chars@);
    let mut value: u64 = 0;
    let mut i: usize = start;
    assert(digits.subrange(0, 0) =~= Seq::<char>::empty());
    while i < chars.len()
        invariant
            2 <= base <= 10,
            start <= i <= chars.len(),
            digits == chars@.subrange(start as int, chars@.len() as int),
            number_of(text@, base as int) == spelled(digits, base as int),
            spelled(digits.subrange(0, i - start), base as int) == Some(value as int),
            value <= bound,
        decreases chars.len() - i,
    {
        let ghost k = i - start;
        proof {
            assert(digits.subrange(0, k + 1).drop_last() =~= digits.subrange(0, k));
            assert(digits.subrange(0, k + 1).last() == chars@[i as int]);
            assert(digits.subrange(0, digits.len() as int) =~= digits);
        }
        let c = chars[i];
        let digit: u64 = if '0' <= c && c <= '9' {
            (c as u64) - ('0' as u64)
        } else {
            10
        };
        if digit >= base {
            proof {
                lemma_spelled_none(digits, base as int, k + 1, digits.len() as int);
            }
            return None;
        }
        assert(0 <= value * base <= 0xffff_ffff_ffff_ffff * 10) by (nonlinear_arith)
            requires
                0 <= value <= 0xffff_ffff_ffff_ffff,
                0 <= base <= 10,
        ;
        let wide = (value as u128) * (base as u128) + (digit as u128);
        if wide > bound as u128 {
            proof {
                lemma_spelled_grows(digits, base as int, k + 1, digits.len() as int);
            }
            return None;
        }
        value = wide as u64;
        i += 1;
    }
    assert(digits.subrange(0, digits.len() as int) =~= digits);
    Some(value)
}

} // verus!
