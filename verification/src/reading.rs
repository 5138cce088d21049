//! Reading canonical JSON piece by piece. Each function finds the piece that stands at a
//! place of a text, and where the text goes on; what it answers where no such piece stands is
//! left open, and told by writing what was read again.
use crate::canonical::{escaped, escaped_char, json_string, quoted};
use crate::digest::{law_texts_tell_digests_apart, lemma_text_len, Digest};
use crate::text::{
    chars_at, chars_of, decimal, hex_char, is_digit, lemma_decimal, occurs_at, parse_decimal,
    string_of,
};
use vstd::prelude::*;

verus! {

/// What stands behind a text that stands at a place.
pub proof fn lemma_parts_occur(text: Seq<char>, p: Seq<char>, q: Seq<char>, at: int)
    requires
        occurs_at(text, p + q, at),
    ensures
        occurs_at(text, p, at),
        occurs_at(text, q, at + p.len()),
{
    let whole = text.subrange(at, at + (p + q).len());
    assert(p =~= whole.subrange(0, p.len() as int));
    assert(q =~= whole.subrange(p.len() as int, whole.len() as int));
    assert(text.subrange(at, at + p.len()) =~= p);
    assert(text.subrange(at + p.len(), at + p.len() + q.len()) =~= q);
}

/// Where a fixed text ends that stands at a place.
pub(crate) fn take_part(chars: &Vec<char>, at: usize, part: &str) -> (r: Option<usize>)
    ensures
        match r {
            Some(next) => occurs_at(chars@, part@, at as int) && next == at + part@.len() && next
                <= chars.len(),
            None => !occurs_at(chars@, part@, at as int),
        },
{
    let part = chars_of(part);
    if chars_at(chars, &part, at) {
        assert(at + part.len() <= chars.len());
        Some(at + part.len())
    } else {
        None
    }
}

/// The value of a lower-case hexadecimal digit.
fn hex_value(c: char) -> (r: Option<u8>)
    ensures
        match r {
            Some(value) => value < 16 && c == hex_char(value as int),
            None => forall|value: int| 0 <= value < 16 ==> c != #[trigger] hex_char(value),
        },
{
    if '0' <= c && c <= '9' {
        Some((c as u32 - '0' as u32) as u8)
    } else if 'a' <= c && c <= 'f' {
        Some((c as u32 - 'a' as u32) as u8 + 10)
    } else {
        None
    }
}

/// The character that stands at a place of a JSON string.
fn take_char(chars: &Vec<char>, at: usize, Ghost(c): Ghost<char>) -> (r: Option<(char, usize)>)
    requires
        at < chars.len(),
    ensures
        occurs_at(chars@, escaped_char(c), at as int) ==> r == Some(
            (c, (at + escaped_char(c).len()) as usize),
        ),
        r is Some ==> at < (r->0).1 <= chars.len(),
{
    let ghost piece = escaped_char(c);
    let ghost stands = occurs_at(chars@, piece, at as int);
    proof {
        assert(stands ==> forall|k: int|
            0 <= k < piece.len() ==> chars@[at + k] == #[trigger] piece[k]) by {
            if stands {
                assert forall|k: int| 0 <= k < piece.len() implies chars@[at + k]
                    == #[trigger] piece[k] by {
                    assert(chars@.subrange(at as int, at + piece.len())[k] == piece[k]);
                }
            }
        }
        if stands {
            assert(piece[0] == chars@[at as int]);
            if piece.len() > 1 {
                assert(piece[1] == chars@[at + 1]);
            }
            if piece.len() > 2 {
                assert(piece[4] == chars@[at + 4]);
                assert(piece[5] == chars@[at + 5]);
            }
        }
    }
    let first = chars[at];
    if first != '\\' {
        return Some((first, at + 1));
    }
    if chars.len() - at < 2 {
        return None;
    }
    let second = chars[at + 1];
    if second == '"' || second == '\\' {
        return Some((second, at + 2));
    }
    if second == 'b' {
        return Some(('\u{8}', at + 2));
    }
    if second == 't' {
        return Some(('\t', at + 2));
    }
    if second == 'n' {
        return Some(('\n', at + 2));
    }
    if second == 'f' {
        return Some(('\u{c}', at + 2));
    }
    if second == 'r' {
        return Some(('\r', at + 2));
    }
    if chars.len() - at < 6 {
        return None;
    }
    match (hex_value(chars[at + 4]), hex_value(chars[at + 5])) {
        (Some(high), Some(low)) => {
            let code: u8 = high * 16 + low;
            Some((code as char, at + 6))
        },
        _ => None,
    }
}

proof fn lemma_escaped_step(chars: Seq<char>, text: Seq<char>, at: int)
    requires
        text.len() > 0,
        occurs_at(chars, escaped(text) + "\""@, at),
    ensures
        occurs_at(chars, escaped_char(text[0]), at),
        occurs_at(chars, escaped(text.skip(1)) + "\""@, at + escaped_char(text[0]).len()),
        chars[at] != '"',
        escaped(text).len() == escaped_char(text[0]).len() + escaped(text.skip(1)).len(),
{
    let piece = escaped_char(text[0]);
    let rest = escaped(text.skip(1)) + "\""@;
    assert(escaped(text) + "\""@ =~= piece + rest);
    lemma_parts_occur(chars, piece, rest, at);
    assert(chars.subrange(at, at + piece.len())[0] == piece[0]);
}

/// The text of the JSON string that stands at a place.
pub(crate) fn take_string(chars: &Vec<char>, at: usize, Ghost(text): Ghost<Seq<char>>) -> (r:
    Option<(String, usize)>)
    ensures
        occurs_at(chars@, json_string(text), at as int) ==> {
            &&& r is Some
            &&& (r->0).0@ == text
            &&& (r->0).1 == at + json_string(text).len()
        },
        r is Some ==> at < (r->0).1 <= chars.len(),
{
    let ghost stands = occurs_at(chars@, json_string(text), at as int);
    proof {
        reveal_strlit("\"");
        if stands {
            assert(json_string(text) =~= "\""@ + (escaped(text) + "\""@));
            lemma_parts_occur(chars@, "\""@, escaped(text) + "\""@, at as int);
            assert(chars@.subrange(at as int, at + 1)[0] == '"');
        }
    }
    if at >= chars.len() || chars[at] != '"' {
        return None;
    }
    let mut found = String::new();
    let mut i: usize = at + 1;
    let ghost mut left: Seq<char> = text;
    proof {
        assert(found@ + left =~= text);
    }
    while i < chars.len()
        invariant
            at < i <= chars.len(),
            stands == occurs_at(chars@, json_string(text), at as int),
            stands ==> {
                &&& found@ + left == text
                &&& occurs_at(chars@, escaped(left) + "\""@, i as int)
                &&& i + escaped(left).len() + 1 == at + json_string(text).len()
            },
        decreases chars.len() - i,
    {
        proof {
            reveal_strlit("\"");
            if stands {
                if left.len() > 0 {
                    lemma_escaped_step(chars@, left, i as int);
                } else {
                    assert(escaped(left) + "\""@ =~= "\""@);
                    assert(chars@.subrange(i as int, i + 1)[0] == '"');
                    assert(found@ =~= text);
                }
            }
        }
        if chars[i] == '"' {
            return Some((found, i + 1));
        }
        let ghost c = left[0];
        let (next, after) = match take_char(chars, i, Ghost(c)) {
            Some(found) => found,
            None => return None,
        };
        let ghost before = found@;
        found.push(next);
        i = after;
        proof {
            if stands {
                assert(before + left =~= before.push(c) + left.skip(1));
                left = left.skip(1);
            }
        }
    }
    proof {
        reveal_strlit("\"");
    }
    None
}

/// The number whose decimal notation stands at a place.
pub(crate) fn take_number(
    chars: &Vec<char>,
    at: usize,
    Ghost(n): Ghost<u64>,
    Ghost(end): Ghost<Seq<char>>,
) -> (r: Option<(u64, usize)>)
    requires
        end.len() > 0,
        !is_digit(end[0]),
    ensures
        occurs_at(chars@, decimal(n as nat) + end, at as int) ==> r == Some(
            (n, (at + decimal(n as nat).len()) as usize),
        ),
        r is Some ==> at <= (r->0).1 <= chars.len(),
{
    let ghost digits = decimal(n as nat);
    let ghost stands = occurs_at(chars@, digits + end, at as int);
    proof {
        lemma_decimal(n as nat);
        if stands {
            lemma_parts_occur(chars@, digits, end, at as int);
            assert(chars@.subrange(at + digits.len(), at + digits.len() + end.len())[0] == end[0]);
        }
    }
    if at > chars.len() {
        return None;
    }
    let mut i: usize = at;
    while i < chars.len() && '0' <= chars[i] && chars[i] <= '9'
        invariant
            at <= i <= chars.len(),
            stands ==> {
                &&& i <= at + digits.len()
                &&& chars@[at + digits.len()] == end[0]
                &&& at + digits.len() < chars.len()
            },
            !is_digit(end[0]),
        decreases chars.len() - i,
    {
        i += 1;
    }
    proof {
        if stands && i < at + digits.len() {
            assert(chars@.subrange(at as int, at + digits.len())[i - at] == digits[i - at]);
            assert(is_digit(digits[i - at]));
        }
    }
    let text = string_of(chars, at, i);
    match parse_decimal(text.as_str()) {
        Some(m) => {
            proof {
                lemma_decimal(m as nat);
            }
            Some((m, i))
        },
        None => None,
    }
}

/// The identity whose text stands at a place, between quotation marks.
pub(crate) fn take_digest(chars: &Vec<char>, at: usize, Ghost(digest): Ghost<Digest>) -> (r: Option<
    (Digest, usize),
>)
    ensures
        occurs_at(chars@, quoted(digest.text()), at as int) ==> r == Some(
            (digest, (at + quoted(digest.text()).len()) as usize),
        ),
        r is Some ==> at <= (r->0).1 <= chars.len(),
{
    let ghost text = digest.text();
    let ghost stands = occurs_at(chars@, quoted(text), at as int);
    proof {
        reveal_strlit("\"");
        lemma_text_len(digest);
        if stands {
            assert(chars@.subrange(at + 1, at + 65) =~= chars@.subrange(
                at as int,
                at + 66,
            ).subrange(1, 65));
            assert(quoted(text).subrange(1, 65) =~= text);
        }
    }
    if at > chars.len() || chars.len() - at < 66 {
        return None;
    }
    let found = string_of(chars, at + 1, at + 65);
    match Digest::parse(found.as_str()) {
        Some(parsed) => {
            proof {
                if stands {
                    law_texts_tell_digests_apart(parsed, digest);
                }
            }
            Some((parsed, at + 66))
        },
        None => None,
    }
}

} // verus!
