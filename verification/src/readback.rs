//! Texts that tell where they end, so that what was put together from them can be read back.
use crate::canonical::{escaped, escaped_char, json_string, quoted};
use crate::text::hex_char;
use vstd::prelude::*;

verus! {

/// Whether two texts tell where they end: whatever follows them, they are the same if what
/// begins with the one also begins with the other.
#[verifier::opaque]
pub open spec fn tells(p: Seq<char>, q: Seq<char>) -> bool {
    forall|x: Seq<char>, y: Seq<char>| #[trigger] (p + x) == #[trigger] (q + y) ==> p == q
}

/// Texts that tell where they end are taken off the beginning of a text one way only.
pub proof fn lemma_taken_off(p: Seq<char>, q: Seq<char>, x: Seq<char>, y: Seq<char>)
    requires
        tells(p, q),
        p + x == q + y,
    ensures
        p == q,
        x == y,
{
    reveal(tells);
    assert(x =~= (p + x).skip(p.len() as int));
    assert(y =~= (q + y).skip(q.len() as int));
}

/// Texts of one length tell where they end.
pub proof fn lemma_equal_lengths_tell(p: Seq<char>, q: Seq<char>)
    requires
        p.len() == q.len(),
    ensures
        tells(p, q),
{
    reveal(tells);
    assert forall|x: Seq<char>, y: Seq<char>| #[trigger] (p + x) == #[trigger] (q + y) implies p
        == q by {
        assert(p =~= (p + x).take(p.len() as int));
        assert(q =~= (q + y).take(q.len() as int));
    }
}

/// Texts that tell where they end still do so when such texts are put behind them, and each
/// can be read back.
pub proof fn lemma_pairs_tell(p: Seq<char>, q: Seq<char>, r: Seq<char>, s: Seq<char>)
    requires
        tells(p, q),
        p == q ==> tells(r, s),
    ensures
        tells(p + r, q + s),
        p + r == q + s ==> p == q && r == s,
{
    assert forall|x: Seq<char>, y: Seq<char>| #[trigger] ((p + r) + x) == #[trigger] ((q + s) + y)
        implies p + r == q + s by {
        assert((p + r) + x =~= p + (r + x));
        assert((q + s) + y =~= q + (s + y));
        lemma_taken_off(p, q, r + x, s + y);
        lemma_taken_off(r, s, x, y);
    }
    reveal(tells);
    if p + r == q + s {
        lemma_taken_off(p, q, r, s);
    }
}

/// The same holds where the second texts tell where they end by what comes behind them.
pub proof fn lemma_ended_pairs_tell(
    p: Seq<char>,
    q: Seq<char>,
    r: Seq<char>,
    s: Seq<char>,
    end: Seq<char>,
)
    requires
        tells(p, q),
        tells(r + end, s + end),
    ensures
        tells(p + r + end, q + s + end),
        p + r + end == q + s + end ==> p == q && r == s,
{
    assert(p + r + end =~= p + (r + end));
    assert(q + s + end =~= q + (s + end));
    lemma_pairs_tell(p, q, r + end, s + end);
    if p + r + end == q + s + end {
        assert(r =~= (r + end).take(r.len() as int));
        assert(s =~= (s + end).take(s.len() as int));
    }
}

/// Whether a character occurs nowhere in a text.
pub open spec fn lacks(text: Seq<char>, c: char) -> bool {
    forall|i: int| 0 <= i < text.len() ==> #[trigger] text[i] != c
}

/// Texts tell where they end by a character behind them that they do not hold.
pub proof fn lemma_ends_tell(p: Seq<char>, q: Seq<char>, end: Seq<char>)
    requires
        end.len() > 0,
        lacks(p, end[0]),
        lacks(q, end[0]),
    ensures
        tells(p + end, q + end),
{
    assert forall|x: Seq<char>, y: Seq<char>| #[trigger] ((p + end) + x) == #[trigger] ((q + end)
        + y) implies p + end == q + end by {
        let whole = (p + end) + x;
        assert(whole[p.len() as int] == end[0]);
        assert(whole[q.len() as int] == end[0]);
        if p.len() < q.len() {
            assert(whole[p.len() as int] == q[p.len() as int]);
        }
        if q.len() < p.len() {
            assert(whole[q.len() as int] == p[q.len() as int]);
        }
        assert(p =~= whole.take(p.len() as int));
        assert(q =~= whole.take(q.len() as int));
    }
    reveal(tells);
}

proof fn lemma_escaped_chars_tell(c: char, d: char)
    ensures
        tells(escaped_char(c), escaped_char(d)),
        escaped_char(c) == escaped_char(d) ==> c == d,
{
    let p = escaped_char(c);
    let q = escaped_char(d);
    reveal(tells);
    assert forall|x: Seq<char>, y: Seq<char>| #[trigger] (p + x) == #[trigger] (q + y) implies p
        == q by {
        let whole = p + x;
        assert(whole[0] == p[0] && whole[0] == q[0]);
        if p.len() > 1 {
            assert(whole[1] == p[1]);
        }
        if q.len() > 1 {
            assert(whole[1] == q[1]);
        }
        assert(p.len() == q.len());
        assert(p =~= whole.take(p.len() as int));
        assert(q =~= whole.take(q.len() as int));
    }
    if p == q {
        assert(p[0] == q[0]);
        if p.len() > 1 {
            assert(p[1] == q[1]);
        }
        if p.len() > 2 {
            assert(p[4] == q[4] && p[5] == q[5]);
            assert(hex_char(c as int / 16) == hex_char(d as int / 16));
            assert(hex_char(c as int % 16) == hex_char(d as int % 16));
        }
    }
}

proof fn lemma_escaped_tell(a: Seq<char>, b: Seq<char>, x: Seq<char>, y: Seq<char>)
    requires
        escaped(a) + (seq!['"'] + x) == escaped(b) + (seq!['"'] + y),
    ensures
        a == b,
        x == y,
    decreases a.len(),
{
    let whole = escaped(a) + (seq!['"'] + x);
    if a.len() == 0 && b.len() == 0 {
        assert(x =~= whole.skip(1));
        assert(y =~= whole.skip(1));
        assert(a =~= b);
    } else if a.len() == 0 {
        assert(whole[0] == '"');
        assert(whole[0] == escaped_char(b[0])[0]);
    } else if b.len() == 0 {
        assert(whole[0] == '"');
        assert(whole[0] == escaped_char(a[0])[0]);
    } else {
        let p = escaped_char(a[0]);
        let q = escaped_char(b[0]);
        let rest = escaped(a.skip(1)) + (seq!['"'] + x);
        let other = escaped(b.skip(1)) + (seq!['"'] + y);
        assert(whole =~= p + rest);
        assert(whole =~= q + other);
        lemma_escaped_chars_tell(a[0], b[0]);
        lemma_taken_off(p, q, rest, other);
        lemma_escaped_tell(a.skip(1), b.skip(1), x, y);
        assert(a =~= seq![a[0]] + a.skip(1));
        assert(b =~= seq![b[0]] + b.skip(1));
    }
}

/// JSON strings tell where they end, and the text of each can be read back.
pub proof fn lemma_json_strings_tell(a: Seq<char>, b: Seq<char>)
    ensures
        tells(json_string(a), json_string(b)),
        json_string(a) == json_string(b) ==> a == b,
{
    reveal_strlit("\"");
    let p = json_string(a);
    let q = json_string(b);
    assert forall|x: Seq<char>, y: Seq<char>| #[trigger] (p + x) == #[trigger] (q + y) implies a
        == b by {
        assert((p + x).skip(1) =~= escaped(a) + (seq!['"'] + x));
        assert((q + y).skip(1) =~= escaped(b) + (seq!['"'] + y));
        lemma_escaped_tell(a, b, x, y);
    }
    reveal(tells);
    if p == q {
        assert(p + Seq::<char>::empty() == q + Seq::<char>::empty());
    }
}

/// What stands before the item at an index of a list.
pub open spec fn comma(i: int) -> Seq<char> {
    if i == 0 {
        ""@
    } else {
        ","@
    }
}

/// The first `n` of some texts, separated by commas.
pub open spec fn commas(items: Seq<Seq<char>>, n: int) -> Seq<char>
    decreases n,
{
    if n <= 0 {
        ""@
    } else {
        commas(items, n - 1) + comma(n - 1) + items[n - 1]
    }
}

/// The items of a list from an index on, each behind what separates it.
spec fn list_tail(items: Seq<Seq<char>>, from: int) -> Seq<char>
    decreases items.len() - from,
{
    if from < 0 || from >= items.len() {
        Seq::empty()
    } else {
        comma(from) + items[from] + list_tail(items, from + 1)
    }
}

proof fn lemma_list_parts(items: Seq<Seq<char>>, from: int)
    requires
        0 <= from <= items.len(),
    ensures
        commas(items, from) + list_tail(items, from) == commas(items, items.len() as int),
    decreases items.len() - from,
{
    if from < items.len() {
        lemma_list_parts(items, from + 1);
        assert(commas(items, from) + list_tail(items, from) =~= commas(items, from + 1)
            + list_tail(items, from + 1));
    } else {
        assert(commas(items, from) + Seq::<char>::empty() =~= commas(items, from));
    }
}

/// Whether every item of a list begins with a quotation mark.
pub open spec fn all_quoted(items: Seq<Seq<char>>) -> bool {
    forall|i: int|
        0 <= i < items.len() ==> (#[trigger] items[i]).len() > 0 && items[i][0] == '"'
}

/// Whether every item of a list begins with a character.
pub open spec fn all_begin(items: Seq<Seq<char>>, mark: char) -> bool {
    forall|i: int|
        0 <= i < items.len() ==> (#[trigger] items[i]).len() > 0 && items[i][0] == mark
}

/// Whether the items of two lists tell where they end, place by place.
pub open spec fn all_tell(p: Seq<Seq<char>>, q: Seq<Seq<char>>) -> bool {
    forall|i: int| 0 <= i < p.len() && i < q.len() ==> tells(#[trigger] p[i], #[trigger] q[i])
}

proof fn lemma_list_tails_tell(
    p: Seq<Seq<char>>,
    q: Seq<Seq<char>>,
    from: int,
    x: Seq<char>,
    y: Seq<char>,
    mark: char,
)
    requires
        all_begin(p, mark),
        all_begin(q, mark),
        all_tell(p, q),
        0 <= from <= p.len(),
        from <= q.len(),
        x.len() > 0 && x[0] != ',' && x[0] != mark,
        y.len() > 0 && y[0] != ',' && y[0] != mark,
        list_tail(p, from) + x == list_tail(q, from) + y,
    ensures
        p.len() == q.len(),
        forall|i: int| from <= i < p.len() ==> #[trigger] p[i] == q[i],
        x == y,
    decreases p.len() - from,
{
    reveal_strlit("");
    reveal_strlit(",");
    let whole = list_tail(p, from) + x;
    if from == p.len() && from == q.len() {
        assert(x =~= whole);
        assert(y =~= whole);
    } else if from == p.len() {
        assert(whole[0] == x[0]);
        assert(q[from][0] == mark);
        assert(whole[0] == (comma(from) + q[from])[0]);
    } else if from == q.len() {
        assert(whole[0] == y[0]);
        assert(p[from][0] == mark);
        assert(whole[0] == (comma(from) + p[from])[0]);
    } else {
        let rest = list_tail(p, from + 1) + x;
        let other = list_tail(q, from + 1) + y;
        assert(whole =~= comma(from) + (p[from] + rest));
        assert(whole =~= comma(from) + (q[from] + other));
        lemma_equal_lengths_tell(comma(from), comma(from));
        lemma_taken_off(comma(from), comma(from), p[from] + rest, q[from] + other);
        lemma_taken_off(p[from], q[from], rest, other);
        lemma_list_tails_tell(p, q, from + 1, x, y, mark);
    }
}

/// Lists of items that begin alike tell where they end by what comes behind them, and the items
/// can be read back.
pub proof fn lemma_marked_lists_tell(
    p: Seq<Seq<char>>,
    q: Seq<Seq<char>>,
    end: Seq<char>,
    mark: char,
)
    requires
        all_begin(p, mark),
        all_begin(q, mark),
        all_tell(p, q),
        end.len() > 0 && end[0] != ',' && end[0] != mark,
    ensures
        tells(commas(p, p.len() as int) + end, commas(q, q.len() as int) + end),
        commas(p, p.len() as int) == commas(q, q.len() as int) ==> p == q,
{
    reveal_strlit("");
    let a = commas(p, p.len() as int);
    let b = commas(q, q.len() as int);
    lemma_list_parts(p, 0);
    lemma_list_parts(q, 0);
    assert(a =~= list_tail(p, 0));
    assert(b =~= list_tail(q, 0));
    assert forall|x: Seq<char>, y: Seq<char>| #[trigger] ((a + end) + x) == #[trigger] ((b + end)
        + y) implies p == q by {
        assert((a + end) + x =~= a + (end + x));
        assert((b + end) + y =~= b + (end + y));
        lemma_list_tails_tell(p, q, 0, end + x, end + y, mark);
        assert(p =~= q);
    }
    reveal(tells);
    if a == b {
        assert((a + end) + Seq::<char>::empty() == (b + end) + Seq::<char>::empty());
    }
}

/// Lists of quoted items tell where they end by what comes behind them, and the items can be
/// read back.
pub proof fn lemma_lists_tell(p: Seq<Seq<char>>, q: Seq<Seq<char>>, end: Seq<char>)
    requires
        all_quoted(p),
        all_quoted(q),
        all_tell(p, q),
        end.len() > 0 && end[0] != ',' && end[0] != '"',
    ensures
        tells(commas(p, p.len() as int) + end, commas(q, q.len() as int) + end),
        commas(p, p.len() as int) == commas(q, q.len() as int) ==> p == q,
{
    lemma_marked_lists_tell(p, q, end, '"');
}

} // verus!
