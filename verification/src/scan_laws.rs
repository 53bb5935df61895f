//! What trimming, splitting, joining, searching and ordering come to, said of
//! the texts themselves.

use vstd::prelude::*;

use crate::scan::{
    begins_with, contains_text, first_at, first_index, first_occurrences, is_mark, is_white, joined, occurs_at,
    small_letters, strip_end, strip_start, text_before, trimmed, trimmed_end, without_leading, without_trailing,
};

verus! {

/// Joining puts the separator between the texts, and nowhere else.
pub proof fn joining_is_between(parts: Seq<Seq<char>>, last: Seq<char>, sep: Seq<char>)
    ensures
        joined(Seq::empty(), sep) == Seq::<char>::empty(),
        joined(seq![last], sep) == last,
        parts.len() > 0 ==> joined(parts.push(last), sep) == joined(parts, sep) + sep + last,
{
    assert(parts.push(last).drop_last() =~= parts);
}

/// Every joined text stands in the whole.
pub proof fn joined_texts_are_kept(parts: Seq<Seq<char>>, sep: Seq<char>, i: int)
    requires
        0 <= i < parts.len(),
    ensures
        contains_text(joined(parts, sep), parts[i]),
    decreases parts.len(),
{
    let whole = joined(parts, sep);
    if parts.len() == 1 {
        assert(whole.subrange(0, parts[0].len() as int) =~= parts[0]);
        assert(occurs_at(whole, parts[0], 0));
    } else {
        let rest = parts.drop_last();
        let before = joined(rest, sep);
        if i == parts.len() - 1 {
            let at = (before + sep).len() as int;
            assert(whole.subrange(at, at + parts[i].len()) =~= parts[i]);
            assert(occurs_at(whole, parts[i], at));
        } else {
            joined_texts_are_kept(rest, sep, i);
            let at = choose|at: int| occurs_at(before, rest[i], at);
            assert(whole.subrange(at, at + parts[i].len()) =~= before.subrange(at, at + rest[i].len()));
            assert(occurs_at(whole, parts[i], at));
        }
    }
}

/// White space is what Unicode calls by that name: these code points and no others.
pub proof fn white_space_is_listed(c: char)
    ensures
        is_white(c) <==> seq![
            9int,
            10,
            11,
            12,
            13,
            32,
            133,
            160,
            5760,
            8192,
            8193,
            8194,
            8195,
            8196,
            8197,
            8198,
            8199,
            8200,
            8201,
            8202,
            8232,
            8233,
            8239,
            8287,
            12288,
        ].contains(c as int),
{
    let list = seq![
        9int,
        10,
        11,
        12,
        13,
        32,
        133,
        160,
        5760,
        8192,
        8193,
        8194,
        8195,
        8196,
        8197,
        8198,
        8199,
        8200,
        8201,
        8202,
        8232,
        8233,
        8239,
        8287,
        12288,
    ];
    let v = c as int;
    if 9 <= v <= 13 {
        assert(list[v - 9] == v);
    } else if 8192 <= v <= 8202 {
        assert(list[v - 8192 + 9] == v);
    } else {
        assert(list[5] == 32 && list[6] == 133 && list[7] == 160 && list[8] == 5760);
        assert(list[20] == 8232 && list[21] == 8233 && list[22] == 8239 && list[23] == 8287 && list[24] == 12288);
    }
}

proof fn stripped_end(s: Seq<char>, p: spec_fn(char) -> bool) -> (k: int)
    ensures
        0 <= k <= s.len(),
        strip_end(s, p) == s.take(k),
        forall|i: int| k <= i < s.len() ==> p(#[trigger] s[i]),
        k > 0 ==> !p(s[k - 1]),
    decreases s.len(),
{
    if s.len() > 0 && p(s.last()) {
        let t = s.drop_last();
        let k = stripped_end(t, p);
        assert(t.take(k) =~= s.take(k));
        assert forall|i: int| k <= i < s.len() implies p(#[trigger] s[i]) by {
            if i < t.len() {
                assert(t[i] == s[i]);
            }
        }
        k
    } else {
        assert(s.take(s.len() as int) =~= s);
        s.len() as int
    }
}

proof fn stripped_start(s: Seq<char>, p: spec_fn(char) -> bool) -> (k: int)
    ensures
        0 <= k <= s.len(),
        strip_start(s, p) == s.skip(k),
        forall|i: int| 0 <= i < k ==> p(#[trigger] s[i]),
        k < s.len() ==> !p(s[k]),
    decreases s.len(),
{
    if s.len() > 0 && p(s[0]) {
        let t = s.drop_first();
        let k = stripped_start(t, p);
        assert(t.skip(k) =~= s.skip(k + 1));
        assert forall|i: int| 0 <= i < k + 1 implies p(#[trigger] s[i]) by {
            if i > 0 {
                assert(t[i - 1] == s[i]);
            }
        }
        if k + 1 < s.len() {
            assert(t[k] == s[k + 1]);
        }
        k + 1
    } else {
        assert(s.skip(0) =~= s);
        0
    }
}

/// Trimming takes away white space at both ends and nothing else: what is left
/// is the part between, and has white space at neither end.
pub proof fn trimming_takes_the_ends(s: Seq<char>) -> (cut: (int, int))
    ensures
        0 <= cut.0 <= cut.1 <= s.len(),
        trimmed(s) == s.subrange(cut.0, cut.1),
        forall|i: int| 0 <= i < cut.0 ==> is_white(#[trigger] s[i]),
        forall|i: int| cut.1 <= i < s.len() ==> is_white(#[trigger] s[i]),
        cut.0 < cut.1 ==> !is_white(s[cut.0]) && !is_white(s[cut.1 - 1]),
{
    let p = |c: char| is_white(c);
    let a = stripped_start(s, p);
    let rest = s.skip(a);
    let b = stripped_end(rest, p);
    assert(rest.take(b) =~= s.subrange(a, a + b));
    assert forall|i: int| 0 <= i < a implies is_white(#[trigger] s[i]) by {
        assert(p(s[i]));
    }
    assert forall|i: int| a + b <= i < s.len() implies is_white(#[trigger] s[i]) by {
        assert(p(rest[i - a]));
    }
    if b > 0 {
        assert(!p(s[a]));
        assert(!p(rest[b - 1]));
    }
    (a, a + b)
}

/// Trimming stops where white space does.
pub proof fn trimming_ends_there(s: Seq<char>, from: int, to: int)
    requires
        0 <= from < to <= s.len(),
        forall|i: int| 0 <= i < from ==> is_white(#[trigger] s[i]),
        forall|i: int| to <= i < s.len() ==> is_white(#[trigger] s[i]),
        !is_white(s[from]),
        !is_white(s[to - 1]),
    ensures
        trimmed(s) == s.subrange(from, to),
{
    let cut = trimming_takes_the_ends(s);
    assert(cut.0 <= from);
    assert(cut.1 >= to);
    assert(cut.0 >= from);
    assert(cut.1 <= to);
}

/// Stripping a mark stops where the mark does.
pub proof fn marks_end_there(s: Seq<char>, mark: char, k: int)
    requires
        0 <= k <= s.len(),
        forall|i: int| k <= i < s.len() ==> #[trigger] s[i] == mark,
        k > 0 ==> s[k - 1] != mark,
    ensures
        without_trailing(s, mark) == s.take(k),
{
    let cut = marks_are_taken_from_the_end(s, mark);
    assert(cut <= k);
    assert(cut >= k);
}

/// Trimming the end takes away white space there and nothing else.
pub proof fn trimming_takes_the_end(s: Seq<char>) -> (k: int)
    ensures
        0 <= k <= s.len(),
        trimmed_end(s) == s.take(k),
        forall|i: int| k <= i < s.len() ==> is_white(#[trigger] s[i]),
        k > 0 ==> !is_white(s[k - 1]),
{
    let p = |c: char| is_white(c);
    let k = stripped_end(s, p);
    assert forall|i: int| k <= i < s.len() implies is_white(#[trigger] s[i]) by {
        assert(p(s[i]));
    }
    if k > 0 {
        assert(!p(s[k - 1]));
    }
    k
}

/// Stripping a mark from the end takes away that mark there and nothing else.
pub proof fn marks_are_taken_from_the_end(s: Seq<char>, mark: char) -> (k: int)
    ensures
        0 <= k <= s.len(),
        without_trailing(s, mark) == s.take(k),
        forall|i: int| k <= i < s.len() ==> #[trigger] s[i] == mark,
        k > 0 ==> s[k - 1] != mark,
{
    let k = stripped_end(s, is_mark(mark));
    assert forall|i: int| k <= i < s.len() implies #[trigger] s[i] == mark by {
        assert(is_mark(mark)(s[i]));
    }
    k
}

/// Stripping a mark from the start takes away that mark there and nothing else.
pub proof fn marks_are_taken_from_the_start(s: Seq<char>, mark: char) -> (k: int)
    ensures
        0 <= k <= s.len(),
        without_leading(s, mark) == s.skip(k),
        forall|i: int| 0 <= i < k ==> #[trigger] s[i] == mark,
        k < s.len() ==> s[k] != mark,
{
    let k = stripped_start(s, is_mark(mark));
    assert forall|i: int| 0 <= i < k implies #[trigger] s[i] == mark by {
        assert(is_mark(mark)(s[i]));
    }
    k
}

/// A text holds another exactly where it is made of three parts of which that is the middle one.
pub proof fn holding_is_having_as_a_part(a: Seq<char>, pat: Seq<char>, b: Seq<char>)
    ensures
        contains_text(a + pat + b, pat),
        occurs_at(a + pat + b, pat, a.len() as int),
{
    let s = a + pat + b;
    assert(s.subrange(a.len() as int, a.len() as int + pat.len()) =~= pat);
    assert(occurs_at(s, pat, a.len() as int));
}

/// The parts around the first place at which a text holds another: nothing
/// before it is such a place.
pub proof fn what_is_held_is_a_part(s: Seq<char>, pat: Seq<char>) -> (parts: (Seq<char>, Seq<char>))
    requires
        contains_text(s, pat),
    ensures
        s == parts.0 + pat + parts.1,
        parts.0.len() == first_index(s, pat),
        parts.1 == s.skip(first_index(s, pat) + pat.len()),
        forall|x: Seq<char>, y: Seq<char>| s == #[trigger] (x + pat + y) ==> parts.0.len() <= x.len(),
{
    let at = choose|at: int| occurs_at(s, pat, at);
    let i = first_of(s, pat, at);
    assert(first_at(s, pat, i));
    let j = first_index(s, pat);
    assert(first_at(s, pat, j));
    assert(i == j);
    assert(s =~= s.take(j) + pat + s.skip(j + pat.len())) by {
        assert(s.subrange(j, j + pat.len()) == pat);
        assert forall|k: int| j <= k < j + pat.len() implies s[k] == pat[k - j] by {
            assert(s.subrange(j, j + pat.len())[k - j] == s[k]);
        }
    }
    assert forall|x: Seq<char>, y: Seq<char>| s == #[trigger] (x + pat + y) implies s.take(j).len() <= x.len() by {
        holding_is_having_as_a_part(x, pat, y);
        assert(occurs_at(s, pat, x.len() as int));
    }
    (s.take(j), s.skip(j + pat.len()))
}

proof fn first_of(s: Seq<char>, pat: Seq<char>, at: int) -> (i: int)
    requires
        occurs_at(s, pat, at),
    ensures
        first_at(s, pat, i),
    decreases at,
{
    if exists|j: int| 0 <= j < at && occurs_at(s, pat, j) {
        let j = choose|j: int| 0 <= j < at && occurs_at(s, pat, j);
        first_of(s, pat, j)
    } else {
        at
    }
}

/// A text begins with another exactly where it is that one with something behind it.
pub proof fn beginning_is_being_continued(pat: Seq<char>, s: Seq<char>)
    ensures
        begins_with(s, pat) <==> pat.len() <= s.len() && s == pat + s.skip(pat.len() as int),
{
    if begins_with(s, pat) {
        assert(s =~= pat + s.skip(pat.len() as int)) by {
            assert forall|k: int| 0 <= k < pat.len() implies s[k] == pat[k] by {
                assert(s.subrange(0, pat.len() as int)[k] == s[k]);
            }
        }
    } else if pat.len() <= s.len() && s == pat + s.skip(pat.len() as int) {
        assert((pat + s.skip(pat.len() as int)).subrange(0, pat.len() as int) =~= pat);
    }
}

/// Only the letters A to Z change, each to the one 32 places behind it.
pub proof fn capitals_become_small(s: Seq<char>, i: int)
    requires
        0 <= i < s.len(),
    ensures
        small_letters(s).len() == s.len(),
        65 <= s[i] as int <= 90 ==> small_letters(s)[i] as int == s[i] as int + 32,
        !(65 <= s[i] as int <= 90) ==> small_letters(s)[i] == s[i],
{
}

/// Texts are ordered by their first difference, and a text comes before its continuations.
pub proof fn order_is_by_the_first_difference(p: Seq<char>, c: char, d: char, x: Seq<char>, y: Seq<char>)
    ensures
        (c as int) < (d as int) ==> text_before(p.push(c) + x, p.push(d) + y),
        text_before(p, p.push(d) + y),
        !text_before(p.push(d) + y, p),
    decreases p.len(),
{
    let a = p.push(c) + x;
    let b = p.push(d) + y;
    if p.len() > 0 {
        let q = p.drop_first();
        assert(a.drop_first() =~= q.push(c) + x);
        assert(b.drop_first() =~= q.push(d) + y);
        order_is_by_the_first_difference(q, c, d, x, y);
    }
}

/// Keeping first occurrences goes by their order: what is kept of a list is the
/// beginning of what is kept of any longer list, and one more text is added at the
/// end exactly if it is new.
pub proof fn first_occurrences_keep_their_order(v: Seq<Seq<char>>, x: Seq<char>)
    ensures
        first_occurrences(v.push(x)) == (if v.contains(x) {
            first_occurrences(v)
        } else {
            first_occurrences(v).push(x)
        }),
{
    assert(v.push(x).drop_last() =~= v);
    crate::scan::first_occurrences_are_distinct(v);
}

} // verus!
