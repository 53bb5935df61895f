//! Scanning text: trimming, splitting, searching, joining and ordering.

use vstd::prelude::*;

use crate::text::{chars_of, text_of, texts};

verus! {

// ---------------------------------------------------------------------------
// Model
// ---------------------------------------------------------------------------

/// Whether a character has the Unicode property `White_Space`.
pub open spec fn is_white(c: char) -> bool {
    let v = c as u32;
    ||| 0x09 <= v <= 0x0d
    ||| v == 0x20
    ||| v == 0x85
    ||| v == 0xa0
    ||| v == 0x1680
    ||| 0x2000 <= v <= 0x200a
    ||| v == 0x2028
    ||| v == 0x2029
    ||| v == 0x202f
    ||| v == 0x205f
    ||| v == 0x3000
}

/// `s` without the characters at its start that satisfy `p`.
pub open spec fn strip_start(s: Seq<char>, p: spec_fn(char) -> bool) -> Seq<char>
    decreases s.len(),
{
    if s.len() > 0 && p(s[0]) {
        strip_start(s.drop_first(), p)
    } else {
        s
    }
}

/// `s` without the characters at its end that satisfy `p`.
pub open spec fn strip_end(s: Seq<char>, p: spec_fn(char) -> bool) -> Seq<char>
    decreases s.len(),
{
    if s.len() > 0 && p(s.last()) {
        strip_end(s.drop_last(), p)
    } else {
        s
    }
}

/// `s` without white space at both ends.
pub open spec fn trimmed(s: Seq<char>) -> Seq<char> {
    strip_end(strip_start(s, |c: char| is_white(c)), |c: char| is_white(c))
}

/// `s` without white space at its end.
pub open spec fn trimmed_end(s: Seq<char>) -> Seq<char> {
    strip_end(s, |c: char| is_white(c))
}

/// The test for one given character.
pub open spec fn is_mark(mark: char) -> spec_fn(char) -> bool {
    |c: char| c == mark
}

/// `s` without any `mark` at its end.
pub open spec fn without_trailing(s: Seq<char>, mark: char) -> Seq<char> {
    strip_end(s, is_mark(mark))
}

/// `s` without any `mark` at its start.
pub open spec fn without_leading(s: Seq<char>, mark: char) -> Seq<char> {
    strip_start(s, is_mark(mark))
}

/// The pieces of `s` between the occurrences of `sep`; there is one more piece than occurrences.
pub open spec fn pieces(s: Seq<char>, sep: char) -> Seq<Seq<char>>
    decreases s.len(),
{
    if s.len() == 0 {
        seq![Seq::<char>::empty()]
    } else {
        let before = pieces(s.drop_last(), sep);
        if s.last() == sep {
            before.push(Seq::<char>::empty())
        } else {
            before.drop_last().push(before.last().push(s.last()))
        }
    }
}

/// The texts one after the other with `sep` between them.
pub open spec fn joined(parts: Seq<Seq<char>>, sep: Seq<char>) -> Seq<char>
    decreases parts.len(),
{
    if parts.len() == 0 {
        Seq::<char>::empty()
    } else if parts.len() == 1 {
        parts[0]
    } else {
        joined(parts.drop_last(), sep) + sep + parts.last()
    }
}

/// Whether `pat` stands in `s` at position `i`.
pub open spec fn occurs_at(s: Seq<char>, pat: Seq<char>, i: int) -> bool {
    &&& 0 <= i
    &&& i + pat.len() <= s.len()
    &&& s.subrange(i, i + pat.len()) == pat
}

/// Whether `pat` stands anywhere in `s`.
pub open spec fn contains_text(s: Seq<char>, pat: Seq<char>) -> bool {
    exists|i: int| occurs_at(s, pat, i)
}

/// Whether `i` is the first position at which `pat` stands in `s`.
pub open spec fn first_at(s: Seq<char>, pat: Seq<char>, i: int) -> bool {
    &&& occurs_at(s, pat, i)
    &&& forall|j: int| 0 <= j < i ==> !occurs_at(s, pat, j)
}

/// The first position at which `pat` stands in `s`.
pub open spec fn first_index(s: Seq<char>, pat: Seq<char>) -> int {
    choose|i: int| first_at(s, pat, i)
}

/// Whether `s` begins with `pat`.
pub open spec fn begins_with(s: Seq<char>, pat: Seq<char>) -> bool {
    occurs_at(s, pat, 0)
}

/// An ASCII capital as a small letter, any other character as it is.
pub open spec fn small_letter(c: char) -> char {
    if 'A' <= c <= 'Z' {
        ((c as u32 + 32) as u32) as char
    } else {
        c
    }
}

/// `s` with ASCII capitals as small letters.
pub open spec fn small_letters(s: Seq<char>) -> Seq<char> {
    s.map_values(|c: char| small_letter(c))
}

/// Strict lexicographic order by code point.
pub open spec fn text_before(a: Seq<char>, b: Seq<char>) -> bool
    decreases a.len(),
{
    if b.len() == 0 {
        false
    } else if a.len() == 0 {
        true
    } else if a[0] != b[0] {
        a[0] < b[0]
    } else {
        text_before(a.drop_first(), b.drop_first())
    }
}

/// The elements of `v` in order, each only where it first appears.
pub open spec fn first_occurrences(v: Seq<Seq<char>>) -> Seq<Seq<char>>
    decreases v.len(),
{
    if v.len() == 0 {
        v
    } else {
        let before = first_occurrences(v.drop_last());
        if before.contains(v.last()) {
            before
        } else {
            before.push(v.last())
        }
    }
}

// ---------------------------------------------------------------------------
// Properties of the model
// ---------------------------------------------------------------------------

/// Splitting yields at least one piece.
pub proof fn pieces_nonempty(s: Seq<char>, sep: char)
    ensures
        pieces(s, sep).len() > 0,
    decreases s.len(),
{
    if s.len() > 0 {
        pieces_nonempty(s.drop_last(), sep);
    }
}

/// Splitting loses nothing: no piece holds the separator, and joining the
/// pieces with it gives the text back.
pub proof fn splitting_then_joining(s: Seq<char>, sep: char)
    ensures
        joined(pieces(s, sep), seq![sep]) == s,
        forall|i: int| 0 <= i < pieces(s, sep).len() ==> !(#[trigger] pieces(s, sep)[i]).contains(sep),
    decreases s.len(),
{
    let p = pieces(s, sep);
    if s.len() == 0 {
        assert(p[0] =~= s);
    } else {
        let t = s.drop_last();
        let q = pieces(t, sep);
        splitting_then_joining(t, sep);
        pieces_nonempty(t, sep);
        if s.last() == sep {
            assert(p.drop_last() =~= q);
            assert(p.last() =~= Seq::<char>::empty());
            assert(s =~= t + seq![sep] + Seq::<char>::empty());
        } else {
            assert(p.drop_last() =~= q.drop_last());
            assert(p.last() == q.last().push(s.last()));
            if q.len() == 1 {
                assert(s =~= q[0].push(s.last()));
            } else {
                assert(t == joined(q.drop_last(), seq![sep]) + seq![sep] + q.last());
                assert(s =~= t.push(s.last()));
                assert(s =~= joined(q.drop_last(), seq![sep]) + seq![sep] + q.last().push(s.last()));
            }
            assert forall|i: int| 0 <= i < p.len() implies !(#[trigger] p[i]).contains(sep) by {
                if i < p.len() - 1 {
                    assert(p[i] == q[i]);
                } else {
                    assert(!q[q.len() - 1].contains(sep));
                    assert forall|j: int| 0 <= j < p[i].len() implies p[i][j] != sep by {
                        if j < q.last().len() {
                            assert(p[i][j] == q.last()[j]);
                        }
                    }
                }
            }
        }
    }
}

/// A text without the separator is its own only piece.
pub proof fn pieces_of_plain(s: Seq<char>, sep: char)
    requires
        !s.contains(sep),
    ensures
        pieces(s, sep) == seq![s],
    decreases s.len(),
{
    if s.len() == 0 {
        assert(s =~= Seq::<char>::empty());
    } else {
        let t = s.drop_last();
        assert forall|i: int| 0 <= i < t.len() implies t[i] != sep by {
            assert(t[i] == s[i]);
        }
        pieces_of_plain(t, sep);
        assert(s[s.len() - 1] != sep);
        assert(t.push(s.last()) =~= s);
        assert(pieces(s, sep) =~= seq![s]);
    }
}

/// A separator and a text without it add one piece.
pub proof fn pieces_of_longer(s: Seq<char>, sep: char, last: Seq<char>)
    requires
        !last.contains(sep),
    ensures
        pieces(s.push(sep) + last, sep) == pieces(s, sep).push(last),
    decreases last.len(),
{
    let whole = s.push(sep) + last;
    if last.len() == 0 {
        assert(whole =~= s.push(sep));
        assert(whole.drop_last() =~= s);
        assert(last =~= Seq::<char>::empty());
    } else {
        let t = last.drop_last();
        assert forall|i: int| 0 <= i < t.len() implies t[i] != sep by {
            assert(t[i] == last[i]);
        }
        assert(last[last.len() - 1] != sep);
        assert(whole.drop_last() =~= s.push(sep) + t);
        pieces_of_longer(s, sep, t);
        assert(t.push(last.last()) =~= last);
        let before = pieces(s, sep).push(t);
        assert(before.drop_last() =~= pieces(s, sep));
    }
}

/// No text comes before itself.
pub proof fn order_is_irreflexive(a: Seq<char>)
    ensures
        !text_before(a, a),
    decreases a.len(),
{
    if a.len() > 0 {
        order_is_irreflexive(a.drop_first());
    }
}

/// The order is transitive.
pub proof fn order_is_transitive(a: Seq<char>, b: Seq<char>, c: Seq<char>)
    requires
        text_before(a, b),
        text_before(b, c),
    ensures
        text_before(a, c),
    decreases a.len(),
{
    if a.len() > 0 && a[0] == b[0] && b[0] == c[0] {
        order_is_transitive(a.drop_first(), b.drop_first(), c.drop_first());
    }
}

/// Of two different texts one comes before the other.
pub proof fn order_is_total(a: Seq<char>, b: Seq<char>)
    ensures
        a == b || text_before(a, b) || text_before(b, a),
    decreases a.len(),
{
    if a.len() == 0 || b.len() == 0 {
        if a.len() == b.len() {
            assert(a =~= b);
        }
    } else if a[0] == b[0] {
        order_is_total(a.drop_first(), b.drop_first());
        if a.drop_first() == b.drop_first() {
            assert(a =~= seq![a[0]] + a.drop_first());
            assert(b =~= seq![b[0]] + b.drop_first());
        }
    }
}

/// Keeping first occurrences keeps every element, none twice, and adds none.
pub proof fn first_occurrences_are_distinct(v: Seq<Seq<char>>)
    ensures
        first_occurrences(v).no_duplicates(),
        forall|x: Seq<char>| first_occurrences(v).contains(x) <==> v.contains(x),
    decreases v.len(),
{
    if v.len() > 0 {
        let t = v.drop_last();
        let before = first_occurrences(t);
        first_occurrences_are_distinct(t);
        let all = first_occurrences(v);
        assert forall|x: Seq<char>| all.contains(x) <==> v.contains(x) by {
            if v.contains(x) {
                let i = v.index_of(x);
                if i < t.len() {
                    assert(t[i] == x);
                    assert(t.contains(x));
                    let j = before.index_of(x);
                    assert(all[j] == x);
                } else if !before.contains(x) {
                    assert(all[all.len() - 1] == x);
                }
            }
            if all.contains(x) {
                let j = all.index_of(x);
                if j < before.len() {
                    assert(before[j] == x);
                    assert(t.contains(x));
                    let i = t.index_of(x);
                    assert(v[i] == x);
                } else {
                    assert(v[v.len() - 1] == x);
                }
            }
        }
    }
}

/// Stripping the start of a suffix that begins after stripped characters.
proof fn strip_start_skips(s: Seq<char>, p: spec_fn(char) -> bool, k: int)
    requires
        0 <= k <= s.len(),
        forall|i: int| 0 <= i < k ==> p(#[trigger] s[i]),
        k < s.len() ==> !p(s[k]),
    ensures
        strip_start(s, p) == s.skip(k),
    decreases k,
{
    if k == 0 {
        assert(s.skip(0) =~= s);
    } else {
        assert(s.drop_first().skip(k - 1) =~= s.skip(k));
        strip_start_skips(s.drop_first(), p, k - 1);
    }
}

/// Stripping the end of a text whose last characters satisfy `p`.
proof fn strip_end_takes(s: Seq<char>, p: spec_fn(char) -> bool, k: int)
    requires
        0 <= k <= s.len(),
        forall|i: int| k <= i < s.len() ==> p(#[trigger] s[i]),
        k > 0 ==> !p(s[k - 1]),
    ensures
        strip_end(s, p) == s.take(k),
    decreases s.len(),
{
    if k == s.len() {
        assert(s.take(k) =~= s);
    } else {
        assert(s.drop_last().take(k) =~= s.take(k));
        strip_end_takes(s.drop_last(), p, k);
    }
}

/// Comparing two texts can begin after a common prefix.
proof fn order_after_common_prefix(a: Seq<char>, b: Seq<char>, k: int)
    requires
        0 <= k <= a.len(),
        k <= b.len(),
        a.take(k) == b.take(k),
    ensures
        text_before(a, b) == text_before(a.skip(k), b.skip(k)),
    decreases k,
{
    if k == 0 {
        assert(a.skip(0) =~= a);
        assert(b.skip(0) =~= b);
    } else {
        assert(a[0] == a.take(k)[0]);
        assert(b[0] == b.take(k)[0]);
        assert(a.drop_first().take(k - 1) =~= a.take(k).drop_first());
        assert(b.drop_first().take(k - 1) =~= b.take(k).drop_first());
        assert(a.drop_first().skip(k - 1) =~= a.skip(k));
        assert(b.drop_first().skip(k - 1) =~= b.skip(k));
        order_after_common_prefix(a.drop_first(), b.drop_first(), k - 1);
    }
}

// ---------------------------------------------------------------------------
// Functions
// ---------------------------------------------------------------------------

/// Whether two texts are equal.
pub fn same_text(a: &str, b: &str) -> (r: bool)
    ensures
        r == (a@ == b@),
{
    let x = chars_of(a);
    let y = chars_of(b);
    if x.len() != y.len() {
        return false;
    }
    let mut i: usize = 0;
    while i < x.len()
        invariant
            x@ == a@,
            y@ == b@,
            x@.len() == y@.len(),
            i <= x@.len(),
            forall|j: int| 0 <= j < i ==> x@[j] == y@[j],
        decreases x@.len() - i,
    {
        if x[i] != y[i] {
            return false;
        }
        i += 1;
    }
    assert(x@ =~= y@);
    true
}

/// Whether a character has the Unicode property `White_Space`.
pub fn is_white_space(c: char) -> (r: bool)
    ensures
        r == is_white(c),
{
    let v: u32 = c as u32;
    (0x09 <= v && v <= 0x0d) || v == 0x20 || v == 0x85 || v == 0xa0 || v == 0x1680 || (0x2000 <= v
        && v <= 0x200a) || v == 0x2028 || v == 0x2029 || v == 0x202f || v == 0x205f || v == 0x3000
}

/// `s` without white space at both ends.
pub fn trim(s: &str) -> (r: String)
    ensures
        r@ == trimmed(s@),
{
    let ghost white = |c: char| is_white(c);
    let chars = chars_of(s);
    let mut lo: usize = 0;
    while lo < chars.len() && is_white_space(chars[lo])
        invariant
            lo <= chars@.len(),
            white == (|c: char| is_white(c)),
            forall|i: int| 0 <= i < lo ==> white(#[trigger] chars@[i]),
        decreases chars@.len() - lo,
    {
        lo += 1;
    }
    let mut hi: usize = chars.len();
    while hi > lo && is_white_space(chars[hi - 1])
        invariant
            lo <= hi <= chars@.len(),
            white == (|c: char| is_white(c)),
            forall|i: int| hi <= i < chars@.len() ==> white(#[trigger] chars@[i]),
        decreases hi,
    {
        hi -= 1;
    }
    proof {
        strip_start_skips(s@, white, lo as int);
        let rest = s@.skip(lo as int);
        strip_end_takes(rest, white, hi - lo);
        assert(rest.take(hi - lo) =~= s@.subrange(lo as int, hi as int));
    }
    text_of(&chars, lo, hi)
}

/// `s` without white space at its end.
pub fn trim_end(s: &str) -> (r: String)
    ensures
        r@ == trimmed_end(s@),
{
    let ghost white = |c: char| is_white(c);
    let chars = chars_of(s);
    let mut hi: usize = chars.len();
    while hi > 0 && is_white_space(chars[hi - 1])
        invariant
            hi <= chars@.len(),
            white == (|c: char| is_white(c)),
            forall|i: int| hi <= i < chars@.len() ==> white(#[trigger] chars@[i]),
        decreases hi,
    {
        hi -= 1;
    }
    proof {
        strip_end_takes(s@, white, hi as int);
        assert(s@.take(hi as int) =~= s@.subrange(0, hi as int));
    }
    text_of(&chars, 0, hi)
}

/// `s` without any `mark` at its end.
pub fn trim_end_matches(s: &str, mark: char) -> (r: String)
    ensures
        r@ == without_trailing(s@, mark),
{
    let chars = chars_of(s);
    let mut hi: usize = chars.len();
    while hi > 0 && chars[hi - 1] == mark
        invariant
            hi <= chars@.len(),
            forall|i: int| hi <= i < chars@.len() ==> is_mark(mark)(#[trigger] chars@[i]),
        decreases hi,
    {
        hi -= 1;
    }
    proof {
        strip_end_takes(s@, is_mark(mark), hi as int);
        assert(s@.take(hi as int) =~= s@.subrange(0, hi as int));
    }
    text_of(&chars, 0, hi)
}

/// `s` without any `mark` at its start.
pub fn trim_start_matches(s: &str, mark: char) -> (r: String)
    ensures
        r@ == without_leading(s@, mark),
{
    let chars = chars_of(s);
    let mut lo: usize = 0;
    while lo < chars.len() && chars[lo] == mark
        invariant
            lo <= chars@.len(),
            forall|i: int| 0 <= i < lo ==> is_mark(mark)(#[trigger] chars@[i]),
        decreases chars@.len() - lo,
    {
        lo += 1;
    }
    proof {
        strip_start_skips(s@, is_mark(mark), lo as int);
        assert(s@.skip(lo as int) =~= s@.subrange(lo as int, s@.len() as int));
    }
    text_of(&chars, lo, chars.len())
}

/// The pieces of `s` between the occurrences of `sep`.
pub fn split(s: &str, sep: char) -> (r: Vec<String>)
    ensures
        texts(r@) == pieces(s@, sep),
        r@.len() == pieces(s@, sep).len(),
        forall|i: int| 0 <= i < r@.len() ==> (#[trigger] r@[i])@ == pieces(s@, sep)[i],
{
    let chars = chars_of(s);
    let mut out: Vec<String> = Vec::new();
    let mut piece = String::new();
    let mut i: usize = 0;
    assert(texts(out@).push(piece@) =~= pieces(s@.take(0), sep));
    while i < chars.len()
        invariant
            chars@ == s@,
            i <= chars@.len(),
            texts(out@).push(piece@) == pieces(s@.take(i as int), sep),
        decreases chars@.len() - i,
    {
        let c = chars[i];
        let ghost before = pieces(s@.take(i as int), sep);
        let ghost done = texts(out@);
        let ghost open_piece = piece@;
        assert(s@.take(i + 1).drop_last() =~= s@.take(i as int));
        assert(before.drop_last() =~= done);
        assert(before.last() == open_piece);
        if c == sep {
            out.push(piece);
            piece = String::new();
            assert(texts(out@) =~= done.push(open_piece));
        } else {
            piece.push(c);
        }
        i += 1;
    }
    let ghost done = texts(out@);
    let ghost last_piece = piece@;
    out.push(piece);
    assert(texts(out@) =~= done.push(last_piece));
    assert(s@.take(s@.len() as int) =~= s@);
    out
}

/// The texts one after the other with `sep` between them.
pub fn join(parts: &Vec<String>, sep: &str) -> (r: String)
    ensures
        r@ == joined(texts(parts@), sep@),
{
    let mut out = String::new();
    let mut i: usize = 0;
    while i < parts.len()
        invariant
            i <= parts@.len(),
            out@ == joined(texts(parts@).take(i as int), sep@),
        decreases parts@.len() - i,
    {
        let ghost done = texts(parts@).take(i as int);
        assert(texts(parts@).take(i + 1).drop_last() =~= done);
        if i > 0 {
            out.append(sep);
        }
        out.append(parts[i].as_str());
        if i == 0 {
            assert(out@ =~= parts@[0]@);
        }
        i += 1;
    }
    assert(texts(parts@).take(parts@.len() as int) =~= texts(parts@));
    out
}

/// Whether `pat` stands in `s` at position `at`.
fn stands_at(s: &Vec<char>, pat: &Vec<char>, at: usize) -> (r: bool)
    requires
        at <= s@.len(),
    ensures
        r == occurs_at(s@, pat@, at as int),
{
    if pat.len() > s.len() - at {
        return false;
    }
    let mut i: usize = 0;
    while i < pat.len()
        invariant
            at + pat@.len() <= s.len(),
            i <= pat@.len(),
            forall|j: int| 0 <= j < i ==> s@[at + j] == pat@[j],
        decreases pat@.len() - i,
    {
        if s[at + i] != pat[i] {
            proof {
                assert(s@.subrange(at as int, at + pat@.len())[i as int] == s@[at + i]);
            }
            return false;
        }
        i += 1;
    }
    assert(s@.subrange(at as int, at + pat@.len()) =~= pat@);
    true
}

/// The first position at which `pat` stands in `s`.
pub fn find(s: &Vec<char>, pat: &Vec<char>) -> (r: Option<usize>)
    ensures
        match r {
            Some(i) => first_at(s@, pat@, i as int),
            None => !contains_text(s@, pat@),
        },
{
    let mut i: usize = 0;
    loop
        invariant
            i <= s@.len(),
            forall|j: int| 0 <= j < i ==> !occurs_at(s@, pat@, j),
        decreases s@.len() - i,
    {
        if stands_at(s, pat, i) {
            return Some(i);
        }
        if i == s.len() {
            return None;
        }
        i += 1;
    }
}

/// Whether `pat` stands anywhere in `s`.
pub fn contains(s: &str, pat: &str) -> (r: bool)
    ensures
        r == contains_text(s@, pat@),
{
    let hay = chars_of(s);
    let needle = chars_of(pat);
    match find(&hay, &needle) {
        Some(i) => {
            assert(occurs_at(s@, pat@, i as int));
            true
        },
        None => false,
    }
}

/// What follows the first `pat` in `s`.
pub fn after_first(s: &str, pat: &str) -> (r: Option<String>)
    ensures
        match r {
            Some(rest) => contains_text(s@, pat@) && rest@ == s@.skip(first_index(s@, pat@) + pat@.len()),
            None => !contains_text(s@, pat@),
        },
{
    let hay = chars_of(s);
    let needle = chars_of(pat);
    match find(&hay, &needle) {
        Some(i) => {
            proof {
                assert(first_at(s@, pat@, i as int));
                assert(first_index(s@, pat@) == i);
                assert(s@.skip(i + pat@.len()) =~= s@.subrange(i + pat@.len(), s@.len() as int));
            }
            assert(i + needle@.len() <= hay.len());
            Some(text_of(&hay, i + needle.len(), hay.len()))
        },
        None => None,
    }
}

/// What follows `pat` where `s` begins with it.
pub fn strip_prefix(s: &str, pat: &str) -> (r: Option<String>)
    ensures
        match r {
            Some(rest) => begins_with(s@, pat@) && rest@ == s@.skip(pat@.len() as int),
            None => !begins_with(s@, pat@),
        },
{
    let hay = chars_of(s);
    let needle = chars_of(pat);
    if stands_at(&hay, &needle, 0) {
        assert(s@.skip(pat@.len() as int) =~= s@.subrange(pat@.len() as int, s@.len() as int));
        Some(text_of(&hay, needle.len(), hay.len()))
    } else {
        None
    }
}

/// `s` with ASCII capitals as small letters.
pub fn to_small_letters(s: &str) -> (r: String)
    ensures
        r@ == small_letters(s@),
{
    let mut out = String::new();
    for c in it: s.chars()
        invariant
            it.seq() == s@,
            out@ == small_letters(s@.take(it.index())),
    {
        let low: char = if 'A' <= c && c <= 'Z' {
            (c as u8 + 32) as char
        } else {
            c
        };
        out.push(low);
        assert(out@ =~= small_letters(s@.take(it.index() + 1)));
    }
    assert(s@.take(s@.len() as int) =~= s@);
    out
}

/// Whether `a` comes strictly before `b` in the order by code point.
pub fn is_before(a: &str, b: &str) -> (r: bool)
    ensures
        r == text_before(a@, b@),
{
    let x = chars_of(a);
    let y = chars_of(b);
    let mut i: usize = 0;
    while i < x.len() && i < y.len()
        invariant
            x@ == a@,
            y@ == b@,
            i <= x@.len(),
            i <= y@.len(),
            a@.take(i as int) == b@.take(i as int),
        decreases x@.len() - i,
    {
        if x[i] != y[i] {
            proof {
                order_after_common_prefix(a@, b@, i as int);
            }
            return x[i] < y[i];
        }
        i += 1;
        assert(a@.take(i as int) =~= a@.take(i - 1).push(a@[i - 1]));
        assert(b@.take(i as int) =~= b@.take(i - 1).push(b@[i - 1]));
    }
    proof {
        order_after_common_prefix(a@, b@, i as int);
    }
    i < y.len()
}

/// Whether `s` is one of `list`.
pub fn is_listed(list: &Vec<String>, s: &str) -> (r: bool)
    ensures
        r == texts(list@).contains(s@),
{
    let mut i: usize = 0;
    while i < list.len()
        invariant
            i <= list@.len(),
            forall|j: int| 0 <= j < i ==> texts(list@)[j] != s@,
        decreases list@.len() - i,
    {
        if same_text(list[i].as_str(), s) {
            assert(texts(list@)[i as int] == s@);
            return true;
        }
        i += 1;
    }
    false
}

} // verus!
