//! Text measured in terminal columns: width, padding, truncation.
//!
//! CJK and full-width characters take two terminal columns, so padding by the
//! number of characters leaves a table askew. Everything here counts columns.

use vstd::prelude::*;
use vstd::utf8::{encode_scalar, encode_utf8};

verus! {

/// Specifies `String::push`: the character is appended to the end of the string.
pub assume_specification[ String::push ](s: &mut String, c: char)
    ensures
        final(s)@ == old(s)@.push(c),
;

// ---------------------------------------------------------------------------
// Model
// ---------------------------------------------------------------------------

/// Columns taken by one character: one if it is ASCII, two otherwise.
pub open spec fn char_columns(c: char) -> nat {
    if c as u32 <= 0x7f {
        1
    } else {
        2
    }
}

/// Columns taken by a text.
pub open spec fn columns(s: Seq<char>) -> nat
    decreases s.len(),
{
    if s.len() == 0 {
        0
    } else {
        columns(s.drop_last()) + char_columns(s.last())
    }
}

/// `n` blanks.
pub open spec fn blanks(n: nat) -> Seq<char> {
    Seq::new(n, |i: int| ' ')
}

/// What is left of `total` after `used`, never below zero.
pub open spec fn left_over(total: nat, used: nat) -> nat {
    if used < total {
        (total - used) as nat
    } else {
        0
    }
}

/// `s` filled with blanks on the right up to `width` columns.
pub open spec fn padded(s: Seq<char>, width: nat) -> Seq<char> {
    s + blanks(left_over(width, columns(s)))
}

/// `s` filled with blanks on the left up to `width` columns.
pub open spec fn flush_right(s: Seq<char>, width: nat) -> Seq<char> {
    blanks(left_over(width, columns(s))) + s
}

/// Number of characters in the longest prefix of `s` that takes at most `room` columns.
pub open spec fn longest_fit(s: Seq<char>, room: nat) -> nat
    decreases s.len(),
{
    if s.len() == 0 || columns(s) <= room {
        s.len()
    } else {
        longest_fit(s.drop_last(), room)
    }
}

/// `s` cut to `max` columns: a text that is too wide keeps the longest prefix
/// that leaves room for the ellipsis after it, which takes two columns.
pub open spec fn truncated(s: Seq<char>, max: nat) -> Seq<char> {
    if columns(s) <= max {
        s
    } else {
        s.take(longest_fit(s, left_over(max, 2)) as int) + "…"@
    }
}

/// `s` cut and then padded to `width` columns.
pub open spec fn fitted(s: Seq<char>, width: nat) -> Seq<char> {
    padded(truncated(s, width), width)
}

/// The characters of each string of a list.
pub open spec fn texts(v: Seq<String>) -> Seq<Seq<char>> {
    v.map_values(|s: String| s@)
}

/// The characters of an optional text.
pub open spec fn text_in(s: Option<String>) -> Option<Seq<char>> {
    match s {
        Some(t) => Some(t@),
        None => None,
    }
}

/// The characters of each string of an optional list.
pub open spec fn texts_in(list: Option<Vec<String>>) -> Option<Seq<Seq<char>>> {
    match list {
        Some(v) => Some(texts(v@)),
        None => None,
    }
}

// ---------------------------------------------------------------------------
// Properties of the model
// ---------------------------------------------------------------------------

/// Columns add up over concatenation.
pub proof fn columns_of_concat(a: Seq<char>, b: Seq<char>)
    ensures
        columns(a + b) == columns(a) + columns(b),
    decreases b.len(),
{
    if b.len() == 0 {
        assert(a + b =~= a);
    } else {
        assert((a + b).drop_last() =~= a + b.drop_last());
        columns_of_concat(a, b.drop_last());
    }
}

/// A run of blanks is as wide as it is long.
pub proof fn columns_of_blanks(n: nat)
    ensures
        columns(blanks(n)) == n,
    decreases n,
{
    if n > 0 {
        assert(blanks(n).drop_last() =~= blanks((n - 1) as nat));
        columns_of_blanks((n - 1) as nat);
    }
}

/// One more character of a prefix adds that character's columns.
pub proof fn columns_of_longer_prefix(s: Seq<char>, k: int)
    requires
        0 <= k < s.len(),
    ensures
        columns(s.take(k + 1)) == columns(s.take(k)) + char_columns(s[k]),
{
    assert(s.take(k + 1).drop_last() =~= s.take(k));
}

/// A prefix is no wider than the whole text.
pub proof fn columns_of_prefix(s: Seq<char>, k: int)
    requires
        0 <= k <= s.len(),
    ensures
        columns(s.take(k)) <= columns(s),
{
    assert(s =~= s.take(k) + s.skip(k));
    columns_of_concat(s.take(k), s.skip(k));
}

/// A text is no wider than its UTF-8 encoding is long.
pub proof fn columns_within_bytes(s: Seq<char>)
    ensures
        columns(s) <= encode_utf8(s).len(),
    decreases s.len(),
{
    if s.len() > 0 {
        let head = seq![s[0]];
        assert(s =~= head + s.drop_first());
        columns_of_concat(head, s.drop_first());
        columns_within_bytes(s.drop_first());
        assert(head.drop_last() =~= Seq::<char>::empty());
        reveal_with_fuel(columns, 2);
        assert(encode_scalar(s[0] as u32).len() >= char_columns(s[0]));
    }
}

/// A prefix that fits, and that one more character would make too wide, is the longest one that fits.
pub proof fn longest_fit_is(s: Seq<char>, room: nat, k: int)
    requires
        0 <= k <= s.len(),
        columns(s.take(k)) <= room,
        k < s.len() ==> columns(s.take(k + 1)) > room,
    ensures
        longest_fit(s, room) == k,
    decreases s.len(),
{
    if k == s.len() {
        assert(s.take(k) =~= s);
    } else {
        columns_of_prefix(s, k + 1);
        let t = s.drop_last();
        assert(t.take(k) =~= s.take(k));
        if k < t.len() {
            assert(t.take(k + 1) =~= s.take(k + 1));
        }
        longest_fit_is(t, room, k);
    }
}

/// The longest fitting prefix fits, and is a prefix.
proof fn longest_fit_fits(s: Seq<char>, room: nat)
    ensures
        longest_fit(s, room) <= s.len(),
        columns(s.take(longest_fit(s, room) as int)) <= room,
    decreases s.len(),
{
    if s.len() == 0 {
        assert(s.take(0) =~= s);
    } else if columns(s) <= room {
        assert(s.take(s.len() as int) =~= s);
    } else {
        longest_fit_fits(s.drop_last(), room);
        let k = longest_fit(s.drop_last(), room) as int;
        assert(s.drop_last().take(k) =~= s.take(k));
    }
}

/// Padding never cuts, and brings every text that is narrow enough to exactly `width` columns.
pub proof fn padding_aligns(s: Seq<char>, width: nat)
    ensures
        s.is_prefix_of(padded(s, width)),
        s.is_suffix_of(flush_right(s, width)),
        columns(padded(s, width)) == (if columns(s) < width { width } else { columns(s) }),
        columns(flush_right(s, width)) == columns(padded(s, width)),
{
    let gap = blanks(left_over(width, columns(s)));
    columns_of_concat(s, gap);
    columns_of_concat(gap, s);
    columns_of_blanks(left_over(width, columns(s)));
    assert((s + gap).subrange(0, s.len() as int) =~= s);
    assert((gap + s).subrange(gap.len() as int, (gap + s).len() as int) =~= s);
}

/// Truncation stays within `max` columns, and keeps as much as it can: a text that
/// is narrow enough is kept whole, and of any other the longest prefix that leaves
/// room for the ellipsis. Fitting gives exactly as many columns as are asked for.
/// There has to be room for the ellipsis itself.
pub proof fn truncation_stays_within(s: Seq<char>, max: nat)
    requires
        max >= 2,
    ensures
        columns(truncated(s, max)) <= max,
        columns(fitted(s, max)) == max,
        columns(s) <= max ==> fitted(s, max) == s + blanks((max - columns(s)) as nat),
        columns(s) <= max ==> truncated(s, max) == s,
        columns(s) > max ==> exists|k: int|
            #![trigger s.take(k)]
            0 <= k < s.len() && truncated(s, max) == s.take(k) + "…"@ && columns(s.take(k)) + 2 <= max
                && columns(s.take(k + 1)) + 2 > max,
{
    padding_aligns(truncated(s, max), max);
    if columns(s) > max {
        let room = left_over(max, 2);
        let k = longest_fit(s, room) as int;
        longest_fit_fits(s, room);
        assert(s.take(s.len() as int) =~= s);
        longest_fit_is_longest(s, room);
        assert(truncated(s, max) == s.take(k) + "…"@);
        columns_of_concat(s.take(k), "…"@);
        reveal_strlit("…");
        reveal_with_fuel(columns, 2);
    }
}

/// One character more than the longest fitting prefix does not fit.
proof fn longest_fit_is_longest(s: Seq<char>, room: nat)
    ensures
        longest_fit(s, room) < s.len() ==> columns(s.take(longest_fit(s, room) as int + 1)) > room,
    decreases s.len(),
{
    if s.len() > 0 && columns(s) > room {
        let t = s.drop_last();
        longest_fit_is_longest(t, room);
        longest_fit_fits(t, room);
        let k = longest_fit(t, room) as int;
        if k < t.len() {
            assert(t.take(k + 1) =~= s.take(k + 1));
        } else {
            assert(s.take(k + 1) =~= s);
        }
    }
}

/// A text that has been truncated and padded once is not changed by padding it again.
pub proof fn padding_is_idempotent(s: Seq<char>, width: nat)
    ensures
        padded(padded(s, width), width) == padded(s, width),
        fitted(s, width) == padded(fitted(s, width), width),
{
    padding_aligns(s, width);
    assert(padded(padded(s, width), width) =~= padded(s, width));
    padding_aligns(truncated(s, width), width);
    assert(fitted(s, width) =~= padded(fitted(s, width), width));
}

// ---------------------------------------------------------------------------
// Functions
// ---------------------------------------------------------------------------

/// The characters of a text.
pub fn chars_of(s: &str) -> (r: Vec<char>)
    ensures
        r@ == s@,
{
    let mut out: Vec<char> = Vec::new();
    for c in it: s.chars()
        invariant
            it.seq() == s@,
            out@ == s@.take(it.index()),
    {
        out.push(c);
        assert(out@ =~= s@.take(it.index() + 1));
    }
    assert(out@ =~= s@);
    out
}

/// The text made of the characters `from..to`.
pub fn text_of(chars: &Vec<char>, from: usize, to: usize) -> (r: String)
    requires
        from <= to <= chars@.len(),
    ensures
        r@ == chars@.subrange(from as int, to as int),
{
    let mut out = String::new();
    let mut i: usize = from;
    while i < to
        invariant
            from <= i <= to <= chars@.len(),
            out@ == chars@.subrange(from as int, i as int),
        decreases to - i,
    {
        out.push(chars[i]);
        i += 1;
        assert(out@ =~= chars@.subrange(from as int, i as int));
    }
    out
}

/// `s` followed by `n` blanks.
fn add_blanks(s: &mut String, n: usize)
    ensures
        final(s)@ == old(s)@ + blanks(n as nat),
{
    let mut i: usize = 0;
    assert(s@ =~= s@ + blanks(0));
    while i < n
        invariant
            i <= n,
            s@ == old(s)@ + blanks(i as nat),
        decreases n - i,
    {
        s.push(' ');
        i += 1;
        assert(s@ =~= old(s)@ + blanks(i as nat));
    }
}

/// Columns that `s` takes in a terminal: an ASCII character takes one, any other two.
pub fn display_width(s: &str) -> (r: usize)
    ensures
        r == columns(s@),
{
    let bytes: usize = s.as_bytes().len();
    proof {
        columns_within_bytes(s@);
    }
    let mut w: usize = 0;
    for c in it: s.chars()
        invariant
            it.seq() == s@,
            columns(s@) <= bytes,
            w == columns(s@.take(it.index())),
    {
        proof {
            columns_of_longer_prefix(s@, it.index());
            columns_of_prefix(s@, it.index() + 1);
        }
        if c as u32 <= 0x7f {
            w += 1;
        } else {
            w += 2;
        }
    }
    assert(s@.take(s@.len() as int) =~= s@);
    w
}

/// `s` filled with blanks on the right up to `width` columns.
pub fn pad_to(s: &str, width: usize) -> (r: String)
    ensures
        r@ == padded(s@, width as nat),
{
    let pad: usize = width.saturating_sub(display_width(s));
    let mut out: String = s.to_owned();
    add_blanks(&mut out, pad);
    out
}

/// `s` filled with blanks on the left up to `width` columns; for numbers.
pub fn cell_right(s: &str, width: usize) -> (r: String)
    ensures
        r@ == flush_right(s@, width as nat),
{
    let pad: usize = width.saturating_sub(display_width(s));
    let mut out = String::new();
    add_blanks(&mut out, pad);
    out.append(s);
    assert(out@ =~= flush_right(s@, width as nat));
    out
}

/// `s` cut to `max` columns, with an ellipsis in place of what was cut off.
pub fn truncate(s: &str, max: usize) -> (r: String)
    ensures
        r@ == truncated(s@, max as nat),
{
    if display_width(s) <= max {
        return s.to_owned();
    }
    let room: usize = max.saturating_sub(2);
    let chars = chars_of(s);
    let mut k: usize = 0;
    let mut w: usize = 0;
    let mut full = false;
    while k < chars.len() && !full
        invariant
            chars@ == s@,
            k <= chars@.len(),
            w == columns(s@.take(k as int)),
            w <= room < usize::MAX,
            full ==> k < chars@.len() && columns(s@.take(k + 1)) > room,
        decreases chars@.len() - k, (if full { 0int } else { 1int }),
    {
        let cw: usize = if chars[k] as u32 <= 0x7f {
            1
        } else {
            2
        };
        proof {
            columns_of_longer_prefix(s@, k as int);
        }
        if cw > room - w {
            full = true;
        } else {
            w += cw;
            k += 1;
        }
    }
    proof {
        longest_fit_is(s@, room as nat, k as int);
    }
    let mut out = text_of(&chars, 0, k);
    out.append("…");
    assert(s@.take(k as int) =~= s@.subrange(0, k as int));
    out
}

/// `s` cut and padded to exactly `width` columns, for the cells of a table. Where
/// something has to be cut, two columns are needed for the ellipsis alone.
pub fn fit(s: &str, width: usize) -> (r: String)
    ensures
        r@ == fitted(s@, width as nat),
{
    pad_to(truncate(s, width).as_str(), width)
}

} // verus!
