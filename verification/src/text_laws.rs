//! What padding and cutting come to, said of the characters themselves.

use vstd::prelude::*;

use crate::text::{
    columns, fitted, flush_right, longest_fit, longest_fit_is, padded, text_in, texts, texts_in, truncated,
};

verus! {

/// An ASCII character takes one column, any other two, and a text takes what its characters take.
pub proof fn columns_are_counted(s: Seq<char>, c: char)
    ensures
        columns(Seq::empty()) == 0,
        columns(s.push(c)) == columns(s) + (if (c as int) < 128 { 1int } else { 2 }),
{
    assert(s.push(c).drop_last() =~= s);
}

/// What padding adds is blanks, behind the text or before it, as many as columns are missing.
pub proof fn padding_adds_blanks(s: Seq<char>, width: nat)
    ensures
        ({
            let gap: int = if columns(s) < width { width - columns(s) } else { 0 };
            &&& padded(s, width).len() == s.len() + gap
            &&& padded(s, width).take(s.len() as int) == s
            &&& forall|i: int| s.len() <= i < s.len() + gap ==> #[trigger] padded(s, width)[i] == ' '
            &&& flush_right(s, width).len() == s.len() + gap
            &&& flush_right(s, width).skip(gap) == s
            &&& forall|i: int| 0 <= i < gap ==> #[trigger] flush_right(s, width)[i] == ' '
        }),
{
    let gap: int = if columns(s) < width { width - columns(s) } else { 0 };
    assert(padded(s, width).take(s.len() as int) =~= s);
    assert(flush_right(s, width).skip(gap) =~= s);
}

/// Where there is no room for anything but the ellipsis, it is all that is left of a text that is too wide.
pub proof fn narrow_cuts_leave_the_ellipsis(s: Seq<char>, max: nat)
    requires
        max < 2,
    ensures
        columns(s) <= max ==> truncated(s, max) == s,
        columns(s) > max ==> truncated(s, max).len() == 1 && truncated(s, max)[0] as int == 8230,
        fitted(s, max) == padded(truncated(s, max), max),
{
    reveal_strlit("…");
    nothing_fits(s);
    if columns(s) > max {
        assert(truncated(s, max) =~= "…"@);
    }
}

proof fn nothing_fits(s: Seq<char>)
    ensures
        longest_fit(s, 0) == 0,
    decreases s.len(),
{
    if s.len() > 0 {
        nothing_fits(s.drop_last());
    }
}

/// What is known of strings is their characters, one string after the other.
pub proof fn strings_are_held(v: Seq<String>, s: String, list: Vec<String>)
    ensures
        texts(v).len() == v.len(),
        forall|i: int| 0 <= i < v.len() ==> #[trigger] texts(v)[i] == v[i]@,
        text_in(Some(s)) == Some(s@),
        text_in(None) is None,
        texts_in(Some(list)) == Some(texts(list@)),
        texts_in(None) is None,
{
}

/// Cutting to a width keeps a text that fits as it is and fills it up; of a text
/// that does not fit it keeps the longest beginning that leaves two columns for the
/// ellipsis, and fills that up.
pub proof fn fitting_cuts_and_fills(s: Seq<char>, width: nat, k: int)
    requires
        width >= 2,
    ensures
        columns(s) <= width ==> fitted(s, width) == padded(s, width),
        columns(s) > width && 0 <= k < s.len() && columns(s.take(k)) + 2 <= width && columns(s.take(k + 1)) + 2 > width
            ==> truncated(s, width) == s.take(k) + "…"@ && fitted(s, width) == padded(s.take(k) + "…"@, width),
{
    if columns(s) > width && 0 <= k < s.len() && columns(s.take(k)) + 2 <= width && columns(s.take(k + 1)) + 2
        > width {
        longest_fit_is(s, (width - 2) as nat, k);
    }
}

} // verus!
