//! Numbers as text: decimal, clock and hexadecimal notation, and reading decimals back.

use vstd::prelude::*;

use crate::text::{blanks, chars_of, left_over};

verus! {

// ---------------------------------------------------------------------------
// Model
// ---------------------------------------------------------------------------

/// The decimal digit of value `d`.
pub open spec fn digit(d: nat) -> char {
    ((0x30 + d) as u32) as char
}

/// The value of a decimal digit.
pub open spec fn digit_value(c: char) -> nat {
    (c as u32 - 0x30) as nat
}

/// Whether a character is a decimal digit.
pub open spec fn is_digit(c: char) -> bool {
    '0' <= c <= '9'
}

/// `n` in decimal notation.
pub open spec fn decimal(n: nat) -> Seq<char>
    decreases n,
{
    if n < 10 {
        seq![digit(n)]
    } else {
        decimal(n / 10).push(digit(n % 10))
    }
}

/// The number that a row of decimal digits stands for.
pub open spec fn value_of(s: Seq<char>) -> nat
    decreases s.len(),
{
    if s.len() == 0 {
        0
    } else {
        value_of(s.drop_last()) * 10 + digit_value(s.last())
    }
}

/// Whether `s` holds nothing but decimal digits, and at least one.
pub open spec fn all_digits(s: Seq<char>) -> bool {
    s.len() > 0 && forall|i: int| 0 <= i < s.len() ==> is_digit(#[trigger] s[i])
}

/// `s` without one plus sign at its start.
pub open spec fn unsigned_part(s: Seq<char>) -> Seq<char> {
    if s.len() > 0 && s[0] == '+' {
        s.drop_first()
    } else {
        s
    }
}

/// The number that `s` denotes: an optional plus sign, then digits only.
pub open spec fn denoted(s: Seq<char>) -> Option<nat> {
    if all_digits(unsigned_part(s)) {
        Some(value_of(unsigned_part(s)))
    } else {
        None
    }
}

/// `s` filled with blanks on the left up to `width` characters.
pub open spec fn right_aligned(s: Seq<char>, width: nat) -> Seq<char> {
    blanks(left_over(width, s.len())) + s
}

/// Seconds as minutes and two-digit seconds.
pub open spec fn clock(secs: nat) -> Seq<char> {
    decimal(secs / 60) + ":"@ + seq![digit(secs % 60 / 10), digit(secs % 60 % 10)]
}

/// The hexadecimal digit of value `d`, in small letters.
pub open spec fn hex_digit(d: nat) -> char {
    if d < 10 {
        digit(d)
    } else {
        ((0x57 + d) as u32) as char
    }
}

/// The `count` lowest hexadecimal digits of `n`.
pub open spec fn hex(n: nat, count: nat) -> Seq<char>
    decreases count,
{
    if count == 0 {
        Seq::<char>::empty()
    } else {
        hex(n / 16, (count - 1) as nat).push(hex_digit(n % 16))
    }
}

// ---------------------------------------------------------------------------
// Properties of the model
// ---------------------------------------------------------------------------

/// Decimal notation reads back as the number it was made from, and is made of digits only.
pub proof fn decimal_reads_back(n: nat)
    ensures
        all_digits(decimal(n)),
        value_of(decimal(n)) == n,
        denoted(decimal(n)) == Some(n),
    decreases n,
{
    let s = decimal(n);
    if n < 10 {
        assert(s.drop_last() =~= Seq::<char>::empty());
        assert(value_of(s.drop_last()) == 0);
    } else {
        decimal_reads_back(n / 10);
        assert(s.drop_last() =~= decimal(n / 10));
        assert forall|i: int| 0 <= i < s.len() implies is_digit(#[trigger] s[i]) by {
            if i < s.len() - 1 {
                assert(s[i] == decimal(n / 10)[i]);
            }
        }
    }
    assert(is_digit(s[0]));
}

/// Decimal notation has no leading zero, except for zero itself.
pub proof fn decimal_has_no_leading_zero(n: nat)
    ensures
        decimal(n)[0] == '0' ==> n == 0,
        n < 10 ==> decimal(n).len() == 1,
        10 <= n < 100 ==> decimal(n).len() == 2,
        100 <= n < 1000 ==> decimal(n).len() == 3,
    decreases n,
{
    reveal_with_fuel(decimal, 4);
    if n >= 10 {
        decimal_has_no_leading_zero(n / 10);
        decimal_reads_back(n / 10);
        assert(decimal(n)[0] == decimal(n / 10)[0]);
    }
}

/// A prefix of a row of digits stands for no greater number.
pub proof fn value_grows(s: Seq<char>, k: int)
    requires
        0 <= k <= s.len(),
    ensures
        value_of(s.take(k)) <= value_of(s),
    decreases s.len() - k,
{
    if k == s.len() {
        assert(s.take(k) =~= s);
    } else {
        assert(s.take(k + 1).drop_last() =~= s.take(k));
        value_grows(s, k + 1);
    }
}

/// Different numbers have different decimal notations.
pub proof fn decimal_is_injective(a: nat, b: nat)
    requires
        decimal(a) == decimal(b),
    ensures
        a == b,
{
    decimal_reads_back(a);
    decimal_reads_back(b);
}

// ---------------------------------------------------------------------------
// Functions
// ---------------------------------------------------------------------------

/// The decimal digit of value `d`.
fn digit_char(d: u8) -> (r: char)
    requires
        d < 10,
    ensures
        r == digit(d as nat),
{
    (0x30u8 + d) as char
}

/// `n` in decimal notation.
pub fn decimal_text(n: u64) -> (r: String)
    ensures
        r@ == decimal(n as nat),
    decreases n,
{
    if n < 10 {
        let mut out = String::new();
        out.push(digit_char(n as u8));
        assert(out@ =~= decimal(n as nat));
        out
    } else {
        let mut out = decimal_text(n / 10);
        out.push(digit_char((n % 10) as u8));
        out
    }
}

/// A count in decimal notation.
pub fn count_text(n: usize) -> (r: String)
    ensures
        r@ == decimal(n as nat),
{
    decimal_text(n as u64)
}

/// `s` filled with blanks on the left up to `width` characters.
pub fn align_right(s: &str, width: usize) -> (r: String)
    ensures
        r@ == right_aligned(s@, width as nat),
{
    let used: usize = chars_of(s).len();
    let pad: usize = width.saturating_sub(used);
    let mut out = String::new();
    let mut i: usize = 0;
    assert(out@ =~= blanks(0));
    while i < pad
        invariant
            i <= pad,
            out@ == blanks(i as nat),
        decreases pad - i,
    {
        out.push(' ');
        i += 1;
        assert(out@ =~= blanks(i as nat));
    }
    out.append(s);
    out
}

/// Seconds as minutes and two-digit seconds.
pub fn mmss(secs: u64) -> (r: String)
    ensures
        r@ == clock(secs as nat),
{
    let mut out = decimal_text(secs / 60);
    out.append(":");
    let ghost head = out@;
    let s: u8 = (secs % 60) as u8;
    out.push(digit_char(s / 10));
    out.push(digit_char(s % 10));
    assert(out@ =~= head + seq![digit((s / 10) as nat), digit((s % 10) as nat)]);
    out
}

/// `n` as eight hexadecimal digits in small letters.
pub fn hex8(n: u32) -> (r: String)
    ensures
        r@ == hex(n as nat, 8),
{
    hex_text(n, 8)
}

/// The `count` lowest hexadecimal digits of `n`.
fn hex_text(n: u32, count: u8) -> (r: String)
    ensures
        r@ == hex(n as nat, count as nat),
    decreases count,
{
    if count == 0 {
        String::new()
    } else {
        let mut out = hex_text(n / 16, count - 1);
        let d: u8 = (n % 16) as u8;
        if d < 10 {
            out.push(digit_char(d));
        } else {
            out.push((0x57u8 + d) as char);
        }
        out
    }
}

/// The number that `s` denotes in decimal notation, with an optional plus sign,
/// where it is one that a `usize` can hold.
pub fn parse_count(s: &str) -> (r: Option<usize>)
    ensures
        match r {
            Some(n) => denoted(s@) == Some(n as nat),
            None => denoted(s@) is None || denoted(s@)->0 > usize::MAX,
        },
{
    let chars = chars_of(s);
    let start: usize = if chars.len() > 0 && chars[0] == '+' {
        1
    } else {
        0
    };
    let ghost body = unsigned_part(s@);
    assert(body =~= s@.skip(start as int));
    if start == chars.len() {
        return None;
    }
    let mut n: usize = 0;
    let mut i: usize = start;
    while i < chars.len()
        invariant
            chars@ == s@,
            start <= i <= chars@.len(),
            body == unsigned_part(s@),
            body == s@.skip(start as int),
            forall|j: int| 0 <= j < i - start ==> is_digit(#[trigger] body[j]),
            n == value_of(body.take(i - start)),
        decreases chars@.len() - i,
    {
        let c = chars[i];
        assert(body[i - start] == c);
        if !('0' <= c && c <= '9') {
            assert(!is_digit(body[i - start]));
            return None;
        }
        let d: usize = (c as u32 - 0x30) as usize;
        proof {
            assert(body.take(i - start + 1).drop_last() =~= body.take(i - start));
            assert(value_of(body.take(i - start + 1)) == n * 10 + d);
            value_grows(body, i - start + 1);
        }
        match n.checked_mul(10) {
            Some(tens) => match tens.checked_add(d) {
                Some(sum) => {
                    n = sum;
                },
                None => {
                    return None;
                },
            },
            None => {
                return None;
            },
        }
        i += 1;
    }
    assert(body.take(body.len() as int) =~= body);
    Some(n)
}

} // verus!
