//! What numbers come to as texts, and texts as numbers, said of the digits themselves.

use vstd::prelude::*;

use crate::number::{all_digits, clock, decimal, denoted, hex, right_aligned, value_of};

verus! {

/// A number below ten is one digit, and any other is the digits of its tenth part with one more behind them.
pub proof fn digits_are_written_in_order(n: nat)
    ensures
        decimal(n).last() as int == 48 + n % 10,
        n < 10 ==> decimal(n).len() == 1,
        n >= 10 ==> decimal(n).drop_last() == decimal(n / 10),
{
    if n >= 10 {
        assert(decimal(n).drop_last() =~= decimal(n / 10));
    }
}

/// Each digit behind others makes them count tenfold.
pub proof fn digits_count_tenfold(s: Seq<char>, c: char)
    requires
        48 <= c as int <= 57,
    ensures
        value_of(Seq::empty()) == 0,
        value_of(s.push(c)) == value_of(s) * 10 + (c as int - 48),
{
    assert(s.push(c).drop_last() =~= s);
}

/// A text denotes a number exactly if it has at least one digit and nothing but
/// digits, but for one plus sign that may stand before them.
pub proof fn numbers_are_digits(s: Seq<char>)
    ensures
        ({
            let only_digits = |t: Seq<char>|
                t.len() > 0 && forall|i: int| 0 <= i < t.len() ==> 48 <= (#[trigger] t[i]) as int <= 57;
            &&& only_digits(s) ==> denoted(s) == Some(value_of(s))
            &&& s.len() > 0 && s[0] == '+' && only_digits(s.drop_first()) ==> denoted(s) == Some(
                value_of(s.drop_first()),
            )
            &&& denoted(s) is Some ==> only_digits(s) || s.len() > 0 && s[0] == '+' && only_digits(s.drop_first())
        }),
{
    let only_digits = |t: Seq<char>|
        t.len() > 0 && forall|i: int| 0 <= i < t.len() ==> 48 <= (#[trigger] t[i]) as int <= 57;
    if only_digits(s) {
        assert(48 <= s[0] as int <= 57);
        assert(all_digits(s));
    }
    if s.len() > 0 && s[0] == '+' && only_digits(s.drop_first()) {
        assert(all_digits(s.drop_first()));
    }
    if denoted(s) is Some {
        if s.len() > 0 && s[0] == '+' {
            let t = s.drop_first();
            assert(all_digits(t));
            assert forall|i: int| 0 <= i < t.len() implies 48 <= (#[trigger] t[i]) as int <= 57 by {
                assert(crate::number::is_digit(t[i]));
            }
            assert(only_digits(t));
        } else {
            assert(all_digits(s));
            assert forall|i: int| 0 <= i < s.len() implies 48 <= (#[trigger] s[i]) as int <= 57 by {
                assert(crate::number::is_digit(s[i]));
            }
            assert(only_digits(s));
        }
    }
}

/// Aligning to the right fills up with blanks before the text, and never cuts it.
pub proof fn aligning_fills_with_blanks(s: Seq<char>, width: nat)
    ensures
        right_aligned(s, width).len() == (if s.len() < width { width } else { s.len() }),
        right_aligned(s, width).skip(right_aligned(s, width).len() - s.len()) == s,
        forall|i: int|
            0 <= i < right_aligned(s, width).len() - s.len() ==> #[trigger] right_aligned(s, width)[i] == ' ',
{
    let r = right_aligned(s, width);
    assert(r.skip(r.len() - s.len()) =~= s);
}

/// A clock shows whole minutes, a colon and the seconds left in two digits.
pub proof fn clocks_show_the_time(secs: nat)
    ensures
        ({
            let c = clock(secs);
            let n = c.len() as int;
            &&& n >= 4
            &&& c.take(n - 3) == decimal(secs / 60)
            &&& c[n - 3] == ':'
            &&& (c[n - 2] as int - 48) * 10 + (c[n - 1] as int - 48) == secs % 60
            &&& 48 <= c[n - 2] as int <= 53
            &&& 48 <= c[n - 1] as int <= 57
        }),
{
    reveal_strlit(":");
    digits_are_written_in_order(secs / 60);
    crate::number::decimal_reads_back(secs / 60);
    let c = clock(secs);
    let n = c.len() as int;
    assert(c.take(n - 3) =~= decimal(secs / 60));
}

/// Hexadecimal digits stand for sixteenth parts: 0 to 9, then a to f.
pub proof fn hexadecimal_digits_are_in_order(n: nat, count: nat)
    requires
        count > 0,
    ensures
        hex(n, count).len() == count,
        hex(n, count).drop_last() == hex(n / 16, (count - 1) as nat),
        n % 16 < 10 ==> hex(n, count).last() as int == 48 + n % 16,
        n % 16 >= 10 ==> hex(n, count).last() as int == 97 + n % 16 - 10,
    decreases count,
{
    if count > 1 {
        hexadecimal_digits_are_in_order(n / 16, (count - 1) as nat);
    } else {
        assert(hex(n / 16, 0) =~= Seq::<char>::empty());
    }
    assert(hex(n, count).drop_last() =~= hex(n / 16, (count - 1) as nat));
}

/// How many numbers have this many hexadecimal digits.
pub open spec fn hexadecimals(count: nat) -> nat
    decreases count,
{
    if count == 0 {
        1
    } else {
        16 * hexadecimals((count - 1) as nat)
    }
}

/// Numbers within reach of their digits are known by them.
pub proof fn hexadecimal_digits_tell_apart(n: nat, m: nat, count: nat)
    requires
        n < hexadecimals(count),
        m < hexadecimals(count),
        hex(n, count) == hex(m, count),
    ensures
        n == m,
    decreases count,
{
    if count > 0 {
        hexadecimal_digits_are_in_order(n, count);
        hexadecimal_digits_are_in_order(m, count);
        hexadecimal_digits_tell_apart(n / 16, m / 16, (count - 1) as nat);
        assert(hex(n, count).last() == hex(m, count).last());
    }
}

/// Numbers of 32 bits are known by eight hexadecimal digits.
pub proof fn eight_digits_tell_apart(n: u32, m: u32)
    requires
        hex(n as nat, 8) == hex(m as nat, 8),
    ensures
        n == m,
{
    assert(hexadecimals(8) == 0x1_0000_0000) by {
        reveal_with_fuel(hexadecimals, 9);
    }
    hexadecimal_digits_tell_apart(n as nat, m as nat, 8);
}

} // verus!
