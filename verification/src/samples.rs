//! Statistics over samples of latency, in nanoseconds.

use vstd::prelude::*;
use vstd::relations::{sorted_by, total_ordering};
use vstd::seq_lib::lemma_sorted_unique;

verus! {

// ---------------------------------------------------------------------------
// Model
// ---------------------------------------------------------------------------

/// The order of numbers.
pub open spec fn at_most() -> spec_fn(u64, u64) -> bool {
    |x: u64, y: u64| x <= y
}

/// The samples from the least to the greatest.
pub open spec fn in_order(s: Seq<u64>) -> Seq<u64> {
    s.sort_by(at_most())
}

/// The position of a percentile among `n` ordered samples: that share of the
/// way from the first to the last, rounded to the nearest position, halves upwards.
pub open spec fn percentile_index(n: nat, percent: nat) -> int {
    ((n - 1) * percent + 50) / 100
}

/// A percentile of ordered samples; zero if there are none.
pub open spec fn percentile(ordered: Seq<u64>, percent: nat) -> u64 {
    if ordered.len() == 0 {
        0
    } else {
        ordered[percentile_index(ordered.len(), percent)]
    }
}

/// All samples added up.
pub open spec fn sum_of(s: Seq<u64>) -> nat
    decreases s.len(),
{
    if s.len() == 0 {
        0
    } else {
        sum_of(s.drop_last()) + s.last() as nat
    }
}

/// The average in whole nanoseconds, rounded down; zero if there are no samples.
pub open spec fn average(s: Seq<u64>) -> nat {
    if s.len() == 0 {
        0
    } else {
        sum_of(s) / s.len()
    }
}

/// The least sample; zero if there are none.
pub open spec fn least(s: Seq<u64>) -> u64 {
    if s.len() == 0 {
        0
    } else {
        in_order(s)[0]
    }
}

/// The greatest sample; zero if there are none.
pub open spec fn greatest(s: Seq<u64>) -> u64 {
    if s.len() == 0 {
        0
    } else {
        in_order(s).last()
    }
}

// ---------------------------------------------------------------------------
// Properties of the model
// ---------------------------------------------------------------------------

proof fn at_most_is_total()
    ensures
        total_ordering(at_most()),
{
}

/// Ordering keeps the samples, each as often as it occurs.
pub proof fn ordering_keeps_samples(s: Seq<u64>)
    ensures
        in_order(s).to_multiset() == s.to_multiset(),
        in_order(s).len() == s.len(),
        sorted_by(in_order(s), at_most()),
{
    broadcast use vstd::seq_lib::group_to_multiset_ensures;

    at_most_is_total();
    s.lemma_sort_by_ensures(at_most());
    assert(s.len() == s.to_multiset().len());
    assert(in_order(s).len() == in_order(s).to_multiset().len());
}

/// A position in order is at or before another exactly as positions go.
proof fn ordered_at(s: Seq<u64>, i: int, j: int)
    requires
        0 <= i <= j < s.len(),
    ensures
        in_order(s)[i] <= in_order(s)[j],
{
    ordering_keeps_samples(s);
    if i < j {
        assert(at_most()(in_order(s)[i], in_order(s)[j]));
    }
}

/// A percentile is one of the positions, and a higher percentile is no earlier position.
proof fn percentile_positions(n: nat, p: nat, q: nat)
    requires
        n > 0,
        p <= q <= 100,
    ensures
        0 <= percentile_index(n, p) <= percentile_index(n, q) < n,
        percentile_index(n, 0) == 0,
        percentile_index(n, 100) == n - 1,
{
    let m: int = n - 1;
    assert(0 <= m * p <= m * q <= m * 100) by (nonlinear_arith)
        requires
            0 <= m,
            0 <= p <= q <= 100,
    ;
    assert(m * 0 == 0);
}

/// Percentiles of samples are samples themselves, they do not decrease as the
/// share grows, and they lie between the least and the greatest sample.
pub proof fn percentiles_are_ordered(s: Seq<u64>, p: nat, q: nat)
    requires
        s.len() > 0,
        p <= q <= 100,
    ensures
        s.contains(percentile(in_order(s), p)),
        least(s) <= percentile(in_order(s), p),
        percentile(in_order(s), p) <= percentile(in_order(s), q),
        percentile(in_order(s), q) <= greatest(s),
        percentile(in_order(s), 0) == least(s),
        percentile(in_order(s), 100) == greatest(s),
{
    broadcast use vstd::seq_lib::group_to_multiset_ensures;

    let n = s.len();
    ordering_keeps_samples(s);
    percentile_positions(n, p, q);
    let i = percentile_index(n, p);
    let j = percentile_index(n, q);
    ordered_at(s, 0, i);
    ordered_at(s, i, j);
    ordered_at(s, j, n - 1);
    assert(in_order(s).contains(in_order(s)[i]));
    assert(s.to_multiset().count(in_order(s)[i]) > 0);
}

/// Samples in order are known by two things: they are the same samples, and they do not decrease.
pub proof fn ordering_is_unique(s: Seq<u64>, t: Seq<u64>)
    requires
        s.to_multiset() == t.to_multiset(),
        forall|i: int, j: int| 0 <= i <= j < t.len() ==> t[i] <= t[j],
    ensures
        in_order(s) == t,
{
    at_most_is_total();
    ordering_keeps_samples(s);
    lemma_sorted_unique(in_order(s), t, at_most());
}

/// The order in which samples came in does not matter to any percentile.
pub proof fn percentiles_ignore_arrival(s: Seq<u64>, t: Seq<u64>, p: nat)
    requires
        s.to_multiset() == t.to_multiset(),
    ensures
        percentile(in_order(s), p) == percentile(in_order(t), p),
        least(s) == least(t),
        greatest(s) == greatest(t),
{
    broadcast use vstd::seq_lib::group_to_multiset_ensures;

    at_most_is_total();
    ordering_keeps_samples(s);
    ordering_keeps_samples(t);
    lemma_sorted_unique(in_order(s), in_order(t), at_most());
    assert(s.len() == s.to_multiset().len());
    assert(t.len() == t.to_multiset().len());
}

/// Samples bounded on both sides have a bounded sum.
proof fn sum_between(s: Seq<u64>, lo: nat, hi: nat)
    requires
        forall|i: int| 0 <= i < s.len() ==> lo <= #[trigger] s[i] <= hi,
    ensures
        lo * s.len() <= sum_of(s) <= hi * s.len(),
    decreases s.len(),
{
    if s.len() > 0 {
        let t = s.drop_last();
        assert forall|i: int| 0 <= i < t.len() implies lo <= #[trigger] t[i] <= hi by {
            assert(t[i] == s[i]);
        }
        sum_between(t, lo, hi);
        assert(lo <= s[s.len() - 1] <= hi);
        let n = t.len();
        assert(lo * (n + 1) == lo * n + lo) by (nonlinear_arith);
        assert(hi * (n + 1) == hi * n + hi) by (nonlinear_arith);
    } else {
        assert(lo * 0 == 0 && hi * 0 == 0);
    }
}

/// The average lies between the least and the greatest sample.
pub proof fn average_is_between(s: Seq<u64>)
    requires
        s.len() > 0,
    ensures
        least(s) <= average(s) <= greatest(s),
{
    broadcast use vstd::seq_lib::group_to_multiset_ensures;

    ordering_keeps_samples(s);
    let o = in_order(s);
    assert forall|i: int| 0 <= i < s.len() implies least(s) <= #[trigger] s[i] <= greatest(s) by {
        assert(s.contains(s[i]));
        assert(o.to_multiset().count(s[i]) > 0);
        assert(o.contains(s[i]));
        let k = choose|k: int| 0 <= k < o.len() && o[k] == s[i];
        ordered_at(s, 0, k);
        ordered_at(s, k, s.len() - 1);
    }
    let lo = least(s) as nat;
    let hi = greatest(s) as nat;
    sum_between(s, lo, hi);
    let (sum, n) = (sum_of(s), s.len());
    assert(lo <= sum / n <= hi) by (nonlinear_arith)
        requires
            n > 0,
            lo * n <= sum <= hi * n,
    ;
}

proof fn sum_of_prefix(s: Seq<u64>, k: int)
    requires
        0 <= k <= s.len(),
    ensures
        sum_of(s.take(k)) <= k * u64::MAX,
    decreases k,
{
    if k > 0 {
        assert(s.take(k).drop_last() =~= s.take(k - 1));
        sum_of_prefix(s, k - 1);
        assert(k * u64::MAX == (k - 1) * u64::MAX + u64::MAX) by (nonlinear_arith);
    }
}

// ---------------------------------------------------------------------------
// Functions
// ---------------------------------------------------------------------------

/// The samples from the least to the greatest.
pub fn sort_samples(samples: &Vec<u64>) -> (r: Vec<u64>)
    ensures
        r@ == in_order(samples@),
        r@.to_multiset() == samples@.to_multiset(),
        forall|i: int, j: int| 0 <= i <= j < r@.len() ==> r@[i] <= r@[j],
{
    broadcast use vstd::seq_lib::group_to_multiset_ensures;

    let mut out: Vec<u64> = Vec::new();
    let mut i: usize = 0;
    assert(samples@.take(0) =~= Seq::<u64>::empty());
    assert(out@ =~= Seq::<u64>::empty());
    while i < samples.len()
        invariant
            i <= samples@.len(),
            sorted_by(out@, at_most()),
            out@.to_multiset() == samples@.take(i as int).to_multiset(),
        decreases samples@.len() - i,
    {
        let x: u64 = samples[i];
        let mut k: usize = out.len();
        while k > 0 && out[k - 1] > x
            invariant
                k <= out@.len(),
                sorted_by(out@, at_most()),
                forall|j: int| k <= j < out@.len() ==> x <= #[trigger] out@[j],
            decreases k,
        {
            k -= 1;
        }
        let ghost before = out@;
        assert forall|j: int| 0 <= j < k implies #[trigger] before[j] <= x by {
            if j < k - 1 {
                assert(at_most()(before[j], before[k - 1]));
            }
        }
        out.insert(k, x);
        proof {
            assert(out@ == before.insert(k as int, x));
            assert forall|a: int, b: int| 0 <= a < b < out@.len() implies #[trigger] at_most()(out@[a], out@[b]) by {
                let a0 = if a < k {
                    a
                } else {
                    a - 1
                };
                let b0 = if b < k {
                    b
                } else {
                    b - 1
                };
                if a != k {
                    assert(out@[a] == before[a0]);
                }
                if b != k {
                    assert(out@[b] == before[b0]);
                }
                if a != k && b != k {
                    assert(at_most()(before[a0], before[b0]));
                }
            }
            assert(samples@.take(i + 1) =~= samples@.take(i as int).push(x));
            vstd::seq_lib::to_multiset_insert(before, k as int, x);
            vstd::seq_lib::to_multiset_build(samples@.take(i as int), x);
        }
        i += 1;
    }
    proof {
        assert(samples@.take(samples@.len() as int) =~= samples@);
        at_most_is_total();
        ordering_keeps_samples(samples@);
        lemma_sorted_unique(out@, in_order(samples@), at_most());
        assert forall|i: int, j: int| 0 <= i <= j < out@.len() implies out@[i] <= out@[j] by {
            if i < j {
                assert(at_most()(out@[i], out@[j]));
            }
        }
    }
    out
}

/// A percentile of ordered samples; zero if there are none.
pub fn percentile_of(ordered: &Vec<u64>, percent: u8) -> (r: u64)
    requires
        percent <= 100,
    ensures
        r == percentile(ordered@, percent as nat),
{
    let n: usize = ordered.len();
    if n == 0 {
        return 0;
    }
    proof {
        percentile_positions(n as nat, percent as nat, 100);
        let m: int = n - 1;
        assert(0 <= m * percent <= m * 100) by (nonlinear_arith)
            requires
                0 <= m,
                0 <= percent <= 100,
        ;
    }
    let i: u128 = ((n - 1) as u128 * percent as u128 + 50) / 100;
    ordered[i as usize]
}

/// All samples added up.
pub fn total_of(samples: &Vec<u64>) -> (r: u128)
    ensures
        r == sum_of(samples@),
{
    let n: usize = samples.len();
    let mut sum: u128 = 0;
    let mut i: usize = 0;
    while i < n
        invariant
            n == samples@.len(),
            i <= n,
            sum == sum_of(samples@.take(i as int)),
        decreases n - i,
    {
        proof {
            assert(samples@.take(i + 1).drop_last() =~= samples@.take(i as int));
            sum_of_prefix(samples@, i + 1);
            assert((i + 1) * u64::MAX <= u64::MAX * u64::MAX) by (nonlinear_arith)
                requires
                    i + 1 <= u64::MAX,
            ;
        }
        sum += samples[i] as u128;
        i += 1;
    }
    assert(samples@.take(n as int) =~= samples@);
    sum
}

/// The average in whole nanoseconds, rounded down; zero if there are no samples.
pub fn average_of(samples: &Vec<u64>) -> (r: u64)
    ensures
        r == average(samples@),
{
    let n: usize = samples.len();
    if n == 0 {
        return 0;
    }
    proof {
        average_is_between(samples@);
    }
    (total_of(samples) / n as u128) as u64
}

} // verus!
