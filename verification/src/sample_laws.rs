//! What the statistics come to, said of the samples themselves.

use vstd::multiset::Multiset;
use vstd::prelude::*;

use crate::samples::{
    average, greatest, in_order, least, ordering_is_unique, ordering_keeps_samples, percentile, percentiles_are_ordered,
    sum_of,
};

verus! {

/// Samples add up one by one, and in any order.
pub proof fn samples_add_up(a: Seq<u64>, b: Seq<u64>, x: u64)
    ensures
        sum_of(Seq::empty()) == 0,
        sum_of(a.push(x)) == sum_of(a) + x,
        sum_of(a + b) == sum_of(b + a),
{
    assert(a.push(x).drop_last() =~= a);
    sums_of_both(a, b);
    sums_of_both(b, a);
}

proof fn sums_of_both(a: Seq<u64>, b: Seq<u64>)
    ensures
        sum_of(a + b) == sum_of(a) + sum_of(b),
    decreases b.len(),
{
    if b.len() == 0 {
        assert(a + b =~= a);
    } else {
        assert((a + b).drop_last() =~= a + b.drop_last());
        sums_of_both(a, b.drop_last());
    }
}

/// The average is the whole number of which, taken as often as there are samples,
/// the sum is reached but not passed by that many more; it is zero without samples.
pub proof fn averages_share_the_sum(s: Seq<u64>)
    ensures
        s.len() == 0 ==> average(s) == 0,
        s.len() > 0 ==> average(s) * s.len() <= sum_of(s) < (average(s) + 1) * s.len(),
{
    if s.len() > 0 {
        let (sum, n, q) = (sum_of(s), s.len(), sum_of(s) / s.len());
        assert(q * n <= sum < (q + 1) * n) by (nonlinear_arith)
            requires
                n > 0,
                q == sum / n,
        ;
    }
}

/// The least and the greatest sample are samples, and no other is less or greater; they are zero without samples.
pub proof fn extremes_are_samples(s: Seq<u64>, i: int)
    requires
        0 <= i < s.len(),
    ensures
        least(Seq::empty()) == 0,
        greatest(Seq::empty()) == 0,
        s.contains(least(s)),
        s.contains(greatest(s)),
        least(s) <= s[i] <= greatest(s),
{
    broadcast use vstd::seq_lib::group_to_multiset_ensures;

    percentiles_are_ordered(s, 0, 100);
    percentiles_are_ordered(s, 100, 100);
    ordering_keeps_samples(s);
    let o = in_order(s);
    assert(s.contains(s[i]));
    assert(o.to_multiset().count(s[i]) > 0);
    assert(o.contains(s[i]));
    let k = o.index_of(s[i]);
    is_ordered(s, 0, k);
    is_ordered(s, k, o.len() - 1);
}

proof fn is_ordered(s: Seq<u64>, i: int, j: int)
    requires
        0 <= i <= j < s.len(),
    ensures
        in_order(s)[i] <= in_order(s)[j],
{
    ordering_keeps_samples(s);
    let o = in_order(s);
    if i < j {
        assert(crate::samples::at_most()(o[i], o[j]));
    }
}

/// A percentile is the sample nearest to that share of the way from the first to
/// the last of the samples as they ascend; halfway between two it is the later one.
pub proof fn percentiles_are_nearest(s: Seq<u64>, ascending: Seq<u64>, percent: nat, k: int)
    requires
        s.to_multiset() == ascending.to_multiset(),
        forall|i: int, j: int| 0 <= i <= j < ascending.len() ==> ascending[i] <= ascending[j],
        0 <= k < ascending.len(),
        100 * k - 50 <= (ascending.len() - 1) * percent < 100 * k + 50,
    ensures
        percentile(in_order(s), percent) == ascending[k],
{
    ordering_is_unique(s, ascending);
}

/// Without samples every percentile is zero.
pub proof fn percentiles_of_nothing(percent: nat)
    ensures
        percentile(in_order(Seq::empty()), percent) == 0,
{
    ordering_keeps_samples(Seq::empty());
}

// ---------------------------------------------------------------------------
// Halves
// ---------------------------------------------------------------------------

proof fn filtering_goes_by_count(s: Seq<u64>, p: spec_fn(u64) -> bool)
    ensures
        s.filter(p).len() == s.to_multiset().filter(p).len(),
    decreases s.len(),
{
    broadcast use vstd::multiset::group_multiset_axioms;

    reveal(Seq::filter);
    if s.len() == 0 {
        s.to_multiset_ensures();
        assert(s.to_multiset().filter(p) =~= Multiset::empty());
    } else {
        let rest = s.drop_last();
        let x = s.last();
        filtering_goes_by_count(rest, p);
        assert(rest.push(x) =~= s);
        rest.to_multiset_ensures();
        let m = rest.to_multiset();
        assert(s.to_multiset() =~= m.insert(x));
        if p(x) {
            assert(m.insert(x).filter(p) =~= m.filter(p).insert(x));
        } else {
            assert(m.insert(x).filter(p) =~= m.filter(p));
        }
    }
}

proof fn all_are_kept(s: Seq<u64>, p: spec_fn(u64) -> bool)
    requires
        forall|i: int| 0 <= i < s.len() ==> p(#[trigger] s[i]),
    ensures
        s.filter(p).len() == s.len(),
    decreases s.len(),
{
    reveal(Seq::filter);
    if s.len() > 0 {
        let rest = s.drop_last();
        assert forall|i: int| 0 <= i < rest.len() implies p(#[trigger] rest[i]) by {
            assert(rest[i] == s[i]);
        }
        assert(p(s[s.len() - 1]));
        all_are_kept(rest, p);
    }
}

/// At least half of the samples are at most the median, and at least half are at least the median.
pub proof fn medians_halve_the_samples(s: Seq<u64>)
    requires
        s.len() > 0,
    ensures
        2 * s.filter(|x: u64| x <= percentile(in_order(s), 50)).len() >= s.len(),
        2 * s.filter(|x: u64| x >= percentile(in_order(s), 50)).len() >= s.len(),
{
    ordering_keeps_samples(s);
    let o = in_order(s);
    let m = percentile(o, 50);
    let low = |x: u64| x <= percentile(in_order(s), 50);
    let high = |x: u64| x >= percentile(in_order(s), 50);
    let k = ((o.len() - 1) * 50 + 50) / 100;
    assert(m == o[k]);
    filtering_goes_by_count(s, low);
    filtering_goes_by_count(o, low);
    filtering_goes_by_count(s, high);
    filtering_goes_by_count(o, high);
    let (a, b) = (o.take(k + 1), o.skip(k + 1));
    assert(a + b =~= o);
    Seq::filter_distributes_over_add(a, b, low);
    assert forall|i: int| 0 <= i < a.len() implies low(#[trigger] a[i]) by {
        is_ordered(s, i, k);
    }
    all_are_kept(a, low);
    let (c, d) = (o.take(k), o.skip(k));
    assert(c + d =~= o);
    Seq::filter_distributes_over_add(c, d, high);
    assert forall|i: int| 0 <= i < d.len() implies high(#[trigger] d[i]) by {
        is_ordered(s, k, k + i);
    }
    all_are_kept(d, high);
}

} // verus!
