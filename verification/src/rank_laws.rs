//! What a ranking comes to, said of the samples in the reports.

use vstd::prelude::*;

use crate::proto::Proto;
use crate::rank::{declared_in, first_plain_at, is_ranking, median, ranks_before, sampled, sampled_by};
use crate::report::Report;
use crate::sample_laws::{medians_halve_the_samples, percentiles_are_nearest};
use crate::samples::ordering_is_unique;

verus! {

/// The middle one of samples as they ascend, at position `(n - 1) / 2` of `n`,
/// rounded to the nearest, halves upwards; zero without samples.
pub open spec fn middle(ascending: Seq<u64>) -> u64 {
    if ascending.len() == 0 {
        0
    } else {
        ascending[((ascending.len() - 1) * 50 + 50) / 100]
    }
}

/// Of two places in a ranking, the earlier one has the lower middle sample, or the
/// same and stands earlier in the list.
pub proof fn rankings_go_by_the_middle_sample(
    order: Seq<usize>,
    reports: Seq<Report>,
    chosen: Seq<bool>,
    j: int,
    k: int,
    a: Seq<u64>,
    b: Seq<u64>,
)
    requires
        is_ranking(order, reports, chosen),
        0 <= j < k < order.len(),
        a.to_multiset() == reports[order[j] as int].samples@.to_multiset(),
        b.to_multiset() == reports[order[k] as int].samples@.to_multiset(),
        forall|x: int, y: int| 0 <= x <= y < a.len() ==> a[x] <= a[y],
        forall|x: int, y: int| 0 <= x <= y < b.len() ==> b[x] <= b[y],
    ensures
        middle(a) <= middle(b),
        middle(a) == middle(b) ==> order[j] < order[k],
        median(reports[order[j] as int]) == middle(a),
        median(reports[order[k] as int]) == middle(b),
{
    medians_are_middle_samples(reports[order[j] as int], a);
    medians_are_middle_samples(reports[order[k] as int], b);
    assert(ranks_before(reports, order[j] as int, order[k] as int));
}

/// The median of a report is the middle one of its samples as they ascend.
pub proof fn medians_are_middle_samples(r: Report, ascending: Seq<u64>)
    requires
        ascending.to_multiset() == r.samples@.to_multiset(),
        forall|x: int, y: int| 0 <= x <= y < ascending.len() ==> ascending[x] <= ascending[y],
    ensures
        median(r) == middle(ascending),
{
    ordering_is_unique(r.samples@, ascending);
    if ascending.len() > 0 {
        percentiles_are_nearest(r.samples@, ascending, 50, ((ascending.len() - 1) * 50 + 50) / 100);
    }
}

/// The median of a report with samples has at least half of them at or below it, and at least half at or above it.
pub proof fn medians_are_in_the_middle(r: Report)
    requires
        r.samples@.len() > 0,
    ensures
        2 * r.samples@.filter(|x: u64| x <= median(r)).len() >= r.samples@.len(),
        2 * r.samples@.filter(|x: u64| x >= median(r)).len() >= r.samples@.len(),
{
    let s = r.samples@;
    medians_halve_the_samples(s);
    let low = |x: u64| x <= crate::samples::percentile(crate::samples::in_order(s), 50);
    let high = |x: u64| x >= crate::samples::percentile(crate::samples::in_order(s), 50);
    assert(low =~= (|x: u64| x <= median(r)));
    assert(high =~= (|x: u64| x >= median(r)));
}

/// A ranking lists each of the chosen reports once and no other.
pub proof fn rankings_list_each_once(order: Seq<usize>, reports: Seq<Report>, chosen: Seq<bool>)
    requires
        is_ranking(order, reports, chosen),
    ensures
        order.no_duplicates(),
        forall|i: usize| #[trigger] order.contains(i) <==> i < reports.len() && chosen[i as int],
{
    assert forall|j: int, k: int| 0 <= j < order.len() && 0 <= k < order.len() && j != k implies order[j]
        != order[k] by {
        if j < k {
            assert(ranks_before(reports, order[j] as int, order[k] as int));
        } else {
            assert(ranks_before(reports, order[k] as int, order[j] as int));
        }
    }
    assert forall|i: usize| #[trigger] order.contains(i) implies i < reports.len() && chosen[i as int] by {
        let k = order.index_of(i);
        assert(order[k] == i);
    }
}

/// Which reports are chosen can be read off each report: whether it has samples,
/// and, as the case may be, whether it is on the protocol, or on the group and was
/// not only tried.
pub proof fn choices_are_read_off(
    reports: Seq<Report>,
    proto: Proto,
    group: Seq<char>,
    tried: Seq<(Seq<char>, Proto)>,
    i: int,
)
    requires
        0 <= i < reports.len(),
    ensures
        sampled(reports).len() == reports.len(),
        sampled_by(reports, proto).len() == reports.len(),
        declared_in(reports, group, tried).len() == reports.len(),
        sampled(reports)[i] <==> reports[i].samples@ != Seq::<u64>::empty(),
        sampled_by(reports, proto)[i] <==> reports[i].samples@ != Seq::<u64>::empty() && reports[i].proto == proto,
        declared_in(reports, group, tried)[i] <==> reports[i].samples@ != Seq::<u64>::empty() && reports[i].group@
            == group && !tried.contains((reports[i].group@, reports[i].proto)),
{
    if reports[i].samples@.len() == 0 {
        assert(reports[i].samples@ =~= Seq::<u64>::empty());
    }
}

/// The report on plain DNS is the first one on UDP among those chosen; there is
/// only one such place, and one wherever a chosen report is on UDP.
pub proof fn plain_is_the_first_on_udp(reports: Seq<Report>, chosen: Seq<bool>, i: int)
    requires
        0 <= i < reports.len(),
        chosen[i],
        reports[i].proto == Proto::Udp,
    ensures
        exists|k: int| #[trigger] first_plain_at(reports, chosen, k) && k <= i,
        forall|k: int| #[trigger] first_plain_at(reports, chosen, k) ==> 0 <= k <= i && chosen[k] && reports[k].proto
            == Proto::Udp,
    decreases i,
{
    if exists|j: int| 0 <= j < i && #[trigger] chosen[j] && reports[j].proto == Proto::Udp {
        let j = choose|j: int| 0 <= j < i && #[trigger] chosen[j] && reports[j].proto == Proto::Udp;
        plain_is_the_first_on_udp(reports, chosen, j);
        let k = choose|k: int| #[trigger] first_plain_at(reports, chosen, k) && k <= j;
        assert(first_plain_at(reports, chosen, k) && k <= i);
    } else {
        assert(first_plain_at(reports, chosen, i));
    }
    assert forall|k: int| #[trigger] first_plain_at(reports, chosen, k) implies 0 <= k <= i && chosen[k]
        && reports[k].proto == Proto::Udp by {
        if k > i {
            assert(chosen[i] && reports[i].proto == Proto::Udp);
        }
    }
}

} // verus!
