//! Rankings of targets by their median.

use vstd::prelude::*;

use crate::proto::Proto;
use crate::providers::{cell_views, is_tried};
use crate::report::Report;
use crate::samples::{in_order, percentile};
use crate::scan::same_text;

verus! {

/// The median of a report.
pub open spec fn median(r: Report) -> u64 {
    percentile(in_order(r.samples@), 50)
}

/// Whether report `i` ranks before report `j`: by the median, and among equals as they are listed.
pub open spec fn ranks_before(reports: Seq<Report>, i: int, j: int) -> bool {
    ||| median(reports[i]) < median(reports[j])
    ||| median(reports[i]) == median(reports[j]) && i < j
}

/// Whether `order` lists the positions of the chosen reports, each once, from the fastest to the slowest.
pub open spec fn is_ranking(order: Seq<usize>, reports: Seq<Report>, chosen: Seq<bool>) -> bool {
    &&& forall|k: int| 0 <= k < order.len() ==> (#[trigger] order[k]) < reports.len() && chosen[order[k] as int]
    &&& forall|i: usize| i < reports.len() && chosen[i as int] ==> #[trigger] order.contains(i)
    &&& forall|j: int, k: int|
        0 <= j < k < order.len() ==> ranks_before(reports, #[trigger] order[j] as int, #[trigger] order[k] as int)
}

/// The reports with samples.
pub open spec fn sampled(reports: Seq<Report>) -> Seq<bool> {
    reports.map_values(|r: Report| r.samples@.len() > 0)
}

/// The reports with samples on one protocol.
pub open spec fn sampled_by(reports: Seq<Report>, proto: Proto) -> Seq<bool> {
    reports.map_values(|r: Report| r.samples@.len() > 0 && r.proto == proto)
}

/// The reports with samples on one group, but for those that were only tried.
pub open spec fn declared_in(reports: Seq<Report>, group: Seq<char>, tried: Seq<(Seq<char>, Proto)>) -> Seq<bool> {
    reports.map_values(
        |r: Report| r.samples@.len() > 0 && r.group@ == group && !tried.contains((group, r.proto)),
    )
}

/// Whether position `i` holds the first of the chosen reports on plain DNS.
pub open spec fn first_plain_at(reports: Seq<Report>, chosen: Seq<bool>, i: int) -> bool {
    &&& 0 <= i < reports.len()
    &&& chosen[i]
    &&& reports[i].proto == Proto::Udp
    &&& forall|j: int| 0 <= j < i ==> !(#[trigger] chosen[j] && reports[j].proto == Proto::Udp)
}

/// The positions of the chosen reports from the fastest to the slowest.
pub fn rank(reports: &Vec<Report>, chosen: &Vec<bool>) -> (r: Vec<usize>)
    requires
        chosen@.len() == reports@.len(),
    ensures
        is_ranking(r@, reports@, chosen@),
{
    let mut medians: Vec<u64> = Vec::new();
    let mut n: usize = 0;
    while n < reports.len()
        invariant
            n <= reports@.len(),
            medians@.len() == n,
            forall|i: int| 0 <= i < n ==> #[trigger] medians@[i] == median(reports@[i]),
        decreases reports@.len() - n,
    {
        medians.push(reports[n].p50());
        n += 1;
    }
    let mut order: Vec<usize> = Vec::new();
    let mut i: usize = 0;
    while i < reports.len()
        invariant
            i <= reports@.len(),
            chosen@.len() == reports@.len(),
            medians@.len() == reports@.len(),
            forall|j: int| 0 <= j < medians@.len() ==> #[trigger] medians@[j] == median(reports@[j]),
            forall|k: int| 0 <= k < order@.len() ==> (#[trigger] order@[k]) < i && chosen@[order@[k] as int],
            forall|j: usize| j < i && chosen@[j as int] ==> #[trigger] order@.contains(j),
            forall|j: int, k: int|
                0 <= j < k < order@.len() ==> ranks_before(
                    reports@,
                    #[trigger] order@[j] as int,
                    #[trigger] order@[k] as int,
                ),
        decreases reports@.len() - i,
    {
        if chosen[i] {
            let mut at: usize = order.len();
            while at > 0 && medians[order[at - 1]] > medians[i]
                invariant
                    at <= order@.len(),
                    i < reports@.len(),
                    medians@.len() == reports@.len(),
                    forall|k: int| 0 <= k < order@.len() ==> (#[trigger] order@[k]) < i,
                    forall|k: int| at <= k < order@.len() ==> medians@[#[trigger] order@[k] as int] > medians@[i as int],
                decreases at,
            {
                at -= 1;
            }
            let ghost before = order@;
            order.insert(at, i);
            proof {
                assert(order@ == before.insert(at as int, i));
                assert(order@[at as int] == i);
                assert forall|k: int| 0 <= k < order@.len() implies (#[trigger] order@[k]) < i + 1
                    && chosen@[order@[k] as int] by {
                    if k < at {
                        assert(order@[k] == before[k]);
                    } else if k > at {
                        assert(order@[k] == before[k - 1]);
                    }
                }
                assert forall|j: usize| j < i + 1 && chosen@[j as int] implies #[trigger] order@.contains(j) by {
                    if j < i {
                        let k = before.index_of(j);
                        assert(before.contains(j));
                        if k < at {
                            assert(order@[k] == j);
                        } else {
                            assert(order@[k + 1] == j);
                        }
                    }
                }
                assert forall|j: int, k: int| 0 <= j < k < order@.len() implies ranks_before(
                    reports@,
                    #[trigger] order@[j] as int,
                    #[trigger] order@[k] as int,
                ) by {
                    let x: int = if j < at { j } else { j - 1 };
                    let y: int = if k < at { k } else { k - 1 };
                    if j != at {
                        assert(order@[j] == before[x]);
                    }
                    if k != at {
                        assert(order@[k] == before[y]);
                    }
                    if k == at {
                        assert(medians@[before[at - 1] as int] <= medians@[i as int]);
                        if j < at - 1 {
                            assert(ranks_before(reports@, before[j] as int, before[at - 1] as int));
                        }
                    } else if j == at {
                        assert(medians@[before[y] as int] > medians@[i as int]);
                    }
                }
            }
        }
        i += 1;
    }
    order
}

/// Which reports have samples.
pub fn with_samples(reports: &Vec<Report>) -> (r: Vec<bool>)
    ensures
        r@ == sampled(reports@),
{
    let mut out: Vec<bool> = Vec::new();
    let mut i: usize = 0;
    while i < reports.len()
        invariant
            i <= reports@.len(),
            out@ == sampled(reports@).take(i as int),
        decreases reports@.len() - i,
    {
        out.push(reports[i].has_samples());
        i += 1;
        assert(out@ =~= sampled(reports@).take(i as int));
    }
    assert(sampled(reports@).take(i as int) =~= sampled(reports@));
    out
}

/// Which reports have samples on a protocol.
pub fn of_protocol(reports: &Vec<Report>, proto: Proto) -> (r: Vec<bool>)
    ensures
        r@ == sampled_by(reports@, proto),
{
    let mut out: Vec<bool> = Vec::new();
    let mut i: usize = 0;
    while i < reports.len()
        invariant
            i <= reports@.len(),
            out@ == sampled_by(reports@, proto).take(i as int),
        decreases reports@.len() - i,
    {
        out.push(reports[i].has_samples() && reports[i].proto == proto);
        i += 1;
        assert(out@ =~= sampled_by(reports@, proto).take(i as int));
    }
    assert(sampled_by(reports@, proto).take(i as int) =~= sampled_by(reports@, proto));
    out
}

/// Which reports have samples on a group, but for those that were only tried.
pub fn of_group(reports: &Vec<Report>, group: &str, tried: &Vec<(String, Proto)>) -> (r: Vec<bool>)
    ensures
        r@ == declared_in(reports@, group@, cell_views(tried@)),
{
    let mut out: Vec<bool> = Vec::new();
    let mut i: usize = 0;
    while i < reports.len()
        invariant
            i <= reports@.len(),
            out@ == declared_in(reports@, group@, cell_views(tried@)).take(i as int),
        decreases reports@.len() - i,
    {
        out.push(
            reports[i].has_samples() && same_text(reports[i].group.as_str(), group) && !is_tried(
                tried,
                group,
                reports[i].proto,
            ),
        );
        i += 1;
        assert(out@ =~= declared_in(reports@, group@, cell_views(tried@)).take(i as int));
    }
    assert(declared_in(reports@, group@, cell_views(tried@)).take(i as int) =~= declared_in(
        reports@,
        group@,
        cell_views(tried@),
    ));
    out
}

/// The first of the chosen reports on plain DNS.
pub fn plain_of(reports: &Vec<Report>, chosen: &Vec<bool>) -> (r: Option<usize>)
    requires
        chosen@.len() == reports@.len(),
    ensures
        match r {
            Some(i) => first_plain_at(reports@, chosen@, i as int),
            None => forall|i: int| !first_plain_at(reports@, chosen@, i),
        },
{
    let mut i: usize = 0;
    while i < reports.len()
        invariant
            i <= reports@.len(),
            chosen@.len() == reports@.len(),
            forall|j: int| 0 <= j < i ==> !(#[trigger] chosen@[j] && reports@[j].proto == Proto::Udp),
        decreases reports@.len() - i,
    {
        if chosen[i] && reports[i].proto.is_udp() {
            return Some(i);
        }
        i += 1;
    }
    None
}

// ---------------------------------------------------------------------------
// Laws
// ---------------------------------------------------------------------------

/// There is only one ranking of the same reports.
pub proof fn rankings_are_unique(a: Seq<usize>, b: Seq<usize>, reports: Seq<Report>, chosen: Seq<bool>)
    requires
        is_ranking(a, reports, chosen),
        is_ranking(b, reports, chosen),
    ensures
        a == b,
{
    rankings_agree(a, b, reports, chosen, if a.len() <= b.len() {
        a.len() as int
    } else {
        b.len() as int
    });
    if a.len() <= b.len() {
        equally_long(a, b, reports, chosen);
    } else {
        equally_long(b, a, reports, chosen);
    }
    assert(a =~= b);
}

/// Two rankings of the same reports agree as far as both go.
proof fn rankings_agree(a: Seq<usize>, b: Seq<usize>, reports: Seq<Report>, chosen: Seq<bool>, n: int)
    requires
        is_ranking(a, reports, chosen),
        is_ranking(b, reports, chosen),
        0 <= n <= a.len(),
        n <= b.len(),
    ensures
        forall|k: int| 0 <= k < n ==> a[k] == b[k],
    decreases n,
{
    if n > 0 {
        let k = n - 1;
        rankings_agree(a, b, reports, chosen, k);
        assert(a.contains(b[k]));
        assert(b.contains(a[k]));
        let i = a.index_of(b[k]);
        let j = b.index_of(a[k]);
        if i < k {
            assert(b[i] == b[k]);
            assert(ranks_before(reports, b[i] as int, b[k] as int));
            assert(false);
        }
        if j < k {
            assert(a[j] == a[k]);
            assert(ranks_before(reports, a[j] as int, a[k] as int));
            assert(false);
        }
        if i > k && j > k {
            assert(ranks_before(reports, a[k] as int, a[i] as int));
            assert(ranks_before(reports, b[k] as int, b[j] as int));
            assert(false);
        }
    }
}

/// A ranking cannot be continued.
proof fn equally_long(a: Seq<usize>, b: Seq<usize>, reports: Seq<Report>, chosen: Seq<bool>)
    requires
        is_ranking(a, reports, chosen),
        is_ranking(b, reports, chosen),
        a.len() <= b.len(),
        forall|k: int| 0 <= k < a.len() ==> a[k] == b[k],
    ensures
        a.len() == b.len(),
{
    if a.len() < b.len() {
        let x = b[a.len() as int];
        assert(a.contains(x));
        let i = a.index_of(x);
        assert(b[i] == x);
        assert(ranks_before(reports, b[i] as int, b[a.len() as int] as int));
    }
}

/// The first in a ranking is at least as fast as every chosen report.
pub proof fn the_first_is_fastest(order: Seq<usize>, reports: Seq<Report>, chosen: Seq<bool>, i: usize)
    requires
        is_ranking(order, reports, chosen),
        i < reports.len(),
        chosen[i as int],
    ensures
        order.len() > 0,
        median(reports[order[0] as int]) <= median(reports[i as int]),
{
    assert(order.contains(i));
    let k = order.index_of(i);
    if k > 0 {
        assert(ranks_before(reports, order[0] as int, order[k] as int));
    }
}

/// Only what a group declares counts for it: every place in its ranking is taken
/// by a report of the group with samples that was not only tried, and there is no
/// place at all exactly where there is no such report.
pub proof fn only_the_declared_are_ranked(
    order: Seq<usize>,
    reports: Seq<Report>,
    group: Seq<char>,
    tried: Seq<(Seq<char>, Proto)>,
)
    requires
        is_ranking(order, reports, declared_in(reports, group, tried)),
        reports.len() <= usize::MAX,
    ensures
        forall|k: int|
            0 <= k < order.len() ==> {
                let r = reports[#[trigger] order[k] as int];
                r.group@ == group && r.samples@.len() > 0 && !tried.contains((group, r.proto))
            },
        order.len() == 0 <==> forall|i: int|
            0 <= i < reports.len() ==> !#[trigger] declared_in(reports, group, tried)[i],
{
    let chosen = declared_in(reports, group, tried);
    assert forall|k: int| 0 <= k < order.len() implies {
        let r = reports[#[trigger] order[k] as int];
        r.group@ == group && r.samples@.len() > 0 && !tried.contains((group, r.proto))
    } by {
        assert(chosen[order[k] as int]);
    }
    if order.len() > 0 {
        assert(chosen[order[0] as int]);
    } else {
        assert forall|i: int| 0 <= i < reports.len() implies !#[trigger] chosen[i] by {
            if chosen[i] {
                assert(order.contains(i as usize));
            }
        }
    }
}

} // verus!
