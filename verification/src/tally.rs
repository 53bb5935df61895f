//! Counting what became of the queries.

use vstd::prelude::*;

use crate::error::BenchError;
use crate::number::{count_text, decimal};
use crate::scan::{
    is_before, join, joined, order_is_irreflexive, order_is_total, order_is_transitive, same_text, text_before,
};
use crate::text::{text_in, texts};

verus! {

// ---------------------------------------------------------------------------
// Model
// ---------------------------------------------------------------------------

/// Whether labels stand in ascending order, none of them twice.
pub open spec fn ascending(e: Seq<(Seq<char>, nat)>) -> bool {
    forall|i: int, j: int| 0 <= i < j < e.len() ==> text_before(#[trigger] e[i].0, #[trigger] e[j].0)
}

/// How often a label was counted.
pub open spec fn count_in(e: Seq<(Seq<char>, nat)>, label: Seq<char>) -> nat
    decreases e.len(),
{
    if e.len() == 0 {
        0
    } else if e.last().0 == label {
        e.last().1
    } else {
        count_in(e.drop_last(), label)
    }
}

/// All counts taken together.
pub open spec fn total_of(e: Seq<(Seq<char>, nat)>) -> nat
    decreases e.len(),
{
    if e.len() == 0 {
        0
    } else {
        total_of(e.drop_last()) + e.last().1
    }
}

/// A label and its count with an equals sign between them.
pub open spec fn entry_text(e: (Seq<char>, nat)) -> Seq<char> {
    e.0 + "="@ + decimal(e.1)
}

/// All labels with their counts, with a blank between them.
pub open spec fn entries_text(e: Seq<(Seq<char>, nat)>) -> Seq<char> {
    joined(e.map_values(|x: (Seq<char>, nat)| entry_text(x)), " "@)
}

/// The counts after one more of `label`, which takes its place in the order if it is new.
pub open spec fn with_one_more(e: Seq<(Seq<char>, nat)>, label: Seq<char>) -> Seq<(Seq<char>, nat)>
    decreases e.len(),
{
    if e.len() == 0 {
        seq![(label, 1nat)]
    } else if e[0].0 == label {
        e.update(0, (label, e[0].1 + 1))
    } else if text_before(label, e[0].0) {
        seq![(label, 1nat)] + e
    } else {
        seq![e[0]] + with_one_more(e.drop_first(), label)
    }
}

// ---------------------------------------------------------------------------
// Counts by label
// ---------------------------------------------------------------------------

/// How often each label occurred.
pub struct ErrorCounts {
    entries: Vec<(String, usize)>,
}

impl ErrorCounts {
    /// Labels and counts as they are stored.
    pub closed spec fn entries(self) -> Seq<(Seq<char>, nat)> {
        self.entries@.map_values(|e: (String, usize)| (e.0@, e.1 as nat))
    }

    /// Labels ascend, and each was counted at least once.
    pub open spec fn wf(self) -> bool {
        &&& ascending(self.entries())
        &&& forall|i: int| 0 <= i < self.entries().len() ==> 0 < (#[trigger] self.entries()[i]).1 <= usize::MAX
    }

    /// How often a label was counted.
    pub open spec fn count(self, label: Seq<char>) -> nat {
        count_in(self.entries(), label)
    }

    /// All counts taken together.
    pub open spec fn total(self) -> nat {
        total_of(self.entries())
    }

    /// No counts.
    pub fn new() -> (r: ErrorCounts)
        ensures
            r.wf(),
            r.entries() == Seq::<(Seq<char>, nat)>::empty(),
    {
        let r = ErrorCounts { entries: Vec::new() };
        assert(r.entries() =~= Seq::<(Seq<char>, nat)>::empty());
        r
    }

    /// Whether nothing was counted.
    pub fn is_empty(&self) -> (r: bool)
        ensures
            r == (self.entries().len() == 0),
    {
        self.entries.len() == 0
    }

    /// How often `label` was counted.
    pub fn get(&self, label: &str) -> (r: usize)
        requires
            self.wf(),
        ensures
            r == self.count(label@),
    {
        let mut i: usize = 0;
        while i < self.entries.len()
            invariant
                i <= self.entries@.len(),
                self.wf(),
                forall|j: int| 0 <= j < i ==> self.entries()[j].0 != label@,
            decreases self.entries@.len() - i,
        {
            if same_text(self.entries[i].0.as_str(), label) {
                proof {
                    assert(self.entries()[i as int].0 == label@);
                    count_at(self.entries(), i as int);
                }
                return self.entries[i].1;
            }
            assert(self.entries()[i as int].0 != label@);
            i += 1;
        }
        proof {
            count_of_absent(self.entries(), label@);
        }
        0
    }

    /// Counts `label` once more.
    pub fn add(&mut self, label: &str)
        requires
            old(self).wf(),
            old(self).count(label@) < usize::MAX,
        ensures
            final(self).wf(),
            final(self).entries() == with_one_more(old(self).entries(), label@),
            forall|l: Seq<char>|
                #[trigger] final(self).count(l) == old(self).count(l) + (if l == label@ {
                    1nat
                } else {
                    0nat
                }),
            final(self).total() == old(self).total() + 1,
    {
        let ghost e = self.entries();
        let mut i: usize = 0;
        while i < self.entries.len() && is_before(self.entries[i].0.as_str(), label)
            invariant
                i <= self.entries@.len(),
                self.entries() == e,
                e == old(self).entries(),
                forall|j: int| 0 <= j < i ==> text_before(#[trigger] e[j].0, label@),
            decreases self.entries@.len() - i,
        {
            assert(text_before(e[i as int].0, label@));
            i += 1;
        }
        proof {
            if i < e.len() {
                order_is_total(e[i as int].0, label@);
            }
            one_more_at(e, label@, i as int);
        }
        if i < self.entries.len() && same_text(self.entries[i].0.as_str(), label) {
            proof {
                count_at(e, i as int);
                assert(e[i as int].0 == label@);
            }
            let (key, n) = self.entries.remove(i);
            self.entries.insert(i, (key, n + 1));
            proof {
                assert(self.entries() =~= e.update(i as int, (label@, (n + 1) as nat)));
                count_after_update(e, i as int, (n + 1) as nat);
            }
        } else {
            self.entries.insert(i, (label.to_owned(), 1));
            proof {
                assert(self.entries() =~= e.insert(i as int, (label@, 1nat)));
                count_after_insert(e, i as int, label@);
            }
        }
    }

    /// All counts taken together.
    pub fn sum(&self) -> (r: usize)
        requires
            self.total() <= usize::MAX,
        ensures
            r == self.total(),
    {
        let mut n: usize = 0;
        let mut i: usize = 0;
        let ghost e = self.entries();
        while i < self.entries.len()
            invariant
                i <= self.entries@.len(),
                e == self.entries(),
                n == total_of(e.take(i as int)),
                total_of(e) <= usize::MAX,
            decreases self.entries@.len() - i,
        {
            proof {
                assert(e.take(i + 1).drop_last() =~= e.take(i as int));
                assert(e.take(i + 1).last() == e[i as int]);
                total_of_prefix(e, i + 1);
            }
            n += self.entries[i].1;
            i += 1;
        }
        assert(e.take(e.len() as int) =~= e);
        n
    }

    /// All labels with their counts, in ascending order of the labels.
    pub fn text(&self) -> (r: String)
        ensures
            r@ == entries_text(self.entries()),
    {
        let mut parts: Vec<String> = Vec::new();
        let mut i: usize = 0;
        let ghost all = self.entries().map_values(|x: (Seq<char>, nat)| entry_text(x));
        while i < self.entries.len()
            invariant
                i <= self.entries@.len(),
                all == self.entries().map_values(|x: (Seq<char>, nat)| entry_text(x)),
                texts(parts@) == all.take(i as int),
            decreases self.entries@.len() - i,
        {
            let mut part: String = self.entries[i].0.clone();
            part.append("=");
            part.append(count_text(self.entries[i].1).as_str());
            assert(part@ == entry_text(self.entries()[i as int]));
            let ghost done = parts@;
            parts.push(part);
            i += 1;
            assert(texts(parts@) =~= texts(done).push(part@));
            assert(all.take(i as int) =~= all.take(i - 1).push(all[i - 1]));
        }
        assert(all.take(all.len() as int) =~= all);
        join(&parts, " ")
    }
}

// ---------------------------------------------------------------------------
// Properties of counts
// ---------------------------------------------------------------------------

/// Where one more of a label goes.
proof fn one_more_at(e: Seq<(Seq<char>, nat)>, label: Seq<char>, i: int)
    requires
        0 <= i <= e.len(),
        forall|j: int| 0 <= j < i ==> text_before(#[trigger] e[j].0, label),
        i < e.len() ==> e[i].0 == label || text_before(label, e[i].0),
    ensures
        with_one_more(e, label) == (if i < e.len() && e[i].0 == label {
            e.update(i, (label, e[i].1 + 1))
        } else {
            e.insert(i, (label, 1nat))
        }),
    decreases i,
{
    if i == 0 {
        if e.len() == 0 {
            assert(e.insert(0, (label, 1nat)) =~= seq![(label, 1nat)]);
        } else if e[0].0 != label {
            assert(e.insert(0, (label, 1nat)) =~= seq![(label, 1nat)] + e);
        }
    } else {
        let rest = e.drop_first();
        assert(text_before(e[0].0, label));
        order_is_irreflexive(label);
        if text_before(label, e[0].0) {
            order_is_transitive(label, e[0].0, label);
        }
        assert forall|j: int| 0 <= j < i - 1 implies text_before(#[trigger] rest[j].0, label) by {
            assert(rest[j] == e[j + 1]);
        }
        one_more_at(rest, label, i - 1);
        if i < e.len() && e[i].0 == label {
            assert(seq![e[0]] + rest.update(i - 1, (label, e[i].1 + 1)) =~= e.update(i, (label, e[i].1 + 1)));
        } else {
            assert(seq![e[0]] + rest.insert(i - 1, (label, 1nat)) =~= e.insert(i, (label, 1nat)));
        }
    }
}

proof fn count_of_absent(e: Seq<(Seq<char>, nat)>, label: Seq<char>)
    requires
        forall|i: int| 0 <= i < e.len() ==> (#[trigger] e[i]).0 != label,
    ensures
        count_in(e, label) == 0,
    decreases e.len(),
{
    if e.len() > 0 {
        assert(e[e.len() - 1].0 != label);
        let t = e.drop_last();
        assert forall|i: int| 0 <= i < t.len() implies (#[trigger] t[i]).0 != label by {
            assert(t[i] == e[i]);
        }
        count_of_absent(t, label);
    }
}

/// The place of a label in the order, looked for from `k` on.
proof fn place_from(e: Seq<(Seq<char>, nat)>, label: Seq<char>, k: int) -> (i: int)
    requires
        0 <= k <= e.len(),
        forall|j: int| 0 <= j < k ==> text_before(#[trigger] e[j].0, label),
    ensures
        0 <= i <= e.len(),
        forall|j: int| 0 <= j < i ==> text_before(#[trigger] e[j].0, label),
        i < e.len() ==> e[i].0 == label || text_before(label, e[i].0),
    decreases e.len() - k,
{
    if k < e.len() && text_before(e[k].0, label) {
        place_from(e, label, k + 1)
    } else {
        if k < e.len() {
            order_is_total(e[k].0, label);
        }
        k
    }
}

/// Counting a label once more adds one to its count and to no other, and keeps labels ascending.
pub proof fn counting_adds_one(e: Seq<(Seq<char>, nat)>, label: Seq<char>)
    requires
        ascending(e),
    ensures
        ascending(with_one_more(e, label)),
        forall|l: Seq<char>|
            #[trigger] count_in(with_one_more(e, label), l) == count_in(e, l) + (if l == label {
                1nat
            } else {
                0nat
            }),
        total_of(with_one_more(e, label)) == total_of(e) + 1,
{
    let i = place_from(e, label, 0);
    one_more_at(e, label, i);
    if i < e.len() && e[i].0 == label {
        count_after_update(e, i, e[i].1 + 1);
    } else {
        count_after_insert(e, i, label);
    }
}

proof fn total_of_prefix(e: Seq<(Seq<char>, nat)>, k: int)
    requires
        0 <= k <= e.len(),
    ensures
        total_of(e.take(k)) <= total_of(e),
    decreases e.len() - k,
{
    if k == e.len() {
        assert(e.take(k) =~= e);
    } else {
        assert(e.take(k + 1).drop_last() =~= e.take(k));
        total_of_prefix(e, k + 1);
    }
}

/// No label was counted more often than all labels together.
pub proof fn count_within_total(e: Seq<(Seq<char>, nat)>, label: Seq<char>)
    ensures
        count_in(e, label) <= total_of(e),
    decreases e.len(),
{
    if e.len() > 0 {
        count_within_total(e.drop_last(), label);
    }
}

proof fn ascending_prefix(e: Seq<(Seq<char>, nat)>)
    requires
        ascending(e),
        e.len() > 0,
    ensures
        ascending(e.drop_last()),
{
    let t = e.drop_last();
    assert forall|i: int, j: int| 0 <= i < j < t.len() implies text_before(#[trigger] t[i].0, #[trigger] t[j].0) by {
        assert(t[i] == e[i] && t[j] == e[j]);
    }
}

/// The count of a stored label is the one stored with it.
proof fn count_at(e: Seq<(Seq<char>, nat)>, i: int)
    requires
        ascending(e),
        0 <= i < e.len(),
    ensures
        count_in(e, e[i].0) == e[i].1,
    decreases e.len(),
{
    if i < e.len() - 1 {
        assert(text_before(e[i].0, e[e.len() - 1].0));
        order_is_irreflexive(e[i].0);
        ascending_prefix(e);
        assert(e.drop_last()[i] == e[i]);
        count_at(e.drop_last(), i);
    }
}

proof fn total_after_update(e: Seq<(Seq<char>, nat)>, i: int, n: nat)
    requires
        0 <= i < e.len(),
    ensures
        total_of(e.update(i, (e[i].0, n))) + e[i].1 == total_of(e) + n,
    decreases e.len(),
{
    let u = e.update(i, (e[i].0, n));
    if i == e.len() - 1 {
        assert(u.drop_last() =~= e.drop_last());
    } else {
        assert(u.drop_last() =~= e.drop_last().update(i, (e[i].0, n)));
        assert(u.last() == e.last());
        assert(e.drop_last()[i] == e[i]);
        total_after_update(e.drop_last(), i, n);
    }
}

proof fn count_after_update(e: Seq<(Seq<char>, nat)>, i: int, n: nat)
    requires
        ascending(e),
        0 <= i < e.len(),
        n == e[i].1 + 1,
    ensures
        ascending(e.update(i, (e[i].0, n))),
        forall|l: Seq<char>|
            #[trigger] count_in(e.update(i, (e[i].0, n)), l) == count_in(e, l) + (if l == e[i].0 {
                1nat
            } else {
                0nat
            }),
        total_of(e.update(i, (e[i].0, n))) == total_of(e) + 1,
{
    let u = e.update(i, (e[i].0, n));
    assert forall|a: int, b: int| 0 <= a < b < u.len() implies text_before(#[trigger] u[a].0, #[trigger] u[b].0) by {
        assert(u[a].0 == e[a].0 && u[b].0 == e[b].0);
    }
    assert forall|l: Seq<char>| #[trigger] count_in(u, l) == count_in(e, l) + (if l == e[i].0 {
        1nat
    } else {
        0nat
    }) by {
        if l == e[i].0 {
            count_at(e, i);
            count_at(u, i);
        } else {
            count_elsewhere(e, i, n, l);
        }
    }
    total_after_update(e, i, n);
}

proof fn count_elsewhere(e: Seq<(Seq<char>, nat)>, i: int, n: nat, l: Seq<char>)
    requires
        0 <= i < e.len(),
        l != e[i].0,
    ensures
        count_in(e.update(i, (e[i].0, n)), l) == count_in(e, l),
    decreases e.len(),
{
    let u = e.update(i, (e[i].0, n));
    if i == e.len() - 1 {
        assert(u.drop_last() =~= e.drop_last());
    } else {
        assert(u.drop_last() =~= e.drop_last().update(i, (e[i].0, n)));
        assert(e.drop_last()[i] == e[i]);
        assert(u.last() == e.last());
        count_elsewhere(e.drop_last(), i, n, l);
    }
}

proof fn count_after_insert(e: Seq<(Seq<char>, nat)>, i: int, label: Seq<char>)
    requires
        ascending(e),
        0 <= i <= e.len(),
        forall|j: int| 0 <= j < i ==> text_before(#[trigger] e[j].0, label),
        i < e.len() ==> text_before(label, e[i].0),
    ensures
        ascending(e.insert(i, (label, 1nat))),
        forall|l: Seq<char>|
            #[trigger] count_in(e.insert(i, (label, 1nat)), l) == count_in(e, l) + (if l == label {
                1nat
            } else {
                0nat
            }),
        total_of(e.insert(i, (label, 1nat))) == total_of(e) + 1,
{
    let u = e.insert(i, (label, 1nat));
    assert forall|j: int| i <= j < e.len() implies text_before(label, #[trigger] e[j].0) by {
        if j > i {
            order_is_transitive(label, e[i].0, e[j].0);
        }
    }
    assert forall|a: int, b: int| 0 <= a < b < u.len() implies text_before(#[trigger] u[a].0, #[trigger] u[b].0) by {
        let x = if a < i {
            a
        } else {
            a - 1
        };
        let y = if b < i {
            b
        } else {
            b - 1
        };
        if a != i {
            assert(u[a] == e[x]);
        }
        if b != i {
            assert(u[b] == e[y]);
        }
    }
    assert forall|j: int| 0 <= j < e.len() implies (#[trigger] e[j]).0 != label by {
        if j < i {
            assert(text_before(e[j].0, label));
        } else {
            assert(text_before(label, e[j].0));
        }
        order_is_irreflexive(label);
    }
    assert forall|l: Seq<char>| #[trigger] count_in(u, l) == count_in(e, l) + (if l == label {
        1nat
    } else {
        0nat
    }) by {
        if l == label {
            count_of_absent(e, l);
            assert(u[i] == (label, 1nat));
            count_at(u, i);
        } else {
            count_beside_insert(e, i, label, l);
        }
    }
    total_after_insert(e, i, label);
}

proof fn count_beside_insert(e: Seq<(Seq<char>, nat)>, i: int, label: Seq<char>, l: Seq<char>)
    requires
        0 <= i <= e.len(),
        l != label,
    ensures
        count_in(e.insert(i, (label, 1nat)), l) == count_in(e, l),
    decreases e.len(),
{
    let u = e.insert(i, (label, 1nat));
    if i == e.len() {
        assert(u.drop_last() =~= e);
    } else {
        assert(u.drop_last() =~= e.drop_last().insert(i, (label, 1nat)));
        assert(u.last() == e.last());
        count_beside_insert(e.drop_last(), i, label, l);
    }
}

proof fn total_after_insert(e: Seq<(Seq<char>, nat)>, i: int, label: Seq<char>)
    requires
        0 <= i <= e.len(),
    ensures
        total_of(e.insert(i, (label, 1nat))) == total_of(e) + 1,
    decreases e.len(),
{
    let u = e.insert(i, (label, 1nat));
    if i == e.len() {
        assert(u.drop_last() =~= e);
    } else {
        assert(u.drop_last() =~= e.drop_last().insert(i, (label, 1nat)));
        assert(u.last() == e.last());
        total_after_insert(e.drop_last(), i, label);
    }
}

/// A label that was never counted has no entry, and one with a count has exactly one.
proof fn counted_has_entry(e: Seq<(Seq<char>, nat)>, label: Seq<char>)
    requires
        count_in(e, label) > 0,
    ensures
        exists|i: int| 0 <= i < e.len() && (#[trigger] e[i]).0 == label && e[i].1 == count_in(e, label),
    decreases e.len(),
{
    if e.last().0 == label {
        assert(e[e.len() - 1].0 == label);
    } else {
        counted_has_entry(e.drop_last(), label);
        let i = choose|i: int|
            0 <= i < e.drop_last().len() && (#[trigger] e.drop_last()[i]).0 == label && e.drop_last()[i].1
                == count_in(e.drop_last(), label);
        assert(e[i] == e.drop_last()[i]);
    }
}

proof fn same_counts_same_entries(a: Seq<(Seq<char>, nat)>, b: Seq<(Seq<char>, nat)>)
    requires
        ascending(a),
        ascending(b),
        forall|i: int| 0 <= i < a.len() ==> 0 < (#[trigger] a[i]).1,
        forall|i: int| 0 <= i < b.len() ==> 0 < (#[trigger] b[i]).1,
        forall|l: Seq<char>| #[trigger] count_in(a, l) == count_in(b, l),
    ensures
        a == b,
    decreases a.len(),
{
    if a.len() == 0 && b.len() == 0 {
        assert(a =~= b);
    } else {
        if a.len() > 0 {
            count_at(a, a.len() - 1);
            assert(a[a.len() - 1].1 > 0);
            counted_has_entry(b, a.last().0);
        }
        if b.len() > 0 {
            count_at(b, b.len() - 1);
            assert(b[b.len() - 1].1 > 0);
            counted_has_entry(a, b.last().0);
        }
        assert(a.len() > 0 && b.len() > 0);
        let i = choose|i: int| 0 <= i < b.len() && (#[trigger] b[i]).0 == a.last().0;
        let j = choose|j: int| 0 <= j < a.len() && (#[trigger] a[j]).0 == b.last().0;
        if i < b.len() - 1 {
            assert(text_before(b[i].0, b[b.len() - 1].0));
            if j < a.len() - 1 {
                assert(text_before(a[j].0, a[a.len() - 1].0));
                order_is_transitive(a.last().0, b.last().0, a.last().0);
            }
            order_is_irreflexive(a.last().0);
        }
        assert(a.last().0 == b.last().0);
        assert(a.last() == b.last());
        let s = a.drop_last();
        let t = b.drop_last();
        ascending_prefix(a);
        ascending_prefix(b);
        assert forall|k: int| 0 <= k < s.len() implies 0 < (#[trigger] s[k]).1 by {
            assert(s[k] == a[k]);
        }
        assert forall|k: int| 0 <= k < t.len() implies 0 < (#[trigger] t[k]).1 by {
            assert(t[k] == b[k]);
        }
        assert forall|l: Seq<char>| #[trigger] count_in(s, l) == count_in(t, l) by {
            if l == a.last().0 {
                last_is_not_before(a);
                last_is_not_before(b);
                count_of_absent(s, l);
                count_of_absent(t, l);
            } else {
                assert(count_in(a, l) == count_in(s, l));
                assert(count_in(b, l) == count_in(t, l));
            }
        }
        same_counts_same_entries(s, t);
        assert(a =~= s.push(a.last()));
        assert(b =~= t.push(b.last()));
    }
}

proof fn last_is_not_before(e: Seq<(Seq<char>, nat)>)
    requires
        ascending(e),
        e.len() > 0,
    ensures
        forall|k: int| 0 <= k < e.drop_last().len() ==> (#[trigger] e.drop_last()[k]).0 != e.last().0,
{
    assert forall|k: int| 0 <= k < e.drop_last().len() implies (#[trigger] e.drop_last()[k]).0 != e.last().0 by {
        assert(e.drop_last()[k] == e[k]);
        assert(text_before(e[k].0, e[e.len() - 1].0));
        order_is_irreflexive(e[k].0);
    }
}

/// The text of the counts depends on how often each label was counted alone, not on the order of counting.
pub proof fn text_depends_on_counts_alone(a: ErrorCounts, b: ErrorCounts)
    requires
        a.wf(),
        b.wf(),
        forall|l: Seq<char>| #[trigger] a.count(l) == b.count(l),
    ensures
        entries_text(a.entries()) == entries_text(b.entries()),
        a.total() == b.total(),
{
    assert forall|l: Seq<char>| #[trigger] count_in(a.entries(), l) == count_in(b.entries(), l) by {
        assert(a.count(l) == b.count(l));
    }
    same_counts_same_entries(a.entries(), b.entries());
}

// ---------------------------------------------------------------------------
// Tally
// ---------------------------------------------------------------------------

/// What became of the queries to one target.
pub struct Tally {
    /// Queries that got an address.
    pub ok: usize,
    /// Queries that got a response without an address, or with a response code other than zero.
    pub empty: usize,
    pub timeout: usize,
    pub errors: ErrorCounts,
    /// The first error in full, which explains why nothing came through.
    pub first_error: Option<String>,
    /// What went wrong while warming up. Then no connection was there to be
    /// reused, and hot timings include the cost of connecting.
    pub warmup_note: Option<String>,
    /// Given up early: nothing had come through, and too many queries in a row had failed.
    pub aborted: bool,
}

impl Tally {
    /// Counts of errors are in order.
    pub open spec fn wf(self) -> bool {
        self.errors.wf()
    }

    /// The sum that [`Tally::attempts`] gives.
    pub open spec fn attempts_sum(self) -> nat {
        self.ok as nat + self.empty as nat + self.timeout as nat + self.errors.total()
    }

    /// Nothing counted yet.
    pub open spec fn is_blank(self) -> bool {
        &&& self.ok == 0
        &&& self.empty == 0
        &&& self.timeout == 0
        &&& self.errors.entries() == Seq::<(Seq<char>, nat)>::empty()
        &&& self.first_error is None
        &&& self.warmup_note is None
        &&& !self.aborted
    }

    /// All counts taken together: the queries that were made.
    pub fn attempts(&self) -> (r: usize)
        requires
            self.attempts_sum() <= usize::MAX,
        ensures
            r == self.attempts_sum(),
    {
        self.ok + self.empty + self.timeout + self.errors.sum()
    }

    /// All kinds of errors with their counts, in ascending order.
    pub fn errors_text(&self) -> (r: String)
        ensures
            r@ == entries_text(self.errors.entries()),
    {
        self.errors.text()
    }

    /// Counts an error, and keeps it if it is the first.
    pub fn add_error(&mut self, e: &BenchError)
        requires
            old(self).wf(),
            old(self).errors.count(e.label_text()) < usize::MAX,
        ensures
            final(self).wf(),
            final(self).ok == old(self).ok,
            final(self).empty == old(self).empty,
            final(self).timeout == old(self).timeout,
            final(self).aborted == old(self).aborted,
            final(self).warmup_note == old(self).warmup_note,
            final(self).errors.entries() == with_one_more(old(self).errors.entries(), e.label_text()),
            forall|l: Seq<char>|
                #[trigger] final(self).errors.count(l) == old(self).errors.count(l) + (if l == e.label_text() {
                    1nat
                } else {
                    0nat
                }),
            final(self).errors.total() == old(self).errors.total() + 1,
            text_in(final(self).first_error) == (match text_in(old(self).first_error) {
                Some(text) => Some(text),
                None => Some(e.summary_text()),
            }),
    {
        if self.first_error.is_none() {
            self.first_error = Some(e.summary());
        }
        self.errors.add(e.label());
    }
}

impl Default for Tally {
    fn default() -> (r: Tally)
        ensures
            r.wf(),
            r.is_blank(),
    {
        Tally {
            ok: 0,
            empty: 0,
            timeout: 0,
            errors: ErrorCounts::new(),
            first_error: None,
            warmup_note: None,
            aborted: false,
        }
    }
}

} // verus!
