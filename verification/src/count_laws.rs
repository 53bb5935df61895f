//! What counts and reports come to as texts, said of the counts themselves.

use vstd::prelude::*;

use crate::number::decimal;
use crate::report::{ratio, LatencyTexts, Report};
use crate::scan::{joined, text_before};
use crate::tally::{ascending, count_in, entries_text, entry_text, total_of, with_one_more, Tally};
use crate::text::fitted;

verus! {

/// Counts add up, and each label has the count that stands beside it.
pub proof fn counts_stand_beside_labels(e: Seq<(Seq<char>, nat)>, x: (Seq<char>, nat), label: Seq<char>)
    ensures
        total_of(Seq::empty()) == 0,
        total_of(e.push(x)) == total_of(e) + x.1,
        count_in(Seq::empty(), label) == 0,
        count_in(e.push(x), label) == (if label == x.0 { x.1 } else { count_in(e, label) }),
{
    assert(e.push(x).drop_last() =~= e);
}

/// Labels ascend exactly if each comes before all that follow it.
pub proof fn ascending_is_pairwise(e: Seq<(Seq<char>, nat)>, i: int, j: int)
    requires
        ascending(e),
        0 <= i < j < e.len(),
    ensures
        text_before(e[i].0, e[j].0),
{
    assert(text_before(e[i].0, e[j].0));
}

/// Counting a label once more adds one to the total, makes room for it exactly if it
/// is new, and leaves all other entries as they were.
pub proof fn one_more_is_counted(e: Seq<(Seq<char>, nat)>, label: Seq<char>)
    requires
        ascending(e),
    ensures
        total_of(with_one_more(e, label)) == total_of(e) + 1,
        with_one_more(e, label).len() == (if exists|i: int| 0 <= i < e.len() && (#[trigger] e[i]).0 == label {
            e.len()
        } else {
            e.len() + 1
        }),
        forall|k: int|
            0 <= k < with_one_more(e, label).len() ==> (#[trigger] with_one_more(e, label)[k]).0 == label
                || e.contains(with_one_more(e, label)[k]),
    decreases e.len(),
{
    let more = with_one_more(e, label);
    if e.len() == 0 {
        total_of_first(more);
        assert(more.drop_first() =~= e);
    } else if e[0].0 == label {
        total_of_first(e);
        total_of_first(more);
        assert(more.drop_first() =~= e.drop_first());
        assert forall|k: int| 0 <= k < more.len() implies (#[trigger] more[k]).0 == label || e.contains(more[k]) by {
            if k > 0 {
                assert(e[k] == more[k]);
            }
        }
    } else if text_before(label, e[0].0) {
        total_of_first(more);
        assert(more.drop_first() =~= e);
        if exists|i: int| 0 <= i < e.len() && (#[trigger] e[i]).0 == label {
            let i = choose|i: int| 0 <= i < e.len() && (#[trigger] e[i]).0 == label;
            assert(text_before(e[0].0, e[i].0));
            crate::scan::order_is_transitive(label, e[0].0, e[i].0);
            crate::scan::order_is_irreflexive(label);
        }
        assert forall|k: int| 0 <= k < more.len() implies (#[trigger] more[k]).0 == label || e.contains(more[k]) by {
            if k > 0 {
                assert(e[k - 1] == more[k]);
            }
        }
    } else {
        let rest = e.drop_first();
        assert(ascending(rest)) by {
            assert forall|i: int, j: int| 0 <= i < j < rest.len() implies text_before(
                #[trigger] rest[i].0,
                #[trigger] rest[j].0,
            ) by {
                assert(text_before(e[i + 1].0, e[j + 1].0));
            }
        }
        one_more_is_counted(rest, label);
        let less = with_one_more(rest, label);
        total_of_first(e);
        total_of_first(more);
        assert(more.drop_first() =~= less);
        if exists|i: int| 0 <= i < e.len() && (#[trigger] e[i]).0 == label {
            let i = choose|i: int| 0 <= i < e.len() && (#[trigger] e[i]).0 == label;
            assert(rest[i - 1].0 == label);
        }
        if exists|i: int| 0 <= i < rest.len() && (#[trigger] rest[i]).0 == label {
            let i = choose|i: int| 0 <= i < rest.len() && (#[trigger] rest[i]).0 == label;
            assert(e[i + 1].0 == label);
        }
        assert forall|k: int| 0 <= k < more.len() implies (#[trigger] more[k]).0 == label || e.contains(more[k]) by {
            if k == 0 {
                assert(e[0] == more[0]);
            } else {
                assert(more[k] == less[k - 1]);
                if less[k - 1].0 != label {
                    let n = rest.index_of(less[k - 1]);
                    assert(rest.contains(less[k - 1]));
                    assert(e[n + 1] == more[k]);
                }
            }
        }
    }
}

proof fn total_of_first(e: Seq<(Seq<char>, nat)>)
    requires
        e.len() > 0,
    ensures
        total_of(e) == e[0].1 + total_of(e.drop_first()),
    decreases e.len(),
{
    if e.len() == 1 {
        assert(total_of(e.drop_last()) == 0);
        assert(total_of(e.drop_first()) == 0);
    } else {
        total_of_first(e.drop_last());
        assert(e.drop_last().drop_first() =~= e.drop_first().drop_last());
    }
}

/// Counts are written as the label, an equals sign and the count, with a blank between them.
pub proof fn counts_are_written_out(e: Seq<(Seq<char>, nat)>, x: (Seq<char>, nat))
    ensures
        entries_text(Seq::empty()).len() == 0,
        entries_text(seq![x]) == x.0 + "="@ + decimal(x.1),
        e.len() > 0 ==> entries_text(e.push(x)) == entries_text(e) + " "@ + (x.0 + "="@ + decimal(x.1)),
{
    let f = |x: (Seq<char>, nat)| entry_text(x);
    let parts = e.push(x).map_values(f);
    assert(parts.drop_last() =~= e.map_values(f));
    assert(parts.last() == entry_text(x));
    assert(seq![x].map_values(f)[0] == entry_text(x));
    assert(joined(seq![x].map_values(f), " "@) == entry_text(x));
}

/// Attempts are all queries: those with an address, those with an empty answer,
/// those that timed out and those that failed; and a fresh tally has none.
pub proof fn attempts_are_all_queries(t: Tally)
    ensures
        t.attempts_sum() == t.ok + t.empty + t.timeout + total_of(t.errors.entries()),
        t.is_blank() ==> t.attempts_sum() == 0 && !t.aborted && t.first_error is None && t.warmup_note is None,
{
}

/// A ratio is the count, a slash and the total.
pub proof fn ratios_are_written_out(n: nat, total: nat)
    ensures
        ratio(n, total) == decimal(n) + seq!['/'] + decimal(total),
{
    reveal_strlit("/");
    assert("/"@ =~= seq!['/']);
}

/// One line on a target: a tick and its percentiles exactly if it has samples, a
/// bar if it was never asked, and otherwise a cross and how many queries timed out.
pub proof fn summaries_say_how_it_went(r: Report, rounds: nat, wide: nat, p50: Seq<char>, p90: Seq<char>)
    ensures
        ({
            let line = r.summary_text(rounds, wide, p50, p90);
            let name = fitted(r.label@, wide);
            let asked = (r.tally.ok + r.tally.empty + r.tally.timeout + r.tally.errors.total()) as nat;
            &&& r.samples@.len() > 0 ==> line == "  ✅ "@ + name + " p50 "@ + crate::number::right_aligned(p50, 7)
                + "  p90 "@ + crate::number::right_aligned(p90, 7) + "  成功 "@ + (decimal(r.tally.ok as nat) + "/"@
                + decimal(rounds))
            &&& r.samples@.len() == 0 && asked == 0 ==> line == "  ⛔ "@ + name + " 未执行"@
            &&& r.samples@.len() == 0 && asked > 0 ==> line == "  ❌ "@ + name + " 全部失败（超时 "@ + (decimal(
                r.tally.timeout as nat,
            ) + "/"@ + decimal(asked)) + "）"@
        }),
{
}

/// The counts in the detailed block: out of the queries that were planned, or, for
/// a target that was given up, out of those that were made, with the eight that
/// were enough.
pub proof fn counts_say_what_was_planned(r: Report, rounds: nat)
    ensures
        r.tally.aborted ==> r.counts_line(rounds) == "   成功 "@ + decimal(r.tally.ok as nat) + " / "@ + decimal(
            (r.tally.ok + r.tally.empty + r.tally.timeout + r.tally.errors.total()) as nat,
        ) + "（提前结束：一次没成功、连败 "@ + decimal(8) + " 次后放弃，原计划 "@ + decimal(rounds) + " 次）"@,
        !r.tally.aborted ==> r.counts_line(rounds) == "   成功 "@ + decimal(r.tally.ok as nat) + " / "@ + decimal(
            rounds,
        ) + "   空答案 "@ + decimal(r.tally.empty as nat) + "   超时 "@ + decimal(r.tally.timeout as nat),
{
}

/// The lines of the detailed block: its heading, its counts, its errors if there
/// are any, the first of them if it is known, and its percentiles or that there are none.
pub proof fn blocks_say_everything(r: Report, rounds: nat, stats: LatencyTexts)
    ensures
        ({
            let lines = r.block(rounds, stats);
            let with_errors: int = if r.tally.errors.entries().len() > 0 { 1 } else { 0 };
            let with_first: int = if r.tally.first_error is Some { 1 } else { 0 };
            &&& lines.len() == 3 + with_errors + with_first
            &&& lines[0] == "── "@ + r.label@ + " ──────────────────────────"@
            &&& lines[1] == r.counts_line(rounds)
            &&& with_errors == 1 ==> lines[2] == "   错误 "@ + entries_text(r.tally.errors.entries())
            &&& r.tally.first_error matches Some(e) ==> lines[2 + with_errors] == "   首条错误："@ + e@
            &&& r.samples@.len() == 0 ==> lines.last() == "   （没有成功样本，无法统计分位数）"@
            &&& r.samples@.len() > 0 ==> lines.last() == "   min "@ + stats.min@ + "  p50 "@ + stats.p50@ + "  p90 "@
                + stats.p90@ + "  p99 "@ + stats.p99@ + "  max "@ + stats.max@ + "  mean "@ + stats.mean@ + "   (ms)"@
        }),
{
}

} // verus!
