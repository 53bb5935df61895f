//! The report on one target.

use vstd::prelude::*;

use crate::number::{align_right, count_text, decimal, right_aligned};
use crate::proto::Proto;
use crate::samples::{
    average, average_of, greatest, in_order, least, ordering_keeps_samples, percentile, percentile_of,
    sort_samples, sum_of, total_of,
};
use crate::tally::{entries_text, Tally};
use crate::text::{fit, fitted, text_in, texts};

verus! {

/// A target that has never answered is given up after this many failures in a row.
///
/// Every further query would only wait out its timeout, and the one thing to be
/// learned from it, that the target does not answer, is known by then.
pub const EARLY_ABORT_AFTER: usize = 8;

/// What is known of one target after its queries.
pub struct Report {
    /// The group: a provider, or the protocol itself where only protocols are compared.
    pub group: String,
    /// The full name for display.
    pub label: String,
    pub proto: Proto,
    pub tally: Tally,
    /// How long each query took that got an address, in nanoseconds.
    pub samples: Vec<u64>,
}

/// Statistics in milliseconds, written out with one decimal.
pub struct LatencyTexts {
    pub min: String,
    pub p50: String,
    pub p90: String,
    pub p99: String,
    pub max: String,
    pub mean: String,
}

/// Adds a line.
pub fn add_line(lines: &mut Vec<String>, line: String)
    ensures
        texts(final(lines)@) == texts(old(lines)@).push(line@),
{
    lines.push(line);
    assert(texts(lines@) =~= texts(old(lines)@).push(line@));
}

/// A count out of a total.
pub open spec fn ratio(n: nat, total: nat) -> Seq<char> {
    decimal(n) + "/"@ + decimal(total)
}

/// A count out of a total.
pub fn ratio_text(n: usize, total: usize) -> (r: String)
    ensures
        r@ == ratio(n as nat, total as nat),
{
    let mut out = count_text(n);
    out.append("/");
    out.append(count_text(total).as_str());
    out
}

impl Report {
    /// Counts are in order.
    pub open spec fn wf(self) -> bool {
        self.tally.wf()
    }

    /// The line that [`Report::summary_line`] gives.
    pub open spec fn summary_text(
        self,
        rounds: nat,
        name_width: nat,
        p50: Seq<char>,
        p90: Seq<char>,
    ) -> Seq<char> {
        let name = fitted(self.label@, name_width);
        if self.samples@.len() > 0 {
            "  ✅ "@ + name + " p50 "@ + right_aligned(p50, 7) + "  p90 "@ + right_aligned(p90, 7)
                + "  成功 "@ + ratio(self.tally.ok as nat, rounds)
        } else if self.tally.attempts_sum() == 0 {
            "  ⛔ "@ + name + " 未执行"@
        } else {
            "  ❌ "@ + name + " 全部失败（超时 "@ + ratio(self.tally.timeout as nat, self.tally.attempts_sum())
                + "）"@
        }
    }

    /// The line of counts in the detailed block.
    pub open spec fn counts_line(self, rounds: nat) -> Seq<char> {
        if self.tally.aborted {
            "   成功 "@ + decimal(self.tally.ok as nat) + " / "@ + decimal(self.tally.attempts_sum())
                + "（提前结束：一次没成功、连败 "@ + decimal(EARLY_ABORT_AFTER as nat) + " 次后放弃，原计划 "@
                + decimal(rounds) + " 次）"@
        } else {
            "   成功 "@ + decimal(self.tally.ok as nat) + " / "@ + decimal(rounds) + "   空答案 "@
                + decimal(self.tally.empty as nat) + "   超时 "@ + decimal(self.tally.timeout as nat)
        }
    }

    /// The lines that [`Report::block_lines`] gives.
    pub open spec fn block(self, rounds: nat, stats: LatencyTexts) -> Seq<Seq<char>> {
        let heading = seq!["── "@ + self.label@ + " ──────────────────────────"@];
        let counts = seq![self.counts_line(rounds)];
        let errors = if self.tally.errors.entries().len() == 0 {
            Seq::<Seq<char>>::empty()
        } else {
            seq!["   错误 "@ + entries_text(self.tally.errors.entries())]
        };
        let first = match text_in(self.tally.first_error) {
            Some(detail) => seq!["   首条错误："@ + detail],
            None => Seq::<Seq<char>>::empty(),
        };
        let numbers = if self.samples@.len() == 0 {
            seq!["   （没有成功样本，无法统计分位数）"@]
        } else {
            seq![
                "   min "@ + stats.min@ + "  p50 "@ + stats.p50@ + "  p90 "@ + stats.p90@ + "  p99 "@
                    + stats.p99@ + "  max "@ + stats.max@ + "  mean "@ + stats.mean@ + "   (ms)"@,
            ]
        };
        heading + counts + errors + first + numbers
    }

    /// A report with nothing in it yet.
    pub fn new(group: &str, label: &str, proto: Proto) -> (r: Report)
        ensures
            r.wf(),
            r.group@ == group@,
            r.label@ == label@,
            r.proto == proto,
            r.tally.is_blank(),
            r.samples@ == Seq::<u64>::empty(),
    {
        Report {
            group: group.to_owned(),
            label: label.to_owned(),
            proto,
            tally: Tally::default(),
            samples: Vec::new(),
        }
    }

    /// The samples from the least to the greatest.
    pub fn sorted(&self) -> (r: Vec<u64>)
        ensures
            r@ == in_order(self.samples@),
            r@.to_multiset() == self.samples@.to_multiset(),
            forall|i: int, j: int| 0 <= i <= j < r@.len() ==> r@[i] <= r@[j],
    {
        sort_samples(&self.samples)
    }

    /// A percentile of ordered samples; zero if there are none.
    pub fn quantile(sorted: &Vec<u64>, percent: u8) -> (r: u64)
        requires
            percent <= 100,
        ensures
            r == percentile(sorted@, percent as nat),
    {
        percentile_of(sorted, percent)
    }

    /// The median.
    pub fn p50(&self) -> (r: u64)
        ensures
            r == percentile(in_order(self.samples@), 50),
    {
        Self::quantile(&self.sorted(), 50)
    }

    /// The 90th percentile.
    pub fn p90(&self) -> (r: u64)
        ensures
            r == percentile(in_order(self.samples@), 90),
    {
        Self::quantile(&self.sorted(), 90)
    }

    /// The 99th percentile.
    pub fn p99(&self) -> (r: u64)
        ensures
            r == percentile(in_order(self.samples@), 99),
    {
        Self::quantile(&self.sorted(), 99)
    }

    /// The greatest sample; zero if there are none.
    pub fn max(&self) -> (r: u64)
        ensures
            r == greatest(self.samples@),
    {
        let ordered = self.sorted();
        proof {
            ordering_keeps_samples(self.samples@);
        }
        if ordered.len() == 0 {
            0
        } else {
            ordered[ordered.len() - 1]
        }
    }

    /// The least sample; zero if there are none.
    pub fn min(&self) -> (r: u64)
        ensures
            r == least(self.samples@),
    {
        let ordered = self.sorted();
        proof {
            ordering_keeps_samples(self.samples@);
        }
        if ordered.len() == 0 {
            0
        } else {
            ordered[0]
        }
    }

    /// All samples added up. With their number this gives the average exactly.
    pub fn total(&self) -> (r: u128)
        ensures
            r == sum_of(self.samples@),
    {
        total_of(&self.samples)
    }

    /// The average in whole nanoseconds, rounded down; zero if there are no samples.
    pub fn mean(&self) -> (r: u64)
        ensures
            r == average(self.samples@),
    {
        average_of(&self.samples)
    }

    /// Whether any query got an address.
    pub fn has_samples(&self) -> (r: bool)
        ensures
            r == (self.samples@.len() > 0),
    {
        self.samples.len() > 0
    }

    /// One line on the target, with its percentiles already in milliseconds.
    pub fn summary_line(&self, rounds: usize, name_width: usize, p50: &str, p90: &str) -> (r: String)
        requires
            self.tally.attempts_sum() <= usize::MAX,
        ensures
            r@ == self.summary_text(rounds as nat, name_width as nat, p50@, p90@),
    {
        let name = fit(self.label.as_str(), name_width);
        if self.has_samples() {
            let mut out: String = "  ✅ ".to_owned();
            out.append(name.as_str());
            out.append(" p50 ");
            out.append(align_right(p50, 7).as_str());
            out.append("  p90 ");
            out.append(align_right(p90, 7).as_str());
            out.append("  成功 ");
            out.append(ratio_text(self.tally.ok, rounds).as_str());
            out
        } else if self.tally.attempts() == 0 {
            let mut out: String = "  ⛔ ".to_owned();
            out.append(name.as_str());
            out.append(" 未执行");
            out
        } else {
            let mut out: String = "  ❌ ".to_owned();
            out.append(name.as_str());
            out.append(" 全部失败（超时 ");
            out.append(ratio_text(self.tally.timeout, self.tally.attempts()).as_str());
            out.append("）");
            out
        }
    }

    /// The line of counts in the detailed block.
    fn counts_text(&self, rounds: usize) -> (r: String)
        requires
            self.tally.attempts_sum() <= usize::MAX,
        ensures
            r@ == self.counts_line(rounds as nat),
    {
        let mut out: String = "   成功 ".to_owned();
        out.append(count_text(self.tally.ok).as_str());
        out.append(" / ");
        if self.tally.aborted {
            out.append(count_text(self.tally.attempts()).as_str());
            out.append("（提前结束：一次没成功、连败 ");
            out.append(count_text(EARLY_ABORT_AFTER).as_str());
            out.append(" 次后放弃，原计划 ");
            out.append(count_text(rounds).as_str());
            out.append(" 次）");
        } else {
            out.append(count_text(rounds).as_str());
            out.append("   空答案 ");
            out.append(count_text(self.tally.empty).as_str());
            out.append("   超时 ");
            out.append(count_text(self.tally.timeout).as_str());
        }
        out
    }

    /// The detailed block: what became of the queries, and the percentiles.
    pub fn block_lines(&self, rounds: usize, stats: &LatencyTexts) -> (r: Vec<String>)
        requires
            self.tally.attempts_sum() <= usize::MAX,
        ensures
            texts(r@) == self.block(rounds as nat, *stats),
    {
        let mut lines: Vec<String> = Vec::new();
        let mut heading: String = "── ".to_owned();
        heading.append(self.label.as_str());
        heading.append(" ──────────────────────────");
        add_line(&mut lines, heading);
        add_line(&mut lines, self.counts_text(rounds));
        if !self.tally.errors.is_empty() {
            let mut line: String = "   错误 ".to_owned();
            line.append(self.tally.errors_text().as_str());
            add_line(&mut lines, line);
        }
        match &self.tally.first_error {
            Some(detail) => {
                let mut line: String = "   首条错误：".to_owned();
                line.append(detail.as_str());
                add_line(&mut lines, line);
            },
            None => {},
        }
        if self.samples.len() == 0 {
            add_line(&mut lines, "   （没有成功样本，无法统计分位数）".to_owned());
        } else {
            let mut line: String = "   min ".to_owned();
            line.append(stats.min.as_str());
            line.append("  p50 ");
            line.append(stats.p50.as_str());
            line.append("  p90 ");
            line.append(stats.p90.as_str());
            line.append("  p99 ");
            line.append(stats.p99.as_str());
            line.append("  max ");
            line.append(stats.max.as_str());
            line.append("  mean ");
            line.append(stats.mean.as_str());
            line.append("   (ms)");
            add_line(&mut lines, line);
        }
        assert(texts(lines@) =~= self.block(rounds as nat, *stats));
        lines
    }
}

} // verus!
