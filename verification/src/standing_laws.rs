//! What the lines on standings, outcomes and progress come to, one by one.

use vstd::prelude::*;

use crate::cli::Tool;
use crate::error::BenchError;
use crate::lines::{
    domains_text, full_reason, give_up_text, name_columns, outcome_text, query_stage_text, reason_text,
    setup_failure_text, short_reason, timeouts_text, warmup_stage_text,
};
use crate::number::{clock, decimal, right_aligned};
use crate::progress::{bar_text, filled_cells, repeated, spinner_frames, spinner_text, Progress, BAR, REDRAW_MS};
use crate::proto::{Mode, Proto};
use crate::rank::first_plain_at;
use crate::report::{LatencyTexts, Report};
use crate::scan::{joined, trimmed_end};
use crate::standings::{
    also_rans, best_of, groups_of, is_plain, plain_remark, protocol_ranking, protocol_standing, section,
    section_heading, standing, LeadTexts,
};
use crate::text::{fitted, padded, truncated};

verus! {

// ---------------------------------------------------------------------------
// Standings
// ---------------------------------------------------------------------------

/// The lines on one protocol: a heading, then one line for each place in the
/// ranking, or that there is none, and an empty line.
pub proof fn sections_have_a_line_for_each_place(
    order: Seq<usize>,
    reports: Seq<Report>,
    stats: Seq<LatencyTexts>,
    leads: Seq<LeadTexts>,
    proto: Proto,
    rounds: nat,
    k: int,
)
    ensures
        ({
            let lines = section(order, reports, stats, leads, proto, rounds);
            &&& section_heading(proto) == "── "@ + proto.label_text() + " ──────────────────────────────────"@
            &&& lines[0] == section_heading(proto)
            &&& lines.last() == ""@
            &&& order.len() == 0 ==> lines.len() == 3 && lines[1] == "   （没有任何一家跑通）"@
            &&& order.len() > 0 ==> lines.len() == order.len() + 2
            &&& 0 <= k < order.len() ==> lines[1 + k] == standing(order, reports, stats, leads, rounds, k)
        }),
{
}

/// The line on a place: its number from one on, the group, the median, how far it
/// lies behind, the ninetieth percentile, the greatest sample, and how many queries
/// got an address, all of the report that has this place.
pub proof fn standings_are_about_their_report(
    order: Seq<usize>,
    reports: Seq<Report>,
    stats: Seq<LatencyTexts>,
    leads: Seq<LeadTexts>,
    rounds: nat,
    k: int,
)
    requires
        0 <= k < order.len(),
    ensures
        ({
            let r = reports[order[k] as int];
            let s = stats[order[k] as int];
            let lead = leads[order[k] as int];
            standing(order, reports, stats, leads, rounds, k) == "  "@ + decimal((k + 1) as nat) + ". "@ + padded(
                r.group@,
                20,
            ) + " p50 "@ + right_aligned(s.p50@, 7) + "  (+"@ + right_aligned(lead.plain@, 5) + ")  p90 "@
                + right_aligned(s.p90@, 7) + "  max "@ + right_aligned(s.max@, 8) + "  成功 "@ + (decimal(
                r.tally.ok as nat,
            ) + "/"@ + decimal(rounds))
        }),
        ({
            let r = reports[order[k] as int];
            let s = stats[order[k] as int];
            protocol_standing(order, reports, stats, rounds, k) == "  "@ + decimal((k + 1) as nat) + ". "@ + padded(
                r.label@,
                12,
            ) + " p50 "@ + right_aligned(s.p50@, 7) + "  p90 "@ + right_aligned(s.p90@, 7) + "  max "@ + right_aligned(
                s.max@,
                8,
            ) + "  mean "@ + right_aligned(s.mean@, 7) + "  (成功 "@ + (decimal(r.tally.ok as nat) + "/"@ + decimal(
                rounds,
            )) + "，超时 "@ + decimal(r.tally.timeout as nat) + ")"@
        }),
{
}

/// The ranking of protocols: two lines above, and then one line for each place.
pub proof fn protocol_rankings_have_a_line_for_each_place(
    order: Seq<usize>,
    reports: Seq<Report>,
    stats: Seq<LatencyTexts>,
    mode: Mode,
    rounds: nat,
    k: int,
)
    ensures
        ({
            let lines = protocol_ranking(order, reports, stats, mode, rounds);
            &&& lines.len() == 2 + order.len()
            &&& lines[0] == "══════════════════════════════════════════════════════"@
            &&& lines[1] == "按 p50 排名（口径："@ + mode.name_text() + "）"@
            &&& 0 <= k < order.len() ==> lines[2 + k] == protocol_standing(order, reports, stats, rounds, k)
        }),
{
}

/// The lines on a provider: that all failed, or else its fastest protocol with its
/// median and what there is to say on plain DNS, and below it all others, in order,
/// with how far they lie behind.
pub proof fn the_best_is_named(
    order: Seq<usize>,
    plain: Option<int>,
    reports: Seq<Report>,
    stats: Seq<LatencyTexts>,
    leads: Seq<LeadTexts>,
    provider: Seq<char>,
    k: int,
)
    ensures
        ({
            let lines = best_of(order, plain, reports, stats, leads, provider);
            &&& order.len() == 0 ==> lines == seq!["  "@ + padded(provider, 20) + "  （全部失败）"@]
            &&& order.len() > 0 ==> lines.len() == (if order.len() == 1 { 1int } else { 2 }) && lines[0] == "  "@
                + trimmed_end(
                padded(provider, 20) + " → "@ + padded(reports[order[0] as int].proto.label_text(), 10) + "  p50 "@
                    + stats[order[0] as int].p50@ + "ms  "@ + plain_remark(order, plain, reports, leads),
            )
            &&& order.len() > 1 ==> lines[1] == "      "@ + joined(also_rans(order, reports, leads), "   "@)
            &&& order.len() > 0 ==> also_rans(order, reports, leads).len() == order.len() - 1
            &&& 1 <= k < order.len() ==> also_rans(order, reports, leads)[k - 1]
                == reports[order[k] as int].proto.label_text() + " "@ + leads[order[k] as int].signed@
        }),
{
}

/// What is said on plain DNS: nothing where it gave no sample, how much slower it
/// is where another protocol is the fastest, and otherwise that it is the fastest.
pub proof fn remarks_are_on_plain_dns(order: Seq<usize>, u: int, reports: Seq<Report>, leads: Seq<LeadTexts>)
    ensures
        plain_remark(order, None, reports, leads).len() == 0,
        reports[order[0] as int].proto == Proto::Udp ==> plain_remark(order, Some(u), reports, leads)
            == "（就是它的明文 UDP，说明这家没有更快的加密协议）"@,
        reports[order[0] as int].proto != Proto::Udp ==> plain_remark(order, Some(u), reports, leads)
            == "（比它自己的 UDP/53 快 "@ + leads[u].plain@ + "ms）"@,
{
    reveal_strlit("");
}

/// The place of plain DNS is the first of those chosen, if there is one.
pub proof fn plain_is_found_if_there(plain: Option<int>, reports: Seq<Report>, chosen: Seq<bool>)
    requires
        is_plain(plain, reports, chosen),
    ensures
        plain matches Some(i) ==> first_plain_at(reports, chosen, i),
        plain is None ==> forall|i: int| !first_plain_at(reports, chosen, i),
{
}

/// Groups are those of the reports, one by one.
pub proof fn groups_are_those_of_reports(reports: Seq<Report>, i: int)
    requires
        0 <= i < reports.len(),
    ensures
        groups_of(reports).len() == reports.len(),
        groups_of(reports)[i] == reports[i].group@,
{
}

// ---------------------------------------------------------------------------
// Outcomes
// ---------------------------------------------------------------------------

/// Why a target gave no sample: its first error, or else the trouble while warming
/// up, or else its timeouts; where providers are compared as far as 50 columns go.
/// A target that was given up is marked with the eight failures that were enough.
pub proof fn reasons_are_the_first_known(r: Report)
    ensures
        timeouts_text(r) == "超时 "@ + (decimal(r.tally.timeout as nat) + "/"@ + decimal(
            (r.tally.ok + r.tally.empty + r.tally.timeout + r.tally.errors.total()) as nat,
        )),
        r.tally.first_error matches Some(e) ==> full_reason(r) == e@ && short_reason(r) == truncated(e@, 50),
        r.tally.first_error is None ==> (r.tally.warmup_note matches Some(n) ==> full_reason(r) == n@ && short_reason(r)
            == truncated(n@, 50)),
        r.tally.first_error is None && r.tally.warmup_note is None ==> full_reason(r) == timeouts_text(r),
        r.tally.first_error is None && r.tally.warmup_note is None && r.tally.timeout > 0 ==> short_reason(r)
            == timeouts_text(r),
        r.tally.first_error is None && r.tally.warmup_note is None && r.tally.timeout == 0 ==> short_reason(r)
            == "无成功样本"@,
        !r.tally.aborted ==> give_up_text(r).len() == 0,
        r.tally.aborted ==> give_up_text(r) == " · 连败 "@ + decimal(8) + " 次后提前结束"@,
        reason_text(r, Tool::Protocols) == full_reason(r) + give_up_text(r),
        reason_text(r, Tool::Providers) == short_reason(r) + give_up_text(r),
{
    reveal_strlit("");
}

/// The lasting line on a target: a tick and its percentiles exactly if it has
/// samples, and otherwise a cross and why not.
pub proof fn outcomes_say_how_it_went(
    r: Report,
    tool: Tool,
    counter: Seq<char>,
    stats: LatencyTexts,
    rounds: nat,
    secs: Seq<char>,
)
    ensures
        name_columns(Tool::Protocols) == 12,
        name_columns(Tool::Providers) == 32,
        r.samples@.len() > 0 ==> outcome_text(r, tool, counter, stats, rounds, secs) == "✓ ["@ + counter + "] "@ + padded(
            r.label@,
            name_columns(tool),
        ) + " p50 "@ + right_aligned(stats.p50@, 7) + "  p90 "@ + right_aligned(stats.p90@, 7) + "  max "@
            + right_aligned(stats.max@, 8) + "  成功 "@ + (decimal(r.tally.ok as nat) + "/"@ + decimal(rounds))
            + "  用时 "@ + secs + "s"@,
        r.samples@.len() == 0 ==> outcome_text(r, tool, counter, stats, rounds, secs) == "✗ ["@ + counter + "] "@ + padded(
            r.label@,
            name_columns(tool),
        ) + " 全部失败："@ + reason_text(r, tool) + "  用时 "@ + secs + "s"@,
{
}

/// The lasting line on a target that could not be set up: why not, in full or as
/// far as 50 columns go.
pub proof fn failed_setups_say_why(e: BenchError, counter: Seq<char>, label: Seq<char>, secs: Seq<char>)
    ensures
        setup_failure_text(e, Tool::Protocols, counter, label, secs) == "✗ ["@ + counter + "] "@ + padded(label, 12)
            + " 初始化失败："@ + (e.label_text() + ": "@ + e.detail_text()),
        setup_failure_text(e, Tool::Providers, counter, label, secs) == "✗ ["@ + counter + "] "@ + padded(label, 32)
            + " 初始化失败："@ + truncated(e.label_text() + ": "@ + e.detail_text(), 50) + "  用时 "@ + secs + "s"@,
{
}

/// What is at hand: queries are counted from one on.
pub proof fn stages_count_from_one(i: nat, n: nat, ms: Seq<char>, source: Seq<char>)
    ensures
        warmup_stage_text(i, n) == "预热 "@ + (decimal(i + 1) + "/"@ + decimal(n)),
        query_stage_text(i, n, ms) == "查询 "@ + (decimal(i + 1) + "/"@ + decimal(n)) + " · 最近 "@ + right_aligned(ms, 6)
            + "ms"@,
        domains_text(n, source) == "域名        "@ + decimal(n) + " 个（来源："@ + source + "，顺序固定循环使用）"@,
{
}

// ---------------------------------------------------------------------------
// Progress
// ---------------------------------------------------------------------------

/// Of sixteen cells as many are filled as come nearest to the share of finished
/// targets, halves upwards.
pub proof fn bars_show_the_share(completed: nat, total: nat)
    ensures
        BAR == 16,
        total == 0 ==> filled_cells(completed, total) == 0,
        total > 0 && completed >= total ==> filled_cells(completed, total) == 16,
        total > 0 && completed < total ==> 2 * total * filled_cells(completed, total) <= 32 * completed + total < 2
            * total * (filled_cells(completed, total) + 1),
{
    if 0 < total && completed < total {
        let n: nat = 32 * completed + total;
        let d: nat = 2 * total;
        let q = n / d;
        assert(d * q <= n < d * (q + 1)) by (nonlinear_arith)
            requires
                d > 0,
                q == n / d,
        ;
        assert(filled_cells(completed, total) == q);
    }
}

/// A bar has its filled cells first and then its empty ones, sixteen in all.
pub proof fn bars_fill_from_the_left(filled: nat, i: int)
    requires
        filled <= 16,
        0 <= i < 16,
    ensures
        bar_text(filled).len() == 16,
        bar_text(filled)[i] == (if i < filled { '█' } else { '░' }),
        repeated('█', filled).len() == filled,
{
}

/// The animation has ten frames, and shows each for a tenth of a second, over and over.
pub proof fn frames_take_turns(ms: nat)
    ensures
        spinner_frames() == seq!["⠋"@, "⠙"@, "⠹"@, "⠸"@, "⠼"@, "⠴"@, "⠦"@, "⠧"@, "⠇"@, "⠏"@],
        spinner_text(ms) == spinner_frames()[(ms % 1000 / 100) as int],
        spinner_text(ms + 1000) == spinner_text(ms),
{
    assert(ms / 100 % 10 == ms % 1000 / 100);
    assert((ms + 1000) / 100 % 10 == ms / 100 % 10);
}

/// A target is finished when the next one begins; there is an estimate once one
/// is finished and has taken any time.
pub proof fn finished_targets_are_counted(p: Progress)
    ensures
        p.index == 0 ==> p.completed() == 0,
        p.index > 0 ==> p.completed() == p.index - 1,
        p.has_estimate() <==> p.spent > 0 && p.index > 1,
        p.draws() <==> p.tty && !p.quiet,
{
}

/// The line is due exactly if it was never drawn, or 80 milliseconds ago or earlier.
pub proof fn lines_are_due_after_a_while(p: Progress, now: u64)
    ensures
        REDRAW_MS == 80,
        p.last_render is None ==> p.is_due(now),
        p.last_render matches Some(last) ==> (p.is_due(now) <==> now >= last + 80_000_000),
{
}

/// The line that is drawn: the frame, the number of the target, the bar, the share,
/// the target and what it is at in 26 columns each, and the time, used and left.
pub proof fn lines_show_where_it_stands(p: Progress, ms: u64, percent: Seq<char>, elapsed: u64, remaining: u64)
    ensures
        p.counter_text() == right_aligned(decimal(p.index as nat), decimal(p.total as nat).len()) + "/"@ + decimal(
            p.total as nat,
        ),
        ({
            let known = "  "@ + spinner_text(ms as nat) + " ["@ + p.counter_text() + "] "@ + bar_text(
                filled_cells(p.completed(), p.total as nat),
            ) + " "@ + right_aligned(percent, 4) + "%  "@ + fitted(p.current@, 26) + " · "@ + fitted(p.stage@, 26)
                + "  已用 "@ + clock(elapsed as nat) + "  剩 "@;
            &&& p.has_estimate() ==> p.line_text(ms, percent, elapsed, remaining) == known + clock(remaining as nat)
            &&& !p.has_estimate() ==> p.line_text(ms, percent, elapsed, remaining) == known + "--:--"@
        }),
{
}

} // verus!
