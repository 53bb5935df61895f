//! Single lines while targets are being asked, and the lines before that.

use vstd::prelude::*;

use crate::cli::{doh_url_text, ProtocolOpt, Settings, Tool, PLAIN_PORT, TLS_PORT};
use crate::error::BenchError;
use crate::number::{align_right, count_text, decimal, decimal_text, right_aligned};
use crate::report::{add_line, ratio, ratio_text, LatencyTexts, Report, EARLY_ABORT_AFTER};
use crate::text::{pad_to, padded, text_in, texts, truncate, truncated};

verus! {

// ---------------------------------------------------------------------------
// Model
// ---------------------------------------------------------------------------

/// What is added where a target was given up.
pub open spec fn give_up_text(r: Report) -> Seq<char> {
    if r.tally.aborted {
        " · 连败 "@ + decimal(EARLY_ABORT_AFTER as nat) + " 次后提前结束"@
    } else {
        ""@
    }
}

/// Timeouts out of all attempts.
pub open spec fn timeouts_text(r: Report) -> Seq<char> {
    "超时 "@ + ratio(r.tally.timeout as nat, r.tally.attempts_sum())
}

/// Why a target gave no sample, in short, where providers are compared.
pub open spec fn short_reason(r: Report) -> Seq<char> {
    match (text_in(r.tally.first_error), text_in(r.tally.warmup_note)) {
        (Some(d), _) => truncated(d, 50),
        (None, Some(n)) => truncated(n, 50),
        (None, None) => if r.tally.timeout > 0 {
            timeouts_text(r)
        } else {
            "无成功样本"@
        },
    }
}

/// Why a target gave no sample, where protocols are compared.
pub open spec fn full_reason(r: Report) -> Seq<char> {
    match (text_in(r.tally.first_error), text_in(r.tally.warmup_note)) {
        (Some(d), _) => d,
        (None, Some(n)) => n,
        (None, None) => timeouts_text(r),
    }
}

/// Why a target gave no sample, and whether it was given up.
pub open spec fn reason_text(r: Report, tool: Tool) -> Seq<char> {
    match tool {
        Tool::Protocols => full_reason(r) + give_up_text(r),
        Tool::Providers => short_reason(r) + give_up_text(r),
    }
}

/// The columns for the name of a target.
pub open spec fn name_columns(tool: Tool) -> nat {
    match tool {
        Tool::Protocols => 12,
        Tool::Providers => 32,
    }
}

/// The lasting line on a target. `secs` is how long it took, in seconds with one decimal.
pub open spec fn outcome_text(
    r: Report,
    tool: Tool,
    counter: Seq<char>,
    stats: LatencyTexts,
    rounds: nat,
    secs: Seq<char>,
) -> Seq<char> {
    if r.samples@.len() > 0 {
        "✓ ["@ + counter + "] "@ + padded(r.label@, name_columns(tool)) + " p50 "@ + right_aligned(stats.p50@, 7)
            + "  p90 "@ + right_aligned(stats.p90@, 7) + "  max "@ + right_aligned(stats.max@, 8) + "  成功 "@
            + ratio(r.tally.ok as nat, rounds) + "  用时 "@ + secs + "s"@
    } else {
        "✗ ["@ + counter + "] "@ + padded(r.label@, name_columns(tool)) + " 全部失败："@ + reason_text(r, tool)
            + "  用时 "@ + secs + "s"@
    }
}

/// The lasting line on a target that could not be set up.
pub open spec fn setup_failure_text(
    e: BenchError,
    tool: Tool,
    counter: Seq<char>,
    label: Seq<char>,
    secs: Seq<char>,
) -> Seq<char> {
    match tool {
        Tool::Protocols => "✗ ["@ + counter + "] "@ + padded(label, name_columns(tool)) + " 初始化失败："@
            + e.summary_text(),
        Tool::Providers => "✗ ["@ + counter + "] "@ + padded(label, name_columns(tool)) + " 初始化失败："@
            + truncated(e.summary_text(), 50) + "  用时 "@ + secs + "s"@,
    }
}

/// What is at hand while warming up: query `i` of `n`, counted from zero.
pub open spec fn warmup_stage_text(i: nat, n: nat) -> Seq<char> {
    "预热 "@ + ratio(i + 1, n)
}

/// What is at hand after timed query `i` of `n`, counted from zero, which took `ms` milliseconds.
pub open spec fn query_stage_text(i: nat, n: nat, ms: Seq<char>) -> Seq<char> {
    "查询 "@ + ratio(i + 1, n) + " · 最近 "@ + right_aligned(ms, 6) + "ms"@
}

/// How many domains there are, and where they come from.
pub open spec fn domains_text(count: nat, source: Seq<char>) -> Seq<char> {
    "域名        "@ + decimal(count) + " 个（来源："@ + source + "，顺序固定循环使用）"@
}

// ---------------------------------------------------------------------------
// Functions
// ---------------------------------------------------------------------------

/// Timeouts out of all attempts.
fn timeouts(r: &Report) -> (text: String)
    requires
        r.tally.attempts_sum() <= usize::MAX,
    ensures
        text@ == timeouts_text(*r),
{
    let mut out: String = "超时 ".to_owned();
    out.append(ratio_text(r.tally.timeout, r.tally.attempts()).as_str());
    out
}

/// Adds that a target was given up, if it was.
fn add_give_up(out: &mut String, r: &Report)
    ensures
        final(out)@ == old(out)@ + give_up_text(*r),
{
    let mut tail: String = "".to_owned();
    if r.tally.aborted {
        tail = " · 连败 ".to_owned();
        tail.append(count_text(EARLY_ABORT_AFTER).as_str());
        tail.append(" 次后提前结束");
    }
    out.append(tail.as_str());
}

/// Why a target gave no sample, in short.
pub fn fail_reason(r: &Report) -> (text: String)
    requires
        r.tally.attempts_sum() <= usize::MAX,
    ensures
        text@ == reason_text(*r, Tool::Providers),
{
    let mut out: String = match (&r.tally.first_error, &r.tally.warmup_note) {
        (Some(d), _) => truncate(d.as_str(), 50),
        (None, Some(n)) => truncate(n.as_str(), 50),
        (None, None) => {
            if r.tally.timeout > 0 {
                timeouts(r)
            } else {
                "无成功样本".to_owned()
            }
        },
    };
    add_give_up(&mut out, r);
    out
}

/// Why a target gave no sample.
fn long_fail_reason(r: &Report) -> (text: String)
    requires
        r.tally.attempts_sum() <= usize::MAX,
    ensures
        text@ == reason_text(*r, Tool::Protocols),
{
    let mut out: String = match (&r.tally.first_error, &r.tally.warmup_note) {
        (Some(d), _) => d.clone(),
        (None, Some(n)) => n.clone(),
        (None, None) => timeouts(r),
    };
    add_give_up(&mut out, r);
    out
}

/// The columns for the name of a target.
fn columns_for(tool: Tool) -> (r: usize)
    ensures
        r == name_columns(tool),
{
    match tool {
        Tool::Protocols => 12,
        Tool::Providers => 32,
    }
}

/// The lasting line on a target.
pub fn outcome_line(
    r: &Report,
    tool: Tool,
    counter: &str,
    stats: &LatencyTexts,
    rounds: usize,
    secs: &str,
) -> (line: String)
    requires
        r.tally.attempts_sum() <= usize::MAX,
    ensures
        line@ == outcome_text(*r, tool, counter@, *stats, rounds as nat, secs@),
{
    let name = pad_to(r.label.as_str(), columns_for(tool));
    if r.has_samples() {
        let mut out: String = "✓ [".to_owned();
        out.append(counter);
        out.append("] ");
        out.append(name.as_str());
        out.append(" p50 ");
        out.append(align_right(stats.p50.as_str(), 7).as_str());
        out.append("  p90 ");
        out.append(align_right(stats.p90.as_str(), 7).as_str());
        out.append("  max ");
        out.append(align_right(stats.max.as_str(), 8).as_str());
        out.append("  成功 ");
        out.append(ratio_text(r.tally.ok, rounds).as_str());
        out.append("  用时 ");
        out.append(secs);
        out.append("s");
        out
    } else {
        let reason = match tool {
            Tool::Protocols => long_fail_reason(r),
            Tool::Providers => fail_reason(r),
        };
        let mut out: String = "✗ [".to_owned();
        out.append(counter);
        out.append("] ");
        out.append(name.as_str());
        out.append(" 全部失败：");
        out.append(reason.as_str());
        out.append("  用时 ");
        out.append(secs);
        out.append("s");
        out
    }
}

/// The lasting line on a target that could not be set up.
pub fn setup_failure_line(e: &BenchError, tool: Tool, counter: &str, label: &str, secs: &str) -> (line: String)
    ensures
        line@ == setup_failure_text(*e, tool, counter@, label@, secs@),
{
    let mut out: String = "✗ [".to_owned();
    out.append(counter);
    out.append("] ");
    out.append(pad_to(label, columns_for(tool)).as_str());
    out.append(" 初始化失败：");
    match tool {
        Tool::Protocols => {
            out.append(e.summary().as_str());
        },
        Tool::Providers => {
            out.append(truncate(e.summary().as_str(), 50).as_str());
            out.append("  用时 ");
            out.append(secs);
            out.append("s");
        },
    }
    out
}

/// What is at hand while warming up: query `i` of `n`, counted from zero.
pub fn warmup_stage(i: usize, n: usize) -> (r: String)
    requires
        i < usize::MAX,
    ensures
        r@ == warmup_stage_text(i as nat, n as nat),
{
    let mut out: String = "预热 ".to_owned();
    out.append(ratio_text(i + 1, n).as_str());
    out
}

/// What is at hand after timed query `i` of `n`, counted from zero, which took `ms` milliseconds.
pub fn query_stage(i: usize, n: usize, ms: &str) -> (r: String)
    requires
        i < usize::MAX,
    ensures
        r@ == query_stage_text(i as nat, n as nat, ms@),
{
    let mut out: String = "查询 ".to_owned();
    out.append(ratio_text(i + 1, n).as_str());
    out.append(" · 最近 ");
    out.append(align_right(ms, 6).as_str());
    out.append("ms");
    out
}

/// How many domains there are, and where they come from.
fn domains_line(count: usize, source: &str) -> (r: String)
    ensures
        r@ == domains_text(count as nat, source@),
{
    let mut out: String = "域名        ".to_owned();
    out.append(count_text(count).as_str());
    out.append(" 个（来源：");
    out.append(source);
    out.append("，顺序固定循环使用）");
    out
}

/// The lines before protocols are compared. `limit` is the timeout in words.
pub fn protocol_intro(opt: &ProtocolOpt, domains: usize, source: &str, limit: &str) -> (r: Vec<String>)
    ensures
        texts(r@) == seq![
            "服务器      "@ + opt.server@ + " (plain:"@ + decimal(PLAIN_PORT as nat) + ", dot:"@ + decimal(
                TLS_PORT as nat,
            ) + ", doq:"@ + decimal(TLS_PORT as nat) + ", doh:"@ + doh_url_text(opt@) + ")"@,
            "口径        "@ + opt.common.mode.name_text(),
            domains_text(domains as nat, source@),
            "预热 / 计时 "@ + decimal(opt.common.warmup as nat) + " 次 / 每协议 "@ + decimal(
                opt.common.rounds as nat,
            ) + " 次"@,
            "统一超时    "@ + limit@,
            ""@,
        ],
{
    let mut lines: Vec<String> = Vec::new();
    let mut line: String = "服务器      ".to_owned();
    line.append(opt.server.as_str());
    line.append(" (plain:");
    line.append(decimal_text(PLAIN_PORT as u64).as_str());
    line.append(", dot:");
    line.append(decimal_text(TLS_PORT as u64).as_str());
    line.append(", doq:");
    line.append(decimal_text(TLS_PORT as u64).as_str());
    line.append(", doh:");
    line.append(opt.doh_url().as_str());
    line.append(")");
    add_line(&mut lines, line);
    let mut line: String = "口径        ".to_owned();
    line.append(opt.common.mode.name());
    add_line(&mut lines, line);
    add_line(&mut lines, domains_line(domains, source));
    let mut line: String = "预热 / 计时 ".to_owned();
    line.append(count_text(opt.common.warmup).as_str());
    line.append(" 次 / 每协议 ");
    line.append(count_text(opt.common.rounds).as_str());
    line.append(" 次");
    add_line(&mut lines, line);
    let mut line: String = "统一超时    ".to_owned();
    line.append(limit);
    add_line(&mut lines, line);
    add_line(&mut lines, "".to_owned());
    lines
}

/// The lines before providers are compared. `limit` is the timeout in words.
pub fn provider_intro(
    common: &Settings,
    domains: usize,
    source: &str,
    limit: &str,
    targets: usize,
    providers: usize,
) -> (r: Vec<String>)
    ensures
        texts(r@) == seq![
            domains_text(domains as nat, source@),
            "口径        "@ + common.mode.name_text() + "，预热 "@ + decimal(common.warmup as nat)
                + " 次，每组合计时 "@ + decimal(common.rounds as nat) + " 次"@,
            "统一超时    "@ + limit@,
            "被测组合    "@ + decimal(targets as nat) + " 个（"@ + decimal(providers as nat) + " 家 × 最多 "@
                + decimal(common.protos@.len()) + " 种协议）"@,
            ""@,
        ],
{
    let mut lines: Vec<String> = Vec::new();
    add_line(&mut lines, domains_line(domains, source));
    let mut line: String = "口径        ".to_owned();
    line.append(common.mode.name());
    line.append("，预热 ");
    line.append(count_text(common.warmup).as_str());
    line.append(" 次，每组合计时 ");
    line.append(count_text(common.rounds).as_str());
    line.append(" 次");
    add_line(&mut lines, line);
    let mut line: String = "统一超时    ".to_owned();
    line.append(limit);
    add_line(&mut lines, line);
    let mut line: String = "被测组合    ".to_owned();
    line.append(count_text(targets).as_str());
    line.append(" 个（");
    line.append(count_text(providers).as_str());
    line.append(" 家 × 最多 ");
    line.append(count_text(common.protos.len()).as_str());
    line.append(" 种协议）");
    add_line(&mut lines, line);
    add_line(&mut lines, "".to_owned());
    lines
}

} // verus!
