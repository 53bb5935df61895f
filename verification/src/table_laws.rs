//! What the table, the lists of failures and the list of targets come to, line by line.

use vstd::prelude::*;

use crate::number::decimal;
use crate::proto::Proto;
use crate::providers::TargetView;
use crate::render::{
    cell_text, failure_detail, failure_entries, failure_entry, failure_heading, failure_hints, failures, has_failed,
    heading_cells, is_warned, legend, list_hints, listed_target, listed_targets, report_from, row_cells, table_rows,
    target_labels, target_list, warning, warning_entries, warning_entry, warning_heading, warnings, widest,
};
use crate::report::{LatencyTexts, Report};
use crate::text::{columns, flush_right, padded, truncated};

verus! {

// ---------------------------------------------------------------------------
// The table
// ---------------------------------------------------------------------------

/// The widest of a list is as wide as one of its texts, or as the least width asked for.
pub proof fn the_widest_is_reached(list: Seq<Seq<char>>, floor: nat)
    ensures
        widest(list, floor) >= floor,
        forall|i: int| 0 <= i < list.len() ==> columns(#[trigger] list[i]) <= widest(list, floor),
        widest(list, floor) == floor || exists|i: int|
            0 <= i < list.len() && columns(#[trigger] list[i]) == widest(list, floor),
    decreases list.len(),
{
    if list.len() > 0 {
        let rest = list.drop_last();
        the_widest_is_reached(rest, floor);
        assert forall|i: int| 0 <= i < list.len() implies columns(#[trigger] list[i]) <= widest(list, floor) by {
            if i < rest.len() {
                assert(rest[i] == list[i]);
            }
        }
        assert(list[list.len() - 1] == list.last());
        if widest(rest, floor) != floor {
            let i = choose|i: int| 0 <= i < rest.len() && columns(#[trigger] rest[i]) == widest(rest, floor);
            assert(columns(list[i]) == widest(rest, floor));
        }
    }
}

/// A cell is about the first report on its provider and protocol; there is none
/// exactly where no report is on both.
pub proof fn the_first_report_is_found(reports: Seq<Report>, provider: Seq<char>, proto: Proto, from: int)
    requires
        0 <= from <= reports.len(),
    ensures
        report_from(reports, provider, proto, from) is None <==> forall|i: int|
            from <= i < reports.len() ==> !((#[trigger] reports[i]).group@ == provider && reports[i].proto == proto),
        report_from(reports, provider, proto, from) matches Some(k) ==> from <= k < reports.len()
            && reports[k].group@ == provider && reports[k].proto == proto && forall|i: int|
            from <= i < k ==> !((#[trigger] reports[i]).group@ == provider && reports[i].proto == proto),
    decreases reports.len() - from,
{
    if from < reports.len() {
        the_first_report_is_found(reports, provider, proto, from + 1);
        assert(reports[from].group@ == provider && reports[from].proto == proto || !(reports[from].group@ == provider
            && reports[from].proto == proto));
    }
}

/// A cell holds the median exactly where there are samples, a cross where there is
/// a report without any, and a dot where there is no report; a tilde before the
/// median or the cross marks what was only tried.
pub proof fn cells_say_what_came(
    reports: Seq<Report>,
    stats: Seq<LatencyTexts>,
    tried: Seq<(Seq<char>, Proto)>,
    provider: Seq<char>,
    proto: Proto,
    k: int,
)
    ensures
        (forall|i: int|
            0 <= i < reports.len() ==> !((#[trigger] reports[i]).group@ == provider && reports[i].proto == proto))
            ==> cell_text(reports, stats, tried, provider, proto) == "·"@,
        0 <= k < reports.len() && reports[k].group@ == provider && reports[k].proto == proto && (forall|i: int|
            0 <= i < k ==> !((#[trigger] reports[i]).group@ == provider && reports[i].proto == proto)) ==> ({
            let marked = exists|i: int| 0 <= i < tried.len() && #[trigger] tried[i] == (provider, proto);
            let cell = cell_text(reports, stats, tried, provider, proto);
            &&& reports[k].samples@.len() > 0 && !marked ==> cell == stats[k].p50@
            &&& reports[k].samples@.len() > 0 && marked ==> cell == "~"@ + stats[k].p50@
            &&& reports[k].samples@.len() == 0 && !marked ==> cell == "✗"@
            &&& reports[k].samples@.len() == 0 && marked ==> cell == "~✗"@
        }),
{
    the_first_report_is_found(reports, provider, proto, 0);
    if 0 <= k < reports.len() && reports[k].group@ == provider && reports[k].proto == proto && (forall|i: int|
        0 <= i < k ==> !((#[trigger] reports[i]).group@ == provider && reports[i].proto == proto)) {
        let found = report_from(reports, provider, proto, 0);
        assert(found is Some);
        let n = found->0;
        if n < k {
            assert(reports[n].group@ == provider);
        }
        if k < n {
            assert(reports[k].group@ == provider);
        }
    }
}

/// Columns follow each other, eleven columns wide, with their texts at the right.
pub proof fn columns_follow_each_other(
    reports: Seq<Report>,
    stats: Seq<LatencyTexts>,
    tried: Seq<(Seq<char>, Proto)>,
    provider: Seq<char>,
    protos: Seq<Proto>,
    p: Proto,
)
    ensures
        heading_cells(Seq::empty()).len() == 0,
        row_cells(reports, stats, tried, provider, Seq::empty()).len() == 0,
        heading_cells(protos.push(p)) == heading_cells(protos) + flush_right(p.label_text(), 11),
        row_cells(reports, stats, tried, provider, protos.push(p)) == row_cells(
            reports,
            stats,
            tried,
            provider,
            protos,
        ) + flush_right(cell_text(reports, stats, tried, provider, p), 11),
{
    assert(protos.push(p).drop_last() =~= protos);
}

/// There is a row for each provider, in order, which begins with its name.
pub proof fn rows_are_one_for_each(
    reports: Seq<Report>,
    stats: Seq<LatencyTexts>,
    tried: Seq<(Seq<char>, Proto)>,
    providers: Seq<Seq<char>>,
    protos: Seq<Proto>,
    name_width: nat,
    i: int,
)
    requires
        0 <= i < providers.len(),
    ensures
        table_rows(reports, stats, tried, providers, protos, name_width).len() == providers.len(),
        table_rows(reports, stats, tried, providers, protos, name_width)[i] == padded(providers[i], name_width)
            + row_cells(reports, stats, tried, providers[i], protos),
{
}

/// The lines above the table.
pub proof fn the_legend_is_this()
    ensures
        legend() == seq![
            "══════════════════════════════════════════════════════════════"@,
            "【服务商 × 协议 矩阵】单元格 = p50 毫秒"@,
            "  ·  该家没有提供这个协议（也没探测）"@,
            "  ✗  有端点但每次都失败（原因见下面的清单）"@,
            "  ~  该格是 --probe 试行出来的，失败属正常"@,
            ""@,
        ],
{
}

// ---------------------------------------------------------------------------
// Failures and warnings
// ---------------------------------------------------------------------------

/// What is said of a target that failed: how many of its queries timed out, and
/// why, by its first error as far as 70 columns go, or else by its timeouts; and
/// below that the trouble while warming up, if there was any.
pub proof fn failures_say_why(r: Report, limit: Seq<char>)
    ensures
        has_failed(r) <==> r.samples@.len() == 0 && r.tally.ok + r.tally.empty + r.tally.timeout
            + r.tally.errors.total() > 0,
        r.tally.first_error matches Some(e) ==> failure_detail(r, limit) == truncated(e@, 70),
        r.tally.first_error is None && r.tally.timeout > 0 ==> failure_detail(r, limit) == limit
            + " 内无响应（每条都超时）"@,
        r.tally.first_error is None && r.tally.timeout == 0 ==> failure_detail(r, limit) == "?"@,
        failure_entry(r, limit).len() == (if r.tally.warmup_note is Some { 2int } else { 1 }),
        failure_entry(r, limit)[0] == "  "@ + padded(r.label@, 34) + "  超时 "@ + (decimal(r.tally.timeout as nat) + "/"@
            + decimal(
            (r.tally.ok + r.tally.empty + r.tally.timeout + r.tally.errors.total()) as nat,
        )) + "  "@ + failure_detail(r, limit),
        r.tally.warmup_note matches Some(n) ==> failure_entry(r, limit)[1] == "      ⚠️ "@ + n@,
{
}

/// Every target that failed is listed, in order, and no other; there is a heading
/// and advice exactly if there is something to list.
pub proof fn all_failures_are_listed(reports: Seq<Report>, r: Report, limit: Seq<char>)
    ensures
        failures(Seq::empty(), limit).len() == 0,
        failure_entries(Seq::empty(), limit).len() == 0,
        has_failed(r) ==> failure_entries(reports.push(r), limit) == failure_entries(reports, limit) + failure_entry(
            r,
            limit,
        ),
        !has_failed(r) ==> failure_entries(reports.push(r), limit) == failure_entries(reports, limit),
        failures(reports, limit).len() == 0 <==> failure_entries(reports, limit).len() == 0,
        failure_entries(reports, limit).len() > 0 ==> failures(reports, limit) == failure_heading() + failure_entries(
            reports,
            limit,
        ) + failure_hints(),
        failure_entries(reports, limit).len() == 0 <==> forall|i: int|
            0 <= i < reports.len() ==> !has_failed(#[trigger] reports[i]),
    decreases reports.len(),
{
    assert(reports.push(r).drop_last() =~= reports);
    if reports.len() > 0 {
        let rest = reports.drop_last();
        all_failures_are_listed(rest, reports.last(), limit);
        assert(rest.push(reports.last()) =~= reports);
        assert forall|i: int| 0 <= i < rest.len() implies rest[i] == #[trigger] reports[i] by {}
        assert(reports[reports.len() - 1] == reports.last());
        if forall|i: int| 0 <= i < reports.len() ==> !has_failed(#[trigger] reports[i]) {
            assert forall|i: int| 0 <= i < rest.len() implies !has_failed(#[trigger] rest[i]) by {
                assert(!has_failed(reports[i]));
            }
        }
        if failure_entries(reports, limit).len() == 0 {
            assert forall|i: int| 0 <= i < reports.len() implies !has_failed(#[trigger] reports[i]) by {
                if i < rest.len() {
                    assert(!has_failed(rest[i]));
                }
            }
        }
    }
}

/// Every target with trouble while warming up is warned of by name, in order; where
/// failures are listed already, only those that did not fail.
pub proof fn all_warnings_are_listed(reports: Seq<Report>, r: Report, failures_too: bool)
    ensures
        is_warned(r, true) <==> r.tally.warmup_note is Some,
        is_warned(r, false) <==> r.tally.warmup_note is Some && !has_failed(r),
        r.tally.warmup_note matches Some(n) ==> warning_entry(r) == seq!["  "@ + r.label@, "      ⚠️ "@ + n@],
        warning_entries(Seq::empty(), failures_too).len() == 0,
        is_warned(r, failures_too) ==> warning_entries(reports.push(r), failures_too) == warning_entries(
            reports,
            failures_too,
        ) + warning_entry(r),
        !is_warned(r, failures_too) ==> warning_entries(reports.push(r), failures_too) == warning_entries(
            reports,
            failures_too,
        ),
        warnings(reports, failures_too).len() == 0 <==> warning_entries(reports, failures_too).len() == 0,
        warning_entries(reports, failures_too).len() > 0 ==> warnings(reports, failures_too) == warning_heading()
            + warning_entries(reports, failures_too),
{
    assert(reports.push(r).drop_last() =~= reports);
}

/// The lines around failures and warnings.
pub proof fn headings_are_these(note: Seq<char>)
    ensures
        warning(note) == "      ⚠️ "@ + note,
        failure_heading() == seq![
            ""@,
            "──────────────────────────────────────────────────────────────"@,
            "全部失败的组合（首条错误）"@,
        ],
        warning_heading() == seq![
            ""@,
            "──────────────────────────────────────────────────────────────"@,
            "预热失败的组合（热口径退化成了冷口径，数字会偏高）"@,
        ],
        failure_hints() == seq![
            ""@,
            "  提示：明文 UDP / QUIC 系（DoQ、DoH3）走 UDP，被网络屏蔽时表现为「静默丢包 → 超时」；"@,
            "        DoT / DoH 走 TCP，被屏蔽时通常更快报错（connection refused / reset）。"@,
            "        超时不等于「这家不支持这个协议」——也可能是你的网络到它这条路径不通。"@,
            "        想区分「只是慢」和「真的不通」，用 --timeout 10 放宽再跑一次：能通就是慢，依然超时就是不通。"@,
        ],
{
}

// ---------------------------------------------------------------------------
// The list of targets
// ---------------------------------------------------------------------------

/// Each target is listed by its name, where it is reached, and a mark if it is only
/// tried, in order and in a column as wide as the widest name.
pub proof fn targets_are_listed(targets: Seq<TargetView>, with_backups: bool, probe: bool, i: int)
    requires
        0 <= i < targets.len(),
    ensures
        ({
            let t = targets[i];
            let wide = widest(target_labels(targets), 30) + 2;
            let list = target_list(targets, with_backups, probe);
            &&& target_labels(targets).len() == targets.len()
            &&& target_labels(targets)[i] == t.provider + " / "@ + t.proto.label_text()
            &&& list.len() == 2 + targets.len() + (if probe { 3int } else { 4 })
            &&& list[0] == "被测组合（--only 用「名字里包含」匹配，可逗号分隔多个）："@
            &&& list[1] == ""@
            &&& list[2 + i] == listed_target(t, wide)
            &&& t.speculative ==> listed_target(t, wide) == "  "@ + padded(
                t.provider + " / "@ + t.proto.label_text(),
                wide,
            ) + " "@ + t.endpoint.description() + " "@ + "~试探"@
            &&& !t.speculative ==> listed_target(t, wide) == "  "@ + padded(
                t.provider + " / "@ + t.proto.label_text(),
                wide,
            ) + " "@ + t.endpoint.description() + " "@
            &&& list.skip(2 + targets.len() as int) == list_hints(with_backups, probe)
        }),
{
    reveal_strlit("");
    let t = targets[i];
    let wide = widest(target_labels(targets), 30) + 2;
    let list = target_list(targets, with_backups, probe);
    assert(listed_targets(targets, wide).len() == targets.len());
    assert(list.skip(2 + targets.len() as int) =~= list_hints(with_backups, probe));
    if !t.speculative {
        assert(listed_target(t, wide) =~= "  "@ + padded(t.provider + " / "@ + t.proto.label_text(), wide) + " "@
            + t.endpoint.description() + " "@);
    }
}

/// The lines below the list say what can be asked for beyond it.
pub proof fn hints_say_what_is_left(with_backups: bool, probe: bool)
    ensures
        list_hints(with_backups, probe)[0] == ""@,
        list_hints(with_backups, probe)[1] == (if with_backups {
            "提示        以上含各家的备用地址（--with-backups 已打开）"@
        } else {
            "提示        加 --with-backups 会多出各家的备用地址（本次未列出）"@
        }),
        !probe ==> list_hints(with_backups, probe)[2]
            == "            加 --probe 会额外试探各家的未声明协议（主要用来确认 DoQ 支持情况）"@,
        list_hints(with_backups, probe).last()
            == "            所有明文地址都是官方公布的公众 DNS，默认取「纯净版」（不做内容拦截）"@,
        list_hints(with_backups, probe).len() == (if probe { 3int } else { 4 }),
{
}

} // verus!
