//! The lines of the report that compares providers.

use vstd::prelude::*;

use crate::proto::Proto;
use crate::providers::{cell_views, is_tried, target_views, Target, TargetView};
use crate::report::{add_line, ratio, ratio_text, LatencyTexts, Report};
use crate::scan::{begins_with, same_text};
use crate::text::{
    cell_right, char_columns, columns, columns_of_concat, display_width, flush_right, pad_to, padded,
    padding_aligns, text_in, texts, truncate, truncated,
};

verus! {

/// Columns of a cell of the table.
pub const CELL: usize = 11;

// ---------------------------------------------------------------------------
// Widths
// ---------------------------------------------------------------------------

/// The columns of the widest of `list`, and at least `floor`.
pub open spec fn widest(list: Seq<Seq<char>>, floor: nat) -> nat
    decreases list.len(),
{
    if list.len() == 0 {
        floor
    } else {
        let before = widest(list.drop_last(), floor);
        if columns(list.last()) > before {
            columns(list.last())
        } else {
            before
        }
    }
}

/// The columns of the widest of `list`, and at least `floor`.
pub fn widest_of(list: &Vec<String>, floor: usize) -> (r: usize)
    ensures
        r == widest(texts(list@), floor as nat),
{
    let ghost all = texts(list@);
    let mut w: usize = floor;
    let mut i: usize = 0;
    while i < list.len()
        invariant
            i <= list@.len(),
            all == texts(list@),
            w == widest(all.take(i as int), floor as nat),
        decreases list@.len() - i,
    {
        assert(all.take(i + 1).drop_last() =~= all.take(i as int));
        assert(all.take(i + 1).last() == list@[i as int]@);
        let c: usize = display_width(list[i].as_str());
        if c > w {
            w = c;
        }
        i += 1;
    }
    assert(all.take(all.len() as int) =~= all);
    w
}

/// No entry is wider than the widest.
pub proof fn nothing_is_wider(list: Seq<Seq<char>>, floor: nat, i: int)
    requires
        0 <= i < list.len(),
    ensures
        columns(list[i]) <= widest(list, floor),
        floor <= widest(list, floor),
    decreases list.len(),
{
    if i < list.len() - 1 {
        assert(list.drop_last()[i] == list[i]);
        nothing_is_wider(list.drop_last(), floor, i);
    } else {
        floor_is_kept(list, floor);
    }
}

proof fn floor_is_kept(list: Seq<Seq<char>>, floor: nat)
    ensures
        floor <= widest(list, floor),
    decreases list.len(),
{
    if list.len() > 0 {
        floor_is_kept(list.drop_last(), floor);
    }
}

// ---------------------------------------------------------------------------
// The table of providers and protocols
// ---------------------------------------------------------------------------

/// The first report on a provider by a protocol, from position `from` on.
pub open spec fn report_from(reports: Seq<Report>, provider: Seq<char>, proto: Proto, from: int) -> Option<int>
    decreases reports.len() - from,
{
    if from < 0 || from >= reports.len() {
        None
    } else if reports[from].group@ == provider && reports[from].proto == proto {
        Some(from)
    } else {
        report_from(reports, provider, proto, from + 1)
    }
}

/// A cell: a dot where nothing was asked, a cross where nothing came, or else
/// the median. A tilde marks what was only tried.
pub open spec fn cell_text(
    reports: Seq<Report>,
    stats: Seq<LatencyTexts>,
    tried: Seq<(Seq<char>, Proto)>,
    provider: Seq<char>,
    proto: Proto,
) -> Seq<char> {
    let is_tried = tried.contains((provider, proto));
    match report_from(reports, provider, proto, 0) {
        None => "·"@,
        Some(i) => if reports[i].samples@.len() > 0 {
            if is_tried {
                "~"@ + stats[i].p50@
            } else {
                stats[i].p50@
            }
        } else {
            if is_tried {
                "~✗"@
            } else {
                "✗"@
            }
        },
    }
}

/// The headings of the columns.
pub open spec fn heading_cells(protos: Seq<Proto>) -> Seq<char>
    decreases protos.len(),
{
    if protos.len() == 0 {
        Seq::empty()
    } else {
        heading_cells(protos.drop_last()) + flush_right(protos.last().label_text(), CELL as nat)
    }
}

/// The cells of a row.
pub open spec fn row_cells(
    reports: Seq<Report>,
    stats: Seq<LatencyTexts>,
    tried: Seq<(Seq<char>, Proto)>,
    provider: Seq<char>,
    protos: Seq<Proto>,
) -> Seq<char>
    decreases protos.len(),
{
    if protos.len() == 0 {
        Seq::empty()
    } else {
        row_cells(reports, stats, tried, provider, protos.drop_last()) + flush_right(
            cell_text(reports, stats, tried, provider, protos.last()),
            CELL as nat,
        )
    }
}

/// The lines above the table.
pub open spec fn legend() -> Seq<Seq<char>> {
    seq![
        "══════════════════════════════════════════════════════════════"@,
        "【服务商 × 协议 矩阵】单元格 = p50 毫秒"@,
        "  ·  该家没有提供这个协议（也没探测）"@,
        "  ✗  有端点但每次都失败（原因见下面的清单）"@,
        "  ~  该格是 --probe 试行出来的，失败属正常"@,
        ""@,
    ]
}

/// The rows of the table.
pub open spec fn table_rows(
    reports: Seq<Report>,
    stats: Seq<LatencyTexts>,
    tried: Seq<(Seq<char>, Proto)>,
    providers: Seq<Seq<char>>,
    protos: Seq<Proto>,
    name_width: nat,
) -> Seq<Seq<char>> {
    providers.map_values(
        |p: Seq<char>| padded(p, name_width) + row_cells(reports, stats, tried, p, protos),
    )
}

/// The first report on a provider by a protocol.
fn find_report(reports: &Vec<Report>, provider: &str, proto: Proto) -> (r: Option<usize>)
    ensures
        match r {
            Some(i) => report_from(reports@, provider@, proto, 0) == Some(i as int) && i < reports@.len(),
            None => report_from(reports@, provider@, proto, 0) is None,
        },
{
    let mut i: usize = 0;
    while i < reports.len()
        invariant
            i <= reports@.len(),
            report_from(reports@, provider@, proto, 0) == report_from(reports@, provider@, proto, i as int),
        decreases reports@.len() - i,
    {
        if same_text(reports[i].group.as_str(), provider) && reports[i].proto == proto {
            return Some(i);
        }
        i += 1;
    }
    None
}

/// A cell of the table.
fn cell(
    reports: &Vec<Report>,
    stats: &Vec<LatencyTexts>,
    tried: &Vec<(String, Proto)>,
    provider: &str,
    proto: Proto,
) -> (r: String)
    requires
        stats@.len() == reports@.len(),
    ensures
        r@ == cell_text(reports@, stats@, cell_views(tried@), provider@, proto),
{
    let only_tried = is_tried(tried, provider, proto);
    match find_report(reports, provider, proto) {
        None => "·".to_owned(),
        Some(i) => {
            if reports[i].has_samples() {
                if only_tried {
                    let mut out: String = "~".to_owned();
                    out.append(stats[i].p50.as_str());
                    out
                } else {
                    stats[i].p50.clone()
                }
            } else if only_tried {
                "~✗".to_owned()
            } else {
                "✗".to_owned()
            }
        },
    }
}

/// One row of the table.
fn row(
    reports: &Vec<Report>,
    stats: &Vec<LatencyTexts>,
    tried: &Vec<(String, Proto)>,
    provider: &str,
    protos: &Vec<Proto>,
    name_width: usize,
) -> (r: String)
    requires
        stats@.len() == reports@.len(),
    ensures
        r@ == padded(provider@, name_width as nat) + row_cells(
            reports@,
            stats@,
            cell_views(tried@),
            provider@,
            protos@,
        ),
{
    let mut out = pad_to(provider, name_width);
    let mut i: usize = 0;
    assert(out@ =~= padded(provider@, name_width as nat) + row_cells(
        reports@,
        stats@,
        cell_views(tried@),
        provider@,
        protos@.take(0),
    ));
    while i < protos.len()
        invariant
            i <= protos@.len(),
            stats@.len() == reports@.len(),
            out@ == padded(provider@, name_width as nat) + row_cells(
                reports@,
                stats@,
                cell_views(tried@),
                provider@,
                protos@.take(i as int),
            ),
        decreases protos@.len() - i,
    {
        let ghost before = row_cells(reports@, stats@, cell_views(tried@), provider@, protos@.take(i as int));
        assert(protos@.take(i + 1).drop_last() =~= protos@.take(i as int));
        let text = cell(reports, stats, tried, provider, protos[i]);
        let shown = cell_right(text.as_str(), CELL);
        out.append(shown.as_str());
        assert(padded(provider@, name_width as nat) + before + shown@ =~= padded(provider@, name_width as nat)
            + (before + shown@));
        i += 1;
    }
    assert(protos@.take(protos@.len() as int) =~= protos@);
    out
}

/// The heading of the table.
fn heading(protos: &Vec<Proto>, name_width: usize) -> (r: String)
    ensures
        r@ == padded("服务商"@, name_width as nat) + heading_cells(protos@),
{
    let mut out = pad_to("服务商", name_width);
    let ghost name = padded("服务商"@, name_width as nat);
    let mut i: usize = 0;
    assert(out@ =~= name + heading_cells(protos@.take(0)));
    while i < protos.len()
        invariant
            i <= protos@.len(),
            out@ == name + heading_cells(protos@.take(i as int)),
        decreases protos@.len() - i,
    {
        let ghost before = heading_cells(protos@.take(i as int));
        assert(protos@.take(i + 1).drop_last() =~= protos@.take(i as int));
        let shown = cell_right(protos[i].label(), CELL);
        out.append(shown.as_str());
        assert(name + before + shown@ =~= name + (before + shown@));
        i += 1;
    }
    assert(protos@.take(protos@.len() as int) =~= protos@);
    out
}

/// The table of providers and protocols, with the medians as texts beside the reports.
pub fn matrix_lines(
    reports: &Vec<Report>,
    stats: &Vec<LatencyTexts>,
    providers: &Vec<String>,
    protos: &Vec<Proto>,
    speculative: &Vec<(String, Proto)>,
) -> (r: Vec<String>)
    requires
        stats@.len() == reports@.len(),
        widest(texts(providers@), 12) + 2 <= usize::MAX,
    ensures
        texts(r@) == legend().push(
            padded("服务商"@, widest(texts(providers@), 12) + 2) + heading_cells(protos@),
        ) + table_rows(
            reports@,
            stats@,
            cell_views(speculative@),
            texts(providers@),
            protos@,
            widest(texts(providers@), 12) + 2,
        ),
{
    let name_width: usize = widest_of(providers, 12) + 2;
    let mut lines: Vec<String> = Vec::new();
    add_line(&mut lines, "══════════════════════════════════════════════════════════════".to_owned());
    add_line(&mut lines, "【服务商 × 协议 矩阵】单元格 = p50 毫秒".to_owned());
    add_line(&mut lines, "  ·  该家没有提供这个协议（也没探测）".to_owned());
    add_line(&mut lines, "  ✗  有端点但每次都失败（原因见下面的清单）".to_owned());
    add_line(&mut lines, "  ~  该格是 --probe 试行出来的，失败属正常".to_owned());
    add_line(&mut lines, "".to_owned());
    assert(texts(lines@) =~= legend());
    add_line(&mut lines, heading(protos, name_width));
    let ghost top = texts(lines@);
    let ghost rows = table_rows(
        reports@,
        stats@,
        cell_views(speculative@),
        texts(providers@),
        protos@,
        name_width as nat,
    );
    assert(top + rows.take(0) =~= top);
    let mut i: usize = 0;
    while i < providers.len()
        invariant
            i <= providers@.len(),
            stats@.len() == reports@.len(),
            rows == table_rows(
                reports@,
                stats@,
                cell_views(speculative@),
                texts(providers@),
                protos@,
                name_width as nat,
            ),
            texts(lines@) == top + rows.take(i as int),
        decreases providers@.len() - i,
    {
        let line = row(reports, stats, speculative, providers[i].as_str(), protos, name_width);
        assert(texts(providers@)[i as int] == providers@[i as int]@);
        assert(rows[i as int] == line@);
        add_line(&mut lines, line);
        assert((top + rows.take(i as int)).push(rows[i as int]) =~= top + rows.take(i + 1));
        i += 1;
    }
    assert(rows.take(rows.len() as int) =~= rows);
    lines
}

/// The cells of a row are as wide together as their number says, if each is narrow enough.
proof fn cells_line_up(
    reports: Seq<Report>,
    stats: Seq<LatencyTexts>,
    tried: Seq<(Seq<char>, Proto)>,
    provider: Seq<char>,
    protos: Seq<Proto>,
)
    requires
        forall|p: Proto| #[trigger] protos.contains(p) ==> columns(
            cell_text(reports, stats, tried, provider, p),
        ) <= CELL,
    ensures
        columns(row_cells(reports, stats, tried, provider, protos)) == CELL * protos.len(),
        columns(heading_cells(protos)) == CELL * protos.len(),
    decreases protos.len(),
{
    if protos.len() > 0 {
        let rest = protos.drop_last();
        let p = protos.last();
        assert(protos.contains(p));
        assert forall|q: Proto| #[trigger] rest.contains(q) implies columns(
            cell_text(reports, stats, tried, provider, q),
        ) <= CELL by {
            let i = rest.index_of(q);
            assert(protos[i] == q);
            assert(protos.contains(q));
        }
        cells_line_up(reports, stats, tried, provider, rest);
        let cell = cell_text(reports, stats, tried, provider, p);
        padding_aligns(cell, CELL as nat);
        padding_aligns(p.label_text(), CELL as nat);
        labels_are_narrow(p);
        columns_of_concat(row_cells(reports, stats, tried, provider, rest), flush_right(cell, CELL as nat));
        columns_of_concat(heading_cells(rest), flush_right(p.label_text(), CELL as nat));
        assert(CELL * protos.len() == CELL * rest.len() + CELL) by (nonlinear_arith)
            requires
                protos.len() == rest.len() + 1,
        ;
    }
}

/// The label of a protocol fits into a cell.
proof fn labels_are_narrow(p: Proto)
    ensures
        columns(p.label_text()) <= CELL,
{
    reveal_strlit("UDP/53");
    reveal_strlit("DoT/853");
    reveal_strlit("DoH-h2");
    reveal_strlit("DoH3");
    reveal_strlit("DoQ/853");
    narrow_enough(p.label_text());
}

/// ASCII text is as wide as it is long.
proof fn narrow_enough(s: Seq<char>)
    requires
        forall|i: int| 0 <= i < s.len() ==> char_columns(#[trigger] s[i]) == 1,
    ensures
        columns(s) == s.len(),
    decreases s.len(),
{
    if s.len() > 0 {
        narrow_enough(s.drop_last());
    }
}

/// The columns of the table line up: the heading and every row are equally wide,
/// as long as every cell of the row is narrow enough for its column.
pub proof fn rows_line_up(
    reports: Seq<Report>,
    stats: Seq<LatencyTexts>,
    tried: Seq<(Seq<char>, Proto)>,
    providers: Seq<Seq<char>>,
    protos: Seq<Proto>,
    i: int,
)
    requires
        0 <= i < providers.len(),
        forall|p: Proto| #[trigger] protos.contains(p) ==> columns(
            cell_text(reports, stats, tried, providers[i], p),
        ) <= CELL,
    ensures
        ({
            let name_width = widest(providers, 12) + 2;
            &&& columns(table_rows(reports, stats, tried, providers, protos, name_width)[i]) == name_width + CELL
                * protos.len()
            &&& columns(padded("服务商"@, name_width) + heading_cells(protos)) == name_width + CELL * protos.len()
        }),
{
    let name_width = widest(providers, 12) + 2;
    nothing_is_wider(providers, 12, i);
    cells_line_up(reports, stats, tried, providers[i], protos);
    padding_aligns(providers[i], name_width);
    columns_of_concat(
        padded(providers[i], name_width),
        row_cells(reports, stats, tried, providers[i], protos),
    );
    reveal_strlit("服务商");
    reveal_with_fuel(columns, 4);
    padding_aligns("服务商"@, name_width);
    columns_of_concat(padded("服务商"@, name_width), heading_cells(protos));
}

// ---------------------------------------------------------------------------
// What failed altogether, and what failed to warm up
// ---------------------------------------------------------------------------

/// Whether a target was asked and gave no sample.
pub open spec fn has_failed(r: Report) -> bool {
    r.samples@.len() == 0 && r.tally.attempts_sum() > 0
}

/// Why a target gave no sample.
pub open spec fn failure_detail(r: Report, limit: Seq<char>) -> Seq<char> {
    match text_in(r.tally.first_error) {
        Some(d) => truncated(d, 70),
        None => if r.tally.timeout > 0 {
            limit + " 内无响应（每条都超时）"@
        } else {
            "?"@
        },
    }
}

/// The line that warns of trouble while warming up.
pub open spec fn warning(note: Seq<char>) -> Seq<char> {
    "      ⚠️ "@ + note
}

/// The lines on a target that gave no sample.
pub open spec fn failure_entry(r: Report, limit: Seq<char>) -> Seq<Seq<char>> {
    let line = "  "@ + padded(r.label@, 34) + "  超时 "@ + ratio(
        r.tally.timeout as nat,
        r.tally.attempts_sum(),
    ) + "  "@ + failure_detail(r, limit);
    match text_in(r.tally.warmup_note) {
        Some(note) => seq![line, warning(note)],
        None => seq![line],
    }
}

/// The lines on all targets that gave no sample.
pub open spec fn failure_entries(reports: Seq<Report>, limit: Seq<char>) -> Seq<Seq<char>>
    decreases reports.len(),
{
    if reports.len() == 0 {
        Seq::empty()
    } else if has_failed(reports.last()) {
        failure_entries(reports.drop_last(), limit) + failure_entry(reports.last(), limit)
    } else {
        failure_entries(reports.drop_last(), limit)
    }
}

/// The lines above the failures.
pub open spec fn failure_heading() -> Seq<Seq<char>> {
    seq![
        ""@,
        "──────────────────────────────────────────────────────────────"@,
        "全部失败的组合（首条错误）"@,
    ]
}

/// The lines below the failures.
pub open spec fn failure_hints() -> Seq<Seq<char>> {
    seq![
        ""@,
        "  提示：明文 UDP / QUIC 系（DoQ、DoH3）走 UDP，被网络屏蔽时表现为「静默丢包 → 超时」；"@,
        "        DoT / DoH 走 TCP，被屏蔽时通常更快报错（connection refused / reset）。"@,
        "        超时不等于「这家不支持这个协议」——也可能是你的网络到它这条路径不通。"@,
        "        想区分「只是慢」和「真的不通」，用 --timeout 10 放宽再跑一次：能通就是慢，依然超时就是不通。"@,
    ]
}

/// Whether a target is in the list of those that failed to warm up. Where the
/// failures are listed already, they carry their own warnings.
pub open spec fn is_warned(r: Report, failures_too: bool) -> bool {
    r.tally.warmup_note is Some && (failures_too || !has_failed(r))
}

/// The lines on a target that failed to warm up.
pub open spec fn warning_entry(r: Report) -> Seq<Seq<char>> {
    match text_in(r.tally.warmup_note) {
        Some(note) => seq!["  "@ + r.label@, warning(note)],
        None => Seq::empty(),
    }
}

/// The lines on all targets that failed to warm up.
pub open spec fn warning_entries(reports: Seq<Report>, failures_too: bool) -> Seq<Seq<char>>
    decreases reports.len(),
{
    if reports.len() == 0 {
        Seq::empty()
    } else if is_warned(reports.last(), failures_too) {
        warning_entries(reports.drop_last(), failures_too) + warning_entry(reports.last())
    } else {
        warning_entries(reports.drop_last(), failures_too)
    }
}

/// The lines above the warnings.
pub open spec fn warning_heading() -> Seq<Seq<char>> {
    seq![
        ""@,
        "──────────────────────────────────────────────────────────────"@,
        "预热失败的组合（热口径退化成了冷口径，数字会偏高）"@,
    ]
}

/// The list of targets that failed to warm up, whose timings include the cost of
/// connecting; empty if there is none.
pub open spec fn warnings(reports: Seq<Report>, failures_too: bool) -> Seq<Seq<char>> {
    let entries = warning_entries(reports, failures_too);
    if entries.len() == 0 {
        Seq::empty()
    } else {
        warning_heading() + entries
    }
}

/// The list of targets that gave no sample; empty if there is none. `limit` is the timeout in words.
pub open spec fn failures(reports: Seq<Report>, limit: Seq<char>) -> Seq<Seq<char>> {
    let entries = failure_entries(reports, limit);
    if entries.len() == 0 {
        Seq::empty()
    } else {
        failure_heading() + entries + failure_hints()
    }
}

/// Why a target gave no sample.
fn detail_of(r: &Report, limit: &str) -> (text: String)
    ensures
        text@ == failure_detail(*r, limit@),
{
    match &r.tally.first_error {
        Some(d) => truncate(d.as_str(), 70),
        None => {
            if r.tally.timeout > 0 {
                let mut out: String = limit.to_owned();
                out.append(" 内无响应（每条都超时）");
                out
            } else {
                "?".to_owned()
            }
        },
    }
}

/// Adds the lines on a target that gave no sample.
fn add_failure(lines: &mut Vec<String>, r: &Report, limit: &str)
    requires
        r.tally.attempts_sum() <= usize::MAX,
    ensures
        texts(final(lines)@) == texts(old(lines)@) + failure_entry(*r, limit@),
{
    let mut line: String = "  ".to_owned();
    line.append(pad_to(r.label.as_str(), 34).as_str());
    line.append("  超时 ");
    line.append(ratio_text(r.tally.timeout, r.tally.attempts()).as_str());
    line.append("  ");
    line.append(detail_of(r, limit).as_str());
    add_line(lines, line);
    match &r.tally.warmup_note {
        Some(note) => {
            let mut line: String = "      ⚠️ ".to_owned();
            line.append(note.as_str());
            add_line(lines, line);
        },
        None => {},
    }
    assert(texts(lines@) =~= texts(old(lines)@) + failure_entry(*r, limit@));
}

/// Adds the list of targets that failed to warm up.
fn add_warnings(lines: &mut Vec<String>, reports: &Vec<Report>, failures_too: bool)
    requires
        failures_too || forall|i: int|
            0 <= i < reports@.len() ==> (#[trigger] reports@[i]).tally.attempts_sum() <= usize::MAX,
    ensures
        texts(final(lines)@) == texts(old(lines)@) + warnings(reports@, failures_too),
{
    let ghost upper = texts(lines@);
    let mut any = false;
    let mut i: usize = 0;
    assert(upper =~= upper + Seq::<Seq<char>>::empty());
    while i < reports.len()
        invariant
            i <= reports@.len(),
            failures_too || forall|j: int|
                0 <= j < reports@.len() ==> (#[trigger] reports@[j]).tally.attempts_sum() <= usize::MAX,
            any == (warning_entries(reports@.take(i as int), failures_too).len() > 0),
            texts(lines@) == upper + (if any {
                warning_heading() + warning_entries(reports@.take(i as int), failures_too)
            } else {
                Seq::empty()
            }),
        decreases reports@.len() - i,
    {
        let ghost before = warning_entries(reports@.take(i as int), failures_too);
        let ghost entry = warning_entry(reports@[i as int]);
        assert(reports@.take(i + 1).drop_last() =~= reports@.take(i as int));
        match &reports[i].tally.warmup_note {
            Some(note) => {
                if failures_too || reports[i].has_samples() || reports[i].tally.attempts() == 0 {
                    if !any {
                        add_line(lines, "".to_owned());
                        add_line(
                            lines,
                            "──────────────────────────────────────────────────────────────".to_owned(),
                        );
                        add_line(lines, "预热失败的组合（热口径退化成了冷口径，数字会偏高）".to_owned());
                        assert(texts(lines@) =~= upper + (warning_heading() + before));
                    }
                    let mut name: String = "  ".to_owned();
                    name.append(reports[i].label.as_str());
                    add_line(lines, name);
                    let mut line: String = "      ⚠️ ".to_owned();
                    line.append(note.as_str());
                    add_line(lines, line);
                    assert(texts(lines@) =~= upper + (warning_heading() + (before + entry)));
                    any = true;
                }
            },
            None => {},
        }
        i += 1;
    }
    assert(reports@.take(reports@.len() as int) =~= reports@);
}

/// The list of all targets that failed to warm up; empty if there is none.
pub fn warning_lines(reports: &Vec<Report>) -> (r: Vec<String>)
    ensures
        texts(r@) == warnings(reports@, true),
{
    let mut lines: Vec<String> = Vec::new();
    add_warnings(&mut lines, reports, true);
    assert(texts(lines@) =~= warnings(reports@, true));
    lines
}

/// The list of targets that gave no sample, and below it the list of the others
/// that failed to warm up; each is empty if there is none. `limit` is the timeout in words.
pub fn failure_lines(reports: &Vec<Report>, limit: &str) -> (r: Vec<String>)
    requires
        forall|i: int| 0 <= i < reports@.len() ==> (#[trigger] reports@[i]).tally.attempts_sum() <= usize::MAX,
    ensures
        texts(r@) == failures(reports@, limit@) + warnings(reports@, false),
{
    let mut lines = failed_lines(reports, limit);
    add_warnings(&mut lines, reports, false);
    lines
}

/// The list of targets that gave no sample; empty if there is none.
fn failed_lines(reports: &Vec<Report>, limit: &str) -> (r: Vec<String>)
    requires
        forall|i: int| 0 <= i < reports@.len() ==> (#[trigger] reports@[i]).tally.attempts_sum() <= usize::MAX,
    ensures
        texts(r@) == failures(reports@, limit@),
{
    let mut lines: Vec<String> = Vec::new();
    add_line(&mut lines, "".to_owned());
    add_line(&mut lines, "──────────────────────────────────────────────────────────────".to_owned());
    add_line(&mut lines, "全部失败的组合（首条错误）".to_owned());
    assert(texts(lines@) =~= failure_heading());
    let mut any = false;
    let mut i: usize = 0;
    assert(failure_heading() + failure_entries(reports@.take(0), limit@) =~= failure_heading());
    while i < reports.len()
        invariant
            i <= reports@.len(),
            forall|j: int| 0 <= j < reports@.len() ==> (#[trigger] reports@[j]).tally.attempts_sum() <= usize::MAX,
            texts(lines@) == failure_heading() + failure_entries(reports@.take(i as int), limit@),
            any == (failure_entries(reports@.take(i as int), limit@).len() > 0),
        decreases reports@.len() - i,
    {
        let ghost before = failure_entries(reports@.take(i as int), limit@);
        assert(reports@.take(i + 1).drop_last() =~= reports@.take(i as int));
        if !reports[i].has_samples() && reports[i].tally.attempts() > 0 {
            add_failure(&mut lines, &reports[i], limit);
            assert(failure_heading() + before + failure_entry(reports@[i as int], limit@)
                =~= failure_heading() + (before + failure_entry(reports@[i as int], limit@)));
            any = true;
        }
        i += 1;
    }
    assert(reports@.take(reports@.len() as int) =~= reports@);
    if !any {
        let none: Vec<String> = Vec::new();
        assert(texts(none@) =~= Seq::<Seq<char>>::empty());
        return none;
    }
    let ghost upper = texts(lines@);
    add_line(&mut lines, "".to_owned());
    add_line(
        &mut lines,
        "  提示：明文 UDP / QUIC 系（DoQ、DoH3）走 UDP，被网络屏蔽时表现为「静默丢包 → 超时」；".to_owned(),
    );
    add_line(
        &mut lines,
        "        DoT / DoH 走 TCP，被屏蔽时通常更快报错（connection refused / reset）。".to_owned(),
    );
    add_line(
        &mut lines,
        "        超时不等于「这家不支持这个协议」——也可能是你的网络到它这条路径不通。".to_owned(),
    );
    add_line(
        &mut lines,
        "        想区分「只是慢」和「真的不通」，用 --timeout 10 放宽再跑一次：能通就是慢，依然超时就是不通。"
            .to_owned(),
    );
    assert(texts(lines@) =~= upper + failure_hints());
    lines
}

/// Whether somewhere in `lines` the warning stands right below a line that begins with the label.
pub open spec fn warns_of(lines: Seq<Seq<char>>, label: Seq<char>, note: Seq<char>) -> bool {
    exists|k: int|
        0 < k < lines.len() && #[trigger] lines[k] == warning(note) && begins_with(lines[k - 1], "  "@ + label)
}

/// More lines above and below keep a warning.
proof fn warning_is_kept(
    above: Seq<Seq<char>>,
    lines: Seq<Seq<char>>,
    below: Seq<Seq<char>>,
    label: Seq<char>,
    note: Seq<char>,
)
    requires
        warns_of(lines, label, note),
    ensures
        warns_of(above + lines + below, label, note),
{
    let k = choose|k: int|
        0 < k < lines.len() && #[trigger] lines[k] == warning(note) && begins_with(lines[k - 1], "  "@ + label);
    let all = above + lines + below;
    assert(all[above.len() + k] == lines[k]);
    assert(all[above.len() + k - 1] == lines[k - 1]);
}

/// The entries on one target hold its warning.
proof fn entries_warn(r: Report, limit: Seq<char>)
    requires
        r.tally.warmup_note is Some,
    ensures
        warns_of(failure_entry(r, limit), r.label@, text_in(r.tally.warmup_note)->0),
        warns_of(warning_entry(r), r.label@, text_in(r.tally.warmup_note)->0),
{
    let label = r.label@;
    let start = "  "@ + label;
    let failure = failure_entry(r, limit);
    let entry = warning_entry(r);
    assert(failure[1] == warning(text_in(r.tally.warmup_note)->0));
    assert(failure[0].subrange(0, start.len() as int) =~= start);
    assert(entry[1] == warning(text_in(r.tally.warmup_note)->0));
    assert(entry[0].subrange(0, start.len() as int) =~= start);
}

proof fn warning_is_listed(reports: Seq<Report>, limit: Seq<char>, failures_too: bool, i: int)
    requires
        0 <= i < reports.len(),
        reports[i].tally.warmup_note is Some,
    ensures
        has_failed(reports[i]) ==> warns_of(
            failure_entries(reports, limit),
            reports[i].label@,
            text_in(reports[i].tally.warmup_note)->0,
        ),
        is_warned(reports[i], failures_too) ==> warns_of(
            warning_entries(reports, failures_too),
            reports[i].label@,
            text_in(reports[i].tally.warmup_note)->0,
        ),
    decreases reports.len(),
{
    let rest = reports.drop_last();
    let last = reports.last();
    let label = reports[i].label@;
    let note = text_in(reports[i].tally.warmup_note)->0;
    let none = Seq::<Seq<char>>::empty();
    let failed = failure_entries(rest, limit);
    let warned = warning_entries(rest, failures_too);
    if i < rest.len() {
        assert(rest[i] == reports[i]);
        warning_is_listed(rest, limit, failures_too, i);
        if has_failed(reports[i]) && has_failed(last) {
            warning_is_kept(none, failed, failure_entry(last, limit), label, note);
            assert(none + failed + failure_entry(last, limit) =~= failed + failure_entry(last, limit));
        }
        if is_warned(reports[i], failures_too) && is_warned(last, failures_too) {
            warning_is_kept(none, warned, warning_entry(last), label, note);
            assert(none + warned + warning_entry(last) =~= warned + warning_entry(last));
        }
    } else {
        entries_warn(last, limit);
        if has_failed(last) {
            warning_is_kept(failed, failure_entry(last, limit), none, label, note);
            assert(failed + failure_entry(last, limit) + none =~= failed + failure_entry(last, limit));
        }
        if is_warned(last, failures_too) {
            warning_is_kept(warned, warning_entry(last), none, label, note);
            assert(warned + warning_entry(last) + none =~= warned + warning_entry(last));
        }
    }
}

/// Every target that failed to warm up is warned of under its name, whether or
/// not it gave samples, in the report on providers and in the one on protocols.
pub proof fn failed_warmups_are_warned_of(reports: Seq<Report>, limit: Seq<char>, i: int)
    requires
        0 <= i < reports.len(),
        reports[i].tally.warmup_note is Some,
    ensures
        warns_of(
            failures(reports, limit) + warnings(reports, false),
            reports[i].label@,
            text_in(reports[i].tally.warmup_note)->0,
        ),
        warns_of(warnings(reports, true), reports[i].label@, text_in(reports[i].tally.warmup_note)->0),
{
    let label = reports[i].label@;
    let note = text_in(reports[i].tally.warmup_note)->0;
    let none = Seq::<Seq<char>>::empty();
    warning_is_listed(reports, limit, false, i);
    warning_is_listed(reports, limit, true, i);
    let all = warning_entries(reports, true);
    warning_is_kept(warning_heading(), all, none, label, note);
    assert(warning_heading() + all + none =~= warnings(reports, true));
    if has_failed(reports[i]) {
        let entries = failure_entries(reports, limit);
        warning_is_kept(failure_heading(), entries, failure_hints(), label, note);
        warning_is_kept(none, failures(reports, limit), warnings(reports, false), label, note);
        assert(none + failures(reports, limit) + warnings(reports, false) =~= failures(reports, limit) + warnings(
            reports,
            false,
        ));
    } else {
        let entries = warning_entries(reports, false);
        warning_is_kept(warning_heading(), entries, none, label, note);
        assert(warning_heading() + entries + none =~= warnings(reports, false));
        warning_is_kept(failures(reports, limit), warnings(reports, false), none, label, note);
        assert(failures(reports, limit) + warnings(reports, false) + none =~= failures(reports, limit) + warnings(
            reports,
            false,
        ));
    }
}

// ---------------------------------------------------------------------------
// The list of targets
// ---------------------------------------------------------------------------

/// The names of the targets.
pub open spec fn target_labels(targets: Seq<TargetView>) -> Seq<Seq<char>> {
    targets.map_values(|t: TargetView| t.label_text())
}

/// The line on one target.
pub open spec fn listed_target(t: TargetView, name_width: nat) -> Seq<char> {
    "  "@ + padded(t.label_text(), name_width) + " "@ + t.endpoint.description() + " "@ + (if t.speculative {
        "~试探"@
    } else {
        ""@
    })
}

/// The lines on all targets.
pub open spec fn listed_targets(targets: Seq<TargetView>, name_width: nat) -> Seq<Seq<char>> {
    targets.map_values(|t: TargetView| listed_target(t, name_width))
}

/// The lines below the list.
pub open spec fn list_hints(with_backups: bool, probe: bool) -> Seq<Seq<char>> {
    let backups = if with_backups {
        "提示        以上含各家的备用地址（--with-backups 已打开）"@
    } else {
        "提示        加 --with-backups 会多出各家的备用地址（本次未列出）"@
    };
    let tail = "            所有明文地址都是官方公布的公众 DNS，默认取「纯净版」（不做内容拦截）"@;
    if probe {
        seq![""@, backups, tail]
    } else {
        seq![
            ""@,
            backups,
            "            加 --probe 会额外试探各家的未声明协议（主要用来确认 DoQ 支持情况）"@,
            tail,
        ]
    }
}

/// The list of targets.
pub open spec fn target_list(targets: Seq<TargetView>, with_backups: bool, probe: bool) -> Seq<Seq<char>> {
    seq!["被测组合（--only 用「名字里包含」匹配，可逗号分隔多个）："@, ""@] + listed_targets(
        targets,
        widest(target_labels(targets), 30) + 2,
    ) + list_hints(with_backups, probe)
}

/// The names of the targets.
pub fn labels_of(targets: &Vec<Target>) -> (r: Vec<String>)
    ensures
        texts(r@) == target_labels(target_views(targets@)),
{
    let mut out: Vec<String> = Vec::new();
    let ghost all = target_labels(target_views(targets@));
    let mut i: usize = 0;
    assert(texts(out@) =~= all.take(0));
    while i < targets.len()
        invariant
            i <= targets@.len(),
            all == target_labels(target_views(targets@)),
            texts(out@) == all.take(i as int),
        decreases targets@.len() - i,
    {
        let label = targets[i].label();
        assert(all[i as int] == label@);
        add_line(&mut out, label);
        assert(all.take(i as int).push(all[i as int]) =~= all.take(i + 1));
        i += 1;
    }
    assert(all.take(all.len() as int) =~= all);
    out
}

/// The list of targets.
pub fn list_lines(targets: &Vec<Target>, with_backups: bool, probe: bool) -> (r: Vec<String>)
    requires
        widest(target_labels(target_views(targets@)), 30) + 2 <= usize::MAX,
    ensures
        texts(r@) == target_list(target_views(targets@), with_backups, probe),
{
    let labels = labels_of(targets);
    let name_width: usize = widest_of(&labels, 30) + 2;
    let mut lines: Vec<String> = Vec::new();
    add_line(&mut lines, "被测组合（--only 用「名字里包含」匹配，可逗号分隔多个）：".to_owned());
    add_line(&mut lines, "".to_owned());
    let ghost top = texts(lines@);
    assert(top =~= seq!["被测组合（--only 用「名字里包含」匹配，可逗号分隔多个）："@, ""@]);
    let ghost rows = listed_targets(target_views(targets@), name_width as nat);
    let mut i: usize = 0;
    assert(top + rows.take(0) =~= top);
    while i < targets.len()
        invariant
            i <= targets@.len(),
            rows == listed_targets(target_views(targets@), name_width as nat),
            texts(lines@) == top + rows.take(i as int),
        decreases targets@.len() - i,
    {
        let t = &targets[i];
        let mut line: String = "  ".to_owned();
        line.append(pad_to(t.label().as_str(), name_width).as_str());
        line.append(" ");
        line.append(t.endpoint.describe().as_str());
        line.append(" ");
        if t.speculative {
            line.append("~试探");
        } else {
            line.append("");
        }
        assert(target_views(targets@)[i as int] == targets@[i as int]@);
        assert(rows[i as int] == line@);
        add_line(&mut lines, line);
        assert((top + rows.take(i as int)).push(rows[i as int]) =~= top + rows.take(i + 1));
        i += 1;
    }
    assert(rows.take(rows.len() as int) =~= rows);
    let ghost upper = texts(lines@);
    add_line(&mut lines, "".to_owned());
    if with_backups {
        add_line(&mut lines, "提示        以上含各家的备用地址（--with-backups 已打开）".to_owned());
    } else {
        add_line(
            &mut lines,
            "提示        加 --with-backups 会多出各家的备用地址（本次未列出）".to_owned(),
        );
    }
    if !probe {
        add_line(
            &mut lines,
            "            加 --probe 会额外试探各家的未声明协议（主要用来确认 DoQ 支持情况）".to_owned(),
        );
    }
    add_line(
        &mut lines,
        "            所有明文地址都是官方公布的公众 DNS，默认取「纯净版」（不做内容拦截）".to_owned(),
    );
    assert(texts(lines@) =~= upper + list_hints(with_backups, probe));
    lines
}

} // verus!
