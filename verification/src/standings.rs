//! The lines on who is faster than whom.
//!
//! Latencies come as texts in milliseconds, written out with one decimal beside each report.

use vstd::prelude::*;

use crate::number::{align_right, count_text, decimal, right_aligned};
use crate::proto::{Mode, Proto};
use crate::providers::cell_views;
use crate::rank::{
    declared_in, first_plain_at, is_ranking, of_group, of_protocol, plain_of, rank, sampled, sampled_by, with_samples,
};
use crate::report::{add_line, ratio, ratio_text, LatencyTexts, Report};
use crate::scan::{first_occurrences, is_listed, join, joined, trim_end, trimmed_end};
use crate::text::{pad_to, padded, texts};

verus! {

/// How far the median of a report lies behind the fastest one's.
pub struct LeadTexts {
    /// Without a plus sign.
    pub plain: String,
    /// With a plus sign.
    pub signed: String,
}

// ---------------------------------------------------------------------------
// Providers by protocol
// ---------------------------------------------------------------------------

/// The line on the report at place `k` of a ranking.
pub open spec fn standing(
    order: Seq<usize>,
    reports: Seq<Report>,
    stats: Seq<LatencyTexts>,
    leads: Seq<LeadTexts>,
    rounds: nat,
    k: int,
) -> Seq<char> {
    let i = order[k] as int;
    "  "@ + decimal((k + 1) as nat) + ". "@ + padded(reports[i].group@, 20) + " p50 "@ + right_aligned(
        stats[i].p50@,
        7,
    ) + "  (+"@ + right_aligned(leads[i].plain@, 5) + ")  p90 "@ + right_aligned(stats[i].p90@, 7)
        + "  max "@ + right_aligned(stats[i].max@, 8) + "  成功 "@ + ratio(reports[i].tally.ok as nat, rounds)
}

/// The heading of a protocol.
pub open spec fn section_heading(proto: Proto) -> Seq<char> {
    "── "@ + proto.label_text() + " ──────────────────────────────────"@
}

/// The lines on one protocol.
pub open spec fn section(
    order: Seq<usize>,
    reports: Seq<Report>,
    stats: Seq<LatencyTexts>,
    leads: Seq<LeadTexts>,
    proto: Proto,
    rounds: nat,
) -> Seq<Seq<char>> {
    if order.len() == 0 {
        seq![section_heading(proto), "   （没有任何一家跑通）"@, ""@]
    } else {
        seq![section_heading(proto)] + Seq::new(
            order.len(),
            |k: int| standing(order, reports, stats, leads, rounds, k),
        ) + seq![""@]
    }
}

/// The lines on one protocol: the providers from the fastest to the slowest.
/// `leads` says how far each report lies behind the fastest by this protocol.
pub fn protocol_section(
    reports: &Vec<Report>,
    stats: &Vec<LatencyTexts>,
    leads: &Vec<LeadTexts>,
    proto: Proto,
    rounds: usize,
) -> (r: Vec<String>)
    requires
        stats@.len() == reports@.len(),
        leads@.len() == reports@.len(),
    ensures
        exists|order: Seq<usize>|
            is_ranking(order, reports@, sampled_by(reports@, proto)) && texts(r@) == #[trigger] section(
                order,
                reports@,
                stats@,
                leads@,
                proto,
                rounds as nat,
            ),
{
    let chosen = of_protocol(reports, proto);
    let order = rank(reports, &chosen);
    let mut lines: Vec<String> = Vec::new();
    let mut heading: String = "── ".to_owned();
    heading.append(proto.label());
    heading.append(" ──────────────────────────────────");
    add_line(&mut lines, heading);
    if order.len() == 0 {
        add_line(&mut lines, "   （没有任何一家跑通）".to_owned());
        add_line(&mut lines, "".to_owned());
        assert(texts(lines@) =~= section(order@, reports@, stats@, leads@, proto, rounds as nat));
        return lines;
    }
    let ghost rows = Seq::new(
        order@.len(),
        |k: int| standing(order@, reports@, stats@, leads@, rounds as nat, k),
    );
    let ghost top = seq![section_heading(proto)];
    assert(texts(lines@) =~= top + rows.take(0));
    let mut k: usize = 0;
    while k < order.len()
        invariant
            k <= order@.len(),
            stats@.len() == reports@.len(),
            leads@.len() == reports@.len(),
            is_ranking(order@, reports@, sampled_by(reports@, proto)),
            rows == Seq::new(
                order@.len(),
                |k: int| standing(order@, reports@, stats@, leads@, rounds as nat, k),
            ),
            texts(lines@) == top + rows.take(k as int),
        decreases order@.len() - k,
    {
        let i: usize = order[k];
        let mut line: String = "  ".to_owned();
        line.append(count_text(k + 1).as_str());
        line.append(". ");
        line.append(pad_to(reports[i].group.as_str(), 20).as_str());
        line.append(" p50 ");
        line.append(align_right(stats[i].p50.as_str(), 7).as_str());
        line.append("  (+");
        line.append(align_right(leads[i].plain.as_str(), 5).as_str());
        line.append(")  p90 ");
        line.append(align_right(stats[i].p90.as_str(), 7).as_str());
        line.append("  max ");
        line.append(align_right(stats[i].max.as_str(), 8).as_str());
        line.append("  成功 ");
        line.append(ratio_text(reports[i].tally.ok, rounds).as_str());
        assert(rows[k as int] == line@);
        add_line(&mut lines, line);
        assert((top + rows.take(k as int)).push(rows[k as int]) =~= top + rows.take(k + 1));
        k += 1;
    }
    assert(rows.take(rows.len() as int) =~= rows);
    add_line(&mut lines, "".to_owned());
    assert(texts(lines@) =~= section(order@, reports@, stats@, leads@, proto, rounds as nat));
    lines
}

// ---------------------------------------------------------------------------
// Protocols by provider
// ---------------------------------------------------------------------------

/// Whether `plain` is the position of the first of the chosen reports on plain DNS, if there is one.
pub open spec fn is_plain(plain: Option<int>, reports: Seq<Report>, chosen: Seq<bool>) -> bool {
    match plain {
        Some(i) => first_plain_at(reports, chosen, i),
        None => forall|i: int| !first_plain_at(reports, chosen, i),
    }
}

/// What there is to say on plain DNS beside the fastest protocol.
pub open spec fn plain_remark(
    order: Seq<usize>,
    plain: Option<int>,
    reports: Seq<Report>,
    leads: Seq<LeadTexts>,
) -> Seq<char> {
    match plain {
        None => ""@,
        Some(u) => if reports[order[0] as int].proto != Proto::Udp {
            "（比它自己的 UDP/53 快 "@ + leads[u].plain@ + "ms）"@
        } else {
            "（就是它的明文 UDP，说明这家没有更快的加密协议）"@
        },
    }
}

/// The other protocols of a provider, with how far they lie behind its fastest.
pub open spec fn also_rans(order: Seq<usize>, reports: Seq<Report>, leads: Seq<LeadTexts>) -> Seq<Seq<char>> {
    Seq::new(
        (order.len() - 1) as nat,
        |k: int|
            reports[order[k + 1] as int].proto.label_text() + " "@ + leads[order[k + 1] as int].signed@,
    )
}

/// The lines on one provider.
pub open spec fn best_of(
    order: Seq<usize>,
    plain: Option<int>,
    reports: Seq<Report>,
    stats: Seq<LatencyTexts>,
    leads: Seq<LeadTexts>,
    provider: Seq<char>,
) -> Seq<Seq<char>> {
    if order.len() == 0 {
        seq!["  "@ + padded(provider, 20) + "  （全部失败）"@]
    } else {
        let best = order[0] as int;
        let line = "  "@ + trimmed_end(
            padded(provider, 20) + " → "@ + padded(reports[best].proto.label_text(), 10) + "  p50 "@
                + stats[best].p50@ + "ms  "@ + plain_remark(order, plain, reports, leads),
        );
        if order.len() == 1 {
            seq![line]
        } else {
            seq![line, "      "@ + joined(also_rans(order, reports, leads), "   "@)]
        }
    }
}

/// What there is to say on plain DNS beside the fastest protocol.
fn remark(order: &Vec<usize>, plain: Option<usize>, reports: &Vec<Report>, leads: &Vec<LeadTexts>) -> (r: String)
    requires
        order@.len() > 0,
        order@[0] < reports@.len(),
        leads@.len() == reports@.len(),
        plain matches Some(u) ==> u < reports@.len(),
    ensures
        r@ == plain_remark(
            order@,
            match plain {
                Some(u) => Some(u as int),
                None => None,
            },
            reports@,
            leads@,
        ),
{
    match plain {
        None => "".to_owned(),
        Some(u) => {
            if reports[order[0]].proto != Proto::Udp {
                let mut out: String = "（比它自己的 UDP/53 快 ".to_owned();
                out.append(leads[u].plain.as_str());
                out.append("ms）");
                out
            } else {
                "（就是它的明文 UDP，说明这家没有更快的加密协议）".to_owned()
            }
        },
    }
}

/// The other protocols of a provider.
fn others(order: &Vec<usize>, reports: &Vec<Report>, leads: &Vec<LeadTexts>) -> (r: Vec<String>)
    requires
        order@.len() > 0,
        forall|k: int| 0 <= k < order@.len() ==> (#[trigger] order@[k]) < reports@.len(),
        leads@.len() == reports@.len(),
    ensures
        texts(r@) == also_rans(order@, reports@, leads@),
{
    let mut out: Vec<String> = Vec::new();
    let ghost all = also_rans(order@, reports@, leads@);
    let mut k: usize = 1;
    assert(texts(out@) =~= all.take(0));
    while k < order.len()
        invariant
            1 <= k <= order@.len(),
            forall|k: int| 0 <= k < order@.len() ==> (#[trigger] order@[k]) < reports@.len(),
            leads@.len() == reports@.len(),
            all == also_rans(order@, reports@, leads@),
            texts(out@) == all.take(k - 1),
        decreases order@.len() - k,
    {
        let i: usize = order[k];
        let mut text: String = reports[i].proto.label().to_owned();
        text.append(" ");
        text.append(leads[i].signed.as_str());
        assert(all[k - 1] == text@);
        add_line(&mut out, text);
        assert(all.take(k - 1).push(all[k - 1]) =~= all.take(k as int));
        k += 1;
    }
    assert(all.take(all.len() as int) =~= all);
    out
}

/// The lines on one provider: its fastest protocol, and the others behind it.
/// What was only tried does not count. `leads` says how far each report lies
/// behind the fastest that counts.
pub fn provider_best(
    reports: &Vec<Report>,
    stats: &Vec<LatencyTexts>,
    leads: &Vec<LeadTexts>,
    provider: &str,
    speculative: &Vec<(String, Proto)>,
) -> (r: Vec<String>)
    requires
        stats@.len() == reports@.len(),
        leads@.len() == reports@.len(),
    ensures
        exists|order: Seq<usize>, plain: Option<int>|
            is_ranking(order, reports@, declared_in(reports@, provider@, cell_views(speculative@))) && is_plain(
                plain,
                reports@,
                declared_in(reports@, provider@, cell_views(speculative@)),
            ) && texts(r@) == #[trigger] best_of(order, plain, reports@, stats@, leads@, provider@),
{
    let chosen = of_group(reports, provider, speculative);
    let order = rank(reports, &chosen);
    let plain = plain_of(reports, &chosen);
    let ghost plain_at = match plain {
        Some(u) => Some(u as int),
        None => None,
    };
    let mut lines: Vec<String> = Vec::new();
    if order.len() == 0 {
        let mut line: String = "  ".to_owned();
        line.append(pad_to(provider, 20).as_str());
        line.append("  （全部失败）");
        add_line(&mut lines, line);
    } else {
        let best: usize = order[0];
        let mut line = pad_to(provider, 20);
        line.append(" → ");
        line.append(pad_to(reports[best].proto.label(), 10).as_str());
        line.append("  p50 ");
        line.append(stats[best].p50.as_str());
        line.append("ms  ");
        line.append(remark(&order, plain, reports, leads).as_str());
        let mut shown: String = "  ".to_owned();
        shown.append(trim_end(line.as_str()).as_str());
        add_line(&mut lines, shown);
        if order.len() > 1 {
            let parts = others(&order, reports, leads);
            let mut rest: String = "      ".to_owned();
            rest.append(join(&parts, "   ").as_str());
            add_line(&mut lines, rest);
        }
    }
    assert(is_plain(plain_at, reports@, chosen@));
    assert(texts(lines@) =~= best_of(order@, plain_at, reports@, stats@, leads@, provider@));
    lines
}

/// The groups of the reports.
pub open spec fn groups_of(reports: Seq<Report>) -> Seq<Seq<char>> {
    reports.map_values(|r: Report| r.group@)
}

/// The groups of the reports, each once, in order.
pub fn group_order(reports: &Vec<Report>) -> (r: Vec<String>)
    ensures
        texts(r@) == first_occurrences(groups_of(reports@)),
{
    let mut out: Vec<String> = Vec::new();
    let ghost all = groups_of(reports@);
    assert(texts(out@) =~= first_occurrences(all.take(0)));
    let mut i: usize = 0;
    while i < reports.len()
        invariant
            i <= reports@.len(),
            all == groups_of(reports@),
            texts(out@) == first_occurrences(all.take(i as int)),
        decreases reports@.len() - i,
    {
        assert(all.take(i + 1).drop_last() =~= all.take(i as int));
        assert(all.take(i + 1).last() == reports@[i as int].group@);
        if !is_listed(&out, reports[i].group.as_str()) {
            add_line(&mut out, reports[i].group.clone());
        }
        i += 1;
    }
    assert(all.take(all.len() as int) =~= all);
    out
}

// ---------------------------------------------------------------------------
// Protocols on one server
// ---------------------------------------------------------------------------

/// The line on the protocol at place `k` of a ranking.
pub open spec fn protocol_standing(
    order: Seq<usize>,
    reports: Seq<Report>,
    stats: Seq<LatencyTexts>,
    rounds: nat,
    k: int,
) -> Seq<char> {
    let i = order[k] as int;
    "  "@ + decimal((k + 1) as nat) + ". "@ + padded(reports[i].label@, 12) + " p50 "@ + right_aligned(
        stats[i].p50@,
        7,
    ) + "  p90 "@ + right_aligned(stats[i].p90@, 7) + "  max "@ + right_aligned(stats[i].max@, 8)
        + "  mean "@ + right_aligned(stats[i].mean@, 7) + "  (成功 "@ + ratio(
        reports[i].tally.ok as nat,
        rounds,
    ) + "，超时 "@ + decimal(reports[i].tally.timeout as nat) + ")"@
}

/// The ranking of the protocols.
pub open spec fn protocol_ranking(
    order: Seq<usize>,
    reports: Seq<Report>,
    stats: Seq<LatencyTexts>,
    mode: Mode,
    rounds: nat,
) -> Seq<Seq<char>> {
    seq![
        "══════════════════════════════════════════════════════"@,
        "按 p50 排名（口径："@ + mode.name_text() + "）"@,
    ] + Seq::new(order.len(), |k: int| protocol_standing(order, reports, stats, rounds, k))
}

/// The ranking of the protocols that gave samples.
pub fn protocol_ranking_lines(
    reports: &Vec<Report>,
    stats: &Vec<LatencyTexts>,
    mode: Mode,
    rounds: usize,
) -> (r: Vec<String>)
    requires
        stats@.len() == reports@.len(),
    ensures
        exists|order: Seq<usize>|
            is_ranking(order, reports@, sampled(reports@)) && texts(r@) == #[trigger] protocol_ranking(
                order,
                reports@,
                stats@,
                mode,
                rounds as nat,
            ),
{
    let chosen = with_samples(reports);
    let order = rank(reports, &chosen);
    let mut lines: Vec<String> = Vec::new();
    add_line(&mut lines, "══════════════════════════════════════════════════════".to_owned());
    let mut heading: String = "按 p50 排名（口径：".to_owned();
    heading.append(mode.name());
    heading.append("）");
    add_line(&mut lines, heading);
    let ghost top = texts(lines@);
    let ghost rows = Seq::new(
        order@.len(),
        |k: int| protocol_standing(order@, reports@, stats@, rounds as nat, k),
    );
    assert(top + rows.take(0) =~= top);
    let mut k: usize = 0;
    while k < order.len()
        invariant
            k <= order@.len(),
            stats@.len() == reports@.len(),
            is_ranking(order@, reports@, sampled(reports@)),
            rows == Seq::new(
                order@.len(),
                |k: int| protocol_standing(order@, reports@, stats@, rounds as nat, k),
            ),
            texts(lines@) == top + rows.take(k as int),
        decreases order@.len() - k,
    {
        let i: usize = order[k];
        let mut line: String = "  ".to_owned();
        line.append(count_text(k + 1).as_str());
        line.append(". ");
        line.append(pad_to(reports[i].label.as_str(), 12).as_str());
        line.append(" p50 ");
        line.append(align_right(stats[i].p50.as_str(), 7).as_str());
        line.append("  p90 ");
        line.append(align_right(stats[i].p90.as_str(), 7).as_str());
        line.append("  max ");
        line.append(align_right(stats[i].max.as_str(), 8).as_str());
        line.append("  mean ");
        line.append(align_right(stats[i].mean.as_str(), 7).as_str());
        line.append("  (成功 ");
        line.append(ratio_text(reports[i].tally.ok, rounds).as_str());
        line.append("，超时 ");
        line.append(count_text(reports[i].tally.timeout).as_str());
        line.append(")");
        assert(rows[k as int] == line@);
        add_line(&mut lines, line);
        assert((top + rows.take(k as int)).push(rows[k as int]) =~= top + rows.take(k + 1));
        k += 1;
    }
    assert(rows.take(rows.len() as int) =~= rows);
    assert(texts(lines@) =~= protocol_ranking(order@, reports@, stats@, mode, rounds as nat));
    lines
}

} // verus!
