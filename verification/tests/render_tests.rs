use dns_protocol_bench::cli::{ProtocolOpt, ProviderOpt, Tool};
use dns_protocol_bench::lines::{
    fail_reason, outcome_line, protocol_intro, provider_intro, query_stage, setup_failure_line, warmup_stage,
};
use dns_protocol_bench::progress::Progress;
use dns_protocol_bench::providers::{build_targets, speculative_cells};
use dns_protocol_bench::rank::{of_group, of_protocol, plain_of, rank, with_samples};
use dns_protocol_bench::render::{failure_lines, labels_of, list_lines, matrix_lines, warning_lines, widest_of};
use dns_protocol_bench::report::LatencyTexts;
use dns_protocol_bench::standings::{
    group_order, protocol_ranking_lines, protocol_section, provider_best, LeadTexts,
};
use dns_protocol_bench::{display_width, BenchError, Mode, Proto, Report};

fn report(group: &str, proto: Proto, samples: &[u64]) -> Report {
    let mut r = Report::new(group, &format!("{} / {}", group, proto.label()), proto);
    r.samples = samples.to_vec();
    r.tally.ok = samples.len();
    r
}

fn ms(n: u64) -> String {
    format!("{}.0", n)
}

fn stats(r: &Report) -> LatencyTexts {
    LatencyTexts {
        min: ms(r.min()),
        p50: ms(r.p50()),
        p90: ms(r.p90()),
        p99: ms(r.p99()),
        max: ms(r.max()),
        mean: ms(r.mean()),
    }
}

fn all_stats(reports: &[Report]) -> Vec<LatencyTexts> {
    reports.iter().map(stats).collect()
}

fn leads(reports: &[Report], best: u64) -> Vec<LeadTexts> {
    reports
        .iter()
        .map(|r| {
            let lead = r.p50() as i64 - best as i64;
            LeadTexts { plain: format!("{}.0", lead), signed: format!("{:+}.0", lead) }
        })
        .collect()
}

#[test]
fn rankings_are_by_median_and_then_by_place() {
    let reports = vec![
        report("a", Proto::Udp, &[30]),
        report("b", Proto::Udp, &[]),
        report("c", Proto::Dot, &[10]),
        report("d", Proto::Udp, &[30, 30, 1]),
        report("a", Proto::Doh, &[5]),
    ];
    assert_eq!(rank(&reports, &with_samples(&reports)), vec![4, 2, 0, 3]);
    assert_eq!(rank(&reports, &of_protocol(&reports, Proto::Udp)), vec![0, 3]);
    let none = vec![];
    assert_eq!(rank(&reports, &of_group(&reports, "a", &none)), vec![4, 0]);
    assert_eq!(rank(&reports, &of_group(&reports, "b", &none)), Vec::<usize>::new());
    assert_eq!(plain_of(&reports, &of_group(&reports, "a", &none)), Some(0));
    assert_eq!(plain_of(&reports, &of_group(&reports, "b", &none)), None);
    assert_eq!(plain_of(&reports, &of_group(&reports, "c", &none)), None);
    let tried = vec![("a".to_string(), Proto::Doh), ("b".to_string(), Proto::Udp)];
    assert_eq!(of_group(&reports, "a", &tried), vec![true, false, false, false, false]);
    assert_eq!(group_order(&reports), vec!["a", "b", "c", "d"]);
}

#[test]
fn the_matrix_shows_medians_crosses_and_dots() {
    let reports = vec![
        report("阿里 DNS", Proto::Udp, &[34]),
        report("阿里 DNS", Proto::Doq, &[]),
        report("腾讯 DNSPod", Proto::Udp, &[]),
        report("腾讯 DNSPod", Proto::Doq, &[12]),
    ];
    let tried = vec![("腾讯 DNSPod".to_string(), Proto::Doq), ("腾讯 DNSPod".to_string(), Proto::Udp)];
    let providers = vec!["阿里 DNS".to_string(), "腾讯 DNSPod".to_string()];
    let protos = vec![Proto::Udp, Proto::Dot, Proto::Doq];
    let lines = matrix_lines(&reports, &all_stats(&reports), &providers, &protos, &tried);
    assert_eq!(lines.len(), 9);
    assert_eq!(lines[1], "【服务商 × 协议 矩阵】单元格 = p50 毫秒");
    assert_eq!(lines[6], "服务商             UDP/53    DoT/853    DoQ/853");
    assert_eq!(lines[7], "阿里 DNS             34.0         ·         ✗");
    assert_eq!(lines[8], "腾讯 DNSPod           ~✗         ·      ~12.0");
    for line in &lines[6..] {
        assert_eq!(display_width(line), 14 + 3 * 11);
    }
}

#[test]
fn the_widest_name_sets_the_column() {
    assert_eq!(widest_of(&vec![], 12), 12);
    assert_eq!(widest_of(&vec!["字节 TrafficRoute".to_string(), "a".to_string()], 12), 17);
}

#[test]
fn failures_are_explained() {
    let mut a = report("a", Proto::Udp, &[]);
    a.tally.timeout = 8;
    a.tally.warmup_note = Some("预热就超时（>3s 无响应）".to_string());
    let mut b = report("b", Proto::Dot, &[]);
    b.tally.add_error(&BenchError::Io("y".repeat(80)));
    let mut c = report("c", Proto::Dot, &[]);
    c.tally.empty = 4;
    let fine = report("d", Proto::Dot, &[1]);
    let unasked = report("e", Proto::Dot, &[]);
    let lines = failure_lines(&vec![fine, a, unasked, b, c], "3s");
    assert_eq!(lines[0], "");
    assert_eq!(lines[2], "全部失败的组合（首条错误）");
    assert_eq!(lines[3], format!("  a / UDP/53{}  超时 8/8  3s 内无响应（每条都超时）", " ".repeat(24)));
    assert_eq!(lines[4], "      ⚠️ 预热就超时（>3s 无响应）");
    assert_eq!(lines[5], format!("  b / DoT/853{}  超时 0/1  io: {}…", " ".repeat(23), "y".repeat(64)));
    assert_eq!(lines[6], format!("  c / DoT/853{}  超时 0/4  ?", " ".repeat(23)));
    assert_eq!(lines[7], "");
    assert_eq!(lines.len(), 12);
    assert!(failure_lines(&vec![report("d", Proto::Dot, &[1])], "3s").is_empty());
}

#[test]
fn providers_are_ranked_by_protocol() {
    let reports = vec![
        report("b", Proto::Udp, &[30]),
        report("a", Proto::Udp, &[10, 20]),
        report("a", Proto::Dot, &[]),
    ];
    let lines = protocol_section(&reports, &all_stats(&reports), &leads(&reports, 20), Proto::Udp, 30);
    assert_eq!(
        lines,
        vec![
            "── UDP/53 ──────────────────────────────────".to_string(),
            format!("  1. a{} p50    20.0  (+  0.0)  p90    20.0  max     20.0  成功 2/30", " ".repeat(19)),
            format!("  2. b{} p50    30.0  (+ 10.0)  p90    30.0  max     30.0  成功 1/30", " ".repeat(19)),
            "".to_string(),
        ]
    );
    let lines = protocol_section(&reports, &all_stats(&reports), &leads(&reports, 0), Proto::Dot, 30);
    assert_eq!(lines, vec!["── DoT/853 ──────────────────────────────────", "   （没有任何一家跑通）", ""]);
}

#[test]
fn protocols_are_ranked_by_provider() {
    let reports = vec![
        report("a", Proto::Udp, &[30]),
        report("a", Proto::Dot, &[10]),
        report("a", Proto::Doh, &[40]),
        report("b", Proto::Udp, &[7]),
        report("c", Proto::Udp, &[]),
        report("d", Proto::Doq, &[9]),
    ];
    let s = all_stats(&reports);
    let none = vec![];
    assert_eq!(
        provider_best(&reports, &s, &leads(&reports, 10), "a", &none),
        vec![
            format!("  a{} → DoT/853     p50 10.0ms  （比它自己的 UDP/53 快 20.0ms）", " ".repeat(19)),
            "      UDP/53 +20.0   DoH-h2 +30.0".to_string(),
        ]
    );
    assert_eq!(
        provider_best(&reports, &s, &leads(&reports, 7), "b", &none),
        vec![format!(
            "  b{} → UDP/53      p50 7.0ms  （就是它的明文 UDP，说明这家没有更快的加密协议）",
            " ".repeat(19)
        )]
    );
    assert_eq!(
        provider_best(&reports, &s, &leads(&reports, 0), "c", &none),
        vec![format!("  c{}  （全部失败）", " ".repeat(19))]
    );
    assert_eq!(
        provider_best(&reports, &s, &leads(&reports, 9), "d", &none),
        vec![format!("  d{} → DoQ/853     p50 9.0ms", " ".repeat(19))]
    );
}

#[test]
fn what_was_only_tried_is_no_ones_best() {
    let reports = vec![report("a", Proto::Udp, &[20]), report("a", Proto::Doq, &[10]), report("b", Proto::Doq, &[5])];
    let tried = vec![("a".to_string(), Proto::Doq), ("b".to_string(), Proto::Doq)];
    let s = all_stats(&reports);
    assert_eq!(
        provider_best(&reports, &s, &leads(&reports, 20), "a", &tried),
        vec![format!(
            "  a{} → UDP/53      p50 20.0ms  （就是它的明文 UDP，说明这家没有更快的加密协议）",
            " ".repeat(19)
        )]
    );
    assert_eq!(
        provider_best(&reports, &s, &leads(&reports, 0), "b", &tried),
        vec![format!("  b{}  （全部失败）", " ".repeat(19))]
    );
}

#[test]
fn failed_warmups_are_warned_about() {
    let mut slow = report("a", Proto::Dot, &[90]);
    slow.tally.warmup_note = Some("n1".to_string());
    let mut dead = report("b", Proto::Dot, &[]);
    dead.tally.timeout = 8;
    dead.tally.warmup_note = Some("n2".to_string());
    let mut unasked = report("c", Proto::Dot, &[]);
    unasked.tally.warmup_note = Some("n3".to_string());
    let reports = vec![slow, report("d", Proto::Dot, &[1]), dead, unasked];
    let lines = failure_lines(&reports, "3s");
    let heading = "预热失败的组合（热口径退化成了冷口径，数字会偏高）";
    assert_eq!(lines[4], "      ⚠️ n2");
    assert_eq!(
        lines[10..],
        [
            "",
            "──────────────────────────────────────────────────────────────",
            heading,
            "  a / DoT/853",
            "      ⚠️ n1",
            "  c / DoT/853",
            "      ⚠️ n3"
        ]
    );
    let lines = warning_lines(&reports);
    assert_eq!(
        lines[2..],
        [heading, "  a / DoT/853", "      ⚠️ n1", "  b / DoT/853", "      ⚠️ n2", "  c / DoT/853", "      ⚠️ n3"]
    );
    assert!(warning_lines(&vec![report("d", Proto::Dot, &[1])]).is_empty());
}

#[test]
fn protocols_on_one_server_are_ranked() {
    let mut slow = Report::new("UDP/53", "UDP/53", Proto::Udp);
    slow.samples = vec![30];
    slow.tally.ok = 29;
    slow.tally.timeout = 1;
    let mut fast = Report::new("DoQ/853", "DoQ/853", Proto::Doq);
    fast.samples = vec![20];
    fast.tally.ok = 30;
    let none = Report::new("DoH3", "DoH3", Proto::Doh3);
    let reports = vec![slow, none, fast];
    assert_eq!(
        protocol_ranking_lines(&reports, &all_stats(&reports), Mode::Cold, 30),
        vec![
            "══════════════════════════════════════════════════════",
            "按 p50 排名（口径：cold（每查询重建连接））",
            "  1. DoQ/853      p50    20.0  p90    20.0  max     20.0  mean    20.0  (成功 30/30，超时 0)",
            "  2. UDP/53       p50    30.0  p90    30.0  max     30.0  mean    30.0  (成功 29/30，超时 1)",
        ]
    );
}

#[test]
fn targets_are_listed() {
    let (opt, _) = ProviderOpt::parse(&vec!["--probe".to_string(), "--protos".to_string(), "doq".to_string()]);
    let targets = build_targets(&opt);
    let lines = list_lines(&targets, false, true);
    assert_eq!(lines[0], "被测组合（--only 用「名字里包含」匹配，可逗号分隔多个）：");
    assert_eq!(lines[2], format!("  阿里 DNS / DoQ/853{} dns.alidns.com:853 ", " ".repeat(14)));
    assert_eq!(lines[3], format!("  腾讯 DNSPod / DoQ/853{} dot.pub:853 ~试探", " ".repeat(11)));
    assert_eq!(lines[7], "提示        加 --with-backups 会多出各家的备用地址（本次未列出）");
    assert_eq!(lines.len(), 9);
    let lines = list_lines(&targets, true, false);
    assert_eq!(lines[7], "提示        以上含各家的备用地址（--with-backups 已打开）");
    assert_eq!(lines.len(), 10);
    assert_eq!(labels_of(&targets).len(), 4);
    assert_eq!(speculative_cells(&targets).len(), 3);
}

#[test]
fn reasons_for_failure() {
    let mut r = report("g", Proto::Udp, &[]);
    assert_eq!(fail_reason(&r), "无成功样本");
    r.tally.timeout = 8;
    r.tally.aborted = true;
    assert_eq!(fail_reason(&r), "超时 8/8 · 连败 8 次后提前结束");
    r.tally.warmup_note = Some("note".to_string());
    assert_eq!(fail_reason(&r), "note · 连败 8 次后提前结束");
    r.tally.first_error = Some("e".repeat(60));
    r.tally.aborted = false;
    assert_eq!(fail_reason(&r), format!("{}…", "e".repeat(48)));
}

#[test]
fn lasting_lines() {
    let r = report("g", Proto::Udp, &[5]);
    assert_eq!(
        outcome_line(&r, Tool::Providers, " 3/25", &stats(&r), 30, "1.2"),
        format!(
            "✓ [ 3/25] g / UDP/53{} p50     5.0  p90     5.0  max      5.0  成功 1/30  用时 1.2s",
            " ".repeat(22)
        )
    );
    assert_eq!(
        outcome_line(&r, Tool::Protocols, "1/5", &stats(&r), 30, "1.2"),
        "✓ [1/5] g / UDP/53   p50     5.0  p90     5.0  max      5.0  成功 1/30  用时 1.2s"
    );
    let mut r = report("g", Proto::Udp, &[]);
    r.tally.timeout = 8;
    r.tally.first_error = Some("e".repeat(60));
    assert_eq!(
        outcome_line(&r, Tool::Protocols, "1/5", &stats(&r), 30, "9.9"),
        format!("✗ [1/5] g / UDP/53   全部失败：{}  用时 9.9s", "e".repeat(60))
    );
    assert_eq!(
        outcome_line(&r, Tool::Providers, "1/5", &stats(&r), 30, "9.9"),
        format!("✗ [1/5] g / UDP/53{} 全部失败：{}…  用时 9.9s", " ".repeat(22), "e".repeat(48))
    );
    r.tally.first_error = None;
    assert_eq!(
        outcome_line(&r, Tool::Protocols, "1/5", &stats(&r), 30, "9.9"),
        "✗ [1/5] g / UDP/53   全部失败：超时 8/8  用时 9.9s"
    );
    r.tally.warmup_note = Some("note".to_string());
    r.tally.aborted = true;
    assert_eq!(
        outcome_line(&r, Tool::Protocols, "1/5", &stats(&r), 30, "9.9"),
        "✗ [1/5] g / UDP/53   全部失败：note · 连败 8 次后提前结束  用时 9.9s"
    );
}

#[test]
fn lines_for_failed_setup() {
    let e = BenchError::Tls("z".repeat(60));
    assert_eq!(
        setup_failure_line(&e, Tool::Protocols, "1/5", "DoT/853", "0.1"),
        format!("✗ [1/5] DoT/853      初始化失败：tls: {}", "z".repeat(60))
    );
    assert_eq!(
        setup_failure_line(&e, Tool::Providers, "1/5", "DoT/853", "0.1"),
        format!("✗ [1/5] DoT/853{} 初始化失败：tls: {}…  用时 0.1s", " ".repeat(25), "z".repeat(43))
    );
}

#[test]
fn stages() {
    assert_eq!(warmup_stage(0, 5), "预热 1/5");
    assert_eq!(query_stage(29, 30, "3.5"), "查询 30/30 · 最近    3.5ms");
}

#[test]
fn introductions() {
    let (opt, _) = ProtocolOpt::parse(&vec![]);
    assert_eq!(
        protocol_intro(&opt, 24, "内置列表", "3s"),
        vec![
            "服务器      223.5.5.5 (plain:53, dot:853, doq:853, doh:https://223.5.5.5/dns-query)",
            "口径        hot（连接复用）",
            "域名        24 个（来源：内置列表，顺序固定循环使用）",
            "预热 / 计时 5 次 / 每协议 30 次",
            "统一超时    3s",
            "",
        ]
    );
    let (opt, _) = ProviderOpt::parse(&vec![]);
    assert_eq!(
        provider_intro(&opt.common, 24, "d", "3s", 21, 8),
        vec![
            "域名        24 个（来源：d，顺序固定循环使用）",
            "口径        hot（连接复用），预热 5 次，每组合计时 30 次",
            "统一超时    3s",
            "被测组合    21 个（8 家 × 最多 5 种协议）",
            "",
        ]
    );
}

#[test]
fn progress_counts_targets() {
    let mut p = Progress::new(25, true);
    assert!(p.is_tty());
    assert_eq!(p.counter(), " 0/25");
    assert!(p.begin("阿里 DNS / UDP/53", 0));
    assert_eq!(p.counter(), " 1/25");
    assert_eq!((p.finished(), p.can_estimate()), (0, false));
    assert_eq!((p.current.as_str(), p.stage.as_str()), ("阿里 DNS / UDP/53", "连接中…"));
}

#[test]
fn progress_draws_a_line() {
    let mut p = Progress::new(8, true);
    p.begin("a", 0);
    assert_eq!(
        p.line(0, "0", 0, 0),
        format!("  ⠋ [1/8] {}    0%  a{} · 连接中…{}  已用 0:00  剩 --:--", "░".repeat(16), " ".repeat(25), " ".repeat(18))
    );
    p.finish("done", 2_000_000_000);
    p.begin("b", 2_000_000_000);
    p.stage("查询 1/30", 3_000_000_000);
    assert!(p.can_estimate());
    assert_eq!(
        p.line(2350, "12", 2, 14),
        format!(
            "  ⠸ [2/8] {}{}   12%  b{} · 查询 1/30{}  已用 0:02  剩 0:14",
            "█".repeat(2),
            "░".repeat(14),
            " ".repeat(25),
            " ".repeat(17)
        )
    );
}

#[test]
fn the_bar_rounds_half_up_and_fills_up() {
    for (total, index, filled) in [(32usize, 2usize, 1usize), (33, 2, 0), (3, 2, 5), (3, 3, 11), (1, 2, 16), (0, 5, 0)] {
        let mut p = Progress::new(total, true);
        for _ in 0..index {
            p.begin("x", 0);
        }
        let line = p.line(0, "0", 0, 0);
        assert_eq!(line.matches('█').count(), filled);
        assert_eq!(line.matches('░').count(), 16 - filled);
    }
}

#[test]
fn drawing_is_not_too_frequent() {
    let mut p = Progress::new(2, true);
    assert!(p.stage("before", 0));
    assert!(p.begin("a", 1));
    assert!(!p.stage("s", 80_000_000));
    assert_eq!(p.stage, "s");
    assert!(p.stage("s", 80_000_001));
    assert!(!p.stage("s", 160_000_000));
    assert!(p.begin("b", 160_000_000));
    assert!(!p.stage("s", 5));
}

#[test]
fn nothing_is_drawn_without_a_terminal() {
    let mut p = Progress::new(2, false);
    assert!(!p.begin("a", 0));
    assert!(!p.stage("s", u64::MAX));
    let closing = p.finish("line", 5);
    assert!(!closing.wipe);
    assert_eq!(closing.line, Some("line".to_string()));
    assert_eq!(p.done("1.5").line, Some("总耗时      1.5s".to_string()));
}

#[test]
fn a_silent_run_writes_nothing() {
    let mut p = Progress::disabled(3);
    assert!(!p.is_tty());
    assert!(!p.begin("a", 0));
    assert_eq!(p.counter(), "1/3");
    let closing = p.finish("line", 7);
    assert!(!closing.wipe && closing.line.is_none());
    assert_eq!(p.spent, 7);
    assert!(p.done("1.0").line.is_none());
    assert!(p.conclude("x", "1.0").line.is_none());
}

#[test]
fn runs_are_concluded() {
    let p = Progress::new(3, true);
    let closing = p.conclude("污染检查耗时", "12.3");
    assert!(closing.wipe);
    assert_eq!(closing.line, Some("污染检查耗时  12.3s".to_string()));
}
