use dns_protocol_bench::report::LatencyTexts;
use dns_protocol_bench::samples::{average_of, percentile_of, sort_samples, total_of};
use dns_protocol_bench::tally::ErrorCounts;
use dns_protocol_bench::trial::{setup_failure, Outcome, Plan, Step, Trial};
use dns_protocol_bench::{BenchError, Ipv4Addr, Proto, Report, Tally, EARLY_ABORT_AFTER};

fn stats() -> LatencyTexts {
    LatencyTexts {
        min: "1.0".to_string(),
        p50: "2.5".to_string(),
        p90: "13.0".to_string(),
        p99: "14.0".to_string(),
        max: "15.5".to_string(),
        mean: "3.7".to_string(),
    }
}

fn io(text: &str) -> BenchError {
    BenchError::Io(text.to_string())
}

fn useful() -> Outcome {
    Outcome::Answered(0, vec![Ipv4Addr::new(1, 2, 3, 4)])
}

fn plan(warmup: usize, rounds: usize, domains: usize) -> Plan {
    Plan { warmup, rounds, domains }
}

#[test]
fn samples_sort_and_keep_repetitions() {
    assert_eq!(sort_samples(&vec![5, 1, 4, 1, 3]), vec![1, 1, 3, 4, 5]);
    assert_eq!(sort_samples(&vec![]), Vec::<u64>::new());
}

#[test]
fn percentiles_take_the_nearest_rank() {
    let ten: Vec<u64> = (1..=10).collect();
    assert_eq!(percentile_of(&ten, 50), 6);
    assert_eq!(percentile_of(&ten, 90), 9);
    assert_eq!(percentile_of(&ten, 99), 10);
    assert_eq!(percentile_of(&ten, 0), 1);
    assert_eq!(percentile_of(&ten, 100), 10);
    assert_eq!(percentile_of(&vec![], 50), 0);
    assert_eq!(percentile_of(&vec![42], 99), 42);
}

#[test]
fn percentiles_agree_with_rounded_floating_point_ranks() {
    for n in 1usize..3000 {
        let ordered: Vec<u64> = (0..n as u64).collect();
        for (percent, q) in [(50u8, 0.50f64), (90, 0.90), (99, 0.99)] {
            let rank = (((n - 1) as f64) * q).round() as u64;
            assert_eq!(percentile_of(&ordered, percent), rank);
        }
    }
}

#[test]
fn averages_round_down() {
    assert_eq!(average_of(&vec![]), 0);
    assert_eq!(average_of(&vec![1, 2, 4]), 2);
    assert_eq!(average_of(&vec![u64::MAX, u64::MAX]), u64::MAX);
    assert_eq!(average_of(&vec![1, 2]), 1);
    assert_eq!(total_of(&vec![1, 2]), 3);
    assert_eq!(total_of(&vec![u64::MAX, u64::MAX]), 2 * u64::MAX as u128);
    assert_eq!(total_of(&vec![]), 0);
}

#[test]
fn reports_give_statistics() {
    let mut r = Report::new("阿里 DNS", "阿里 DNS / UDP/53", Proto::Udp);
    assert!(!r.has_samples());
    assert_eq!((r.p50(), r.p90(), r.p99(), r.max(), r.min(), r.mean()), (0, 0, 0, 0, 0, 0));
    r.samples = vec![30, 10, 20, 50, 40];
    assert!(r.has_samples());
    assert_eq!((r.p50(), r.p90(), r.p99(), r.max(), r.min(), r.mean()), (30, 50, 50, 50, 10, 30));
    assert_eq!(r.sorted(), vec![10, 20, 30, 40, 50]);
    assert_eq!(r.total(), 150);
    assert_eq!(Report::quantile(&r.sorted(), 25), 20);
    let mut shuffled = Report::new("g", "l", Proto::Udp);
    shuffled.samples = vec![50, 40, 30, 20, 10];
    assert_eq!(shuffled.p90(), r.p90());
    assert!(r.min() <= r.p50() && r.p50() <= r.p90() && r.p90() <= r.p99() && r.p99() <= r.max());
    assert!(r.min() <= r.mean() && r.mean() <= r.max());
}

#[test]
fn error_counts_are_sorted_by_label() {
    let mut counts = ErrorCounts::new();
    assert!(counts.is_empty());
    assert_eq!(counts.text(), "");
    for label in ["tls", "io", "tls", "bad_response", "tls"] {
        counts.add(label);
    }
    assert_eq!(counts.text(), "bad_response=1 io=1 tls=3");
    assert_eq!(counts.get("tls"), 3);
    assert_eq!(counts.get("quic"), 0);
    assert_eq!(counts.sum(), 5);
    let mut other = ErrorCounts::new();
    for label in ["bad_response", "tls", "tls", "tls", "io"] {
        other.add(label);
    }
    assert_eq!(other.text(), counts.text());
}

#[test]
fn tallies_begin_blank_and_keep_the_first_error() {
    let mut t = Tally::default();
    assert_eq!(t.attempts(), 0);
    t.add_error(&io("first"));
    t.add_error(&BenchError::Quic("second".to_string()));
    t.ok = 4;
    t.empty = 1;
    t.timeout = 2;
    assert_eq!(t.attempts(), 9);
    assert_eq!(t.errors_text(), "io=1 quic=1");
    assert_eq!(t.first_error, Some("io: first".to_string()));
}

#[test]
fn summary_lines() {
    let mut r = Report::new("g", "阿里 DNS", Proto::Udp);
    assert_eq!(r.summary_line(30, 10, "", ""), "  ⛔ 阿里 DNS   未执行");
    r.tally.timeout = 8;
    assert_eq!(r.summary_line(30, 10, "", ""), "  ❌ 阿里 DNS   全部失败（超时 8/8）");
    r.tally.ok = 29;
    r.samples = vec![1];
    assert_eq!(
        r.summary_line(30, 10, "2.5", "1234567.8"),
        "  ✅ 阿里 DNS   p50     2.5  p90 1234567.8  成功 29/30"
    );
}

#[test]
fn detailed_blocks() {
    let mut r = Report::new("g", "DoT/853", Proto::Dot);
    assert_eq!(
        r.block_lines(30, &stats()),
        vec![
            "── DoT/853 ──────────────────────────",
            "   成功 0 / 30   空答案 0   超时 0",
            "   （没有成功样本，无法统计分位数）",
        ]
    );
    r.tally.add_error(&io("reset"));
    r.tally.timeout = 7;
    r.tally.aborted = true;
    assert_eq!(
        r.block_lines(30, &stats()),
        vec![
            "── DoT/853 ──────────────────────────",
            "   成功 0 / 8（提前结束：一次没成功、连败 8 次后放弃，原计划 30 次）",
            "   错误 io=1",
            "   首条错误：io: reset",
            "   （没有成功样本，无法统计分位数）",
        ]
    );
    r.tally.aborted = false;
    r.tally.ok = 3;
    r.tally.empty = 2;
    r.samples = vec![9];
    assert_eq!(
        r.block_lines(11, &stats()),
        vec![
            "── DoT/853 ──────────────────────────",
            "   成功 3 / 11   空答案 2   超时 7",
            "   错误 io=1",
            "   首条错误：io: reset",
            "   min 1.0  p50 2.5  p90 13.0  p99 14.0  max 15.5  mean 3.7   (ms)",
        ]
    );
}

#[test]
fn trials_warm_up_before_they_measure() {
    let mut t = Trial::new(plan(2, 3, 2), Report::new("g", "l", Proto::Udp));
    let mut steps = Vec::new();
    loop {
        let step = t.next();
        match step {
            Step::Warmup(_, _) => t.warmed_up(&Outcome::TimedOut, "3s"),
            Step::Query(_, _) => t.answered(&useful(), 5),
            Step::Done => break,
        }
        steps.push(step);
    }
    assert_eq!(
        steps,
        vec![Step::Warmup(0, 0), Step::Warmup(1, 1), Step::Query(0, 0), Step::Query(1, 1), Step::Query(2, 0)]
    );
    let report = t.finish();
    assert_eq!(report.tally.ok, 3);
    assert_eq!(report.tally.timeout, 0);
    assert_eq!(report.samples, vec![5, 5, 5]);
    assert_eq!(report.tally.warmup_note, Some("预热就超时（>3s 无响应）".to_string()));
}

#[test]
fn only_the_first_trouble_while_warming_up_is_noted() {
    let mut t = Trial::new(plan(3, 0, 1), Report::new("g", "l", Proto::Udp));
    t.warmed_up(&useful(), "3s");
    assert_eq!(t.report.tally.warmup_note, None);
    t.warmed_up(&Outcome::Failed(io("x".repeat(80).as_str())), "3s");
    t.warmed_up(&Outcome::TimedOut, "3s");
    let expected = format!("预热失败：io: {}…", "x".repeat(54));
    assert_eq!(t.report.tally.warmup_note, Some(expected));
    assert_eq!(t.next(), Step::Done);
}

#[test]
fn dead_targets_are_given_up() {
    let mut t = Trial::new(plan(0, 30, 5), Report::new("g", "l", Proto::Doq));
    let mut asked = 0;
    while t.next() != Step::Done {
        if asked % 2 == 0 {
            t.answered(&Outcome::TimedOut, 3_000_000_000);
        } else {
            t.answered(&Outcome::Failed(io("refused")), 1);
        }
        asked += 1;
    }
    assert_eq!(asked, EARLY_ABORT_AFTER);
    let report = t.finish();
    assert!(report.tally.aborted);
    assert_eq!((report.tally.ok, report.tally.timeout), (0, 4));
    assert_eq!(report.tally.errors_text(), "io=4");
    assert_eq!(report.tally.attempts(), 8);
    assert!(!report.has_samples());
}

#[test]
fn one_answer_keeps_a_target_alive() {
    let mut t = Trial::new(plan(0, 20, 1), Report::new("g", "l", Proto::Doq));
    t.answered(&Outcome::Answered(2, vec![]), 1);
    while t.next() != Step::Done {
        t.answered(&Outcome::TimedOut, 1);
    }
    let report = t.finish();
    assert!(!report.tally.aborted);
    assert_eq!((report.tally.ok, report.tally.empty, report.tally.timeout), (0, 1, 19));
    assert_eq!(report.tally.attempts(), 20);
}

#[test]
fn empty_answers_are_no_samples() {
    let mut t = Trial::new(plan(0, 4, 1), Report::new("g", "l", Proto::Doh));
    t.answered(&Outcome::Answered(0, vec![]), 1);
    t.answered(&Outcome::Answered(3, vec![Ipv4Addr::new(9, 9, 9, 9)]), 2);
    t.answered(&useful(), 3);
    assert_eq!(t.failures, 0);
    t.answered(&Outcome::TimedOut, 4);
    assert_eq!(t.failures, 1);
    assert_eq!(t.report.samples, vec![3]);
    assert_eq!((t.report.tally.ok, t.report.tally.empty, t.report.tally.timeout), (1, 2, 1));
    assert_eq!(t.report.tally.attempts(), 4);
    assert_eq!(t.next(), Step::Done);
}

#[test]
fn targets_that_cannot_be_set_up_are_reported() {
    let r = setup_failure("g", "l", Proto::Dot, &BenchError::Tls("bad".to_string()));
    assert_eq!(r.tally.first_error, Some("tls: bad".to_string()));
    assert_eq!(r.tally.errors_text(), "tls=1");
    assert_eq!(r.tally.attempts(), 1);
    assert!(!r.has_samples());
}
