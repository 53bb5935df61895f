use dns_protocol_bench::number::{align_right, count_text, decimal_text, hex8, mmss, parse_count};
use dns_protocol_bench::scan::{
    after_first, contains, is_before, is_listed, join, same_text, split, strip_prefix, to_small_letters, trim,
    trim_end, trim_end_matches, trim_start_matches,
};
use dns_protocol_bench::text::{cell_right, chars_of, text_of};
use dns_protocol_bench::{display_width, fit, pad_to, truncate};

#[test]
fn wide_characters_take_two_columns() {
    assert_eq!(display_width(""), 0);
    assert_eq!(display_width("DNS"), 3);
    assert_eq!(display_width("阿里 DNS"), 8);
    assert_eq!(display_width("é…"), 4);
}

#[test]
fn padding_reaches_the_width_and_never_cuts() {
    assert_eq!(pad_to("阿里", 6), "阿里  ");
    assert_eq!(pad_to("abcdef", 3), "abcdef");
    assert_eq!(pad_to("", 0), "");
    for s in ["", "a", "阿里", "abcd", "阿里 DNS"] {
        let padded = pad_to(s, 10);
        assert_eq!(display_width(&padded), 10);
        assert!(padded.starts_with(s));
        assert_eq!(pad_to(&padded, 10), padded);
    }
}

#[test]
fn right_cells_align_by_columns() {
    assert_eq!(cell_right("✗", 5), "   ✗");
    assert_eq!(cell_right("12.3", 7), "   12.3");
    assert_eq!(cell_right("too long", 3), "too long");
}

#[test]
fn truncation_marks_what_it_cuts() {
    assert_eq!(truncate("abc", 3), "abc");
    assert_eq!(truncate("abcd", 3), "a…");
    assert_eq!(truncate("阿里云计算", 6), "阿里…");
    assert_eq!(truncate("阿里云计算", 7), "阿里…");
    assert_eq!(truncate("a阿里", 4), "a…");
    assert_eq!(truncate("abc", 2), "…");
    assert_eq!(truncate("abc", 0), "…");
    assert_eq!(truncate("", 0), "");
    assert_eq!(truncate("ab", 1), "…");
}

#[test]
fn cut_text_stays_within_the_width_and_fitted_text_has_it() {
    for s in ["", "abcdef", "阿里 DNS 与腾讯 DNSPod", "a阿b里"] {
        for max in 2..30 {
            assert!(display_width(&truncate(s, max)) <= max);
            assert_eq!(display_width(&fit(s, max)), max);
        }
    }
}

#[test]
fn fitting_cuts_and_then_pads() {
    assert_eq!(fit("abc", 5), "abc  ");
    assert_eq!(fit("abcdef", 5), "abc…");
    assert_eq!(fit("阿里云", 5), "阿… ");
    assert_eq!(pad_to(&fit("阿里云", 5), 5), fit("阿里云", 5));
}

#[test]
fn characters_and_back() {
    let chars = chars_of("aé阿");
    assert_eq!(chars, vec!['a', 'é', '阿']);
    assert_eq!(text_of(&chars, 1, 3), "é阿");
    assert_eq!(text_of(&chars, 1, 1), "");
}

#[test]
fn trimming_knows_unicode_white_space() {
    assert_eq!(trim("  a b \t\r\n"), "a b");
    assert_eq!(trim("\u{3000}a\u{a0}"), "a");
    assert_eq!(trim(" \u{2003} "), "");
    assert_eq!(trim("\u{200b}a"), "\u{200b}a");
    assert_eq!(trim_end(" a "), " a");
    assert_eq!(trim_end("   "), "");
    assert_eq!(trim(&trim(" x ")), trim(" x "));
    for c in (0u32..0x3100).filter_map(char::from_u32) {
        let s = c.to_string();
        assert_eq!(trim(&s), s.trim());
    }
}

#[test]
fn marks_are_stripped_at_one_end() {
    assert_eq!(trim_end_matches("a.b..", '.'), "a.b");
    assert_eq!(trim_end_matches("...", '.'), "");
    assert_eq!(trim_start_matches("..a.", '.'), "a.");
    assert_eq!(trim_start_matches("a", '.'), "a");
}

#[test]
fn splitting_and_joining_undo_each_other() {
    assert_eq!(split("", ','), vec![""]);
    assert_eq!(split("a,,b,", ','), vec!["a", "", "b", ""]);
    for s in ["", ",", "a", "a,b", ",a,,b"] {
        assert_eq!(join(&split(s, ','), ","), s);
    }
    assert_eq!(join(&vec![], ", "), "");
    assert_eq!(join(&vec!["x".to_string(), "y".to_string()], " / "), "x / y");
}

#[test]
fn searching_finds_the_first_occurrence() {
    assert!(contains("阿里 DNS / UDP/53", "里 D"));
    assert!(contains("abc", ""));
    assert!(!contains("abc", "abcd"));
    assert!(!contains("", "a"));
    assert_eq!(after_first("a: b: c", ":"), Some(" b: c".to_string()));
    assert_eq!(after_first("abc", ":"), None);
    assert_eq!(strip_prefix("interface: en0", "interface:"), Some(" en0".to_string()));
    assert_eq!(strip_prefix("interfac", "interface:"), None);
}

#[test]
fn comparing_texts() {
    assert!(same_text("阿里", "阿里"));
    assert!(!same_text("a", "ab"));
    assert!(!same_text("a", "b"));
    assert!(is_before("bad_name", "bad_response"));
    assert!(is_before("", "a"));
    assert!(is_before("a", "ab"));
    assert!(!is_before("a", "a"));
    assert!(!is_before("b", "a"));
    assert_eq!(to_small_letters("DoH3 É"), "doh3 É");
    let list = vec!["x".to_string(), "y".to_string()];
    assert!(is_listed(&list, "y"));
    assert!(!is_listed(&list, "z"));
}

#[test]
fn numbers_are_written_in_decimal() {
    assert_eq!(decimal_text(0), "0");
    assert_eq!(decimal_text(10), "10");
    assert_eq!(decimal_text(18446744073709551615), "18446744073709551615");
    assert_eq!(count_text(1232), "1232");
    assert_eq!(align_right("7", 3), "  7");
    assert_eq!(align_right("1234", 3), "1234");
}

#[test]
fn clocks_show_minutes_and_seconds() {
    assert_eq!(mmss(0), "0:00");
    assert_eq!(mmss(59), "0:59");
    assert_eq!(mmss(60), "1:00");
    assert_eq!(mmss(605), "10:05");
    assert_eq!(mmss(6000), "100:00");
}

#[test]
fn hexadecimal_has_eight_digits() {
    assert_eq!(hex8(0), "00000000");
    assert_eq!(hex8(0xdeadbeef), "deadbeef");
    assert_eq!(hex8(255), "000000ff");
}

#[test]
fn counts_read_back() {
    for n in [0usize, 1, 9, 10, 30, 12345, usize::MAX] {
        assert_eq!(parse_count(&count_text(n)), Some(n));
    }
    assert_eq!(parse_count("+5"), Some(5));
    assert_eq!(parse_count("007"), Some(7));
    for s in ["", "+", "-1", " 5", "5 ", "1.5", "18446744073709551616", "٣", "++1"] {
        assert_eq!(parse_count(s), None);
        assert_eq!(s.parse::<usize>().ok(), None);
    }
}
