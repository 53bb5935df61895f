use dns_protocol_bench::exchange::{
    check_status, doq_answer, doq_query, frame, frame_length, fresh_framed_query, fresh_query, DNS_MESSAGE, DOQ_ID,
    UDP_RESPONSE_MAX,
};
use dns_protocol_bench::wire::skip_name;
use dns_protocol_bench::{build_query, parse_answer, BenchError, Ipv4Addr};

fn header(id: u16, flags: u16, questions: u16, answers: u16) -> Vec<u8> {
    let mut m = Vec::new();
    for word in [id, flags, questions, answers, 0, 0] {
        m.extend_from_slice(&word.to_be_bytes());
    }
    m
}

fn question(m: &mut Vec<u8>) {
    m.extend_from_slice(b"\x01a\x02bc\x00\x00\x01\x00\x01");
}

fn record(m: &mut Vec<u8>, kind: u16, class: u16, data: &[u8]) {
    m.extend_from_slice(b"\xc0\x0c");
    m.extend_from_slice(&kind.to_be_bytes());
    m.extend_from_slice(&class.to_be_bytes());
    m.extend_from_slice(&[0, 0, 1, 44]);
    m.extend_from_slice(&(data.len() as u16).to_be_bytes());
    m.extend_from_slice(data);
}

fn message(e: BenchError) -> String {
    e.summary()
}

fn refusal(response: &[u8], id: u16) -> String {
    match parse_answer(response, id) {
        Ok(_) => panic!("accepted"),
        Err(e) => message(e),
    }
}

#[test]
fn queries_have_the_exact_bytes() {
    let q = build_query(0x1234, "a.bc").unwrap();
    assert_eq!(
        q,
        b"\x12\x34\x01\x00\x00\x01\x00\x00\x00\x00\x00\x00\x01a\x02bc\x00\x00\x01\x00\x01".to_vec()
    );
}

#[test]
fn queries_ignore_white_space_and_trailing_dots() {
    let plain = build_query(7, "www.baidu.com").unwrap();
    assert_eq!(build_query(7, "  www.baidu.com..\n").unwrap(), plain);
    assert_eq!(plain.len(), 12 + 15 + 4);
}

#[test]
fn bad_names_are_refused() {
    assert_eq!(message(build_query(1, "").unwrap_err()), "bad_name: empty domain");
    assert_eq!(message(build_query(1, " ... ").unwrap_err()), "bad_name: empty domain");
    assert_eq!(message(build_query(1, "a..b").unwrap_err()), "bad_name: invalid label in a..b");
    assert_eq!(message(build_query(1, ".a").unwrap_err()), "bad_name: invalid label in .a");
    assert_eq!(message(build_query(1, "阿里.com").unwrap_err()), "bad_name: invalid label in 阿里.com");
    let long_label = "x".repeat(64);
    assert!(build_query(1, &long_label).is_err());
    assert!(build_query(1, &"x".repeat(63)).is_ok());
}

#[test]
fn names_may_take_255_octets() {
    let label = "x".repeat(63);
    let fits = format!("{0}.{0}.{0}.{1}", label, "y".repeat(61));
    let q = build_query(1, &fits).unwrap();
    assert_eq!(q.len(), 12 + 255 + 4);
    let too_long = format!("{0}.{0}.{0}.{1}", label, "y".repeat(62));
    assert!(build_query(1, &too_long).is_err());
}

#[test]
fn answers_give_code_and_addresses() {
    let mut m = header(0x0102, 0x8180, 1, 3);
    question(&mut m);
    record(&mut m, 5, 1, b"\x01x\x00");
    record(&mut m, 1, 1, &[10, 0, 0, 1]);
    record(&mut m, 1, 1, &[192, 168, 3, 4]);
    let (rcode, ips) = parse_answer(&m, 0x0102).unwrap();
    assert_eq!(rcode, 0);
    assert_eq!(ips, vec![Ipv4Addr::new(10, 0, 0, 1), Ipv4Addr::new(192, 168, 3, 4)]);
    m.extend_from_slice(b"anything");
    assert_eq!(parse_answer(&m, 0x0102).unwrap(), (rcode, ips));
}

#[test]
fn other_records_give_no_address() {
    let mut m = header(9, 0x8180, 0, 3);
    m.extend_from_slice(b"");
    for (kind, class, data) in [(28u16, 1u16, vec![0u8; 16]), (1, 3, vec![1, 2, 3, 4]), (1, 1, vec![1, 2, 3])] {
        m.extend_from_slice(b"\x00");
        m.extend_from_slice(&kind.to_be_bytes());
        m.extend_from_slice(&class.to_be_bytes());
        m.extend_from_slice(&[0, 0, 0, 0]);
        m.extend_from_slice(&(data.len() as u16).to_be_bytes());
        m.extend_from_slice(&data);
    }
    assert_eq!(parse_answer(&m, 9).unwrap(), (0, vec![]));
}

#[test]
fn missing_names_have_code_three() {
    let mut m = header(5, 0x8183, 1, 0);
    question(&mut m);
    assert_eq!(parse_answer(&m, 5).unwrap(), (3, vec![]));
}

#[test]
fn broken_answers_are_refused() {
    assert_eq!(refusal(&[0; 11], 0), "bad_response: short header");
    assert_eq!(refusal(&header(1, 0x8000, 0, 0), 2), "bad_response: id/qr mismatch");
    assert_eq!(refusal(&header(1, 0x0100, 0, 0), 1), "bad_response: id/qr mismatch");
    assert_eq!(refusal(&header(1, 0x8000, 1, 0), 1), "bad_response: name truncated");
    let mut m = header(1, 0x8000, 1, 0);
    m.extend_from_slice(b"\x00\x00\x01");
    assert_eq!(refusal(&m, 1), "bad_response: q overflow");
    let mut m = header(1, 0x8000, 1, 0);
    m.extend_from_slice(b"\x05ab");
    assert_eq!(refusal(&m, 1), "bad_response: label overflow");
    let mut m = header(1, 0x8000, 1, 0);
    m.extend_from_slice(b"\x40a\x00\x00\x01\x00\x01");
    assert_eq!(refusal(&m, 1), "bad_response: bad label len");
    let mut m = header(1, 0x8000, 1, 0);
    m.push(0xc0);
    assert_eq!(refusal(&m, 1), "bad_response: name ptr truncated");
    let mut m = header(1, 0x8000, 1, 0);
    m.extend_from_slice(b"\xc0\x0c\x00\x01\x00\x01");
    assert_eq!(refusal(&m, 1), "bad_response: bad name pointer");
    let mut m = header(1, 0x8000, 0, 1);
    m.extend_from_slice(b"\x00\x00\x01\x00\x01");
    assert_eq!(refusal(&m, 1), "bad_response: rr overflow");
    let mut m = header(1, 0x8000, 0, 1);
    m.extend_from_slice(b"\x00\x00\x01\x00\x01\x00\x00\x00\x00\x00\x04\x01\x02");
    assert_eq!(refusal(&m, 1), "bad_response: rdata overflow");
}

#[test]
fn pointers_go_backwards_only() {
    let mut m = header(1, 0x8000, 0, 0);
    m.extend_from_slice(b"\x01a\xc0\x00");
    assert_eq!(skip_name(&m, 12).unwrap(), 16);
    m[15] = 12;
    assert!(skip_name(&m, 12).is_err());
    m[15] = 200;
    assert!(skip_name(&m, 12).is_err());
    assert_eq!(skip_name(b"\x00", 0).unwrap(), 1);
    assert_eq!(skip_name(b"", 0).unwrap_err().summary(), "bad_response: name truncated");
}

#[test]
fn a_pointer_may_not_follow_many_labels() {
    let mut m = header(1, 0x8000, 0, 0);
    for _ in 0..16 {
        m.extend_from_slice(b"\x01a");
    }
    m.extend_from_slice(b"\xc0\x00");
    assert!(skip_name(&m, 12).is_ok());
    let mut m = header(1, 0x8000, 0, 0);
    for _ in 0..17 {
        m.extend_from_slice(b"\x01a");
    }
    m.extend_from_slice(b"\xc0\x00");
    assert!(skip_name(&m, 12).is_err());
}

#[test]
fn queries_are_no_answers_to_themselves() {
    let q = build_query(77, "a.bc").unwrap();
    assert_eq!(refusal(&q, 77), "bad_response: id/qr mismatch");
    assert_eq!(skip_name(&q, 12).unwrap(), q.len() - 4);
}

#[test]
fn replies_to_queries_read_back() {
    let mut m = build_query(0xbeef, "www.qq.com").unwrap();
    m[2] = 0x81;
    m[3] = 0x80;
    m[7] = 1;
    record(&mut m, 1, 1, &[8, 8, 4, 4]);
    assert_eq!(parse_answer(&m, 0xbeef).unwrap(), (0, vec![Ipv4Addr::new(8, 8, 4, 4)]));
}

#[test]
fn frames_carry_their_length() {
    let framed = frame(&vec![7; 300]);
    assert_eq!(framed.len(), 302);
    assert_eq!(frame_length([framed[0], framed[1]]), 300);
    assert_eq!(&framed[2..], &vec![7u8; 300][..]);
    assert_eq!(frame_length([0xff, 0xff]), 65535);
}

#[test]
fn fresh_queries_hold_their_identifier() {
    let (id, q) = fresh_query("a.bc").unwrap();
    assert_eq!(q, build_query(id, "a.bc").unwrap());
    let ids: Vec<u16> = (0..64).map(|_| fresh_query("a.bc").unwrap().0).collect();
    assert!(ids.iter().any(|i| *i != ids[0]));
    let (id, framed) = fresh_framed_query("a.bc").unwrap();
    assert_eq!(framed, frame(&build_query(id, "a.bc").unwrap()));
    assert_eq!(fresh_query("..").unwrap_err().summary(), "bad_name: empty domain");
    assert_eq!(fresh_framed_query("a..b").unwrap_err().summary(), "bad_name: invalid label in a..b");
}

#[test]
fn quic_queries_have_identifier_zero() {
    assert_eq!(DOQ_ID, 0);
    assert_eq!(doq_query("a.bc").unwrap(), frame(&build_query(0, "a.bc").unwrap()));
    assert!(doq_query("").is_err());
    assert_eq!(doq_answer(&header(0, 0x8003, 0, 0)).unwrap(), (3, vec![]));
    assert!(doq_answer(&header(1, 0x8003, 0, 0)).is_err());
}

#[test]
fn only_2xx_is_success() {
    assert!(check_status(200).is_ok());
    assert!(check_status(299).is_ok());
    assert_eq!(check_status(199).unwrap_err().summary(), "http: status 199");
    assert_eq!(check_status(302).unwrap_err().summary(), "http: status 302");
    assert_eq!(check_status(404).unwrap_err().summary(), "http: status 404");
}

#[test]
fn wire_constants() {
    assert_eq!(DNS_MESSAGE, "application/dns-message");
    assert_eq!(UDP_RESPONSE_MAX, 1232);
}
