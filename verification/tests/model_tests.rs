use dns_protocol_bench::addr::{
    check_server_name, host_and_port, is_private, literal_address, pick_v4, resolve_failure, server_name_outcome,
    Resolved,
};
use dns_protocol_bench::link::{Fate, Link, Start, Transport, Via};
use dns_protocol_bench::proto::is_chosen;
use dns_protocol_bench::{BenchError, Endpoint, Ipv4Addr, Mode, Proto, SocketAddr};

#[test]
fn protocol_names() {
    assert_eq!(Proto::all(), [Proto::Udp, Proto::Dot, Proto::Doh, Proto::Doh3, Proto::Doq]);
    let labels: Vec<&str> = Proto::all().iter().map(|p| p.label()).collect();
    assert_eq!(labels, ["UDP/53", "DoT/853", "DoH-h2", "DoH3", "DoQ/853"]);
    let shorts: Vec<&str> = Proto::all().iter().map(|p| p.short()).collect();
    assert_eq!(shorts, ["UDP", "DoT", "DoH", "DoH3", "DoQ"]);
    assert!(Proto::Udp.is_udp());
    assert!(!Proto::Doq.is_udp());
}

#[test]
fn protocol_names_parse_in_any_case() {
    for (name, proto) in [
        ("udp", Proto::Udp),
        ("plain", Proto::Udp),
        ("dot", Proto::Dot),
        ("tls", Proto::Dot),
        ("doh", Proto::Doh),
        ("h2", Proto::Doh),
        ("doh3", Proto::Doh3),
        ("h3", Proto::Doh3),
        ("doq", Proto::Doq),
        ("quic", Proto::Doq),
    ] {
        assert_eq!(Proto::parse(name), Some(proto));
        assert_eq!(Proto::parse(&format!(" {}\t", name.to_uppercase())), Some(proto));
    }
    for p in Proto::all() {
        assert_eq!(Proto::parse(p.short()), Some(p));
    }
    assert_eq!(Proto::parse(""), None);
    assert_eq!(Proto::parse("DoH-h2"), None);
    assert_eq!(Proto::parse("d oh"), None);
}

#[test]
fn mode_names() {
    assert_eq!(Mode::Hot.name(), "hot（连接复用）");
    assert_eq!(Mode::Cold.name(), "cold（每查询重建连接）");
    assert_eq!(Mode::parse(Mode::Hot.short()), Some(Mode::Hot));
    assert_eq!(Mode::parse(Mode::Cold.short()), Some(Mode::Cold));
    assert_eq!(Mode::parse("HOT"), None);
    assert!(is_chosen(&vec![Proto::Udp, Proto::Doq], Proto::Doq));
    assert!(!is_chosen(&vec![Proto::Udp, Proto::Doq], Proto::Doh));
}

#[test]
fn errors_name_their_origin() {
    let all = [
        (BenchError::Io("a".to_string()), "io"),
        (BenchError::Tls("a".to_string()), "tls"),
        (BenchError::Http("a".to_string()), "http"),
        (BenchError::Quic("a".to_string()), "quic"),
        (BenchError::BadName("a".to_string()), "bad_name"),
        (BenchError::BadResponse("a".to_string()), "bad_response"),
    ];
    for (e, label) in all {
        assert_eq!(e.label(), label);
        assert_eq!(e.detail(), "a");
        assert_eq!(e.summary(), format!("{}: a", label));
    }
}

#[test]
fn addresses_parse_and_print() {
    for text in ["0.0.0.0", "1.2.4.8", "255.255.255.255", "223.5.5.5", "10.0.100.9"] {
        let ip = Ipv4Addr::parse(text).unwrap();
        assert_eq!(ip.to_text(), text);
        assert_eq!(Ipv4Addr::parse(&ip.to_text()), Some(ip));
    }
    for text in ["", "1.2.3", "1.2.3.4.5", "256.1.1.1", "01.2.3.4", "1.2.3.4 ", "a.b.c.d", "1..3.4", "1.2.3.1000", "+1.2.3.4"] {
        assert_eq!(Ipv4Addr::parse(text), None);
    }
}

#[test]
fn octets_come_in_order() {
    assert_eq!(Ipv4Addr::parse("1.22.3.255").unwrap().octets(), [1, 22, 3, 255]);
    assert_eq!(SocketAddr { ip: Ipv4Addr::new(1, 2, 3, 4), port: 0 }.to_text(), "1.2.3.4:0");
}

#[test]
fn address_classes() {
    assert!(Ipv4Addr::new(127, 9, 9, 9).is_loopback());
    assert!(!Ipv4Addr::new(126, 0, 0, 1).is_loopback());
    assert!(Ipv4Addr::new(0, 0, 0, 0).is_unspecified());
    assert!(!Ipv4Addr::new(0, 0, 0, 1).is_unspecified());
    for ip in [[10, 1, 1, 1], [172, 16, 0, 1], [172, 31, 255, 1], [192, 168, 0, 1]] {
        assert!(is_private(&Ipv4Addr::new(ip[0], ip[1], ip[2], ip[3])));
    }
    for ip in [[11, 1, 1, 1], [172, 15, 0, 1], [172, 32, 0, 1], [192, 169, 0, 1], [223, 5, 5, 5]] {
        assert!(!is_private(&Ipv4Addr::new(ip[0], ip[1], ip[2], ip[3])));
    }
}

fn dot() -> Endpoint {
    Endpoint::Dot { host: "dot.pub".to_string(), port: 853, sni: "dot.pub".to_string() }
}

fn doq() -> Endpoint {
    Endpoint::Doq { host: "dns.alidns.com".to_string(), port: 853, sni: "dns.alidns.com".to_string() }
}

fn doh(h3: bool) -> Endpoint {
    Endpoint::Doh { url: "https://doh.pub/dns-query".to_string(), h3 }
}

fn udp() -> Endpoint {
    Endpoint::Udp(SocketAddr { ip: Ipv4Addr::new(223, 5, 5, 5), port: 53 })
}

#[test]
fn endpoints_describe_themselves() {
    assert_eq!(udp().describe(), "223.5.5.5:53");
    assert_eq!(dot().describe(), "dot.pub:853");
    assert_eq!(doh(false).describe(), "https://doh.pub/dns-query");
    assert_eq!(doh(true).describe(), "https://doh.pub/dns-query (h3)");
    assert_eq!(doq().describe(), "dns.alidns.com:853");
    assert_eq!(doq().duplicate().describe(), doq().describe());
    assert_eq!(host_and_port("::1", 65535), "::1:65535");
}

#[test]
fn hosts_resolve_to_their_first_ipv4_address() {
    let a = SocketAddr { ip: Ipv4Addr::new(1, 1, 1, 1), port: 853 };
    let b = SocketAddr { ip: Ipv4Addr::new(2, 2, 2, 2), port: 853 };
    assert_eq!(literal_address("1.1.1.1", 853), Some(a));
    assert_eq!(literal_address("one.one", 853), None);
    assert_eq!(pick_v4("h", &vec![Resolved::V6, Resolved::V4(b), Resolved::V4(a)]).unwrap(), b);
    assert_eq!(pick_v4("h", &vec![Resolved::V6]).unwrap_err().summary(), "io: no IPv4 for h");
    assert_eq!(pick_v4("h", &vec![]).unwrap_err().summary(), "io: no IPv4 for h");
    assert_eq!(resolve_failure("h", "gone").summary(), "io: resolve h failed: gone");
}

#[test]
fn server_names_are_checked() {
    assert!(check_server_name("dns.alidns.com").is_ok());
    assert!(check_server_name("223.5.5.5").is_ok());
    assert_eq!(check_server_name("not a name").unwrap_err().summary(), "tls: bad sni not a name: invalid dns name");
    assert_eq!(check_server_name("").unwrap_err().summary(), "tls: bad sni : invalid dns name");
    assert!(server_name_outcome("x", Ok(())).is_ok());
    assert_eq!(server_name_outcome("x", Err("no".to_string())).unwrap_err().summary(), "tls: bad sni x: no");
}

#[test]
fn udp_links_keep_nothing() {
    let mut link = Link::new(&udp());
    assert_eq!(link, Link { transport: Transport::Udp, open: false });
    for mode in [Mode::Hot, Mode::Cold] {
        assert_eq!(link.start(mode), Start::Ask(Via::Socket));
        assert_eq!(link.asked(Via::Socket, false), Fate::Stay);
    }
    assert_eq!(link.close(), Fate::Stay);
}

#[test]
fn hot_links_are_reused_until_an_error() {
    let mut link = Link::new(&doq());
    assert_eq!(link.start(Mode::Hot), Start::Connect);
    assert_eq!(link.connected(Mode::Hot, true), Some(Via::Kept));
    assert_eq!(link.asked(Via::Kept, true), Fate::Stay);
    assert_eq!(link.start(Mode::Hot), Start::Ask(Via::Kept));
    assert_eq!(link.asked(Via::Kept, false), Fate::Drop);
    assert_eq!(link.start(Mode::Hot), Start::Connect);
    assert_eq!(link.connected(Mode::Hot, false), None);
    assert_eq!(link.start(Mode::Hot), Start::Connect);
}

#[test]
fn cold_links_connect_every_time() {
    for (endpoint, fate) in [(dot(), Fate::Drop), (doh(true), Fate::Drop), (doq(), Fate::Close)] {
        let mut link = Link::new(&endpoint);
        let before = link;
        for answers in [true, false] {
            assert_eq!(link.start(Mode::Cold), Start::Connect);
            assert_eq!(link.connected(Mode::Cold, true), Some(Via::Fresh));
            assert_eq!(link.asked(Via::Fresh, answers), fate);
            assert_eq!(link, before);
        }
    }
}

#[test]
fn http_clients_are_there_from_the_start() {
    let mut link = Link::new(&doh(false));
    assert_eq!(link.transport, Transport::Https);
    assert_eq!(link.start(Mode::Hot), Start::Ask(Via::Kept));
    assert_eq!(link.close(), Fate::Drop);
    assert_eq!(link.start(Mode::Hot), Start::Connect);
}

#[test]
fn closing_tells_quic_peers() {
    let mut link = Link::new(&doq());
    assert_eq!(link.close(), Fate::Stay);
    link.connected(Mode::Hot, true);
    assert_eq!(link.close(), Fate::Close);
    assert!(!link.open);
    let mut link = Link::new(&dot());
    link.connected(Mode::Hot, true);
    assert_eq!(link.close(), Fate::Drop);
}
