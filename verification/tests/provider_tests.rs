use dns_protocol_bench::cli::ProviderOpt;
use dns_protocol_bench::domains::{builtin_domains, load_domains, load_fallback, try_read_domains, Loading};
use dns_protocol_bench::hijack::{
    bases_in, bases_line, fresh_probe_name, probe_name, unreachable_line, verdict_line, Findings, TRIES,
};
use dns_protocol_bench::isp::{
    addresses_in, default_interface, detect_isp_dns, dhcp_servers, is_gateway, isp_target, resolver_servers, texts_of,
    Detection,
};
use dns_protocol_bench::providers::{
    build_targets, host_of_url, known_backups, known_providers, matches_only, provider_order, representatives, select,
    speculative_cells, targets_from, Provider, Target,
};
use dns_protocol_bench::trial::Outcome;
use dns_protocol_bench::{BenchError, Endpoint, Ipv4Addr, Proto};

fn opt(list: &[&str]) -> ProviderOpt {
    let args: Vec<String> = list.iter().map(|s| s.to_string()).collect();
    ProviderOpt::parse(&args).0
}

fn labels(targets: &[Target]) -> Vec<String> {
    targets.iter().map(|t| t.label()).collect()
}

fn ip(a: u8, b: u8, c: u8, d: u8) -> Ipv4Addr {
    Ipv4Addr::new(a, b, c, d)
}

#[test]
fn the_registry_is_as_published() {
    let names: Vec<&str> = known_providers().iter().map(|p| p.name).collect();
    assert_eq!(
        names,
        [
            "阿里 DNS",
            "腾讯 DNSPod",
            "360 DNS",
            "OneDNS(微步)",
            "114 DNS",
            "百度 DNS",
            "字节 TrafficRoute",
            "CNNIC DNS"
        ]
    );
    let udp: Vec<String> = known_providers().iter().map(|p| p.udp.unwrap().to_text()).collect();
    assert_eq!(
        udp,
        [
            "223.5.5.5",
            "119.29.29.29",
            "101.226.4.6",
            "117.50.10.10",
            "114.114.114.114",
            "180.76.76.76",
            "180.184.1.1",
            "1.2.4.8"
        ]
    );
    for b in known_backups() {
        assert!(b.name.ends_with(&format!("({})", b.udp.to_text())));
    }
    assert_eq!(known_backups().len(), 6);
}

#[test]
fn all_declared_targets_are_built() {
    let targets = build_targets(&opt(&[]));
    assert_eq!(targets.len(), 5 + 4 + 4 + 4 + 4);
    assert_eq!(
        labels(&targets)[..6],
        [
            "阿里 DNS / UDP/53",
            "阿里 DNS / DoT/853",
            "阿里 DNS / DoH-h2",
            "阿里 DNS / DoH3",
            "阿里 DNS / DoQ/853",
            "腾讯 DNSPod / UDP/53"
        ]
    );
    assert!(targets.iter().all(|t| !t.speculative));
    assert_eq!(targets[1].endpoint.describe(), "dns.alidns.com:853");
    assert_eq!(targets[3].endpoint.describe(), "https://dns.alidns.com/dns-query (h3)");
}

#[test]
fn probing_adds_undeclared_protocols() {
    let targets = build_targets(&opt(&["--probe"]));
    assert_eq!(targets.len(), 21 + 3);
    let tried: Vec<String> = targets.iter().filter(|t| t.speculative).map(|t| t.label()).collect();
    assert_eq!(tried, ["腾讯 DNSPod / DoQ/853", "360 DNS / DoQ/853", "OneDNS(微步) / DoQ/853"]);
    let cells = speculative_cells(&targets);
    assert_eq!(cells[0], ("腾讯 DNSPod".to_string(), Proto::Doq));
    assert_eq!(cells.len(), 3);
}

#[test]
fn each_cell_has_one_target() {
    let targets = build_targets(&opt(&["--probe", "--with-backups"]));
    for (i, a) in targets.iter().enumerate() {
        for b in &targets[i + 1..] {
            assert!(a.provider != b.provider || a.proto != b.proto);
        }
    }
}

#[test]
fn probing_takes_the_host_from_the_url() {
    let p = Provider { name: "p", udp: None, dot: None, doh: Some("https://doh.example:443/q"), doq: None };
    let targets = targets_from(&vec![p], &vec![], &Proto::all().to_vec(), true, false);
    assert_eq!(labels(&targets), ["p / DoH-h2", "p / DoH3", "p / DoT/853"]);
    assert_eq!(targets[2].endpoint.describe(), "doh.example:853");
    assert!(targets[2].speculative);
    let p = Provider { name: "p", udp: None, dot: None, doh: Some("nothing"), doq: None };
    assert_eq!(targets_from(&vec![p], &vec![], &Proto::all().to_vec(), true, false).len(), 2);
}

#[test]
fn backups_are_added_on_request() {
    let targets = build_targets(&opt(&["--with-backups", "--protos", "udp"]));
    assert_eq!(targets.len(), 8 + 6);
    assert_eq!(targets[8].label(), "阿里 备(223.6.6.6) / UDP/53");
    assert_eq!(targets[8].endpoint.describe(), "223.6.6.6:53");
    assert_eq!(build_targets(&opt(&["--with-backups", "--protos", "dot"])).len(), 4);
}

#[test]
fn only_chosen_protocols_make_targets() {
    let targets = build_targets(&opt(&["--probe", "--protos", "doq,doh3"]));
    assert!(targets.iter().all(|t| t.proto == Proto::Doq || t.proto == Proto::Doh3));
    assert_eq!(targets.len(), 4 + 1 + 3);
}

#[test]
fn hosts_are_cut_out_of_urls() {
    assert_eq!(host_of_url("https://doh.pub/dns-query"), Some("doh.pub".to_string()));
    assert_eq!(host_of_url("https://doh.pub:443/dns-query"), Some("doh.pub".to_string()));
    assert_eq!(host_of_url("https://doh.pub"), Some("doh.pub".to_string()));
    assert_eq!(host_of_url("https://"), Some("".to_string()));
    assert_eq!(host_of_url("a://b://c"), Some("b".to_string()));
    assert_eq!(host_of_url("doh.pub/dns-query"), None);
}

#[test]
fn selection_is_by_part_of_the_name() {
    let only = Some(vec!["阿里".to_string(), "DoQ".to_string()]);
    assert!(matches_only("阿里 DNS / UDP/53", &only));
    assert!(matches_only("x / DoQ/853", &only));
    assert!(!matches_only("腾讯 DNSPod / UDP/53", &only));
    assert!(matches_only("anything", &None));
    assert!(!matches_only("anything", &Some(vec![])));
    assert!(matches_only("anything", &Some(vec!["".to_string()])));
    let targets = build_targets(&opt(&[]));
    assert_eq!(select(&targets, &None).len(), targets.len());
    let chosen = select(&targets, &Some(vec!["腾讯".to_string(), "CNNIC".to_string()]));
    assert_eq!(
        labels(&chosen),
        [
            "腾讯 DNSPod / UDP/53",
            "腾讯 DNSPod / DoT/853",
            "腾讯 DNSPod / DoH-h2",
            "腾讯 DNSPod / DoH3",
            "CNNIC DNS / UDP/53"
        ]
    );
    assert_eq!(provider_order(&chosen), ["腾讯 DNSPod", "CNNIC DNS"]);
}

#[test]
fn one_representative_for_each_provider() {
    let targets = build_targets(&opt(&["--probe", "--protos", "doq,dot"]));
    let reps = representatives(&targets);
    let names: Vec<&str> = reps.iter().map(|r| r.0.as_str()).collect();
    assert_eq!(names, ["阿里 DNS", "腾讯 DNSPod", "360 DNS", "OneDNS(微步)"]);
    assert!(matches!(reps[0].1, Endpoint::Dot { .. }));
    let tried = build_targets(&opt(&["--probe", "--protos", "doq"]));
    assert_eq!(representatives(&tried).len(), 1);
}

#[test]
fn dhcp_packets_list_servers() {
    let printed = "op = BOOTREPLY\r\ndomain_name_server (ip_mult): {202.96.69.38, 127.0.0.1, 202.96.64.68}\r\nrouter (ip_mult): {10.0.0.1}\r\n";
    assert_eq!(dhcp_servers(printed), vec![ip(202, 96, 69, 38), ip(202, 96, 64, 68)]);
    assert_eq!(dhcp_servers("domain_name_server {1.1.1.1\r\n"), vec![ip(1, 1, 1, 1)]);
    assert_eq!(dhcp_servers("domain_name_server 1.1.1.1"), vec![]);
    assert_eq!(dhcp_servers(""), vec![]);
}

#[test]
fn a_packet_comes_before_the_resolvers() {
    match detect_isp_dns(&Some("domain_name_server {8.8.8.8}".to_string())) {
        Detection::Found(ips) => assert_eq!(ips, vec![ip(8, 8, 8, 8)]),
        Detection::AskResolvers => panic!("passed over"),
    }
    assert!(matches!(detect_isp_dns(&Some("router {8.8.8.8}".to_string())), Detection::AskResolvers));
    assert!(matches!(detect_isp_dns(&None), Detection::AskResolvers));
}

#[test]
fn resolver_lists_name_servers() {
    let printed = "resolver #1\n  nameserver[0] : 192.168.1.1\n  nameserver[1] : 0.0.0.0\n  nameserver[2] : 192.168.1.1\n  nameserver[3] 8.8.8.8\n  nameserver[4] : fe80::1\n  nameserver[5] : 9.9.9.9,\n";
    assert_eq!(resolver_servers(printed), vec![ip(192, 168, 1, 1), ip(9, 9, 9, 9)]);
}

#[test]
fn found_servers_are_neither_local_nor_repeated() {
    let printed = "domain_name_server {127.0.0.1, 0.0.0.0, 5.5.5.5, 5.5.5.5}\ndomain_name_server {5.5.5.5}";
    assert_eq!(dhcp_servers(printed), vec![ip(5, 5, 5, 5)]);
}

#[test]
fn the_default_route_names_an_interface() {
    assert_eq!(default_interface("  gateway: 1\n  interface: en0\n interface: en1"), Some("en0".to_string()));
    assert_eq!(default_interface("gateway: 1"), None);
}

#[test]
fn addresses_given_by_hand() {
    assert_eq!(addresses_in("1.1.1.1, x ,2.2.2.2"), vec![ip(1, 1, 1, 1), ip(2, 2, 2, 2)]);
    assert_eq!(addresses_in("1.1.1.1,1.1.1.1"), vec![ip(1, 1, 1, 1), ip(1, 1, 1, 1)]);
    assert_eq!(addresses_in("x"), vec![]);
    assert_eq!(texts_of(&vec![ip(1, 1, 1, 1), ip(2, 2, 2, 2)]), vec!["1.1.1.1", "2.2.2.2"]);
}

#[test]
fn the_access_provider_is_a_target() {
    let public = vec![ip(202, 96, 69, 38), ip(192, 168, 1, 1)];
    let private = vec![ip(192, 168, 1, 1)];
    assert_eq!(isp_target(&public, true).label(), "运营商 DNS(手动填写) 202.96.69.38/192.168.1.1 / UDP/53");
    assert_eq!(isp_target(&public, false).label(), "运营商 DNS(自动) 202.96.69.38/192.168.1.1 / UDP/53");
    assert_eq!(isp_target(&private, false).label(), "运营商/网关 DNS(自动) 192.168.1.1 / UDP/53");
    assert_eq!(isp_target(&public, false).endpoint.describe(), "202.96.69.38:53");
    assert!(is_gateway(&private, false));
    assert!(!is_gateway(&private, true));
    assert!(!is_gateway(&public, false));
}

#[test]
fn domain_files_are_cleaned() {
    let content = Some("# list\n a.com \r\n\nb.com\n#x\na.com\nc.com".to_string());
    assert_eq!(try_read_domains(&content).unwrap(), vec!["a.com", "b.com", "c.com"]);
    assert_eq!(try_read_domains(&Some("\n# only\n".to_string())), None);
    assert_eq!(try_read_domains(&Some("".to_string())), None);
    assert_eq!(try_read_domains(&None), None);
}

#[test]
fn named_files_are_never_replaced() {
    let good = Some("a.com".to_string());
    match load_domains("p", true, &good) {
        Loading::Loaded(domains, source) => {
            assert_eq!(domains, vec!["a.com"]);
            assert_eq!(source, "p");
        }
        _ => panic!("not loaded"),
    }
    assert!(matches!(load_domains("p", true, &None), Loading::Refused));
    assert!(matches!(load_domains("p", false, &None), Loading::Missing));
    assert!(matches!(load_domains("p", false, &good), Loading::Loaded(_, _)));
}

#[test]
fn there_are_always_domains() {
    let (domains, source) = load_fallback("/x/domains.txt", &Some("z.com".to_string()));
    assert_eq!((domains, source.as_str()), (vec!["z.com".to_string()], "/x/domains.txt（自动回退）"));
    let (domains, source) = load_fallback("/x/domains.txt", &None);
    assert_eq!(source, "内置列表");
    assert_eq!(domains, builtin_domains());
    assert_eq!(domains.len(), 24);
    assert_eq!((domains[0].as_str(), domains[23].as_str()), ("www.baidu.com", "www.bing.com"));
}

fn denial() -> Outcome {
    Outcome::Answered(3, vec![])
}

fn verdict(outcomes: Vec<Outcome>) -> String {
    let mut f = Findings::new();
    for o in &outcomes {
        f.take_in(o);
    }
    assert_eq!(f.tries, TRIES);
    f.verdict()
}

#[test]
fn honest_servers_are_clean() {
    assert_eq!(verdict(vec![denial(), denial(), denial()]), "✅ 全部 NXDOMAIN（干净）");
}

#[test]
fn partly_silent_servers_are_mostly_clean() {
    assert_eq!(
        verdict(vec![denial(), Outcome::TimedOut, Outcome::Failed(BenchError::Io("x".to_string()))]),
        "✅ 1/3 次 NXDOMAIN，其余异常：超时"
    );
}

#[test]
fn silent_servers_get_no_tick() {
    assert_eq!(
        verdict(vec![Outcome::Failed(BenchError::Io("x".to_string())), Outcome::TimedOut, Outcome::TimedOut]),
        "❌ 全部查不通：io: x"
    );
}

#[test]
fn forged_addresses_are_listed_once() {
    let forged = || Outcome::Answered(0, vec![ip(1, 2, 3, 4), ip(5, 6, 7, 8), ip(1, 2, 3, 4)]);
    assert_eq!(
        verdict(vec![denial(), forged(), forged()]),
        "⚠️ 2/3 次塞了 A 记录：1.2.3.4, 5.6.7.8（疑似污染/拦截）"
    );
}

#[test]
fn other_answers_are_dishonest_too() {
    assert_eq!(
        verdict(vec![denial(), Outcome::Answered(0, vec![]), Outcome::Answered(2, vec![])]),
        "⚠️ 2/3 次不老实：NOERROR 但无 A 记录"
    );
    assert_eq!(
        verdict(vec![Outcome::Answered(5, vec![ip(1, 1, 1, 1)]), denial(), denial()]),
        "⚠️ 1/3 次不老实：rcode=5"
    );
}

#[test]
fn names_are_checked_under_clean_bases() {
    assert_eq!(bases_in(" .youtube.com, ,google.com,..."), vec!["youtube.com", "google.com"]);
    assert_eq!(bases_in(""), Vec::<String>::new());
    assert_eq!(
        bases_line(&bases_in("a,b")),
        "基准域名：a, b（--nxdomain-base 可换；每个查 3 次）"
    );
}

#[test]
fn probe_names_are_random() {
    assert_eq!(probe_name("x.com", 0xbeef), "nxd-check-0000beef.x.com");
    let a = fresh_probe_name("x.com");
    assert_eq!(a.len(), "nxd-check-00000000.x.com".len());
    assert!(a.starts_with("nxd-check-") && a.ends_with(".x.com"));
    assert!((0..16).any(|_| fresh_probe_name("x.com") != a));
}

#[test]
fn verdict_lines_are_padded() {
    assert_eq!(
        verdict_line("阿里 DNS", "google.com", "ok"),
        format!("  阿里 DNS{} google.com     ok", " ".repeat(22))
    );
    assert_eq!(
        unreachable_line("p", &"x".repeat(61)),
        format!("  p{} 初始化失败：{}…", " ".repeat(29), "x".repeat(58))
    );
}
