use dns_protocol_bench::cli::{
    endpoint_for, next_value, parse_protos, split_and_trim, ProtocolOpt, ProviderOpt, Stop, Tool, DEFAULT_SERVER,
    PLAIN_PORT, QUERY_TIMEOUT_SECS, TLS_PORT,
};
use dns_protocol_bench::{Mode, Proto};

fn args(list: &[&str]) -> Vec<String> {
    list.iter().map(|s| s.to_string()).collect()
}

fn protocols(list: &[&str]) -> ProtocolOpt {
    let (opt, stop) = ProtocolOpt::parse(&args(list));
    assert!(stop.is_none());
    opt
}

fn providers(list: &[&str]) -> ProviderOpt {
    let (opt, stop) = ProviderOpt::parse(&args(list));
    assert!(stop.is_none());
    opt
}

fn protocols_message(list: &[&str]) -> String {
    ProtocolOpt::parse(&args(list)).1.unwrap().message(Tool::Protocols)
}

fn providers_message(list: &[&str]) -> String {
    ProviderOpt::parse(&args(list)).1.unwrap().message(Tool::Providers)
}

#[test]
fn cli_constants() {
    assert_eq!((PLAIN_PORT, TLS_PORT, QUERY_TIMEOUT_SECS), (53, 853, 3));
    assert_eq!(DEFAULT_SERVER, "223.5.5.5");
}

#[test]
fn protocol_defaults() {
    let opt = protocols(&[]);
    assert_eq!(opt.common.mode, Mode::Hot);
    assert_eq!((opt.common.rounds, opt.common.warmup), (30, 5));
    assert_eq!(opt.common.domains_file, "domains.txt");
    assert!(!opt.common.domains_explicit);
    assert!(!opt.common.no_progress);
    assert!(opt.common.timeouts.is_empty());
    assert_eq!(opt.common.protos, Proto::all().to_vec());
    assert_eq!((opt.server.as_str(), opt.sni.as_str()), ("223.5.5.5", "223.5.5.5"));
    assert_eq!(opt.doh_url(), "https://223.5.5.5/dns-query");
}

#[test]
fn protocol_arguments() {
    let opt = protocols(&[
        "--mode", "cold", "--rounds", "50", "--warmup", "+10", "--timeout", "1.5", "--domains", "/tmp/d", "--only",
        "plain, DOH,quic", "--no-progress", "--timeout", "x",
    ]);
    assert_eq!(opt.common.mode, Mode::Cold);
    assert_eq!((opt.common.rounds, opt.common.warmup), (50, 10));
    assert_eq!(opt.common.timeouts, vec!["1.5", "x"]);
    assert_eq!(opt.common.domains_file, "/tmp/d");
    assert!(opt.common.domains_explicit);
    assert!(opt.common.no_progress);
    assert_eq!(opt.common.protos, vec![Proto::Udp, Proto::Doh, Proto::Doq]);
}

#[test]
fn the_server_also_sets_the_name_to_verify() {
    let opt = protocols(&["--server", "1.1.1.1"]);
    assert_eq!((opt.server.as_str(), opt.sni.as_str()), ("1.1.1.1", "1.1.1.1"));
    let opt = protocols(&["--server", "1.1.1.1", "--sni", "one.one"]);
    assert_eq!((opt.server.as_str(), opt.sni.as_str()), ("1.1.1.1", "one.one"));
    let opt = protocols(&["--sni", "one.one", "--server", "1.1.1.1"]);
    assert_eq!(opt.sni, "1.1.1.1");
    let opt = protocols(&["--doh-url", "https://x/q", "--server", "1.1.1.1"]);
    assert_eq!(opt.doh_url(), "https://x/q");
}

#[test]
fn later_arguments_are_read_on_top_of_earlier_ones() {
    let opt = protocols(&["--rounds", "1", "--mode", "cold", "--rounds", "2", "--mode", "hot"]);
    assert_eq!((opt.common.rounds, opt.common.mode), (2, Mode::Hot));
    let opt = providers(&["--protos", "udp", "--isp", "a", "--protos", "dot", "--isp", "b"]);
    assert_eq!(opt.common.protos, vec![Proto::Dot]);
    assert_eq!(opt.isp, Some("b".to_string()));
}

#[test]
fn protocol_refusals() {
    assert_eq!(protocols_message(&["--mode", "warm"]), "--mode 只支持 hot / cold，收到 warm");
    assert_eq!(protocols_message(&["--rounds", "many"]), "--rounds 需要整数");
    assert_eq!(protocols_message(&["--warmup", "-1"]), "--warmup 需要整数");
    assert_eq!(protocols_message(&["--only", "udp,tcp,smtp"]), "无法识别的协议名：tcp");
    assert_eq!(protocols_message(&["--only", ""]), "无法识别的协议名：");
    assert_eq!(protocols_message(&["--rounds"]), "参数 --rounds 缺少取值");
    assert_eq!(protocols_message(&["--protos", "udp"]), "未知参数：--protos（--help 查看用法）");
    assert_eq!(protocols_message(&["x"]), "未知参数：x（--help 查看用法）");
    assert!(matches!(ProtocolOpt::parse(&args(&["--help", "x"])).1, Some(Stop::Help)));
    assert!(matches!(ProtocolOpt::parse(&args(&["-h"])).1, Some(Stop::Help)));
    assert!(matches!(ProtocolOpt::parse(&args(&["x", "-h"])).1, Some(Stop::UnknownArgument(_))));
    assert_eq!(Stop::Help.message(Tool::Protocols), "");
}

#[test]
fn what_comes_before_a_refusal_is_kept() {
    let (opt, stop) = ProtocolOpt::parse(&args(&["--timeout", "2", "--bogus", "--timeout", "4"]));
    assert!(matches!(stop, Some(Stop::UnknownArgument(_))));
    assert_eq!(opt.common.timeouts, vec!["2"]);
}

#[test]
fn values_may_look_like_arguments() {
    let opt = protocols(&["--domains", "--help"]);
    assert_eq!(opt.common.domains_file, "--help");
}

#[test]
fn provider_defaults() {
    let opt = providers(&[]);
    assert_eq!(opt.only, None);
    assert_eq!(opt.isp, None);
    assert!(!opt.with_backups && !opt.probe && !opt.list_only && !opt.verbose && !opt.skip_hijack_check);
    assert_eq!(opt.nxdomain_base, "youtube.com,google.com");
    assert_eq!(opt.common.rounds, 30);
}

#[test]
fn provider_arguments() {
    let opt = providers(&[
        "--with-backups", "--probe", "--list", "--verbose", "--no-progress", "--no-hijack-check", "--only",
        " 阿里 ,腾讯", "--isp", "202.96.69.38", "--nxdomain-base", "x.com", "--protos", "udp,h3", "--mode", "cold",
    ]);
    assert!(opt.with_backups && opt.probe && opt.list_only && opt.verbose && opt.skip_hijack_check);
    assert!(opt.common.no_progress);
    assert_eq!(opt.only, Some(args(&["阿里", "腾讯"])));
    assert_eq!(opt.isp, Some("202.96.69.38".to_string()));
    assert_eq!(opt.nxdomain_base, "x.com");
    assert_eq!(opt.common.protos, vec![Proto::Udp, Proto::Doh3]);
    assert_eq!(opt.common.mode, Mode::Cold);
}

#[test]
fn provider_refusals() {
    assert_eq!(
        providers_message(&["--protos", "udp,tcp"]),
        "无法识别的协议名：tcp（可用 udp,dot,doh,doh3,doq）"
    );
    assert_eq!(providers_message(&["--only"]), "参数 --only 缺少取值");
    assert_eq!(providers_message(&["--server", "x"]), "未知参数：--server（--help 查看用法）");
    assert_eq!(providers_message(&["--mode", ""]), "--mode 只支持 hot / cold，收到 ");
    assert_eq!(providers_message(&["--rounds", ""]), "--rounds 需要整数");
    assert!(matches!(ProviderOpt::parse(&args(&["--verbose", "-h"])).1, Some(Stop::Help)));
}

#[test]
fn values_follow_their_arguments() {
    let list = args(&["--rounds", "5"]);
    assert_eq!(next_value(&list, 0, "--rounds").unwrap(), "5");
    assert!(matches!(next_value(&list, 1, "5"), Err(Stop::MissingValue(_))));
    assert!(next_value(&list, 9, "x").is_err());
    assert!(next_value(&list, usize::MAX, "x").is_err());
}

#[test]
fn protocol_lists_hold_one_protocol_per_name() {
    assert_eq!(parse_protos("udp").unwrap(), vec![Proto::Udp]);
    assert_eq!(parse_protos("doq,doq").unwrap(), vec![Proto::Doq, Proto::Doq]);
    assert_eq!(parse_protos("udp,,dot").unwrap_err(), "");
    assert_eq!(split_and_trim(" a,b ,"), vec!["a", "b", ""]);
}

#[test]
fn endpoints_for_each_protocol() {
    let opt = protocols(&["--server", "9.9.9.9", "--sni", "nine"]);
    assert_eq!(endpoint_for(Proto::Udp, &opt).describe(), "9.9.9.9:53");
    assert_eq!(endpoint_for(Proto::Dot, &opt).describe(), "9.9.9.9:853");
    assert_eq!(endpoint_for(Proto::Doh, &opt).describe(), "https://9.9.9.9/dns-query");
    assert_eq!(endpoint_for(Proto::Doh3, &opt).describe(), "https://9.9.9.9/dns-query (h3)");
    assert_eq!(endpoint_for(Proto::Doq, &opt).describe(), "9.9.9.9:853");
    assert!(format!("{:?}", endpoint_for(Proto::Dot, &opt)).contains("nine"));
    assert!(format!("{:?}", endpoint_for(Proto::Doq, &opt)).contains("nine"));
}
