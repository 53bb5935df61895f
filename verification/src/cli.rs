//! Command lines: what they may hold, and what they ask for.

use vstd::prelude::*;

use crate::addr::{ipv4_denoted, Endpoint, EndpointView, Ipv4Addr, SocketAddr};
use crate::number::{denoted, parse_count};
use crate::proto::{all_protos, mode_named, proto_named, Mode, Proto};
use crate::scan::{pieces, pieces_nonempty, same_text, split, trim, trimmed};
use crate::text::{text_in, texts, texts_in};

verus! {

/// The port of plain DNS.
pub const PLAIN_PORT: u16 = 53;

/// The port of DNS over TLS and of DNS over QUIC.
pub const TLS_PORT: u16 = 853;

/// The server that protocols are compared on where none is named; it speaks all of them.
pub const DEFAULT_SERVER: &'static str = "223.5.5.5";

/// How long one query may take where nothing else is asked for, in seconds.
pub const QUERY_TIMEOUT_SECS: u64 = 3;

// ---------------------------------------------------------------------------
// Why a command line is not carried out
// ---------------------------------------------------------------------------

/// One of the two programs.
#[derive(Debug, Clone, Copy, PartialEq, Eq, Structural)]
pub enum Tool {
    /// Compares the protocols on one server.
    Protocols,
    /// Compares providers by protocol.
    Providers,
}

/// Why a command line is not carried out.
#[derive(Debug)]
pub enum Stop {
    /// The usage was asked for.
    Help,
    /// An argument that needs a value is the last one.
    MissingValue(String),
    /// A connection mode that does not exist.
    BadMode(String),
    /// An argument that needs a number has something else.
    BadCount(String),
    /// A protocol that does not exist.
    UnknownProto(String),
    /// An argument that does not exist.
    UnknownArgument(String),
}

/// What a [`Stop`] holds.
#[verifier::ext_equal]
pub enum StopView {
    Help,
    MissingValue(Seq<char>),
    BadMode(Seq<char>),
    BadCount(Seq<char>),
    UnknownProto(Seq<char>),
    UnknownArgument(Seq<char>),
}

impl View for Stop {
    type V = StopView;

    open spec fn view(&self) -> StopView {
        match self {
            Stop::Help => StopView::Help,
            Stop::MissingValue(s) => StopView::MissingValue(s@),
            Stop::BadMode(s) => StopView::BadMode(s@),
            Stop::BadCount(s) => StopView::BadCount(s@),
            Stop::UnknownProto(s) => StopView::UnknownProto(s@),
            Stop::UnknownArgument(s) => StopView::UnknownArgument(s@),
        }
    }
}

/// Why a command line is not carried out, if it is not.
pub open spec fn stop_in(stop: Option<Stop>) -> Option<StopView> {
    match stop {
        Some(s) => Some(s@),
        None => None,
    }
}

impl StopView {
    /// The message; none where the usage was asked for.
    pub open spec fn message_text(self, tool: Tool) -> Seq<char> {
        match self {
            StopView::Help => ""@,
            StopView::MissingValue(key) => "参数 "@ + key + " 缺少取值"@,
            StopView::BadMode(value) => "--mode 只支持 hot / cold，收到 "@ + value,
            StopView::BadCount(key) => key + " 需要整数"@,
            StopView::UnknownProto(item) => match tool {
                Tool::Protocols => "无法识别的协议名："@ + item,
                Tool::Providers => "无法识别的协议名："@ + item + "（可用 udp,dot,doh,doh3,doq）"@,
            },
            StopView::UnknownArgument(key) => "未知参数："@ + key + "（--help 查看用法）"@,
        }
    }
}

impl Stop {
    /// The message; empty where the usage was asked for.
    pub fn message(&self, tool: Tool) -> (r: String)
        ensures
            r@ == self@.message_text(tool),
    {
        match self {
            Stop::Help => "".to_owned(),
            Stop::MissingValue(key) => {
                let mut out: String = "参数 ".to_owned();
                out.append(key.as_str());
                out.append(" 缺少取值");
                out
            },
            Stop::BadMode(value) => {
                let mut out: String = "--mode 只支持 hot / cold，收到 ".to_owned();
                out.append(value.as_str());
                out
            },
            Stop::BadCount(key) => {
                let mut out: String = key.clone();
                out.append(" 需要整数");
                out
            },
            Stop::UnknownProto(item) => {
                let mut out: String = "无法识别的协议名：".to_owned();
                out.append(item.as_str());
                match tool {
                    Tool::Protocols => {},
                    Tool::Providers => {
                        out.append("（可用 udp,dot,doh,doh3,doq）");
                    },
                }
                out
            },
            Stop::UnknownArgument(key) => {
                let mut out: String = "未知参数：".to_owned();
                out.append(key.as_str());
                out.append("（--help 查看用法）");
                out
            },
        }
    }
}

// ---------------------------------------------------------------------------
// What both programs take
// ---------------------------------------------------------------------------

/// What both programs can be told.
#[derive(Debug)]
pub struct Settings {
    pub mode: Mode,
    /// Timed queries to each target.
    pub rounds: usize,
    /// Queries to each target before those.
    pub warmup: usize,
    /// Every timeout that was given, as it was written, in order. The last one counts.
    pub timeouts: Vec<String>,
    pub domains_file: String,
    pub domains_explicit: bool,
    pub no_progress: bool,
    pub protos: Vec<Proto>,
}

/// What [`Settings`] hold.
#[verifier::ext_equal]
pub struct SettingsView {
    pub mode: Mode,
    pub rounds: usize,
    pub warmup: usize,
    pub timeouts: Seq<Seq<char>>,
    pub domains_file: Seq<char>,
    pub domains_explicit: bool,
    pub no_progress: bool,
    pub protos: Seq<Proto>,
}

impl View for Settings {
    type V = SettingsView;

    open spec fn view(&self) -> SettingsView {
        SettingsView {
            mode: self.mode,
            rounds: self.rounds,
            warmup: self.warmup,
            timeouts: texts(self.timeouts@),
            domains_file: self.domains_file@,
            domains_explicit: self.domains_explicit,
            no_progress: self.no_progress,
            protos: self.protos@,
        }
    }
}

/// The settings where nothing is asked for.
pub open spec fn default_settings() -> SettingsView {
    SettingsView {
        mode: Mode::Hot,
        rounds: 30,
        warmup: 5,
        timeouts: Seq::empty(),
        domains_file: "domains.txt"@,
        domains_explicit: false,
        no_progress: false,
        protos: all_protos(),
    }
}

/// The protocols that a list of names stands for, or the first name that stands for none.
pub open spec fn protos_named(names: Seq<Seq<char>>) -> Result<Seq<Proto>, Seq<char>>
    decreases names.len(),
{
    if names.len() == 0 {
        Ok(Seq::empty())
    } else {
        match protos_named(names.drop_last()) {
            Err(name) => Err(name),
            Ok(before) => match proto_named(names.last()) {
                Some(p) => Ok(before.push(p)),
                None => Err(names.last()),
            },
        }
    }
}

/// Whether `key` is one of the arguments with a value that both programs take.
/// The argument that lists protocols has another name in each.
pub open spec fn takes_setting(list_key: Seq<char>, key: Seq<char>) -> bool {
    ||| key == "--mode"@
    ||| key == "--rounds"@
    ||| key == "--warmup"@
    ||| key == "--timeout"@
    ||| key == "--domains"@
    ||| key == list_key
}

/// The settings after one argument with its value.
pub open spec fn with_setting(s: SettingsView, key: Seq<char>, value: Seq<char>) -> Result<
    SettingsView,
    StopView,
> {
    if key == "--mode"@ {
        match mode_named(value) {
            Some(mode) => Ok(SettingsView { mode, ..s }),
            None => Err(StopView::BadMode(value)),
        }
    } else if key == "--rounds"@ {
        match denoted(value) {
            Some(n) if n <= usize::MAX => Ok(SettingsView { rounds: n as usize, ..s }),
            _ => Err(StopView::BadCount(key)),
        }
    } else if key == "--warmup"@ {
        match denoted(value) {
            Some(n) if n <= usize::MAX => Ok(SettingsView { warmup: n as usize, ..s }),
            _ => Err(StopView::BadCount(key)),
        }
    } else if key == "--timeout"@ {
        Ok(SettingsView { timeouts: s.timeouts.push(value), ..s })
    } else if key == "--domains"@ {
        Ok(SettingsView { domains_file: value, domains_explicit: true, ..s })
    } else {
        match protos_named(pieces(value, ',')) {
            Ok(protos) => Ok(SettingsView { protos, ..s }),
            Err(name) => Err(StopView::UnknownProto(name)),
        }
    }
}

/// Reads a list of protocols with commas between them.
pub fn parse_protos(list: &str) -> (r: Result<Vec<Proto>, String>)
    ensures
        match (r, protos_named(pieces(list@, ','))) {
            (Ok(protos), Ok(expected)) => protos@ == expected,
            (Err(name), Err(expected)) => name@ == expected,
            _ => false,
        },
{
    let items = split(list, ',');
    let ghost names = pieces(list@, ',');
    let mut protos: Vec<Proto> = Vec::new();
    let mut i: usize = 0;
    while i < items.len()
        invariant
            i <= items@.len(),
            items@.len() == names.len(),
            forall|j: int| 0 <= j < items@.len() ==> (#[trigger] items@[j])@ == names[j],
            protos_named(names.take(i as int)) == Ok::<Seq<Proto>, Seq<char>>(protos@),
            names == pieces(list@, ','),
        decreases items@.len() - i,
    {
        assert(names.take(i + 1).drop_last() =~= names.take(i as int));
        match Proto::parse(items[i].as_str()) {
            Some(p) => protos.push(p),
            None => {
                proof {
                    first_unknown_stays(names, i + 1);
                }
                return Err(items[i].clone());
            },
        }
        i += 1;
    }
    assert(names.take(names.len() as int) =~= names);
    Ok(protos)
}

/// A name that stands for no protocol refuses every longer list.
proof fn first_unknown_stays(names: Seq<Seq<char>>, k: int)
    requires
        0 <= k <= names.len(),
        protos_named(names.take(k)) is Err,
    ensures
        protos_named(names) == protos_named(names.take(k)),
    decreases names.len() - k,
{
    if k == names.len() {
        assert(names.take(k) =~= names);
    } else {
        assert(names.take(k + 1).drop_last() =~= names.take(k));
        first_unknown_stays(names, k + 1);
    }
}

/// The value that follows an argument.
pub fn next_value(args: &Vec<String>, at: usize, key: &str) -> (r: Result<String, Stop>)
    ensures
        match r {
            Ok(value) => at + 1 < args@.len() && value@ == args@[at + 1]@,
            Err(stop) => at + 1 >= args@.len() && stop@ == StopView::MissingValue(key@),
        },
{
    if at < args.len() && args.len() - at > 1 {
        Ok(args[at + 1].clone())
    } else {
        Err(Stop::MissingValue(key.to_owned()))
    }
}

impl Settings {
    /// The settings where nothing is asked for.
    pub fn new() -> (r: Settings)
        ensures
            r@ == default_settings(),
    {
        let mut protos: Vec<Proto> = Vec::new();
        protos.push(Proto::Udp);
        protos.push(Proto::Dot);
        protos.push(Proto::Doh);
        protos.push(Proto::Doh3);
        protos.push(Proto::Doq);
        let r = Settings {
            mode: Mode::Hot,
            rounds: 30,
            warmup: 5,
            timeouts: Vec::new(),
            domains_file: "domains.txt".to_owned(),
            domains_explicit: false,
            no_progress: false,
            protos,
        };
        assert(r@ =~= default_settings());
        r
    }

    /// Whether `key` is one of the arguments with a value that both programs take.
    fn takes(list_key: &str, key: &str) -> (r: bool)
        ensures
            r == takes_setting(list_key@, key@),
    {
        same_text(key, "--mode") || same_text(key, "--rounds") || same_text(key, "--warmup") || same_text(
            key,
            "--timeout",
        ) || same_text(key, "--domains") || same_text(key, list_key)
    }

    /// Takes in one argument with its value.
    fn set(&mut self, key: &str, value: &str) -> (r: Result<(), Stop>)
        ensures
            match (r, with_setting(old(self)@, key@, value@)) {
                (Ok(_), Ok(expected)) => final(self)@ == expected,
                (Err(stop), Err(expected)) => stop@ == expected && final(self)@ == old(self)@,
                _ => false,
            },
    {
        if same_text(key, "--mode") {
            match Mode::parse(value) {
                Some(mode) => {
                    self.mode = mode;
                },
                None => {
                    return Err(Stop::BadMode(value.to_owned()));
                },
            }
        } else if same_text(key, "--rounds") {
            match parse_count(value) {
                Some(n) => {
                    self.rounds = n;
                },
                None => {
                    return Err(Stop::BadCount(key.to_owned()));
                },
            }
        } else if same_text(key, "--warmup") {
            match parse_count(value) {
                Some(n) => {
                    self.warmup = n;
                },
                None => {
                    return Err(Stop::BadCount(key.to_owned()));
                },
            }
        } else if same_text(key, "--timeout") {
            self.timeouts.push(value.to_owned());
            assert(texts(self.timeouts@) =~= texts(old(self).timeouts@).push(value@));
        } else if same_text(key, "--domains") {
            self.domains_file = value.to_owned();
            self.domains_explicit = true;
        } else {
            match parse_protos(value) {
                Ok(protos) => {
                    self.protos = protos;
                },
                Err(name) => {
                    return Err(Stop::UnknownProto(name));
                },
            }
        }
        Ok(())
    }
}

// ---------------------------------------------------------------------------
// Comparing protocols
// ---------------------------------------------------------------------------

/// What the comparison of protocols is told.
#[derive(Debug)]
pub struct ProtocolOpt {
    pub common: Settings,
    pub server: String,
    /// The name to verify the server by.
    pub sni: String,
    pub doh_url: Option<String>,
}

/// What a [`ProtocolOpt`] holds.
#[verifier::ext_equal]
pub struct ProtocolOptView {
    pub common: SettingsView,
    pub server: Seq<char>,
    pub sni: Seq<char>,
    pub doh_url: Option<Seq<char>>,
}

impl View for ProtocolOpt {
    type V = ProtocolOptView;

    open spec fn view(&self) -> ProtocolOptView {
        ProtocolOptView {
            common: self.common@,
            server: self.server@,
            sni: self.sni@,
            doh_url: text_in(self.doh_url),
        }
    }
}

/// What is compared where nothing is asked for.
pub open spec fn default_protocol_opt() -> ProtocolOptView {
    ProtocolOptView {
        common: default_settings(),
        server: DEFAULT_SERVER@,
        sni: DEFAULT_SERVER@,
        doh_url: None,
    }
}

/// The options after one argument with its value.
pub open spec fn with_protocol_setting(
    o: ProtocolOptView,
    key: Seq<char>,
    value: Seq<char>,
) -> Result<ProtocolOptView, StopView> {
    if key == "--server"@ {
        Ok(ProtocolOptView { server: value, sni: value, ..o })
    } else if key == "--sni"@ {
        Ok(ProtocolOptView { sni: value, ..o })
    } else if key == "--doh-url"@ {
        Ok(ProtocolOptView { doh_url: Some(value), ..o })
    } else {
        match with_setting(o.common, key, value) {
            Ok(common) => Ok(ProtocolOptView { common, ..o }),
            Err(stop) => Err(stop),
        }
    }
}

/// Whether `key` is an argument with a value.
pub open spec fn takes_protocol_setting(key: Seq<char>) -> bool {
    ||| key == "--server"@
    ||| key == "--sni"@
    ||| key == "--doh-url"@
    ||| takes_setting("--only"@, key)
}

/// The options after all arguments up to the first that stops, and why that one does.
pub open spec fn protocol_parsed(args: Seq<Seq<char>>, o: ProtocolOptView) -> (
    ProtocolOptView,
    Option<StopView>,
)
    decreases args.len(),
{
    if args.len() == 0 {
        (o, None)
    } else if args[0] == "--no-progress"@ {
        protocol_parsed(
            args.skip(1),
            ProtocolOptView { common: SettingsView { no_progress: true, ..o.common }, ..o },
        )
    } else if args[0] == "--help"@ || args[0] == "-h"@ {
        (o, Some(StopView::Help))
    } else if takes_protocol_setting(args[0]) {
        if args.len() == 1 {
            (o, Some(StopView::MissingValue(args[0])))
        } else {
            match with_protocol_setting(o, args[0], args[1]) {
                Ok(next) => protocol_parsed(args.skip(2), next),
                Err(stop) => (o, Some(stop)),
            }
        }
    } else {
        (o, Some(StopView::UnknownArgument(args[0])))
    }
}

/// The URL for DNS over HTTPS.
pub open spec fn doh_url_text(o: ProtocolOptView) -> Seq<char> {
    match o.doh_url {
        Some(url) => url,
        None => "https://"@ + o.server + "/dns-query"@,
    }
}

/// Where a protocol finds the server.
pub open spec fn endpoint_of(proto: Proto, o: ProtocolOptView) -> EndpointView {
    match proto {
        Proto::Udp => EndpointView::Udp(SocketAddr { ip: ipv4_denoted(o.server)->0, port: PLAIN_PORT }),
        Proto::Dot => EndpointView::Dot { host: o.server, port: TLS_PORT, sni: o.sni },
        Proto::Doh => EndpointView::Doh { url: doh_url_text(o), h3: false },
        Proto::Doh3 => EndpointView::Doh { url: doh_url_text(o), h3: true },
        Proto::Doq => EndpointView::Doq { host: o.server, port: TLS_PORT, sni: o.sni },
    }
}

impl ProtocolOpt {
    /// What is compared where nothing is asked for.
    pub fn new() -> (r: ProtocolOpt)
        ensures
            r@ == default_protocol_opt(),
    {
        ProtocolOpt {
            common: Settings::new(),
            server: DEFAULT_SERVER.to_owned(),
            sni: DEFAULT_SERVER.to_owned(),
            doh_url: None,
        }
    }

    /// Takes in one argument with its value.
    fn set(&mut self, key: &str, value: &str) -> (r: Result<(), Stop>)
        ensures
            match (r, with_protocol_setting(old(self)@, key@, value@)) {
                (Ok(_), Ok(expected)) => final(self)@ == expected,
                (Err(stop), Err(expected)) => stop@ == expected && final(self)@ == old(self)@,
                _ => false,
            },
    {
        if same_text(key, "--server") {
            self.server = value.to_owned();
            self.sni = value.to_owned();
            Ok(())
        } else if same_text(key, "--sni") {
            self.sni = value.to_owned();
            Ok(())
        } else if same_text(key, "--doh-url") {
            self.doh_url = Some(value.to_owned());
            Ok(())
        } else {
            self.common.set(key, value)
        }
    }

    /// Reads a command line, without the name of the program: the options after
    /// all arguments up to the first that stops, and why that one does.
    pub fn parse(args: &Vec<String>) -> (r: (ProtocolOpt, Option<Stop>))
        ensures
            (r.0@, stop_in(r.1)) == protocol_parsed(texts(args@), default_protocol_opt()),
    {
        let mut opt = ProtocolOpt::new();
        let ghost all = texts(args@);
        let mut i: usize = 0;
        assert(all.skip(0) =~= all);
        while i < args.len()
            invariant
                all == texts(args@),
                i <= args@.len(),
                protocol_parsed(all, default_protocol_opt()) == protocol_parsed(all.skip(i as int), opt@),
            decreases args@.len() - i,
        {
            let key: &str = args[i].as_str();
            let ghost rest = all.skip(i as int);
            assert(rest[0] == key@);
            assert(rest.skip(1) =~= all.skip(i + 1));
            if same_text(key, "--no-progress") {
                opt.common.no_progress = true;
                i += 1;
            } else if same_text(key, "--help") || same_text(key, "-h") {
                return (opt, Some(Stop::Help));
            } else if same_text(key, "--server") || same_text(key, "--sni") || same_text(key, "--doh-url")
                || Settings::takes("--only", key) {
                let value = match next_value(args, i, key) {
                    Ok(value) => value,
                    Err(stop) => {
                        return (opt, Some(stop));
                    },
                };
                assert(rest[1] == value@);
                assert(rest.skip(2) =~= all.skip(i + 2));
                match opt.set(key, value.as_str()) {
                    Ok(_) => {},
                    Err(stop) => {
                        return (opt, Some(stop));
                    },
                }
                i += 2;
            } else {
                return (opt, Some(Stop::UnknownArgument(args[i].clone())));
            }
        }
        (opt, None)
    }

    /// The URL for DNS over HTTPS: the one that was given, or else the usual one on the server.
    pub fn doh_url(&self) -> (r: String)
        ensures
            r@ == doh_url_text(self@),
    {
        match &self.doh_url {
            Some(url) => url.clone(),
            None => {
                let mut out: String = "https://".to_owned();
                out.append(self.server.as_str());
                out.append("/dns-query");
                out
            },
        }
    }
}

/// Where a protocol finds the server. Plain DNS needs the server's address, not a name.
pub fn endpoint_for(proto: Proto, opt: &ProtocolOpt) -> (r: Endpoint)
    requires
        proto == Proto::Udp ==> ipv4_denoted(opt.server@) is Some,
    ensures
        r@ == endpoint_of(proto, opt@),
{
    match proto {
        Proto::Udp => {
            let ip = Ipv4Addr::parse(opt.server.as_str()).unwrap();
            Endpoint::Udp(SocketAddr { ip, port: PLAIN_PORT })
        },
        Proto::Dot => Endpoint::Dot { host: opt.server.clone(), port: TLS_PORT, sni: opt.sni.clone() },
        Proto::Doh => Endpoint::Doh { url: opt.doh_url(), h3: false },
        Proto::Doh3 => Endpoint::Doh { url: opt.doh_url(), h3: true },
        Proto::Doq => Endpoint::Doq { host: opt.server.clone(), port: TLS_PORT, sni: opt.sni.clone() },
    }
}

// ---------------------------------------------------------------------------
// Comparing providers
// ---------------------------------------------------------------------------

/// What the comparison of providers is told.
#[derive(Debug)]
pub struct ProviderOpt {
    pub common: Settings,
    /// Parts of names; only targets with one of them in their own are asked.
    pub only: Option<Vec<String>>,
    /// Addresses of the access provider's servers, as they were written.
    pub isp: Option<String>,
    pub with_backups: bool,
    pub probe: bool,
    pub list_only: bool,
    pub verbose: bool,
    pub skip_hijack_check: bool,
    pub nxdomain_base: String,
}

/// What a [`ProviderOpt`] holds.
#[verifier::ext_equal]
pub struct ProviderOptView {
    pub common: SettingsView,
    pub only: Option<Seq<Seq<char>>>,
    pub isp: Option<Seq<char>>,
    pub with_backups: bool,
    pub probe: bool,
    pub list_only: bool,
    pub verbose: bool,
    pub skip_hijack_check: bool,
    pub nxdomain_base: Seq<char>,
}

impl View for ProviderOpt {
    type V = ProviderOptView;

    open spec fn view(&self) -> ProviderOptView {
        ProviderOptView {
            common: self.common@,
            only: texts_in(self.only),
            isp: text_in(self.isp),
            with_backups: self.with_backups,
            probe: self.probe,
            list_only: self.list_only,
            verbose: self.verbose,
            skip_hijack_check: self.skip_hijack_check,
            nxdomain_base: self.nxdomain_base@,
        }
    }
}

/// What is compared where nothing is asked for.
pub open spec fn default_provider_opt() -> ProviderOptView {
    ProviderOptView {
        common: default_settings(),
        only: None,
        isp: None,
        with_backups: false,
        probe: false,
        list_only: false,
        verbose: false,
        skip_hijack_check: false,
        nxdomain_base: "youtube.com,google.com"@,
    }
}

/// The pieces of a list with commas between them, each without white space at its ends.
pub open spec fn trimmed_pieces(list: Seq<char>) -> Seq<Seq<char>> {
    pieces(list, ',').map_values(|piece: Seq<char>| trimmed(piece))
}

/// The options after an argument without a value; none if it is no such argument.
pub open spec fn with_provider_flag(o: ProviderOptView, key: Seq<char>) -> Option<ProviderOptView> {
    if key == "--with-backups"@ {
        Some(ProviderOptView { with_backups: true, ..o })
    } else if key == "--probe"@ {
        Some(ProviderOptView { probe: true, ..o })
    } else if key == "--list"@ {
        Some(ProviderOptView { list_only: true, ..o })
    } else if key == "--verbose"@ {
        Some(ProviderOptView { verbose: true, ..o })
    } else if key == "--no-progress"@ {
        Some(ProviderOptView { common: SettingsView { no_progress: true, ..o.common }, ..o })
    } else if key == "--no-hijack-check"@ {
        Some(ProviderOptView { skip_hijack_check: true, ..o })
    } else {
        None
    }
}

/// Whether `key` is an argument with a value.
pub open spec fn takes_provider_setting(key: Seq<char>) -> bool {
    ||| key == "--isp"@
    ||| key == "--nxdomain-base"@
    ||| key == "--only"@
    ||| takes_setting("--protos"@, key)
}

/// The options after one argument with its value.
pub open spec fn with_provider_setting(
    o: ProviderOptView,
    key: Seq<char>,
    value: Seq<char>,
) -> Result<ProviderOptView, StopView> {
    if key == "--isp"@ {
        Ok(ProviderOptView { isp: Some(value), ..o })
    } else if key == "--nxdomain-base"@ {
        Ok(ProviderOptView { nxdomain_base: value, ..o })
    } else if key == "--only"@ {
        Ok(ProviderOptView { only: Some(trimmed_pieces(value)), ..o })
    } else {
        match with_setting(o.common, key, value) {
            Ok(common) => Ok(ProviderOptView { common, ..o }),
            Err(stop) => Err(stop),
        }
    }
}

/// The options after all arguments up to the first that stops, and why that one does.
pub open spec fn provider_parsed(args: Seq<Seq<char>>, o: ProviderOptView) -> (
    ProviderOptView,
    Option<StopView>,
)
    decreases args.len(),
{
    if args.len() == 0 {
        (o, None)
    } else if with_provider_flag(o, args[0]) is Some {
        provider_parsed(args.skip(1), with_provider_flag(o, args[0])->0)
    } else if args[0] == "--help"@ || args[0] == "-h"@ {
        (o, Some(StopView::Help))
    } else if takes_provider_setting(args[0]) {
        if args.len() == 1 {
            (o, Some(StopView::MissingValue(args[0])))
        } else {
            match with_provider_setting(o, args[0], args[1]) {
                Ok(next) => provider_parsed(args.skip(2), next),
                Err(stop) => (o, Some(stop)),
            }
        }
    } else {
        (o, Some(StopView::UnknownArgument(args[0])))
    }
}

/// The pieces of a list with commas between them, each without white space at its ends.
pub fn split_and_trim(list: &str) -> (r: Vec<String>)
    ensures
        texts(r@) == trimmed_pieces(list@),
{
    let items = split(list, ',');
    let mut out: Vec<String> = Vec::new();
    let mut i: usize = 0;
    while i < items.len()
        invariant
            i <= items@.len(),
            texts(items@) == pieces(list@, ','),
            texts(out@) == trimmed_pieces(list@).take(i as int),
        decreases items@.len() - i,
    {
        let piece = trim(items[i].as_str());
        assert(texts(items@)[i as int] == items@[i as int]@);
        let ghost before = texts(out@);
        let ghost added = piece@;
        out.push(piece);
        assert(texts(out@) =~= before.push(added));
        assert(texts(out@) =~= trimmed_pieces(list@).take(i + 1));
        i += 1;
    }
    assert(trimmed_pieces(list@).take(items@.len() as int) =~= trimmed_pieces(list@));
    out
}

impl ProviderOpt {
    /// What is compared where nothing is asked for.
    pub fn new() -> (r: ProviderOpt)
        ensures
            r@ == default_provider_opt(),
    {
        ProviderOpt {
            common: Settings::new(),
            only: None,
            isp: None,
            with_backups: false,
            probe: false,
            list_only: false,
            verbose: false,
            skip_hijack_check: false,
            nxdomain_base: "youtube.com,google.com".to_owned(),
        }
    }

    /// Takes in an argument without a value, if it is one.
    fn raise(&mut self, key: &str) -> (r: bool)
        ensures
            match with_provider_flag(old(self)@, key@) {
                Some(expected) => r && final(self)@ == expected,
                None => !r && final(self)@ == old(self)@,
            },
    {
        if same_text(key, "--with-backups") {
            self.with_backups = true;
            true
        } else if same_text(key, "--probe") {
            self.probe = true;
            true
        } else if same_text(key, "--list") {
            self.list_only = true;
            true
        } else if same_text(key, "--verbose") {
            self.verbose = true;
            true
        } else if same_text(key, "--no-progress") {
            self.common.no_progress = true;
            true
        } else if same_text(key, "--no-hijack-check") {
            self.skip_hijack_check = true;
            true
        } else {
            false
        }
    }

    /// Takes in one argument with its value.
    fn set(&mut self, key: &str, value: &str) -> (r: Result<(), Stop>)
        ensures
            match (r, with_provider_setting(old(self)@, key@, value@)) {
                (Ok(_), Ok(expected)) => final(self)@ == expected,
                (Err(stop), Err(expected)) => stop@ == expected && final(self)@ == old(self)@,
                _ => false,
            },
    {
        if same_text(key, "--isp") {
            self.isp = Some(value.to_owned());
            Ok(())
        } else if same_text(key, "--nxdomain-base") {
            self.nxdomain_base = value.to_owned();
            Ok(())
        } else if same_text(key, "--only") {
            self.only = Some(split_and_trim(value));
            Ok(())
        } else {
            self.common.set(key, value)
        }
    }

    /// Reads a command line, without the name of the program: the options after
    /// all arguments up to the first that stops, and why that one does.
    pub fn parse(args: &Vec<String>) -> (r: (ProviderOpt, Option<Stop>))
        ensures
            (r.0@, stop_in(r.1)) == provider_parsed(texts(args@), default_provider_opt()),
    {
        let mut opt = ProviderOpt::new();
        let ghost all = texts(args@);
        let mut i: usize = 0;
        assert(all.skip(0) =~= all);
        while i < args.len()
            invariant
                all == texts(args@),
                i <= args@.len(),
                provider_parsed(all, default_provider_opt()) == provider_parsed(all.skip(i as int), opt@),
            decreases args@.len() - i,
        {
            let key: &str = args[i].as_str();
            let ghost rest = all.skip(i as int);
            assert(rest[0] == key@);
            assert(rest.skip(1) =~= all.skip(i + 1));
            if opt.raise(key) {
                i += 1;
            } else if same_text(key, "--help") || same_text(key, "-h") {
                return (opt, Some(Stop::Help));
            } else if same_text(key, "--isp") || same_text(key, "--nxdomain-base") || same_text(key, "--only")
                || Settings::takes("--protos", key) {
                let value = match next_value(args, i, key) {
                    Ok(value) => value,
                    Err(stop) => {
                        return (opt, Some(stop));
                    },
                };
                assert(rest[1] == value@);
                assert(rest.skip(2) =~= all.skip(i + 2));
                match opt.set(key, value.as_str()) {
                    Ok(_) => {},
                    Err(stop) => {
                        return (opt, Some(stop));
                    },
                }
                i += 2;
            } else {
                return (opt, Some(Stop::UnknownArgument(args[i].clone())));
            }
        }
        (opt, None)
    }
}

// ---------------------------------------------------------------------------
// Laws
// ---------------------------------------------------------------------------

/// Arguments take effect from left to right: a command line that is accepted can
/// be continued, and the rest is read on top of it.
pub proof fn protocol_arguments_add_up(a: Seq<Seq<char>>, b: Seq<Seq<char>>, o: ProtocolOptView)
    requires
        protocol_parsed(a, o).1 is None,
    ensures
        protocol_parsed(a + b, o) == protocol_parsed(b, protocol_parsed(a, o).0),
    decreases a.len(),
{
    let all = a + b;
    if a.len() == 0 {
        assert(all =~= b);
    } else if a[0] == "--no-progress"@ {
        assert(all.skip(1) =~= a.skip(1) + b);
        protocol_arguments_add_up(
            a.skip(1),
            b,
            ProtocolOptView { common: SettingsView { no_progress: true, ..o.common }, ..o },
        );
    } else {
        assert(all.skip(2) =~= a.skip(2) + b);
        protocol_arguments_add_up(a.skip(2), b, with_protocol_setting(o, a[0], a[1])->Ok_0);
    }
}

/// Arguments take effect from left to right: a command line that is accepted can
/// be continued, and the rest is read on top of it.
pub proof fn provider_arguments_add_up(a: Seq<Seq<char>>, b: Seq<Seq<char>>, o: ProviderOptView)
    requires
        provider_parsed(a, o).1 is None,
    ensures
        provider_parsed(a + b, o) == provider_parsed(b, provider_parsed(a, o).0),
    decreases a.len(),
{
    let all = a + b;
    if a.len() == 0 {
        assert(all =~= b);
    } else if with_provider_flag(o, a[0]) is Some {
        assert(all.skip(1) =~= a.skip(1) + b);
        provider_arguments_add_up(a.skip(1), b, with_provider_flag(o, a[0])->0);
    } else {
        assert(all.skip(2) =~= a.skip(2) + b);
        provider_arguments_add_up(a.skip(2), b, with_provider_setting(o, a[0], a[1])->Ok_0);
    }
}

/// A list of protocols that is accepted is never empty, and holds one protocol for each name in it.
pub proof fn protocol_lists_are_nonempty(list: Seq<char>)
    requires
        protos_named(pieces(list, ',')) is Ok,
    ensures
        protos_named(pieces(list, ','))->Ok_0.len() == pieces(list, ',').len(),
        protos_named(pieces(list, ','))->Ok_0.len() > 0,
{
    one_proto_per_name(pieces(list, ','));
    pieces_nonempty(list, ',');
}

proof fn one_proto_per_name(names: Seq<Seq<char>>)
    requires
        protos_named(names) is Ok,
    ensures
        protos_named(names)->Ok_0.len() == names.len(),
    decreases names.len(),
{
    if names.len() > 0 {
        one_proto_per_name(names.drop_last());
    }
}

} // verus!
