//! Addresses and endpoints of DNS servers.

use rustls::pki_types::ServerName;
use vstd::prelude::*;

use crate::error::{BenchError, R};
use crate::number::{
    all_digits, decimal, decimal_has_no_leading_zero, decimal_reads_back, decimal_text, value_of,
};
use crate::scan::{pieces, pieces_of_longer, pieces_of_plain, split};
use crate::text::chars_of;

verus! {

// ---------------------------------------------------------------------------
// IPv4 addresses
// ---------------------------------------------------------------------------

/// An IPv4 address, octet by octet.
#[derive(Debug, Clone, Copy, PartialEq, Eq, Structural)]
pub struct Ipv4Addr {
    pub a: u8,
    pub b: u8,
    pub c: u8,
    pub d: u8,
}

/// An IPv4 address with a port.
#[derive(Debug, Clone, Copy, PartialEq, Eq, Structural)]
pub struct SocketAddr {
    pub ip: Ipv4Addr,
    pub port: u16,
}

/// Whether `t` is an octet in decimal notation: one to three digits, no leading zero, at most 255.
pub open spec fn is_octet(t: Seq<char>) -> bool {
    &&& all_digits(t)
    &&& t.len() <= 3
    &&& t.len() > 1 ==> t[0] != '0'
    &&& value_of(t) <= 255
}

/// The address that `s` denotes: four octets in decimal notation with dots between them.
pub open spec fn ipv4_denoted(s: Seq<char>) -> Option<Ipv4Addr> {
    let p = pieces(s, '.');
    if p.len() == 4 && is_octet(p[0]) && is_octet(p[1]) && is_octet(p[2]) && is_octet(p[3]) {
        Some(
            Ipv4Addr {
                a: value_of(p[0]) as u8,
                b: value_of(p[1]) as u8,
                c: value_of(p[2]) as u8,
                d: value_of(p[3]) as u8,
            },
        )
    } else {
        None
    }
}

/// The octet that `s` denotes.
fn parse_octet(s: &str) -> (r: Option<u8>)
    ensures
        match r {
            Some(n) => is_octet(s@) && value_of(s@) == n,
            None => !is_octet(s@),
        },
{
    let chars = chars_of(s);
    if chars.len() == 0 || chars.len() > 3 {
        return None;
    }
    if chars.len() > 1 && chars[0] == '0' {
        return None;
    }
    let mut n: u16 = 0;
    let mut i: usize = 0;
    let mut cap: u16 = 1;
    while i < chars.len()
        invariant
            chars@ == s@,
            i <= chars@.len() <= 3,
            n == value_of(s@.take(i as int)),
            n < cap,
            cap == (if i == 0 { 1int } else if i == 1 { 10 } else if i == 2 { 100 } else { 1000 }),
            forall|j: int| 0 <= j < i ==> '0' <= #[trigger] s@[j] <= '9',
        decreases chars@.len() - i,
    {
        let ch = chars[i];
        if !('0' <= ch && ch <= '9') {
            assert(!crate::number::is_digit(s@[i as int]));
            return None;
        }
        assert(s@.take(i + 1).drop_last() =~= s@.take(i as int));
        n = n * 10 + (ch as u16 - 0x30);
        cap = cap * 10;
        i += 1;
    }
    assert(s@.take(s@.len() as int) =~= s@);
    if n > 255 {
        return None;
    }
    Some(n as u8)
}

impl Ipv4Addr {
    /// The address in dotted decimal notation.
    pub open spec fn text(self) -> Seq<char> {
        decimal(self.a as nat) + "."@ + decimal(self.b as nat) + "."@ + decimal(self.c as nat) + "."@
            + decimal(self.d as nat)
    }

    /// Whether the address is in one of the private blocks 10/8, 172.16/12 and 192.168/16.
    pub open spec fn in_private_block(self) -> bool {
        ||| self.a == 10
        ||| self.a == 172 && 16 <= self.b <= 31
        ||| self.a == 192 && self.b == 168
    }

    /// The address `a.b.c.d`.
    pub fn new(a: u8, b: u8, c: u8, d: u8) -> (r: Ipv4Addr)
        ensures
            r == (Ipv4Addr { a, b, c, d }),
    {
        Ipv4Addr { a, b, c, d }
    }

    /// The four octets.
    pub fn octets(&self) -> (r: [u8; 4])
        ensures
            r@ == seq![self.a, self.b, self.c, self.d],
    {
        let r = [self.a, self.b, self.c, self.d];
        assert(r@ =~= seq![self.a, self.b, self.c, self.d]);
        r
    }

    /// The address that `s` denotes.
    pub fn parse(s: &str) -> (r: Option<Ipv4Addr>)
        ensures
            r == ipv4_denoted(s@),
    {
        let p = split(s, '.');
        if p.len() != 4 {
            return None;
        }
        let a = parse_octet(p[0].as_str());
        let b = parse_octet(p[1].as_str());
        let c = parse_octet(p[2].as_str());
        let d = parse_octet(p[3].as_str());
        match (a, b, c, d) {
            (Some(a), Some(b), Some(c), Some(d)) => Some(Ipv4Addr { a, b, c, d }),
            _ => None,
        }
    }

    /// The address in dotted decimal notation.
    pub fn to_text(&self) -> (r: String)
        ensures
            r@ == self.text(),
    {
        let mut out = decimal_text(self.a as u64);
        out.append(".");
        out.append(decimal_text(self.b as u64).as_str());
        out.append(".");
        out.append(decimal_text(self.c as u64).as_str());
        out.append(".");
        out.append(decimal_text(self.d as u64).as_str());
        out
    }

    /// Whether the address is in the loopback block 127/8.
    pub fn is_loopback(&self) -> (r: bool)
        ensures
            r == (self.a == 127),
    {
        self.a == 127
    }

    /// Whether the address is 0.0.0.0.
    pub fn is_unspecified(&self) -> (r: bool)
        ensures
            r == (*self == Ipv4Addr { a: 0, b: 0, c: 0, d: 0 }),
    {
        self.a == 0 && self.b == 0 && self.c == 0 && self.d == 0
    }
}

/// Whether the address is in one of the private blocks 10/8, 172.16/12 and 192.168/16.
pub fn is_private(ip: &Ipv4Addr) -> (r: bool)
    ensures
        r == ip.in_private_block(),
{
    ip.a == 10 || (ip.a == 172 && 16 <= ip.b && ip.b <= 31) || (ip.a == 192 && ip.b == 168)
}

impl SocketAddr {
    /// Address and port with a colon between them.
    pub open spec fn text(self) -> Seq<char> {
        self.ip.text() + ":"@ + decimal(self.port as nat)
    }

    /// Address and port with a colon between them.
    pub fn to_text(&self) -> (r: String)
        ensures
            r@ == self.text(),
    {
        let mut out = self.ip.to_text();
        out.append(":");
        out.append(decimal_text(self.port as u64).as_str());
        out
    }
}

/// The decimal notation of an octet is one octet, and holds no dot.
proof fn octet_reads_back(n: u8)
    ensures
        is_octet(decimal(n as nat)),
        value_of(decimal(n as nat)) == n,
        !decimal(n as nat).contains('.'),
{
    decimal_reads_back(n as nat);
    decimal_has_no_leading_zero(n as nat);
    let s = decimal(n as nat);
    assert forall|i: int| 0 <= i < s.len() implies s[i] != '.' by {
        assert(crate::number::is_digit(s[i]));
    }
}

/// An address reads back from its dotted decimal notation.
pub proof fn addresses_read_back(ip: Ipv4Addr)
    ensures
        ipv4_denoted(ip.text()) == Some(ip),
{
    let (a, b, c, d) = (decimal(ip.a as nat), decimal(ip.b as nat), decimal(ip.c as nat), decimal(ip.d as nat));
    octet_reads_back(ip.a);
    octet_reads_back(ip.b);
    octet_reads_back(ip.c);
    octet_reads_back(ip.d);
    reveal_strlit(".");
    assert("."@ =~= seq!['.']);
    let ab = a.push('.') + b;
    let abc = ab.push('.') + c;
    let abcd = abc.push('.') + d;
    pieces_of_plain(a, '.');
    pieces_of_longer(a, '.', b);
    pieces_of_longer(ab, '.', c);
    pieces_of_longer(abc, '.', d);
    assert(ip.text() =~= abcd);
    assert(pieces(abcd, '.') =~= seq![a, b, c, d]);
}

// ---------------------------------------------------------------------------
// Endpoints
// ---------------------------------------------------------------------------

/// An upstream server, by the protocol it is asked with.
#[derive(Debug, Clone)]
pub enum Endpoint {
    /// Plain DNS over UDP.
    Udp(SocketAddr),
    /// DNS over TLS: where to connect, and the name to verify.
    Dot { host: String, port: u16, sni: String },
    /// DNS over HTTPS: the whole URL, and whether to speak nothing but HTTP/3.
    Doh { url: String, h3: bool },
    /// DNS over QUIC: where to connect, and the name to verify.
    Doq { host: String, port: u16, sni: String },
}

/// What an [`Endpoint`] holds.
pub enum EndpointView {
    Udp(SocketAddr),
    Dot { host: Seq<char>, port: u16, sni: Seq<char> },
    Doh { url: Seq<char>, h3: bool },
    Doq { host: Seq<char>, port: u16, sni: Seq<char> },
}

impl View for Endpoint {
    type V = EndpointView;

    open spec fn view(&self) -> EndpointView {
        match self {
            Endpoint::Udp(addr) => EndpointView::Udp(*addr),
            Endpoint::Dot { host, port, sni } => EndpointView::Dot { host: host@, port: *port, sni: sni@ },
            Endpoint::Doh { url, h3 } => EndpointView::Doh { url: url@, h3: *h3 },
            Endpoint::Doq { host, port, sni } => EndpointView::Doq { host: host@, port: *port, sni: sni@ },
        }
    }
}

impl EndpointView {
    /// The target in a form for reading.
    pub open spec fn description(self) -> Seq<char> {
        match self {
            EndpointView::Udp(addr) => addr.text(),
            EndpointView::Dot { host, port, .. } => host + ":"@ + decimal(port as nat),
            EndpointView::Doh { url, h3 } => if h3 {
                url + " (h3)"@
            } else {
                url
            },
            EndpointView::Doq { host, port, .. } => host + ":"@ + decimal(port as nat),
        }
    }
}

/// Host and port with a colon between them.
pub fn host_and_port(host: &str, port: u16) -> (r: String)
    ensures
        r@ == host@ + ":"@ + decimal(port as nat),
{
    let mut out: String = host.to_owned();
    out.append(":");
    out.append(decimal_text(port as u64).as_str());
    out
}

impl Endpoint {
    /// The target in a form for reading.
    pub fn describe(&self) -> (r: String)
        ensures
            r@ == self@.description(),
    {
        match self {
            Endpoint::Udp(addr) => addr.to_text(),
            Endpoint::Dot { host, port, .. } => host_and_port(host.as_str(), *port),
            Endpoint::Doh { url, h3 } => {
                if *h3 {
                    let mut out: String = url.clone();
                    out.append(" (h3)");
                    out
                } else {
                    url.clone()
                }
            },
            Endpoint::Doq { host, port, .. } => host_and_port(host.as_str(), *port),
        }
    }

    /// An endpoint with the same contents.
    pub fn duplicate(&self) -> (r: Endpoint)
        ensures
            r@ == self@,
    {
        match self {
            Endpoint::Udp(addr) => Endpoint::Udp(*addr),
            Endpoint::Dot { host, port, sni } => Endpoint::Dot {
                host: host.clone(),
                port: *port,
                sni: sni.clone(),
            },
            Endpoint::Doh { url, h3 } => Endpoint::Doh { url: url.clone(), h3: *h3 },
            Endpoint::Doq { host, port, sni } => Endpoint::Doq {
                host: host.clone(),
                port: *port,
                sni: sni.clone(),
            },
        }
    }
}

// ---------------------------------------------------------------------------
// From host names to addresses
// ---------------------------------------------------------------------------

/// One address that a host name resolved to.
#[derive(Debug, Clone, Copy, PartialEq, Eq, Structural)]
pub enum Resolved {
    V4(SocketAddr),
    V6,
}

/// Whether position `i` holds the first IPv4 address of `found`.
pub open spec fn first_v4_at(found: Seq<Resolved>, i: int) -> bool {
    &&& 0 <= i < found.len()
    &&& found[i] is V4
    &&& forall|j: int| 0 <= j < i ==> found[j] is V6
}

/// The address to connect to where `host` is itself an IPv4 address, so that nothing has to be resolved.
pub fn literal_address(host: &str, port: u16) -> (r: Option<SocketAddr>)
    ensures
        match r {
            Some(addr) => ipv4_denoted(host@) == Some(addr.ip) && addr.port == port,
            None => ipv4_denoted(host@) is None,
        },
{
    match Ipv4Addr::parse(host) {
        Some(ip) => Some(SocketAddr { ip, port }),
        None => None,
    }
}

/// The first IPv4 address among those that `host` resolved to.
pub fn pick_v4(host: &str, found: &Vec<Resolved>) -> (r: R<SocketAddr>)
    ensures
        match r {
            Ok(addr) => exists|i: int| first_v4_at(found@, i) && found@[i] == Resolved::V4(addr),
            Err(BenchError::Io(m)) => m@ == "no IPv4 for "@ + host@ && forall|i: int|
                0 <= i < found@.len() ==> found@[i] is V6,
            Err(_) => false,
        },
{
    let mut i: usize = 0;
    while i < found.len()
        invariant
            i <= found@.len(),
            forall|j: int| 0 <= j < i ==> found@[j] is V6,
        decreases found@.len() - i,
    {
        match found[i] {
            Resolved::V4(addr) => {
                assert(first_v4_at(found@, i as int));
                return Ok(addr);
            },
            Resolved::V6 => {},
        }
        i += 1;
    }
    let mut message: String = "no IPv4 for ".to_owned();
    message.append(host);
    Err(BenchError::Io(message))
}

/// The error for a host name that could not be resolved at all.
pub fn resolve_failure(host: &str, cause: &str) -> (r: BenchError)
    ensures
        match r {
            BenchError::Io(m) => m@ == "resolve "@ + host@ + " failed: "@ + cause@,
            _ => false,
        },
{
    let mut message: String = "resolve ".to_owned();
    message.append(host);
    message.append(" failed: ");
    message.append(cause);
    BenchError::Io(message)
}

// ---------------------------------------------------------------------------
// Names to verify a server by
// ---------------------------------------------------------------------------

/// Whether `ServerName::try_from` of `rustls::pki_types` takes a text for the name of a server.
pub uninterp spec fn is_server_name(name: Seq<char>) -> bool;

/// Calls `ServerName::try_from` of `rustls::pki_types`. Whether it succeeds is a
/// function of the text alone; its only error displays as "invalid dns name".
#[verifier::external_body]
fn try_server_name(name: &str) -> (r: Result<(), String>)
    ensures
        match r {
            Ok(_) => is_server_name(name@),
            Err(m) => !is_server_name(name@) && m@ == "invalid dns name"@,
        },
{
    match ServerName::try_from(name.to_owned()) {
        Ok(_) => Ok(()),
        Err(e) => Err(e.to_string()),
    }
}

/// Maps the outcome of reading a server name to an error of the bench.
pub fn server_name_outcome(name: &str, outcome: Result<(), String>) -> (r: R<()>)
    ensures
        match (outcome, r) {
            (Ok(_), Ok(_)) => true,
            (Err(cause), Err(BenchError::Tls(m))) => m@ == "bad sni "@ + name@ + ": "@ + cause@,
            _ => false,
        },
{
    match outcome {
        Ok(_) => Ok(()),
        Err(cause) => {
            let mut message: String = "bad sni ".to_owned();
            message.append(name);
            message.append(": ");
            message.append(cause.as_str());
            Err(BenchError::Tls(message))
        },
    }
}

/// Checks that `name` can stand for the server in a TLS handshake.
pub fn check_server_name(name: &str) -> (r: R<()>)
    ensures
        match r {
            Ok(_) => is_server_name(name@),
            Err(BenchError::Tls(m)) => !is_server_name(name@) && m@ == "bad sni "@ + name@ + ": "@
                + "invalid dns name"@,
            Err(_) => false,
        },
{
    server_name_outcome(name, try_server_name(name))
}

} // verus!
