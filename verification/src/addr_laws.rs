//! What addresses, endpoints and errors are as texts, said of the texts themselves.

use vstd::prelude::*;

use crate::addr::{
    addresses_read_back, first_v4_at, ipv4_denoted, is_octet, Endpoint, EndpointView, Ipv4Addr, Resolved, SocketAddr,
};
use crate::error::BenchError;
use crate::number::{all_digits, decimal, digit_value, is_digit, value_of};
use crate::scan::{joined, pieces, splitting_then_joining};

verus! {

// ---------------------------------------------------------------------------
// Addresses
// ---------------------------------------------------------------------------

/// Digits without a leading zero are the decimal notation of their value.
pub proof fn digits_are_decimals(t: Seq<char>)
    requires
        all_digits(t),
        t.len() > 1 ==> t[0] != '0',
    ensures
        decimal(value_of(t)) == t,
        t.len() > 0 && t[0] != '0' ==> value_of(t) > 0,
    decreases t.len(),
{
    let u = t.drop_last();
    let c = t.last();
    assert(is_digit(t[t.len() - 1]));
    if t.len() == 1 {
        assert(value_of(u) == 0);
        assert(decimal(value_of(t)) =~= t);
    } else {
        assert(all_digits(u)) by {
            assert forall|i: int| 0 <= i < u.len() implies is_digit(#[trigger] u[i]) by {
                assert(is_digit(t[i]));
            }
        }
        assert(u[0] == t[0]);
        digits_are_decimals(u);
        let v = value_of(t);
        assert(v == value_of(u) * 10 + digit_value(c));
        assert(v / 10 == value_of(u));
        assert(v % 10 == digit_value(c));
        assert(decimal(v) =~= t);
    }
}

/// A text denotes an address exactly if it is that address in dotted decimal
/// notation, character by character.
pub proof fn addresses_have_one_notation(s: Seq<char>, ip: Ipv4Addr)
    ensures
        ipv4_denoted(s) == Some(ip) <==> s == ip.text(),
{
    addresses_read_back(ip);
    if ipv4_denoted(s) == Some(ip) {
        let p = pieces(s, '.');
        splitting_then_joining(s, '.');
        assert(is_octet(p[0]) && is_octet(p[1]) && is_octet(p[2]) && is_octet(p[3]));
        digits_are_decimals(p[0]);
        digits_are_decimals(p[1]);
        digits_are_decimals(p[2]);
        digits_are_decimals(p[3]);
        four_parts(p);
        dots_between(ip);
    }
}

/// Four texts joined by dots.
proof fn four_parts(p: Seq<Seq<char>>)
    requires
        p.len() == 4,
    ensures
        joined(p, seq!['.']) == p[0] + seq!['.'] + p[1] + seq!['.'] + p[2] + seq!['.'] + p[3],
{
    reveal_with_fuel(joined, 5);
    let p3 = p.drop_last();
    let p2 = p3.drop_last();
    assert(p2.drop_last().len() == 1);
    assert(joined(p2.drop_last(), seq!['.']) == p[0]);
    assert(joined(p2, seq!['.']) == p[0] + seq!['.'] + p[1]);
    assert(joined(p3, seq!['.']) == p[0] + seq!['.'] + p[1] + seq!['.'] + p[2]);
}

/// An address as a text is its four octets in decimal notation with dots between them.
pub proof fn dots_between(ip: Ipv4Addr)
    ensures
        ip.text() == decimal(ip.a as nat) + seq!['.'] + decimal(ip.b as nat) + seq!['.'] + decimal(ip.c as nat) + seq![
            '.',
        ] + decimal(ip.d as nat),
{
    reveal_strlit(".");
    assert("."@ =~= seq!['.']);
}

/// An address with a port is the address, a colon and the port.
pub proof fn ports_follow_a_colon(addr: SocketAddr)
    ensures
        addr.text() == addr.ip.text() + seq![':'] + decimal(addr.port as nat),
{
    reveal_strlit(":");
    assert(":"@ =~= seq![':']);
}

/// Private addresses are those of three blocks: the 16,777,216 from 10.0.0.0 on,
/// the 1,048,576 from 172.16.0.0 on, and the 65,536 from 192.168.0.0 on.
pub proof fn private_blocks_are_three(ip: Ipv4Addr)
    ensures
        ({
            let n = ip.a * 16777216 + ip.b * 65536 + ip.c * 256 + ip.d;
            ip.in_private_block() <==> 167772160 <= n < 184549376 || 2886729728 <= n < 2887778304 || 3232235520 <= n
                < 3232301056
        }),
{
}

// ---------------------------------------------------------------------------
// Endpoints
// ---------------------------------------------------------------------------

/// An endpoint is described by where it is reached, and HTTP/3 by a mark behind the URL.
pub proof fn descriptions_say_where(e: EndpointView)
    ensures
        match e {
            EndpointView::Udp(addr) => e.description() == addr.ip.text() + ":"@ + decimal(addr.port as nat),
            EndpointView::Dot { host, port, sni } => e.description() == host + ":"@ + decimal(port as nat),
            EndpointView::Doq { host, port, sni } => e.description() == host + ":"@ + decimal(port as nat),
            EndpointView::Doh { url, h3 } => (h3 ==> e.description() == url + " (h3)"@) && (!h3 ==> e.description()
                == url),
        },
{
}

/// The name that a server is verified by is no part of its description.
pub proof fn descriptions_leave_out_the_name(host: Seq<char>, port: u16, a: Seq<char>, b: Seq<char>)
    ensures
        (EndpointView::Dot { host, port, sni: a }).description() == (EndpointView::Dot { host, port, sni: b })
            .description(),
        (EndpointView::Doq { host, port, sni: a }).description() == (EndpointView::Dot { host, port, sni: b })
            .description(),
{
}

/// What is known of an endpoint is all that it holds.
pub proof fn endpoints_are_held(e: Endpoint)
    ensures
        match e {
            Endpoint::Udp(addr) => e@ == EndpointView::Udp(addr),
            Endpoint::Dot { host, port, sni } => e@ == (EndpointView::Dot { host: host@, port, sni: sni@ }),
            Endpoint::Doh { url, h3 } => e@ == (EndpointView::Doh { url: url@, h3 }),
            Endpoint::Doq { host, port, sni } => e@ == (EndpointView::Doq { host: host@, port, sni: sni@ }),
        },
{
}

/// Where any address is one of IPv4, the first such address is found, and it is the only first one.
pub proof fn the_first_address_is_taken(found: Seq<Resolved>, i: int)
    requires
        0 <= i < found.len(),
        found[i] is V4,
    ensures
        exists|k: int| #[trigger] first_v4_at(found, k) && k <= i,
        forall|k: int|
            #[trigger] first_v4_at(found, k) ==> 0 <= k <= i && found[k] is V4 && forall|j: int|
                0 <= j < k ==> !(found[j] is V4),
    decreases i,
{
    if exists|j: int| 0 <= j < i && found[j] is V4 {
        let j = choose|j: int| 0 <= j < i && found[j] is V4;
        the_first_address_is_taken(found, j);
        let k = choose|k: int| #[trigger] first_v4_at(found, k) && k <= j;
        assert(first_v4_at(found, k) && k <= i);
    } else {
        assert forall|j: int| 0 <= j < i implies found[j] is V6 by {
            assert(!(found[j] is V4));
        }
        assert(first_v4_at(found, i));
    }
}

// ---------------------------------------------------------------------------
// Errors
// ---------------------------------------------------------------------------

/// Each layer has a label of its own, what an error says is what it was made with,
/// and its summary is the label, a colon, a blank and what it says.
pub proof fn errors_say_where_and_what(s: String)
    ensures
        BenchError::Io(s).summary_text() == "io: "@ + s@,
        BenchError::Tls(s).summary_text() == "tls: "@ + s@,
        BenchError::Http(s).summary_text() == "http: "@ + s@,
        BenchError::Quic(s).summary_text() == "quic: "@ + s@,
        BenchError::BadName(s).summary_text() == "bad_name: "@ + s@,
        BenchError::BadResponse(s).summary_text() == "bad_response: "@ + s@,
{
    reveal_strlit(": ");
    reveal_strlit("io");
    reveal_strlit("tls");
    reveal_strlit("http");
    reveal_strlit("quic");
    reveal_strlit("bad_name");
    reveal_strlit("bad_response");
    reveal_strlit("io: ");
    reveal_strlit("tls: ");
    reveal_strlit("http: ");
    reveal_strlit("quic: ");
    reveal_strlit("bad_name: ");
    reveal_strlit("bad_response: ");
    assert("io"@ + ": "@ =~= "io: "@);
    assert("tls"@ + ": "@ =~= "tls: "@);
    assert("http"@ + ": "@ =~= "http: "@);
    assert("quic"@ + ": "@ =~= "quic: "@);
    assert("bad_name"@ + ": "@ =~= "bad_name: "@);
    assert("bad_response"@ + ": "@ =~= "bad_response: "@);
}

/// The label of an error is what its summary begins with, and what it says is the rest.
pub proof fn summaries_come_apart(e: BenchError)
    ensures
        e.summary_text() == e.label_text() + ": "@ + e.detail_text(),
        e.label_text() == match e {
            BenchError::Io(_) => "io"@,
            BenchError::Tls(_) => "tls"@,
            BenchError::Http(_) => "http"@,
            BenchError::Quic(_) => "quic"@,
            BenchError::BadName(_) => "bad_name"@,
            BenchError::BadResponse(_) => "bad_response"@,
        },
{
}

} // verus!
