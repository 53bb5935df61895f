//! The servers of the access provider: given by hand, or found in what the
//! system's own tools print.

use vstd::prelude::*;

use crate::addr::{ipv4_denoted, is_private, Endpoint, EndpointView, Ipv4Addr, SocketAddr};
use crate::cli::PLAIN_PORT;
use crate::proto::Proto;
use crate::providers::{Target, TargetView};
use crate::scan::{
    after_first, begins_with, contains, contains_text, first_index, join, joined, pieces, pieces_nonempty,
    split, strip_prefix, trim, trim_end_matches, trimmed, without_trailing,
};
use crate::text::{text_in, texts};

verus! {

// ---------------------------------------------------------------------------
// Model
// ---------------------------------------------------------------------------

/// The addresses found so far, and the one that `text` denotes if it is a new
/// one that another machine can have. A comma may follow it.
pub open spec fn noted(found: Seq<Ipv4Addr>, text: Seq<char>) -> Seq<Ipv4Addr> {
    match ipv4_denoted(without_trailing(trimmed(text), ',')) {
        Some(ip) => if ip.a == 127 || ip == (Ipv4Addr { a: 0, b: 0, c: 0, d: 0 }) || found.contains(ip) {
            found
        } else {
            found.push(ip)
        },
        None => found,
    }
}

/// The addresses after all of `parts`.
pub open spec fn all_noted(found: Seq<Ipv4Addr>, parts: Seq<Seq<char>>) -> Seq<Ipv4Addr>
    decreases parts.len(),
{
    if parts.len() == 0 {
        found
    } else {
        noted(all_noted(found, parts.drop_last()), parts.last())
    }
}

/// What a line of a DHCP packet lists as servers: `domain_name_server ... {a, b}`.
pub open spec fn dhcp_parts(line: Seq<char>) -> Seq<Seq<char>> {
    if contains_text(line, "domain_name_server"@) && pieces(line, '{').len() > 1 {
        pieces(pieces(pieces(line, '{')[1], '}')[0], ',')
    } else {
        Seq::empty()
    }
}

/// The servers in the lines of a DHCP packet.
pub open spec fn dhcp_found(lines: Seq<Seq<char>>) -> Seq<Ipv4Addr>
    decreases lines.len(),
{
    if lines.len() == 0 {
        Seq::empty()
    } else {
        all_noted(dhcp_found(lines.drop_last()), dhcp_parts(lines.last()))
    }
}

/// What a line of a list of resolvers names: `nameserver[0] : a`.
pub open spec fn resolver_parts(line: Seq<char>) -> Seq<Seq<char>> {
    let rest = trimmed(line).skip("nameserver["@.len() as int);
    if begins_with(trimmed(line), "nameserver["@) && contains_text(rest, ":"@) {
        seq![rest.skip(first_index(rest, ":"@) + ":"@.len())]
    } else {
        Seq::empty()
    }
}

/// The servers in the lines of a list of resolvers.
pub open spec fn resolvers_found(lines: Seq<Seq<char>>) -> Seq<Ipv4Addr>
    decreases lines.len(),
{
    if lines.len() == 0 {
        Seq::empty()
    } else {
        all_noted(resolvers_found(lines.drop_last()), resolver_parts(lines.last()))
    }
}

/// The name after `interface:` on the first line that begins with it.
pub open spec fn interface_found(lines: Seq<Seq<char>>) -> Option<Seq<char>>
    decreases lines.len(),
{
    if lines.len() == 0 {
        None
    } else if begins_with(trimmed(lines[0]), "interface:"@) {
        Some(trimmed(trimmed(lines[0]).skip("interface:"@.len() as int)))
    } else {
        interface_found(lines.drop_first())
    }
}

/// The addresses among `parts`, in order.
pub open spec fn addresses_among(parts: Seq<Seq<char>>) -> Seq<Ipv4Addr>
    decreases parts.len(),
{
    if parts.len() == 0 {
        Seq::empty()
    } else {
        let before = addresses_among(parts.drop_last());
        match ipv4_denoted(trimmed(parts.last())) {
            Some(ip) => before.push(ip),
            None => before,
        }
    }
}

/// Whether all addresses are private: then queries go to the router first.
pub open spec fn all_private(ips: Seq<Ipv4Addr>) -> bool {
    forall|i: int| 0 <= i < ips.len() ==> (#[trigger] ips[i]).in_private_block()
}

/// What the access provider's servers are called.
pub open spec fn isp_label(ips: Seq<Ipv4Addr>, by_hand: bool) -> Seq<char> {
    if by_hand {
        "运营商 DNS(手动填写)"@
    } else if all_private(ips) {
        "运营商/网关 DNS(自动)"@
    } else {
        "运营商 DNS(自动)"@
    }
}

/// The addresses as texts.
pub open spec fn address_texts(ips: Seq<Ipv4Addr>) -> Seq<Seq<char>> {
    ips.map_values(|ip: Ipv4Addr| ip.text())
}

/// The servers in a DHCP packet, if there is one.
pub open spec fn packet_found(packet: Option<Seq<char>>) -> Seq<Ipv4Addr> {
    match packet {
        Some(printed) => dhcp_found(pieces(printed, '\n')),
        None => Seq::empty(),
    }
}

// ---------------------------------------------------------------------------
// Functions
// ---------------------------------------------------------------------------

/// What a DHCP packet says of the access provider's servers.
#[derive(Debug)]
pub enum Detection {
    /// These are the servers.
    Found(Vec<Ipv4Addr>),
    /// It names none; the system's resolvers may.
    AskResolvers,
}

/// Whether `ip` is one of `list`.
fn is_found(list: &Vec<Ipv4Addr>, ip: Ipv4Addr) -> (r: bool)
    ensures
        r == list@.contains(ip),
{
    let mut i: usize = 0;
    while i < list.len()
        invariant
            i <= list@.len(),
            forall|j: int| 0 <= j < i ==> list@[j] != ip,
        decreases list@.len() - i,
    {
        if list[i] == ip {
            assert(list@[i as int] == ip);
            return true;
        }
        i += 1;
    }
    false
}

/// Takes in one text.
fn note(found: &mut Vec<Ipv4Addr>, text: &str)
    ensures
        final(found)@ == noted(old(found)@, text@),
{
    match Ipv4Addr::parse(trim_end_matches(trim(text).as_str(), ',').as_str()) {
        Some(ip) => {
            if !ip.is_loopback() && !ip.is_unspecified() && !is_found(found, ip) {
                found.push(ip);
            }
        },
        None => {},
    }
}

/// Takes in several texts.
fn note_all(found: &mut Vec<Ipv4Addr>, parts: &Vec<String>)
    ensures
        final(found)@ == all_noted(old(found)@, texts(parts@)),
{
    let ghost all = texts(parts@);
    let mut i: usize = 0;
    while i < parts.len()
        invariant
            i <= parts@.len(),
            all == texts(parts@),
            found@ == all_noted(old(found)@, all.take(i as int)),
        decreases parts@.len() - i,
    {
        assert(all.take(i + 1).drop_last() =~= all.take(i as int));
        assert(all.take(i + 1).last() == parts@[i as int]@);
        note(found, parts[i].as_str());
        i += 1;
    }
    assert(all.take(all.len() as int) =~= all);
}

/// What a line of a DHCP packet lists as servers.
fn dhcp_parts_of(line: &str) -> (r: Vec<String>)
    ensures
        texts(r@) == dhcp_parts(line@),
{
    if contains(line, "domain_name_server") {
        let halves = split(line, '{');
        if halves.len() > 1 {
            let inner = split(halves[1].as_str(), '}');
            proof {
                pieces_nonempty(halves@[1]@, '}');
            }
            return split(inner[0].as_str(), ',');
        }
    }
    let none: Vec<String> = Vec::new();
    assert(texts(none@) =~= Seq::<Seq<char>>::empty());
    none
}

/// What a line of a list of resolvers names.
fn resolver_parts_of(line: &str) -> (r: Vec<String>)
    ensures
        texts(r@) == resolver_parts(line@),
{
    let mut out: Vec<String> = Vec::new();
    match strip_prefix(trim(line).as_str(), "nameserver[") {
        Some(rest) => match after_first(rest.as_str(), ":") {
            Some(value) => {
                out.push(value);
            },
            None => {},
        },
        None => {},
    }
    assert(texts(out@) =~= resolver_parts(line@));
    out
}

/// The servers that DHCP handed out, from a packet as `ipconfig getpacket` prints it.
pub fn dhcp_servers(printed: &str) -> (r: Vec<Ipv4Addr>)
    ensures
        r@ == dhcp_found(pieces(printed@, '\n')),
{
    let lines = split(printed, '\n');
    let ghost all = pieces(printed@, '\n');
    let mut found: Vec<Ipv4Addr> = Vec::new();
    let mut i: usize = 0;
    while i < lines.len()
        invariant
            i <= lines@.len(),
            all == texts(lines@),
            found@ == dhcp_found(all.take(i as int)),
        decreases lines@.len() - i,
    {
        assert(all.take(i + 1).drop_last() =~= all.take(i as int));
        assert(all.take(i + 1).last() == lines@[i as int]@);
        let parts = dhcp_parts_of(lines[i].as_str());
        note_all(&mut found, &parts);
        i += 1;
    }
    assert(all.take(all.len() as int) =~= all);
    found
}

/// The servers that the system resolves by, from a list as `scutil --dns` prints it.
pub fn resolver_servers(printed: &str) -> (r: Vec<Ipv4Addr>)
    ensures
        r@ == resolvers_found(pieces(printed@, '\n')),
{
    let lines = split(printed, '\n');
    let ghost all = pieces(printed@, '\n');
    let mut found: Vec<Ipv4Addr> = Vec::new();
    let mut i: usize = 0;
    while i < lines.len()
        invariant
            i <= lines@.len(),
            all == texts(lines@),
            found@ == resolvers_found(all.take(i as int)),
        decreases lines@.len() - i,
    {
        assert(all.take(i + 1).drop_last() =~= all.take(i as int));
        assert(all.take(i + 1).last() == lines@[i as int]@);
        let parts = resolver_parts_of(lines[i].as_str());
        note_all(&mut found, &parts);
        i += 1;
    }
    assert(all.take(all.len() as int) =~= all);
    found
}

/// The access provider's servers, as far as a DHCP packet names any. It comes
/// before the system's resolvers: it is right even where another program has put
/// itself in front of those.
pub fn detect_isp_dns(packet: &Option<String>) -> (r: Detection)
    ensures
        match r {
            Detection::Found(ips) => ips@ == packet_found(text_in(*packet)) && ips@.len() > 0,
            Detection::AskResolvers => packet_found(text_in(*packet)).len() == 0,
        },
{
    match packet {
        Some(printed) => {
            let found = dhcp_servers(printed.as_str());
            if found.len() > 0 {
                Detection::Found(found)
            } else {
                Detection::AskResolvers
            }
        },
        None => Detection::AskResolvers,
    }
}

/// The interface that the default route goes by, as `route -n get default` prints it.
pub fn default_interface(printed: &str) -> (r: Option<String>)
    ensures
        match r {
            Some(name) => interface_found(pieces(printed@, '\n')) == Some(name@),
            None => interface_found(pieces(printed@, '\n')) is None,
        },
{
    let lines = split(printed, '\n');
    let ghost all = pieces(printed@, '\n');
    let mut i: usize = 0;
    assert(all.skip(0) =~= all);
    while i < lines.len()
        invariant
            i <= lines@.len(),
            all == texts(lines@),
            interface_found(pieces(printed@, '\n')) == interface_found(all.skip(i as int)),
        decreases lines@.len() - i,
    {
        assert(all.skip(i as int)[0] == lines@[i as int]@);
        assert(all.skip(i as int).drop_first() =~= all.skip(i + 1));
        match strip_prefix(trim(lines[i].as_str()).as_str(), "interface:") {
            Some(rest) => {
                return Some(trim(rest.as_str()));
            },
            None => {},
        }
        i += 1;
    }
    None
}

/// The addresses in a list with commas between them. What is none is passed over.
pub fn addresses_in(list: &str) -> (r: Vec<Ipv4Addr>)
    ensures
        r@ == addresses_among(pieces(list@, ',')),
{
    let parts = split(list, ',');
    let ghost all = pieces(list@, ',');
    let mut out: Vec<Ipv4Addr> = Vec::new();
    let mut i: usize = 0;
    while i < parts.len()
        invariant
            i <= parts@.len(),
            all == texts(parts@),
            out@ == addresses_among(all.take(i as int)),
        decreases parts@.len() - i,
    {
        assert(all.take(i + 1).drop_last() =~= all.take(i as int));
        assert(all.take(i + 1).last() == parts@[i as int]@);
        match Ipv4Addr::parse(trim(parts[i].as_str()).as_str()) {
            Some(ip) => out.push(ip),
            None => {},
        }
        i += 1;
    }
    assert(all.take(all.len() as int) =~= all);
    out
}

/// Whether all addresses are private.
fn are_private(ips: &Vec<Ipv4Addr>) -> (r: bool)
    ensures
        r == all_private(ips@),
{
    let mut i: usize = 0;
    while i < ips.len()
        invariant
            i <= ips@.len(),
            forall|j: int| 0 <= j < i ==> (#[trigger] ips@[j]).in_private_block(),
        decreases ips@.len() - i,
    {
        if !is_private(&ips[i]) {
            assert(!ips@[i as int].in_private_block());
            return false;
        }
        i += 1;
    }
    true
}

/// Whether what was found is the router rather than the access provider.
pub fn is_gateway(ips: &Vec<Ipv4Addr>, by_hand: bool) -> (r: bool)
    ensures
        r == (!by_hand && all_private(ips@)),
{
    !by_hand && are_private(ips)
}

/// The addresses with slashes between them.
fn slashed(ips: &Vec<Ipv4Addr>) -> (r: String)
    ensures
        r@ == joined(address_texts(ips@), "/"@),
{
    let parts = texts_of(ips);
    join(&parts, "/")
}

/// The addresses as texts.
pub fn texts_of(ips: &Vec<Ipv4Addr>) -> (r: Vec<String>)
    ensures
        texts(r@) == address_texts(ips@),
{
    let mut parts: Vec<String> = Vec::new();
    let mut i: usize = 0;
    while i < ips.len()
        invariant
            i <= ips@.len(),
            texts(parts@) == address_texts(ips@).take(i as int),
        decreases ips@.len() - i,
    {
        let ghost done = texts(parts@);
        let part = ips[i].to_text();
        let ghost added = part@;
        parts.push(part);
        assert(texts(parts@) =~= done.push(added));
        assert(texts(parts@) =~= address_texts(ips@).take(i + 1));
        i += 1;
    }
    assert(address_texts(ips@).take(ips@.len() as int) =~= address_texts(ips@));
    parts
}

/// The target at the first of the access provider's servers, for plain DNS alone.
pub fn isp_target(ips: &Vec<Ipv4Addr>, by_hand: bool) -> (r: Target)
    requires
        ips@.len() > 0,
    ensures
        r@ == (TargetView {
            provider: isp_label(ips@, by_hand) + " "@ + joined(address_texts(ips@), "/"@),
            proto: Proto::Udp,
            endpoint: EndpointView::Udp(SocketAddr { ip: ips@[0], port: PLAIN_PORT }),
            speculative: false,
        }),
{
    let mut provider: String = if by_hand {
        "运营商 DNS(手动填写)".to_owned()
    } else if are_private(ips) {
        "运营商/网关 DNS(自动)".to_owned()
    } else {
        "运营商 DNS(自动)".to_owned()
    };
    provider.append(" ");
    provider.append(slashed(ips).as_str());
    Target {
        provider,
        proto: Proto::Udp,
        endpoint: Endpoint::Udp(SocketAddr { ip: ips[0], port: PLAIN_PORT }),
        speculative: false,
    }
}

// ---------------------------------------------------------------------------
// Laws
// ---------------------------------------------------------------------------

/// Whether an address is of use as a server: neither this machine nor none at all, and none twice.
pub open spec fn are_servers(ips: Seq<Ipv4Addr>) -> bool {
    &&& ips.no_duplicates()
    &&& forall|i: int|
        0 <= i < ips.len() ==> (#[trigger] ips[i]).a != 127 && ips[i] != (Ipv4Addr { a: 0, b: 0, c: 0, d: 0 })
}

proof fn noting_keeps_servers(found: Seq<Ipv4Addr>, parts: Seq<Seq<char>>)
    requires
        are_servers(found),
    ensures
        are_servers(all_noted(found, parts)),
    decreases parts.len(),
{
    if parts.len() > 0 {
        noting_keeps_servers(found, parts.drop_last());
    }
}

/// Neither way of finding servers gives a loopback address, the unspecified address, or an address twice.
pub proof fn found_addresses_are_servers(lines: Seq<Seq<char>>)
    ensures
        are_servers(dhcp_found(lines)),
        are_servers(resolvers_found(lines)),
    decreases lines.len(),
{
    if lines.len() > 0 {
        let before = lines.drop_last();
        found_addresses_are_servers(before);
        noting_keeps_servers(dhcp_found(before), dhcp_parts(lines.last()));
        noting_keeps_servers(resolvers_found(before), resolver_parts(lines.last()));
    }
}

} // verus!
