//! What is exchanged with a server, and what becomes of the connection to it.

use vstd::prelude::*;

use crate::addr::{Endpoint, Ipv4Addr};
use crate::error::R;
use crate::exchange::{framed, is_success, DNS_MESSAGE, DOQ_ID, UDP_RESPONSE_MAX};
use crate::link::{transport_of, Fate, Link, Start, Transport, Via};
use crate::proto::Mode;
use crate::wire::is_answer;

verus! {

/// A frame is two octets of length, of a longer message its last 16 bits, and then the message.
pub proof fn frames_announce_lengths(packet: Seq<u8>)
    ensures
        framed(packet).len() == packet.len() + 2,
        framed(packet)[0] * 256 + framed(packet)[1] == packet.len() % 65536,
        framed(packet).skip(2) == packet,
{
    assert(framed(packet).skip(2) =~= packet);
}

/// Success is any status of the two hundreds.
pub proof fn success_is_two_hundred(status: u16)
    ensures
        is_success(status) <==> status / 100 == 2,
{
}

/// Messages over HTTP have this type, responses over UDP this size at most, and queries over QUIC this id.
pub proof fn exchanges_are_set()
    ensures
        DNS_MESSAGE@ == "application/dns-message"@,
        UDP_RESPONSE_MAX == 1232,
        DOQ_ID == 0,
{
}

/// What is handed out for an expected answer is that answer, and for an expected
/// refusal a `BadResponse` with its words.
pub proof fn answers_are_as_expected(
    r: R<(u8, Vec<Ipv4Addr>)>,
    expected: Result<(u8, Seq<Ipv4Addr>), Seq<char>>,
)
    requires
        is_answer(r, expected),
    ensures
        r is Ok <==> expected is Ok,
        r is Ok ==> r->Ok_0.0 == expected->Ok_0.0 && r->Ok_0.1@ == expected->Ok_0.1,
        r is Err ==> r->Err_0 is BadResponse && r->Err_0->BadResponse_0@ == expected->Err_0,
{
}

/// An endpoint is reached by its own transport; both kinds of HTTP share one.
pub proof fn endpoints_have_transports(endpoint: Endpoint)
    ensures
        transport_of(endpoint) == Transport::Udp <==> endpoint is Udp,
        transport_of(endpoint) == Transport::Dot <==> endpoint is Dot,
        transport_of(endpoint) == Transport::Https <==> endpoint is Doh,
        transport_of(endpoint) == Transport::Doq <==> endpoint is Doq,
{
}

/// A query connects first exactly if it does not go over UDP and there is no
/// connection to reuse; it goes over the kept connection exactly if there is one
/// and connections are reused.
pub proof fn queries_connect_when_they_must(link: Link, mode: Mode)
    ensures
        link.started(mode) == Start::Connect <==> link.transport != Transport::Udp && (mode == Mode::Cold
            || !link.open),
        link.started(mode) == Start::Ask(Via::Socket) <==> link.transport == Transport::Udp,
        link.started(mode) == Start::Ask(Via::Kept) <==> link.transport != Transport::Udp && mode == Mode::Hot
            && link.open,
        link.started(mode) != Start::Ask(Via::Fresh),
{
}

/// A failed attempt to connect changes nothing and lets nothing be asked; one that
/// succeeds gives the query a connection, which is kept exactly if connections are reused.
pub proof fn connecting_opens_what_is_kept(link: Link, mode: Mode)
    ensures
        link.after_connecting(mode, false) == (link, None::<Via>),
        link.after_connecting(Mode::Hot, true).1 == Some(Via::Kept),
        link.after_connecting(Mode::Hot, true).0.open,
        link.after_connecting(Mode::Cold, true) == (link, Some(Via::Fresh)),
        link.after_connecting(mode, true).0.transport == link.transport,
{
}

/// A query changes the link only by failing on the kept connection, which is then
/// dropped; a connection made for one query never outlives it, and over QUIC it is
/// closed with a word to the peer.
pub proof fn asking_closes_what_failed(link: Link, over: Via, success: bool)
    ensures
        link.after_asking(over, success).0.transport == link.transport,
        link.after_asking(over, success).0 != link ==> over == Via::Kept && !success,
        over == Via::Kept && !success ==> !link.after_asking(over, success).0.open,
        link.after_asking(over, success).1 == Fate::Stay <==> over == Via::Socket || over == Via::Kept && success,
        link.after_asking(over, success).1 == Fate::Close <==> over == Via::Fresh && link.transport == Transport::Doq,
{
}

/// A whole query leaves a connection exactly if there is one to leave: over UDP and
/// with connections made anew nothing changes, and otherwise one is open
/// afterwards exactly if the query got its response.
pub proof fn queries_leave_what_worked(link: Link, mode: Mode, connects: bool, answers: bool)
    ensures
        link.transport == Transport::Udp || mode == Mode::Cold ==> link.after_query(mode, connects, answers) == link,
        link.transport != Transport::Udp && mode == Mode::Hot ==> (link.after_query(mode, connects, answers).open
            <==> (link.open || connects) && answers),
{
}

} // verus!
