//! What goes into one exchange with a server, and what comes out of it.

use vstd::prelude::*;

use crate::addr::Ipv4Addr;
use crate::error::{BenchError, R};
use crate::number::{decimal, decimal_text};
use crate::wire::{
    answer_in, asked_name, be16, build_query, is_answer, is_query, labels_of, name_fits, parse_answer,
    query_for,
};
use crate::wire_laws::queries_are_short;

verus! {

/// The media type of DNS messages over HTTP.
pub const DNS_MESSAGE: &'static str = "application/dns-message";

/// The largest response that is read from a UDP socket.
pub const UDP_RESPONSE_MAX: usize = 1232;

/// The message id of every query over QUIC, where the stream ties the response to the query.
pub const DOQ_ID: u16 = 0;

/// A message with its length before it, as it travels over a stream.
pub open spec fn framed(packet: Seq<u8>) -> Seq<u8> {
    be16(packet.len()) + packet
}

/// Whether an HTTP status reports success.
pub open spec fn is_success(status: u16) -> bool {
    200 <= status <= 299
}

/// Calls `rand::random::<u16>`, which gives any number with equal chance.
#[verifier::external_body]
fn random_id() -> (r: u16) {
    rand::random::<u16>()
}

/// A query under an id picked at random, with that id.
pub fn fresh_query(domain: &str) -> (r: R<(u16, Vec<u8>)>)
    ensures
        match r {
            Ok(sent) => query_for(sent.0, domain@) == Ok::<Seq<u8>, Seq<char>>(sent.1@),
            Err(BenchError::BadName(m)) => forall|id: u16|
                #[trigger] query_for(id, domain@) == Err::<Seq<u8>, Seq<char>>(m@),
            Err(_) => false,
        },
{
    let id: u16 = random_id();
    match build_query(id, domain) {
        Ok(packet) => Ok((id, packet)),
        Err(e) => Err(e),
    }
}

/// A message with its length before it, as it travels over a stream.
pub fn frame(packet: &Vec<u8>) -> (r: Vec<u8>)
    ensures
        r@ == framed(packet@),
{
    let n: usize = packet.len();
    let mut out: Vec<u8> = Vec::new();
    out.push((n / 256 % 256) as u8);
    out.push((n % 256) as u8);
    let mut i: usize = 0;
    assert(out@ =~= be16(n as nat) + packet@.take(0));
    while i < n
        invariant
            n == packet@.len(),
            i <= n,
            out@ == be16(n as nat) + packet@.take(i as int),
        decreases n - i,
    {
        out.push(packet[i]);
        i += 1;
        assert(out@ =~= be16(n as nat) + packet@.take(i as int));
    }
    assert(packet@.take(n as int) =~= packet@);
    out
}

/// The length that the first two octets of a stream announce.
pub fn frame_length(prefix: [u8; 2]) -> (r: usize)
    ensures
        r == prefix@[0] * 256 + prefix@[1],
{
    prefix[0] as usize * 256 + prefix[1] as usize
}

/// A framed query under an id picked at random, with that id.
pub fn fresh_framed_query(domain: &str) -> (r: R<(u16, Vec<u8>)>)
    ensures
        match r {
            Ok(sent) => exists|packet: Seq<u8>|
                query_for(sent.0, domain@) == Ok::<Seq<u8>, Seq<char>>(packet) && sent.1@ == #[trigger] framed(
                    packet,
                ),
            Err(BenchError::BadName(m)) => forall|id: u16|
                #[trigger] query_for(id, domain@) == Err::<Seq<u8>, Seq<char>>(m@),
            Err(_) => false,
        },
{
    match fresh_query(domain) {
        Ok((id, packet)) => {
            let out = frame(&packet);
            assert(out@ == framed(packet@));
            Ok((id, out))
        },
        Err(e) => Err(e),
    }
}

/// The framed query for an exchange over QUIC.
pub fn doq_query(domain: &str) -> (r: R<Vec<u8>>)
    ensures
        match query_for(DOQ_ID, domain@) {
            Ok(packet) => is_query(r, Ok(framed(packet))),
            Err(m) => is_query(r, Err(m)),
        },
{
    match build_query(DOQ_ID, domain) {
        Ok(packet) => Ok(frame(&packet)),
        Err(e) => Err(e),
    }
}

/// What a response over QUIC says.
pub fn doq_answer(response: &[u8]) -> (r: R<(u8, Vec<Ipv4Addr>)>)
    ensures
        is_answer(r, answer_in(response@, DOQ_ID)),
{
    parse_answer(response, DOQ_ID)
}

/// Refuses a response whose HTTP status does not report success.
pub fn check_status(status: u16) -> (r: R<()>)
    ensures
        match r {
            Ok(_) => is_success(status),
            Err(BenchError::Http(m)) => !is_success(status) && m@ == "status "@ + decimal(status as nat),
            Err(_) => false,
        },
{
    if 200 <= status && status <= 299 {
        return Ok(());
    }
    let mut message: String = "status ".to_owned();
    message.append(decimal_text(status as u64).as_str());
    Err(BenchError::Http(message))
}

// ---------------------------------------------------------------------------
// Laws
// ---------------------------------------------------------------------------

/// A framed message is taken apart again: its first two octets announce the
/// length of what follows, which is the message.
pub proof fn frames_read_back(packet: Seq<u8>)
    requires
        packet.len() < 65536,
    ensures
        framed(packet).len() == packet.len() + 2,
        framed(packet)[0] * 256 + framed(packet)[1] == packet.len(),
        framed(packet).skip(2) == packet,
{
    assert(framed(packet).skip(2) =~= packet);
}

/// Every query can be framed, since none is longer than a frame can announce.
pub proof fn queries_fit_a_frame(id: u16, domain: Seq<char>)
    ensures
        query_for(id, domain) matches Ok(packet) ==> packet.len() < 65536 && framed(packet)[0] * 256
            + framed(packet)[1] == packet.len(),
{
    if name_fits(labels_of(asked_name(domain))) {
        queries_are_short(id, labels_of(asked_name(domain)));
    }
}

/// Whether a domain can be asked for does not depend on the message id, and
/// neither does the reason if it cannot.
pub proof fn refusal_does_not_depend_on_id(a: u16, b: u16, domain: Seq<char>)
    ensures
        query_for(a, domain) is Ok <==> query_for(b, domain) is Ok,
        query_for(a, domain) is Err ==> query_for(a, domain) == query_for(b, domain),
{
}

} // verus!
