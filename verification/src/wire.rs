//! The DNS wire format: queries for A records, and the answers to them.

use vstd::prelude::*;

use crate::addr::Ipv4Addr;
use crate::error::{BenchError, R};
use crate::query_laws::queries_are_spelled_out;
use crate::scan::{pieces, split, trim, trim_end_matches, trimmed, without_trailing};
use crate::text::chars_of;

verus! {

// ---------------------------------------------------------------------------
// Model: queries
// ---------------------------------------------------------------------------

/// A 16-bit number in network byte order.
pub open spec fn be16(n: nat) -> Seq<u8> {
    seq![(n / 256 % 256) as u8, (n % 256) as u8]
}

/// The name that is asked for: no white space around it and no dots at its end.
pub open spec fn asked_name(domain: Seq<char>) -> Seq<char> {
    without_trailing(trimmed(domain), '.')
}

/// The labels of a name.
pub open spec fn labels_of(name: Seq<char>) -> Seq<Seq<char>> {
    pieces(name, '.')
}

/// Whether a character is ASCII.
pub open spec fn is_ascii_char(c: char) -> bool {
    c <= '\u{7f}'
}

/// Whether a label can stand in a query: one to 63 ASCII characters.
pub open spec fn label_fits(label: Seq<char>) -> bool {
    &&& 0 < label.len() <= 63
    &&& forall|i: int| 0 <= i < label.len() ==> is_ascii_char(#[trigger] label[i])
}

/// Octets that labels take in a message: one for each length, and the characters.
pub open spec fn labels_length(labels: Seq<Seq<char>>) -> nat
    decreases labels.len(),
{
    if labels.len() == 0 {
        0
    } else {
        labels_length(labels.drop_last()) + labels.last().len() + 1
    }
}

/// Whether labels make up a name: each fits, and with the root label they take at most 255 octets.
pub open spec fn name_fits(labels: Seq<Seq<char>>) -> bool {
    &&& forall|i: int| 0 <= i < labels.len() ==> label_fits(#[trigger] labels[i])
    &&& labels_length(labels) + 1 <= 255
}

/// A label in a message: its length, then its characters.
pub open spec fn label_bytes(label: Seq<char>) -> Seq<u8> {
    seq![label.len() as u8] + label.map_values(|c: char| c as u8)
}

/// Labels in a message, without the root label at the end.
pub open spec fn labels_bytes(labels: Seq<Seq<char>>) -> Seq<u8>
    decreases labels.len(),
{
    if labels.len() == 0 {
        Seq::<u8>::empty()
    } else {
        labels_bytes(labels.drop_last()) + label_bytes(labels.last())
    }
}

/// The question for the A records of a name in class IN.
pub open spec fn question_bytes(labels: Seq<Seq<char>>) -> Seq<u8> {
    labels_bytes(labels) + seq![0u8] + be16(1) + be16(1)
}

/// A message header: id, two octets of flags, and the counts of questions and answers.
pub open spec fn header_bytes(id: u16, flags: Seq<u8>, questions: nat, answers: nat) -> Seq<u8> {
    be16(id as nat) + flags + be16(questions) + be16(answers) + be16(0) + be16(0)
}

/// A query that asks a resolver to recurse.
pub open spec fn query_bytes(id: u16, labels: Seq<Seq<char>>) -> Seq<u8> {
    header_bytes(id, be16(0x0100), 1, 0) + question_bytes(labels)
}

/// The query for a domain, or why there is none.
pub open spec fn query_for(id: u16, domain: Seq<char>) -> Result<Seq<u8>, Seq<char>> {
    let name = asked_name(domain);
    if name.len() == 0 {
        Err("empty domain"@)
    } else if name_fits(labels_of(name)) {
        Ok(query_bytes(id, labels_of(name)))
    } else {
        Err("invalid label in "@ + name)
    }
}

/// Whether `r` is the outcome `expected`, where a refused name is a `BadName`.
pub open spec fn is_query(r: R<Vec<u8>>, expected: Result<Seq<u8>, Seq<char>>) -> bool {
    match (r, expected) {
        (Ok(packet), Ok(bytes)) => packet@ == bytes,
        (Err(BenchError::BadName(m)), Err(text)) => m@ == text,
        _ => false,
    }
}

// ---------------------------------------------------------------------------
// Model: answers
// ---------------------------------------------------------------------------

/// The 16-bit number at position `i`.
pub open spec fn word_at(r: Seq<u8>, i: int) -> nat {
    (r[i] * 256 + r[i + 1]) as nat
}

/// Where a name ends that began at `start`, read on from `at` after `labels` labels.
///
/// A name is a run of labels closed by an empty label or by a pointer. A pointer
/// may only lead back before the name's start, and only after 16 labels at most.
pub open spec fn name_end(r: Seq<u8>, start: int, at: int, labels: nat) -> Result<int, Seq<char>>
    decreases r.len() - at,
{
    if at < 0 || at >= r.len() {
        Err("name truncated"@)
    } else if r[at] >= 0xc0 {
        if at + 1 >= r.len() {
            Err("name ptr truncated"@)
        } else {
            let pointer = (r[at] - 0xc0) * 256 + r[at + 1];
            if pointer >= r.len() || pointer >= start || labels > 16 {
                Err("bad name pointer"@)
            } else {
                Ok(at + 2)
            }
        }
    } else if r[at] >= 0x40 {
        Err("bad label len"@)
    } else if r[at] == 0 {
        Ok(at + 1)
    } else if at + 1 + r[at] > r.len() {
        Err("label overflow"@)
    } else {
        name_end(r, start, at + 1 + r[at], labels + 1)
    }
}

/// Where `count` questions end that begin at `at`.
pub open spec fn questions_end(r: Seq<u8>, at: int, count: nat) -> Result<int, Seq<char>>
    decreases count,
{
    if count == 0 {
        Ok(at)
    } else {
        match name_end(r, at, at, 0) {
            Err(m) => Err(m),
            Ok(end) => if end + 4 > r.len() {
                Err("q overflow"@)
            } else {
                questions_end(r, end + 4, (count - 1) as nat)
            },
        }
    }
}

/// The address in a record whose type stands at `at`, if it is an A record of class IN.
pub open spec fn record_address(r: Seq<u8>, at: int) -> Seq<Ipv4Addr> {
    if word_at(r, at) == 1 && word_at(r, at + 2) == 1 && word_at(r, at + 8) == 4 {
        seq![Ipv4Addr { a: r[at + 10], b: r[at + 11], c: r[at + 12], d: r[at + 13] }]
    } else {
        Seq::<Ipv4Addr>::empty()
    }
}

/// The addresses in `count` records that begin at `at`.
pub open spec fn records_addresses(r: Seq<u8>, at: int, count: nat) -> Result<Seq<Ipv4Addr>, Seq<char>>
    decreases count,
{
    if count == 0 {
        Ok(Seq::<Ipv4Addr>::empty())
    } else {
        match name_end(r, at, at, 0) {
            Err(m) => Err(m),
            Ok(end) => if end + 10 > r.len() {
                Err("rr overflow"@)
            } else if end + 10 + word_at(r, end + 8) > r.len() {
                Err("rdata overflow"@)
            } else {
                after_addresses(
                    record_address(r, end),
                    records_addresses(r, end + 10 + word_at(r, end + 8), (count - 1) as nat),
                )
            },
        }
    }
}

/// Addresses put before those of the records that follow.
pub open spec fn after_addresses(
    first: Seq<Ipv4Addr>,
    rest: Result<Seq<Ipv4Addr>, Seq<char>>,
) -> Result<Seq<Ipv4Addr>, Seq<char>> {
    match rest {
        Err(m) => Err(m),
        Ok(more) => Ok(first + more),
    }
}

/// The response code and the A records of a response to the query with the given id, or what is wrong with it.
pub open spec fn answer_in(r: Seq<u8>, id: u16) -> Result<(u8, Seq<Ipv4Addr>), Seq<char>> {
    if r.len() < 12 {
        Err("short header"@)
    } else if word_at(r, 0) != id || r[2] < 0x80 {
        Err("id/qr mismatch"@)
    } else {
        match questions_end(r, 12, word_at(r, 4)) {
            Err(m) => Err(m),
            Ok(at) => match records_addresses(r, at, word_at(r, 6)) {
                Err(m) => Err(m),
                Ok(ips) => Ok(((r[3] % 16) as u8, ips)),
            },
        }
    }
}

/// Whether `r` is the outcome `expected`, where a malformed response is a `BadResponse`.
pub open spec fn is_answer(
    r: R<(u8, Vec<Ipv4Addr>)>,
    expected: Result<(u8, Seq<Ipv4Addr>), Seq<char>>,
) -> bool {
    match (r, expected) {
        (Ok(got), Ok(want)) => got.0 == want.0 && got.1@ == want.1,
        (Err(BenchError::BadResponse(m)), Err(text)) => m@ == text,
        _ => false,
    }
}

// ---------------------------------------------------------------------------
// Queries
// ---------------------------------------------------------------------------

fn bad_response<T>(text: &str) -> (r: R<T>)
    ensures
        match r {
            Err(BenchError::BadResponse(m)) => m@ == text@,
            _ => false,
        },
{
    Err(BenchError::BadResponse(text.to_owned()))
}

/// Adds a 16-bit number in network byte order.
fn push_be16(packet: &mut Vec<u8>, n: u16)
    ensures
        final(packet)@ == old(packet)@ + be16(n as nat),
{
    packet.push((n / 256) as u8);
    packet.push((n % 256) as u8);
    assert(packet@ =~= old(packet)@ + be16(n as nat));
}

/// Whether all characters are ASCII.
fn all_ascii(chars: &Vec<char>) -> (r: bool)
    ensures
        r == (forall|i: int| 0 <= i < chars@.len() ==> is_ascii_char(#[trigger] chars@[i])),
{
    let mut i: usize = 0;
    while i < chars.len()
        invariant
            i <= chars@.len(),
            forall|j: int| 0 <= j < i ==> is_ascii_char(#[trigger] chars@[j]),
        decreases chars@.len() - i,
    {
        if !(chars[i] <= '\u{7f}') {
            assert(!is_ascii_char(chars@[i as int]));
            return false;
        }
        i += 1;
    }
    true
}

/// Adds a label: its length, then its characters.
fn push_label(packet: &mut Vec<u8>, label: &Vec<char>)
    requires
        label_fits(label@),
    ensures
        final(packet)@ == old(packet)@ + label_bytes(label@),
{
    packet.push(label.len() as u8);
    let ghost head = packet@;
    let mut i: usize = 0;
    assert(packet@ =~= head + label@.take(0).map_values(|c: char| c as u8));
    while i < label.len()
        invariant
            i <= label@.len(),
            label_fits(label@),
            packet@ == head + label@.take(i as int).map_values(|c: char| c as u8),
        decreases label@.len() - i,
    {
        assert(is_ascii_char(label@[i as int]));
        packet.push(label[i] as u8);
        i += 1;
        assert(packet@ =~= head + label@.take(i as int).map_values(|c: char| c as u8));
    }
    assert(label@.take(label@.len() as int) =~= label@);
    assert(packet@ =~= old(packet)@ + label_bytes(label@));
}

proof fn labels_length_grows(labels: Seq<Seq<char>>, k: int)
    requires
        0 <= k <= labels.len(),
    ensures
        labels_length(labels.take(k)) <= labels_length(labels),
    decreases labels.len() - k,
{
    if k == labels.len() {
        assert(labels.take(k) =~= labels);
    } else {
        assert(labels.take(k + 1).drop_last() =~= labels.take(k));
        labels_length_grows(labels, k + 1);
    }
}

/// The query for the A records of `domain`.
pub fn build_query(id: u16, domain: &str) -> (r: R<Vec<u8>>)
    ensures
        is_query(r, query_for(id, domain@)),
        r matches Ok(packet) ==> packet@.len() >= 17 && packet@[0] * 256 + packet@[1] == id && packet@.subrange(2, 12)
            == seq![1u8, 0, 0, 1, 0, 0, 0, 0, 0, 0] && packet@.skip(packet@.len() - 5) == seq![0u8, 0, 1, 0, 1],
{
    let name = trim_end_matches(trim(domain).as_str(), '.');
    if name.as_str().is_empty() {
        return Err(BenchError::BadName("empty domain".to_owned()));
    }
    let mut packet: Vec<u8> = Vec::with_capacity(512);
    push_be16(&mut packet, id);
    push_be16(&mut packet, 0x0100);
    push_be16(&mut packet, 1);
    push_be16(&mut packet, 0);
    push_be16(&mut packet, 0);
    push_be16(&mut packet, 0);
    let ghost head = header_bytes(id, be16(0x0100), 1, 0);
    assert(packet@ =~= head);

    let labels = split(name.as_str(), '.');
    let ghost all = labels_of(name@);
    let mut name_len: usize = 1;
    let mut i: usize = 0;
    assert(packet@ =~= head + labels_bytes(all.take(0)));
    while i < labels.len()
        invariant
            i <= labels@.len(),
            labels@.len() == all.len(),
            all == labels_of(name@),
            name@ == asked_name(domain@),
            name@.len() > 0,
            head == header_bytes(id, be16(0x0100), 1, 0),
            forall|j: int| 0 <= j < labels@.len() ==> (#[trigger] labels@[j])@ == all[j],
            forall|j: int| 0 <= j < i ==> label_fits(#[trigger] all[j]),
            name_len == labels_length(all.take(i as int)) + 1,
            name_len <= 255,
            packet@ == head + labels_bytes(all.take(i as int)),
        decreases labels@.len() - i,
    {
        let label = chars_of(labels[i].as_str());
        proof {
            assert(all.take(i + 1).drop_last() =~= all.take(i as int));
            labels_length_grows(all, i + 1);
            assert(label@ == all[i as int]);
        }
        if label.len() == 0 || label.len() > 63 || !all_ascii(&label) || name_len + label.len() + 1 > 255 {
            let mut message: String = "invalid label in ".to_owned();
            message.append(name.as_str());
            return Err(BenchError::BadName(message));
        }
        push_label(&mut packet, &label);
        name_len += label.len() + 1;
        i += 1;
        assert(packet@ =~= head + labels_bytes(all.take(i as int)));
    }
    assert(all.take(all.len() as int) =~= all);
    packet.push(0);
    push_be16(&mut packet, 1);
    push_be16(&mut packet, 1);
    assert(packet@ =~= query_bytes(id, all));
    proof {
        queries_are_spelled_out(id, all);
        assert(packet@.skip(packet@.len() - 5) =~= seq![0u8, 0, 1, 0, 1]);
    }
    Ok(packet)
}

// ---------------------------------------------------------------------------
// Answers
// ---------------------------------------------------------------------------

/// The 16-bit number at position `i`.
fn read_be16(r: &[u8], i: usize) -> (n: u16)
    requires
        i + 1 < r@.len(),
    ensures
        n == word_at(r@, i as int),
{
    r[i] as u16 * 256 + r[i + 1] as u16
}

/// Where the name ends that begins at `offset`.
pub fn skip_name(response: &[u8], offset: usize) -> (r: R<usize>)
    ensures
        match (r, name_end(response@, offset as int, offset as int, 0)) {
            (Ok(end), Ok(want)) => end == want && end <= response@.len(),
            (Err(BenchError::BadResponse(m)), Err(text)) => m@ == text,
            _ => false,
        },
{
    let start: usize = offset;
    let size: usize = response.len();
    let mut at: usize = offset;
    let mut labels: usize = 0;
    loop
        invariant
            size == response@.len(),
            start == offset <= at,
            at <= size || at == start,
            labels <= at,
            name_end(response@, start as int, start as int, 0) == name_end(
                response@,
                start as int,
                at as int,
                labels as nat,
            ),
        decreases size - at + 1,
    {
        if at >= size {
            return bad_response("name truncated");
        }
        let len: u8 = response[at];
        if len >= 0xc0 {
            if at + 1 >= size {
                return bad_response("name ptr truncated");
            }
            let pointer: usize = (len - 0xc0) as usize * 256 + response[at + 1] as usize;
            if pointer >= size || pointer >= start || labels > 16 {
                return bad_response("bad name pointer");
            }
            return Ok(at + 2);
        }
        if len >= 0x40 {
            return bad_response("bad label len");
        }
        if len == 0 {
            return Ok(at + 1);
        }
        if len as usize > size - at - 1 {
            return bad_response("label overflow");
        }
        at = at + 1 + len as usize;
        labels += 1;
    }
}

/// The response code and the A records of a response to the query with id
/// `expect_id`. Response code 3 means that the name does not exist.
pub fn parse_answer(response: &[u8], expect_id: u16) -> (r: R<(u8, Vec<Ipv4Addr>)>)
    ensures
        is_answer(r, answer_in(response@, expect_id)),
{
    let size: usize = response.len();
    if size < 12 {
        return bad_response("short header");
    }
    let response_id: u16 = read_be16(response, 0);
    if response_id != expect_id || response[2] < 0x80 {
        return bad_response("id/qr mismatch");
    }
    let rcode: u8 = response[3] % 16;
    let question_count: u16 = read_be16(response, 4);
    let answer_count: u16 = read_be16(response, 6);
    let mut offset: usize = 12;

    let mut left: u16 = question_count;
    while left > 0
        invariant
            size == response@.len(),
            offset <= size,
            questions_end(response@, 12, question_count as nat) == questions_end(
                response@,
                offset as int,
                left as nat,
            ),
            size >= 12,
            word_at(response@, 0) == expect_id,
            response@[2] >= 0x80,
            question_count == word_at(response@, 4),
        decreases left,
    {
        let end: usize = match skip_name(response, offset) {
            Ok(end) => end,
            Err(e) => {
                return Err(e);
            },
        };
        if 4 > size - end {
            return bad_response("q overflow");
        }
        offset = end + 4;
        left -= 1;
    }

    let ghost records = offset as int;
    let mut ips: Vec<Ipv4Addr> = Vec::new();
    let mut left: u16 = answer_count;
    proof {
        let all = records_addresses(response@, records, answer_count as nat);
        if all is Ok {
            assert(ips@ + all->Ok_0 =~= all->Ok_0);
        }
    }
    while left > 0
        invariant
            size == response@.len(),
            offset <= size,
            size >= 12,
            word_at(response@, 0) == expect_id,
            response@[2] >= 0x80,
            question_count == word_at(response@, 4),
            answer_count == word_at(response@, 6),
            questions_end(response@, 12, question_count as nat) == Ok::<int, Seq<char>>(records),
            records_addresses(response@, records, answer_count as nat) == after_addresses(
                ips@,
                records_addresses(response@, offset as int, left as nat),
            ),
        decreases left,
    {
        let end: usize = match skip_name(response, offset) {
            Ok(end) => end,
            Err(e) => {
                return Err(e);
            },
        };
        if 10 > size - end {
            return bad_response("rr overflow");
        }
        let record_type: u16 = read_be16(response, end);
        let record_class: u16 = read_be16(response, end + 2);
        let data_len: usize = read_be16(response, end + 8) as usize;
        let data: usize = end + 10;
        if data_len > size - data {
            return bad_response("rdata overflow");
        }
        let ghost before = ips@;
        if record_type == 1 && record_class == 1 && data_len == 4 {
            ips.push(
                Ipv4Addr::new(response[data], response[data + 1], response[data + 2], response[data + 3]),
            );
        }
        proof {
            assert(ips@ =~= before + record_address(response@, end as int));
            let rest = records_addresses(response@, data + data_len, (left - 1) as nat);
            if rest is Ok {
                assert(before + (record_address(response@, end as int) + rest->Ok_0) =~= ips@ + rest->Ok_0);
            }
        }
        offset = data + data_len;
        left -= 1;
    }
    proof {
        assert(ips@ + Seq::<Ipv4Addr>::empty() =~= ips@);
    }
    Ok((rcode, ips))
}

} // verus!
