//! What holds of queries and answers taken together.

use vstd::prelude::*;

use crate::addr::Ipv4Addr;
use crate::wire::{
    answer_in, be16, header_bytes, label_bytes, label_fits, labels_bytes,
    labels_length, name_end, name_fits, query_bytes, question_bytes, questions_end, record_address,
    records_addresses, word_at,
};

verus! {

/// A number of at most 16 bits reads back from network byte order.
proof fn be16_reads_back(n: nat)
    requires
        n < 65536,
    ensures
        be16(n)[0] * 256 + be16(n)[1] == n,
        be16(n).len() == 2,
{
}

/// Labels of a fitting name take as many octets as their length says.
pub proof fn labels_take_their_length(labels: Seq<Seq<char>>)
    ensures
        labels_bytes(labels).len() == labels_length(labels),
    decreases labels.len(),
{
    if labels.len() > 0 {
        labels_take_their_length(labels.drop_last());
    }
}

/// A query is never longer than 271 octets: header, name, type and class.
pub proof fn queries_are_short(id: u16, labels: Seq<Seq<char>>)
    requires
        name_fits(labels),
    ensures
        query_bytes(id, labels).len() == 12 + labels_length(labels) + 1 + 4,
        query_bytes(id, labels).len() <= 271,
{
    labels_take_their_length(labels);
}

/// Labels without the first one.
pub proof fn labels_bytes_from_first(labels: Seq<Seq<char>>)
    requires
        labels.len() > 0,
    ensures
        labels_bytes(labels) == label_bytes(labels[0]) + labels_bytes(labels.drop_first()),
    decreases labels.len(),
{
    let t = labels.drop_last();
    if labels.len() == 1 {
        assert(labels_bytes(t) =~= Seq::<u8>::empty());
        assert(labels_bytes(labels.drop_first()) =~= Seq::<u8>::empty());
        assert(labels_bytes(labels) =~= label_bytes(labels[0]) + labels_bytes(labels.drop_first()));
    } else {
        labels_bytes_from_first(t);
        assert(t[0] == labels[0]);
        assert(labels.drop_first().drop_last() =~= t.drop_first());
        assert(labels_bytes(labels) =~= label_bytes(labels[0]) + labels_bytes(labels.drop_first()));
    }
}

/// Skipping a name goes exactly past the labels that a query writes, wherever they stand.
pub proof fn written_names_are_skipped(
    r: Seq<u8>,
    start: int,
    at: int,
    read: nat,
    labels: Seq<Seq<char>>,
)
    requires
        0 <= at,
        forall|i: int| 0 <= i < labels.len() ==> label_fits(#[trigger] labels[i]),
        at + labels_bytes(labels).len() + 1 <= r.len(),
        r.subrange(at, at + labels_bytes(labels).len()) == labels_bytes(labels),
        r[at + labels_bytes(labels).len()] == 0,
    ensures
        name_end(r, start, at, read) == Ok::<int, Seq<char>>(at + labels_bytes(labels).len() + 1),
    decreases labels.len(),
{
    let whole = labels_bytes(labels);
    if labels.len() == 0 {
        assert(whole.len() == 0);
    } else {
        labels_bytes_from_first(labels);
        let first = labels[0];
        let rest = labels.drop_first();
        let more = labels_bytes(rest);
        let next = at + 1 + first.len();
        assert(label_fits(labels[0]));
        assert(whole.len() == 1 + first.len() + more.len());
        assert(r[at] == r.subrange(at, at + whole.len())[0]);
        assert(r[at] == first.len() as u8);
        assert(r.subrange(next, next + more.len()) =~= more) by {
            assert forall|i: int| 0 <= i < more.len() implies r[next + i] == more[i] by {
                assert(r.subrange(at, at + whole.len())[1 + first.len() + i] == r[next + i]);
                assert(whole[1 + first.len() + i] == more[i]);
            }
        }
        assert forall|i: int| 0 <= i < rest.len() implies label_fits(#[trigger] rest[i]) by {
            assert(rest[i] == labels[i + 1]);
        }
        written_names_are_skipped(r, start, next, read + 1, rest);
    }
}

/// A query is never taken for an answer.
pub proof fn queries_are_no_answers(id: u16, labels: Seq<Seq<char>>, expected: u16)
    ensures
        answer_in(query_bytes(id, labels), expected) == Err::<(u8, Seq<Ipv4Addr>), Seq<char>>(
            "id/qr mismatch"@,
        ),
{
    let q = query_bytes(id, labels);
    assert(q[2] == 1);
}

// ---------------------------------------------------------------------------
// Replies
// ---------------------------------------------------------------------------

/// An A record for the name in the question, with a time to live.
pub open spec fn a_record_bytes(ttl: Seq<u8>, ip: Ipv4Addr) -> Seq<u8> {
    seq![0xc0u8, 0x0cu8] + be16(1) + be16(1) + ttl + be16(4) + seq![ip.a, ip.b, ip.c, ip.d]
}

/// A records one after the other.
pub open spec fn a_records_bytes(ttl: Seq<u8>, ips: Seq<Ipv4Addr>) -> Seq<u8>
    decreases ips.len(),
{
    if ips.len() == 0 {
        Seq::<u8>::empty()
    } else {
        a_record_bytes(ttl, ips[0]) + a_records_bytes(ttl, ips.drop_first())
    }
}

/// A reply to a query: the question repeated, then one A record for each address.
pub open spec fn reply_bytes(
    id: u16,
    labels: Seq<Seq<char>>,
    rcode: u8,
    ttl: Seq<u8>,
    ips: Seq<Ipv4Addr>,
) -> Seq<u8> {
    header_bytes(id, seq![0x81u8, (0x80 + rcode) as u8], 1, ips.len()) + question_bytes(labels)
        + a_records_bytes(ttl, ips)
}

proof fn a_records_length(ttl: Seq<u8>, ips: Seq<Ipv4Addr>)
    requires
        ttl.len() == 4,
    ensures
        a_records_bytes(ttl, ips).len() == 16 * ips.len(),
    decreases ips.len(),
{
    if ips.len() > 0 {
        a_records_length(ttl, ips.drop_first());
    }
}

/// A records are read back from where they stand, whatever stands before them.
proof fn a_records_read_back(r: Seq<u8>, at: int, ttl: Seq<u8>, ips: Seq<Ipv4Addr>)
    requires
        12 < at,
        ttl.len() == 4,
        at + 16 * ips.len() == r.len(),
        r.subrange(at, r.len() as int) == a_records_bytes(ttl, ips),
    ensures
        records_addresses(r, at, ips.len()) == Ok::<Seq<Ipv4Addr>, Seq<char>>(ips),
    decreases ips.len(),
{
    a_records_length(ttl, ips);
    if ips.len() == 0 {
        assert(ips =~= Seq::<Ipv4Addr>::empty());
    } else {
        let tail = r.subrange(at, r.len() as int);
        let one = a_record_bytes(ttl, ips[0]);
        let more = a_records_bytes(ttl, ips.drop_first());
        assert(one.len() == 16);
        assert forall|i: int| 0 <= i < 16 implies r[at + i] == one[i] by {
            assert(tail[i] == r[at + i]);
        }
        assert(r[at] == 0xc0 && r[at + 1] == 0x0c) by {
            assert(one[0] == 0xc0 && one[1] == 0x0c);
            assert(r[at + 0] == one[0]);
            assert(r[at + 1] == one[1]);
        }
        assert(name_end(r, at, at, 0) == Ok::<int, Seq<char>>(at + 2));
        assert(one[2] == 0 && one[3] == 1 && one[4] == 0 && one[5] == 1 && one[10] == 0 && one[11] == 4);
        assert(word_at(r, at + 2) == 1) by {
            assert(r[at + 2] == one[2] && r[at + 3] == one[3]);
        }
        assert(word_at(r, at + 4) == 1) by {
            assert(r[at + 4] == one[4] && r[at + 5] == one[5]);
        }
        assert(word_at(r, at + 10) == 4) by {
            assert(r[at + 10] == one[10] && r[at + 11] == one[11]);
        }
        assert(record_address(r, at + 2) =~= seq![ips[0]]) by {
            assert(r[at + 12] == one[12] && r[at + 13] == one[13] && r[at + 14] == one[14] && r[at + 15]
                == one[15]);
        }
        assert(r.subrange(at + 16, r.len() as int) =~= more) by {
            assert forall|i: int| 0 <= i < more.len() implies r[at + 16 + i] == more[i] by {
                assert(tail[16 + i] == r[at + 16 + i]);
                assert((one + more)[16 + i] == more[i]);
            }
        }
        a_records_read_back(r, at + 16, ttl, ips.drop_first());
        assert(seq![ips[0]] + ips.drop_first() =~= ips);
    }
}

/// What a server puts into a reply is what is read from it: the response code,
/// and the addresses in their order.
pub proof fn replies_read_back(
    id: u16,
    labels: Seq<Seq<char>>,
    rcode: u8,
    ttl: Seq<u8>,
    ips: Seq<Ipv4Addr>,
)
    requires
        name_fits(labels),
        rcode < 16,
        ttl.len() == 4,
        ips.len() < 65536,
    ensures
        answer_in(reply_bytes(id, labels, rcode, ttl, ips), id) == Ok::<
            (u8, Seq<Ipv4Addr>),
            Seq<char>,
        >((rcode, ips)),
{
    let head = header_bytes(id, seq![0x81u8, (0x80 + rcode) as u8], 1, ips.len());
    let question = question_bytes(labels);
    let records = a_records_bytes(ttl, ips);
    let r = reply_bytes(id, labels, rcode, ttl, ips);
    let names = labels_bytes(labels);
    let n: int = names.len() as int;
    a_records_length(ttl, ips);
    assert(head.len() == 12);
    assert(question.len() == n + 5);
    assert forall|i: int| 0 <= i < 12 implies r[i] == head[i] by {}
    be16_reads_back(id as nat);
    be16_reads_back(ips.len());
    assert(word_at(r, 0) == id) by {
        assert(r[0] == head[0] && r[1] == head[1]);
        assert(head[0] == be16(id as nat)[0] && head[1] == be16(id as nat)[1]);
    }
    assert(head[2] == 0x81u8 && head[3] == (0x80 + rcode) as u8);
    assert(r[2] == 0x81u8 && r[3] == (0x80 + rcode) as u8);
    assert(word_at(r, 4) == 1) by {
        assert(head[4] == 0 && head[5] == 1);
    }
    assert(word_at(r, 6) == ips.len()) by {
        assert(head[6] == be16(ips.len())[0] && head[7] == be16(ips.len())[1]);
    }
    assert(r.subrange(12, 12 + n) =~= names) by {
        assert forall|i: int| 0 <= i < n implies r[12 + i] == names[i] by {
            assert(question[i] == names[i]);
            assert(r[12 + i] == question[i]);
        }
    }
    assert(question[n] == 0);
    assert(r[12 + n] == question[n]);
    written_names_are_skipped(r, 12, 12, 0, labels);
    assert(questions_end(r, 12 + n + 5, 0) == Ok::<int, Seq<char>>(12 + n + 5));
    assert(questions_end(r, 12, 1) == Ok::<int, Seq<char>>(12 + n + 5)) by {
        reveal_with_fuel(questions_end, 2);
    }
    assert(r.subrange(12 + n + 5, r.len() as int) =~= records);
    a_records_read_back(r, 12 + n + 5, ttl, ips);
}

// ---------------------------------------------------------------------------
// Octets after the message
// ---------------------------------------------------------------------------

proof fn name_end_ignores_more(r: Seq<u8>, more: Seq<u8>, start: int, at: int, labels: nat)
    requires
        start <= at,
        name_end(r, start, at, labels) is Ok,
    ensures
        name_end(r + more, start, at, labels) == name_end(r, start, at, labels),
        name_end(r, start, at, labels)->Ok_0 > at,
        name_end(r, start, at, labels)->Ok_0 <= r.len(),
    decreases r.len() - at,
{
    let s = r + more;
    assert(s[at] == r[at]);
    if r[at] >= 0xc0 {
        assert(s[at + 1] == r[at + 1]);
    } else if 0 < r[at] < 0x40 {
        name_end_ignores_more(r, more, start, at + 1 + r[at], labels + 1);
    }
}

proof fn questions_end_ignores_more(r: Seq<u8>, more: Seq<u8>, at: int, count: nat)
    requires
        questions_end(r, at, count) is Ok,
    ensures
        questions_end(r + more, at, count) == questions_end(r, at, count),
    decreases count,
{
    if count > 0 {
        name_end_ignores_more(r, more, at, at, 0);
        let end = name_end(r, at, at, 0)->Ok_0;
        questions_end_ignores_more(r, more, end + 4, (count - 1) as nat);
    }
}

proof fn records_ignore_more(r: Seq<u8>, more: Seq<u8>, at: int, count: nat)
    requires
        0 <= at,
        records_addresses(r, at, count) is Ok,
    ensures
        records_addresses(r + more, at, count) == records_addresses(r, at, count),
    decreases count,
{
    if count > 0 {
        name_end_ignores_more(r, more, at, at, 0);
        let end = name_end(r, at, at, 0)->Ok_0;
        let s = r + more;
        assert forall|i: int| end <= i < end + 10 implies s[i] == r[i] by {}
        assert(word_at(s, end) == word_at(r, end));
        assert(word_at(s, end + 2) == word_at(r, end + 2));
        assert(word_at(s, end + 8) == word_at(r, end + 8));
        let n = word_at(r, end + 8);
        assert(record_address(s, end) =~= record_address(r, end));
        records_ignore_more(r, more, end + 10 + n, (count - 1) as nat);
    }
}

proof fn questions_end_is_forward(r: Seq<u8>, at: int, count: nat)
    requires
        0 <= at,
        questions_end(r, at, count) is Ok,
    ensures
        questions_end(r, at, count)->Ok_0 >= at,
    decreases count,
{
    if count > 0 {
        name_end_ignores_more(r, Seq::<u8>::empty(), at, at, 0);
        let end = name_end(r, at, at, 0)->Ok_0;
        questions_end_is_forward(r, end + 4, (count - 1) as nat);
    }
}

/// Octets after the last record do not change what is read from a response.
pub proof fn trailing_octets_are_ignored(r: Seq<u8>, more: Seq<u8>, id: u16)
    requires
        answer_in(r, id) is Ok,
    ensures
        answer_in(r + more, id) == answer_in(r, id),
{
    let s = r + more;
    assert forall|i: int| 0 <= i < 12 implies s[i] == r[i] by {}
    assert(word_at(s, 0) == word_at(r, 0));
    assert(word_at(s, 4) == word_at(r, 4));
    assert(word_at(s, 6) == word_at(r, 6));
    questions_end_ignores_more(r, more, 12, word_at(r, 4));
    questions_end_is_forward(r, 12, word_at(r, 4));
    let at = questions_end(r, 12, word_at(r, 4))->Ok_0;
    records_ignore_more(r, more, at, word_at(r, 6));
}

/// No more addresses are read than the header announces records.
pub proof fn addresses_within_count(r: Seq<u8>, at: int, count: nat)
    requires
        records_addresses(r, at, count) is Ok,
    ensures
        records_addresses(r, at, count)->Ok_0.len() <= count,
    decreases count,
{
    if count > 0 {
        let end = name_end(r, at, at, 0)->Ok_0;
        addresses_within_count(r, end + 10 + word_at(r, end + 8), (count - 1) as nat);
    }
}

} // verus!
