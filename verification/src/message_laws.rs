//! Whole messages: what a server writes is what is read, and nothing else is.
//!
//! Messages are described here by their parts, and written out octet by octet.

use vstd::prelude::*;

use crate::addr::Ipv4Addr;
use crate::wire::{answer_in, name_end, questions_end, records_addresses};

verus! {

// ---------------------------------------------------------------------------
// Messages by their parts
// ---------------------------------------------------------------------------

/// A name as it stands in a message: labels, then either the root or a pointer to an earlier place.
pub struct Name {
    pub labels: Seq<Seq<u8>>,
    pub pointer: Option<nat>,
}

/// A question: a name, and four octets of type and class.
pub struct Question {
    pub name: Name,
    pub rest: Seq<u8>,
}

/// A record.
pub struct Record {
    pub owner: Name,
    pub kind: nat,
    pub class: nat,
    pub ttl: Seq<u8>,
    pub data: Seq<u8>,
}

/// A message.
pub struct Message {
    pub id: nat,
    /// The two octets of flags.
    pub flags: (u8, u8),
    pub questions: Seq<Question>,
    pub records: Seq<Record>,
    /// The counts of what follows the answers, which are not read.
    pub counts: (u8, u8, u8, u8),
    /// Whatever follows the answers.
    pub tail: Seq<u8>,
}

/// Two octets, the higher one first.
pub open spec fn two(n: nat) -> Seq<u8> {
    seq![(n / 256) as u8, (n % 256) as u8]
}

/// Labels as they are written.
pub open spec fn labels_written(labels: Seq<Seq<u8>>) -> Seq<u8>
    decreases labels.len(),
{
    if labels.len() == 0 {
        Seq::empty()
    } else {
        seq![labels[0].len() as u8] + labels[0] + labels_written(labels.drop_first())
    }
}

/// A name as it is written.
pub open spec fn name_written(name: Name) -> Seq<u8> {
    labels_written(name.labels) + match name.pointer {
        None => seq![0u8],
        Some(p) => seq![(192 + p / 256) as u8, (p % 256) as u8],
    }
}

/// A record as it is written.
pub open spec fn record_written(r: Record) -> Seq<u8> {
    name_written(r.owner) + two(r.kind) + two(r.class) + r.ttl + two(r.data.len()) + r.data
}

/// Questions as they are written.
pub open spec fn questions_written(list: Seq<Question>) -> Seq<u8>
    decreases list.len(),
{
    if list.len() == 0 {
        Seq::empty()
    } else {
        name_written(list[0].name) + list[0].rest + questions_written(list.drop_first())
    }
}

/// Records as they are written.
pub open spec fn records_written(list: Seq<Record>) -> Seq<u8>
    decreases list.len(),
{
    if list.len() == 0 {
        Seq::empty()
    } else {
        record_written(list[0]) + records_written(list.drop_first())
    }
}

/// A message as it is written.
pub open spec fn message_written(m: Message) -> Seq<u8> {
    two(m.id) + seq![m.flags.0, m.flags.1] + two(m.questions.len()) + two(m.records.len()) + seq![
        m.counts.0,
        m.counts.1,
        m.counts.2,
        m.counts.3,
    ] + questions_written(m.questions) + records_written(m.records) + m.tail
}

/// Whether a name may stand at position `at`: labels of one to 63 octets, and a
/// pointer only to before the name, behind 16 labels at most.
pub open spec fn name_valid(name: Name, at: int) -> bool {
    &&& forall|i: int| 0 <= i < name.labels.len() ==> 1 <= (#[trigger] name.labels[i]).len() <= 63
    &&& match name.pointer {
        None => true,
        Some(p) => p < at && p < 16384 && name.labels.len() <= 16,
    }
}

/// Whether questions may stand at position `at`.
pub open spec fn questions_valid(list: Seq<Question>, at: int) -> bool
    decreases list.len(),
{
    list.len() > 0 ==> {
        &&& name_valid(list[0].name, at)
        &&& list[0].rest.len() == 4
        &&& questions_valid(list.drop_first(), at + name_written(list[0].name).len() + 4)
    }
}

/// Whether records may stand at position `at`.
pub open spec fn records_valid(list: Seq<Record>, at: int) -> bool
    decreases list.len(),
{
    list.len() > 0 ==> {
        &&& name_valid(list[0].owner, at)
        &&& list[0].kind < 65536
        &&& list[0].class < 65536
        &&& list[0].ttl.len() == 4
        &&& list[0].data.len() < 65536
        &&& records_valid(list.drop_first(), at + record_written(list[0]).len())
    }
}

/// Whether a message is a response that can be read.
pub open spec fn message_valid(m: Message) -> bool {
    &&& m.id < 65536
    &&& m.flags.0 >= 128
    &&& m.questions.len() < 65536
    &&& m.records.len() < 65536
    &&& questions_valid(m.questions, 12)
    &&& records_valid(m.records, 12int + questions_written(m.questions).len())
}

/// The addresses in records: those of type A and class IN with four octets of data, whoever owns them.
pub open spec fn addresses_held(list: Seq<Record>) -> Seq<Ipv4Addr> {
    list.filter(|r: Record| r.kind == 1 && r.class == 1 && r.data.len() == 4).map_values(
        |r: Record| Ipv4Addr { a: r.data[0], b: r.data[1], c: r.data[2], d: r.data[3] },
    )
}

/// Whether `part` stands in `r` at position `at`.
pub open spec fn stands(r: Seq<u8>, at: int, part: Seq<u8>) -> bool {
    &&& 0 <= at
    &&& at + part.len() <= r.len()
    &&& forall|i: int| 0 <= i < part.len() ==> r[at + i] == #[trigger] part[i]
}

// ---------------------------------------------------------------------------
// Reading what was written
// ---------------------------------------------------------------------------

proof fn stands_split(r: Seq<u8>, at: int, a: Seq<u8>, b: Seq<u8>)
    requires
        stands(r, at, a + b),
    ensures
        stands(r, at, a),
        stands(r, at + a.len(), b),
{
    let s = a + b;
    assert forall|i: int| 0 <= i < a.len() implies r[at + i] == #[trigger] a[i] by {
        assert(s[i] == a[i]);
    }
    assert forall|i: int| 0 <= i < b.len() implies r[at + a.len() + i] == #[trigger] b[i] by {
        assert(s[a.len() + i] == b[i]);
    }
}

/// Labels are read past.
proof fn labels_are_read(r: Seq<u8>, start: int, at: int, read: nat, labels: Seq<Seq<u8>>)
    requires
        forall|i: int| 0 <= i < labels.len() ==> 1 <= (#[trigger] labels[i]).len() <= 63,
        stands(r, at, labels_written(labels)),
    ensures
        name_end(r, start, at, read) == name_end(
            r,
            start,
            at + labels_written(labels).len(),
            read + labels.len(),
        ),
    decreases labels.len(),
{
    if labels.len() > 0 {
        let first = labels[0];
        let rest = labels.drop_first();
        let head = seq![first.len() as u8] + first;
        assert(labels_written(labels) =~= head + labels_written(rest));
        stands_split(r, at, head, labels_written(rest));
        assert(head[0] == first.len() as u8);
        assert(r[at + 0] == head[0]);
        assert forall|i: int| 0 <= i < rest.len() implies 1 <= (#[trigger] rest[i]).len() <= 63 by {
            assert(rest[i] == labels[i + 1]);
        }
        labels_are_read(r, start, at + head.len(), read + 1, rest);
    }
}

/// A name is read past.
proof fn names_are_read(r: Seq<u8>, at: int, name: Name)
    requires
        name_valid(name, at),
        stands(r, at, name_written(name)),
    ensures
        name_end(r, at, at, 0) == Ok::<int, Seq<char>>(at + name_written(name).len()),
{
    let head = labels_written(name.labels);
    let tail = match name.pointer {
        None => seq![0u8],
        Some(p) => seq![(192 + p / 256) as u8, (p % 256) as u8],
    };
    stands_split(r, at, head, tail);
    labels_are_read(r, at, at, 0, name.labels);
    let here = at + head.len();
    assert(r[here + 0] == tail[0]);
    match name.pointer {
        None => {},
        Some(p) => {
            assert(r[here + 1] == tail[1]);
        },
    }
}

proof fn questions_are_read(r: Seq<u8>, at: int, list: Seq<Question>)
    requires
        questions_valid(list, at),
        stands(r, at, questions_written(list)),
    ensures
        questions_end(r, at, list.len()) == Ok::<int, Seq<char>>(at + questions_written(list).len()),
    decreases list.len(),
{
    if list.len() > 0 {
        let name = name_written(list[0].name);
        let rest = questions_written(list.drop_first());
        assert(questions_written(list) =~= name + (list[0].rest + rest));
        stands_split(r, at, name, list[0].rest + rest);
        stands_split(r, at + name.len(), list[0].rest, rest);
        names_are_read(r, at, list[0].name);
        questions_are_read(r, at + name.len() + 4, list.drop_first());
    }
}

/// Taking the addresses of records goes from the first to the last.
proof fn addresses_from_first(list: Seq<Record>)
    requires
        list.len() > 0,
    ensures
        addresses_held(list) == addresses_held(seq![list[0]]) + addresses_held(list.drop_first()),
{
    let p = |r: Record| r.kind == 1 && r.class == 1 && r.data.len() == 4;
    let f = |r: Record| Ipv4Addr { a: r.data[0], b: r.data[1], c: r.data[2], d: r.data[3] };
    let (a, b) = (seq![list[0]], list.drop_first());
    assert(a + b =~= list);
    Seq::filter_distributes_over_add(a, b, p);
    assert(addresses_held(list) =~= addresses_held(a) + addresses_held(b));
}

/// The address of a single record.
proof fn address_of_one(r: Record)
    ensures
        addresses_held(seq![r]) == (if r.kind == 1 && r.class == 1 && r.data.len() == 4 {
            seq![Ipv4Addr { a: r.data[0], b: r.data[1], c: r.data[2], d: r.data[3] }]
        } else {
            Seq::empty()
        }),
{
    reveal(Seq::filter);
    let p = |r: Record| r.kind == 1 && r.class == 1 && r.data.len() == 4;
    assert(seq![r].drop_last() =~= Seq::<Record>::empty());
    assert(Seq::<Record>::empty().filter(p) =~= Seq::<Record>::empty());
    if p(r) {
        assert(seq![r].filter(p) =~= seq![r]);
    } else {
        assert(seq![r].filter(p) =~= Seq::<Record>::empty());
    }
    assert(addresses_held(seq![r]) =~= (if r.kind == 1 && r.class == 1 && r.data.len() == 4 {
        seq![Ipv4Addr { a: r.data[0], b: r.data[1], c: r.data[2], d: r.data[3] }]
    } else {
        Seq::empty()
    }));
}

proof fn records_are_read(r: Seq<u8>, at: int, list: Seq<Record>)
    requires
        records_valid(list, at),
        stands(r, at, records_written(list)),
    ensures
        records_addresses(r, at, list.len()) == Ok::<Seq<Ipv4Addr>, Seq<char>>(addresses_held(list)),
    decreases list.len(),
{
    if list.len() == 0 {
        reveal(Seq::filter);
        assert(addresses_held(list) =~= Seq::<Ipv4Addr>::empty());
    } else {
        let x = list[0];
        let name = name_written(x.owner);
        let rest = records_written(list.drop_first());
        let fixed = two(x.kind) + two(x.class) + x.ttl + two(x.data.len());
        assert(records_written(list) =~= name + (fixed + (x.data + rest)));
        assert(record_written(x).len() == name.len() + 10 + x.data.len());
        stands_split(r, at, name, fixed + (x.data + rest));
        let end = at + name.len();
        stands_split(r, end, fixed, x.data + rest);
        stands_split(r, end + 10, x.data, rest);
        names_are_read(r, at, x.owner);
        assert(fixed[0] == (x.kind / 256) as u8 && fixed[1] == (x.kind % 256) as u8);
        assert(fixed[2] == (x.class / 256) as u8 && fixed[3] == (x.class % 256) as u8);
        assert(fixed[8] == (x.data.len() / 256) as u8 && fixed[9] == (x.data.len() % 256) as u8);
        assert(r[end + 0] == fixed[0] && r[end + 1] == fixed[1] && r[end + 2] == fixed[2] && r[end + 3] == fixed[3]);
        assert(r[end + 8] == fixed[8] && r[end + 9] == fixed[9]);
        if x.data.len() == 4 {
            assert(r[end + 10 + 0] == x.data[0] && r[end + 10 + 1] == x.data[1] && r[end + 10 + 2] == x.data[2]
                && r[end + 10 + 3] == x.data[3]);
        }
        records_are_read(r, end + 10 + x.data.len(), list.drop_first());
        addresses_from_first(list);
        address_of_one(x);
    }
}

/// What a server writes is what is read: of every valid message, the response
/// code is the low half of the second octet of flags, and the addresses are those
/// of all records of type A and class IN with four octets of data, in their order,
/// whatever names own them and whatever records stand between them.
pub proof fn messages_read_back(m: Message)
    requires
        message_valid(m),
    ensures
        answer_in(message_written(m), m.id as u16) == Ok::<(u8, Seq<Ipv4Addr>), Seq<char>>(
            (m.flags.1 % 16, addresses_held(m.records)),
        ),
{
    let r = message_written(m);
    let q = questions_written(m.questions);
    let x = records_written(m.records);
    let head = two(m.id) + seq![m.flags.0, m.flags.1] + two(m.questions.len()) + two(m.records.len()) + seq![
        m.counts.0,
        m.counts.1,
        m.counts.2,
        m.counts.3,
    ];
    assert(head.len() == 12);
    assert(r =~= head + q + x + m.tail);
    assert forall|i: int| 0 <= i < 12 implies r[i] == head[i] by {}
    assert(head[0] == (m.id / 256) as u8 && head[1] == (m.id % 256) as u8);
    assert(head[2] == m.flags.0 && head[3] == m.flags.1);
    assert(head[4] == (m.questions.len() / 256) as u8 && head[5] == (m.questions.len() % 256) as u8);
    assert(head[6] == (m.records.len() / 256) as u8 && head[7] == (m.records.len() % 256) as u8);
    assert(stands(r, 12, q)) by {
        assert forall|i: int| 0 <= i < q.len() implies r[12 + i] == #[trigger] q[i] by {}
    }
    assert(stands(r, 12int + q.len(), x)) by {
        assert forall|i: int| 0 <= i < x.len() implies r[12 + q.len() + i] == #[trigger] x[i] by {}
    }
    questions_are_read(r, 12, m.questions);
    records_are_read(r, 12int + q.len(), m.records);
}

/// Whose name a record carries makes no difference: messages with the same flags
/// whose records differ in nothing but their owners give the same answer.
pub proof fn owners_do_not_matter(m: Message, n: Message)
    requires
        message_valid(m),
        message_valid(n),
        m.flags == n.flags,
        m.records.len() == n.records.len(),
        forall|i: int|
            0 <= i < m.records.len() ==> (#[trigger] m.records[i]).kind == n.records[i].kind && m.records[i].class
                == n.records[i].class && m.records[i].data == n.records[i].data,
    ensures
        answer_in(message_written(m), m.id as u16) == answer_in(message_written(n), n.id as u16),
{
    messages_read_back(m);
    messages_read_back(n);
    same_addresses(m.records, n.records);
}

proof fn same_addresses(a: Seq<Record>, b: Seq<Record>)
    requires
        a.len() == b.len(),
        forall|i: int|
            0 <= i < a.len() ==> (#[trigger] a[i]).kind == b[i].kind && a[i].class == b[i].class && a[i].data
                == b[i].data,
    ensures
        addresses_held(a) == addresses_held(b),
    decreases a.len(),
{
    if a.len() == 0 {
        assert(a =~= b);
    } else {
        addresses_from_first(a);
        addresses_from_first(b);
        address_of_one(a[0]);
        address_of_one(b[0]);
        assert forall|i: int| 0 <= i < a.drop_first().len() implies (#[trigger] a.drop_first()[i]).kind
            == b.drop_first()[i].kind && a.drop_first()[i].class == b.drop_first()[i].class && a.drop_first()[i].data
            == b.drop_first()[i].data by {
            assert(a[i + 1].kind == b[i + 1].kind);
        }
        same_addresses(a.drop_first(), b.drop_first());
    }
}

// ---------------------------------------------------------------------------
// Nothing else is read
// ---------------------------------------------------------------------------

/// The name that was read from position `at` on.
proof fn name_that_was_read(r: Seq<u8>, start: int, at: int, read: nat) -> (name: Name)
    requires
        0 <= at,
        name_end(r, start, at, read) is Ok,
    ensures
        forall|i: int| 0 <= i < name.labels.len() ==> 1 <= (#[trigger] name.labels[i]).len() <= 63,
        name.pointer matches Some(p) ==> p < start && p < 16384 && read + name.labels.len() <= 16,
        stands(r, at, name_written(name)),
        name_end(r, start, at, read)->Ok_0 == at + name_written(name).len(),
    decreases r.len() - at,
{
    if r[at] >= 0xc0 {
        let p = ((r[at] - 0xc0) * 256 + r[at + 1]) as nat;
        let name = Name { labels: Seq::empty(), pointer: Some(p) };
        let written = name_written(name);
        assert(written =~= seq![r[at], r[at + 1]]);
        name
    } else if r[at] == 0 {
        let name = Name { labels: Seq::empty(), pointer: None };
        assert(name_written(name) =~= seq![r[at]]);
        name
    } else {
        let n = r[at] as int;
        let label = r.subrange(at + 1, at + 1 + n);
        let rest = name_that_was_read(r, start, at + 1 + n, read + 1);
        let labels = seq![label] + rest.labels;
        let name = Name { labels, pointer: rest.pointer };
        assert(labels.drop_first() =~= rest.labels);
        let head = seq![r[at]] + label;
        assert(name_written(name) =~= head + name_written(rest));
        assert forall|i: int| 0 <= i < labels.len() implies 1 <= (#[trigger] labels[i]).len() <= 63 by {
            if i > 0 {
                assert(labels[i] == rest.labels[i - 1]);
            }
        }
        let written = name_written(name);
        let tail = name_written(rest);
        assert forall|i: int| 0 <= i < written.len() implies r[at + i] == #[trigger] written[i] by {
            if 1 <= i < 1 + n {
                assert(label[i - 1] == r[at + i]);
            } else if i >= 1 + n {
                assert(tail[i - 1 - n] == r[at + 1 + n + (i - 1 - n)]);
            }
        }
        name
    }
}

proof fn questions_that_were_read(r: Seq<u8>, at: int, count: nat) -> (list: Seq<Question>)
    requires
        0 <= at <= r.len(),
        questions_end(r, at, count) is Ok,
    ensures
        list.len() == count,
        questions_valid(list, at),
        stands(r, at, questions_written(list)),
        questions_end(r, at, count)->Ok_0 == at + questions_written(list).len(),
    decreases count,
{
    if count == 0 {
        Seq::empty()
    } else {
        let name = name_that_was_read(r, at, at, 0);
        let end = at + name_written(name).len();
        let rest = questions_that_were_read(r, end + 4, (count - 1) as nat);
        let octets = r.subrange(end, end + 4);
        let list = seq![Question { name, rest: octets }] + rest;
        assert(list.drop_first() =~= rest);
        assert(name_valid(list[0].name, at));
        let (a, b, c) = (name_written(name), octets, questions_written(rest));
        let written = questions_written(list);
        assert(written =~= a + b + c);
        assert forall|i: int| 0 <= i < written.len() implies r[at + i] == #[trigger] written[i] by {
            if i < a.len() {
                assert(a[i] == r[at + i]);
            } else if i < a.len() + 4 {
                assert(b[i - a.len()] == r[at + i]);
            } else {
                assert(c[i - a.len() - 4] == r[end + 4 + (i - a.len() - 4)]);
            }
        }
        list
    }
}

/// The records that were read, and how far they go.
proof fn records_that_were_read(r: Seq<u8>, at: int, count: nat) -> (list: Seq<Record>)
    requires
        0 <= at <= r.len(),
        records_addresses(r, at, count) is Ok,
    ensures
        list.len() == count,
        records_valid(list, at),
        stands(r, at, records_written(list)),
    decreases count,
{
    if count == 0 {
        Seq::empty()
    } else {
        let name = name_that_was_read(r, at, at, 0);
        let end = at + name_written(name).len();
        let kind = (r[end] * 256 + r[end + 1]) as nat;
        let class = (r[end + 2] * 256 + r[end + 3]) as nat;
        let n = (r[end + 8] * 256 + r[end + 9]) as nat;
        let x = Record {
            owner: name,
            kind,
            class,
            ttl: r.subrange(end + 4, end + 8),
            data: r.subrange(end + 10, end + 10 + n),
        };
        let rest = records_that_were_read(r, end + 10 + n, (count - 1) as nat);
        let list = seq![x] + rest;
        assert(list.drop_first() =~= rest);
        let (a, b, c, d) = (name_written(name), r.subrange(end, end + 10), x.data, records_written(rest));
        assert(two(kind) + two(class) + x.ttl + two(x.data.len()) =~= b);
        let written = records_written(list);
        assert(record_written(x) =~= a + b + c);
        assert(written =~= a + b + c + d);
        assert(name_valid(list[0].owner, at));
        assert forall|i: int| 0 <= i < written.len() implies r[at + i] == #[trigger] written[i] by {
            if i < a.len() {
                assert(a[i] == r[at + i]);
            } else if i < a.len() + 10 {
                assert(b[i - a.len()] == r[at + i]);
            } else if i < a.len() + 10 + n {
                assert(c[i - a.len() - 10] == r[at + i]);
            } else {
                assert(d[i - a.len() - 10 - n] == r[end + 10 + n + (i - a.len() - 10 - n)]);
            }
        }
        list
    }
}

/// Only messages are read: whatever gives an answer is a valid message with the
/// id that was asked for, octet by octet. The message is the one returned.
pub proof fn only_messages_are_read(r: Seq<u8>, id: u16) -> (m: Message)
    requires
        answer_in(r, id) is Ok,
    ensures
        message_valid(m),
        m.id == id,
        message_written(m) == r,
{
    let questions = questions_that_were_read(r, 12, (r[4] * 256 + r[5]) as nat);
    let at = 12 + questions_written(questions).len() as int;
    let records = records_that_were_read(r, at, (r[6] * 256 + r[7]) as nat);
    let end = at + records_written(records).len();
    let m = Message {
        id: id as nat,
        flags: (r[2], r[3]),
        questions,
        records,
        counts: (r[8], r[9], r[10], r[11]),
        tail: r.skip(end),
    };
    let (a, b) = (questions_written(questions), records_written(records));
    let w = message_written(m);
    assert(w.len() == r.len());
    assert(two(m.id) =~= seq![r[0], r[1]]);
    assert(two(questions.len()) =~= seq![r[4], r[5]]);
    assert(two(records.len()) =~= seq![r[6], r[7]]);
    assert forall|i: int| 0 <= i < r.len() implies w[i] == r[i] by {
        if i < 12 {
        } else if i < at {
            assert(a[i - 12] == r[12 + (i - 12)]);
        } else if i < end {
            assert(b[i - at] == r[at + (i - at)]);
        } else {
            assert(m.tail[i - end] == r[i]);
        }
    }
    assert(w =~= r);
    m
}

/// A message that is cut short anywhere before the end of its last record is refused.
pub proof fn cut_messages_are_refused(m: Message, n: int)
    requires
        message_valid(m),
        0 <= n < message_written(m).len() - m.tail.len(),
    ensures
        answer_in(message_written(m).take(n), m.id as u16) is Err,
{
    let whole = message_written(m);
    let part = whole.take(n);
    if answer_in(part, m.id as u16) is Ok {
        let p = only_messages_are_read(part, m.id as u16);
        assert(part.len() >= 12);
        assert forall|i: int| 0 <= i < 12 implies part[i] == whole[i] by {}
        counts_are_written(m);
        counts_are_written(p);
        assert(p.questions.len() == m.questions.len());
        assert(p.records.len() == m.records.len());
        questions_have_one_end(whole, 12, m.questions, p.questions);
        let at = 12 + questions_written(m.questions).len() as int;
        assert(questions_written(p.questions).len() == questions_written(m.questions).len());
        records_have_one_end(whole, at, m.records, p.records);
    }
}

/// Where the counts stand in a message, and what stands behind them.
proof fn counts_are_written(m: Message)
    requires
        message_valid(m),
    ensures
        ({
            let w = message_written(m);
            let q = questions_written(m.questions);
            let x = records_written(m.records);
            &&& w.len() == 12 + q.len() + x.len() + m.tail.len()
            &&& w[4] * 256 + w[5] == m.questions.len()
            &&& w[6] * 256 + w[7] == m.records.len()
            &&& forall|i: int| 0 <= i < q.len() ==> w[12 + i] == #[trigger] q[i]
            &&& forall|i: int| 0 <= i < x.len() ==> w[12 + q.len() + i] == #[trigger] x[i]
        }),
{
}

/// Questions that stand at the same place end at the same place.
proof fn questions_have_one_end(r: Seq<u8>, at: int, a: Seq<Question>, b: Seq<Question>)
    requires
        a.len() == b.len(),
        questions_valid(a, at),
        questions_valid(b, at),
        stands(r, at, questions_written(a)),
        stands(r, at, questions_written(b)),
    ensures
        questions_written(a).len() == questions_written(b).len(),
{
    questions_are_read(r, at, a);
    questions_are_read(r, at, b);
}

/// Records that stand at the same place end at the same place.
proof fn records_have_one_end(r: Seq<u8>, at: int, a: Seq<Record>, b: Seq<Record>)
    requires
        a.len() == b.len(),
        records_valid(a, at),
        records_valid(b, at),
        stands(r, at, records_written(a)),
        stands(r, at, records_written(b)),
    ensures
        records_written(a).len() == records_written(b).len(),
    decreases a.len(),
{
    if a.len() > 0 {
        let (x, y) = (a[0], b[0]);
        stands_split(r, at, record_written(x), records_written(a.drop_first()));
        stands_split(r, at, record_written(y), records_written(b.drop_first()));
        one_record_one_end(r, at, x);
        one_record_one_end(r, at, y);
        records_have_one_end(r, at + record_written(x).len(), a.drop_first(), b.drop_first());
    }
}

/// The end of a record is found in the octets alone.
proof fn one_record_one_end(r: Seq<u8>, at: int, x: Record)
    requires
        name_valid(x.owner, at),
        x.ttl.len() == 4,
        x.data.len() < 65536,
        stands(r, at, record_written(x)),
    ensures
        name_end(r, at, at, 0) is Ok,
        ({
            let end = name_end(r, at, at, 0)->Ok_0;
            record_written(x).len() == end - at + 10 + r[end + 8] * 256 + r[end + 9]
        }),
{
    let name = name_written(x.owner);
    let fixed = two(x.kind) + two(x.class) + x.ttl + two(x.data.len());
    assert(record_written(x) =~= name + (fixed + x.data));
    stands_split(r, at, name, fixed + x.data);
    stands_split(r, at + name.len(), fixed, x.data);
    names_are_read(r, at, x.owner);
    let end = at + name.len();
    assert(fixed[8] == (x.data.len() / 256) as u8 && fixed[9] == (x.data.len() % 256) as u8);
    assert(r[end + 8] == fixed[8] && r[end + 9] == fixed[9]);
}

/// A response is refused, in these words, if it is too short to hold a header,
/// or else if it has another id or does not say that it is a response.
pub proof fn strange_headers_are_refused(r: Seq<u8>, id: u16)
    ensures
        r.len() < 12 ==> answer_in(r, id) == Err::<(u8, Seq<Ipv4Addr>), Seq<char>>("short header"@),
        r.len() >= 12 && (r[0] * 256 + r[1] != id || r[2] < 128) ==> answer_in(r, id) == Err::<
            (u8, Seq<Ipv4Addr>),
            Seq<char>,
        >("id/qr mismatch"@),
{
}

/// A name that begins well and then breaks off is refused in words that say why:
/// the message ends, or a label reaches beyond its end, or an octet can neither be
/// a length nor begin a pointer, or a pointer breaks off, or it does not lead
/// back before the name, or it comes after too many labels.
pub proof fn broken_names_are_refused(r: Seq<u8>, at: int, labels: Seq<Seq<u8>>)
    requires
        0 <= at,
        forall|i: int| 0 <= i < labels.len() ==> 1 <= (#[trigger] labels[i]).len() <= 63,
        stands(r, at, labels_written(labels)),
    ensures
        ({
            let here = at + labels_written(labels).len();
            let end = name_end(r, at, at, 0);
            &&& here == r.len() ==> end == Err::<int, Seq<char>>("name truncated"@)
            &&& here < r.len() && 64 <= r[here] < 192 ==> end == Err::<int, Seq<char>>("bad label len"@)
            &&& here < r.len() && 1 <= r[here] < 64 && here + 1 + r[here] > r.len() ==> end == Err::<
                int,
                Seq<char>,
            >("label overflow"@)
            &&& here + 1 == r.len() && r[here] >= 192 ==> end == Err::<int, Seq<char>>("name ptr truncated"@)
            &&& here + 1 < r.len() && r[here] >= 192 && ((r[here] - 192) * 256 + r[here + 1] >= at || labels.len()
                > 16) ==> end == Err::<int, Seq<char>>("bad name pointer"@)
        }),
{
    labels_are_read(r, at, at, 0, labels);
}

// ---------------------------------------------------------------------------
// Where a message breaks off
// ---------------------------------------------------------------------------

proof fn questions_are_read_past(r: Seq<u8>, at: int, list: Seq<Question>, count: nat)
    requires
        questions_valid(list, at),
        stands(r, at, questions_written(list)),
        list.len() <= count,
    ensures
        questions_end(r, at, count) == questions_end(
            r,
            at + questions_written(list).len(),
            (count - list.len()) as nat,
        ),
    decreases list.len(),
{
    if list.len() > 0 {
        let name = name_written(list[0].name);
        let rest = questions_written(list.drop_first());
        assert(questions_written(list) =~= name + (list[0].rest + rest));
        stands_split(r, at, name, list[0].rest + rest);
        stands_split(r, at + name.len(), list[0].rest, rest);
        names_are_read(r, at, list[0].name);
        questions_are_read_past(r, at + name.len() + 4, list.drop_first(), (count - 1) as nat);
    }
}

/// Where the questions break off after some that are whole, the words are those of
/// the broken name, or else say that type and class are missing.
pub proof fn broken_questions_are_refused(r: Seq<u8>, at: int, list: Seq<Question>, count: nat, name: Name)
    requires
        questions_valid(list, at),
        stands(r, at, questions_written(list)),
        list.len() < count,
    ensures
        ({
            let here = at + questions_written(list).len();
            let end = questions_end(r, at, count);
            &&& name_end(r, here, here, 0) matches Err(m) ==> end == Err::<int, Seq<char>>(m)
            &&& name_valid(name, here) && stands(r, here, name_written(name)) && here + name_written(name).len() + 4
                > r.len() ==> end == Err::<int, Seq<char>>("q overflow"@)
        }),
{
    let here = at + questions_written(list).len();
    questions_are_read_past(r, at, list, count);
    if name_valid(name, here) && stands(r, here, name_written(name)) {
        names_are_read(r, here, name);
    }
}

proof fn records_are_read_past(r: Seq<u8>, at: int, list: Seq<Record>, count: nat)
    requires
        records_valid(list, at),
        stands(r, at, records_written(list)),
        list.len() <= count,
    ensures
        records_addresses(r, at + records_written(list).len(), (count - list.len()) as nat) matches Err(m)
            ==> records_addresses(r, at, count) == Err::<Seq<Ipv4Addr>, Seq<char>>(m),
    decreases list.len(),
{
    if list.len() > 0 {
        let x = list[0];
        let rest = records_written(list.drop_first());
        stands_split(r, at, record_written(x), rest);
        one_record_one_end(r, at, x);
        records_are_read_past(r, at + record_written(x).len(), list.drop_first(), (count - 1) as nat);
    }
}

/// Where the records break off after some that are whole, the words are those of
/// the broken name, or else say that the fixed fields are missing, or the data.
pub proof fn broken_records_are_refused(r: Seq<u8>, at: int, list: Seq<Record>, count: nat, name: Name)
    requires
        records_valid(list, at),
        stands(r, at, records_written(list)),
        list.len() < count,
    ensures
        ({
            let here = at + records_written(list).len();
            let end = here + name_written(name).len();
            let outcome = records_addresses(r, at, count);
            &&& name_end(r, here, here, 0) matches Err(m) ==> outcome == Err::<Seq<Ipv4Addr>, Seq<char>>(m)
            &&& name_valid(name, here) && stands(r, here, name_written(name)) && end + 10 > r.len() ==> outcome
                == Err::<Seq<Ipv4Addr>, Seq<char>>("rr overflow"@)
            &&& name_valid(name, here) && stands(r, here, name_written(name)) && end + 10 <= r.len() && end + 10
                + r[end + 8] * 256 + r[end + 9] > r.len() ==> outcome == Err::<Seq<Ipv4Addr>, Seq<char>>(
                "rdata overflow"@,
            )
        }),
{
    let here = at + records_written(list).len();
    records_are_read_past(r, at, list, count);
    if name_valid(name, here) && stands(r, here, name_written(name)) {
        names_are_read(r, here, name);
    }
}

/// What is wrong with the questions or the records of a response is what is said of
/// it; of the questions first.
pub proof fn broken_parts_are_reported(r: Seq<u8>, id: u16)
    requires
        r.len() >= 12,
        r[0] * 256 + r[1] == id,
        r[2] >= 128,
    ensures
        match questions_end(r, 12, (r[4] * 256 + r[5]) as nat) {
            Err(m) => answer_in(r, id) == Err::<(u8, Seq<Ipv4Addr>), Seq<char>>(m),
            Ok(at) => match records_addresses(r, at, (r[6] * 256 + r[7]) as nat) {
                Err(m) => answer_in(r, id) == Err::<(u8, Seq<Ipv4Addr>), Seq<char>>(m),
                Ok(ips) => answer_in(r, id) == Ok::<(u8, Seq<Ipv4Addr>), Seq<char>>((r[3] % 16, ips)),
            },
        },
{
}

} // verus!
