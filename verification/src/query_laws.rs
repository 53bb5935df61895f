//! Whole queries, octet by octet: which names are asked for, and in which words the others are refused.

use vstd::prelude::*;

use crate::error::R;
use crate::message_laws::{labels_written, two};
use crate::scan::{
    is_white, joined, pieces, pieces_nonempty, pieces_of_longer, pieces_of_plain, splitting_then_joining, trimmed,
};
use crate::scan_laws::{
    marks_are_taken_from_the_end, marks_end_there, trimming_ends_there, trimming_takes_the_ends,
};
use crate::wire::{
    asked_name, is_ascii_char, is_query, label_bytes, label_fits, labels_bytes, labels_length, labels_of, name_fits,
    query_bytes, query_for,
};
use crate::wire_laws::labels_bytes_from_first;

verus! {

/// Labels as octets: each character is one, by its number.
pub open spec fn octets_of(labels: Seq<Seq<char>>) -> Seq<Seq<u8>> {
    labels.map_values(|label: Seq<char>| label.map_values(|c: char| c as u8))
}

/// A query as it is written: the id, a wish for recursion, one question and
/// nothing else, the name, the root, type A and class IN.
pub open spec fn query_written(id: nat, labels: Seq<Seq<char>>) -> Seq<u8> {
    two(id) + seq![1u8, 0, 0, 1, 0, 0, 0, 0, 0, 0] + labels_written(octets_of(labels)) + seq![0u8, 0, 1, 0, 1]
}

/// Whether labels can be asked for: at least one of them, each of one to 63 ASCII
/// characters without a dot, and 253 characters at most with the dots between them.
pub open spec fn labels_valid(labels: Seq<Seq<char>>) -> bool {
    &&& labels.len() > 0
    &&& forall|i: int| 0 <= i < labels.len() ==> 1 <= (#[trigger] labels[i]).len() <= 63
    &&& forall|i: int, k: int|
        0 <= i < labels.len() && 0 <= k < labels[i].len() ==> (#[trigger] labels[i][k] as int) < 128 && labels[i][k]
            != '.'
    &&& joined(labels, seq!['.']).len() <= 253
}

// ---------------------------------------------------------------------------
// The octets of a query
// ---------------------------------------------------------------------------

proof fn labels_are_written(labels: Seq<Seq<char>>)
    ensures
        labels_bytes(labels) == labels_written(octets_of(labels)),
    decreases labels.len(),
{
    let written = octets_of(labels);
    if labels.len() > 0 {
        let rest = labels.drop_first();
        labels_are_written(rest);
        labels_bytes_from_first(labels);
        assert(written.drop_first() =~= octets_of(rest));
        assert(written[0] =~= labels[0].map_values(|c: char| c as u8));
        assert(label_bytes(labels[0]) =~= seq![written[0].len() as u8] + written[0]);
        assert(labels_bytes(labels) =~= labels_written(written));
    } else {
        assert(labels_bytes(labels) =~= labels_written(written));
    }
}

/// Of every query, whatever its name: the first two octets are the id, the next
/// ten ask for recursion and announce one question and nothing else, the last five
/// are the root label, type A and class IN, and between them stand the labels,
/// each character as it is behind its label's length.
pub proof fn queries_are_spelled_out(id: u16, labels: Seq<Seq<char>>)
    ensures
        ({
            let q = query_bytes(id, labels);
            let n = q.len() as int;
            &&& n >= 17
            &&& q[0] * 256 + q[1] == id
            &&& q.subrange(2, 12) == seq![1u8, 0, 0, 1, 0, 0, 0, 0, 0, 0]
            &&& q.skip(n - 4) == seq![0u8, 1, 0, 1]
            &&& q[n - 5] == 0
            &&& q.subrange(12, n - 5) == labels_written(octets_of(labels))
            &&& q == query_written(id as nat, labels)
        }),
{
    labels_are_written(labels);
    let q = query_bytes(id, labels);
    let n = q.len() as int;
    assert(q.subrange(2, 12) =~= seq![1u8, 0, 0, 1, 0, 0, 0, 0, 0, 0]);
    assert(q.skip(n - 4) =~= seq![0u8, 1, 0, 1]);
    assert(q.subrange(12, n - 5) =~= labels_written(octets_of(labels)));
    assert(q =~= query_written(id as nat, labels));
}

/// Where a label stands among the labels of a query.
pub open spec fn place_of(labels: Seq<Seq<char>>, i: int) -> int
    decreases i,
{
    if i <= 0 {
        0
    } else {
        place_of(labels, i - 1) + 1 + labels[i - 1].len()
    }
}

proof fn labels_have_places(labels: Seq<Seq<char>>, i: int)
    requires
        0 <= i < labels.len(),
    ensures
        place_of(labels, i) >= 0,
        place_of(labels, i) + 1 + labels[i].len() <= labels_bytes(labels).len(),
        labels_bytes(labels)[place_of(labels, i)] == labels[i].len() as u8,
        forall|k: int|
            0 <= k < labels[i].len() ==> labels_bytes(labels)[place_of(labels, i) + 1 + k]
                == #[trigger] labels[i][k] as u8,
    decreases labels.len(),
{
    let all = labels_bytes(labels);
    let rest = labels.drop_last();
    let last = label_bytes(labels.last());
    if i == labels.len() - 1 {
        places_add_up(labels);
        assert(all[labels_bytes(rest).len() as int] == last[0]);
        assert forall|k: int| 0 <= k < labels[i].len() implies all[place_of(labels, i) + 1 + k]
            == #[trigger] labels[i][k] as u8 by {
            assert(all[labels_bytes(rest).len() + 1 + k] == last[1 + k]);
        }
    } else {
        labels_have_places(rest, i);
        same_places(labels, rest, i);
        assert(rest[i] == labels[i]);
        assert forall|k: int| 0 <= k < labels[i].len() implies all[place_of(labels, i) + 1 + k]
            == #[trigger] labels[i][k] as u8 by {
            assert(rest[i][k] == labels[i][k]);
        }
    }
}

proof fn same_places(a: Seq<Seq<char>>, b: Seq<Seq<char>>, i: int)
    requires
        0 <= i <= a.len(),
        i <= b.len(),
        forall|j: int| 0 <= j < i ==> a[j] == b[j],
    ensures
        place_of(a, i) == place_of(b, i),
    decreases i,
{
    if i > 0 {
        same_places(a, b, i - 1);
        assert(a[i - 1] == b[i - 1]);
    }
}

proof fn places_add_up(labels: Seq<Seq<char>>)
    requires
        labels.len() > 0,
    ensures
        place_of(labels, labels.len() - 1) == labels_bytes(labels.drop_last()).len(),
    decreases labels.len(),
{
    if labels.len() > 1 {
        let rest = labels.drop_last();
        places_add_up(rest);
        same_places(labels, rest, rest.len() - 1);
        assert(rest[rest.len() - 1] == labels[labels.len() - 2]);
    }
}

proof fn one_octet(c: char)
    requires
        (c as int) < 128,
    ensures
        c as u8 as int == c as int,
{
}

/// Each label of a name stands in the query behind those before it: its length,
/// and then its characters, the same and in the same order.
pub proof fn labels_stand_in_queries(id: u16, labels: Seq<Seq<char>>, i: int, k: int)
    requires
        labels_valid(labels),
        0 <= i < labels.len(),
        0 <= k < labels[i].len(),
    ensures
        query_bytes(id, labels)[12 + place_of(labels, i)] as int == labels[i].len(),
        query_bytes(id, labels)[12 + place_of(labels, i) + 1 + k] as int == labels[i][k] as int,
{
    labels_have_places(labels, i);
    let c = labels[i][k];
    let at = place_of(labels, i) + 1 + k;
    assert((c as int) < 128);
    one_octet(c);
    assert(labels_bytes(labels)[at] == labels[i][k] as u8);
    assert(query_bytes(id, labels)[12 + at] == labels_bytes(labels)[at]);
    assert(query_bytes(id, labels)[12 + at] as int == c as int);
    assert(12 + place_of(labels, i) + 1 + k == 12 + at);
}

// ---------------------------------------------------------------------------
// Which names are asked for
// ---------------------------------------------------------------------------

proof fn joined_length(labels: Seq<Seq<char>>)
    requires
        labels.len() > 0,
    ensures
        labels_length(labels) == joined(labels, seq!['.']).len() + 1,
    decreases labels.len(),
{
    if labels.len() > 1 {
        joined_length(labels.drop_last());
    } else {
        assert(labels_length(labels.drop_last()) == 0);
    }
}

/// Splitting what was joined gives the labels back.
proof fn joining_then_splitting(labels: Seq<Seq<char>>)
    requires
        labels.len() > 0,
        forall|i: int| 0 <= i < labels.len() ==> !(#[trigger] labels[i]).contains('.'),
    ensures
        pieces(joined(labels, seq!['.']), '.') == labels,
    decreases labels.len(),
{
    let last = labels.last();
    assert(!labels[labels.len() - 1].contains('.'));
    if labels.len() == 1 {
        pieces_of_plain(last, '.');
        assert(seq![last] =~= labels);
    } else {
        let rest = labels.drop_last();
        assert forall|i: int| 0 <= i < rest.len() implies !(#[trigger] rest[i]).contains('.') by {
            assert(rest[i] == labels[i]);
        }
        joining_then_splitting(rest);
        pieces_of_longer(joined(rest, seq!['.']), '.', last);
        assert(joined(labels, seq!['.']) =~= joined(rest, seq!['.']).push('.') + last);
        assert(rest.push(last) =~= labels);
    }
}

proof fn valid_is_fitting(labels: Seq<Seq<char>>)
    requires
        labels.len() > 0,
        forall|i: int| 0 <= i < labels.len() ==> !(#[trigger] labels[i]).contains('.'),
    ensures
        labels_valid(labels) <==> name_fits(labels),
{
    joined_length(labels);
    if labels_valid(labels) {
        assert forall|i: int| 0 <= i < labels.len() implies label_fits(#[trigger] labels[i]) by {
            assert forall|k: int| 0 <= k < labels[i].len() implies is_ascii_char(#[trigger] labels[i][k]) by {
                assert((labels[i][k] as int) < 128);
            }
        }
    }
    if name_fits(labels) {
        assert forall|i: int| 0 <= i < labels.len() implies 1 <= (#[trigger] labels[i]).len() <= 63 by {
            assert(label_fits(labels[i]));
        }
        assert forall|i: int, k: int| 0 <= i < labels.len() && 0 <= k < labels[i].len() implies (
        #[trigger] labels[i][k] as int) < 128 && labels[i][k] != '.' by {
            assert(label_fits(labels[i]));
            assert(is_ascii_char(labels[i][k]));
            assert(!labels[i].contains('.'));
        }
    }
}

/// What is asked for is what stands between white space and, at the end, dots:
/// the domain is white space, the name, dots and white space, and the name neither
/// ends in a dot nor begins with white space.
pub proof fn asked_names_are_bare(domain: Seq<char>) -> (cut: (int, int, int))
    ensures
        0 <= cut.0 <= cut.1 <= cut.2 <= domain.len(),
        asked_name(domain) == domain.subrange(cut.0, cut.1),
        forall|i: int| 0 <= i < cut.0 ==> is_white(#[trigger] domain[i]),
        forall|i: int| cut.1 <= i < cut.2 ==> #[trigger] domain[i] == '.',
        forall|i: int| cut.2 <= i < domain.len() ==> is_white(#[trigger] domain[i]),
        cut.0 < cut.1 ==> !is_white(domain[cut.0]) && domain[cut.1 - 1] != '.',
        cut.0 < cut.2 ==> !is_white(domain[cut.2 - 1]),
{
    let ends = trimming_takes_the_ends(domain);
    let t = trimmed(domain);
    let k = marks_are_taken_from_the_end(t, '.');
    assert(t.take(k) =~= domain.subrange(ends.0, ends.0 + k));
    assert forall|i: int| ends.0 + k <= i < ends.1 implies #[trigger] domain[i] == '.' by {
        assert(t[i - ends.0] == domain[i]);
    }
    if k > 0 {
        assert(t[k - 1] == domain[ends.0 + k - 1]);
    }
    (ends.0, ends.0 + k, ends.1)
}

/// Names that fit are asked for, whatever white space stands around them and
/// however many dots at their end.
pub proof fn fitting_names_are_asked_for(
    id: u16,
    before: Seq<char>,
    labels: Seq<Seq<char>>,
    dots: Seq<char>,
    after: Seq<char>,
)
    requires
        labels_valid(labels),
        forall|i: int| 0 <= i < before.len() ==> is_white(#[trigger] before[i]),
        forall|i: int| 0 <= i < dots.len() ==> #[trigger] dots[i] == '.',
        forall|i: int| 0 <= i < after.len() ==> is_white(#[trigger] after[i]),
        !is_white(joined(labels, seq!['.'])[0]),
        !is_white(joined(labels, seq!['.']).last()),
    ensures
        query_for(id, before + joined(labels, seq!['.']) + dots + after) == Ok::<Seq<u8>, Seq<char>>(
            query_written(id as nat, labels),
        ),
{
    let name = joined(labels, seq!['.']);
    let domain = before + name + dots + after;
    joined_length(labels);
    joined_is_nonempty(labels);
    let last = labels.last();
    assert(name.last() == last[last.len() - 1]);
    assert(labels[labels.len() - 1] == last);
    assert(labels[labels.len() - 1][last.len() - 1] != '.');
    let inner = name + dots;
    assert(!is_white(inner.last()));
    trimming_ends_there(domain, before.len() as int, before.len() as int + inner.len());
    assert(domain.subrange(before.len() as int, before.len() as int + inner.len()) =~= inner);
    marks_end_there(inner, '.', name.len() as int);
    assert(inner.take(name.len() as int) =~= name);
    assert forall|i: int| 0 <= i < labels.len() implies !(#[trigger] labels[i]).contains('.') by {
        assert forall|k: int| 0 <= k < labels[i].len() implies labels[i][k] != '.' by {
            assert((labels[i][k] as int) < 128);
        }
    }
    joining_then_splitting(labels);
    valid_is_fitting(labels);
    queries_are_spelled_out(id, labels);
}

proof fn joined_is_nonempty(labels: Seq<Seq<char>>)
    requires
        labels_valid(labels),
    ensures
        joined(labels, seq!['.']).len() > 0,
        joined(labels, seq!['.']).last() == labels.last()[labels.last().len() - 1],
{
    assert(1 <= labels[labels.len() - 1].len());
    if labels.len() > 1 {
        let name = joined(labels, seq!['.']);
        assert(name == joined(labels.drop_last(), seq!['.']) + seq!['.'] + labels.last());
    }
}

/// Nothing else is asked for: where there is a query, it is that of labels that
/// fit and, with dots between them, make up the name. The labels are those returned.
pub proof fn only_fitting_names_are_asked_for(id: u16, domain: Seq<char>) -> (labels: Seq<Seq<char>>)
    requires
        query_for(id, domain) is Ok,
    ensures
        labels_valid(labels),
        joined(labels, seq!['.']) == asked_name(domain),
        query_for(id, domain) == Ok::<Seq<u8>, Seq<char>>(query_written(id as nat, labels)),
{
    let name = asked_name(domain);
    let labels = labels_of(name);
    splitting_then_joining(name, '.');
    pieces_nonempty(name, '.');
    valid_is_fitting(labels);
    queries_are_spelled_out(id, labels);
    labels
}

/// A name is refused as empty exactly if nothing is left of it, and as invalid
/// exactly if it is too long, or one of the parts between its dots is empty, too
/// long or not ASCII.
pub proof fn other_names_are_refused(id: u16, domain: Seq<char>)
    ensures
        ({
            let name = asked_name(domain);
            let parts = pieces(name, '.');
            let fits = name.len() <= 253 && (forall|i: int|
                0 <= i < parts.len() ==> 1 <= (#[trigger] parts[i]).len() <= 63) && (forall|i: int, k: int|
                0 <= i < parts.len() && 0 <= k < parts[i].len() ==> (#[trigger] parts[i][k] as int) < 128);
            &&& name.len() == 0 ==> query_for(id, domain) == Err::<Seq<u8>, Seq<char>>("empty domain"@)
            &&& name.len() > 0 && fits ==> query_for(id, domain) is Ok
            &&& name.len() > 0 && !fits ==> query_for(id, domain) == Err::<Seq<u8>, Seq<char>>(
                "invalid label in "@ + name,
            )
        }),
{
    let name = asked_name(domain);
    let parts = pieces(name, '.');
    splitting_then_joining(name, '.');
    pieces_nonempty(name, '.');
    valid_is_fitting(parts);
    if labels_valid(parts) {
        assert forall|i: int, k: int| 0 <= i < parts.len() && 0 <= k < parts[i].len() implies (
        #[trigger] parts[i][k] as int) < 128 by {}
    }
    let fits = name.len() <= 253 && (forall|i: int| 0 <= i < parts.len() ==> 1 <= (#[trigger] parts[i]).len() <= 63)
        && (forall|i: int, k: int|
        0 <= i < parts.len() && 0 <= k < parts[i].len() ==> (#[trigger] parts[i][k] as int) < 128);
    if fits {
        assert forall|i: int, k: int| 0 <= i < parts.len() && 0 <= k < parts[i].len() implies (
        #[trigger] parts[i][k] as int) < 128 && parts[i][k] != '.' by {
            assert(!parts[i].contains('.'));
        }
        assert(labels_valid(parts));
    }
}

/// What is handed out for an expected query is that query, octet by octet, and for
/// an expected refusal a `BadName` with its words.
pub proof fn outcomes_are_as_expected(r: R<Vec<u8>>, expected: Result<Seq<u8>, Seq<char>>)
    ensures
        is_query(r, expected) ==> (r is Ok <==> expected is Ok),
        is_query(r, expected) && r is Ok ==> r->Ok_0@ == expected->Ok_0,
        is_query(r, expected) && r is Err ==> r->Err_0 is BadName && r->Err_0->BadName_0@ == expected->Err_0,
{
}

} // verus!
