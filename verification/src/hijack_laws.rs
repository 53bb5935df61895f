//! What a verdict on a server comes to, said of the outcomes of the tries.

use vstd::prelude::*;

use crate::addr::Ipv4Addr;
use crate::hijack::{bases_among, findings_after, probe_name_text, with_new, Findings, FindingsView};
use crate::isp::address_texts;
use crate::number::{decimal, hex};
use crate::number_laws::{digits_are_written_in_order, eight_digits_tell_apart, hexadecimal_digits_are_in_order};
use crate::scan::{
    contains_text, first_occurrences, first_occurrences_are_distinct, joined, occurs_at, trimmed, without_leading,
};
use crate::scan_laws::joined_texts_are_kept;
use crate::trial::Outcome;

verus! {

/// A response with any code but 3, which says that there is no such name.
pub open spec fn forged(outcome: Outcome) -> bool {
    match outcome {
        Outcome::Answered(code, _) => code != 3,
        _ => false,
    }
}

/// A response with code 3.
pub open spec fn denied(outcome: Outcome) -> bool {
    match outcome {
        Outcome::Answered(code, _) => code == 3,
        _ => false,
    }
}

/// The addresses that came with response code 0, in their order.
pub open spec fn addresses_told(outcomes: Seq<Outcome>) -> Seq<Seq<char>>
    decreases outcomes.len(),
{
    if outcomes.len() == 0 {
        Seq::empty()
    } else {
        addresses_told(outcomes.drop_last()) + match outcomes.last() {
            Outcome::Answered(0, ips) => ips@.map_values(|ip: Ipv4Addr| ip.text()),
            _ => Seq::empty(),
        }
    }
}

/// What there is to say of an outcome that is neither a denial nor an address.
pub open spec fn trouble_in(outcome: Outcome) -> Option<Seq<char>> {
    match outcome {
        Outcome::TimedOut => Some("超时"@),
        Outcome::Failed(e) => Some(e.summary_text()),
        Outcome::Answered(code, ips) => if code == 3 || code == 0 && ips@.len() > 0 {
            None
        } else if code == 0 {
            Some("NOERROR 但无 A 记录"@)
        } else {
            Some("rcode="@ + decimal(code as nat))
        },
    }
}

/// Whether outcome `i` is the first with something to say of it.
pub open spec fn first_trouble_at(outcomes: Seq<Outcome>, i: int) -> bool {
    &&& 0 <= i < outcomes.len()
    &&& trouble_in(outcomes[i]) is Some
    &&& forall|j: int| 0 <= j < i ==> trouble_in(#[trigger] outcomes[j]) is None
}

// ---------------------------------------------------------------------------
// What is found
// ---------------------------------------------------------------------------

/// Adding what is new to first occurrences gives the first occurrences of both lists.
proof fn new_ones_occur_first(a: Seq<Seq<char>>, b: Seq<Seq<char>>)
    ensures
        with_new(first_occurrences(a), b) == first_occurrences(a + b),
    decreases b.len(),
{
    if b.len() == 0 {
        assert(a + b =~= a);
    } else {
        let t = b.drop_last();
        new_ones_occur_first(a, t);
        assert((a + b).drop_last() =~= a + t);
        assert((a + b).last() == b.last());
    }
}

/// What the tries have shown is counted from the outcomes: each denial once, each
/// forgery once, each address once and in the order of coming, and the first trouble.
pub proof fn findings_are_counted(outcomes: Seq<Outcome>)
    ensures
        ({
            let f = findings_after(outcomes);
            &&& f.tries == outcomes.len()
            &&& f.nxdomain == outcomes.filter(|o: Outcome| denied(o)).len()
            &&& f.bad == outcomes.filter(|o: Outcome| forged(o)).len()
            &&& f.ips == first_occurrences(addresses_told(outcomes))
            &&& f.first_problem is None ==> forall|i: int|
                0 <= i < outcomes.len() ==> trouble_in(#[trigger] outcomes[i]) is None
            &&& f.first_problem is Some ==> exists|i: int|
                #[trigger] first_trouble_at(outcomes, i) && trouble_in(outcomes[i]) == f.first_problem
        }),
    decreases outcomes.len(),
{
    reveal(Seq::filter);
    let f = findings_after(outcomes);
    if outcomes.len() > 0 {
        let rest = outcomes.drop_last();
        let before = findings_after(rest);
        let last = outcomes.last();
        findings_are_counted(rest);
        match last {
            Outcome::Answered(0, ips) => {
                let told = ips@.map_values(|ip: Ipv4Addr| ip.text());
                assert(address_texts(ips@) =~= told);
                new_ones_occur_first(addresses_told(rest), told);
                if ips@.len() == 0 {
                    assert(addresses_told(outcomes) =~= addresses_told(rest));
                }
            },
            _ => {
                assert(addresses_told(outcomes) =~= addresses_told(rest));
            },
        }
        assert forall|j: int| 0 <= j < rest.len() implies rest[j] == #[trigger] outcomes[j] by {}
        if before.first_problem is Some {
            let i = choose|i: int|
                #[trigger] first_trouble_at(rest, i) && trouble_in(rest[i]) == before.first_problem;
            assert forall|j: int| 0 <= j < i implies trouble_in(#[trigger] outcomes[j]) is None by {
                assert(rest[j] == outcomes[j]);
            }
            assert(first_trouble_at(outcomes, i));
            assert(f.first_problem == before.first_problem);
        } else {
            assert forall|j: int| 0 <= j < rest.len() implies trouble_in(#[trigger] outcomes[j]) is None by {
                assert(trouble_in(rest[j]) is None);
            }
            assert(f.first_problem == trouble_in(last));
            if f.first_problem is Some {
                assert(first_trouble_at(outcomes, outcomes.len() - 1));
            }
        }
    }
}

proof fn none_or_some(outcomes: Seq<Outcome>, p: spec_fn(Outcome) -> bool)
    ensures
        outcomes.filter(p).len() <= outcomes.len(),
        outcomes.filter(p).len() > 0 <==> exists|i: int| 0 <= i < outcomes.len() && p(#[trigger] outcomes[i]),
        outcomes.filter(p).len() == outcomes.len() <==> forall|i: int|
            0 <= i < outcomes.len() ==> p(#[trigger] outcomes[i]),
    decreases outcomes.len(),
{
    reveal(Seq::filter);
    if outcomes.len() > 0 {
        let rest = outcomes.drop_last();
        none_or_some(rest, p);
        assert forall|i: int| 0 <= i < rest.len() implies rest[i] == #[trigger] outcomes[i] by {}
        if p(outcomes.last()) {
            assert(p(outcomes[outcomes.len() - 1]));
        }
        if exists|i: int| 0 <= i < rest.len() && p(#[trigger] rest[i]) {
            let i = choose|i: int| 0 <= i < rest.len() && p(#[trigger] rest[i]);
            assert(p(outcomes[i]));
        }
        if forall|i: int| 0 <= i < outcomes.len() ==> p(#[trigger] outcomes[i]) {
            assert forall|i: int| 0 <= i < rest.len() implies p(#[trigger] rest[i]) by {
                assert(p(outcomes[i]));
            }
        }
        if outcomes.filter(p).len() == outcomes.len() {
            assert forall|i: int| 0 <= i < outcomes.len() implies p(#[trigger] outcomes[i]) by {
                if i < rest.len() {
                    assert(p(rest[i]));
                }
            }
        }
    }
}

// ---------------------------------------------------------------------------
// What is said
// ---------------------------------------------------------------------------

/// After three tries at most, the verdict begins with the warning sign exactly if
/// one of them got a response other than a denial, with the tick exactly if none
/// did and one got a denial, and with the cross exactly if none got a response; and
/// it calls the server clean exactly if there were three tries and all got denials.
pub proof fn verdicts_are_earned(outcomes: Seq<Outcome>)
    requires
        outcomes.len() <= 3,
    ensures
        ({
            let v = findings_after(outcomes).verdict_text();
            &&& v.len() > 0
            &&& v[0] as int == 0x26a0 <==> exists|i: int| 0 <= i < outcomes.len() && forged(#[trigger] outcomes[i])
            &&& v[0] as int == 0x2705 <==> (forall|i: int|
                0 <= i < outcomes.len() ==> !forged(#[trigger] outcomes[i])) && (exists|i: int|
                0 <= i < outcomes.len() && denied(#[trigger] outcomes[i]))
            &&& v[0] as int == 0x274c <==> forall|i: int|
                0 <= i < outcomes.len() ==> !((#[trigger] outcomes[i]) is Answered)
            &&& v == "✅ 全部 NXDOMAIN（干净）"@ <==> outcomes.len() == 3 && forall|i: int|
                0 <= i < outcomes.len() ==> denied(#[trigger] outcomes[i])
        }),
{
    let f = findings_after(outcomes);
    findings_are_counted(outcomes);
    none_or_some(outcomes, |o: Outcome| denied(o));
    none_or_some(outcomes, |o: Outcome| forged(o));
    both_within(outcomes);
    reveal_strlit("⚠️ ");
    reveal_strlit("✅ 全部 NXDOMAIN（干净）");
    reveal_strlit("✅ ");
    reveal_strlit("❌ 全部查不通：");
    let v = f.verdict_text();
    if f.bad > 0 {
        let i = choose|i: int| 0 <= i < outcomes.len() && (|o: Outcome| forged(o))(#[trigger] outcomes[i]);
        assert(forged(outcomes[i]));
        assert(v[0] as int == 0x26a0);
        assert(outcomes[i] is Answered);
        assert(!denied(outcomes[i]));
    } else {
        assert forall|i: int| 0 <= i < outcomes.len() implies !forged(#[trigger] outcomes[i]) by {
            if forged(outcomes[i]) {
                assert((|o: Outcome| forged(o))(outcomes[i]));
            }
        }
        if f.nxdomain > 0 {
            let i = choose|i: int| 0 <= i < outcomes.len() && (|o: Outcome| denied(o))(#[trigger] outcomes[i]);
            assert(denied(outcomes[i]));
            assert(v[0] as int == 0x2705);
            assert(outcomes[i] is Answered);
            if f.nxdomain == 3 {
                assert forall|i: int| 0 <= i < outcomes.len() implies denied(#[trigger] outcomes[i]) by {
                    assert((|o: Outcome| denied(o))(outcomes[i]));
                }
            } else {
                crate::number::decimal_reads_back(f.nxdomain);
                assert(crate::number::all_digits(decimal(f.nxdomain)));
                assert(crate::number::is_digit(decimal(f.nxdomain)[0]));
                assert(v[2] == decimal(f.nxdomain)[0]);
                assert("✅ 全部 NXDOMAIN（干净）"@[2] as int == 0x5168);
                assert(v != "✅ 全部 NXDOMAIN（干净）"@);
                if outcomes.len() == 3 && forall|i: int|
                    0 <= i < outcomes.len() ==> denied(#[trigger] outcomes[i]) {
                    assert forall|i: int| 0 <= i < outcomes.len() implies (|o: Outcome| denied(o))(
                        #[trigger] outcomes[i],
                    ) by {
                        assert(denied(outcomes[i]));
                    }
                    assert(f.nxdomain == 3);
                }
            }
        } else {
            assert(v[0] as int == 0x274c);
            assert forall|i: int| 0 <= i < outcomes.len() implies !denied(#[trigger] outcomes[i]) by {
                if denied(outcomes[i]) {
                    assert((|o: Outcome| denied(o))(outcomes[i]));
                }
            }
            assert forall|i: int| 0 <= i < outcomes.len() implies !((#[trigger] outcomes[i]) is Answered) by {
                assert(!forged(outcomes[i]));
                assert(!denied(outcomes[i]));
            }
            if outcomes.len() == 3 {
                assert(!denied(outcomes[0]));
            }
        }
    }
}

proof fn both_within(outcomes: Seq<Outcome>)
    ensures
        outcomes.filter(|o: Outcome| denied(o)).len() + outcomes.filter(|o: Outcome| forged(o)).len()
            <= outcomes.len(),
    decreases outcomes.len(),
{
    reveal(Seq::filter);
    if outcomes.len() > 0 {
        both_within(outcomes.drop_last());
    }
}

/// The words of a verdict after three tries at most: how many tries went wrong out
/// of three, every address that came, once each, or else the first trouble.
pub proof fn verdicts_say_why(outcomes: Seq<Outcome>, trouble: Seq<char>)
    requires
        outcomes.len() <= 3,
        (exists|i: int| #[trigger] first_trouble_at(outcomes, i) && trouble_in(outcomes[i]) == Some(trouble)) || (
        forall|i: int| 0 <= i < outcomes.len() ==> trouble_in(#[trigger] outcomes[i]) is None) && trouble.len() == 0,
    ensures
        ({
            let v = findings_after(outcomes).verdict_text();
            let wrong = outcomes.filter(|o: Outcome| forged(o)).len();
            let right = outcomes.filter(|o: Outcome| denied(o)).len();
            let told = addresses_told(outcomes);
            &&& wrong > 0 && told.len() > 0 ==> v == "⚠️ "@ + decimal(wrong) + "/3 次塞了 A 记录："@ + joined(
                first_occurrences(told),
                ", "@,
            ) + "（疑似污染/拦截）"@
            &&& wrong > 0 && told.len() == 0 ==> v == "⚠️ "@ + decimal(wrong) + "/3 次不老实："@ + trouble
            &&& wrong == 0 && 0 < right < 3 ==> v == "✅ "@ + decimal(right) + "/3 次 NXDOMAIN，其余异常："@
                + trouble
            &&& wrong == 0 && right == 0 ==> v == "❌ 全部查不通："@ + trouble
        }),
{
    let f = findings_after(outcomes);
    let v = f.verdict_text();
    findings_are_counted(outcomes);
    first_occurrences_are_distinct(addresses_told(outcomes));
    both_within(outcomes);
    let told = addresses_told(outcomes);
    if told.len() > 0 {
        assert(told.contains(told[0]));
        assert(first_occurrences(told).contains(told[0]));
        assert(f.ips.len() > 0);
    } else {
        if f.ips.len() > 0 {
            assert(first_occurrences(told).contains(f.ips[0]));
            assert(told.contains(f.ips[0]));
        }
    }
    if f.first_problem is Some {
        let i = choose|i: int| #[trigger] first_trouble_at(outcomes, i) && trouble_in(outcomes[i]) == f.first_problem;
        if exists|k: int| #[trigger] first_trouble_at(outcomes, k) && trouble_in(outcomes[k]) == Some(trouble) {
            let k = choose|k: int| #[trigger] first_trouble_at(outcomes, k) && trouble_in(outcomes[k]) == Some(trouble);
            assert(i == k) by {
                if i < k {
                    assert(trouble_in(outcomes[i]) is None);
                }
                if k < i {
                    assert(trouble_in(outcomes[k]) is None);
                }
            }
        } else {
            assert(trouble_in(outcomes[i]) is None);
        }
    } else {
        if exists|k: int| #[trigger] first_trouble_at(outcomes, k) && trouble_in(outcomes[k]) == Some(trouble) {
            let k = choose|k: int| #[trigger] first_trouble_at(outcomes, k) && trouble_in(outcomes[k]) == Some(trouble);
            assert(trouble_in(outcomes[k]) is None);
        }
        assert(trouble =~= Seq::empty());
    }
    assert(f.problem_text() == trouble);
    reveal_strlit("/");
    reveal_strlit("/3 次塞了 A 记录：");
    reveal_strlit("/3 次不老实：");
    reveal_strlit("/3 次 NXDOMAIN，其余异常：");
    reveal_strlit(" 次塞了 A 记录：");
    reveal_strlit(" 次不老实：");
    reveal_strlit(" 次 NXDOMAIN，其余异常：");
    digits_are_written_in_order(3);
    assert(decimal(3) =~= seq!['3']);
    assert("/"@ + decimal(3) + " 次塞了 A 记录："@ =~= "/3 次塞了 A 记录："@);
    assert("/"@ + decimal(3) + " 次不老实："@ =~= "/3 次不老实："@);
    assert("/"@ + decimal(3) + " 次 NXDOMAIN，其余异常："@ =~= "/3 次 NXDOMAIN，其余异常："@);
    if f.bad > 0 && told.len() > 0 {
        assert(v =~= "⚠️ "@ + decimal(f.bad) + ("/"@ + decimal(3) + " 次塞了 A 记录："@) + joined(f.ips, ", "@)
            + "（疑似污染/拦截）"@);
    } else if f.bad > 0 {
        assert(v =~= "⚠️ "@ + decimal(f.bad) + ("/"@ + decimal(3) + " 次不老实："@) + trouble);
    } else if 0 < f.nxdomain < 3 {
        assert(v =~= "✅ "@ + decimal(f.nxdomain) + ("/"@ + decimal(3) + " 次 NXDOMAIN，其余异常："@) + trouble);
    }
}

/// Every address that came with an answer for a name that does not exist stands in the verdict.
pub proof fn forged_addresses_are_named(outcomes: Seq<Outcome>, i: int, k: int)
    requires
        outcomes.len() <= 3,
        0 <= i < outcomes.len(),
        outcomes[i] matches Outcome::Answered(code, ips) && code == 0 && 0 <= k < ips@.len(),
    ensures
        outcomes[i] matches Outcome::Answered(code, ips) && contains_text(
            findings_after(outcomes).verdict_text(),
            ips@[k].text(),
        ),
{
    let f = findings_after(outcomes);
    let v = f.verdict_text();
    findings_are_counted(outcomes);
    none_or_some(outcomes, |o: Outcome| forged(o));
    assert(forged(outcomes[i]));
    assert((|o: Outcome| forged(o))(outcomes[i]));
    assert(f.bad > 0);
    let told = addresses_told(outcomes);
    let text = outcomes[i]->Answered_1@[k].text();
    addresses_are_told(outcomes, i, k);
    first_occurrences_are_distinct(told);
    assert(first_occurrences(told).contains(text));
    let n = f.ips.index_of(text);
    joined_texts_are_kept(f.ips, ", "@, n);
    let list = joined(f.ips, ", "@);
    let at = choose|at: int| occurs_at(list, text, at);
    let head = "⚠️ "@ + decimal(f.bad) + "/"@ + decimal(3) + " 次塞了 A 记录："@;
    assert(v =~= head + list + "（疑似污染/拦截）"@);
    assert(v.subrange(head.len() + at, head.len() + at + text.len()) =~= list.subrange(at, at + text.len()));
    assert(occurs_at(v, text, head.len() + at));
}

proof fn addresses_are_told(outcomes: Seq<Outcome>, i: int, k: int)
    requires
        0 <= i < outcomes.len(),
        outcomes[i] matches Outcome::Answered(code, ips) && code == 0 && 0 <= k < ips@.len(),
    ensures
        addresses_told(outcomes).contains(outcomes[i]->Answered_1@[k].text()),
    decreases outcomes.len(),
{
    let text = outcomes[i]->Answered_1@[k].text();
    let rest = outcomes.drop_last();
    let all = addresses_told(outcomes);
    if i == outcomes.len() - 1 {
        let told = outcomes[i]->Answered_1@.map_values(|ip: Ipv4Addr| ip.text());
        assert(told[k] == text);
        assert(all[addresses_told(rest).len() + k] == text);
    } else {
        addresses_are_told(rest, i, k);
        let n = addresses_told(rest).index_of(text);
        assert(all[n] == text);
    }
}

/// Findings begin with nothing, and each outcome is taken in on top of those before it.
pub proof fn findings_go_on(outcomes: Seq<Outcome>, outcome: Outcome)
    ensures
        FindingsView::none().tries == 0,
        FindingsView::none().nxdomain == 0,
        FindingsView::none().bad == 0,
        FindingsView::none().ips.len() == 0,
        FindingsView::none().first_problem is None,
        findings_after(Seq::empty()) == FindingsView::none(),
        findings_after(outcomes.push(outcome)) == findings_after(outcomes).after(outcome),
{
    assert(outcomes.push(outcome).drop_last() =~= outcomes);
}

// ---------------------------------------------------------------------------
// Names to try, and what is held
// ---------------------------------------------------------------------------

/// One part more in a list of domains adds what is left of it without white space
/// around it and dots before it, if anything is left.
pub proof fn bases_are_taken_in_order(parts: Seq<Seq<char>>, part: Seq<char>)
    ensures
        bases_among(Seq::empty()) == Seq::<Seq<char>>::empty(),
        without_leading(trimmed(part), '.').len() > 0 ==> bases_among(parts.push(part)) == bases_among(parts).push(
            without_leading(trimmed(part), '.'),
        ),
        without_leading(trimmed(part), '.').len() == 0 ==> bases_among(parts.push(part)) == bases_among(parts),
{
    assert(parts.push(part).drop_last() =~= parts);
}

/// A name to try is a mark of the bench, eight hexadecimal digits of the number and
/// the domain, and different numbers give different names.
pub proof fn probe_names_tell_numbers_apart(base: Seq<char>, n: u32, m: u32)
    ensures
        n != m ==> probe_name_text(base, n) != probe_name_text(base, m),
        ({
            let name = probe_name_text(base, n);
            &&& name.take(10) == "nxd-check-"@
            &&& name.subrange(10, 18) == hex(n as nat, 8)
            &&& name[18] == '.'
            &&& name.skip(19) == base
        }),
{
    reveal_strlit("nxd-check-");
    reveal_strlit(".");
    eight_digits(n as nat);
    let name = probe_name_text(base, n);
    assert(name.take(10) =~= "nxd-check-"@);
    assert(name.subrange(10, 18) =~= hex(n as nat, 8));
    assert(name.skip(19) =~= base);
    eight_digits(m as nat);
    let other = probe_name_text(base, m);
    assert(other.subrange(10, 18) =~= hex(m as nat, 8));
    if name == other {
        eight_digits_tell_apart(n, m);
    }
}

proof fn eight_digits(n: nat)
    ensures
        hex(n, 8).len() == 8,
{
    hexadecimal_digits_are_in_order(n, 8);
}

/// The findings are held as they are: all counts, all addresses in their order, and the first problem.
pub proof fn findings_are_held(f: Findings)
    ensures
        f@.tries == f.tries,
        f@.nxdomain == f.nxdomain,
        f@.bad == f.bad,
        f@.ips.len() == f.ips@.len(),
        forall|i: int| 0 <= i < f.ips@.len() ==> #[trigger] f@.ips[i] == f.ips@[i]@,
        f@.first_problem is Some <==> f.first_problem is Some,
        f.first_problem matches Some(p) ==> f@.first_problem == Some(p@),
{
}

} // verus!
