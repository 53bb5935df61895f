//! Which targets there are, and which of them are asked, said of the providers themselves.

use vstd::prelude::*;

use crate::addr::{Endpoint, EndpointView, Ipv4Addr, SocketAddr};
use crate::proto::Proto;
use crate::providers::{
    backup_registry, backups_targets, cell_views, declared_targets, holds_any, host_in, is_by,
    is_selected, named_views, passes, probed_targets, provider_names, providers_targets, registry,
    representatives_of, speculative_of, target_views, targets_of, Backup, Provider, Target, TargetView,
};
use crate::scan::{contains_text, first_index};
use crate::scan_laws::{holding_is_having_as_a_part, what_is_held_is_a_part};
use crate::source_laws::first_pieces_end_at_the_separator;

verus! {

// ---------------------------------------------------------------------------
// The targets of one provider
// ---------------------------------------------------------------------------

/// A target for plain DNS, at port 53.
pub open spec fn plain_at(name: Seq<char>, ip: Ipv4Addr) -> TargetView {
    TargetView {
        provider: name,
        proto: Proto::Udp,
        endpoint: EndpointView::Udp(SocketAddr { ip, port: 53 }),
        speculative: false,
    }
}

/// A target for DNS over TLS, at port 853, verified by the name of the host.
pub open spec fn tls_at(name: Seq<char>, host: Seq<char>, tried: bool) -> TargetView {
    TargetView {
        provider: name,
        proto: Proto::Dot,
        endpoint: EndpointView::Dot { host, port: 853, sni: host },
        speculative: tried,
    }
}

/// A target for DNS over QUIC, at port 853, verified by the name of the host.
pub open spec fn quic_at(name: Seq<char>, host: Seq<char>, tried: bool) -> TargetView {
    TargetView {
        provider: name,
        proto: Proto::Doq,
        endpoint: EndpointView::Doq { host, port: 853, sni: host },
        speculative: tried,
    }
}

/// A target for DNS over HTTP/2.
pub open spec fn http2_at(name: Seq<char>, url: Seq<char>) -> TargetView {
    TargetView {
        provider: name,
        proto: Proto::Doh,
        endpoint: EndpointView::Doh { url, h3: false },
        speculative: false,
    }
}

/// A target for DNS over HTTP/3.
pub open spec fn http3_at(name: Seq<char>, url: Seq<char>) -> TargetView {
    TargetView {
        provider: name,
        proto: Proto::Doh3,
        endpoint: EndpointView::Doh { url, h3: true },
        speculative: false,
    }
}

/// The place of a protocol among the columns.
pub open spec fn place(p: Proto) -> int {
    match p {
        Proto::Udp => 0,
        Proto::Dot => 1,
        Proto::Doh => 2,
        Proto::Doh3 => 3,
        Proto::Doq => 4,
    }
}

/// Whether a provider declares a target.
pub open spec fn declares(p: Provider, t: TargetView) -> bool {
    ||| p.udp is Some && t == plain_at(p.name@, p.udp->0)
    ||| p.dot is Some && t == tls_at(p.name@, p.dot->0@, false)
    ||| p.doh is Some && t == http2_at(p.name@, p.doh->0@)
    ||| p.doh is Some && t == http3_at(p.name@, p.doh->0@)
    ||| p.doq is Some && t == quic_at(p.name@, p.doq->0@, false)
}

/// Whether a target is worth a try: QUIC at the host for TLS where no QUIC is
/// declared, and TLS at the host of the URL where no TLS is.
pub open spec fn is_worth_a_try(p: Provider, t: TargetView) -> bool {
    ||| p.dot is Some && p.doq is None && t == quic_at(p.name@, p.dot->0@, true)
    ||| p.doh is Some && p.dot is None && host_in(p.doh->0@) is Some && t == tls_at(
        p.name@,
        host_in(p.doh->0@)->0,
        true,
    )
}

/// A provider has exactly the targets that it declares, in the order of the
/// columns: plain DNS, TLS, both kinds of HTTP and QUIC, each where it is offered.
pub proof fn providers_have_what_they_declare(p: Provider, t: TargetView)
    ensures
        declared_targets(p).contains(t) <==> declares(p, t),
        forall|i: int, j: int|
            0 <= i < j < declared_targets(p).len() ==> place((#[trigger] declared_targets(p)[i]).proto) < place(
                (#[trigger] declared_targets(p)[j]).proto,
            ),
{
    let d = declared_targets(p);
    let udp: int = if p.udp is Some { 1 } else { 0 };
    let dot: int = if p.dot is Some { 1 } else { 0 };
    let doh: int = if p.doh is Some { 2 } else { 0 };
    let doq: int = if p.doq is Some { 1 } else { 0 };
    assert(d.len() == udp + dot + doh + doq);
    assert(udp == 1 ==> d[0] == plain_at(p.name@, p.udp->0));
    assert(dot == 1 ==> d[udp] == tls_at(p.name@, p.dot->0@, false));
    assert(doh == 2 ==> d[udp + dot] == http2_at(p.name@, p.doh->0@));
    assert(doh == 2 ==> d[udp + dot + 1] == http3_at(p.name@, p.doh->0@));
    assert(doq == 1 ==> d[udp + dot + doh] == quic_at(p.name@, p.doq->0@, false));
    if d.contains(t) {
        let i = d.index_of(t);
        assert(d[i] == t);
        assert(i == 0 || i == 1 || i == 2 || i == 3 || i == 4);
    }
}

/// What is tried beyond that is QUIC at the host for TLS and TLS at the host of
/// the URL, each only where it is not declared, and marked as tried.
pub proof fn only_guesses_are_tried(p: Provider, t: TargetView)
    ensures
        probed_targets(p).contains(t) <==> is_worth_a_try(p, t),
        probed_targets(p).contains(t) ==> t.speculative,
{
    let q = probed_targets(p);
    if q.contains(t) {
        let i = q.index_of(t);
        assert(q[i] == t);
    }
    if is_worth_a_try(p, t) {
        assert(q.len() == 1);
        assert(q[0] == t);
    }
}

// ---------------------------------------------------------------------------
// All targets
// ---------------------------------------------------------------------------

/// The targets of one more provider follow those of the others: first what it
/// declares, and then, if asked for, what is tried.
pub proof fn providers_follow_each_other(list: Seq<Provider>, p: Provider, backups: Seq<Backup>, i: int)
    ensures
        providers_targets(Seq::empty(), true).len() == 0,
        providers_targets(Seq::empty(), false).len() == 0,
        providers_targets(list.push(p), false) == providers_targets(list, false) + declared_targets(p),
        providers_targets(list.push(p), true) == providers_targets(list, true) + declared_targets(p)
            + probed_targets(p),
        backups_targets(backups).len() == backups.len(),
        0 <= i < backups.len() ==> backups_targets(backups)[i] == plain_at(backups[i].name@, backups[i].udp),
{
    assert(list.push(p).drop_last() =~= list);
    assert(providers_targets(list, false) + declared_targets(p) + Seq::<TargetView>::empty()
        =~= providers_targets(list, false) + declared_targets(p));
}

proof fn members_of_providers(list: Seq<Provider>, probe: bool, t: TargetView)
    ensures
        providers_targets(list, probe).contains(t) <==> exists|k: int|
            0 <= k < list.len() && (declares(#[trigger] list[k], t) || probe && is_worth_a_try(list[k], t)),
    decreases list.len(),
{
    if list.len() > 0 {
        let rest = list.drop_last();
        let last = list.last();
        let before = providers_targets(rest, probe);
        let mine = declared_targets(last);
        let tried = if probe { probed_targets(last) } else { Seq::empty() };
        let all = providers_targets(list, probe);
        assert(all == before + mine + tried);
        members_of_providers(rest, probe, t);
        providers_have_what_they_declare(last, t);
        only_guesses_are_tried(last, t);
        assert(list[list.len() - 1] == last);
        if all.contains(t) {
            let i = all.index_of(t);
            if i < before.len() {
                assert(before[i] == t);
                assert(before.contains(t));
                let k = choose|k: int|
                    0 <= k < rest.len() && (declares(#[trigger] rest[k], t) || probe && is_worth_a_try(rest[k], t));
                assert(list[k] == rest[k]);
            } else if i < before.len() + mine.len() {
                assert(mine[i - before.len()] == t);
                assert(declares(list[list.len() - 1], t));
            } else {
                assert(tried[i - before.len() - mine.len()] == t);
                assert(is_worth_a_try(list[list.len() - 1], t));
            }
        }
        if exists|k: int|
            0 <= k < list.len() && (declares(#[trigger] list[k], t) || probe && is_worth_a_try(list[k], t)) {
            let k = choose|k: int|
                0 <= k < list.len() && (declares(#[trigger] list[k], t) || probe && is_worth_a_try(list[k], t));
            if k < rest.len() {
                assert(rest[k] == list[k]);
                assert(before.contains(t));
                let i = before.index_of(t);
                assert(all[i] == t);
            } else if declares(last, t) {
                let i = mine.index_of(t);
                assert(all[before.len() + i] == t);
            } else {
                let i = tried.index_of(t);
                assert(all[before.len() + mine.len() + i] == t);
            }
        }
    }
}

/// A target is asked exactly if it is by one of the protocols asked for, and some
/// provider declares it, or it is worth a try and trying is asked for, or it is at
/// a second address and those are asked for.
pub proof fn targets_are_those_asked_for(
    providers: Seq<Provider>,
    backups: Seq<Backup>,
    protos: Seq<Proto>,
    probe: bool,
    with_backups: bool,
    t: TargetView,
)
    ensures
        targets_of(providers, backups, protos, probe, with_backups).contains(t) <==> protos.contains(t.proto) && ((
        exists|k: int|
            0 <= k < providers.len() && (declares(#[trigger] providers[k], t) || probe && is_worth_a_try(
                providers[k],
                t,
            ))) || with_backups && (exists|k: int|
            0 <= k < backups.len() && t == plain_at((#[trigger] backups[k]).name@, backups[k].udp))),
{
    let a = providers_targets(providers, probe);
    let b = if with_backups { backups_targets(backups) } else { Seq::empty() };
    let all = a + b;
    let kept = all.filter(is_by(protos));
    members_of_providers(providers, probe, t);
    if kept.contains(t) {
        all.lemma_filter_contains_rev(is_by(protos), t);
        let i = kept.index_of(t);
        all.lemma_filter_pred(is_by(protos), i);
        let n = all.index_of(t);
        if n < a.len() {
            assert(a[n] == t);
        } else {
            assert(b[n - a.len()] == t);
            assert(t == plain_at(backups[n - a.len()].name@, backups[n - a.len()].udp));
        }
    }
    if protos.contains(t.proto) {
        if a.contains(t) {
            let n = a.index_of(t);
            assert(all[n] == t);
            all.lemma_filter_contains(is_by(protos), n);
        }
        if with_backups && (exists|k: int|
            0 <= k < backups.len() && t == plain_at((#[trigger] backups[k]).name@, backups[k].udp)) {
            let k = choose|k: int|
                0 <= k < backups.len() && t == plain_at((#[trigger] backups[k]).name@, backups[k].udp);
            assert(b[k] == t);
            assert(all[a.len() + k] == t);
            all.lemma_filter_contains(is_by(protos), a.len() + k);
        }
    }
}

/// Targets are in the order of their providers, with second addresses last:
/// one more target at the end is asked last, if it is asked.
pub proof fn targets_keep_their_order(all: Seq<TargetView>, t: TargetView, protos: Seq<Proto>)
    ensures
        protos.contains(t.proto) ==> all.push(t).filter(is_by(protos)) == all.filter(is_by(protos)).push(t),
        !protos.contains(t.proto) ==> all.push(t).filter(is_by(protos)) == all.filter(is_by(protos)),
{
    reveal(Seq::filter);
    assert(all.push(t).drop_last() =~= all);
}

// ---------------------------------------------------------------------------
// Hosts
// ---------------------------------------------------------------------------

/// The host of a URL stands behind the scheme and goes up to the next slash or colon, or to the end.
pub proof fn hosts_stand_behind_the_scheme(scheme: Seq<char>, host: Seq<char>, rest: Seq<char>)
    requires
        !scheme.contains(':'),
        !host.contains('/'),
        !host.contains(':'),
        rest.len() > 0 ==> rest[0] == '/' || rest[0] == ':',
    ensures
        host_in(scheme + "://"@ + host + rest) == Some(host),
{
    reveal_strlit("://");
    let mark = "://"@;
    let tail = host + rest;
    let url = scheme + mark + host + rest;
    assert(url =~= scheme + mark + tail);
    holding_is_having_as_a_part(scheme, mark, tail);
    let parts = what_is_held_is_a_part(url, mark);
    let n = parts.0.len() as int;
    assert(n <= scheme.len());
    assert(url[n] == ':') by {
        assert((parts.0 + mark + parts.1)[n] == mark[0]);
    }
    if n < scheme.len() {
        assert(scheme[n] == url[n]);
        assert(scheme.contains(':'));
    }
    assert(first_index(url, mark) == scheme.len());
    assert(url.skip(scheme.len() + mark.len() as int) =~= tail);
    let k = first_pieces_end_at_the_separator(tail, '/');
    let q = tail.take(k);
    assert(k >= host.len()) by {
        if k < host.len() {
            assert(tail[k] == host[k]);
            assert(host.contains('/'));
        }
    }
    let m = first_pieces_end_at_the_separator(q, ':');
    assert(m >= host.len()) by {
        if m < host.len() {
            assert(q[m] == host[m]);
            assert(host.contains(':'));
        }
    }
    assert(m == host.len()) by {
        if m > host.len() {
            let h = host.len() as int;
            assert(k > h);
            assert(tail[h] == rest[0]);
            assert(q[h] == rest[0]);
        }
    }
    assert(q.take(m) =~= host);
}

/// Without a scheme there is no host.
pub proof fn no_scheme_no_host(url: Seq<char>)
    ensures
        host_in(url) is None <==> !contains_text(url, "://"@),
{
}

// ---------------------------------------------------------------------------
// Selection
// ---------------------------------------------------------------------------

/// A target is selected exactly if one of the texts stands in its name; without
/// texts every target is, and with an empty list none.
pub proof fn selection_goes_by_name(t: TargetView, list: Seq<Seq<char>>, k: int)
    ensures
        t.label_text() == t.provider + " / "@ + t.proto.label_text(),
        is_selected(None)(t),
        passes(t.label_text(), None),
        0 <= k < list.len() && contains_text(t.label_text(), list[k]) ==> is_selected(Some(list))(t),
        (forall|i: int| 0 <= i < list.len() ==> !contains_text(t.label_text(), #[trigger] list[i])) ==> !is_selected(
            Some(list),
        )(t),
{
    if 0 <= k < list.len() && contains_text(t.label_text(), list[k]) {
        assert(holds_any(t.label_text(), list));
    }
}

/// What is only tried is listed by provider and protocol, in order, and nothing else is.
pub proof fn tried_cells_are_listed(targets: Seq<TargetView>)
    ensures
        speculative_of(targets) == targets.filter(|t: TargetView| t.speculative).map_values(
            |t: TargetView| (t.provider, t.proto),
        ),
    decreases targets.len(),
{
    reveal(Seq::filter);
    let p = |t: TargetView| t.speculative;
    let f = |t: TargetView| (t.provider, t.proto);
    if targets.len() > 0 {
        tried_cells_are_listed(targets.drop_last());
        let before = targets.drop_last().filter(p);
        assert(before.push(targets.last()).map_values(f) =~= before.map_values(f).push(f(targets.last())));
        assert(speculative_of(targets) =~= targets.filter(p).map_values(f));
    } else {
        assert(speculative_of(targets) =~= targets.filter(p).map_values(f));
    }
}

/// A provider is represented by its first target that is not only tried, and
/// providers keep the order of those.
pub proof fn the_first_declared_represents(targets: Seq<TargetView>, i: int)
    requires
        0 <= i < representatives_of(targets).len(),
    ensures
        exists|k: int|
            0 <= k < targets.len() && !(#[trigger] targets[k]).speculative && representatives_of(targets)[i] == (
                targets[k].provider,
                targets[k].endpoint,
            ) && forall|j: int|
                0 <= j < k ==> (#[trigger] targets[j]).speculative || targets[j].provider != targets[k].provider,
    decreases targets.len(),
{
    let rest = targets.drop_last();
    let before = representatives_of(rest);
    let n = targets.len() - 1;
    if i < before.len() {
        the_first_declared_represents(rest, i);
        let k = choose|k: int|
            0 <= k < rest.len() && !(#[trigger] rest[k]).speculative && before[i] == (
                rest[k].provider,
                rest[k].endpoint,
            ) && forall|j: int|
                0 <= j < k ==> (#[trigger] rest[j]).speculative || rest[j].provider != rest[k].provider;
        assert(targets[k] == rest[k]);
        assert forall|j: int| 0 <= j < k implies (#[trigger] targets[j]).speculative || targets[j].provider
            != targets[k].provider by {
            assert(rest[j] == targets[j]);
        }
    } else {
        let t = targets.last();
        assert(targets[n] == t);
        crate::providers::representatives_are_fair(rest);
        assert forall|j: int| 0 <= j < n implies (#[trigger] targets[j]).speculative || targets[j].provider
            != targets[n].provider by {
            assert(rest[j] == targets[j]);
        }
    }
}

/// One more target adds a representative exactly if it is not only tried and its
/// provider has none; what was there stays.
pub proof fn representatives_come_in_order(targets: Seq<TargetView>, t: TargetView)
    ensures
        ({
            let before = representatives_of(targets);
            let has_one = exists|i: int| 0 <= i < before.len() && (#[trigger] before[i]).0 == t.provider;
            &&& representatives_of(Seq::empty()).len() == 0
            &&& t.speculative || has_one ==> representatives_of(targets.push(t)) == before
            &&& !t.speculative && !has_one ==> representatives_of(targets.push(t)) == before.push(
                (t.provider, t.endpoint),
            )
        }),
{
    assert(targets.push(t).drop_last() =~= targets);
    assert(targets.push(t).last() == t);
}

/// What is known of targets, cells and named endpoints is what they hold, one by one.
pub proof fn targets_are_held(v: Seq<Target>, cells: Seq<(String, Proto)>, named: Seq<(String, Endpoint)>)
    ensures
        target_views(v).len() == v.len(),
        forall|i: int|
            0 <= i < v.len() ==> (#[trigger] target_views(v)[i]).provider == v[i].provider@ && target_views(v)[i].proto
                == v[i].proto && target_views(v)[i].endpoint == v[i].endpoint@ && target_views(v)[i].speculative
                == v[i].speculative,
        cell_views(cells).len() == cells.len(),
        forall|i: int| 0 <= i < cells.len() ==> #[trigger] cell_views(cells)[i] == (cells[i].0@, cells[i].1),
        named_views(named).len() == named.len(),
        forall|i: int| 0 <= i < named.len() ==> #[trigger] named_views(named)[i] == (named[i].0@, named[i].1@),
        provider_names(target_views(v)).len() == v.len(),
        forall|i: int| 0 <= i < v.len() ==> #[trigger] provider_names(target_views(v))[i] == v[i].provider@,
{
}

// ---------------------------------------------------------------------------
// Who they are
// ---------------------------------------------------------------------------

/// The providers that are known, and what they offer.
pub proof fn known_providers_are_these()
    ensures
        registry().len() == 8,
        ({
            let p = registry()[0];
            p.name@ == "阿里 DNS"@ && p.udp == Some(Ipv4Addr { a: 223, b: 5, c: 5, d: 5 }) && p.dot == Some(
                "dns.alidns.com",
            ) && p.doh == Some("https://dns.alidns.com/dns-query") && p.doq == Some("dns.alidns.com")
        }),
        ({
            let p = registry()[1];
            p.name@ == "腾讯 DNSPod"@ && p.udp == Some(Ipv4Addr { a: 119, b: 29, c: 29, d: 29 }) && p.dot == Some(
                "dot.pub",
            ) && p.doh == Some("https://doh.pub/dns-query") && p.doq is None
        }),
        ({
            let p = registry()[2];
            p.name@ == "360 DNS"@ && p.udp == Some(Ipv4Addr { a: 101, b: 226, c: 4, d: 6 }) && p.dot == Some(
                "dot.360.cn",
            ) && p.doh == Some("https://doh.360.cn/dns-query") && p.doq is None
        }),
        ({
            let p = registry()[3];
            p.name@ == "OneDNS(微步)"@ && p.udp == Some(Ipv4Addr { a: 117, b: 50, c: 10, d: 10 }) && p.dot == Some(
                "dot-pure.onedns.net",
            ) && p.doh == Some("https://doh-pure.onedns.net/dns-query") && p.doq is None
        }),
        registry()[4].name@ == "114 DNS"@ && registry()[4].udp == Some(Ipv4Addr { a: 114, b: 114, c: 114, d: 114 }),
        registry()[5].name@ == "百度 DNS"@ && registry()[5].udp == Some(Ipv4Addr { a: 180, b: 76, c: 76, d: 76 }),
        registry()[6].name@ == "字节 TrafficRoute"@ && registry()[6].udp == Some(
            Ipv4Addr { a: 180, b: 184, c: 1, d: 1 },
        ),
        registry()[7].name@ == "CNNIC DNS"@ && registry()[7].udp == Some(Ipv4Addr { a: 1, b: 2, c: 4, d: 8 }),
        forall|i: int|
            4 <= i < 8 ==> (#[trigger] registry()[i]).dot is None && registry()[i].doh is None && registry()[i].doq
                is None,
{
}

/// The second addresses that are known: each is named after itself.
pub proof fn known_backups_are_these()
    ensures
        backup_registry().len() == 6,
        backup_registry()[0].name@ == "阿里 备(223.6.6.6)"@,
        backup_registry()[0].udp == (Ipv4Addr { a: 223, b: 6, c: 6, d: 6 }),
        backup_registry()[1].name@ == "腾讯 备(119.28.28.28)"@,
        backup_registry()[1].udp == (Ipv4Addr { a: 119, b: 28, c: 28, d: 28 }),
        backup_registry()[2].name@ == "360 备(218.30.118.6)"@,
        backup_registry()[2].udp == (Ipv4Addr { a: 218, b: 30, c: 118, d: 6 }),
        backup_registry()[3].name@ == "114 备(114.114.115.115)"@,
        backup_registry()[3].udp == (Ipv4Addr { a: 114, b: 114, c: 115, d: 115 }),
        backup_registry()[4].name@ == "字节 备(180.184.2.2)"@,
        backup_registry()[4].udp == (Ipv4Addr { a: 180, b: 184, c: 2, d: 2 }),
        backup_registry()[5].name@ == "OneDNS 备(52.80.52.52)"@,
        backup_registry()[5].udp == (Ipv4Addr { a: 52, b: 80, c: 52, d: 52 }),
{
}

} // verus!
