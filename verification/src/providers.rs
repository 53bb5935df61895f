//! The providers that are compared, and the targets they make.

use vstd::prelude::*;

use crate::addr::{Endpoint, EndpointView, Ipv4Addr, SocketAddr};
use crate::cli::{ProviderOpt, PLAIN_PORT, TLS_PORT};
use crate::proto::{is_chosen, Proto};
use crate::scan::{
    after_first, contains, contains_text, first_index, first_occurrences, is_listed, pieces,
    pieces_nonempty, same_text, split,
};
use crate::text::{texts, texts_in};

verus! {

// ---------------------------------------------------------------------------
// Providers
// ---------------------------------------------------------------------------

/// A provider of public DNS, with what it offers. `None` stands for a protocol
/// that is not offered in public.
#[derive(Clone, Copy)]
pub struct Provider {
    pub name: &'static str,
    /// The address for plain DNS.
    pub udp: Option<Ipv4Addr>,
    /// The host name for DNS over TLS.
    pub dot: Option<&'static str>,
    /// The URL for DNS over HTTPS.
    pub doh: Option<&'static str>,
    /// The host name for DNS over QUIC.
    pub doq: Option<&'static str>,
}

/// A second address of a provider, for plain DNS alone.
#[derive(Clone, Copy)]
pub struct Backup {
    pub name: &'static str,
    pub udp: Ipv4Addr,
}

/// The providers, in the order of a report's rows. All addresses are those that do no filtering.
pub open spec fn registry() -> Seq<Provider> {
    seq![
        Provider {
            name: "阿里 DNS",
            udp: Some(Ipv4Addr { a: 223, b: 5, c: 5, d: 5 }),
            dot: Some("dns.alidns.com"),
            doh: Some("https://dns.alidns.com/dns-query"),
            doq: Some("dns.alidns.com"),
        },
        Provider {
            name: "腾讯 DNSPod",
            udp: Some(Ipv4Addr { a: 119, b: 29, c: 29, d: 29 }),
            dot: Some("dot.pub"),
            doh: Some("https://doh.pub/dns-query"),
            doq: None,
        },
        Provider {
            name: "360 DNS",
            udp: Some(Ipv4Addr { a: 101, b: 226, c: 4, d: 6 }),
            dot: Some("dot.360.cn"),
            doh: Some("https://doh.360.cn/dns-query"),
            doq: None,
        },
        Provider {
            name: "OneDNS(微步)",
            udp: Some(Ipv4Addr { a: 117, b: 50, c: 10, d: 10 }),
            dot: Some("dot-pure.onedns.net"),
            doh: Some("https://doh-pure.onedns.net/dns-query"),
            doq: None,
        },
        plain_provider("114 DNS", Ipv4Addr { a: 114, b: 114, c: 114, d: 114 }),
        plain_provider("百度 DNS", Ipv4Addr { a: 180, b: 76, c: 76, d: 76 }),
        plain_provider("字节 TrafficRoute", Ipv4Addr { a: 180, b: 184, c: 1, d: 1 }),
        plain_provider("CNNIC DNS", Ipv4Addr { a: 1, b: 2, c: 4, d: 8 }),
    ]
}

/// A provider that offers plain DNS and nothing else.
pub open spec fn plain_provider(name: &'static str, udp: Ipv4Addr) -> Provider {
    Provider { name, udp: Some(udp), dot: None, doh: None, doq: None }
}

/// The second addresses.
pub open spec fn backup_registry() -> Seq<Backup> {
    seq![
        Backup { name: "阿里 备(223.6.6.6)", udp: Ipv4Addr { a: 223, b: 6, c: 6, d: 6 } },
        Backup { name: "腾讯 备(119.28.28.28)", udp: Ipv4Addr { a: 119, b: 28, c: 28, d: 28 } },
        Backup { name: "360 备(218.30.118.6)", udp: Ipv4Addr { a: 218, b: 30, c: 118, d: 6 } },
        Backup { name: "114 备(114.114.115.115)", udp: Ipv4Addr { a: 114, b: 114, c: 115, d: 115 } },
        Backup { name: "字节 备(180.184.2.2)", udp: Ipv4Addr { a: 180, b: 184, c: 2, d: 2 } },
        Backup { name: "OneDNS 备(52.80.52.52)", udp: Ipv4Addr { a: 52, b: 80, c: 52, d: 52 } },
    ]
}

/// A provider that offers plain DNS and nothing else.
fn plain(name: &'static str, udp: Ipv4Addr) -> (r: Provider)
    ensures
        r == plain_provider(name, udp),
{
    Provider { name, udp: Some(udp), dot: None, doh: None, doq: None }
}

/// The providers, in the order of a report's rows.
pub fn known_providers() -> (r: Vec<Provider>)
    ensures
        r@ == registry(),
{
    let r = vec![
        Provider {
            name: "阿里 DNS",
            udp: Some(Ipv4Addr::new(223, 5, 5, 5)),
            dot: Some("dns.alidns.com"),
            doh: Some("https://dns.alidns.com/dns-query"),
            doq: Some("dns.alidns.com"),
        },
        Provider {
            name: "腾讯 DNSPod",
            udp: Some(Ipv4Addr::new(119, 29, 29, 29)),
            dot: Some("dot.pub"),
            doh: Some("https://doh.pub/dns-query"),
            doq: None,
        },
        Provider {
            name: "360 DNS",
            udp: Some(Ipv4Addr::new(101, 226, 4, 6)),
            dot: Some("dot.360.cn"),
            doh: Some("https://doh.360.cn/dns-query"),
            doq: None,
        },
        Provider {
            name: "OneDNS(微步)",
            udp: Some(Ipv4Addr::new(117, 50, 10, 10)),
            dot: Some("dot-pure.onedns.net"),
            doh: Some("https://doh-pure.onedns.net/dns-query"),
            doq: None,
        },
        plain("114 DNS", Ipv4Addr::new(114, 114, 114, 114)),
        plain("百度 DNS", Ipv4Addr::new(180, 76, 76, 76)),
        plain("字节 TrafficRoute", Ipv4Addr::new(180, 184, 1, 1)),
        plain("CNNIC DNS", Ipv4Addr::new(1, 2, 4, 8)),
    ];
    assert(r@ =~= registry());
    r
}

/// The second addresses.
pub fn known_backups() -> (r: Vec<Backup>)
    ensures
        r@ == backup_registry(),
{
    let r = vec![
        Backup { name: "阿里 备(223.6.6.6)", udp: Ipv4Addr::new(223, 6, 6, 6) },
        Backup { name: "腾讯 备(119.28.28.28)", udp: Ipv4Addr::new(119, 28, 28, 28) },
        Backup { name: "360 备(218.30.118.6)", udp: Ipv4Addr::new(218, 30, 118, 6) },
        Backup { name: "114 备(114.114.115.115)", udp: Ipv4Addr::new(114, 114, 115, 115) },
        Backup { name: "字节 备(180.184.2.2)", udp: Ipv4Addr::new(180, 184, 2, 2) },
        Backup { name: "OneDNS 备(52.80.52.52)", udp: Ipv4Addr::new(52, 80, 52, 52) },
    ];
    assert(r@ =~= backup_registry());
    r
}

// ---------------------------------------------------------------------------
// Targets
// ---------------------------------------------------------------------------

/// One provider by one protocol.
#[derive(Debug)]
pub struct Target {
    pub provider: String,
    pub proto: Proto,
    pub endpoint: Endpoint,
    /// Whether the provider never said that it offers this protocol, so that failure is to be expected.
    pub speculative: bool,
}

/// What a [`Target`] holds.
pub struct TargetView {
    pub provider: Seq<char>,
    pub proto: Proto,
    pub endpoint: EndpointView,
    pub speculative: bool,
}

impl View for Target {
    type V = TargetView;

    open spec fn view(&self) -> TargetView {
        TargetView {
            provider: self.provider@,
            proto: self.proto,
            endpoint: self.endpoint@,
            speculative: self.speculative,
        }
    }
}

/// What the targets of a list hold.
pub open spec fn target_views(v: Seq<Target>) -> Seq<TargetView> {
    v.map_values(|t: Target| t@)
}

impl TargetView {
    /// The name for display.
    pub open spec fn label_text(self) -> Seq<char> {
        self.provider + " / "@ + self.proto.label_text()
    }
}

/// The host in a URL: what stands between the first `://` and the next slash or colon.
pub open spec fn host_in(url: Seq<char>) -> Option<Seq<char>> {
    if contains_text(url, "://"@) {
        let rest = url.skip(first_index(url, "://"@) + "://"@.len());
        Some(pieces(pieces(rest, '/')[0], ':')[0])
    } else {
        None
    }
}

/// A target for plain DNS.
pub open spec fn udp_target(name: Seq<char>, ip: Ipv4Addr) -> TargetView {
    TargetView {
        provider: name,
        proto: Proto::Udp,
        endpoint: EndpointView::Udp(SocketAddr { ip, port: PLAIN_PORT }),
        speculative: false,
    }
}

/// A target for DNS over TLS.
pub open spec fn dot_target(name: Seq<char>, host: Seq<char>, speculative: bool) -> TargetView {
    TargetView {
        provider: name,
        proto: Proto::Dot,
        endpoint: EndpointView::Dot { host, port: TLS_PORT, sni: host },
        speculative,
    }
}

/// A target for DNS over HTTPS, by HTTP/2 or HTTP/3.
pub open spec fn doh_target(name: Seq<char>, url: Seq<char>, h3: bool) -> TargetView {
    TargetView {
        provider: name,
        proto: if h3 {
            Proto::Doh3
        } else {
            Proto::Doh
        },
        endpoint: EndpointView::Doh { url, h3 },
        speculative: false,
    }
}

/// A target for DNS over QUIC.
pub open spec fn doq_target(name: Seq<char>, host: Seq<char>, speculative: bool) -> TargetView {
    TargetView {
        provider: name,
        proto: Proto::Doq,
        endpoint: EndpointView::Doq { host, port: TLS_PORT, sni: host },
        speculative,
    }
}

/// The targets that a provider declares. A URL makes two: HTTP/2 and HTTP/3
/// share the URL, and whether one works says nothing of the other.
pub open spec fn declared_targets(p: Provider) -> Seq<TargetView> {
    let udp = match p.udp {
        Some(ip) => seq![udp_target(p.name@, ip)],
        None => Seq::empty(),
    };
    let dot = match p.dot {
        Some(host) => seq![dot_target(p.name@, host@, false)],
        None => Seq::empty(),
    };
    let doh = match p.doh {
        Some(url) => seq![doh_target(p.name@, url@, false), doh_target(p.name@, url@, true)],
        None => Seq::empty(),
    };
    let doq = match p.doq {
        Some(host) => seq![doq_target(p.name@, host@, false)],
        None => Seq::empty(),
    };
    udp + dot + doh + doq
}

/// The targets that are tried although the provider does not declare them: DNS
/// over QUIC at its host for TLS, and DNS over TLS at the host of its URL.
pub open spec fn probed_targets(p: Provider) -> Seq<TargetView> {
    let doq = match (p.dot, p.doq) {
        (Some(host), None) => seq![doq_target(p.name@, host@, true)],
        _ => Seq::empty(),
    };
    let dot = match (p.doh, p.dot) {
        (Some(url), None) => match host_in(url@) {
            Some(host) => seq![dot_target(p.name@, host, true)],
            None => Seq::empty(),
        },
        _ => Seq::empty(),
    };
    doq + dot
}

/// All targets of the providers, one provider after the other.
pub open spec fn providers_targets(list: Seq<Provider>, probe: bool) -> Seq<TargetView>
    decreases list.len(),
{
    if list.len() == 0 {
        Seq::empty()
    } else {
        providers_targets(list.drop_last(), probe) + declared_targets(list.last()) + (if probe {
            probed_targets(list.last())
        } else {
            Seq::empty()
        })
    }
}

/// The targets at the second addresses.
pub open spec fn backups_targets(list: Seq<Backup>) -> Seq<TargetView> {
    list.map_values(|b: Backup| udp_target(b.name@, b.udp))
}

/// The test for a target by one of `protos`.
pub open spec fn is_by(protos: Seq<Proto>) -> spec_fn(TargetView) -> bool {
    |t: TargetView| protos.contains(t.proto)
}

/// The targets that are asked for, before any selection by name.
pub open spec fn targets_of(
    providers: Seq<Provider>,
    backups: Seq<Backup>,
    protos: Seq<Proto>,
    probe: bool,
    with_backups: bool,
) -> Seq<TargetView> {
    let all = providers_targets(providers, probe) + (if with_backups {
        backups_targets(backups)
    } else {
        Seq::empty()
    });
    all.filter(is_by(protos))
}

/// The host in a URL: what stands between the first `://` and the next slash or colon.
pub fn host_of_url(url: &str) -> (r: Option<String>)
    ensures
        match r {
            Some(host) => host_in(url@) == Some(host@),
            None => host_in(url@) is None,
        },
{
    match after_first(url, "://") {
        None => None,
        Some(rest) => {
            let before_slash = split(rest.as_str(), '/');
            proof {
                pieces_nonempty(rest@, '/');
                pieces_nonempty(before_slash@[0]@, ':');
            }
            let host = split(before_slash[0].as_str(), ':');
            Some(host[0].clone())
        },
    }
}

impl Target {
    /// The name for display.
    pub fn label(&self) -> (r: String)
        ensures
            r@ == self@.label_text(),
    {
        let mut out: String = self.provider.clone();
        out.append(" / ");
        out.append(self.proto.label());
        out
    }

    /// A target with the same contents.
    pub fn duplicate(&self) -> (r: Target)
        ensures
            r@ == self@,
    {
        Target {
            provider: self.provider.clone(),
            proto: self.proto,
            endpoint: self.endpoint.duplicate(),
            speculative: self.speculative,
        }
    }
}

/// Adds a target if it is by one of `protos`. `before` holds the targets that were offered so far.
fn offer(targets: &mut Vec<Target>, protos: &Vec<Proto>, t: Target, Ghost(before): Ghost<Seq<TargetView>>)
    requires
        target_views(old(targets)@) == before.filter(is_by(protos@)),
    ensures
        target_views(final(targets)@) == before.push(t@).filter(is_by(protos@)),
{
    proof {
        reveal(Seq::filter);
        assert(before.push(t@).drop_last() =~= before);
    }
    if is_chosen(protos, t.proto) {
        targets.push(t);
        assert(target_views(targets@) =~= target_views(old(targets)@).push(t@));
    }
}

/// Offers the targets of one provider. `before` holds the targets that were offered so far.
fn offer_provider(
    targets: &mut Vec<Target>,
    protos: &Vec<Proto>,
    p: &Provider,
    probe: bool,
    Ghost(before): Ghost<Seq<TargetView>>,
)
    requires
        target_views(old(targets)@) == before.filter(is_by(protos@)),
    ensures
        target_views(final(targets)@) == (before + declared_targets(*p) + (if probe {
            probed_targets(*p)
        } else {
            Seq::empty()
        })).filter(is_by(protos@)),
{
    let ghost mut all = before;
    match p.udp {
        Some(ip) => {
            let t = Target {
                provider: p.name.to_owned(),
                proto: Proto::Udp,
                endpoint: Endpoint::Udp(SocketAddr { ip, port: PLAIN_PORT }),
                speculative: false,
            };
            offer(targets, protos, t, Ghost(all));
            proof {
                all = all.push(udp_target(p.name@, ip));
            }
        },
        None => {},
    }
    match p.dot {
        Some(host) => {
            let t = Target {
                provider: p.name.to_owned(),
                proto: Proto::Dot,
                endpoint: Endpoint::Dot { host: host.to_owned(), port: TLS_PORT, sni: host.to_owned() },
                speculative: false,
            };
            offer(targets, protos, t, Ghost(all));
            proof {
                all = all.push(dot_target(p.name@, host@, false));
            }
        },
        None => {},
    }
    match p.doh {
        Some(url) => {
            let t = Target {
                provider: p.name.to_owned(),
                proto: Proto::Doh,
                endpoint: Endpoint::Doh { url: url.to_owned(), h3: false },
                speculative: false,
            };
            offer(targets, protos, t, Ghost(all));
            proof {
                all = all.push(doh_target(p.name@, url@, false));
            }
            let t = Target {
                provider: p.name.to_owned(),
                proto: Proto::Doh3,
                endpoint: Endpoint::Doh { url: url.to_owned(), h3: true },
                speculative: false,
            };
            offer(targets, protos, t, Ghost(all));
            proof {
                all = all.push(doh_target(p.name@, url@, true));
            }
        },
        None => {},
    }
    match p.doq {
        Some(host) => {
            let t = Target {
                provider: p.name.to_owned(),
                proto: Proto::Doq,
                endpoint: Endpoint::Doq { host: host.to_owned(), port: TLS_PORT, sni: host.to_owned() },
                speculative: false,
            };
            offer(targets, protos, t, Ghost(all));
            proof {
                all = all.push(doq_target(p.name@, host@, false));
            }
        },
        None => {},
    }
    assert(all =~= before + declared_targets(*p));
    if probe {
        let ghost declared = all;
        match (p.dot, p.doq) {
            (Some(host), None) => {
                let t = Target {
                    provider: p.name.to_owned(),
                    proto: Proto::Doq,
                    endpoint: Endpoint::Doq { host: host.to_owned(), port: TLS_PORT, sni: host.to_owned() },
                    speculative: true,
                };
                offer(targets, protos, t, Ghost(all));
                proof {
                    all = all.push(doq_target(p.name@, host@, true));
                }
            },
            _ => {},
        }
        match (p.doh, p.dot) {
            (Some(url), None) => match host_of_url(url) {
                Some(host) => {
                    let t = Target {
                        provider: p.name.to_owned(),
                        proto: Proto::Dot,
                        endpoint: Endpoint::Dot { host: host.clone(), port: TLS_PORT, sni: host.clone() },
                        speculative: true,
                    };
                    offer(targets, protos, t, Ghost(all));
                    proof {
                        all = all.push(dot_target(p.name@, host@, true));
                    }
                },
                None => {},
            },
            _ => {},
        }
        assert(all =~= declared + probed_targets(*p));
    } else {
        assert(all =~= all + Seq::<TargetView>::empty());
    }
}

/// The targets that some providers and second addresses make, by the protocols that are asked for.
pub fn targets_from(
    providers: &Vec<Provider>,
    backups: &Vec<Backup>,
    protos: &Vec<Proto>,
    probe: bool,
    with_backups: bool,
) -> (r: Vec<Target>)
    ensures
        target_views(r@) == targets_of(providers@, backups@, protos@, probe, with_backups),
{
    let mut targets: Vec<Target> = Vec::new();
    proof {
        reveal(Seq::filter);
        assert(target_views(targets@) =~= Seq::<TargetView>::empty().filter(is_by(protos@)));
    }
    let mut i: usize = 0;
    while i < providers.len()
        invariant
            i <= providers@.len(),
            target_views(targets@) == providers_targets(providers@.take(i as int), probe).filter(
                is_by(protos@),
            ),
        decreases providers@.len() - i,
    {
        let ghost before = providers_targets(providers@.take(i as int), probe);
        assert(providers@.take(i + 1).drop_last() =~= providers@.take(i as int));
        offer_provider(&mut targets, protos, &providers[i], probe, Ghost(before));
        i += 1;
    }
    let ghost from_providers = providers_targets(providers@, probe);
    assert(providers@.take(providers@.len() as int) =~= providers@);
    if with_backups {
        let mut k: usize = 0;
        assert(from_providers + backups_targets(backups@).take(0) =~= from_providers);
        while k < backups.len()
            invariant
                k <= backups@.len(),
                target_views(targets@) == (from_providers + backups_targets(backups@).take(k as int)).filter(
                    is_by(protos@),
                ),
            decreases backups@.len() - k,
        {
            let ghost before = from_providers + backups_targets(backups@).take(k as int);
            let t = Target {
                provider: backups[k].name.to_owned(),
                proto: Proto::Udp,
                endpoint: Endpoint::Udp(SocketAddr { ip: backups[k].udp, port: PLAIN_PORT }),
                speculative: false,
            };
            assert(before.push(t@) =~= from_providers + backups_targets(backups@).take(k + 1));
            offer(&mut targets, protos, t, Ghost(before));
            k += 1;
        }
        assert(backups_targets(backups@).take(backups@.len() as int) =~= backups_targets(backups@));
    } else {
        assert(from_providers + Seq::<TargetView>::empty() =~= from_providers);
    }
    targets
}

/// The targets that are asked for, before any selection by name.
pub fn build_targets(opt: &ProviderOpt) -> (r: Vec<Target>)
    ensures
        target_views(r@) == targets_of(
            registry(),
            backup_registry(),
            opt@.common.protos,
            opt.probe,
            opt.with_backups,
        ),
{
    targets_from(
        &known_providers(),
        &known_backups(),
        &opt.common.protos,
        opt.probe,
        opt.with_backups,
    )
}

// ---------------------------------------------------------------------------
// Selection
// ---------------------------------------------------------------------------

/// Whether one of `list` stands in `label`.
pub open spec fn holds_any(label: Seq<char>, list: Seq<Seq<char>>) -> bool {
    exists|k: int| 0 <= k < list.len() && contains_text(label, #[trigger] list[k])
}

/// Whether one of the given texts stands in `label`; without any list, all labels pass.
pub open spec fn passes(label: Seq<char>, only: Option<Seq<Seq<char>>>) -> bool {
    match only {
        None => true,
        Some(list) => holds_any(label, list),
    }
}

/// The test for a target whose name passes.
pub open spec fn is_selected(only: Option<Seq<Seq<char>>>) -> spec_fn(TargetView) -> bool {
    |t: TargetView| passes(t.label_text(), only)
}

/// Whether one of the given texts stands in `label`; without any list, all labels pass.
pub fn matches_only(label: &str, only: &Option<Vec<String>>) -> (r: bool)
    ensures
        r == passes(label@, texts_in(*only)),
{
    match only {
        None => true,
        Some(list) => {
            let mut i: usize = 0;
            while i < list.len()
                invariant
                    i <= list@.len(),
                    texts_in(*only) == Some(texts(list@)),
                    forall|j: int| 0 <= j < i ==> !contains_text(label@, #[trigger] texts(list@)[j]),
                decreases list@.len() - i,
            {
                if contains(label, list[i].as_str()) {
                    let ghost l = texts(list@);
                    assert(0 <= i < l.len() && contains_text(label@, l[i as int]));
                    assert(holds_any(label@, l));
                    return true;
                }
                i += 1;
            }
            false
        },
    }
}

/// The targets whose names pass.
pub fn select(targets: &Vec<Target>, only: &Option<Vec<String>>) -> (r: Vec<Target>)
    ensures
        target_views(r@) == target_views(targets@).filter(is_selected(texts_in(*only))),
{
    let mut out: Vec<Target> = Vec::new();
    let ghost all = target_views(targets@);
    proof {
        reveal(Seq::filter);
        assert(target_views(out@) =~= all.take(0).filter(is_selected(texts_in(*only))));
    }
    let mut i: usize = 0;
    while i < targets.len()
        invariant
            i <= targets@.len(),
            all == target_views(targets@),
            target_views(out@) == all.take(i as int).filter(is_selected(texts_in(*only))),
        decreases targets@.len() - i,
    {
        proof {
            reveal(Seq::filter);
            assert(all.take(i + 1).drop_last() =~= all.take(i as int));
            assert(all.take(i + 1).last() == targets@[i as int]@);
        }
        if matches_only(targets[i].label().as_str(), only) {
            let t = targets[i].duplicate();
            let ghost done = target_views(out@);
            let ghost added = t@;
            out.push(t);
            assert(target_views(out@) =~= done.push(added));
        }
        i += 1;
    }
    assert(all.take(all.len() as int) =~= all);
    out
}

/// The provider of each target.
pub open spec fn provider_names(targets: Seq<TargetView>) -> Seq<Seq<char>> {
    targets.map_values(|t: TargetView| t.provider)
}

/// The cells of the table that are only tried.
pub open spec fn speculative_of(targets: Seq<TargetView>) -> Seq<(Seq<char>, Proto)>
    decreases targets.len(),
{
    if targets.len() == 0 {
        Seq::empty()
    } else if targets.last().speculative {
        speculative_of(targets.drop_last()).push((targets.last().provider, targets.last().proto))
    } else {
        speculative_of(targets.drop_last())
    }
}

/// Whether a provider is in the list already.
pub open spec fn is_represented(list: Seq<(Seq<char>, EndpointView)>, provider: Seq<char>) -> bool {
    exists|i: int| 0 <= i < list.len() && (#[trigger] list[i]).0 == provider
}

/// One endpoint for each provider: its first that is not only tried.
pub open spec fn representatives_of(targets: Seq<TargetView>) -> Seq<(Seq<char>, EndpointView)>
    decreases targets.len(),
{
    if targets.len() == 0 {
        Seq::empty()
    } else {
        let before = representatives_of(targets.drop_last());
        let t = targets.last();
        if t.speculative || is_represented(before, t.provider) {
            before
        } else {
            before.push((t.provider, t.endpoint))
        }
    }
}

/// What a list of cells holds.
pub open spec fn cell_views(v: Seq<(String, Proto)>) -> Seq<(Seq<char>, Proto)> {
    v.map_values(|c: (String, Proto)| (c.0@, c.1))
}

/// What a list of named endpoints holds.
pub open spec fn named_views(v: Seq<(String, Endpoint)>) -> Seq<(Seq<char>, EndpointView)> {
    v.map_values(|c: (String, Endpoint)| (c.0@, c.1@))
}

/// The providers of the targets, each once, in order.
pub fn provider_order(targets: &Vec<Target>) -> (r: Vec<String>)
    ensures
        texts(r@) == first_occurrences(provider_names(target_views(targets@))),
{
    let mut out: Vec<String> = Vec::new();
    let ghost names = provider_names(target_views(targets@));
    assert(texts(out@) =~= first_occurrences(names.take(0)));
    let mut i: usize = 0;
    while i < targets.len()
        invariant
            i <= targets@.len(),
            names == provider_names(target_views(targets@)),
            texts(out@) == first_occurrences(names.take(i as int)),
        decreases targets@.len() - i,
    {
        assert(names.take(i + 1).drop_last() =~= names.take(i as int));
        assert(names.take(i + 1).last() == targets@[i as int].provider@);
        if !is_listed(&out, targets[i].provider.as_str()) {
            let name = targets[i].provider.clone();
            let ghost done = texts(out@);
            let ghost added = name@;
            out.push(name);
            assert(texts(out@) =~= done.push(added));
        }
        i += 1;
    }
    assert(names.take(names.len() as int) =~= names);
    out
}

/// The cells of the table that are only tried.
pub fn speculative_cells(targets: &Vec<Target>) -> (r: Vec<(String, Proto)>)
    ensures
        cell_views(r@) == speculative_of(target_views(targets@)),
{
    let mut out: Vec<(String, Proto)> = Vec::new();
    let ghost all = target_views(targets@);
    assert(cell_views(out@) =~= speculative_of(all.take(0)));
    let mut i: usize = 0;
    while i < targets.len()
        invariant
            i <= targets@.len(),
            all == target_views(targets@),
            cell_views(out@) == speculative_of(all.take(i as int)),
        decreases targets@.len() - i,
    {
        assert(all.take(i + 1).drop_last() =~= all.take(i as int));
        assert(all.take(i + 1).last() == targets@[i as int]@);
        if targets[i].speculative {
            let ghost done = cell_views(out@);
            let cell = (targets[i].provider.clone(), targets[i].proto);
            let ghost added = (cell.0@, cell.1);
            out.push(cell);
            assert(cell_views(out@) =~= done.push(added));
        }
        i += 1;
    }
    assert(all.take(all.len() as int) =~= all);
    out
}

/// Whether a cell was only tried.
pub fn is_tried(tried: &Vec<(String, Proto)>, provider: &str, proto: Proto) -> (r: bool)
    ensures
        r == cell_views(tried@).contains((provider@, proto)),
{
    let mut i: usize = 0;
    while i < tried.len()
        invariant
            i <= tried@.len(),
            forall|j: int| 0 <= j < i ==> #[trigger] cell_views(tried@)[j] != (provider@, proto),
        decreases tried@.len() - i,
    {
        assert(cell_views(tried@)[i as int] == (tried@[i as int].0@, tried@[i as int].1));
        if same_text(tried[i].0.as_str(), provider) && tried[i].1 == proto {
            return true;
        }
        i += 1;
    }
    false
}

/// One endpoint for each provider: its first that is not only tried.
pub fn representatives(targets: &Vec<Target>) -> (r: Vec<(String, Endpoint)>)
    ensures
        named_views(r@) == representatives_of(target_views(targets@)),
{
    let mut names: Vec<String> = Vec::new();
    let mut out: Vec<(String, Endpoint)> = Vec::new();
    let ghost all = target_views(targets@);
    assert(named_views(out@) =~= representatives_of(all.take(0)));
    let mut i: usize = 0;
    while i < targets.len()
        invariant
            i <= targets@.len(),
            all == target_views(targets@),
            named_views(out@) == representatives_of(all.take(i as int)),
            names@.len() == out@.len(),
            forall|j: int| 0 <= j < out@.len() ==> (#[trigger] names@[j])@ == named_views(out@)[j].0,
        decreases targets@.len() - i,
    {
        assert(all.take(i + 1).drop_last() =~= all.take(i as int));
        assert(all.take(i + 1).last() == targets@[i as int]@);
        let listed = is_listed(&names, targets[i].provider.as_str());
        proof {
            let list = named_views(out@);
            let provider = targets@[i as int].provider@;
            if listed {
                let j = texts(names@).index_of(provider);
                assert(texts(names@)[j] == names@[j]@);
                assert(list[j].0 == provider);
            }
            if is_represented(list, provider) {
                let j = choose|j: int| 0 <= j < list.len() && (#[trigger] list[j]).0 == provider;
                assert(names@[j]@ == list[j].0);
                assert(texts(names@)[j] == provider);
            }
        }
        if !targets[i].speculative && !listed {
            let ghost done = named_views(out@);
            let item = (targets[i].provider.clone(), targets[i].endpoint.duplicate());
            let ghost added = (item.0@, item.1@);
            names.push(targets[i].provider.clone());
            out.push(item);
            assert(named_views(out@) =~= done.push(added));
        }
        i += 1;
    }
    assert(all.take(all.len() as int) =~= all);
    out
}

// ---------------------------------------------------------------------------
// Laws
// ---------------------------------------------------------------------------

/// No provider has two targets by the same protocol, so that each cell of the table has one target at most.
pub proof fn one_target_per_protocol(p: Provider, i: int, j: int)
    requires
        0 <= i < j < (declared_targets(p) + probed_targets(p)).len(),
    ensures
        (declared_targets(p) + probed_targets(p))[i].proto != (declared_targets(p) + probed_targets(
            p,
        ))[j].proto,
{
    let d = declared_targets(p);
    let q = probed_targets(p);
    let udp: int = if p.udp is Some { 1 } else { 0 };
    let dot: int = if p.dot is Some { 1 } else { 0 };
    let doh: int = if p.doh is Some { 2 } else { 0 };
    let doq: int = if p.doq is Some { 1 } else { 0 };
    assert(d.len() == udp + dot + doh + doq);
    assert(udp == 1 ==> d[0].proto == Proto::Udp);
    assert(dot == 1 ==> d[udp].proto == Proto::Dot);
    assert(doh == 2 ==> d[udp + dot].proto == Proto::Doh && d[udp + dot + 1].proto == Proto::Doh3);
    assert(doq == 1 ==> d[udp + dot + doh].proto == Proto::Doq);
    assert(q.len() <= 1);
    assert(q.len() == 1 ==> q[0].proto == Proto::Doq && doq == 0 || q[0].proto == Proto::Dot && dot == 0);
}

/// Every target of a provider carries its name.
proof fn targets_carry_the_name(p: Provider, i: int)
    requires
        0 <= i < (declared_targets(p) + probed_targets(p)).len(),
    ensures
        (declared_targets(p) + probed_targets(p))[i].provider == p.name@,
{
}

/// The targets of one provider, with or without those that are only tried.
proof fn targets_of_one(p: Provider, probe: bool, i: int)
    requires
        0 <= i < (declared_targets(p) + (if probe {
            probed_targets(p)
        } else {
            Seq::empty()
        })).len(),
    ensures
        i < (declared_targets(p) + probed_targets(p)).len(),
        (declared_targets(p) + (if probe {
            probed_targets(p)
        } else {
            Seq::empty()
        }))[i] == (declared_targets(p) + probed_targets(p))[i],
{
}

/// Every target carries the name of one of the providers.
proof fn targets_carry_names(list: Seq<Provider>, probe: bool, i: int)
    requires
        0 <= i < providers_targets(list, probe).len(),
    ensures
        exists|k: int|
            0 <= k < list.len() && providers_targets(list, probe)[i].provider == (#[trigger] list[k]).name@,
    decreases list.len(),
{
    let rest = list.drop_last();
    let before = providers_targets(rest, probe);
    if i < before.len() {
        targets_carry_names(rest, probe, i);
        let k = choose|k: int|
            0 <= k < rest.len() && providers_targets(rest, probe)[i].provider == (#[trigger] rest[k]).name@;
        assert(list[k] == rest[k]);
    } else {
        targets_of_one(list.last(), probe, i - before.len());
        targets_carry_the_name(list.last(), i - before.len());
        assert(list[list.len() - 1] == list.last());
    }
}

/// Among providers with different names, no two targets share a provider and a
/// protocol, so that each cell of the table belongs to one target at most.
pub proof fn cells_are_distinct(list: Seq<Provider>, probe: bool, i: int, j: int)
    requires
        forall|k: int, l: int| 0 <= k < l < list.len() ==> (#[trigger] list[k]).name@ != (#[trigger] list[l]).name@,
        0 <= i < j < providers_targets(list, probe).len(),
    ensures
        providers_targets(list, probe)[i].provider != providers_targets(list, probe)[j].provider
            || providers_targets(list, probe)[i].proto != providers_targets(list, probe)[j].proto,
    decreases list.len(),
{
    let rest = list.drop_last();
    let last = list.last();
    let before = providers_targets(rest, probe);
    let n = before.len();
    assert forall|k: int, l: int| 0 <= k < l < rest.len() implies (#[trigger] rest[k]).name@ != (
    #[trigger] rest[l]).name@ by {
        assert(list[k] == rest[k] && list[l] == rest[l]);
    }
    if j < n {
        cells_are_distinct(rest, probe, i, j);
    } else {
        targets_of_one(last, probe, j - n);
        targets_carry_the_name(last, j - n);
        if i < n {
            targets_carry_names(rest, probe, i);
            let k = choose|k: int| 0 <= k < rest.len() && before[i].provider == (#[trigger] rest[k]).name@;
            assert(list[k].name@ != list[list.len() - 1].name@);
        } else {
            targets_of_one(last, probe, i - n);
            one_target_per_protocol(last, i - n, j - n);
        }
    }
}

/// The known providers have different names.
pub proof fn known_names_are_distinct(i: int, j: int)
    requires
        0 <= i < j < registry().len(),
    ensures
        registry()[i].name@ != registry()[j].name@,
{
    reveal_strlit("阿里 DNS");
    reveal_strlit("腾讯 DNSPod");
    reveal_strlit("360 DNS");
    reveal_strlit("OneDNS(微步)");
    reveal_strlit("114 DNS");
    reveal_strlit("百度 DNS");
    reveal_strlit("字节 TrafficRoute");
    reveal_strlit("CNNIC DNS");
    assert(registry()[0].name@ == "阿里 DNS"@);
    assert(registry()[1].name@ == "腾讯 DNSPod"@);
    assert(registry()[2].name@ == "360 DNS"@);
    assert(registry()[3].name@ == "OneDNS(微步)"@);
    assert(registry()[4].name@ == "114 DNS"@);
    assert(registry()[5].name@ == "百度 DNS"@);
    assert(registry()[6].name@ == "字节 TrafficRoute"@);
    assert(registry()[7].name@ == "CNNIC DNS"@);
    assert("阿里 DNS"@[0] == '阿' && "百度 DNS"@[0] == '百');
    assert("360 DNS"@[0] == '3' && "114 DNS"@[0] == '1');
    assert("腾讯 DNSPod"@[0] == '腾' && "CNNIC DNS"@[0] == 'C');
    assert("阿里 DNS"@.len() == 6 && "360 DNS"@.len() == 7 && "CNNIC DNS"@.len() == 9);
    assert("OneDNS(微步)"@.len() == 10 && "字节 TrafficRoute"@.len() == 15);
}

/// Whatever is asked for, only targets by the protocols that are asked for come out.
pub proof fn targets_are_by_chosen_protocols(
    providers: Seq<Provider>,
    backups: Seq<Backup>,
    protos: Seq<Proto>,
    probe: bool,
    with_backups: bool,
    i: int,
)
    requires
        0 <= i < targets_of(providers, backups, protos, probe, with_backups).len(),
    ensures
        protos.contains(targets_of(providers, backups, protos, probe, with_backups)[i].proto),
{
    broadcast use vstd::seq_lib::group_filter_ensures;

    let all = providers_targets(providers, probe) + (if with_backups {
        backups_targets(backups)
    } else {
        Seq::empty()
    });
    assert(is_by(protos)(all.filter(is_by(protos))[i]));
}

/// Unless it is asked for, no protocol is tried that a provider does not declare.
pub proof fn nothing_is_probed_unasked(
    providers: Seq<Provider>,
    backups: Seq<Backup>,
    protos: Seq<Proto>,
    with_backups: bool,
    i: int,
)
    requires
        0 <= i < targets_of(providers, backups, protos, false, with_backups).len(),
    ensures
        !targets_of(providers, backups, protos, false, with_backups)[i].speculative,
{
    let all = providers_targets(providers, false) + (if with_backups {
        backups_targets(backups)
    } else {
        Seq::empty()
    });
    declared_are_not_speculative(providers);
    kept_are_members(all, is_by(protos), i);
}

proof fn declared_are_not_speculative(providers: Seq<Provider>)
    ensures
        forall|i: int|
            0 <= i < providers_targets(providers, false).len() ==> !(#[trigger] providers_targets(
                providers,
                false,
            )[i]).speculative,
    decreases providers.len(),
{
    if providers.len() > 0 {
        declared_are_not_speculative(providers.drop_last());
    }
}

/// What a filter keeps was there before.
proof fn kept_are_members(all: Seq<TargetView>, p: spec_fn(TargetView) -> bool, i: int)
    requires
        0 <= i < all.filter(p).len(),
    ensures
        exists|k: int| 0 <= k < all.len() && #[trigger] all[k] == all.filter(p)[i],
    decreases all.len(),
{
    reveal(Seq::filter);
    if all.len() > 0 {
        let before = all.drop_last();
        if i < before.filter(p).len() {
            kept_are_members(before, p, i);
            let k = choose|k: int| 0 <= k < before.len() && #[trigger] before[k] == before.filter(p)[i];
            assert(all[k] == all.filter(p)[i]);
        } else {
            assert(all[all.len() - 1] == all.filter(p)[i]);
        }
    }
}

/// Without a list of names, selection keeps every target.
pub proof fn no_list_selects_all(targets: Seq<TargetView>)
    ensures
        targets.filter(is_selected(None)) == targets,
    decreases targets.len(),
{
    reveal(Seq::filter);
    if targets.len() > 0 {
        no_list_selects_all(targets.drop_last());
        assert(targets.drop_last().push(targets.last()) =~= targets);
    }
}

/// Every provider with a target that is not only tried is represented, once, and by such a target.
pub proof fn representatives_are_fair(targets: Seq<TargetView>)
    ensures
        forall|i: int|
            0 <= i < targets.len() && !(#[trigger] targets[i]).speculative ==> is_represented(
                representatives_of(targets),
                targets[i].provider,
            ),
        forall|i: int, j: int|
            0 <= i < j < representatives_of(targets).len() ==> (#[trigger] representatives_of(targets)[i]).0
                != (#[trigger] representatives_of(targets)[j]).0,
        forall|i: int|
            0 <= i < representatives_of(targets).len() ==> exists|k: int|
                #![trigger targets[k]]
                0 <= k < targets.len() && !targets[k].speculative && (#[trigger] representatives_of(
                    targets,
                )[i]) == (targets[k].provider, targets[k].endpoint),
    decreases targets.len(),
{
    if targets.len() > 0 {
        let rest = targets.drop_last();
        let before = representatives_of(rest);
        let after = representatives_of(targets);
        let t = targets.last();
        representatives_are_fair(rest);
        assert forall|i: int| 0 <= i < targets.len() && !(#[trigger] targets[i]).speculative implies is_represented(
            after,
            targets[i].provider,
        ) by {
            if i < rest.len() {
                assert(rest[i] == targets[i]);
                let k = choose|k: int| 0 <= k < before.len() && (#[trigger] before[k]).0 == targets[i].provider;
                assert(after[k].0 == targets[i].provider);
            } else if !is_represented(before, t.provider) {
                assert(after[after.len() - 1].0 == t.provider);
            }
        }
        assert forall|i: int, j: int| 0 <= i < j < after.len() implies (#[trigger] after[i]).0 != (
        #[trigger] after[j]).0 by {
            assert(before[i] == after[i]);
            if j < before.len() {
                assert(before[j] == after[j]);
            }
        }
        assert forall|i: int| 0 <= i < after.len() implies exists|k: int|
            #![trigger targets[k]]
            0 <= k < targets.len() && !targets[k].speculative && (#[trigger] after[i]) == (
                targets[k].provider,
                targets[k].endpoint,
            ) by {
            if i < before.len() {
                assert(after[i] == before[i]);
                let k = choose|k: int|
                    #![trigger rest[k]]
                    0 <= k < rest.len() && !rest[k].speculative && before[i] == (
                        rest[k].provider,
                        rest[k].endpoint,
                    );
                assert(targets[k] == rest[k]);
            } else {
                assert(targets[targets.len() - 1] == t);
            }
        }
    }
}

} // verus!
