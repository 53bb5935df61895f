//! What each argument of a command line does, one by one.

use vstd::prelude::*;

use crate::addr::{ipv4_denoted, EndpointView};
use crate::cli::{
    default_protocol_opt, default_provider_opt, default_settings, doh_url_text, endpoint_of, protocol_parsed,
    protos_named, provider_parsed, stop_in, takes_protocol_setting, takes_provider_setting, trimmed_pieces,
    with_protocol_setting, with_provider_flag, with_provider_setting, ProtocolOpt, ProtocolOptView, ProviderOpt,
    ProviderOptView, Settings, SettingsView, Stop, StopView, Tool, PLAIN_PORT, QUERY_TIMEOUT_SECS, TLS_PORT,
};
use crate::number::denoted;
use crate::proto::{proto_named, Mode, Proto};
use crate::scan::{pieces, trimmed};

verus! {

// ---------------------------------------------------------------------------
// Arguments by name
// ---------------------------------------------------------------------------

/// No two arguments have the same name.
proof fn arguments_differ()
    ensures
        "--mode"@.len() == 6 && "--mode"@[2] == 'm' && "--mode"@[4] == 'd',
        "--rounds"@.len() == 8 && "--rounds"@[2] == 'r' && "--rounds"@[4] == 'u',
        "--warmup"@.len() == 8 && "--warmup"@[2] == 'w' && "--warmup"@[4] == 'r',
        "--timeout"@.len() == 9 && "--timeout"@[2] == 't' && "--timeout"@[4] == 'm',
        "--domains"@.len() == 9 && "--domains"@[2] == 'd' && "--domains"@[4] == 'm',
        "--only"@.len() == 6 && "--only"@[2] == 'o' && "--only"@[4] == 'l',
        "--server"@.len() == 8 && "--server"@[2] == 's' && "--server"@[4] == 'r',
        "--sni"@.len() == 5 && "--sni"@[2] == 's' && "--sni"@[4] == 'i',
        "--doh-url"@.len() == 9 && "--doh-url"@[2] == 'd' && "--doh-url"@[4] == 'h',
        "--no-progress"@.len() == 13 && "--no-progress"@[2] == 'n' && "--no-progress"@[4] == '-',
        "--help"@.len() == 6 && "--help"@[2] == 'h' && "--help"@[4] == 'l',
        "-h"@.len() == 2,
        "--isp"@.len() == 5 && "--isp"@[2] == 'i' && "--isp"@[4] == 'p',
        "--nxdomain-base"@.len() == 15 && "--nxdomain-base"@[2] == 'n' && "--nxdomain-base"@[4] == 'd',
        "--protos"@.len() == 8 && "--protos"@[2] == 'p' && "--protos"@[4] == 'o',
        "--with-backups"@.len() == 14 && "--with-backups"@[2] == 'w' && "--with-backups"@[4] == 't',
        "--probe"@.len() == 7 && "--probe"@[2] == 'p' && "--probe"@[4] == 'o',
        "--list"@.len() == 6 && "--list"@[2] == 'l' && "--list"@[4] == 's',
        "--verbose"@.len() == 9 && "--verbose"@[2] == 'v' && "--verbose"@[4] == 'r',
        "--no-hijack-check"@.len() == 17 && "--no-hijack-check"@[2] == 'n' && "--no-hijack-check"@[4] == '-',
{
    reveal_strlit("--mode");
    reveal_strlit("--rounds");
    reveal_strlit("--warmup");
    reveal_strlit("--timeout");
    reveal_strlit("--domains");
    reveal_strlit("--only");
    reveal_strlit("--server");
    reveal_strlit("--sni");
    reveal_strlit("--doh-url");
    reveal_strlit("--no-progress");
    reveal_strlit("--help");
    reveal_strlit("-h");
    reveal_strlit("--isp");
    reveal_strlit("--nxdomain-base");
    reveal_strlit("--protos");
    reveal_strlit("--with-backups");
    reveal_strlit("--probe");
    reveal_strlit("--list");
    reveal_strlit("--verbose");
    reveal_strlit("--no-hijack-check");
}

/// Whether `key` is an argument with a value of the comparison of protocols.
pub open spec fn names_protocol_setting(key: Seq<char>) -> bool {
    seq![
        "--server"@,
        "--sni"@,
        "--doh-url"@,
        "--mode"@,
        "--rounds"@,
        "--warmup"@,
        "--timeout"@,
        "--domains"@,
        "--only"@,
    ].contains(key)
}

/// Whether `key` is an argument with a value of the comparison of providers.
pub open spec fn names_provider_setting(key: Seq<char>) -> bool {
    seq![
        "--isp"@,
        "--nxdomain-base"@,
        "--only"@,
        "--mode"@,
        "--rounds"@,
        "--warmup"@,
        "--timeout"@,
        "--domains"@,
        "--protos"@,
    ].contains(key)
}

/// Whether `key` is an argument without a value of the comparison of providers.
pub open spec fn names_provider_flag(key: Seq<char>) -> bool {
    seq![
        "--with-backups"@,
        "--probe"@,
        "--list"@,
        "--verbose"@,
        "--no-progress"@,
        "--no-hijack-check"@,
    ].contains(key)
}

proof fn protocol_settings_are_named(key: Seq<char>)
    ensures
        names_protocol_setting(key) <==> takes_protocol_setting(key),
{
    let list = seq![
        "--server"@,
        "--sni"@,
        "--doh-url"@,
        "--mode"@,
        "--rounds"@,
        "--warmup"@,
        "--timeout"@,
        "--domains"@,
        "--only"@,
    ];
    assert(list[0] == "--server"@);
    assert(list[1] == "--sni"@);
    assert(list[2] == "--doh-url"@);
    assert(list[3] == "--mode"@);
    assert(list[4] == "--rounds"@);
    assert(list[5] == "--warmup"@);
    assert(list[6] == "--timeout"@);
    assert(list[7] == "--domains"@);
    assert(list[8] == "--only"@);
}

proof fn provider_settings_are_named(key: Seq<char>)
    ensures
        names_provider_setting(key) <==> takes_provider_setting(key),
{
    let list = seq![
        "--isp"@,
        "--nxdomain-base"@,
        "--only"@,
        "--mode"@,
        "--rounds"@,
        "--warmup"@,
        "--timeout"@,
        "--domains"@,
        "--protos"@,
    ];
    assert(list[0] == "--isp"@);
    assert(list[1] == "--nxdomain-base"@);
    assert(list[2] == "--only"@);
    assert(list[3] == "--mode"@);
    assert(list[4] == "--rounds"@);
    assert(list[5] == "--warmup"@);
    assert(list[6] == "--timeout"@);
    assert(list[7] == "--domains"@);
    assert(list[8] == "--protos"@);
}

proof fn provider_flags_are_named(o: ProviderOptView, key: Seq<char>)
    ensures
        names_provider_flag(key) <==> with_provider_flag(o, key) is Some,
{
    let list = seq![
        "--with-backups"@,
        "--probe"@,
        "--list"@,
        "--verbose"@,
        "--no-progress"@,
        "--no-hijack-check"@,
    ];
    assert(list[0] == "--with-backups"@);
    assert(list[1] == "--probe"@);
    assert(list[2] == "--list"@);
    assert(list[3] == "--verbose"@);
    assert(list[4] == "--no-progress"@);
    assert(list[5] == "--no-hijack-check"@);
}

// ---------------------------------------------------------------------------
// Comparing protocols
// ---------------------------------------------------------------------------

proof fn one_protocol_setting(o: ProtocolOptView, key: Seq<char>, v: Seq<char>)
    requires
        takes_protocol_setting(key),
    ensures
        protocol_parsed(seq![key, v], o) == (match with_protocol_setting(o, key, v) {
            Ok(next) => (next, None),
            Err(stop) => (o, Some(stop)),
        }),
{
    arguments_differ();
    let args = seq![key, v];
    assert(args[0] == key && args[1] == v);
    reveal_with_fuel(protocol_parsed, 2);
    assert(args.skip(2).len() == 0);
}

/// Each argument with a value sets what it is named after and nothing else, or is
/// refused with its own reason and sets nothing.
pub proof fn protocol_arguments_do_what_they_say(o: ProtocolOptView, v: Seq<char>)
    ensures
        protocol_parsed(seq!["--server"@, v], o) == (ProtocolOptView { server: v, sni: v, ..o }, None::<StopView>),
        protocol_parsed(seq!["--sni"@, v], o) == (ProtocolOptView { sni: v, ..o }, None::<StopView>),
        protocol_parsed(seq!["--doh-url"@, v], o) == (ProtocolOptView { doh_url: Some(v), ..o }, None::<StopView>),
        protocol_parsed(seq!["--domains"@, v], o) == (
            ProtocolOptView {
                common: SettingsView { domains_file: v, domains_explicit: true, ..o.common },
                ..o
            },
            None::<StopView>,
        ),
        protocol_parsed(seq!["--timeout"@, v], o) == (
            ProtocolOptView { common: SettingsView { timeouts: o.common.timeouts.push(v), ..o.common }, ..o },
            None::<StopView>,
        ),
        v == "hot"@ ==> protocol_parsed(seq!["--mode"@, v], o) == (
            ProtocolOptView { common: SettingsView { mode: Mode::Hot, ..o.common }, ..o },
            None::<StopView>,
        ),
        v == "cold"@ ==> protocol_parsed(seq!["--mode"@, v], o) == (
            ProtocolOptView { common: SettingsView { mode: Mode::Cold, ..o.common }, ..o },
            None::<StopView>,
        ),
        v != "hot"@ && v != "cold"@ ==> protocol_parsed(seq!["--mode"@, v], o) == (o, Some(StopView::BadMode(v))),
        denoted(v) is Some && denoted(v)->0 <= usize::MAX ==> protocol_parsed(seq!["--rounds"@, v], o) == (
            ProtocolOptView { common: SettingsView { rounds: denoted(v)->0 as usize, ..o.common }, ..o },
            None::<StopView>,
        ) && protocol_parsed(seq!["--warmup"@, v], o) == (
            ProtocolOptView { common: SettingsView { warmup: denoted(v)->0 as usize, ..o.common }, ..o },
            None::<StopView>,
        ),
        denoted(v) is None || denoted(v)->0 > usize::MAX ==> protocol_parsed(seq!["--rounds"@, v], o) == (
            o,
            Some(StopView::BadCount("--rounds"@)),
        ) && protocol_parsed(seq!["--warmup"@, v], o) == (o, Some(StopView::BadCount("--warmup"@))),
        match protos_named(pieces(v, ',')) {
            Ok(protos) => protocol_parsed(seq!["--only"@, v], o) == (
                ProtocolOptView { common: SettingsView { protos, ..o.common }, ..o },
                None::<StopView>,
            ),
            Err(name) => protocol_parsed(seq!["--only"@, v], o) == (o, Some(StopView::UnknownProto(name))),
        },
{
    arguments_differ();
    reveal_strlit("hot");
    reveal_strlit("cold");
    assert("hot"@.len() == 3 && "cold"@.len() == 4);
    one_protocol_setting(o, "--server"@, v);
    one_protocol_setting(o, "--sni"@, v);
    one_protocol_setting(o, "--doh-url"@, v);
    one_protocol_setting(o, "--mode"@, v);
    one_protocol_setting(o, "--rounds"@, v);
    one_protocol_setting(o, "--warmup"@, v);
    one_protocol_setting(o, "--timeout"@, v);
    one_protocol_setting(o, "--domains"@, v);
    one_protocol_setting(o, "--only"@, v);
}

/// An argument without a value, the request for the usage, an argument that does
/// not exist, and one whose value is missing.
pub proof fn other_protocol_arguments(o: ProtocolOptView, key: Seq<char>, rest: Seq<Seq<char>>)
    ensures
        protocol_parsed(Seq::empty(), o) == (o, None::<StopView>),
        protocol_parsed(seq!["--no-progress"@], o) == (
            ProtocolOptView { common: SettingsView { no_progress: true, ..o.common }, ..o },
            None::<StopView>,
        ),
        key == "--help"@ || key == "-h"@ ==> protocol_parsed(seq![key] + rest, o) == (o, Some(StopView::Help)),
        names_protocol_setting(key) ==> protocol_parsed(seq![key], o) == (o, Some(StopView::MissingValue(key))),
        !names_protocol_setting(key) && key != "--no-progress"@ && key != "--help"@ && key != "-h"@
            ==> protocol_parsed(seq![key] + rest, o) == (o, Some(StopView::UnknownArgument(key))),
{
    arguments_differ();
    protocol_settings_are_named(key);
    let args = seq![key] + rest;
    assert(args[0] == key);
    assert(seq![key][0] == key);
    let flag = seq!["--no-progress"@];
    assert(flag[0] == "--no-progress"@);
    reveal_with_fuel(protocol_parsed, 2);
    assert(flag.skip(1).len() == 0);
}

/// What stops a command line stops it for good, whatever follows; only a value
/// that is missing may still follow.
pub proof fn protocol_stops_are_final(a: Seq<Seq<char>>, b: Seq<Seq<char>>, o: ProtocolOptView)
    requires
        protocol_parsed(a, o).1 is Some,
        !(protocol_parsed(a, o).1->0 is MissingValue),
    ensures
        protocol_parsed(a + b, o) == protocol_parsed(a, o),
    decreases a.len(),
{
    let all = a + b;
    assert(all[0] == a[0]);
    if a[0] == "--no-progress"@ {
        assert(all.skip(1) =~= a.skip(1) + b);
        protocol_stops_are_final(
            a.skip(1),
            b,
            ProtocolOptView { common: SettingsView { no_progress: true, ..o.common }, ..o },
        );
    } else if a[0] == "--help"@ || a[0] == "-h"@ {
    } else if takes_protocol_setting(a[0]) {
        if a.len() > 1 {
            assert(all[1] == a[1]);
            match with_protocol_setting(o, a[0], a[1]) {
                Ok(next) => {
                    assert(all.skip(2) =~= a.skip(2) + b);
                    protocol_stops_are_final(a.skip(2), b, next);
                },
                Err(_) => {},
            }
        }
    }
}

// ---------------------------------------------------------------------------
// Comparing providers
// ---------------------------------------------------------------------------

proof fn one_provider_setting(o: ProviderOptView, key: Seq<char>, v: Seq<char>)
    requires
        takes_provider_setting(key),
    ensures
        provider_parsed(seq![key, v], o) == (match with_provider_setting(o, key, v) {
            Ok(next) => (next, None),
            Err(stop) => (o, Some(stop)),
        }),
{
    arguments_differ();
    let args = seq![key, v];
    assert(args[0] == key && args[1] == v);
    assert(with_provider_flag(o, key) is None);
    reveal_with_fuel(provider_parsed, 2);
    assert(args.skip(2).len() == 0);
}

/// Each argument with a value sets what it is named after and nothing else, or is
/// refused with its own reason and sets nothing.
pub proof fn provider_arguments_do_what_they_say(o: ProviderOptView, v: Seq<char>)
    ensures
        provider_parsed(seq!["--isp"@, v], o) == (ProviderOptView { isp: Some(v), ..o }, None::<StopView>),
        provider_parsed(seq!["--nxdomain-base"@, v], o) == (
            ProviderOptView { nxdomain_base: v, ..o },
            None::<StopView>,
        ),
        provider_parsed(seq!["--only"@, v], o) == (
            ProviderOptView { only: Some(trimmed_pieces(v)), ..o },
            None::<StopView>,
        ),
        provider_parsed(seq!["--domains"@, v], o) == (
            ProviderOptView {
                common: SettingsView { domains_file: v, domains_explicit: true, ..o.common },
                ..o
            },
            None::<StopView>,
        ),
        provider_parsed(seq!["--timeout"@, v], o) == (
            ProviderOptView { common: SettingsView { timeouts: o.common.timeouts.push(v), ..o.common }, ..o },
            None::<StopView>,
        ),
        v == "hot"@ ==> provider_parsed(seq!["--mode"@, v], o) == (
            ProviderOptView { common: SettingsView { mode: Mode::Hot, ..o.common }, ..o },
            None::<StopView>,
        ),
        v == "cold"@ ==> provider_parsed(seq!["--mode"@, v], o) == (
            ProviderOptView { common: SettingsView { mode: Mode::Cold, ..o.common }, ..o },
            None::<StopView>,
        ),
        v != "hot"@ && v != "cold"@ ==> provider_parsed(seq!["--mode"@, v], o) == (o, Some(StopView::BadMode(v))),
        denoted(v) is Some && denoted(v)->0 <= usize::MAX ==> provider_parsed(seq!["--rounds"@, v], o) == (
            ProviderOptView { common: SettingsView { rounds: denoted(v)->0 as usize, ..o.common }, ..o },
            None::<StopView>,
        ) && provider_parsed(seq!["--warmup"@, v], o) == (
            ProviderOptView { common: SettingsView { warmup: denoted(v)->0 as usize, ..o.common }, ..o },
            None::<StopView>,
        ),
        denoted(v) is None || denoted(v)->0 > usize::MAX ==> provider_parsed(seq!["--rounds"@, v], o) == (
            o,
            Some(StopView::BadCount("--rounds"@)),
        ) && provider_parsed(seq!["--warmup"@, v], o) == (o, Some(StopView::BadCount("--warmup"@))),
        match protos_named(pieces(v, ',')) {
            Ok(protos) => provider_parsed(seq!["--protos"@, v], o) == (
                ProviderOptView { common: SettingsView { protos, ..o.common }, ..o },
                None::<StopView>,
            ),
            Err(name) => provider_parsed(seq!["--protos"@, v], o) == (o, Some(StopView::UnknownProto(name))),
        },
{
    arguments_differ();
    reveal_strlit("hot");
    reveal_strlit("cold");
    assert("hot"@.len() == 3 && "cold"@.len() == 4);
    one_provider_setting(o, "--isp"@, v);
    one_provider_setting(o, "--nxdomain-base"@, v);
    one_provider_setting(o, "--only"@, v);
    one_provider_setting(o, "--mode"@, v);
    one_provider_setting(o, "--rounds"@, v);
    one_provider_setting(o, "--warmup"@, v);
    one_provider_setting(o, "--timeout"@, v);
    one_provider_setting(o, "--domains"@, v);
    one_provider_setting(o, "--protos"@, v);
}

proof fn one_provider_flag(o: ProviderOptView, key: Seq<char>)
    requires
        with_provider_flag(o, key) is Some,
    ensures
        provider_parsed(seq![key], o) == (with_provider_flag(o, key)->0, None::<StopView>),
{
    let args = seq![key];
    assert(args[0] == key);
    reveal_with_fuel(provider_parsed, 2);
    assert(args.skip(1).len() == 0);
}

/// Each argument without a value turns on what it is named after and nothing else.
pub proof fn provider_flags_do_what_they_say(o: ProviderOptView)
    ensures
        provider_parsed(seq!["--with-backups"@], o) == (
            ProviderOptView { with_backups: true, ..o },
            None::<StopView>,
        ),
        provider_parsed(seq!["--probe"@], o) == (ProviderOptView { probe: true, ..o }, None::<StopView>),
        provider_parsed(seq!["--list"@], o) == (ProviderOptView { list_only: true, ..o }, None::<StopView>),
        provider_parsed(seq!["--verbose"@], o) == (ProviderOptView { verbose: true, ..o }, None::<StopView>),
        provider_parsed(seq!["--no-progress"@], o) == (
            ProviderOptView { common: SettingsView { no_progress: true, ..o.common }, ..o },
            None::<StopView>,
        ),
        provider_parsed(seq!["--no-hijack-check"@], o) == (
            ProviderOptView { skip_hijack_check: true, ..o },
            None::<StopView>,
        ),
{
    arguments_differ();
    one_provider_flag(o, "--with-backups"@);
    one_provider_flag(o, "--probe"@);
    one_provider_flag(o, "--list"@);
    one_provider_flag(o, "--verbose"@);
    one_provider_flag(o, "--no-progress"@);
    one_provider_flag(o, "--no-hijack-check"@);
}

/// The request for the usage, an argument that does not exist, and one whose value is missing.
pub proof fn other_provider_arguments(o: ProviderOptView, key: Seq<char>, rest: Seq<Seq<char>>)
    ensures
        provider_parsed(Seq::empty(), o) == (o, None::<StopView>),
        key == "--help"@ || key == "-h"@ ==> provider_parsed(seq![key] + rest, o) == (o, Some(StopView::Help)),
        names_provider_setting(key) ==> provider_parsed(seq![key], o) == (o, Some(StopView::MissingValue(key))),
        !names_provider_setting(key) && !names_provider_flag(key) && key != "--help"@ && key != "-h"@
            ==> provider_parsed(seq![key] + rest, o) == (o, Some(StopView::UnknownArgument(key))),
{
    arguments_differ();
    provider_settings_are_named(key);
    provider_flags_are_named(o, key);
    let args = seq![key] + rest;
    assert(args[0] == key);
    assert(seq![key][0] == key);
}

/// What stops a command line stops it for good, whatever follows; only a value
/// that is missing may still follow.
pub proof fn provider_stops_are_final(a: Seq<Seq<char>>, b: Seq<Seq<char>>, o: ProviderOptView)
    requires
        provider_parsed(a, o).1 is Some,
        !(provider_parsed(a, o).1->0 is MissingValue),
    ensures
        provider_parsed(a + b, o) == provider_parsed(a, o),
    decreases a.len(),
{
    let all = a + b;
    assert(all[0] == a[0]);
    if with_provider_flag(o, a[0]) is Some {
        assert(all.skip(1) =~= a.skip(1) + b);
        provider_stops_are_final(a.skip(1), b, with_provider_flag(o, a[0])->0);
    } else if a[0] == "--help"@ || a[0] == "-h"@ {
    } else if takes_provider_setting(a[0]) {
        if a.len() > 1 {
            assert(all[1] == a[1]);
            match with_provider_setting(o, a[0], a[1]) {
                Ok(next) => {
                    assert(all.skip(2) =~= a.skip(2) + b);
                    provider_stops_are_final(a.skip(2), b, next);
                },
                Err(_) => {},
            }
        }
    }
}

// ---------------------------------------------------------------------------
// Lists, defaults and messages
// ---------------------------------------------------------------------------

/// A list of names is accepted exactly if each stands for a protocol, and gives the
/// protocols in the same order; otherwise the first name that stands for none is refused.
pub proof fn every_name_stands_for_a_protocol(names: Seq<Seq<char>>)
    ensures
        protos_named(names) is Ok <==> forall|i: int| 0 <= i < names.len() ==> proto_named(#[trigger] names[i]) is Some,
        protos_named(names) matches Ok(protos) ==> protos.len() == names.len() && forall|i: int|
            0 <= i < names.len() ==> Some(#[trigger] protos[i]) == proto_named(names[i]),
        protos_named(names) matches Err(name) ==> exists|i: int|
            0 <= i < names.len() && #[trigger] names[i] == name && proto_named(name) is None && forall|j: int|
                0 <= j < i ==> proto_named(#[trigger] names[j]) is Some,
    decreases names.len(),
{
    if names.len() > 0 {
        let rest = names.drop_last();
        let last = names.last();
        every_name_stands_for_a_protocol(rest);
        assert forall|i: int| 0 <= i < rest.len() implies rest[i] == #[trigger] names[i] by {}
        assert(names[names.len() - 1] == last);
        match protos_named(rest) {
            Err(name) => {
                let i = choose|i: int|
                    0 <= i < rest.len() && #[trigger] rest[i] == name && proto_named(name) is None && forall|j: int|
                        0 <= j < i ==> proto_named(#[trigger] rest[j]) is Some;
                assert forall|j: int| 0 <= j < i implies proto_named(#[trigger] names[j]) is Some by {
                    assert(proto_named(rest[j]) is Some);
                }
                assert(names[i] == name && proto_named(names[i]) is None);
            },
            Ok(before) => {
                assert forall|j: int| 0 <= j < rest.len() implies proto_named(#[trigger] names[j]) is Some by {
                    assert(proto_named(rest[j]) is Some);
                }
                match proto_named(last) {
                    Some(p) => {
                        let protos = before.push(p);
                        assert forall|i: int| 0 <= i < names.len() implies Some(#[trigger] protos[i]) == proto_named(
                            names[i],
                        ) by {
                            if i < rest.len() {
                                assert(Some(before[i]) == proto_named(rest[i]));
                            }
                        }
                    },
                    None => {},
                }
            },
        }
    }
}

/// Parts of names to look for are the pieces between commas, in order, without white space around them.
pub proof fn parts_are_trimmed(list: Seq<char>, i: int)
    requires
        0 <= i < pieces(list, ',').len(),
    ensures
        trimmed_pieces(list).len() == pieces(list, ',').len(),
        trimmed_pieces(list)[i] == trimmed(pieces(list, ',')[i]),
{
}

/// What is compared, and how, where nothing is asked for.
pub proof fn defaults_are_these()
    ensures
        default_settings().mode == Mode::Hot,
        default_settings().rounds == 30,
        default_settings().warmup == 5,
        default_settings().timeouts.len() == 0,
        default_settings().domains_file == "domains.txt"@,
        !default_settings().domains_explicit,
        !default_settings().no_progress,
        default_settings().protos == seq![Proto::Udp, Proto::Dot, Proto::Doh, Proto::Doh3, Proto::Doq],
        default_protocol_opt().common == default_settings(),
        default_protocol_opt().server == "223.5.5.5"@,
        default_protocol_opt().sni == "223.5.5.5"@,
        default_protocol_opt().doh_url is None,
        default_provider_opt().common == default_settings(),
        default_provider_opt().only is None,
        default_provider_opt().isp is None,
        !default_provider_opt().with_backups,
        !default_provider_opt().probe,
        !default_provider_opt().list_only,
        !default_provider_opt().verbose,
        !default_provider_opt().skip_hijack_check,
        default_provider_opt().nxdomain_base == "youtube.com,google.com"@,
        PLAIN_PORT == 53,
        TLS_PORT == 853,
        QUERY_TIMEOUT_SECS == 3,
{
}

/// Each protocol is looked for on the server at its own port or URL; the URL is the
/// one that was given, or else the usual path on the server.
pub proof fn servers_are_found_where_they_listen(o: ProtocolOptView, proto: Proto)
    ensures
        o.doh_url matches Some(url) ==> doh_url_text(o) == url,
        o.doh_url is None ==> doh_url_text(o) == "https://"@ + o.server + "/dns-query"@,
        proto == Proto::Udp && ipv4_denoted(o.server) is Some ==> (endpoint_of(proto, o) matches EndpointView::Udp(addr)
            && addr.port == 53 && ipv4_denoted(o.server) == Some(addr.ip)),
        proto == Proto::Dot ==> endpoint_of(proto, o) == (EndpointView::Dot { host: o.server, port: 853, sni: o.sni }),
        proto == Proto::Doh ==> endpoint_of(proto, o) == (EndpointView::Doh { url: doh_url_text(o), h3: false }),
        proto == Proto::Doh3 ==> endpoint_of(proto, o) == (EndpointView::Doh { url: doh_url_text(o), h3: true }),
        proto == Proto::Doq ==> endpoint_of(proto, o) == (EndpointView::Doq { host: o.server, port: 853, sni: o.sni }),
{
}

/// What is said where a command line is not carried out: it names the argument, the value or the protocol.
pub proof fn messages_name_what_is_wrong(s: Seq<char>, tool: Tool)
    ensures
        StopView::Help.message_text(tool).len() == 0,
        StopView::MissingValue(s).message_text(tool) == "参数 "@ + s + " 缺少取值"@,
        StopView::BadMode(s).message_text(tool) == "--mode 只支持 hot / cold，收到 "@ + s,
        StopView::BadCount(s).message_text(tool) == s + " 需要整数"@,
        StopView::UnknownArgument(s).message_text(tool) == "未知参数："@ + s + "（--help 查看用法）"@,
        StopView::UnknownProto(s).message_text(Tool::Protocols) == "无法识别的协议名："@ + s,
        StopView::UnknownProto(s).message_text(Tool::Providers) == "无法识别的协议名："@ + s
            + "（可用 udp,dot,doh,doh3,doq）"@,
{
    reveal_strlit("");
}

/// What is known of a stop is which one it is and what it holds.
pub proof fn stops_are_held(s: Stop, none: Option<Stop>)
    ensures
        match s {
            Stop::Help => s@ == StopView::Help,
            Stop::MissingValue(t) => s@ == StopView::MissingValue(t@),
            Stop::BadMode(t) => s@ == StopView::BadMode(t@),
            Stop::BadCount(t) => s@ == StopView::BadCount(t@),
            Stop::UnknownProto(t) => s@ == StopView::UnknownProto(t@),
            Stop::UnknownArgument(t) => s@ == StopView::UnknownArgument(t@),
        },
        stop_in(Some(s)) == Some(s@),
        none is None ==> stop_in(none) is None,
{
}

/// What is known of options is all that they hold.
pub proof fn options_are_held(s: Settings, a: ProtocolOpt, b: ProviderOpt)
    ensures
        s@.mode == s.mode,
        s@.rounds == s.rounds,
        s@.warmup == s.warmup,
        s@.timeouts.len() == s.timeouts@.len(),
        forall|i: int| 0 <= i < s.timeouts@.len() ==> #[trigger] s@.timeouts[i] == s.timeouts@[i]@,
        s@.domains_file == s.domains_file@,
        s@.domains_explicit == s.domains_explicit,
        s@.no_progress == s.no_progress,
        s@.protos == s.protos@,
        a@.common == a.common@,
        a@.server == a.server@,
        a@.sni == a.sni@,
        a@.doh_url is Some <==> a.doh_url is Some,
        a.doh_url matches Some(url) ==> a@.doh_url == Some(url@),
        b@.common == b.common@,
        b@.only is Some <==> b.only is Some,
        b.only matches Some(list) ==> b@.only->0.len() == list@.len() && forall|i: int|
            0 <= i < list@.len() ==> #[trigger] b@.only->0[i] == list@[i]@,
        b@.isp is Some <==> b.isp is Some,
        b.isp matches Some(list) ==> b@.isp == Some(list@),
        b@.with_backups == b.with_backups,
        b@.probe == b.probe,
        b@.list_only == b.list_only,
        b@.verbose == b.verbose,
        b@.skip_hijack_check == b.skip_hijack_check,
        b@.nxdomain_base == b.nxdomain_base@,
{
}

} // verus!
