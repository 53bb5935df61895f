//! The names of protocols and modes, one by one.

use vstd::prelude::*;

use crate::proto::{all_protos, mode_named, proto_named, Mode, Proto};
use crate::scan::{small_letters, trimmed};

verus! {

proof fn names_differ()
    ensures
        "udp"@.len() == 3 && "udp"@[0] == 'u',
        "plain"@.len() == 5,
        "dot"@.len() == 3 && "dot"@[0] == 'd' && "dot"@[2] == 't',
        "tls"@.len() == 3 && "tls"@[0] == 't',
        "doh"@.len() == 3 && "doh"@[0] == 'd' && "doh"@[2] == 'h',
        "h2"@.len() == 2 && "h2"@[1] == '2',
        "doh3"@.len() == 4 && "doh3"@[0] == 'd',
        "h3"@.len() == 2 && "h3"@[1] == '3',
        "doq"@.len() == 3 && "doq"@[0] == 'd' && "doq"@[2] == 'q',
        "quic"@.len() == 4 && "quic"@[0] == 'q',
{
    reveal_strlit("udp");
    reveal_strlit("plain");
    reveal_strlit("dot");
    reveal_strlit("tls");
    reveal_strlit("doh");
    reveal_strlit("h2");
    reveal_strlit("doh3");
    reveal_strlit("h3");
    reveal_strlit("doq");
    reveal_strlit("quic");
}

/// Each protocol has two names, in small letters and without white space around
/// them, and goes by no other.
pub proof fn protocols_have_two_names(s: Seq<char>)
    ensures
        ({
            let name = small_letters(trimmed(s));
            &&& proto_named(s) == Some(Proto::Udp) <==> name == "udp"@ || name == "plain"@
            &&& proto_named(s) == Some(Proto::Dot) <==> name == "dot"@ || name == "tls"@
            &&& proto_named(s) == Some(Proto::Doh) <==> name == "doh"@ || name == "h2"@
            &&& proto_named(s) == Some(Proto::Doh3) <==> name == "doh3"@ || name == "h3"@
            &&& proto_named(s) == Some(Proto::Doq) <==> name == "doq"@ || name == "quic"@
        }),
{
    names_differ();
}

/// A mode goes by one name, as it stands.
pub proof fn modes_have_one_name(s: Seq<char>)
    ensures
        mode_named(s) == Some(Mode::Hot) <==> s == "hot"@,
        mode_named(s) == Some(Mode::Cold) <==> s == "cold"@,
{
    reveal_strlit("hot");
    reveal_strlit("cold");
    assert("hot"@.len() == 3 && "cold"@.len() == 4);
}

/// There are five protocols, in this order, each once.
pub proof fn protocols_are_five(p: Proto)
    ensures
        all_protos().len() == 5,
        all_protos().contains(p),
        all_protos().no_duplicates(),
        all_protos()[0] == Proto::Udp && all_protos()[1] == Proto::Dot && all_protos()[2] == Proto::Doh
            && all_protos()[3] == Proto::Doh3 && all_protos()[4] == Proto::Doq,
{
    let all = all_protos();
    assert(all[0] == Proto::Udp && all[1] == Proto::Dot && all[2] == Proto::Doh && all[3] == Proto::Doh3 && all[4]
        == Proto::Doq);
}

/// What protocols and modes are called where they are shown.
pub proof fn shown_names_are_these(p: Proto, m: Mode)
    ensures
        p.label_text() == match p {
            Proto::Udp => "UDP/53"@,
            Proto::Dot => "DoT/853"@,
            Proto::Doh => "DoH-h2"@,
            Proto::Doh3 => "DoH3"@,
            Proto::Doq => "DoQ/853"@,
        },
        p.short_text() == match p {
            Proto::Udp => "UDP"@,
            Proto::Dot => "DoT"@,
            Proto::Doh => "DoH"@,
            Proto::Doh3 => "DoH3"@,
            Proto::Doq => "DoQ"@,
        },
        m.name_text() == match m {
            Mode::Hot => "hot（连接复用）"@,
            Mode::Cold => "cold（每查询重建连接）"@,
        },
        m.short_text() == match m {
            Mode::Hot => "hot"@,
            Mode::Cold => "cold"@,
        },
{
}

} // verus!
