//! The protocols that are compared, and how connections are used.

use vstd::prelude::*;

use crate::scan::{
    is_white, same_text, small_letter, small_letters, strip_end, strip_start, to_small_letters, trim,
    trimmed,
};

verus! {

/// A transport for DNS queries.
#[derive(Debug, Clone, Copy, PartialEq, Eq, Structural)]
pub enum Proto {
    Udp,
    Dot,
    Doh,
    Doh3,
    Doq,
}

/// Whether connections are reused from query to query (hot) or made anew for each (cold).
#[derive(Debug, Clone, Copy, PartialEq, Eq, Structural)]
pub enum Mode {
    Hot,
    Cold,
}

/// All protocols, in the order of a report's columns.
pub open spec fn all_protos() -> Seq<Proto> {
    seq![Proto::Udp, Proto::Dot, Proto::Doh, Proto::Doh3, Proto::Doq]
}

/// The protocol that a name stands for; case and surrounding white space do not matter.
pub open spec fn proto_named(s: Seq<char>) -> Option<Proto> {
    let name = small_letters(trimmed(s));
    if name == "udp"@ || name == "plain"@ {
        Some(Proto::Udp)
    } else if name == "dot"@ || name == "tls"@ {
        Some(Proto::Dot)
    } else if name == "doh"@ || name == "h2"@ {
        Some(Proto::Doh)
    } else if name == "doh3"@ || name == "h3"@ {
        Some(Proto::Doh3)
    } else if name == "doq"@ || name == "quic"@ {
        Some(Proto::Doq)
    } else {
        None
    }
}

/// The connection mode that a name stands for.
pub open spec fn mode_named(s: Seq<char>) -> Option<Mode> {
    if s == "hot"@ {
        Some(Mode::Hot)
    } else if s == "cold"@ {
        Some(Mode::Cold)
    } else {
        None
    }
}

impl Proto {
    /// The name with its port, as [`Proto::label`] gives it.
    pub open spec fn label_text(self) -> Seq<char> {
        match self {
            Proto::Udp => "UDP/53"@,
            Proto::Dot => "DoT/853"@,
            Proto::Doh => "DoH-h2"@,
            Proto::Doh3 => "DoH3"@,
            Proto::Doq => "DoQ/853"@,
        }
    }

    /// The name without a port, as [`Proto::short`] gives it.
    pub open spec fn short_text(self) -> Seq<char> {
        match self {
            Proto::Udp => "UDP"@,
            Proto::Dot => "DoT"@,
            Proto::Doh => "DoH"@,
            Proto::Doh3 => "DoH3"@,
            Proto::Doq => "DoQ"@,
        }
    }

    /// All protocols, in the order of a report's columns.
    pub fn all() -> (r: [Proto; 5])
        ensures
            r@ == all_protos(),
    {
        let r = [Proto::Udp, Proto::Dot, Proto::Doh, Proto::Doh3, Proto::Doq];
        assert(r@ =~= all_protos());
        r
    }

    /// The name with its port, for table headings and rankings.
    pub fn label(self) -> (r: &'static str)
        ensures
            r@ == self.label_text(),
    {
        match self {
            Proto::Udp => "UDP/53",
            Proto::Dot => "DoT/853",
            Proto::Doh => "DoH-h2",
            Proto::Doh3 => "DoH3",
            Proto::Doq => "DoQ/853",
        }
    }

    /// The name without a port, for titles.
    pub fn short(self) -> (r: &'static str)
        ensures
            r@ == self.short_text(),
    {
        match self {
            Proto::Udp => "UDP",
            Proto::Dot => "DoT",
            Proto::Doh => "DoH",
            Proto::Doh3 => "DoH3",
            Proto::Doq => "DoQ",
        }
    }

    /// Whether this is DNS over plain UDP.
    pub fn is_udp(self) -> (r: bool)
        ensures
            r == (self == Proto::Udp),
    {
        matches!(self, Proto::Udp)
    }

    /// The protocol that a name stands for.
    pub fn parse(s: &str) -> (r: Option<Proto>)
        ensures
            r == proto_named(s@),
    {
        let name = to_small_letters(trim(s).as_str());
        let n: &str = name.as_str();
        if same_text(n, "udp") || same_text(n, "plain") {
            Some(Proto::Udp)
        } else if same_text(n, "dot") || same_text(n, "tls") {
            Some(Proto::Dot)
        } else if same_text(n, "doh") || same_text(n, "h2") {
            Some(Proto::Doh)
        } else if same_text(n, "doh3") || same_text(n, "h3") {
            Some(Proto::Doh3)
        } else if same_text(n, "doq") || same_text(n, "quic") {
            Some(Proto::Doq)
        } else {
            None
        }
    }
}

impl Mode {
    /// The full description, as [`Mode::name`] gives it.
    pub open spec fn name_text(self) -> Seq<char> {
        match self {
            Mode::Hot => "hot（连接复用）"@,
            Mode::Cold => "cold（每查询重建连接）"@,
        }
    }

    /// The one-word name, as [`Mode::short`] gives it.
    pub open spec fn short_text(self) -> Seq<char> {
        match self {
            Mode::Hot => "hot"@,
            Mode::Cold => "cold"@,
        }
    }

    /// The full description, for report headings.
    pub fn name(self) -> (r: &'static str)
        ensures
            r@ == self.name_text(),
    {
        match self {
            Mode::Hot => "hot（连接复用）",
            Mode::Cold => "cold（每查询重建连接）",
        }
    }

    /// The one-word name.
    pub fn short(self) -> (r: &'static str)
        ensures
            r@ == self.short_text(),
    {
        match self {
            Mode::Hot => "hot",
            Mode::Cold => "cold",
        }
    }

    /// The mode that a name stands for.
    pub fn parse(s: &str) -> (r: Option<Mode>)
        ensures
            r == mode_named(s@),
    {
        if same_text(s, "hot") {
            Some(Mode::Hot)
        } else if same_text(s, "cold") {
            Some(Mode::Cold)
        } else {
            None
        }
    }
}

/// Whether `p` is one of `list`.
pub fn is_chosen(list: &Vec<Proto>, p: Proto) -> (r: bool)
    ensures
        r == list@.contains(p),
{
    let mut i: usize = 0;
    while i < list.len()
        invariant
            i <= list@.len(),
            forall|j: int| 0 <= j < i ==> list@[j] != p,
        decreases list@.len() - i,
    {
        if list[i] == p {
            assert(list@[i as int] == p);
            return true;
        }
        i += 1;
    }
    false
}

// ---------------------------------------------------------------------------
// Laws
// ---------------------------------------------------------------------------

/// Small letters have no white space, and white space has no small letter to become.
proof fn small_letter_keeps_white(c: char)
    ensures
        is_white(small_letter(c)) == is_white(c),
        small_letter(small_letter(c)) == small_letter(c),
{
}

proof fn strip_start_small(s: Seq<char>)
    ensures
        strip_start(small_letters(s), |c: char| is_white(c)) == small_letters(
            strip_start(s, |c: char| is_white(c)),
        ),
    decreases s.len(),
{
    if s.len() > 0 {
        small_letter_keeps_white(s[0]);
        assert(small_letters(s)[0] == small_letter(s[0]));
        assert(small_letters(s).drop_first() =~= small_letters(s.drop_first()));
        strip_start_small(s.drop_first());
    }
}

proof fn strip_end_small(s: Seq<char>)
    ensures
        strip_end(small_letters(s), |c: char| is_white(c)) == small_letters(
            strip_end(s, |c: char| is_white(c)),
        ),
    decreases s.len(),
{
    if s.len() > 0 {
        small_letter_keeps_white(s.last());
        assert(small_letters(s).last() == small_letter(s.last()));
        assert(small_letters(s).drop_last() =~= small_letters(s.drop_last()));
        strip_end_small(s.drop_last());
    }
}

/// A stripped text neither begins nor ends with what was stripped off.
proof fn strip_start_stops(s: Seq<char>, p: spec_fn(char) -> bool)
    ensures
        ({
            let t = strip_start(s, p);
            t.len() > 0 ==> !p(t[0])
        }),
    decreases s.len(),
{
    if s.len() > 0 && p(s[0]) {
        strip_start_stops(s.drop_first(), p);
    }
}

proof fn strip_end_stops(s: Seq<char>, p: spec_fn(char) -> bool)
    ensures
        ({
            let t = strip_end(s, p);
            &&& t.len() > 0 ==> !p(t.last())
            &&& t.len() <= s.len()
            &&& t == s.take(t.len() as int)
        }),
    decreases s.len(),
{
    if s.len() > 0 && p(s.last()) {
        strip_end_stops(s.drop_last(), p);
        let t = strip_end(s.drop_last(), p);
        assert(s.drop_last().take(t.len() as int) =~= s.take(t.len() as int));
    } else {
        assert(s.take(s.len() as int) =~= s);
    }
}

/// Trimming twice is trimming once.
pub proof fn trimming_is_idempotent(s: Seq<char>)
    ensures
        trimmed(trimmed(s)) == trimmed(s),
{
    let white = |c: char| is_white(c);
    let a = strip_start(s, white);
    let b = strip_end(a, white);
    strip_start_stops(s, white);
    strip_end_stops(a, white);
    if b.len() > 0 {
        assert(b[0] == a[0]);
    }
    assert(strip_start(b, white) == b);
    assert(strip_end(b, white) == b);
}

/// A protocol's name may be written in any case and with white space around it.
pub proof fn proto_names_ignore_case_and_blanks(s: Seq<char>)
    ensures
        proto_named(trimmed(s)) == proto_named(s),
        proto_named(small_letters(s)) == proto_named(s),
{
    trimming_is_idempotent(s);
    let white = |c: char| is_white(c);
    strip_start_small(s);
    strip_end_small(strip_start(s, white));
    assert(trimmed(small_letters(s)) == small_letters(trimmed(s)));
    let t = trimmed(s);
    assert(small_letters(small_letters(t)) =~= small_letters(t)) by {
        assert forall|i: int| 0 <= i < t.len() implies small_letters(small_letters(t))[i]
            == small_letters(t)[i] by {
            small_letter_keeps_white(t[i]);
        }
    }
}

/// Every protocol is found again under its short name.
pub proof fn short_names_parse_back(p: Proto)
    ensures
        proto_named(p.short_text()) == Some(p),
{
    reveal_strlit("UDP");
    reveal_strlit("DoT");
    reveal_strlit("DoH");
    reveal_strlit("DoH3");
    reveal_strlit("DoQ");
    reveal_strlit("udp");
    reveal_strlit("plain");
    reveal_strlit("dot");
    reveal_strlit("tls");
    reveal_strlit("doh");
    reveal_strlit("h2");
    reveal_strlit("doh3");
    reveal_strlit("h3");
    reveal_strlit("doq");
    reveal_strlit("quic");
    let s = p.short_text();
    assert(strip_start(s, |c: char| is_white(c)) == s);
    assert(trimmed(s) == s);
    let name = small_letters(s);
    match p {
        Proto::Udp => {
            assert(name =~= "udp"@);
        },
        Proto::Dot => {
            assert(name =~= "dot"@);
            assert("udp"@[0] != name[0]);
            assert("plain"@[0] != name[0]);
        },
        Proto::Doh => {
            assert(name =~= "doh"@);
            assert("udp"@[0] != name[0]);
            assert("plain"@[0] != name[0]);
            assert("dot"@[2] != name[2]);
            assert("tls"@[0] != name[0]);
        },
        Proto::Doh3 => {
            assert(name =~= "doh3"@);
            assert("udp"@.len() == 3 && "plain"@.len() == 5 && "dot"@.len() == 3 && "tls"@.len() == 3);
            assert("doh"@.len() == 3 && "h2"@.len() == 2);
        },
        Proto::Doq => {
            assert(name =~= "doq"@);
            assert("udp"@[0] != name[0]);
            assert("plain"@[0] != name[0]);
            assert("dot"@[2] != name[2]);
            assert("tls"@[0] != name[0]);
            assert("doh"@[2] != name[2]);
            assert("h2"@.len() == 2);
            assert("doh3"@.len() == 4);
            assert("h3"@.len() == 2);
        },
    }
}

/// No two protocols share a label.
pub proof fn labels_are_distinct(p: Proto, q: Proto)
    requires
        p.label_text() == q.label_text(),
    ensures
        p == q,
{
    reveal_strlit("UDP/53");
    reveal_strlit("DoT/853");
    reveal_strlit("DoH-h2");
    reveal_strlit("DoH3");
    reveal_strlit("DoQ/853");
    assert("UDP/53"@.len() == 6 && "UDP/53"@[0] == 'U');
    assert("DoT/853"@.len() == 7 && "DoT/853"@[2] == 'T');
    assert("DoH-h2"@.len() == 6 && "DoH-h2"@[0] == 'D');
    assert("DoH3"@.len() == 4);
    assert("DoQ/853"@.len() == 7 && "DoQ/853"@[2] == 'Q');
}

/// Every mode is found again under its short name.
pub proof fn mode_names_parse_back(m: Mode)
    ensures
        mode_named(m.short_text()) == Some(m),
{
    reveal_strlit("hot");
    reveal_strlit("cold");
    assert("hot"@.len() == 3 && "cold"@.len() == 4);
}

} // verus!
