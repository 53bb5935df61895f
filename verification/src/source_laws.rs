//! What is read from files and from the output of other programs, said of the texts themselves.

use vstd::prelude::*;

use crate::addr::{ipv4_denoted, Ipv4Addr};
use crate::domains::{builtin_list, domain_lines, domains_in, domains_read};
use crate::isp::{
    address_texts, addresses_among, all_noted, all_private, dhcp_found, dhcp_parts, interface_found, isp_label, noted,
    packet_found, resolver_parts, resolvers_found,
};
use crate::scan::{
    begins_with, contains_text, first_occurrences, first_occurrences_are_distinct, pieces,
    pieces_nonempty, trimmed, without_trailing,
};
use crate::scan_laws::{beginning_is_being_continued, holding_is_having_as_a_part, what_is_held_is_a_part};

verus! {

// ---------------------------------------------------------------------------
// Domains
// ---------------------------------------------------------------------------

/// The lines that name domains are all those that, without white space around
/// them, are not empty and do not begin with a number sign, in their order.
pub proof fn comments_are_left_out(lines: Seq<Seq<char>>)
    ensures
        domain_lines(lines) == lines.map_values(|line: Seq<char>| trimmed(line)).filter(
            |t: Seq<char>| t.len() > 0 && t[0] != '#',
        ),
    decreases lines.len(),
{
    reveal(Seq::filter);
    let f = |line: Seq<char>| trimmed(line);
    let all = lines.map_values(f);
    if lines.len() > 0 {
        comments_are_left_out(lines.drop_last());
        assert(all.drop_last() =~= lines.drop_last().map_values(f));
        assert(all.last() == trimmed(lines.last()));
    } else {
        assert(all =~= Seq::<Seq<char>>::empty());
    }
}

/// A domain is asked for exactly if some line of the file is that domain, but for
/// white space around it, and it is neither empty nor a comment.
pub proof fn every_listed_domain_is_read(content: Seq<char>, x: Seq<char>)
    ensures
        domains_in(content).contains(x) <==> x.len() > 0 && x[0] != '#' && exists|i: int|
            0 <= i < pieces(content, '\n').len() && trimmed(#[trigger] pieces(content, '\n')[i]) == x,
        domains_in(content).no_duplicates(),
        domains_in(content) == first_occurrences(domain_lines(pieces(content, '\n'))),
{
    let lines = pieces(content, '\n');
    first_occurrences_are_distinct(domain_lines(lines));
    lines_give_domains(lines, x);
}

proof fn lines_give_domains(lines: Seq<Seq<char>>, x: Seq<char>)
    ensures
        domain_lines(lines).contains(x) <==> x.len() > 0 && x[0] != '#' && exists|i: int|
            0 <= i < lines.len() && trimmed(#[trigger] lines[i]) == x,
    decreases lines.len(),
{
    if lines.len() > 0 {
        let rest = lines.drop_last();
        let before = domain_lines(rest);
        let all = domain_lines(lines);
        lines_give_domains(rest, x);
        let last = trimmed(lines.last());
        assert(lines[lines.len() - 1] == lines.last());
        if all.contains(x) {
            let k = all.index_of(x);
            if k < before.len() {
                assert(before[k] == x);
                assert(before.contains(x));
                let i = choose|i: int| 0 <= i < rest.len() && trimmed(#[trigger] rest[i]) == x;
                assert(trimmed(lines[i]) == x);
            } else {
                assert(x == last);
            }
        }
        if x.len() > 0 && x[0] != '#' && exists|i: int| 0 <= i < lines.len() && trimmed(#[trigger] lines[i]) == x {
            let i = choose|i: int| 0 <= i < lines.len() && trimmed(#[trigger] lines[i]) == x;
            if i < rest.len() {
                assert(trimmed(rest[i]) == x);
                let k = before.index_of(x);
                assert(before.contains(x));
                assert(all[k] == x);
            } else {
                assert(all[all.len() - 1] == x);
            }
        }
    }
}

/// A file gives its domains exactly if it can be read and holds any.
pub proof fn files_give_their_domains(content: Option<Seq<char>>)
    ensures
        content is None ==> domains_read(content) is None,
        content matches Some(c) ==> (domains_read(content) is Some <==> domains_in(c).len() > 0),
        content matches Some(c) ==> (domains_read(content) matches Some(list) ==> list == domains_in(c)),
{
}

/// The domains that are built in, in their order.
pub proof fn builtin_domains_are_these()
    ensures
        builtin_list() == seq![
            "www.baidu.com"@,
            "www.qq.com"@,
            "www.taobao.com"@,
            "www.jd.com"@,
            "www.bilibili.com"@,
            "www.zhihu.com"@,
            "www.aliyun.com"@,
            "www.163.com"@,
            "www.sina.com.cn"@,
            "juejin.cn"@,
            "www.cnblogs.com"@,
            "www.iqiyi.com"@,
            "www.google.com"@,
            "www.github.com"@,
            "www.cloudflare.com"@,
            "www.microsoft.com"@,
            "www.apple.com"@,
            "www.wikipedia.org"@,
            "www.amazon.com"@,
            "www.reddit.com"@,
            "cdn.jsdelivr.net"@,
            "cdnjs.cloudflare.com"@,
            "fonts.googleapis.com"@,
            "www.bing.com"@,
        ],
{
}

// ---------------------------------------------------------------------------
// The first piece of a text
// ---------------------------------------------------------------------------

/// The first piece of a text goes up to the first separator, or to the end where there is none.
pub proof fn first_pieces_end_at_the_separator(s: Seq<char>, sep: char) -> (k: int)
    ensures
        0 <= k <= s.len(),
        pieces(s, sep)[0] == s.take(k),
        forall|i: int| 0 <= i < k ==> s[i] != sep,
        k < s.len() ==> s[k] == sep,
        pieces(s, sep).len() == 1 <==> k == s.len(),
    decreases s.len(),
{
    if s.len() == 0 {
        assert(s.take(0) =~= Seq::<char>::empty());
        0
    } else {
        let t = s.drop_last();
        let k = first_pieces_end_at_the_separator(t, sep);
        pieces_nonempty(t, sep);
        assert forall|i: int| 0 <= i < k implies s[i] != sep by {
            assert(t[i] == s[i]);
        }
        if k < t.len() {
            assert(t.take(k) =~= s.take(k));
            k
        } else if s.last() == sep {
            assert(t.take(k) =~= s.take(k));
            k
        } else {
            assert(t.take(k).push(s.last()) =~= s.take(k + 1));
            k + 1
        }
    }
}

/// What follows the first separator is cut into the other pieces.
pub proof fn other_pieces_follow(a: Seq<char>, sep: char, b: Seq<char>)
    requires
        !a.contains(sep),
    ensures
        pieces(a.push(sep) + b, sep) == seq![a] + pieces(b, sep),
    decreases b.len(),
{
    let s = a.push(sep) + b;
    if b.len() == 0 {
        crate::scan::pieces_of_plain(a, sep);
        assert(s =~= a.push(sep));
        assert(s.drop_last() =~= a);
        assert(pieces(s, sep) =~= seq![a] + pieces(b, sep));
    } else {
        let c = b.drop_last();
        other_pieces_follow(a, sep, c);
        pieces_nonempty(c, sep);
        assert(s.drop_last() =~= a.push(sep) + c);
        assert(s.last() == b.last());
        assert(pieces(s, sep) =~= seq![a] + pieces(b, sep));
    }
}

// ---------------------------------------------------------------------------
// Servers of the access provider
// ---------------------------------------------------------------------------

/// A text adds an address exactly if, without white space around it and commas
/// behind it, it denotes one that is neither this machine's, nor none at all, nor found already.
pub proof fn addresses_are_noted_once(found: Seq<Ipv4Addr>, text: Seq<char>, ip: Ipv4Addr)
    ensures
        ({
            let t = without_trailing(trimmed(text), ',');
            let good = ip.a != 127 && !(ip.a == 0 && ip.b == 0 && ip.c == 0 && ip.d == 0) && !found.contains(ip);
            &&& ipv4_denoted(t) == Some(ip) && good ==> noted(found, text) == found.push(ip)
            &&& ipv4_denoted(t) == Some(ip) && !good ==> noted(found, text) == found
            &&& ipv4_denoted(t) is None ==> noted(found, text) == found
        }),
{
}

/// Texts and lines are taken in one after the other.
pub proof fn everything_is_taken_in(
    found: Seq<Ipv4Addr>,
    parts: Seq<Seq<char>>,
    part: Seq<char>,
    lines: Seq<Seq<char>>,
    line: Seq<char>,
)
    ensures
        all_noted(found, Seq::empty()) == found,
        all_noted(found, parts.push(part)) == noted(all_noted(found, parts), part),
        dhcp_found(Seq::empty()).len() == 0,
        dhcp_found(lines.push(line)) == all_noted(dhcp_found(lines), dhcp_parts(line)),
        resolvers_found(Seq::empty()).len() == 0,
        resolvers_found(lines.push(line)) == all_noted(resolvers_found(lines), resolver_parts(line)),
        packet_found(None).len() == 0,
        packet_found(Some(line)) == dhcp_found(pieces(line, '\n')),
{
    assert(parts.push(part).drop_last() =~= parts);
    assert(lines.push(line).drop_last() =~= lines);
}

/// On a line of a DHCP packet that speaks of name servers, what stands in the first
/// braces is listed, cut at its commas.
pub proof fn servers_stand_in_braces(before: Seq<char>, inner: Seq<char>, rest: Seq<char>)
    requires
        !before.contains('{'),
        !inner.contains('{'),
        !inner.contains('}'),
        rest.len() > 0 ==> rest[0] == '}',
    ensures
        ({
            let line = before + seq!['{'] + inner + rest;
            &&& contains_text(line, "domain_name_server"@) ==> dhcp_parts(line) == pieces(inner, ',')
            &&& !contains_text(line, "domain_name_server"@) ==> dhcp_parts(line).len() == 0
        }),
{
    let line = before + seq!['{'] + inner + rest;
    let b = inner + rest;
    assert(line =~= before.push('{') + b);
    other_pieces_follow(before, '{', b);
    pieces_nonempty(b, '{');
    let k = first_pieces_end_at_the_separator(b, '{');
    let q = b.take(k);
    assert(pieces(line, '{')[1] == q);
    assert(k >= inner.len()) by {
        if k < inner.len() {
            assert(b[k] == inner[k]);
            assert(inner.contains('{'));
        }
    }
    assert(k > inner.len() || rest.len() == 0) by {
        if k == inner.len() && rest.len() > 0 {
            assert(b[k] == rest[0]);
        }
    }
    let m = first_pieces_end_at_the_separator(q, '}');
    assert(m >= inner.len()) by {
        if m < inner.len() {
            assert(q[m] == inner[m]);
            assert(inner.contains('}'));
        }
    }
    assert(m == inner.len()) by {
        if m > inner.len() {
            assert(q[inner.len() as int] == rest[0]);
        }
    }
    assert(q.take(m) =~= inner);
}

/// A line of a DHCP packet without braces lists nothing.
pub proof fn nothing_stands_outside_braces(line: Seq<char>)
    requires
        !line.contains('{'),
    ensures
        dhcp_parts(line).len() == 0,
{
    crate::scan::pieces_of_plain(line, '{');
}

/// A line of a list of resolvers names what follows the first colon behind the
/// word for it and an open bracket.
pub proof fn resolvers_stand_behind_a_colon(line: Seq<char>, index: Seq<char>, value: Seq<char>)
    requires
        trimmed(line) == "nameserver["@ + index + seq![':'] + value,
        !index.contains(':'),
    ensures
        resolver_parts(line) == seq![value],
{
    reveal_strlit(":");
    reveal_strlit("nameserver[");
    let word = "nameserver["@;
    let t = trimmed(line);
    assert(":"@ =~= seq![':']);
    let rest = t.skip(word.len() as int);
    assert(rest =~= index + ":"@ + value);
    assert(t =~= word + rest);
    beginning_is_being_continued(word, t);
    holding_is_having_as_a_part(index, ":"@, value);
    let parts = what_is_held_is_a_part(rest, ":"@);
    assert(parts.0.len() <= index.len());
    let n = parts.0.len() as int;
    assert(rest[n] == ':') by {
        assert((parts.0 + ":"@ + parts.1)[n] == ':');
    }
    if n < index.len() {
        assert(index[n] == rest[n]);
        assert(index.contains(':'));
    }
    assert(rest.skip(n + 1) =~= value);
}

/// Any other line of a list of resolvers names nothing.
pub proof fn other_lines_name_no_resolver(line: Seq<char>)
    requires
        !begins_with(trimmed(line), "nameserver["@) || !trimmed(line).skip(11).contains(':'),
    ensures
        resolver_parts(line).len() == 0,
{
    reveal_strlit(":");
    reveal_strlit("nameserver[");
    let rest = trimmed(line).skip(11);
    if contains_text(rest, ":"@) {
        let parts = what_is_held_is_a_part(rest, ":"@);
        let n = parts.0.len() as int;
        assert((parts.0 + ":"@ + parts.1)[n] == ':');
        assert(rest[n] == ':');
    }
}

/// The interface is what follows its mark, without white space around it, on the
/// first line that begins with the mark.
pub proof fn the_first_interface_is_taken(skipped: Seq<Seq<char>>, line: Seq<char>, name: Seq<char>, rest: Seq<Seq<char>>)
    requires
        forall|i: int| 0 <= i < skipped.len() ==> !begins_with(trimmed(#[trigger] skipped[i]), "interface:"@),
        trimmed(line) == "interface:"@ + name,
    ensures
        interface_found(skipped + seq![line] + rest) == Some(trimmed(name)),
        interface_found(skipped) is None,
    decreases skipped.len(),
{
    let all = skipped + seq![line] + rest;
    if skipped.len() == 0 {
        let mark = "interface:"@;
        let t = trimmed(line);
        assert(t.skip(mark.len() as int) =~= name);
        assert(t =~= mark + t.skip(mark.len() as int));
        beginning_is_being_continued(mark, t);
        assert(all[0] == line);
    } else {
        assert(!begins_with(trimmed(skipped[0]), "interface:"@));
        let next = skipped.drop_first();
        assert forall|i: int| 0 <= i < next.len() implies !begins_with(trimmed(#[trigger] next[i]), "interface:"@) by {
            assert(next[i] == skipped[i + 1]);
        }
        assert(all.drop_first() =~= next + seq![line] + rest);
        the_first_interface_is_taken(next, line, name, rest);
    }
}

/// Of a list, every part that denotes an address without white space around it
/// gives that address, in order, and every other part gives nothing.
pub proof fn listed_addresses_are_kept(parts: Seq<Seq<char>>, part: Seq<char>)
    ensures
        addresses_among(Seq::empty()).len() == 0,
        ipv4_denoted(trimmed(part)) matches Some(ip) ==> addresses_among(parts.push(part)) == addresses_among(
            parts,
        ).push(ip),
        ipv4_denoted(trimmed(part)) is None ==> addresses_among(parts.push(part)) == addresses_among(parts),
{
    assert(parts.push(part).drop_last() =~= parts);
}

/// Servers are called the provider's own unless they were found and all of them
/// are private; one that is not is enough.
pub proof fn routers_are_told_apart(ips: Seq<Ipv4Addr>, i: int)
    ensures
        isp_label(ips, true) == "运营商 DNS(手动填写)"@,
        0 <= i < ips.len() && !ips[i].in_private_block() ==> !all_private(ips) && isp_label(ips, false)
            == "运营商 DNS(自动)"@,
        (forall|k: int| 0 <= k < ips.len() ==> (#[trigger] ips[k]).in_private_block()) ==> all_private(ips)
            && isp_label(ips, false) == "运营商/网关 DNS(自动)"@,
{
}

/// Addresses are written out one by one, in their order.
pub proof fn addresses_are_written_out(ips: Seq<Ipv4Addr>, i: int)
    requires
        0 <= i < ips.len(),
    ensures
        address_texts(ips).len() == ips.len(),
        address_texts(ips)[i] == ips[i].text(),
{
}

} // verus!
