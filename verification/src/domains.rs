//! The list of domains that queries ask for.

use vstd::prelude::*;

use crate::scan::{first_occurrences, first_occurrences_are_distinct, is_listed, pieces, split, trim, trimmed};
use crate::text::{text_in, texts};

verus! {

// ---------------------------------------------------------------------------
// Model
// ---------------------------------------------------------------------------

/// Whether a line, without white space at its ends, names a domain: it is neither empty nor a comment.
pub open spec fn is_domain(line: Seq<char>) -> bool {
    line.len() > 0 && line[0] != '#'
}

/// The lines that name a domain, without white space at their ends.
pub open spec fn domain_lines(lines: Seq<Seq<char>>) -> Seq<Seq<char>>
    decreases lines.len(),
{
    if lines.len() == 0 {
        Seq::empty()
    } else if is_domain(trimmed(lines.last())) {
        domain_lines(lines.drop_last()).push(trimmed(lines.last()))
    } else {
        domain_lines(lines.drop_last())
    }
}

/// The domains in a file, each once, in order.
pub open spec fn domains_in(content: Seq<char>) -> Seq<Seq<char>> {
    first_occurrences(domain_lines(pieces(content, '\n')))
}

/// The domains in a file that can be read and holds any.
pub open spec fn domains_read(content: Option<Seq<char>>) -> Option<Seq<Seq<char>>> {
    match content {
        Some(c) => if domains_in(c).len() > 0 {
            Some(domains_in(c))
        } else {
            None
        },
        None => None,
    }
}

/// The domains where no file can be had.
pub open spec fn builtin_list() -> Seq<Seq<char>> {
    seq![
        "www.baidu.com"@,
        "www.qq.com"@,
        "www.taobao.com"@,
        "www.jd.com"@,
        "www.bilibili.com"@,
        "www.zhihu.com"@,
        "www.aliyun.com"@,
        "www.163.com"@,
        "www.sina.com.cn"@,
        "juejin.cn"@,
        "www.cnblogs.com"@,
        "www.iqiyi.com"@,
        "www.google.com"@,
        "www.github.com"@,
        "www.cloudflare.com"@,
        "www.microsoft.com"@,
        "www.apple.com"@,
        "www.wikipedia.org"@,
        "www.amazon.com"@,
        "www.reddit.com"@,
        "cdn.jsdelivr.net"@,
        "cdnjs.cloudflare.com"@,
        "fonts.googleapis.com"@,
        "www.bing.com"@,
    ]
}

// ---------------------------------------------------------------------------
// Functions
// ---------------------------------------------------------------------------

/// What to do for a list of domains.
#[derive(Debug)]
pub enum Loading {
    /// The domains, and where they come from.
    Loaded(Vec<String>, String),
    /// A file was named, and cannot be used.
    Refused,
    /// No file was named, and the usual one cannot be used; another may be tried.
    Missing,
}

/// The domains where no file can be had.
pub fn builtin_domains() -> (r: Vec<String>)
    ensures
        texts(r@) == builtin_list(),
{
    let r: Vec<String> = vec![
        "www.baidu.com".to_owned(),
        "www.qq.com".to_owned(),
        "www.taobao.com".to_owned(),
        "www.jd.com".to_owned(),
        "www.bilibili.com".to_owned(),
        "www.zhihu.com".to_owned(),
        "www.aliyun.com".to_owned(),
        "www.163.com".to_owned(),
        "www.sina.com.cn".to_owned(),
        "juejin.cn".to_owned(),
        "www.cnblogs.com".to_owned(),
        "www.iqiyi.com".to_owned(),
        "www.google.com".to_owned(),
        "www.github.com".to_owned(),
        "www.cloudflare.com".to_owned(),
        "www.microsoft.com".to_owned(),
        "www.apple.com".to_owned(),
        "www.wikipedia.org".to_owned(),
        "www.amazon.com".to_owned(),
        "www.reddit.com".to_owned(),
        "cdn.jsdelivr.net".to_owned(),
        "cdnjs.cloudflare.com".to_owned(),
        "fonts.googleapis.com".to_owned(),
        "www.bing.com".to_owned(),
    ];
    assert(texts(r@) =~= builtin_list());
    r
}

/// Whether a line, without white space at its ends, names a domain.
fn names_domain(line: &str) -> (r: bool)
    ensures
        r == is_domain(line@),
{
    for c in it: line.chars()
        invariant
            it.seq() == line@,
            it.index() == 0,
    {
        return c != '#';
    }
    false
}

/// The domains in the content of a file, or none if it could not be read or holds none.
pub fn try_read_domains(content: &Option<String>) -> (r: Option<Vec<String>>)
    ensures
        match r {
            Some(domains) => domains_read(text_in(*content)) == Some(texts(domains@)),
            None => domains_read(text_in(*content)) is None,
        },
{
    let text = match content {
        Some(c) => c,
        None => {
            return None;
        },
    };
    let lines = split(text.as_str(), '\n');
    let ghost all = pieces(text@, '\n');
    let mut out: Vec<String> = Vec::new();
    let mut i: usize = 0;
    assert(texts(out@) =~= first_occurrences(domain_lines(all.take(0))));
    while i < lines.len()
        invariant
            i <= lines@.len(),
            all == texts(lines@),
            texts(out@) == first_occurrences(domain_lines(all.take(i as int))),
        decreases lines@.len() - i,
    {
        let ghost before = domain_lines(all.take(i as int));
        assert(all.take(i + 1).drop_last() =~= all.take(i as int));
        assert(all.take(i + 1).last() == lines@[i as int]@);
        let line = trim(lines[i].as_str());
        if names_domain(line.as_str()) {
            assert(before.push(line@).drop_last() =~= before);
            if !is_listed(&out, line.as_str()) {
                let ghost done = texts(out@);
                let ghost added = line@;
                out.push(line);
                assert(texts(out@) =~= done.push(added));
            }
        }
        i += 1;
    }
    assert(all.take(all.len() as int) =~= all);
    if out.len() == 0 {
        None
    } else {
        Some(out)
    }
}

/// The domains from the file at `path`, given its content if it could be read.
/// A file that was named is never replaced by another.
pub fn load_domains(path: &str, explicit: bool, content: &Option<String>) -> (r: Loading)
    ensures
        match r {
            Loading::Loaded(domains, source) => domains_read(text_in(*content)) == Some(texts(domains@))
                && source@ == path@,
            Loading::Refused => domains_read(text_in(*content)) is None && explicit,
            Loading::Missing => domains_read(text_in(*content)) is None && !explicit,
        },
{
    match try_read_domains(content) {
        Some(domains) => Loading::Loaded(domains, path.to_owned()),
        None => {
            if explicit {
                Loading::Refused
            } else {
                Loading::Missing
            }
        },
    }
}

/// The domains where the usual file is missing: from the file at `place`, given
/// its content if it could be read, or else those built in; and where they come from.
pub fn load_fallback(place: &str, content: &Option<String>) -> (r: (Vec<String>, String))
    ensures
        match domains_read(text_in(*content)) {
            Some(domains) => texts(r.0@) == domains && r.1@ == place@ + "（自动回退）"@,
            None => texts(r.0@) == builtin_list() && r.1@ == "内置列表"@,
        },
        r.0@.len() > 0,
{
    match try_read_domains(content) {
        Some(domains) => {
            let mut source: String = place.to_owned();
            source.append("（自动回退）");
            assert(texts(domains@).len() > 0);
            (domains, source)
        },
        None => {
            let domains = builtin_domains();
            assert(texts(domains@).len() > 0);
            (domains, "内置列表".to_owned())
        },
    }
}

// ---------------------------------------------------------------------------
// Laws
// ---------------------------------------------------------------------------

proof fn lines_are_domains(lines: Seq<Seq<char>>)
    ensures
        forall|i: int| 0 <= i < domain_lines(lines).len() ==> is_domain(#[trigger] domain_lines(lines)[i]),
    decreases lines.len(),
{
    if lines.len() > 0 {
        let before = domain_lines(lines.drop_last());
        lines_are_domains(lines.drop_last());
        assert forall|i: int| 0 <= i < domain_lines(lines).len() implies is_domain(
            #[trigger] domain_lines(lines)[i],
        ) by {
            if i < before.len() {
                assert(is_domain(before[i]));
            }
        }
    }
}

/// What is read from a file is a list of domains that is not empty, without comments, empty lines and repetitions.
pub proof fn domains_are_clean(content: Option<Seq<char>>)
    requires
        domains_read(content) is Some,
    ensures
        domains_read(content)->0.len() > 0,
        domains_read(content)->0.no_duplicates(),
        forall|i: int|
            0 <= i < domains_read(content)->0.len() ==> is_domain(#[trigger] domains_read(content)->0[i]),
{
    let lines = pieces(content->0, '\n');
    let kept = domain_lines(lines);
    let all = domains_in(content->0);
    first_occurrences_are_distinct(kept);
    lines_are_domains(lines);
    assert forall|i: int| 0 <= i < all.len() implies is_domain(#[trigger] all[i]) by {
        assert(first_occurrences(kept).contains(all[i]));
        assert(kept.contains(all[i]));
        let k = kept.index_of(all[i]);
        assert(is_domain(kept[k]));
    }
}

} // verus!
