//! Whether a server is honest about names that do not exist.

use vstd::prelude::*;

use crate::addr::Ipv4Addr;
use crate::isp::{address_texts, texts_of};
use crate::number::{count_text, decimal, decimal_text, hex, hex8};
use crate::scan::{is_listed, join, joined, pieces, split, trim, trim_start_matches, trimmed, without_leading};
use crate::text::{pad_to, padded, text_in, texts, truncate, truncated};
use crate::trial::Outcome;

verus! {

/// How often each name is tried. Forgery comes and goes, and one query may miss it.
pub const TRIES: usize = 3;

/// The response code for a name that does not exist.
pub const NXDOMAIN: u8 = 3;

// ---------------------------------------------------------------------------
// Model
// ---------------------------------------------------------------------------

/// What the tries so far have shown.
#[derive(Debug)]
pub struct Findings {
    pub tries: usize,
    /// Tries that were told that the name does not exist.
    pub nxdomain: usize,
    /// Tries that were told anything else.
    pub bad: usize,
    /// The addresses that came, each once.
    pub ips: Vec<String>,
    /// The first thing that went wrong, but for addresses.
    pub first_problem: Option<String>,
}

/// What [`Findings`] hold.
#[verifier::ext_equal]
pub struct FindingsView {
    pub tries: nat,
    pub nxdomain: nat,
    pub bad: nat,
    pub ips: Seq<Seq<char>>,
    pub first_problem: Option<Seq<char>>,
}

impl View for Findings {
    type V = FindingsView;

    open spec fn view(&self) -> FindingsView {
        FindingsView {
            tries: self.tries as nat,
            nxdomain: self.nxdomain as nat,
            bad: self.bad as nat,
            ips: texts(self.ips@),
            first_problem: text_in(self.first_problem),
        }
    }
}

/// How a server comes off.
pub enum Rating {
    /// It answered for a name that does not exist.
    Dishonest,
    /// It always said that the name does not exist.
    Clean,
    /// It said so at least once, and nothing else.
    MostlyClean,
    /// It never said anything.
    Silent,
}

/// `list` with those of `more` added that are not in it yet.
pub open spec fn with_new(list: Seq<Seq<char>>, more: Seq<Seq<char>>) -> Seq<Seq<char>>
    decreases more.len(),
{
    if more.len() == 0 {
        list
    } else {
        let before = with_new(list, more.drop_last());
        if before.contains(more.last()) {
            before
        } else {
            before.push(more.last())
        }
    }
}

impl FindingsView {
    /// Before any try.
    pub open spec fn none() -> FindingsView {
        FindingsView { tries: 0, nxdomain: 0, bad: 0, ips: Seq::empty(), first_problem: None }
    }

    /// With a problem noted, unless there is one already.
    pub open spec fn noting(self, problem: Seq<char>) -> FindingsView {
        match self.first_problem {
            Some(_) => self,
            None => FindingsView { first_problem: Some(problem), ..self },
        }
    }

    /// After one more try.
    pub open spec fn after(self, outcome: Outcome) -> FindingsView {
        let counted = FindingsView { tries: self.tries + 1, ..self };
        match outcome {
            Outcome::TimedOut => counted.noting("超时"@),
            Outcome::Failed(e) => counted.noting(e.summary_text()),
            Outcome::Answered(rcode, ips) => if rcode == NXDOMAIN {
                FindingsView { nxdomain: self.nxdomain + 1, ..counted }
            } else {
                let worse = FindingsView { bad: self.bad + 1, ..counted };
                if rcode != 0 {
                    worse.noting("rcode="@ + decimal(rcode as nat))
                } else if ips@.len() == 0 {
                    worse.noting("NOERROR 但无 A 记录"@)
                } else {
                    FindingsView { ips: with_new(self.ips, address_texts(ips@)), ..worse }
                }
            },
        }
    }

    /// How the server comes off after all tries.
    pub open spec fn rating(self) -> Rating {
        if self.bad > 0 {
            Rating::Dishonest
        } else if self.nxdomain == TRIES {
            Rating::Clean
        } else if self.nxdomain > 0 {
            Rating::MostlyClean
        } else {
            Rating::Silent
        }
    }

    /// The first problem, or nothing.
    pub open spec fn problem_text(self) -> Seq<char> {
        match self.first_problem {
            Some(p) => p,
            None => Seq::empty(),
        }
    }

    /// The verdict in words.
    pub open spec fn verdict_text(self) -> Seq<char> {
        match self.rating() {
            Rating::Dishonest => if self.ips.len() == 0 {
                "⚠️ "@ + decimal(self.bad) + "/"@ + decimal(TRIES as nat) + " 次不老实："@
                    + self.problem_text()
            } else {
                "⚠️ "@ + decimal(self.bad) + "/"@ + decimal(TRIES as nat) + " 次塞了 A 记录："@ + joined(
                    self.ips,
                    ", "@,
                ) + "（疑似污染/拦截）"@
            },
            Rating::Clean => "✅ 全部 NXDOMAIN（干净）"@,
            Rating::MostlyClean => "✅ "@ + decimal(self.nxdomain) + "/"@ + decimal(TRIES as nat)
                + " 次 NXDOMAIN，其余异常："@ + self.problem_text(),
            Rating::Silent => "❌ 全部查不通："@ + self.problem_text(),
        }
    }
}

/// The findings after a row of outcomes.
pub open spec fn findings_after(outcomes: Seq<Outcome>) -> FindingsView
    decreases outcomes.len(),
{
    if outcomes.len() == 0 {
        FindingsView::none()
    } else {
        findings_after(outcomes.drop_last()).after(outcomes.last())
    }
}

/// The domains in a list with commas between them, without white space and leading dots; empty ones are left out.
pub open spec fn bases_among(parts: Seq<Seq<char>>) -> Seq<Seq<char>>
    decreases parts.len(),
{
    if parts.len() == 0 {
        Seq::empty()
    } else {
        let before = bases_among(parts.drop_last());
        let base = without_leading(trimmed(parts.last()), '.');
        if base.len() > 0 {
            before.push(base)
        } else {
            before
        }
    }
}

/// A name under `base` that nobody has registered.
pub open spec fn probe_name_text(base: Seq<char>, n: u32) -> Seq<char> {
    "nxd-check-"@ + hex(n as nat, 8) + "."@ + base
}

// ---------------------------------------------------------------------------
// Functions
// ---------------------------------------------------------------------------

/// The domains to check under.
pub fn bases_in(list: &str) -> (r: Vec<String>)
    ensures
        texts(r@) == bases_among(pieces(list@, ',')),
{
    let parts = split(list, ',');
    let ghost all = pieces(list@, ',');
    let mut out: Vec<String> = Vec::new();
    let mut i: usize = 0;
    assert(texts(out@) =~= bases_among(all.take(0)));
    while i < parts.len()
        invariant
            i <= parts@.len(),
            all == texts(parts@),
            texts(out@) == bases_among(all.take(i as int)),
        decreases parts@.len() - i,
    {
        assert(all.take(i + 1).drop_last() =~= all.take(i as int));
        assert(all.take(i + 1).last() == parts@[i as int]@);
        let base = trim_start_matches(trim(parts[i].as_str()).as_str(), '.');
        if !base.as_str().is_empty() {
            let ghost done = texts(out@);
            let ghost added = base@;
            out.push(base);
            assert(texts(out@) =~= done.push(added));
        }
        i += 1;
    }
    assert(all.take(all.len() as int) =~= all);
    out
}

/// Calls `rand::random` for a `u32`. Nothing is promised of the number.
#[verifier::external_body]
fn random_number() -> (r: u32) {
    rand::random::<u32>()
}

/// The name under `base` that belongs to a number.
pub fn probe_name(base: &str, n: u32) -> (r: String)
    ensures
        r@ == probe_name_text(base@, n),
{
    let mut out: String = "nxd-check-".to_owned();
    out.append(hex8(n).as_str());
    out.append(".");
    out.append(base);
    out
}

/// A random name under `base`.
pub fn fresh_probe_name(base: &str) -> (r: String)
    ensures
        exists|n: u32| r@ == #[trigger] probe_name_text(base@, n),
{
    let n: u32 = random_number();
    probe_name(base, n)
}

impl Findings {
    /// Each try was counted once at most.
    pub open spec fn wf(self) -> bool {
        self.nxdomain + self.bad <= self.tries <= TRIES
    }

    /// Before any try.
    pub fn new() -> (r: Findings)
        ensures
            r.wf(),
            r@ == FindingsView::none(),
    {
        let r = Findings { tries: 0, nxdomain: 0, bad: 0, ips: Vec::new(), first_problem: None };
        assert(r@ =~= FindingsView::none());
        r
    }

    /// Notes a problem, unless there is one already.
    fn note(&mut self, problem: String)
        ensures
            final(self)@ == old(self)@.noting(problem@),
            old(self).wf() ==> final(self).wf(),
    {
        if self.first_problem.is_none() {
            self.first_problem = Some(problem);
        }
    }

    /// Notes addresses, each once.
    fn note_ips(&mut self, ips: &Vec<Ipv4Addr>)
        ensures
            final(self)@ == (FindingsView { ips: with_new(old(self)@.ips, address_texts(ips@)), ..old(self)@ }),
            old(self).wf() ==> final(self).wf(),
    {
        let more = texts_of(ips);
        let ghost all = address_texts(ips@);
        let mut i: usize = 0;
        while i < more.len()
            invariant
                i <= more@.len(),
                all == texts(more@),
                self.tries == old(self).tries,
                self.nxdomain == old(self).nxdomain,
                self.bad == old(self).bad,
                self.first_problem == old(self).first_problem,
                texts(self.ips@) == with_new(texts(old(self).ips@), all.take(i as int)),
            decreases more@.len() - i,
        {
            assert(all.take(i + 1).drop_last() =~= all.take(i as int));
            assert(all.take(i + 1).last() == more@[i as int]@);
            if !is_listed(&self.ips, more[i].as_str()) {
                let text = more[i].clone();
                let ghost done = texts(self.ips@);
                let ghost added = text@;
                self.ips.push(text);
                assert(texts(self.ips@) =~= done.push(added));
            }
            i += 1;
        }
        assert(all.take(all.len() as int) =~= all);
    }

    /// Takes in the outcome of one try.
    pub fn take_in(&mut self, outcome: &Outcome)
        requires
            old(self).wf(),
            old(self).tries < TRIES,
        ensures
            final(self).wf(),
            final(self)@ == old(self)@.after(*outcome),
    {
        self.tries += 1;
        match outcome {
            Outcome::TimedOut => self.note("超时".to_owned()),
            Outcome::Failed(e) => self.note(e.summary()),
            Outcome::Answered(rcode, ips) => {
                if *rcode == NXDOMAIN {
                    self.nxdomain += 1;
                } else {
                    self.bad += 1;
                    if *rcode != 0 {
                        let mut problem: String = "rcode=".to_owned();
                        problem.append(decimal_text(*rcode as u64).as_str());
                        self.note(problem);
                    } else if ips.len() == 0 {
                        self.note("NOERROR 但无 A 记录".to_owned());
                    } else {
                        self.note_ips(ips);
                    }
                }
            },
        }
    }

    /// The first problem, or nothing.
    fn problem(&self) -> (r: String)
        ensures
            r@ == self@.problem_text(),
    {
        match &self.first_problem {
            Some(p) => p.clone(),
            None => String::new(),
        }
    }

    /// The verdict in words.
    pub fn verdict(&self) -> (r: String)
        requires
            self.wf(),
        ensures
            r@ == self@.verdict_text(),
    {
        if self.bad > 0 {
            let mut out: String = "⚠️ ".to_owned();
            out.append(count_text(self.bad).as_str());
            out.append("/");
            out.append(count_text(TRIES).as_str());
            if self.ips.len() == 0 {
                out.append(" 次不老实：");
                out.append(self.problem().as_str());
            } else {
                out.append(" 次塞了 A 记录：");
                out.append(join(&self.ips, ", ").as_str());
                out.append("（疑似污染/拦截）");
            }
            out
        } else if self.nxdomain == TRIES {
            "✅ 全部 NXDOMAIN（干净）".to_owned()
        } else if self.nxdomain > 0 {
            let mut out: String = "✅ ".to_owned();
            out.append(count_text(self.nxdomain).as_str());
            out.append("/");
            out.append(count_text(TRIES).as_str());
            out.append(" 次 NXDOMAIN，其余异常：");
            out.append(self.problem().as_str());
            out
        } else {
            let mut out: String = "❌ 全部查不通：".to_owned();
            out.append(self.problem().as_str());
            out
        }
    }
}

/// The line on one provider and one domain.
pub fn verdict_line(provider: &str, base: &str, verdict: &str) -> (r: String)
    ensures
        r@ == "  "@ + padded(provider@, 30) + " "@ + padded(base@, 14) + " "@ + verdict@,
{
    let mut out: String = "  ".to_owned();
    out.append(pad_to(provider, 30).as_str());
    out.append(" ");
    out.append(pad_to(base, 14).as_str());
    out.append(" ");
    out.append(verdict);
    out
}

/// The line on a provider that cannot be asked at all.
pub fn unreachable_line(provider: &str, summary: &str) -> (r: String)
    ensures
        r@ == "  "@ + padded(provider@, 30) + " 初始化失败："@ + truncated(summary@, 60),
{
    let mut out: String = "  ".to_owned();
    out.append(pad_to(provider, 30).as_str());
    out.append(" 初始化失败：");
    out.append(truncate(summary, 60).as_str());
    out
}

/// The line on the domains that are checked under.
pub fn bases_line(bases: &Vec<String>) -> (r: String)
    ensures
        r@ == "基准域名："@ + joined(texts(bases@), ", "@) + "（--nxdomain-base 可换；每个查 "@ + decimal(
            TRIES as nat,
        ) + " 次）"@,
{
    let mut out: String = "基准域名：".to_owned();
    out.append(join(bases, ", ").as_str());
    out.append("（--nxdomain-base 可换；每个查 ");
    out.append(count_text(TRIES).as_str());
    out.append(" 次）");
    out
}

// ---------------------------------------------------------------------------
// Laws
// ---------------------------------------------------------------------------

/// Whether an outcome is a response that does not say that the name does not exist.
pub open spec fn is_dishonest(outcome: Outcome) -> bool {
    outcome matches Outcome::Answered(rcode, _) && rcode != NXDOMAIN
}

/// Whether an outcome is a response that says that the name does not exist.
pub open spec fn is_denial(outcome: Outcome) -> bool {
    outcome matches Outcome::Answered(rcode, _) && rcode == NXDOMAIN
}

proof fn counts_are_right(outcomes: Seq<Outcome>)
    ensures
        findings_after(outcomes).tries == outcomes.len(),
        findings_after(outcomes).nxdomain + findings_after(outcomes).bad <= outcomes.len(),
        findings_after(outcomes).bad > 0 <==> exists|i: int|
            0 <= i < outcomes.len() && is_dishonest(#[trigger] outcomes[i]),
        findings_after(outcomes).nxdomain > 0 <==> exists|i: int|
            0 <= i < outcomes.len() && is_denial(#[trigger] outcomes[i]),
        findings_after(outcomes).nxdomain == outcomes.len() <==> forall|i: int|
            0 <= i < outcomes.len() ==> is_denial(#[trigger] outcomes[i]),
    decreases outcomes.len(),
{
    if outcomes.len() > 0 {
        let rest = outcomes.drop_last();
        let before = findings_after(rest);
        counts_are_right(rest);
        if before.bad > 0 {
            let i = choose|i: int| 0 <= i < rest.len() && is_dishonest(#[trigger] rest[i]);
            assert(is_dishonest(outcomes[i]));
        }
        if before.nxdomain > 0 {
            let i = choose|i: int| 0 <= i < rest.len() && is_denial(#[trigger] rest[i]);
            assert(is_denial(outcomes[i]));
        }
        if is_dishonest(outcomes.last()) {
            assert(is_dishonest(outcomes[outcomes.len() - 1]));
        }
        if is_denial(outcomes.last()) {
            assert(is_denial(outcomes[outcomes.len() - 1]));
        }
        assert forall|i: int| 0 <= i < rest.len() implies rest[i] == #[trigger] outcomes[i] by {}
        if forall|i: int| 0 <= i < outcomes.len() ==> is_denial(#[trigger] outcomes[i]) {
            assert forall|i: int| 0 <= i < rest.len() implies is_denial(#[trigger] rest[i]) by {
                assert(is_denial(outcomes[i]));
            }
        }
        if findings_after(outcomes).nxdomain == outcomes.len() {
            assert forall|i: int| 0 <= i < outcomes.len() implies is_denial(#[trigger] outcomes[i]) by {
                if i < rest.len() {
                    assert(is_denial(rest[i]));
                }
            }
        }
    }
}

/// A server is called dishonest exactly if it answered once for a name that does
/// not exist, clean exactly if it always denied the name, and it gets no tick
/// unless it denied the name at least once.
pub proof fn ratings_are_earned(outcomes: Seq<Outcome>)
    requires
        outcomes.len() == TRIES,
    ensures
        findings_after(outcomes).rating() is Dishonest <==> exists|i: int|
            0 <= i < outcomes.len() && is_dishonest(#[trigger] outcomes[i]),
        findings_after(outcomes).rating() is Clean <==> forall|i: int|
            0 <= i < outcomes.len() ==> is_denial(#[trigger] outcomes[i]),
        findings_after(outcomes).rating() is MostlyClean ==> exists|i: int|
            0 <= i < outcomes.len() && is_denial(#[trigger] outcomes[i]),
        findings_after(outcomes).rating() is Silent ==> forall|i: int|
            0 <= i < outcomes.len() ==> !((#[trigger] outcomes[i]) is Answered),
{
    counts_are_right(outcomes);
    let f = findings_after(outcomes);
    if f.rating() is Silent {
        assert forall|i: int| 0 <= i < outcomes.len() implies !((#[trigger] outcomes[i]) is Answered) by {
            assert(!is_dishonest(outcomes[i]));
            assert(!is_denial(outcomes[i]));
        }
    }
}

} // verus!
