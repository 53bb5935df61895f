//! The course of the queries to one target: warming up, then timed queries one
//! at a time, until all are done or the target is given up.

use vstd::prelude::*;

use crate::addr::Ipv4Addr;
use crate::error::BenchError;
use crate::proto::Proto;
use crate::report::{Report, EARLY_ABORT_AFTER};
use crate::tally::{count_within_total, with_one_more};
use crate::text::{text_in, truncate, truncated};

verus! {

/// How many queries are made, and from how many domains they take turns.
#[derive(Clone, Copy)]
pub struct Plan {
    /// Queries that are made first and not timed.
    pub warmup: usize,
    /// Queries that are timed.
    pub rounds: usize,
    /// Domains to ask for, over and over in the same order.
    pub domains: usize,
}

/// What became of one query.
pub enum Outcome {
    TimedOut,
    Failed(BenchError),
    /// A response code, and the addresses that came with it.
    Answered(u8, Vec<Ipv4Addr>),
}

/// What to do next: the query's number within its phase, counted from zero, and the domain to ask for.
#[derive(Debug, Clone, Copy, PartialEq, Eq, Structural)]
pub enum Step {
    Warmup(usize, usize),
    Query(usize, usize),
    Done,
}

/// The queries to one target, in progress.
pub struct Trial {
    pub plan: Plan,
    /// Queries made so far without timing them.
    pub warmed: usize,
    /// Queries timed so far.
    pub asked: usize,
    /// Timed queries that have failed since the last one that got a response.
    pub failures: usize,
    pub report: Report,
}

/// What warming up leaves to be noted.
pub open spec fn warmup_text(outcome: Outcome, limit: Seq<char>) -> Option<Seq<char>> {
    match outcome {
        Outcome::TimedOut => Some("预热就超时（>"@ + limit + " 无响应）"@),
        Outcome::Failed(e) => Some("预热失败："@ + truncated(e.summary_text(), 60)),
        Outcome::Answered(_, _) => None,
    }
}

/// Whether a response holds an address to be had: no error, and at least one record.
pub open spec fn is_useful(rcode: u8, ips: Seq<Ipv4Addr>) -> bool {
    rcode == 0 && ips.len() > 0
}

impl Trial {
    /// What the counts say of the queries so far.
    ///
    /// Each timed query gave a sample or an empty answer, timed out or failed, and
    /// is counted once; and the target is given up exactly when no answer has come
    /// at all and [`EARLY_ABORT_AFTER`] queries in a row have failed.
    pub open spec fn wf(self) -> bool {
        let t = self.report.tally;
        &&& self.plan.domains > 0
        &&& self.warmed <= self.plan.warmup
        &&& self.asked <= self.plan.rounds
        &&& self.asked > 0 ==> self.warmed == self.plan.warmup
        &&& t.wf()
        &&& t.ok + t.empty + t.timeout + t.errors.total() == self.asked
        &&& t.attempts_sum() == self.asked
        &&& self.report.samples@.len() == t.ok
        &&& self.failures <= self.asked
        &&& t.ok + t.empty == 0 ==> self.failures == self.asked
        &&& t.ok + t.empty == 0 ==> self.asked <= EARLY_ABORT_AFTER
        &&& t.aborted == (t.ok + t.empty == 0 && self.failures >= EARLY_ABORT_AFTER)
    }

    /// What to do next.
    pub open spec fn next_step(self) -> Step {
        if self.warmed < self.plan.warmup {
            Step::Warmup(self.warmed, (self.warmed as int % self.plan.domains as int) as usize)
        } else if self.asked < self.plan.rounds && !self.report.tally.aborted {
            Step::Query(self.asked, (self.asked as int % self.plan.domains as int) as usize)
        } else {
            Step::Done
        }
    }

    /// Begins with a report that has nothing in it yet.
    pub fn new(plan: Plan, report: Report) -> (r: Trial)
        requires
            plan.domains > 0,
            report.wf(),
            report.tally.is_blank(),
            report.samples@.len() == 0,
        ensures
            r.wf(),
            r.plan == plan,
            r.report == report,
            r.warmed == 0,
            r.asked == 0,
            r.failures == 0,
    {
        Trial { plan, warmed: 0, asked: 0, failures: 0, report }
    }

    /// What to do next.
    pub fn next(&self) -> (r: Step)
        requires
            self.wf(),
        ensures
            r == self.next_step(),
            r == Step::Done <==> self.warmed == self.plan.warmup && (self.asked == self.plan.rounds
                || self.report.tally.aborted),
            r is Warmup <==> self.warmed < self.plan.warmup,
            match r {
                Step::Warmup(i, d) => i == self.warmed && d == i as int % self.plan.domains as int,
                Step::Query(i, d) => i == self.asked && d == i as int % self.plan.domains as int,
                Step::Done => true,
            },
    {
        if self.warmed < self.plan.warmup {
            Step::Warmup(self.warmed, self.warmed % self.plan.domains)
        } else if self.asked < self.plan.rounds && !self.report.tally.aborted {
            Step::Query(self.asked, self.asked % self.plan.domains)
        } else {
            Step::Done
        }
    }

    /// Takes in the outcome of a query made to warm up. The first trouble is noted; `limit` is the timeout in words.
    pub fn warmed_up(&mut self, outcome: &Outcome, limit: &str)
        requires
            old(self).wf(),
            old(self).next_step() is Warmup,
        ensures
            final(self).wf(),
            final(self).plan == old(self).plan,
            final(self).warmed == old(self).warmed + 1,
            final(self).asked == old(self).asked,
            final(self).failures == old(self).failures,
            final(self).report.group == old(self).report.group,
            final(self).report.label == old(self).report.label,
            final(self).report.proto == old(self).report.proto,
            final(self).report.samples == old(self).report.samples,
            final(self).report.tally.ok == old(self).report.tally.ok,
            final(self).report.tally.empty == old(self).report.tally.empty,
            final(self).report.tally.timeout == old(self).report.tally.timeout,
            final(self).report.tally.errors == old(self).report.tally.errors,
            final(self).report.tally.first_error == old(self).report.tally.first_error,
            final(self).report.tally.aborted == old(self).report.tally.aborted,
            text_in(final(self).report.tally.warmup_note) == (if old(
                self,
            ).report.tally.warmup_note is None {
                warmup_text(*outcome, limit@)
            } else {
                text_in(old(self).report.tally.warmup_note)
            }),
    {
        if self.report.tally.warmup_note.is_none() {
            match outcome {
                Outcome::TimedOut => {
                    let mut note: String = "预热就超时（>".to_owned();
                    note.append(limit);
                    note.append(" 无响应）");
                    self.report.tally.warmup_note = Some(note);
                },
                Outcome::Failed(e) => {
                    let mut note: String = "预热失败：".to_owned();
                    note.append(truncate(e.summary().as_str(), 60).as_str());
                    self.report.tally.warmup_note = Some(note);
                },
                Outcome::Answered(_, _) => {},
            }
        }
        self.warmed += 1;
    }

    /// Takes in the outcome of a timed query and how long it took.
    ///
    /// An answer without an address is counted apart: it is neither a success nor a failure, and no sample.
    pub fn answered(&mut self, outcome: &Outcome, elapsed: u64)
        requires
            old(self).wf(),
            old(self).next_step() is Query,
        ensures
            final(self).wf(),
            final(self).plan == old(self).plan,
            final(self).warmed == old(self).warmed,
            final(self).asked == old(self).asked + 1,
            final(self).report.group == old(self).report.group,
            final(self).report.label == old(self).report.label,
            final(self).report.proto == old(self).report.proto,
            final(self).report.tally.warmup_note == old(self).report.tally.warmup_note,
            match *outcome {
                Outcome::TimedOut => {
                    &&& final(self).failures == old(self).failures + 1
                    &&& final(self).report.tally.ok == old(self).report.tally.ok
                    &&& final(self).report.tally.empty == old(self).report.tally.empty
                    &&& final(self).report.tally.timeout == old(self).report.tally.timeout + 1
                    &&& final(self).report.tally.errors == old(self).report.tally.errors
                    &&& final(self).report.tally.first_error == old(self).report.tally.first_error
                    &&& final(self).report.samples@ == old(self).report.samples@
                },
                Outcome::Failed(e) => {
                    &&& final(self).failures == old(self).failures + 1
                    &&& final(self).report.tally.ok == old(self).report.tally.ok
                    &&& final(self).report.tally.empty == old(self).report.tally.empty
                    &&& final(self).report.tally.timeout == old(self).report.tally.timeout
                    &&& final(self).report.tally.errors.entries() == with_one_more(
                        old(self).report.tally.errors.entries(),
                        e.label_text(),
                    )
                    &&& text_in(final(self).report.tally.first_error) == (match text_in(
                        old(self).report.tally.first_error,
                    ) {
                        Some(text) => Some(text),
                        None => Some(e.summary_text()),
                    })
                    &&& final(self).report.samples@ == old(self).report.samples@
                },
                Outcome::Answered(rcode, ips) => {
                    &&& final(self).failures == 0
                    &&& final(self).report.tally.ok == old(self).report.tally.ok + (if is_useful(rcode, ips@) {
                        1int
                    } else {
                        0int
                    })
                    &&& final(self).report.tally.timeout == old(self).report.tally.timeout
                    &&& final(self).report.tally.errors == old(self).report.tally.errors
                    &&& final(self).report.tally.first_error == old(self).report.tally.first_error
                    &&& final(self).report.tally.empty == old(self).report.tally.empty + (if is_useful(
                        rcode,
                        ips@,
                    ) {
                        0int
                    } else {
                        1int
                    })
                    &&& final(self).report.samples@ == (if is_useful(rcode, ips@) {
                        old(self).report.samples@.push(elapsed)
                    } else {
                        old(self).report.samples@
                    })
                },
            },
            final(self).report.tally.aborted == (final(self).report.tally.ok + final(self).report.tally.empty
                == 0 && final(self).failures >= EARLY_ABORT_AFTER),
    {
        match outcome {
            Outcome::TimedOut => {
                self.report.tally.timeout += 1;
                self.failures += 1;
            },
            Outcome::Failed(e) => {
                proof {
                    count_within_total(self.report.tally.errors.entries(), e.label_text());
                }
                self.report.tally.add_error(e);
                self.failures += 1;
            },
            Outcome::Answered(rcode, ips) => {
                self.failures = 0;
                if *rcode != 0 || ips.len() == 0 {
                    self.report.tally.empty += 1;
                } else {
                    self.report.tally.ok += 1;
                    self.report.samples.push(elapsed);
                }
            },
        }
        self.asked += 1;
        if self.report.tally.ok == 0 && self.report.tally.empty == 0 && self.failures >= EARLY_ABORT_AFTER {
            self.report.tally.aborted = true;
        }
    }

    /// The report, once there is nothing left to do.
    pub fn finish(self) -> (r: Report)
        requires
            self.wf(),
        ensures
            r == self.report,
            r.wf(),
            r.tally.attempts_sum() == self.asked,
    {
        self.report
    }
}

/// The report on a target that could not be set up.
pub fn setup_failure(group: &str, label: &str, proto: Proto, e: &BenchError) -> (r: Report)
    ensures
        r.wf(),
        r.group@ == group@,
        r.label@ == label@,
        r.proto == proto,
        r.samples@.len() == 0,
        r.tally.ok == 0,
        r.tally.empty == 0,
        r.tally.timeout == 0,
        !r.tally.aborted,
        r.tally.warmup_note is None,
        text_in(r.tally.first_error) == Some(e.summary_text()),
        r.tally.errors.entries() == seq![(e.label_text(), 1nat)],
        r.tally.attempts_sum() == 1,
{
    let mut report = Report::new(group, label, proto);
    report.tally.add_error(e);
    report
}

// ---------------------------------------------------------------------------
// Laws
// ---------------------------------------------------------------------------

/// While a query to warm up is left, it comes next, however many were made; and
/// then, while a query to be timed is left and the target was not given up, that
/// one. Only where neither is left is there nothing to do.
pub proof fn nothing_is_left_out(t: Trial)
    requires
        t.plan.domains > 0,
    ensures
        t.warmed < t.plan.warmup ==> (t.next_step() matches Step::Warmup(i, d) && i == t.warmed && d == i as int
            % t.plan.domains as int),
        t.warmed >= t.plan.warmup && t.asked < t.plan.rounds && !t.report.tally.aborted ==> (
        t.next_step() matches Step::Query(i, d) && i == t.asked && d == i as int % t.plan.domains as int),
        t.next_step() == Step::Done <==> t.warmed >= t.plan.warmup && (t.asked >= t.plan.rounds
            || t.report.tally.aborted),
{
}

/// A trial ends exactly when the target is warmed up and either all its queries
/// were made or the first eight were all in vain; up to then it goes on, also where
/// nothing was answered yet.
pub proof fn trials_end_when_they_should(t: Trial)
    requires
        t.wf(),
    ensures
        t.next_step() == Step::Done <==> t.warmed == t.plan.warmup && (t.asked == t.plan.rounds || t.asked == 8
            && t.report.tally.ok == 0 && t.report.tally.empty == 0),
        t.warmed == t.plan.warmup && t.asked < t.plan.rounds && t.asked < 8 ==> t.next_step() is Query,
        t.warmed == t.plan.warmup && t.asked < t.plan.rounds && t.report.tally.ok + t.report.tally.empty > 0
            ==> t.next_step() is Query,
{
}

/// A response is of use exactly if it has code 0 and at least one address.
pub proof fn addresses_are_of_use(rcode: u8, ips: Seq<Ipv4Addr>)
    ensures
        is_useful(rcode, ips) <==> rcode == 0 && ips != Seq::<Ipv4Addr>::empty(),
{
    if ips.len() == 0 {
        assert(ips =~= Seq::<Ipv4Addr>::empty());
    }
}

/// What warming up leaves to be noted: nothing after any response, the limit after
/// a timeout, and after an error its summary as far as 60 columns go.
pub proof fn warmup_notes_say_why(outcome: Outcome, limit: Seq<char>)
    ensures
        warmup_text(outcome, limit) is None <==> outcome is Answered,
        outcome is TimedOut ==> warmup_text(outcome, limit) == Some("预热就超时（>"@ + limit + " 无响应）"@),
        outcome matches Outcome::Failed(e) ==> warmup_text(outcome, limit) == Some(
            "预热失败："@ + truncated(e.label_text() + ": "@ + e.detail_text(), 60),
        ),
{
}

/// No query is timed before the target is warmed up, and while it is, nothing is counted.
pub proof fn warming_up_comes_first(t: Trial)
    requires
        t.wf(),
    ensures
        t.next_step() is Query ==> t.warmed == t.plan.warmup,
        t.next_step() is Warmup ==> t.asked == 0 && t.report.samples@.len() == 0 && t.report.tally.attempts_sum()
            == 0,
{
}

/// A target is given up after exactly [`EARLY_ABORT_AFTER`] timed queries, and
/// only if none of them was answered; then nothing more is asked of it.
pub proof fn giving_up_is_exact(t: Trial)
    requires
        t.wf(),
    ensures
        t.report.tally.aborted <==> t.report.tally.ok + t.report.tally.empty == 0 && t.asked == EARLY_ABORT_AFTER,
        t.report.tally.aborted ==> t.next_step() == Step::Done,
        t.report.tally.aborted ==> t.report.samples@.len() == 0,
{
}

/// A target that has answered once is asked all the queries that were planned.
pub proof fn answering_once_is_enough(t: Trial)
    requires
        t.wf(),
        t.report.tally.ok + t.report.tally.empty > 0,
        t.next_step() == Step::Done,
    ensures
        t.asked == t.plan.rounds,
        !t.report.tally.aborted,
{
}

/// Every timed query is counted exactly once: as a success, which is a sample, as
/// an empty answer, as timed out or as failed.
pub proof fn every_query_is_counted(t: Trial)
    requires
        t.wf(),
    ensures
        t.asked == t.report.tally.ok + t.report.tally.empty + t.report.tally.timeout
            + t.report.tally.errors.total(),
        t.report.tally.ok == t.report.samples@.len(),
        t.report.tally.attempts_sum() == t.asked,
        t.report.tally.attempts_sum() <= t.plan.rounds,
{
}

/// Which domain a query asks for depends on the number of the query alone, so
/// that all targets face the same domains in the same order.
pub proof fn all_targets_face_the_same_domains(a: Trial, b: Trial)
    requires
        a.wf(),
        b.wf(),
        a.plan == b.plan,
        a.asked == b.asked,
        a.warmed == b.warmed,
        a.next_step() != Step::Done,
        b.next_step() != Step::Done,
    ensures
        a.next_step() == b.next_step(),
        match a.next_step() {
            Step::Warmup(i, d) => d < a.plan.domains && d == i as int % a.plan.domains as int,
            Step::Query(i, d) => d < a.plan.domains && d == i as int % a.plan.domains as int,
            Step::Done => false,
        },
{
}

} // verus!
