//! Progress while targets are asked one after the other: one line that is drawn
//! over and over where there is a terminal, and one lasting line for each target.
//!
//! Times are nanoseconds since the run began. Whoever drives a [`Progress`]
//! reads the clock and writes to the terminal.

use vstd::prelude::*;

use crate::number::{align_right, clock, count_text, decimal, mmss, right_aligned};
use crate::text::{fit, fitted, pad_to, padded, text_in};

verus! {

/// Cells of the bar.
pub const BAR: usize = 16;

/// The line is drawn anew at most this often, in milliseconds, so as not to keep the terminal busy.
pub const REDRAW_MS: u64 = 80;

/// Where a run stands.
#[derive(Debug)]
pub struct Progress {
    /// Whether there is a terminal to draw on.
    pub tty: bool,
    /// Whether nothing at all is written, not even the lasting lines.
    pub quiet: bool,
    pub total: usize,
    /// The number of the current target, counted from one; zero before the first.
    pub index: usize,
    pub current: String,
    pub stage: String,
    /// When the line was last drawn, if it was.
    pub last_render: Option<u64>,
    /// How long the finished targets took together.
    pub spent: u128,
}

/// What to write when something is over.
#[derive(Debug)]
pub struct Closing {
    /// Whether the line has to be wiped first.
    pub wipe: bool,
    /// The line that lasts, if any.
    pub line: Option<String>,
}

// ---------------------------------------------------------------------------
// Model
// ---------------------------------------------------------------------------

/// How many of the bar's cells are filled after `completed` of `total` targets, rounded half up.
pub open spec fn filled_cells(completed: nat, total: nat) -> nat {
    if total == 0 {
        0
    } else if completed >= total {
        BAR as nat
    } else {
        (2 * BAR * completed + total) as nat / (2 * total)
    }
}

/// `n` times the same character.
pub open spec fn repeated(c: char, n: nat) -> Seq<char> {
    Seq::new(n, |i: int| c)
}

/// The bar.
pub open spec fn bar_text(filled: nat) -> Seq<char> {
    repeated('█', filled) + repeated('░', (BAR - filled) as nat)
}

/// The frames of the animation that shows that a query is being waited for.
pub open spec fn spinner_frames() -> Seq<Seq<char>> {
    seq!["⠋"@, "⠙"@, "⠹"@, "⠸"@, "⠼"@, "⠴"@, "⠦"@, "⠧"@, "⠇"@, "⠏"@]
}

/// The frame at a time in milliseconds; it changes ten times a second.
pub open spec fn spinner_text(ms: nat) -> Seq<char> {
    spinner_frames()[((ms / 100) % 10) as int]
}

impl Progress {
    /// Targets that are finished.
    pub open spec fn completed(self) -> nat {
        if self.index == 0 {
            0
        } else {
            (self.index - 1) as nat
        }
    }

    /// Whether anything is drawn at all.
    pub open spec fn draws(self) -> bool {
        self.tty && !self.quiet
    }

    /// Whether the line may be drawn at `now`.
    pub open spec fn is_due(self, now: u64) -> bool {
        match self.last_render {
            None => true,
            Some(last) => last <= now && (now - last) / 1_000_000 >= REDRAW_MS,
        }
    }

    /// Whether there is something to estimate the remaining time by.
    pub open spec fn has_estimate(self) -> bool {
        self.spent > 0 && self.completed() > 0
    }

    /// The number of the current target out of all, in a column as wide as the total.
    pub open spec fn counter_text(self) -> Seq<char> {
        right_aligned(decimal(self.index as nat), decimal(self.total as nat).len()) + "/"@ + decimal(
            self.total as nat,
        )
    }

    /// The line that is drawn.
    pub open spec fn line_text(self, ms: u64, percent: Seq<char>, elapsed: u64, remaining: u64) -> Seq<char> {
        "  "@ + spinner_text(ms as nat) + " ["@ + self.counter_text() + "] "@ + bar_text(
            filled_cells(self.completed(), self.total as nat),
        ) + " "@ + right_aligned(percent, 4) + "%  "@ + fitted(self.current@, 26) + " · "@ + fitted(
            self.stage@,
            26,
        ) + "  已用 "@ + clock(elapsed as nat) + "  剩 "@ + (if self.has_estimate() {
            clock(remaining as nat)
        } else {
            "--:--"@
        })
    }
}

// ---------------------------------------------------------------------------
// Functions
// ---------------------------------------------------------------------------

/// Adds `n` times the same character.
fn add_repeated(s: &mut String, c: char, n: usize)
    ensures
        final(s)@ == old(s)@ + repeated(c, n as nat),
{
    let mut i: usize = 0;
    assert(s@ =~= old(s)@ + repeated(c, 0));
    while i < n
        invariant
            i <= n,
            s@ == old(s)@ + repeated(c, i as nat),
        decreases n - i,
    {
        s.push(c);
        i += 1;
        assert(s@ =~= old(s)@ + repeated(c, i as nat));
    }
}

/// How many of the bar's cells are filled.
fn filled(completed: usize, total: usize) -> (r: usize)
    ensures
        r == filled_cells(completed as nat, total as nat),
        r <= BAR,
{
    proof {
        bars_stay_in_bounds(completed as nat, total as nat);
    }
    if total == 0 {
        0
    } else if completed >= total {
        BAR
    } else {
        let twice: u128 = 2 * (total as u128);
        let n: u128 = 2 * (BAR as u128) * (completed as u128) + total as u128;
        (n / twice) as usize
    }
}

/// The bar.
fn bar(filled: usize) -> (r: String)
    requires
        filled <= BAR,
    ensures
        r@ == bar_text(filled as nat),
{
    let mut out = String::new();
    add_repeated(&mut out, '█', filled);
    add_repeated(&mut out, '░', BAR - filled);
    assert(out@ =~= bar_text(filled as nat));
    out
}

/// The frame of the animation at a time in milliseconds.
fn spinner(ms: u64) -> (r: &'static str)
    ensures
        r@ == spinner_text(ms as nat),
{
    let k: u64 = (ms / 100) % 10;
    if k == 0 {
        "⠋"
    } else if k == 1 {
        "⠙"
    } else if k == 2 {
        "⠹"
    } else if k == 3 {
        "⠸"
    } else if k == 4 {
        "⠼"
    } else if k == 5 {
        "⠴"
    } else if k == 6 {
        "⠦"
    } else if k == 7 {
        "⠧"
    } else if k == 8 {
        "⠇"
    } else {
        "⠏"
    }
}

impl Progress {
    /// Before the first of `total` targets.
    pub fn new(total: usize, tty: bool) -> (r: Progress)
        ensures
            r.tty == tty,
            !r.quiet,
            r.total == total,
            r.index == 0,
            r.current@ == Seq::<char>::empty(),
            r.stage@ == Seq::<char>::empty(),
            r.last_render is None,
            r.spent == 0,
    {
        Progress {
            tty,
            quiet: false,
            total,
            index: 0,
            current: String::new(),
            stage: String::new(),
            last_render: None,
            spent: 0,
        }
    }

    /// The same, for a run that writes nothing.
    pub fn disabled(total: usize) -> (r: Progress)
        ensures
            !r.tty,
            r.quiet,
            r.total == total,
            r.index == 0,
            r.current@ == Seq::<char>::empty(),
            r.stage@ == Seq::<char>::empty(),
            r.last_render is None,
            r.spent == 0,
    {
        Progress {
            tty: false,
            quiet: true,
            total,
            index: 0,
            current: String::new(),
            stage: String::new(),
            last_render: None,
            spent: 0,
        }
    }

    /// Whether there is a terminal to draw on.
    pub fn is_tty(&self) -> (r: bool)
        ensures
            r == self.tty,
    {
        self.tty
    }

    /// The number of the current target out of all.
    pub fn counter(&self) -> (r: String)
        ensures
            r@ == self.counter_text(),
    {
        let total = count_text(self.total);
        let width: usize = crate::text::chars_of(total.as_str()).len();
        let mut out = align_right(count_text(self.index).as_str(), width);
        out.append("/");
        out.append(total.as_str());
        out
    }

    /// Begins with the next target, and says whether to draw the line.
    pub fn begin(&mut self, label: &str, now: u64) -> (r: bool)
        requires
            old(self).index < usize::MAX,
        ensures
            r == old(self).draws(),
            final(self).index == old(self).index + 1,
            final(self).current@ == label@,
            final(self).stage@ == "连接中…"@,
            final(self).last_render == (if r {
                Some(now)
            } else {
                old(self).last_render
            }),
            final(self).tty == old(self).tty,
            final(self).quiet == old(self).quiet,
            final(self).total == old(self).total,
            final(self).spent == old(self).spent,
    {
        self.index += 1;
        self.current = label.to_owned();
        self.stage = "连接中…".to_owned();
        self.render(true, now)
    }

    /// Says what the current target is at, and whether to draw the line.
    pub fn stage(&mut self, text: &str, now: u64) -> (r: bool)
        ensures
            r == (old(self).draws() && old(self).is_due(now)),
            final(self).stage@ == text@,
            final(self).last_render == (if r {
                Some(now)
            } else {
                old(self).last_render
            }),
            final(self).tty == old(self).tty,
            final(self).quiet == old(self).quiet,
            final(self).total == old(self).total,
            final(self).index == old(self).index,
            final(self).current@ == old(self).current@,
            final(self).spent == old(self).spent,
    {
        self.stage = text.to_owned();
        self.render(false, now)
    }

    /// Decides whether to draw the line, and if so takes note of it.
    fn render(&mut self, force: bool, now: u64) -> (r: bool)
        ensures
            r == (old(self).draws() && (force || old(self).is_due(now))),
            final(self).last_render == (if r {
                Some(now)
            } else {
                old(self).last_render
            }),
            final(self).tty == old(self).tty,
            final(self).quiet == old(self).quiet,
            final(self).total == old(self).total,
            final(self).index == old(self).index,
            final(self).current == old(self).current,
            final(self).stage == old(self).stage,
            final(self).spent == old(self).spent,
    {
        if !self.tty || self.quiet {
            return false;
        }
        if !force {
            match self.last_render {
                Some(last) => {
                    if now < last || (now - last) / 1_000_000 < REDRAW_MS {
                        return false;
                    }
                },
                None => {},
            }
        }
        self.last_render = Some(now);
        true
    }

    /// Whether there is something to estimate the remaining time by.
    pub fn can_estimate(&self) -> (r: bool)
        ensures
            r == self.has_estimate(),
    {
        self.spent > 0 && self.index > 1
    }

    /// Targets that are finished.
    pub fn finished(&self) -> (r: usize)
        ensures
            r == self.completed(),
    {
        if self.index == 0 {
            0
        } else {
            self.index - 1
        }
    }

    /// The line to draw, at `ms` milliseconds since the run began. `percent` is
    /// how much is finished, without decimals; `elapsed` and `remaining` are in
    /// seconds, and `remaining` counts only where there is an estimate.
    pub fn line(&self, ms: u64, percent: &str, elapsed: u64, remaining: u64) -> (r: String)
        ensures
            r@ == self.line_text(ms, percent@, elapsed, remaining),
    {
        let mut out: String = "  ".to_owned();
        out.append(spinner(ms));
        out.append(" [");
        out.append(self.counter().as_str());
        out.append("] ");
        out.append(bar(filled(self.finished(), self.total)).as_str());
        out.append(" ");
        out.append(align_right(percent, 4).as_str());
        out.append("%  ");
        out.append(fit(self.current.as_str(), 26).as_str());
        out.append(" · ");
        out.append(fit(self.stage.as_str(), 26).as_str());
        out.append("  已用 ");
        out.append(mmss(elapsed).as_str());
        out.append("  剩 ");
        if self.can_estimate() {
            out.append(mmss(remaining).as_str());
        } else {
            out.append("--:--");
        }
        out
    }

    /// Ends the current target with a lasting line, given how long it took.
    pub fn finish(&mut self, summary: &str, elapsed: u64) -> (r: Closing)
        requires
            old(self).spent + elapsed <= u128::MAX,
        ensures
            r.wipe == old(self).draws(),
            text_in(r.line) == (if old(self).quiet {
                None
            } else {
                Some(summary@)
            }),
            final(self).spent == old(self).spent + elapsed,
            final(self).tty == old(self).tty,
            final(self).quiet == old(self).quiet,
            final(self).total == old(self).total,
            final(self).index == old(self).index,
            final(self).current@ == old(self).current@,
            final(self).stage@ == old(self).stage@,
            final(self).last_render == old(self).last_render,
    {
        self.spent = self.spent + elapsed as u128;
        self.closing(summary.to_owned())
    }

    /// What to write for a lasting line.
    fn closing(&self, line: String) -> (r: Closing)
        ensures
            r.wipe == self.draws(),
            text_in(r.line) == (if self.quiet {
                None
            } else {
                Some(line@)
            }),
    {
        Closing {
            wipe: self.tty && !self.quiet,
            line: if self.quiet {
                None
            } else {
                Some(line)
            },
        }
    }

    /// Ends the run; `secs` is how long it took, in seconds with one decimal.
    pub fn done(&self, secs: &str) -> (r: Closing)
        ensures
            r.wipe == self.draws(),
            text_in(r.line) == (if self.quiet {
                None
            } else {
                Some("总耗时      "@ + secs@ + "s"@)
            }),
    {
        let mut out: String = "总耗时      ".to_owned();
        out.append(secs);
        out.append("s");
        self.closing(out)
    }

    /// Ends a part of a run that has a name of its own.
    pub fn conclude(&self, label: &str, secs: &str) -> (r: Closing)
        ensures
            r.wipe == self.draws(),
            text_in(r.line) == (if self.quiet {
                None
            } else {
                Some(padded(label@, 14) + secs@ + "s"@)
            }),
    {
        let mut out = pad_to(label, 14);
        out.append(secs);
        out.append("s");
        self.closing(out)
    }
}

// ---------------------------------------------------------------------------
// Laws
// ---------------------------------------------------------------------------

/// The bar never has more cells filled than it has, and always has all its cells.
pub proof fn bars_stay_in_bounds(completed: nat, total: nat)
    ensures
        filled_cells(completed, total) <= BAR,
        bar_text(filled_cells(completed, total)).len() == BAR,
{
    if 0 < total && completed < total {
        let n: nat = (2 * BAR * completed + total) as nat;
        let d: nat = 2 * total;
        assert(n / d <= BAR) by (nonlinear_arith)
            requires
                n == 2 * 16 * completed + total,
                d == 2 * total,
                completed < total,
                BAR == 16,
        ;
    }
}

/// The bar does not shrink as targets are finished, is empty before the first and full after the last.
pub proof fn bars_grow(a: nat, b: nat, total: nat)
    requires
        a <= b,
        total > 0,
    ensures
        filled_cells(a, total) <= filled_cells(b, total),
        filled_cells(0, total) == 0,
        filled_cells(total, total) == BAR,
{
    bars_stay_in_bounds(a, total);
    let d: nat = 2 * total;
    assert(total / d == 0) by (nonlinear_arith)
        requires
            d == 2 * total,
            total > 0,
    ;
    if b < total {
        let m: nat = (2 * BAR * a + total) as nat;
        let n: nat = (2 * BAR * b + total) as nat;
        assert(m <= n) by (nonlinear_arith)
            requires
                m == 2 * BAR * a + total,
                n == 2 * BAR * b + total,
                a <= b,
        ;
        assert(m / d <= n / d) by (nonlinear_arith)
            requires
                m <= n,
                d > 0,
        ;
    }
}

/// Without a terminal, or where nothing is to be written, nothing is ever drawn
/// or wiped; and once the line was drawn, it is not due again within 80 milliseconds.
pub proof fn drawing_is_restrained(p: Progress, now: u64)
    ensures
        !p.tty || p.quiet ==> !p.draws(),
        p.last_render matches Some(last) ==> last <= now < last + 80_000_000 ==> !p.is_due(now),
{
}

} // verus!
