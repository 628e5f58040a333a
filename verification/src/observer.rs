//! The observer channel: a push-only notification fan-out from the
//! reduction engine to externally supplied listeners.

use vstd::prelude::*;

use crate::model::{next_of, render_seq, run, MTok, Next};

verus! {

/// What an evaluation call tells its listeners: it begins, one rewrite
/// rule fired somewhere in the tree, it is over.
#[derive(Clone, Copy, Debug)]
pub enum Signal {
    ComputationStart,
    ComputationStep,
    ComputationEnd,
}

/// A listener attached to an evaluation session.  It receives the rendered
/// current top-level term and the signal kind, synchronously and in
/// attachment order; it cannot pause, veto or alter the evaluation.
///
/// `notified` is the listener's own statement of what one delivery does to
/// it; `notify` promises to act as one delivery of exactly the given term
/// text and signal.
pub trait Observer: Sized {
    spec fn notified(pre: Self, post: Self, term: Seq<char>, signal: Signal) -> bool;

    fn notify(&mut self, term: &str, signal: Signal)
        ensures
            Self::notified(*old(self), *final(self), term@, signal),
    ;
}

/// The trail that running the machine for `n` steps from `t` leaves on one
/// listener: `post` is `pre` after receiving one `ComputationStep`, carrying
/// the rendered term as it then stands, for every rule fired in those
/// steps, in firing order.  Silent flattening moves deliver nothing, and a
/// halted machine delivers nothing more.
pub open spec fn steps_delivered<O: Observer>(pre: O, post: O, t: Seq<MTok>, n: nat) -> bool
    decreases n,
{
    if n == 0 {
        post == pre
    } else {
        match next_of(t) {
            Next::Halt => post == pre,
            Next::Silent(u) => steps_delivered(pre, post, u, (n - 1) as nat),
            Next::Rule(u) => exists|mid: O|
                #![auto]
                O::notified(pre, mid, render_seq(u), Signal::ComputationStep)
                    && steps_delivered(mid, post, u, (n - 1) as nat),
        }
    }
}

/// A term on which no step is available delivers no `ComputationStep` at
/// all: whatever the budget, the listener is left exactly as it was.
/// Together with the evaluation contract this makes a second evaluation
/// call a no-op for the listeners, up to its `ComputationStart` and
/// `ComputationEnd`.
pub proof fn lemma_halted_delivers_nothing<O: Observer>(pre: O, post: O, t: Seq<MTok>, n: nat)
    requires
        crate::model::halted(t),
        steps_delivered(pre, post, t, n),
    ensures
        post == pre,
{
}

/// Once the machine has halted, longer runs deliver nothing more to a
/// listener.
pub proof fn lemma_steps_delivered_halt<O: Observer>(pre: O, post: O, t: Seq<MTok>, n: nat, m: nat)
    requires
        steps_delivered(pre, post, t, n),
        crate::model::halted(run(t, n)),
        n <= m,
    ensures
        steps_delivered(pre, post, t, m),
    decreases n,
{
    if n == 0 {
        if m > 0 {
            assert(next_of(t) is Halt);
        }
    } else {
        match next_of(t) {
            Next::Halt => {
            },
            Next::Silent(u) => {
                lemma_steps_delivered_halt(pre, post, u, (n - 1) as nat, (m - 1) as nat);
            },
            Next::Rule(u) => {
                let mid = choose|mid: O|
                    #![auto]
                    O::notified(pre, mid, render_seq(u), Signal::ComputationStep)
                        && steps_delivered(mid, post, u, (n - 1) as nat);
                lemma_steps_delivered_halt(mid, post, u, (n - 1) as nat, (m - 1) as nat);
            },
        }
    }
}

/// Extending a run by one silent flattening move delivers nothing more.
pub proof fn lemma_steps_delivered_snoc_silent<O: Observer>(
    pre: O,
    post: O,
    t: Seq<MTok>,
    n: nat,
)
    requires
        steps_delivered(pre, post, t, n),
        next_of(run(t, n)) is Silent,
    ensures
        steps_delivered(pre, post, t, n + 1),
    decreases n,
{
    if n == 0 {
        match next_of(t) {
            Next::Silent(u) => {
                assert(steps_delivered(pre, post, u, 0));
            },
            _ => {
            },
        }
    } else {
        match next_of(t) {
            Next::Halt => {
            },
            Next::Silent(u) => {
                lemma_steps_delivered_snoc_silent(pre, post, u, (n - 1) as nat);
            },
            Next::Rule(u) => {
                let mid = choose|mid: O|
                    #![auto]
                    O::notified(pre, mid, render_seq(u), Signal::ComputationStep)
                        && steps_delivered(mid, post, u, (n - 1) as nat);
                lemma_steps_delivered_snoc_silent(mid, post, u, (n - 1) as nat);
            },
        }
    }
}

/// Extending a run by one fired rule delivers exactly one more
/// `ComputationStep`, carrying the rendered term right after that rule.
pub proof fn lemma_steps_delivered_snoc_rule<O: Observer>(
    pre: O,
    mid: O,
    post: O,
    t: Seq<MTok>,
    n: nat,
    u: Seq<MTok>,
)
    requires
        steps_delivered(pre, mid, t, n),
        next_of(run(t, n)) == Next::Rule(u),
        O::notified(mid, post, render_seq(u), Signal::ComputationStep),
    ensures
        steps_delivered(pre, post, t, n + 1),
    decreases n,
{
    if n == 0 {
        assert(steps_delivered(post, post, u, 0));
        assert(O::notified(pre, post, render_seq(u), Signal::ComputationStep));
    } else {
        match next_of(t) {
            Next::Halt => {
            },
            Next::Silent(v) => {
                lemma_steps_delivered_snoc_rule(pre, mid, post, v, (n - 1) as nat, u);
            },
            Next::Rule(v) => {
                let m0 = choose|m0: O|
                    #![auto]
                    O::notified(pre, m0, render_seq(v), Signal::ComputationStep)
                        && steps_delivered(m0, mid, v, (n - 1) as nat);
                lemma_steps_delivered_snoc_rule(m0, mid, post, v, (n - 1) as nat, u);
            },
        }
    }
}

/// One notification as the reference listener keeps it: the signal kind
/// and the rendered term that came with it.
#[derive(Debug)]
pub struct LogEntry {
    pub signal: Signal,
    pub term: String,
}

/// The reference listener: it accumulates a step counter and keeps every
/// notification it receives, ready to be printed by the caller.
#[derive(Debug)]
pub struct Printer {
    num_steps: u32,
    entries: Vec<LogEntry>,
}

impl Printer {
    /// How many rewrite steps have been reported so far.
    pub closed spec fn steps(&self) -> u32 {
        self.num_steps
    }

    /// Every notification received so far, oldest first.
    pub closed spec fn log(&self) -> Seq<LogEntry> {
        self.entries@
    }

    /// A fresh listener: no steps seen, nothing recorded.
    pub fn new() -> (p: Printer)
        ensures
            p.steps() == 0,
            p.log().len() == 0,
    {
        Printer { num_steps: 0, entries: Vec::new() }
    }

    /// Takes one notification: the signal and the term text are recorded,
    /// and a `ComputationStep` advances the step counter, saturating at the
    /// counter's width.
    pub fn record(&mut self, term: &str, signal: Signal)
        ensures
            final(self).log().len() == old(self).log().len() + 1,
            final(self).log().drop_last() == old(self).log(),
            final(self).log().last().signal == signal,
            final(self).log().last().term@ == term@,
            final(self).steps() == if signal is ComputationStep {
                if old(self).steps() < u32::MAX {
                    (old(self).steps() + 1) as u32
                } else {
                    u32::MAX
                }
            } else {
                old(self).steps()
            },
    {
        self.entries.push(LogEntry { signal, term: term.to_owned() });
        proof {
            assert(self.entries@.drop_last() =~= old(self).entries@);
        }
        match signal {
            Signal::ComputationStep => {
                if self.num_steps < u32::MAX {
                    self.num_steps = self.num_steps + 1;
                }
            },
            _ => {},
        }
    }

    /// The step counter's current value.
    pub fn num_steps(&self) -> (r: u32)
        ensures
            r == self.steps(),
    {
        self.num_steps
    }

    /// The recorded notifications, oldest first.
    pub fn entries(&self) -> (r: &Vec<LogEntry>)
        ensures
            r@ == self.log(),
    {
        &self.entries
    }
}

impl Observer for Printer {
    /// One delivery does to the reference listener exactly what `record`
    /// promises: the notification is appended and a step is counted.
    open spec fn notified(pre: Printer, post: Printer, term: Seq<char>, signal: Signal) -> bool {
        &&& post.log().len() == pre.log().len() + 1
        &&& post.log().drop_last() == pre.log()
        &&& post.log().last().signal == signal
        &&& post.log().last().term@ == term
        &&& post.steps() == if signal is ComputationStep {
            if pre.steps() < u32::MAX {
                (pre.steps() + 1) as u32
            } else {
                u32::MAX
            }
        } else {
            pre.steps()
        }
    }

    fn notify(&mut self, term: &str, signal: Signal) {
        self.record(term, signal);
    }
}

} // verus!
