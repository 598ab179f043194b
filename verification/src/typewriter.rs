//! The typewriter effect as mathematics: how much of a line is revealed, and
//! what the passing of time does to it.
//!
//! The interval and all times are counted in one unit of the caller's choice.

use vstd::prelude::*;
use crate::style::StyledText;

verus! {

/// The reveal of one line: its clusters, how many of them are revealed, the
/// time that has passed since the last one was revealed, and the time that
/// each cluster takes.
pub struct RevealState {
    pub graphemes: Seq<StyledText>,
    pub revealed: nat,
    pub elapsed: nat,
    pub interval: nat,
}

/// The sum of the time steps.
pub open spec fn sum(deltas: Seq<nat>) -> nat
    decreases deltas.len(),
{
    if deltas.len() == 0 {
        0
    } else {
        sum(deltas.drop_last()) + deltas.last()
    }
}

impl RevealState {
    /// The number of clusters in the line.
    pub open spec fn total(self) -> nat {
        self.graphemes.len()
    }

    /// No more is revealed than there is, and while clusters are hidden the
    /// waiting time is short of an interval.
    pub open spec fn wf(self) -> bool {
        &&& self.revealed <= self.total()
        &&& self.revealed < self.total() ==> self.elapsed < self.interval
    }

    /// Everything is revealed. A line without clusters is complete at once.
    pub open spec fn is_complete(self) -> bool {
        self.revealed == self.total()
    }

    /// What is revealed: the first clusters of the line, in order.
    pub open spec fn visible(self) -> Seq<StyledText> {
        self.graphemes.take(self.revealed as int)
    }

    /// A line newly set: nothing revealed and no time passed. With an interval
    /// of zero there is no typewriter effect and the whole line is revealed
    /// from the start.
    pub open spec fn start(graphemes: Seq<StyledText>, interval: nat) -> RevealState {
        RevealState {
            graphemes,
            revealed: if interval == 0 {
                graphemes.len()
            } else {
                0
            },
            elapsed: 0,
            interval,
        }
    }

    /// Another line takes the place of this one, at the same interval.
    pub open spec fn reset(self, graphemes: Seq<StyledText>) -> RevealState {
        RevealState::start(graphemes, self.interval)
    }

    /// How many clusters come due when `delta` passes: one for each whole
    /// interval in the waiting time, but no more than are hidden.
    pub open spec fn due(self, delta: nat) -> nat {
        let hidden = (self.total() - self.revealed) as nat;
        if self.interval == 0 {
            hidden
        } else {
            let ticks = (self.elapsed + delta) / self.interval;
            if ticks <= hidden {
                ticks
            } else {
                hidden
            }
        }
    }

    /// The reveal after `delta` has passed. The clusters that have come due
    /// are revealed and their intervals leave the waiting time. A complete
    /// reveal stays as it is.
    pub open spec fn advance(self, delta: nat) -> RevealState {
        if self.is_complete() {
            self
        } else {
            RevealState {
                revealed: self.revealed + self.due(delta),
                elapsed: (self.elapsed + delta - self.due(delta) * self.interval) as nat,
                ..self
            }
        }
    }

    /// The reveal after each of the time steps has passed, one after the
    /// other.
    pub open spec fn advance_all(self, deltas: Seq<nat>) -> RevealState
        decreases deltas.len(),
    {
        if deltas.len() == 0 {
            self
        } else {
            self.advance_all(deltas.drop_last()).advance(deltas.last())
        }
    }

    /// The whole line revealed at once.
    pub open spec fn skip(self) -> RevealState {
        RevealState { revealed: self.total(), ..self }
    }

    /// A time step keeps the line and the interval, never hides what was
    /// revealed and never reveals more than there is.
    pub proof fn lemma_advance(self, delta: nat)
        requires
            self.wf(),
        ensures
            self.advance(delta).wf(),
            self.advance(delta).graphemes == self.graphemes,
            self.advance(delta).interval == self.interval,
            self.revealed <= self.advance(delta).revealed <= self.total(),
            !self.advance(delta).is_complete() ==> self.advance(delta).revealed * self.interval
                + self.advance(delta).elapsed == self.revealed * self.interval + self.elapsed
                + delta,
    {
        if !self.is_complete() {
            let budget = self.elapsed + delta;
            let interval = self.interval;
            let ticks = budget / interval;
            let due = self.due(delta);
            assert(interval > 0);
            assert(budget == interval * ticks + budget % interval && 0 <= budget % interval
                < interval) by {
                vstd::arithmetic::div_mod::lemma_fundamental_div_mod(budget as int, interval as int);
                vstd::arithmetic::div_mod::lemma_mod_bound(budget as int, interval as int);
            }
            assert(0 <= ticks) by (nonlinear_arith)
                requires
                    budget == interval * ticks + budget % interval,
                    budget % interval < interval,
                    interval > 0,
                    budget >= 0,
            ;
            assert(due * interval <= ticks * interval) by (nonlinear_arith)
                requires
                    0 <= due <= ticks,
                    interval > 0,
            ;
            assert(interval * ticks == ticks * interval) by (nonlinear_arith);
            assert((self.revealed + due) * interval == self.revealed * interval + due * interval)
                by (nonlinear_arith);
        }
    }

    /// Reveal is monotone: over any time steps the line and the interval
    /// stay, what was revealed stays revealed, and no more is revealed than
    /// there is.
    pub proof fn lemma_advance_all(self, deltas: Seq<nat>)
        requires
            self.wf(),
        ensures
            self.advance_all(deltas).wf(),
            self.advance_all(deltas).graphemes == self.graphemes,
            self.advance_all(deltas).interval == self.interval,
            self.revealed <= self.advance_all(deltas).revealed <= self.total(),
            !self.advance_all(deltas).is_complete() ==> self.advance_all(deltas).revealed
                * self.interval + self.advance_all(deltas).elapsed == self.revealed * self.interval
                + self.elapsed + sum(deltas),
        decreases deltas.len(),
    {
        if deltas.len() > 0 {
            let before = self.advance_all(deltas.drop_last());
            self.lemma_advance_all(deltas.drop_last());
            before.lemma_advance(deltas.last());
        }
    }

    /// A later time step never shows less: a reveal that has taken some of
    /// the steps has revealed no more than one that has taken them all.
    pub proof fn lemma_reveal_grows(self, deltas: Seq<nat>, taken: int)
        requires
            self.wf(),
            0 <= taken <= deltas.len(),
        ensures
            self.advance_all(deltas.take(taken)).revealed <= self.advance_all(deltas).revealed,
        decreases deltas.len() - taken,
    {
        if taken < deltas.len() {
            let front = deltas.drop_last();
            self.lemma_reveal_grows(front, taken);
            assert(front.take(taken) =~= deltas.take(taken));
            self.lemma_advance_all(front);
            self.advance_all(front).lemma_advance(deltas.last());
        } else {
            assert(deltas.take(taken) =~= deltas);
        }
    }

    /// Reveal completes: once the time steps taken from the start add up to
    /// an interval for each cluster, the whole line is revealed.
    pub proof fn lemma_completes(graphemes: Seq<StyledText>, interval: nat, deltas: Seq<nat>)
        requires
            sum(deltas) >= graphemes.len() * interval,
        ensures
            RevealState::start(graphemes, interval).advance_all(deltas).is_complete(),
    {
        let start = RevealState::start(graphemes, interval);
        let end = start.advance_all(deltas);
        start.lemma_advance_all(deltas);
        if !end.is_complete() {
            assert(start.revealed * interval == 0) by (nonlinear_arith)
                requires
                    start.revealed == 0,
            ;
            assert((end.revealed + 1) * interval <= graphemes.len() * interval) by (nonlinear_arith)
                requires
                    end.revealed + 1 <= graphemes.len(),
            ;
            assert((end.revealed + 1) * interval == end.revealed * interval + interval)
                by (nonlinear_arith);
        }
    }

    /// Skipping is final: after a skip the reveal is complete, and time steps
    /// leave it and what is visible as they are.
    pub proof fn lemma_skip_is_final(self, deltas: Seq<nat>)
        ensures
            self.skip().is_complete(),
            self.skip().advance_all(deltas) == self.skip(),
            self.skip().advance_all(deltas).visible() == self.skip().visible(),
        decreases deltas.len(),
    {
        if deltas.len() > 0 {
            self.lemma_skip_is_final(deltas.drop_last());
        }
    }

    /// Setting a line restarts the reveal: where a line was not revealed in
    /// full, the line that takes its place has nothing revealed, no time
    /// waited, and as many clusters to reveal as it holds.
    pub proof fn lemma_reset_restarts(self, graphemes: Seq<StyledText>)
        requires
            self.wf(),
            self.revealed < self.total(),
        ensures
            self.reset(graphemes).revealed == 0,
            self.reset(graphemes).elapsed == 0,
            self.reset(graphemes).total() == graphemes.len(),
            self.reset(graphemes).wf(),
    {
    }
}

} // verus!
