//! A one-shot countdown in whole nanoseconds.

use vstd::prelude::*;

verus! {

/// A countdown that runs once. It reports the tick on which it completes, and only that
/// tick.
#[derive(Clone, Copy, Debug, PartialEq, Eq, Structural)]
pub struct Timer {
    /// Time the countdown takes, in nanoseconds.
    pub duration: u64,
    /// Time counted so far, in nanoseconds; it stops at `duration`.
    pub elapsed: u64,
    /// Whether the countdown has completed.
    pub finished: bool,
    /// Whether the countdown completed on the latest tick.
    pub just_finished: bool,
}

impl Timer {
    /// A countdown of `duration` nanoseconds on which no time has passed.
    pub open spec fn fresh(duration: u64) -> Timer {
        Timer { duration, elapsed: 0, finished: false, just_finished: false }
    }

    /// The countdown after `delta` more nanoseconds.
    ///
    /// A completed countdown stays as it is and no longer reports completion. A running
    /// one completes on the tick that brings the time counted up to its duration.
    pub open spec fn ticked(self, delta: u64) -> Timer {
        if self.finished {
            Timer { just_finished: false, ..self }
        } else if self.elapsed + delta >= self.duration {
            Timer { elapsed: self.duration, finished: true, just_finished: true, ..self }
        } else {
            Timer { elapsed: (self.elapsed + delta) as u64, just_finished: false, ..self }
        }
    }

    /// What holds of every countdown made by `new` and advanced by `tick`.
    pub open spec fn wf(self) -> bool {
        &&& self.elapsed <= self.duration
        &&& self.finished ==> self.elapsed == self.duration
        &&& self.just_finished ==> self.finished
    }

    /// A countdown that has not completed.
    pub open spec fn running(self) -> bool {
        self.wf() && !self.finished
    }

    /// Start a countdown of `duration` nanoseconds.
    pub fn new(duration: u64) -> (t: Timer)
        ensures
            t == Timer::fresh(duration),
            t.running(),
    {
        Timer { duration, elapsed: 0, finished: false, just_finished: false }
    }

    /// Advance the countdown by `delta` nanoseconds.
    pub fn tick(&mut self, delta: u64)
        ensures
            *final(self) == old(self).ticked(delta),
    {
        if self.finished {
            self.just_finished = false;
        } else {
            let reached: bool = match self.elapsed.checked_add(delta) {
                Some(sum) => sum >= self.duration,
                None => true,
            };
            if reached {
                self.elapsed = self.duration;
                self.finished = true;
                self.just_finished = true;
            } else {
                self.elapsed = self.elapsed + delta;
                self.just_finished = false;
            }
        }
    }

    /// Whether the countdown has completed.
    pub fn finished(&self) -> (b: bool)
        ensures
            b == self.finished,
    {
        self.finished
    }

    /// Whether the countdown completed on the latest tick.
    pub fn just_finished(&self) -> (b: bool)
        ensures
            b == self.just_finished,
    {
        self.just_finished
    }

    /// Time counted so far, in nanoseconds.
    pub fn elapsed(&self) -> (n: u64)
        ensures
            n == self.elapsed,
    {
        self.elapsed
    }

    /// Time the countdown takes, in nanoseconds.
    pub fn duration(&self) -> (n: u64)
        ensures
            n == self.duration,
    {
        self.duration
    }
}

/// Ticking keeps a countdown well formed, never takes time back, and never undoes
/// completion.
pub proof fn lemma_tick_monotone(t: Timer, delta: u64)
    requires
        t.wf(),
    ensures
        t.ticked(delta).wf(),
        t.ticked(delta).duration == t.duration,
        t.elapsed <= t.ticked(delta).elapsed,
        t.finished ==> t.ticked(delta).finished,
{
}

/// Completion is reported on the tick that completes the countdown and on no other: a
/// tick reports it exactly when the countdown was running before and is complete after.
pub proof fn lemma_completion_is_an_edge(t: Timer, delta: u64)
    requires
        t.wf(),
    ensures
        t.ticked(delta).just_finished <==> (!t.finished && t.ticked(delta).finished),
        t.ticked(delta).just_finished <==> (!t.finished && t.elapsed + delta >= t.duration),
{
}

/// A countdown reports completion at most once: after a tick that reported it, no later
/// tick does.
pub proof fn lemma_completion_reported_once(t: Timer, first: u64, later: Seq<u64>)
    requires
        t.wf(),
        t.ticked(first).just_finished,
    ensures
        forall|k: int| 0 < k <= later.len() ==> !(#[trigger] ticked_through(t.ticked(first), later.take(k))).just_finished,
{
    assert forall|k: int| 0 < k <= later.len() implies !(#[trigger] ticked_through(
        t.ticked(first),
        later.take(k),
    )).just_finished by {
        lemma_finished_stays(t.ticked(first), later.take(k));
    }
}

/// The countdown after one tick for each entry of `deltas`, in order.
pub open spec fn ticked_through(t: Timer, deltas: Seq<u64>) -> Timer
    decreases deltas.len(),
{
    if deltas.len() == 0 {
        t
    } else {
        ticked_through(t, deltas.drop_last()).ticked(deltas.last())
    }
}

/// Once complete, a countdown stays complete through any ticks and reports nothing more.
pub proof fn lemma_finished_stays(t: Timer, deltas: Seq<u64>)
    requires
        t.finished,
    ensures
        ticked_through(t, deltas).finished,
        deltas.len() > 0 ==> !ticked_through(t, deltas).just_finished,
    decreases deltas.len(),
{
    if deltas.len() > 0 {
        lemma_finished_stays(t, deltas.drop_last());
    }
}

} // verus!
