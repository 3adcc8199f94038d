//! A countdown that either stops at its duration or starts over.
//!
//! The timer keeps its state as plain numbers of nanoseconds. Advancing it is
//! left to the engine's own timer, so that a cadence measured here is the
//! cadence the engine would measure.

use vstd::prelude::*;
use vstd::arithmetic::div_mod::{
    lemma_fundamental_div_mod, lemma_hoist_over_denominator, lemma_mod_bound,
    lemma_mod_multiples_vanish, lemma_small_mod,
};

verus! {

/// What a timer does when it reaches its duration.
#[derive(Clone, Copy, Debug, PartialEq, Eq, Structural)]
pub enum TimerMode {
    /// Stop there and stay finished until reset.
    Once,
    /// Start over, and be finished only for the tick that reached the duration.
    Repeating,
}

/// One tick of a running timer: the elapsed time and the finished flag that
/// a timer with `duration` and `elapsed` nanoseconds has after `delta` more.
pub open spec fn advanced(duration: nat, mode: TimerMode, elapsed: nat, delta: nat) -> (nat, bool) {
    let total = elapsed + delta;
    if total < duration {
        (total, false)
    } else if mode == TimerMode::Once {
        (duration, true)
    } else if duration == 0 {
        (0, true)
    } else {
        (total % duration, true)
    }
}

/// The sum of a sequence of frame times.
pub open spec fn total(deltas: Seq<nat>) -> nat
    decreases deltas.len(),
{
    if deltas.len() == 0 {
        0
    } else {
        total(deltas.drop_last()) + deltas.last()
    }
}

/// A timer as contracts see it. Times are in nanoseconds.
pub struct TimerView {
    pub duration: nat,
    pub elapsed: nat,
    pub mode: TimerMode,
    pub finished: bool,
}

impl TimerView {
    /// A timer that has not run yet.
    pub open spec fn fresh(duration: nat, mode: TimerMode) -> TimerView {
        TimerView { duration, elapsed: 0, mode, finished: false }
    }

    /// The elapsed time never passes the duration, a repeating timer stays
    /// below it, and a finished one-shot timer rests on it.
    pub open spec fn wf(self) -> bool {
        &&& self.elapsed <= self.duration
        &&& (self.mode == TimerMode::Repeating && self.duration > 0 ==> self.elapsed < self.duration)
        &&& (self.mode == TimerMode::Once && self.finished ==> self.elapsed == self.duration)
    }

    /// The timer after `delta` more nanoseconds. A finished one-shot timer
    /// stays as it is.
    pub open spec fn tick(self, delta: nat) -> TimerView {
        if self.mode == TimerMode::Once && self.finished {
            self
        } else {
            let next = advanced(self.duration, self.mode, self.elapsed, delta);
            TimerView { elapsed: next.0, finished: next.1, ..self }
        }
    }

    /// The timer after one tick for each of `deltas`, in order.
    pub open spec fn tick_all(self, deltas: Seq<nat>) -> TimerView
        decreases deltas.len(),
    {
        if deltas.len() == 0 {
            self
        } else {
            self.tick_all(deltas.drop_last()).tick(deltas.last())
        }
    }

    /// The timer set back to its start.
    pub open spec fn reset(self) -> TimerView {
        TimerView { elapsed: 0, finished: false, ..self }
    }
}

/// Ticks a timer of the engine. The timer is made by `bevy::time::Timer::new`
/// with the given duration and mode, `set_elapsed` puts `elapsed` on it, and
/// `tick` advances it by `delta`; all three are in nanoseconds. The contract
/// says what `tick` leaves in `elapsed()` and `finished()`: the sum where it is
/// below the duration, else the duration for a one-shot timer and the sum's
/// remainder for a repeating one.
#[verifier::external_body]
fn tick_engine_timer(duration: u64, mode: TimerMode, elapsed: u64, delta: u64) -> (r: (u64, bool))
    ensures
        (r.0 as nat, r.1) == advanced(duration as nat, mode, elapsed as nat, delta as nat),
{
    let mode = match mode {
        TimerMode::Once => bevy::time::TimerMode::Once,
        TimerMode::Repeating => bevy::time::TimerMode::Repeating,
    };
    let mut timer = bevy::time::Timer::new(std::time::Duration::from_nanos(duration), mode);
    timer.set_elapsed(std::time::Duration::from_nanos(elapsed));
    timer.tick(std::time::Duration::from_nanos(delta));
    (timer.elapsed().as_nanos() as u64, timer.finished())
}

/// A countdown over nanoseconds.
#[derive(Clone, Copy, Debug, PartialEq, Eq, Structural)]
pub struct Timer {
    duration: u64,
    elapsed: u64,
    mode: TimerMode,
    finished: bool,
}

impl View for Timer {
    type V = TimerView;

    closed spec fn view(&self) -> TimerView {
        TimerView {
            duration: self.duration as nat,
            elapsed: self.elapsed as nat,
            mode: self.mode,
            finished: self.finished,
        }
    }
}

impl Timer {
    /// Whether the timer's state is one that `new`, `tick` and `reset` can
    /// have left.
    pub open spec fn wf(&self) -> bool {
        self@.wf()
    }

    /// A timer of `duration` nanoseconds that has not run yet.
    pub fn new(duration: u64, mode: TimerMode) -> (timer: Timer)
        ensures
            timer@ == TimerView::fresh(duration as nat, mode),
            timer.wf(),
    {
        Timer { duration, elapsed: 0, mode, finished: false }
    }

    /// Advances the timer by `delta` nanoseconds and leaves the duration and
    /// the mode as they were.
    pub fn tick(&mut self, delta: u64)
        requires
            old(self).wf(),
        ensures
            final(self)@ == old(self)@.tick(delta as nat),
            final(self).wf(),
    {
        let next = tick_engine_timer(self.duration, self.mode, self.elapsed, delta);
        proof {
            if self.mode == TimerMode::Repeating && self.duration > 0 && self.elapsed + delta
                >= self.duration {
                lemma_mod_bound(self.elapsed + delta, self.duration as int);
            }
        }
        self.elapsed = next.0;
        self.finished = next.1;
    }

    /// Whether the last tick reached the duration or, for a one-shot timer,
    /// any tick since the last reset did.
    pub fn finished(&self) -> (done: bool)
        ensures
            done == self@.finished,
    {
        self.finished
    }

    /// Sets the elapsed time back to zero. The timer is not finished
    /// afterwards, whatever it was before.
    pub fn reset(&mut self)
        ensures
            final(self)@ == old(self)@.reset(),
            !final(self)@.finished,
            final(self).wf(),
    {
        self.elapsed = 0;
        self.finished = false;
    }

    /// Nanoseconds since the timer started or last started over.
    pub fn elapsed(&self) -> (nanos: u64)
        ensures
            nanos == self@.elapsed,
    {
        self.elapsed
    }

    /// Nanoseconds from start to finish.
    pub fn duration(&self) -> (nanos: u64)
        ensures
            nanos == self@.duration,
    {
        self.duration
    }

    pub fn mode(&self) -> (mode: TimerMode)
        ensures
            mode == self@.mode,
    {
        self.mode
    }
}

/// Ticking keeps a timer well formed.
pub proof fn lemma_tick_wf(timer: TimerView, delta: nat)
    requires
        timer.wf(),
    ensures
        timer.tick(delta).wf(),
{
    if timer.mode == TimerMode::Repeating && timer.duration > 0 && timer.elapsed + delta
        >= timer.duration {
        lemma_mod_bound((timer.elapsed + delta) as int, timer.duration as int);
    }
}

/// One tick of a repeating timer in terms of the time accumulated since it
/// started: where the elapsed time is what `before` leaves over a whole
/// number of periods, the elapsed time after `delta` more is what
/// `before + delta` leaves, and the timer is finished exactly if a period was
/// completed in between.
proof fn lemma_tick_accumulates(timer: TimerView, before: nat, delta: nat)
    requires
        timer.mode == TimerMode::Repeating,
        timer.duration > 0,
        timer.elapsed == before % timer.duration,
    ensures
        timer.tick(delta).elapsed == (before + delta) % timer.duration,
        timer.tick(delta).finished <==> (before + delta) / timer.duration > before
            / timer.duration,
        timer.tick(delta).duration == timer.duration,
        timer.tick(delta).mode == timer.mode,
{
    let d = timer.duration as int;
    let q = before as int / d;
    let r = before as int % d;
    let sum = r + delta;
    lemma_fundamental_div_mod(before as int, d);
    lemma_mod_bound(before as int, d);
    let after = (before + delta) as int;
    assert(after == d * q + sum);
    lemma_mod_multiples_vanish(q, sum, d);
    assert((d * q + sum) % d == sum % d);
    lemma_hoist_over_denominator(sum, q, d as nat);
    assert(sum / d + q == (sum + q * d) / d);
    assert(q * d == d * q) by (nonlinear_arith);
    assert(after / d == sum / d + q);
    if sum < d {
        lemma_small_mod(sum as nat, d as nat);
        assert(sum / d == 0) by (nonlinear_arith)
            requires
                0 <= sum < d,
        ;
    } else {
        assert(sum / d >= 1) by (nonlinear_arith)
            requires
                sum >= d,
                d > 0,
        ;
    }
}

/// A repeating timer marks the multiples of its period. Fed any frame times,
/// a timer that starts fresh holds as elapsed time what the accumulated time
/// leaves over a whole number of periods, and a tick finishes it exactly if
/// the accumulated time reached or passed a multiple of the period during
/// that tick. A reset leaves it unfinished and as it was at the start.
pub proof fn lemma_repeating_timer_marks_multiples(duration: nat, deltas: Seq<nat>)
    requires
        duration > 0,
        deltas.len() > 0,
    ensures
        ({
            let timer = TimerView::fresh(duration, TimerMode::Repeating).tick_all(deltas);
            &&& timer.elapsed == total(deltas) % duration
            &&& timer.finished <==> total(deltas) / duration > total(deltas.drop_last())
                / duration
            &&& !timer.reset().finished
            &&& timer.reset() == TimerView::fresh(duration, TimerMode::Repeating)
        }),
{
    let start = TimerView::fresh(duration, TimerMode::Repeating);
    lemma_tick_all_accumulates(start, deltas.drop_last());
    lemma_tick_accumulates(
        start.tick_all(deltas.drop_last()),
        total(deltas.drop_last()),
        deltas.last(),
    );
}

/// The elapsed time of a repeating timer that started fresh, after any
/// frame times.
proof fn lemma_tick_all_accumulates(start: TimerView, deltas: Seq<nat>)
    requires
        start.mode == TimerMode::Repeating,
        start.duration > 0,
        start.elapsed == 0,
    ensures
        start.tick_all(deltas).elapsed == total(deltas) % start.duration,
        start.tick_all(deltas).duration == start.duration,
        start.tick_all(deltas).mode == start.mode,
    decreases deltas.len(),
{
    if deltas.len() == 0 {
        lemma_small_mod(0, start.duration);
    } else {
        lemma_tick_all_accumulates(start, deltas.drop_last());
        lemma_tick_accumulates(
            start.tick_all(deltas.drop_last()),
            total(deltas.drop_last()),
            deltas.last(),
        );
    }
}

} // verus!
