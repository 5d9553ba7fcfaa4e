//! Countdown timers that are advanced by the frame's elapsed time.
//!
//! The state of a timer is held as plain integers; the step itself is taken by
//! `bevy::time::Timer`.

use bevy::time::Timer as EngineTimer;
use bevy::time::TimerMode as EngineTimerMode;
use core::time::Duration;
use vstd::prelude::*;

verus! {

/// What a timer does once its duration is reached.
#[derive(Clone, Copy, Debug, PartialEq, Eq, Structural)]
pub enum TimerMode {
    /// Stays finished until reset.
    Once,
    /// Starts over, keeping the overshoot.
    Repeating,
}

/// A timer: nanoseconds to run, nanoseconds run so far, and what the last
/// tick found.
#[derive(Clone, Copy, Debug, PartialEq, Eq, Structural)]
pub struct Timer {
    pub duration: u64,
    pub elapsed: u64,
    pub mode: TimerMode,
    pub finished: bool,
    pub times_finished_this_tick: u32,
}

/// Reading of a timer after one step: time run, whether the duration was
/// reached, and how often.
pub struct Reading {
    pub elapsed: u64,
    pub finished: bool,
    pub times_finished: u32,
}

/// Reading of a timer that was not finished, had run `elapsed` of `duration`
/// and is stepped by `delta`.
pub open spec fn stepped(duration: u64, elapsed: u64, mode: TimerMode, delta: u64) -> Reading {
    let total = elapsed + delta;
    if total < duration {
        Reading { elapsed: total as u64, finished: false, times_finished: 0 }
    } else if mode == TimerMode::Once {
        Reading { elapsed: duration, finished: true, times_finished: 1 }
    } else if duration == 0 {
        Reading { elapsed: 0, finished: true, times_finished: u32::MAX }
    } else {
        Reading {
            elapsed: (total % (duration as int)) as u64,
            finished: true,
            times_finished: ((total / (duration as int)) % 0x1_0000_0000) as u32,
        }
    }
}

/// Steps a fresh `bevy::time::Timer` of the given duration and mode, set to
/// `elapsed`, by `delta`, and reads it.
///
/// Claimed of `Timer::tick` on a timer that is neither paused nor finished:
/// below the duration the time adds up and nothing finishes; from the duration
/// on a one-shot timer stops at its duration and finishes once, a repeating one
/// keeps the remainder and finishes once per full duration, the count cut to 32
/// bits, and one of duration zero restarts at zero with the largest count.
#[verifier::external_body]
fn engine_tick(duration: u64, elapsed: u64, mode: TimerMode, delta: u64) -> (reading: Reading)
    ensures
        reading == stepped(duration, elapsed, mode, delta),
{
    let engine_mode = match mode {
        TimerMode::Once => EngineTimerMode::Once,
        TimerMode::Repeating => EngineTimerMode::Repeating,
    };
    let mut timer = EngineTimer::new(Duration::from_nanos(duration), engine_mode);
    timer.set_elapsed(Duration::from_nanos(elapsed));
    timer.tick(Duration::from_nanos(delta));
    Reading {
        elapsed: timer.elapsed().as_nanos() as u64,
        finished: timer.is_finished(),
        times_finished: timer.times_finished_this_tick(),
    }
}

impl Timer {
    /// A timer at zero that has not finished.
    pub open spec fn fresh(duration: u64, mode: TimerMode) -> Timer {
        Timer { duration, elapsed: 0, mode, finished: false, times_finished_this_tick: 0 }
    }

    /// The timer after a step of `delta` nanoseconds. A finished one-shot timer
    /// only forgets that it has just finished.
    pub open spec fn ticked(self, delta: u64) -> Timer {
        if self.mode == TimerMode::Once && self.finished {
            Timer { times_finished_this_tick: 0, ..self }
        } else {
            let reading = stepped(self.duration, self.elapsed, self.mode, delta);
            Timer {
                elapsed: reading.elapsed,
                finished: reading.finished,
                times_finished_this_tick: reading.times_finished,
                ..self
            }
        }
    }

    /// Whether the last tick reached the duration.
    pub open spec fn spec_just_finished(self) -> bool {
        self.times_finished_this_tick > 0
    }

    /// The timer set back to zero.
    pub open spec fn restarted(self) -> Timer {
        Timer { elapsed: 0, finished: false, times_finished_this_tick: 0, ..self }
    }

    /// The timer after one step for each entry of `deltas`, in order.
    pub open spec fn ticked_through(self, deltas: Seq<u64>) -> Timer
        decreases deltas.len(),
    {
        if deltas.len() == 0 {
            self
        } else {
            self.ticked(deltas[0]).ticked_through(deltas.drop_first())
        }
    }

    /// A new timer of `duration` nanoseconds.
    pub fn new(duration: u64, mode: TimerMode) -> (timer: Timer)
        ensures
            timer == Timer::fresh(duration, mode),
    {
        Timer { duration, elapsed: 0, mode, finished: false, times_finished_this_tick: 0 }
    }

    /// Advances the timer by `delta` nanoseconds.
    pub fn tick(&mut self, delta: u64)
        ensures
            *final(self) == old(self).ticked(delta),
    {
        match self.mode {
            TimerMode::Once => {
                if self.finished {
                    self.times_finished_this_tick = 0;
                    return ;
                }
            },
            TimerMode::Repeating => {},
        }
        let reading = engine_tick(self.duration, self.elapsed, self.mode, delta);
        self.elapsed = reading.elapsed;
        self.finished = reading.finished;
        self.times_finished_this_tick = reading.times_finished;
    }

    /// Whether the timer has reached its duration.
    pub fn is_finished(&self) -> (r: bool)
        ensures
            r == self.finished,
    {
        self.finished
    }

    /// Whether the last tick reached the duration.
    pub fn just_finished(&self) -> (r: bool)
        ensures
            r == self.spec_just_finished(),
    {
        self.times_finished_this_tick > 0
    }

    /// Sets the timer back to zero.
    pub fn reset(&mut self)
        ensures
            *final(self) == old(self).restarted(),
    {
        self.elapsed = 0;
        self.finished = false;
        self.times_finished_this_tick = 0;
    }

    /// Sets the time run so far; what the last tick found stays.
    pub fn set_elapsed(&mut self, elapsed: u64)
        ensures
            *final(self) == (Timer { elapsed, ..*old(self) }),
    {
        self.elapsed = elapsed;
    }
}

/// While the steps add up to less than what is left of the duration, an
/// unfinished timer stays unfinished.
pub proof fn lemma_unfinished_before_duration(timer: Timer, deltas: Seq<u64>)
    requires
        !timer.finished,
        timer.elapsed + total(deltas) < timer.duration,
    ensures
        !timer.ticked_through(deltas).finished,
        timer.ticked_through(deltas).elapsed == timer.elapsed + total(deltas),
        timer.ticked_through(deltas).duration == timer.duration,
    decreases deltas.len(),
{
    if deltas.len() > 0 {
        lemma_total_nonnegative(deltas.drop_first());
        lemma_unfinished_before_duration(timer.ticked(deltas[0]), deltas.drop_first());
    }
}

/// Sum of the steps.
pub open spec fn total(deltas: Seq<u64>) -> int
    decreases deltas.len(),
{
    if deltas.len() == 0 {
        0
    } else {
        deltas[0] + total(deltas.drop_first())
    }
}

/// A sum of steps is never negative.
pub proof fn lemma_total_nonnegative(deltas: Seq<u64>)
    ensures
        total(deltas) >= 0,
    decreases deltas.len(),
{
    if deltas.len() > 0 {
        lemma_total_nonnegative(deltas.drop_first());
    }
}

/// Once the steps add up to what is left of the duration, an unfinished
/// one-shot timer is finished.
pub proof fn lemma_finished_after_duration(timer: Timer, deltas: Seq<u64>)
    requires
        timer.mode == TimerMode::Once,
        !timer.finished,
        timer.elapsed + total(deltas) >= timer.duration,
        deltas.len() > 0,
    ensures
        timer.ticked_through(deltas).finished,
    decreases deltas.len(),
{
    let next = timer.ticked(deltas[0]);
    let rest = deltas.drop_first();
    if next.finished {
        lemma_once_stays_finished(next, rest);
    } else {
        assert(next.elapsed == timer.elapsed + deltas[0]);
        if rest.len() == 0 {
            assert(total(rest) == 0);
        }
        lemma_finished_after_duration(next, rest);
    }
}

/// A finished one-shot timer stays finished under any steps.
pub proof fn lemma_once_stays_finished(timer: Timer, deltas: Seq<u64>)
    requires
        timer.mode == TimerMode::Once,
        timer.finished,
    ensures
        timer.ticked_through(deltas).finished,
    decreases deltas.len(),
{
    if deltas.len() > 0 {
        lemma_once_stays_finished(timer.ticked(deltas[0]), deltas.drop_first());
    }
}

} // verus!
