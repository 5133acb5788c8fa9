//! Frame-driven timers. Durations are counted in nanoseconds.

use vstd::prelude::*;

verus! {

/// Whether a timer stops at its duration or starts over from the remainder.
#[derive(Clone, Copy, Debug, PartialEq, Eq, Structural)]
pub enum TimerMode {
    Once,
    Repeating,
}

/// A timer that is advanced by the time that passed since the last frame.
#[derive(Clone, Copy, Debug)]
pub struct Timer {
    /// Length of one period, in nanoseconds.
    pub duration: u64,
    pub mode: TimerMode,
    /// Time counted in the current period, in nanoseconds.
    pub elapsed: u64,
    /// Whether the timer has reached its duration (for a repeating timer: in the last tick).
    pub finished: bool,
    /// How many periods ended during the last tick.
    pub times_finished_this_tick: u32,
}

/// What advancing a running timer, that has not yet finished once, by `delta` gives:
/// the new elapsed time, whether it finished, and how many periods ended.
pub open spec fn advance_spec(duration: u64, mode: TimerMode, elapsed: u64, delta: u64) -> (u64, bool, u32) {
    let total = elapsed + delta;
    if total >= duration {
        match mode {
            TimerMode::Repeating => if duration == 0 {
                (0u64, true, u32::MAX)
            } else {
                ((total % (duration as int)) as u64, true, (total / (duration as int)) as u32)
            },
            TimerMode::Once => (duration, true, 1u32),
        }
    } else {
        (total as u64, false, 0u32)
    }
}

/// Calls `bevy::time::Timer::tick` on a fresh bevy timer of the given duration and mode
/// whose elapsed time is set to `elapsed`, then reads back its elapsed time, `is_finished`
/// and `times_finished_this_tick`. The contract restates what bevy's source does for such
/// an unpaused, not yet finished timer: the elapsed time grows by `delta`; on reaching the
/// duration a once-timer clamps to it and counts one finish, a repeating timer keeps the
/// remainder and counts the whole periods (all of them, saturating, for a zero duration).
#[verifier::external_body]
fn bevy_advance(duration: u64, mode: TimerMode, elapsed: u64, delta: u64) -> (r: (u64, bool, u32))
    ensures
        r == advance_spec(duration, mode, elapsed, delta),
{
    let bevy_mode = match mode {
        TimerMode::Once => bevy::time::TimerMode::Once,
        TimerMode::Repeating => bevy::time::TimerMode::Repeating,
    };
    let mut t = bevy::time::Timer::new(core::time::Duration::from_nanos(duration), bevy_mode);
    t.set_elapsed(core::time::Duration::from_nanos(elapsed));
    t.tick(core::time::Duration::from_nanos(delta));
    (t.elapsed().as_nanos() as u64, t.is_finished(), t.times_finished_this_tick())
}

impl Timer {
    /// The timer after one tick of `delta` nanoseconds.
    pub open spec fn ticked(self, delta: u64) -> Timer {
        if self.mode == TimerMode::Once && self.finished {
            Timer { times_finished_this_tick: 0, ..self }
        } else {
            let r = advance_spec(self.duration, self.mode, self.elapsed, delta);
            Timer { elapsed: r.0, finished: r.1, times_finished_this_tick: r.2, ..self }
        }
    }

    /// The timer has the given duration (nanoseconds) and mode and has counted nothing yet.
    pub open spec fn is_fresh(self, duration: nat, mode: TimerMode) -> bool {
        &&& self.duration == duration
        &&& self.mode == mode
        &&& self.elapsed == 0
        &&& !self.finished
        &&& self.times_finished_this_tick == 0
    }

    /// A timer of the given duration (nanoseconds) and mode that has counted nothing yet.
    pub open spec fn new_spec(duration: u64, mode: TimerMode) -> Timer {
        Timer { duration, mode, elapsed: 0, finished: false, times_finished_this_tick: 0 }
    }

    /// A timer of the given duration (nanoseconds) and mode that has counted nothing yet.
    pub fn new(duration: u64, mode: TimerMode) -> (t: Timer)
        ensures
            t == Timer::new_spec(duration, mode),
    {
        Timer { duration, mode, elapsed: 0, finished: false, times_finished_this_tick: 0 }
    }

    pub fn is_finished(&self) -> (b: bool)
        ensures
            b == self.finished,
    {
        self.finished
    }

    /// Whether at least one period ended during the last tick.
    pub fn just_finished(&self) -> (b: bool)
        ensures
            b == (self.times_finished_this_tick > 0),
    {
        self.times_finished_this_tick > 0
    }

    /// Advances the timer by `delta` nanoseconds. A finished once-timer only forgets that
    /// it just finished.
    pub fn tick(&mut self, delta: u64)
        ensures
            *final(self) == old(self).ticked(delta),
    {
        if self.mode == TimerMode::Once && self.finished {
            self.times_finished_this_tick = 0;
        } else {
            let (elapsed, finished, times) = bevy_advance(self.duration, self.mode, self.elapsed, delta);
            self.elapsed = elapsed;
            self.finished = finished;
            self.times_finished_this_tick = times;
        }
    }
}


/// A once-timer never counts past its duration, and a finished once-timer stays finished
/// with its elapsed time unchanged; a tick changes neither duration nor mode.
pub proof fn lemma_once_timer_clamps(t: Timer, delta: u64)
    requires
        t.mode == TimerMode::Once,
        t.elapsed <= t.duration,
    ensures
        t.ticked(delta).elapsed <= t.duration,
        t.ticked(delta).duration == t.duration,
        t.ticked(delta).mode == t.mode,
        t.finished ==> t.ticked(delta).finished && t.ticked(delta).elapsed == t.elapsed
            && t.ticked(delta).times_finished_this_tick == 0,
{
}

/// A tick in which a period ended leaves the timer finished.
pub proof fn lemma_just_finished_is_finished(t: Timer, delta: u64)
    ensures
        t.ticked(delta).times_finished_this_tick > 0 ==> t.ticked(delta).finished,
{
}

/// A repeating timer wraps around: after a tick it holds less than one period, and the
/// periods that ended plus what it holds add up to the time it had counted plus `delta`.
pub proof fn lemma_repeating_timer_wraps(t: Timer, delta: u64)
    requires
        t.mode == TimerMode::Repeating,
        t.duration > 0,
        (t.elapsed + delta) / (t.duration as int) <= u32::MAX,
    ensures
        t.ticked(delta).elapsed < t.duration,
        t.ticked(delta).times_finished_this_tick * t.duration + t.ticked(delta).elapsed == t.elapsed + delta,
{
    let total: int = t.elapsed + delta;
    let d: int = t.duration as int;
    vstd::arithmetic::div_mod::lemma_fundamental_div_mod(total, d);
    vstd::arithmetic::mul::lemma_mul_is_commutative(d, total / d);
    if total < d {
        assert(total / d == 0) by {
            vstd::arithmetic::div_mod::lemma_basic_div(total, d);
        };
        assert(total % d == total) by {
            vstd::arithmetic::div_mod::lemma_small_mod(total as nat, d as nat);
        };
    }
}

} // verus!
