//! Enemy kinds and the waves in which enemies are sent.

use vstd::prelude::*;

use crate::timer::{Timer, TimerMode};

verus! {

/// Number of enemy kinds.
pub const ENEMY_KINDS: u8 = 3;

/// Starting health of an enemy of kind `kind`.
pub open spec fn enemy_health_spec(kind: u8) -> i32 {
    if kind == 0 {
        40
    } else if kind == 1 {
        100
    } else {
        200
    }
}

/// Starting health of an enemy of kind `kind`.
pub fn enemy_health(kind: u8) -> (h: i32)
    requires
        kind < ENEMY_KINDS,
    ensures
        h == enemy_health_spec(kind),
{
    if kind == 0 {
        40
    } else if kind == 1 {
        100
    } else {
        200
    }
}

/// A group of `count` enemies of one kind: after a start delay, one enemy each time the
/// spawn timer ends a period.
#[derive(Clone, Copy, Debug)]
pub struct Burst {
    pub kind: u8,
    pub count: u8,
    pub start_timer: Timer,
    pub spawn_timer: Timer,
}

impl Burst {
    /// Whether a tick of `delta` sends an enemy.
    pub open spec fn fires(self, delta: u64) -> bool {
        &&& self.start_timer.ticked(delta).finished
        &&& self.spawn_timer.ticked(delta).times_finished_this_tick > 0
    }

    /// The burst after a tick of `delta`.
    pub open spec fn ticked(self, delta: u64) -> Burst {
        let start = self.start_timer.ticked(delta);
        if !start.finished {
            Burst { start_timer: start, ..self }
        } else {
            let spawn = self.spawn_timer.ticked(delta);
            Burst {
                start_timer: start,
                spawn_timer: spawn,
                count: if spawn.times_finished_this_tick > 0 { (self.count - 1) as u8 } else { self.count },
                ..self
            }
        }
    }

    /// The kinds of the enemies that a tick of `delta` sends.
    pub open spec fn spawned(self, delta: u64) -> Seq<u8> {
        if self.fires(delta) {
            seq![self.kind]
        } else {
            seq![]
        }
    }

    /// The start timer runs once and has not counted past its delay; the spawn timer repeats
    /// and holds less than one period (nothing, for a zero period).
    pub open spec fn timers_wf(self) -> bool {
        &&& self.start_timer.mode == TimerMode::Once
        &&& self.start_timer.elapsed <= self.start_timer.duration
        &&& self.spawn_timer.mode == TimerMode::Repeating
        &&& (self.spawn_timer.elapsed < self.spawn_timer.duration || (self.spawn_timer.duration == 0
            && self.spawn_timer.elapsed == 0))
    }

    /// The burst still has enemies to send and its timers are well formed.
    pub open spec fn is_active(self) -> bool {
        self.count > 0 && self.timers_wf()
    }

    /// A tick of `delta` does not send an enemy from an exhausted burst.
    pub open spec fn can_tick(self, delta: u64) -> bool {
        self.count > 0 || !self.fires(delta)
    }

    /// A burst of `count` enemies of kind `kind` that starts after `start_delay` and then
    /// sends one enemy every `spawn_interval` (both in nanoseconds).
    pub fn new(kind: u8, count: u8, start_delay: u64, spawn_interval: u64) -> (b: Burst)
        ensures
            b.kind == kind,
            b.count == count,
            b.start_timer == Timer::new_spec(start_delay, TimerMode::Once),
            b.spawn_timer == Timer::new_spec(spawn_interval, TimerMode::Repeating),
    {
        Burst {
            kind,
            count,
            start_timer: Timer::new(start_delay, TimerMode::Once),
            spawn_timer: Timer::new(spawn_interval, TimerMode::Repeating),
        }
    }

    /// Advances the burst by `frame_delta` nanoseconds and returns the kinds of the
    /// enemies to spawn now (at most one).
    pub fn update(&mut self, frame_delta: u64) -> (spawn_kinds: Vec<u8>)
        requires
            old(self).can_tick(frame_delta),
        ensures
            *final(self) == old(self).ticked(frame_delta),
            spawn_kinds@ == old(self).spawned(frame_delta),
            final(self).kind == old(self).kind,
            final(self).start_timer == old(self).start_timer.ticked(frame_delta),
            old(self).start_timer.ticked(frame_delta).finished ==> final(self).spawn_timer
                == old(self).spawn_timer.ticked(frame_delta),
            !old(self).start_timer.ticked(frame_delta).finished ==> final(self).spawn_timer
                == old(self).spawn_timer,
            spawn_kinds@.len() <= 1,
            spawn_kinds@.len() + final(self).count == old(self).count,
            spawn_kinds@.len() == 1 <==> (old(self).start_timer.ticked(frame_delta).finished
                && old(self).spawn_timer.ticked(frame_delta).times_finished_this_tick > 0),
            spawn_kinds@.len() == 1 ==> spawn_kinds@[0] == old(self).kind,
    {
        self.start_timer.tick(frame_delta);
        if !self.start_timer.is_finished() {
            return Vec::new();
        }
        self.spawn_timer.tick(frame_delta);
        if self.spawn_timer.just_finished() {
            self.count = self.count - 1;
            let mut kinds = Vec::new();
            kinds.push(self.kind);
            return kinds;
        }
        Vec::new()
    }

    /// Whether every enemy of the burst has been sent.
    pub fn is_completed(&self) -> (b: bool)
        ensures
            b == (self.count == 0),
    {
        self.count == 0
    }
}

/// The kinds that a tick of `delta` sends from the bursts `bs`, in their order.
pub open spec fn wave_spawned(bs: Seq<Burst>, delta: u64) -> Seq<u8>
    decreases bs.len(),
{
    if bs.len() == 0 {
        seq![]
    } else {
        wave_spawned(bs.drop_last(), delta) + bs.last().spawned(delta)
    }
}

/// The bursts `bs` after a tick of `delta`, without those that have sent all their enemies.
pub open spec fn wave_kept(bs: Seq<Burst>, delta: u64) -> Seq<Burst>
    decreases bs.len(),
{
    if bs.len() == 0 {
        seq![]
    } else {
        let b = bs.last().ticked(delta);
        wave_kept(bs.drop_last(), delta) + if b.count > 0 { seq![b] } else { seq![] }
    }
}

/// Every burst of `bs` may be ticked by `delta`.
pub open spec fn bursts_can_tick(bs: Seq<Burst>, delta: u64) -> bool {
    forall|i: int| 0 <= i < bs.len() ==> #[trigger] bs[i].can_tick(delta)
}

/// A wave of enemies: bursts that run side by side.
pub struct Wave {
    pub bursts: Vec<Burst>,
}

impl Wave {
    /// Advances every burst by `frame_delta` nanoseconds, drops the bursts that have sent
    /// all their enemies, and returns the kinds of the enemies to spawn now.
    pub fn update(&mut self, frame_delta: u64) -> (spawn_kinds: Vec<u8>)
        requires
            bursts_can_tick(old(self).bursts@, frame_delta),
        ensures
            final(self).bursts@ == wave_kept(old(self).bursts@, frame_delta),
            spawn_kinds@ == wave_spawned(old(self).bursts@, frame_delta),
    {
        let mut spawn_kinds: Vec<u8> = Vec::new();
        let mut kept: Vec<Burst> = Vec::new();
        let n = self.bursts.len();
        let mut i: usize = 0;
        while i < n
            invariant
                n == self.bursts.len(),
                i <= n,
                bursts_can_tick(self.bursts@, frame_delta),
                spawn_kinds@ == wave_spawned(self.bursts@.take(i as int), frame_delta),
                kept@ == wave_kept(self.bursts@.take(i as int), frame_delta),
            decreases n - i,
        {
            let mut burst = self.bursts[i];
            assert(self.bursts@.take(i + 1).drop_last() =~= self.bursts@.take(i as int));
            assert(burst.can_tick(frame_delta));
            let out = burst.update(frame_delta);
            let mut j: usize = 0;
            while j < out.len()
                invariant
                    j <= out.len(),
                    spawn_kinds@ == wave_spawned(self.bursts@.take(i as int), frame_delta) + out@.take(j as int),
                decreases out.len() - j,
            {
                spawn_kinds.push(out[j]);
                assert(out@.take(j + 1) =~= out@.take(j as int).push(out@[j as int]));
                j = j + 1;
            }
            assert(out@.take(out.len() as int) =~= out@);
            if !burst.is_completed() {
                kept.push(burst);
            }
            assert(kept@ =~= wave_kept(self.bursts@.take(i + 1), frame_delta));
            i = i + 1;
        }
        assert(self.bursts@.take(n as int) =~= self.bursts@);
        self.bursts = kept;
        spawn_kinds
    }

    /// Whether every burst of the wave has sent all its enemies.
    pub fn is_completed(&self) -> (b: bool)
        ensures
            b == (self.bursts@.len() == 0),
    {
        self.bursts.len() == 0
    }
}


/// Where a sequence of waves stands.
#[derive(Clone, Copy, Debug, PartialEq, Eq, Structural)]
pub enum WavesState {
    WaitingForNextWave,
    WaveInProgress,
    Completed,
}

/// What a sequence of waves holds: the bursts of each wave still to come (the first one
/// is the current wave), and where the sequence stands.
pub struct WavesView {
    pub waves: Seq<Seq<Burst>>,
    pub state: WavesState,
}

impl WavesView {
    /// The sequence is completed exactly when no wave is left; every burst still has
    /// enemies to send, and its timers are well formed.
    pub open spec fn wf(self) -> bool {
        &&& (self.state == WavesState::Completed <==> self.waves.len() == 0)
        &&& forall|i: int, j: int|
            0 <= i < self.waves.len() && 0 <= j < self.waves[i].len() ==> #[trigger] self.waves[i][j].is_active()
    }

    /// The sequence after a tick of `delta`, and the kinds of the enemies sent by that tick.
    pub open spec fn step(self, delta: u64) -> (WavesView, Seq<u8>) {
        match self.state {
            WavesState::WaitingForNextWave => if self.waves.len() == 0 {
                (self, seq![])
            } else {
                (WavesView { state: WavesState::WaveInProgress, ..self }, seq![])
            },
            WavesState::WaveInProgress => {
                let kept = wave_kept(self.waves[0], delta);
                let spawned = wave_spawned(self.waves[0], delta);
                if kept.len() == 0 {
                    let rest = self.waves.drop_first();
                    (
                        WavesView {
                            waves: rest,
                            state: if rest.len() == 0 {
                                WavesState::Completed
                            } else {
                                WavesState::WaitingForNextWave
                            },
                        },
                        spawned,
                    )
                } else {
                    (WavesView { waves: self.waves.update(0, kept), state: self.state }, spawned)
                }
            },
            WavesState::Completed => (self, seq![]),
        }
    }
}

/// The sequence of enemy waves of a game.
pub struct Waves {
    waves: Vec<Wave>,
    state: WavesState,
}

impl Waves {
    #[verifier::type_invariant]
    closed spec fn inv(self) -> bool {
        self@.wf()
    }
}

impl View for Waves {
    type V = WavesView;

    closed spec fn view(&self) -> WavesView {
        WavesView { waves: self.waves@.map_values(|w: Wave| w.bursts@), state: self.state }
    }
}

/// The waves of a new game: first 20 enemies of kind 0 (from 2 s on, one every 0.3 s)
/// beside 10 of kind 1 (from 2.5 s on, one every 0.6 s); then 10 of kind 2 (from 1 s on,
/// one every second).
pub open spec fn initial_waves() -> Seq<Seq<Burst>> {
    seq![
        seq![
            Burst {
                kind: 0,
                count: 20,
                start_timer: Timer::new_spec(2_000_000_000, TimerMode::Once),
                spawn_timer: Timer::new_spec(300_000_000, TimerMode::Repeating),
            },
            Burst {
                kind: 1,
                count: 10,
                start_timer: Timer::new_spec(2_500_000_000, TimerMode::Once),
                spawn_timer: Timer::new_spec(600_000_000, TimerMode::Repeating),
            },
        ],
        seq![
            Burst {
                kind: 2,
                count: 10,
                start_timer: Timer::new_spec(1_000_000_000, TimerMode::Once),
                spawn_timer: Timer::new_spec(1_000_000_000, TimerMode::Repeating),
            },
        ],
    ]
}

impl Waves {
    /// The waves of a new game, waiting for the first one to start.
    pub fn load() -> (w: Waves)
        ensures
            w@ == (WavesView { waves: initial_waves(), state: WavesState::WaitingForNextWave }),
            w@.wf(),
            w@.state == WavesState::WaitingForNextWave,
            w@.waves.len() == 2,
            w@.waves[0].len() == 2,
            w@.waves[1].len() == 1,
            // first wave: 20 of kind 0 from 2 s on, one every 0.3 s ...
            w@.waves[0][0].kind == 0 && w@.waves[0][0].count == 20,
            w@.waves[0][0].start_timer.is_fresh(2000 * 1_000_000, TimerMode::Once),
            w@.waves[0][0].spawn_timer.is_fresh(300 * 1_000_000, TimerMode::Repeating),
            // ... beside 10 of kind 1 from 2.5 s on, one every 0.6 s
            w@.waves[0][1].kind == 1 && w@.waves[0][1].count == 10,
            w@.waves[0][1].start_timer.is_fresh(2500 * 1_000_000, TimerMode::Once),
            w@.waves[0][1].spawn_timer.is_fresh(600 * 1_000_000, TimerMode::Repeating),
            // second wave: 10 of kind 2 from 1 s on, one every second
            w@.waves[1][0].kind == 2 && w@.waves[1][0].count == 10,
            w@.waves[1][0].start_timer.is_fresh(1000 * 1_000_000, TimerMode::Once),
            w@.waves[1][0].spawn_timer.is_fresh(1000 * 1_000_000, TimerMode::Repeating),
    {
        let mut first: Vec<Burst> = Vec::new();
        first.push(Burst::new(0, 20, 2_000_000_000, 300_000_000));
        first.push(Burst::new(1, 10, 2_500_000_000, 600_000_000));
        let mut second: Vec<Burst> = Vec::new();
        second.push(Burst::new(2, 10, 1_000_000_000, 1_000_000_000));
        assert(first@ =~= initial_waves()[0]);
        assert(second@ =~= initial_waves()[1]);
        let mut waves: Vec<Wave> = Vec::new();
        waves.push(Wave { bursts: first });
        waves.push(Wave { bursts: second });
        let w = Waves { waves, state: WavesState::WaitingForNextWave };
        assert(w@.waves =~= initial_waves());
        w
    }

    /// Where the sequence stands.
    pub fn state(&self) -> (s: WavesState)
        ensures
            s == self@.state,
            self@.wf(),
    {
        proof {
            use_type_invariant(self);
        }
        self.state
    }

    /// Number of waves still to come, the current one included.
    pub fn waves_left(&self) -> (n: usize)
        ensures
            n == self@.waves.len(),
    {
        self.waves.len()
    }

    /// Advances the current wave by `frame_delta` nanoseconds and returns the kinds of the
    /// enemies to spawn now. A waiting sequence starts its next wave (and spawns nothing);
    /// a finished wave is dropped, and the sequence then waits for the next one or is
    /// completed.
    pub fn update(&mut self, frame_delta: u64) -> (spawn_kinds: Vec<u8>)
        ensures
            old(self)@.wf(),
            final(self)@ == old(self)@.step(frame_delta).0,
            spawn_kinds@ == old(self)@.step(frame_delta).1,
            final(self)@.wf(),
    {
        proof {
            use_type_invariant(&*self);
        }
        let mut current = Waves { waves: Vec::new(), state: WavesState::Completed };
        core::mem::swap(self, &mut current);
        proof {
            use_type_invariant(&current);
            lemma_step_preserves_wf(current@, frame_delta);
        }
        let ghost old_view = current@;
        let Waves { mut waves, state } = current;
        assert(waves@.map_values(|w: Wave| w.bursts@) == old_view.waves);
        match state {
            WavesState::WaitingForNextWave => {
                if waves.len() == 0 {
                    *self = Waves { waves, state };
                    return Vec::new();
                }
                *self = Waves { waves, state: WavesState::WaveInProgress };
                assert(self@.waves =~= old_view.waves);
                Vec::new()
            },
            WavesState::WaveInProgress => {
                let mut first = waves.remove(0);
                assert(first.bursts@ == old_view.waves[0]);
                assert forall|j: int| 0 <= j < first.bursts@.len() implies #[trigger] first.bursts@[j].can_tick(frame_delta) by {
                    assert(old_view.waves[0][j].is_active());
                };
                let spawn_kinds = first.update(frame_delta);
                if first.is_completed() {
                    assert(waves@.map_values(|w: Wave| w.bursts@) =~= old_view.waves.drop_first());
                    if waves.len() == 0 {
                        *self = Waves { waves, state: WavesState::Completed };
                    } else {
                        *self = Waves { waves, state: WavesState::WaitingForNextWave };
                    }
                } else {
                    waves.insert(0, first);
                    assert(waves@.map_values(|w: Wave| w.bursts@) =~= old_view.waves.update(0, wave_kept(old_view.waves[0], frame_delta)));
                    *self = Waves { waves, state };
                }
                spawn_kinds
            },
            WavesState::Completed => {
                *self = Waves { waves, state };
                Vec::new()
            },
        }
    }
}

/// Number of enemies that the bursts `bs` have still to send.
pub open spec fn bursts_remaining(bs: Seq<Burst>) -> nat
    decreases bs.len(),
{
    if bs.len() == 0 {
        0
    } else {
        bursts_remaining(bs.drop_last()) + bs.last().count as nat
    }
}

/// Number of enemies that the waves `ws` have still to send.
pub open spec fn waves_remaining(ws: Seq<Seq<Burst>>) -> nat
    decreases ws.len(),
{
    if ws.len() == 0 {
        0
    } else {
        bursts_remaining(ws[0]) + waves_remaining(ws.drop_first())
    }
}

/// A tick sends at most one enemy from a burst, and the burst's count drops by exactly
/// the number of enemies sent; its kind stays.
pub proof fn lemma_burst_conservation(b: Burst, delta: u64)
    requires
        b.can_tick(delta),
    ensures
        b.ticked(delta).count + b.spawned(delta).len() == b.count,
        b.spawned(delta).len() <= 1,
        b.ticked(delta).kind == b.kind,
{
}

/// Sum of the frame deltas `ds`, in nanoseconds.
pub open spec fn total_time(ds: Seq<u64>) -> nat
    decreases ds.len(),
{
    if ds.len() == 0 {
        0
    } else {
        (ds[0] + total_time(ds.drop_first())) as nat
    }
}

/// The burst after ticks of the deltas `ds` in order, and how many enemies they sent.
pub open spec fn burst_run(b: Burst, ds: Seq<u64>) -> (Burst, nat)
    decreases ds.len(),
{
    if ds.len() == 0 {
        (b, 0)
    } else {
        let r = burst_run(b.ticked(ds[0]), ds.drop_first());
        (r.0, b.spawned(ds[0]).len() + r.1)
    }
}

/// One enemy per spawn period: once a burst has started, its spawn timer keeps the time
/// past each period. Over ticks that are each at most one period long, and while enemies
/// remain, the enemies sent times the period plus what the spawn timer holds at the end
/// equal what it held at the start plus the time of all the ticks; the count drops by the
/// enemies sent.
pub proof fn lemma_burst_sends_one_per_period(b: Burst, ds: Seq<u64>)
    requires
        b.start_timer.mode == TimerMode::Once,
        b.start_timer.finished,
        b.spawn_timer.mode == TimerMode::Repeating,
        b.spawn_timer.duration > 0,
        b.spawn_timer.elapsed < b.spawn_timer.duration,
        forall|i: int| 0 <= i < ds.len() ==> #[trigger] ds[i] <= b.spawn_timer.duration,
        b.spawn_timer.elapsed + total_time(ds) < (b.count + 1) * b.spawn_timer.duration,
    ensures
        burst_run(b, ds).1 * b.spawn_timer.duration + burst_run(b, ds).0.spawn_timer.elapsed
            == b.spawn_timer.elapsed + total_time(ds),
        burst_run(b, ds).0.spawn_timer.elapsed < b.spawn_timer.duration,
        burst_run(b, ds).0.count + burst_run(b, ds).1 == b.count,
        burst_run(b, ds).0.kind == b.kind,
    decreases ds.len(),
{
    if ds.len() > 0 {
        let delta = ds[0];
        let rest = ds.drop_first();
        let d: int = b.spawn_timer.duration as int;
        let e: int = b.spawn_timer.elapsed as int;
        let total: int = e + delta;
        let c: int = b.count as int;
        let sum: int = total_time(ds) as int;
        assert(sum == delta + total_time(rest));
        let b1 = b.ticked(delta);
        let fire: int = if total >= d { 1 } else { 0 };
        if total >= d {
            vstd::arithmetic::div_mod::lemma_fundamental_div_mod(total, d);
            vstd::arithmetic::div_mod::lemma_mod_pos_bound(total, d);
            let q = total / d;
            let r = total % d;
            assert(q == 1) by (nonlinear_arith)
                requires
                    total == d * q + r,
                    0 <= r < d,
                    d <= total < 2 * d,
            ;
            assert(d * q == d) by (nonlinear_arith)
                requires
                    q == 1,
            ;
            assert(r == total - d);
            assert(c >= 1) by (nonlinear_arith)
                requires
                    e + sum < (c + 1) * d,
                    d <= e + sum,
                    d > 0,
                    c >= 0,
            ;
        }
        assert(b1.spawn_timer.elapsed == total - fire * d);
        assert(b1.count == c - fire);
        assert(b.spawned(delta).len() == fire);
        assert forall|i: int| 0 <= i < rest.len() implies #[trigger] rest[i] <= b1.spawn_timer.duration by {
            assert(rest[i] == ds[i + 1]);
        };
        assert((c + 1) * d - fire * d == (c - fire + 1) * d) by (nonlinear_arith);
        lemma_burst_sends_one_per_period(b1, rest);
        let n_rest = burst_run(b1, rest).1 as int;
        assert((fire + n_rest) * d == fire * d + n_rest * d) by (nonlinear_arith);
    } else {
        assert(burst_run(b, ds).1 == 0);
        assert(0 * b.spawn_timer.duration == 0);
    }
}

/// `n` ticks of `delta` each.
pub open spec fn even_ticks(delta: u64, n: nat) -> Seq<u64> {
    Seq::new(n, |i: int| delta)
}

proof fn lemma_even_ticks_drop_first(delta: u64, n: nat)
    requires
        n > 0,
    ensures
        even_ticks(delta, n).drop_first() =~= even_ticks(delta, (n - 1) as nat),
        even_ticks(delta, n)[0] == delta,
{
}

/// Timeline of a started burst under even ticks: with a spawn period of `p` ticks of
/// `delta` and `k` ticks of it already counted, the next enemy is sent on exactly the
/// `(p - k)`-th tick.
proof fn lemma_started_burst_timeline(b: Burst, delta: u64, k: nat, p: nat, n: nat)
    requires
        b.start_timer.mode == TimerMode::Once,
        b.start_timer.finished,
        b.spawn_timer.mode == TimerMode::Repeating,
        delta > 0,
        k < p,
        b.spawn_timer.duration == p * delta,
        b.spawn_timer.elapsed == k * delta,
        b.count >= 1,
        n <= p - k,
    ensures
        burst_run(b, even_ticks(delta, n)).1 == if n == p - k { 1nat } else { 0nat },
    decreases n,
{
    if n > 0 {
        lemma_even_ticks_drop_first(delta, n);
        let d: int = p * delta;
        let total: int = k * delta + delta;
        assert(total == (k + 1) * delta) by (nonlinear_arith)
            requires
                total == k * delta + delta,
        ;
        let b1 = b.ticked(delta);
        if k + 1 == p {
            assert(total == d);
            vstd::arithmetic::div_mod::lemma_div_by_self(d);
            vstd::arithmetic::div_mod::lemma_mod_self_0(d);
            assert(b.spawned(delta).len() == 1);
            assert(burst_run(b1, even_ticks(delta, 0)).1 == 0);
        } else {
            assert(total < d) by (nonlinear_arith)
                requires
                    total == (k + 1) * delta,
                    d == p * delta,
                    k + 1 < p,
                    delta > 0,
            ;
            assert(b.spawned(delta).len() == 0);
            assert(b1.spawn_timer.elapsed == (k + 1) * delta);
            lemma_started_burst_timeline(b1, delta, k + 1, p, (n - 1) as nat);
        }
    }
}

/// Timeline of a burst before its start under even ticks: with a start delay of `s` ticks
/// of `delta`, `a` of them counted, and a fresh spawn timer of `p` ticks, the first enemy is
/// sent on exactly the `(s - a + p - 1)`-th tick (the tick that ends the delay also counts
/// for the spawn timer).
proof fn lemma_waiting_burst_timeline(b: Burst, delta: u64, a: nat, s: nat, p: nat, n: nat)
    requires
        b.start_timer.mode == TimerMode::Once,
        !b.start_timer.finished,
        b.spawn_timer.mode == TimerMode::Repeating,
        delta > 0,
        a < s,
        p >= 1,
        b.start_timer.duration == s * delta,
        b.start_timer.elapsed == a * delta,
        b.spawn_timer.duration == p * delta,
        b.spawn_timer.elapsed == 0,
        b.count >= 1,
        n <= s - a + p - 1,
    ensures
        burst_run(b, even_ticks(delta, n)).1 == if n == s - a + p - 1 { 1nat } else { 0nat },
    decreases n,
{
    if n > 0 {
        lemma_even_ticks_drop_first(delta, n);
        let total: int = a * delta + delta;
        assert(total == (a + 1) * delta) by (nonlinear_arith)
            requires
                total == a * delta + delta,
        ;
        let b1 = b.ticked(delta);
        if a + 1 == s {
            assert(b1.start_timer.finished);
            if p == 1 {
                assert(b.spawn_timer.duration == delta);
                vstd::arithmetic::div_mod::lemma_div_by_self(delta as int);
                vstd::arithmetic::div_mod::lemma_mod_self_0(delta as int);
                assert(b.spawned(delta).len() == 1);
                assert(burst_run(b1, even_ticks(delta, 0)).1 == 0);
            } else {
                assert(delta < p * delta) by (nonlinear_arith)
                    requires
                        p > 1,
                        delta > 0,
                ;
                assert(b.spawned(delta).len() == 0);
                assert(b1.spawn_timer.elapsed == 1 * delta);
                lemma_started_burst_timeline(b1, delta, 1, p, (n - 1) as nat);
            }
        } else {
            assert(total < s * delta) by (nonlinear_arith)
                requires
                    total == (a + 1) * delta,
                    a + 1 < s,
                    delta > 0,
            ;
            assert(b.spawned(delta).len() == 0);
            assert(b1.spawn_timer == b.spawn_timer);
            lemma_waiting_burst_timeline(b1, delta, a + 1, s, p, (n - 1) as nat);
        }
    }
}

/// First enemy of a fresh burst: ticked evenly by `delta`, a burst with a start delay of
/// `s` ticks and a spawn period of `p` ticks (both at least one) sends nothing on its first
/// `s + p - 2` ticks and its first enemy on tick `s + p - 1`, that is once the start delay
/// plus the period minus one tick has passed.
pub proof fn lemma_fresh_burst_first_enemy(b: Burst, delta: u64, s: nat, p: nat, n: nat)
    requires
        delta > 0,
        s >= 1,
        p >= 1,
        b.start_timer.is_fresh(s * (delta as nat), TimerMode::Once),
        b.spawn_timer.is_fresh(p * (delta as nat), TimerMode::Repeating),
        b.count >= 1,
        n <= s + p - 1,
    ensures
        burst_run(b, even_ticks(delta, n)).1 == if n == s + p - 1 { 1nat } else { 0nat },
{
    assert(0 * delta == 0);
    lemma_waiting_burst_timeline(b, delta, 0, s, p, n);
}

/// When the enemies of a new game come first: ticking the bursts of a new game evenly by
/// a `delta` that divides 100 ms into `m` ticks, the kind-0 burst (2 s delay, 0.3 s period)
/// sends its first enemy on tick `23 m - 1`, the kind-1 burst (2.5 s delay, 0.6 s period) on
/// tick `31 m - 1`, and the kind-2 burst of the second wave (1 s delay, 1 s period) on tick
/// `20 m - 1`, and none of them sends anything before. With 100 ms frames, the first
/// kind-1 enemy comes on the frame that reaches 3.0 s.
pub proof fn lemma_new_game_first_enemies(delta: u64, m: nat, n: nat)
    requires
        delta > 0,
        m >= 1,
        100_000_000 == m * delta,
    ensures
        n <= 23 * m - 1 ==> burst_run(initial_waves()[0][0], even_ticks(delta, n)).1 == if n == 23 * m
            - 1 { 1nat } else { 0nat },
        n <= 31 * m - 1 ==> burst_run(initial_waves()[0][1], even_ticks(delta, n)).1 == if n == 31 * m
            - 1 { 1nat } else { 0nat },
        n <= 20 * m - 1 ==> burst_run(initial_waves()[1][0], even_ticks(delta, n)).1 == if n == 20 * m
            - 1 { 1nat } else { 0nat },
{
    let dn = delta as nat;
    assert(2_000_000_000 == (20 * m) * dn && 300_000_000 == (3 * m) * dn) by (nonlinear_arith)
        requires
            100_000_000 == m * dn,
    ;
    assert(2_500_000_000 == (25 * m) * dn && 600_000_000 == (6 * m) * dn) by (nonlinear_arith)
        requires
            100_000_000 == m * dn,
    ;
    assert(1_000_000_000 == (10 * m) * dn) by (nonlinear_arith)
        requires
            100_000_000 == m * dn,
    ;
    if n <= 23 * m - 1 {
        lemma_fresh_burst_first_enemy(initial_waves()[0][0], delta, 20 * m, 3 * m, n);
    }
    if n <= 31 * m - 1 {
        lemma_fresh_burst_first_enemy(initial_waves()[0][1], delta, 25 * m, 6 * m, n);
    }
    if n <= 20 * m - 1 {
        lemma_fresh_burst_first_enemy(initial_waves()[1][0], delta, 10 * m, 10 * m, n);
    }
}

/// A burst sends nothing until its start delay has run out.
pub proof fn lemma_burst_waits_for_start(b: Burst, delta: u64)
    requires
        !b.start_timer.ticked(delta).finished,
    ensures
        b.spawned(delta).len() == 0,
        b.ticked(delta).count == b.count,
        b.ticked(delta).spawn_timer == b.spawn_timer,
{
}

/// A tick keeps the timers of a burst well formed.
pub proof fn lemma_burst_ticked_timers_wf(b: Burst, delta: u64)
    requires
        b.timers_wf(),
    ensures
        b.ticked(delta).timers_wf(),
{
    let s = b.spawn_timer;
    if s.duration > 0 {
        vstd::arithmetic::div_mod::lemma_mod_pos_bound(s.elapsed + delta, s.duration as int);
    }
}

/// Every burst that a wave keeps after a tick is still active, when all its bursts had
/// well-formed timers.
pub proof fn lemma_wave_kept_active(bs: Seq<Burst>, delta: u64)
    requires
        forall|j: int| 0 <= j < bs.len() ==> #[trigger] bs[j].timers_wf(),
    ensures
        forall|j: int| 0 <= j < wave_kept(bs, delta).len() ==> #[trigger] wave_kept(bs, delta)[j].is_active(),
    decreases bs.len(),
{
    if bs.len() > 0 {
        let init = bs.drop_last();
        assert forall|j: int| 0 <= j < init.len() implies #[trigger] init[j].timers_wf() by {
            assert(init[j] == bs[j]);
        };
        lemma_wave_kept_active(init, delta);
        assert(bs[bs.len() - 1].timers_wf());
        lemma_burst_ticked_timers_wf(bs.last(), delta);
        let k = wave_kept(init, delta);
        let kept = wave_kept(bs, delta);
        assert forall|j: int| 0 <= j < kept.len() implies #[trigger] kept[j].is_active() by {
            if j < k.len() {
                assert(kept[j] == k[j]);
            }
        };
    }
}

/// In one tick of a wave, the enemies sent plus those still to send equal those that
/// were to send before; and each burst sends at most one enemy.
pub proof fn lemma_wave_conservation(bs: Seq<Burst>, delta: u64)
    requires
        bursts_can_tick(bs, delta),
    ensures
        bursts_remaining(wave_kept(bs, delta)) + wave_spawned(bs, delta).len() == bursts_remaining(bs),
        wave_spawned(bs, delta).len() <= bs.len(),
        wave_kept(bs, delta).len() <= bs.len(),
    decreases bs.len(),
{
    if bs.len() > 0 {
        let init = bs.drop_last();
        assert(bursts_can_tick(init, delta)) by {
            assert forall|i: int| 0 <= i < init.len() implies #[trigger] init[i].can_tick(delta) by {
                assert(init[i] == bs[i]);
            };
        };
        assert(bs.last().can_tick(delta)) by {
            assert(bs[bs.len() - 1].can_tick(delta));
        };
        lemma_wave_conservation(init, delta);
        let b = bs.last().ticked(delta);
        let k = wave_kept(init, delta);
        if b.count > 0 {
            assert((k + seq![b]).drop_last() =~= k);
        } else {
            assert(k + seq![] =~= k);
        }
    }
}

/// Every kind that a wave sends in a tick is the kind of one of its bursts.
pub proof fn lemma_wave_spawned_kinds(bs: Seq<Burst>, delta: u64)
    ensures
        forall|k: int| 0 <= k < wave_spawned(bs, delta).len() ==>
            exists|j: int| 0 <= j < bs.len() && bs[j].kind == #[trigger] wave_spawned(bs, delta)[k],
    decreases bs.len(),
{
    if bs.len() > 0 {
        let init = bs.drop_last();
        lemma_wave_spawned_kinds(init, delta);
        let out = wave_spawned(bs, delta);
        assert forall|k: int| 0 <= k < out.len() implies
            exists|j: int| 0 <= j < bs.len() && bs[j].kind == #[trigger] out[k] by {
            if k < wave_spawned(init, delta).len() {
                let j = choose|j: int| 0 <= j < init.len() && init[j].kind == wave_spawned(init, delta)[k];
                assert(bs[j] == init[j]);
            } else {
                assert(bs[bs.len() - 1].kind == out[k]);
            }
        };
    }
}

/// A well-formed sequence of waves stays well formed after a tick.
pub proof fn lemma_step_preserves_wf(v: WavesView, delta: u64)
    requires
        v.wf(),
    ensures
        v.step(delta).0.wf(),
{
    let w = v.step(delta).0;
    if v.state == WavesState::WaveInProgress {
        assert forall|j: int| 0 <= j < v.waves[0].len() implies #[trigger] v.waves[0][j].timers_wf() by {
            assert(v.waves[0][j].is_active());
        };
        lemma_wave_kept_active(v.waves[0], delta);
        assert forall|i: int, j: int| 0 <= i < w.waves.len() && 0 <= j < w.waves[i].len() implies #[trigger] w.waves[i][j].is_active() by {
            if wave_kept(v.waves[0], delta).len() == 0 {
                assert(w.waves[i] == v.waves[i + 1]);
                assert(v.waves[i + 1][j].is_active());
            } else if i > 0 {
                assert(w.waves[i] == v.waves[i]);
                assert(v.waves[i][j].is_active());
            }
        };
    }
}

/// Conservation of enemies: over a tick, the enemies sent plus those still to send in all
/// waves equal those that were still to send before the tick.
pub proof fn lemma_step_conservation(v: WavesView, delta: u64)
    requires
        v.wf(),
    ensures
        waves_remaining(v.step(delta).0.waves) + v.step(delta).1.len() == waves_remaining(v.waves),
{
    if v.state == WavesState::WaveInProgress {
        let first = v.waves[0];
        assert(bursts_can_tick(first, delta)) by {
            assert forall|j: int| 0 <= j < first.len() implies #[trigger] first[j].can_tick(delta) by {
                assert(v.waves[0][j].is_active());
            };
        };
        lemma_wave_conservation(first, delta);
        let kept = wave_kept(first, delta);
        if kept.len() == 0 {
            assert(bursts_remaining(kept) == 0);
        } else {
            let u = v.waves.update(0, kept);
            assert(u.drop_first() =~= v.waves.drop_first());
            assert(u[0] == kept);
        }
    }
}

/// A completed sequence of waves never changes again and sends nothing.
pub proof fn lemma_completed_is_final(v: WavesView, delta: u64)
    requires
        v.state == WavesState::Completed,
    ensures
        v.step(delta).0 == v,
        v.step(delta).1.len() == 0,
{
}

/// Waves are never added: a tick drops at most the current wave, and every wave after the
/// current one stays as it was.
pub proof fn lemma_step_keeps_later_waves(v: WavesView, delta: u64)
    requires
        v.wf(),
    ensures
        v.step(delta).0.waves.len() <= v.waves.len() <= v.step(delta).0.waves.len() + 1,
        v.step(delta).0.waves.len() < v.waves.len() ==> v.step(delta).0.waves =~= v.waves.drop_first(),
        v.step(delta).0.waves.len() == v.waves.len() ==> forall|i: int|
            1 <= i < v.waves.len() ==> #[trigger] v.step(delta).0.waves[i] == v.waves[i],
{
}

/// A sequence waiting with waves left starts the next wave and sends nothing in that tick.
pub proof fn lemma_waiting_starts_next_wave(v: WavesView, delta: u64)
    requires
        v.state == WavesState::WaitingForNextWave,
        v.waves.len() > 0,
    ensures
        v.step(delta).0 == (WavesView { state: WavesState::WaveInProgress, ..v }),
        v.step(delta).1.len() == 0,
{
}

/// Every enemy sent in a tick is of the kind of a burst of the current wave.
pub proof fn lemma_step_spawns_from_current_wave(v: WavesView, delta: u64)
    requires
        v.wf(),
    ensures
        forall|k: int| 0 <= k < v.step(delta).1.len() ==>
            exists|j: int| 0 <= j < v.waves[0].len() && v.waves[0][j].kind == #[trigger] v.step(delta).1[k],
{
    if v.state == WavesState::WaveInProgress {
        lemma_wave_spawned_kinds(v.waves[0], delta);
    }
}

} // verus!
