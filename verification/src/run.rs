//! Laws about whole runs of the enemy waves: a run ends, every enemy is sent once, kind by
//! kind, and the waves come one after another.

use vstd::prelude::*;

use crate::enemy::{
    Burst, WavesState, WavesView, bursts_can_tick, initial_waves, lemma_step_conservation,
    lemma_step_preserves_wf, wave_kept, wave_spawned, waves_remaining,
};

verus! {

/// Bound on how much a burst can still change: a count is worth more than both timers.
pub open spec fn burst_weight(b: Burst) -> nat {
    (b.start_timer.duration + b.spawn_timer.duration + 2) as nat
}

/// Progress measure of a burst: its count first, then the time left before its start,
/// then the time left in the current spawn period.
pub open spec fn burst_measure(b: Burst) -> nat {
    (b.count as nat) * burst_weight(b) + (if b.start_timer.finished {
        0nat
    } else {
        (b.start_timer.duration - b.start_timer.elapsed + 1) as nat
    }) + (b.spawn_timer.duration - b.spawn_timer.elapsed) as nat
}

/// Progress measure of a wave: the sum over its bursts.
pub open spec fn wave_measure(bs: Seq<Burst>) -> nat
    decreases bs.len(),
{
    if bs.len() == 0 {
        0
    } else {
        wave_measure(bs.drop_last()) + burst_measure(bs.last())
    }
}

/// Sum over the waves of their measure plus two.
pub open spec fn waves_sum(ws: Seq<Seq<Burst>>) -> nat
    decreases ws.len(),
{
    if ws.len() == 0 {
        0
    } else {
        wave_measure(ws[0]) + 2 + waves_sum(ws.drop_first())
    }
}

/// Progress measure of a sequence of waves; it is zero exactly when the sequence is done.
pub open spec fn waves_measure(v: WavesView) -> nat {
    if v.state == WavesState::WaveInProgress {
        (waves_sum(v.waves) - 1) as nat
    } else {
        waves_sum(v.waves)
    }
}

/// The sequence after `n` ticks of `delta`, and all the kinds sent in them, in order.
pub open spec fn run(v: WavesView, delta: u64, n: nat) -> (WavesView, Seq<u8>)
    decreases n,
{
    if n == 0 {
        (v, seq![])
    } else {
        let s = v.step(delta);
        let r = run(s.0, delta, (n - 1) as nat);
        (r.0, s.1 + r.1)
    }
}

/// Every tick of a positive `delta` (at most `u32::MAX` nanoseconds, so that the periods
/// ended in one tick are counted exactly) lowers the measure of an active burst.
pub proof fn lemma_burst_measure_decreases(b: Burst, delta: u64)
    requires
        b.is_active(),
        0 < delta <= u32::MAX,
    ensures
        burst_measure(b.ticked(delta)) < burst_measure(b),
{
    let b2 = b.ticked(delta);
    let w = burst_weight(b);
    assert(burst_weight(b2) == w);
    let st2 = b.start_timer.ticked(delta);
    if st2.finished {
        let sp = b.spawn_timer;
        let total: int = sp.elapsed + delta;
        let d: int = sp.duration as int;
        if d > 0 && total >= d {
            assert(total < d * 0x1_0000_0000) by (nonlinear_arith)
                requires
                    total <= d - 1 + 0xffff_ffff,
                    d >= 1,
            ;
            vstd::arithmetic::div_mod::lemma_multiply_divide_lt(total, d, 0x1_0000_0000);
            vstd::arithmetic::div_mod::lemma_div_non_zero(total, d);
            vstd::arithmetic::div_mod::lemma_mod_pos_bound(total, d);
        }
        let sp2 = sp.ticked(delta);
        if sp2.times_finished_this_tick > 0 {
            assert(b2.count == b.count - 1);
            assert(b.count * w == (b.count - 1) * w + w) by (nonlinear_arith);
            assert(b2.count * w == (b.count - 1) * w);
        } else {
            assert(b2.count == b.count);
        }
    }
}

/// Appending a burst adds its measure.
proof fn lemma_wave_measure_push(bs: Seq<Burst>, b: Burst)
    ensures
        wave_measure(bs + seq![b]) == wave_measure(bs) + burst_measure(b),
{
    assert((bs + seq![b]).drop_last() =~= bs);
}

/// A tick never raises the measure of a wave of active bursts, and lowers it when the wave
/// has a burst.
pub proof fn lemma_wave_measure_decreases(bs: Seq<Burst>, delta: u64)
    requires
        forall|j: int| 0 <= j < bs.len() ==> #[trigger] bs[j].is_active(),
        0 < delta <= u32::MAX,
    ensures
        wave_measure(wave_kept(bs, delta)) <= wave_measure(bs),
        bs.len() > 0 ==> wave_measure(wave_kept(bs, delta)) < wave_measure(bs),
    decreases bs.len(),
{
    if bs.len() > 0 {
        let init = bs.drop_last();
        assert forall|j: int| 0 <= j < init.len() implies #[trigger] init[j].is_active() by {
            assert(init[j] == bs[j]);
        };
        lemma_wave_measure_decreases(init, delta);
        assert(bs[bs.len() - 1].is_active());
        lemma_burst_measure_decreases(bs.last(), delta);
        let b = bs.last().ticked(delta);
        let k = wave_kept(init, delta);
        if b.count > 0 {
            lemma_wave_measure_push(k, b);
        } else {
            assert(k + seq![] =~= k);
        }
    }
}

/// A sequence that is not completed has a positive measure.
pub proof fn lemma_measure_zero_only_when_completed(v: WavesView)
    requires
        v.wf(),
        v.state != WavesState::Completed,
    ensures
        waves_measure(v) > 0,
{
    assert(v.waves.len() > 0);
    assert(waves_sum(v.waves) >= 2);
}

/// Progress: every tick of a positive `delta` (at most `u32::MAX` nanoseconds) lowers the
/// measure of a sequence that is not completed.
pub proof fn lemma_step_measure_decreases(v: WavesView, delta: u64)
    requires
        v.wf(),
        v.state != WavesState::Completed,
        0 < delta <= u32::MAX,
    ensures
        waves_measure(v.step(delta).0) < waves_measure(v),
{
    assert(v.waves.len() > 0);
    if v.state == WavesState::WaveInProgress {
        let first = v.waves[0];
        assert forall|j: int| 0 <= j < first.len() implies #[trigger] first[j].is_active() by {
            assert(v.waves[0][j].is_active());
        };
        lemma_wave_measure_decreases(first, delta);
        let kept = wave_kept(first, delta);
        if kept.len() > 0 {
            let u = v.waves.update(0, kept);
            assert(u.drop_first() =~= v.waves.drop_first());
            assert(u[0] == kept);
        }
    }
}

/// A run of ticks keeps the sequence well formed.
pub proof fn lemma_run_wf(v: WavesView, delta: u64, n: nat)
    requires
        v.wf(),
    ensures
        run(v, delta, n).0.wf(),
    decreases n,
{
    if n > 0 {
        lemma_step_preserves_wf(v, delta);
        lemma_run_wf(v.step(delta).0, delta, (n - 1) as nat);
    }
}

/// Termination: with ticks of a positive `delta` (at most `u32::MAX` nanoseconds), a
/// well-formed sequence of waves is completed, with no wave left, after at most
/// `waves_measure(v)` ticks, and stays so.
pub proof fn lemma_run_completes(v: WavesView, delta: u64, n: nat)
    requires
        v.wf(),
        0 < delta <= u32::MAX,
        n >= waves_measure(v),
    ensures
        run(v, delta, n).0.state == WavesState::Completed,
        run(v, delta, n).0.waves.len() == 0,
    decreases n,
{
    lemma_run_wf(v, delta, n);
    if v.state != WavesState::Completed {
        lemma_measure_zero_only_when_completed(v);
        lemma_step_measure_decreases(v, delta);
        lemma_step_preserves_wf(v, delta);
        lemma_run_completes(v.step(delta).0, delta, (n - 1) as nat);
    } else if n > 0 {
        lemma_run_completes(v, delta, (n - 1) as nat);
    }
}

/// How many times kind `k` occurs in `s`.
pub open spec fn count_kind(s: Seq<u8>, k: u8) -> nat
    decreases s.len(),
{
    if s.len() == 0 {
        0
    } else {
        count_kind(s.drop_last(), k) + if s.last() == k { 1nat } else { 0nat }
    }
}

/// Counting a kind over a concatenation adds the counts of the parts.
pub proof fn lemma_count_kind_add(a: Seq<u8>, b: Seq<u8>, k: u8)
    ensures
        count_kind(a + b, k) == count_kind(a, k) + count_kind(b, k),
    decreases b.len(),
{
    if b.len() == 0 {
        assert(a + b =~= a);
    } else {
        lemma_count_kind_add(a, b.drop_last(), k);
        assert((a + b).drop_last() =~= a + b.drop_last());
    }
}

/// Number of enemies of kind `k` that the bursts `bs` have still to send.
pub open spec fn bursts_remaining_kind(bs: Seq<Burst>, k: u8) -> nat
    decreases bs.len(),
{
    if bs.len() == 0 {
        0
    } else {
        bursts_remaining_kind(bs.drop_last(), k) + if bs.last().kind == k {
            bs.last().count as nat
        } else {
            0nat
        }
    }
}

/// Number of enemies of kind `k` that the waves `ws` have still to send.
pub open spec fn waves_remaining_kind(ws: Seq<Seq<Burst>>, k: u8) -> nat
    decreases ws.len(),
{
    if ws.len() == 0 {
        0
    } else {
        bursts_remaining_kind(ws[0], k) + waves_remaining_kind(ws.drop_first(), k)
    }
}

/// Per kind, in one tick of a wave, the enemies sent plus those still to send equal those
/// that were to send before.
pub proof fn lemma_wave_conservation_kind(bs: Seq<Burst>, delta: u64, k: u8)
    requires
        bursts_can_tick(bs, delta),
    ensures
        bursts_remaining_kind(wave_kept(bs, delta), k) + count_kind(wave_spawned(bs, delta), k)
            == bursts_remaining_kind(bs, k),
    decreases bs.len(),
{
    if bs.len() > 0 {
        let init = bs.drop_last();
        assert(bursts_can_tick(init, delta)) by {
            assert forall|i: int| 0 <= i < init.len() implies #[trigger] init[i].can_tick(delta) by {
                assert(init[i] == bs[i]);
            };
        };
        assert(bs.last().can_tick(delta)) by {
            assert(bs[bs.len() - 1].can_tick(delta));
        };
        lemma_wave_conservation_kind(init, delta, k);
        lemma_count_kind_add(wave_spawned(init, delta), bs.last().spawned(delta), k);
        let one: Seq<u8> = seq![bs.last().kind];
        assert(one.drop_last() =~= Seq::<u8>::empty());
        assert(count_kind(Seq::<u8>::empty(), k) == 0);
        assert(one.last() == bs.last().kind);
        assert(count_kind(one, k) == if bs.last().kind == k { 1nat } else { 0nat });
        let b = bs.last().ticked(delta);
        let kk = wave_kept(init, delta);
        if b.count > 0 {
            assert((kk + seq![b]).drop_last() =~= kk);
        } else {
            assert(kk + seq![] =~= kk);
        }
    }
}

/// Per kind, over a tick of a well-formed sequence of waves, the enemies sent plus those
/// still to send equal those that were still to send before.
pub proof fn lemma_step_conservation_kind(v: WavesView, delta: u64, k: u8)
    requires
        v.wf(),
    ensures
        waves_remaining_kind(v.step(delta).0.waves, k) + count_kind(v.step(delta).1, k)
            == waves_remaining_kind(v.waves, k),
{
    if v.state == WavesState::WaveInProgress {
        let first = v.waves[0];
        assert(bursts_can_tick(first, delta)) by {
            assert forall|j: int| 0 <= j < first.len() implies #[trigger] first[j].can_tick(delta) by {
                assert(v.waves[0][j].is_active());
            };
        };
        lemma_wave_conservation_kind(first, delta, k);
        let kept = wave_kept(first, delta);
        if kept.len() > 0 {
            let u = v.waves.update(0, kept);
            assert(u.drop_first() =~= v.waves.drop_first());
            assert(u[0] == kept);
        }
    }
}

/// Conservation over a run: all the enemies sent in `n` ticks plus those still to send
/// equal those that were to send at the start, in total and kind by kind.
pub proof fn lemma_run_conservation(v: WavesView, delta: u64, n: nat, k: u8)
    requires
        v.wf(),
    ensures
        run(v, delta, n).1.len() + waves_remaining(run(v, delta, n).0.waves) == waves_remaining(v.waves),
        count_kind(run(v, delta, n).1, k) + waves_remaining_kind(run(v, delta, n).0.waves, k)
            == waves_remaining_kind(v.waves, k),
    decreases n,
{
    if n > 0 {
        let s = v.step(delta);
        lemma_step_conservation(v, delta);
        lemma_step_conservation_kind(v, delta, k);
        lemma_step_preserves_wf(v, delta);
        lemma_run_conservation(s.0, delta, (n - 1) as nat, k);
        lemma_count_kind_add(s.1, run(s.0, delta, (n - 1) as nat).1, k);
    }
}

/// Kind `k` is the kind of a burst of the wave `bs`.
pub open spec fn wave_has_kind(bs: Seq<Burst>, k: u8) -> bool {
    exists|j: int| 0 <= j < bs.len() && #[trigger] bs[j].kind == k
}

/// Kind `k` is the kind of a burst of one of the waves `ws`.
pub open spec fn waves_have_kind(ws: Seq<Seq<Burst>>, k: u8) -> bool {
    exists|i: int| 0 <= i < ws.len() && #[trigger] wave_has_kind(ws[i], k)
}

/// The bursts that a wave keeps after a tick are of kinds it had.
pub proof fn lemma_wave_kept_kinds(bs: Seq<Burst>, delta: u64)
    ensures
        forall|j: int| 0 <= j < wave_kept(bs, delta).len() ==> wave_has_kind(bs, #[trigger] wave_kept(bs, delta)[j].kind),
    decreases bs.len(),
{
    if bs.len() > 0 {
        let init = bs.drop_last();
        lemma_wave_kept_kinds(init, delta);
        let k = wave_kept(init, delta);
        let kept = wave_kept(bs, delta);
        assert forall|j: int| 0 <= j < kept.len() implies wave_has_kind(bs, #[trigger] kept[j].kind) by {
            if j < k.len() {
                assert(kept[j] == k[j]);
                let j2 = choose|j2: int| 0 <= j2 < init.len() && #[trigger] init[j2].kind == k[j].kind;
                assert(bs[j2] == init[j2]);
            } else {
                assert(bs[bs.len() - 1].kind == kept[j].kind);
            }
        };
    }
}

/// A tick adds no kind to a well-formed sequence of waves, and sends only kinds of the
/// current wave.
pub proof fn lemma_step_kinds(v: WavesView, delta: u64)
    requires
        v.wf(),
    ensures
        forall|x: u8| waves_have_kind(v.step(delta).0.waves, x) ==> waves_have_kind(v.waves, x),
        forall|i: int| 0 <= i < v.step(delta).1.len() ==> wave_has_kind(v.waves[0], #[trigger] v.step(delta).1[i]),
{
    let w = v.step(delta).0.waves;
    crate::enemy::lemma_step_spawns_from_current_wave(v, delta);
    assert forall|i: int| 0 <= i < v.step(delta).1.len() implies wave_has_kind(v.waves[0], #[trigger] v.step(delta).1[i]) by {
        let j = choose|j: int| 0 <= j < v.waves[0].len() && v.waves[0][j].kind == #[trigger] v.step(delta).1[i];
        assert(v.waves[0][j].kind == v.step(delta).1[i]);
    };
    if v.state == WavesState::WaveInProgress {
        let first = v.waves[0];
        lemma_wave_kept_kinds(first, delta);
        let kept = wave_kept(first, delta);
        assert forall|x: u8| waves_have_kind(w, x) implies waves_have_kind(v.waves, x) by {
            let i = choose|i: int| 0 <= i < w.len() && #[trigger] wave_has_kind(w[i], x);
            if kept.len() == 0 {
                assert(w[i] == v.waves[i + 1]);
                assert(wave_has_kind(v.waves[i + 1], x));
            } else if i == 0 {
                let j = choose|j: int| 0 <= j < w[0].len() && #[trigger] w[0][j].kind == x;
                assert(w[0] == kept);
                assert(wave_has_kind(first, kept[j].kind));
                assert(wave_has_kind(v.waves[0], x));
            } else {
                assert(w[i] == v.waves[i]);
                assert(wave_has_kind(v.waves[i], x));
            }
        };
    }
}

/// Every kind sent in a run is the kind of a burst of the waves at its start.
pub proof fn lemma_run_kinds(v: WavesView, delta: u64, n: nat)
    requires
        v.wf(),
    ensures
        forall|i: int| 0 <= i < run(v, delta, n).1.len() ==> waves_have_kind(v.waves, #[trigger] run(v, delta, n).1[i]),
    decreases n,
{
    if n > 0 {
        let s = v.step(delta);
        let r = run(s.0, delta, (n - 1) as nat);
        lemma_step_kinds(v, delta);
        lemma_step_preserves_wf(v, delta);
        lemma_run_kinds(s.0, delta, (n - 1) as nat);
        let out = run(v, delta, n).1;
        assert(out == s.1 + r.1);
        assert forall|i: int| 0 <= i < out.len() implies waves_have_kind(v.waves, #[trigger] out[i]) by {
            if i < s.1.len() {
                assert(out[i] == s.1[i]);
                assert(wave_has_kind(v.waves[0], s.1[i]));
                assert(v.waves.len() > 0);
                assert(wave_has_kind(v.waves[0], out[i]));
            } else {
                assert(out[i] == r.1[i - s.1.len()]);
                assert(waves_have_kind(s.0.waves, r.1[i - s.1.len()]));
            }
        };
    }
}

/// `out` splits at `p` into a first part, of kinds of the wave `first`, and a second
/// part, of kinds of the waves `rest`.
pub open spec fn splits_by_wave(out: Seq<u8>, p: int, first: Seq<Burst>, rest: Seq<Seq<Burst>>) -> bool {
    &&& 0 <= p <= out.len()
    &&& forall|i: int| 0 <= i < p ==> wave_has_kind(first, #[trigger] out[i])
    &&& forall|i: int| p <= i < out.len() ==> waves_have_kind(rest, #[trigger] out[i])
}

/// Waves run one after another: what a run sends splits into a first part, of kinds of the
/// current wave, followed by a second part, of kinds of the later waves.
pub proof fn lemma_run_waves_in_order(v: WavesView, delta: u64, n: nat)
    requires
        v.wf(),
    ensures
        exists|p: int| #[trigger] splits_by_wave(run(v, delta, n).1, p, v.waves[0], v.waves.drop_first()),
    decreases n,
{
    let out = run(v, delta, n).1;
    let first = v.waves[0];
    let rest = v.waves.drop_first();
    if n == 0 {
        assert(splits_by_wave(out, 0, first, rest));
    } else {
        let s = v.step(delta);
        let r = run(s.0, delta, (n - 1) as nat);
        assert(out == s.1 + r.1);
        lemma_step_kinds(v, delta);
        lemma_step_preserves_wf(v, delta);
        lemma_run_waves_in_order(s.0, delta, (n - 1) as nat);
        let p1 = choose|p: int| #[trigger] splits_by_wave(r.1, p, s.0.waves[0], s.0.waves.drop_first());
        assert(splits_by_wave(r.1, p1, s.0.waves[0], s.0.waves.drop_first()));
        if v.state != WavesState::WaveInProgress {
            assert(s.1.len() == 0);
            assert(s.0.waves == v.waves);
            assert(out =~= r.1);
            assert(splits_by_wave(out, p1, first, rest));
        } else {
            let kept = wave_kept(first, delta);
            if kept.len() == 0 {
                assert(s.0.waves == rest);
                lemma_run_kinds(s.0, delta, (n - 1) as nat);
                let p = s.1.len() as int;
                assert forall|i: int| 0 <= i < p implies wave_has_kind(first, #[trigger] out[i]) by {
                    assert(out[i] == s.1[i]);
                };
                assert forall|i: int| p <= i < out.len() implies waves_have_kind(rest, #[trigger] out[i]) by {
                    assert(out[i] == r.1[i - p]);
                };
                assert(splits_by_wave(out, p, first, rest));
            } else {
                lemma_wave_kept_kinds(first, delta);
                assert(s.0.waves.drop_first() =~= rest);
                assert(s.0.waves[0] == kept);
                let p = s.1.len() + p1;
                assert forall|i: int| 0 <= i < p implies wave_has_kind(first, #[trigger] out[i]) by {
                    if i < s.1.len() {
                        assert(out[i] == s.1[i]);
                    } else {
                        assert(out[i] == r.1[i - s.1.len()]);
                        assert(wave_has_kind(kept, r.1[i - s.1.len()]));
                        let j = choose|j: int| 0 <= j < kept.len() && #[trigger] kept[j].kind == r.1[i - s.1.len()];
                        assert(wave_has_kind(first, kept[j].kind));
                    }
                };
                assert forall|i: int| p <= i < out.len() implies waves_have_kind(rest, #[trigger] out[i]) by {
                    assert(out[i] == r.1[i - s.1.len()]);
                };
                assert(splits_by_wave(out, p, first, rest));
            }
        }
    }
}

/// The waves of a new game, before the first one starts.
pub open spec fn initial_view() -> WavesView {
    WavesView { waves: initial_waves(), state: WavesState::WaitingForNextWave }
}

/// What the waves of a new game hold: 20 enemies of kind 0 and 10 of kind 1 in the first
/// wave, 10 of kind 2 in the second.
proof fn lemma_initial_facts()
    ensures
        initial_view().wf(),
        waves_remaining(initial_waves()) == 40,
        waves_remaining_kind(initial_waves(), 0) == 20,
        waves_remaining_kind(initial_waves(), 1) == 10,
        waves_remaining_kind(initial_waves(), 2) == 10,
        forall|x: u8| wave_has_kind(initial_waves()[0], x) ==> x == 0 || x == 1,
        forall|x: u8| waves_have_kind(initial_waves().drop_first(), x) ==> x == 2,
        forall|x: u8| waves_have_kind(initial_waves(), x) ==> x <= 2,
{
    let ws = initial_waves();
    let w0 = ws[0];
    let w1 = ws[1];
    assert(ws.drop_first() =~= seq![w1]);
    assert(seq![w1].drop_first() =~= Seq::<Seq<Burst>>::empty());
    assert(w0.drop_last() =~= seq![w0[0]]);
    assert(seq![w0[0]].drop_last() =~= Seq::<Burst>::empty());
    assert(w1.drop_last() =~= Seq::<Burst>::empty());
    assert(seq![w1][0] == w1);
    assert(crate::enemy::bursts_remaining(Seq::<Burst>::empty()) == 0);
    assert(crate::enemy::bursts_remaining(w1) == 10);
    assert(crate::enemy::bursts_remaining(seq![w0[0]]) == 20);
    assert(crate::enemy::bursts_remaining(w0) == 30);
    assert(waves_remaining(Seq::<Seq<Burst>>::empty()) == 0);
    assert(waves_remaining(seq![w1]) == 10);
    assert(waves_remaining(ws) == 40);
    assert forall|k: u8| #[trigger] waves_remaining_kind(ws, k) == (if k == 0 {
        20nat
    } else if k == 1 || k == 2 {
        10nat
    } else {
        0nat
    }) by {
        assert(bursts_remaining_kind(Seq::<Burst>::empty(), k) == 0);
        assert(waves_remaining_kind(Seq::<Seq<Burst>>::empty(), k) == 0);
        assert(waves_remaining_kind(seq![w1], k) == bursts_remaining_kind(w1, k));
        assert(bursts_remaining_kind(seq![w0[0]], k) == if k == 0 { 20nat } else { 0nat });
        assert(w0.last() == w0[1]);
        assert(bursts_remaining_kind(w0, k) == bursts_remaining_kind(seq![w0[0]], k) + if k == 1 { 10nat } else { 0nat });
        assert(w1.last() == w1[0]);
        assert(bursts_remaining_kind(w1, k) == if k == 2 { 10nat } else { 0nat });
    };
    assert(waves_remaining_kind(ws, 0) == 20);
    assert(waves_remaining_kind(ws, 1) == 10);
    assert(waves_remaining_kind(ws, 2) == 10);
    assert forall|x: u8| wave_has_kind(w0, x) implies x == 0 || x == 1 by {
        let j = choose|j: int| 0 <= j < w0.len() && #[trigger] w0[j].kind == x;
    };
    assert forall|x: u8| waves_have_kind(ws.drop_first(), x) implies x == 2 by {
        let i = choose|i: int| 0 <= i < ws.drop_first().len() && #[trigger] wave_has_kind(ws.drop_first()[i], x);
        assert(ws.drop_first()[i] == w1);
        let j = choose|j: int| 0 <= j < w1.len() && #[trigger] w1[j].kind == x;
    };
    assert forall|x: u8| waves_have_kind(ws, x) implies x <= 2 by {
        let i = choose|i: int| 0 <= i < ws.len() && #[trigger] wave_has_kind(ws[i], x);
        let j = choose|j: int| 0 <= j < ws[i].len() && #[trigger] ws[i][j].kind == x;
    };
}

/// A whole game: ticking the waves of a new game by any positive `delta` (at most
/// `u32::MAX` nanoseconds) completes them within `waves_measure(initial_view())` ticks.
/// By then exactly 40 enemies have been sent, 20 of kind 0, 10 of kind 1 and 10 of kind 2
/// and of no other kind, and every enemy of kind 2 (second wave) comes after every enemy of
/// kinds 0 and 1 (first wave).
pub proof fn lemma_initial_run(delta: u64, n: nat)
    requires
        0 < delta <= u32::MAX,
        n >= waves_measure(initial_view()),
    ensures
        run(initial_view(), delta, n).0.state == WavesState::Completed,
        run(initial_view(), delta, n).1.len() == 40,
        count_kind(run(initial_view(), delta, n).1, 0) == 20,
        count_kind(run(initial_view(), delta, n).1, 1) == 10,
        count_kind(run(initial_view(), delta, n).1, 2) == 10,
        forall|i: int| 0 <= i < run(initial_view(), delta, n).1.len() ==> #[trigger] run(initial_view(), delta, n).1[i] <= 2,
        forall|i: int, j: int|
            0 <= i < j < run(initial_view(), delta, n).1.len() && #[trigger] run(initial_view(), delta, n).1[i] == 2
                ==> #[trigger] run(initial_view(), delta, n).1[j] == 2,
{
    let v = initial_view();
    let out = run(v, delta, n).1;
    lemma_initial_facts();
    lemma_run_completes(v, delta, n);
    let end = run(v, delta, n).0;
    assert(waves_remaining(end.waves) == 0);
    assert(waves_remaining_kind(end.waves, 0) == 0);
    assert(waves_remaining_kind(end.waves, 1) == 0);
    assert(waves_remaining_kind(end.waves, 2) == 0);
    lemma_run_conservation(v, delta, n, 0);
    lemma_run_conservation(v, delta, n, 1);
    lemma_run_conservation(v, delta, n, 2);
    lemma_run_kinds(v, delta, n);
    assert forall|i: int| 0 <= i < out.len() implies #[trigger] out[i] <= 2 by {
        assert(waves_have_kind(v.waves, out[i]));
    };
    lemma_run_waves_in_order(v, delta, n);
    let p = choose|p: int| #[trigger] splits_by_wave(out, p, v.waves[0], v.waves.drop_first());
    assert forall|i: int, j: int| 0 <= i < j < out.len() && #[trigger] out[i] == 2 implies #[trigger] out[j] == 2 by {
        if i < p {
            assert(wave_has_kind(v.waves[0], out[i]));
        }
        assert(waves_have_kind(v.waves.drop_first(), out[j]));
    };
}

} // verus!
