use tower_defense::enemy::{enemy_health, Burst, Wave, Waves, WavesState, ENEMY_KINDS};
use tower_defense::game::{GameState, LIFE_LOST_PER_ENEMY, START_LIFE};
use tower_defense::health::{dead_enemies, Health};
use tower_defense::util::LifeSpan;
use tower_defense::timer::{Timer, TimerMode};
use tower_defense::tower::{hit_target, shoot, shooting_interval, tower_damage, ShootingTimer, TOWER_KINDS};

const MS: u64 = 1_000_000;

#[test]
fn once_timer_clamps_at_duration() {
    let mut t = Timer::new(10 * MS, TimerMode::Once);
    t.tick(3 * MS);
    assert_eq!(t.elapsed, 3 * MS);
    assert!(!t.is_finished());
    assert!(!t.just_finished());
    t.tick(500 * MS);
    assert_eq!(t.elapsed, 10 * MS);
    assert!(t.is_finished());
    assert!(t.just_finished());
    assert_eq!(t.times_finished_this_tick, 1);
    t.tick(MS);
    assert_eq!(t.elapsed, 10 * MS);
    assert!(t.is_finished());
    assert!(!t.just_finished());
}

#[test]
fn repeating_timer_wraps_around() {
    let mut t = Timer::new(2000 * MS, TimerMode::Repeating);
    t.tick(750 * MS);
    assert_eq!(t.elapsed, 750 * MS);
    assert!(!t.just_finished());
    t.tick(1500 * MS);
    assert_eq!(t.elapsed, 250 * MS);
    assert!(t.is_finished());
    assert!(t.just_finished());
    t.tick(1000 * MS);
    assert_eq!(t.elapsed, 1250 * MS);
    assert!(!t.is_finished());
    assert!(!t.just_finished());
}

#[test]
fn repeating_timer_counts_periods() {
    let mut t = Timer::new(1000 * MS, TimerMode::Repeating);
    t.tick(3500 * MS);
    assert_eq!(t.times_finished_this_tick, 3);
    assert_eq!(t.elapsed, 500 * MS);
    assert_eq!(t.times_finished_this_tick as u64 * t.duration + t.elapsed, 3500 * MS);
    t.tick(200 * MS);
    assert_eq!(t.times_finished_this_tick, 0);
}

#[test]
fn zero_duration_repeating_timer_saturates() {
    let mut t = Timer::new(0, TimerMode::Repeating);
    t.tick(1000 * MS);
    assert_eq!(t.times_finished_this_tick, u32::MAX);
    assert_eq!(t.elapsed, 0);
}

#[test]
fn burst_waits_for_start_delay() {
    let mut b = Burst::new(1, 3, 1000 * MS, 200 * MS);
    assert!(b.update(500 * MS).is_empty());
    assert_eq!(b.count, 3);
    // start reached now, spawn timer gets 600ms: 3 periods end, one enemy is sent
    assert_eq!(b.update(600 * MS), vec![1]);
    assert_eq!(b.count, 2);
    assert_eq!(b.spawn_timer.elapsed, 0);
    assert!(b.update(100 * MS).is_empty());
    assert_eq!(b.update(100 * MS), vec![1]);
    assert_eq!(b.count, 1);
    assert!(!b.is_completed());
    assert_eq!(b.update(200 * MS), vec![1]);
    assert!(b.is_completed());
}

#[test]
fn wave_collects_kinds_and_drops_finished_bursts() {
    let mut w = Wave {
        bursts: vec![Burst::new(0, 1, 0, 100 * MS), Burst::new(2, 2, 0, 100 * MS), Burst::new(1, 5, 1000 * MS, MS)],
    };
    let out = w.update(100 * MS);
    assert_eq!(out, vec![0, 2]);
    assert_eq!(w.bursts.len(), 2);
    assert_eq!(w.bursts[0].kind, 2);
    assert_eq!(w.bursts[0].count, 1);
    assert_eq!(w.bursts[1].kind, 1);
    assert!(!w.is_completed());
    let out = w.update(100 * MS);
    assert_eq!(out, vec![2]);
    assert_eq!(w.bursts.len(), 1);
}

#[test]
fn empty_wave_is_completed() {
    let mut w = Wave { bursts: vec![] };
    assert!(w.is_completed());
    assert!(w.update(MS).is_empty());
}

#[test]
fn waves_start_with_waiting_state() {
    let mut w = Waves::load();
    assert_eq!(w.state(), WavesState::WaitingForNextWave);
    assert_eq!(w.waves_left(), 2);
    assert!(w.update(10_000 * MS).is_empty());
    assert_eq!(w.state(), WavesState::WaveInProgress);
    assert_eq!(w.waves_left(), 2);
}

#[test]
fn whole_game_sends_every_enemy_once() {
    let mut w = Waves::load();
    let mut per_kind = [0u32; 3];
    let mut states = vec![w.state()];
    let mut frames = 0;
    while w.state() != WavesState::Completed {
        for kind in w.update(50 * MS) {
            per_kind[kind as usize] += 1;
        }
        if *states.last().unwrap() != w.state() {
            states.push(w.state());
        }
        frames += 1;
        assert!(frames < 100_000);
    }
    assert_eq!(per_kind, [20, 10, 10]);
    assert_eq!(
        states,
        vec![
            WavesState::WaitingForNextWave,
            WavesState::WaveInProgress,
            WavesState::WaitingForNextWave,
            WavesState::WaveInProgress,
            WavesState::Completed,
        ]
    );
    assert_eq!(w.waves_left(), 0);
    assert!(w.update(1000 * MS).is_empty());
    assert_eq!(w.state(), WavesState::Completed);
}

#[test]
fn first_enemy_comes_after_start_delay() {
    let mut w = Waves::load();
    w.update(0);
    assert!(w.update(1900 * MS).is_empty());
    // burst of kind 0 starts at 2 s; its spawn timer gets 200 ms: nothing yet
    assert!(w.update(200 * MS).is_empty());
    assert_eq!(w.update(100 * MS), vec![0]);
}

#[test]
fn enemy_health_table() {
    assert_eq!(ENEMY_KINDS, 3);
    assert_eq!(enemy_health(0), 40);
    assert_eq!(enemy_health(1), 100);
    assert_eq!(enemy_health(2), 200);
}

#[test]
fn health_loses_damage_and_dies() {
    let mut h = Health::new(40);
    assert_eq!(h.current, 40);
    assert_eq!(h.max, 40);
    assert!(!h.is_dead());
    h.take_damage(30);
    assert_eq!(h.current, 10);
    assert!(!h.is_dead());
    h.take_damage(50);
    assert_eq!(h.current, -40);
    assert!(h.is_dead());
    assert_eq!(h.max, 40);
}

#[test]
fn tower_tables() {
    assert_eq!(TOWER_KINDS, 3);
    assert_eq!(tower_damage(0), 10);
    assert_eq!(tower_damage(1), 50);
    assert_eq!(tower_damage(2), 80);
    assert_eq!(shooting_interval(0), 100 * MS);
    assert_eq!(shooting_interval(1), 600 * MS);
    assert_eq!(shooting_interval(2), 1200 * MS);
}

#[test]
fn shooting_timers_fire_per_kind() {
    let mut s = ShootingTimer::new();
    assert_eq!(s.0.len(), 3);
    assert!(!s.ready(0));
    s.tick(100 * MS);
    assert!(s.ready(0));
    assert!(!s.ready(1));
    assert!(!s.ready(2));
    s.tick(500 * MS);
    assert!(s.ready(0));
    assert!(s.ready(1));
    assert!(!s.ready(2));
    s.tick(50 * MS);
    assert!(!s.ready(0));
}

#[test]
fn hit_target_damages_only_the_chosen_enemy() {
    let mut hs = vec![Health::new(40), Health::new(100), Health::new(200)];
    let targets = vec![2, 1];
    let hit = hit_target(1, &targets, 1, &mut hs);
    assert_eq!(hit, 1);
    assert_eq!(hs[1].current, 50);
    assert_eq!(hs[0].current, 40);
    assert_eq!(hs[2].current, 200);
}

#[test]
fn shoot_needs_ready_timer_and_target() {
    let mut s = ShootingTimer::new();
    let mut hs = vec![Health::new(40), Health::new(100)];
    assert_eq!(shoot(&s, 2, &vec![0, 1], &mut hs), None);
    assert_eq!(hs, vec![Health::new(40), Health::new(100)]);
    s.tick(1200 * MS);
    assert_eq!(shoot(&s, 2, &vec![], &mut hs), None);
    assert_eq!(hs, vec![Health::new(40), Health::new(100)]);
    let hit = shoot(&s, 2, &vec![1], &mut hs);
    assert_eq!(hit, Some(1));
    assert_eq!(hs[1].current, 20);
    assert_eq!(hs[0].current, 40);
}

#[test]
fn shoot_picks_an_enemy_in_reach() {
    let mut s = ShootingTimer::new();
    s.tick(100 * MS);
    for _ in 0..50 {
        let mut hs = vec![Health::new(40), Health::new(100), Health::new(200), Health::new(40)];
        let targets = vec![0, 2];
        let hit = shoot(&s, 0, &targets, &mut hs).unwrap();
        assert!(hit == 0 || hit == 2);
        assert_eq!(hs[hit].current, Health::new(hs[hit].max).current - 10);
        assert_eq!(hs[1].current, 100);
        assert_eq!(hs[3].current, 40);
    }
}

#[test]
fn base_loses_life_per_enemy() {
    let mut g = GameState::new();
    assert_eq!(g.base_life, START_LIFE);
    assert_eq!(START_LIFE, 100);
    g.enemy_reached_base();
    assert_eq!(g.base_life, 95);
    g.enemy_reached_base();
    assert_eq!(g.base_life, START_LIFE - 2 * LIFE_LOST_PER_ENEMY);
    assert!(g.update(MS).is_empty());
    assert_eq!(g.waves.state(), WavesState::WaveInProgress);
    assert_eq!(g.base_life, 90);
}

#[test]
fn dead_enemies_are_listed_in_order() {
    let mut hs = vec![Health::new(40), Health::new(100), Health::new(200), Health::new(10)];
    assert!(dead_enemies(&hs).is_empty());
    hs[1].take_damage(100);
    hs[3].take_damage(80);
    assert_eq!(dead_enemies(&hs), vec![1, 3]);
    assert!(dead_enemies(&vec![]).is_empty());
}

#[test]
fn life_span_runs_out() {
    let mut l = LifeSpan(200 * MS as i64);
    assert!(!l.update(150 * MS));
    assert_eq!(l, LifeSpan(50 * MS as i64));
    assert!(l.update(50 * MS));
    assert_eq!(l, LifeSpan(0));
    let mut l = LifeSpan(100 * MS as i64);
    assert!(l.update(200 * MS));
    assert_eq!(l.0, -(100 * MS as i64));
    assert!(l.update(MS));
    assert_eq!(l.0, -(101 * MS as i64));
}

#[test]
fn waves_run_in_order_with_one_second_ticks() {
    let mut w = Waves::load();
    let mut sent: Vec<u8> = Vec::new();
    let mut ticks = 0;
    while w.state() != WavesState::Completed {
        sent.extend(w.update(1000 * MS));
        ticks += 1;
        assert!(ticks < 1000);
    }
    assert_eq!(sent.len(), 40);
    assert_eq!(sent.iter().filter(|&&k| k == 0).count(), 20);
    assert_eq!(sent.iter().filter(|&&k| k == 1).count(), 10);
    assert_eq!(sent.iter().filter(|&&k| k == 2).count(), 10);
    let first_two = sent.iter().position(|&k| k == 2).unwrap();
    assert!(sent[first_two..].iter().all(|&k| k == 2));
    assert!(sent[..first_two].iter().all(|&k| k == 0 || k == 1));
    for _ in 0..5 {
        assert!(w.update(1000 * MS).is_empty());
        assert_eq!(w.state(), WavesState::Completed);
    }
}
