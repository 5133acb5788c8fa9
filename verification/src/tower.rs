//! Tower kinds, their shooting timers, and the choice and damage of a shot.

use vstd::prelude::*;

use crate::health::Health;
use crate::timer::{Timer, TimerMode};

verus! {

/// Number of tower kinds.
pub const TOWER_KINDS: u8 = 3;

/// Damage of one shot of a tower of kind `kind`.
pub open spec fn tower_damage_spec(kind: u8) -> i32 {
    if kind == 0 {
        10
    } else if kind == 1 {
        50
    } else {
        80
    }
}

/// Time between two shots of a tower of kind `kind`, in nanoseconds.
pub open spec fn shooting_interval_spec(kind: u8) -> u64 {
    if kind == 0 {
        100_000_000
    } else if kind == 1 {
        600_000_000
    } else {
        1_200_000_000
    }
}

/// Damage of one shot of a tower of kind `kind`.
pub fn tower_damage(kind: u8) -> (d: i32)
    requires
        kind < TOWER_KINDS,
    ensures
        d == tower_damage_spec(kind),
{
    if kind == 0 {
        10
    } else if kind == 1 {
        50
    } else {
        80
    }
}

/// Time between two shots of a tower of kind `kind`, in nanoseconds.
pub fn shooting_interval(kind: u8) -> (t: u64)
    requires
        kind < TOWER_KINDS,
    ensures
        t == shooting_interval_spec(kind),
{
    if kind == 0 {
        100_000_000
    } else if kind == 1 {
        600_000_000
    } else {
        1_200_000_000
    }
}

/// One repeating timer per tower kind: all towers of a kind shoot when it ends a period.
pub struct ShootingTimer(pub Vec<Timer>);

impl ShootingTimer {
    /// A fresh repeating timer for each tower kind, of that kind's shooting interval.
    pub fn new() -> (s: ShootingTimer)
        ensures
            s.0@.len() == TOWER_KINDS,
            forall|k: int| 0 <= k < TOWER_KINDS ==> #[trigger] s.0@[k] == Timer::new_spec(
                shooting_interval_spec(k as u8),
                TimerMode::Repeating,
            ),
    {
        let mut timers: Vec<Timer> = Vec::new();
        let mut kind: u8 = 0;
        while kind < TOWER_KINDS
            invariant
                kind <= TOWER_KINDS,
                timers@.len() == kind,
                forall|k: int| 0 <= k < kind ==> #[trigger] timers@[k] == Timer::new_spec(
                    shooting_interval_spec(k as u8),
                    TimerMode::Repeating,
                ),
            decreases TOWER_KINDS - kind,
        {
            timers.push(Timer::new(shooting_interval(kind), TimerMode::Repeating));
            kind = kind + 1;
        }
        ShootingTimer(timers)
    }

    /// Advances every timer by `delta` nanoseconds.
    pub fn tick(&mut self, delta: u64)
        ensures
            final(self).0@.len() == old(self).0@.len(),
            forall|k: int| 0 <= k < old(self).0@.len() ==> #[trigger] final(self).0@[k] == old(self).0@[k].ticked(delta),
    {
        let n = self.0.len();
        let mut i: usize = 0;
        while i < n
            invariant
                n == old(self).0@.len(),
                self.0@.len() == n,
                i <= n,
                forall|k: int| 0 <= k < i ==> #[trigger] self.0@[k] == old(self).0@[k].ticked(delta),
                forall|k: int| i <= k < n ==> #[trigger] self.0@[k] == old(self).0@[k],
            decreases n - i,
        {
            let mut t = self.0[i];
            t.tick(delta);
            self.0.set(i, t);
            i = i + 1;
        }
    }

    /// Whether towers of kind `kind` shoot in this frame.
    pub fn ready(&self, kind: u8) -> (b: bool)
        requires
            (kind as int) < self.0@.len(),
        ensures
            b == (self.0@[kind as int].times_finished_this_tick > 0),
    {
        self.0[kind as usize].just_finished()
    }
}

/// Calls `rand::Rng::random_range` with the range `0..len` on the thread-local generator
/// `rand::rng()`. rand's source panics on an empty range, and otherwise returns a value of
/// the range; which one is left to chance, so nothing more is stated.
#[verifier::external_body]
fn random_index(len: usize) -> (i: usize)
    requires
        len > 0,
    ensures
        i < len,
{
    rand::Rng::random_range(&mut rand::rng(), 0..len)
}

/// A shot of a tower of kind `kind` at enemy `target` can be taken without overflow.
pub open spec fn can_hit(kind: u8, healths: Seq<Health>, target: int) -> bool {
    &&& 0 <= target < healths.len()
    &&& i32::MIN <= healths[target].current - tower_damage_spec(kind)
}

/// The tower of kind `kind` hits the enemy `targets[choice]`, which loses the tower's damage;
/// returns the index of the enemy hit.
pub fn hit_target(kind: u8, targets: &Vec<usize>, choice: usize, healths: &mut Vec<Health>) -> (hit: usize)
    requires
        kind < TOWER_KINDS,
        choice < targets@.len(),
        can_hit(kind, old(healths)@, targets@[choice as int] as int),
    ensures
        hit == targets@[choice as int],
        final(healths)@ == old(healths)@.update(hit as int, old(healths)@[hit as int].damaged(tower_damage_spec(kind))),
{
    let hit = targets[choice];
    let mut h = healths[hit];
    h.take_damage(tower_damage(kind));
    healths.set(hit, h);
    hit
}

/// A tower of kind `kind` shoots if its kind's timer has just ended a period and some enemy
/// is in reach (`targets` holds the indices into `healths` of those in reach): it hits one
/// of them, picked at random, with the tower's damage. Returns the index of the enemy hit.
pub fn shoot(timers: &ShootingTimer, kind: u8, targets: &Vec<usize>, healths: &mut Vec<Health>) -> (hit: Option<usize>)
    requires
        kind < TOWER_KINDS,
        (kind as int) < timers.0@.len(),
        forall|i: int| 0 <= i < targets@.len() ==> can_hit(kind, old(healths)@, #[trigger] targets@[i] as int),
    ensures
        hit.is_some() <==> (timers.0@[kind as int].times_finished_this_tick > 0 && targets@.len() > 0),
        hit.is_none() ==> final(healths)@ == old(healths)@,
        hit matches Some(t) ==> {
            &&& targets@.contains(t)
            &&& final(healths)@ == old(healths)@.update(t as int, old(healths)@[t as int].damaged(tower_damage_spec(kind)))
        },
{
    if !timers.ready(kind) || targets.len() == 0 {
        return None;
    }
    let choice = random_index(targets.len());
    assert(can_hit(kind, healths@, targets@[choice as int] as int));
    let hit = hit_target(kind, targets, choice, healths);
    Some(hit)
}

/// A shot changes only the health of the enemy hit, and lowers it by the tower's damage.
pub proof fn lemma_shot_touches_only_target(kind: u8, healths: Seq<Health>, hit: int, j: int)
    requires
        kind < TOWER_KINDS,
        can_hit(kind, healths, hit),
        0 <= j < healths.len(),
    ensures
        j != hit ==> healths.update(hit, healths[hit].damaged(tower_damage_spec(kind)))[j] == healths[j],
        healths.update(hit, healths[hit].damaged(tower_damage_spec(kind)))[hit].current
            == healths[hit].current - tower_damage_spec(kind),
        healths.update(hit, healths[hit].damaged(tower_damage_spec(kind)))[hit].current < healths[hit].current,
{
}

} // verus!
