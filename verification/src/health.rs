//! Health of an enemy.

use vstd::prelude::*;

verus! {

/// Health points: the maximum and what is left.
#[derive(Clone, Copy, Debug, PartialEq, Eq, Structural)]
pub struct Health {
    pub max: i32,
    pub current: i32,
}

impl Health {
    /// Full health of `max` points.
    pub fn new(max: i32) -> (h: Health)
        ensures
            h == (Health { max, current: max }),
    {
        Health { max, current: max }
    }

    /// Whether no health is left.
    pub fn is_dead(&self) -> (b: bool)
        ensures
            b == (self.current <= 0),
    {
        self.current <= 0
    }

    /// The health after losing `damage` points.
    pub open spec fn damaged(self, damage: i32) -> Health {
        Health { current: (self.current - damage) as i32, ..self }
    }

    /// Loses `damage` points.
    pub fn take_damage(&mut self, damage: i32)
        requires
            i32::MIN <= old(self).current - damage <= i32::MAX,
        ensures
            *final(self) == old(self).damaged(damage),
    {
        self.current = self.current - damage;
    }
}

/// The indices, in increasing order, of the healths in `healths` that are dead.
pub open spec fn dead_indices(healths: Seq<Health>) -> Seq<usize>
    decreases healths.len(),
{
    if healths.len() == 0 {
        seq![]
    } else {
        let i = (healths.len() - 1) as usize;
        dead_indices(healths.drop_last()) + if healths.last().current <= 0 { seq![i] } else { seq![] }
    }
}

/// The enemies to remove: the indices of the healths that are dead, in increasing order.
pub fn dead_enemies(healths: &Vec<Health>) -> (dead: Vec<usize>)
    ensures
        dead@ == dead_indices(healths@),
{
    let mut dead: Vec<usize> = Vec::new();
    let n = healths.len();
    let mut i: usize = 0;
    while i < n
        invariant
            n == healths@.len(),
            i <= n,
            dead@ == dead_indices(healths@.take(i as int)),
        decreases n - i,
    {
        assert(healths@.take(i + 1).drop_last() =~= healths@.take(i as int));
        if healths[i].is_dead() {
            dead.push(i);
        }
        i = i + 1;
    }
    assert(healths@.take(n as int) =~= healths@);
    dead
}

/// Exactly the dead healths are listed for removal, each once, in order.
pub proof fn lemma_dead_indices_exact(healths: Seq<Health>)
    requires
        healths.len() <= usize::MAX,
    ensures
        forall|k: int| 0 <= k < dead_indices(healths).len() ==> {
            &&& 0 <= #[trigger] dead_indices(healths)[k] < healths.len()
            &&& healths[dead_indices(healths)[k] as int].current <= 0
        },
        forall|k: int, l: int| 0 <= k < l < dead_indices(healths).len() ==>
            #[trigger] dead_indices(healths)[k] < #[trigger] dead_indices(healths)[l],
        forall|i: int| 0 <= i < healths.len() && #[trigger] healths[i].current <= 0 ==>
            dead_indices(healths).contains(i as usize),
    decreases healths.len(),
{
    if healths.len() > 0 {
        let init = healths.drop_last();
        lemma_dead_indices_exact(init);
        let d = dead_indices(healths);
        let di = dead_indices(init);
        let last = (healths.len() - 1) as usize;
        assert forall|k: int| 0 <= k < d.len() implies {
            &&& 0 <= #[trigger] d[k] < healths.len()
            &&& healths[d[k] as int].current <= 0
        } by {
            if k < di.len() {
                assert(d[k] == di[k]);
                assert(healths[di[k] as int] == init[di[k] as int]);
            }
        };
        assert forall|k: int, l: int| 0 <= k < l < d.len() implies #[trigger] d[k] < #[trigger] d[l] by {
            if l < di.len() {
                assert(d[k] == di[k] && d[l] == di[l]);
            } else {
                assert(d[k] == di[k]);
            }
        };
        assert forall|i: int| 0 <= i < healths.len() && #[trigger] healths[i].current <= 0 implies d.contains(i as usize) by {
            if i < init.len() {
                assert(init[i] == healths[i]);
                let k = choose|k: int| 0 <= k < di.len() && di[k] == i as usize;
                assert(d[k] == di[k]);
            } else {
                assert(d[d.len() - 1] == last);
            }
        };
    }
}

/// Damage never heals: a health hit by a damage of at least zero has no more points than
/// before, keeps its maximum, and is dead if it was dead.
pub proof fn lemma_damage_never_heals(h: Health, damage: i32)
    requires
        damage >= 0,
        i32::MIN <= h.current - damage,
    ensures
        h.damaged(damage).current <= h.current,
        h.damaged(damage).max == h.max,
        h.current <= 0 ==> h.damaged(damage).current <= 0,
{
}

} // verus!
