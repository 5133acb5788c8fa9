//! The state of a game: the life of the player's base and the waves still to come.

use vstd::prelude::*;

use crate::enemy::{Waves, WavesView, WavesState, initial_waves};

verus! {

/// Life of the base at the start of a game.
pub const START_LIFE: i32 = 100;

/// Life that the base loses for each enemy that reaches the end of the path.
pub const LIFE_LOST_PER_ENEMY: i32 = 5;

/// The life of the player's base and the enemy waves.
pub struct GameState {
    pub base_life: i32,
    pub waves: Waves,
}

impl GameState {
    /// A new game: full life, and the waves waiting for the first one.
    pub fn new() -> (g: GameState)
        ensures
            g.base_life == START_LIFE,
            g.waves@ == (WavesView { waves: initial_waves(), state: WavesState::WaitingForNextWave }),
            g.waves@.wf(),
    {
        GameState { base_life: START_LIFE, waves: Waves::load() }
    }

    /// An enemy reached the end of the path: the base loses life.
    pub fn enemy_reached_base(&mut self)
        requires
            i32::MIN <= old(self).base_life - LIFE_LOST_PER_ENEMY,
        ensures
            final(self).base_life == old(self).base_life - LIFE_LOST_PER_ENEMY,
            final(self).waves@ == old(self).waves@,
    {
        self.base_life = self.base_life - LIFE_LOST_PER_ENEMY;
    }

    /// Advances the waves by `frame_delta` nanoseconds and returns the kinds of the enemies
    /// to spawn now.
    pub fn update(&mut self, frame_delta: u64) -> (spawn_kinds: Vec<u8>)
        ensures
            final(self).base_life == old(self).base_life,
            final(self).waves@ == old(self).waves@.step(frame_delta).0,
            spawn_kinds@ == old(self).waves@.step(frame_delta).1,
            final(self).waves@.wf(),
    {
        self.waves.update(frame_delta)
    }
}

} // verus!
