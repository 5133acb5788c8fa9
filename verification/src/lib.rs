//! Game rules of a small tower-defense game: timers, enemy waves, health,
//! tower shooting and the player's base life.

pub mod timer;
pub mod enemy;
pub mod health;
pub mod tower;
pub mod game;
pub mod util;
pub mod run;
