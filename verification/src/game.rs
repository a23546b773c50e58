//! Game state and meta-progression.

pub mod progression;
pub mod state;

pub use self::progression::{Progression, RunRecord, Upgrades};
pub use self::state::{GameEvent, GameState};
