//! Convenient re-exports for writing new game states.
pub use crate::dungeon::DungeonState;
pub use crate::engine::{BTerm, GameState, TickResult};
pub use crate::input::GameKey;
