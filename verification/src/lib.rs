//! Simulation state of a side-scrolling shooter on a tile grid: the map, the
//! player's row, the scroll position, the bullets in flight, the score and the
//! start / end / win flags, advanced one frame at a time.

pub mod grid;
pub mod level;
pub mod state;
pub mod game;
pub mod laws;

pub use game::{Bullet, Game, Player};
pub use level::LoadError;
