//! Grid, pathfinding and game-state logic of the town map.
//!
//! The map is a row-major grid of cells as laid out by LDtk: cell `i` of a
//! grid `w` cells wide sits in column `i % w` and row `i / w`.

pub mod building;
pub mod coords;
pub mod grid;
pub mod level;
pub mod pathfinding;
pub mod player;
