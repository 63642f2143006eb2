//! Simulation core of a turn-based, grid-world exploration game:
//! procedural dungeon generation, a grid map with opacity/neighbour/distance
//! queries, line-of-sight with persistent exploration memory, a
//! pathfinding-driven hostile-agent step, and a strict turn scheduler.

pub mod components;
pub mod enemy_ai_system;
pub mod fov;
pub mod map;
pub mod map_indexing_system;
pub mod mapgen;
pub mod path;
pub mod player;
pub mod rect;
pub mod rng;
pub mod state;
pub mod visibility_system;
pub mod world;

pub use rect::Rect;
