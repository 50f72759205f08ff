//! Procedural dungeon generation on a tile grid, with the rules of the
//! turn-based game that is played on the generated map.
//!
//! The grid, the distance field, the two architects, the prefab decorator and
//! the decisions of the game's systems are verified; drawing, input and the
//! entity store belong to the program that uses this library.

pub mod geometry;
pub mod map;
pub mod distance;
pub mod rng;
pub mod themes;
pub mod map_builder;
pub mod automata;
pub mod drunkard;
pub mod prefab;
pub mod components;
pub mod spawner;
pub mod systems;

use vstd::prelude::*;

verus! {

/// Width of the generated map, in tiles.
pub const SCREEN_WIDTH: i32 = 80;

/// Height of the generated map, in tiles.
pub const SCREEN_HEIGHT: i32 = 50;

/// Width of the visible part of the map, in tiles.
pub const DISPLAY_WIDTH: i32 = 40;

/// Height of the visible part of the map, in tiles.
pub const DISPLAY_HEIGHT: i32 = 25;

} // verus!
