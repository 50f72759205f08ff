//! The decisions of the game's systems. Each takes what the entity store
//! holds as plain values and gives back what is to be done.

pub mod collisions;
pub mod hud;
pub mod movement;
pub mod player_input;
pub mod random_move;
pub mod tooltips;
pub mod use_items;
