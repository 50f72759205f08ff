//! What the entities of the game are made of, as plain values.

use vstd::prelude::*;
use crate::geometry::Point;

verus! {

/// The number that names an entity.
pub type Entity = u64;

/// Hit points.
#[derive(Clone, Copy, Debug, PartialEq, Eq, Structural)]
pub struct Health {
    pub current: i32,
    pub max: i32,
}

/// An entity's wish to move to a cell.
#[derive(Clone, Copy, Debug, PartialEq, Eq, Structural)]
pub struct WantsToMove {
    pub entity: Entity,
    pub destination: Point,
}

/// An entity's wish to attack another.
#[derive(Clone, Copy, Debug, PartialEq, Eq, Structural)]
pub struct WantsToAttack {
    pub attacker: Entity,
    pub victim: Entity,
}

/// The use of an item by an entity.
#[derive(Clone, Copy, Debug, PartialEq, Eq, Structural)]
pub struct ActivateItem {
    pub used_by: Entity,
    pub item: Entity,
}

/// The part that an entity plays.
#[derive(Clone, Copy, Debug, PartialEq, Eq, Structural)]
pub enum Role {
    Player { map_level: u32 },
    Amulet,
    Item,
    Enemy,
}

/// What a new entity is made of.
#[derive(Clone, Debug)]
pub struct Blueprint {
    pub pos: Point,
    pub glyph: u16,
    pub name: Option<String>,
    pub role: Role,
    pub health: Option<Health>,
    /// The radius of the field of view.
    pub sight: Option<i32>,
    pub chases_player: bool,
    /// The hit points that the item gives back.
    pub healing: Option<i32>,
    pub reveals_map: bool,
    pub damage: Option<i32>,
    pub weapon: bool,
}

} // verus!
