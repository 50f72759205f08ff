//! What is spawned on a level: the player, the amulet, and monsters and items
//! drawn from the templates.

pub mod template;

use vstd::prelude::*;
use crate::components::{Blueprint, Health, Role};
use crate::geometry::Point;
use crate::spawner::template::{drawn_from, pool, Templates};
use crate::themes::{cp437, to_glyph};

verus! {

/// The player's hit points at the start.
pub const PLAYER_HEALTH: i32 = 100;

/// The radius of the player's field of view.
pub const PLAYER_SIGHT: i32 = 8;

/// The player at `pos`: shown as `@`, with full health, on the first level.
pub fn spawn_player(pos: Point) -> (player: Blueprint)
    ensures
        player.pos == pos,
        player.glyph == 64,
        player.glyph == cp437('@'),
        player.role == (Role::Player { map_level: 0 }),
        player.health == Some(Health { current: PLAYER_HEALTH, max: PLAYER_HEALTH }),
        player.sight == Some(PLAYER_SIGHT),
        player.name is None,
        !player.chases_player,
        player.healing is None,
        !player.reveals_map,
        player.damage is None,
        !player.weapon,
{
    Blueprint {
        pos,
        glyph: to_glyph('@'),
        name: None,
        role: Role::Player { map_level: 0 },
        health: Some(Health { current: PLAYER_HEALTH, max: PLAYER_HEALTH }),
        sight: Some(PLAYER_SIGHT),
        chases_player: false,
        healing: None,
        reveals_map: false,
        damage: None,
        weapon: false,
    }
}

/// The Amulet of Yendor at `pos`: an item shown as `|`.
pub fn spawn_amulet(pos: Point) -> (amulet: Blueprint)
    ensures
        amulet.pos == pos,
        amulet.glyph == 124,
        amulet.glyph == cp437('|'),
        amulet.role == Role::Amulet,
        amulet.name is Some,
        amulet.name.unwrap()@ == "Amulet of Yendor"@,
        amulet.health is None,
        amulet.sight is None,
        !amulet.chases_player,
        amulet.healing is None,
        !amulet.reveals_map,
        amulet.damage is None,
        !amulet.weapon,
{
    let name = "Amulet of Yendor".to_string();
    proof {
        vstd::string::to_string_from_display_ensures_for_str("Amulet of Yendor", name);
    }
    Blueprint {
        pos,
        glyph: to_glyph('|'),
        name: Some(name),
        role: Role::Amulet,
        health: None,
        sight: None,
        chases_player: false,
        healing: None,
        reveals_map: false,
        damage: None,
        weapon: false,
    }
}

/// The monsters and items of a level: one for each spawn point, each drawn
/// from the templates that belong to the level. Where no template belongs to
/// the level, nothing is spawned.
pub fn spawn_level(
    templates: &Templates,
    rng: &mut bracket_lib::random::RandomNumberGenerator,
    map_level: usize,
    spawn_points: &Vec<Point>,
) -> (spawned: Vec<Blueprint>)
    requires
        pool(templates.entities@, map_level).len() < i32::MAX,
    ensures
        drawn_from(templates.entities@, map_level, spawn_points@, spawned@),
{
    templates.spawn_entities(rng, map_level, spawn_points)
}

} // verus!
