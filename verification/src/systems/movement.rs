//! Movement: a wish to move is granted where the map lets the mover in.

use vstd::prelude::*;
use crate::components::WantsToMove;
use crate::geometry::Point;
use crate::map::{walkable, Grid};

verus! {

/// What is known of the entity that wants to move.
#[derive(Clone, Copy, Debug, PartialEq, Eq, Structural)]
pub struct Mover {
    pub has_field_of_view: bool,
    pub is_player: bool,
}

/// What a wish to move leads to.
#[derive(Clone, Copy, Debug, PartialEq, Eq, Structural)]
pub struct MoveOutcome {
    /// The mover's new position, if the move is granted.
    pub position: Option<Point>,
    /// True when the mover's field of view has to be computed anew.
    pub refresh_view: bool,
    /// Where the camera is to look, if it follows the move.
    pub camera: Option<Point>,
}

/// What the wish `want` leads to on `map`.
pub open spec fn moved(map: Grid, want: WantsToMove, mover: Option<Mover>) -> MoveOutcome {
    if map.has(want.destination) && walkable(map.tile_of(want.destination)) {
        MoveOutcome {
            position: Some(want.destination),
            refresh_view: mover is Some && mover.unwrap().has_field_of_view,
            camera: if mover is Some && mover.unwrap().is_player {
                Some(want.destination)
            } else {
                None
            },
        }
    } else {
        MoveOutcome { position: None, refresh_view: false, camera: None }
    }
}

/// Grants the move where the destination can be entered. The mover, if it
/// still exists, then gets a fresh field of view where it has one, and the
/// camera follows where it is the player.
pub fn movement(want: &WantsToMove, map: &Grid, mover: Option<Mover>) -> (outcome: MoveOutcome)
    requires
        map.wf(),
    ensures
        outcome == moved(*map, *want, mover),
{
    if map.can_enter_tile(want.destination) {
        match mover {
            Some(m) => MoveOutcome {
                position: Some(want.destination),
                refresh_view: m.has_field_of_view,
                camera: if m.is_player {
                    Some(want.destination)
                } else {
                    None
                },
            },
            None => MoveOutcome {
                position: Some(want.destination),
                refresh_view: false,
                camera: None,
            },
        }
    } else {
        MoveOutcome { position: None, refresh_view: false, camera: None }
    }
}

} // verus!
