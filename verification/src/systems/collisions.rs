//! Collisions: monsters that stand where the player stands are removed.

use vstd::prelude::*;
use crate::components::Entity;
use crate::geometry::Point;

verus! {

/// Where the player stands: the position of the first player, or the origin
/// where there is none.
pub open spec fn player_position(players: Seq<Point>) -> Point {
    if players.len() > 0 {
        players[0]
    } else {
        Point { x: 0, y: 0 }
    }
}

/// The entities among `enemies` that stand at `pos`, in their order.
pub open spec fn standing_at(enemies: Seq<(Entity, Point)>, pos: Point) -> Seq<Entity>
    decreases enemies.len(),
{
    if enemies.len() == 0 {
        Seq::empty()
    } else if enemies.last().1 == pos {
        standing_at(enemies.drop_last(), pos).push(enemies.last().0)
    } else {
        standing_at(enemies.drop_last(), pos)
    }
}

/// The monsters to remove: those that stand where the player stands.
pub fn collisions(players: &Vec<Point>, enemies: &Vec<(Entity, Point)>) -> (removed: Vec<Entity>)
    ensures
        removed@ == standing_at(enemies@, player_position(players@)),
{
    let pos = if players.len() > 0 {
        players[0]
    } else {
        Point::zero()
    };
    let mut removed: Vec<Entity> = Vec::new();
    let mut i: usize = 0;
    while i < enemies.len()
        invariant
            i <= enemies@.len(),
            pos == player_position(players@),
            removed@ == standing_at(enemies@.take(i as int), pos),
        decreases enemies@.len() - i,
    {
        assert(enemies@.take(i + 1).drop_last() =~= enemies@.take(i as int));
        if enemies[i].1.x == pos.x && enemies[i].1.y == pos.y {
            removed.push(enemies[i].0);
        }
        i += 1;
    }
    assert(enemies@.take(i as int) =~= enemies@);
    removed
}

} // verus!
