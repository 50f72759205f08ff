//! The player's input: what a key makes the player do.

use vstd::prelude::*;
use crate::components::{ActivateItem, Entity, WantsToAttack, WantsToMove};
use crate::geometry::Point;
use crate::systems::random_move::can_step;

verus! {

/// The keys that the game reads. Every other key is `Other`.
#[derive(Clone, Copy, Debug, PartialEq, Eq, Structural)]
pub enum Key {
    Left,
    Right,
    Up,
    Down,
    A,
    D,
    W,
    S,
    G,
    Key1,
    Key2,
    Key3,
    Key4,
    Key5,
    Key6,
    Key7,
    Key8,
    Other,
}

/// An item that lies on the map.
#[derive(Clone, Copy, Debug, PartialEq, Eq, Structural)]
pub struct GroundItem {
    pub entity: Entity,
    pub pos: Point,
    pub is_weapon: bool,
}

/// An item that somebody carries.
#[derive(Clone, Copy, Debug, PartialEq, Eq, Structural)]
pub struct CarriedItem {
    pub entity: Entity,
    pub carrier: Entity,
    pub is_weapon: bool,
}

/// What the entity store holds when a key is read.
pub struct Scene {
    /// The players with their positions. The first is the one who acts.
    pub players: Vec<(Entity, Point)>,
    pub enemies: Vec<(Entity, Point)>,
    pub ground: Vec<GroundItem>,
    pub carried: Vec<CarriedItem>,
}

/// What a key leads to.
#[derive(Debug)]
pub struct InputOutcome {
    /// The items that the player picks up.
    pub picked_up: Vec<Entity>,
    /// The weapons that are dropped for good.
    pub discarded: Vec<Entity>,
    /// The item that the player uses.
    pub activated: Option<ActivateItem>,
    pub attacks: Vec<WantsToAttack>,
    pub moves: Vec<WantsToMove>,
    /// True when the player's turn is over.
    pub turn_taken: bool,
}

/// The step that a key stands for: the arrow keys and `A`, `D`, `W`, `S`
/// lead one cell to the left, to the right, up or down; no other key moves.
pub open spec fn delta_of(key: Key) -> Point {
    match key {
        Key::Left | Key::A => Point { x: -1i32, y: 0 },
        Key::Right | Key::D => Point { x: 1, y: 0 },
        Key::Up | Key::W => Point { x: 0, y: -1i32 },
        Key::Down | Key::S => Point { x: 0, y: 1 },
        _ => Point { x: 0, y: 0 },
    }
}

/// The place in the inventory that a number key stands for.
pub open spec fn slot_of(key: Key) -> Option<usize> {
    match key {
        Key::Key1 => Some(0usize),
        Key::Key2 => Some(1usize),
        Key::Key3 => Some(2usize),
        Key::Key4 => Some(3usize),
        Key::Key5 => Some(4usize),
        Key::Key6 => Some(5usize),
        Key::Key7 => Some(6usize),
        Key::Key8 => Some(7usize),
        _ => None,
    }
}

/// The point `delta` away from `pos`.
pub open spec fn shifted(pos: Point, delta: Point) -> Point {
    Point { x: (pos.x + delta.x) as i32, y: (pos.y + delta.y) as i32 }
}

/// The items that `carrier` carries, in their order.
pub open spec fn carried_by(carried: Seq<CarriedItem>, carrier: Entity) -> Seq<Entity>
    decreases carried.len(),
{
    if carried.len() == 0 {
        Seq::empty()
    } else if carried.last().carrier == carrier {
        carried_by(carried.drop_last(), carrier).push(carried.last().entity)
    } else {
        carried_by(carried.drop_last(), carrier)
    }
}

/// The weapons that `carrier` carries, in their order.
pub open spec fn weapons_of(carried: Seq<CarriedItem>, carrier: Entity) -> Seq<Entity>
    decreases carried.len(),
{
    if carried.len() == 0 {
        Seq::empty()
    } else if carried.last().carrier == carrier && carried.last().is_weapon {
        weapons_of(carried.drop_last(), carrier).push(carried.last().entity)
    } else {
        weapons_of(carried.drop_last(), carrier)
    }
}

/// The items that lie at `pos`, in their order.
pub open spec fn lying_at(ground: Seq<GroundItem>, pos: Point) -> Seq<Entity>
    decreases ground.len(),
{
    if ground.len() == 0 {
        Seq::empty()
    } else if ground.last().pos == pos {
        lying_at(ground.drop_last(), pos).push(ground.last().entity)
    } else {
        lying_at(ground.drop_last(), pos)
    }
}

/// The weapons that picking up the items at `pos` discards: for each weapon
/// that lies there, all weapons that `carrier` carries.
pub open spec fn discarded_at(
    ground: Seq<GroundItem>,
    pos: Point,
    carried: Seq<CarriedItem>,
    carrier: Entity,
) -> Seq<Entity>
    decreases ground.len(),
{
    if ground.len() == 0 {
        Seq::empty()
    } else if ground.last().pos == pos && ground.last().is_weapon {
        discarded_at(ground.drop_last(), pos, carried, carrier) + weapons_of(carried, carrier)
    } else {
        discarded_at(ground.drop_last(), pos, carried, carrier)
    }
}

/// The attacks of `attacker` on the enemies that stand at `pos`.
pub open spec fn attacks_on(enemies: Seq<(Entity, Point)>, pos: Point, attacker: Entity) -> Seq<
    WantsToAttack,
>
    decreases enemies.len(),
{
    if enemies.len() == 0 {
        Seq::empty()
    } else if enemies.last().1 == pos {
        attacks_on(enemies.drop_last(), pos, attacker).push(
            WantsToAttack { attacker, victim: enemies.last().0 },
        )
    } else {
        attacks_on(enemies.drop_last(), pos, attacker)
    }
}

/// The wish of each player to move by `delta`.
pub open spec fn moves_by(players: Seq<(Entity, Point)>, delta: Point) -> Seq<WantsToMove>
    decreases players.len(),
{
    if players.len() == 0 {
        Seq::empty()
    } else {
        moves_by(players.drop_last(), delta).push(
            WantsToMove {
                entity: players.last().0,
                destination: shifted(players.last().1, delta),
            },
        )
    }
}

/// The use of the item in the place `slot` of the inventory of `player`, if
/// the inventory has that many items.
pub open spec fn use_of(slot: usize, player: Entity, carried: Seq<CarriedItem>) -> Option<
    ActivateItem,
> {
    if slot < carried_by(carried, player).len() {
        Some(ActivateItem { used_by: player, item: carried_by(carried, player)[slot as int] })
    } else {
        None
    }
}

/// The moves that a key with the step `delta` leads to: where the acting
/// player steps and no enemy stands in the way, the player's move; and after
/// that the wish of every player to move by `delta`.
pub open spec fn moves_of(scene: Scene, delta: Point) -> Seq<WantsToMove> {
    let actor = scene.players@[0];
    let target = shifted(actor.1, delta);
    if (delta.x != 0 || delta.y != 0) && attacks_on(scene.enemies@, target, actor.0).len() == 0 {
        seq![WantsToMove { entity: actor.0, destination: target }] + moves_by(
            scene.players@,
            delta,
        )
    } else {
        moves_by(scene.players@, delta)
    }
}

/// The step that a key stands for.
pub fn key_delta(key: Key) -> (delta: Point)
    ensures
        delta == delta_of(key),
{
    match key {
        Key::Left | Key::A => Point { x: -1, y: 0 },
        Key::Right | Key::D => Point { x: 1, y: 0 },
        Key::Up | Key::W => Point { x: 0, y: -1 },
        Key::Down | Key::S => Point { x: 0, y: 1 },
        _ => Point { x: 0, y: 0 },
    }
}

/// The place in the inventory that a number key stands for.
pub fn key_slot(key: Key) -> (slot: Option<usize>)
    ensures
        slot == slot_of(key),
{
    match key {
        Key::Key1 => Some(0),
        Key::Key2 => Some(1),
        Key::Key3 => Some(2),
        Key::Key4 => Some(3),
        Key::Key5 => Some(4),
        Key::Key6 => Some(5),
        Key::Key7 => Some(6),
        Key::Key8 => Some(7),
        _ => None,
    }
}

/// The use of the item in the place `inventory_index` of the inventory of
/// `player`: of the items that the player carries, counted from 0.
pub fn use_item(inventory_index: usize, player: Entity, carried: &Vec<CarriedItem>) -> (used: Option<
    ActivateItem,
>)
    ensures
        used == use_of(inventory_index, player, carried@),
{
    let mut found: usize = 0;
    let mut i: usize = 0;
    while i < carried.len()
        invariant
            i <= carried@.len(),
            found == carried_by(carried@.take(i as int), player).len(),
            found <= inventory_index,
            found <= i,
        decreases carried@.len() - i,
    {
        assert(carried@.take(i + 1).drop_last() =~= carried@.take(i as int));
        if carried[i].carrier == player {
            if found == inventory_index {
                proof {
                    lemma_carried_prefix(carried@, player, i + 1);
                    assert(carried_by(carried@.take(i + 1), player)[found as int]
                        == carried@[i as int].entity);
                }
                return Some(ActivateItem { used_by: player, item: carried[i].entity });
            }
            found += 1;
        }
        i += 1;
    }
    assert(carried@.take(i as int) =~= carried@);
    None
}

/// What the first `n` carried items give is the beginning of what all give.
pub proof fn lemma_carried_prefix(carried: Seq<CarriedItem>, carrier: Entity, n: int)
    requires
        0 <= n <= carried.len(),
    ensures
        carried_by(carried.take(n), carrier).len() <= carried_by(carried, carrier).len(),
        forall|k: int|
            0 <= k < carried_by(carried.take(n), carrier).len() ==> carried_by(
                carried,
                carrier,
            )[k] == #[trigger] carried_by(carried.take(n), carrier)[k],
    decreases carried.len(),
{
    if n < carried.len() {
        assert(carried.drop_last().take(n) =~= carried.take(n));
        lemma_carried_prefix(carried.drop_last(), carrier, n);
    } else {
        assert(carried.take(n) =~= carried);
    }
}

/// What a key leads to. Without a key nothing happens. With a key the
/// player's turn is over: `G` picks up what lies where the acting player
/// stands, and a weapon that is picked up replaces the weapons carried; a
/// number key uses an item; a step attacks the enemies that stand in the way
/// or, where there are none, moves the player.
pub fn player_input(key: Option<Key>, scene: &Scene) -> (outcome: InputOutcome)
    requires
        key is Some ==> scene.players@.len() > 0,
        forall|k: int| 0 <= k < scene.players@.len() ==> can_step((#[trigger] scene.players@[k]).1),
    ensures
        outcome.turn_taken == (key is Some),
        key is None ==> outcome.picked_up@.len() == 0 && outcome.discarded@.len() == 0
            && outcome.activated is None && outcome.attacks@.len() == 0 && outcome.moves@.len()
            == 0,
        key matches Some(k) ==> {
            let actor = scene.players@[0];
            &&& outcome.picked_up@ == if k == Key::G {
                lying_at(scene.ground@, actor.1)
            } else {
                Seq::empty()
            }
            &&& outcome.discarded@ == if k == Key::G {
                discarded_at(scene.ground@, actor.1, scene.carried@, actor.0)
            } else {
                Seq::empty()
            }
            &&& outcome.activated == match slot_of(k) {
                Some(slot) => use_of(slot, actor.0, scene.carried@),
                None => None,
            }
            &&& outcome.attacks@ == if delta_of(k).x != 0 || delta_of(k).y != 0 {
                attacks_on(scene.enemies@, shifted(actor.1, delta_of(k)), actor.0)
            } else {
                Seq::empty()
            }
            &&& outcome.moves@ == moves_of(*scene, delta_of(k))
        },
{
    let mut outcome = InputOutcome {
        picked_up: Vec::new(),
        discarded: Vec::new(),
        activated: None,
        attacks: Vec::new(),
        moves: Vec::new(),
        turn_taken: false,
    };
    let key = match key {
        Some(key) => key,
        None => {
            return outcome;
        },
    };
    let actor = scene.players[0].0;
    let actor_pos = scene.players[0].1;
    if key == Key::G {
        let mut i: usize = 0;
        while i < scene.ground.len()
            invariant
                i <= scene.ground@.len(),
                outcome.picked_up@ == lying_at(scene.ground@.take(i as int), actor_pos),
                outcome.discarded@ == discarded_at(
                    scene.ground@.take(i as int),
                    actor_pos,
                    scene.carried@,
                    actor,
                ),
                outcome.activated is None,
                outcome.attacks@.len() == 0,
                outcome.moves@.len() == 0,
            decreases scene.ground@.len() - i,
        {
            assert(scene.ground@.take(i + 1).drop_last() =~= scene.ground@.take(i as int));
            let item = scene.ground[i];
            if item.pos.x == actor_pos.x && item.pos.y == actor_pos.y {
                outcome.picked_up.push(item.entity);
                if item.is_weapon {
                    let ghost before = outcome.discarded@;
                    let mut j: usize = 0;
                    while j < scene.carried.len()
                        invariant
                            j <= scene.carried@.len(),
                            outcome.discarded@ == before + weapons_of(
                                scene.carried@.take(j as int),
                                actor,
                            ),
                            outcome.picked_up@ == lying_at(
                                scene.ground@.take(i + 1),
                                actor_pos,
                            ),
                            outcome.activated is None,
                            outcome.attacks@.len() == 0,
                            outcome.moves@.len() == 0,
                        decreases scene.carried@.len() - j,
                    {
                        assert(scene.carried@.take(j + 1).drop_last() =~= scene.carried@.take(
                            j as int,
                        ));
                        if scene.carried[j].carrier == actor && scene.carried[j].is_weapon {
                            outcome.discarded.push(scene.carried[j].entity);
                        }
                        assert(outcome.discarded@ =~= before + weapons_of(
                            scene.carried@.take(j + 1),
                            actor,
                        ));
                        j += 1;
                    }
                    assert(scene.carried@.take(j as int) =~= scene.carried@);
                }
            }
            i += 1;
        }
        assert(scene.ground@.take(i as int) =~= scene.ground@);
    }
    match key_slot(key) {
        Some(slot) => {
            outcome.activated = use_item(slot, actor, &scene.carried);
        },
        None => {},
    }
    let delta = key_delta(key);
    let target = Point { x: actor_pos.x + delta.x, y: actor_pos.y + delta.y };
    if delta.x != 0 || delta.y != 0 {
        let mut i: usize = 0;
        while i < scene.enemies.len()
            invariant
                i <= scene.enemies@.len(),
                outcome.attacks@ == attacks_on(scene.enemies@.take(i as int), target, actor),
                outcome.moves@.len() == 0,
                outcome.picked_up@.len() == 0,
                outcome.discarded@.len() == 0,
                outcome.activated is None,
            decreases scene.enemies@.len() - i,
        {
            assert(scene.enemies@.take(i + 1).drop_last() =~= scene.enemies@.take(i as int));
            if scene.enemies[i].1.x == target.x && scene.enemies[i].1.y == target.y {
                outcome.attacks.push(WantsToAttack { attacker: actor, victim: scene.enemies[i].0 });
            }
            i += 1;
        }
        assert(scene.enemies@.take(i as int) =~= scene.enemies@);
        if outcome.attacks.len() == 0 {
            outcome.moves.push(WantsToMove { entity: actor, destination: target });
        }
    }
    let ghost first = outcome.moves@;
    let ghost picked_up = outcome.picked_up@;
    let ghost discarded = outcome.discarded@;
    let ghost activated = outcome.activated;
    let ghost attacks = outcome.attacks@;
    let mut i: usize = 0;
    while i < scene.players.len()
        invariant
            i <= scene.players@.len(),
            outcome.picked_up@ == picked_up,
            outcome.discarded@ == discarded,
            outcome.activated == activated,
            outcome.attacks@ == attacks,
            forall|k: int|
                0 <= k < scene.players@.len() ==> can_step((#[trigger] scene.players@[k]).1),
            delta == delta_of(key),
            outcome.moves@ == first + moves_by(scene.players@.take(i as int), delta),
        decreases scene.players@.len() - i,
    {
        assert(scene.players@.take(i + 1).drop_last() =~= scene.players@.take(i as int));
        let p = scene.players[i];
        outcome.moves.push(
            WantsToMove { entity: p.0, destination: Point { x: p.1.x + delta.x, y: p.1.y + delta.y } },
        );
        assert(outcome.moves@ =~= first + moves_by(scene.players@.take(i + 1), delta));
        i += 1;
    }
    assert(scene.players@.take(i as int) =~= scene.players@);
    outcome.turn_taken = true;
    outcome
}

} // verus!
