//! Random movement: a monster steps in a random direction, or attacks the
//! player who stands there.

use vstd::prelude::*;
use crate::components::{Entity, WantsToAttack, WantsToMove};
use crate::geometry::Point;
use crate::rng::roll_range;

verus! {

/// What an entity intends to do.
#[derive(Clone, Copy, Debug, PartialEq, Eq, Structural)]
pub enum Intent {
    Attack(WantsToAttack),
    Move(WantsToMove),
}

/// An entity with hit points: where it stands, and whether it is the player.
#[derive(Clone, Copy, Debug, PartialEq, Eq, Structural)]
pub struct Body {
    pub entity: Entity,
    pub pos: Point,
    pub is_player: bool,
}

/// True when a step from `pos` in any direction stays within the range of
/// the coordinates.
pub open spec fn can_step(pos: Point) -> bool {
    i32::MIN < pos.x < i32::MAX && i32::MIN < pos.y < i32::MAX
}

/// Where a step leads from `pos`: to the left for the roll 0, to the right
/// for 1, up for 2, and down for any other roll.
pub open spec fn stepped(pos: Point, roll: int) -> Point {
    if roll == 0 {
        Point { x: (pos.x - 1) as i32, y: pos.y }
    } else if roll == 1 {
        Point { x: (pos.x + 1) as i32, y: pos.y }
    } else if roll == 2 {
        Point { x: pos.x, y: (pos.y - 1) as i32 }
    } else {
        Point { x: pos.x, y: (pos.y + 1) as i32 }
    }
}

/// The attacks of `mover` on the players among `bodies` that stand at
/// `target`, in their order.
pub open spec fn attacks_at(mover: Entity, target: Point, bodies: Seq<Body>) -> Seq<Intent>
    decreases bodies.len(),
{
    if bodies.len() == 0 {
        Seq::empty()
    } else if bodies.last().pos == target && bodies.last().is_player {
        attacks_at(mover, target, bodies.drop_last()).push(
            Intent::Attack(WantsToAttack { attacker: mover, victim: bodies.last().entity }),
        )
    } else {
        attacks_at(mover, target, bodies.drop_last())
    }
}

/// True when one of `bodies` stands at `target`.
pub open spec fn occupied(target: Point, bodies: Seq<Body>) -> bool {
    exists|k: int| 0 <= k < bodies.len() && (#[trigger] bodies[k]).pos == target
}

/// What a monster at `pos` intends after the roll `roll`: it attacks each
/// player who stands where the step leads; where nobody with hit points
/// stands there, it moves there.
pub open spec fn intents_of(mover: Entity, pos: Point, roll: int, bodies: Seq<Body>) -> Seq<
    Intent,
> {
    if occupied(stepped(pos, roll), bodies) {
        attacks_at(mover, stepped(pos, roll), bodies)
    } else {
        seq![Intent::Move(WantsToMove { entity: mover, destination: stepped(pos, roll) })]
    }
}

/// What the monsters intend after the rolls `rolls`, one for each monster.
pub open spec fn all_intents(movers: Seq<(Entity, Point)>, rolls: Seq<int>, bodies: Seq<Body>) -> Seq<
    Intent,
>
    decreases movers.len(),
{
    if movers.len() == 0 {
        Seq::empty()
    } else {
        all_intents(movers.drop_last(), rolls.drop_last(), bodies) + intents_of(
            movers.last().0,
            movers.last().1,
            rolls.last(),
            bodies,
        )
    }
}

/// True when `rolls` holds one roll from 0 to 3 for each of `count` monsters.
pub open spec fn are_rolls(rolls: Seq<int>, count: nat) -> bool {
    rolls.len() == count && forall|k: int| 0 <= k < rolls.len() ==> 0 <= #[trigger] rolls[k] < 4
}

/// What a monster at `pos` intends after the roll `roll`.
pub fn random_step(mover: Entity, pos: Point, roll: i32, bodies: &Vec<Body>) -> (intents: Vec<
    Intent,
>)
    requires
        can_step(pos),
    ensures
        intents@ == intents_of(mover, pos, roll as int, bodies@),
{
    let target = if roll == 0 {
        Point { x: pos.x - 1, y: pos.y }
    } else if roll == 1 {
        Point { x: pos.x + 1, y: pos.y }
    } else if roll == 2 {
        Point { x: pos.x, y: pos.y - 1 }
    } else {
        Point { x: pos.x, y: pos.y + 1 }
    };
    let mut intents: Vec<Intent> = Vec::new();
    let mut attacked = false;
    let mut i: usize = 0;
    while i < bodies.len()
        invariant
            i <= bodies@.len(),
            target == stepped(pos, roll as int),
            intents@ == attacks_at(mover, target, bodies@.take(i as int)),
            attacked == occupied(target, bodies@.take(i as int)),
        decreases bodies@.len() - i,
    {
        let ghost seen = bodies@.take(i as int);
        let ghost more = bodies@.take(i + 1);
        assert(more.drop_last() =~= seen);
        let body = bodies[i];
        if body.pos.x == target.x && body.pos.y == target.y {
            if body.is_player {
                intents.push(Intent::Attack(WantsToAttack { attacker: mover, victim: body.entity }));
            }
            attacked = true;
            assert(more[i as int].pos == target);
        }
        proof {
            if occupied(target, seen) {
                let k = choose|k: int| 0 <= k < seen.len() && (#[trigger] seen[k]).pos == target;
                assert(more[k].pos == target);
            }
            if occupied(target, more) && !occupied(target, seen) {
                let k = choose|k: int| 0 <= k < more.len() && (#[trigger] more[k]).pos == target;
                if k < seen.len() {
                    assert(seen[k].pos == target);
                }
            }
        }
        i += 1;
    }
    assert(bodies@.take(i as int) =~= bodies@);
    if !attacked {
        intents.push(Intent::Move(WantsToMove { entity: mover, destination: target }));
        assert(intents@ =~= seq![
            Intent::Move(WantsToMove { entity: mover, destination: target }),
        ]) by {
            lemma_no_attack_where_free(mover, target, bodies@);
        }
    }
    intents
}

/// Nobody is attacked where nobody stands.
pub proof fn lemma_no_attack_where_free(mover: Entity, target: Point, bodies: Seq<Body>)
    requires
        !occupied(target, bodies),
    ensures
        attacks_at(mover, target, bodies).len() == 0,
    decreases bodies.len(),
{
    if bodies.len() > 0 {
        assert(bodies[bodies.len() - 1].pos != target);
        assert forall|k: int| 0 <= k < bodies.drop_last().len() implies (#[trigger] bodies.drop_last()[k]).pos
            != target by {
            assert(bodies[k].pos != target);
        }
        lemma_no_attack_where_free(mover, target, bodies.drop_last());
    }
}

/// What the randomly moving monsters intend. For each monster, in their
/// order, one direction is rolled.
pub fn random_move(
    rng: &mut bracket_lib::random::RandomNumberGenerator,
    movers: &Vec<(Entity, Point)>,
    bodies: &Vec<Body>,
) -> (intents: Vec<Intent>)
    requires
        forall|k: int| 0 <= k < movers@.len() ==> can_step((#[trigger] movers@[k]).1),
    ensures
        exists|rolls: Seq<int>| #[trigger]
            are_rolls(rolls, movers@.len()) && intents@ == all_intents(movers@, rolls, bodies@),
{
    let mut intents: Vec<Intent> = Vec::new();
    let ghost mut rolls: Seq<int> = Seq::empty();
    let mut i: usize = 0;
    while i < movers.len()
        invariant
            i <= movers@.len(),
            forall|k: int| 0 <= k < movers@.len() ==> can_step((#[trigger] movers@[k]).1),
            are_rolls(rolls, i as nat),
            intents@ == all_intents(movers@.take(i as int), rolls, bodies@),
        decreases movers@.len() - i,
    {
        let roll = roll_range(rng, 0, 4);
        let mut step = random_step(movers[i].0, movers[i].1, roll, bodies);
        let ghost before = intents@;
        let ghost rolled = rolls;
        intents.append(&mut step);
        proof {
            rolls = rolls.push(roll as int);
            assert(rolls.drop_last() =~= rolled);
            assert(movers@.take(i + 1).drop_last() =~= movers@.take(i as int));
            assert(movers@.take(i + 1).last() == movers@[i as int]);
        }
        i += 1;
    }
    assert(movers@.take(i as int) =~= movers@);
    intents
}

} // verus!
