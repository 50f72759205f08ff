//! The use of items: healing potions heal, maps reveal the level, and what
//! is used is used up.

use vstd::prelude::*;
use crate::components::{ActivateItem, Entity, Health};

verus! {

/// The use of an item, with what is known of the item.
#[derive(Clone, Copy, Debug, PartialEq, Eq, Structural)]
pub struct Activation {
    /// The entity that carries the message of the use.
    pub message: Entity,
    pub activate: ActivateItem,
    /// True when the item still exists.
    pub item_exists: bool,
    /// The hit points that the item gives back, if it heals.
    pub healing: Option<i32>,
    /// True when the item reveals the map.
    pub reveals_map: bool,
}

/// What the uses of items lead to.
#[derive(Debug)]
pub struct UseOutcome {
    /// Who is healed, and by how much, in the order of the uses.
    pub heals: Vec<(Entity, i32)>,
    /// True when the whole map is to be revealed.
    pub reveal_map: bool,
    /// The entities to remove: of each use the item, then the message.
    pub removed: Vec<Entity>,
}

/// Who is healed by the uses, and by how much.
pub open spec fn heals_of(uses: Seq<Activation>) -> Seq<(Entity, i32)>
    decreases uses.len(),
{
    if uses.len() == 0 {
        Seq::empty()
    } else if uses.last().item_exists && uses.last().healing is Some {
        heals_of(uses.drop_last()).push((uses.last().activate.used_by, uses.last().healing.unwrap()))
    } else {
        heals_of(uses.drop_last())
    }
}

/// True when one of the uses reveals the map.
pub open spec fn reveals(uses: Seq<Activation>) -> bool {
    exists|k: int| 0 <= k < uses.len() && (#[trigger] uses[k]).item_exists && uses[k].reveals_map
}

/// The entities that the uses use up.
pub open spec fn used_up(uses: Seq<Activation>) -> Seq<Entity>
    decreases uses.len(),
{
    if uses.len() == 0 {
        Seq::empty()
    } else {
        used_up(uses.drop_last()).push(uses.last().activate.item).push(uses.last().message)
    }
}

/// The health after healing by `amount`: the sum, but no more than the
/// maximum.
pub open spec fn healed(health: Health, amount: i32) -> Health {
    Health {
        current: if health.current + amount < health.max {
            (health.current + amount) as i32
        } else {
            health.max
        },
        max: health.max,
    }
}

/// What the uses of items lead to. An item that no longer exists does
/// nothing, but the use is used up all the same.
pub fn use_items(uses: &Vec<Activation>) -> (outcome: UseOutcome)
    ensures
        outcome.heals@ == heals_of(uses@),
        outcome.reveal_map == reveals(uses@),
        outcome.removed@ == used_up(uses@),
{
    let mut heals: Vec<(Entity, i32)> = Vec::new();
    let mut removed: Vec<Entity> = Vec::new();
    let mut reveal_map = false;
    let mut i: usize = 0;
    while i < uses.len()
        invariant
            i <= uses@.len(),
            heals@ == heals_of(uses@.take(i as int)),
            reveal_map == reveals(uses@.take(i as int)),
            removed@ == used_up(uses@.take(i as int)),
        decreases uses@.len() - i,
    {
        let ghost seen = uses@.take(i as int);
        let ghost more = uses@.take(i + 1);
        assert(more.drop_last() =~= seen);
        let used = uses[i];
        if used.item_exists {
            match used.healing {
                Some(amount) => {
                    heals.push((used.activate.used_by, amount));
                },
                None => {},
            }
            if used.reveals_map {
                reveal_map = true;
                assert(more[i as int].item_exists && more[i as int].reveals_map);
            }
        }
        removed.push(used.activate.item);
        removed.push(used.message);
        proof {
            if reveals(seen) {
                let k = choose|k: int|
                    0 <= k < seen.len() && (#[trigger] seen[k]).item_exists && seen[k].reveals_map;
                assert(more[k].item_exists && more[k].reveals_map);
            }
            if reveals(more) && !reveals(seen) {
                let k = choose|k: int|
                    0 <= k < more.len() && (#[trigger] more[k]).item_exists && more[k].reveals_map;
                if k < seen.len() {
                    assert(seen[k].item_exists && seen[k].reveals_map);
                }
            }
        }
        i += 1;
    }
    assert(uses@.take(i as int) =~= uses@);
    UseOutcome { heals, reveal_map, removed }
}

/// The health after healing by `amount`.
pub fn heal(health: Health, amount: i32) -> (after: Health)
    requires
        i32::MIN <= health.current + amount <= i32::MAX,
    ensures
        after == healed(health, amount),
{
    let sum = health.current + amount;
    Health {
        current: if sum < health.max {
            sum
        } else {
            health.max
        },
        max: health.max,
    }
}

} // verus!
