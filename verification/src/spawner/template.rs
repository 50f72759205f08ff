//! Templates: what kinds of monsters and items there are, on which levels
//! they appear and how often.

use vstd::prelude::*;
use std::collections::HashSet;
use crate::components::{Blueprint, Health, Role};
use crate::geometry::Point;
use crate::rng::roll_index;
use crate::themes::{cp437, to_glyph};

verus! {

broadcast use vstd::std_specs::hash::group_hash_axioms;

/// The radius of a monster's field of view.
pub const ENEMY_SIGHT: i32 = 6;

/// Whether a template describes a monster or an item.
#[derive(Clone, Copy, Debug, PartialEq, Eq, Structural)]
pub enum EntityType {
    Enemy,
    Item,
}

/// One kind of monster or item.
#[derive(Debug)]
pub struct Template {
    pub entity_type: EntityType,
    /// The levels on which the kind appears.
    pub levels: HashSet<usize>,
    /// How many lots the kind has in the draw.
    pub frequency: u32,
    pub name: String,
    pub glyph: char,
    /// The effects of an item, each with its amount.
    pub provides: Option<Vec<(String, i32)>>,
    pub hp: Option<i32>,
    pub base_damage: Option<i32>,
}

/// All kinds of monsters and items.
#[derive(Debug)]
pub struct Templates {
    pub entities: Vec<Template>,
}

/// The amount of the last `Healing` among the effects, if there is one.
pub open spec fn healing_of(effects: Seq<(String, i32)>) -> Option<i32>
    decreases effects.len(),
{
    if effects.len() == 0 {
        None
    } else if effects.last().0@ == "Healing"@ {
        Some(effects.last().1)
    } else {
        healing_of(effects.drop_last())
    }
}

/// True when `DungeonMap` is among the effects.
pub open spec fn reveals_of(effects: Seq<(String, i32)>) -> bool {
    exists|k: int| 0 <= k < effects.len() && (#[trigger] effects[k]).0@ == "DungeonMap"@
}

/// The effects of a template; none where it names none.
pub open spec fn effects_of(template: Template) -> Seq<(String, i32)> {
    match template.provides {
        Some(effects) => effects@,
        None => Seq::empty(),
    }
}

/// True when `made` is what a template makes at `pos`: a monster has a field
/// of view, chases the player and has the template's hit points, or one where
/// it names none; an item heals or reveals the map as its effects say; and
/// either has the template's damage, which makes an item a weapon.
pub open spec fn made_from(template: Template, pos: Point, made: Blueprint) -> bool {
    &&& made.pos == pos
    &&& made.glyph == cp437(template.glyph)
    &&& made.name is Some
    &&& made.name.unwrap()@ == template.name@
    &&& made.role == match template.entity_type {
        EntityType::Enemy => Role::Enemy,
        EntityType::Item => Role::Item,
    }
    &&& made.health == match template.entity_type {
        EntityType::Enemy => Some(
            Health {
                current: match template.hp {
                    Some(hp) => hp,
                    None => 1,
                },
                max: match template.hp {
                    Some(hp) => hp,
                    None => 1,
                },
            },
        ),
        EntityType::Item => None,
    }
    &&& made.sight == match template.entity_type {
        EntityType::Enemy => Some(ENEMY_SIGHT),
        EntityType::Item => None,
    }
    &&& made.chases_player == (template.entity_type == EntityType::Enemy)
    &&& made.healing == healing_of(effects_of(template))
    &&& made.reveals_map == reveals_of(effects_of(template))
    &&& made.damage == template.base_damage
    &&& made.weapon == (template.base_damage is Some && template.entity_type == EntityType::Item)
}

/// The lots of the draw for a level: the number of each template that
/// belongs to the level, as often as its frequency says, in the templates'
/// order.
pub open spec fn pool(templates: Seq<Template>, map_level: usize) -> Seq<usize>
    decreases templates.len(),
{
    if templates.len() == 0 {
        Seq::empty()
    } else if templates.last().levels@.contains(map_level) {
        pool(templates.drop_last(), map_level) + Seq::new(
            templates.last().frequency as nat,
            |k: int| (templates.len() - 1) as usize,
        )
    } else {
        pool(templates.drop_last(), map_level)
    }
}

/// True when `made` is what a template with a lot in the draw makes at `pos`.
pub open spec fn drawn(templates: Seq<Template>, map_level: usize, pos: Point, made: Blueprint) -> bool {
    exists|lot: int|
        0 <= lot < pool(templates, map_level).len() && #[trigger] made_from(
            templates[pool(templates, map_level)[lot] as int],
            pos,
            made,
        )
}

/// True when `spawned` is a draw for `spawn_points`: one entity at each
/// point, made from a template that has a lot in the draw; nothing where the
/// draw has no lots.
pub open spec fn drawn_from(
    templates: Seq<Template>,
    map_level: usize,
    spawn_points: Seq<Point>,
    spawned: Seq<Blueprint>,
) -> bool {
    &&& pool(templates, map_level).len() == 0 ==> spawned.len() == 0
    &&& pool(templates, map_level).len() > 0 ==> spawned.len() == spawn_points.len()
    &&& forall|k: int|
        0 <= k < spawned.len() ==> #[trigger] drawn(
            templates,
            map_level,
            spawn_points[k],
            spawned[k],
        )
}

/// Every lot names a template.
pub proof fn lemma_pool_in_range(templates: Seq<Template>, map_level: usize, lot: int)
    requires
        templates.len() <= usize::MAX,
        0 <= lot < pool(templates, map_level).len(),
    ensures
        0 <= pool(templates, map_level)[lot] < templates.len(),
        templates[pool(templates, map_level)[lot] as int].levels@.contains(map_level),
    decreases templates.len(),
{
    if templates.len() > 0 {
        let rest = pool(templates.drop_last(), map_level);
        if lot < rest.len() {
            lemma_pool_in_range(templates.drop_last(), map_level, lot);
            assert(pool(templates, map_level)[lot] == rest[lot]);
            assert(templates.drop_last()[rest[lot] as int] == templates[rest[lot] as int]);
        } else {
            assert(pool(templates, map_level)[lot] == (templates.len() - 1) as usize);
        }
    }
}

impl Templates {
    /// True when the lots of the draw for `map_level` are few enough to be
    /// drawn from.
    pub fn pool_fits(&self, map_level: usize) -> (fits: bool)
        ensures
            fits == (pool(self.entities@, map_level).len() < i32::MAX),
    {
        let mut total: u64 = 0;
        let mut i: usize = 0;
        while i < self.entities.len()
            invariant
                i <= self.entities@.len(),
                total == pool(self.entities@.take(i as int), map_level).len(),
                total < i32::MAX,
            decreases self.entities@.len() - i,
        {
            assert(self.entities@.take(i + 1).drop_last() =~= self.entities@.take(i as int));
            if self.entities[i].levels.contains(&map_level) {
                total = total + self.entities[i].frequency as u64;
            }
            if total >= i32::MAX as u64 {
                proof {
                    lemma_pool_grows(self.entities@, map_level, i + 1);
                }
                return false;
            }
            i += 1;
        }
        assert(self.entities@.take(i as int) =~= self.entities@);
        true
    }

    /// The monsters and items for `spawn_points`: for each point one lot is
    /// drawn, and the lot's template makes an entity there.
    pub fn spawn_entities(
        &self,
        rng: &mut bracket_lib::random::RandomNumberGenerator,
        map_level: usize,
        spawn_points: &Vec<Point>,
    ) -> (spawned: Vec<Blueprint>)
        requires
            pool(self.entities@, map_level).len() < i32::MAX,
        ensures
            drawn_from(self.entities@, map_level, spawn_points@, spawned@),
    {
        let mut lots: Vec<usize> = Vec::new();
        let mut i: usize = 0;
        while i < self.entities.len()
            invariant
                i <= self.entities@.len(),
                lots@ == pool(self.entities@.take(i as int), map_level),
                pool(self.entities@, map_level).len() < i32::MAX,
            decreases self.entities@.len() - i,
        {
            assert(self.entities@.take(i + 1).drop_last() =~= self.entities@.take(i as int));
            proof {
                lemma_pool_grows(self.entities@, map_level, i + 1);
            }
            if self.entities[i].levels.contains(&map_level) {
                let frequency = self.entities[i].frequency;
                let ghost before = lots@;
                let mut made: u32 = 0;
                while made < frequency
                    invariant
                        made <= frequency,
                        lots@ == before + Seq::new(made as nat, |k: int| i),
                    decreases frequency - made,
                {
                    lots.push(i);
                    made += 1;
                    assert(lots@ =~= before + Seq::new(made as nat, |k: int| i));
                }
            }
            i += 1;
        }
        assert(self.entities@.take(i as int) =~= self.entities@);
        let mut spawned: Vec<Blueprint> = Vec::new();
        let mut k: usize = 0;
        let count = self.entities.len();
        while k < spawn_points.len()
            invariant
                k <= spawn_points@.len(),
                count == self.entities@.len(),
                lots@ == pool(self.entities@, map_level),
                lots@.len() < i32::MAX,
                lots@.len() == 0 ==> spawned@.len() == 0,
                lots@.len() > 0 ==> spawned@.len() == k,
                forall|j: int|
                    0 <= j < spawned@.len() ==> #[trigger] drawn(
                        self.entities@,
                        map_level,
                        spawn_points@[j],
                        spawned@[j],
                    ),
            decreases spawn_points@.len() - k,
        {
            match roll_index(rng, &lots) {
                Some(lot) => {
                    proof {
                        lemma_pool_in_range(self.entities@, map_level, lot as int);
                    }
                    let made = Templates::spawn_entity(spawn_points[k], &self.entities[lots[lot]]);
                    let ghost before = spawned@;
                    spawned.push(made);
                    proof {
                        assert(made_from(
                            self.entities@[pool(self.entities@, map_level)[lot as int] as int],
                            spawn_points@[k as int],
                            made,
                        ));
                        assert forall|j: int| 0 <= j < spawned@.len() implies #[trigger] drawn(
                            self.entities@,
                            map_level,
                            spawn_points@[j],
                            spawned@[j],
                        ) by {
                            if j < before.len() {
                                assert(spawned@[j] == before[j]);
                            }
                        }
                    }
                },
                None => {},
            }
            k += 1;
        }
        spawned
    }

    /// What `template` makes at `pos`.
    pub fn spawn_entity(pos: Point, template: &Template) -> (made: Blueprint)
        ensures
            made_from(*template, pos, made),
    {
        let mut made = Blueprint {
            pos,
            glyph: to_glyph(template.glyph),
            name: Some(template.name.clone()),
            role: Role::Item,
            health: None,
            sight: None,
            chases_player: false,
            healing: None,
            reveals_map: false,
            damage: None,
            weapon: false,
        };
        match template.entity_type {
            EntityType::Item => {},
            EntityType::Enemy => {
                let hp = match template.hp {
                    Some(hp) => hp,
                    None => 1,
                };
                made.role = Role::Enemy;
                made.sight = Some(ENEMY_SIGHT);
                made.chases_player = true;
                made.health = Some(Health { current: hp, max: hp });
            },
        }
        match &template.provides {
            Some(effects) => {
                let healing = "Healing".to_string();
                let dungeon_map = "DungeonMap".to_string();
                proof {
                    reveal_strlit("Healing");
                    reveal_strlit("DungeonMap");
                    vstd::string::to_string_from_display_ensures_for_str("Healing", healing);
                    vstd::string::to_string_from_display_ensures_for_str(
                        "DungeonMap",
                        dungeon_map,
                    );
                }
                let mut i: usize = 0;
                while i < effects.len()
                    invariant
                        i <= effects@.len(),
                        healing@ == "Healing"@,
                        dungeon_map@ == "DungeonMap"@,
                        made.healing == healing_of(effects@.take(i as int)),
                        made.reveals_map == reveals_of(effects@.take(i as int)),
                        made.pos == pos,
                        made.glyph == cp437(template.glyph),
                        made.name is Some,
                        made.name.unwrap()@ == template.name@,
                        made.role == match template.entity_type {
                            EntityType::Enemy => Role::Enemy,
                            EntityType::Item => Role::Item,
                        },
                        made.health == match template.entity_type {
                            EntityType::Enemy => Some(
                                Health {
                                    current: match template.hp {
                                        Some(hp) => hp,
                                        None => 1,
                                    },
                                    max: match template.hp {
                                        Some(hp) => hp,
                                        None => 1,
                                    },
                                },
                            ),
                            EntityType::Item => None,
                        },
                        made.sight == match template.entity_type {
                            EntityType::Enemy => Some(ENEMY_SIGHT),
                            EntityType::Item => None,
                        },
                        made.chases_player == (template.entity_type == EntityType::Enemy),
                        made.damage is None,
                        !made.weapon,
                    decreases effects@.len() - i,
                {
                    proof {
                        reveal_strlit("Healing");
                        reveal_strlit("DungeonMap");
                    }
                    let ghost seen = effects@.take(i as int);
                    let ghost more = effects@.take(i + 1);
                    assert(more.drop_last() =~= seen);
                    assert(more.last() == effects@[i as int]);
                    let ghost revealed = made.reveals_map;
                    if effects[i].0 == healing {
                        made.healing = Some(effects[i].1);
                    } else if effects[i].0 == dungeon_map {
                        made.reveals_map = true;
                    }
                    assert("Healing"@.len() != "DungeonMap"@.len());
                    assert(made.reveals_map == (revealed || effects@[i as int].0@
                        == "DungeonMap"@));
                    proof {
                        if reveals_of(seen) {
                            let k = choose|k: int|
                                0 <= k < seen.len() && (#[trigger] seen[k]).0@ == "DungeonMap"@;
                            assert(more[k].0@ == "DungeonMap"@);
                        }
                        if reveals_of(more) && !reveals_of(seen) {
                            let k = choose|k: int|
                                0 <= k < more.len() && (#[trigger] more[k]).0@ == "DungeonMap"@;
                            if k < seen.len() {
                                assert(seen[k].0@ == "DungeonMap"@);
                            }
                        }
                        if effects@[i as int].0@ == "DungeonMap"@ {
                            assert(more[i as int].0@ == "DungeonMap"@);
                        }
                    }
                    i += 1;
                }
                assert(effects@.take(i as int) =~= effects@);
            },
            None => {},
        }
        match template.base_damage {
            Some(damage) => {
                made.damage = Some(damage);
                made.weapon = template.entity_type == EntityType::Item;
            },
            None => {},
        }
        made
    }
}

/// The lots of the first `n` templates are among the lots of all.
pub proof fn lemma_pool_grows(templates: Seq<Template>, map_level: usize, n: int)
    requires
        0 <= n <= templates.len(),
    ensures
        pool(templates.take(n), map_level).len() <= pool(templates, map_level).len(),
    decreases templates.len(),
{
    if n < templates.len() {
        assert(templates.drop_last().take(n) =~= templates.take(n));
        lemma_pool_grows(templates.drop_last(), map_level, n);
    } else {
        assert(templates.take(n) =~= templates);
    }
}

} // verus!
