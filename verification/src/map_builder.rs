//! The builder: the generated level with its start, its goal and its spawn
//! points, and what the architects share.

use vstd::prelude::*;
use crate::distance::{
    distance, has_far, horizon, is_farthest, source_set, DistanceField, UNREACHABLE,
};
use crate::geometry::{Point, Rect};
use crate::map::{walkable, Grid, TileType};
use crate::automata::CellularAutomataArchitect;
use crate::drunkard::DrunkardArchitect;
use crate::prefab::{apply_prefab, decorated};
use crate::rng::{roll_index, roll_range};
use crate::themes::{DungeonTheme, ForestTheme, Theme};

verus! {

/// How many monsters a level gets.
pub const NUM_MONSTERS: usize = 50;

/// The cutoff of the distance fields that generation builds.
pub const MAX_DEPTH: u32 = 1024;

/// A cell whose distance is at or above this ceiling counts as unreachable.
pub const UNREACHABLE_CEILING: u32 = 2000;

/// Monsters spawn farther than this from the start.
pub const SPAWN_CLEARANCE: u32 = 10;

/// A generated level.
pub struct MapBuilder {
    pub map: Grid,
    pub rooms: Vec<Rect>,
    pub monster_spawns: Vec<Point>,
    pub player_start: Point,
    pub amulet_start: Point,
    pub theme: Theme,
}

/// The sources of a field that starts at `start`: its cell, or none where
/// `start` lies off the grid.
pub open spec fn start_sources(grid: Grid, start: Point) -> Seq<usize> {
    if grid.has(start) {
        seq![grid.index_of(start) as usize]
    } else {
        Seq::empty()
    }
}

/// The distance of cell `i` from `start`, as generation measures it.
pub open spec fn distance_from(grid: Grid, start: Point, i: int) -> int {
    distance(grid, source_set(start_sources(grid, start)), horizon(MAX_DEPTH), i)
}

/// True when `field` holds the distances of the cells of `grid` from `start`.
pub open spec fn measures(field: DistanceField, grid: Grid, start: Point) -> bool {
    field.describes(grid, source_set(start_sources(grid, start)), horizon(MAX_DEPTH))
}

/// True when `p` is the goal of a level that starts at `start`: the first
/// cell among those farthest from `start`, or the middle of the grid where
/// nothing but `start` can be reached.
pub open spec fn is_goal(grid: Grid, start: Point, p: Point) -> bool {
    &&& (exists|i: int| is_goal_cell(grid, start, i)) ==> exists|i: int|
        is_goal_cell(grid, start, i) && p == grid.point_of(i)
    &&& !(exists|i: int| is_goal_cell(grid, start, i)) ==> p == grid.center_of()
}

/// True when cell `i` can be reached from `start`, is not `start`, no cell is
/// farther from `start`, and no cell before it is as far.
pub open spec fn is_goal_cell(grid: Grid, start: Point, i: int) -> bool {
    &&& 0 <= i < grid@.len()
    &&& 0 < distance_from(grid, start, i) < UNREACHABLE
    &&& forall|j: int|
        0 <= j < grid@.len() && 0 < #[trigger] distance_from(grid, start, j) < UNREACHABLE
            ==> distance_from(grid, start, j) <= distance_from(grid, start, i)
    &&& forall|j: int|
        0 <= j < i && 0 < #[trigger] distance_from(grid, start, j) < UNREACHABLE
            ==> distance_from(grid, start, j) < distance_from(grid, start, i)
}

/// True when a monster may spawn at `p`: a `Floor` cell whose distance from
/// `start` is above the clearance and below the ceiling.
pub open spec fn spawnable(grid: Grid, start: Point, p: Point) -> bool {
    &&& grid.has(p)
    &&& grid.tile_of(p) == TileType::Floor
    &&& SPAWN_CLEARANCE < distance_from(grid, start, grid.index_of(p)) < UNREACHABLE_CEILING
}

/// What every architect's level has: a map of the standard size, a start on
/// the map, the goal that belongs to the start, which can be walked on where
/// anything but the start can be reached, and spawn points drawn from the
/// cells where monsters may spawn.
pub open spec fn designed(mb: MapBuilder) -> bool {
    &&& mb.map.wf()
    &&& mb.map.width() == crate::SCREEN_WIDTH
    &&& mb.map.height() == crate::SCREEN_HEIGHT
    &&& mb.map.has(mb.player_start)
    &&& mb.map.has(mb.amulet_start)
    &&& is_goal(mb.map, mb.player_start, mb.amulet_start)
    &&& (exists|i: int| is_goal_cell(mb.map, mb.player_start, i)) ==> walkable(
        mb.map.tile_of(mb.amulet_start),
    )
    &&& well_spawned(mb.map, mb.player_start, mb.monster_spawns@)
}

/// True when `spawns` is what spawn selection gives for a level that starts
/// at `start`: `NUM_MONSTERS` points where monsters may spawn, or none where
/// there is no such point.
pub open spec fn well_spawned(grid: Grid, start: Point, spawns: Seq<Point>) -> bool {
    &&& forall|k: int| 0 <= k < spawns.len() ==> spawnable(grid, start, #[trigger] spawns[k])
    &&& (exists|p: Point| spawnable(grid, start, p)) ==> spawns.len() == NUM_MONSTERS
    &&& !(exists|p: Point| spawnable(grid, start, p)) ==> spawns.len() == 0
}

/// A strategy that designs a level.
pub trait MapArchitect {
    /// Designs a level from the draws of `rng`.
    fn design(&mut self, rng: &mut bracket_lib::random::RandomNumberGenerator) -> (mb: MapBuilder)
        ensures
            designed(mb),
    ;
}

/// The map and the start determine the goal.
pub proof fn lemma_goal_determined(grid: Grid, start: Point, p: Point, q: Point)
    requires
        is_goal(grid, start, p),
        is_goal(grid, start, q),
    ensures
        p == q,
{
    if exists|i: int| is_goal_cell(grid, start, i) {
        let i = choose|i: int| is_goal_cell(grid, start, i) && p == grid.point_of(i);
        let j = choose|j: int| is_goal_cell(grid, start, j) && q == grid.point_of(j);
        if i < j {
            assert(0 < distance_from(grid, start, i) < UNREACHABLE);
        } else if j < i {
            assert(0 < distance_from(grid, start, j) < UNREACHABLE);
        }
    }
}

/// The field that measures the cells of `grid` from `start`.
pub fn field_from(grid: &Grid, start: Point) -> (field: DistanceField)
    requires
        grid.wf(),
    ensures
        measures(field, *grid, start),
{
    let mut starts: Vec<usize> = Vec::new();
    if grid.in_bounds(start) {
        starts.push(grid.point2d_to_index(start));
    }
    assert(starts@ =~= start_sources(*grid, start));
    DistanceField::new(grid, &starts, MAX_DEPTH)
}

impl MapBuilder {
    /// A new level. One roll picks the architect that designs it, the
    /// decorator then looks for a place for the fortress, and one more roll
    /// picks the theme.
    pub fn new(rng: &mut bracket_lib::random::RandomNumberGenerator) -> (mb: MapBuilder)
        ensures
            exists|draft: MapBuilder| #[trigger]
                designed(draft) && decorated(
                    draft,
                    MapBuilder {
                        map: mb.map,
                        rooms: mb.rooms,
                        monster_spawns: mb.monster_spawns,
                        player_start: mb.player_start,
                        amulet_start: mb.amulet_start,
                        theme: draft.theme,
                    },
                ),
            mb.map.wf(),
            mb.map.width() == crate::SCREEN_WIDTH,
            mb.map.height() == crate::SCREEN_HEIGHT,
            mb.map.has(mb.player_start),
            mb.map.has(mb.amulet_start),
    {
        let mut mb = if roll_range(rng, 0, 2) == 0 {
            let mut architect = DrunkardArchitect {  };
            architect.design(rng)
        } else {
            let mut architect = CellularAutomataArchitect {  };
            architect.design(rng)
        };
        let ghost draft = mb;
        apply_prefab(&mut mb, rng);
        let ghost done = mb;
        mb.theme = if roll_range(rng, 0, 2) == 0 {
            DungeonTheme::new()
        } else {
            ForestTheme::new()
        };
        proof {
            assert(designed(draft) && decorated(
                draft,
                MapBuilder {
                    map: mb.map,
                    rooms: mb.rooms,
                    monster_spawns: mb.monster_spawns,
                    player_start: mb.player_start,
                    amulet_start: mb.amulet_start,
                    theme: draft.theme,
                },
            )) by {
                assert(MapBuilder {
                    map: mb.map,
                    rooms: mb.rooms,
                    monster_spawns: mb.monster_spawns,
                    player_start: mb.player_start,
                    amulet_start: mb.amulet_start,
                    theme: draft.theme,
                } == done);
            }
        }
        mb
    }

    /// Sets every cell of the map to `tile`.
    pub fn fill(&mut self, tile: TileType)
        requires
            old(self).map.wf(),
        ensures
            final(self).map.wf(),
            final(self).map.width() == old(self).map.width(),
            final(self).map.height() == old(self).map.height(),
            forall|i: int| 0 <= i < final(self).map@.len() ==> final(self).map@[i] == tile,
            final(self).rooms == old(self).rooms,
            final(self).monster_spawns == old(self).monster_spawns,
            final(self).player_start == old(self).player_start,
            final(self).amulet_start == old(self).amulet_start,
            final(self).theme == old(self).theme,
    {
        self.map.fill(tile);
    }

    /// The goal of the level: the first cell, in row-major order, among those
    /// farthest from the player's start; the middle of the map where nothing
    /// but the start can be reached.
    pub fn find_most_distant(&self) -> (goal: Point)
        requires
            self.map.wf(),
        ensures
            is_goal(self.map, self.player_start, goal),
            self.map.has(goal),
            (exists|i: int| is_goal_cell(self.map, self.player_start, i)) ==> walkable(
                self.map.tile_of(goal),
            ),
    {
        let field = field_from(&self.map, self.player_start);
        let center = self.map.center();
        let goal = field.farthest_point(center);
        proof {
            let grid = self.map;
            let start = self.player_start;
            assert forall|i: int| is_farthest(field@, i) implies is_goal_cell(grid, start, i) by {
                assert forall|j: int|
                    0 <= j < grid@.len() && 0 < #[trigger] distance_from(grid, start, j)
                        < UNREACHABLE implies distance_from(grid, start, j) <= distance_from(
                    grid,
                    start,
                    i,
                ) by {
                    assert(field@[j] == distance_from(grid, start, j));
                }
                assert forall|j: int|
                    0 <= j < i && 0 < #[trigger] distance_from(grid, start, j)
                        < UNREACHABLE implies distance_from(grid, start, j) < distance_from(
                    grid,
                    start,
                    i,
                ) by {
                    assert(field@[j] == distance_from(grid, start, j));
                }
            }
            assert forall|i: int| is_goal_cell(grid, start, i) implies has_far(field@) by {
                assert(field@[i] == distance_from(grid, start, i));
            }
            if has_far(field@) {
                let i = choose|i: int| is_farthest(field@, i) && goal == field.point_of(i);
                assert(is_goal_cell(grid, start, i) && goal == grid.point_of(i));
                crate::map::lemma_point_to_index(grid.width() as int, grid.height() as int, i);
                crate::distance::lemma_far_cell_is_open(
                    grid,
                    source_set(start_sources(grid, start)),
                    horizon(MAX_DEPTH),
                    i,
                );
            } else {
                assert(goal == grid.center_of());
            }
        }
        goal
    }

    /// Up to `NUM_MONSTERS` spawn points, each drawn from the `Floor` cells
    /// whose distance from `start` lies above the clearance and below the
    /// ceiling. A cell may be drawn more than once. Where there is no such
    /// cell, there are no spawn points.
    pub fn spawn_monsters(
        &self,
        start: &Point,
        rng: &mut bracket_lib::random::RandomNumberGenerator,
    ) -> (spawns: Vec<Point>)
        requires
            self.map.wf(),
        ensures
            well_spawned(self.map, *start, spawns@),
    {
        let field = field_from(&self.map, *start);
        let n = self.map.len();
        let mut pool: Vec<Point> = Vec::new();
        let mut i: usize = 0;
        while i < n
            invariant
                i <= n,
                n == self.map@.len(),
                self.map.wf(),
                measures(field, self.map, *start),
                pool@.len() <= i,
                forall|k: int|
                    0 <= k < pool@.len() ==> spawnable(self.map, *start, #[trigger] pool@[k]),
                forall|j: int|
                    0 <= j < i && spawnable(self.map, *start, #[trigger] self.map.point_of(j))
                        ==> pool@.len() > 0,
            decreases n - i,
        {
            let d = field.get(i);
            if self.map.tile_at(i) == TileType::Floor && d > SPAWN_CLEARANCE && d
                < UNREACHABLE_CEILING {
                let p = self.map.index_to_point2d(i);
                pool.push(p);
            } else {
                proof {
                    crate::map::lemma_point_to_index(
                        self.map.width() as int,
                        self.map.height() as int,
                        i as int,
                    );
                }
            }
            i += 1;
        }
        proof {
            assert forall|p: Point| spawnable(self.map, *start, p) implies pool@.len() > 0 by {
                crate::map::lemma_index_round_trip(self.map, 0, p);
                assert(self.map.point_of(self.map.index_of(p)) == p);
            }
        }
        let mut spawns: Vec<Point> = Vec::new();
        let mut drawn: usize = 0;
        while drawn < NUM_MONSTERS
            invariant
                drawn <= NUM_MONSTERS,
                pool@.len() < i32::MAX,
                pool@.len() > 0 ==> spawns@.len() == drawn,
                pool@.len() == 0 ==> spawns@.len() == 0,
                forall|k: int|
                    0 <= k < pool@.len() ==> spawnable(self.map, *start, #[trigger] pool@[k]),
                forall|k: int|
                    0 <= k < spawns@.len() ==> spawnable(self.map, *start, #[trigger] spawns@[k]),
            decreases NUM_MONSTERS - drawn,
        {
            match roll_index(rng, &pool) {
                Some(k) => {
                    spawns.push(pool[k]);
                },
                None => {},
            }
            drawn += 1;
        }
        proof {
            if pool@.len() > 0 {
                assert(spawnable(self.map, *start, pool@[0]));
            }
        }
        spawns
    }
}

} // verus!
