//! The drunkard architect: random walks carve a cave out of solid rock.

use vstd::prelude::*;
use crate::automata::is_cave;
use crate::distance::{
    distance, horizon, lemma_first_reach_exact, lemma_neighbour_touches, lemma_reach_mono,
    lemma_reach_step, lemma_source_distance_zero, prune_beyond, pruned_tile, reach, source_set,
    touching,
};
use crate::geometry::Point;
use crate::map::{count_floor, lemma_index_in_range, Grid, TileType};
use crate::map_builder::{
    distance_from, field_from, start_sources, MapArchitect, MapBuilder, MAX_DEPTH,
    UNREACHABLE_CEILING,
};
use crate::rng::roll_range;
use crate::themes::DungeonTheme;
use crate::{SCREEN_HEIGHT, SCREEN_WIDTH};

verus! {

/// The number of steps after which a walk ends.
pub const STAGGER_DISTANCE: usize = 400;

/// The number of walks, after the first, that the architect makes at most.
pub const WALK_BUDGET: usize = 4000;

/// Where a step leads from `pos`: to the right for the roll 0, to the left
/// for 1, down for 2, and up for any other roll.
pub open spec fn staggered(pos: Point, roll: int) -> Point {
    if roll == 0 {
        Point { x: (pos.x + 1) as i32, y: pos.y }
    } else if roll == 1 {
        Point { x: (pos.x - 1) as i32, y: pos.y }
    } else if roll == 2 {
        Point { x: pos.x, y: (pos.y + 1) as i32 }
    } else {
        Point { x: pos.x, y: (pos.y - 1) as i32 }
    }
}

/// True when the walk's step from its cell `k` to the next is one cardinal
/// step.
pub open spec fn step_ok(walk: Seq<Point>, k: int) -> bool {
    walk[k].is_cardinal_step(walk[k + 1])
}

/// True when `p` lies on the grid and has a cardinal neighbour off the grid.
pub open spec fn on_border(grid: Grid, p: Point) -> bool {
    grid.has(p) && (p.x == 0 || p.y == 0 || p.x == grid.width() - 1 || p.y == grid.height()
        - 1)
}

/// True when `walk` is a walk on the grid: it begins at `start`, each step
/// leads to one of the four cardinal neighbours, it stays on the grid, and it
/// ends after `STAGGER_DISTANCE` steps, or earlier on the border of the grid.
pub open spec fn is_walk(grid: Grid, start: Point, walk: Seq<Point>) -> bool {
    &&& 1 <= walk.len() <= STAGGER_DISTANCE + 1
    &&& walk[0] == start
    &&& forall|k: int| 0 <= k < walk.len() ==> grid.has(#[trigger] walk[k])
    &&& forall|k: int| 0 <= k < walk.len() - 1 ==> #[trigger] step_ok(walk, k)
    &&& walk.len() == STAGGER_DISTANCE + 1 || on_border(grid, walk[walk.len() - 1])
}

/// True when the walk passes the cell `i`.
pub open spec fn passes(grid: Grid, walk: Seq<Point>, i: int) -> bool {
    exists|k: int| 0 <= k < walk.len() && grid.index_of(#[trigger] walk[k]) == i
}

/// The tiles after a walk: `Floor` where the walk passed, else as before.
pub open spec fn carved(grid: Grid, walk: Seq<Point>) -> Seq<TileType> {
    Seq::new(
        grid@.len(),
        |i: int|
            if passes(grid, walk, i) {
                TileType::Floor
            } else {
                grid@[i]
            },
    )
}

/// The number of `Floor` cells that the architect asks for: a third of all
/// cells.
pub open spec fn desired_floor(cells: nat) -> nat {
    cells / 3
}

/// A grid of `Floor` tiles alone has as many `Floor` tiles as cells.
pub proof fn lemma_count_all_floor(tiles: Seq<TileType>)
    requires
        forall|i: int| 0 <= i < tiles.len() ==> tiles[i] == TileType::Floor,
    ensures
        count_floor(tiles) == tiles.len(),
    decreases tiles.len(),
{
    if tiles.len() > 0 {
        lemma_count_all_floor(tiles.drop_last());
    }
}

/// True when every `Floor` cell can be reached from `center`.
pub open spec fn connected(grid: Grid, center: Point) -> bool {
    forall|i: int|
        0 <= i < grid@.len() && #[trigger] grid@[i] == TileType::Floor ==> distance_from(
            grid,
            center,
            i,
        ) < UNREACHABLE_CEILING
}

/// A cell that is reached within the cutoff of generation has a distance
/// below the ceiling.
pub proof fn lemma_reached_is_near(grid: Grid, center: Point, steps: nat, i: int)
    requires
        steps <= MAX_DEPTH,
        reach(grid, source_set(start_sources(grid, center)), steps, i),
    ensures
        distance_from(grid, center, i) < UNREACHABLE_CEILING,
{
    let sources = source_set(start_sources(grid, center));
    lemma_reach_mono(grid, sources, steps, horizon(MAX_DEPTH), i);
    lemma_first_reach_exact(grid, sources, horizon(MAX_DEPTH), i);
}

/// After a walk from `center`, its cell `k` is reached from `center` in `k`
/// steps.
pub proof fn lemma_walk_reaches(before: Grid, after: Grid, center: Point, walk: Seq<Point>, k: int)
    requires
        before.wf(),
        after.wf(),
        after.width() == before.width(),
        after.height() == before.height(),
        is_walk(before, center, walk),
        after@ == carved(before, walk),
        0 <= k < walk.len(),
    ensures
        reach(
            after,
            source_set(start_sources(after, center)),
            k as nat,
            after.index_of(walk[k]),
        ),
    decreases k,
{
    let sources = source_set(start_sources(after, center));
    let i = after.index_of(walk[k]);
    lemma_index_in_range(
        after.width() as int,
        after.height() as int,
        walk[k].x as int,
        walk[k].y as int,
    );
    if k == 0 {
        assert(start_sources(after, center)[0] == i);
        assert(sources.contains(i));
    } else {
        lemma_walk_reaches(before, after, center, walk, k - 1);
        assert(step_ok(walk, k - 1));
        lemma_neighbour_touches(after, walk[k - 1], walk[k]);
        assert(before.index_of(walk[k]) == i);
        assert(passes(before, walk, i));
        lemma_reach_step(after, sources, (k - 1) as nat, after.index_of(walk[k - 1]), i);
    }
}

/// What can be reached before pruning can be reached after it: pruning
/// takes away only cells that cannot be reached.
pub proof fn lemma_prune_keeps_reach(
    walked: Grid,
    pruned: Grid,
    sources: Set<int>,
    field: Seq<u32>,
    cutoff: nat,
    steps: nat,
    i: int,
)
    requires
        walked.wf(),
        pruned.wf(),
        pruned.width() == walked.width(),
        pruned.height() == walked.height(),
        cutoff < UNREACHABLE_CEILING,
        field.len() == walked@.len(),
        forall|k: int|
            0 <= k < walked@.len() ==> #[trigger] field[k] == distance(walked, sources, cutoff, k),
        forall|k: int|
            0 <= k < walked@.len() ==> #[trigger] pruned@[k] == pruned_tile(
                walked@[k],
                field[k],
                UNREACHABLE_CEILING,
            ),
        steps <= cutoff,
        reach(walked, sources, steps, i),
    ensures
        reach(pruned, sources, steps, i),
    decreases steps,
{
    if steps > 0 {
        if reach(walked, sources, (steps - 1) as nat, i) {
            lemma_prune_keeps_reach(
                walked,
                pruned,
                sources,
                field,
                cutoff,
                (steps - 1) as nat,
                i,
            );
        } else {
            let j = choose|j: int| #[trigger]
                touching(walked, j, i) && reach(walked, sources, (steps - 1) as nat, j);
            lemma_prune_keeps_reach(
                walked,
                pruned,
                sources,
                field,
                cutoff,
                (steps - 1) as nat,
                j,
            );
            lemma_reach_mono(walked, sources, steps, cutoff, i);
            lemma_first_reach_exact(walked, sources, cutoff, i);
            assert(field[i] <= cutoff);
            assert(pruned@[i] == walked@[i]);
            assert(touching(pruned, j, i));
            lemma_reach_step(pruned, sources, (steps - 1) as nat, j, i);
        }
    }
}

/// On a grid without walls, a cell is reached from `center` in as many steps
/// as its column or its row, whichever is farther, lies from that of
/// `center`.
pub proof fn lemma_open_reach(grid: Grid, center: Point, p: Point, steps: nat)
    requires
        grid.wf(),
        forall|i: int| 0 <= i < grid@.len() ==> grid@[i] != TileType::Wall,
        grid.has(center),
        grid.has(p),
        -steps <= p.x - center.x <= steps,
        -steps <= p.y - center.y <= steps,
    ensures
        reach(grid, source_set(start_sources(grid, center)), steps, grid.index_of(p)),
    decreases steps,
{
    let sources = source_set(start_sources(grid, center));
    let i = grid.index_of(p);
    lemma_index_in_range(grid.width() as int, grid.height() as int, p.x as int, p.y as int);
    if p == center {
        assert(start_sources(grid, center)[0] == i);
        assert(sources.contains(i));
        lemma_reach_mono(grid, sources, 0, steps, i);
    } else {
        let qx = if p.x > center.x {
            p.x - 1
        } else if p.x < center.x {
            p.x + 1
        } else {
            p.x as int
        };
        let qy = if p.y > center.y {
            p.y - 1
        } else if p.y < center.y {
            p.y + 1
        } else {
            p.y as int
        };
        let q = Point { x: qx as i32, y: qy as i32 };
        lemma_open_reach(grid, center, q, (steps - 1) as nat);
        lemma_neighbour_touches(grid, q, p);
        lemma_reach_step(grid, sources, (steps - 1) as nat, grid.index_of(q), i);
    }
}

/// An architect that lets drunkards stagger through the rock.
pub struct DrunkardArchitect {}

impl DrunkardArchitect {
    /// Where a step leads from `pos`, which lies on a grid.
    pub fn stagger(pos: Point, roll: i32) -> (next: Point)
        requires
            0 <= pos.x < i32::MAX,
            0 <= pos.y < i32::MAX,
        ensures
            next == staggered(pos, roll as int),
            pos.is_cardinal_step(next),
    {
        if roll == 0 {
            Point { x: pos.x + 1, y: pos.y }
        } else if roll == 1 {
            Point { x: pos.x - 1, y: pos.y }
        } else if roll == 2 {
            Point { x: pos.x, y: pos.y + 1 }
        } else {
            Point { x: pos.x, y: pos.y - 1 }
        }
    }

    /// One walk. It starts at `start` and turns each cell it passes into a
    /// `Floor`. It ends when a step would leave the grid, or after
    /// `STAGGER_DISTANCE` steps.
    pub fn drunkard_walk(
        &mut self,
        start: &Point,
        rng: &mut bracket_lib::random::RandomNumberGenerator,
        map: &mut Grid,
    )
        requires
            old(map).wf(),
            old(map).has(*start),
        ensures
            final(map).wf(),
            final(map).width() == old(map).width(),
            final(map).height() == old(map).height(),
            exists|walk: Seq<Point>| #[trigger]
                is_walk(*old(map), *start, walk) && final(map)@ == carved(*old(map), walk),
    {
        let ghost before = *map;
        let mut pos = *start;
        let mut steps: usize = 0;
        let first = map.point2d_to_index(pos);
        map.set_tile_at(first, TileType::Floor);
        let ghost mut walk: Seq<Point> = seq![pos];
        proof {
            assert forall|i: int| 0 <= i < before@.len() implies map@[i] == carved(
                before,
                walk,
            )[i] by {
                if i == first {
                    assert(before.index_of(walk[0]) == i);
                }
            }
            assert(map@ =~= carved(before, walk));
        }
        loop
            invariant
                map.wf(),
                before.wf(),
                map.width() == before.width(),
                map.height() == before.height(),
                map@.len() == before@.len(),
                steps + 1 == walk.len(),
                steps <= STAGGER_DISTANCE,
                walk[walk.len() - 1] == pos,
                walk[0] == *start,
                forall|k: int| 0 <= k < walk.len() ==> before.has(#[trigger] walk[k]),
                forall|k: int| 0 <= k < walk.len() - 1 ==> #[trigger] step_ok(walk, k),
                map@ == carved(before, walk),
            ensures
                walk.len() == STAGGER_DISTANCE + 1 || on_border(before, walk[walk.len() - 1]),
            decreases STAGGER_DISTANCE - steps,
        {
            let roll = roll_range(rng, 0, 4);
            let next = Self::stagger(pos, roll);
            if !map.in_bounds(next) {
                break ;
            }
            if steps >= STAGGER_DISTANCE {
                break ;
            }
            steps += 1;
            let idx = map.point2d_to_index(next);
            let ghost walked = walk;
            map.set_tile_at(idx, TileType::Floor);
            proof {
                walk = walk.push(next);
                assert forall|k: int| 0 <= k < walk.len() - 1 implies #[trigger] step_ok(
                    walk,
                    k,
                ) by {
                    if k < walked.len() - 1 {
                        assert(step_ok(walked, k));
                    }
                }
                assert forall|i: int| 0 <= i < before@.len() implies map@[i] == carved(
                    before,
                    walk,
                )[i] by {
                    if i == idx {
                        assert(before.index_of(walk[walked.len() as int]) == i);
                    } else if passes(before, walked, i) {
                        let k = choose|k: int|
                            0 <= k < walked.len() && before.index_of(#[trigger] walked[k]) == i;
                        assert(before.index_of(walk[k]) == i);
                    } else if passes(before, walk, i) {
                        let k = choose|k: int|
                            0 <= k < walk.len() && before.index_of(#[trigger] walk[k]) == i;
                        assert(before.index_of(walked[k]) == i);
                    }
                }
                assert(map@ =~= carved(before, walk));
            }
            pos = next;
        }
        assert(is_walk(before, *start, walk));
    }
}

impl MapArchitect for DrunkardArchitect {
    /// A cave level. The first walk starts in the middle of the map, each
    /// later walk at a random cell; after each later walk the `Floor` cells
    /// that cannot be reached from the middle turn into walls again. The
    /// walks end when a third of the cells are `Floor`. Should the
    /// `WALK_BUDGET` run out before that, the level is left open: every cell
    /// a `Floor`. The player starts in the middle.
    fn design(&mut self, rng: &mut bracket_lib::random::RandomNumberGenerator) -> (mb: MapBuilder)
        ensures
            is_cave(mb.map@),
            mb.player_start == mb.map.center_of(),
            mb.map.tile_of(mb.player_start) == TileType::Floor,
            count_floor(mb.map@) >= desired_floor(mb.map@.len()),
            connected(mb.map, mb.player_start),
            mb.rooms@.len() == 0,
    {
        let mut mb = MapBuilder {
            map: Grid::new(),
            rooms: Vec::new(),
            monster_spawns: Vec::new(),
            player_start: Point::zero(),
            amulet_start: Point::zero(),
            theme: DungeonTheme::new(),
        };
        mb.fill(TileType::Wall);
        let center = mb.map.center();
        let ghost solid = mb.map;
        self.drunkard_walk(&center, rng, &mut mb.map);
        proof {
            let walk = choose|walk: Seq<Point>| #[trigger]
                is_walk(solid, center, walk) && mb.map@ == carved(solid, walk);
            assert(solid.index_of(walk[0]) == solid.index_of(center));
            lemma_index_in_range(
                solid.width() as int,
                solid.height() as int,
                center.x as int,
                center.y as int,
            );
            assert(passes(solid, walk, solid.index_of(center)));
            assert forall|i: int|
                0 <= i < mb.map@.len() && #[trigger] mb.map@[i] == TileType::Floor implies distance_from(
                mb.map,
                center,
                i,
            ) < UNREACHABLE_CEILING by {
                assert(passes(solid, walk, i));
                let k = choose|k: int|
                    0 <= k < walk.len() && solid.index_of(#[trigger] walk[k]) == i;
                lemma_walk_reaches(solid, mb.map, center, walk, k);
                lemma_reached_is_near(mb.map, center, k as nat, i);
            }
        }
        let desired: usize = mb.map.len() / 3;
        let mut made: usize = 0;
        while mb.map.floor_count() < desired && made < WALK_BUDGET
            invariant
                made <= WALK_BUDGET,
                mb.map.wf(),
                mb.map.width() == SCREEN_WIDTH,
                mb.map.height() == SCREEN_HEIGHT,
                mb.rooms@.len() == 0,
                desired == desired_floor(mb.map@.len()),
                center == mb.map.center_of(),
                mb.map.has(center),
                is_cave(mb.map@),
                mb.map.tile_of(center) == TileType::Floor,
                connected(mb.map, center),
            decreases WALK_BUDGET - made,
        {
            let x = roll_range(rng, 0, SCREEN_WIDTH);
            let y = roll_range(rng, 0, SCREEN_HEIGHT);
            let from = Point::new(x, y);
            let ghost before = mb.map;
            self.drunkard_walk(&from, rng, &mut mb.map);
            let ghost walked = mb.map;
            let field = field_from(&mb.map, center);
            prune_beyond(&mut mb.map, &field, UNREACHABLE_CEILING);
            proof {
                let c = before.index_of(center);
                lemma_index_in_range(
                    before.width() as int,
                    before.height() as int,
                    center.x as int,
                    center.y as int,
                );
                let walk = choose|walk: Seq<Point>| #[trigger]
                    is_walk(before, from, walk) && walked@ == carved(before, walk);
                assert(walked@[c] == TileType::Floor);
                assert(start_sources(walked, center)[0] == c);
                assert(source_set(start_sources(walked, center)).contains(c));
                lemma_source_distance_zero(
                    walked,
                    source_set(start_sources(walked, center)),
                    crate::distance::horizon(MAX_DEPTH),
                    c,
                );
                assert(field@[c] == 0);
                assert(mb.map@[c] == pruned_tile(walked@[c], field@[c], UNREACHABLE_CEILING));
                assert forall|i: int| 0 <= i < mb.map@.len() implies #[trigger] mb.map@[i]
                    == TileType::Wall || mb.map@[i] == TileType::Floor by {
                    assert(before@[i] == TileType::Wall || before@[i] == TileType::Floor);
                    assert(mb.map@[i] == pruned_tile(walked@[i], field@[i], UNREACHABLE_CEILING));
                }
                let sources = source_set(start_sources(walked, center));
                assert(start_sources(mb.map, center) == start_sources(walked, center));
                assert forall|i: int|
                    0 <= i < mb.map@.len() && #[trigger] mb.map@[i]
                        == TileType::Floor implies distance_from(mb.map, center, i)
                    < UNREACHABLE_CEILING by {
                    assert(mb.map@[i] == pruned_tile(walked@[i], field@[i], UNREACHABLE_CEILING));
                    assert(field@[i] == distance(walked, sources, horizon(MAX_DEPTH), i));
                    assert(reach(walked, sources, horizon(MAX_DEPTH), i));
                    lemma_prune_keeps_reach(
                        walked,
                        mb.map,
                        sources,
                        field@,
                        horizon(MAX_DEPTH),
                        horizon(MAX_DEPTH),
                        i,
                    );
                    lemma_reached_is_near(mb.map, center, horizon(MAX_DEPTH), i);
                }
            }
            made += 1;
        }
        if mb.map.floor_count() < desired {
            mb.fill(TileType::Floor);
            proof {
                lemma_count_all_floor(mb.map@);
                assert forall|i: int|
                    0 <= i < mb.map@.len() && #[trigger] mb.map@[i]
                        == TileType::Floor implies distance_from(mb.map, center, i)
                    < UNREACHABLE_CEILING by {
                    crate::map::lemma_point_to_index(
                        mb.map.width() as int,
                        mb.map.height() as int,
                        i,
                    );
                    lemma_open_reach(mb.map, center, mb.map.point_of(i), MAX_DEPTH as nat);
                    lemma_reached_is_near(mb.map, center, MAX_DEPTH as nat, i);
                }
            }
        }
        mb.monster_spawns = mb.spawn_monsters(&center, rng);
        mb.player_start = center;
        mb.amulet_start = mb.find_most_distant();
        mb
    }
}

} // verus!
