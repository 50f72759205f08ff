//! The cellular automata architect: random noise, smoothed by a fixed number
//! of relaxation rounds into caves.

use vstd::prelude::*;
use crate::geometry::Point;
use crate::map::{cell_index, cell_x, cell_y, Grid, TileType};
use crate::map_builder::{MapArchitect, MapBuilder};
use crate::rng::roll_range;
use crate::themes::DungeonTheme;
use crate::{SCREEN_HEIGHT, SCREEN_WIDTH};

verus! {

/// How many relaxation rounds the architect runs.
pub const RELAXATION_ROUNDS: usize = 10;

/// Of a hundred noise cells, this many are walls.
pub const WALL_PERCENT: i32 = 55;

/// The tile that the noise makes of a roll from 0 to 99.
pub open spec fn noise_tile(roll: int) -> TileType {
    if roll < WALL_PERCENT {
        TileType::Wall
    } else {
        TileType::Floor
    }
}

/// True when every tile is a `Wall` or a `Floor`.
pub open spec fn is_cave(tiles: Seq<TileType>) -> bool {
    forall|i: int|
        0 <= i < tiles.len() ==> #[trigger] tiles[i] == TileType::Wall || tiles[i]
            == TileType::Floor
}

/// 1 where the cell (`x`, `y`) holds a wall, else 0.
pub open spec fn wall_at(tiles: Seq<TileType>, width: int, x: int, y: int) -> int {
    if tiles[cell_index(width, x, y)] == TileType::Wall {
        1
    } else {
        0
    }
}

/// The number of walls among the eight cells around (`x`, `y`).
pub open spec fn wall_neighbors(tiles: Seq<TileType>, width: int, x: int, y: int) -> int {
    wall_at(tiles, width, x - 1, y - 1) + wall_at(tiles, width, x, y - 1) + wall_at(
        tiles,
        width,
        x + 1,
        y - 1,
    ) + wall_at(tiles, width, x - 1, y) + wall_at(tiles, width, x + 1, y) + wall_at(
        tiles,
        width,
        x - 1,
        y + 1,
    ) + wall_at(tiles, width, x, y + 1) + wall_at(tiles, width, x + 1, y + 1)
}

/// True when (`x`, `y`) does not lie on the border of the grid.
pub open spec fn interior(width: int, height: int, x: int, y: int) -> bool {
    1 <= x < width - 1 && 1 <= y < height - 1
}

/// The tile that a cell with `walls` walls around it becomes.
pub open spec fn rule(walls: int) -> TileType {
    if walls > 4 || walls == 0 {
        TileType::Wall
    } else {
        TileType::Floor
    }
}

/// What one relaxation round makes of cell `i`: the rule's tile for an
/// interior cell, and the tile it holds for a border cell.
pub open spec fn relaxed_tile(tiles: Seq<TileType>, width: int, height: int, i: int) -> TileType {
    if interior(width, height, cell_x(width, i), cell_y(width, i)) {
        rule(wall_neighbors(tiles, width, cell_x(width, i), cell_y(width, i)))
    } else {
        tiles[i]
    }
}

/// What one relaxation round makes of a grid. Every cell is computed from the
/// tiles before the round.
pub open spec fn relaxed(tiles: Seq<TileType>, width: int, height: int) -> Seq<TileType> {
    Seq::new(tiles.len(), |i: int| relaxed_tile(tiles, width, height, i))
}

/// What `rounds` relaxation rounds make of a grid.
pub open spec fn relaxed_times(tiles: Seq<TileType>, width: int, height: int, rounds: nat) -> Seq<
    TileType,
>
    decreases rounds,
{
    if rounds == 0 {
        tiles
    } else {
        relaxed(relaxed_times(tiles, width, height, (rounds - 1) as nat), width, height)
    }
}

/// True when cell `i` holds a `Floor`, no `Floor` cell lies nearer to `center`
/// and no `Floor` cell before it lies as near.
pub open spec fn is_nearest_floor(grid: Grid, center: Point, i: int) -> bool {
    &&& 0 <= i < grid@.len()
    &&& grid@[i] == TileType::Floor
    &&& forall|j: int|
        0 <= j < grid@.len() && #[trigger] grid@[j] == TileType::Floor ==> center.dist2(
            grid.point_of(i),
        ) <= center.dist2(grid.point_of(j))
    &&& forall|j: int|
        0 <= j < i && #[trigger] grid@[j] == TileType::Floor ==> center.dist2(grid.point_of(i))
            < center.dist2(grid.point_of(j))
}

/// True when some cell holds a `Floor`.
pub open spec fn has_floor(tiles: Seq<TileType>) -> bool {
    exists|i: int| 0 <= i < tiles.len() && #[trigger] tiles[i] == TileType::Floor
}

/// True when `p` is where the player starts on `grid`: the `Floor` cell
/// nearest to the middle, the first of them in row-major order, or the middle
/// itself where there is no `Floor`.
pub open spec fn is_start(grid: Grid, p: Point) -> bool {
    &&& has_floor(grid@) ==> exists|i: int|
        is_nearest_floor(grid, grid.center_of(), i) && p == grid.point_of(i)
    &&& !has_floor(grid@) ==> p == grid.center_of()
}

/// The map determines where the player starts.
pub proof fn lemma_start_determined(grid: Grid, p: Point, q: Point)
    requires
        is_start(grid, p),
        is_start(grid, q),
    ensures
        p == q,
{
    if has_floor(grid@) {
        let c = grid.center_of();
        let i = choose|i: int| is_nearest_floor(grid, c, i) && p == grid.point_of(i);
        let j = choose|j: int| is_nearest_floor(grid, c, j) && q == grid.point_of(j);
        if i < j {
            assert(grid@[i] == TileType::Floor);
        } else if j < i {
            assert(grid@[j] == TileType::Floor);
        }
    }
}

/// One more round relaxes a cave into a cave.
pub proof fn lemma_relaxed_is_cave(tiles: Seq<TileType>, width: int, height: int)
    requires
        is_cave(tiles),
    ensures
        is_cave(relaxed(tiles, width, height)),
        relaxed(tiles, width, height).len() == tiles.len(),
{
    assert forall|i: int| 0 <= i < tiles.len() implies #[trigger] relaxed(tiles, width, height)[i]
        == TileType::Wall || relaxed(tiles, width, height)[i] == TileType::Floor by {
        assert(tiles[i] == TileType::Wall || tiles[i] == TileType::Floor);
    }
}

/// An architect that grows caves from noise.
pub struct CellularAutomataArchitect {}

impl CellularAutomataArchitect {
    /// The tile that the noise makes of a roll.
    pub fn noise(roll: i32) -> (tile: TileType)
        ensures
            tile == noise_tile(roll as int),
    {
        if roll < WALL_PERCENT {
            TileType::Wall
        } else {
            TileType::Floor
        }
    }

    /// Fills the map with noise: each cell is drawn by itself and becomes a
    /// `Wall` for 55 of 100 rolls, else a `Floor`.
    pub fn random_noise_map(
        &mut self,
        rng: &mut bracket_lib::random::RandomNumberGenerator,
        map: &mut Grid,
    )
        requires
            old(map).wf(),
        ensures
            final(map).wf(),
            final(map).width() == old(map).width(),
            final(map).height() == old(map).height(),
            is_cave(final(map)@),
    {
        let n = map.len();
        let mut i: usize = 0;
        while i < n
            invariant
                i <= n,
                n == map@.len(),
                map.wf(),
                map.width() == old(map).width(),
                map.height() == old(map).height(),
                forall|k: int|
                    0 <= k < i ==> #[trigger] map@[k] == TileType::Wall || map@[k]
                        == TileType::Floor,
            decreases n - i,
        {
            let roll = roll_range(rng, 0, 100);
            map.set_tile_at(i, Self::noise(roll));
            i += 1;
        }
    }

    /// The number of walls among the eight cells around (`x`, `y`), which is
    /// no border cell.
    pub fn count_wall_neighbors(&self, x: i32, y: i32, map: &Grid) -> (walls: i32)
        requires
            map.wf(),
            interior(map.width() as int, map.height() as int, x as int, y as int),
        ensures
            walls == wall_neighbors(map@, map.width() as int, x as int, y as int),
            0 <= walls <= 8,
    {
        let mut walls: i32 = 0;
        walls += Self::wall(map, x - 1, y - 1);
        walls += Self::wall(map, x, y - 1);
        walls += Self::wall(map, x + 1, y - 1);
        walls += Self::wall(map, x - 1, y);
        walls += Self::wall(map, x + 1, y);
        walls += Self::wall(map, x - 1, y + 1);
        walls += Self::wall(map, x, y + 1);
        walls += Self::wall(map, x + 1, y + 1);
        walls
    }

    /// 1 where the cell (`x`, `y`) holds a wall, else 0.
    fn wall(map: &Grid, x: i32, y: i32) -> (w: i32)
        requires
            map.wf(),
            map.has(Point { x, y }),
        ensures
            w == wall_at(map@, map.width() as int, x as int, y as int),
            0 <= w <= 1,
    {
        let idx = map.point2d_to_index(Point { x, y });
        if map.tile_at(idx) == TileType::Wall {
            1
        } else {
            0
        }
    }

    /// The tile that a cell with `walls` walls around it becomes: a `Wall`
    /// for more than four walls or for none, else a `Floor`.
    pub fn apply_rule(walls: i32) -> (tile: TileType)
        ensures
            tile == rule(walls as int),
    {
        if walls > 4 || walls == 0 {
            TileType::Wall
        } else {
            TileType::Floor
        }
    }

    /// One relaxation round. Every cell that is not on the border becomes
    /// what the rule makes of the walls around it, counted on the tiles before
    /// the round; the border stays as it is.
    pub fn iteration(&mut self, map: &mut Grid)
        requires
            old(map).wf(),
        ensures
            final(map).wf(),
            final(map).width() == old(map).width(),
            final(map).height() == old(map).height(),
            final(map)@ == relaxed(
                old(map)@,
                old(map).width() as int,
                old(map).height() as int,
            ),
    {
        let n = map.len();
        let width = map.width();
        let height = map.height();
        let mut next: Vec<TileType> = Vec::new();
        let mut i: usize = 0;
        while i < n
            invariant
                i <= n,
                n == map@.len(),
                map.wf(),
                width == map.width(),
                height == map.height(),
                next@.len() == i,
                forall|k: int|
                    0 <= k < i ==> #[trigger] next@[k] == relaxed_tile(
                        map@,
                        width as int,
                        height as int,
                        k,
                    ),
            decreases n - i,
        {
            let p = map.index_to_point2d(i);
            let tile = if 1 <= p.x && p.x < width - 1 && 1 <= p.y && p.y < height - 1 {
                Self::apply_rule(self.count_wall_neighbors(p.x, p.y, map))
            } else {
                map.tile_at(i)
            };
            next.push(tile);
            i += 1;
        }
        assert(next@ =~= relaxed(map@, width as int, height as int));
        map.set_tiles(next);
    }

    /// Where the player starts: the `Floor` cell nearest to the middle of the
    /// map, the first of them in row-major order; the middle itself where the
    /// map has no `Floor`.
    pub fn find_start(&self, map: &Grid) -> (start: Point)
        requires
            map.wf(),
        ensures
            is_start(*map, start),
            map.has(start),
            has_floor(map@) ==> map.tile_of(start) == TileType::Floor,
    {
        let center = map.center();
        let n = map.len();
        let mut best: Option<usize> = None;
        let mut best_d2: i128 = 0;
        let mut i: usize = 0;
        while i < n
            invariant
                i <= n,
                n == map@.len(),
                map.wf(),
                center == map.center_of(),
                map.has(center),
                best is None ==> forall|j: int| 0 <= j < i ==> #[trigger] map@[j] != TileType::Floor,
                best is Some ==> {
                    &&& best.unwrap() < i
                    &&& map@[best.unwrap() as int] == TileType::Floor
                    &&& best_d2 == center.dist2(map.point_of(best.unwrap() as int))
                    &&& forall|j: int|
                        0 <= j < i && #[trigger] map@[j] == TileType::Floor ==> best_d2
                            <= center.dist2(map.point_of(j))
                    &&& forall|j: int|
                        0 <= j < best.unwrap() && #[trigger] map@[j] == TileType::Floor ==> best_d2
                            < center.dist2(map.point_of(j))
                },
            decreases n - i,
        {
            if map.tile_at(i) == TileType::Floor {
                let p = map.index_to_point2d(i);
                let d2 = Self::squared_distance(center, p);
                if best.is_none() || d2 < best_d2 {
                    best = Some(i);
                    best_d2 = d2;
                }
            }
            i += 1;
        }
        match best {
            None => {
                assert(!has_floor(map@));
                center
            },
            Some(b) => {
                let start = map.index_to_point2d(b);
                assert(map@[b as int] == TileType::Floor);
                assert(is_nearest_floor(*map, map.center_of(), b as int) && start == map.point_of(
                    b as int,
                ));
                start
            },
        }
    }

    /// The squared Euclidean distance between two points.
    pub fn squared_distance(a: Point, b: Point) -> (d2: i128)
        ensures
            d2 == a.dist2(b),
    {
        let dx: i128 = a.x as i128 - b.x as i128;
        let dy: i128 = a.y as i128 - b.y as i128;
        assert(0 <= dx * dx <= 0x1_0000_0000_0000_0000) by (nonlinear_arith)
            requires
                -0x1_0000_0000 <= dx <= 0x1_0000_0000,
        ;
        assert(0 <= dy * dy <= 0x1_0000_0000_0000_0000) by (nonlinear_arith)
            requires
                -0x1_0000_0000 <= dy <= 0x1_0000_0000,
        ;
        dx * dx + dy * dy
    }
}

/// True when `tiles` is what the relaxation rounds make of some noise.
pub open spec fn grown_from_noise(tiles: Seq<TileType>, width: int, height: int) -> bool {
    exists|noise: Seq<TileType>|
        noise.len() == tiles.len() && is_cave(noise) && tiles == #[trigger] relaxed_times(
            noise,
            width,
            height,
            RELAXATION_ROUNDS as nat,
        )
}

impl MapArchitect for CellularAutomataArchitect {
    /// A cave level: noise, relaxed in `RELAXATION_ROUNDS` rounds. The player
    /// starts on the `Floor` cell nearest to the middle.
    fn design(&mut self, rng: &mut bracket_lib::random::RandomNumberGenerator) -> (mb: MapBuilder)
        ensures
            is_cave(mb.map@),
            grown_from_noise(mb.map@, SCREEN_WIDTH as int, SCREEN_HEIGHT as int),
            is_start(mb.map, mb.player_start),
            has_floor(mb.map@) ==> mb.map.tile_of(mb.player_start) == TileType::Floor,
            mb.rooms@.len() == 0,
    {
        let mut mb = MapBuilder {
            map: Grid::new(),
            rooms: Vec::new(),
            monster_spawns: Vec::new(),
            player_start: Point::zero(),
            amulet_start: Point::zero(),
            theme: DungeonTheme::new(),
        };
        self.random_noise_map(rng, &mut mb.map);
        let ghost noise = mb.map@;
        let mut round: usize = 0;
        while round < RELAXATION_ROUNDS
            invariant
                round <= RELAXATION_ROUNDS,
                mb.map.wf(),
                mb.map.width() == SCREEN_WIDTH,
                mb.map.height() == SCREEN_HEIGHT,
                mb.rooms@.len() == 0,
                is_cave(noise),
                noise.len() == mb.map@.len(),
                is_cave(mb.map@),
                mb.map@ == relaxed_times(
                    noise,
                    SCREEN_WIDTH as int,
                    SCREEN_HEIGHT as int,
                    round as nat,
                ),
            decreases RELAXATION_ROUNDS - round,
        {
            proof {
                lemma_relaxed_is_cave(mb.map@, SCREEN_WIDTH as int, SCREEN_HEIGHT as int);
            }
            self.iteration(&mut mb.map);
            round += 1;
        }
        let player_start = self.find_start(&mb.map);
        mb.player_start = player_start;
        mb.amulet_start = mb.find_most_distant();
        mb.monster_spawns = mb.spawn_monsters(&player_start, rng);
        mb
    }
}

} // verus!
