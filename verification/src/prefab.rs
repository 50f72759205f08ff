//! The prefab decorator: a hand-drawn fortress that is stamped onto a
//! generated level where a place for it is found.

use vstd::prelude::*;
use vstd::string::StrSliceExecFns;
use crate::distance::DistanceField;
use crate::geometry::Point;
use crate::map::{
    lemma_index_in_range, lemma_index_to_point, lemma_point_to_index, Grid, TileType,
};
use crate::map_builder::{distance_from, field_from, MapBuilder, UNREACHABLE_CEILING};
use crate::rng::roll_range;

verus! {

/// Width of the fortress, in cells.
pub const FORTRESS_WIDTH: i32 = 12;

/// Height of the fortress, in cells.
pub const FORTRESS_HEIGHT: i32 = 11;

/// The number of cells of the fortress.
pub const FORTRESS_CELLS: usize = 132;

/// How many places the decorator tries.
pub const PLACEMENT_ATTEMPTS: usize = 10;

/// A place qualifies by a cell that lies farther than this from the start.
pub const MIN_SEPARATION: u32 = 20;

/// The fortress, row by row: `#` is a wall, `-` is open ground, `M` is open
/// ground where a monster stands.
pub open spec fn fortress() -> Seq<Seq<char>> {
    seq![
        "------------"@,
        "---######---"@,
        "---#----#---"@,
        "---#-M--#---"@,
        "-###----###-"@,
        "--M------M--"@,
        "-###----###-"@,
        "---#----#---"@,
        "---#----#---"@,
        "---######---"@,
        "------------"@,
    ]
}

/// The character of the fortress cell with number `k`, counted row by row.
pub open spec fn fortress_char(k: int) -> char {
    fortress()[k / 12][k % 12]
}

/// The tile that a character of the pattern writes over `tile`.
pub open spec fn stamped_tile(c: char, tile: TileType) -> TileType {
    if c == '#' {
        TileType::Wall
    } else if c == '-' || c == 'M' {
        TileType::Floor
    } else {
        tile
    }
}

/// True when `p` lies in the footprint of a fortress with its upper left
/// corner at `origin`.
pub open spec fn in_footprint(origin: Point, p: Point) -> bool {
    origin.x <= p.x < origin.x + FORTRESS_WIDTH && origin.y <= p.y < origin.y + FORTRESS_HEIGHT
}

/// The number of the fortress cell that covers `p`.
pub open spec fn fortress_cell(origin: Point, p: Point) -> int {
    (p.y - origin.y) * 12 + (p.x - origin.x)
}

/// The point that the fortress cell with number `k` covers.
pub open spec fn fortress_point(origin: Point, k: int) -> Point {
    Point { x: (origin.x + k % 12) as i32, y: (origin.y + k / 12) as i32 }
}

/// True when a fortress can be drawn at `origin`: the places that the
/// decorator draws from.
pub open spec fn fits(grid: Grid, origin: Point) -> bool {
    &&& 0 <= origin.x < grid.width() - FORTRESS_WIDTH
    &&& 0 <= origin.y < grid.height() - FORTRESS_HEIGHT
}

/// The tiles after the first `done` cells of the fortress are stamped at
/// `origin`.
pub open spec fn stamped_upto(grid: Grid, origin: Point, done: int) -> Seq<TileType> {
    Seq::new(
        grid@.len(),
        |i: int|
            if in_footprint(origin, grid.point_of(i)) && fortress_cell(origin, grid.point_of(i))
                < done {
                stamped_tile(fortress_char(fortress_cell(origin, grid.point_of(i))), grid@[i])
            } else {
                grid@[i]
            },
    )
}

/// The tiles after the fortress is stamped at `origin`: in its footprint what
/// the pattern writes, elsewhere as before.
pub open spec fn stamped(grid: Grid, origin: Point) -> Seq<TileType> {
    stamped_upto(grid, origin, FORTRESS_CELLS as int)
}

/// The monsters' places among the first `done` cells of a fortress at
/// `origin`, row by row.
pub open spec fn markers_upto(origin: Point, done: nat) -> Seq<Point>
    decreases done,
{
    if done == 0 {
        Seq::empty()
    } else if fortress_char(done - 1) == 'M' {
        markers_upto(origin, (done - 1) as nat).push(fortress_point(origin, done - 1))
    } else {
        markers_upto(origin, (done - 1) as nat)
    }
}

/// The monsters' places of a fortress at `origin`.
pub open spec fn markers(origin: Point) -> Seq<Point> {
    markers_upto(origin, FORTRESS_CELLS as nat)
}

/// The spawn points that lie outside the footprint, in their order.
pub open spec fn outside_footprint(spawns: Seq<Point>, origin: Point) -> Seq<Point>
    decreases spawns.len(),
{
    if spawns.len() == 0 {
        Seq::empty()
    } else if in_footprint(origin, spawns.last()) {
        outside_footprint(spawns.drop_last(), origin)
    } else {
        outside_footprint(spawns.drop_last(), origin).push(spawns.last())
    }
}

/// The distances of the cells of `grid` from `start`, as generation measures
/// them.
pub open spec fn start_field(grid: Grid, start: Point) -> Seq<u32> {
    Seq::new(grid@.len(), |i: int| distance_from(grid, start, i) as u32)
}

/// True when the cell `p` qualifies a place: its distance is below the
/// ceiling, so it can be reached from the start, and above the separation,
/// and it is not the goal.
pub open spec fn qualifies(grid: Grid, dist: Seq<u32>, goal: Point, p: Point) -> bool {
    &&& MIN_SEPARATION < dist[grid.index_of(p)] < UNREACHABLE_CEILING
    &&& p != goal
}

/// True when the place at `origin` is accepted: at least one cell of the
/// footprint qualifies.
pub open spec fn acceptable(grid: Grid, dist: Seq<u32>, goal: Point, origin: Point) -> bool {
    exists|k: int|
        0 <= k < FORTRESS_CELLS && qualifies(
            grid,
            dist,
            goal,
            #[trigger] fortress_point(origin, k),
        )
}

/// True when `after` is `before` with a fortress placed at `origin`: the
/// pattern is stamped onto the map, the spawn points in the footprint are
/// gone, and the monsters' places of the fortress are added.
pub open spec fn placed(before: MapBuilder, after: MapBuilder, origin: Point) -> bool {
    &&& after.map@ == stamped(before.map, origin)
    &&& after.monster_spawns@ == outside_footprint(before.monster_spawns@, origin) + markers(
        origin,
    )
}

/// True when the decorator left everything but the map's tiles and the spawn
/// points as it was.
pub open spec fn same_frame(before: MapBuilder, after: MapBuilder) -> bool {
    &&& after.map.wf()
    &&& after.map.width() == before.map.width()
    &&& after.map.height() == before.map.height()
    &&& after.rooms == before.rooms
    &&& after.player_start == before.player_start
    &&& after.amulet_start == before.amulet_start
    &&& after.theme == before.theme
}

/// True when a place for the fortress is owed whatever is drawn: the map has
/// room for the fortress, and every place that fits is accepted.
pub open spec fn placement_owed(before: MapBuilder) -> bool {
    &&& before.map.width() > FORTRESS_WIDTH
    &&& before.map.height() > FORTRESS_HEIGHT
    &&& forall|origin: Point|
        fits(before.map, origin) ==> #[trigger] acceptable(
            before.map,
            start_field(before.map, before.player_start),
            before.amulet_start,
            origin,
        )
}

/// True when `after` is what the decorator makes of `before`: either nothing
/// has changed, or a fortress is placed at a place that fits and is accepted.
/// Where a place is owed, a fortress is placed; so nothing is placed only
/// where the map has no room or some place that fits is not accepted. Start,
/// goal, rooms and theme stay as they are.
pub open spec fn decorated(before: MapBuilder, after: MapBuilder) -> bool {
    &&& same_frame(before, after)
    &&& (after.map@ == before.map@ && after.monster_spawns@ == before.monster_spawns@)
        || exists|origin: Point|
        fits(before.map, origin) && acceptable(
            before.map,
            start_field(before.map, before.player_start),
            before.amulet_start,
            origin,
        ) && #[trigger] placed(before, after, origin)
    &&& placement_owed(before) ==> exists|origin: Point|
        fits(before.map, origin) && acceptable(
            before.map,
            start_field(before.map, before.player_start),
            before.amulet_start,
            origin,
        ) && #[trigger] placed(before, after, origin)
}

/// A row of the fortress.
fn fortress_row(y: usize) -> (row: &'static str)
    requires
        y < 11,
    ensures
        row@ == fortress()[y as int],
        row@.len() == 12,
{
    proof {
        reveal_strlit("------------");
        reveal_strlit("---######---");
        reveal_strlit("---#----#---");
        reveal_strlit("---#-M--#---");
        reveal_strlit("-###----###-");
        reveal_strlit("--M------M--");
    }
    if y == 0 || y == 10 {
        "------------"
    } else if y == 1 || y == 9 {
        "---######---"
    } else if y == 2 || y == 7 || y == 8 {
        "---#----#---"
    } else if y == 3 {
        "---#-M--#---"
    } else if y == 4 || y == 6 {
        "-###----###-"
    } else {
        "--M------M--"
    }
}

/// The character of the fortress cell with number `k`.
pub fn pattern_char(k: usize) -> (c: char)
    requires
        k < FORTRESS_CELLS,
    ensures
        c == fortress_char(k as int),
{
    let row = fortress_row(k / 12);
    row.get_char(k % 12)
}


/// The fortress cell with number `k` covers a point of the footprint, which
/// lies on the grid, and that point is covered by no other cell.
pub proof fn lemma_fortress_point(grid: Grid, origin: Point, k: int)
    requires
        grid.wf(),
        fits(grid, origin),
        0 <= k < FORTRESS_CELLS,
    ensures
        grid.has(fortress_point(origin, k)),
        in_footprint(origin, fortress_point(origin, k)),
        fortress_cell(origin, fortress_point(origin, k)) == k,
{
}

/// Every character of the fortress is a wall, open ground, or a monster's
/// place.
pub proof fn lemma_fortress_chars(k: int)
    requires
        0 <= k < FORTRESS_CELLS,
    ensures
        fortress_char(k) == '#' || fortress_char(k) == '-' || fortress_char(k) == 'M',
{
    reveal_strlit("------------");
    reveal_strlit("---######---");
    reveal_strlit("---#----#---");
    reveal_strlit("---#-M--#---");
    reveal_strlit("-###----###-");
    reveal_strlit("--M------M--");
    let row = fortress()[k / 12];
    let x = k % 12;
    assert(row.len() == 12);
    assert(row[x] == '#' || row[x] == '-' || row[x] == 'M');
}

/// No spawn point that is kept lies in the footprint.
pub proof fn lemma_outside_footprint(spawns: Seq<Point>, origin: Point)
    ensures
        forall|a: int|
            0 <= a < outside_footprint(spawns, origin).len() ==> !in_footprint(
                origin,
                #[trigger] outside_footprint(spawns, origin)[a],
            ),
    decreases spawns.len(),
{
    if spawns.len() > 0 {
        lemma_outside_footprint(spawns.drop_last(), origin);
        let rest = outside_footprint(spawns.drop_last(), origin);
        assert forall|a: int| 0 <= a < outside_footprint(spawns, origin).len() implies !in_footprint(
            origin,
            #[trigger] outside_footprint(spawns, origin)[a],
        ) by {
            if a < rest.len() {
                assert(outside_footprint(spawns, origin)[a] == rest[a]);
            }
        }
    }
}

/// The monsters' places lie in the footprint, in the order of their cells.
pub proof fn lemma_markers_ordered(grid: Grid, origin: Point, done: nat)
    requires
        grid.wf(),
        fits(grid, origin),
        done <= FORTRESS_CELLS,
    ensures
        forall|a: int|
            0 <= a < markers_upto(origin, done).len() ==> 0 <= fortress_cell(
                origin,
                #[trigger] markers_upto(origin, done)[a],
            ) < done,
        forall|a: int, b: int|
            0 <= a < b < markers_upto(origin, done).len() ==> fortress_cell(
                origin,
                #[trigger] markers_upto(origin, done)[a],
            ) < fortress_cell(origin, #[trigger] markers_upto(origin, done)[b]),
    decreases done,
{
    if done > 0 {
        lemma_markers_ordered(grid, origin, (done - 1) as nat);
        lemma_fortress_point(grid, origin, done - 1);
        let rest = markers_upto(origin, (done - 1) as nat);
        let all = markers_upto(origin, done);
        assert forall|a: int| 0 <= a < all.len() implies 0 <= fortress_cell(
            origin,
            #[trigger] all[a],
        ) < done by {
            if a < rest.len() {
                assert(all[a] == rest[a]);
            }
        }
        assert forall|a: int, b: int| 0 <= a < b < all.len() implies fortress_cell(
            origin,
            #[trigger] all[a],
        ) < fortress_cell(origin, #[trigger] all[b]) by {
            assert(all[a] == rest[a]);
            if b < rest.len() {
                assert(all[b] == rest[b]);
            }
        }
    }
}

/// After a fortress is placed, each cell of its footprint holds what the
/// pattern writes there, a `Wall` for `#` and a `Floor` for any other
/// character, and no two spawn points in the footprint are the same point.
pub proof fn lemma_placed_footprint(before: MapBuilder, after: MapBuilder, origin: Point)
    requires
        before.map.wf(),
        after.map.width() == before.map.width(),
        fits(before.map, origin),
        placed(before, after, origin),
    ensures
        forall|k: int|
            0 <= k < FORTRESS_CELLS ==> after.map.tile_of(#[trigger] fortress_point(origin, k))
                == stamped_tile(
                fortress_char(k),
                before.map.tile_of(fortress_point(origin, k)),
            ),
        forall|k: int|
            0 <= k < FORTRESS_CELLS ==> after.map.tile_of(#[trigger] fortress_point(origin, k))
                == if fortress_char(k) == '#' {
                TileType::Wall
            } else {
                TileType::Floor
            },
        forall|a: int, b: int|
            0 <= a < b < after.monster_spawns@.len() && in_footprint(
                origin,
                #[trigger] after.monster_spawns@[a],
            ) && in_footprint(origin, #[trigger] after.monster_spawns@[b])
                ==> after.monster_spawns@[a] != after.monster_spawns@[b],
{
    let grid = before.map;
    let w = grid.width() as int;
    let h = grid.height() as int;
    assert forall|k: int| 0 <= k < FORTRESS_CELLS implies after.map.tile_of(
        #[trigger] fortress_point(origin, k),
    ) == stamped_tile(fortress_char(k), before.map.tile_of(fortress_point(origin, k))) by {
        let p = fortress_point(origin, k);
        lemma_fortress_point(grid, origin, k);
        lemma_index_in_range(w, h, p.x as int, p.y as int);
        lemma_index_to_point(w, h, p.x as int, p.y as int);
        assert(grid.point_of(grid.index_of(p)) == p);
    }
    assert forall|k: int| 0 <= k < FORTRESS_CELLS implies after.map.tile_of(
        #[trigger] fortress_point(origin, k),
    ) == if fortress_char(k) == '#' {
        TileType::Wall
    } else {
        TileType::Floor
    } by {
        lemma_fortress_chars(k);
    }
    let kept = outside_footprint(before.monster_spawns@, origin);
    let marks = markers(origin);
    lemma_outside_footprint(before.monster_spawns@, origin);
    lemma_markers_ordered(grid, origin, FORTRESS_CELLS as nat);
    assert forall|a: int, b: int|
        0 <= a < b < after.monster_spawns@.len() && in_footprint(
            origin,
            #[trigger] after.monster_spawns@[a],
        ) && in_footprint(
            origin,
            #[trigger] after.monster_spawns@[b],
        ) implies after.monster_spawns@[a] != after.monster_spawns@[b] by {
        assert(a >= kept.len()) by {
            if a < kept.len() {
                assert(after.monster_spawns@[a] == kept[a]);
            }
        }
        assert(after.monster_spawns@[a] == marks[a - kept.len()]);
        assert(after.monster_spawns@[b] == marks[b - kept.len()]);
    }
}

/// True when the place at `origin` is accepted: whether a cell of the
/// footprint has a distance above the separation and below the ceiling and
/// is not the goal.
pub fn can_place(grid: &Grid, field: &DistanceField, goal: Point, origin: Point) -> (ok: bool)
    requires
        grid.wf(),
        field@.len() == grid@.len(),
        fits(*grid, origin),
    ensures
        ok == acceptable(*grid, field@, goal, origin),
{
    let mut k: usize = 0;
    while k < FORTRESS_CELLS
        invariant
            k <= FORTRESS_CELLS,
            grid.wf(),
            field@.len() == grid@.len(),
            fits(*grid, origin),
            forall|j: int|
                0 <= j < k ==> !qualifies(*grid, field@, goal, #[trigger] fortress_point(origin, j)),
        decreases FORTRESS_CELLS - k,
    {
        proof {
            lemma_fortress_point(*grid, origin, k as int);
        }
        let p = Point { x: origin.x + (k % 12) as i32, y: origin.y + (k / 12) as i32 };
        let idx = grid.point2d_to_index(p);
        let d = field.get(idx);
        if d < UNREACHABLE_CEILING && d > MIN_SEPARATION && (p.x != goal.x || p.y != goal.y) {
            assert(qualifies(*grid, field@, goal, fortress_point(origin, k as int)));
            return true;
        }
        k += 1;
    }
    false
}

/// Places a fortress at `origin`: takes the spawn points in its footprint
/// away, stamps the pattern onto the map, and adds the monsters' places of
/// the fortress to the spawn points.
pub fn place_prefab(mb: &mut MapBuilder, origin: Point)
    requires
        old(mb).map.wf(),
        fits(old(mb).map, origin),
    ensures
        same_frame(*old(mb), *final(mb)),
        placed(*old(mb), *final(mb), origin),
{
    let ghost before = *mb;
    let mut kept: Vec<Point> = Vec::new();
    let count = mb.monster_spawns.len();
    let mut i: usize = 0;
    while i < count
        invariant
            i <= count,
            count == mb.monster_spawns@.len(),
            *mb == before,
            before.map.wf(),
            fits(before.map, origin),
            kept@ == outside_footprint(before.monster_spawns@.take(i as int), origin),
        decreases count - i,
    {
        let p = mb.monster_spawns[i];
        assert(before.monster_spawns@.take(i + 1).drop_last() =~= before.monster_spawns@.take(
            i as int,
        ));
        let inside = p.x >= origin.x && p.x < origin.x + FORTRESS_WIDTH && p.y >= origin.y && p.y
            < origin.y + FORTRESS_HEIGHT;
        if !inside {
            kept.push(p);
        }
        i += 1;
    }
    assert(before.monster_spawns@.take(count as int) =~= before.monster_spawns@);
    mb.monster_spawns = kept;
    let ghost outside = mb.monster_spawns@;
    let mut k: usize = 0;
    assert(mb.map@ =~= stamped_upto(before.map, origin, 0));
    assert(mb.monster_spawns@ =~= outside + markers_upto(origin, 0));
    while k < FORTRESS_CELLS
        invariant
            k <= FORTRESS_CELLS,
            before.map.wf(),
            fits(before.map, origin),
            same_frame(before, *mb),
            mb.map@.len() == before.map@.len(),
            mb.map@ == stamped_upto(before.map, origin, k as int),
            mb.monster_spawns@ == outside + markers_upto(origin, k as nat),
        decreases FORTRESS_CELLS - k,
    {
        proof {
            lemma_fortress_point(before.map, origin, k as int);
        }
        let p = Point { x: origin.x + (k % 12) as i32, y: origin.y + (k / 12) as i32 };
        let idx = mb.map.point2d_to_index(p);
        let c = pattern_char(k);
        let ghost tiles = mb.map@;
        let ghost spawns = mb.monster_spawns@;
        if c == '#' {
            mb.map.set_tile_at(idx, TileType::Wall);
        } else if c == '-' {
            mb.map.set_tile_at(idx, TileType::Floor);
        } else if c == 'M' {
            mb.map.set_tile_at(idx, TileType::Floor);
            mb.monster_spawns.push(p);
        }
        proof {
            let grid = before.map;
            assert(mb.map@.len() == tiles.len());
            assert forall|i: int| 0 <= i < grid@.len() implies mb.map@[i] == stamped_upto(
                grid,
                origin,
                k + 1,
            )[i] by {
                lemma_point_to_index(grid.width() as int, grid.height() as int, i);
                if i == idx {
                    assert(grid.point_of(i) == p);
                    assert(tiles[i] == grid@[i]);
                } else {
                    assert(grid.point_of(i) != p);
                    assert(mb.map@[i] == tiles[i]);
                }
            }
            assert(mb.map@ =~= stamped_upto(grid, origin, k + 1));
            assert(mb.monster_spawns@ =~= outside + markers_upto(origin, (k + 1) as nat));
        }
        k += 1;
    }
}

/// Looks for a place for the fortress and places it there. Up to
/// `PLACEMENT_ATTEMPTS` places are drawn; the first that is accepted is
/// taken. Where none is accepted, or the map is too small for the fortress,
/// nothing changes. Where every place that fits is accepted, the first draw
/// is taken, so a fortress is placed whatever is drawn.
pub fn apply_prefab(mb: &mut MapBuilder, rng: &mut bracket_lib::random::RandomNumberGenerator)
    requires
        old(mb).map.wf(),
    ensures
        decorated(*old(mb), *final(mb)),
{
    let width = mb.map.width();
    let height = mb.map.height();
    if width <= FORTRESS_WIDTH || height <= FORTRESS_HEIGHT {
        return ;
    }
    let field = field_from(&mb.map, mb.player_start);
    assert(field@ =~= start_field(mb.map, mb.player_start));
    let mut attempts: usize = 0;
    while attempts < PLACEMENT_ATTEMPTS
        invariant
            attempts <= PLACEMENT_ATTEMPTS,
            *mb == *old(mb),
            mb.map.wf(),
            width == mb.map.width(),
            height == mb.map.height(),
            width > FORTRESS_WIDTH,
            height > FORTRESS_HEIGHT,
            field@ == start_field(mb.map, mb.player_start),
            field@.len() == mb.map@.len(),
            attempts > 0 ==> !placement_owed(*old(mb)),
        decreases PLACEMENT_ATTEMPTS - attempts,
    {
        let x = roll_range(rng, 0, width - FORTRESS_WIDTH);
        let y = roll_range(rng, 0, height - FORTRESS_HEIGHT);
        let origin = Point { x, y };
        if can_place(&mb.map, &field, mb.amulet_start, origin) {
            place_prefab(mb, origin);
            assert(placed(*old(mb), *mb, origin));
            return ;
        }
        attempts += 1;
    }
}

} // verus!
