//! The distance field: for each cell, the least number of steps in which it
//! can be reached from a set of source cells.
//!
//! A step leads from a cell to one of the up to eight cells that touch it, and
//! only onto a cell that is not a `Wall`. A source has distance 0 whatever its
//! tile. Cells that cannot be reached within the cutoff hold `UNREACHABLE`.

use vstd::prelude::*;
use crate::geometry::Point;
use crate::map::{
    cell_index, cell_x, cell_y, lemma_index_in_range, lemma_index_to_point, lemma_point_to_index,
    on_grid, Grid, TileType,
};

verus! {

/// The value of a cell that no path reaches within the cutoff. It is greater
/// than every distance that a field records.
pub const UNREACHABLE: u32 = u32::MAX;

/// True when `i` and `j` are two different cells of the grid whose columns and
/// rows each differ by at most one.
pub open spec fn touching(grid: Grid, i: int, j: int) -> bool {
    &&& 0 <= i < grid@.len()
    &&& 0 <= j < grid@.len()
    &&& i != j
    &&& -1 <= cell_x(grid.width() as int, i) - cell_x(grid.width() as int, j) <= 1
    &&& -1 <= cell_y(grid.width() as int, i) - cell_y(grid.width() as int, j) <= 1
}

/// The cells that a list of source indices names.
pub open spec fn source_set(starts: Seq<usize>) -> Set<int> {
    Set::new(|i: int| exists|k: int| 0 <= k < starts.len() && #[trigger] starts[k] == i)
}

/// True when cell `i` can be reached from a source in at most `steps` steps.
pub open spec fn reach(grid: Grid, sources: Set<int>, steps: nat, i: int) -> bool
    decreases steps,
{
    if steps == 0 {
        0 <= i < grid@.len() && sources.contains(i)
    } else {
        ||| reach(grid, sources, (steps - 1) as nat, i)
        ||| (0 <= i < grid@.len() && grid@[i] != TileType::Wall && exists|j: int| #[trigger]
            touching(grid, j, i) && reach(grid, sources, (steps - 1) as nat, j))
    }
}

/// True when cell `i` can be reached in `steps` steps and in no fewer.
pub open spec fn reach_exactly(grid: Grid, sources: Set<int>, steps: nat, i: int) -> bool {
    reach(grid, sources, steps, i) && (steps == 0 || !reach(
        grid,
        sources,
        (steps - 1) as nat,
        i,
    ))
}

/// The least number of steps, up to `limit`, in which cell `i` can be reached;
/// `limit` where it cannot be reached in fewer.
pub open spec fn first_reach(grid: Grid, sources: Set<int>, limit: nat, i: int) -> nat
    decreases limit,
{
    if limit == 0 {
        0
    } else if reach(grid, sources, (limit - 1) as nat, i) {
        first_reach(grid, sources, (limit - 1) as nat, i)
    } else {
        limit
    }
}

/// The distance of cell `i` from the nearest source: the least number of
/// steps where that is at most `cutoff`, else `UNREACHABLE`.
pub open spec fn distance(grid: Grid, sources: Set<int>, cutoff: nat, i: int) -> int {
    if reach(grid, sources, cutoff, i) {
        first_reach(grid, sources, cutoff, i) as int
    } else {
        UNREACHABLE as int
    }
}

/// The cutoff that a field is built with: the cutoff asked for, kept below the
/// value that marks unreachable cells.
pub open spec fn horizon(max_depth: u32) -> nat {
    if max_depth == u32::MAX {
        (u32::MAX - 1) as nat
    } else {
        max_depth as nat
    }
}

/// A cell that can be reached in `a` steps can be reached in any `b >= a`.
pub proof fn lemma_reach_mono(grid: Grid, sources: Set<int>, a: nat, b: nat, i: int)
    requires
        a <= b,
        reach(grid, sources, a, i),
    ensures
        reach(grid, sources, b, i),
    decreases b,
{
    if a < b {
        lemma_reach_mono(grid, sources, a, (b - 1) as nat, i);
    }
}

/// One more step leads from a reached cell onto a touching cell that is no
/// wall.
pub proof fn lemma_reach_step(grid: Grid, sources: Set<int>, steps: nat, u: int, v: int)
    requires
        reach(grid, sources, steps, u),
        touching(grid, u, v),
        grid@[v] != TileType::Wall,
    ensures
        reach(grid, sources, steps + 1, v),
{
}

/// Only cells of the grid are reached.
pub proof fn lemma_reach_in_range(grid: Grid, sources: Set<int>, steps: nat, i: int)
    requires
        reach(grid, sources, steps, i),
    ensures
        0 <= i < grid@.len(),
    decreases steps,
{
    if steps > 0 && reach(grid, sources, (steps - 1) as nat, i) {
        lemma_reach_in_range(grid, sources, (steps - 1) as nat, i);
    }
}

/// A cell that is reached in exactly `d <= limit` steps has `d` as its first
/// reach.
pub proof fn lemma_first_reach_is(grid: Grid, sources: Set<int>, limit: nat, d: nat, i: int)
    requires
        reach_exactly(grid, sources, d, i),
        d <= limit,
    ensures
        first_reach(grid, sources, limit, i) == d,
    decreases limit,
{
    if d < limit {
        lemma_reach_mono(grid, sources, d, (limit - 1) as nat, i);
        lemma_first_reach_is(grid, sources, (limit - 1) as nat, d, i);
    }
}

/// The first reach of a cell that is reached within `limit` steps is exact.
pub proof fn lemma_first_reach_exact(grid: Grid, sources: Set<int>, limit: nat, i: int)
    requires
        reach(grid, sources, limit, i),
    ensures
        first_reach(grid, sources, limit, i) <= limit,
        reach_exactly(grid, sources, first_reach(grid, sources, limit, i), i),
    decreases limit,
{
    if limit > 0 && reach(grid, sources, (limit - 1) as nat, i) {
        lemma_first_reach_exact(grid, sources, (limit - 1) as nat, i);
    }
}

/// True when one more step than `d` reaches no new cell.
pub open spec fn settled(grid: Grid, sources: Set<int>, d: nat) -> bool {
    forall|j: int| reach(grid, sources, d + 1, j) ==> reach(grid, sources, d, j)
}

/// Once a step reaches no new cell, no later step does.
pub proof fn lemma_settled(grid: Grid, sources: Set<int>, d: nat, m: nat, i: int)
    requires
        settled(grid, sources, d),
        reach(grid, sources, m, i),
    ensures
        reach(grid, sources, d, i),
    decreases m,
{
    if m <= d {
        lemma_reach_mono(grid, sources, m, d, i);
    } else if reach(grid, sources, (m - 1) as nat, i) {
        lemma_settled(grid, sources, d, (m - 1) as nat, i);
    } else {
        let j = choose|j: int| #[trigger]
            touching(grid, j, i) && reach(grid, sources, (m - 1) as nat, j);
        lemma_settled(grid, sources, d, (m - 1) as nat, j);
        lemma_reach_step(grid, sources, d, j, i);
    }
}

/// A wall that is no source is never reached.
pub proof fn lemma_wall_not_reached(grid: Grid, sources: Set<int>, steps: nat, i: int)
    requires
        0 <= i < grid@.len(),
        grid@[i] == TileType::Wall,
        !sources.contains(i),
    ensures
        !reach(grid, sources, steps, i),
    decreases steps,
{
    if steps > 0 {
        lemma_wall_not_reached(grid, sources, (steps - 1) as nat, i);
    }
}

/// Every source cell of the grid has distance 0.
pub proof fn lemma_source_distance_zero(grid: Grid, sources: Set<int>, cutoff: nat, i: int)
    requires
        0 <= i < grid@.len(),
        sources.contains(i),
    ensures
        distance(grid, sources, cutoff, i) == 0,
{
    lemma_reach_mono(grid, sources, 0, cutoff, i);
    lemma_first_reach_is(grid, sources, cutoff, 0, i);
}

/// A greater cutoff changes no distance that the smaller one records: a
/// finite distance neither decreases nor increases.
pub proof fn lemma_cutoff_keeps_distance(
    grid: Grid,
    sources: Set<int>,
    small: nat,
    large: nat,
    i: int,
)
    requires
        small <= large,
        distance(grid, sources, small, i) != UNREACHABLE,
    ensures
        distance(grid, sources, large, i) == distance(grid, sources, small, i),
{
    lemma_first_reach_exact(grid, sources, small, i);
    let d = first_reach(grid, sources, small, i);
    lemma_reach_mono(grid, sources, small, large, i);
    lemma_first_reach_is(grid, sources, large, d, i);
}

/// A cell that is no source, and whose touching cells are all walls and no
/// sources, is unreachable at every cutoff.
pub proof fn lemma_enclosed_unreachable(grid: Grid, sources: Set<int>, cutoff: nat, i: int)
    requires
        0 <= i < grid@.len(),
        !sources.contains(i),
        forall|j: int| #[trigger]
            touching(grid, j, i) ==> grid@[j] == TileType::Wall && !sources.contains(j),
    ensures
        !reach(grid, sources, cutoff, i),
        distance(grid, sources, cutoff, i) == UNREACHABLE,
    decreases cutoff,
{
    if cutoff > 0 {
        lemma_enclosed_unreachable(grid, sources, (cutoff - 1) as nat, i);
        if reach(grid, sources, cutoff, i) {
            let j = choose|j: int| #[trigger]
                touching(grid, j, i) && reach(grid, sources, (cutoff - 1) as nat, j);
            lemma_wall_not_reached(grid, sources, (cutoff - 1) as nat, j);
        }
    }
}

/// A cell with a finite distance above 0 is no wall and no source, and is
/// reached within the cutoff.
pub proof fn lemma_far_cell_is_open(grid: Grid, sources: Set<int>, cutoff: nat, i: int)
    requires
        0 < distance(grid, sources, cutoff, i) < UNREACHABLE,
    ensures
        0 <= i < grid@.len(),
        grid@[i] != TileType::Wall,
        !sources.contains(i),
        reach(grid, sources, cutoff, i),
{
    lemma_first_reach_exact(grid, sources, cutoff, i);
    lemma_reach_in_range(grid, sources, cutoff, i);
    let d = first_reach(grid, sources, cutoff, i);
    if sources.contains(i) {
        lemma_reach_mono(grid, sources, 0, (d - 1) as nat, i);
    }
}

/// A cell that is reached within a cutoff below `UNREACHABLE` and is no source
/// has a finite distance above 0.
pub proof fn lemma_reached_cell_is_far(grid: Grid, sources: Set<int>, cutoff: nat, i: int)
    requires
        cutoff < UNREACHABLE,
        reach(grid, sources, cutoff, i),
        !sources.contains(i),
    ensures
        0 < distance(grid, sources, cutoff, i) < UNREACHABLE,
{
    lemma_first_reach_exact(grid, sources, cutoff, i);
}


/// Every recorded value is at most `cap` and is the exact number of steps.
pub open spec fn sound(grid: Grid, sources: Set<int>, dist: Seq<u32>, cap: nat) -> bool {
    forall|i: int|
        0 <= i < dist.len() && #[trigger] dist[i] != UNREACHABLE ==> dist[i] <= cap
            && reach_exactly(grid, sources, dist[i] as nat, i)
}

/// Every cell that is reached within `depth` steps has a recorded value.
pub open spec fn complete(grid: Grid, sources: Set<int>, dist: Seq<u32>, depth: nat) -> bool {
    forall|i: int|
        0 <= i < dist.len() && reach(grid, sources, depth, i) ==> #[trigger] dist[i]
            != UNREACHABLE
}

/// `cells` lists cells with the value `depth`, and every such cell.
pub open spec fn layer(dist: Seq<u32>, cells: Seq<usize>, depth: nat) -> bool {
    &&& forall|k: int|
        0 <= k < cells.len() ==> #[trigger] cells[k] < dist.len() && dist[cells[k] as int]
            == depth
    &&& forall|i: int|
        0 <= i < dist.len() && #[trigger] dist[i] == depth ==> exists|k: int|
            0 <= k < cells.len() && #[trigger] cells[k] == i
}

/// Every cell that touches one of the first `done` cells of `cells`, and is
/// no wall, has a recorded value.
pub open spec fn expanded(grid: Grid, dist: Seq<u32>, cells: Seq<usize>, done: int) -> bool {
    forall|k: int, i: int|
        0 <= k < done && #[trigger] touching(grid, cells[k] as int, i) && grid@[i]
            != TileType::Wall ==> dist[i] != UNREACHABLE
}

/// Two cells of the grid that are one step apart, diagonals included, touch.
pub proof fn lemma_neighbour_touches(grid: Grid, p: Point, q: Point)
    requires
        grid.wf(),
        grid.has(p),
        grid.has(q),
        p != q,
        -1 <= p.x - q.x <= 1,
        -1 <= p.y - q.y <= 1,
    ensures
        touching(grid, grid.index_of(p), grid.index_of(q)),
{
    let w = grid.width() as int;
    let h = grid.height() as int;
    lemma_index_in_range(w, h, p.x as int, p.y as int);
    lemma_index_in_range(w, h, q.x as int, q.y as int);
    lemma_index_to_point(w, h, p.x as int, p.y as int);
    lemma_index_to_point(w, h, q.x as int, q.y as int);
}

/// A cell that touches the cell at `p` lies one step from `p`.
pub proof fn lemma_touching_is_neighbour(grid: Grid, p: Point, i: int)
    requires
        grid.wf(),
        grid.has(p),
        touching(grid, grid.index_of(p), i),
    ensures
        grid.has(grid.point_of(i)),
        grid.index_of(grid.point_of(i)) == i,
        grid.point_of(i) != p,
        -1 <= p.x - grid.point_of(i).x <= 1,
        -1 <= p.y - grid.point_of(i).y <= 1,
{
    let w = grid.width() as int;
    let h = grid.height() as int;
    lemma_index_to_point(w, h, p.x as int, p.y as int);
    lemma_point_to_index(w, h, i);
}

/// When every cell of the layer at `depth` is expanded, the field is complete
/// for one more step.
proof fn lemma_layer_complete(
    grid: Grid,
    sources: Set<int>,
    dist: Seq<u32>,
    cells: Seq<usize>,
    depth: nat,
)
    requires
        dist.len() == grid@.len(),
        sound(grid, sources, dist, depth + 1),
        complete(grid, sources, dist, depth),
        layer(dist, cells, depth),
        expanded(grid, dist, cells, cells.len() as int),
    ensures
        complete(grid, sources, dist, depth + 1),
{
    assert forall|i: int|
        0 <= i < dist.len() && reach(grid, sources, depth + 1, i) implies #[trigger] dist[i]
        != UNREACHABLE by {
        if !reach(grid, sources, depth, i) {
            let j = choose|j: int| #[trigger]
                touching(grid, j, i) && reach(grid, sources, depth, j);
            assert(dist[j] != UNREACHABLE);
            if dist[j] == depth {
                let k = choose|k: int| 0 <= k < cells.len() && #[trigger] cells[k] == j;
                assert(touching(grid, cells[k] as int, i));
            } else {
                lemma_reach_step(grid, sources, dist[j] as nat, j, i);
                lemma_reach_mono(grid, sources, (dist[j] + 1) as nat, depth, i);
            }
        }
    }
}

/// A field that is sound and complete at `depth`, and whose layer at `depth`
/// is empty or lies at the cutoff, holds the distance of every cell.
proof fn lemma_field_done(
    grid: Grid,
    sources: Set<int>,
    dist: Seq<u32>,
    cells: Seq<usize>,
    depth: nat,
    cutoff: nat,
)
    requires
        dist.len() == grid@.len(),
        depth <= cutoff < UNREACHABLE,
        sound(grid, sources, dist, depth),
        complete(grid, sources, dist, depth),
        layer(dist, cells, depth),
        depth == cutoff || cells.len() == 0,
    ensures
        forall|i: int|
            0 <= i < dist.len() ==> #[trigger] dist[i] == distance(grid, sources, cutoff, i),
{
    if depth < cutoff {
        assert forall|j: int| reach(grid, sources, depth + 1, j) implies reach(
            grid,
            sources,
            depth,
            j,
        ) by {
            if !reach(grid, sources, depth, j) {
                let u = choose|u: int| #[trigger]
                    touching(grid, u, j) && reach(grid, sources, depth, u);
                assert(dist[u] != UNREACHABLE);
                assert(dist[u] != depth);
                lemma_reach_step(grid, sources, dist[u] as nat, u, j);
                lemma_reach_mono(grid, sources, (dist[u] + 1) as nat, depth, j);
            }
        }
        assert(settled(grid, sources, depth));
    }
    assert forall|i: int| 0 <= i < dist.len() implies #[trigger] dist[i] == distance(
        grid,
        sources,
        cutoff,
        i,
    ) by {
        if dist[i] != UNREACHABLE {
            lemma_reach_mono(grid, sources, dist[i] as nat, cutoff, i);
            lemma_first_reach_is(grid, sources, cutoff, dist[i] as nat, i);
        } else if reach(grid, sources, cutoff, i) {
            if depth < cutoff {
                lemma_settled(grid, sources, depth, cutoff, i);
            }
        }
    }
}

/// The distances of a grid's cells from a set of sources.
pub struct DistanceField {
    dist: Vec<u32>,
    width: i32,
    height: i32,
}

impl View for DistanceField {
    type V = Seq<u32>;

    closed spec fn view(&self) -> Seq<u32> {
        self.dist@
    }
}

/// True for a distance that is recorded and is not that of a source.
pub open spec fn is_far(d: u32) -> bool {
    0 < d < UNREACHABLE
}

/// True when `i` is the first cell, in row-major order, among those with the
/// greatest recorded distance above 0.
pub open spec fn is_farthest(dist: Seq<u32>, i: int) -> bool {
    &&& 0 <= i < dist.len()
    &&& is_far(dist[i])
    &&& forall|j: int| 0 <= j < dist.len() && is_far(#[trigger] dist[j]) ==> dist[j] <= dist[i]
    &&& forall|j: int| 0 <= j < i && is_far(#[trigger] dist[j]) ==> dist[j] < dist[i]
}

/// True when some cell has a recorded distance above 0.
pub open spec fn has_far(dist: Seq<u32>) -> bool {
    exists|i: int| 0 <= i < dist.len() && is_far(#[trigger] dist[i])
}

/// Records a step onto the cell at `q`, if there is such a cell, it is no wall
/// and it has no value yet.
fn visit(
    grid: &Grid,
    q: Point,
    depth: u32,
    dist: &mut Vec<u32>,
    next: &mut Vec<usize>,
    Ghost(sources): Ghost<Set<int>>,
    Ghost(u): Ghost<int>,
)
    requires
        grid.wf(),
        old(dist)@.len() == grid@.len(),
        depth < u32::MAX - 1,
        0 <= u < grid@.len(),
        old(dist)@[u] == depth,
        grid.has(q) ==> touching(*grid, u, grid.index_of(q)),
        sound(*grid, sources, old(dist)@, (depth + 1) as nat),
        complete(*grid, sources, old(dist)@, depth as nat),
        layer(old(dist)@, old(next)@, (depth + 1) as nat),
    ensures
        final(dist)@.len() == grid@.len(),
        sound(*grid, sources, final(dist)@, (depth + 1) as nat),
        complete(*grid, sources, final(dist)@, depth as nat),
        layer(final(dist)@, final(next)@, (depth + 1) as nat),
        forall|i: int|
            0 <= i < grid@.len() && #[trigger] old(dist)@[i] != UNREACHABLE ==> final(dist)@[i]
                == old(dist)@[i],
        forall|i: int|
            0 <= i < grid@.len() && #[trigger] final(dist)@[i] != old(dist)@[i] ==> final(dist)@[i] == depth + 1,
        grid.has(q) && grid.tile_of(q) != TileType::Wall ==> final(dist)@[grid.index_of(q)]
            != UNREACHABLE,
{
    if grid.in_bounds(q) {
        let v = grid.point2d_to_index(q);
        if grid.tile_at(v) != TileType::Wall && dist[v] == UNREACHABLE {
            proof {
                assert(reach_exactly(*grid, sources, depth as nat, u));
                lemma_reach_step(*grid, sources, depth as nat, u, v as int);
            }
            let ghost before = dist@;
            let ghost listed = next@;
            dist.set(v, depth + 1);
            next.push(v);
            proof {
                assert forall|k: int| 0 <= k < next@.len() implies #[trigger] next@[k]
                    < dist@.len() && dist@[next@[k] as int] == depth + 1 by {
                    if k < listed.len() {
                        assert(listed[k] == next@[k]);
                    }
                }
                assert forall|i: int|
                    0 <= i < dist@.len() && #[trigger] dist@[i] == depth + 1 implies exists|
                    k: int,
                |
                    0 <= k < next@.len() && #[trigger] next@[k] == i by {
                    if i == v {
                        assert(next@[listed.len() as int] == v);
                    } else {
                        assert(before[i] == depth + 1);
                        let k = choose|k: int| 0 <= k < listed.len() && #[trigger] listed[k] == i;
                        assert(next@[k] == i);
                    }
                }
                assert forall|i: int|
                    0 <= i < dist@.len() && #[trigger] dist@[i] != UNREACHABLE implies dist@[i]
                    <= depth + 1 && reach_exactly(*grid, sources, dist@[i] as nat, i) by {
                    if i != v {
                        assert(before[i] != UNREACHABLE);
                    }
                }
                assert forall|i: int|
                    0 <= i < dist@.len() && reach(
                        *grid,
                        sources,
                        depth as nat,
                        i,
                    ) implies #[trigger] dist@[i] != UNREACHABLE by {
                    assert(before[i] != UNREACHABLE);
                }
            }
        }
    }
}

/// Records a step onto each cell that touches the cell `u`.
fn expand(
    grid: &Grid,
    u: usize,
    depth: u32,
    dist: &mut Vec<u32>,
    next: &mut Vec<usize>,
    Ghost(sources): Ghost<Set<int>>,
)
    requires
        grid.wf(),
        old(dist)@.len() == grid@.len(),
        depth < u32::MAX - 1,
        u < grid@.len(),
        old(dist)@[u as int] == depth,
        sound(*grid, sources, old(dist)@, (depth + 1) as nat),
        complete(*grid, sources, old(dist)@, depth as nat),
        layer(old(dist)@, old(next)@, (depth + 1) as nat),
    ensures
        final(dist)@.len() == grid@.len(),
        sound(*grid, sources, final(dist)@, (depth + 1) as nat),
        complete(*grid, sources, final(dist)@, depth as nat),
        layer(final(dist)@, final(next)@, (depth + 1) as nat),
        forall|i: int|
            0 <= i < grid@.len() && #[trigger] old(dist)@[i] != UNREACHABLE ==> final(dist)@[i]
                == old(dist)@[i],
        forall|i: int|
            0 <= i < grid@.len() && #[trigger] final(dist)@[i] != old(dist)@[i] ==> final(dist)@[i] == depth + 1,
        forall|i: int| #[trigger]
            touching(*grid, u as int, i) && grid@[i] != TileType::Wall ==> final(dist)@[i]
                != UNREACHABLE,
{
    let p = grid.index_to_point2d(u);
    let ghost d0 = dist@;
    let q1 = Point { x: p.x - 1, y: p.y - 1 };
    let q2 = Point { x: p.x, y: p.y - 1 };
    let q3 = Point { x: p.x + 1, y: p.y - 1 };
    let q4 = Point { x: p.x - 1, y: p.y };
    let q5 = Point { x: p.x + 1, y: p.y };
    let q6 = Point { x: p.x - 1, y: p.y + 1 };
    let q7 = Point { x: p.x, y: p.y + 1 };
    let q8 = Point { x: p.x + 1, y: p.y + 1 };
    proof {
        if grid.has(q1) {
            lemma_neighbour_touches(*grid, p, q1);
        }
        if grid.has(q2) {
            lemma_neighbour_touches(*grid, p, q2);
        }
        if grid.has(q3) {
            lemma_neighbour_touches(*grid, p, q3);
        }
        if grid.has(q4) {
            lemma_neighbour_touches(*grid, p, q4);
        }
        if grid.has(q5) {
            lemma_neighbour_touches(*grid, p, q5);
        }
        if grid.has(q6) {
            lemma_neighbour_touches(*grid, p, q6);
        }
        if grid.has(q7) {
            lemma_neighbour_touches(*grid, p, q7);
        }
        if grid.has(q8) {
            lemma_neighbour_touches(*grid, p, q8);
        }
    }
    visit(grid, q1, depth, dist, next, Ghost(sources), Ghost(u as int));
    let ghost d1 = dist@;
    visit(grid, q2, depth, dist, next, Ghost(sources), Ghost(u as int));
    let ghost d2 = dist@;
    visit(grid, q3, depth, dist, next, Ghost(sources), Ghost(u as int));
    let ghost d3 = dist@;
    visit(grid, q4, depth, dist, next, Ghost(sources), Ghost(u as int));
    let ghost d4 = dist@;
    visit(grid, q5, depth, dist, next, Ghost(sources), Ghost(u as int));
    let ghost d5 = dist@;
    visit(grid, q6, depth, dist, next, Ghost(sources), Ghost(u as int));
    let ghost d6 = dist@;
    visit(grid, q7, depth, dist, next, Ghost(sources), Ghost(u as int));
    let ghost d7 = dist@;
    visit(grid, q8, depth, dist, next, Ghost(sources), Ghost(u as int));
    proof {
        let d8 = dist@;
        assert forall|i: int| 0 <= i < grid@.len() && #[trigger] d0[i] != UNREACHABLE implies d8[i]
            == d0[i] by {
            assert(d1[i] == d0[i]);
            assert(d2[i] == d1[i]);
            assert(d3[i] == d2[i]);
            assert(d4[i] == d3[i]);
            assert(d5[i] == d4[i]);
            assert(d6[i] == d5[i]);
            assert(d7[i] == d6[i]);
            assert(d8[i] == d7[i]);
        }
        assert forall|i: int| 0 <= i < grid@.len() && #[trigger] d8[i] != d0[i] implies d8[i]
            == depth + 1 by {
            if d7[i] != d8[i] {
            } else if d6[i] != d7[i] {
            } else if d5[i] != d6[i] {
            } else if d4[i] != d5[i] {
            } else if d3[i] != d4[i] {
            } else if d2[i] != d3[i] {
            } else if d1[i] != d2[i] {
            } else {
                assert(d0[i] != d1[i]);
            }
            if d1[i] != UNREACHABLE {
                assert(d2[i] == d1[i]);
            }
            if d2[i] != UNREACHABLE {
                assert(d3[i] == d2[i]);
            }
            if d3[i] != UNREACHABLE {
                assert(d4[i] == d3[i]);
            }
            if d4[i] != UNREACHABLE {
                assert(d5[i] == d4[i]);
            }
            if d5[i] != UNREACHABLE {
                assert(d6[i] == d5[i]);
            }
            if d6[i] != UNREACHABLE {
                assert(d7[i] == d6[i]);
            }
            if d7[i] != UNREACHABLE {
                assert(d8[i] == d7[i]);
            }
        }
        assert forall|i: int| #[trigger]
            touching(*grid, u as int, i) && grid@[i] != TileType::Wall implies d8[i]
            != UNREACHABLE by {
            lemma_touching_is_neighbour(*grid, p, i);
            let q = grid.point_of(i);
            assert(q == q1 || q == q2 || q == q3 || q == q4 || q == q5 || q == q6 || q == q7 || q
                == q8);
            if q == q1 {
                assert(d1[i] != UNREACHABLE);
            }
            if q == q2 {
                assert(d2[i] != UNREACHABLE);
            }
            if q == q3 {
                assert(d3[i] != UNREACHABLE);
            }
            if q == q4 {
                assert(d4[i] != UNREACHABLE);
            }
            if q == q5 {
                assert(d5[i] != UNREACHABLE);
            }
            if q == q6 {
                assert(d6[i] != UNREACHABLE);
            }
            if q == q7 {
                assert(d7[i] != UNREACHABLE);
            }
            if d1[i] != UNREACHABLE {
                assert(d2[i] == d1[i]);
            }
            if d2[i] != UNREACHABLE {
                assert(d3[i] == d2[i]);
            }
            if d3[i] != UNREACHABLE {
                assert(d4[i] == d3[i]);
            }
            if d4[i] != UNREACHABLE {
                assert(d5[i] == d4[i]);
            }
            if d5[i] != UNREACHABLE {
                assert(d6[i] == d5[i]);
            }
            if d6[i] != UNREACHABLE {
                assert(d7[i] == d6[i]);
            }
            if d7[i] != UNREACHABLE {
                assert(d8[i] == d7[i]);
            }
        }
    }
}


impl DistanceField {
    pub closed spec fn spec_width(&self) -> i32 {
        self.width
    }

    pub closed spec fn spec_height(&self) -> i32 {
        self.height
    }

    /// The field holds one value for each cell of a grid of its width and
    /// height.
    pub open spec fn wf(&self) -> bool {
        &&& 0 < self.width()
        &&& 0 < self.height()
        &&& self.width() * self.height() < i32::MAX
        &&& self@.len() == self.width() * self.height()
    }

    /// The field holds, for each cell of `grid`, its distance from `sources`
    /// with the cutoff `cutoff`.
    pub open spec fn describes(&self, grid: Grid, sources: Set<int>, cutoff: nat) -> bool {
        &&& self.wf()
        &&& self.width() == grid.width()
        &&& self.height() == grid.height()
        &&& self@.len() == grid@.len()
        &&& forall|i: int|
            0 <= i < self@.len() ==> #[trigger] self@[i] == distance(grid, sources, cutoff, i)
    }

    /// The cell with index `idx`.
    pub open spec fn point_of(&self, idx: int) -> Point {
        Point {
            x: cell_x(self.width() as int, idx) as i32,
            y: cell_y(self.width() as int, idx) as i32,
        }
    }

    /// The distances of the cells of `grid` from the cells that `starts`
    /// names, as far as they are at most `max_depth`. Indices in `starts` that
    /// name no cell are passed over.
    pub fn new(grid: &Grid, starts: &Vec<usize>, max_depth: u32) -> (field: DistanceField)
        requires
            grid.wf(),
        ensures
            field.describes(*grid, source_set(starts@), horizon(max_depth)),
    {
        let n = grid.len();
        let limit: u32 = if max_depth == u32::MAX {
            u32::MAX - 1
        } else {
            max_depth
        };
        let ghost sources = source_set(starts@);
        let mut dist: Vec<u32> = Vec::new();
        let mut i: usize = 0;
        while i < n
            invariant
                i <= n,
                dist@.len() == i,
                forall|k: int| 0 <= k < i ==> dist@[k] == UNREACHABLE,
            decreases n - i,
        {
            dist.push(UNREACHABLE);
            i += 1;
        }
        let mut frontier: Vec<usize> = Vec::new();
        let mut k: usize = 0;
        while k < starts.len()
            invariant
                k <= starts.len(),
                n == grid@.len(),
                dist@.len() == n,
                sources == source_set(starts@),
                forall|i: int|
                    0 <= i < n && #[trigger] dist@[i] != UNREACHABLE ==> dist@[i] == 0
                        && sources.contains(i),
                forall|j: int|
                    0 <= j < k && #[trigger] starts@[j] < n ==> dist@[starts@[j] as int]
                        != UNREACHABLE,
                layer(dist@, frontier@, 0),
            decreases starts.len() - k,
        {
            let s = starts[k];
            if s < n && dist[s] == UNREACHABLE {
                let ghost before = dist@;
                let ghost listed = frontier@;
                dist.set(s, 0);
                frontier.push(s);
                proof {
                    assert(starts@[k as int] == s);
                    assert(sources.contains(s as int));
                    assert forall|j: int| 0 <= j < frontier@.len() implies #[trigger] frontier@[j]
                        < dist@.len() && dist@[frontier@[j] as int] == 0 by {
                        if j < listed.len() {
                            assert(listed[j] == frontier@[j]);
                        }
                    }
                    assert forall|i: int|
                        0 <= i < dist@.len() && #[trigger] dist@[i] == 0 implies exists|j: int|
                        0 <= j < frontier@.len() && #[trigger] frontier@[j] == i by {
                        if i == s {
                            assert(frontier@[listed.len() as int] == s);
                        } else {
                            assert(before[i] == 0);
                            let j = choose|j: int|
                                0 <= j < listed.len() && #[trigger] listed[j] == i;
                            assert(frontier@[j] == i);
                        }
                    }
                }
            }
            k += 1;
        }
        proof {
            assert forall|i: int|
                0 <= i < dist@.len() && reach(*grid, sources, 0, i) implies #[trigger] dist@[i]
                != UNREACHABLE by {
                let j = choose|j: int| 0 <= j < starts@.len() && #[trigger] starts@[j] == i;
                assert(starts@[j] < n);
            }
        }
        let mut depth: u32 = 0;
        while depth < limit && frontier.len() > 0
            invariant
                grid.wf(),
                n == grid@.len(),
                dist@.len() == n,
                depth <= limit < u32::MAX,
                sound(*grid, sources, dist@, depth as nat),
                complete(*grid, sources, dist@, depth as nat),
                layer(dist@, frontier@, depth as nat),
            decreases limit - depth,
        {
            let mut next: Vec<usize> = Vec::new();
            let mut k: usize = 0;
            while k < frontier.len()
                invariant
                    grid.wf(),
                    n == grid@.len(),
                    dist@.len() == n,
                    depth < limit < u32::MAX,
                    k <= frontier@.len(),
                    sound(*grid, sources, dist@, (depth + 1) as nat),
                    complete(*grid, sources, dist@, depth as nat),
                    layer(dist@, frontier@, depth as nat),
                    layer(dist@, next@, (depth + 1) as nat),
                    expanded(*grid, dist@, frontier@, k as int),
                decreases frontier.len() - k,
            {
                let u = frontier[k];
                let ghost before = dist@;
                expand(grid, u, depth, &mut dist, &mut next, Ghost(sources));
                proof {
                    assert forall|j: int| 0 <= j < frontier@.len() implies #[trigger] frontier@[j]
                        < dist@.len() && dist@[frontier@[j] as int] == depth by {
                        assert(before[frontier@[j] as int] != UNREACHABLE);
                    }
                    assert forall|i: int|
                        0 <= i < dist@.len() && #[trigger] dist@[i] == depth implies exists|
                        j: int,
                    |
                        0 <= j < frontier@.len() && #[trigger] frontier@[j] == i by {
                        if before[i] != dist@[i] {
                            assert(dist@[i] == depth + 1);
                        }
                        assert(before[i] == depth);
                    }
                    assert forall|j: int, i: int|
                        0 <= j < k + 1 && #[trigger] touching(*grid, frontier@[j] as int, i)
                            && grid@[i] != TileType::Wall implies dist@[i] != UNREACHABLE by {
                        if j < k {
                            assert(before[i] != UNREACHABLE);
                        }
                    }
                }
                k += 1;
            }
            proof {
                lemma_layer_complete(*grid, sources, dist@, frontier@, depth as nat);
            }
            frontier = next;
            depth += 1;
        }
        proof {
            lemma_field_done(*grid, sources, dist@, frontier@, depth as nat, limit as nat);
        }
        DistanceField { dist, width: grid.width(), height: grid.height() }
    }

    #[verifier::when_used_as_spec(spec_width)]
    pub fn width(&self) -> (w: i32)
        ensures
            w == self.width(),
    {
        self.width
    }

    #[verifier::when_used_as_spec(spec_height)]
    pub fn height(&self) -> (h: i32)
        ensures
            h == self.height(),
    {
        self.height
    }

    /// The number of cells.
    pub fn len(&self) -> (n: usize)
        ensures
            n == self@.len(),
    {
        self.dist.len()
    }

    /// The values in row-major order.
    pub fn values(&self) -> (values: &Vec<u32>)
        ensures
            values@ == self@,
    {
        &self.dist
    }

    /// The value of the cell with index `idx`.
    pub fn get(&self, idx: usize) -> (d: u32)
        requires
            idx < self@.len(),
        ensures
            d == self@[idx as int],
    {
        self.dist[idx]
    }

    /// The value of the cell at `p`; `UNREACHABLE` for a point off the grid.
    pub fn distance_at(&self, p: Point) -> (d: u32)
        requires
            self.wf(),
        ensures
            d == if on_grid(self.width() as int, self.height() as int, p.x as int, p.y as int) {
                self@[cell_index(self.width() as int, p.x as int, p.y as int)]
            } else {
                UNREACHABLE
            },
    {
        if p.x >= 0 && p.x < self.width && p.y >= 0 && p.y < self.height {
            proof {
                lemma_index_in_range(
                    self.width() as int,
                    self.height() as int,
                    p.x as int,
                    p.y as int,
                );
            }
            self.dist[(p.y * self.width + p.x) as usize]
        } else {
            UNREACHABLE
        }
    }

    /// The first cell, in row-major order, among those with the greatest
    /// recorded distance above 0; `fallback` where no cell has such a distance.
    pub fn farthest_point(&self, fallback: Point) -> (p: Point)
        requires
            self.wf(),
        ensures
            farthest_is(self@, self.width() as int, fallback, p),
            has_far(self@) ==> exists|i: int| is_farthest(self@, i) && p == self.point_of(i),
    {
        let n = self.dist.len();
        let mut best: Option<usize> = None;
        let mut i: usize = 0;
        while i < n
            invariant
                i <= n,
                n == self@.len(),
                best is None ==> forall|j: int| 0 <= j < i ==> !is_far(#[trigger] self@[j]),
                best is Some ==> best.unwrap() < i && is_far(self@[best.unwrap() as int]),
                best is Some ==> forall|j: int|
                    0 <= j < i && is_far(#[trigger] self@[j]) ==> self@[j] <= self@[best.unwrap() as int],
                best is Some ==> forall|j: int|
                    0 <= j < best.unwrap() && is_far(#[trigger] self@[j]) ==> self@[j]
                        < self@[best.unwrap() as int],
            decreases n - i,
        {
            let d = self.dist[i];
            if d > 0 && d < UNREACHABLE {
                match best {
                    None => {
                        best = Some(i);
                    },
                    Some(b) => {
                        if d > self.dist[b] {
                            best = Some(i);
                        }
                    },
                }
            }
            i += 1;
        }
        match best {
            None => {
                assert(!has_far(self@));
                fallback
            },
            Some(b) => {
                proof {
                    lemma_point_to_index(self.width() as int, self.height() as int, b as int);
                }
                let w: usize = self.width as usize;
                let p = Point { x: (b % w) as i32, y: (b / w) as i32 };
                assert(is_farthest(self@, b as int));
                assert(p == self.point_of(b as int));
                p
            },
        }
    }
}

/// True when `p` is what the farthest-point query gives for the values
/// `dist` of a field `width` cells wide: the first of the farthest cells, or
/// `fallback` where no cell has a recorded distance above 0.
pub open spec fn farthest_is(dist: Seq<u32>, width: int, fallback: Point, p: Point) -> bool {
    &&& has_far(dist) ==> exists|i: int|
        is_farthest(dist, i) && p == (Point {
            x: cell_x(width, i) as i32,
            y: cell_y(width, i) as i32,
        })
    &&& !has_far(dist) ==> p == fallback
}

/// The values of a field determine its farthest point: the query has one
/// answer.
pub proof fn lemma_farthest_point_determined(
    dist: Seq<u32>,
    width: int,
    fallback: Point,
    p: Point,
    q: Point,
)
    requires
        farthest_is(dist, width, fallback, p),
        farthest_is(dist, width, fallback, q),
    ensures
        p == q,
{
    if has_far(dist) {
        let i = choose|i: int|
            is_farthest(dist, i) && p == (Point {
                x: cell_x(width, i) as i32,
                y: cell_y(width, i) as i32,
            });
        let j = choose|j: int|
            is_farthest(dist, j) && q == (Point {
                x: cell_x(width, j) as i32,
                y: cell_y(width, j) as i32,
            });
        if i < j {
            assert(is_far(dist[i]));
        } else if j < i {
            assert(is_far(dist[j]));
        }
    }
}

/// Where some cell that is no source can be reached within the cutoff, the
/// farthest point is such a cell, and it is no wall; where there is no such
/// cell, the farthest point is the fallback.
pub proof fn lemma_farthest_point_reachable(
    field: DistanceField,
    grid: Grid,
    sources: Set<int>,
    cutoff: nat,
    fallback: Point,
    p: Point,
)
    requires
        grid.wf(),
        cutoff < UNREACHABLE,
        field.describes(grid, sources, cutoff),
        farthest_is(field@, field.width() as int, fallback, p),
    ensures
        (exists|j: int| reach(grid, sources, cutoff, j) && !sources.contains(j)) ==> {
            &&& grid.has(p)
            &&& grid.tile_of(p) != TileType::Wall
            &&& !sources.contains(grid.index_of(p))
            &&& reach(grid, sources, cutoff, grid.index_of(p))
        },
        !(exists|j: int| reach(grid, sources, cutoff, j) && !sources.contains(j)) ==> p
            == fallback,
{
    if exists|j: int| reach(grid, sources, cutoff, j) && !sources.contains(j) {
        let j = choose|j: int| reach(grid, sources, cutoff, j) && !sources.contains(j);
        lemma_reach_in_range(grid, sources, cutoff, j);
        lemma_reached_cell_is_far(grid, sources, cutoff, j);
        assert(is_far(field@[j]));
        let i = choose|i: int|
            is_farthest(field@, i) && p == (Point {
                x: cell_x(field.width() as int, i) as i32,
                y: cell_y(field.width() as int, i) as i32,
            });
        assert(field@[i] == distance(grid, sources, cutoff, i));
        lemma_far_cell_is_open(grid, sources, cutoff, i);
        lemma_point_to_index(grid.width() as int, grid.height() as int, i);
    } else if has_far(field@) {
        let i = choose|i: int| 0 <= i < field@.len() && is_far(#[trigger] field@[i]);
        assert(field@[i] == distance(grid, sources, cutoff, i));
        lemma_far_cell_is_open(grid, sources, cutoff, i);
    }
}

/// Turns every `Floor` cell whose value in `field` is greater than
/// `threshold` into a `Wall`.
pub fn prune_beyond(grid: &mut Grid, field: &DistanceField, threshold: u32)
    requires
        old(grid).wf(),
        field@.len() == old(grid)@.len(),
    ensures
        final(grid).wf(),
        final(grid).width() == old(grid).width(),
        final(grid).height() == old(grid).height(),
        forall|i: int|
            0 <= i < old(grid)@.len() ==> #[trigger] final(grid)@[i] == pruned_tile(
                old(grid)@[i],
                field@[i],
                threshold,
            ),
{
    let n = grid.len();
    let mut i: usize = 0;
    while i < n
        invariant
            i <= n,
            n == grid@.len(),
            grid.wf(),
            field@.len() == n,
            grid.width() == old(grid).width(),
            grid.height() == old(grid).height(),
            grid@.len() == old(grid)@.len(),
            forall|k: int|
                0 <= k < i ==> #[trigger] grid@[k] == pruned_tile(
                    old(grid)@[k],
                    field@[k],
                    threshold,
                ),
            forall|k: int| i <= k < n ==> #[trigger] grid@[k] == old(grid)@[k],
        decreases n - i,
    {
        if grid.tile_at(i) == TileType::Floor && field.get(i) > threshold {
            grid.set_tile_at(i, TileType::Wall);
        }
        i += 1;
    }
}

/// What pruning makes of a tile whose cell has the value `d`.
pub open spec fn pruned_tile(tile: TileType, d: u32, threshold: u32) -> TileType {
    if tile == TileType::Floor && d > threshold {
        TileType::Wall
    } else {
        tile
    }
}

} // verus!
