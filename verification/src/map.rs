//! The tile grid: a row-major array of tiles with its coordinate arithmetic.

use vstd::prelude::*;
use crate::geometry::Point;
use crate::{SCREEN_HEIGHT, SCREEN_WIDTH};

verus! {

/// What a cell of the grid holds.
#[derive(Clone, Copy, Debug, PartialEq, Eq, Structural)]
pub enum TileType {
    Wall,
    Floor,
    Exit,
}

/// Colours that the map is drawn in.
#[derive(Clone, Copy, Debug, PartialEq, Eq, Structural)]
pub enum Ink {
    Yellow,
    Green,
    White,
}

/// One cell as it is to be drawn: where, in which colour, and with which
/// character.
#[derive(Clone, Copy, Debug, PartialEq, Eq, Structural)]
pub struct TileDraw {
    pub x: i32,
    pub y: i32,
    pub ink: Ink,
    pub symbol: char,
}

/// The index of the cell (`x`, `y`) in a row-major grid `width` cells wide.
pub open spec fn cell_index(width: int, x: int, y: int) -> int {
    y * width + x
}

/// The column of the cell with index `idx`.
pub open spec fn cell_x(width: int, idx: int) -> int {
    idx % width
}

/// The row of the cell with index `idx`.
pub open spec fn cell_y(width: int, idx: int) -> int {
    idx / width
}

/// True when (`x`, `y`) lies on a grid of `width` by `height` cells.
pub open spec fn on_grid(width: int, height: int, x: int, y: int) -> bool {
    0 <= x < width && 0 <= y < height
}

/// True when a tile can be walked on.
pub open spec fn walkable(t: TileType) -> bool {
    t == TileType::Floor || t == TileType::Exit
}

/// The number of `Floor` tiles in `tiles`.
pub open spec fn count_floor(tiles: Seq<TileType>) -> nat
    decreases tiles.len(),
{
    if tiles.len() == 0 {
        0
    } else {
        count_floor(tiles.drop_last()) + if tiles.last() == TileType::Floor {
            1nat
        } else {
            0nat
        }
    }
}

/// How a tile is drawn.
pub open spec fn tile_ink(t: TileType) -> Ink {
    match t {
        TileType::Floor => Ink::Yellow,
        TileType::Wall => Ink::Green,
        TileType::Exit => Ink::White,
    }
}

/// The character that stands for a tile.
pub open spec fn tile_symbol(t: TileType) -> char {
    match t {
        TileType::Floor => '.',
        TileType::Wall => '#',
        TileType::Exit => '>',
    }
}

/// A cell index lies inside the grid.
pub proof fn lemma_index_in_range(width: int, height: int, x: int, y: int)
    requires
        on_grid(width, height, x, y),
    ensures
        0 <= cell_index(width, x, y) < width * height,
        y * width <= cell_index(width, x, y),
{
    assert(0 <= y * width && y * width + width <= width * height) by (nonlinear_arith)
        requires
            0 <= y < height,
            0 < width,
    ;
}

/// Column and row of a cell index are the coordinates it was made from.
pub proof fn lemma_index_to_point(width: int, height: int, x: int, y: int)
    requires
        on_grid(width, height, x, y),
    ensures
        cell_x(width, cell_index(width, x, y)) == x,
        cell_y(width, cell_index(width, x, y)) == y,
{
    vstd::arithmetic::div_mod::lemma_fundamental_div_mod_converse(y * width + x, width, y, x);
}

/// Column and row of an index inside the grid lie on the grid, and give the
/// index back.
pub proof fn lemma_point_to_index(width: int, height: int, idx: int)
    requires
        0 < width,
        0 <= idx < width * height,
    ensures
        on_grid(width, height, cell_x(width, idx), cell_y(width, idx)),
        cell_index(width, cell_x(width, idx), cell_y(width, idx)) == idx,
{
    vstd::arithmetic::div_mod::lemma_fundamental_div_mod(idx, width);
    vstd::arithmetic::div_mod::lemma_mod_pos_bound(idx, width);
    let q = idx / width;
    assert(width * q == q * width) by (nonlinear_arith);
    assert(0 <= q < height) by (nonlinear_arith)
        requires
            0 < width,
            0 <= idx < width * height,
            idx == q * width + idx % width,
            0 <= idx % width < width,
    ;
}

/// The grid: `width * height` tiles in row-major order.
pub struct Grid {
    tiles: Vec<TileType>,
    width: i32,
    height: i32,
}

impl View for Grid {
    type V = Seq<TileType>;

    closed spec fn view(&self) -> Seq<TileType> {
        self.tiles@
    }
}

impl Grid {
    pub closed spec fn spec_width(&self) -> i32 {
        self.width
    }

    pub closed spec fn spec_height(&self) -> i32 {
        self.height
    }

    /// The grid has at least one cell, its cell count is below `i32::MAX`, and
    /// it holds one tile for each cell.
    pub open spec fn wf(&self) -> bool {
        &&& 0 < self.width()
        &&& 0 < self.height()
        &&& self.width() * self.height() < i32::MAX
        &&& self@.len() == self.width() * self.height()
    }

    /// True when `p` lies on the grid.
    pub open spec fn has(&self, p: Point) -> bool {
        on_grid(self.width() as int, self.height() as int, p.x as int, p.y as int)
    }

    /// The index of the cell at `p`.
    pub open spec fn index_of(&self, p: Point) -> int {
        cell_index(self.width() as int, p.x as int, p.y as int)
    }

    /// The cell with index `idx`.
    pub open spec fn point_of(&self, idx: int) -> Point {
        Point {
            x: cell_x(self.width() as int, idx) as i32,
            y: cell_y(self.width() as int, idx) as i32,
        }
    }

    /// The tile at `p`, for `p` on the grid.
    pub open spec fn tile_of(&self, p: Point) -> TileType {
        self@[self.index_of(p)]
    }

    /// What is drawn for the cell with index `idx`.
    pub open spec fn draw_of(&self, idx: int) -> TileDraw {
        TileDraw {
            x: self.point_of(idx).x,
            y: self.point_of(idx).y,
            ink: tile_ink(self@[idx]),
            symbol: tile_symbol(self@[idx]),
        }
    }

    /// The point in the middle of the grid.
    pub open spec fn center_of(&self) -> Point {
        Point { x: (self.width() / 2) as i32, y: (self.height() / 2) as i32 }
    }

    /// A grid of the standard size, every tile `Floor`.
    pub fn new() -> (grid: Grid)
        ensures
            grid.wf(),
            grid.width() == SCREEN_WIDTH,
            grid.height() == SCREEN_HEIGHT,
            forall|i: int| 0 <= i < grid@.len() ==> grid@[i] == TileType::Floor,
    {
        Grid::with_size(SCREEN_WIDTH, SCREEN_HEIGHT)
    }

    /// A grid of `width` by `height` cells, every tile `Floor`.
    pub fn with_size(width: i32, height: i32) -> (grid: Grid)
        requires
            0 < width,
            0 < height,
            width * height < i32::MAX,
        ensures
            grid.wf(),
            grid.width() == width,
            grid.height() == height,
            forall|i: int| 0 <= i < grid@.len() ==> grid@[i] == TileType::Floor,
    {
        assert(0 < width * height) by (nonlinear_arith)
            requires
                0 < width,
                0 < height,
        ;
        let n: usize = (width * height) as usize;
        let mut tiles: Vec<TileType> = Vec::new();
        let mut i: usize = 0;
        while i < n
            invariant
                i <= n,
                tiles@.len() == i,
                forall|k: int| 0 <= k < i ==> tiles@[k] == TileType::Floor,
            decreases n - i,
        {
            tiles.push(TileType::Floor);
            i += 1;
        }
        Grid { tiles, width, height }
    }

    #[verifier::when_used_as_spec(spec_width)]
    pub fn width(&self) -> (w: i32)
        ensures
            w == self.width(),
    {
        self.width
    }

    #[verifier::when_used_as_spec(spec_height)]
    pub fn height(&self) -> (h: i32)
        ensures
            h == self.height(),
    {
        self.height
    }

    /// The number of cells.
    pub fn len(&self) -> (n: usize)
        requires
            self.wf(),
        ensures
            n == self@.len(),
            n == self.width() * self.height(),
    {
        self.tiles.len()
    }

    /// The tiles in row-major order.
    pub fn tiles(&self) -> (tiles: &Vec<TileType>)
        ensures
            tiles@ == self@,
    {
        &self.tiles
    }

    /// The point in the middle of the grid.
    pub fn center(&self) -> (c: Point)
        requires
            self.wf(),
        ensures
            c == self.center_of(),
            self.has(c),
    {
        Point { x: self.width / 2, y: self.height / 2 }
    }

    pub fn in_bounds(&self, p: Point) -> (inside: bool)
        ensures
            inside == self.has(p),
    {
        p.x >= 0 && p.x < self.width && p.y >= 0 && p.y < self.height
    }

    /// The index of the cell at `p`.
    pub fn point2d_to_index(&self, p: Point) -> (idx: usize)
        requires
            self.wf(),
            self.has(p),
        ensures
            idx == self.index_of(p),
            idx < self@.len(),
            self.point_of(idx as int) == p,
    {
        proof {
            lemma_index_in_range(self.width() as int, self.height() as int, p.x as int, p.y as int);
            lemma_index_to_point(self.width() as int, self.height() as int, p.x as int, p.y as int);
        }
        (p.y * self.width + p.x) as usize
    }

    /// The cell with index `idx`.
    pub fn index_to_point2d(&self, idx: usize) -> (p: Point)
        requires
            self.wf(),
            idx < self@.len(),
        ensures
            p == self.point_of(idx as int),
            self.has(p),
            self.index_of(p) == idx,
    {
        proof {
            lemma_point_to_index(self.width() as int, self.height() as int, idx as int);
        }
        let w: usize = self.width as usize;
        Point { x: (idx % w) as i32, y: (idx / w) as i32 }
    }

    /// The index of the cell at `p`, if `p` lies on the grid.
    pub fn try_idx(&self, p: Point) -> (idx: Option<usize>)
        requires
            self.wf(),
        ensures
            idx is Some <==> self.has(p),
            idx is Some ==> idx.unwrap() == self.index_of(p) && idx.unwrap() < self@.len(),
    {
        if self.in_bounds(p) {
            Some(self.point2d_to_index(p))
        } else {
            None
        }
    }

    /// The tile of the cell with index `idx`.
    pub fn tile_at(&self, idx: usize) -> (t: TileType)
        requires
            idx < self@.len(),
        ensures
            t == self@[idx as int],
    {
        self.tiles[idx]
    }

    /// The tile at `p`, if `p` lies on the grid.
    pub fn tile(&self, p: Point) -> (t: Option<TileType>)
        requires
            self.wf(),
        ensures
            t == if self.has(p) {
                Some(self.tile_of(p))
            } else {
                None
            },
    {
        if self.in_bounds(p) {
            let idx = self.point2d_to_index(p);
            Some(self.tiles[idx])
        } else {
            None
        }
    }

    /// A tile can be entered when it lies on the grid and is `Floor` or `Exit`.
    pub fn can_enter_tile(&self, p: Point) -> (enter: bool)
        requires
            self.wf(),
        ensures
            enter == (self.has(p) && walkable(self.tile_of(p))),
    {
        if self.in_bounds(p) {
            let idx = self.point2d_to_index(p);
            let t = self.tiles[idx];
            t == TileType::Floor || t == TileType::Exit
        } else {
            false
        }
    }

    /// Writes `tile` into the cell with index `idx`.
    pub fn set_tile_at(&mut self, idx: usize, tile: TileType)
        requires
            old(self).wf(),
            idx < old(self)@.len(),
        ensures
            final(self).wf(),
            final(self).width() == old(self).width(),
            final(self).height() == old(self).height(),
            final(self)@ == old(self)@.update(idx as int, tile),
    {
        self.tiles.set(idx, tile);
    }

    /// Writes `tile` into the cell at `p`. A point off the grid changes
    /// nothing and gives `false`.
    pub fn set_tile(&mut self, p: Point, tile: TileType) -> (done: bool)
        requires
            old(self).wf(),
        ensures
            final(self).wf(),
            final(self).width() == old(self).width(),
            final(self).height() == old(self).height(),
            done == old(self).has(p),
            done ==> final(self)@ == old(self)@.update(old(self).index_of(p), tile),
            !done ==> final(self)@ == old(self)@,
    {
        if self.in_bounds(p) {
            let idx = self.point2d_to_index(p);
            self.tiles.set(idx, tile);
            true
        } else {
            false
        }
    }

    /// Replaces all tiles by `tiles`, which holds one tile for each cell.
    pub fn set_tiles(&mut self, tiles: Vec<TileType>)
        requires
            old(self).wf(),
            tiles@.len() == old(self)@.len(),
        ensures
            final(self).wf(),
            final(self).width() == old(self).width(),
            final(self).height() == old(self).height(),
            final(self)@ == tiles@,
    {
        self.tiles = tiles;
    }

    /// Sets every cell to `tile`.
    pub fn fill(&mut self, tile: TileType)
        requires
            old(self).wf(),
        ensures
            final(self).wf(),
            final(self).width() == old(self).width(),
            final(self).height() == old(self).height(),
            forall|i: int| 0 <= i < final(self)@.len() ==> final(self)@[i] == tile,
    {
        let n = self.tiles.len();
        let mut i: usize = 0;
        while i < n
            invariant
                i <= n,
                n == self.tiles@.len(),
                self.wf(),
                self.width() == old(self).width(),
                self.height() == old(self).height(),
                forall|k: int| 0 <= k < i ==> self.tiles@[k] == tile,
            decreases n - i,
        {
            self.tiles.set(i, tile);
            i += 1;
        }
    }

    /// The number of `Floor` tiles.
    pub fn floor_count(&self) -> (n: usize)
        ensures
            n == count_floor(self@),
    {
        let len = self.tiles.len();
        let mut n: usize = 0;
        let mut i: usize = 0;
        while i < len
            invariant
                i <= len,
                len == self.tiles@.len(),
                n <= i,
                n == count_floor(self.tiles@.take(i as int)),
            decreases len - i,
        {
            assert(self.tiles@.take(i + 1).drop_last() =~= self.tiles@.take(i as int));
            if self.tiles[i] == TileType::Floor {
                n += 1;
            }
            i += 1;
        }
        assert(self.tiles@.take(len as int) =~= self.tiles@);
        n
    }

    /// What is to be drawn for each cell, in row-major order.
    pub fn render(&self) -> (draws: Vec<TileDraw>)
        requires
            self.wf(),
        ensures
            draws@.len() == self@.len(),
            forall|i: int| 0 <= i < draws@.len() ==> draws@[i] == self.draw_of(i),
    {
        let n = self.tiles.len();
        let mut draws: Vec<TileDraw> = Vec::new();
        let mut i: usize = 0;
        while i < n
            invariant
                i <= n,
                n == self@.len(),
                self.wf(),
                draws@.len() == i,
                forall|k: int| 0 <= k < i ==> draws@[k] == self.draw_of(k),
            decreases n - i,
        {
            let p = self.index_to_point2d(i);
            let draw = match self.tiles[i] {
                TileType::Floor => TileDraw { x: p.x, y: p.y, ink: Ink::Yellow, symbol: '.' },
                TileType::Wall => TileDraw { x: p.x, y: p.y, ink: Ink::Green, symbol: '#' },
                TileType::Exit => TileDraw { x: p.x, y: p.y, ink: Ink::White, symbol: '>' },
            };
            draws.push(draw);
            i += 1;
        }
        draws
    }
}

/// The index of the cell (`x`, `y`) on a map of the standard size.
pub fn map_idx(x: i32, y: i32) -> (idx: usize)
    requires
        on_grid(SCREEN_WIDTH as int, SCREEN_HEIGHT as int, x as int, y as int),
    ensures
        idx == cell_index(SCREEN_WIDTH as int, x as int, y as int),
        idx < SCREEN_WIDTH * SCREEN_HEIGHT,
{
    ((y * SCREEN_WIDTH) + x) as usize
}

/// Converting an index to a point and back gives the index, and converting a
/// point on the grid to an index and back gives the point.
pub proof fn lemma_index_round_trip(grid: Grid, idx: int, p: Point)
    requires
        grid.wf(),
    ensures
        0 <= idx < grid@.len() ==> grid.has(grid.point_of(idx)) && grid.index_of(grid.point_of(idx))
            == idx,
        grid.has(p) ==> 0 <= grid.index_of(p) < grid@.len() && grid.point_of(grid.index_of(p)) == p,
{
    if 0 <= idx < grid@.len() {
        lemma_point_to_index(grid.width() as int, grid.height() as int, idx);
    }
    if grid.has(p) {
        lemma_index_in_range(grid.width() as int, grid.height() as int, p.x as int, p.y as int);
        lemma_index_to_point(grid.width() as int, grid.height() as int, p.x as int, p.y as int);
    }
}

} // verus!
