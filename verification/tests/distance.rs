use dungeon_crawl::distance::{prune_beyond, DistanceField, UNREACHABLE};
use dungeon_crawl::geometry::Point;
use dungeon_crawl::map::{Grid, TileType};

fn chebyshev(a: Point, b: Point) -> u32 {
    std::cmp::max((a.x - b.x).abs(), (a.y - b.y).abs()) as u32
}

/// A 5x5 grid with a ring of walls around the middle cell.
fn ringed() -> Grid {
    let mut grid = Grid::with_size(5, 5);
    for y in 1..4 {
        for x in 1..4 {
            if (x, y) != (2, 2) {
                grid.set_tile(Point::new(x, y), TileType::Wall);
            }
        }
    }
    grid
}

#[test]
fn open_grid_distances_count_diagonal_steps_as_one() {
    let grid = Grid::with_size(10, 10);
    let field = DistanceField::new(&grid, &vec![0], 1024);
    assert_eq!(field.len(), 100);
    assert_eq!(field.width(), 10);
    assert_eq!(field.height(), 10);
    let source = Point::new(0, 0);
    for idx in 0..100 {
        let p = grid.index_to_point2d(idx);
        assert_eq!(field.get(idx), chebyshev(source, p));
    }
    assert_eq!(field.distance_at(Point::new(9, 9)), 9);
    assert_eq!(field.distance_at(Point::new(9, 0)), 9);
    assert_eq!(field.distance_at(Point::new(3, 7)), 7);
}

#[test]
fn farthest_point_on_open_grid_is_the_first_of_the_farthest_cells() {
    // Steps lead to all eight neighbours, so the whole last column and the
    // whole last row lie nine steps from the corner. The first of them in
    // row-major order is the end of the first row; the opposite corner is
    // as far and comes last.
    let grid = Grid::with_size(10, 10);
    let field = DistanceField::new(&grid, &vec![0], 1024);
    let far = field.farthest_point(grid.center());
    assert_eq!(far, Point::new(9, 0));
    assert_eq!(field.distance_at(far), 9);
    assert_eq!(field.distance_at(Point::new(9, 9)), field.distance_at(far));
    let max = field.values().iter().filter(|d| **d < UNREACHABLE).max();
    assert_eq!(max, Some(&9));
}

#[test]
fn farthest_point_in_a_corridor() {
    let grid = Grid::with_size(10, 1);
    let field = DistanceField::new(&grid, &vec![0], 1024);
    assert_eq!(field.farthest_point(grid.center()), Point::new(9, 0));
    assert_eq!(field.distance_at(Point::new(9, 0)), 9);
}

#[test]
fn every_source_has_distance_zero() {
    let mut grid = Grid::with_size(6, 4);
    grid.set_tile(Point::new(5, 3), TileType::Wall);
    let sources = vec![0, 7, 23];
    let field = DistanceField::new(&grid, &sources, 1024);
    for s in &sources {
        assert_eq!(field.get(*s), 0);
    }
    // A source on a wall has distance 0 too.
    assert_eq!(grid.tile_at(23), TileType::Wall);
}

#[test]
fn nearest_source_counts() {
    let grid = Grid::with_size(9, 1);
    let field = DistanceField::new(&grid, &vec![0, 8], 1024);
    assert_eq!(field.values(), &vec![0, 1, 2, 3, 4, 3, 2, 1, 0]);
}

#[test]
fn sources_off_the_grid_are_passed_over() {
    let grid = Grid::with_size(3, 1);
    let field = DistanceField::new(&grid, &vec![99, 1], 1024);
    assert_eq!(field.values(), &vec![1, 0, 1]);
    let empty = DistanceField::new(&grid, &vec![99], 1024);
    assert_eq!(empty.values(), &vec![UNREACHABLE, UNREACHABLE, UNREACHABLE]);
}

#[test]
fn no_sources_leave_everything_unreachable() {
    let grid = Grid::with_size(4, 4);
    let field = DistanceField::new(&grid, &Vec::new(), 1024);
    assert!(field.values().iter().all(|d| *d == UNREACHABLE));
    assert_eq!(field.farthest_point(Point::new(2, 2)), Point::new(2, 2));
}

#[test]
fn walls_are_not_entered() {
    let mut grid = Grid::with_size(5, 1);
    grid.set_tile(Point::new(2, 0), TileType::Wall);
    let field = DistanceField::new(&grid, &vec![0], 1024);
    assert_eq!(field.values(), &vec![0, 1, UNREACHABLE, UNREACHABLE, UNREACHABLE]);
}

#[test]
fn paths_go_around_walls() {
    // . # .
    // . # .
    // . . .
    let mut grid = Grid::with_size(3, 3);
    grid.set_tile(Point::new(1, 0), TileType::Wall);
    grid.set_tile(Point::new(1, 1), TileType::Wall);
    let field = DistanceField::new(&grid, &vec![0], 1024);
    assert_eq!(
        field.values(),
        &vec![0, UNREACHABLE, 4, 1, UNREACHABLE, 3, 2, 2, 3]
    );
}

#[test]
fn exit_tiles_are_entered() {
    let mut grid = Grid::with_size(3, 1);
    grid.set_tile(Point::new(1, 0), TileType::Exit);
    let field = DistanceField::new(&grid, &vec![0], 1024);
    assert_eq!(field.values(), &vec![0, 1, 2]);
}

#[test]
fn enclosed_cell_is_unreachable() {
    let grid = ringed();
    let field = DistanceField::new(&grid, &vec![0], 1024);
    assert_eq!(field.distance_at(Point::new(2, 2)), UNREACHABLE);
    assert_eq!(field.distance_at(Point::new(4, 4)), 7);
    for cutoff in [0, 1, 5, 1024, u32::MAX] {
        let f = DistanceField::new(&grid, &vec![0], cutoff);
        assert_eq!(f.distance_at(Point::new(2, 2)), UNREACHABLE);
    }
}

#[test]
fn enclosed_cell_is_reached_from_a_source_on_its_wall() {
    // A wall that is itself a source lets a step onto the cell it encloses.
    let grid = ringed();
    let on_the_ring = grid.point2d_to_index(Point::new(1, 1));
    let field = DistanceField::new(&grid, &vec![on_the_ring], 1024);
    assert_eq!(field.distance_at(Point::new(1, 1)), 0);
    assert_eq!(field.distance_at(Point::new(2, 2)), 1);
}

#[test]
fn cutoff_bounds_the_recorded_distances() {
    let grid = Grid::with_size(6, 1);
    let field = DistanceField::new(&grid, &vec![0], 3);
    assert_eq!(field.values(), &vec![0, 1, 2, 3, UNREACHABLE, UNREACHABLE]);
    let none = DistanceField::new(&grid, &vec![0], 0);
    assert_eq!(
        none.values(),
        &vec![0, UNREACHABLE, UNREACHABLE, UNREACHABLE, UNREACHABLE, UNREACHABLE]
    );
}

#[test]
fn greater_cutoff_keeps_finite_distances() {
    let mut grid = Grid::with_size(8, 6);
    for y in 0..5 {
        grid.set_tile(Point::new(3, y), TileType::Wall);
    }
    let sources = vec![0];
    let mut last = DistanceField::new(&grid, &sources, 0);
    for cutoff in 1..20 {
        let next = DistanceField::new(&grid, &sources, cutoff);
        for idx in 0..grid.len() {
            if last.get(idx) != UNREACHABLE {
                assert_eq!(next.get(idx), last.get(idx));
            }
            if next.get(idx) != UNREACHABLE {
                assert!(next.get(idx) <= cutoff);
            }
        }
        last = next;
    }
}

#[test]
fn greatest_cutoff_is_accepted() {
    let grid = Grid::with_size(4, 1);
    let field = DistanceField::new(&grid, &vec![3], u32::MAX);
    assert_eq!(field.values(), &vec![3, 2, 1, 0]);
}

#[test]
fn sentinel_is_greater_than_any_distance() {
    assert_eq!(UNREACHABLE, u32::MAX);
    let grid = Grid::with_size(80, 50);
    let field = DistanceField::new(&grid, &vec![0], 1024);
    assert!(field.values().iter().all(|d| *d < UNREACHABLE));
    assert_eq!(field.distance_at(Point::new(79, 49)), 79);
}

#[test]
fn distance_off_the_grid_is_the_sentinel() {
    let grid = Grid::with_size(2, 2);
    let field = DistanceField::new(&grid, &vec![0], 1024);
    assert_eq!(field.distance_at(Point::new(2, 0)), UNREACHABLE);
    assert_eq!(field.distance_at(Point::new(0, -1)), UNREACHABLE);
}

#[test]
fn farthest_point_falls_back_when_only_sources_are_reached() {
    let mut grid = Grid::with_size(3, 3);
    grid.fill(TileType::Wall);
    grid.set_tile(Point::new(0, 0), TileType::Floor);
    let field = DistanceField::new(&grid, &vec![0], 1024);
    assert_eq!(field.farthest_point(Point::new(1, 1)), Point::new(1, 1));
}

#[test]
fn farthest_point_is_reachable_and_no_wall() {
    let mut grid = Grid::with_size(7, 5);
    for x in 0..6 {
        grid.set_tile(Point::new(x, 2), TileType::Wall);
    }
    let start = grid.point2d_to_index(Point::new(0, 0));
    let field = DistanceField::new(&grid, &vec![start], 1024);
    let far = field.farthest_point(grid.center());
    assert_eq!(far, Point::new(0, 3));
    assert_eq!(field.distance_at(far), 12);
    assert_eq!(field.distance_at(Point::new(0, 4)), 12);
    assert_eq!(field.distance_at(Point::new(6, 2)), 6);
    assert_ne!(grid.tile(far), Some(TileType::Wall));
}

#[test]
fn farthest_point_passes_over_unreachable_cells() {
    let mut grid = Grid::with_size(5, 1);
    grid.set_tile(Point::new(2, 0), TileType::Wall);
    let field = DistanceField::new(&grid, &vec![0], 1024);
    assert_eq!(field.farthest_point(Point::new(4, 0)), Point::new(1, 0));
}

#[test]
fn prune_turns_far_floor_into_wall() {
    let mut grid = Grid::with_size(6, 1);
    grid.set_tile(Point::new(5, 0), TileType::Exit);
    let field = DistanceField::new(&grid, &vec![0], 1024);
    prune_beyond(&mut grid, &field, 2);
    assert_eq!(
        grid.tiles(),
        &vec![
            TileType::Floor,
            TileType::Floor,
            TileType::Floor,
            TileType::Wall,
            TileType::Wall,
            TileType::Exit
        ]
    );
}

#[test]
fn prune_removes_what_cannot_be_reached() {
    let mut grid = Grid::with_size(5, 1);
    grid.set_tile(Point::new(2, 0), TileType::Wall);
    let field = DistanceField::new(&grid, &vec![0], 1024);
    prune_beyond(&mut grid, &field, 2000);
    assert_eq!(
        grid.tiles(),
        &vec![
            TileType::Floor,
            TileType::Floor,
            TileType::Wall,
            TileType::Wall,
            TileType::Wall
        ]
    );
}
