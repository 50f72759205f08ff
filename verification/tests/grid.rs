use dungeon_crawl::geometry::{Point, Rect};
use dungeon_crawl::map::{map_idx, Grid, Ink, TileType};
use dungeon_crawl::{DISPLAY_HEIGHT, DISPLAY_WIDTH, SCREEN_HEIGHT, SCREEN_WIDTH};

#[test]
fn new_grid_has_the_standard_size_and_is_all_floor() {
    let grid = Grid::new();
    assert_eq!(grid.width(), 80);
    assert_eq!(grid.height(), 50);
    assert_eq!(grid.len(), 4000);
    assert_eq!(grid.tiles().len(), 4000);
    assert!(grid.tiles().iter().all(|t| *t == TileType::Floor));
    assert_eq!(grid.floor_count(), 4000);
}

#[test]
fn screen_constants() {
    assert_eq!(SCREEN_WIDTH, 80);
    assert_eq!(SCREEN_HEIGHT, 50);
    assert_eq!(DISPLAY_WIDTH, 40);
    assert_eq!(DISPLAY_HEIGHT, 25);
}

#[test]
fn tile_count_is_width_times_height() {
    for (w, h) in [(1, 1), (3, 7), (10, 10), (80, 50)] {
        let grid = Grid::with_size(w, h);
        assert_eq!(grid.tiles().len() as i32, w * h);
        assert_eq!(grid.len() as i32, w * h);
    }
}

#[test]
fn every_index_round_trips() {
    let grid = Grid::with_size(7, 5);
    for idx in 0..grid.len() {
        let p = grid.index_to_point2d(idx);
        assert!(grid.in_bounds(p));
        assert_eq!(grid.point2d_to_index(p), idx);
    }
    for y in 0..5 {
        for x in 0..7 {
            let p = Point::new(x, y);
            let idx = grid.point2d_to_index(p);
            assert!(idx < grid.len());
            assert_eq!(grid.index_to_point2d(idx), p);
        }
    }
}

#[test]
fn index_is_row_major() {
    let grid = Grid::with_size(7, 5);
    assert_eq!(grid.point2d_to_index(Point::new(0, 0)), 0);
    assert_eq!(grid.point2d_to_index(Point::new(6, 0)), 6);
    assert_eq!(grid.point2d_to_index(Point::new(0, 1)), 7);
    assert_eq!(grid.point2d_to_index(Point::new(3, 2)), 17);
    assert_eq!(grid.point2d_to_index(Point::new(6, 4)), 34);
    assert_eq!(grid.index_to_point2d(17), Point::new(3, 2));
}

#[test]
fn map_idx_on_the_standard_grid() {
    assert_eq!(map_idx(0, 0), 0);
    assert_eq!(map_idx(79, 0), 79);
    assert_eq!(map_idx(0, 1), 80);
    assert_eq!(map_idx(5, 3), 245);
    assert_eq!(map_idx(79, 49), 3999);
}

#[test]
fn in_bounds_at_the_edges() {
    let grid = Grid::with_size(4, 3);
    assert!(grid.in_bounds(Point::new(0, 0)));
    assert!(grid.in_bounds(Point::new(3, 2)));
    assert!(!grid.in_bounds(Point::new(4, 2)));
    assert!(!grid.in_bounds(Point::new(3, 3)));
    assert!(!grid.in_bounds(Point::new(-1, 0)));
    assert!(!grid.in_bounds(Point::new(0, -1)));
}

#[test]
fn try_idx_is_some_on_the_grid_only() {
    let grid = Grid::with_size(4, 3);
    assert_eq!(grid.try_idx(Point::new(1, 2)), Some(9));
    assert_eq!(grid.try_idx(Point::new(4, 0)), None);
    assert_eq!(grid.try_idx(Point::new(0, -1)), None);
}

#[test]
fn can_enter_floor_and_exit_but_not_wall_or_outside() {
    let mut grid = Grid::with_size(3, 1);
    assert!(grid.set_tile(Point::new(0, 0), TileType::Wall));
    assert!(grid.set_tile(Point::new(1, 0), TileType::Floor));
    assert!(grid.set_tile(Point::new(2, 0), TileType::Exit));
    assert!(!grid.can_enter_tile(Point::new(0, 0)));
    assert!(grid.can_enter_tile(Point::new(1, 0)));
    assert!(grid.can_enter_tile(Point::new(2, 0)));
    assert!(!grid.can_enter_tile(Point::new(3, 0)));
    assert!(!grid.can_enter_tile(Point::new(-1, 0)));
    assert!(!grid.can_enter_tile(Point::new(1, 1)));
}

#[test]
fn can_enter_agrees_with_bounds_and_tile_everywhere() {
    let mut grid = Grid::with_size(5, 4);
    grid.set_tile(Point::new(2, 1), TileType::Wall);
    grid.set_tile(Point::new(4, 3), TileType::Exit);
    for y in -2..6 {
        for x in -2..7 {
            let p = Point::new(x, y);
            let expected = grid.in_bounds(p)
                && matches!(grid.tile(p), Some(TileType::Floor) | Some(TileType::Exit));
            assert_eq!(grid.can_enter_tile(p), expected);
        }
    }
}

#[test]
fn set_tile_off_the_grid_changes_nothing() {
    let mut grid = Grid::with_size(2, 2);
    assert!(!grid.set_tile(Point::new(2, 0), TileType::Wall));
    assert!(grid.tiles().iter().all(|t| *t == TileType::Floor));
}

#[test]
fn set_tile_changes_one_cell() {
    let mut grid = Grid::with_size(3, 2);
    grid.set_tile(Point::new(1, 1), TileType::Wall);
    let expected = vec![
        TileType::Floor,
        TileType::Floor,
        TileType::Floor,
        TileType::Floor,
        TileType::Wall,
        TileType::Floor,
    ];
    assert_eq!(grid.tiles(), &expected);
    assert_eq!(grid.tile_at(4), TileType::Wall);
    assert_eq!(grid.tile(Point::new(1, 1)), Some(TileType::Wall));
    assert_eq!(grid.tile(Point::new(3, 1)), None);
}

#[test]
fn set_tiles_replaces_all() {
    let mut grid = Grid::with_size(2, 1);
    grid.set_tiles(vec![TileType::Exit, TileType::Wall]);
    assert_eq!(grid.tiles(), &vec![TileType::Exit, TileType::Wall]);
    assert_eq!(grid.width(), 2);
    assert_eq!(grid.height(), 1);
}

#[test]
fn fill_sets_every_cell() {
    let mut grid = Grid::with_size(6, 4);
    grid.fill(TileType::Wall);
    assert!(grid.tiles().iter().all(|t| *t == TileType::Wall));
    assert_eq!(grid.floor_count(), 0);
    grid.fill(TileType::Exit);
    assert!(grid.tiles().iter().all(|t| *t == TileType::Exit));
    assert_eq!(grid.len(), 24);
}

#[test]
fn floor_count_counts_floor_only() {
    let mut grid = Grid::with_size(3, 1);
    grid.set_tile(Point::new(0, 0), TileType::Wall);
    grid.set_tile(Point::new(1, 0), TileType::Exit);
    assert_eq!(grid.floor_count(), 1);
}

#[test]
fn center_is_half_of_each_side() {
    assert_eq!(Grid::new().center(), Point::new(40, 25));
    assert_eq!(Grid::with_size(1, 1).center(), Point::new(0, 0));
    assert_eq!(Grid::with_size(5, 4).center(), Point::new(2, 2));
}

#[test]
fn render_draws_each_cell_in_row_major_order() {
    let mut grid = Grid::with_size(2, 2);
    grid.set_tile(Point::new(1, 0), TileType::Wall);
    grid.set_tile(Point::new(0, 1), TileType::Exit);
    let draws = grid.render();
    assert_eq!(draws.len(), 4);
    assert_eq!((draws[0].x, draws[0].y, draws[0].ink, draws[0].symbol), (0, 0, Ink::Yellow, '.'));
    assert_eq!((draws[1].x, draws[1].y, draws[1].ink, draws[1].symbol), (1, 0, Ink::Green, '#'));
    assert_eq!((draws[2].x, draws[2].y, draws[2].ink, draws[2].symbol), (0, 1, Ink::White, '>'));
    assert_eq!((draws[3].x, draws[3].y, draws[3].ink, draws[3].symbol), (1, 1, Ink::Yellow, '.'));
}

#[test]
fn point_constructors() {
    assert_eq!(Point::new(3, -4), Point { x: 3, y: -4 });
    assert_eq!(Point::zero(), Point { x: 0, y: 0 });
}

#[test]
fn rect_with_size_covers_half_open_ranges() {
    let r = Rect::with_size(2, 3, 4, 5);
    assert_eq!((r.x1, r.y1, r.x2, r.y2), (2, 3, 6, 8));
    assert!(r.point_in_rect(Point::new(2, 3)));
    assert!(r.point_in_rect(Point::new(5, 7)));
    assert!(!r.point_in_rect(Point::new(6, 7)));
    assert!(!r.point_in_rect(Point::new(5, 8)));
    assert!(!r.point_in_rect(Point::new(1, 3)));
}
