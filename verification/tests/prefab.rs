use bracket_lib::random::RandomNumberGenerator;
use dungeon_crawl::geometry::Point;
use dungeon_crawl::map::{Grid, TileType};
use dungeon_crawl::map_builder::{field_from, MapBuilder};
use dungeon_crawl::prefab::{
    apply_prefab, can_place, pattern_char, place_prefab, FORTRESS_CELLS, FORTRESS_HEIGHT,
    FORTRESS_WIDTH, MIN_SEPARATION, PLACEMENT_ATTEMPTS,
};
use dungeon_crawl::themes::{DungeonTheme, ForestTheme};

const FORTRESS: [&str; 11] = [
    "------------",
    "---######---",
    "---#----#---",
    "---#-M--#---",
    "-###----###-",
    "--M------M--",
    "-###----###-",
    "---#----#---",
    "---#----#---",
    "---######---",
    "------------",
];

fn builder_on(map: Grid, start: Point, goal: Point) -> MapBuilder {
    MapBuilder {
        map,
        rooms: Vec::new(),
        monster_spawns: Vec::new(),
        player_start: start,
        amulet_start: goal,
        theme: ForestTheme::new(),
    }
}

fn check_footprint(mb: &MapBuilder, origin: Point) {
    for (y, row) in FORTRESS.iter().enumerate() {
        for (x, c) in row.chars().enumerate() {
            let p = Point::new(origin.x + x as i32, origin.y + y as i32);
            let expected = if c == '#' { TileType::Wall } else { TileType::Floor };
            assert_eq!(mb.map.tile(p), Some(expected), "at {:?}", p);
        }
    }
}

fn inside(origin: Point, p: Point) -> bool {
    p.x >= origin.x && p.x < origin.x + 12 && p.y >= origin.y && p.y < origin.y + 11
}

#[test]
fn fortress_constants() {
    assert_eq!(FORTRESS_WIDTH, 12);
    assert_eq!(FORTRESS_HEIGHT, 11);
    assert_eq!(FORTRESS_CELLS, 132);
    assert_eq!(PLACEMENT_ATTEMPTS, 10);
    assert_eq!(MIN_SEPARATION, 20);
}

#[test]
fn pattern_is_the_fortress() {
    for (y, row) in FORTRESS.iter().enumerate() {
        for (x, c) in row.chars().enumerate() {
            assert_eq!(pattern_char(y * 12 + x), c);
        }
    }
    assert_eq!(pattern_char(0), '-');
    assert_eq!(pattern_char(15), '#');
    assert_eq!(pattern_char(41), 'M');
    assert_eq!(pattern_char(62), 'M');
    assert_eq!(pattern_char(69), 'M');
    assert_eq!(pattern_char(131), '-');
    let monsters = (0..132).filter(|k| pattern_char(*k) == 'M').count();
    assert_eq!(monsters, 3);
}

#[test]
fn placed_footprint_matches_the_pattern() {
    for fill in [TileType::Wall, TileType::Floor, TileType::Exit] {
        let mut grid = Grid::with_size(40, 30);
        grid.fill(fill);
        let mut mb = builder_on(grid, Point::new(0, 0), Point::new(39, 29));
        let origin = Point::new(5, 4);
        place_prefab(&mut mb, origin);
        check_footprint(&mb, origin);
        for idx in 0..mb.map.len() {
            let p = mb.map.index_to_point2d(idx);
            if !inside(origin, p) {
                assert_eq!(mb.map.tile_at(idx), fill);
            }
        }
        assert_eq!(mb.map.tile(Point::new(8, 5)), Some(TileType::Wall));
        assert_eq!(mb.map.tile(Point::new(10, 7)), Some(TileType::Floor));
        assert_eq!(mb.map.width(), 40);
        assert_eq!(mb.map.height(), 30);
    }
}

#[test]
fn placing_replaces_the_spawns_in_the_footprint() {
    let mut mb = builder_on(Grid::with_size(40, 30), Point::new(0, 0), Point::new(39, 29));
    mb.monster_spawns = vec![
        Point::new(6, 5),
        Point::new(0, 0),
        Point::new(6, 5),
        Point::new(10, 7),
        Point::new(17, 4),
        Point::new(16, 14),
        Point::new(5, 15),
        Point::new(4, 4),
    ];
    let origin = Point::new(5, 4);
    place_prefab(&mut mb, origin);
    assert_eq!(
        mb.monster_spawns,
        vec![
            Point::new(0, 0),
            Point::new(17, 4),
            Point::new(5, 15),
            Point::new(4, 4),
            Point::new(10, 7),
            Point::new(7, 9),
            Point::new(14, 9),
        ]
    );
    assert_eq!(mb.player_start, Point::new(0, 0));
    assert_eq!(mb.amulet_start, Point::new(39, 29));
    assert_eq!(mb.theme, ForestTheme::new());
    assert!(mb.rooms.is_empty());
}

#[test]
fn no_spawn_point_is_twice_in_the_footprint() {
    let mut mb = builder_on(Grid::with_size(30, 30), Point::new(0, 0), Point::new(29, 29));
    for y in 0..30 {
        for x in 0..30 {
            mb.monster_spawns.push(Point::new(x, y));
            mb.monster_spawns.push(Point::new(x, y));
        }
    }
    let origin = Point::new(9, 9);
    place_prefab(&mut mb, origin);
    let within: Vec<Point> =
        mb.monster_spawns.iter().copied().filter(|p| inside(origin, *p)).collect();
    assert_eq!(within, vec![Point::new(14, 12), Point::new(11, 14), Point::new(18, 14)]);
    assert_eq!(mb.monster_spawns.len(), 2 * (900 - 132) + 3);
    for p in &within {
        assert_eq!(mb.map.tile(*p), Some(TileType::Floor));
    }
}

#[test]
fn place_at_the_last_place_that_fits() {
    let mut mb = builder_on(Grid::with_size(13, 12), Point::new(0, 0), Point::new(12, 11));
    place_prefab(&mut mb, Point::new(0, 0));
    check_footprint(&mb, Point::new(0, 0));
}

#[test]
fn place_is_accepted_by_one_far_cell() {
    let grid = Grid::with_size(40, 1 + 11);
    let field = field_from(&grid, Point::new(0, 0));
    let goal = Point::new(39, 11);
    // The footprint reaches from column 10 to column 21: its last column
    // lies 21 steps from the start.
    assert!(can_place(&grid, &field, goal, Point::new(10, 0)));
    // From column 9 to column 20 no cell lies farther than 20 steps.
    assert!(!can_place(&grid, &field, goal, Point::new(9, 0)));
    assert!(!can_place(&grid, &field, goal, Point::new(0, 0)));
    assert!(can_place(&grid, &field, goal, Point::new(27, 0)));
}

#[test]
fn the_goal_does_not_qualify_a_place() {
    let mut grid = Grid::with_size(40, 12);
    grid.fill(TileType::Wall);
    for x in 0..22 {
        grid.set_tile(Point::new(x, 0), TileType::Floor);
    }
    let field = field_from(&grid, Point::new(0, 0));
    let origin = Point::new(10, 0);
    // The only cell of the footprint that lies farther than 20 steps.
    assert!(can_place(&grid, &field, Point::new(0, 5), origin));
    assert!(!can_place(&grid, &field, Point::new(21, 0), origin));
}

#[test]
fn unreachable_cells_do_not_qualify_a_place() {
    let mut grid = Grid::with_size(40, 12);
    grid.fill(TileType::Wall);
    grid.set_tile(Point::new(0, 0), TileType::Floor);
    let field = field_from(&grid, Point::new(0, 0));
    for x in 0..27 {
        assert!(!can_place(&grid, &field, Point::new(39, 11), Point::new(x, 0)));
    }
}

#[test]
fn decorator_leaves_small_maps_alone() {
    for (w, h) in [(12, 11), (12, 40), (40, 11), (1, 1), (5, 5)] {
        let mut rng = RandomNumberGenerator::seeded(1);
        let mut mb = builder_on(Grid::with_size(w, h), Point::new(0, 0), Point::new(0, 0));
        mb.monster_spawns.push(Point::new(0, 0));
        apply_prefab(&mut mb, &mut rng);
        assert!(mb.map.tiles().iter().all(|t| *t == TileType::Floor));
        assert_eq!(mb.monster_spawns, vec![Point::new(0, 0)]);
    }
}

#[test]
fn decorator_changes_nothing_where_no_place_is_accepted() {
    let mut rng = RandomNumberGenerator::seeded(1);
    let mut grid = Grid::with_size(80, 50);
    grid.fill(TileType::Wall);
    grid.set_tile(Point::new(3, 3), TileType::Floor);
    let mut mb = builder_on(grid, Point::new(3, 3), Point::new(40, 25));
    mb.monster_spawns = vec![Point::new(20, 20), Point::new(21, 20)];
    apply_prefab(&mut mb, &mut rng);
    assert_eq!(mb.map.floor_count(), 1);
    assert_eq!(mb.map.tile(Point::new(3, 3)), Some(TileType::Floor));
    assert_eq!(mb.monster_spawns, vec![Point::new(20, 20), Point::new(21, 20)]);
}

#[test]
fn decorator_places_the_fortress_on_an_open_map() {
    let mut placed = 0;
    for seed in 0..20 {
        let mut rng = RandomNumberGenerator::seeded(seed);
        let mut mb = builder_on(Grid::new(), Point::new(40, 25), Point::new(0, 0));
        mb.theme = DungeonTheme::new();
        mb.monster_spawns = (0..80).map(|x| Point::new(x, 10)).collect();
        let field = field_from(&mb.map, mb.player_start);
        apply_prefab(&mut mb, &mut rng);
        assert_eq!(mb.player_start, Point::new(40, 25));
        assert_eq!(mb.amulet_start, Point::new(0, 0));
        assert_eq!(mb.theme, DungeonTheme::new());
        if mb.map.floor_count() == 4000 {
            assert_eq!(mb.monster_spawns.len(), 80);
            continue;
        }
        placed += 1;
        let n = mb.monster_spawns.len();
        let first = mb.monster_spawns[n - 3];
        let origin = Point::new(first.x - 5, first.y - 3);
        assert!(origin.x >= 0 && origin.x < 80 - 12);
        assert!(origin.y >= 0 && origin.y < 50 - 11);
        assert!(can_place(&Grid::new(), &field, Point::new(0, 0), origin));
        check_footprint(&mb, origin);
        assert_eq!(mb.map.floor_count(), 4000 - 32);
        assert_eq!(mb.monster_spawns[n - 2], Point::new(origin.x + 2, origin.y + 5));
        assert_eq!(mb.monster_spawns[n - 1], Point::new(origin.x + 9, origin.y + 5));
        let within = mb.monster_spawns.iter().filter(|p| inside(origin, **p)).count();
        assert_eq!(within, 3);
        let kept: Vec<Point> =
            (0..80).map(|x| Point::new(x, 10)).filter(|p| !inside(origin, *p)).collect();
        assert_eq!(&mb.monster_spawns[..n - 3], &kept[..]);
    }
    assert!(placed > 0);
}

#[test]
fn decorator_is_the_same_for_the_same_seed() {
    let mut first = RandomNumberGenerator::seeded(606);
    let mut second = RandomNumberGenerator::seeded(606);
    let mut a = builder_on(Grid::new(), Point::new(1, 1), Point::new(70, 40));
    let mut b = builder_on(Grid::new(), Point::new(1, 1), Point::new(70, 40));
    apply_prefab(&mut a, &mut first);
    apply_prefab(&mut b, &mut second);
    assert_eq!(a.map.tiles(), b.map.tiles());
    assert_eq!(a.monster_spawns, b.monster_spawns);
}

/// An open map whose start lies behind a wall with one gap far away, so that
/// every cell left of the wall lies at least fifty steps from the start.
fn walled_off() -> MapBuilder {
    let mut grid = Grid::new();
    for y in 1..50 {
        grid.set_tile(Point::new(78, y), TileType::Wall);
    }
    builder_on(grid, Point::new(79, 49), Point::new(79, 0))
}

#[test]
fn every_place_is_accepted_behind_the_wall() {
    let mb = walled_off();
    let field = field_from(&mb.map, mb.player_start);
    assert_eq!(field.distance_at(Point::new(78, 0)), 49);
    assert_eq!(field.distance_at(Point::new(77, 0)), 50);
    for y in 0..(50 - 11) {
        for x in 0..(80 - 12) {
            assert!(can_place(&mb.map, &field, mb.amulet_start, Point::new(x, y)));
        }
    }
}

#[test]
fn decorator_places_whatever_is_drawn_where_every_place_is_accepted() {
    for seed in 0..40 {
        let mut rng = RandomNumberGenerator::seeded(seed);
        let mut mb = walled_off();
        apply_prefab(&mut mb, &mut rng);
        assert_eq!(mb.monster_spawns.len(), 3, "seed {}", seed);
        let first = mb.monster_spawns[0];
        let origin = Point::new(first.x - 5, first.y - 3);
        assert!(origin.x >= 0 && origin.x < 80 - 12);
        assert!(origin.y >= 0 && origin.y < 50 - 11);
        check_footprint(&mb, origin);
        assert_eq!(
            mb.monster_spawns,
            vec![
                Point::new(origin.x + 5, origin.y + 3),
                Point::new(origin.x + 2, origin.y + 5),
                Point::new(origin.x + 9, origin.y + 5),
            ]
        );
        assert_eq!(mb.player_start, Point::new(79, 49));
        assert_eq!(mb.amulet_start, Point::new(79, 0));
    }
}
