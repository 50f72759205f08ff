use bracket_lib::random::RandomNumberGenerator;
use dungeon_crawl::components::{ActivateItem, Health, WantsToAttack, WantsToMove};
use dungeon_crawl::geometry::Point;
use dungeon_crawl::map::{Grid, TileType};
use dungeon_crawl::systems::collisions::collisions;
use dungeon_crawl::systems::hud::hud;
use dungeon_crawl::systems::movement::{movement, MoveOutcome, Mover};
use dungeon_crawl::systems::player_input::{
    key_delta, key_slot, player_input, use_item, CarriedItem, GroundItem, Key, Scene,
};
use dungeon_crawl::systems::random_move::{random_move, random_step, Body, Intent};
use dungeon_crawl::systems::tooltips::{tooltips, Named};
use dungeon_crawl::systems::use_items::{heal, use_items, Activation};

#[test]
fn monsters_on_the_player_are_removed() {
    let players = vec![Point::new(2, 2), Point::new(9, 9)];
    let enemies = vec![
        (10, Point::new(2, 2)),
        (11, Point::new(2, 3)),
        (12, Point::new(9, 9)),
        (13, Point::new(2, 2)),
    ];
    assert_eq!(collisions(&players, &enemies), vec![10, 13]);
    assert_eq!(collisions(&players, &Vec::new()), Vec::<u64>::new());
}

#[test]
fn without_a_player_the_origin_counts() {
    let enemies = vec![(1, Point::new(0, 0)), (2, Point::new(1, 0))];
    assert_eq!(collisions(&Vec::new(), &enemies), vec![1]);
}

#[test]
fn move_onto_floor_is_granted() {
    let mut map = Grid::with_size(3, 3);
    map.set_tile(Point::new(2, 2), TileType::Exit);
    let want = WantsToMove { entity: 5, destination: Point::new(1, 1) };
    let player = Mover { has_field_of_view: true, is_player: true };
    assert_eq!(
        movement(&want, &map, Some(player)),
        MoveOutcome {
            position: Some(Point::new(1, 1)),
            refresh_view: true,
            camera: Some(Point::new(1, 1))
        }
    );
    let monster = Mover { has_field_of_view: true, is_player: false };
    assert_eq!(
        movement(&want, &map, Some(monster)),
        MoveOutcome { position: Some(Point::new(1, 1)), refresh_view: true, camera: None }
    );
    let blind = Mover { has_field_of_view: false, is_player: false };
    assert_eq!(
        movement(&want, &map, Some(blind)),
        MoveOutcome { position: Some(Point::new(1, 1)), refresh_view: false, camera: None }
    );
    assert_eq!(
        movement(&want, &map, None),
        MoveOutcome { position: Some(Point::new(1, 1)), refresh_view: false, camera: None }
    );
    let to_exit = WantsToMove { entity: 5, destination: Point::new(2, 2) };
    assert_eq!(movement(&to_exit, &map, None).position, Some(Point::new(2, 2)));
}

#[test]
fn move_into_wall_or_off_the_map_is_refused() {
    let mut map = Grid::with_size(3, 3);
    map.set_tile(Point::new(1, 1), TileType::Wall);
    let player = Mover { has_field_of_view: true, is_player: true };
    let refused = MoveOutcome { position: None, refresh_view: false, camera: None };
    let wall = WantsToMove { entity: 5, destination: Point::new(1, 1) };
    assert_eq!(movement(&wall, &map, Some(player)), refused);
    let off = WantsToMove { entity: 5, destination: Point::new(3, 0) };
    assert_eq!(movement(&off, &map, Some(player)), refused);
    let negative = WantsToMove { entity: 5, destination: Point::new(0, -1) };
    assert_eq!(movement(&negative, &map, None), refused);
}

#[test]
fn random_step_moves_where_nobody_stands() {
    let bodies = vec![Body { entity: 1, pos: Point::new(9, 9), is_player: true }];
    let at = Point::new(5, 5);
    let to = |p: Point| vec![Intent::Move(WantsToMove { entity: 7, destination: p })];
    assert_eq!(random_step(7, at, 0, &bodies), to(Point::new(4, 5)));
    assert_eq!(random_step(7, at, 1, &bodies), to(Point::new(6, 5)));
    assert_eq!(random_step(7, at, 2, &bodies), to(Point::new(5, 4)));
    assert_eq!(random_step(7, at, 3, &bodies), to(Point::new(5, 6)));
}

#[test]
fn random_step_attacks_the_player_in_the_way() {
    let bodies = vec![
        Body { entity: 1, pos: Point::new(6, 5), is_player: true },
        Body { entity: 2, pos: Point::new(6, 5), is_player: false },
        Body { entity: 3, pos: Point::new(6, 5), is_player: true },
    ];
    assert_eq!(
        random_step(7, Point::new(5, 5), 1, &bodies),
        vec![
            Intent::Attack(WantsToAttack { attacker: 7, victim: 1 }),
            Intent::Attack(WantsToAttack { attacker: 7, victim: 3 }),
        ]
    );
}

#[test]
fn random_step_stays_where_a_monster_is_in_the_way() {
    let bodies = vec![Body { entity: 2, pos: Point::new(5, 4), is_player: false }];
    assert_eq!(random_step(7, Point::new(5, 5), 2, &bodies), Vec::<Intent>::new());
}

#[test]
fn random_move_gives_each_monster_one_step() {
    let movers = vec![(1, Point::new(5, 5)), (2, Point::new(20, 20)), (3, Point::new(0, 0))];
    let mut rng = RandomNumberGenerator::seeded(21);
    let intents = random_move(&mut rng, &movers, &Vec::new());
    assert_eq!(intents.len(), 3);
    for (intent, (entity, pos)) in intents.iter().zip(movers.iter()) {
        match intent {
            Intent::Move(want) => {
                assert_eq!(want.entity, *entity);
                let dx = (want.destination.x - pos.x).abs();
                let dy = (want.destination.y - pos.y).abs();
                assert_eq!(dx + dy, 1);
            }
            Intent::Attack(_) => panic!("nobody to attack"),
        }
    }
}

#[test]
fn random_move_rolls_all_four_directions() {
    let movers: Vec<(u64, Point)> = (0..200).map(|i| (i, Point::new(0, 0))).collect();
    let mut rng = RandomNumberGenerator::seeded(22);
    let intents = random_move(&mut rng, &movers, &Vec::new());
    let mut seen = std::collections::HashSet::new();
    for intent in &intents {
        if let Intent::Move(want) = intent {
            seen.insert((want.destination.x, want.destination.y));
        }
    }
    assert_eq!(seen.len(), 4);
}

#[test]
fn random_move_surrounded_by_players_attacks() {
    let bodies = vec![
        Body { entity: 1, pos: Point::new(4, 5), is_player: true },
        Body { entity: 1, pos: Point::new(6, 5), is_player: true },
        Body { entity: 1, pos: Point::new(5, 4), is_player: true },
        Body { entity: 1, pos: Point::new(5, 6), is_player: true },
    ];
    let mut rng = RandomNumberGenerator::seeded(23);
    let intents = random_move(&mut rng, &vec![(9, Point::new(5, 5))], &bodies);
    assert_eq!(intents, vec![Intent::Attack(WantsToAttack { attacker: 9, victim: 1 })]);
}

#[test]
fn tooltips_name_what_lies_under_the_mouse() {
    let named = vec![
        Named { pos: Point::new(12, 7), name: "Orc".to_string(), health: Some(5) },
        Named { pos: Point::new(12, 8), name: "Ogre".to_string(), health: Some(9) },
        Named { pos: Point::new(12, 7), name: "Amulet of Yendor".to_string(), health: None },
    ];
    let tips = tooltips(&Point::new(2, 3), 10, 4, &named);
    assert_eq!(tips.len(), 2);
    assert_eq!(tips[0].at, Point::new(8, 12));
    assert_eq!(tips[0].text, "Orc (5 HP)");
    assert_eq!(tips[1].at, Point::new(8, 12));
    assert_eq!(tips[1].text, "Amulet of Yendor");
    assert!(tooltips(&Point::new(0, 0), 0, 0, &named).is_empty());
}

#[test]
fn tooltip_shows_negative_hit_points() {
    let named = vec![Named { pos: Point::new(0, 0), name: "Ghost".to_string(), health: Some(-3) }];
    let tips = tooltips(&Point::new(0, 0), 0, 0, &named);
    assert_eq!(tips[0].text, "Ghost (-3 HP)");
}

#[test]
fn hud_shows_the_health() {
    let shown = hud(&Health { current: 7, max: 10 });
    assert_eq!(shown.line, "Health: 7 / 10");
    assert_eq!(shown.hint, "Explore the Dungeon. Cursor keys to move.");
    assert_eq!(shown.bar_width, 160);
    assert_eq!(shown.bar_current, 7);
    assert_eq!(shown.bar_max, 10);
}

#[test]
fn healing_stops_at_the_maximum() {
    assert_eq!(heal(Health { current: 3, max: 10 }, 4), Health { current: 7, max: 10 });
    assert_eq!(heal(Health { current: 3, max: 10 }, 7), Health { current: 10, max: 10 });
    assert_eq!(heal(Health { current: 3, max: 10 }, 100), Health { current: 10, max: 10 });
    assert_eq!(heal(Health { current: 3, max: 10 }, -5), Health { current: -2, max: 10 });
    assert_eq!(heal(Health { current: 12, max: 10 }, 1), Health { current: 10, max: 10 });
}

fn used(message: u64, by: u64, item: u64) -> Activation {
    Activation {
        message,
        activate: ActivateItem { used_by: by, item },
        item_exists: true,
        healing: None,
        reveals_map: false,
    }
}

#[test]
fn used_items_heal_reveal_and_are_used_up() {
    let mut potion = used(100, 1, 50);
    potion.healing = Some(6);
    let mut map = used(101, 1, 51);
    map.reveals_map = true;
    let mut gone = used(102, 2, 52);
    gone.item_exists = false;
    gone.healing = Some(9);
    gone.reveals_map = true;
    let mut both = used(103, 3, 53);
    both.healing = Some(2);
    both.reveals_map = true;
    let outcome = use_items(&vec![potion, map, gone, both]);
    assert_eq!(outcome.heals, vec![(1, 6), (3, 2)]);
    assert!(outcome.reveal_map);
    assert_eq!(outcome.removed, vec![50, 100, 51, 101, 52, 102, 53, 103]);
}

#[test]
fn items_that_are_gone_do_nothing() {
    let mut gone = used(102, 2, 52);
    gone.item_exists = false;
    gone.healing = Some(9);
    gone.reveals_map = true;
    let outcome = use_items(&vec![gone]);
    assert!(outcome.heals.is_empty());
    assert!(!outcome.reveal_map);
    assert_eq!(outcome.removed, vec![52, 102]);
    let nothing = use_items(&Vec::new());
    assert!(nothing.heals.is_empty() && nothing.removed.is_empty() && !nothing.reveal_map);
}

fn scene() -> Scene {
    Scene {
        players: vec![(1, Point::new(5, 5))],
        enemies: vec![(20, Point::new(6, 5)), (21, Point::new(6, 5)), (22, Point::new(5, 7))],
        ground: vec![
            GroundItem { entity: 30, pos: Point::new(5, 5), is_weapon: false },
            GroundItem { entity: 31, pos: Point::new(4, 4), is_weapon: true },
            GroundItem { entity: 32, pos: Point::new(5, 5), is_weapon: true },
        ],
        carried: vec![
            CarriedItem { entity: 40, carrier: 1, is_weapon: true },
            CarriedItem { entity: 41, carrier: 2, is_weapon: true },
            CarriedItem { entity: 42, carrier: 1, is_weapon: false },
            CarriedItem { entity: 43, carrier: 1, is_weapon: true },
        ],
    }
}

#[test]
fn keys_and_their_steps() {
    for key in [Key::Left, Key::A] {
        assert_eq!(key_delta(key), Point::new(-1, 0));
    }
    for key in [Key::Right, Key::D] {
        assert_eq!(key_delta(key), Point::new(1, 0));
    }
    for key in [Key::Up, Key::W] {
        assert_eq!(key_delta(key), Point::new(0, -1));
    }
    for key in [Key::Down, Key::S] {
        assert_eq!(key_delta(key), Point::new(0, 1));
    }
    for key in [Key::G, Key::Key1, Key::Key8, Key::Other] {
        assert_eq!(key_delta(key), Point::new(0, 0));
    }
    assert_eq!(key_slot(Key::Key1), Some(0));
    assert_eq!(key_slot(Key::Key5), Some(4));
    assert_eq!(key_slot(Key::Key8), Some(7));
    assert_eq!(key_slot(Key::G), None);
    assert_eq!(key_slot(Key::Left), None);
}

#[test]
fn no_key_no_turn() {
    let outcome = player_input(None, &scene());
    assert!(!outcome.turn_taken);
    assert!(outcome.moves.is_empty() && outcome.attacks.is_empty());
    assert!(outcome.picked_up.is_empty() && outcome.discarded.is_empty());
    assert_eq!(outcome.activated, None);
    let empty = Scene { players: vec![], enemies: vec![], ground: vec![], carried: vec![] };
    assert!(!player_input(None, &empty).turn_taken);
}

#[test]
fn step_onto_free_ground_moves() {
    let outcome = player_input(Some(Key::Left), &scene());
    assert!(outcome.turn_taken);
    assert!(outcome.attacks.is_empty());
    let want = WantsToMove { entity: 1, destination: Point::new(4, 5) };
    assert_eq!(outcome.moves, vec![want, want]);
    assert!(outcome.picked_up.is_empty() && outcome.discarded.is_empty());
    assert_eq!(outcome.activated, None);
}

#[test]
fn step_into_enemies_attacks_them() {
    let outcome = player_input(Some(Key::D), &scene());
    assert!(outcome.turn_taken);
    assert_eq!(
        outcome.attacks,
        vec![
            WantsToAttack { attacker: 1, victim: 20 },
            WantsToAttack { attacker: 1, victim: 21 },
        ]
    );
    assert_eq!(outcome.moves, vec![WantsToMove { entity: 1, destination: Point::new(6, 5) }]);
}

#[test]
fn other_keys_pass_the_turn() {
    let outcome = player_input(Some(Key::Other), &scene());
    assert!(outcome.turn_taken);
    assert!(outcome.attacks.is_empty());
    assert_eq!(outcome.moves, vec![WantsToMove { entity: 1, destination: Point::new(5, 5) }]);
}

#[test]
fn every_player_wishes_to_move() {
    let mut two = scene();
    two.players.push((2, Point::new(9, 9)));
    let outcome = player_input(Some(Key::Down), &two);
    assert_eq!(
        outcome.moves,
        vec![
            WantsToMove { entity: 1, destination: Point::new(5, 6) },
            WantsToMove { entity: 1, destination: Point::new(5, 6) },
            WantsToMove { entity: 2, destination: Point::new(9, 10) },
        ]
    );
}

#[test]
fn picking_up_a_weapon_discards_the_carried_ones() {
    let outcome = player_input(Some(Key::G), &scene());
    assert!(outcome.turn_taken);
    assert_eq!(outcome.picked_up, vec![30, 32]);
    assert_eq!(outcome.discarded, vec![40, 43]);
    assert_eq!(outcome.activated, None);
    assert!(outcome.attacks.is_empty());
    assert_eq!(outcome.moves, vec![WantsToMove { entity: 1, destination: Point::new(5, 5) }]);
    let mut plain = scene();
    plain.ground.pop();
    let kept = player_input(Some(Key::G), &plain);
    assert_eq!(kept.picked_up, vec![30]);
    assert!(kept.discarded.is_empty());
}

#[test]
fn number_keys_use_the_inventory() {
    let first = player_input(Some(Key::Key1), &scene());
    assert_eq!(first.activated, Some(ActivateItem { used_by: 1, item: 40 }));
    let second = player_input(Some(Key::Key2), &scene());
    assert_eq!(second.activated, Some(ActivateItem { used_by: 1, item: 42 }));
    let third = player_input(Some(Key::Key3), &scene());
    assert_eq!(third.activated, Some(ActivateItem { used_by: 1, item: 43 }));
    let fourth = player_input(Some(Key::Key4), &scene());
    assert_eq!(fourth.activated, None);
    assert!(fourth.turn_taken);
    assert_eq!(fourth.moves, vec![WantsToMove { entity: 1, destination: Point::new(5, 5) }]);
}

#[test]
fn use_item_counts_the_carriers_items_only() {
    let carried = scene().carried;
    assert_eq!(use_item(0, 1, &carried), Some(ActivateItem { used_by: 1, item: 40 }));
    assert_eq!(use_item(2, 1, &carried), Some(ActivateItem { used_by: 1, item: 43 }));
    assert_eq!(use_item(3, 1, &carried), None);
    assert_eq!(use_item(0, 2, &carried), Some(ActivateItem { used_by: 2, item: 41 }));
    assert_eq!(use_item(1, 2, &carried), None);
    assert_eq!(use_item(0, 9, &carried), None);
    assert_eq!(use_item(0, 1, &Vec::new()), None);
}
