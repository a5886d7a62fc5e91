use rouge::{
    ai_basic, ai_confused, ai_take_turn, confused_step, handle_keys, is_blocked, is_in_fov, make_item, make_monster,
    mark_explored, message, monster_at, move_by, move_towards, player_move_or_attack, take_monster_turns,
    target_tile_ok, Ai, Color, DeathCallback, Fighter, Game, Intent, Item, Object, PlayerAction, Slot, Tile, TileMap,
    Visibility,
};

fn floor_map() -> TileMap {
    let mut map = Vec::new();
    for _ in 0..80 {
        let mut col = Vec::new();
        for _ in 0..33 {
            col.push(Tile::empty());
        }
        map.push(col);
    }
    map
}

fn all_visible() -> Visibility {
    vec![vec![true; 33]; 80]
}

fn empty_game() -> Game {
    Game { map: floor_map(), log: Vec::new(), inventory: Vec::new(), dungeon_level: 1 }
}

fn player_at(x: i32, y: i32) -> Object {
    let mut p = Object::new(x, y, '@', "player", Color::White, true);
    p.alive = true;
    p.fighter = Some(Fighter {
        base_max_hp: 100,
        hp: 100,
        base_defense: 2,
        base_power: 5,
        on_death: DeathCallback::Player,
        xp: 0,
    });
    p
}

#[test]
fn blocked_by_wall_edge_and_blocking_object() {
    let mut map = floor_map();
    map[3][4] = Tile::wall();
    let objects = vec![player_at(5, 5), make_item(Item::Heal, 6, 6)];
    assert!(is_blocked(3, 4, &map, &objects));
    assert!(is_blocked(5, 5, &map, &objects));
    assert!(!is_blocked(6, 6, &map, &objects));
    assert!(is_blocked(-1, 0, &map, &objects));
    assert!(is_blocked(80, 0, &map, &objects));
    assert!(!is_blocked(7, 7, &map, &objects));
}

#[test]
fn move_is_dropped_when_blocked() {
    let mut map = floor_map();
    map[6][5] = Tile::wall();
    let mut objects = vec![player_at(5, 5)];
    move_by(0, 1, 0, &map, &mut objects);
    assert_eq!(objects[0].pos(), (5, 5));
    move_by(0, 0, 1, &map, &mut objects);
    assert_eq!(objects[0].pos(), (5, 6));
}

#[test]
fn move_towards_rounds_direction() {
    let map = floor_map();
    let mut objects = vec![player_at(10, 10), make_monster(false, 0, 0, 1)];
    move_towards(1, 10, 10, &map, &mut objects);
    assert_eq!(objects[1].pos(), (1, 1));
    move_towards(1, 10, 2, &map, &mut objects);
    assert_eq!(objects[1].pos(), (2, 1));
    move_towards(1, 2, 1, &map, &mut objects);
    assert_eq!(objects[1].pos(), (2, 1));
}

#[test]
fn moving_into_a_monster_attacks_it() {
    let mut game = empty_game();
    let mut objects = vec![player_at(5, 5), make_monster(false, 6, 5, 1)];
    player_move_or_attack(1, 0, &mut objects, &mut game);
    assert_eq!(objects[0].pos(), (5, 5));
    assert_eq!(objects[1].fighter.unwrap().hp, 15);
    player_move_or_attack(0, 1, &mut objects, &mut game);
    assert_eq!(objects[0].pos(), (5, 6));
    assert_eq!(game.log.len(), 1);
}

#[test]
fn basic_monster_approaches_then_attacks() {
    let mut game = empty_game();
    let mut fov = all_visible();
    let mut objects = vec![player_at(5, 5), make_monster(false, 9, 5, 1)];
    assert!(matches!(ai_basic(1, &mut game, &mut objects, &fov), Ai::Basic));
    assert_eq!(objects[1].pos(), (8, 5));
    objects[1].set_pos(6, 5);
    ai_basic(1, &mut game, &mut objects, &fov);
    assert_eq!(objects[0].fighter.unwrap().hp, 98);
    // Unseen monsters do nothing.
    fov[6][5] = false;
    ai_basic(1, &mut game, &mut objects, &fov);
    assert_eq!(objects[0].fighter.unwrap().hp, 98);
}

#[test]
fn confusion_counts_down_and_reverts() {
    let map = floor_map();
    let mut log = Vec::new();
    let mut objects = vec![player_at(5, 5), make_monster(false, 9, 5, 1)];
    let next = confused_step(1, &map, &mut objects, &mut log, Box::new(Ai::Basic), 0, 1, -1);
    assert_eq!(objects[1].pos(), (10, 4));
    match next {
        Ai::Confused { num_turns, .. } => assert_eq!(num_turns, -1),
        _ => panic!("still confused"),
    }
    let back = confused_step(1, &map, &mut objects, &mut log, Box::new(Ai::Basic), -1, 1, 1);
    assert!(matches!(back, Ai::Basic));
    assert_eq!(objects[1].pos(), (10, 4));
    assert_eq!(log[0].0, "The orc is no longer confused!");
}

#[test]
fn confused_monster_stumbles_at_most_one_tile() {
    let map = floor_map();
    let mut log = Vec::new();
    let mut objects = vec![player_at(1, 1), make_monster(false, 20, 20, 1)];
    for _ in 0..20 {
        let before = objects[1].pos();
        ai_confused(1, &map, &mut objects, &mut log, Box::new(Ai::Basic), 3);
        let after = objects[1].pos();
        assert!((after.0 - before.0).abs() <= 1 && (after.1 - before.1).abs() <= 1);
    }
}

#[test]
fn confused_turns_run_out_after_count() {
    let mut game = empty_game();
    let fov = all_visible();
    let mut objects = vec![player_at(1, 1), make_monster(false, 20, 20, 1)];
    objects[1].ai = Some(Ai::Confused { previous_ai: Box::new(Ai::Basic), num_turns: 5 });
    for _ in 0..6 {
        ai_take_turn(1, &mut objects, &mut game, &fov);
        assert!(matches!(objects[1].ai, Some(Ai::Confused { .. })));
    }
    ai_take_turn(1, &mut objects, &mut game, &fov);
    assert!(matches!(objects[1].ai, Some(Ai::Basic)));
    assert_eq!(game.log.len(), 1);
}

#[test]
fn every_monster_acts_once_per_turn() {
    let mut game = empty_game();
    let fov = all_visible();
    let mut objects = vec![player_at(5, 5), make_monster(false, 10, 5, 1), make_monster(false, 5, 10, 1), make_item(Item::Heal, 1, 1)];
    take_monster_turns(&mut objects, &mut game, &fov);
    assert_eq!(objects[1].pos(), (9, 5));
    assert_eq!(objects[2].pos(), (5, 9));
    assert_eq!(objects[3].pos(), (1, 1));
}

#[test]
fn intents_dispatch() {
    let mut game = empty_game();
    let fov = all_visible();
    let mut objects = vec![player_at(5, 5), make_item(Item::BronzeSword, 5, 6)];
    assert_eq!(handle_keys(Intent::Move { dx: 0, dy: 1 }, &mut objects, &mut game, &fov), PlayerAction::TookTurn);
    assert_eq!(handle_keys(Intent::PickUp, &mut objects, &mut game, &fov), PlayerAction::DidntTakeTurn);
    assert_eq!(game.inventory.len(), 1);
    assert_eq!(objects.len(), 1);
    assert_eq!(handle_keys(Intent::Wait, &mut objects, &mut game, &fov), PlayerAction::TookTurn);
    assert_eq!(handle_keys(Intent::Exit, &mut objects, &mut game, &fov), PlayerAction::Exit);
    handle_keys(Intent::Use { index: 0, tile: None, monster: None }, &mut objects, &mut game, &fov);
    assert!(!game.inventory[0].equipment.unwrap().equipped);
    handle_keys(Intent::Drop { index: 0 }, &mut objects, &mut game, &fov);
    assert!(game.inventory.is_empty());
    assert_eq!(objects.len(), 2);
    objects[0].alive = false;
    assert_eq!(handle_keys(Intent::Move { dx: 1, dy: 0 }, &mut objects, &mut game, &fov), PlayerAction::DidntTakeTurn);
    assert_eq!(objects[0].pos(), (5, 6));
}

#[test]
fn targeting_helpers() {
    let mut fov = all_visible();
    let objects = vec![player_at(5, 5), make_monster(false, 8, 5, 1), make_item(Item::Heal, 8, 5)];
    assert_eq!(monster_at(&objects, 8, 5), Some(1));
    assert_eq!(monster_at(&objects, 5, 5), None);
    assert!(target_tile_ok(&objects, &fov, 8, 5, Some(3)));
    assert!(!target_tile_ok(&objects, &fov, 9, 5, Some(3)));
    assert!(target_tile_ok(&objects, &fov, 9, 5, None));
    fov[9][5] = false;
    assert!(!target_tile_ok(&objects, &fov, 9, 5, None));
    assert!(!is_in_fov(&fov, 9, 5));
    assert!(!is_in_fov(&fov, -1, 5));
}

#[test]
fn explored_flags_never_reset() {
    let mut map = floor_map();
    let mut fov = vec![vec![false; 33]; 80];
    fov[2][3] = true;
    mark_explored(&mut map, &fov);
    assert!(map[2][3].explored);
    assert!(!map[2][4].explored);
    fov[2][3] = false;
    mark_explored(&mut map, &fov);
    assert!(map[2][3].explored);
}

#[test]
fn log_keeps_last_lines() {
    let mut log = Vec::new();
    for i in 0..8 {
        message(&mut log, format!("line {}", i), Color::White);
    }
    assert_eq!(log.len(), 6);
    assert_eq!(log[0].0, "line 2");
    assert_eq!(log[5].0, "line 7");
}

#[test]
fn slot_labels() {
    assert_eq!(Slot::LeftHand.label(), "left hand");
    assert_eq!(Slot::Gauntlets.label(), " gauntlets");
    assert_eq!(Color::Orange.rgb(), (255, 127, 0));
}
