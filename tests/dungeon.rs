use rouge::{
    create_h_tunnel, create_room, create_v_tunnel, from_dungeon_level, level_up, make_map, needs_level_up,
    new_game, next_level, place_objects, Color, DeathCallback, Fighter, Game, Item, Object, Rect, StatChoice, Tile,
    TileMap, Transition,
};

fn wall_map() -> TileMap {
    vec![vec![Tile::wall(); 33]; 80]
}

fn player_at(x: i32, y: i32) -> Object {
    let mut p = Object::new(x, y, '@', "player", Color::White, true);
    p.alive = true;
    p.fighter = Some(Fighter {
        base_max_hp: 100,
        hp: 100,
        base_defense: 2,
        base_power: 5,
        on_death: DeathCallback::Player,
        xp: 0,
    });
    p
}

#[test]
fn transition_tables() {
    let table = [Transition { level: 1, value: 2 }, Transition { level: 4, value: 3 }, Transition { level: 6, value: 5 }];
    assert_eq!(from_dungeon_level(&table, 0), 0);
    assert_eq!(from_dungeon_level(&table, 1), 2);
    assert_eq!(from_dungeon_level(&table, 5), 3);
    assert_eq!(from_dungeon_level(&table, 9), 5);
    assert_eq!(from_dungeon_level(&[], 9), 0);
    let unsorted = [Transition { level: 5, value: 10 }, Transition { level: 1, value: 2 }];
    assert_eq!(from_dungeon_level(&unsorted, 6), 10);
    assert_eq!(from_dungeon_level(&unsorted, 3), 2);
    assert_eq!(from_dungeon_level(&unsorted, 0), 0);
}

#[test]
fn rect_geometry() {
    let a = Rect::new(0, 0, 6, 6);
    let b = Rect::new(6, 0, 6, 6);
    let c = Rect::new(7, 7, 6, 6);
    assert!(a.intersects_with(&b));
    assert!(!a.intersects_with(&c));
    assert_eq!(a.center(), (3, 3));
    assert_eq!(c.center(), (10, 10));
}

#[test]
fn carving_rooms_and_tunnels() {
    let mut map = wall_map();
    create_room(Rect::new(1, 1, 6, 6), &mut map);
    assert!(!map[2][2].blocked);
    assert!(!map[6][6].blocked);
    assert!(map[1][1].blocked);
    assert!(map[7][3].blocked);
    create_h_tunnel(10, 4, 20, &mut map);
    assert!(!map[4][20].blocked && !map[10][20].blocked);
    assert!(map[11][20].blocked);
    create_v_tunnel(30, 25, 40, &mut map);
    assert!(!map[40][25].blocked && !map[40][30].blocked);
    assert!(map[40][24].blocked);
}

#[test]
fn generated_level_is_consistent() {
    for _ in 0..20 {
        let mut objects = vec![player_at(0, 0)];
        let map = make_map(&mut objects, 3);
        assert_eq!(map.len(), 80);
        assert!(map.iter().all(|c| c.len() == 33));
        let (px, py) = objects[0].pos();
        assert!(!map[px as usize][py as usize].blocked);
        assert_eq!(objects.iter().filter(|o| o.name == "stairs").count(), 1);
        let stairs = objects.last().unwrap();
        assert!(stairs.fighter.is_none() && stairs.item.is_none());
        assert_eq!(stairs.name, "stairs");
        assert!(stairs.always_visible);
        assert!(!map[stairs.x as usize][stairs.y as usize].blocked);
        for o in &objects[1..] {
            assert!(!map[o.x as usize][o.y as usize].blocked);
        }
    }
}

#[test]
fn placed_objects_stay_inside_room() {
    let mut map = wall_map();
    let room = Rect::new(10, 10, 8, 7);
    create_room(room, &mut map);
    let mut objects = vec![player_at(0, 0)];
    for _ in 0..30 {
        place_objects(room, &mut objects, &map, 7);
    }
    for o in &objects[1..] {
        assert!(o.x > 10 && o.x < 18 && o.y > 10 && o.y < 17);
        assert!(o.fighter.is_some() || o.item.is_some());
    }
}

#[test]
fn new_game_starts_with_dagger() {
    let (objects, game) = new_game();
    assert_eq!(game.dungeon_level, 1);
    assert_eq!(objects[0].name, "player");
    assert_eq!(game.inventory[0].item, Some(Item::Dagger));
    assert_eq!(objects[0].power(&game), 7);
    assert_eq!(game.log[0].0, "Welcome stranger! Prepare to perish in the Rouge Cachot.");
}

#[test]
fn descending_regenerates_level() {
    let (mut objects, mut game) = new_game();
    objects.push(Object::new(1, 1, 'x', "marker", Color::White, false));
    objects[0].fighter = Some(Fighter { hp: 20, ..objects[0].fighter.unwrap() });
    next_level(&mut objects, &mut game);
    assert_eq!(game.dungeon_level, 2);
    assert_eq!(objects[0].fighter.unwrap().hp, 70);
    assert_eq!(objects[0].fighter.unwrap().xp, 20);
    assert!(objects.iter().all(|o| o.name != "marker"));
    assert_eq!(objects.last().unwrap().name, "stairs");
    let (px, py) = objects[0].pos();
    assert!(!game.map[px as usize][py as usize].blocked);
}

#[test]
fn descending_heal_is_capped() {
    let (mut objects, mut game) = new_game();
    objects[0].fighter = Some(Fighter { hp: 90, ..objects[0].fighter.unwrap() });
    next_level(&mut objects, &mut game);
    assert_eq!(objects[0].fighter.unwrap().hp, 100);
}

#[test]
fn level_up_repeats_per_threshold() {
    let mut game = Game { map: wall_map(), log: Vec::new(), inventory: Vec::new(), dungeon_level: 1 };
    let mut objects = vec![player_at(1, 1)];
    objects[0].fighter = Some(Fighter { xp: 900, ..objects[0].fighter.unwrap() });
    assert!(needs_level_up(&objects));
    level_up(&mut objects, &mut game, StatChoice::Strength);
    assert_eq!(objects[0].level, 2);
    assert_eq!(objects[0].fighter.unwrap().xp, 550);
    assert_eq!(objects[0].fighter.unwrap().base_power, 6);
    assert!(needs_level_up(&objects));
    let mut ring = Object::new(0, 0, 'o', "ring", Color::Sky, false);
    ring.item = Some(Item::LeatherHat);
    ring.equipment = Some(rouge::Equipment { slot: rouge::Slot::Head, equipped: true, max_hp_bonus: 7, power_bonus: 0, defense_bonus: 0 });
    game.inventory.push(ring);
    level_up(&mut objects, &mut game, StatChoice::Constitution);
    assert_eq!(objects[0].level, 3);
    assert_eq!(objects[0].fighter.unwrap().hp, 127);
    game.inventory.clear();
    assert_eq!(objects[0].fighter.unwrap().xp, 50);
    assert_eq!(objects[0].fighter.unwrap().base_max_hp, 120);
    assert!(!needs_level_up(&objects));
    level_up(&mut objects, &mut game, StatChoice::Agility);
    assert_eq!(objects[0].level, 3);
    assert_eq!(game.log[0].0, "Your battle skills grow stronger! You reached level 2!");
    assert_eq!(game.log.len(), 2);
}

#[test]
fn levels_have_several_rooms() {
    let mut apart = 0;
    for _ in 0..10 {
        let mut objects = vec![player_at(0, 0)];
        make_map(&mut objects, 1);
        let stairs = objects.last().unwrap().pos();
        if stairs != objects[0].pos() {
            apart += 1;
        }
    }
    assert!(apart > 0);
}

#[test]
fn both_monster_kinds_spawn_deep_down() {
    let mut map = wall_map();
    let room = Rect::new(10, 10, 10, 10);
    create_room(room, &mut map);
    let mut orcs = 0;
    let mut trolls = 0;
    for _ in 0..200 {
        let mut objects = vec![player_at(0, 0)];
        place_objects(room, &mut objects, &map, 7);
        for o in &objects[1..] {
            if o.name == "orc" {
                orcs += 1;
            }
            if o.name == "troll" {
                trolls += 1;
            }
        }
    }
    assert!(orcs > 0 && trolls > 0);
}

#[test]
fn drawn_content_is_placed_exactly() {
    let mut map = wall_map();
    let room = Rect::new(10, 10, 8, 8);
    create_room(room, &mut map);
    let mut objects = vec![player_at(0, 0)];
    let monsters: Vec<rouge::Draw> = vec![(12, 12, 0), (13, 12, 1), (12, 12, 1)];
    let items: Vec<rouge::Draw> = vec![(14, 14, 4), (13, 12, 0), (5, 5, 0)];
    rouge::place_drawn(&mut objects, &map, 4, &monsters, &items);
    let names: Vec<&str> = objects.iter().map(|o| o.name.as_str()).collect();
    assert_eq!(names, vec!["player", "orc", "troll", "iron sword"]);
    assert_eq!(objects[1].fighter.unwrap().xp, 40);
    assert_eq!(objects[3].pos(), (14, 14));
}

#[test]
fn only_orcs_near_the_surface() {
    let mut map = wall_map();
    let room = Rect::new(10, 10, 10, 10);
    create_room(room, &mut map);
    for _ in 0..100 {
        let mut objects = vec![player_at(0, 0)];
        place_objects(room, &mut objects, &map, 2);
        let monsters = objects[1..].iter().filter(|o| o.fighter.is_some()).count();
        let items = objects[1..].iter().filter(|o| o.item.is_some()).count();
        assert!(monsters <= 2 && items <= 1);
        assert!(objects[1..].iter().all(|o| o.name != "troll"));
    }
}
