use rouge::MessageLog;
use rouge::{
    get_names_under_mouse, item_label, level_up_threshold, make_item, make_monster, monsters_act, Color,
    DeathCallback, Equipment, Fighter, Game, Item, Object, PlayerAction, Rect, Slot, Tile, Visibility,
};

fn floor_game() -> Game {
    Game { map: vec![vec![Tile::empty(); 33]; 80], log: Vec::new(), inventory: Vec::new(), dungeon_level: 1 }
}

fn player_at(x: i32, y: i32) -> Object {
    let mut p = Object::new(x, y, '@', "player", Color::White, true);
    p.alive = true;
    p.fighter = Some(Fighter {
        base_max_hp: 100,
        hp: 100,
        base_defense: 2,
        base_power: 5,
        on_death: DeathCallback::Player,
        xp: 0,
    });
    p
}

#[test]
fn names_under_cursor_are_joined() {
    let mut fov: Visibility = vec![vec![true; 33]; 80];
    let objects = vec![player_at(1, 1), make_monster(false, 4, 4, 1), make_item(Item::Heal, 4, 4), make_item(Item::Confuse, 5, 4)];
    assert_eq!(get_names_under_mouse(4, 4, &objects, &fov), "orc, healing potion");
    assert_eq!(get_names_under_mouse(5, 4, &objects, &fov), "scroll of confusion");
    assert_eq!(get_names_under_mouse(9, 9, &objects, &fov), "");
    fov[4][4] = false;
    assert_eq!(get_names_under_mouse(4, 4, &objects, &fov), "");
}

#[test]
fn inventory_labels_show_slot() {
    let mut o = make_item(Item::LeatherHat, 0, 0);
    assert_eq!(item_label(&o), "leather hat");
    o.equipment = Some(Equipment { equipped: true, ..o.equipment.unwrap() });
    assert_eq!(item_label(&o), "leather hat (on head)");
    assert_eq!(o.equipment.unwrap().slot, Slot::Head);
}

#[test]
fn item_templates_keep_their_quirks() {
    let dagger = make_item(Item::Dagger, 3, 4);
    assert_eq!(dagger.name, "iron sword");
    assert_eq!(dagger.item, Some(Item::IronSword));
    assert_eq!(dagger.equipment.unwrap().power_bonus, 4);
    let hammer = make_item(Item::WarHammer, 3, 4);
    assert_eq!(hammer.item, Some(Item::GreatAxe));
    assert_eq!(hammer.equipment.unwrap().defense_bonus, -1);
    assert_eq!(hammer.pos(), (3, 4));
}

#[test]
fn monster_templates_scale_with_level() {
    let orc = make_monster(false, 0, 0, 5).fighter.unwrap();
    assert_eq!((orc.base_max_hp, orc.hp, orc.base_defense, orc.base_power, orc.xp), (25, 20, 2, 6, 50));
    let troll = make_monster(true, 0, 0, 2).fighter.unwrap();
    assert_eq!((troll.base_max_hp, troll.hp, troll.base_defense, troll.base_power, troll.xp), (60, 30, 2, 8, 70));
}

#[test]
fn level_up_threshold_grows_linearly() {
    assert_eq!(level_up_threshold(1), 350);
    assert_eq!(level_up_threshold(2), 500);
    assert_eq!(level_up_threshold(0), 200);
}

#[test]
fn monsters_act_only_after_a_turn() {
    let mut game = floor_game();
    let fov: Visibility = vec![vec![true; 33]; 80];
    let mut objects = vec![player_at(1, 1), make_monster(false, 10, 1, 1)];
    assert!(!monsters_act(PlayerAction::DidntTakeTurn, &mut objects, &mut game, &fov));
    assert_eq!(objects[1].pos(), (10, 1));
    assert!(monsters_act(PlayerAction::TookTurn, &mut objects, &mut game, &fov));
    assert_eq!(objects[1].pos(), (9, 1));
    objects[0].alive = false;
    assert!(!monsters_act(PlayerAction::TookTurn, &mut objects, &mut game, &fov));
    assert_eq!(objects[1].pos(), (9, 1));
}

#[test]
fn rect_center_rounds_towards_zero() {
    assert_eq!(Rect::new(-5, -5, 2, 2).center(), (-4, -4));
    assert_eq!(Rect::new(1, 2, 6, 7).center(), (4, 5));
}

#[test]
fn decimal_text() {
    let mut s = String::from("hp ");
    rouge::text::append_int(&mut s, -120);
    assert_eq!(s, "hp -120");
    let mut t = String::new();
    rouge::text::append_int(&mut t, 9_007_199_254_740_993);
    assert_eq!(t, "9007199254740993");
    assert!(rouge::text::str_eq("stairs", "stairs"));
    assert!(!rouge::text::str_eq("stairs", "stair"));
}

#[test]
fn message_log_trait_adds_lines() {
    let mut log: rouge::Messages = Vec::new();
    for i in 0..7 {
        log.add(format!("m{}", i), Color::Red);
    }
    assert_eq!(log.len(), 6);
    assert_eq!(log[0].0, "m1");
    assert_eq!(log[5], ("m6".to_string(), Color::Red));
}

#[test]
fn two_entries_borrowed_at_once() {
    let mut v = vec![1, 2, 3, 4];
    {
        let (a, b) = rouge::mut_two(3, 1, &mut v);
        assert_eq!((*a, *b), (4, 2));
        *a = 40;
        *b = 20;
    }
    assert_eq!(v, vec![1, 20, 3, 40]);
}
