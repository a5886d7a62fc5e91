use rouge::{
    attack_between, make_monster, monster_death, player_death, Ai, Color, DeathCallback, Equipment, Fighter, Game,
    Item, Object, Slot, Tile, TileMap,
};

fn floor_map() -> TileMap {
    let mut map = Vec::new();
    for _ in 0..80 {
        let mut col = Vec::new();
        for _ in 0..33 {
            col.push(Tile::empty());
        }
        map.push(col);
    }
    map
}

fn empty_game() -> Game {
    Game { map: floor_map(), log: Vec::new(), inventory: Vec::new(), dungeon_level: 1 }
}

fn player_at(x: i32, y: i32) -> Object {
    let mut p = Object::new(x, y, '@', "player", Color::White, true);
    p.alive = true;
    p.fighter = Some(Fighter {
        base_max_hp: 100,
        hp: 100,
        base_defense: 2,
        base_power: 5,
        on_death: DeathCallback::Player,
        xp: 0,
    });
    p
}

fn last_text(game: &Game) -> String {
    game.log.last().unwrap().0.clone()
}

#[test]
fn player_hits_fresh_orc_for_five() {
    let mut game = empty_game();
    let mut objects = vec![player_at(10, 10), make_monster(false, 11, 10, 1)];
    let start_hp = objects[1].fighter.unwrap().hp;
    assert_eq!(objects[1].defense(&game), 0);
    assert_eq!(objects[0].power(&game), 5);
    attack_between(0, 1, &mut objects, &mut game);
    assert_eq!(objects[1].fighter.unwrap().hp, start_hp - 5);
    assert_eq!(last_text(&game), "player attacks orc for 5 hit points.");
    assert_eq!(game.log.last().unwrap().1, Color::White);
}

#[test]
fn attack_without_effect_logs_and_keeps_hp() {
    let mut game = empty_game();
    let mut weak = player_at(1, 1);
    weak.fighter = Some(Fighter { base_power: 1, ..weak.fighter.unwrap() });
    let mut target = make_monster(true, 2, 1, 1);
    weak.attack(&mut target, &mut game);
    assert_eq!(target.fighter.unwrap().hp, 30);
    assert_eq!(last_text(&game), "player attacks troll but it has no effect!");
}

#[test]
fn killing_blow_awards_xp_once() {
    let mut game = empty_game();
    let mut p = player_at(1, 1);
    let mut orc = make_monster(false, 2, 1, 3);
    orc.fighter = Some(Fighter { hp: 3, ..orc.fighter.unwrap() });
    p.attack(&mut orc, &mut game);
    assert!(!orc.alive);
    assert!(orc.fighter.is_none());
    assert!(orc.ai.is_none());
    assert!(!orc.blocks);
    assert_eq!(orc.name, "remains of orc");
    assert_eq!(p.fighter.unwrap().xp, 30);
    assert_eq!(last_text(&game), "orc is dead! You gain 30 experience points.");
    // A second hit on the remains does nothing.
    let before = game.log.len();
    assert_eq!(orc.take_damage(10, &mut game), None);
    assert_eq!(game.log.len(), before);
}

#[test]
fn dead_player_dies_only_once() {
    let mut game = empty_game();
    let mut p = player_at(1, 1);
    p.fighter = Some(Fighter { hp: 5, xp: 7, ..p.fighter.unwrap() });
    assert_eq!(p.take_damage(10, &mut game), Some(7));
    assert!(!p.alive);
    assert_eq!(p.fighter.unwrap().hp, -5);
    assert_eq!(last_text(&game), "You died!");
    assert_eq!(p.name, "player");
    assert_eq!(p.take_damage(10, &mut game), None);
    assert_eq!(p.fighter.unwrap().hp, -15);
    assert_eq!(game.log.len(), 1);
}

#[test]
fn take_damage_ignores_non_positive_amounts() {
    let mut game = empty_game();
    let mut p = player_at(1, 1);
    assert_eq!(p.take_damage(0, &mut game), None);
    assert_eq!(p.take_damage(-4, &mut game), None);
    assert_eq!(p.fighter.unwrap().hp, 100);
}

#[test]
fn death_variants_transform() {
    let mut log = Vec::new();
    let mut p = player_at(3, 3);
    player_death(&mut p, &mut log);
    assert_eq!(p.char, '\u{1}');
    assert_eq!(p.color, Color::DarkRed);
    assert!(p.fighter.is_some());
    let mut m = make_monster(true, 4, 4, 2);
    monster_death(&mut m, &mut log);
    assert_eq!(m.name, "remains of troll");
    assert_eq!(log[1].0, "troll is dead! You gain 70 experience points.");
    assert_eq!(log[1].1, Color::Orange);
    assert!(m.fighter.is_none());
}

#[test]
fn effective_power_adds_worn_bonuses() {
    let mut game = empty_game();
    let p = player_at(1, 1);
    let mut sword = Object::new(0, 0, '/', "sword", Color::Sky, false);
    sword.item = Some(Item::BronzeSword);
    sword.equipment = Some(Equipment { slot: Slot::RightHand, equipped: true, max_hp_bonus: 0, power_bonus: 2, defense_bonus: 1 });
    let mut hat = Object::new(0, 0, 'H', "hat", Color::Sky, false);
    hat.item = Some(Item::LeatherHat);
    hat.equipment = Some(Equipment { slot: Slot::Head, equipped: false, max_hp_bonus: 3, power_bonus: 9, defense_bonus: 3 });
    game.inventory.push(sword);
    game.inventory.push(hat);
    assert_eq!(p.power(&game), 7);
    assert_eq!(p.defense(&game), 3);
    assert_eq!(p.max_hp(&game), 100);
    assert_eq!(p.get_all_equipped(&game).len(), 1);
    // Monsters do not use the inventory.
    let orc = make_monster(false, 2, 2, 1);
    assert_eq!(orc.power(&game), 4);
    assert!(orc.get_all_equipped(&game).is_empty());
}

#[test]
fn heal_is_capped_at_max() {
    let game = empty_game();
    let mut p = player_at(1, 1);
    p.fighter = Some(Fighter { hp: 90, ..p.fighter.unwrap() });
    p.heal(40, &game);
    assert_eq!(p.fighter.unwrap().hp, 100);
    p.heal(40, &game);
    assert_eq!(p.fighter.unwrap().hp, 100);
    p.fighter = Some(Fighter { hp: 10, ..p.fighter.unwrap() });
    p.heal(40, &game);
    assert_eq!(p.fighter.unwrap().hp, 50);
}

#[test]
fn monster_kills_player_and_takes_xp() {
    let mut game = empty_game();
    let mut p = player_at(1, 1);
    p.fighter = Some(Fighter { hp: 1, xp: 12, ..p.fighter.unwrap() });
    let mut objects = vec![p, make_monster(true, 2, 1, 1)];
    attack_between(1, 0, &mut objects, &mut game);
    assert!(!objects[0].alive);
    assert_eq!(objects[1].fighter.unwrap().xp, 35 + 12);
    assert!(matches!(objects[1].ai, Some(Ai::Basic)));
}

#[test]
fn no_healing_below_death() {
    let game = empty_game();
    let mut p = player_at(1, 1);
    p.fighter = Some(Fighter { hp: -10, ..p.fighter.unwrap() });
    p.heal(40, &game);
    assert_eq!(p.fighter.unwrap().hp, -10);
    p.fighter = Some(Fighter { hp: 0, ..p.fighter.unwrap() });
    p.heal(40, &game);
    assert_eq!(p.fighter.unwrap().hp, 0);
}
