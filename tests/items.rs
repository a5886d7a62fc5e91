use rouge::{
    cast_confuse, cast_fireball, cast_heal, cast_lightning, closest_monster, drop_item, get_equipped_in_slot,
    make_item, make_monster, pick_item_up, toggle_equipment, use_item, Ai, Color, DeathCallback, Equipment, Fighter,
    Game, Item, Object, Slot, Tile, TileMap, UseResult, Visibility,
};

fn floor_map() -> TileMap {
    let mut map = Vec::new();
    for _ in 0..80 {
        let mut col = Vec::new();
        for _ in 0..33 {
            col.push(Tile::empty());
        }
        map.push(col);
    }
    map
}

fn all_visible() -> Visibility {
    vec![vec![true; 33]; 80]
}

fn empty_game() -> Game {
    Game { map: floor_map(), log: Vec::new(), inventory: Vec::new(), dungeon_level: 1 }
}

fn player_at(x: i32, y: i32) -> Object {
    let mut p = Object::new(x, y, '@', "player", Color::White, true);
    p.alive = true;
    p.fighter = Some(Fighter {
        base_max_hp: 100,
        hp: 100,
        base_defense: 2,
        base_power: 5,
        on_death: DeathCallback::Player,
        xp: 0,
    });
    p
}

fn gear(name: &str, slot: Slot, equipped: bool) -> Object {
    let mut o = Object::new(0, 0, '/', name, Color::Sky, false);
    o.item = Some(Item::BronzeSword);
    o.equipment = Some(Equipment { slot, equipped, max_hp_bonus: 0, power_bonus: 1, defense_bonus: 0 });
    o
}

fn texts(game: &Game) -> Vec<String> {
    game.log.iter().map(|(t, _)| t.clone()).collect()
}

#[test]
fn pickup_rejected_when_inventory_full() {
    let mut game = empty_game();
    for i in 0..26 {
        game.inventory.push(make_item(Item::Heal, i, 0));
    }
    let mut objects = vec![player_at(5, 5), make_item(Item::Lightning, 5, 5)];
    pick_item_up(1, &mut objects, &mut game.inventory, &mut game.log);
    assert_eq!(game.inventory.len(), 26);
    assert_eq!(objects.len(), 2);
    assert_eq!(objects[1].name, "scroll of lightning bolt");
    assert_eq!(texts(&game), vec!["Your inventory is full, cannot pick up scroll of lightning bolt.".to_string()]);
    assert_eq!(game.log[0].1, Color::Red);
}

#[test]
fn pickup_moves_item_and_auto_equips() {
    let mut game = empty_game();
    let mut objects = vec![player_at(5, 5), make_item(Item::BronzeSword, 5, 5), make_item(Item::Heal, 1, 1)];
    pick_item_up(1, &mut objects, &mut game.inventory, &mut game.log);
    assert_eq!(objects.len(), 2);
    assert_eq!(objects[1].name, "healing potion");
    assert_eq!(game.inventory.len(), 1);
    assert!(game.inventory[0].equipment.unwrap().equipped);
    assert_eq!(
        texts(&game),
        vec!["You picked up a bronze sword!".to_string(), "Equipped bronze sword on right hand.".to_string()]
    );
    // A second weapon for the same hand is not put on.
    objects.push(make_item(Item::IronSword, 5, 5));
    pick_item_up(2, &mut objects, &mut game.inventory, &mut game.log);
    assert!(!game.inventory[1].equipment.unwrap().equipped);
    assert_eq!(get_equipped_in_slot(Slot::RightHand, &game.inventory), Some(0));
}

#[test]
fn equipping_replaces_occupant_of_slot() {
    let mut game = empty_game();
    game.inventory.push(gear("old blade", Slot::RightHand, true));
    game.inventory.push(gear("new blade", Slot::RightHand, false));
    game.inventory.push(gear("shield", Slot::LeftHand, true));
    assert_eq!(toggle_equipment(1, &mut game), UseResult::UsedAndKept);
    assert!(!game.inventory[0].equipment.unwrap().equipped);
    assert!(game.inventory[1].equipment.unwrap().equipped);
    assert!(game.inventory[2].equipment.unwrap().equipped);
    assert_eq!(
        texts(&game),
        vec!["Dequipped old blade from right hand.".to_string(), "Equipped new blade on right hand.".to_string()]
    );
    assert_eq!(get_equipped_in_slot(Slot::RightHand, &game.inventory), Some(1));
    // Toggling again takes it off.
    toggle_equipment(1, &mut game);
    assert_eq!(get_equipped_in_slot(Slot::RightHand, &game.inventory), None);
}

#[test]
fn toggle_without_equipment_is_cancelled() {
    let mut game = empty_game();
    game.inventory.push(make_item(Item::Heal, 0, 0));
    assert_eq!(toggle_equipment(0, &mut game), UseResult::Cancelled);
    assert!(game.log.is_empty());
}

#[test]
fn drop_unequips_and_places_at_player() {
    let mut game = empty_game();
    game.inventory.push(gear("blade", Slot::RightHand, true));
    let mut objects = vec![player_at(7, 8)];
    drop_item(0, &mut game.inventory, &mut objects, &mut game.log);
    assert!(game.inventory.is_empty());
    assert_eq!(objects.len(), 2);
    assert_eq!(objects[1].pos(), (7, 8));
    assert!(!objects[1].equipment.unwrap().equipped);
    assert_eq!(
        texts(&game),
        vec!["Dequipped blade from right hand.".to_string(), "You dropped a blade.".to_string()]
    );
}

#[test]
fn heal_at_full_health_is_cancelled() {
    let mut game = empty_game();
    let mut objects = vec![player_at(1, 1)];
    assert_eq!(cast_heal(&mut objects, &mut game), UseResult::Cancelled);
    assert_eq!(texts(&game), vec!["You are already at full health.".to_string()]);
    objects[0].fighter = Some(Fighter { hp: 30, ..objects[0].fighter.unwrap() });
    assert_eq!(cast_heal(&mut objects, &mut game), UseResult::UsedUp);
    assert_eq!(objects[0].fighter.unwrap().hp, 70);
}

#[test]
fn lightning_strikes_nearest_visible_monster() {
    let mut game = empty_game();
    let mut fov = all_visible();
    let mut objects = vec![
        player_at(10, 10),
        make_monster(true, 15, 10, 1),
        make_monster(false, 12, 10, 1),
        make_monster(false, 8, 10, 1),
    ];
    assert_eq!(closest_monster(20, &objects, &fov), Some(2));
    fov[12][10] = false;
    assert_eq!(closest_monster(20, &objects, &fov), Some(3));
    assert_eq!(cast_lightning(&mut objects, &mut game, &fov), UseResult::UsedUp);
    assert!(!objects[3].alive);
    assert_eq!(objects[3].name, "remains of orc");
    assert_eq!(
        texts(&game)[0],
        "A lightning bolt strikes the orc with a loud thunder! The damage is 40 hit points."
    );
    assert_eq!(objects[0].fighter.unwrap().xp, 0);
}

#[test]
fn lightning_without_target_keeps_scroll() {
    let mut game = empty_game();
    let fov = all_visible();
    game.inventory.push(make_item(Item::Lightning, 0, 0));
    let mut objects = vec![player_at(10, 10), make_monster(false, 40, 10, 1)];
    use_item(0, &mut objects, &mut game, &fov, None, None);
    assert_eq!(game.inventory.len(), 1);
    assert_eq!(texts(&game), vec!["No enemy is close enough to strike.".to_string(), "Cancelled".to_string()]);
}

#[test]
fn confuse_without_target_keeps_scroll() {
    let mut game = empty_game();
    let fov = all_visible();
    game.inventory.push(make_item(Item::Confuse, 0, 0));
    let mut objects = vec![player_at(10, 10), make_monster(false, 12, 10, 1)];
    use_item(0, &mut objects, &mut game, &fov, None, None);
    assert_eq!(game.inventory.len(), 1);
    assert!(matches!(objects[1].ai, Some(Ai::Basic)));
    assert!(texts(&game).contains(&"No enemy is close enough to strike.".to_string()));
    assert_eq!(texts(&game).last().unwrap(), "Cancelled");
}

#[test]
fn confuse_wraps_current_behaviour() {
    let mut game = empty_game();
    let mut objects = vec![player_at(10, 10), make_monster(false, 12, 10, 1)];
    assert_eq!(cast_confuse(&mut objects, &mut game, &all_visible(), Some(1)), UseResult::UsedUp);
    match &objects[1].ai {
        Some(Ai::Confused { previous_ai, num_turns }) => {
            assert_eq!(*num_turns, 5);
            assert!(matches!(**previous_ai, Ai::Basic));
        }
        _ => panic!("not confused"),
    }
    assert_eq!(
        texts(&game).last().unwrap(),
        "The eyes of orc look vacant, as he starts to stumble around!"
    );
}

#[test]
fn fireball_burns_everything_in_radius() {
    let mut game = empty_game();
    let mut objects = vec![player_at(10, 10), make_monster(false, 12, 12, 1), make_monster(true, 20, 20, 1)];
    objects[1].fighter = Some(Fighter { hp: 20, ..objects[1].fighter.unwrap() });
    assert_eq!(cast_fireball(&mut objects, &mut game, &all_visible(), Some((11, 11))), UseResult::UsedUp);
    assert_eq!(objects[0].fighter.unwrap().hp, 75);
    assert!(!objects[1].alive);
    assert_eq!(objects[0].fighter.unwrap().xp, 10);
    assert_eq!(objects[2].fighter.unwrap().hp, 30);
    let t = texts(&game);
    assert_eq!(t[0], "Left-click a target tile for the fireball, or right-click to cancel.");
    assert_eq!(t[1], "The fireball explodes, burning everything within 3 tiles!");
}

#[test]
fn fireball_cancelled_keeps_scroll() {
    let mut game = empty_game();
    let fov = all_visible();
    game.inventory.push(make_item(Item::Fireball, 0, 0));
    let mut objects = vec![player_at(10, 10)];
    use_item(0, &mut objects, &mut game, &fov, None, None);
    assert_eq!(game.inventory.len(), 1);
    assert_eq!(texts(&game).last().unwrap(), "Cancelled");
}

#[test]
fn used_potion_is_consumed() {
    let mut game = empty_game();
    let fov = all_visible();
    game.inventory.push(make_item(Item::Heal, 0, 0));
    let mut objects = vec![player_at(10, 10)];
    objects[0].fighter = Some(Fighter { hp: 99, ..objects[0].fighter.unwrap() });
    use_item(0, &mut objects, &mut game, &fov, None, None);
    assert!(game.inventory.is_empty());
    assert_eq!(objects[0].fighter.unwrap().hp, 100);
}

#[test]
fn item_without_use_logs() {
    let mut game = empty_game();
    let fov = all_visible();
    game.inventory.push(Object::new(0, 0, '?', "rock", Color::White, false));
    let mut objects = vec![player_at(10, 10)];
    use_item(0, &mut objects, &mut game, &fov, None, None);
    assert_eq!(game.inventory.len(), 1);
    assert_eq!(texts(&game), vec!["The rock cannot be used.".to_string()]);
}

#[test]
fn confuse_rejects_invalid_targets() {
    let mut game = empty_game();
    let mut fov = all_visible();
    let mut objects = vec![player_at(10, 10), make_item(Item::Heal, 12, 10), make_monster(false, 40, 10, 1), make_monster(false, 12, 12, 1)];
    assert_eq!(cast_confuse(&mut objects, &mut game, &fov, Some(0)), UseResult::Cancelled);
    assert_eq!(cast_confuse(&mut objects, &mut game, &fov, Some(1)), UseResult::Cancelled);
    assert_eq!(cast_confuse(&mut objects, &mut game, &fov, Some(2)), UseResult::Cancelled);
    assert_eq!(cast_confuse(&mut objects, &mut game, &fov, Some(9)), UseResult::Cancelled);
    fov[12][12] = false;
    assert_eq!(cast_confuse(&mut objects, &mut game, &fov, Some(3)), UseResult::Cancelled);
    assert!(matches!(objects[0].ai, None));
    assert!(matches!(objects[3].ai, Some(Ai::Basic)));
    assert_eq!(texts(&game).last().unwrap(), "No enemy is close enough to strike.");
}

#[test]
fn fireball_needs_tile_in_view() {
    let mut game = empty_game();
    let mut fov = all_visible();
    fov[11][11] = false;
    let mut objects = vec![player_at(10, 10), make_monster(false, 12, 12, 1)];
    assert_eq!(cast_fireball(&mut objects, &mut game, &fov, Some((11, 11))), UseResult::Cancelled);
    assert_eq!(cast_fireball(&mut objects, &mut game, &fov, Some((90, 11))), UseResult::Cancelled);
    assert_eq!(objects[0].fighter.unwrap().hp, 100);
}

#[test]
fn lightning_range_is_inclusive_and_exact() {
    let fov = all_visible();
    let objects = vec![player_at(0, 0), make_monster(false, 20, 1, 1)];
    assert_eq!(closest_monster(20, &objects, &fov), None);
    let objects = vec![player_at(0, 0), make_monster(false, 20, 0, 1)];
    assert_eq!(closest_monster(20, &objects, &fov), Some(1));
    assert_eq!(closest_monster(-1, &objects, &fov), None);
}
