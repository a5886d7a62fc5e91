use vstd::prelude::*;
use crate::config::{MAP_HEIGHT, MAP_WIDTH, MAX_ROOMS, PLAYER, ROOM_MAX_SIZE, ROOM_MIN_SIZE};
use crate::color::Color;
use crate::config::{ORC, TROLL};
use crate::geometry::{Rect, Tile, TileMap, half, empty_tile, grid, grid_wf, in_interior, passable, rect_center, rects_intersect};
use crate::levels::{from_dungeon_level, level_value};
use crate::object::{Game, Object, ObjectView, Stat, clamp, clamp_i32, healed, stat_of, views};
use crate::log::{message, log_add, log_view};
use crate::spells::add_xp;
use crate::random::{coin_flip, random_range, weight_total, weighted_index};
use crate::types::{Ai, DeathCallback, Equipment, Fighter, Item, Slot, Transition};
use crate::world::{blocked_at, is_blocked};
use crate::items::{equipment_tagged, slots_unique};

verus! {

/// The rectangle lies on the grid.
pub open spec fn rect_on_grid(r: Rect) -> bool {
    0 <= r.x1 <= r.x2 < MAP_WIDTH && 0 <= r.y1 <= r.y2 < MAP_HEIGHT
}

/// Carves the interior of `room` into floor.
pub fn create_room(room: Rect, map: &mut TileMap)
    requires
        grid_wf(grid(old(map))),
        rect_on_grid(room),
    ensures
        grid_wf(grid(final(map))),
        forall|x: int, y: int|
            0 <= x < MAP_WIDTH && 0 <= y < MAP_HEIGHT ==> #[trigger] grid(final(map))[x][y] == if in_interior(
                room,
                x,
                y,
            ) {
                empty_tile()
            } else {
                grid(old(map))[x][y]
            },
{
    let ghost g0 = grid(map);
    let mut x: i32 = room.x1 + 1;
    while x < room.x2
        invariant
            rect_on_grid(room),
            room.x1 + 1 <= x <= room.x2 || x == room.x1 + 1,
            grid_wf(grid(map)),
            forall|i: int, j: int|
                0 <= i < MAP_WIDTH && 0 <= j < MAP_HEIGHT ==> #[trigger] grid(map)[i][j] == if in_interior(room, i, j)
                    && i < x {
                    empty_tile()
                } else {
                    g0[i][j]
                },
        decreases room.x2 - x,
    {
        let mut y: i32 = room.y1 + 1;
        while y < room.y2
            invariant
                rect_on_grid(room),
                room.x1 < x < room.x2,
                room.y1 + 1 <= y <= room.y2 || y == room.y1 + 1,
                grid_wf(grid(map)),
                forall|i: int, j: int|
                    0 <= i < MAP_WIDTH && 0 <= j < MAP_HEIGHT ==> #[trigger] grid(map)[i][j] == if in_interior(
                        room,
                        i,
                        j,
                    ) && (i < x || (i == x && j < y)) {
                        empty_tile()
                    } else {
                        g0[i][j]
                    },
            decreases room.y2 - y,
        {
            crate::geometry::set_tile(map, x as usize, y as usize, Tile::empty());
            y = y + 1;
        }
        x = x + 1;
    }
}

pub open spec fn min_int(a: int, b: int) -> int {
    if a < b { a } else { b }
}

pub open spec fn max_int(a: int, b: int) -> int {
    if a < b { b } else { a }
}

/// Carves a horizontal tunnel on row `y` between `x1` and `x2`, both included.
pub fn create_h_tunnel(x1: i32, x2: i32, y: i32, map: &mut TileMap)
    requires
        grid_wf(grid(old(map))),
        0 <= x1 < MAP_WIDTH,
        0 <= x2 < MAP_WIDTH,
        0 <= y < MAP_HEIGHT,
    ensures
        grid_wf(grid(final(map))),
        forall|i: int, j: int|
            0 <= i < MAP_WIDTH && 0 <= j < MAP_HEIGHT ==> #[trigger] grid(final(map))[i][j] == if j == y
                && min_int(x1 as int, x2 as int) <= i <= max_int(x1 as int, x2 as int) {
                empty_tile()
            } else {
                grid(old(map))[i][j]
            },
{
    let ghost g0 = grid(map);
    let lo = if x1 < x2 { x1 } else { x2 };
    let hi = if x1 < x2 { x2 } else { x1 };
    let mut x: i32 = lo;
    while x <= hi
        invariant
            0 <= lo <= x <= hi + 1,
            hi < MAP_WIDTH,
            0 <= y < MAP_HEIGHT,
            lo == min_int(x1 as int, x2 as int),
            hi == max_int(x1 as int, x2 as int),
            grid_wf(grid(map)),
            forall|i: int, j: int|
                0 <= i < MAP_WIDTH && 0 <= j < MAP_HEIGHT ==> #[trigger] grid(map)[i][j] == if j == y && lo <= i < x {
                    empty_tile()
                } else {
                    g0[i][j]
                },
        decreases hi + 1 - x,
    {
        crate::geometry::set_tile(map, x as usize, y as usize, Tile::empty());
        x = x + 1;
    }
}

/// Carves a vertical tunnel on column `x` between `y1` and `y2`, both included.
pub fn create_v_tunnel(y1: i32, y2: i32, x: i32, map: &mut TileMap)
    requires
        grid_wf(grid(old(map))),
        0 <= y1 < MAP_HEIGHT,
        0 <= y2 < MAP_HEIGHT,
        0 <= x < MAP_WIDTH,
    ensures
        grid_wf(grid(final(map))),
        forall|i: int, j: int|
            0 <= i < MAP_WIDTH && 0 <= j < MAP_HEIGHT ==> #[trigger] grid(final(map))[i][j] == if i == x
                && min_int(y1 as int, y2 as int) <= j <= max_int(y1 as int, y2 as int) {
                empty_tile()
            } else {
                grid(old(map))[i][j]
            },
{
    let ghost g0 = grid(map);
    let lo = if y1 < y2 { y1 } else { y2 };
    let hi = if y1 < y2 { y2 } else { y1 };
    let mut y: i32 = lo;
    while y <= hi
        invariant
            0 <= lo <= y <= hi + 1,
            hi < MAP_HEIGHT,
            0 <= x < MAP_WIDTH,
            lo == min_int(y1 as int, y2 as int),
            hi == max_int(y1 as int, y2 as int),
            grid_wf(grid(map)),
            forall|i: int, j: int|
                0 <= i < MAP_WIDTH && 0 <= j < MAP_HEIGHT ==> #[trigger] grid(map)[i][j] == if i == x && lo <= j < y {
                    empty_tile()
                } else {
                    g0[i][j]
                },
        decreases hi + 1 - y,
    {
        crate::geometry::set_tile(map, x as usize, y as usize, Tile::empty());
        y = y + 1;
    }
}


/// Content that generation puts on a level: not shown outside the field of
/// view and not worn.
pub open spec fn fresh_content(o: ObjectView) -> bool {
    !o.always_visible && !(o.equipment is Some && o.equipment.unwrap().equipped)
}

/// Statistics of a new monster; trolls are fixed, orcs grow with the level.
pub open spec fn monster_fighter(troll: bool, level: u32) -> Fighter {
    if troll {
        Fighter {
            base_max_hp: 60,
            hp: 30,
            base_defense: 2,
            base_power: 8,
            on_death: DeathCallback::Monster,
            xp: clamp_i32(35 * level as int) as i32,
        }
    } else {
        Fighter {
            base_max_hp: level_value(seq![Transition { level: 1, value: 20 }, Transition { level: 2, value: 25 }], level)
                as i32,
            hp: 20,
            base_defense: clamp_i32(level as int / 2) as i32,
            base_power: clamp_i32(4 + level as int / 2) as i32,
            on_death: DeathCallback::Monster,
            xp: clamp_i32(10 * level as int) as i32,
        }
    }
}

/// The whole view of a new monster.
pub open spec fn monster_view(troll: bool, x: i32, y: i32, level: u32) -> ObjectView {
    ObjectView {
        x,
        y,
        char: if troll { TROLL } else { ORC },
        color: if troll { Color::DarkerGreen } else { Color::DesaturatedGreen },
        name: if troll { "troll"@ } else { "orc"@ },
        blocks: true,
        alive: true,
        fighter: Some(monster_fighter(troll, level)),
        ai: Some(Ai::Basic),
        item: None,
        always_visible: false,
        level: 1,
        equipment: None,
    }
}

/// The whole view of a new item.
pub open spec fn item_view(kind: Item, x: i32, y: i32) -> ObjectView {
    ObjectView {
        x,
        y,
        char: item_look(kind).0,
        color: item_look(kind).1,
        name: item_template(kind).0,
        blocks: false,
        alive: false,
        fighter: None,
        ai: None,
        item: Some(item_template(kind).1),
        always_visible: false,
        level: 1,
        equipment: item_template(kind).2,
    }
}

/// Glyph and color of a new item of each kind.
pub open spec fn item_look(kind: Item) -> (char, Color) {
    match kind {
        Item::Heal => ('\u{14}', Color::Violet),
        Item::Lightning => ('-', Color::LightYellow),
        Item::Fireball => ('-', Color::LightRed),
        Item::Confuse => ('-', Color::Amber),
        Item::BronzeSword => ('/', Color::Sky),
        Item::IronSword => ('/', Color::Sky),
        Item::WoodShield => ('[', Color::DarkerOrange),
        Item::IronShield => ('[', Color::DarkerOrange),
        Item::Dagger => ('/', Color::Sky),
        Item::GreatAxe => ('Y', Color::Violet),
        Item::WarHammer => ('T', Color::Violet),
        Item::ClothPants => ('P', Color::Sky),
        Item::ClothShirt => ('S', Color::Sky),
        Item::LeatherHat => ('H', Color::Sky),
        Item::LeatherChest => ('S', Color::Sky),
        Item::LeatherWristGaurds => ('S', Color::Sky),
        Item::LeatherKneeGaurds => ('S', Color::Sky),
    }
}

/// A monster of the given kind at `(x, y)`, with stats scaled by `level`.
pub fn make_monster(troll: bool, x: i32, y: i32, level: u32) -> (r: Object)
    ensures
        r@.x == x,
        r@.y == y,
        r@.blocks,
        r@.alive,
        r@.fighter is Some,
        r@.fighter.unwrap().on_death == DeathCallback::Monster,
        r@.ai == Some(Ai::Basic),
        r@.item is None,
        r@.equipment is None,
        fresh_content(r@),
        r@.name == if troll { "troll"@ } else { "orc"@ },
        r@.char == if troll { TROLL } else { ORC },
        r@.color == if troll { Color::DarkerGreen } else { Color::DesaturatedGreen },
        r@.fighter == Some(monster_fighter(troll, level)),
        r@ == monster_view(troll, x, y, level),
{
    let mut monster = if troll {
        let mut t = Object::new(x, y, TROLL, "troll", Color::DarkerGreen, true);
        t.fighter = Some(Fighter {
            base_max_hp: 60,
            hp: 30,
            base_defense: 2,
            base_power: 8,
            on_death: DeathCallback::Monster,
            xp: clamp(35 * level as i128),
        });
        t
    } else {
        let mut o = Object::new(x, y, ORC, "orc", Color::DesaturatedGreen, true);
        let table = [Transition { level: 1, value: 20 }, Transition { level: 2, value: 25 }];
        assert(table@ =~= seq![Transition { level: 1, value: 20 }, Transition { level: 2, value: 25 }]);
        let max_hp = from_dungeon_level(&table, level);
        o.fighter = Some(Fighter {
            base_max_hp: clamp(max_hp as i128),
            hp: 20,
            base_defense: clamp((level / 2) as i128),
            base_power: clamp(4 + (level / 2) as i128),
            on_death: DeathCallback::Monster,
            xp: clamp(10 * level as i128),
        });
        o
    };
    monster.ai = Some(Ai::Basic);
    monster.alive = true;
    monster
}

fn gear(slot: Slot, power_bonus: i32, defense_bonus: i32, max_hp_bonus: i32) -> (r: Option<Equipment>)
    ensures
        r == Some(Equipment { slot, equipped: false, power_bonus, defense_bonus, max_hp_bonus }),
{
    Some(Equipment { slot, equipped: false, power_bonus, defense_bonus, max_hp_bonus })
}

/// Name, tag and equipment of a new item of each kind.
pub open spec fn item_template(kind: Item) -> (Seq<char>, Item, Option<Equipment>) {
    match kind {
        Item::Heal => ("healing potion"@, Item::Heal, None),
        Item::Lightning => ("scroll of lightning bolt"@, Item::Lightning, None),
        Item::Fireball => ("scroll of fireball"@, Item::Fireball, None),
        Item::Confuse => ("scroll of confusion"@, Item::Confuse, None),
        Item::BronzeSword => ("bronze sword"@, Item::BronzeSword, Some(gear_of(Slot::RightHand, 2, 0, 0))),
        Item::IronSword => ("iron sword"@, Item::IronSword, Some(gear_of(Slot::RightHand, 4, 0, 0))),
        Item::WoodShield => ("wooden shield"@, Item::WoodShield, Some(gear_of(Slot::LeftHand, 0, 1, 0))),
        Item::IronShield => ("iron shield"@, Item::IronShield, Some(gear_of(Slot::LeftHand, 0, 5, 0))),
        Item::Dagger => ("iron sword"@, Item::IronSword, Some(gear_of(Slot::RightHand, 4, 0, 0))),
        Item::GreatAxe => ("great axe"@, Item::GreatAxe, Some(gear_of(Slot::RightHand, 20, 0, 0))),
        Item::WarHammer => ("war hammer"@, Item::GreatAxe, Some(gear_of(Slot::RightHand, 25, -1i32, 0))),
        Item::ClothPants => ("cloth pants"@, Item::ClothPants, Some(gear_of(Slot::Legs, 0, 2, 3))),
        Item::ClothShirt => ("cloth shirt"@, Item::ClothShirt, Some(gear_of(Slot::Curiass, 0, 2, 3))),
        Item::LeatherHat => ("leather hat"@, Item::LeatherHat, Some(gear_of(Slot::Head, 0, 3, 3))),
        Item::LeatherChest => ("leather chestpiece"@, Item::LeatherChest, Some(gear_of(Slot::Curiass, 0, 4, 3))),
        Item::LeatherWristGaurds => ("leather gauntlets"@, Item::LeatherWristGaurds, Some(gear_of(Slot::Gauntlets, 0, 2, 3))),
        Item::LeatherKneeGaurds => ("leather pants"@, Item::LeatherKneeGaurds, Some(gear_of(Slot::Legs, 0, 2, 3))),
    }
}

pub open spec fn gear_of(slot: Slot, power_bonus: i32, defense_bonus: i32, max_hp_bonus: i32) -> Equipment {
    Equipment { slot, equipped: false, power_bonus, defense_bonus, max_hp_bonus }
}

/// An item of the given kind lying at `(x, y)`.
pub fn make_item(kind: Item, x: i32, y: i32) -> (r: Object)
    ensures
        r@.x == x,
        r@.y == y,
        !r@.blocks,
        !r@.alive,
        r@.item is Some,
        r@.fighter is None,
        r@.ai is None,
        fresh_content(r@),
        r@.name == item_template(kind).0,
        r@.item == Some(item_template(kind).1),
        r@.equipment == item_template(kind).2,
        r@ == item_view(kind, x, y),
{
    let mut object = match kind {
        Item::Heal => Object::new(x, y, '\u{14}', "healing potion", Color::Violet, false),
        Item::Lightning => Object::new(x, y, '-', "scroll of lightning bolt", Color::LightYellow, false),
        Item::Fireball => Object::new(x, y, '-', "scroll of fireball", Color::LightRed, false),
        Item::Confuse => Object::new(x, y, '-', "scroll of confusion", Color::Amber, false),
        Item::BronzeSword => Object::new(x, y, '/', "bronze sword", Color::Sky, false),
        Item::IronSword => Object::new(x, y, '/', "iron sword", Color::Sky, false),
        Item::WoodShield => Object::new(x, y, '[', "wooden shield", Color::DarkerOrange, false),
        Item::IronShield => Object::new(x, y, '[', "iron shield", Color::DarkerOrange, false),
        Item::Dagger => Object::new(x, y, '/', "iron sword", Color::Sky, false),
        Item::GreatAxe => Object::new(x, y, 'Y', "great axe", Color::Violet, false),
        Item::WarHammer => Object::new(x, y, 'T', "war hammer", Color::Violet, false),
        Item::ClothPants => Object::new(x, y, 'P', "cloth pants", Color::Sky, false),
        Item::ClothShirt => Object::new(x, y, 'S', "cloth shirt", Color::Sky, false),
        Item::LeatherHat => Object::new(x, y, 'H', "leather hat", Color::Sky, false),
        Item::LeatherChest => Object::new(x, y, 'S', "leather chestpiece", Color::Sky, false),
        Item::LeatherWristGaurds => Object::new(x, y, 'S', "leather gauntlets", Color::Sky, false),
        Item::LeatherKneeGaurds => Object::new(x, y, 'S', "leather pants", Color::Sky, false),
    };
    let (tag, equipment) = match kind {
        Item::Heal => (Item::Heal, None),
        Item::Lightning => (Item::Lightning, None),
        Item::Fireball => (Item::Fireball, None),
        Item::Confuse => (Item::Confuse, None),
        Item::BronzeSword => (Item::BronzeSword, gear(Slot::RightHand, 2, 0, 0)),
        Item::IronSword => (Item::IronSword, gear(Slot::RightHand, 4, 0, 0)),
        Item::WoodShield => (Item::WoodShield, gear(Slot::LeftHand, 0, 1, 0)),
        Item::IronShield => (Item::IronShield, gear(Slot::LeftHand, 0, 5, 0)),
        Item::Dagger => (Item::IronSword, gear(Slot::RightHand, 4, 0, 0)),
        Item::GreatAxe => (Item::GreatAxe, gear(Slot::RightHand, 20, 0, 0)),
        Item::WarHammer => (Item::GreatAxe, gear(Slot::RightHand, 25, -1, 0)),
        Item::ClothPants => (Item::ClothPants, gear(Slot::Legs, 0, 2, 3)),
        Item::ClothShirt => (Item::ClothShirt, gear(Slot::Curiass, 0, 2, 3)),
        Item::LeatherHat => (Item::LeatherHat, gear(Slot::Head, 0, 3, 3)),
        Item::LeatherChest => (Item::LeatherChest, gear(Slot::Curiass, 0, 4, 3)),
        Item::LeatherWristGaurds => (Item::LeatherWristGaurds, gear(Slot::Gauntlets, 0, 2, 3)),
        Item::LeatherKneeGaurds => (Item::LeatherKneeGaurds, gear(Slot::Legs, 0, 2, 3)),
    };
    object.item = Some(tag);
    object.equipment = equipment;
    object
}


proof fn lemma_weight_bounds(w: Seq<u32>, b: int)
    requires
        forall|i: int| 0 <= i < w.len() ==> #[trigger] w[i] <= b,
    ensures
        weight_total(w) <= w.len() * b,
        w.len() > 0 && w[0] > 0 ==> weight_total(w) > 0,
    decreases w.len(),
{
    if w.len() > 0 {
        lemma_weight_bounds(w.drop_last(), b);
        if w.len() > 1 {
            assert(w.drop_last()[0] == w[0]);
        } else {
            assert(w.drop_last().len() == 0);
        }
        assert((w.len() - 1) * b + b == w.len() * b) by (nonlinear_arith);
    }
}

/// The item kinds that can be found, in the order of their weights.
pub open spec fn found_item_spec(i: int) -> Item {
    if i == 0 { Item::Heal }
    else if i == 1 { Item::Lightning }
    else if i == 2 { Item::Fireball }
    else if i == 3 { Item::Confuse }
    else if i == 4 { Item::Dagger }
    else if i == 5 { Item::ClothPants }
    else if i == 6 { Item::ClothShirt }
    else if i == 7 { Item::LeatherHat }
    else if i == 8 { Item::LeatherChest }
    else if i == 9 { Item::LeatherKneeGaurds }
    else if i == 10 { Item::LeatherWristGaurds }
    else if i == 11 { Item::BronzeSword }
    else if i == 12 { Item::IronSword }
    else if i == 13 { Item::WoodShield }
    else { Item::IronShield }
}

fn found_item(i: usize) -> (r: Item)
    ensures
        r == found_item_spec(i as int),
{
    match i {
        0 => Item::Heal,
        1 => Item::Lightning,
        2 => Item::Fireball,
        3 => Item::Confuse,
        4 => Item::Dagger,
        5 => Item::ClothPants,
        6 => Item::ClothShirt,
        7 => Item::LeatherHat,
        8 => Item::LeatherChest,
        9 => Item::LeatherKneeGaurds,
        10 => Item::LeatherWristGaurds,
        11 => Item::BronzeSword,
        12 => Item::IronSword,
        13 => Item::WoodShield,
        _ => Item::IronShield,
    }
}

/// A weight that is `value` from level `from` on, and 0 before.
pub open spec fn step_weight(level: u32, from: u32, value: u32) -> u32 {
    level_value(seq![Transition { level: from, value }], level)
}

fn one_step(level: u32, from: u32, value: u32) -> (r: u32)
    ensures
        r == step_weight(level, from, value),
        r <= value,
{
    let table = [Transition { level: from, value }];
    assert(table@ =~= seq![Transition { level: from, value }]);
    from_dungeon_level(&table, level)
}

/// The weight of each kind of item found at `level`, in the order of
/// `found_item_spec`.
pub open spec fn item_weight(level: u32, i: int) -> u32 {
    if i == 0 { 35 }
    else if i == 1 { step_weight(level, 4, 25) }
    else if i == 2 { step_weight(level, 6, 25) }
    else if i == 3 { step_weight(level, 2, 10) }
    else if i == 4 { step_weight(level, 1, 5) }
    else if i == 5 { step_weight(level, 3, 10) }
    else if i == 6 { step_weight(level, 3, 10) }
    else if i == 7 { step_weight(level, 4, 10) }
    else if i == 8 { step_weight(level, 4, 10) }
    else if i == 9 { step_weight(level, 4, 10) }
    else if i == 10 { step_weight(level, 4, 10) }
    else if i == 11 { step_weight(level, 4, 5) }
    else if i == 12 { step_weight(level, 6, 5) }
    else if i == 13 { step_weight(level, 8, 15) }
    else { step_weight(level, 10, 15) }
}

fn item_weights(level: u32) -> (r: Vec<u32>)
    ensures
        r.len() == 15,
        r@[0] == 35,
        forall|i: int| 0 <= i < r.len() ==> #[trigger] r@[i] <= 35,
        forall|i: int| 0 <= i < r.len() ==> #[trigger] r@[i] == item_weight(level, i),
{
    let r = vec![
        35,
        one_step(level, 4, 25),
        one_step(level, 6, 25),
        one_step(level, 2, 10),
        one_step(level, 1, 5),
        one_step(level, 3, 10),
        one_step(level, 3, 10),
        one_step(level, 4, 10),
        one_step(level, 4, 10),
        one_step(level, 4, 10),
        one_step(level, 4, 10),
        one_step(level, 4, 5),
        one_step(level, 6, 5),
        one_step(level, 8, 15),
        one_step(level, 10, 15),
    ];
    r
}

/// The weight of trolls at `level`; orcs always weigh 80.
pub open spec fn troll_chance(level: u32) -> u32 {
    level_value(
        seq![Transition { level: 3, value: 15 }, Transition { level: 5, value: 30 }, Transition { level: 7, value: 60 }],
        level,
    )
}

/// Weight of monster kind `c` (0 for an orc, 1 for a troll) at `level`.
pub open spec fn monster_weight(level: u32, c: int) -> int {
    if c == 0 { 80 } else if c == 1 { troll_chance(level) as int } else { 0 }
}

/// The most monsters a room gets at `level`.
pub open spec fn max_monsters(level: u32) -> u32 {
    level_value(
        seq![Transition { level: 1, value: 2 }, Transition { level: 4, value: 3 }, Transition { level: 6, value: 5 }],
        level,
    )
}

/// The most items a room gets at `level`.
pub open spec fn max_items(level: u32) -> u32 {
    level_value(seq![Transition { level: 1, value: 1 }, Transition { level: 4, value: 2 }], level)
}

/// One draw of the generator: a position and the index of the chosen kind.
pub type Draw = (i32, i32, usize);

/// The roster after the first `n` monster draws: a monster appears for each
/// draw whose tile is free at that point.
pub open spec fn place_monsters(v: Seq<ObjectView>, g: Seq<Seq<Tile>>, level: u32, ms: Seq<Draw>, n: int) -> Seq<ObjectView>
    decreases n,
{
    if n <= 0 {
        v
    } else {
        let v1 = place_monsters(v, g, level, ms, n - 1);
        let d = ms[n - 1];
        if !blocked_at(g, v1, d.0 as int, d.1 as int) {
            v1.push(monster_view(d.2 == 1, d.0, d.1, level))
        } else {
            v1
        }
    }
}

/// The roster after the first `n` item draws, as for monsters.
pub open spec fn place_items(v: Seq<ObjectView>, g: Seq<Seq<Tile>>, is: Seq<Draw>, n: int) -> Seq<ObjectView>
    decreases n,
{
    if n <= 0 {
        v
    } else {
        let v1 = place_items(v, g, is, n - 1);
        let d = is[n - 1];
        if !blocked_at(g, v1, d.0 as int, d.1 as int) {
            v1.push(item_view(found_item_spec(d.2 as int), d.0, d.1))
        } else {
            v1
        }
    }
}

/// The roster after all monster draws, then all item draws.
pub open spec fn placed(v: Seq<ObjectView>, g: Seq<Seq<Tile>>, level: u32, ms: Seq<Draw>, is: Seq<Draw>) -> Seq<ObjectView> {
    place_items(place_monsters(v, g, level, ms, ms.len() as int), g, is, is.len() as int)
}

/// Draws that the generator can make for `room` at `level`: no more than the
/// tables allow, inside the room, and of a kind whose weight is not zero.
pub open spec fn draws_ok(room: Rect, level: u32, ms: Seq<Draw>, is: Seq<Draw>) -> bool {
    &&& ms.len() <= max_monsters(level)
    &&& is.len() <= max_items(level)
    &&& forall|i: int|
        0 <= i < ms.len() ==> in_interior(room, (#[trigger] ms[i]).0 as int, ms[i].1 as int) && ms[i].2 < 2
            && monster_weight(level, ms[i].2 as int) > 0
    &&& forall|i: int|
        0 <= i < is.len() ==> in_interior(room, (#[trigger] is[i]).0 as int, is[i].1 as int) && is[i].2 < 15
            && item_weight(level, is[i].2 as int) > 0
}

/// Places the drawn monsters, then the drawn items, each on its tile when
/// that tile is free.
pub fn place_drawn(objects: &mut Vec<Object>, map: &TileMap, level: u32, monsters: &Vec<Draw>, items: &Vec<Draw>)
    ensures
        views(final(objects)@) == placed(views(old(objects)@), grid(map), level, monsters@, items@),
{
    let ghost v0 = views(objects@);
    let ghost g = grid(map);
    let mut i: usize = 0;
    while i < monsters.len()
        invariant
            i <= monsters.len(),
            g == grid(map),
            views(objects@) == place_monsters(v0, g, level, monsters@, i as int),
        decreases monsters.len() - i,
    {
        let (x, y, c) = monsters[i];
        if !is_blocked(x, y, map, objects) {
            let ghost before = views(objects@);
            let m = make_monster(c == 1, x, y, level);
            objects.push(m);
            assert(views(objects@) =~= before.push(m@));
        }
        i = i + 1;
    }
    let ghost v1 = views(objects@);
    let mut i: usize = 0;
    while i < items.len()
        invariant
            i <= items.len(),
            g == grid(map),
            v1 == place_monsters(v0, g, level, monsters@, monsters@.len() as int),
            views(objects@) == place_items(v1, g, items@, i as int),
        decreases items.len() - i,
    {
        let (x, y, c) = items[i];
        if !is_blocked(x, y, map, objects) {
            let ghost before = views(objects@);
            let o = make_item(found_item(c), x, y);
            objects.push(o);
            assert(views(objects@) =~= before.push(o@));
        }
        i = i + 1;
    }
}

/// A monster or an item as the generator makes them at `level`.
pub open spec fn generated(o: ObjectView, level: u32) -> bool {
    (exists|t: bool| #[trigger] monster_view(t, o.x, o.y, level) == o) || (exists|k: Item|
        #[trigger] item_view(k, o.x, o.y) == o)
}

/// The roster grew by objects generated inside `room`.
pub open spec fn grew_in_room(before: Seq<ObjectView>, after: Seq<ObjectView>, room: Rect) -> bool {
    &&& after.len() >= before.len()
    &&& after.subrange(0, before.len() as int) == before
    &&& forall|i: int|
        before.len() <= i < after.len() ==> in_interior(room, (#[trigger] after[i]).x as int, after[i].y as int)
            && fresh_content(after[i])
}

/// Every object added after `before` was generated for `level`.
pub open spec fn all_generated(before: Seq<ObjectView>, after: Seq<ObjectView>, level: u32) -> bool {
    forall|i: int| before.len() <= i < after.len() ==> generated(#[trigger] after[i], level)
}

/// Each object added after `before` went to a tile that was free when it
/// was placed: not blocked by terrain nor by a blocking object.
pub open spec fn placed_on_free_tiles(g: Seq<Seq<Tile>>, before: Seq<ObjectView>, after: Seq<ObjectView>) -> bool {
    forall|i: int|
        before.len() <= i < after.len() ==> !blocked_at(g, after.take(i), (#[trigger] after[i]).x as int, after[i].y as int)
}

proof fn lemma_push_keeps(
    g: Seq<Seq<Tile>>,
    v: Seq<ObjectView>,
    after: Seq<ObjectView>,
    o: ObjectView,
    room: Rect,
    level: u32,
)
    requires
        grew_in_room(v, after, room),
        all_generated(v, after, level),
        placed_on_free_tiles(g, v, after),
        in_interior(room, o.x as int, o.y as int),
        fresh_content(o),
        generated(o, level),
        !blocked_at(g, after, o.x as int, o.y as int),
    ensures
        grew_in_room(v, after.push(o), room),
        all_generated(v, after.push(o), level),
        placed_on_free_tiles(g, v, after.push(o)),
{
    let a2 = after.push(o);
    assert(a2.subrange(0, v.len() as int) =~= after.subrange(0, v.len() as int));
    assert(a2.take(after.len() as int) =~= after);
    assert forall|i: int| v.len() <= i < a2.len() implies !blocked_at(g, a2.take(i), (#[trigger] a2[i]).x as int, a2[i].y as int) by {
        if i < after.len() {
            assert(a2.take(i) =~= after.take(i));
            assert(a2[i] == after[i]);
        }
    }
    assert forall|i: int| v.len() <= i < a2.len() implies generated(#[trigger] a2[i], level) by {
        if i < after.len() {
            assert(a2[i] == after[i]);
        }
    }
    assert forall|i: int| v.len() <= i < a2.len() implies in_interior(room, (#[trigger] a2[i]).x as int, a2[i].y as int)
        && fresh_content(a2[i]) by {
        if i < after.len() {
            assert(a2[i] == after[i]);
        }
    }
}

proof fn lemma_placed(v: Seq<ObjectView>, g: Seq<Seq<Tile>>, level: u32, room: Rect, ms: Seq<Draw>, is: Seq<Draw>)
    requires
        draws_ok(room, level, ms, is),
    ensures
        grew_in_room(v, placed(v, g, level, ms, is), room),
        all_generated(v, placed(v, g, level, ms, is), level),
        placed_on_free_tiles(g, v, placed(v, g, level, ms, is)),
{
    lemma_place_monsters(v, g, level, room, ms, is, ms.len() as int);
    lemma_place_items(v, place_monsters(v, g, level, ms, ms.len() as int), g, level, room, ms, is, is.len() as int);
}

proof fn lemma_place_monsters(v: Seq<ObjectView>, g: Seq<Seq<Tile>>, level: u32, room: Rect, ms: Seq<Draw>, is: Seq<Draw>, n: int)
    requires
        draws_ok(room, level, ms, is),
        0 <= n <= ms.len(),
    ensures
        grew_in_room(v, place_monsters(v, g, level, ms, n), room),
        all_generated(v, place_monsters(v, g, level, ms, n), level),
        placed_on_free_tiles(g, v, place_monsters(v, g, level, ms, n)),
    decreases n,
{
    if n == 0 {
        assert(v.subrange(0, v.len() as int) =~= v);
    } else {
        lemma_place_monsters(v, g, level, room, ms, is, n - 1);
        let v1 = place_monsters(v, g, level, ms, n - 1);
        let d = ms[n - 1];
        if !blocked_at(g, v1, d.0 as int, d.1 as int) {
            let o = monster_view(d.2 == 1, d.0, d.1, level);
            assert(generated(o, level));
            lemma_push_keeps(g, v, v1, o, room, level);
        }
    }
}

proof fn lemma_place_items(
    v: Seq<ObjectView>,
    vm: Seq<ObjectView>,
    g: Seq<Seq<Tile>>,
    level: u32,
    room: Rect,
    ms: Seq<Draw>,
    is: Seq<Draw>,
    n: int,
)
    requires
        draws_ok(room, level, ms, is),
        0 <= n <= is.len(),
        grew_in_room(v, vm, room),
        all_generated(v, vm, level),
        placed_on_free_tiles(g, v, vm),
    ensures
        grew_in_room(v, place_items(vm, g, is, n), room),
        all_generated(v, place_items(vm, g, is, n), level),
        placed_on_free_tiles(g, v, place_items(vm, g, is, n)),
    decreases n,
{
    if n > 0 {
        lemma_place_items(v, vm, g, level, room, ms, is, n - 1);
        let v1 = place_items(vm, g, is, n - 1);
        let d = is[n - 1];
        if !blocked_at(g, v1, d.0 as int, d.1 as int) {
            let o = item_view(found_item_spec(d.2 as int), d.0, d.1);
            assert(generated(o, level));
            lemma_push_keeps(g, v, v1, o, room, level);
        }
    }
}

/// Fills `room` with a random number of monsters and items, scaled by
/// `level`, on tiles that are neither blocked nor taken.
pub fn place_objects(room: Rect, objects: &mut Vec<Object>, map: &TileMap, level: u32)
    requires
        rect_on_grid(room),
        room.x1 + 1 < room.x2,
        room.y1 + 1 < room.y2,
    ensures
        exists|ms: Seq<Draw>, is: Seq<Draw>|
            draws_ok(room, level, ms, is) && views(final(objects)@) == #[trigger] placed(
                views(old(objects)@),
                grid(map),
                level,
                ms,
                is,
            ),
        grew_in_room(views(old(objects)@), views(final(objects)@), room),
        all_generated(views(old(objects)@), views(final(objects)@), level),
        placed_on_free_tiles(grid(map), views(old(objects)@), views(final(objects)@)),
{
    let monster_table = [
        Transition { level: 1, value: 2 },
        Transition { level: 4, value: 3 },
        Transition { level: 6, value: 5 },
    ];
    assert(monster_table@ =~= seq![
        Transition { level: 1, value: 2 },
        Transition { level: 4, value: 3 },
        Transition { level: 6, value: 5 },
    ]);
    let max_m = from_dungeon_level(&monster_table, level);
    let troll_table = [
        Transition { level: 3, value: 15 },
        Transition { level: 5, value: 30 },
        Transition { level: 7, value: 60 },
    ];
    assert(troll_table@ =~= seq![
        Transition { level: 3, value: 15 },
        Transition { level: 5, value: 30 },
        Transition { level: 7, value: 60 },
    ]);
    let num_monsters = random_range(0, max_m as i32 + 1);
    let mut ms: Vec<Draw> = Vec::new();
    let mut n: i32 = 0;
    while n < num_monsters
        invariant
            rect_on_grid(room),
            room.x1 + 1 < room.x2,
            room.y1 + 1 < room.y2,
            0 <= n <= num_monsters,
            num_monsters <= max_m,
            max_m == max_monsters(level),
            troll_table@ == seq![
                Transition { level: 3, value: 15 },
                Transition { level: 5, value: 30 },
                Transition { level: 7, value: 60 },
            ],
            ms.len() == n,
            forall|i: int|
                0 <= i < ms.len() ==> in_interior(room, (#[trigger] ms@[i]).0 as int, ms@[i].1 as int) && ms@[i].2 < 2
                    && monster_weight(level, ms@[i].2 as int) > 0,
        decreases num_monsters - n,
    {
        let x = random_range(room.x1 + 1, room.x2);
        let y = random_range(room.y1 + 1, room.y2);
        let troll = from_dungeon_level(&troll_table, level);
        let weights = vec![80, troll];
        proof { lemma_weight_bounds(weights@, 80); }
        let choice = weighted_index(&weights);
        ms.push((x, y, choice));
        n = n + 1;
    }
    let item_table = [Transition { level: 1, value: 1 }, Transition { level: 4, value: 2 }];
    assert(item_table@ =~= seq![Transition { level: 1, value: 1 }, Transition { level: 4, value: 2 }]);
    let max_i = from_dungeon_level(&item_table, level);
    let num_items = random_range(0, max_i as i32 + 1);
    let mut is: Vec<Draw> = Vec::new();
    let mut n: i32 = 0;
    while n < num_items
        invariant
            rect_on_grid(room),
            room.x1 + 1 < room.x2,
            room.y1 + 1 < room.y2,
            0 <= n <= num_items,
            num_items <= max_i,
            max_i == max_items(level),
            is.len() == n,
            forall|i: int|
                0 <= i < is.len() ==> in_interior(room, (#[trigger] is@[i]).0 as int, is@[i].1 as int) && is@[i].2 < 15
                    && item_weight(level, is@[i].2 as int) > 0,
        decreases num_items - n,
    {
        let x = random_range(room.x1 + 1, room.x2);
        let y = random_range(room.y1 + 1, room.y2);
        let weights = item_weights(level);
        proof { lemma_weight_bounds(weights@, 35); }
        let choice = weighted_index(&weights);
        is.push((x, y, choice));
        n = n + 1;
    }
    let ghost v0 = views(objects@);
    place_drawn(objects, map, level, &ms, &is);
    proof {
        assert(draws_ok(room, level, ms@, is@));
        lemma_placed(v0, grid(map), level, room, ms@, is@);
    }
}

/// A room of the generator: on the grid and at least `ROOM_MIN_SIZE` wide and high.
pub open spec fn room_ok(r: Rect) -> bool {
    rect_on_grid(r) && r.x2 - r.x1 >= ROOM_MIN_SIZE && r.y2 - r.y1 >= ROOM_MIN_SIZE
}

/// No two rooms intersect, borders included.
pub open spec fn rooms_disjoint(rooms: Seq<Rect>) -> bool {
    forall|i: int, j: int| 0 <= i < j < rooms.len() ==> !rects_intersect(#[trigger] rooms[i], #[trigger] rooms[j])
}

/// Every tile inside a room is passable.
pub open spec fn interiors_passable(g: Seq<Seq<Tile>>, rooms: Seq<Rect>) -> bool {
    forall|k: int, x: int, y: int|
        0 <= k < rooms.len() && #[trigger] in_interior(rooms[k], x, y) ==> passable(g, x, y)
}

pub open spec fn in_some_room(rooms: Seq<Rect>, x: int, y: int) -> bool {
    exists|k: int| 0 <= k < rooms.len() && #[trigger] in_interior(rooms[k], x, y)
}

/// The stairs as generation places them at `(x, y)`.
pub open spec fn stairs_view(x: i32, y: i32) -> ObjectView {
    ObjectView {
        x,
        y,
        char: '<',
        color: Color::White,
        name: "stairs"@,
        blocks: false,
        alive: false,
        fighter: None,
        ai: None,
        item: None,
        always_visible: true,
        level: 1,
        equipment: None,
    }
}

/// Every tile of the row `y` between `x1` and `x2` is passable.
pub open spec fn h_line(g: Seq<Seq<Tile>>, x1: int, x2: int, y: int) -> bool {
    forall|x: int| min_int(x1, x2) <= x <= max_int(x1, x2) ==> #[trigger] passable(g, x, y)
}

/// Every tile of the column `x` between `y1` and `y2` is passable.
pub open spec fn v_line(g: Seq<Seq<Tile>>, y1: int, y2: int, x: int) -> bool {
    forall|y: int| min_int(y1, y2) <= y <= max_int(y1, y2) ==> #[trigger] passable(g, x, y)
}

/// An L-shaped passage joins `a` and `b`: along the row first or the
/// column first.
pub open spec fn joined(g: Seq<Seq<Tile>>, a: (int, int), b: (int, int)) -> bool {
    (h_line(g, a.0, b.0, a.1) && v_line(g, a.1, b.1, b.0)) || (v_line(g, a.1, b.1, a.0) && h_line(g, a.0, b.0, b.1))
}

/// Each room is joined to the previous one, center to center.
pub open spec fn rooms_joined(g: Seq<Seq<Tile>>, rooms: Seq<Rect>) -> bool {
    forall|k: int| 1 <= k < rooms.len() ==> joined(g, rect_center(rooms[k - 1]), rect_center(#[trigger] rooms[k]))
}

/// A generated level: rooms that do not overlap, all floor inside, each
/// joined to the previous one by an L-shaped tunnel; the player at the center
/// of the first room; the stairs at the center of the last; and in between
/// only monsters and items generated for `level`, standing inside rooms.
pub open spec fn level_layout(
    g: Seq<Seq<Tile>>,
    objs: Seq<ObjectView>,
    rooms: Seq<Rect>,
    player: ObjectView,
    level: u32,
) -> bool {
    &&& rooms.len() >= 1
    &&& forall|k: int| 0 <= k < rooms.len() ==> room_ok(#[trigger] rooms[k])
    &&& rooms_disjoint(rooms)
    &&& grid_wf(g)
    &&& interiors_passable(g, rooms)
    &&& rooms_joined(g, rooms)
    &&& objs.len() >= 2
    &&& objs[PLAYER as int] == (ObjectView {
        x: rect_center(rooms[0]).0 as i32,
        y: rect_center(rooms[0]).1 as i32,
        ..player
    })
    &&& passable(g, objs[PLAYER as int].x as int, objs[PLAYER as int].y as int)
    &&& objs.last() == stairs_view(rect_center(rooms.last()).0 as i32, rect_center(rooms.last()).1 as i32)
    &&& passable(g, objs.last().x as int, objs.last().y as int)
    &&& forall|i: int|
        1 <= i < objs.len() - 1 ==> in_some_room(rooms, (#[trigger] objs[i]).x as int, objs[i].y as int)
            && fresh_content(objs[i]) && generated(objs[i], level) && objs[i].name != "stairs"@
}

proof fn lemma_generated_not_stairs(o: ObjectView, level: u32)
    requires
        generated(o, level),
    ensures
        o.name != "stairs"@,
{
    reveal_strlit("stairs");
    reveal_strlit("orc");
    reveal_strlit("troll");
    reveal_strlit("healing potion");
    reveal_strlit("scroll of lightning bolt");
    reveal_strlit("scroll of fireball");
    reveal_strlit("scroll of confusion");
    reveal_strlit("bronze sword");
    reveal_strlit("iron sword");
    reveal_strlit("wooden shield");
    reveal_strlit("iron shield");
    reveal_strlit("great axe");
    reveal_strlit("war hammer");
    reveal_strlit("cloth pants");
    reveal_strlit("cloth shirt");
    reveal_strlit("leather hat");
    reveal_strlit("leather chestpiece");
    reveal_strlit("leather gauntlets");
    reveal_strlit("leather pants");
    if exists|t: bool| #[trigger] monster_view(t, o.x, o.y, level) == o {
        let t = choose|t: bool| #[trigger] monster_view(t, o.x, o.y, level) == o;
        assert(o.name.len() != 6);
    } else {
        let k = choose|k: Item| #[trigger] item_view(k, o.x, o.y) == o;
        assert(o.name.len() != 6);
    }
}

fn solid_map() -> (r: TileMap)
    ensures
        grid_wf(grid(&r)),
{
    let mut map: TileMap = Vec::new();
    let mut x: i32 = 0;
    while x < MAP_WIDTH
        invariant
            0 <= x <= MAP_WIDTH,
            map.len() == x,
            forall|i: int| 0 <= i < x ==> #[trigger] map@[i]@.len() == MAP_HEIGHT,
        decreases MAP_WIDTH - x,
    {
        let mut col: Vec<Tile> = Vec::new();
        let mut y: i32 = 0;
        while y < MAP_HEIGHT
            invariant
                0 <= y <= MAP_HEIGHT,
                col.len() == y,
            decreases MAP_HEIGHT - y,
        {
            col.push(Tile::wall());
            y = y + 1;
        }
        map.push(col);
        x = x + 1;
    }
    map
}

fn overlaps_any(new_room: &Rect, rooms: &Vec<Rect>) -> (r: bool)
    ensures
        r == exists|k: int| 0 <= k < rooms.len() && rects_intersect(*new_room, #[trigger] rooms@[k]),
{
    let mut i: usize = 0;
    while i < rooms.len()
        invariant
            i <= rooms.len(),
            forall|k: int| 0 <= k < i ==> !rects_intersect(*new_room, #[trigger] rooms@[k]),
        decreases rooms.len() - i,
    {
        if new_room.intersects_with(&rooms[i]) {
            return true;
        }
        i = i + 1;
    }
    false
}

proof fn lemma_carving_keeps_passable(g0: Seq<Seq<Tile>>, g1: Seq<Seq<Tile>>, rooms: Seq<Rect>)
    requires
        grid_wf(g0),
        grid_wf(g1),
        interiors_passable(g0, rooms),
        rooms_joined(g0, rooms),
        forall|x: int, y: int|
            0 <= x < MAP_WIDTH && 0 <= y < MAP_HEIGHT ==> #[trigger] g1[x][y] == empty_tile() || g1[x][y] == g0[x][y],
    ensures
        interiors_passable(g1, rooms),
        rooms_joined(g1, rooms),
{
    lemma_more_passable(g0, g1);
    assert forall|k: int, x: int, y: int|
        0 <= k < rooms.len() && #[trigger] in_interior(rooms[k], x, y) implies passable(g1, x, y) by {
        assert(passable(g0, x, y));
    }
    assert forall|k: int| 1 <= k < rooms.len() implies joined(g1, rect_center(rooms[k - 1]), rect_center(#[trigger] rooms[k])) by {
        let a = rect_center(rooms[k - 1]);
        let b = rect_center(rooms[k]);
        assert(joined(g0, a, b));
        lemma_lines_kept(g0, g1, a, b);
    }
}

proof fn lemma_carving_keeps_passable_interiors(g0: Seq<Seq<Tile>>, g1: Seq<Seq<Tile>>, rooms: Seq<Rect>)
    requires
        grid_wf(g0),
        grid_wf(g1),
        interiors_passable(g0, rooms),
        forall|x: int, y: int|
            0 <= x < MAP_WIDTH && 0 <= y < MAP_HEIGHT ==> #[trigger] g1[x][y] == empty_tile() || g1[x][y] == g0[x][y],
    ensures
        interiors_passable(g1, rooms),
{
    lemma_more_passable(g0, g1);
    assert forall|k: int, x: int, y: int|
        0 <= k < rooms.len() && #[trigger] in_interior(rooms[k], x, y) implies passable(g1, x, y) by {
        assert(passable(g0, x, y));
    }
}

proof fn lemma_more_passable(g0: Seq<Seq<Tile>>, g1: Seq<Seq<Tile>>)
    requires
        grid_wf(g0),
        grid_wf(g1),
        forall|x: int, y: int|
            0 <= x < MAP_WIDTH && 0 <= y < MAP_HEIGHT ==> #[trigger] g1[x][y] == empty_tile() || g1[x][y] == g0[x][y],
    ensures
        forall|x: int, y: int| passable(g0, x, y) ==> #[trigger] passable(g1, x, y),
{
    assert forall|x: int, y: int| passable(g0, x, y) implies #[trigger] passable(g1, x, y) by {
        assert(g1[x][y] == empty_tile() || g1[x][y] == g0[x][y]);
    }
}

proof fn lemma_lines_kept(g0: Seq<Seq<Tile>>, g1: Seq<Seq<Tile>>, a: (int, int), b: (int, int))
    requires
        forall|x: int, y: int| passable(g0, x, y) ==> #[trigger] passable(g1, x, y),
    ensures
        h_line(g0, a.0, b.0, a.1) ==> h_line(g1, a.0, b.0, a.1),
        h_line(g0, a.0, b.0, b.1) ==> h_line(g1, a.0, b.0, b.1),
        v_line(g0, a.1, b.1, a.0) ==> v_line(g1, a.1, b.1, a.0),
        v_line(g0, a.1, b.1, b.0) ==> v_line(g1, a.1, b.1, b.0),
        joined(g0, a, b) ==> joined(g1, a, b),
{
    if h_line(g0, a.0, b.0, a.1) {
        assert forall|x: int| min_int(a.0, b.0) <= x <= max_int(a.0, b.0) implies #[trigger] passable(g1, x, a.1) by {
            assert(passable(g0, x, a.1));
        }
    }
    if h_line(g0, a.0, b.0, b.1) {
        assert forall|x: int| min_int(a.0, b.0) <= x <= max_int(a.0, b.0) implies #[trigger] passable(g1, x, b.1) by {
            assert(passable(g0, x, b.1));
        }
    }
    if v_line(g0, a.1, b.1, a.0) {
        assert forall|y: int| min_int(a.1, b.1) <= y <= max_int(a.1, b.1) implies #[trigger] passable(g1, a.0, y) by {
            assert(passable(g0, a.0, y));
        }
    }
    if v_line(g0, a.1, b.1, b.0) {
        assert forall|y: int| min_int(a.1, b.1) <= y <= max_int(a.1, b.1) implies #[trigger] passable(g1, b.0, y) by {
            assert(passable(g0, b.0, y));
        }
    }
}

/// Generates a level: up to `MAX_ROOMS` rooms of random size and position that
/// do not overlap, each joined to the previous one by an L-shaped tunnel and
/// filled with content scaled by `level`. The roster keeps only the player,
/// who starts at the center of the first room; the stairs go to the center of
/// the last room.
pub fn make_map(objects: &mut Vec<Object>, level: u32) -> (r: TileMap)
    requires
        old(objects).len() >= 1,
    ensures
        exists|rooms: Seq<Rect>|
            #[trigger] level_layout(grid(&r), views(final(objects)@), rooms, views(old(objects)@)[PLAYER as int], level),
{
    let mut map = solid_map();
    let ghost first_player = views(objects@)[PLAYER as int];
    objects.truncate(1);
    let mut rooms: Vec<Rect> = Vec::new();
    let mut n: i32 = 0;
    while n < MAX_ROOMS
        invariant
            0 <= n <= MAX_ROOMS,
            n > 0 ==> rooms.len() >= 1,
            grid_wf(grid(&map)),
            forall|k: int| 0 <= k < rooms.len() ==> room_ok(#[trigger] rooms@[k]),
            rooms_disjoint(rooms@),
            interiors_passable(grid(&map), rooms@),
            rooms_joined(grid(&map), rooms@),
            objects.len() >= 1,
            views(objects@)[PLAYER as int] == if rooms.len() == 0 {
                first_player
            } else {
                ObjectView { x: rect_center(rooms@[0]).0 as i32, y: rect_center(rooms@[0]).1 as i32, ..first_player }
            },
            forall|i: int|
                1 <= i < objects.len() ==> in_some_room(rooms@, (#[trigger] views(objects@)[i]).x as int, views(objects@)[i].y as int)
                    && fresh_content(views(objects@)[i]) && generated(views(objects@)[i], level),
        decreases MAX_ROOMS - n,
    {
        let w = random_range(ROOM_MIN_SIZE, ROOM_MAX_SIZE + 1);
        let h = random_range(ROOM_MIN_SIZE, ROOM_MAX_SIZE + 1);
        let x = random_range(0, MAP_WIDTH - w);
        let y = random_range(0, MAP_HEIGHT - h);
        let new_room = Rect::new(x, y, w, h);
        let failed = overlaps_any(&new_room, &rooms);
        if !failed {
            let ghost g0 = grid(&map);
            let ghost r0 = rooms@;
            let ghost r1 = rooms@.push(new_room);
            create_room(new_room, &mut map);
            proof {
                lemma_carving_keeps_passable(g0, grid(&map), r0);
                assert(interiors_passable(grid(&map), r1)) by {
                    assert forall|k: int, xx: int, yy: int|
                        0 <= k < r1.len() && #[trigger] in_interior(r1[k], xx, yy) implies passable(grid(&map), xx, yy) by {
                        if k < r0.len() {
                            assert(r1[k] == r0[k]);
                        } else {
                            assert(grid(&map)[xx][yy] == empty_tile());
                        }
                    }
                }
            }
            let ghost v0 = views(objects@);
            place_objects(new_room, objects, &map, level);
            proof {
                assert forall|i: int| 1 <= i < objects.len() implies in_some_room(r1, (#[trigger] views(objects@)[i]).x as int, views(objects@)[i].y as int)
                    && fresh_content(views(objects@)[i]) && generated(views(objects@)[i], level) by {
                    if i < v0.len() {
                        assert(views(objects@)[i] == views(objects@).subrange(0, v0.len() as int)[i]);
                        let k = choose|k: int| 0 <= k < r0.len() && #[trigger] in_interior(r0[k], v0[i].x as int, v0[i].y as int);
                        assert(r1[k] == r0[k]);
                    } else {
                        assert(in_interior(r1[r0.len() as int], views(objects@)[i].x as int, views(objects@)[i].y as int));
                    }
                }
                assert(views(objects@)[PLAYER as int] == views(objects@).subrange(0, v0.len() as int)[PLAYER as int]);
            }
            let (new_x, new_y) = new_room.center();
            let ghost g1 = grid(&map);
            if rooms.len() == 0 {
                let ghost v1 = views(objects@);
                objects[PLAYER].set_pos(new_x, new_y);
                assert(views(objects@) =~= v1.update(PLAYER as int, ObjectView { x: new_x, y: new_y, ..v1[PLAYER as int] }));
                assert(rooms_joined(grid(&map), r1));
            } else {
                let (prev_x, prev_y) = rooms[rooms.len() - 1].center();
                let ghost a = (prev_x as int, prev_y as int);
                let ghost b = (new_x as int, new_y as int);
                assert(r1[r0.len() - 1] == r0[r0.len() - 1]);
                if coin_flip() {
                    create_h_tunnel(prev_x, new_x, prev_y, &mut map);
                    let ghost gh = grid(&map);
                    assert(h_line(gh, a.0, b.0, a.1));
                    create_v_tunnel(prev_y, new_y, new_x, &mut map);
                    proof {
                        lemma_more_passable(gh, grid(&map));
                        lemma_lines_kept(gh, grid(&map), a, b);
                        assert(v_line(grid(&map), a.1, b.1, b.0));
                        assert(joined(grid(&map), a, b));
                    }
                } else {
                    create_v_tunnel(prev_y, new_y, prev_x, &mut map);
                    let ghost gv = grid(&map);
                    assert(v_line(gv, a.1, b.1, a.0));
                    create_h_tunnel(prev_x, new_x, new_y, &mut map);
                    proof {
                        lemma_more_passable(gv, grid(&map));
                        lemma_lines_kept(gv, grid(&map), a, b);
                        assert(h_line(grid(&map), a.0, b.0, b.1));
                        assert(joined(grid(&map), a, b));
                    }
                }
                proof {
                    lemma_carving_keeps_passable(g1, grid(&map), r0);
                    lemma_more_passable(g1, grid(&map));
                    lemma_carving_keeps_passable_interiors(g1, grid(&map), r1);
                    assert forall|k: int| 1 <= k < r1.len() implies joined(grid(&map), rect_center(r1[k - 1]), rect_center(#[trigger] r1[k])) by {
                        if k < r0.len() {
                            assert(r1[k] == r0[k] && r1[k - 1] == r0[k - 1]);
                            assert(joined(grid(&map), rect_center(r0[k - 1]), rect_center(r0[k])));
                        }
                    }
                }
            }
            rooms.push(new_room);
            assert(rooms@ == r1);
            assert(r1[0] == r0[0] || r0.len() == 0);
        }
        n = n + 1;
    }
    let last = rooms[rooms.len() - 1];
    let (last_room_x, last_room_y) = last.center();
    let mut stairs = Object::new(last_room_x, last_room_y, '<', "stairs", Color::White, false);
    stairs.always_visible = true;
    let ghost v2 = views(objects@);
    objects.push(stairs);
    proof {
        let vf = views(objects@);
        assert(vf =~= v2.push(stairs@));
        let rs = rooms@;
        assert(in_interior(rs[0], rect_center(rs[0]).0, rect_center(rs[0]).1));
        assert(in_interior(rs[rs.len() - 1], rect_center(rs.last()).0, rect_center(rs.last()).1));
        assert forall|i: int| 1 <= i < vf.len() - 1 implies in_some_room(rs, (#[trigger] vf[i]).x as int, vf[i].y as int)
            && fresh_content(vf[i]) && generated(vf[i], level) && vf[i].name != "stairs"@ by {
            assert(vf[i] == v2[i]);
            lemma_generated_not_stairs(vf[i], level);
        }
        assert(level_layout(grid(&map), vf, rs, first_player, level));
    }
    map
}


pub open spec fn rest_text() -> Seq<char> {
    "You take a moment to rest, and recover your strength."@
}

pub open spec fn descend_text() -> Seq<char> {
    "After a rare moment of peace, you descend deeper into the heart of the dungeon..."@
}

/// The player as it leaves a level at depth `depth`: healed by half its
/// maximum hit points and credited ten experience points per new depth.
pub open spec fn rested(p: ObjectView, inv: Seq<ObjectView>, depth: int) -> ObjectView {
    let max = stat_of(p, inv, Stat::MaxHp);
    add_xp(healed(p, half(max), max), 10 * (depth + 1))
}

/// Descends to the next level: the player rests, the depth grows by one and a
/// new level is generated; everything but the player is left behind.
pub fn next_level(objects: &mut Vec<Object>, game: &mut Game)
    requires
        PLAYER < old(objects).len(),
        old(game).dungeon_level < u32::MAX,
    ensures
        final(game).dungeon_level == old(game).dungeon_level + 1,
        final(game).inventory == old(game).inventory,
        exists|rooms: Seq<Rect>|
            #[trigger] level_layout(
                grid(&final(game).map),
                views(final(objects)@),
                rooms,
                rested(views(old(objects)@)[PLAYER as int], views(old(game).inventory@), old(game).dungeon_level as int),
                (old(game).dungeon_level + 1) as u32,
            ),
        log_view(final(game).log@) == log_add(
            log_add(log_view(old(game).log@), rest_text(), Color::Violet),
            descend_text(),
            Color::Red,
        ),
{
    message(&mut game.log, String::from_str("You take a moment to rest, and recover your strength."), Color::Violet);
    let ghost v = views(objects@);
    let m = objects[PLAYER].max_hp(game);
    let heal_hp: i32 = if m >= 0 { m / 2 } else { -((-(m as i64)) / 2) as i32 };
    objects[PLAYER].heal(heal_hp, game);
    message(
        &mut game.log,
        String::from_str("After a rare moment of peace, you descend deeper into the heart of the dungeon..."),
        Color::Red,
    );
    game.dungeon_level = game.dungeon_level + 1;
    match objects[PLAYER].fighter {
        Some(f) => {
            objects[PLAYER].fighter = Some(Fighter { xp: clamp(f.xp as i128 + 10 * game.dungeon_level as i128), ..f });
        },
        None => {},
    }
    let ghost p = rested(v[PLAYER as int], views(game.inventory@), old(game).dungeon_level as int);
    assert(views(objects@)[PLAYER as int] == p);
    let new_map = make_map(objects, game.dungeon_level);
    proof {
        let rooms = choose|rooms: Seq<Rect>| #[trigger] level_layout(grid(&new_map), views(objects@), rooms, p, game.dungeon_level);
        assert(level_layout(grid(&new_map), views(objects@), rooms, p, game.dungeon_level));
    }
    game.map = new_map;
    assert(grid(&game.map) == grid(&new_map));
}

pub open spec fn welcome_text() -> Seq<char> {
    "Welcome stranger! Prepare to perish in the Rouge Cachot."@
}

/// The player as a new game creates it.
pub open spec fn new_player(p: ObjectView) -> bool {
    &&& p.name == "player"@
    &&& p.alive
    &&& p.blocks
    &&& p.fighter == Some(
        Fighter { base_max_hp: 100, hp: 100, base_defense: 2, base_power: 5, on_death: DeathCallback::Player, xp: 0 },
    )
    &&& p.level == 1
}

/// Starts a game at depth 1: a fresh player on a generated level, carrying a
/// dagger that is already worn.
pub fn new_game() -> (r: (Vec<Object>, Game))
    ensures
        r.1.dungeon_level == 1,
        r.1.inventory.len() == 1,
        r.1.inventory@[0]@.equipment == Some(
            Equipment { slot: Slot::LeftHand, equipped: true, max_hp_bonus: 0, defense_bonus: 0, power_bonus: 2 },
        ),
        r.1.inventory@[0]@.item == Some(Item::Dagger),
        slots_unique(views(r.1.inventory@)),
        equipment_tagged(views(r.1.inventory@)),
        log_view(r.1.log@) == log_add(seq![], welcome_text(), Color::Red),
        exists|rooms: Seq<Rect>, p: ObjectView|
            new_player(p) && #[trigger] level_layout(grid(&r.1.map), views(r.0@), rooms, p, 1),
{
    let mut player = Object::new(0, 0, '@', "player", Color::White, true);
    player.alive = true;
    player.fighter = Some(
        Fighter { base_max_hp: 100, hp: 100, base_defense: 2, base_power: 5, on_death: DeathCallback::Player, xp: 0 },
    );
    let ghost p = player@;
    let mut objects: Vec<Object> = Vec::new();
    objects.push(player);
    assert(views(objects@)[PLAYER as int] == p);
    let map = make_map(&mut objects, 1);
    let ghost rooms = choose|rooms: Seq<Rect>| #[trigger] level_layout(grid(&map), views(objects@), rooms, p, 1);
    assert(level_layout(grid(&map), views(objects@), rooms, p, 1));
    let mut game = Game { map, log: Vec::new(), inventory: Vec::new(), dungeon_level: 1 };
    let mut dagger = Object::new(0, 0, '-', "dagger", Color::Sky, false);
    dagger.item = Some(Item::Dagger);
    dagger.equipment = Some(
        Equipment { equipped: true, slot: Slot::LeftHand, max_hp_bonus: 0, defense_bonus: 0, power_bonus: 2 },
    );
    game.inventory.push(dagger);
    assert(log_view(game.log@) =~= seq![]);
    message(&mut game.log, String::from_str("Welcome stranger! Prepare to perish in the Rouge Cachot."), Color::Red);
    assert(new_player(p));
    let r = (objects, game);
    assert(level_layout(grid(&r.1.map), views(r.0@), rooms, p, 1));
    r
}

} // verus!
