use vstd::prelude::*;
use crate::color::Color;
use crate::config::CORPSE;
use crate::geometry::TileMap;
use crate::log::{Messages, message, log_add, log_view};
use crate::text::{decimal, str_eq};
use crate::types::{Ai, DeathCallback, Equipment, Fighter, Item, slot_label};

verus! {

/// A thing in the world: the player, a monster, an item, the stairs.
pub struct Object {
    pub x: i32,
    pub y: i32,
    pub char: char,
    pub color: Color,
    pub name: String,
    pub blocks: bool,
    pub alive: bool,
    pub fighter: Option<Fighter>,
    pub ai: Option<Ai>,
    pub item: Option<Item>,
    pub always_visible: bool,
    pub level: i32,
    pub equipment: Option<Equipment>,
}

/// An object with its name as text.
pub struct ObjectView {
    pub x: i32,
    pub y: i32,
    pub char: char,
    pub color: Color,
    pub name: Seq<char>,
    pub blocks: bool,
    pub alive: bool,
    pub fighter: Option<Fighter>,
    pub ai: Option<Ai>,
    pub item: Option<Item>,
    pub always_visible: bool,
    pub level: i32,
    pub equipment: Option<Equipment>,
}

impl View for Object {
    type V = ObjectView;

    open spec fn view(&self) -> ObjectView {
        ObjectView {
            x: self.x,
            y: self.y,
            char: self.char,
            color: self.color,
            name: self.name@,
            blocks: self.blocks,
            alive: self.alive,
            fighter: self.fighter,
            ai: self.ai,
            item: self.item,
            always_visible: self.always_visible,
            level: self.level,
            equipment: self.equipment,
        }
    }
}

/// A roster of objects as views.
pub open spec fn views(s: Seq<Object>) -> Seq<ObjectView> {
    s.map_values(|o: Object| o@)
}

/// The whole mutable state of a game besides the map roster.
pub struct Game {
    pub map: TileMap,
    pub log: Messages,
    pub inventory: Vec<Object>,
    pub dungeon_level: u32,
}

pub open spec fn clamp_i32(v: int) -> int {
    if v < i32::MIN {
        i32::MIN as int
    } else if v > i32::MAX {
        i32::MAX as int
    } else {
        v
    }
}

/// Saturates a wide integer into the range of `i32`.
pub fn clamp(v: i128) -> (r: i32)
    ensures
        r == clamp_i32(v as int),
{
    if v < i32::MIN as i128 {
        i32::MIN
    } else if v > i32::MAX as i128 {
        i32::MAX
    } else {
        v as i32
    }
}

/// The statistics that equipment can raise.
#[derive(Clone, Copy, Debug, PartialEq, Eq, Structural)]
pub enum Stat {
    MaxHp,
    Power,
    Defense,
}

pub open spec fn bonus(e: Equipment, s: Stat) -> int {
    match s {
        Stat::MaxHp => e.max_hp_bonus as int,
        Stat::Power => e.power_bonus as int,
        Stat::Defense => e.defense_bonus as int,
    }
}

pub open spec fn base_stat(o: ObjectView, s: Stat) -> int {
    match o.fighter {
        Some(f) => match s {
            Stat::MaxHp => f.base_max_hp as int,
            Stat::Power => f.base_power as int,
            Stat::Defense => f.base_defense as int,
        },
        None => 0,
    }
}

/// Sum of one bonus over a list of equipment.
pub open spec fn sum_bonus(es: Seq<Equipment>, s: Stat) -> int
    decreases es.len(),
{
    if es.len() == 0 {
        0
    } else {
        sum_bonus(es.drop_last(), s) + bonus(es.last(), s)
    }
}

/// The equipment of the inventory entries that are equipped, in order.
pub open spec fn equipped_of(inv: Seq<ObjectView>) -> Seq<Equipment>
    decreases inv.len(),
{
    if inv.len() == 0 {
        seq![]
    } else {
        let rest = equipped_of(inv.drop_last());
        match inv.last().equipment {
            Some(e) => if e.equipped { rest.push(e) } else { rest },
            None => rest,
        }
    }
}

pub open spec fn is_player_view(o: ObjectView) -> bool {
    o.name == "player"@
}

/// The equipment that counts for `o`: the equipped inventory for the player,
/// nothing for anyone else.
pub open spec fn all_equipped(o: ObjectView, inv: Seq<ObjectView>) -> Seq<Equipment> {
    if is_player_view(o) {
        equipped_of(inv)
    } else {
        seq![]
    }
}

/// The effective value of a statistic: base plus all equipped bonuses.
pub open spec fn stat_of(o: ObjectView, inv: Seq<ObjectView>, s: Stat) -> int {
    clamp_i32(base_stat(o, s) + sum_bonus(all_equipped(o, inv), s))
}

pub open spec fn with_hp(o: ObjectView, hp: int) -> ObjectView {
    match o.fighter {
        Some(f) => ObjectView { fighter: Some(Fighter { hp: hp as i32, ..f }), ..o },
        None => o,
    }
}

/// Result of healing by `amount` with the given maximum.
/// A fighter without hit points left is beyond healing.
pub open spec fn healed(o: ObjectView, amount: int, max_hp: int) -> ObjectView {
    match o.fighter {
        Some(f) => if f.hp <= 0 {
            o
        } else {
            with_hp(o, if f.hp + amount > max_hp { max_hp } else { clamp_i32(f.hp + amount) })
        },
        None => o,
    }
}

/// Hit points taken away, where there are hit points and the damage is positive.
pub open spec fn hit(o: ObjectView, damage: int) -> ObjectView {
    match o.fighter {
        Some(f) => if damage > 0 { with_hp(o, clamp_i32(f.hp - damage)) } else { o },
        None => o,
    }
}

/// A living fighter whose hit points ran out.
pub open spec fn lethal(o: ObjectView) -> bool {
    o.alive && o.fighter is Some && o.fighter.unwrap().hp <= 0
}

/// The death transformation of each variant.
pub open spec fn death_transform(o: ObjectView) -> ObjectView {
    match o.fighter {
        Some(f) => death_transform_as(o, f.on_death),
        None => o,
    }
}

/// The death transformation of variant `cb` applied to `o`.
pub open spec fn death_transform_as(o: ObjectView, cb: DeathCallback) -> ObjectView {
    match cb {
        DeathCallback::Player => ObjectView { char: CORPSE, color: Color::DarkRed, ..o },
        DeathCallback::Monster => ObjectView {
            char: CORPSE,
            color: Color::DarkRed,
            blocks: false,
            fighter: None,
            ai: None,
            name: "remains of "@ + o.name,
            ..o
        },
    }
}

/// The log line of each death variant.
pub open spec fn death_log(l: Seq<(Seq<char>, Color)>, o: ObjectView) -> Seq<(Seq<char>, Color)> {
    match o.fighter {
        Some(f) => death_log_as(l, o, f.on_death),
        None => l,
    }
}

/// The log line of variant `cb` for `o`.
pub open spec fn death_log_as(l: Seq<(Seq<char>, Color)>, o: ObjectView, cb: DeathCallback) -> Seq<(Seq<char>, Color)> {
    match cb {
        DeathCallback::Player => log_add(l, "You died!"@, Color::DarkRed),
        DeathCallback::Monster => log_add(
            l,
            o.name + " is dead! You gain "@ + decimal(o.fighter.unwrap().xp as int) + " experience points."@,
            Color::Orange,
        ),
    }
}

/// The object after taking `damage`, and the experience it yields if it died.
pub open spec fn damage_result(o: ObjectView, damage: int) -> (ObjectView, Option<i32>) {
    let h = hit(o, damage);
    if lethal(h) {
        (death_transform(ObjectView { alive: false, ..h }), Some(h.fighter.unwrap().xp))
    } else {
        (h, None)
    }
}

pub open spec fn damage_log(l: Seq<(Seq<char>, Color)>, o: ObjectView, damage: int) -> Seq<(Seq<char>, Color)> {
    let h = hit(o, damage);
    if lethal(h) {
        death_log(l, h)
    } else {
        l
    }
}

/// Experience credited to a fighter.
pub open spec fn gain_xp(o: ObjectView, award: Option<i32>) -> ObjectView {
    match award {
        Some(x) => match o.fighter {
            Some(f) => ObjectView { fighter: Some(Fighter { xp: clamp_i32(f.xp + x) as i32, ..f }), ..o },
            None => o,
        },
        None => o,
    }
}

/// Only the log of the game differs.
pub open spec fn same_but_log(a: &Game, b: &Game) -> bool {
    a.map == b.map && a.inventory == b.inventory && a.dungeon_level == b.dungeon_level
}

pub open spec fn equip_view(o: ObjectView, on: bool) -> ObjectView {
    match o.item {
        Some(_) => match o.equipment {
            Some(e) => ObjectView { equipment: Some(Equipment { equipped: on, ..e }), ..o },
            None => o,
        },
        None => o,
    }
}

pub open spec fn unequip_log(l: Seq<(Seq<char>, Color)>, o: ObjectView) -> Seq<(Seq<char>, Color)> {
    match o.item {
        Some(_) => match o.equipment {
            Some(e) => if e.equipped {
                log_add(l, "Dequipped "@ + o.name + " from "@ + slot_label(e.slot) + "."@, Color::LightYellow)
            } else {
                l
            },
            None => log_add(l, "Can't dequip "@ + o.name + " because it's not an Equipment."@, Color::Red),
        },
        None => log_add(l, "Can't dequip "@ + o.name + " because it's not an Item."@, Color::Red),
    }
}

pub open spec fn equip_log(l: Seq<(Seq<char>, Color)>, o: ObjectView) -> Seq<(Seq<char>, Color)> {
    match o.item {
        Some(_) => match o.equipment {
            Some(e) => if !e.equipped {
                log_add(l, "Equipped "@ + o.name + " on "@ + slot_label(e.slot) + "."@, Color::LightGreen)
            } else {
                l
            },
            None => log_add(l, "Can't equip "@ + o.name + " because it's not an Equipment."@, Color::Red),
        },
        None => log_add(l, "Can't equip "@ + o.name + " because it's not an Item."@, Color::Red),
    }
}

pub open spec fn dist_sq(x1: int, y1: int, x2: int, y2: int) -> int {
    (x2 - x1) * (x2 - x1) + (y2 - y1) * (y2 - y1)
}

fn text_of(a: &str, b: &str, c: &str) -> (r: String)
    ensures
        r@ == a@ + b@ + c@,
{
    let mut s = String::from_str(a);
    s.append(b);
    s.append(c);
    s
}

impl Object {
    pub fn new(x: i32, y: i32, char: char, name: &str, color: Color, blocks: bool) -> (r: Object)
        ensures
            r@ == (ObjectView {
                x,
                y,
                char,
                color,
                name: name@,
                blocks,
                alive: false,
                fighter: None,
                ai: None,
                item: None,
                always_visible: false,
                level: 1,
                equipment: None,
            }),
    {
        Object {
            x,
            y,
            char,
            color,
            name: String::from_str(name),
            blocks,
            alive: false,
            fighter: None,
            ai: None,
            item: None,
            always_visible: false,
            equipment: None,
            level: 1,
        }
    }

    pub fn pos(&self) -> (r: (i32, i32))
        ensures
            r == (self.x, self.y),
    {
        (self.x, self.y)
    }

    pub fn set_pos(&mut self, x: i32, y: i32)
        ensures
            final(self)@ == (ObjectView { x, y, ..old(self)@ }),
    {
        self.x = x;
        self.y = y;
    }

    /// Squared straight-line distance to the given coordinates.
    pub fn distance_sq(&self, x: i32, y: i32) -> (r: i128)
        ensures
            r == dist_sq(self.x as int, self.y as int, x as int, y as int),
    {
        let dx = x as i128 - self.x as i128;
        let dy = y as i128 - self.y as i128;
        assert(dx * dx <= 0x1_0000_0000_0000_0000) by (nonlinear_arith)
            requires -0x1_0000_0000 <= dx <= 0x1_0000_0000;
        assert(dy * dy <= 0x1_0000_0000_0000_0000) by (nonlinear_arith)
            requires -0x1_0000_0000 <= dy <= 0x1_0000_0000;
        assert(dx * dx >= 0 && dy * dy >= 0) by (nonlinear_arith);
        dx * dx + dy * dy
    }

    /// Squared straight-line distance to another object.
    pub fn distance_sq_to(&self, other: &Object) -> (r: i128)
        ensures
            r == dist_sq(self.x as int, self.y as int, other.x as int, other.y as int),
    {
        self.distance_sq(other.x, other.y)
    }

    /// The equipment that counts for this object's statistics.
    pub fn get_all_equipped(&self, game: &Game) -> (r: Vec<Equipment>)
        ensures
            r@ == all_equipped(self@, views(game.inventory@)),
    {
        let mut r: Vec<Equipment> = Vec::new();
        if str_eq(self.name.as_str(), "player") {
            let ghost inv = views(game.inventory@);
            let mut i: usize = 0;
            while i < game.inventory.len()
                invariant
                    inv == views(game.inventory@),
                    i <= inv.len(),
                    r@ == equipped_of(inv.take(i as int)),
                decreases game.inventory.len() - i,
            {
                assert(inv.take(i + 1).drop_last() =~= inv.take(i as int));
                match game.inventory[i].equipment {
                    Some(e) => {
                        if e.equipped {
                            r.push(e);
                        }
                    },
                    None => {},
                }
                i = i + 1;
            }
            assert(inv.take(i as int) =~= inv);
        }
        r
    }

    fn stat(&self, game: &Game, s: Stat) -> (r: i32)
        ensures
            r == stat_of(self@, views(game.inventory@), s),
    {
        let base: i32 = match self.fighter {
            Some(f) => match s {
                Stat::MaxHp => f.base_max_hp,
                Stat::Power => f.base_power,
                Stat::Defense => f.base_defense,
            },
            None => 0,
        };
        let es = self.get_all_equipped(game);
        let mut sum: i128 = 0;
        let mut i: usize = 0;
        while i < es.len()
            invariant
                i <= es@.len(),
                sum == sum_bonus(es@.take(i as int), s),
                -0x8000_0000 * i <= sum <= 0x8000_0000 * i,
            decreases es.len() - i,
        {
            assert(es@.take(i + 1).drop_last() =~= es@.take(i as int));
            let e = es[i];
            let b: i32 = match s {
                Stat::MaxHp => e.max_hp_bonus,
                Stat::Power => e.power_bonus,
                Stat::Defense => e.defense_bonus,
            };
            sum = sum + b as i128;
            i = i + 1;
        }
        assert(es@.take(i as int) =~= es@);
        clamp(base as i128 + sum)
    }

    /// Effective maximum hit points.
    pub fn max_hp(&self, game: &Game) -> (r: i32)
        ensures
            r == stat_of(self@, views(game.inventory@), Stat::MaxHp),
    {
        self.stat(game, Stat::MaxHp)
    }

    /// Effective defense.
    pub fn defense(&self, game: &Game) -> (r: i32)
        ensures
            r == stat_of(self@, views(game.inventory@), Stat::Defense),
    {
        self.stat(game, Stat::Defense)
    }

    /// Effective attack power.
    pub fn power(&self, game: &Game) -> (r: i32)
        ensures
            r == stat_of(self@, views(game.inventory@), Stat::Power),
    {
        self.stat(game, Stat::Power)
    }

    /// Takes this item off, logging what happened.
    pub fn unequip(&mut self, log: &mut Messages)
        ensures
            final(self)@ == equip_view(old(self)@, false),
            log_view(final(log)@) == unequip_log(log_view(old(log)@), old(self)@),
    {
        if self.item.is_none() {
            let t = text_of("Can't dequip ", self.name.as_str(), " because it's not an Item.");
            message(log, t, Color::Red);
            return;
        }
        match self.equipment {
            Some(e) => {
                if e.equipped {
                    self.equipment = Some(Equipment { equipped: false, ..e });
                    let mut t = text_of("Dequipped ", self.name.as_str(), " from ");
                    t.append(e.slot.label());
                    t.append(".");
                    message(log, t, Color::LightYellow);
                }
            },
            None => {
                let t = text_of("Can't dequip ", self.name.as_str(), " because it's not an Equipment.");
                message(log, t, Color::Red);
            },
        }
    }

    /// Puts this item on, logging what happened.
    pub fn equip(&mut self, log: &mut Messages)
        ensures
            final(self)@ == equip_view(old(self)@, true),
            log_view(final(log)@) == equip_log(log_view(old(log)@), old(self)@),
    {
        if self.item.is_none() {
            let t = text_of("Can't equip ", self.name.as_str(), " because it's not an Item.");
            message(log, t, Color::Red);
            return;
        }
        match self.equipment {
            Some(e) => {
                if !e.equipped {
                    self.equipment = Some(Equipment { equipped: true, ..e });
                    let mut t = text_of("Equipped ", self.name.as_str(), " on ");
                    t.append(e.slot.label());
                    t.append(".");
                    message(log, t, Color::LightGreen);
                }
            },
            None => {
                let t = text_of("Can't equip ", self.name.as_str(), " because it's not an Equipment.");
                message(log, t, Color::Red);
            },
        }
    }
}


/// Effective statistics are the base value plus the bonuses of all worn
/// equipment, wherever that sum fits an `i32`.
pub proof fn lemma_effective_stat(o: ObjectView, inv: Seq<ObjectView>, s: Stat)
    requires
        i32::MIN <= base_stat(o, s) + sum_bonus(all_equipped(o, inv), s) <= i32::MAX,
    ensures
        stat_of(o, inv, s) == base_stat(o, s) + sum_bonus(all_equipped(o, inv), s),
{
}

} // verus!
