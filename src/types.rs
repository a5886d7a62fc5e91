use vstd::prelude::*;

verus! {

/// Where a piece of equipment is worn.
#[derive(Clone, Copy, Debug, PartialEq, Eq, Structural)]
pub enum Slot {
    LeftHand,
    RightHand,
    Gauntlets,
    Curiass,
    Legs,
    Head,
}

/// Text shown for each slot.
pub open spec fn slot_label(s: Slot) -> Seq<char> {
    match s {
        Slot::LeftHand => "left hand"@,
        Slot::RightHand => "right hand"@,
        Slot::Head => "head"@,
        Slot::Gauntlets => " gauntlets"@,
        Slot::Legs => "legs"@,
        Slot::Curiass => "curiass"@,
    }
}

impl Slot {
    /// The text shown for this slot.
    pub fn label(&self) -> (r: &'static str)
        ensures
            r@ == slot_label(*self),
    {
        match *self {
            Slot::LeftHand => "left hand",
            Slot::RightHand => "right hand",
            Slot::Head => "head",
            Slot::Gauntlets => " gauntlets",
            Slot::Legs => "legs",
            Slot::Curiass => "curiass",
        }
    }
}


/// Every kind of item: consumables first, then equipment.
#[derive(Clone, Copy, Debug, PartialEq, Eq, Structural)]
pub enum Item {
    Heal,
    Lightning,
    Confuse,
    Fireball,
    BronzeSword,
    IronSword,
    GreatAxe,
    WarHammer,
    WoodShield,
    IronShield,
    Dagger,
    ClothShirt,
    ClothPants,
    LeatherWristGaurds,
    LeatherHat,
    LeatherChest,
    LeatherKneeGaurds,
}

/// What happens to a fighter whose hit points run out.
#[derive(Clone, Copy, Debug, PartialEq, Eq, Structural)]
pub enum DeathCallback {
    Player,
    Monster,
}

/// Behaviour of a monster. A confused monster remembers the behaviour it had.
#[derive(Debug)]
pub enum Ai {
    Basic,
    Confused { previous_ai: Box<Ai>, num_turns: i32 },
}

/// Whether the player's intent used up a turn.
#[derive(Clone, Copy, Debug, PartialEq, Eq, Structural)]
pub enum PlayerAction {
    TookTurn,
    DidntTakeTurn,
    Exit,
}

/// Outcome of using an inventory item.
#[derive(Clone, Copy, Debug, PartialEq, Eq, Structural)]
pub enum UseResult {
    UsedUp,
    UsedAndKept,
    Cancelled,
}

/// An object that can be equipped, yielding bonuses.
#[derive(Clone, Copy, Debug, PartialEq, Eq, Structural)]
pub struct Equipment {
    pub slot: Slot,
    pub equipped: bool,
    pub max_hp_bonus: i32,
    pub power_bonus: i32,
    pub defense_bonus: i32,
}

/// From dungeon level `level` on, a parameter takes `value`.
#[derive(Clone, Copy, Debug, PartialEq, Eq, Structural)]
pub struct Transition {
    pub level: u32,
    pub value: u32,
}

/// Combat statistics of a player, monster or NPC.
#[derive(Clone, Copy, Debug, PartialEq, Eq, Structural)]
pub struct Fighter {
    pub hp: i32,
    pub base_max_hp: i32,
    pub base_defense: i32,
    pub base_power: i32,
    pub on_death: DeathCallback,
    pub xp: i32,
}

} // verus!
