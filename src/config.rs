use vstd::prelude::*;

verus! {

/// Glyph of a corpse.
pub const CORPSE: char = '\u{1}';
/// Glyph of a troll.
pub const TROLL: char = '\u{a1}';
/// Glyph of an orc.
pub const ORC: char = '\u{a0}';

/// The player is always the first entry of the map roster.
pub const PLAYER: usize = 0;

/// Experience needed for a level-up is `LEVEL_UP_BASE + level * LEVEL_UP_FACTOR`.
pub const LEVEL_UP_BASE: i32 = 200;
pub const LEVEL_UP_FACTOR: i32 = 150;

/// Number of messages the log keeps.
pub const MSG_HEIGHT: usize = 6;

/// Number of items the inventory can hold.
pub const INVENTORY_CAPACITY: usize = 26;

/// Hit points a healing potion restores.
pub const HEAL_AMOUNT: i32 = 40;
/// Damage of a lightning bolt, and how far it reaches.
pub const LIGHTNING_DAMAGE: i32 = 40;
pub const LIGHTNING_RANGE: i32 = 20;
/// Damage of a fireball, and the radius it burns.
pub const FIREBALL_DAMAGE: i32 = 25;
pub const FIREBALL_RADIUS: i32 = 3;
/// How long confusion lasts, and how far the spell reaches.
pub const CONFUSE_NUM_TURNS: i32 = 5;
pub const CONFUSE_RANGE: i32 = 20;

/// Room sizes and the number of rooms the generator tries.
pub const ROOM_MAX_SIZE: i32 = 10;
pub const ROOM_MIN_SIZE: i32 = 6;
pub const MAX_ROOMS: i32 = 30;

/// Size of the dungeon grid.
pub const MAP_WIDTH: i32 = 80;
pub const MAP_HEIGHT: i32 = 33;

/// Radius of the player's sight.
pub const TORCH_RADIUS: i32 = 15;

} // verus!
