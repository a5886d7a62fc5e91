//! Core logic of a turn-based dungeon crawler: dungeon generation, entities,
//! combat and progression, monster behaviour and the per-turn dispatch of
//! player intents. Rendering, input decoding and persistence live outside.

pub mod config;
pub mod types;
pub mod color;
pub mod geometry;
pub mod text;
pub mod log;
pub mod object;
pub mod combat;
pub mod fov;
pub mod world;
mod random;
pub mod ai;
pub mod items;
pub mod spells;
pub mod levels;
pub mod dungeon;
pub mod turn;
pub mod labels;

pub use ai::{ai_basic, ai_confused, ai_take_turn, confused_step};
pub use color::Color;
pub use combat::{attack_between, monster_death, player_death};
pub use config::PLAYER;
pub use dungeon::{Draw, place_drawn, create_h_tunnel, create_room, create_v_tunnel, make_item, make_map, make_monster, new_game, next_level, place_objects};
pub use fov::{Visibility, fov_needs_recompute, is_in_fov, mark_explored};
pub use geometry::{Rect, Tile, TileMap};
pub use items::{drop_item, get_equipped_in_slot, pick_item_up, toggle_equipment};
pub use levels::{StatChoice, from_dungeon_level, level_up, level_up_threshold, needs_level_up};
pub use log::{MessageLog, Messages, message};
pub use object::{Game, Object, Stat};
pub use spells::{cast_confuse, cast_fireball, cast_heal, cast_lightning, closest_monster, use_item};
pub use turn::{Intent, handle_keys, monster_at, monsters_act, take_monster_turns, target_tile_ok};
pub use types::{Ai, DeathCallback, Equipment, Fighter, Item, PlayerAction, Slot, Transition, UseResult};
pub use world::{is_blocked, move_by, move_towards, mut_two, player_move_or_attack};
pub use labels::{get_names_under_mouse, item_label};
