use vstd::prelude::*;
use crate::ai::{ai_take_turn, monster_turn};
use crate::color::Color;
use crate::config::{MAP_HEIGHT, MAP_WIDTH, PLAYER};
use crate::dungeon::{descend_text, level_layout, next_level, rest_text, rested};
use crate::fov::{Visibility, is_in_fov, vis, visible};
use crate::geometry::{Rect, Tile, grid};
use crate::items::{drop_item, drop_outcome, pick_item_up, pickup_outcome};
use crate::log::{log_add, log_view};
use crate::object::{Game, Object, ObjectView, dist_sq, same_but_log, views};
use crate::spells::{use_item, use_outcome};
use crate::text::str_eq;
use crate::types::PlayerAction;
use crate::world::{move_or_attack_outcome, player_move_or_attack};

verus! {

/// One abstract player intent per tick. Targets of spells are picked by the
/// player before the intent is handed over.
#[derive(Clone, Copy, Debug)]
pub enum Intent {
    Move { dx: i32, dy: i32 },
    Wait,
    PickUp,
    Use { index: usize, tile: Option<(i32, i32)>, monster: Option<usize> },
    Drop { index: usize },
    Descend,
    ShowCharacter,
    ToggleFullscreen,
    Exit,
    Nothing,
}

/// The first item lying on the player's tile.
pub open spec fn item_under(v: Seq<ObjectView>) -> Option<int> {
    if exists|i: int| 0 <= i < v.len() && #[trigger] item_at_player(v, i) {
        Some(choose|i: int| 0 <= i < v.len() && #[trigger] item_at_player(v, i)
            && forall|j: int| 0 <= j < i ==> !#[trigger] item_at_player(v, j))
    } else {
        None
    }
}

pub open spec fn item_at_player(v: Seq<ObjectView>, i: int) -> bool {
    v[i].x == v[PLAYER as int].x && v[i].y == v[PLAYER as int].y && v[i].item is Some
}

/// The player stands on the stairs.
pub open spec fn on_stairs(v: Seq<ObjectView>) -> bool {
    exists|i: int| 0 <= i < v.len() && #[trigger] stairs_at_player(v, i)
}

pub open spec fn stairs_at_player(v: Seq<ObjectView>, i: int) -> bool {
    v[i].x == v[PLAYER as int].x && v[i].y == v[PLAYER as int].y && v[i].name == "stairs"@
}

fn find_item_under(objects: &Vec<Object>) -> (r: Option<usize>)
    requires
        PLAYER < objects.len(),
    ensures
        match r {
            Some(i) => i < objects.len() && item_under(views(objects@)) == Some(i as int),
            None => item_under(views(objects@)) is None,
        },
{
    let ghost v = views(objects@);
    let (px, py) = objects[PLAYER].pos();
    let mut i: usize = 0;
    while i < objects.len()
        invariant
            v == views(objects@),
            PLAYER < objects.len(),
            px == v[PLAYER as int].x,
            py == v[PLAYER as int].y,
            i <= objects.len(),
            forall|j: int| 0 <= j < i ==> !#[trigger] item_at_player(v, j),
        decreases objects.len() - i,
    {
        if objects[i].x == px && objects[i].y == py && objects[i].item.is_some() {
            assert(item_at_player(v, i as int));
            proof {
                let k = choose|k: int| 0 <= k < v.len() && #[trigger] item_at_player(v, k)
                    && forall|j: int| 0 <= j < k ==> !#[trigger] item_at_player(v, j);
                if k > i {
                    assert(!item_at_player(v, i as int));
                }
            }
            return Some(i);
        }
        i = i + 1;
    }
    None
}

fn find_stairs_under(objects: &Vec<Object>) -> (r: bool)
    requires
        PLAYER < objects.len(),
    ensures
        r == on_stairs(views(objects@)),
{
    let ghost v = views(objects@);
    let (px, py) = objects[PLAYER].pos();
    let mut i: usize = 0;
    while i < objects.len()
        invariant
            v == views(objects@),
            PLAYER < objects.len(),
            px == v[PLAYER as int].x,
            py == v[PLAYER as int].y,
            i <= objects.len(),
            forall|j: int| 0 <= j < i ==> !#[trigger] stairs_at_player(v, j),
        decreases objects.len() - i,
    {
        if objects[i].x == px && objects[i].y == py && str_eq(objects[i].name.as_str(), "stairs") {
            assert(stairs_at_player(v, i as int));
            return true;
        }
        i = i + 1;
    }
    false
}

/// Nothing in the roster or the game changed.
pub open spec fn unchanged(o1: &Vec<Object>, o2: &Vec<Object>, g1: &Game, g2: &Game) -> bool {
    *o1 == *o2 && *g1 == *g2
}

/// Resolves one intent of the player and tells whether it used up a turn.
/// A dead player can only quit or toggle the display.
pub fn handle_keys(intent: Intent, objects: &mut Vec<Object>, game: &mut Game, fov: &Visibility) -> (r: PlayerAction)
    requires
        PLAYER < old(objects).len(),
    ensures
        ({
            let v = views(old(objects)@);
            let inv = views(old(game).inventory@);
            let l = log_view(old(game).log@);
            let alive = v[PLAYER as int].alive;
            let same = unchanged(&*final(objects), &*old(objects), &*final(game), &*old(game));
            let new_v = views(final(objects)@);
            let new_inv = views(final(game).inventory@);
            let new_l = log_view(final(game).log@);
            let frame = final(game).map == old(game).map && final(game).dungeon_level == old(game).dungeon_level;
            match intent {
                Intent::Exit => r == PlayerAction::Exit && same,
                Intent::Move { dx, dy } => if !alive {
                    r == PlayerAction::DidntTakeTurn && same
                } else if dx == 0 && dy == 0 {
                    r == PlayerAction::TookTurn && same
                } else {
                    &&& r == PlayerAction::TookTurn
                    &&& (new_v, new_l) == move_or_attack_outcome(
                        grid(&old(game).map),
                        v,
                        inv,
                        l,
                        dx as int,
                        dy as int,
                    )
                    &&& frame
                    &&& final(game).inventory == old(game).inventory
                },
                Intent::Wait => same && r == if alive { PlayerAction::TookTurn } else { PlayerAction::DidntTakeTurn },
                Intent::PickUp => r == PlayerAction::DidntTakeTurn && match item_under(v) {
                    Some(i) => if alive {
                        (new_v, new_inv, new_l) == pickup_outcome(v, inv, l, i) && frame
                    } else {
                        same
                    },
                    None => same,
                },
                Intent::Use { index, tile, monster } => r == PlayerAction::DidntTakeTurn && if alive && index
                    < inv.len() {
                    (new_v, new_inv, new_l) == use_outcome(v, inv, l, index as int, vis(fov), tile, monster) && frame
                } else {
                    same
                },
                Intent::Drop { index } => r == PlayerAction::DidntTakeTurn && if alive && index < inv.len() {
                    (new_v, new_inv, new_l) == drop_outcome(v, inv, l, index as int) && frame
                } else {
                    same
                },
                Intent::Descend => r == PlayerAction::DidntTakeTurn && if alive && on_stairs(v)
                    && old(game).dungeon_level < u32::MAX {
                    &&& final(game).dungeon_level == old(game).dungeon_level + 1
                    &&& final(game).inventory == old(game).inventory
                    &&& exists|rooms: Seq<Rect>|
                        #[trigger] level_layout(
                            grid(&final(game).map),
                            new_v,
                            rooms,
                            rested(v[PLAYER as int], inv, old(game).dungeon_level as int),
                            (old(game).dungeon_level + 1) as u32,
                        )
                    &&& new_l == log_add(log_add(l, rest_text(), Color::Violet), descend_text(), Color::Red)
                } else {
                    same
                },
                _ => r == PlayerAction::DidntTakeTurn && same,
            }
        }),
{
    let alive = objects[PLAYER].alive;
    match intent {
        Intent::Exit => PlayerAction::Exit,
        Intent::Move { dx, dy } => {
            if !alive {
                return PlayerAction::DidntTakeTurn;
            }
            if dx != 0 || dy != 0 {
                player_move_or_attack(dx, dy, objects, game);
            }
            PlayerAction::TookTurn
        },
        Intent::Wait => {
            if alive {
                PlayerAction::TookTurn
            } else {
                PlayerAction::DidntTakeTurn
            }
        },
        Intent::PickUp => {
            if alive {
                match find_item_under(objects) {
                    Some(item_id) => {
                        pick_item_up(item_id, objects, &mut game.inventory, &mut game.log);
                    },
                    None => {},
                }
            }
            PlayerAction::DidntTakeTurn
        },
        Intent::Use { index, tile, monster } => {
            if alive && index < game.inventory.len() {
                use_item(index, objects, game, fov, tile, monster);
            }
            PlayerAction::DidntTakeTurn
        },
        Intent::Drop { index } => {
            if alive && index < game.inventory.len() {
                drop_item(index, &mut game.inventory, objects, &mut game.log);
            }
            PlayerAction::DidntTakeTurn
        },
        Intent::Descend => {
            if alive && find_stairs_under(objects) && game.dungeon_level < u32::MAX {
                next_level(objects, game);
            }
            PlayerAction::DidntTakeTurn
        },
        _ => PlayerAction::DidntTakeTurn,
    }
}


/// Roster and log after the first `n` objects of the roster took their turn,
/// in roster order, with the random steps `steps` of confused monsters.
pub open spec fn turns(
    g: Seq<Seq<Tile>>,
    v: Seq<ObjectView>,
    fov: Seq<Seq<bool>>,
    inv: Seq<ObjectView>,
    l: Seq<(Seq<char>, crate::color::Color)>,
    steps: Seq<(int, int)>,
    n: int,
) -> (Seq<ObjectView>, Seq<(Seq<char>, crate::color::Color)>)
    decreases n,
{
    if n <= 0 {
        (v, l)
    } else {
        let (v1, l1) = turns(g, v, fov, inv, l, steps, n - 1);
        if n - 1 != PLAYER && v1[n - 1].ai is Some {
            monster_turn(g, v1, n - 1, fov, inv, l1, steps[n - 1].0, steps[n - 1].1)
        } else {
            (v1, l1)
        }
    }
}

proof fn lemma_turns_prefix(
    g: Seq<Seq<Tile>>,
    v: Seq<ObjectView>,
    fov: Seq<Seq<bool>>,
    inv: Seq<ObjectView>,
    l: Seq<(Seq<char>, crate::color::Color)>,
    steps: Seq<(int, int)>,
    s: (int, int),
    n: int,
)
    requires
        0 <= n <= steps.len(),
    ensures
        turns(g, v, fov, inv, l, steps.push(s), n) == turns(g, v, fov, inv, l, steps, n),
    decreases n,
{
    if n > 0 {
        lemma_turns_prefix(g, v, fov, inv, l, steps, s, n - 1);
        assert(steps.push(s)[n - 1] == steps[n - 1]);
    }
}

/// Every monster with a behaviour takes exactly one turn, in roster order.
pub fn take_monster_turns(objects: &mut Vec<Object>, game: &mut Game, fov: &Visibility)
    requires
        PLAYER < old(objects).len(),
    ensures
        final(objects).len() == old(objects).len(),
        same_but_log(&*final(game), &*old(game)),
        exists|steps: Seq<(int, int)>|
            steps.len() == old(objects).len() && (forall|i: int|
                0 <= i < steps.len() ==> -1 <= (#[trigger] steps[i]).0 <= 1 && -1 <= steps[i].1 <= 1)
                && (views(final(objects)@), log_view(final(game).log@)) == #[trigger] turns(
                grid(&old(game).map),
                views(old(objects)@),
                vis(fov),
                views(old(game).inventory@),
                log_view(old(game).log@),
                steps,
                old(objects).len() as int,
            ),
{
    let ghost g = grid(&game.map);
    let ghost v = views(objects@);
    let ghost inv = views(game.inventory@);
    let ghost l = log_view(game.log@);
    let ghost g0 = *game;
    let ghost mut steps: Seq<(int, int)> = seq![];
    let n = objects.len();
    let mut id: usize = 0;
    while id < n
        invariant
            n == objects.len(),
            PLAYER < n,
            id <= n,
            steps.len() == id,
            forall|i: int| 0 <= i < steps.len() ==> -1 <= (#[trigger] steps[i]).0 <= 1 && -1 <= steps[i].1 <= 1,
            (views(objects@), log_view(game.log@)) == turns(g, v, vis(fov), inv, l, steps, id as int),
            same_but_log(&*game, &g0),
            g == grid(&g0.map),
            inv == views(g0.inventory@),
            g0.map == old(game).map,
            g0.inventory == old(game).inventory,
            g0.dungeon_level == old(game).dungeon_level,
        decreases n - id,
    {
        proof { lemma_turns_prefix(g, v, vis(fov), inv, l, steps, (0, 0), id as int); }
        if id != PLAYER && objects[id].ai.is_some() {
            let ghost v1 = views(objects@);
            let ghost l1 = log_view(game.log@);
            ai_take_turn(id, objects, game, fov);
            proof {
                let (dx, dy) = choose|dx: int, dy: int|
                    -1 <= dx <= 1 && -1 <= dy <= 1 && (views(objects@), log_view(game.log@))
                        == #[trigger] monster_turn(g, v1, id as int, vis(fov), inv, l1, dx, dy);
                lemma_turns_prefix(g, v, vis(fov), inv, l, steps, (dx, dy), id as int);
                steps = steps.push((dx, dy));
            }
        } else {
            proof { steps = steps.push((0, 0)); }
        }
        id = id + 1;
    }
}

/// The first monster standing at `(x, y)`: a fighter other than the player.
pub open spec fn monster_at_spec(v: Seq<ObjectView>, x: int, y: int) -> Option<int> {
    if exists|i: int| 0 <= i < v.len() && #[trigger] monster_on(v, i, x, y) {
        Some(choose|i: int| 0 <= i < v.len() && #[trigger] monster_on(v, i, x, y)
            && forall|j: int| 0 <= j < i ==> !#[trigger] monster_on(v, j, x, y))
    } else {
        None
    }
}

pub open spec fn monster_on(v: Seq<ObjectView>, i: int, x: int, y: int) -> bool {
    i != PLAYER && v[i].x == x && v[i].y == y && v[i].fighter is Some
}

/// The first monster standing on the clicked tile, if any.
pub fn monster_at(objects: &Vec<Object>, x: i32, y: i32) -> (r: Option<usize>)
    ensures
        match r {
            Some(i) => i < objects.len() && monster_at_spec(views(objects@), x as int, y as int) == Some(i as int),
            None => monster_at_spec(views(objects@), x as int, y as int) is None,
        },
{
    let ghost v = views(objects@);
    let mut i: usize = 0;
    while i < objects.len()
        invariant
            v == views(objects@),
            i <= objects.len(),
            forall|j: int| 0 <= j < i ==> !#[trigger] monster_on(v, j, x as int, y as int),
        decreases objects.len() - i,
    {
        if i != PLAYER && objects[i].x == x && objects[i].y == y && objects[i].fighter.is_some() {
            assert(monster_on(v, i as int, x as int, y as int));
            proof {
                let k = choose|k: int| 0 <= k < v.len() && #[trigger] monster_on(v, k, x as int, y as int)
                    && forall|j: int| 0 <= j < k ==> !#[trigger] monster_on(v, j, x as int, y as int);
                if k > i {
                    assert(!monster_on(v, i as int, x as int, y as int));
                }
            }
            return Some(i);
        }
        i = i + 1;
    }
    None
}

/// A clicked tile is accepted as a target when it lies on the map, in the
/// player's field of view and, when a range is given, within that range.
pub open spec fn tile_target_ok(v: Seq<ObjectView>, fov: Seq<Seq<bool>>, x: int, y: int, max_range: Option<i32>) -> bool {
    &&& x < MAP_WIDTH
    &&& y < MAP_HEIGHT
    &&& visible(fov, x, y)
    &&& match max_range {
        Some(r) => r >= 0 && dist_sq(v[PLAYER as int].x as int, v[PLAYER as int].y as int, x, y) <= r * r,
        None => true,
    }
}

/// Whether a clicked tile can be the target of a spell.
pub fn target_tile_ok(objects: &Vec<Object>, fov: &Visibility, x: i32, y: i32, max_range: Option<i32>) -> (r: bool)
    requires
        PLAYER < objects.len(),
    ensures
        r == tile_target_ok(views(objects@), vis(fov), x as int, y as int, max_range),
{
    if x >= MAP_WIDTH || y >= MAP_HEIGHT || !is_in_fov(fov, x, y) {
        return false;
    }
    match max_range {
        Some(range) => {
            if range < 0 {
                return false;
            }
            let r = range as i128;
            assert(r * r <= 0x1_0000_0000_0000_0000) by (nonlinear_arith)
                requires 0 <= r <= 0x1_0000_0000;
            objects[PLAYER].distance_sq(x, y) <= r * r
        },
        None => true,
    }
}


/// After the player's intent: when it used up a turn and the player is still
/// alive, every monster acts once; tells whether they did.
pub fn monsters_act(action: PlayerAction, objects: &mut Vec<Object>, game: &mut Game, fov: &Visibility) -> (r: bool)
    requires
        PLAYER < old(objects).len(),
    ensures
        r == (old(objects)@[PLAYER as int].alive && action == PlayerAction::TookTurn),
        !r ==> unchanged(&*final(objects), &*old(objects), &*final(game), &*old(game)),
        r ==> final(objects).len() == old(objects).len() && same_but_log(&*final(game), &*old(game))
            && exists|steps: Seq<(int, int)>|
            steps.len() == old(objects).len() && (forall|i: int|
                0 <= i < steps.len() ==> -1 <= (#[trigger] steps[i]).0 <= 1 && -1 <= steps[i].1 <= 1)
                && (views(final(objects)@), log_view(final(game).log@)) == #[trigger] turns(
                grid(&old(game).map),
                views(old(objects)@),
                vis(fov),
                views(old(game).inventory@),
                log_view(old(game).log@),
                steps,
                old(objects).len() as int,
            ),
{
    if objects[PLAYER].alive && action == PlayerAction::TookTurn {
        take_monster_turns(objects, game, fov);
        true
    } else {
        false
    }
}

} // verus!
