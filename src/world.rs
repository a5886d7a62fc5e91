use vstd::prelude::*;
use crate::combat::{attack_between, attack_effect};
use crate::config::PLAYER;
use crate::geometry::{TileMap, grid, in_grid};
use crate::geometry::Tile;
use crate::log::log_view;
use crate::color::Color;
use crate::object::{Game, Object, ObjectView, same_but_log, views};

verus! {

/// Some blocking object stands at `(x, y)`.
pub open spec fn occupied(objs: Seq<ObjectView>, x: int, y: int) -> bool {
    exists|i: int| 0 <= i < objs.len() && #[trigger] objs[i].blocks && objs[i].x == x && objs[i].y == y
}

/// A position is blocked when it is off the grid, a blocking tile, or taken
/// by a blocking object.
pub open spec fn blocked_at(g: Seq<Seq<Tile>>, objs: Seq<ObjectView>, x: int, y: int) -> bool {
    !in_grid(g, x, y) || g[x][y].blocked || occupied(objs, x, y)
}

/// The roster after object `id` tries to step by `(dx, dy)`: the step happens
/// only onto a position that is not blocked.
pub open spec fn moved_by(g: Seq<Seq<Tile>>, objs: Seq<ObjectView>, id: int, dx: int, dy: int) -> Seq<ObjectView> {
    let o = objs[id];
    let nx = o.x + dx;
    let ny = o.y + dy;
    if i32::MIN <= nx <= i32::MAX && i32::MIN <= ny <= i32::MAX && !blocked_at(g, objs, nx, ny) {
        objs.update(id, ObjectView { x: nx as i32, y: ny as i32, ..o })
    } else {
        objs
    }
}

/// Whether `(x, y)` is blocked by terrain, the map's edge, or a blocking object.
pub fn is_blocked(x: i32, y: i32, map: &TileMap, objects: &Vec<Object>) -> (r: bool)
    ensures
        r == blocked_at(grid(map), views(objects@), x as int, y as int),
{
    if x < 0 || y < 0 || x as usize >= map.len() || y as usize >= map[x as usize].len() {
        return true;
    }
    if map[x as usize][y as usize].blocked {
        return true;
    }
    let ghost objs = views(objects@);
    let mut i: usize = 0;
    while i < objects.len()
        invariant
            objs == views(objects@),
            i <= objects.len(),
            forall|j: int| 0 <= j < i ==> !(#[trigger] objs[j].blocks && objs[j].x == x && objs[j].y == y),
        decreases objects.len() - i,
    {
        if objects[i].blocks && objects[i].x == x && objects[i].y == y {
            assert(objs[i as int].blocks);
            return true;
        }
        i = i + 1;
    }
    false
}

/// Moves object `id` by `(dx, dy)` unless the destination is blocked.
pub fn move_by(id: usize, dx: i32, dy: i32, map: &TileMap, objects: &mut Vec<Object>)
    requires
        id < old(objects).len(),
    ensures
        final(objects).len() == old(objects).len(),
        views(final(objects)@) == moved_by(grid(map), views(old(objects)@), id as int, dx as int, dy as int),
{
    let (x, y) = objects[id].pos();
    let nx = x as i64 + dx as i64;
    let ny = y as i64 + dy as i64;
    if nx < i32::MIN as i64 || nx > i32::MAX as i64 || ny < i32::MIN as i64 || ny > i32::MAX as i64 {
        return;
    }
    if !is_blocked(nx as i32, ny as i32, map, objects) {
        let ghost v0 = views(objects@);
        objects[id].set_pos(nx as i32, ny as i32);
        assert(views(objects@) =~= v0.update(id as int, ObjectView { x: nx as i32, y: ny as i32, ..v0[id as int] }));
    }
}

/// One grid step along `d`, the component of a vector whose squared length is
/// `len_sq`: the component of the unit vector, rounded to the nearest integer.
pub open spec fn unit_step(d: int, len_sq: int) -> int {
    if len_sq > 0 && 4 * (d * d) >= len_sq {
        if d > 0 { 1 } else { -1 }
    } else {
        0
    }
}

/// The step that moves `o` towards `(tx, ty)`, diagonals included.
pub open spec fn step_towards(o: ObjectView, tx: int, ty: int) -> (int, int) {
    let dx = tx - o.x;
    let dy = ty - o.y;
    let l = dx * dx + dy * dy;
    (unit_step(dx, l), unit_step(dy, l))
}

fn unit_step_exec(d: i128, len_sq: i128) -> (r: i32)
    requires
        -0x1_0000_0000 <= d <= 0x1_0000_0000,
    ensures
        r == unit_step(d as int, len_sq as int),
{
    assert(0 <= d * d <= 0x1_0000_0000_0000_0000) by (nonlinear_arith)
        requires -0x1_0000_0000 <= d <= 0x1_0000_0000;
    if len_sq > 0 && 4 * (d * d) >= len_sq {
        if d > 0 { 1 } else { -1 }
    } else {
        0
    }
}

/// Moves object `id` one step towards `(target_x, target_y)`.
pub fn move_towards(id: usize, target_x: i32, target_y: i32, map: &TileMap, objects: &mut Vec<Object>)
    requires
        id < old(objects).len(),
    ensures
        final(objects).len() == old(objects).len(),
        ({
            let (sx, sy) = step_towards(views(old(objects)@)[id as int], target_x as int, target_y as int);
            views(final(objects)@) == moved_by(grid(map), views(old(objects)@), id as int, sx, sy)
        }),
{
    let dx = target_x as i128 - objects[id].x as i128;
    let dy = target_y as i128 - objects[id].y as i128;
    let l = objects[id].distance_sq(target_x, target_y);
    assert(l == dx * dx + dy * dy);
    let sx = unit_step_exec(dx, l);
    let sy = unit_step_exec(dy, l);
    move_by(id, sx, sy, map, objects);
}

/// Index of the first fighter standing at `(x, y)`.
pub open spec fn first_fighter_at(objs: Seq<ObjectView>, x: int, y: int) -> Option<int> {
    if exists|i: int| 0 <= i < objs.len() && #[trigger] fighter_at(objs[i], x, y) {
        let i = choose|i: int| 0 <= i < objs.len() && #[trigger] fighter_at(objs[i], x, y)
            && forall|j: int| 0 <= j < i ==> !#[trigger] fighter_at(objs[j], x, y);
        Some(i)
    } else {
        None
    }
}

pub open spec fn fighter_at(o: ObjectView, x: int, y: int) -> bool {
    o.fighter is Some && o.x == x && o.y == y
}

fn find_fighter_at(objects: &Vec<Object>, x: i64, y: i64) -> (r: Option<usize>)
    ensures
        match r {
            Some(i) => i < objects.len() && fighter_at(views(objects@)[i as int], x as int, y as int)
                && forall|j: int| 0 <= j < i ==> !#[trigger] fighter_at(views(objects@)[j], x as int, y as int),
            None => forall|j: int| 0 <= j < objects.len() ==> !#[trigger] fighter_at(views(objects@)[j], x as int, y as int),
        },
{
    let mut i: usize = 0;
    while i < objects.len()
        invariant
            i <= objects.len(),
            forall|j: int| 0 <= j < i ==> !#[trigger] fighter_at(views(objects@)[j], x as int, y as int),
        decreases objects.len() - i,
    {
        if objects[i].fighter.is_some() && objects[i].x as i64 == x && objects[i].y as i64 == y {
            return Some(i);
        }
        i = i + 1;
    }
    None
}

/// Roster and log after the player moves by `(dx, dy)` or attacks there.
pub open spec fn move_or_attack_outcome(
    g: Seq<Seq<Tile>>,
    v: Seq<ObjectView>,
    inv: Seq<ObjectView>,
    l: Seq<(Seq<char>, Color)>,
    dx: int,
    dy: int,
) -> (Seq<ObjectView>, Seq<(Seq<char>, Color)>) {
    let p = v[PLAYER as int];
    match first_fighter_at(v, p.x + dx, p.y + dy) {
        Some(t) => {
            let (a2, t2, l2) = attack_effect(p, v[t], inv, l);
            (v.update(PLAYER as int, a2).update(t, t2), l2)
        },
        None => (moved_by(g, v, PLAYER as int, dx, dy), l),
    }
}

/// The player steps by `(dx, dy)`, or attacks the first fighter standing there.
pub fn player_move_or_attack(dx: i32, dy: i32, objects: &mut Vec<Object>, game: &mut Game)
    requires
        old(objects).len() > PLAYER,
        dx != 0 || dy != 0,
    ensures
        final(objects).len() == old(objects).len(),
        (views(final(objects)@), log_view(final(game).log@)) == move_or_attack_outcome(
            grid(&old(game).map),
            views(old(objects)@),
            views(old(game).inventory@),
            log_view(old(game).log@),
            dx as int,
            dy as int,
        ),
        same_but_log(&*final(game), &*old(game)),
{
    let x = objects[PLAYER].x as i64 + dx as i64;
    let y = objects[PLAYER].y as i64 + dy as i64;
    let target = find_fighter_at(objects, x, y);
    let ghost v0 = views(objects@);
    match target {
        Some(t) => {
            proof {
                let k = choose|i: int| 0 <= i < v0.len() && #[trigger] fighter_at(v0[i], x as int, y as int)
                    && forall|j: int| 0 <= j < i ==> !#[trigger] fighter_at(v0[j], x as int, y as int);
                if k < t {
                } else if k > t {
                    assert(!fighter_at(v0[t as int], x as int, y as int));
                }
                assert(k == t);
                assert(t != PLAYER);
            }
            attack_between(PLAYER, t, objects, game);
        },
        None => {
            move_by(PLAYER, dx, dy, &game.map, objects);
        },
    }
}


fn elem_mut<T>(s: &mut [T], i: usize) -> (r: &mut T)
    requires
        i < old(s).len(),
    ensures
        *r == old(s)@[i as int],
        final(s)@ == old(s)@.update(i as int, *final(r)),
{
    let (_, rest) = s.split_at_mut(i);
    rest.first_mut().unwrap()
}

/// Two distinct entries of `items`, both borrowed mutably.
pub fn mut_two<T>(first_index: usize, second_index: usize, items: &mut [T]) -> (r: (&mut T, &mut T))
    requires
        first_index != second_index,
        first_index < old(items).len(),
        second_index < old(items).len(),
    ensures
        *r.0 == old(items)@[first_index as int],
        *r.1 == old(items)@[second_index as int],
        final(items)@ == old(items)@.update(first_index as int, *final(r.0)).update(second_index as int, *final(r.1)),
{
    let split_at_index = if first_index > second_index { first_index } else { second_index };
    let (first_slice, second_slice) = items.split_at_mut(split_at_index);
    if first_index < second_index {
        (elem_mut(first_slice, first_index), elem_mut(second_slice, 0))
    } else {
        (elem_mut(second_slice, 0), elem_mut(first_slice, second_index))
    }
}

} // verus!
