use vstd::prelude::*;
use crate::color::Color;
use crate::config::{
    CONFUSE_NUM_TURNS, CONFUSE_RANGE, FIREBALL_DAMAGE, FIREBALL_RADIUS, HEAL_AMOUNT, LIGHTNING_DAMAGE, LIGHTNING_RANGE, PLAYER,
};
use crate::fov::{Visibility, is_in_fov, vis, visible};
use crate::log::{message, log_add, log_view};
use crate::object::{
    Game, Object, ObjectView, Stat, clamp, clamp_i32, damage_log, damage_result, dist_sq, healed, same_but_log,
    stat_of, views,
};
use crate::text::{append_int, decimal};
use crate::types::{Ai, Item, UseResult};
use crate::turn::{monster_on, target_tile_ok, tile_target_ok};
use crate::items::{equipment_tagged, lemma_remove_keeps_unique, slots_unique, toggle_effect, toggle_equipment};

verus! {

pub open spec fn heal_effect(
    v: Seq<ObjectView>,
    inv: Seq<ObjectView>,
    l: Seq<(Seq<char>, Color)>,
) -> (Seq<ObjectView>, Seq<(Seq<char>, Color)>, UseResult) {
    let p = v[PLAYER as int];
    let max = stat_of(p, inv, Stat::MaxHp);
    match p.fighter {
        Some(f) => if f.hp == max {
            (v, log_add(l, "You are already at full health."@, Color::Red), UseResult::Cancelled)
        } else {
            (
                v.update(PLAYER as int, healed(p, HEAL_AMOUNT as int, max)),
                log_add(l, "Your wounds start to feel better!"@, Color::LightViolet),
                UseResult::UsedUp,
            )
        },
        None => (v, l, UseResult::Cancelled),
    }
}

/// Heals the player, unless already at full health.
pub fn cast_heal(objects: &mut Vec<Object>, game: &mut Game) -> (r: UseResult)
    requires
        PLAYER < old(objects).len(),
    ensures
        (views(final(objects)@), log_view(final(game).log@), r) == heal_effect(
            views(old(objects)@),
            views(old(game).inventory@),
            log_view(old(game).log@),
        ),
        final(objects).len() == old(objects).len(),
        same_but_log(&*final(game), &*old(game)),
{
    let ghost v = views(objects@);
    match objects[PLAYER].fighter {
        Some(f) => {
            if f.hp == objects[PLAYER].max_hp(game) {
                message(&mut game.log, String::from_str("You are already at full health."), Color::Red);
                return UseResult::Cancelled;
            }
            message(&mut game.log, String::from_str("Your wounds start to feel better!"), Color::LightViolet);
            objects[PLAYER].heal(HEAL_AMOUNT, game);
            assert(views(objects@) =~= v.update(PLAYER as int, objects@[PLAYER as int]@));
            UseResult::UsedUp
        },
        None => UseResult::Cancelled,
    }
}

/// A monster the player can see: a fighter with a behaviour, other than the player.
pub open spec fn seen_monster(v: Seq<ObjectView>, fov: Seq<Seq<bool>>, i: int) -> bool {
    i != PLAYER && v[i].fighter is Some && v[i].ai is Some && visible(fov, v[i].x as int, v[i].y as int)
}

/// Squared distance from the player to object `i`.
pub open spec fn player_dist(v: Seq<ObjectView>, i: int) -> int {
    dist_sq(v[PLAYER as int].x as int, v[PLAYER as int].y as int, v[i].x as int, v[i].y as int)
}

/// `i` is the first of the nearest seen monsters within `range`.
pub open spec fn is_closest(v: Seq<ObjectView>, fov: Seq<Seq<bool>>, range: int, i: int) -> bool {
    &&& 0 <= i < v.len()
    &&& seen_monster(v, fov, i)
    &&& range >= 0
    &&& player_dist(v, i) <= range * range
    &&& forall|j: int| 0 <= j < i && #[trigger] seen_monster(v, fov, j) ==> player_dist(v, j) > player_dist(v, i)
    &&& forall|j: int| i < j < v.len() && #[trigger] seen_monster(v, fov, j) ==> player_dist(v, j) >= player_dist(v, i)
}

pub open spec fn closest_of(v: Seq<ObjectView>, fov: Seq<Seq<bool>>, range: int) -> Option<int> {
    if exists|i: int| is_closest(v, fov, range, i) {
        Some(choose|i: int| is_closest(v, fov, range, i))
    } else {
        None
    }
}

proof fn lemma_closest_unique(v: Seq<ObjectView>, fov: Seq<Seq<bool>>, range: int, i: int, k: int)
    requires
        is_closest(v, fov, range, i),
        is_closest(v, fov, range, k),
    ensures
        i == k,
{
    if i < k {
        assert(seen_monster(v, fov, i));
    } else if k < i {
        assert(seen_monster(v, fov, k));
    }
}

/// The nearest monster in the player's field of view within `max_range`;
/// among equally near ones, the first in the roster.
pub fn closest_monster(max_range: i32, objects: &Vec<Object>, fov: &Visibility) -> (r: Option<usize>)
    requires
        PLAYER < objects.len(),
    ensures
        match r {
            Some(i) => closest_of(views(objects@), vis(fov), max_range as int) == Some(i as int),
            None => closest_of(views(objects@), vis(fov), max_range as int) is None,
        },
{
    let ghost v = views(objects@);
    let ghost f = vis(fov);
    if max_range < 0 {
        return None;
    }
    let ghost bound = max_range * max_range;
    let mut closest: Option<usize> = None;
    let r1 = max_range as i128;
    assert(r1 * r1 <= 0x1_0000_0000_0000_0000) by (nonlinear_arith)
        requires 0 <= r1 <= 0x1_0000_0000;
    let mut closest_dist: i128 = r1 * r1 + 1;
    let mut id: usize = 0;
    while id < objects.len()
        invariant
            v == views(objects@),
            f == vis(fov),
            PLAYER < objects.len(),
            id <= objects.len(),
            max_range >= 0,
            bound == max_range * max_range,
            match closest {
                Some(c) => c < id && seen_monster(v, f, c as int) && closest_dist == player_dist(v, c as int)
                    && closest_dist <= bound
                    && (forall|j: int| 0 <= j < c && #[trigger] seen_monster(v, f, j) ==> player_dist(v, j) > closest_dist)
                    && (forall|j: int| c < j < id && #[trigger] seen_monster(v, f, j) ==> player_dist(v, j) >= closest_dist),
                None => closest_dist == bound + 1
                    && forall|j: int| 0 <= j < id && #[trigger] seen_monster(v, f, j) ==> player_dist(v, j) > bound,
            },
        decreases objects.len() - id,
    {
        let candidate = id != PLAYER && objects[id].fighter.is_some() && objects[id].ai.is_some()
            && is_in_fov(fov, objects[id].x, objects[id].y);
        if candidate {
            assert(seen_monster(v, f, id as int));
            let dist = objects[PLAYER].distance_sq_to(&objects[id]);
            if dist < closest_dist {
                closest = Some(id);
                closest_dist = dist;
            }
        }
        id = id + 1;
    }
    match closest {
        Some(c) => {
            assert(is_closest(v, f, max_range as int, c as int));
            proof {
                let k = choose|i: int| is_closest(v, f, max_range as int, i);
                lemma_closest_unique(v, f, max_range as int, c as int, k);
            }
        },
        None => {
            assert forall|i: int| !is_closest(v, f, max_range as int, i) by {
                if 0 <= i < v.len() && seen_monster(v, f, i) {
                    assert(player_dist(v, i) > bound);
                }
            }
        },
    }
    closest
}

pub open spec fn lightning_text(name: Seq<char>) -> Seq<char> {
    "A lightning bolt strikes the "@ + name + " with a loud thunder! The damage is "@ + decimal(
        LIGHTNING_DAMAGE as int,
    ) + " hit points."@
}

pub open spec fn no_enemy_text() -> Seq<char> {
    "No enemy is close enough to strike."@
}

pub open spec fn lightning_effect(
    v: Seq<ObjectView>,
    fov: Seq<Seq<bool>>,
    l: Seq<(Seq<char>, Color)>,
) -> (Seq<ObjectView>, Seq<(Seq<char>, Color)>, UseResult) {
    match closest_of(v, fov, LIGHTNING_RANGE as int) {
        Some(i) => (
            v.update(i, damage_result(v[i], LIGHTNING_DAMAGE as int).0),
            damage_log(log_add(l, lightning_text(v[i].name), Color::LightBlue), v[i], LIGHTNING_DAMAGE as int),
            UseResult::UsedUp,
        ),
        None => (v, log_add(l, no_enemy_text(), Color::Red), UseResult::Cancelled),
    }
}

/// Strikes the nearest visible monster in range; kept when there is none.
pub fn cast_lightning(objects: &mut Vec<Object>, game: &mut Game, fov: &Visibility) -> (r: UseResult)
    requires
        PLAYER < old(objects).len(),
    ensures
        (views(final(objects)@), log_view(final(game).log@), r) == lightning_effect(
            views(old(objects)@),
            vis(fov),
            log_view(old(game).log@),
        ),
        final(objects).len() == old(objects).len(),
        same_but_log(&*final(game), &*old(game)),
{
    let ghost v = views(objects@);
    let monster_id = closest_monster(LIGHTNING_RANGE, objects, fov);
    match monster_id {
        Some(id) => {
            let mut t = String::from_str("A lightning bolt strikes the ");
            t.append(objects[id].name.as_str());
            t.append(" with a loud thunder! The damage is ");
            append_int(&mut t, LIGHTNING_DAMAGE as i64);
            t.append(" hit points.");
            message(&mut game.log, t, Color::LightBlue);
            let _ = objects[id].take_damage(LIGHTNING_DAMAGE, game);
            assert(views(objects@) =~= v.update(id as int, objects@[id as int]@));
            UseResult::UsedUp
        },
        None => {
            message(&mut game.log, String::from_str("No enemy is close enough to strike."), Color::Red);
            UseResult::Cancelled
        },
    }
}


pub open spec fn confuse_prompt() -> Seq<char> {
    "Left-click an enemy to confuse it, or right-click to cancel."@
}

pub open spec fn confuse_text(name: Seq<char>) -> Seq<char> {
    "The eyes of "@ + name + " look vacant, as he starts to stumble around!"@
}

/// A freshly confused behaviour wrapping `prev`.
pub open spec fn confused(prev: Ai) -> Ai {
    Ai::Confused { previous_ai: Box::new(prev), num_turns: CONFUSE_NUM_TURNS }
}

pub open spec fn confuse_effect(
    v: Seq<ObjectView>,
    l: Seq<(Seq<char>, Color)>,
    target: Option<usize>,
) -> (Seq<ObjectView>, Seq<(Seq<char>, Color)>, UseResult) {
    let l0 = log_add(l, confuse_prompt(), Color::LightCyan);
    match target {
        Some(i) => {
            let o = v[i as int];
            let prev = match o.ai {
                Some(a) => a,
                None => Ai::Basic,
            };
            (
                v.update(i as int, ObjectView { ai: Some(confused(prev)), ..o }),
                log_add(l0, confuse_text(o.name), Color::LightGreen),
                UseResult::UsedUp,
            )
        },
        None => (v, log_add(l0, no_enemy_text(), Color::Red), UseResult::Cancelled),
    }
}

/// The picked target of a confusion spell, kept only when it is a monster
/// standing on a tile in view within `CONFUSE_RANGE`.
pub open spec fn confuse_choice(v: Seq<ObjectView>, fov: Seq<Seq<bool>>, target: Option<usize>) -> Option<usize> {
    match target {
        Some(i) => if i < v.len() && monster_on(v, i as int, v[i as int].x as int, v[i as int].y as int)
            && tile_target_ok(v, fov, v[i as int].x as int, v[i as int].y as int, Some(CONFUSE_RANGE)) {
            Some(i)
        } else {
            None
        },
        None => None,
    }
}

/// The picked tile of a fireball, kept only when it is in view.
pub open spec fn fireball_choice(v: Seq<ObjectView>, fov: Seq<Seq<bool>>, target: Option<(i32, i32)>) -> Option<(i32, i32)> {
    match target {
        Some((x, y)) => if tile_target_ok(v, fov, x as int, y as int, None) { Some((x, y)) } else { None },
        None => None,
    }
}

/// Confuses the monster the player picked; kept when no valid monster was
/// picked.
pub fn cast_confuse(objects: &mut Vec<Object>, game: &mut Game, fov: &Visibility, target: Option<usize>) -> (r: UseResult)
    requires
        PLAYER < old(objects).len(),
    ensures
        (views(final(objects)@), log_view(final(game).log@), r) == confuse_effect(
            views(old(objects)@),
            log_view(old(game).log@),
            confuse_choice(views(old(objects)@), vis(fov), target),
        ),
        final(objects).len() == old(objects).len(),
        same_but_log(&*final(game), &*old(game)),
{
    let ghost v = views(objects@);
    message(
        &mut game.log,
        String::from_str("Left-click an enemy to confuse it, or right-click to cancel."),
        Color::LightCyan,
    );
    let target = match target {
        Some(i) => if i < objects.len() && i != PLAYER && objects[i].fighter.is_some()
            && target_tile_ok(objects, fov, objects[i].x, objects[i].y, Some(CONFUSE_RANGE)) {
            Some(i)
        } else {
            None
        },
        None => None,
    };
    match target {
        Some(id) => {
            let old_ai = match objects[id].ai.take() {
                Some(a) => a,
                None => Ai::Basic,
            };
            objects[id].ai = Some(Ai::Confused { previous_ai: Box::new(old_ai), num_turns: CONFUSE_NUM_TURNS });
            let mut t = String::from_str("The eyes of ");
            t.append(objects[id].name.as_str());
            t.append(" look vacant, as he starts to stumble around!");
            message(&mut game.log, t, Color::LightGreen);
            assert(views(objects@) =~= v.update(id as int, ObjectView { ai: Some(confused(old_ai)), ..v[id as int] }));
            UseResult::UsedUp
        },
        None => {
            message(&mut game.log, String::from_str("No enemy is close enough to strike."), Color::Red);
            UseResult::Cancelled
        },
    }
}

pub open spec fn fireball_prompt() -> Seq<char> {
    "Left-click a target tile for the fireball, or right-click to cancel."@
}

pub open spec fn explosion_text() -> Seq<char> {
    "The fireball explodes, burning everything within "@ + decimal(FIREBALL_RADIUS as int) + " tiles!"@
}

pub open spec fn burned_text(name: Seq<char>) -> Seq<char> {
    "The "@ + name + " gets burned for "@ + decimal(FIREBALL_DAMAGE as int) + " hit points."@
}

/// A fighter within the blast radius of `(x, y)`.
pub open spec fn in_blast(o: ObjectView, x: int, y: int) -> bool {
    dist_sq(o.x as int, o.y as int, x, y) <= FIREBALL_RADIUS * FIREBALL_RADIUS && o.fighter is Some
}

/// Roster, log and experience for the player after the blast has reached the
/// first `n` objects; the player gains nothing for burning itself.
pub open spec fn blast(v: Seq<ObjectView>, l: Seq<(Seq<char>, Color)>, x: int, y: int, n: int) -> (
    Seq<ObjectView>,
    Seq<(Seq<char>, Color)>,
    int,
)
    decreases n,
{
    if n <= 0 {
        (v, l, 0)
    } else {
        let (v1, l1, g1) = blast(v, l, x, y, n - 1);
        let o = v[n - 1];
        if in_blast(o, x, y) {
            let (o2, award) = damage_result(o, FIREBALL_DAMAGE as int);
            let gain = if n - 1 != PLAYER && award is Some { award.unwrap() as int } else { 0 };
            (
                v1.update(n - 1, o2),
                damage_log(log_add(l1, burned_text(o.name), Color::Orange), o, FIREBALL_DAMAGE as int),
                g1 + gain,
            )
        } else {
            (v1, l1, g1)
        }
    }
}

proof fn lemma_blast(v: Seq<ObjectView>, l: Seq<(Seq<char>, Color)>, x: int, y: int, n: int)
    requires
        0 <= n <= v.len(),
    ensures
        blast(v, l, x, y, n).0.len() == v.len(),
        forall|j: int| n <= j < v.len() ==> #[trigger] blast(v, l, x, y, n).0[j] == v[j],
        -0x8000_0000 * n <= blast(v, l, x, y, n).2 <= 0x8000_0000 * n,
    decreases n,
{
    if n > 0 {
        lemma_blast(v, l, x, y, n - 1);
    }
}

/// Credits experience to a fighter.
pub open spec fn add_xp(o: ObjectView, gain: int) -> ObjectView {
    match o.fighter {
        Some(f) => ObjectView { fighter: Some(crate::types::Fighter { xp: clamp_i32(f.xp + gain) as i32, ..f }), ..o },
        None => o,
    }
}

pub open spec fn fireball_effect(
    v: Seq<ObjectView>,
    l: Seq<(Seq<char>, Color)>,
    target: Option<(i32, i32)>,
) -> (Seq<ObjectView>, Seq<(Seq<char>, Color)>, UseResult) {
    let l0 = log_add(l, fireball_prompt(), Color::LightCyan);
    match target {
        Some((x, y)) => {
            let l1 = log_add(l0, explosion_text(), Color::Orange);
            let (v2, l2, gain) = blast(v, l1, x as int, y as int, v.len() as int);
            (v2.update(PLAYER as int, add_xp(v2[PLAYER as int], gain)), l2, UseResult::UsedUp)
        },
        None => (v, l0, UseResult::Cancelled),
    }
}

/// Burns every fighter around the tile the player picked, the player
/// included; the player gains the experience of the monsters it kills. Kept
/// when no tile in view was picked.
pub fn cast_fireball(objects: &mut Vec<Object>, game: &mut Game, fov: &Visibility, target: Option<(i32, i32)>) -> (r: UseResult)
    requires
        PLAYER < old(objects).len(),
    ensures
        (views(final(objects)@), log_view(final(game).log@), r) == fireball_effect(
            views(old(objects)@),
            log_view(old(game).log@),
            fireball_choice(views(old(objects)@), vis(fov), target),
        ),
        final(objects).len() == old(objects).len(),
        same_but_log(&*final(game), &*old(game)),
{
    let ghost v = views(objects@);
    message(
        &mut game.log,
        String::from_str("Left-click a target tile for the fireball, or right-click to cancel."),
        Color::LightCyan,
    );
    let (x, y) = match target {
        Some((x, y)) => if target_tile_ok(objects, fov, x, y, None) {
            (x, y)
        } else {
            return UseResult::Cancelled;
        },
        None => return UseResult::Cancelled,
    };
    let mut t = String::from_str("The fireball explodes, burning everything within ");
    append_int(&mut t, FIREBALL_RADIUS as i64);
    t.append(" tiles!");
    message(&mut game.log, t, Color::Orange);
    let ghost l1 = log_view(game.log@);
    let ghost g0 = *game;
    let mut xp_to_gain: i128 = 0;
    let mut id: usize = 0;
    while id < objects.len()
        invariant
            id <= objects.len(),
            objects.len() == v.len(),
            (views(objects@), log_view(game.log@), xp_to_gain as int) == blast(v, l1, x as int, y as int, id as int),
            same_but_log(&*game, &g0),
            g0.inventory == old(game).inventory,
            g0.map == old(game).map,
            g0.dungeon_level == old(game).dungeon_level,
        decreases objects.len() - id,
    {
        proof { lemma_blast(v, l1, x as int, y as int, id as int); }
        let ghost vi = views(objects@);
        assert(vi[id as int] == v[id as int]);
        if objects[id].distance_sq(x, y) <= (FIREBALL_RADIUS * FIREBALL_RADIUS) as i128 && objects[id].fighter.is_some() {
            let mut t = String::from_str("The ");
            t.append(objects[id].name.as_str());
            t.append(" gets burned for ");
            append_int(&mut t, FIREBALL_DAMAGE as i64);
            t.append(" hit points.");
            message(&mut game.log, t, Color::Orange);
            let award = objects[id].take_damage(FIREBALL_DAMAGE, game);
            assert(views(objects@) =~= vi.update(id as int, objects@[id as int]@));
            match award {
                Some(xp) => {
                    if id != PLAYER {
                        xp_to_gain = xp_to_gain + xp as i128;
                    }
                },
                None => {},
            }
        }
        id = id + 1;
    }
    proof { lemma_blast(v, l1, x as int, y as int, v.len() as int); }
    let ghost v2 = views(objects@);
    match objects[PLAYER].fighter {
        Some(f) => {
            objects[PLAYER].fighter = Some(crate::types::Fighter { xp: clamp(f.xp as i128 + xp_to_gain), ..f });
            assert(views(objects@) =~= v2.update(PLAYER as int, add_xp(v2[PLAYER as int], xp_to_gain as int)));
        },
        None => {
            assert(views(objects@) =~= v2.update(PLAYER as int, add_xp(v2[PLAYER as int], xp_to_gain as int)));
        },
    }
    UseResult::UsedUp
}


/// Roster, inventory, log and outcome of the effect that `item` has.
pub open spec fn item_effect(
    item: Item,
    v: Seq<ObjectView>,
    inv: Seq<ObjectView>,
    l: Seq<(Seq<char>, Color)>,
    id: int,
    fov: Seq<Seq<bool>>,
    tile: Option<(i32, i32)>,
    monster: Option<usize>,
) -> (Seq<ObjectView>, Seq<ObjectView>, Seq<(Seq<char>, Color)>, UseResult) {
    match item {
        Item::Heal => {
            let (v2, l2, r) = heal_effect(v, inv, l);
            (v2, inv, l2, r)
        },
        Item::Lightning => {
            let (v2, l2, r) = lightning_effect(v, fov, l);
            (v2, inv, l2, r)
        },
        Item::Confuse => {
            let (v2, l2, r) = confuse_effect(v, l, confuse_choice(v, fov, monster));
            (v2, inv, l2, r)
        },
        Item::Fireball => {
            let (v2, l2, r) = fireball_effect(v, l, fireball_choice(v, fov, tile));
            (v2, inv, l2, r)
        },
        _ => {
            let (inv2, l2, r) = toggle_effect(inv, l, id);
            (v, inv2, l2, r)
        },
    }
}

/// Roster, inventory and log after inventory entry `id` is used.
pub open spec fn use_outcome(
    v: Seq<ObjectView>,
    inv: Seq<ObjectView>,
    l: Seq<(Seq<char>, Color)>,
    id: int,
    fov: Seq<Seq<bool>>,
    tile: Option<(i32, i32)>,
    monster: Option<usize>,
) -> (Seq<ObjectView>, Seq<ObjectView>, Seq<(Seq<char>, Color)>) {
    let o = inv[id];
    match o.item {
        None => (v, inv, log_add(l, "The "@ + o.name + " cannot be used."@, Color::White)),
        Some(item) => {
            let (v2, inv2, l2, r) = item_effect(item, v, inv, l, id, fov, tile, monster);
            match r {
                UseResult::UsedUp => (v2, inv2.remove(id), l2),
                UseResult::UsedAndKept => (v2, inv2, l2),
                UseResult::Cancelled => (v2, inv2, log_add(l2, "Cancelled"@, Color::White)),
            }
        },
    }
}

/// Uses inventory entry `inventory_id`. Spells that need a target take the
/// one the player picked: `tile` for a fireball, `monster` for confusion. An
/// item is consumed only when its effect took place.
pub fn use_item(
    inventory_id: usize,
    objects: &mut Vec<Object>,
    game: &mut Game,
    fov: &Visibility,
    tile: Option<(i32, i32)>,
    monster: Option<usize>,
)
    requires
        inventory_id < old(game).inventory.len(),
        PLAYER < old(objects).len(),
    ensures
        final(objects).len() == old(objects).len(),
        final(game).map == old(game).map,
        final(game).dungeon_level == old(game).dungeon_level,
        (views(final(objects)@), views(final(game).inventory@), log_view(final(game).log@)) == use_outcome(
            views(old(objects)@),
            views(old(game).inventory@),
            log_view(old(game).log@),
            inventory_id as int,
            vis(fov),
            tile,
            monster,
        ),
        slots_unique(views(old(game).inventory@)) && equipment_tagged(views(old(game).inventory@))
            ==> slots_unique(views(final(game).inventory@)),
{
    let ghost inv = views(game.inventory@);
    match game.inventory[inventory_id].item {
        Some(item) => {
            let result = match item {
                Item::Heal => cast_heal(objects, game),
                Item::Lightning => cast_lightning(objects, game, fov),
                Item::Confuse => cast_confuse(objects, game, fov, monster),
                Item::Fireball => cast_fireball(objects, game, fov, tile),
                _ => toggle_equipment(inventory_id, game),
            };
            let ghost inv2 = views(game.inventory@);
            match result {
                UseResult::UsedUp => {
                    game.inventory.remove(inventory_id);
                    assert(views(game.inventory@) =~= inv2.remove(inventory_id as int));
                    proof { lemma_remove_keeps_unique(inv2, inventory_id as int); }
                },
                UseResult::UsedAndKept => {},
                UseResult::Cancelled => {
                    message(&mut game.log, String::from_str("Cancelled"), Color::White);
                },
            }
        },
        None => {
            let mut t = String::from_str("The ");
            t.append(game.inventory[inventory_id].name.as_str());
            t.append(" cannot be used.");
            message(&mut game.log, t, Color::White);
        },
    }
}

} // verus!
