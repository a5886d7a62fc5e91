use vstd::prelude::*;
use crate::color::Color;
use crate::combat::{attack_between, attack_effect};
use crate::config::PLAYER;
use crate::fov::{Visibility, is_in_fov, vis, visible};
use crate::geometry::{Tile, TileMap, grid};
use crate::log::{Messages, message, log_add, log_view};
use crate::object::{Game, Object, ObjectView, dist_sq, same_but_log, views};
use crate::random::random_range;
use crate::types::Ai;
use crate::world::{move_by, move_towards, moved_by, step_towards};

verus! {

/// The behaviour after one turn of a confused agent: the counter goes down
/// while it is not negative, then the remembered behaviour comes back.
pub open spec fn next_ai(ai: Ai) -> Ai {
    match ai {
        Ai::Basic => Ai::Basic,
        Ai::Confused { previous_ai, num_turns } => if num_turns >= 0 {
            Ai::Confused { previous_ai, num_turns: (num_turns - 1) as i32 }
        } else {
            *previous_ai
        },
    }
}

/// The roster with the behaviour of object `id` replaced.
pub open spec fn with_ai(v: Seq<ObjectView>, id: int, ai: Option<Ai>) -> Seq<ObjectView> {
    v.update(id, ObjectView { ai, ..v[id] })
}

/// Roster and log after a basic monster's turn: it acts only when the player
/// can see it; far away it steps towards the player, close by it attacks a
/// player with hit points left.
pub open spec fn basic_turn(
    g: Seq<Seq<Tile>>,
    v: Seq<ObjectView>,
    id: int,
    fov: Seq<Seq<bool>>,
    inv: Seq<ObjectView>,
    l: Seq<(Seq<char>, Color)>,
) -> (Seq<ObjectView>, Seq<(Seq<char>, Color)>) {
    let m = v[id];
    let p = v[PLAYER as int];
    if visible(fov, m.x as int, m.y as int) {
        if dist_sq(m.x as int, m.y as int, p.x as int, p.y as int) >= 4 {
            let (sx, sy) = step_towards(m, p.x as int, p.y as int);
            (moved_by(g, v, id, sx, sy), l)
        } else if p.fighter is Some && p.fighter.unwrap().hp > 0 {
            let (m_after, p_hit, l2) = attack_effect(m, p, inv, l);
            (v.update(id, m_after).update(PLAYER as int, p_hit), l2)
        } else {
            (v, l)
        }
    } else {
        (v, l)
    }
}

pub open spec fn no_longer_confused_text(name: Seq<char>) -> Seq<char> {
    "The "@ + name + " is no longer confused!"@
}

/// A basic monster takes its turn. If you can see it, it can see you.
pub fn ai_basic(monster_id: usize, game: &mut Game, objects: &mut Vec<Object>, fov: &Visibility) -> (r: Ai)
    requires
        monster_id < old(objects).len(),
        monster_id != PLAYER,
        PLAYER < old(objects).len(),
    ensures
        final(objects).len() == old(objects).len(),
        r == Ai::Basic,
        (views(final(objects)@), log_view(final(game).log@)) == basic_turn(
            grid(&old(game).map),
            views(old(objects)@),
            monster_id as int,
            vis(fov),
            views(old(game).inventory@),
            log_view(old(game).log@),
        ),
        same_but_log(&*final(game), &*old(game)),
{
    let (mx, my) = objects[monster_id].pos();
    if is_in_fov(fov, mx, my) {
        let d = objects[monster_id].distance_sq_to(&objects[PLAYER]);
        if d >= 4 {
            let (px, py) = objects[PLAYER].pos();
            move_towards(monster_id, px, py, &game.map, objects);
        } else {
            let alive = match objects[PLAYER].fighter {
                Some(f) => f.hp > 0,
                None => false,
            };
            if alive {
                attack_between(monster_id, PLAYER, objects, game);
            }
        }
    }
    Ai::Basic
}

/// A confused monster's turn, given the random step `(dx, dy)`: while the
/// counter is not negative the monster stumbles by the step and the counter
/// goes down; after that the previous behaviour is restored.
pub fn confused_step(
    monster_id: usize,
    map: &TileMap,
    objects: &mut Vec<Object>,
    messages: &mut Messages,
    previous_ai: Box<Ai>,
    num_turns: i32,
    dx: i32,
    dy: i32,
) -> (r: Ai)
    requires
        monster_id < old(objects).len(),
    ensures
        final(objects).len() == old(objects).len(),
        r == next_ai(Ai::Confused { previous_ai, num_turns }),
        num_turns >= 0 ==> {
            &&& views(final(objects)@) == moved_by(grid(map), views(old(objects)@), monster_id as int, dx as int, dy as int)
            &&& *final(messages) == *old(messages)
        },
        num_turns < 0 ==> {
            &&& *final(objects) == *old(objects)
            &&& log_view(final(messages)@) == log_add(
                log_view(old(messages)@),
                no_longer_confused_text(old(objects)@[monster_id as int]@.name),
                Color::Red,
            )
        },
{
    if num_turns >= 0 {
        move_by(monster_id, dx, dy, map, objects);
        Ai::Confused { previous_ai, num_turns: num_turns - 1 }
    } else {
        let mut t = String::from_str("The ");
        t.append(objects[monster_id].name.as_str());
        t.append(" is no longer confused!");
        message(messages, t, Color::Red);
        *previous_ai
    }
}

/// A confused monster's turn with a step drawn uniformly from `{-1, 0, 1}` on
/// each axis.
pub fn ai_confused(
    monster_id: usize,
    map: &TileMap,
    objects: &mut Vec<Object>,
    messages: &mut Messages,
    previous_ai: Box<Ai>,
    num_turns: i32,
) -> (r: Ai)
    requires
        monster_id < old(objects).len(),
    ensures
        final(objects).len() == old(objects).len(),
        r == next_ai(Ai::Confused { previous_ai, num_turns }),
        num_turns >= 0 ==> {
            &&& exists|dx: int, dy: int|
                -1 <= dx <= 1 && -1 <= dy <= 1 && views(final(objects)@) == #[trigger] moved_by(
                    grid(map),
                    views(old(objects)@),
                    monster_id as int,
                    dx,
                    dy,
                )
            &&& *final(messages) == *old(messages)
        },
        num_turns < 0 ==> {
            &&& *final(objects) == *old(objects)
            &&& log_view(final(messages)@) == log_add(
                log_view(old(messages)@),
                no_longer_confused_text(old(objects)@[monster_id as int]@.name),
                Color::Red,
            )
        },
{
    let dx = random_range(-1, 2);
    let dy = random_range(-1, 2);
    confused_step(monster_id, map, objects, messages, previous_ai, num_turns, dx, dy)
}

/// Roster and log after the turn of monster `id`, given the random step
/// `(dx, dy)` that a confused monster takes.
pub open spec fn monster_turn(
    g: Seq<Seq<Tile>>,
    v: Seq<ObjectView>,
    id: int,
    fov: Seq<Seq<bool>>,
    inv: Seq<ObjectView>,
    l: Seq<(Seq<char>, Color)>,
    dx: int,
    dy: int,
) -> (Seq<ObjectView>, Seq<(Seq<char>, Color)>) {
    match v[id].ai {
        None => (v, l),
        Some(ai) => {
            let v0 = with_ai(v, id, None);
            match ai {
                Ai::Basic => {
                    let (v1, l1) = basic_turn(g, v0, id, fov, inv, l);
                    (with_ai(v1, id, Some(Ai::Basic)), l1)
                },
                Ai::Confused { previous_ai, num_turns } => if num_turns >= 0 {
                    (with_ai(moved_by(g, v0, id, dx, dy), id, Some(next_ai(ai))), l)
                } else {
                    (with_ai(v0, id, Some(next_ai(ai))), log_add(l, no_longer_confused_text(v[id].name), Color::Red))
                },
            }
        },
    }
}

/// Lets monster `monster_id` act according to its behaviour.
pub fn ai_take_turn(monster_id: usize, objects: &mut Vec<Object>, game: &mut Game, fov: &Visibility)
    requires
        monster_id < old(objects).len(),
        monster_id != PLAYER,
        PLAYER < old(objects).len(),
    ensures
        final(objects).len() == old(objects).len(),
        exists|dx: int, dy: int|
            -1 <= dx <= 1 && -1 <= dy <= 1 && (views(final(objects)@), log_view(final(game).log@))
                == #[trigger] monster_turn(
                grid(&old(game).map),
                views(old(objects)@),
                monster_id as int,
                vis(fov),
                views(old(game).inventory@),
                log_view(old(game).log@),
                dx,
                dy,
            ),
        same_but_log(&*final(game), &*old(game)),
{
    let ghost v = views(objects@);
    let ghost g = grid(&game.map);
    let ghost inv = views(game.inventory@);
    let ghost l = log_view(game.log@);
    let taken = objects[monster_id].ai.take();
    match taken {
        None => {
            assert(views(objects@) =~= v);
            assert(monster_turn(g, v, monster_id as int, vis(fov), inv, l, 0, 0) == (v, l));
        },
        Some(ai) => {
            let ghost v0 = views(objects@);
            assert(v0 =~= with_ai(v, monster_id as int, None));
            let ghost ai0 = ai;
            let new_ai = match ai {
                Ai::Basic => ai_basic(monster_id, game, objects, fov),
                Ai::Confused { previous_ai, num_turns } => ai_confused(
                    monster_id,
                    &game.map,
                    objects,
                    &mut game.log,
                    previous_ai,
                    num_turns,
                ),
            };
            let ghost v1 = views(objects@);
            objects[monster_id].ai = Some(new_ai);
            assert(views(objects@) =~= with_ai(v1, monster_id as int, Some(new_ai)));
            proof {
                match ai0 {
                    Ai::Basic => {
                        assert(monster_turn(g, v, monster_id as int, vis(fov), inv, l, 0, 0) == (views(objects@), log_view(game.log@)));
                    },
                    Ai::Confused { previous_ai, num_turns } => {
                        if num_turns >= 0 {
                            let (dx, dy) = choose|dx: int, dy: int|
                                -1 <= dx <= 1 && -1 <= dy <= 1 && v1 == #[trigger] moved_by(g, v0, monster_id as int, dx, dy);
                            assert(monster_turn(g, v, monster_id as int, vis(fov), inv, l, dx, dy) == (views(objects@), log_view(game.log@)));
                        } else {
                            assert(monster_turn(g, v, monster_id as int, vis(fov), inv, l, 0, 0) == (views(objects@), log_view(game.log@)));
                        }
                    },
                }
            }
        },
    }
}


/// The behaviour after `n` turns.
pub open spec fn ai_after(ai: Ai, n: nat) -> Ai
    decreases n,
{
    if n == 0 {
        ai
    } else {
        ai_after(next_ai(ai), (n - 1) as nat)
    }
}

/// Confusion with `k` turns left stays for `k + 1` more turns and then gives
/// back exactly the behaviour it wrapped, once.
pub proof fn lemma_confusion_reverts(previous_ai: Ai, k: int)
    requires
        -1 <= k <= i32::MAX,
    ensures
        forall|j: nat| j < k + 2 ==> (#[trigger] ai_after(
            Ai::Confused { previous_ai: Box::new(previous_ai), num_turns: k as i32 },
            j,
        )) is Confused,
        ai_after(Ai::Confused { previous_ai: Box::new(previous_ai), num_turns: k as i32 }, (k + 2) as nat)
            == previous_ai,
    decreases k + 1,
{
    let c = Ai::Confused { previous_ai: Box::new(previous_ai), num_turns: k as i32 };
    if k == -1 {
        assert(ai_after(c, 0) == c);
        assert(ai_after(c, 1) == ai_after(previous_ai, 0));
        assert forall|j: nat| j < k + 2 implies (#[trigger] ai_after(c, j)) is Confused by {
            assert(j == 0);
        }
    } else {
        let c1 = Ai::Confused { previous_ai: Box::new(previous_ai), num_turns: (k - 1) as i32 };
        assert(next_ai(c) == c1);
        lemma_confusion_reverts(previous_ai, k - 1);
        assert(ai_after(c, (k + 2) as nat) == ai_after(c1, (k + 1) as nat));
        assert forall|j: nat| j < k + 2 implies (#[trigger] ai_after(c, j)) is Confused by {
            if j > 0 {
                assert(ai_after(c, j) == ai_after(c1, (j - 1) as nat));
            }
        }
    }
}

} // verus!
