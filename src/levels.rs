use vstd::prelude::*;
use crate::color::Color;
use crate::config::{LEVEL_UP_BASE, LEVEL_UP_FACTOR, PLAYER};
use crate::log::{message, log_add, log_view};
use crate::object::{Game, Object, ObjectView, Stat, clamp, clamp_i32, same_but_log, stat_of, views};
use crate::text::{append_int, decimal};
use crate::types::{Fighter, Transition};

verus! {

/// The entry with the greatest level not above `level`; among entries of
/// equal level, the later one. The table need not be sorted.
pub open spec fn best_entry(table: Seq<Transition>, level: u32) -> Option<Transition>
    decreases table.len(),
{
    if table.len() == 0 {
        None
    } else {
        let b = best_entry(table.drop_last(), level);
        let t = table.last();
        if t.level <= level && (b is None || t.level >= b.unwrap().level) {
            Some(t)
        } else {
            b
        }
    }
}

/// The value of the entry with the greatest threshold reached, or 0.
pub open spec fn level_value(table: Seq<Transition>, level: u32) -> u32 {
    match best_entry(table, level) {
        Some(t) => t.value,
        None => 0,
    }
}

proof fn lemma_best_entry(table: Seq<Transition>, level: u32)
    ensures
        match best_entry(table, level) {
            Some(t) => t.level <= level && (exists|i: int| 0 <= i < table.len() && #[trigger] table[i] == t)
                && forall|i: int| 0 <= i < table.len() && (#[trigger] table[i]).level <= level ==> table[i].level <= t.level,
            None => forall|i: int| 0 <= i < table.len() ==> (#[trigger] table[i]).level > level,
        },
    decreases table.len(),
{
    if table.len() > 0 {
        let d = table.drop_last();
        lemma_best_entry(d, level);
        assert forall|i: int| 0 <= i < d.len() implies #[trigger] d[i] == table[i] by {}
        assert(table[table.len() - 1] == table.last());
        let n = table.len() - 1;
        match best_entry(d, level) {
            Some(b) => {
                let k = choose|i: int| 0 <= i < d.len() && #[trigger] d[i] == b;
                assert(table[k] == b);
            },
            None => {},
        }
        match best_entry(table, level) {
            Some(t) => {
                if t == table[n] {
                    assert(table[n] == t);
                } else {
                    let b = best_entry(d, level).unwrap();
                    let k = choose|i: int| 0 <= i < d.len() && #[trigger] d[i] == b;
                    assert(table[k] == t);
                }
                assert forall|i: int| 0 <= i < table.len() && (#[trigger] table[i]).level <= level
                    implies table[i].level <= t.level by {
                    if i < n {
                        assert(d[i] == table[i]);
                    }
                }
            },
            None => {
                assert forall|i: int| 0 <= i < table.len() implies (#[trigger] table[i]).level > level by {
                    if i < n {
                        assert(d[i] == table[i]);
                    }
                }
            },
        }
    }
}

proof fn lemma_level_value_in_table(table: Seq<Transition>, level: u32)
    ensures
        level_value(table, level) == 0 || exists|i: int|
            0 <= i < table.len() && (#[trigger] table[i]).value == level_value(table, level),
{
    lemma_best_entry(table, level);
}

/// A value that depends on the dungeon level: the value of the table entry
/// with the greatest level that `level` reaches; below every entry it is 0.
pub fn from_dungeon_level(table: &[Transition], level: u32) -> (r: u32)
    ensures
        r == level_value(table@, level),
        r == 0 || exists|i: int| 0 <= i < table@.len() && (#[trigger] table@[i]).value == r,
{
    proof { lemma_level_value_in_table(table@, level); }
    let mut best: Option<Transition> = None;
    let mut i: usize = 0;
    while i < table.len()
        invariant
            i <= table@.len(),
            best == best_entry(table@.take(i as int), level),
        decreases table.len() - i,
    {
        let t = table[i];
        assert(table@.take(i + 1).drop_last() =~= table@.take(i as int));
        let better = match best {
            Some(b) => t.level >= b.level,
            None => true,
        };
        if t.level <= level && better {
            best = Some(t);
        }
        i = i + 1;
    }
    assert(table@.take(i as int) =~= table@);
    match best {
        Some(t) => t.value,
        None => 0,
    }
}

/// Experience needed to leave `level`.
pub open spec fn level_up_xp(level: int) -> int {
    LEVEL_UP_BASE + level * LEVEL_UP_FACTOR
}

/// The permanent raises offered on a level-up.
#[derive(Clone, Copy, Debug, PartialEq, Eq, Structural)]
pub enum StatChoice {
    /// Twenty more maximum hit points, and a full heal.
    Constitution,
    /// One more attack.
    Strength,
    /// One more defense.
    Agility,
}

/// The player has enough experience to leave its level.
pub open spec fn ready_to_level(p: ObjectView) -> bool {
    p.fighter is Some && p.fighter.unwrap().xp >= level_up_xp(p.level as int)
}

/// The player after one level-up with the given raise.
pub open spec fn leveled(p: ObjectView, c: StatChoice, inv: Seq<ObjectView>) -> ObjectView {
    let f = p.fighter.unwrap();
    let f1 = Fighter { xp: clamp_i32(f.xp - level_up_xp(p.level as int)) as i32, ..f };
    let f2 = match c {
        StatChoice::Constitution => Fighter { base_max_hp: clamp_i32(f.base_max_hp + 20) as i32, ..f1 },
        StatChoice::Strength => Fighter { base_power: clamp_i32(f.base_power + 1) as i32, ..f1 },
        StatChoice::Agility => Fighter { base_defense: clamp_i32(f.base_defense + 1) as i32, ..f1 },
    };
    let q = ObjectView { level: (p.level + 1) as i32, fighter: Some(f2), ..p };
    match c {
        StatChoice::Constitution => ObjectView {
            fighter: Some(Fighter { hp: stat_of(q, inv, Stat::MaxHp) as i32, ..f2 }),
            ..q
        },
        _ => q,
    }
}

/// Experience needed to leave `level`.
pub fn level_up_threshold(level: i32) -> (r: i64)
    ensures
        r == level_up_xp(level as int),
{
    let l = level as i64;
    assert(-0x80_0000_0000 <= l * 150 <= 0x80_0000_0000) by (nonlinear_arith)
        requires -0x8000_0000 <= l <= 0x8000_0000;
    LEVEL_UP_BASE as i64 + l * LEVEL_UP_FACTOR as i64
}

/// Whether the player has enough experience for a level-up.
pub fn needs_level_up(objects: &Vec<Object>) -> (r: bool)
    requires
        PLAYER < objects.len(),
    ensures
        r == ready_to_level(views(objects@)[PLAYER as int]),
{
    match objects[PLAYER].fighter {
        Some(f) => f.xp as i64 >= level_up_threshold(objects[PLAYER].level),
        None => false,
    }
}

/// When the player has enough experience, raises its level and applies the
/// chosen raise, spending the experience the level took.
pub fn level_up(objects: &mut Vec<Object>, game: &mut Game, choice: StatChoice)
    requires
        PLAYER < old(objects).len(),
    ensures
        ({
            let v = views(old(objects)@);
            let p = v[PLAYER as int];
            if ready_to_level(p) {
                &&& views(final(objects)@) == v.update(PLAYER as int, leveled(p, choice, views(old(game).inventory@)))
                &&& log_view(final(game).log@) == log_add(
                    log_view(old(game).log@),
                    "Your battle skills grow stronger! You reached level "@ + decimal(p.level + 1) + "!"@,
                    Color::Yellow,
                )
            } else {
                &&& *final(objects) == *old(objects)
                &&& final(game).log == old(game).log
            }
        }),
        final(objects).len() == old(objects).len(),
        same_but_log(&*final(game), &*old(game)),
{
    if !needs_level_up(objects) {
        return;
    }
    let ghost v = views(objects@);
    let level = objects[PLAYER].level;
    let level_up_xp = level_up_threshold(level);
    let f = match objects[PLAYER].fighter {
        Some(f) => f,
        None => return,
    };
    objects[PLAYER].level = level + 1;
    let mut t = String::from_str("Your battle skills grow stronger! You reached level ");
    append_int(&mut t, level as i64 + 1);
    t.append("!");
    message(&mut game.log, t, Color::Yellow);
    let f1 = Fighter { xp: clamp(f.xp as i128 - level_up_xp as i128), ..f };
    let f2 = match choice {
        StatChoice::Constitution => Fighter { base_max_hp: clamp(f.base_max_hp as i128 + 20), ..f1 },
        StatChoice::Strength => Fighter { base_power: clamp(f.base_power as i128 + 1), ..f1 },
        StatChoice::Agility => Fighter { base_defense: clamp(f.base_defense as i128 + 1), ..f1 },
    };
    objects[PLAYER].fighter = Some(f2);
    if choice == StatChoice::Constitution {
        let max_hp = objects[PLAYER].max_hp(game);
        objects[PLAYER].fighter = Some(Fighter { hp: max_hp, ..f2 });
    }
    assert(views(objects@) =~= v.update(PLAYER as int, leveled(v[PLAYER as int], choice, views(game.inventory@))));
}

/// Number of level-ups that `xp` pays for, starting at `level`.
pub open spec fn pending_level_ups(xp: int, level: int) -> nat
    decreases xp,
{
    if level >= 0 && xp >= level_up_xp(level) {
        1 + pending_level_ups(xp - level_up_xp(level), level + 1)
    } else {
        0
    }
}

/// The player after a level-up with each raise in turn.
pub open spec fn level_ups(p: ObjectView, choices: Seq<StatChoice>, inv: Seq<ObjectView>) -> ObjectView
    decreases choices.len(),
{
    if choices.len() == 0 {
        p
    } else {
        level_ups(leveled(p, choices[0], inv), choices.drop_first(), inv)
    }
}

/// Level-ups repeat while experience covers the threshold: with one choice per
/// threshold crossed, every choice is due, and afterwards the experience left
/// is below the threshold of the level reached.
pub proof fn lemma_level_ups_settle(p: ObjectView, choices: Seq<StatChoice>, inv: Seq<ObjectView>)
    requires
        p.fighter is Some,
        p.level >= 0,
        choices.len() == pending_level_ups(p.fighter.unwrap().xp as int, p.level as int),
    ensures
        !ready_to_level(level_ups(p, choices, inv)),
        forall|k: int| 0 <= k < choices.len() ==> ready_to_level(#[trigger] level_ups(p, choices.take(k), inv)),
    decreases choices.len(),
{
    let xp = p.fighter.unwrap().xp as int;
    if choices.len() == 0 {
        assert(!(xp >= level_up_xp(p.level as int)));
    } else {
        assert(p.level * LEVEL_UP_FACTOR >= 0) by (nonlinear_arith)
            requires p.level >= 0;
        assert(p.level < i32::MAX) by (nonlinear_arith)
            requires p.level >= 0, xp >= LEVEL_UP_BASE + p.level * LEVEL_UP_FACTOR, xp <= i32::MAX;
        let q = leveled(p, choices[0], inv);
        assert(q.fighter.unwrap().xp == xp - level_up_xp(p.level as int));
        let rest = choices.drop_first();
        lemma_level_ups_settle(q, rest, inv);
        assert(level_ups(p, choices, inv) == level_ups(q, rest, inv));
        assert forall|k: int| 0 <= k < choices.len() implies ready_to_level(#[trigger] level_ups(p, choices.take(k), inv)) by {
            if k == 0 {
                assert(choices.take(0) =~= seq![]);
            } else {
                assert(choices.take(k).drop_first() =~= rest.take(k - 1));
                assert(choices.take(k)[0] == choices[0]);
                assert(level_ups(p, choices.take(k), inv) == level_ups(q, rest.take(k - 1), inv));
            }
        }
    }
}

} // verus!
