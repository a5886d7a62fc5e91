use vstd::prelude::*;
use crate::color::Color;
use crate::config::CORPSE;
use crate::log::{Messages, message, log_add, log_view};
use crate::object::{
    Game, Object, ObjectView, Stat, clamp, clamp_i32, damage_log, damage_result, death_log,
    death_transform, death_transform_as, death_log_as, gain_xp, healed, hit, lethal, same_but_log, stat_of, views, with_hp,
};
use crate::text::{append_int, decimal};
use crate::types::{DeathCallback, Fighter};
use crate::world::mut_two;

verus! {

pub open spec fn attack_text(a: Seq<char>, t: Seq<char>, damage: int) -> Seq<char> {
    a + " attacks "@ + t + " for "@ + decimal(damage) + " hit points."@
}

/// Attacker, target and log after an attack.
pub open spec fn attack_effect(
    a: ObjectView,
    t: ObjectView,
    inv: Seq<ObjectView>,
    l: Seq<(Seq<char>, Color)>,
) -> (ObjectView, ObjectView, Seq<(Seq<char>, Color)>) {
    let d = stat_of(a, inv, Stat::Power) - stat_of(t, inv, Stat::Defense);
    if d > 0 {
        let dmg = clamp_i32(d);
        let (t2, award) = damage_result(t, dmg);
        (gain_xp(a, award), t2, damage_log(log_add(l, attack_text(a.name, t.name, dmg), Color::White), t, dmg))
    } else {
        (a, t, log_add(l, no_effect_text(a.name, t.name), Color::White))
    }
}

pub open spec fn no_effect_text(a: Seq<char>, t: Seq<char>) -> Seq<char> {
    a + " attacks "@ + t + " but it has no effect!"@
}

/// Turns the player into a corpse.
pub fn player_death(player: &mut Object, messages: &mut Messages)
    ensures
        final(player)@ == (ObjectView { char: CORPSE, color: Color::DarkRed, ..old(player)@ }),
        log_view(final(messages)@) == log_add(log_view(old(messages)@), "You died!"@, Color::DarkRed),
{
    message(messages, String::from_str("You died!"), Color::DarkRed);
    player.char = CORPSE;
    player.color = Color::DarkRed;
}

/// Turns a monster into remains that neither block, fight nor act.
pub fn monster_death(monster: &mut Object, messages: &mut Messages)
    requires
        old(monster).fighter is Some,
    ensures
        final(monster)@ == (ObjectView {
            char: CORPSE,
            color: Color::DarkRed,
            blocks: false,
            fighter: None,
            ai: None,
            name: "remains of "@ + old(monster)@.name,
            ..old(monster)@
        }),
        log_view(final(messages)@) == log_add(
            log_view(old(messages)@),
            old(monster)@.name + " is dead! You gain "@ + decimal(old(monster).fighter.unwrap().xp as int)
                + " experience points."@,
            Color::Orange,
        ),
{
    let xp = match monster.fighter {
        Some(f) => f.xp,
        None => 0,
    };
    let mut t = String::from_str(monster.name.as_str());
    t.append(" is dead! You gain ");
    append_int(&mut t, xp as i64);
    t.append(" experience points.");
    message(messages, t, Color::Orange);
    monster.char = CORPSE;
    monster.color = Color::DarkRed;
    monster.blocks = false;
    monster.fighter = None;
    monster.ai = None;
    let mut name = String::from_str("remains of ");
    name.append(monster.name.as_str());
    monster.name = name;
}

impl DeathCallback {
    /// Applies the death transformation of this variant to `object`.
    pub fn callback(self, object: &mut Object, game: &mut Game)
        requires
            self == DeathCallback::Monster ==> old(object).fighter is Some,
        ensures
            final(object)@ == death_transform_as(old(object)@, self),
            log_view(final(game).log@) == death_log_as(log_view(old(game).log@), old(object)@, self),
            same_but_log(&*final(game), &*old(game)),
    {
        match self {
            DeathCallback::Player => player_death(object, &mut game.log),
            DeathCallback::Monster => monster_death(object, &mut game.log),
        }
    }
}

impl Object {
    /// Heals by `amount`, without going over the effective maximum; a
    /// fighter without hit points left is not healed.
    pub fn heal(&mut self, amount: i32, game: &Game)
        ensures
            final(self)@ == healed(old(self)@, amount as int, stat_of(old(self)@, views(game.inventory@), Stat::MaxHp)),
    {
        let max_hp = self.max_hp(game);
        match self.fighter {
            Some(f) => {
                if f.hp <= 0 {
                    return;
                }
                let total = f.hp as i128 + amount as i128;
                let hp = if total > max_hp as i128 { max_hp } else { clamp(total) };
                self.fighter = Some(Fighter { hp, ..f });
            },
            None => {},
        }
    }

    /// Applies `damage` to a fighter; a living fighter left without hit points
    /// dies, and its experience is returned as an award for the killer.
    pub fn take_damage(&mut self, damage: i32, game: &mut Game) -> (r: Option<i32>)
        ensures
            (final(self)@, r) == damage_result(old(self)@, damage as int),
            log_view(final(game).log@) == damage_log(log_view(old(game).log@), old(self)@, damage as int),
            same_but_log(&*final(game), &*old(game)),
    {
        match self.fighter {
            Some(f) => {
                if damage > 0 {
                    self.fighter = Some(Fighter { hp: clamp(f.hp as i128 - damage as i128), ..f });
                }
            },
            None => {},
        }
        assert(self@ == hit(old(self)@, damage as int));
        match self.fighter {
            Some(f) => {
                if f.hp <= 0 && self.alive {
                    self.alive = false;
                    f.on_death.callback(self, game);
                    return Some(f.xp);
                }
            },
            None => {},
        }
        None
    }

    /// Attacks `target`: damage is attacker power minus target defense; a
    /// killing blow credits the target's experience to the attacker.
    pub fn attack(&mut self, target: &mut Object, game: &mut Game)
        ensures
            (final(self)@, final(target)@, log_view(final(game).log@)) == attack_effect(
                old(self)@,
                old(target)@,
                views(old(game).inventory@),
                log_view(old(game).log@),
            ),
            same_but_log(&*final(game), &*old(game)),
    {
        let power = self.power(game);
        let defense = target.defense(game);
        let d = power as i128 - defense as i128;
        if d > 0 {
            let dmg = clamp(d);
            let mut t = String::from_str(self.name.as_str());
            t.append(" attacks ");
            t.append(target.name.as_str());
            t.append(" for ");
            append_int(&mut t, dmg as i64);
            t.append(" hit points.");
            message(&mut game.log, t, Color::White);
            let award = target.take_damage(dmg, game);
            match award {
                Some(xp) => match self.fighter {
                    Some(f) => {
                        self.fighter = Some(Fighter { xp: clamp(f.xp as i128 + xp as i128), ..f });
                    },
                    None => {},
                },
                None => {},
            }
        } else {
            let mut t = String::from_str(self.name.as_str());
            t.append(" attacks ");
            t.append(target.name.as_str());
            t.append(" but it has no effect!");
            message(&mut game.log, t, Color::White);
        }
    }
}

/// Lets the object at `attacker` attack the object at `target` of the roster.
pub fn attack_between(attacker: usize, target: usize, objects: &mut Vec<Object>, game: &mut Game)
    requires
        attacker < old(objects).len(),
        target < old(objects).len(),
        attacker != target,
    ensures
        final(objects).len() == old(objects).len(),
        ({
            let (a2, t2, l2) = attack_effect(
                views(old(objects)@)[attacker as int],
                views(old(objects)@)[target as int],
                views(old(game).inventory@),
                log_view(old(game).log@),
            );
            &&& views(final(objects)@) == views(old(objects)@).update(attacker as int, a2).update(target as int, t2)
            &&& log_view(final(game).log@) == l2
        }),
        same_but_log(&*final(game), &*old(game)),
{
    let ghost v0 = views(objects@);
    let (a, t) = mut_two(attacker, target, objects.as_mut_slice());
    a.attack(t, game);
    let ghost (a2, t2, l2) = attack_effect(v0[attacker as int], v0[target as int], views(old(game).inventory@), log_view(old(game).log@));
    assert(views(objects@) =~= v0.update(attacker as int, a2).update(target as int, t2));
}


/// An attack takes `max(0, power - defense)` hit points from the target
/// (saturating at the bounds of `i32`); a fighter that did not die keeps its
/// other statistics.
pub proof fn lemma_attack_damage(a: ObjectView, t: ObjectView, inv: Seq<ObjectView>, l: Seq<(Seq<char>, Color)>)
    requires
        t.fighter is Some,
    ensures
        ({
            let d = stat_of(a, inv, Stat::Power) - stat_of(t, inv, Stat::Defense);
            let t2 = attack_effect(a, t, inv, l).1;
            &&& d <= 0 ==> t2 == t
            &&& d > 0 && !lethal(hit(t, clamp_i32(d))) ==> t2.fighter == Some(
                Fighter { hp: clamp_i32(t.fighter.unwrap().hp - clamp_i32(d)) as i32, ..t.fighter.unwrap() },
            )
            &&& d > 0 && 0 < t.fighter.unwrap().hp - d && t.fighter.unwrap().hp - d <= i32::MAX ==> t2.fighter
                == Some(Fighter { hp: (t.fighter.unwrap().hp - d) as i32, ..t.fighter.unwrap() })
        }),
{
}

/// Death happens once: a fighter killed by one hit yields its experience; any
/// further hit leaves it dead, yields nothing, logs nothing and applies no
/// second death transformation.
pub proof fn lemma_death_once(o: ObjectView, first: int, second: int, l: Seq<(Seq<char>, Color)>)
    requires
        damage_result(o, first).1 is Some,
    ensures
        !damage_result(o, first).0.alive,
        damage_result(damage_result(o, first).0, second).1 is None,
        damage_result(damage_result(o, first).0, second).0 == hit(damage_result(o, first).0, second),
        !damage_result(damage_result(o, first).0, second).0.alive,
        damage_log(l, damage_result(o, first).0, second) == l,
{
}

/// Healing never goes past the maximum, whatever the amount; at full health
/// a heal changes nothing, and below death neither does it.
pub proof fn lemma_heal_bounded(o: ObjectView, amount: int, max_hp: int)
    requires
        o.fighter is Some,
        i32::MIN <= max_hp <= i32::MAX,
    ensures
        o.fighter.unwrap().hp > 0 ==> healed(o, amount, max_hp).fighter.unwrap().hp <= max_hp,
        o.fighter.unwrap().hp == max_hp && amount >= 0 ==> healed(o, amount, max_hp) == o,
        o.fighter.unwrap().hp <= 0 ==> healed(o, amount, max_hp) == o,
{
    if o.fighter.unwrap().hp == max_hp && amount >= 0 {
        assert(with_hp(o, max_hp) == o);
    }
}

} // verus!
