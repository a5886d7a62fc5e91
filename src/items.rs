use vstd::prelude::*;
use crate::color::Color;
use crate::config::{INVENTORY_CAPACITY, PLAYER};
use crate::log::{Messages, message, log_add, log_view};
use crate::object::{Game, Object, ObjectView, equip_log, equip_view, unequip_log, views};
use crate::types::{Slot, UseResult};

verus! {

pub open spec fn is_equipped(o: ObjectView) -> bool {
    o.equipment is Some && o.equipment.unwrap().equipped
}

pub open spec fn equipped_in(o: ObjectView, slot: Slot) -> bool {
    is_equipped(o) && o.equipment.unwrap().slot == slot
}

/// At most one equipped item per slot.
pub open spec fn slots_unique(inv: Seq<ObjectView>) -> bool {
    forall|i: int, j: int|
        0 <= i < inv.len() && 0 <= j < inv.len() && i != j && #[trigger] is_equipped(inv[i])
            && #[trigger] is_equipped(inv[j]) ==> inv[i].equipment.unwrap().slot != inv[j].equipment.unwrap().slot
}

/// Every piece of equipment is also tagged as an item, so it can be put on
/// and taken off.
pub open spec fn equipment_tagged(inv: Seq<ObjectView>) -> bool {
    forall|i: int| 0 <= i < inv.len() && (#[trigger] inv[i]).equipment is Some ==> inv[i].item is Some
}

/// Index of the first entry equipped in `slot`.
pub open spec fn first_equipped_in(inv: Seq<ObjectView>, slot: Slot) -> Option<int>
    decreases inv.len(),
{
    if inv.len() == 0 {
        None
    } else {
        match first_equipped_in(inv.drop_last(), slot) {
            Some(i) => Some(i),
            None => if equipped_in(inv.last(), slot) { Some(inv.len() - 1) } else { None },
        }
    }
}

proof fn lemma_first_equipped_in(inv: Seq<ObjectView>, slot: Slot)
    ensures
        match first_equipped_in(inv, slot) {
            Some(i) => 0 <= i < inv.len() && equipped_in(inv[i], slot)
                && forall|j: int| 0 <= j < i ==> !#[trigger] equipped_in(inv[j], slot),
            None => forall|j: int| 0 <= j < inv.len() ==> !#[trigger] equipped_in(inv[j], slot),
        },
    decreases inv.len(),
{
    if inv.len() > 0 {
        lemma_first_equipped_in(inv.drop_last(), slot);
        assert forall|j: int| 0 <= j < inv.len() - 1 implies inv.drop_last()[j] == inv[j] by {}
    }
}

proof fn lemma_unequip_keeps_unique(inv: Seq<ObjectView>, k: int)
    requires
        0 <= k < inv.len(),
        slots_unique(inv),
    ensures
        slots_unique(inv.update(k, equip_view(inv[k], false))),
{
    let inv2 = inv.update(k, equip_view(inv[k], false));
    assert forall|i: int, j: int|
        0 <= i < inv2.len() && 0 <= j < inv2.len() && i != j && #[trigger] is_equipped(inv2[i])
            && #[trigger] is_equipped(inv2[j])
        implies inv2[i].equipment.unwrap().slot != inv2[j].equipment.unwrap().slot by {
        assert(is_equipped(inv[i]) && is_equipped(inv[j]));
        assert(inv2[i].equipment.unwrap().slot == inv[i].equipment.unwrap().slot);
        assert(inv2[j].equipment.unwrap().slot == inv[j].equipment.unwrap().slot);
    }
}

proof fn lemma_equip_free_slot(inv: Seq<ObjectView>, id: int)
    requires
        0 <= id < inv.len(),
        slots_unique(inv),
        inv[id].equipment is Some,
        forall|j: int| 0 <= j < inv.len() && j != id ==> !#[trigger] equipped_in(inv[j], inv[id].equipment.unwrap().slot),
    ensures
        slots_unique(inv.update(id, equip_view(inv[id], true))),
{
    let inv2 = inv.update(id, equip_view(inv[id], true));
    assert forall|i: int, j: int|
        0 <= i < inv2.len() && 0 <= j < inv2.len() && i != j && #[trigger] is_equipped(inv2[i])
            && #[trigger] is_equipped(inv2[j])
        implies inv2[i].equipment.unwrap().slot != inv2[j].equipment.unwrap().slot by {
        if i == id {
            assert(!equipped_in(inv[j], inv[id].equipment.unwrap().slot));
        } else if j == id {
            assert(!equipped_in(inv[i], inv[id].equipment.unwrap().slot));
        } else {
            assert(is_equipped(inv[i]) && is_equipped(inv[j]));
        }
    }
}

pub proof fn lemma_remove_keeps_unique(inv: Seq<ObjectView>, k: int)
    requires
        0 <= k < inv.len(),
    ensures
        slots_unique(inv) ==> slots_unique(inv.remove(k)),
{
    let inv2 = inv.remove(k);
    if slots_unique(inv) {
        assert forall|i: int, j: int|
            0 <= i < inv2.len() && 0 <= j < inv2.len() && i != j && #[trigger] is_equipped(inv2[i])
                && #[trigger] is_equipped(inv2[j])
            implies inv2[i].equipment.unwrap().slot != inv2[j].equipment.unwrap().slot by {
            let i0 = if i < k { i } else { i + 1 };
            let j0 = if j < k { j } else { j + 1 };
            assert(inv2[i] == inv[i0]);
            assert(inv2[j] == inv[j0]);
        }
    }
}

/// Index of the first inventory entry equipped in `slot`.
pub fn get_equipped_in_slot(slot: Slot, inventory: &Vec<Object>) -> (r: Option<usize>)
    ensures
        match r {
            Some(i) => first_equipped_in(views(inventory@), slot) == Some(i as int),
            None => first_equipped_in(views(inventory@), slot) is None,
        },
{
    let ghost inv = views(inventory@);
    proof { lemma_first_equipped_in(inv, slot); }
    let mut i: usize = 0;
    while i < inventory.len()
        invariant
            inv == views(inventory@),
            i <= inv.len(),
            forall|j: int| 0 <= j < i ==> !#[trigger] equipped_in(inv[j], slot),
        decreases inventory.len() - i,
    {
        let hit = match inventory[i].equipment {
            Some(e) => e.equipped && e.slot == slot,
            None => false,
        };
        if hit {
            assert(equipped_in(inv[i as int], slot));
            proof {
                lemma_first_equipped_in(inv, slot);
                match first_equipped_in(inv, slot) {
                    Some(k) => {
                        if k < i {
                            assert(!equipped_in(inv[k], slot));
                        } else if k > i {
                            assert(!equipped_in(inv[i as int], slot));
                        }
                    },
                    None => {
                        assert(!equipped_in(inv[i as int], slot));
                    },
                }
            }
            return Some(i);
        }
        i = i + 1;
    }
    None
}

/// Inventory and log after toggling the equipment at `id`: equipped items come
/// off; otherwise whatever occupies the slot comes off and this item goes on.
pub open spec fn toggle_effect(
    inv: Seq<ObjectView>,
    l: Seq<(Seq<char>, Color)>,
    id: int,
) -> (Seq<ObjectView>, Seq<(Seq<char>, Color)>, UseResult) {
    let o = inv[id];
    match o.equipment {
        None => (inv, l, UseResult::Cancelled),
        Some(e) => if e.equipped {
            (inv.update(id, equip_view(o, false)), unequip_log(l, o), UseResult::UsedAndKept)
        } else {
            match first_equipped_in(inv, e.slot) {
                Some(k) => (
                    inv.update(k, equip_view(inv[k], false)).update(id, equip_view(o, true)),
                    equip_log(unequip_log(l, inv[k]), o),
                    UseResult::UsedAndKept,
                ),
                None => (inv.update(id, equip_view(o, true)), equip_log(l, o), UseResult::UsedAndKept),
            }
        },
    }
}

/// Equips or unequips the inventory entry `inventory_id`.
pub fn toggle_equipment(inventory_id: usize, game: &mut Game) -> (r: UseResult)
    requires
        inventory_id < old(game).inventory.len(),
    ensures
        (views(final(game).inventory@), log_view(final(game).log@), r) == toggle_effect(
            views(old(game).inventory@),
            log_view(old(game).log@),
            inventory_id as int,
        ),
        final(game).inventory.len() == old(game).inventory.len(),
        final(game).map == old(game).map,
        final(game).dungeon_level == old(game).dungeon_level,
        slots_unique(views(old(game).inventory@)) && equipment_tagged(views(old(game).inventory@))
            ==> slots_unique(views(final(game).inventory@)),
{
    let ghost inv = views(game.inventory@);
    let equipment = match game.inventory[inventory_id].equipment {
        Some(equipment) => equipment,
        None => return UseResult::Cancelled,
    };
    if equipment.equipped {
        game.inventory[inventory_id].unequip(&mut game.log);
        assert(views(game.inventory@) =~= inv.update(inventory_id as int, equip_view(inv[inventory_id as int], false)));
    } else {
        proof { lemma_first_equipped_in(inv, equipment.slot); }
        let old_equipment = get_equipped_in_slot(equipment.slot, &game.inventory);
        match old_equipment {
            Some(k) => {
                game.inventory[k].unequip(&mut game.log);
                assert(views(game.inventory@) =~= inv.update(k as int, equip_view(inv[k as int], false)));
            },
            None => {},
        }
        let ghost inv1 = views(game.inventory@);
        proof {
            lemma_first_equipped_in(inv, equipment.slot);
            if slots_unique(inv) && equipment_tagged(inv) {
                match old_equipment {
                    Some(k) => {
                        lemma_unequip_keeps_unique(inv, k as int);
                        assert(equipped_in(inv[k as int], equipment.slot));
                        assert(inv[k as int].item is Some);
                        assert forall|j: int| 0 <= j < inv1.len() && j != inventory_id
                            implies !#[trigger] equipped_in(inv1[j], equipment.slot) by {
                            if j != k && equipped_in(inv1[j], equipment.slot) {
                                assert(inv1[j] == inv[j]);
                                assert(is_equipped(inv[j]) && is_equipped(inv[k as int]));
                            }
                        }
                    },
                    None => {
                        assert forall|j: int| 0 <= j < inv1.len() && j != inventory_id
                            implies !#[trigger] equipped_in(inv1[j], equipment.slot) by {
                            assert(inv1[j] == inv[j]);
                        }
                    },
                }
                lemma_equip_free_slot(inv1, inventory_id as int);
            }
        }
        game.inventory[inventory_id].equip(&mut game.log);
        assert(views(game.inventory@) =~= inv1.update(inventory_id as int, equip_view(inv1[inventory_id as int], true)));
    }
    proof {
        if equipment.equipped && slots_unique(inv) {
            lemma_unequip_keeps_unique(inv, inventory_id as int);
        }
    }
    UseResult::UsedAndKept
}

pub open spec fn full_text(name: Seq<char>) -> Seq<char> {
    "Your inventory is full, cannot pick up "@ + name + "."@
}

pub open spec fn picked_text(name: Seq<char>) -> Seq<char> {
    "You picked up a "@ + name + "!"@
}

pub open spec fn dropped_text(name: Seq<char>) -> Seq<char> {
    "You dropped a "@ + name + "."@
}

/// Inventory and log after an item joins the inventory: a piece of
/// equipment is put on when nothing occupies its slot.
pub open spec fn pickup_effect(
    inv: Seq<ObjectView>,
    l: Seq<(Seq<char>, Color)>,
    o: ObjectView,
) -> (Seq<ObjectView>, Seq<(Seq<char>, Color)>) {
    let inv1 = inv.push(o);
    let l1 = log_add(l, picked_text(o.name), Color::Green);
    match o.equipment {
        Some(e) => if first_equipped_in(inv1, e.slot) is None {
            (inv1.update(inv.len() as int, equip_view(o, true)), equip_log(l1, o))
        } else {
            (inv1, l1)
        },
        None => (inv1, l1),
    }
}

/// Roster, inventory and log after the player tries to pick up object `id`.
pub open spec fn pickup_outcome(
    v: Seq<ObjectView>,
    inv: Seq<ObjectView>,
    l: Seq<(Seq<char>, Color)>,
    id: int,
) -> (Seq<ObjectView>, Seq<ObjectView>, Seq<(Seq<char>, Color)>) {
    let o = v[id];
    if inv.len() >= INVENTORY_CAPACITY {
        (v, inv, log_add(l, full_text(o.name), Color::Red))
    } else {
        let (inv2, l2) = pickup_effect(inv, l, o);
        (v.update(id, v.last()).drop_last(), inv2, l2)
    }
}

/// Moves object `object_id` from the map roster into the inventory, unless
/// the inventory is full.
pub fn pick_item_up(object_id: usize, objects: &mut Vec<Object>, inventory: &mut Vec<Object>, messages: &mut Messages)
    requires
        object_id < old(objects).len(),
    ensures
        (views(final(objects)@), views(final(inventory)@), log_view(final(messages)@)) == pickup_outcome(
            views(old(objects)@),
            views(old(inventory)@),
            log_view(old(messages)@),
            object_id as int,
        ),
        slots_unique(views(old(inventory)@)) && !is_equipped(old(objects)@[object_id as int]@)
            ==> slots_unique(views(final(inventory)@)),
{
    if inventory.len() >= INVENTORY_CAPACITY {
        let mut t = String::from_str("Your inventory is full, cannot pick up ");
        t.append(objects[object_id].name.as_str());
        t.append(".");
        message(messages, t, Color::Red);
    } else {
        let ghost v = views(objects@);
        let ghost inv = views(inventory@);
        let item = objects.swap_remove(object_id);
        assert(views(objects@) =~= v.update(object_id as int, v.last()).drop_last());
        let mut t = String::from_str("You picked up a ");
        t.append(item.name.as_str());
        t.append("!");
        message(messages, t, Color::Green);
        let index = inventory.len();
        let slot = match item.equipment {
            Some(e) => Some(e.slot),
            None => None,
        };
        inventory.push(item);
        assert(views(inventory@) =~= inv.push(v[object_id as int]));
        proof {
            let inv1 = views(inventory@);
            if slots_unique(inv) && !is_equipped(v[object_id as int]) {
                assert forall|i: int, j: int|
                    0 <= i < inv1.len() && 0 <= j < inv1.len() && i != j && #[trigger] is_equipped(inv1[i])
                        && #[trigger] is_equipped(inv1[j])
                    implies inv1[i].equipment.unwrap().slot != inv1[j].equipment.unwrap().slot by {
                    assert(inv1[i] == inv[i] && inv1[j] == inv[j]);
                }
            }
        }
        match slot {
            Some(s) => {
                if get_equipped_in_slot(s, inventory).is_none() {
                    let ghost inv1 = views(inventory@);
                    proof {
                        lemma_first_equipped_in(inv1, s);
                        if slots_unique(inv1) {
                            lemma_equip_free_slot(inv1, index as int);
                        }
                    }
                    inventory[index].equip(messages);
                    assert(views(inventory@) =~= inv1.update(index as int, equip_view(inv1[index as int], true)));
                    proof { lemma_first_equipped_in(inv1, s); }
                }
            },
            None => {},
        }
    }
}

/// Roster, inventory and log after inventory entry `id` is dropped.
pub open spec fn drop_outcome(
    v: Seq<ObjectView>,
    inv: Seq<ObjectView>,
    l: Seq<(Seq<char>, Color)>,
    id: int,
) -> (Seq<ObjectView>, Seq<ObjectView>, Seq<(Seq<char>, Color)>) {
    let o = inv[id];
    let o1 = if o.equipment is Some { equip_view(o, false) } else { o };
    let l1 = if o.equipment is Some { unequip_log(l, o) } else { l };
    (
        v.push(ObjectView { x: v[PLAYER as int].x, y: v[PLAYER as int].y, ..o1 }),
        inv.remove(id),
        log_add(l1, dropped_text(o.name), Color::Yellow),
    )
}

/// Takes inventory entry `inventory_id` off if equipped and puts it on the map
/// at the player's position.
pub fn drop_item(inventory_id: usize, inventory: &mut Vec<Object>, objects: &mut Vec<Object>, messages: &mut Messages)
    requires
        inventory_id < old(inventory).len(),
        PLAYER < old(objects).len(),
    ensures
        (views(final(objects)@), views(final(inventory)@), log_view(final(messages)@)) == drop_outcome(
            views(old(objects)@),
            views(old(inventory)@),
            log_view(old(messages)@),
            inventory_id as int,
        ),
        slots_unique(views(old(inventory)@)) ==> slots_unique(views(final(inventory)@)),
{
    let ghost v = views(objects@);
    let ghost inv = views(inventory@);
    let mut item = inventory.remove(inventory_id);
    assert(views(inventory@) =~= inv.remove(inventory_id as int));
    if item.equipment.is_some() {
        item.unequip(messages);
    }
    item.set_pos(objects[PLAYER].x, objects[PLAYER].y);
    let mut t = String::from_str("You dropped a ");
    t.append(item.name.as_str());
    t.append(".");
    message(messages, t, Color::Yellow);
    objects.push(item);
    assert(views(objects@) =~= v.push(item@));
    proof {
        let inv2 = views(inventory@);
        assert forall|i: int, j: int|
            0 <= i < inv2.len() && 0 <= j < inv2.len() && i != j && #[trigger] is_equipped(inv2[i])
                && #[trigger] is_equipped(inv2[j]) && slots_unique(inv)
            implies inv2[i].equipment.unwrap().slot != inv2[j].equipment.unwrap().slot by {
            let i0 = if i < inventory_id { i } else { i + 1 };
            let j0 = if j < inventory_id { j } else { j + 1 };
            assert(inv2[i] == inv[i0]);
            assert(inv2[j] == inv[j0]);
        }
    }
}


/// Putting on an item whose slot is taken takes the occupant off, so each
/// slot holds at most one equipped item.
pub proof fn lemma_equip_replaces(inv: Seq<ObjectView>, l: Seq<(Seq<char>, Color)>, id: int, k: int)
    requires
        0 <= id < inv.len(),
        0 <= k < inv.len(),
        slots_unique(inv),
        equipment_tagged(inv),
        inv[id].item is Some,
        inv[id].equipment is Some,
        !inv[id].equipment.unwrap().equipped,
        equipped_in(inv[k], inv[id].equipment.unwrap().slot),
    ensures
        !is_equipped(toggle_effect(inv, l, id).0[k]),
        equipped_in(toggle_effect(inv, l, id).0[id], inv[id].equipment.unwrap().slot),
        slots_unique(toggle_effect(inv, l, id).0),
{
    let slot = inv[id].equipment.unwrap().slot;
    lemma_first_equipped_in(inv, slot);
    let f = first_equipped_in(inv, slot).unwrap();
    if f != k {
        assert(is_equipped(inv[f]) && is_equipped(inv[k]));
    }
    assert(k != id);
    assert(inv[k].item is Some);
    lemma_unequip_keeps_unique(inv, k);
    let inv1 = inv.update(k, equip_view(inv[k], false));
    assert forall|j: int| 0 <= j < inv1.len() && j != id implies !#[trigger] equipped_in(inv1[j], slot) by {
        if j != k && equipped_in(inv1[j], slot) {
            assert(inv1[j] == inv[j]);
            assert(is_equipped(inv[j]) && is_equipped(inv[k]));
        }
    }
    lemma_equip_free_slot(inv1, id);
}

} // verus!
