use vstd::prelude::*;
use crate::fov::{Visibility, is_in_fov, vis, visible};
use crate::object::{Object, ObjectView, views};
use crate::types::slot_label;

verus! {

/// Object `i` stands at `(x, y)` and is in the field of view.
pub open spec fn shown_at(v: Seq<ObjectView>, fov: Seq<Seq<bool>>, i: int, x: int, y: int) -> bool {
    v[i].x == x && v[i].y == y && visible(fov, v[i].x as int, v[i].y as int)
}

/// Names of the first `n` objects shown at `(x, y)`, in roster order.
pub open spec fn names_at(v: Seq<ObjectView>, fov: Seq<Seq<bool>>, x: int, y: int, n: int) -> Seq<Seq<char>>
    decreases n,
{
    if n <= 0 {
        seq![]
    } else if shown_at(v, fov, n - 1, x, y) {
        names_at(v, fov, x, y, n - 1).push(v[n - 1].name)
    } else {
        names_at(v, fov, x, y, n - 1)
    }
}

/// The parts separated by commas.
pub open spec fn join(parts: Seq<Seq<char>>) -> Seq<char>
    decreases parts.len(),
{
    if parts.len() == 0 {
        seq![]
    } else if parts.len() == 1 {
        parts[0]
    } else {
        join(parts.drop_last()) + ", "@ + parts.last()
    }
}

/// The names of all objects at `(x, y)` that the player can see, separated
/// by commas.
pub fn get_names_under_mouse(x: i32, y: i32, objects: &Vec<Object>, fov: &Visibility) -> (r: String)
    ensures
        r@ == join(names_at(views(objects@), vis(fov), x as int, y as int, objects.len() as int)),
{
    let ghost v = views(objects@);
    let mut r = String::new();
    let mut count: usize = 0;
    let mut i: usize = 0;
    while i < objects.len()
        invariant
            v == views(objects@),
            i <= objects.len(),
            count == names_at(v, vis(fov), x as int, y as int, i as int).len(),
            count <= i,
            r@ == join(names_at(v, vis(fov), x as int, y as int, i as int)),
        decreases objects.len() - i,
    {
        let ghost parts = names_at(v, vis(fov), x as int, y as int, i as int);
        if objects[i].x == x && objects[i].y == y && is_in_fov(fov, objects[i].x, objects[i].y) {
            assert(parts.push(v[i as int].name).drop_last() =~= parts);
            if count > 0 {
                r.append(", ");
            }
            r.append(objects[i].name.as_str());
            count = count + 1;
        }
        i = i + 1;
    }
    r
}

/// How an inventory entry is listed: its name, and where it is worn.
pub open spec fn item_label_spec(o: ObjectView) -> Seq<char> {
    match o.equipment {
        Some(e) => if e.equipped { o.name + " (on "@ + slot_label(e.slot) + ")"@ } else { o.name },
        None => o.name,
    }
}

/// The text listing an inventory entry.
pub fn item_label(o: &Object) -> (r: String)
    ensures
        r@ == item_label_spec(o@),
{
    let mut t = String::from_str(o.name.as_str());
    match o.equipment {
        Some(e) => {
            if e.equipped {
                t.append(" (on ");
                t.append(e.slot.label());
                t.append(")");
            }
        },
        None => {},
    }
    t
}

} // verus!
