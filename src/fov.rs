use vstd::prelude::*;
use crate::config::PLAYER;
use crate::geometry::{TileMap, Tile, grid};
use crate::object::Object;

verus! {

/// Which tiles the player currently sees, indexed `[x][y]`.
pub type Visibility = Vec<Vec<bool>>;

pub open spec fn vis(v: &Visibility) -> Seq<Seq<bool>> {
    v@.map_values(|c: Vec<bool>| c@)
}

/// Whether `(x, y)` is currently visible; positions off the grid are not.
pub open spec fn visible(v: Seq<Seq<bool>>, x: int, y: int) -> bool {
    0 <= x < v.len() && 0 <= y < v[x].len() && v[x][y]
}

/// Whether the tile at `(x, y)` is in the field of view.
pub fn is_in_fov(fov: &Visibility, x: i32, y: i32) -> (r: bool)
    ensures
        r == visible(vis(fov), x as int, y as int),
{
    if x < 0 || y < 0 {
        return false;
    }
    visible_at(fov, x as usize, y as usize)
}

fn visible_at(fov: &Visibility, x: usize, y: usize) -> (r: bool)
    ensures
        r == visible(vis(fov), x as int, y as int),
{
    if x >= fov.len() {
        return false;
    }
    if y >= fov[x].len() {
        return false;
    }
    fov[x][y]
}

/// Marks every visible tile as explored; the flag is never cleared.
pub fn mark_explored(map: &mut TileMap, fov: &Visibility)
    ensures
        grid(final(map)).len() == grid(old(map)).len(),
        forall|x: int| 0 <= x < grid(old(map)).len() ==> #[trigger] grid(final(map))[x].len() == grid(old(map))[x].len(),
        forall|x: int, y: int|
            0 <= x < grid(old(map)).len() && 0 <= y < grid(old(map))[x].len() ==> {
                let t = #[trigger] grid(final(map))[x][y];
                let t0 = grid(old(map))[x][y];
                &&& t.blocked == t0.blocked
                &&& t.block_sight == t0.block_sight
                &&& t.explored == (t0.explored || visible(vis(fov), x, y))
            },
{
    let ghost g0 = grid(map);
    let mut x: usize = 0;
    while x < map.len()
        invariant
            0 <= x <= map.len(),
            grid(map).len() == g0.len(),
            forall|i: int| 0 <= i < g0.len() ==> #[trigger] grid(map)[i].len() == g0[i].len(),
            forall|i: int, j: int|
                0 <= i < g0.len() && 0 <= j < g0[i].len() ==> {
                    let t = #[trigger] grid(map)[i][j];
                    let t0 = g0[i][j];
                    &&& t.blocked == t0.blocked
                    &&& t.block_sight == t0.block_sight
                    &&& t.explored == if i < x { t0.explored || visible(vis(fov), i, j) } else { t0.explored }
                },
        decreases map.len() - x,
    {
        let mut y: usize = 0;
        let h = map[x].len();
        while y < h
            invariant
                0 <= x < map.len(),
                h == grid(map)[x as int].len(),
                0 <= y <= h,
                grid(map).len() == g0.len(),
                forall|i: int| 0 <= i < g0.len() ==> #[trigger] grid(map)[i].len() == g0[i].len(),
                forall|i: int, j: int|
                    0 <= i < g0.len() && 0 <= j < g0[i].len() ==> {
                        let t = #[trigger] grid(map)[i][j];
                        let t0 = g0[i][j];
                        &&& t.blocked == t0.blocked
                        &&& t.block_sight == t0.block_sight
                        &&& t.explored == if i < x || (i == x && j < y) {
                            t0.explored || visible(vis(fov), i, j)
                        } else {
                            t0.explored
                        }
                    },
            decreases h - y,
        {
            let seen = visible_at(fov, x, y);
            if seen {
                let t = map[x][y];
                let ghost before = grid(map);
                map[x][y] = Tile { explored: true, ..t };
                assert(grid(map) =~= before.update(x as int, before[x as int].update(y as int, Tile { explored: true, ..t })));
            }
            y = y + 1;
        }
        x = x + 1;
    }
}


/// The field of view is computed again only when the player stands on
/// another tile than at the last computation.
pub fn fov_needs_recompute(previous: (i32, i32), objects: &Vec<Object>) -> (r: bool)
    requires
        PLAYER < objects.len(),
    ensures
        r == (previous.0 != objects@[PLAYER as int].x || previous.1 != objects@[PLAYER as int].y),
{
    previous.0 != objects[PLAYER].x || previous.1 != objects[PLAYER].y
}

} // verus!
