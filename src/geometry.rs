use vstd::prelude::*;
use crate::config::{MAP_HEIGHT, MAP_WIDTH};

verus! {

/// One cell of the dungeon grid.
#[derive(Clone, Copy, Debug, PartialEq, Eq, Structural)]
pub struct Tile {
    pub blocked: bool,
    pub block_sight: bool,
    pub explored: bool,
}

impl Tile {
    /// A passable, see-through tile.
    pub fn empty() -> (r: Tile)
        ensures
            r == empty_tile(),
    {
        Tile { blocked: false, block_sight: false, explored: false }
    }

    /// A tile that blocks movement and sight.
    pub fn wall() -> (r: Tile)
        ensures
            r == wall_tile(),
    {
        Tile { blocked: true, block_sight: true, explored: false }
    }
}

pub open spec fn empty_tile() -> Tile {
    Tile { blocked: false, block_sight: false, explored: false }
}

pub open spec fn wall_tile() -> Tile {
    Tile { blocked: true, block_sight: true, explored: false }
}

/// The dungeon grid, indexed `[x][y]`.
pub type TileMap = Vec<Vec<Tile>>;

/// The grid as a sequence of columns.
pub open spec fn grid(m: &TileMap) -> Seq<Seq<Tile>> {
    m@.map_values(|c: Vec<Tile>| c@)
}

/// The grid has `MAP_WIDTH` columns of `MAP_HEIGHT` tiles.
pub open spec fn grid_wf(g: Seq<Seq<Tile>>) -> bool {
    &&& g.len() == MAP_WIDTH
    &&& forall|x: int| 0 <= x < g.len() ==> #[trigger] g[x].len() == MAP_HEIGHT
}

pub open spec fn in_grid(g: Seq<Seq<Tile>>, x: int, y: int) -> bool {
    0 <= x < g.len() && 0 <= y < g[x].len()
}

/// A position is passable when it lies on the grid on a non-blocking tile.
pub open spec fn passable(g: Seq<Seq<Tile>>, x: int, y: int) -> bool {
    in_grid(g, x, y) && !g[x][y].blocked
}

/// An axis-aligned rectangle; its border is wall, its interior floor.
#[derive(Clone, Copy, Debug, PartialEq, Eq, Structural)]
pub struct Rect {
    pub x1: i32,
    pub y1: i32,
    pub x2: i32,
    pub y2: i32,
}

/// Inclusive-boundary intersection of two rectangles.
pub open spec fn rects_intersect(a: Rect, b: Rect) -> bool {
    a.x1 <= b.x2 && a.x2 >= b.x1 && a.y1 <= b.y2 && a.y2 >= b.y1
}

/// Half of `m`, rounded towards zero.
pub open spec fn half(m: int) -> int {
    if m >= 0 { m / 2 } else { -((-m) / 2) }
}

pub open spec fn rect_center(r: Rect) -> (int, int) {
    (half(r.x1 + r.x2), half(r.y1 + r.y2))
}

fn half_sum(a: i32, b: i32) -> (r: i32)
    ensures
        r == half(a + b),
{
    let s = a as i64 + b as i64;
    if s >= 0 {
        (s / 2) as i32
    } else {
        -((-s) / 2) as i32
    }
}

/// Strictly inside the rectangle: the tiles that carving makes passable.
pub open spec fn in_interior(r: Rect, x: int, y: int) -> bool {
    r.x1 < x < r.x2 && r.y1 < y < r.y2
}

impl Rect {
    pub fn new(x: i32, y: i32, w: i32, h: i32) -> (r: Rect)
        requires
            i32::MIN <= x + w <= i32::MAX,
            i32::MIN <= y + h <= i32::MAX,
        ensures
            r == (Rect { x1: x, y1: y, x2: (x + w) as i32, y2: (y + h) as i32 }),
    {
        Rect { x1: x, y1: y, x2: x + w, y2: y + h }
    }

    /// The center tile, halves rounded towards zero.
    pub fn center(&self) -> (r: (i32, i32))
        ensures
            r.0 == rect_center(*self).0,
            r.1 == rect_center(*self).1,
    {
        (half_sum(self.x1, self.x2), half_sum(self.y1, self.y2))
    }

    /// Whether this rectangle intersects `other`, borders included.
    pub fn intersects_with(&self, other: &Rect) -> (r: bool)
        ensures
            r == rects_intersect(*self, *other),
    {
        self.x1 <= other.x2 && self.x2 >= other.x1 && self.y1 <= other.y2 && self.y2 >= other.y1
    }
}

/// Replaces the tile at `(x, y)`.
pub fn set_tile(map: &mut TileMap, x: usize, y: usize, t: Tile)
    requires
        in_grid(grid(old(map)), x as int, y as int),
    ensures
        grid(final(map)) == grid(old(map)).update(x as int, grid(old(map))[x as int].update(y as int, t)),
{
    let ghost g0 = grid(map);
    map[x][y] = t;
    assert(grid(map) =~= g0.update(x as int, g0[x as int].update(y as int, t)));
}

} // verus!
