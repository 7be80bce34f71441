//! The tile grid: a fixed 80 x 50 map of wall and floor tiles, with
//! bounds-checked queries that never fault on out-of-range coordinates.
use vstd::prelude::*;

verus! {

pub const SCREEN_WIDTH: i32 = 80;
pub const SCREEN_HEIGHT: i32 = 50;
pub const NUM_TILES: usize = 4000;

/// A grid coordinate.
#[derive(Clone, Copy, PartialEq, Eq, Structural, Debug)]
pub struct Point {
    pub x: i32,
    pub y: i32,
}

impl Point {
    pub fn new(x: i32, y: i32) -> (r: Point)
        ensures
            r.x == x,
            r.y == y,
    {
        Point { x, y }
    }

    pub fn zero() -> (r: Point)
        ensures
            r.x == 0,
            r.y == 0,
    {
        Point { x: 0, y: 0 }
    }
}

/// One grid cell: either solid wall or walkable floor.
#[derive(Clone, Copy, PartialEq, Eq, Structural, Debug)]
pub enum TileType {
    Wall,
    Floor,
}

/// Linear index of the cell at (x, y): row-major order.
pub open spec fn map_idx_spec(x: int, y: int) -> int {
    y * (SCREEN_WIDTH as int) + x
}

/// Row-major linear index for an in-bounds coordinate.
pub fn map_idx(x: i32, y: i32) -> (idx: usize)
    requires
        0 <= x < SCREEN_WIDTH,
        0 <= y < SCREEN_HEIGHT,
    ensures
        idx == map_idx_spec(x as int, y as int),
        idx < NUM_TILES,
{
    (y * SCREEN_WIDTH + x) as usize
}

/// Two distinct in-bounds points never share a linear index.
pub proof fn lemma_map_idx_injective(a: Point, b: Point)
    requires
        GridMap::in_bounds_spec(a),
        GridMap::in_bounds_spec(b),
        map_idx_spec(a.x as int, a.y as int) == map_idx_spec(b.x as int, b.y as int),
    ensures
        a.x == b.x && a.y == b.y,
{
    assert((a.y - b.y) * 80 == b.x - a.x) by {
        assert(a.y * 80 + a.x == b.y * 80 + b.x);
    }
}

/// The level grid: `NUM_TILES` tiles in row-major order.
pub struct GridMap {
    pub tiles: Vec<TileType>,
}

impl GridMap {
    /// The grid always holds exactly `NUM_TILES` tiles.
    pub open spec fn wf(self) -> bool {
        self.tiles@.len() == NUM_TILES
    }

    pub open spec fn in_bounds_spec(p: Point) -> bool {
        0 <= p.x < SCREEN_WIDTH && 0 <= p.y < SCREEN_HEIGHT
    }

    /// The tile stored at an in-bounds coordinate.
    pub open spec fn tile_at(self, p: Point) -> TileType {
        self.tiles@[map_idx_spec(p.x as int, p.y as int)]
    }

    pub open spec fn can_enter_spec(self, p: Point) -> bool {
        Self::in_bounds_spec(p) && self.tile_at(p) == TileType::Floor
    }

    /// A fresh level grid: every tile is wall.
    pub fn new() -> (m: GridMap)
        ensures
            m.wf(),
            forall|i: int| 0 <= i < NUM_TILES ==> m.tiles@[i] == TileType::Wall,
    {
        let mut tiles: Vec<TileType> = Vec::new();
        let mut i: usize = 0;
        while i < NUM_TILES
            invariant
                i == tiles@.len(),
                i <= NUM_TILES,
                forall|j: int| 0 <= j < i ==> tiles@[j] == TileType::Wall,
            decreases NUM_TILES - i,
        {
            tiles.push(TileType::Wall);
            i = i + 1;
        }
        GridMap { tiles }
    }

    pub fn in_bounds(&self, p: Point) -> (r: bool)
        ensures
            r == Self::in_bounds_spec(p),
    {
        p.x >= 0 && p.x < SCREEN_WIDTH && p.y >= 0 && p.y < SCREEN_HEIGHT
    }

    /// The linear index of `p`, or `None` when `p` lies outside the grid.
    pub fn try_idx(&self, p: Point) -> (r: Option<usize>)
        ensures
            r == if Self::in_bounds_spec(p) {
                Some(map_idx_spec(p.x as int, p.y as int) as usize)
            } else {
                None::<usize>
            },
    {
        if self.in_bounds(p) {
            Some(map_idx(p.x, p.y))
        } else {
            None
        }
    }

    /// True exactly when `p` is in bounds and holds a floor tile; out-of-bounds
    /// queries return false rather than faulting.
    pub fn can_enter_tile(&self, p: Point) -> (r: bool)
        requires
            self.wf(),
        ensures
            r == self.can_enter_spec(p),
    {
        if self.in_bounds(p) {
            let idx = map_idx(p.x, p.y);
            self.tiles[idx] == TileType::Floor
        } else {
            false
        }
    }
}

} // verus!
