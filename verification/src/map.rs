//! The terrain grid: width x height cells, one terrain kind per cell, stored
//! row-major. Texture handling and random generation live with the render and
//! asset collaborators outside this crate.

use vstd::prelude::*;

use crate::math::{Point, TileRect};

verus! {

/// A terrain kind, determining traversal cost per movement class.
#[derive(Clone, Copy, PartialEq, Eq, Structural, Debug)]
pub enum Terrain {
    Ground,
    Forest,
    Mountain,
    River,
}

/// The map grid. `terrain[y * width + x]` is the cell at (x, y).
#[derive(Clone, Debug)]
pub struct GameMap {
    pub terrain: Vec<Terrain>,
    pub width: usize,
    pub height: usize,
}

impl GameMap {
    /// A usable map: non-degenerate, coordinates fit in `i32`, and the
    /// terrain vector covers the whole grid.
    pub open spec fn wf(&self) -> bool {
        &&& 1 <= self.width <= i32::MAX
        &&& 1 <= self.height <= i32::MAX
        &&& self.width * self.height <= usize::MAX
        &&& self.terrain@.len() == self.width * self.height
    }

    pub open spec fn in_bounds_spec(&self, p: Point) -> bool {
        0 <= p.x < self.width && 0 <= p.y < self.height
    }

    pub open spec fn idx_spec(&self, p: Point) -> int {
        p.y * self.width + p.x
    }

    /// A map with every cell holding the same terrain kind.
    pub fn filled(width: usize, height: usize, t: Terrain) -> (r: GameMap)
        requires
            1 <= width <= i32::MAX,
            1 <= height <= i32::MAX,
            width * height <= usize::MAX,
        ensures
            r.wf(),
            r.width == width,
            r.height == height,
            forall|k: int| 0 <= k < r.terrain@.len() ==> r.terrain@[k] == t,
    {
        let n: usize = width * height;
        let mut terrain: Vec<Terrain> = Vec::new();
        let mut i: usize = 0;
        while i < n
            invariant
                i <= n,
                terrain@.len() == i,
                forall|k: int| 0 <= k < i ==> terrain@[k] == t,
            decreases n - i,
        {
            terrain.push(t);
            i = i + 1;
        }
        GameMap { terrain, width, height }
    }

    pub fn in_bounds(&self, pt: Point) -> (r: bool)
        requires
            self.wf(),
        ensures
            r == self.in_bounds_spec(pt),
    {
        let map_rect = TileRect::with_size(0, 0, self.width as i32, self.height as i32);
        map_rect.point_in_rect(pt)
    }

    pub fn point_to_idx(&self, point: Point) -> (r: usize)
        requires
            self.wf(),
            self.in_bounds_spec(point),
        ensures
            r == self.idx_spec(point),
            r < self.terrain@.len(),
    {
        proof {
            lemma_grid_idx_bounds(self.width as int, self.height as int, point.x as int, point.y as int);
        }
        (point.y as usize) * self.width + (point.x as usize)
    }

    pub fn get_terrain(&self, pos: Point) -> (r: Terrain)
        requires
            self.wf(),
            self.in_bounds_spec(pos),
        ensures
            r == self.terrain@[self.idx_spec(pos)],
    {
        let idx = self.point_to_idx(pos);
        self.terrain[idx]
    }
}

/// A row-major index of an in-bounds cell lies within the grid.
pub proof fn lemma_grid_idx_bounds(w: int, h: int, x: int, y: int)
    by (nonlinear_arith)
    requires
        0 <= x < w,
        0 <= y < h,
    ensures
        0 <= y * w + x < w * h,
{
}

/// Row-major indexing is injective on in-bounds cells.
pub proof fn lemma_grid_idx_injective(w: int, x1: int, y1: int, x2: int, y2: int)
    by (nonlinear_arith)
    requires
        0 <= x1 < w,
        0 <= x2 < w,
        0 <= y1,
        0 <= y2,
        y1 * w + x1 == y2 * w + x2,
    ensures
        x1 == x2,
        y1 == y2,
{
}

} // verus!
