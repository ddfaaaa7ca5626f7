//! Grid-space geometry: integer points and tile rectangles.

use vstd::prelude::*;

verus! {

/// An integer (x, y) grid coordinate.
#[derive(Clone, Copy, PartialEq, Eq, Structural, Hash, Debug)]
pub struct Point {
    pub x: i32,
    pub y: i32,
}

impl Point {
    pub fn new(x: i32, y: i32) -> (r: Self)
        ensures
            r == (Point { x, y }),
    {
        Self { x, y }
    }

    pub fn zero() -> (r: Self)
        ensures
            r == (Point { x: 0, y: 0 }),
    {
        Self { x: 0, y: 0 }
    }

    /// Whether `other` is one of the four orthogonal neighbours of `self`.
    pub open spec fn is_adjacent(self, other: Point) -> bool {
        (self.x == other.x && (self.y - other.y == 1 || other.y - self.y == 1))
            || (self.y == other.y && (self.x - other.x == 1 || other.x - self.x == 1))
    }

    /// Taxicab distance between two points, as a mathematical integer.
    pub open spec fn manhattan_dist(self, other: Point) -> int {
        abs_int(self.x - other.x) + abs_int(self.y - other.y)
    }

    /// The point shifted by (dx, dy).
    pub fn shifted(self, dx: i32, dy: i32) -> (r: Point)
        requires
            i32::MIN <= self.x + dx <= i32::MAX,
            i32::MIN <= self.y + dy <= i32::MAX,
        ensures
            r.x == self.x + dx,
            r.y == self.y + dy,
    {
        Point { x: self.x + dx, y: self.y + dy }
    }
}

/// Absolute value of a mathematical integer.
pub open spec fn abs_int(v: int) -> int {
    if v < 0 {
        -v
    } else {
        v
    }
}

/// An axis-aligned rectangle of grid tiles.
#[derive(Clone, Copy, PartialEq, Eq, Structural, Debug)]
pub struct TileRect {
    pub x: i32,
    pub y: i32,
    pub w: i32,
    pub h: i32,
}

impl TileRect {
    pub fn with_size(x: i32, y: i32, w: i32, h: i32) -> (r: Self)
        ensures
            r == (TileRect { x, y, w, h }),
    {
        Self { x, y, w, h }
    }

    pub open spec fn contains_spec(self, pt: Point) -> bool {
        self.x <= pt.x && self.y <= pt.y && self.x + self.w > pt.x && self.y + self.h > pt.y
    }

    pub fn point_in_rect(&self, pt: Point) -> (r: bool)
        requires
            0 <= self.w,
            0 <= self.h,
            self.x + self.w <= i32::MAX,
            self.y + self.h <= i32::MAX,
        ensures
            r == self.contains_spec(pt),
    {
        self.x <= pt.x && self.y <= pt.y && (self.x + self.w) > pt.x && (self.y + self.h) > pt.y
    }

    /// All tiles of the rectangle in row-major order: ascending y, then
    /// ascending x within each row.
    pub fn for_each(&self) -> (r: Vec<Point>)
        requires
            0 <= self.w,
            0 <= self.h,
            self.x + self.w <= i32::MAX,
            self.y + self.h <= i32::MAX,
        ensures
            forall|p: Point| #[trigger] r@.contains(p) <==> self.contains_spec(p),
            r@.no_duplicates(),
            r@.len() == self.w * self.h,
            forall|i: int, j: int|
                0 <= i < j < r@.len() ==> row_major_lt(#[trigger] r@[i], #[trigger] r@[j]),
    {
        let mut out: Vec<Point> = Vec::new();
        if self.w <= 0 || self.h <= 0 {
            assert(forall|p: Point| #[trigger] out@.contains(p) <==> self.contains_spec(p));
            assert(self.w * self.h == 0) by (nonlinear_arith)
                requires
                    0 <= self.w,
                    0 <= self.h,
                    self.w <= 0 || self.h <= 0,
            ;
            return out;
        }
        let mut y: i32 = self.y;
        while y < self.y + self.h
            invariant
                self.y <= y <= self.y + self.h,
                self.w > 0 && self.h > 0,
                self.x + self.w <= i32::MAX,
                self.y + self.h <= i32::MAX,
                out@.no_duplicates(),
                out@.len() == (y - self.y) * self.w,
                forall|p: Point|
                    #[trigger] out@.contains(p) <==> (self.contains_spec(p) && p.y < y),
                forall|k: int| 0 <= k < out@.len() ==> (#[trigger] out@[k]).y < y,
                forall|i: int, j: int|
                    0 <= i < j < out@.len() ==> row_major_lt(#[trigger] out@[i], #[trigger] out@[j]),
            decreases self.y + self.h - y,
        {
            let mut x: i32 = self.x;
            while x < self.x + self.w
                invariant
                    self.x <= x <= self.x + self.w,
                    self.y <= y < self.y + self.h,
                    self.w > 0 && self.h > 0,
                    self.x + self.w <= i32::MAX,
                    self.y + self.h <= i32::MAX,
                    out@.no_duplicates(),
                    out@.len() == (y - self.y) * self.w + (x - self.x),
                    forall|p: Point|
                        #[trigger] out@.contains(p) <==> (self.contains_spec(p) && (p.y < y || (
                        p.y == y && p.x < x))),
                    forall|k: int|
                        0 <= k < out@.len() ==> ((#[trigger] out@[k]).y < y || (out@[k].y == y
                            && out@[k].x < x)),
                    forall|i: int, j: int|
                        0 <= i < j < out@.len() ==> row_major_lt(
                            #[trigger] out@[i],
                            #[trigger] out@[j],
                        ),
                decreases self.x + self.w - x,
            {
                let pt = Point { x, y };
                proof {
                    broadcast use vstd::seq_lib::lemma_seq_contains_after_push;

                    assert(!out@.contains(pt));
                    lemma_push_no_duplicates(out@, pt);
                }
                out.push(pt);
                x = x + 1;
            }
            proof {
                assert((y + 1 - self.y) * self.w == (y - self.y) * self.w + self.w)
                    by (nonlinear_arith);
            }
            y = y + 1;
        }
        proof {
            assert(self.h * self.w == self.w * self.h) by (nonlinear_arith);
        }
        out
    }
}

/// Row-major order on grid points: earlier rows first, then earlier columns.
pub open spec fn row_major_lt(a: Point, b: Point) -> bool {
    a.y < b.y || (a.y == b.y && a.x < b.x)
}

/// Linear membership test on a point list.
pub fn contains_point(v: &Vec<Point>, p: Point) -> (r: bool)
    ensures
        r == v@.contains(p),
{
    let n = v.len();
    let mut i: usize = 0;
    while i < n
        invariant
            i <= n,
            n == v@.len(),
            forall|j: int| 0 <= j < i ==> v@[j] != p,
        decreases n - i,
    {
        if v[i] == p {
            return true;
        }
        i = i + 1;
    }
    false
}

/// Pushing an element that a duplicate-free sequence does not contain keeps
/// it duplicate-free.
pub proof fn lemma_push_no_duplicates<A>(s: Seq<A>, v: A)
    requires
        s.no_duplicates(),
        !s.contains(v),
    ensures
        s.push(v).no_duplicates(),
{
    let t = s.push(v);
    assert forall|i: int, j: int| 0 <= i < j < t.len() implies t[i] != t[j] by {
        if j == s.len() {
            assert(s.contains(s[i]));
        }
    }
}

} // verus!
