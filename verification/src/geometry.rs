//! Basic geometry primitives used throughout the document model.
use vstd::prelude::*;

verus! {

/// A 2D point on the sprite grid. Signed to allow positions outside the
/// canvas (e.g. cel offsets, slice keys after a translation).
#[derive(Debug, Clone, Copy, Default, PartialEq, Eq, Hash, Structural)]
pub struct Point {
    pub x: i32,
    pub y: i32,
}

impl Point {
    /// The origin `(0, 0)`.
    pub fn origin() -> (p: Self)
        ensures
            p.x == 0 && p.y == 0,
    {
        Point { x: 0, y: 0 }
    }

    pub fn new(x: i32, y: i32) -> (p: Self)
        ensures
            p.x == x,
            p.y == y,
    {
        Point { x, y }
    }
}

/// An axis-aligned rectangle in sprite coordinates. The rectangle covers
/// `[x, x + width)` × `[y, y + height)` — top-left inclusive, bottom-right
/// exclusive.
#[derive(Debug, Clone, Copy, Default, PartialEq, Eq, Hash, Structural)]
pub struct Rect {
    pub x: i32,
    pub y: i32,
    pub width: u32,
    pub height: u32,
}

/// `true` when `(px, py)` lies inside the half-open rectangle.
pub open spec fn rect_has_point(r: Rect, px: int, py: int) -> bool {
    &&& r.x <= px < r.x + r.width
    &&& r.y <= py < r.y + r.height
}

/// `true` when the rectangle covers no pixel.
pub open spec fn rect_is_empty(r: Rect) -> bool {
    r.width == 0 || r.height == 0
}

pub open spec fn max_int(a: int, b: int) -> int {
    if a >= b { a } else { b }
}

pub open spec fn min_int(a: int, b: int) -> int {
    if a <= b { a } else { b }
}

/// The intersection of two rectangles: origin at the larger of the two
/// origins, extent clamped at zero when they do not overlap.
pub open spec fn rect_intersection(a: Rect, b: Rect) -> Rect {
    let x0 = max_int(a.x as int, b.x as int);
    let y0 = max_int(a.y as int, b.y as int);
    let x1 = min_int(a.x + a.width, b.x + b.width);
    let y1 = min_int(a.y + a.height, b.y + b.height);
    Rect {
        x: x0 as i32,
        y: y0 as i32,
        width: max_int(x1 - x0, 0) as u32,
        height: max_int(y1 - y0, 0) as u32,
    }
}

impl Rect {
    pub fn new(x: i32, y: i32, width: u32, height: u32) -> (r: Self)
        ensures
            r.x == x,
            r.y == y,
            r.width == width,
            r.height == height,
    {
        Rect { x, y, width, height }
    }

    pub fn is_empty(&self) -> (b: bool)
        ensures
            b == rect_is_empty(*self),
    {
        self.width == 0 || self.height == 0
    }

    pub fn contains(&self, p: Point) -> (b: bool)
        ensures
            b == rect_has_point(*self, p.x as int, p.y as int),
    {
        let x = p.x as i64;
        let y = p.y as i64;
        x >= self.x as i64 && y >= self.y as i64 && x < self.x as i64 + self.width as i64 && y
            < self.y as i64 + self.height as i64
    }

    /// Intersection of `self` and `other` as an axis-aligned rectangle.
    /// Returns an empty rect (zero width or height) when they do not
    /// overlap; the empty rect's `x` / `y` are clamped to the overlap's
    /// nominal origin so callers can still address it.
    pub fn intersect(&self, other: Rect) -> (r: Rect)
        ensures
            r == rect_intersection(*self, other),
    {
        let ax = self.x as i64;
        let ay = self.y as i64;
        let aw = self.width as i64;
        let ah = self.height as i64;
        let bx = other.x as i64;
        let by = other.y as i64;
        let bw = other.width as i64;
        let bh = other.height as i64;

        let x0 = if ax >= bx { ax } else { bx };
        let y0 = if ay >= by { ay } else { by };
        let x1 = if ax + aw <= bx + bw { ax + aw } else { bx + bw };
        let y1 = if ay + ah <= by + bh { ay + ah } else { by + bh };

        let w: i64 = if x1 - x0 >= 0 { x1 - x0 } else { 0 };
        let h: i64 = if y1 - y0 >= 0 { y1 - y0 } else { 0 };
        Rect { x: x0 as i32, y: y0 as i32, width: w as u32, height: h as u32 }
    }
}

/// A point lies in the intersection of two rectangles exactly when it lies
/// in both of them.
pub proof fn lemma_intersection_contains(a: Rect, b: Rect, px: int, py: int)
    ensures
        rect_has_point(rect_intersection(a, b), px, py) <==> (rect_has_point(a, px, py)
            && rect_has_point(b, px, py)),
{
}

/// Intersecting is symmetric in its two arguments.
pub proof fn lemma_intersection_commutes(a: Rect, b: Rect)
    ensures
        rect_intersection(a, b) == rect_intersection(b, a),
{
}

/// The intersection is never wider or taller than either rectangle.
pub proof fn lemma_intersection_within(a: Rect, b: Rect)
    ensures
        rect_intersection(a, b).width <= a.width,
        rect_intersection(a, b).width <= b.width,
        rect_intersection(a, b).height <= a.height,
        rect_intersection(a, b).height <= b.height,
{
}

} // verus!
