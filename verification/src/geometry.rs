//! Integer points and rectangles in terminal coordinates.
use vstd::prelude::*;

verus! {

/// A point in terminal coordinates (x grows to the right, y grows down).
#[derive(Clone, Copy, Debug, PartialEq, Eq, Structural, Hash)]
pub struct Point {
    pub x: i32,
    pub y: i32,
}

/// A point with `u16` coordinates, as used by drawables that live on the
/// terminal grid.
#[derive(Clone, Copy, Debug, PartialEq, Eq, Structural, Hash)]
pub struct PointU16 {
    pub x: u16,
    pub y: u16,
}

impl PointU16 {
    /// The same point in `i32` coordinates.
    pub open spec fn as_point(self) -> Point {
        Point { x: self.x as i32, y: self.y as i32 }
    }

    pub fn to_point(self) -> (p: Point)
        ensures
            p == self.as_point(),
    {
        Point { x: self.x as i32, y: self.y as i32 }
    }

    /// The point with both coordinates clamped into `u16`.
    pub fn from_point_clamped(p: Point) -> (q: PointU16)
        ensures
            q == (PointU16 { x: spec_clamp_to_u16(p.x), y: spec_clamp_to_u16(p.y) }),
    {
        PointU16 { x: clamp_to_u16(p.x), y: clamp_to_u16(p.y) }
    }
}

/// A point with `usize` coordinates.
#[derive(Clone, Copy, Debug, PartialEq, Eq, Structural, Hash)]
pub struct PointUsize {
    pub x: usize,
    pub y: usize,
}

/// A rectangle with `usize` corners; `p1` is meant as the top-left and
/// `p2` as the bottom-right corner, both included.
#[derive(Clone, Copy, Debug, PartialEq, Eq, Structural, Hash)]
pub struct RectUsize {
    pub p1: PointUsize,
    pub p2: PointUsize,
}

/// An axis-aligned rectangle given by two corner points.
/// The corners need not be ordered; `normalized` orders them.
#[derive(Clone, Copy, Debug, PartialEq, Eq, Structural)]
pub struct Rect {
    pub p1: Point,
    pub p2: Point,
}

pub open spec fn min_i32(a: i32, b: i32) -> i32 {
    if a <= b { a } else { b }
}

pub open spec fn max_i32(a: i32, b: i32) -> i32 {
    if a >= b { a } else { b }
}

impl Point {
    pub fn new(x: i32, y: i32) -> (p: Point)
        ensures
            p == (Point { x, y }),
    {
        Point { x, y }
    }

    pub fn from_tuple(t: (i32, i32)) -> (p: Point)
        ensures
            p == (Point { x: t.0, y: t.1 }),
    {
        Point { x: t.0, y: t.1 }
    }
}

impl Rect {
    pub fn new(p1: Point, p2: Point) -> (r: Rect)
        ensures
            r == (Rect { p1, p2 }),
    {
        Rect { p1, p2 }
    }

    pub fn from_coords(x1: i32, y1: i32, x2: i32, y2: i32) -> (r: Rect)
        ensures
            r == (Rect { p1: Point { x: x1, y: y1 }, p2: Point { x: x2, y: y2 } }),
    {
        Rect { p1: Point { x: x1, y: y1 }, p2: Point { x: x2, y: y2 } }
    }

    /// The rectangle with the same corners, ordered so that `p1` is the
    /// top-left and `p2` the bottom-right corner.
    pub open spec fn spec_normalized(self) -> Rect {
        Rect {
            p1: Point { x: min_i32(self.p1.x, self.p2.x), y: min_i32(self.p1.y, self.p2.y) },
            p2: Point { x: max_i32(self.p1.x, self.p2.x), y: max_i32(self.p1.y, self.p2.y) },
        }
    }

    /// Whether `p` lies in the closed rectangle (borders included).
    pub open spec fn spec_contains(self, p: Point) -> bool {
        let r = self.spec_normalized();
        r.p1.x <= p.x <= r.p2.x && r.p1.y <= p.y <= r.p2.y
    }

    pub fn normalized(self) -> (r: Rect)
        ensures
            r == self.spec_normalized(),
    {
        let min_x = if self.p1.x <= self.p2.x { self.p1.x } else { self.p2.x };
        let max_x = if self.p1.x >= self.p2.x { self.p1.x } else { self.p2.x };
        let min_y = if self.p1.y <= self.p2.y { self.p1.y } else { self.p2.y };
        let max_y = if self.p1.y >= self.p2.y { self.p1.y } else { self.p2.y };
        Rect { p1: Point { x: min_x, y: min_y }, p2: Point { x: max_x, y: max_y } }
    }

    pub fn contains(&self, p: Point) -> (b: bool)
        ensures
            b == self.spec_contains(p),
    {
        let r = self.normalized();
        p.x >= r.p1.x && p.x <= r.p2.x && p.y >= r.p1.y && p.y <= r.p2.y
    }
}

/// Clamps an `i32` into the range of `u16`.
pub open spec fn spec_clamp_to_u16(x: i32) -> u16 {
    if x < 0 {
        0
    } else if x > 65535 {
        65535
    } else {
        x as u16
    }
}

pub fn clamp_to_u16(x: i32) -> (r: u16)
    ensures
        r == spec_clamp_to_u16(x),
{
    if x < 0 {
        0
    } else if x > 65535 {
        65535
    } else {
        x as u16
    }
}

} // verus!
