//! Plain integer geometry: points, axis-aligned rectangles, and the box
//! expansion helpers that the contact and transistor generators build on.
//!
//! All coordinates are integers in the technology's length unit. Functions
//! that do arithmetic bound their inputs by [`GEOM_LIMIT`] so that no
//! computation can overflow an `i64`.

use vstd::prelude::*;

verus! {

/// Bound on any coordinate handled by the geometry helpers. Generated layout
/// stays far below this; the bound only serves to rule out `i64` overflow.
pub const GEOM_LIMIT: i64 = 0x1000_0000_0000_0000;

/// An axis of the plane. A contact array's `dir` is the axis along which the
/// array is allowed to grow first when extra clearance is needed.
#[derive(Debug, Clone, Copy, PartialEq, Eq, Structural, Hash)]
pub enum Dir {
    Horiz,
    Vert,
}

#[derive(Debug, Clone, Copy, PartialEq, Eq, Structural, Hash)]
pub struct Point {
    pub x: i64,
    pub y: i64,
}

/// Axis-aligned rectangle given by its lower-left corner `p0` and its
/// upper-right corner `p1`.
#[derive(Debug, Clone, Copy, PartialEq, Eq, Structural, Hash)]
pub struct Rect {
    pub p0: Point,
    pub p1: Point,
}

pub open spec fn sp_max(a: int, b: int) -> int {
    if a >= b {
        a
    } else {
        b
    }
}

pub open spec fn sp_min(a: int, b: int) -> int {
    if a <= b {
        a
    } else {
        b
    }
}

/// All four coordinates of `r` are within `lim` of zero.
pub open spec fn rect_in(r: Rect, lim: int) -> bool {
    &&& -lim <= r.p0.x <= lim
    &&& -lim <= r.p0.y <= lim
    &&& -lim <= r.p1.x <= lim
    &&& -lim <= r.p1.y <= lim
}

/// The corners are ordered: `p0` is the lower-left corner.
pub open spec fn rect_ordered(r: Rect) -> bool {
    r.p0.x <= r.p1.x && r.p0.y <= r.p1.y
}

impl Rect {
    pub open spec fn spec_width(self) -> int {
        self.p1.x - self.p0.x
    }

    pub open spec fn spec_height(self) -> int {
        self.p1.y - self.p0.y
    }

    pub fn new(p0: Point, p1: Point) -> (r: Rect)
        ensures
            r == (Rect { p0, p1 }),
    {
        Rect { p0, p1 }
    }

    pub fn width(&self) -> (w: i64)
        requires
            rect_in(*self, GEOM_LIMIT as int),
        ensures
            w == self.spec_width(),
    {
        self.p1.x - self.p0.x
    }

    pub fn height(&self) -> (h: i64)
        requires
            rect_in(*self, GEOM_LIMIT as int),
        ensures
            h == self.spec_height(),
    {
        self.p1.y - self.p0.y
    }

    /// Length of the rectangle along the given axis.
    pub fn span_len(&self, dir: Dir) -> (l: i64)
        requires
            rect_in(*self, GEOM_LIMIT as int),
        ensures
            l == spec_span_len(*self, dir),
    {
        match dir {
            Dir::Horiz => self.p1.x - self.p0.x,
            Dir::Vert => self.p1.y - self.p0.y,
        }
    }
}

pub open spec fn spec_span_len(r: Rect, dir: Dir) -> int {
    match dir {
        Dir::Horiz => r.spec_width(),
        Dir::Vert => r.spec_height(),
    }
}

/// The smallest rectangle containing both arguments.
pub open spec fn sp_union(a: Rect, b: Rect) -> Rect {
    Rect {
        p0: Point { x: sp_min(a.p0.x as int, b.p0.x as int) as i64, y: sp_min(a.p0.y as int, b.p0.y as int) as i64 },
        p1: Point { x: sp_max(a.p1.x as int, b.p1.x as int) as i64, y: sp_max(a.p1.y as int, b.p1.y as int) as i64 },
    }
}

pub fn rect_union(a: &Rect, b: &Rect) -> (r: Rect)
    ensures
        r == sp_union(*a, *b),
{
    Rect {
        p0: Point {
            x: if a.p0.x <= b.p0.x { a.p0.x } else { b.p0.x },
            y: if a.p0.y <= b.p0.y { a.p0.y } else { b.p0.y },
        },
        p1: Point {
            x: if a.p1.x >= b.p1.x { a.p1.x } else { b.p1.x },
            y: if a.p1.y >= b.p1.y { a.p1.y } else { b.p1.y },
        },
    }
}

/// `r` grown by `e` on all four sides.
pub open spec fn sp_expand(r: Rect, e: int) -> Rect {
    Rect {
        p0: Point { x: (r.p0.x - e) as i64, y: (r.p0.y - e) as i64 },
        p1: Point { x: (r.p1.x + e) as i64, y: (r.p1.y + e) as i64 },
    }
}

pub fn expand_box(r: &Rect, e: i64) -> (out: Rect)
    requires
        rect_in(*r, GEOM_LIMIT as int),
        0 <= e <= GEOM_LIMIT,
    ensures
        out == sp_expand(*r, e as int),
        out.p0.x == r.p0.x - e,
        out.p0.y == r.p0.y - e,
        out.p1.x == r.p1.x + e,
        out.p1.y == r.p1.y + e,
{
    Rect {
        p0: Point { x: r.p0.x - e, y: r.p0.y - e },
        p1: Point { x: r.p1.x + e, y: r.p1.y + e },
    }
}

/// `r` translated by the vector `ofs`.
pub open spec fn sp_translate(r: Rect, ofs: Point) -> Rect {
    Rect {
        p0: Point { x: (r.p0.x + ofs.x) as i64, y: (r.p0.y + ofs.y) as i64 },
        p1: Point { x: (r.p1.x + ofs.x) as i64, y: (r.p1.y + ofs.y) as i64 },
    }
}

pub fn translate(r: &Rect, ofs: &Point) -> (out: Rect)
    requires
        rect_in(*r, GEOM_LIMIT as int),
        -GEOM_LIMIT <= ofs.x <= GEOM_LIMIT,
        -GEOM_LIMIT <= ofs.y <= GEOM_LIMIT,
    ensures
        out == sp_translate(*r, *ofs),
        out.p0.x == r.p0.x + ofs.x,
        out.p0.y == r.p0.y + ofs.y,
        out.p1.x == r.p1.x + ofs.x,
        out.p1.y == r.p1.y + ofs.y,
{
    Rect {
        p0: Point { x: r.p0.x + ofs.x, y: r.p0.y + ofs.y },
        p1: Point { x: r.p1.x + ofs.x, y: r.p1.y + ofs.y },
    }
}

} // verus!
