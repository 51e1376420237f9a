//! Integer grid points and axis-aligned rectangles.
//!
//! A `Rect` carries its origin, far corner, size and centre together; the
//! constructor and the merge operation keep those fields consistent, which
//! `Rect::wf` states.

use vstd::prelude::*;

verus! {

/// An integer (x, y) grid coordinate.
#[derive(Clone, Copy, Debug, PartialEq, Eq, Structural, Hash)]
pub struct Point {
    pub x: i32,
    pub y: i32,
}

impl Default for Point {
    fn default() -> (r: Self)
        ensures
            r.x == 0,
            r.y == 0,
    {
        Point { x: 0, y: 0 }
    }
}

/// An axis-aligned integer rectangle spanning `[x, x2) x [y, y2)`.
///
/// The `merged` flag is transient bookkeeping for the collision-shape
/// reducer: it marks a rectangle that has been absorbed into another.
#[derive(Clone, Copy, Debug, PartialEq, Eq, Structural)]
pub struct Rect {
    pub x: i32,
    pub y: i32,
    pub x2: i32,
    pub y2: i32,
    pub width: i32,
    pub height: i32,
    pub centre: Point,
    pub merged: bool,
}

impl Rect {
    /// The derived fields agree with the origin and size.
    pub open spec fn wf(self) -> bool {
        &&& self.width >= 0
        &&& self.height >= 0
        &&& self.x2 == self.x + self.width
        &&& self.y2 == self.y + self.height
        &&& self.centre.x == self.x + self.width / 2
        &&& self.centre.y == self.y + self.height / 2
    }

    pub open spec fn spec_area(self) -> int {
        self.width * self.height
    }

    /// Overlap test, inclusive of touching edges.
    pub open spec fn spec_intersects(self, other: Rect) -> bool {
        self.x <= other.x2 && self.x2 >= other.x && self.y <= other.y2 && self.y2 >= other.y
    }

    /// True iff the two rectangles share a full edge of equal length, so
    /// their union is again a rectangle.
    pub open spec fn spec_can_merge(self, other: Rect) -> bool {
        ||| (self.x == other.x && self.x2 == other.x2 && (self.y == other.y2 || self.y2
            == other.y))
        ||| (self.y == other.y && self.y2 == other.y2 && (self.x == other.x2 || self.x2
            == other.x))
    }

    /// The union of two merge-compatible rectangles. Keeps `self`'s
    /// `merged` flag.
    pub open spec fn spec_merge(self, other: Rect) -> Rect {
        let nx = if self.x == other.x && self.x2 == other.x2 {
            self.x as int
        } else {
            min_int(self.x as int, other.x as int)
        };
        let nx2 = if self.x == other.x && self.x2 == other.x2 {
            self.x2 as int
        } else {
            max_int(self.x2 as int, other.x2 as int)
        };
        let ny = if self.x == other.x && self.x2 == other.x2 {
            min_int(self.y as int, other.y as int)
        } else {
            self.y as int
        };
        let ny2 = if self.x == other.x && self.x2 == other.x2 {
            max_int(self.y2 as int, other.y2 as int)
        } else {
            self.y2 as int
        };
        Rect {
            x: nx as i32,
            y: ny as i32,
            x2: nx2 as i32,
            y2: ny2 as i32,
            width: (nx2 - nx) as i32,
            height: (ny2 - ny) as i32,
            centre: Point { x: (nx + (nx2 - nx) / 2) as i32, y: (ny + (ny2 - ny) / 2) as i32 },
            merged: self.merged,
        }
    }

    /// True iff the cell (x, y) lies inside the rectangle.
    pub open spec fn spec_contains_tile(self, x: int, y: int) -> bool {
        self.x <= x < self.x2 && self.y <= y < self.y2
    }

    /// What `Rect::new` builds, at the specification level.
    pub open spec fn spec_new(x: int, y: int, width: int, height: int) -> Rect {
        Rect {
            x: x as i32,
            y: y as i32,
            x2: (x + width) as i32,
            y2: (y + height) as i32,
            width: width as i32,
            height: height as i32,
            centre: Point { x: (x + width / 2) as i32, y: (y + height / 2) as i32 },
            merged: false,
        }
    }

    pub fn new(x: i32, y: i32, width: i32, height: i32) -> (r: Rect)
        requires
            0 <= width,
            0 <= height,
            x + width <= i32::MAX,
            y + height <= i32::MAX,
        ensures
            r == Rect::spec_new(x as int, y as int, width as int, height as int),
            r.wf(),
    {
        Rect {
            x,
            y,
            x2: x + width,
            y2: y + height,
            width,
            height,
            centre: Point { x: x + width / 2, y: y + height / 2 },
            merged: false,
        }
    }

    pub fn intersects(&self, other: &Rect) -> (r: bool)
        ensures
            r == self.spec_intersects(*other),
    {
        self.x <= other.x2 && self.x2 >= other.x && self.y <= other.y2 && self.y2 >= other.y
    }

    pub fn can_merge(&self, other: &Rect) -> (r: bool)
        ensures
            r == self.spec_can_merge(*other),
    {
        (self.x == other.x && self.x2 == other.x2 && (self.y == other.y2 || self.y2 == other.y))
            || (self.y == other.y && self.y2 == other.y2 && (self.x == other.x2 || self.x2
            == other.x))
    }

    pub fn contains_tile(&self, x: i32, y: i32) -> (r: bool)
        ensures
            r == self.spec_contains_tile(x as int, y as int),
    {
        x >= self.x && x < self.x2 && y >= self.y && y < self.y2
    }

    /// Extend `self` to the union of the two rectangles. Callers must
    /// check `can_merge` first: merging incompatible rectangles is a
    /// programmer error and is ruled out by the precondition.
    pub fn merge(&mut self, other: &Rect)
        requires
            old(self).wf(),
            other.wf(),
            old(self).spec_can_merge(*other),
            old(self).width + other.width <= i32::MAX,
            old(self).height + other.height <= i32::MAX,
        ensures
            *final(self) == old(self).spec_merge(*other),
            final(self).wf(),
    {
        if self.x == other.x && self.x2 == other.x2 {
            self.y = if self.y < other.y {
                self.y
            } else {
                other.y
            };
            self.y2 = if self.y2 > other.y2 {
                self.y2
            } else {
                other.y2
            };
        } else {
            self.x = if self.x < other.x {
                self.x
            } else {
                other.x
            };
            self.x2 = if self.x2 > other.x2 {
                self.x2
            } else {
                other.x2
            };
        }
        self.width = self.x2 - self.x;
        self.height = self.y2 - self.y;
        self.centre = Point { x: self.x + self.width / 2, y: self.y + self.height / 2 };
    }

    pub fn area(&self) -> (r: i32)
        requires
            self.wf(),
            self.spec_area() <= i32::MAX,
        ensures
            r == self.spec_area(),
    {
        self.width * self.height
    }
}

pub open spec fn min_int(a: int, b: int) -> int {
    if a < b {
        a
    } else {
        b
    }
}

pub open spec fn max_int(a: int, b: int) -> int {
    if a > b {
        a
    } else {
        b
    }
}

/// Overlap testing does not depend on the order of its arguments.
pub proof fn lemma_intersects_symmetric(a: Rect, b: Rect)
    ensures
        a.spec_intersects(b) == b.spec_intersects(a),
{
}

/// Merge compatibility does not depend on the order of its arguments.
pub proof fn lemma_can_merge_symmetric(a: Rect, b: Rect)
    ensures
        a.spec_can_merge(b) == b.spec_can_merge(a),
{
}

/// Merging is commutative in effect: either order yields the same
/// bounding rectangle (only the transient `merged` flag follows `self`).
pub proof fn lemma_merge_commutative(a: Rect, b: Rect)
    requires
        a.spec_can_merge(b),
    ensures
        a.spec_merge(b).x == b.spec_merge(a).x,
        a.spec_merge(b).y == b.spec_merge(a).y,
        a.spec_merge(b).x2 == b.spec_merge(a).x2,
        a.spec_merge(b).y2 == b.spec_merge(a).y2,
        a.spec_merge(b).width == b.spec_merge(a).width,
        a.spec_merge(b).height == b.spec_merge(a).height,
        a.spec_merge(b).centre == b.spec_merge(a).centre,
{
}

/// A merged rectangle is never smaller in area than either rectangle it
/// replaces.
pub proof fn lemma_merge_area(a: Rect, b: Rect)
    requires
        a.wf(),
        b.wf(),
        a.spec_can_merge(b),
        a.width + b.width <= i32::MAX,
        a.height + b.height <= i32::MAX,
    ensures
        a.spec_merge(b).spec_area() >= a.spec_area(),
        a.spec_merge(b).spec_area() >= b.spec_area(),
{
    let m = a.spec_merge(b);
    if a.x == b.x && a.x2 == b.x2 && (a.y == b.y2 || a.y2 == b.y) {
        // vertically adjacent: the union stacks the two heights
        let ny = min_int(a.y as int, b.y as int);
        let ny2 = max_int(a.y2 as int, b.y2 as int);
        assert(ny2 - ny == a.height + b.height);
        assert(m.height == (ny2 - ny) as i32);
        assert(m.width == a.width && m.width == b.width);
        assert(m.height == a.height + b.height);
        assert(m.width * m.height >= a.width * a.height && m.width * m.height >= b.width
            * b.height) by (nonlinear_arith)
            requires
                m.width == a.width,
                m.width == b.width,
                m.height == a.height + b.height,
                a.width >= 0,
                a.height >= 0,
                b.height >= 0,
        ;
    } else if a.x == b.x && a.x2 == b.x2 {
        // the x-spans agree but the rects meet on a vertical edge, so both
        // widths are zero and every area involved is zero
        assert(a.width == 0 && b.width == 0);
        assert(m.width == 0);
    } else {
        // horizontally adjacent: the union joins the two widths
        let nx = min_int(a.x as int, b.x as int);
        let nx2 = max_int(a.x2 as int, b.x2 as int);
        assert(nx2 - nx == a.width + b.width);
        assert(m.width == (nx2 - nx) as i32);
        assert(m.height == a.height && m.height == b.height);
        assert(m.width == a.width + b.width);
        assert(m.width * m.height >= a.width * a.height && m.width * m.height >= b.width
            * b.height) by (nonlinear_arith)
            requires
                m.height == a.height,
                m.height == b.height,
                m.width == a.width + b.width,
                a.height >= 0,
                a.width >= 0,
                b.width >= 0,
        ;
    }
}

} // verus!
