use vstd::prelude::*;

verus! {

/// An axis-aligned rectangle with unsigned coordinates.
/// A well-formed rectangle satisfies `x1 <= x2` and `y1 <= y2`.
#[derive(Debug, Eq, PartialEq, Structural, Clone, Copy)]
pub struct Box2d {
    pub x1: u32,
    pub y1: u32,
    pub x2: u32,
    pub y2: u32,
}

/// Strict (open-interval) overlap: touching edges do not count.
pub open spec fn spec_intersects(a: Box2d, b: Box2d) -> bool {
    a.x1 < b.x2 && a.x2 > b.x1 && a.y1 < b.y2 && a.y2 > b.y1
}

/// Closed containment of `a` inside `b`.
pub open spec fn spec_contained_by(a: Box2d, b: Box2d) -> bool {
    a.x1 >= b.x1 && a.x2 <= b.x2 && a.y1 >= b.y1 && a.y2 <= b.y2
}

/// Partial overlap: `a` intersects `b` but is not fully inside it.
pub open spec fn spec_partially_overlaps(a: Box2d, b: Box2d) -> bool {
    spec_intersects(a, b) && !spec_contained_by(a, b)
}

impl Box2d {
    pub open spec fn wf(self) -> bool {
        self.x1 <= self.x2 && self.y1 <= self.y2
    }

    pub fn contained_by(&self, other: &Box2d) -> (r: bool)
        ensures
            r == spec_contained_by(*self, *other),
    {
        self.x1 >= other.x1 && self.x2 <= other.x2 && self.y1 >= other.y1 && self.y2 <= other.y2
    }

    pub fn intersects(&self, other: &Box2d) -> (r: bool)
        ensures
            r == spec_intersects(*self, *other),
    {
        self.x1 < other.x2 && self.x2 > other.x1 && self.y1 < other.y2 && self.y2 > other.y1
    }

    pub fn partially_overlaps(&self, other: &Box2d) -> (r: bool)
        ensures
            r == spec_partially_overlaps(*self, *other),
    {
        self.intersects(other) && !self.contained_by(other)
    }
}

/// The failures the core can report: unwrapping an accumulator that is
/// still empty, and diffing two lists with no difference between them.
#[derive(Debug, Eq, PartialEq, Structural, Clone, Copy)]
pub enum Error {
    EmptyRegion,
    NoChange,
}

/// A region accumulator: either empty (sentinel `x1 == x2`) or a rectangle.
#[derive(Debug, Eq, PartialEq, Structural, Clone, Copy)]
pub struct Box2dOrEmpty {
    pub x1: u32,
    pub y1: u32,
    pub x2: u32,
    pub y2: u32,
}

pub open spec fn spec_acc_empty(a: Box2dOrEmpty) -> bool {
    a.x1 == a.x2
}

pub open spec fn spec_acc_as_box(a: Box2dOrEmpty) -> Box2d {
    Box2d { x1: a.x1, y1: a.y1, x2: a.x2, y2: a.y2 }
}

/// Union of an accumulator with a rectangle: a rectangle replaces an empty
/// accumulator and widens a non-empty one componentwise.
pub open spec fn spec_acc_union(a: Box2dOrEmpty, b: Box2d) -> Box2dOrEmpty {
    if spec_acc_empty(a) {
        Box2dOrEmpty { x1: b.x1, y1: b.y1, x2: b.x2, y2: b.y2 }
    } else {
        Box2dOrEmpty {
            x1: if a.x1 <= b.x1 { a.x1 } else { b.x1 },
            y1: if a.y1 <= b.y1 { a.y1 } else { b.y1 },
            x2: if a.x2 >= b.x2 { a.x2 } else { b.x2 },
            y2: if a.y2 >= b.y2 { a.y2 } else { b.y2 },
        }
    }
}

/// Intersection test against an accumulator; an empty accumulator
/// intersects nothing.
pub open spec fn spec_acc_intersects(a: Box2dOrEmpty, b: Box2d) -> bool {
    !spec_acc_empty(a) && spec_intersects(spec_acc_as_box(a), b)
}

impl Box2dOrEmpty {
    pub fn new() -> (r: Box2dOrEmpty)
        ensures
            r == (Box2dOrEmpty { x1: 0u32, y1: 0u32, x2: 0u32, y2: 0u32 }),
            spec_acc_empty(r),
    {
        Box2dOrEmpty { x1: 0, x2: 0, y1: 0, y2: 0 }
    }

    pub fn union(&self, other: &Box2d) -> (r: Box2dOrEmpty)
        ensures
            r == spec_acc_union(*self, *other),
    {
        if self.x1 == self.x2 {
            Box2dOrEmpty { x1: other.x1, y1: other.y1, x2: other.x2, y2: other.y2 }
        } else {
            Box2dOrEmpty {
                x1: if self.x1 <= other.x1 { self.x1 } else { other.x1 },
                y1: if self.y1 <= other.y1 { self.y1 } else { other.y1 },
                x2: if self.x2 >= other.x2 { self.x2 } else { other.x2 },
                y2: if self.y2 >= other.y2 { self.y2 } else { other.y2 },
            }
        }
    }

    pub fn empty(&self) -> (r: bool)
        ensures
            r == spec_acc_empty(*self),
    {
        self.x1 == self.x2
    }

    pub fn intersects(&self, other: &Box2d) -> (r: bool)
        ensures
            r == spec_acc_intersects(*self, *other),
    {
        if self.empty() {
            return false;
        }
        self.x1 < other.x2 && self.x2 > other.x1 && self.y1 < other.y2 && self.y2 > other.y1
    }

    /// Turn a non-empty accumulator into the rectangle it holds; an empty
    /// accumulator has no rectangle and reports `EmptyRegion`.
    pub fn unwrap(&self) -> (r: Result<Box2d, Error>)
        ensures
            r == if spec_acc_empty(*self) {
                Result::<Box2d, Error>::Err(Error::EmptyRegion)
            } else {
                Result::<Box2d, Error>::Ok(spec_acc_as_box(*self))
            },
    {
        if self.x1 == self.x2 {
            Err(Error::EmptyRegion)
        } else {
            Ok(Box2d { x1: self.x1, x2: self.x2, y1: self.y1, y2: self.y2 })
        }
    }
}

/// Touching but non-overlapping edges generate no overlap constraint:
/// whenever two rectangles merely share an edge line (one ends where the
/// other begins, on either axis), they do not intersect in either order.
pub proof fn lemma_touching_edges_do_not_intersect(a: Box2d, b: Box2d)
    requires
        a.x2 <= b.x1 || b.x2 <= a.x1 || a.y2 <= b.y1 || b.y2 <= a.y1,
    ensures
        !spec_intersects(a, b),
        !spec_intersects(b, a),
{
}

} // verus!
