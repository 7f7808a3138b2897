//! Sizes and axis-aligned rectangles.

use vstd::prelude::*;
use crate::layout::affine::Affine;
use crate::layout::fixed::Fixed;
use crate::layout::vector::{Point, Vector};

verus! {

/// The smaller of two scalars.
pub open spec fn spec_min(a: Fixed, b: Fixed) -> Fixed {
    if a.bits <= b.bits {
        a
    } else {
        b
    }
}

/// The larger of two scalars.
pub open spec fn spec_max(a: Fixed, b: Fixed) -> Fixed {
    if a.bits >= b.bits {
        a
    } else {
        b
    }
}

/// The smaller of two scalars.
#[verifier::when_used_as_spec(spec_min)]
pub fn min(a: Fixed, b: Fixed) -> (m: Fixed)
    ensures
        m == spec_min(a, b),
{
    if a.bits <= b.bits {
        a
    } else {
        b
    }
}

/// The larger of two scalars.
#[verifier::when_used_as_spec(spec_max)]
pub fn max(a: Fixed, b: Fixed) -> (m: Fixed)
    ensures
        m == spec_max(a, b),
{
    if a.bits >= b.bits {
        a
    } else {
        b
    }
}

/// A width and a height.
#[derive(Clone, Copy, Debug, PartialEq, Eq, Structural, Hash)]
pub struct Size {
    pub width: Fixed,
    pub height: Fixed,
}

impl Size {
    /// The size with the given extents.
    pub fn new(width: Fixed, height: Fixed) -> (s: Size)
        ensures
            s.width == width,
            s.height == height,
    {
        Size { width, height }
    }
}

/// An axis-aligned rectangle, held by its corners.
#[derive(Clone, Copy, Debug, PartialEq, Eq, Structural, Hash)]
pub struct Rect {
    pub min: Point,
    pub max: Point,
}

impl Rect {
    /// The rectangle with the corner `min` and the given size.
    pub open spec fn spec_min_size(min: Point, size: Size) -> Rect {
        Rect { min, max: min.plus(Vector { x: size.width, y: size.height }) }
    }

    /// Whether the point lies in the rectangle, its edges included.
    pub open spec fn spec_contains(self, p: Point) -> bool {
        self.min.x.bits <= p.x.bits <= self.max.x.bits && self.min.y.bits <= p.y.bits
            <= self.max.y.bits
    }

    /// The extents of the rectangle.
    pub open spec fn spec_size(self) -> Size {
        Size { width: self.max.x.minus(self.min.x), height: self.max.y.minus(self.min.y) }
    }

    /// The corners, from `min` around by way of the corner that shares its
    /// y with `min`.
    pub open spec fn corners(self) -> (Point, Point, Point, Point) {
        (
            self.min,
            Point { x: self.max.x, y: self.min.y },
            self.max,
            Point { x: self.min.x, y: self.max.y },
        )
    }

    /// The smallest rectangle that holds the images of the four corners.
    pub open spec fn spec_transform(self, affine: Affine) -> Rect {
        let c = self.corners();
        let a = affine.apply(c.0);
        let b = affine.apply(c.1);
        let c2 = affine.apply(c.2);
        let d = affine.apply(c.3);
        Rect {
            min: Point {
                x: spec_min(spec_min(a.x, b.x), spec_min(c2.x, d.x)),
                y: spec_min(spec_min(a.y, b.y), spec_min(c2.y, d.y)),
            },
            max: Point {
                x: spec_max(spec_max(a.x, b.x), spec_max(c2.x, d.x)),
                y: spec_max(spec_max(a.y, b.y), spec_max(c2.y, d.y)),
            },
        }
    }

    /// The rectangle with the given corners.
    pub fn new(min: Point, max: Point) -> (r: Rect)
        ensures
            r.min == min,
            r.max == max,
    {
        Rect { min, max }
    }

    /// The rectangle with the corner `min` and the given size.
    pub fn min_size(min: Point, size: Size) -> (r: Rect)
        ensures
            r == Rect::spec_min_size(min, size),
    {
        Rect { min, max: min.plus(Vector { x: size.width, y: size.height }) }
    }

    /// Whether the point lies in the rectangle, its edges included.
    #[verifier::when_used_as_spec(spec_contains)]
    pub fn contains(self, p: Point) -> (b: bool)
        ensures
            b == self.spec_contains(p),
    {
        self.min.x.bits <= p.x.bits && p.x.bits <= self.max.x.bits && self.min.y.bits <= p.y.bits
            && p.y.bits <= self.max.y.bits
    }

    /// The extents of the rectangle.
    #[verifier::when_used_as_spec(spec_size)]
    pub fn size(self) -> (s: Size)
        ensures
            s == self.spec_size(),
    {
        Size { width: self.max.x.minus(self.min.x), height: self.max.y.minus(self.min.y) }
    }

    /// The smallest rectangle around the image of this one.
    #[verifier::when_used_as_spec(spec_transform)]
    pub fn transform(self, affine: Affine) -> (r: Rect)
        ensures
            r == self.spec_transform(affine),
    {
        let a = affine.apply(self.min);
        let b = affine.apply(Point { x: self.max.x, y: self.min.y });
        let c = affine.apply(self.max);
        let d = affine.apply(Point { x: self.min.x, y: self.max.y });
        Rect {
            min: Point {
                x: min(min(a.x, b.x), min(c.x, d.x)),
                y: min(min(a.y, b.y), min(c.y, d.y)),
            },
            max: Point {
                x: max(max(a.x, b.x), max(c.x, d.x)),
                y: max(max(a.y, b.y), max(c.y, d.y)),
            },
        }
    }
}

} // verus!
