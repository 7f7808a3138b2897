//! Points and vectors of the plane.

use vstd::prelude::*;
use crate::layout::fixed::{Fixed, ONE, integer_sqrt, isqrt, lemma_isqrt_bounds, trunc_quot};

verus! {

/// Below this magnitude in both components a vector is scaled up by the
/// same factor before it is normalized, so that short vectors give unit
/// vectors as exact as long ones.
pub const SMALL: i64 = 0x8000_0000;

/// A direction with a magnitude.
#[derive(Clone, Copy, Debug, PartialEq, Eq, Structural, Hash)]
pub struct Vector {
    pub x: Fixed,
    pub y: Fixed,
}

/// A position.
#[derive(Clone, Copy, Debug, PartialEq, Eq, Structural, Hash)]
pub struct Point {
    pub x: Fixed,
    pub y: Fixed,
}

/// The factor by which the components `x` and `y` are scaled before a
/// normalization.
pub open spec fn norm_scale(x: int, y: int) -> int {
    if -SMALL < x < SMALL && -SMALL < y < SMALL {
        SMALL as int
    } else {
        1
    }
}

/// The Euclidean length of `(x, y)`, rounded down.
pub open spec fn hypot(x: int, y: int) -> int {
    isqrt((x * x + y * y) as nat) as int
}

/// The component `c` of the unit vector along `(x, y)`, which is not zero.
pub open spec fn unit_component(c: int, x: int, y: int) -> int {
    let s = norm_scale(x, y);
    trunc_quot(c * s * ONE, hypot(x * s, y * s))
}

impl Vector {
    /// The sum of two vectors.
    pub open spec fn spec_plus(self, rhs: Vector) -> Vector {
        Vector { x: self.x.plus(rhs.x), y: self.y.plus(rhs.y) }
    }

    /// The difference of two vectors.
    pub open spec fn spec_minus(self, rhs: Vector) -> Vector {
        Vector { x: self.x.minus(rhs.x), y: self.y.minus(rhs.y) }
    }

    /// The opposite vector.
    pub open spec fn spec_neg(self) -> Vector {
        Vector { x: self.x.neg(), y: self.y.neg() }
    }

    /// The vector scaled by `k`.
    pub open spec fn spec_times(self, k: Fixed) -> Vector {
        Vector { x: self.x.times(k), y: self.y.times(k) }
    }

    /// The vector with both components divided by `k`.
    pub open spec fn spec_over(self, k: Fixed) -> Vector {
        Vector { x: self.x.over(k), y: self.y.over(k) }
    }

    /// The scalar product: the sum of the products of the components.
    pub open spec fn spec_dot(self, rhs: Vector) -> Fixed {
        self.x.times(rhs.x).plus(self.y.times(rhs.y))
    }

    /// The cross product of the plane: positive where `rhs` lies a turn to the
    /// left of this vector, that is from the x axis toward the y axis.
    pub open spec fn spec_cross(self, rhs: Vector) -> Fixed {
        self.x.times(rhs.y).minus(self.y.times(rhs.x))
    }

    /// The vector turned by a quarter turn, from the x axis toward the y axis.
    pub open spec fn spec_hat(self) -> Vector {
        Vector { x: self.y.neg(), y: self.x }
    }

    /// The length, rounded down to a bit.
    #[verifier::opaque]
    pub open spec fn spec_length(self) -> Fixed {
        Fixed::of(hypot(self.x.bits as int, self.y.bits as int))
    }

    /// Whether both components are zero.
    pub open spec fn is_zero(self) -> bool {
        self.x.bits == 0 && self.y.bits == 0
    }

    /// The unit vector along this one; the zero vector has no direction and
    /// stays zero.
    #[verifier::opaque]
    pub open spec fn spec_normalize(self) -> Vector {
        if self.is_zero() {
            self
        } else {
            Vector {
                x: Fixed::of(unit_component(self.x.bits as int, self.x.bits as int, self.y.bits as int)),
                y: Fixed::of(unit_component(self.y.bits as int, self.x.bits as int, self.y.bits as int)),
            }
        }
    }

    /// The vector with the given components.
    pub fn new(x: Fixed, y: Fixed) -> (v: Vector)
        ensures
            v.x == x,
            v.y == y,
    {
        Vector { x, y }
    }

    /// The vector without length.
    pub fn zero() -> (v: Vector)
        ensures
            v.x.bits == 0,
            v.y.bits == 0,
    {
        Vector { x: Fixed::zero(), y: Fixed::zero() }
    }

    /// Adds two vectors.
    #[verifier::when_used_as_spec(spec_plus)]
    pub fn plus(self, rhs: Vector) -> (v: Vector)
        ensures
            v == self.spec_plus(rhs),
    {
        Vector { x: self.x.plus(rhs.x), y: self.y.plus(rhs.y) }
    }

    /// Subtracts `rhs` from the vector.
    #[verifier::when_used_as_spec(spec_minus)]
    pub fn minus(self, rhs: Vector) -> (v: Vector)
        ensures
            v == self.spec_minus(rhs),
    {
        Vector { x: self.x.minus(rhs.x), y: self.y.minus(rhs.y) }
    }

    /// The opposite vector.
    #[verifier::when_used_as_spec(spec_neg)]
    pub fn neg(self) -> (v: Vector)
        ensures
            v == self.spec_neg(),
    {
        Vector { x: self.x.neg(), y: self.y.neg() }
    }

    /// Scales the vector by `k`.
    #[verifier::when_used_as_spec(spec_times)]
    pub fn times(self, k: Fixed) -> (v: Vector)
        ensures
            v == self.spec_times(k),
    {
        Vector { x: self.x.times(k), y: self.y.times(k) }
    }

    /// Divides both components by `k`.
    #[verifier::when_used_as_spec(spec_over)]
    pub fn over(self, k: Fixed) -> (v: Vector)
        ensures
            v == self.spec_over(k),
    {
        Vector { x: self.x.over(k), y: self.y.over(k) }
    }

    /// The scalar product.
    #[verifier::when_used_as_spec(spec_dot)]
    pub fn dot(self, rhs: Vector) -> (d: Fixed)
        ensures
            d == self.spec_dot(rhs),
    {
        self.x.times(rhs.x).plus(self.y.times(rhs.y))
    }

    /// The cross product of the plane.
    #[verifier::when_used_as_spec(spec_cross)]
    pub fn cross(self, rhs: Vector) -> (d: Fixed)
        ensures
            d == self.spec_cross(rhs),
    {
        self.x.times(rhs.y).minus(self.y.times(rhs.x))
    }

    /// Turns the vector by a quarter turn, from the x axis toward the y axis.
    #[verifier::when_used_as_spec(spec_hat)]
    pub fn hat(self) -> (v: Vector)
        ensures
            v == self.spec_hat(),
    {
        Vector { x: self.y.neg(), y: self.x }
    }

    /// The length of the vector.
    #[verifier::when_used_as_spec(spec_length)]
    pub fn length(self) -> (d: Fixed)
        ensures
            d == self.spec_length(),
    {
        reveal(Vector::spec_length);
        let h = wide_hypot(self.x.bits as i128, self.y.bits as i128);
        Fixed::saturate(h as i128)
    }

    /// The unit vector along this one; zero for the zero vector.
    #[verifier::when_used_as_spec(spec_normalize)]
    pub fn normalize(self) -> (v: Vector)
        ensures
            v == self.spec_normalize(),
    {
        reveal(Vector::spec_normalize);
        let x = self.x.bits;
        let y = self.y.bits;
        if x == 0 && y == 0 {
            return self;
        }
        let small = -SMALL < x && x < SMALL && -SMALL < y && y < SMALL;
        let xs: i128 = if small { (x as i128) * (SMALL as i128) } else { x as i128 };
        let ys: i128 = if small { (y as i128) * (SMALL as i128) } else { y as i128 };
        let h = wide_hypot(xs, ys);
        proof {
            let k = norm_scale(x as int, y as int);
            assert(xs == x * k && ys == y * k);
            assert(xs * ONE == x * k * ONE && ys * ONE == y * k * ONE);
            lemma_hypot_positive(xs as int, ys as int);
        }
        let nx = (xs * (ONE as i128)) / (h as i128);
        let ny = (ys * (ONE as i128)) / (h as i128);
        Vector { x: Fixed::saturate(nx), y: Fixed::saturate(ny) }
    }
}

/// A vector that is not zero has a length of at least one unit.
pub proof fn lemma_hypot_positive(x: int, y: int)
    requires
        x != 0 || y != 0,
    ensures
        hypot(x, y) >= 1,
{
    let n = (x * x + y * y) as nat;
    assert(x * x + y * y >= 1) by (nonlinear_arith)
        requires
            x != 0 || y != 0,
    ;
    lemma_isqrt_bounds(n);
    let r = isqrt(n);
    if r == 0 {
        assert((r + 1) * (r + 1) == 1) by (nonlinear_arith)
            requires
                r == 0,
        ;
    }
}

/// The length of `(x, y)` for components within the range of a product of
/// two bit patterns.
pub fn wide_hypot(x: i128, y: i128) -> (h: u128)
    requires
        -0x8000_0000_0000_0000 <= x <= 0x8000_0000_0000_0000,
        -0x8000_0000_0000_0000 <= y <= 0x8000_0000_0000_0000,
    ensures
        h == hypot(x as int, y as int),
        h < 0x1_0000_0000_0000_0000,
{
    assert(0 <= x * x <= 0x4000_0000_0000_0000_0000_0000_0000_0000) by (nonlinear_arith)
        requires
            -0x8000_0000_0000_0000 <= x <= 0x8000_0000_0000_0000,
    ;
    assert(0 <= y * y <= 0x4000_0000_0000_0000_0000_0000_0000_0000) by (nonlinear_arith)
        requires
            -0x8000_0000_0000_0000 <= y <= 0x8000_0000_0000_0000,
    ;
    let xx = (x * x) as u128;
    let yy = (y * y) as u128;
    integer_sqrt(xx + yy)
}

impl Point {
    /// The point moved by a vector.
    pub open spec fn spec_plus(self, v: Vector) -> Point {
        Point { x: self.x.plus(v.x), y: self.y.plus(v.y) }
    }

    /// The point moved against a vector.
    pub open spec fn spec_minus(self, v: Vector) -> Point {
        Point { x: self.x.minus(v.x), y: self.y.minus(v.y) }
    }

    /// The vector that leads from `origin` to this point.
    pub open spec fn spec_since(self, origin: Point) -> Vector {
        Vector { x: self.x.minus(origin.x), y: self.y.minus(origin.y) }
    }

    /// The point at the fraction `t` of the way from this point to `to`.
    pub open spec fn spec_lerp(self, to: Point, t: Fixed) -> Point {
        self.spec_plus(to.spec_since(self).times(t))
    }

    /// The distance to a point, rounded down to a bit.
    pub open spec fn spec_distance(self, to: Point) -> Fixed {
        to.spec_since(self).length()
    }

    /// The point with the given coordinates.
    pub fn new(x: Fixed, y: Fixed) -> (p: Point)
        ensures
            p.x == x,
            p.y == y,
    {
        Point { x, y }
    }

    /// The origin.
    pub fn zero() -> (p: Point)
        ensures
            p.x.bits == 0,
            p.y.bits == 0,
    {
        Point { x: Fixed::zero(), y: Fixed::zero() }
    }

    /// Moves the point by a vector.
    #[verifier::when_used_as_spec(spec_plus)]
    pub fn plus(self, v: Vector) -> (p: Point)
        ensures
            p == self.spec_plus(v),
    {
        Point { x: self.x.plus(v.x), y: self.y.plus(v.y) }
    }

    /// Moves the point against a vector.
    #[verifier::when_used_as_spec(spec_minus)]
    pub fn minus(self, v: Vector) -> (p: Point)
        ensures
            p == self.spec_minus(v),
    {
        Point { x: self.x.minus(v.x), y: self.y.minus(v.y) }
    }

    /// The vector that leads from `origin` to this point.
    #[verifier::when_used_as_spec(spec_since)]
    pub fn since(self, origin: Point) -> (v: Vector)
        ensures
            v == self.spec_since(origin),
            v.x.in_range(),
            v.y.in_range(),
    {
        Vector { x: self.x.minus(origin.x), y: self.y.minus(origin.y) }
    }

    /// The point at the fraction `t` of the way to `to`.
    #[verifier::when_used_as_spec(spec_lerp)]
    pub fn lerp(self, to: Point, t: Fixed) -> (p: Point)
        ensures
            p == self.spec_lerp(to, t),
    {
        self.plus(to.since(self).times(t))
    }

    /// The distance to a point.
    #[verifier::when_used_as_spec(spec_distance)]
    pub fn distance(self, to: Point) -> (d: Fixed)
        ensures
            d == self.spec_distance(to),
    {
        to.since(self).length()
    }
}

} // verus!
