//! Affine maps of the plane.

use vstd::prelude::*;
use crate::layout::fixed::{Fixed, ONE, trunc_quot};
use crate::layout::vector::{Point, Vector};

verus! {

/// A linear map, held by the images of the two unit vectors.
#[derive(Clone, Copy, Debug, PartialEq, Eq, Structural, Hash)]
pub struct Matrix {
    pub x: Vector,
    pub y: Vector,
}

/// A linear map followed by a translation.
#[derive(Clone, Copy, Debug, PartialEq, Eq, Structural, Hash)]
pub struct Affine {
    pub translation: Vector,
    pub matrix: Matrix,
}

impl Matrix {
    /// The map that leaves every vector as it is.
    pub open spec fn spec_identity() -> Matrix {
        Matrix {
            x: Vector { x: Fixed { bits: ONE }, y: Fixed { bits: 0 } },
            y: Vector { x: Fixed { bits: 0 }, y: Fixed { bits: ONE } },
        }
    }

    /// The image of a vector.
    pub open spec fn spec_apply(self, v: Vector) -> Vector {
        self.x.times(v.x).plus(self.y.times(v.y))
    }

    /// The map that applies `rhs` first and this one after it.
    pub open spec fn spec_compose(self, rhs: Matrix) -> Matrix {
        Matrix { x: self.spec_apply(rhs.x), y: self.spec_apply(rhs.y) }
    }

    /// The determinant: the factor by which the map scales areas.
    pub open spec fn spec_determinant(self) -> Fixed {
        self.x.cross(self.y)
    }

    /// The inverse map: the adjugate over the determinant. A map without an
    /// inverse gives what the division by zero gives.
    pub open spec fn spec_inverse(self) -> Matrix {
        let det = self.spec_determinant();
        Matrix {
            x: Vector { x: self.y.y.over(det), y: self.x.y.neg().over(det) },
            y: Vector { x: self.y.x.neg().over(det), y: self.x.x.over(det) },
        }
    }

    /// The map that leaves every vector as it is.
    pub fn identity() -> (m: Matrix)
        ensures
            m == Matrix::spec_identity(),
    {
        Matrix {
            x: Vector { x: Fixed::one(), y: Fixed::zero() },
            y: Vector { x: Fixed::zero(), y: Fixed::one() },
        }
    }

    /// The image of a vector.
    #[verifier::when_used_as_spec(spec_apply)]
    pub fn apply(self, v: Vector) -> (r: Vector)
        ensures
            r == self.spec_apply(v),
    {
        self.x.times(v.x).plus(self.y.times(v.y))
    }

    /// The map that applies `rhs` first and this one after it.
    #[verifier::when_used_as_spec(spec_compose)]
    pub fn compose(self, rhs: Matrix) -> (m: Matrix)
        ensures
            m == self.spec_compose(rhs),
    {
        Matrix { x: self.apply(rhs.x), y: self.apply(rhs.y) }
    }

    /// The determinant of the map.
    #[verifier::when_used_as_spec(spec_determinant)]
    pub fn determinant(self) -> (d: Fixed)
        ensures
            d == self.spec_determinant(),
    {
        self.x.cross(self.y)
    }

    /// The inverse map.
    #[verifier::when_used_as_spec(spec_inverse)]
    pub fn inverse(self) -> (m: Matrix)
        ensures
            m == self.spec_inverse(),
    {
        let det = self.determinant();
        Matrix {
            x: Vector { x: self.y.y.over(det), y: self.x.y.neg().over(det) },
            y: Vector { x: self.y.x.neg().over(det), y: self.x.x.over(det) },
        }
    }
}

impl Affine {
    /// The map that leaves every point as it is.
    pub open spec fn spec_identity() -> Affine {
        Affine {
            translation: Vector { x: Fixed { bits: 0 }, y: Fixed { bits: 0 } },
            matrix: Matrix::spec_identity(),
        }
    }

    /// The move by a vector.
    pub open spec fn spec_translate(translation: Vector) -> Affine {
        Affine { translation, matrix: Matrix::spec_identity() }
    }

    /// The scaling along the axes by the components of a vector.
    pub open spec fn spec_scale(scale: Vector) -> Affine {
        Affine {
            translation: Vector { x: Fixed { bits: 0 }, y: Fixed { bits: 0 } },
            matrix: Matrix {
                x: Vector { x: scale.x, y: Fixed { bits: 0 } },
                y: Vector { x: Fixed { bits: 0 }, y: scale.y },
            },
        }
    }

    /// The turn that takes the x axis to `(cos, sin)`.
    pub open spec fn spec_rotation(cos: Fixed, sin: Fixed) -> Affine {
        Affine {
            translation: Vector { x: Fixed { bits: 0 }, y: Fixed { bits: 0 } },
            matrix: Matrix { x: Vector { x: cos, y: sin }, y: Vector { x: sin.neg(), y: cos } },
        }
    }

    /// The image of a point.
    pub open spec fn spec_apply(self, p: Point) -> Point {
        let v = self.matrix.spec_apply(Vector { x: p.x, y: p.y }).plus(self.translation);
        Point { x: v.x, y: v.y }
    }

    /// The map that applies `rhs` first and this one after it.
    pub open spec fn spec_compose(self, rhs: Affine) -> Affine {
        Affine {
            translation: self.matrix.spec_apply(rhs.translation).plus(self.translation),
            matrix: self.matrix.spec_compose(rhs.matrix),
        }
    }

    pub open spec fn spec_inverse(self) -> Affine {
        let matrix = self.matrix.spec_inverse();
        Affine { translation: matrix.spec_apply(self.translation.neg()), matrix }
    }

    /// The map that leaves every point as it is.
    pub fn identity() -> (a: Affine)
        ensures
            a == Affine::spec_identity(),
    {
        Affine { translation: Vector::zero(), matrix: Matrix::identity() }
    }

    /// The move by a vector.
    pub fn translate(translation: Vector) -> (a: Affine)
        ensures
            a == Affine::spec_translate(translation),
    {
        Affine { translation, matrix: Matrix::identity() }
    }

    /// The scaling along the axes by the components of a vector.
    pub fn scale(scale: Vector) -> (a: Affine)
        ensures
            a == Affine::spec_scale(scale),
    {
        Affine {
            translation: Vector::zero(),
            matrix: Matrix {
                x: Vector { x: scale.x, y: Fixed::zero() },
                y: Vector { x: Fixed::zero(), y: scale.y },
            },
        }
    }

    /// The turn that takes the x axis to `(cos, sin)`.
    pub fn rotation(cos: Fixed, sin: Fixed) -> (a: Affine)
        ensures
            a == Affine::spec_rotation(cos, sin),
    {
        Affine {
            translation: Vector::zero(),
            matrix: Matrix { x: Vector { x: cos, y: sin }, y: Vector { x: sin.neg(), y: cos } },
        }
    }

    /// The image of a point.
    #[verifier::when_used_as_spec(spec_apply)]
    pub fn apply(self, p: Point) -> (r: Point)
        ensures
            r == self.spec_apply(p),
    {
        let v = self.matrix.apply(Vector { x: p.x, y: p.y }).plus(self.translation);
        Point { x: v.x, y: v.y }
    }

    /// The map that applies `rhs` first and this one after it.
    #[verifier::when_used_as_spec(spec_compose)]
    pub fn compose(self, rhs: Affine) -> (a: Affine)
        ensures
            a == self.spec_compose(rhs),
    {
        Affine {
            translation: self.matrix.apply(rhs.translation).plus(self.translation),
            matrix: self.matrix.compose(rhs.matrix),
        }
    }

    /// The inverse map.
    #[verifier::when_used_as_spec(spec_inverse)]
    pub fn inverse(self) -> (a: Affine)
        ensures
            a == self.spec_inverse(),
    {
        let matrix = self.matrix.inverse();
        Affine { translation: matrix.apply(self.translation.neg()), matrix }
    }
}

/// The identity map keeps every vector whose components lie in the range
/// of the scalars.
pub proof fn lemma_identity_keeps_vector(v: Vector)
    requires
        v.x.in_range(),
        v.y.in_range(),
    ensures
        Matrix::spec_identity().spec_apply(v) == v,
{
    reveal(Fixed::spec_times);
    reveal(Fixed::spec_plus);
    let k = ONE as int;
    let (x, y) = (v.x.bits as int, v.y.bits as int);
    assert(ONE * x == x * k && ONE * y == y * k);
    vstd::arithmetic::div_mod::lemma_div_multiples_vanish(x, k);
    vstd::arithmetic::div_mod::lemma_div_multiples_vanish(-x, k);
    vstd::arithmetic::div_mod::lemma_div_multiples_vanish(y, k);
    vstd::arithmetic::div_mod::lemma_div_multiples_vanish(-y, k);
    assert(-(x * k) == (-x) * k && -(y * k) == (-y) * k) by (nonlinear_arith);
    assert(k * x == x * k && k * (-x) == (-x) * k && k * y == y * k && k * (-y) == (-y) * k)
        by (nonlinear_arith);
    assert(trunc_quot(ONE * x, k) == x);
    assert(trunc_quot(ONE * y, k) == y);
    assert(0 * x == 0 && 0 * y == 0);
    assert(trunc_quot(0 * x, k) == 0 && trunc_quot(0 * y, k) == 0);
}

/// The identity map is its own inverse, and keeps every point whose
/// coordinates lie in the range of the scalars: a layer that is drawn
/// under it is hit where it was drawn.
pub proof fn lemma_identity_keeps_point(p: Point)
    requires
        p.x.in_range(),
        p.y.in_range(),
    ensures
        Affine::spec_identity().spec_inverse() == Affine::spec_identity(),
        Affine::spec_identity().spec_apply(p) == p,
        Affine::spec_identity().spec_inverse().spec_apply(p) == p,
{
    lemma_identity_inverse();
    lemma_identity_keeps_vector(Vector { x: p.x, y: p.y });
    reveal(Fixed::spec_plus);
}

/// The identity map is its own inverse.
pub proof fn lemma_identity_inverse()
    ensures
        Affine::spec_identity().spec_inverse() == Affine::spec_identity(),
        Matrix::spec_identity().spec_inverse() == Matrix::spec_identity(),
        Matrix::spec_identity().spec_determinant() == (Fixed { bits: ONE }),
{
    reveal(Fixed::spec_times);
    reveal(Fixed::spec_plus);
    reveal(Fixed::spec_minus);
    reveal(Fixed::spec_neg);
    reveal(Fixed::spec_over);
    let k = ONE as int;
    assert(ONE * ONE == 0x1_0000_0000 && 0 * 0 == 0 && 0 * ONE == 0 && ONE * 0 == 0) by (nonlinear_arith)
        requires
            ONE == 65536,
    ;
    assert(trunc_quot(ONE * ONE, k) == k);
    assert(trunc_quot(0, k) == 0);
    let m = Matrix::spec_identity();
    assert(m.spec_determinant() == (Fixed { bits: ONE }));
    assert(m.spec_inverse() == m);
    lemma_identity_keeps_vector(Vector { x: Fixed { bits: 0 }, y: Fixed { bits: 0 } });
}

} // verus!
