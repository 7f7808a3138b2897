//! Stroking: the outline that a pen of a given width leaves along a path.

use vstd::prelude::*;
use vstd::std_specs::convert::FromSpecImpl;
use crate::canvas::curve::{Curve, CurveSegment, conic_cubic, last_point, reversed, well_formed};
use crate::canvas::outline::{closed_contours, lemma_outline_returns, lemma_scan_in_order, returns_home};
use crate::layout::fixed::{Fixed, HALF, ONE, THIRD, TWO_THIRDS};
use crate::layout::vector::{Point, Vector};

verus! {

/// Ways to draw the end of a line.
#[derive(Clone, Copy, Debug, PartialEq, Eq, Structural, Hash)]
pub enum LineCap {
    /// The end of the line is squared off.
    Butt,
    /// The end of the line is rounded.
    Round,
    /// The end of the line is squared off and extends past the end of the line.
    Square,
}

/// Ways to join two lines.
#[derive(Clone, Copy, Debug, PartialEq, Eq, Structural, Hash)]
pub enum LineJoin {
    /// The lines are joined with a sharp corner.
    Miter,
    /// The lines are joined with a rounded corner.
    Round,
    /// The lines are joined with a beveled corner.
    Bevel,
}

/// Properties of a stroke.
#[derive(Clone, Copy, Debug, PartialEq, Eq, Structural, Hash)]
pub struct Stroke {
    /// The width of the stroke.
    pub width: Fixed,
    /// The miter limit of the stroke.
    pub miter: Fixed,
    /// The cap of the stroke.
    pub cap: LineCap,
    /// The join of the stroke.
    pub join: LineJoin,
}

/// The bit pattern of the default miter limit, four.
pub const DEFAULT_MITER: i64 = 262144;

/// The error, in bits, below which an offset curve is accepted.
pub const MAX_ERROR: i64 = 65536;

/// The depth at which an offset curve is accepted whatever its error.
pub const MAX_DEPTH: u8 = 6;

/// The bit pattern of the handle length of a round cap, as a part of its
/// radius: 0.55.
pub const CAP_HANDLE: i64 = 36045;

impl Stroke {
    /// The stroke of width one with a miter limit of four, butt caps and
    /// miter joins.
    pub open spec fn spec_default() -> Stroke {
        Stroke {
            width: Fixed { bits: ONE },
            miter: Fixed { bits: DEFAULT_MITER },
            cap: LineCap::Butt,
            join: LineJoin::Miter,
        }
    }

    /// Half the width: the distance of the outline from the path.
    pub open spec fn spec_radius(self) -> Fixed {
        self.width.times(Fixed { bits: HALF })
    }

    #[verifier::when_used_as_spec(spec_radius)]
    pub fn radius(self) -> (r: Fixed)
        ensures
            r == self.spec_radius(),
    {
        self.width.times(Fixed::from_bits(HALF))
    }
}

impl Default for Stroke {
    fn default() -> (s: Stroke)
        ensures
            s == Stroke::spec_default(),
    {
        Stroke {
            width: Fixed::from_bits(ONE),
            miter: Fixed::from_bits(DEFAULT_MITER),
            cap: LineCap::Butt,
            join: LineJoin::Miter,
        }
    }
}

impl From<Fixed> for Stroke {
    fn from(value: Fixed) -> (s: Stroke) {
        Stroke {
            width: value,
            miter: Fixed::from_bits(DEFAULT_MITER),
            cap: LineCap::Butt,
            join: LineJoin::Miter,
        }
    }
}

impl FromSpecImpl<Fixed> for Stroke {
    open spec fn obeys_from_spec() -> bool {
        true
    }

    open spec fn from_spec(value: Fixed) -> Stroke {
        Stroke { width: value, ..Stroke::spec_default() }
    }
}

/// The unit normal of the line from `p0` to `p1`; zero if they coincide.
pub open spec fn spec_line_normal(p0: Point, p1: Point) -> Vector {
    p1.since(p0).hat().normalize()
}

#[verifier::when_used_as_spec(spec_line_normal)]
pub fn line_normal(p0: Point, p1: Point) -> (n: Vector)
    ensures
        n == spec_line_normal(p0, p1),
{
    p1.since(p0).hat().normalize()
}

/// The point at `t` on the quadratic curve.
pub open spec fn spec_quad_bezier(p0: Point, p1: Point, p2: Point, t: Fixed) -> Point {
    p0.lerp(p1, t).lerp(p1.lerp(p2, t), t)
}

#[verifier::when_used_as_spec(spec_quad_bezier)]
pub fn quad_bezier(p0: Point, p1: Point, p2: Point, t: Fixed) -> (p: Point)
    ensures
        p == spec_quad_bezier(p0, p1, p2, t),
{
    let p01 = p0.lerp(p1, t);
    let p12 = p1.lerp(p2, t);
    p01.lerp(p12, t)
}

/// The direction of the quadratic curve at `t`, with half the length of its
/// derivative.
pub open spec fn spec_quad_bezier_tangent(p0: Point, p1: Point, p2: Point, t: Fixed) -> Vector {
    p1.lerp(p2, t).since(p0.lerp(p1, t))
}

#[verifier::when_used_as_spec(spec_quad_bezier_tangent)]
pub fn quad_bezier_tangent(p0: Point, p1: Point, p2: Point, t: Fixed) -> (v: Vector)
    ensures
        v == spec_quad_bezier_tangent(p0, p1, p2, t),
{
    let p01 = p0.lerp(p1, t);
    let p12 = p1.lerp(p2, t);
    p12.since(p01)
}

/// The unit normal of the quadratic curve at `t`; zero where the curve has
/// no direction.
pub open spec fn spec_quad_bezier_normal(p0: Point, p1: Point, p2: Point, t: Fixed) -> Vector {
    spec_quad_bezier_tangent(p0, p1, p2, t).hat().normalize()
}

#[verifier::when_used_as_spec(spec_quad_bezier_normal)]
pub fn quad_bezier_normal(p0: Point, p1: Point, p2: Point, t: Fixed) -> (n: Vector)
    ensures
        n == spec_quad_bezier_normal(p0, p1, p2, t),
{
    quad_bezier_tangent(p0, p1, p2, t).hat().normalize()
}

/// The point at `t` on the cubic curve.
pub open spec fn spec_cubic_bezier(p0: Point, p1: Point, p2: Point, p3: Point, t: Fixed) -> Point {
    let p01 = p0.lerp(p1, t);
    let p12 = p1.lerp(p2, t);
    let p23 = p2.lerp(p3, t);
    p01.lerp(p12, t).lerp(p12.lerp(p23, t), t)
}

#[verifier::when_used_as_spec(spec_cubic_bezier)]
pub fn cubic_bezier(p0: Point, p1: Point, p2: Point, p3: Point, t: Fixed) -> (p: Point)
    ensures
        p == spec_cubic_bezier(p0, p1, p2, p3, t),
{
    let p01 = p0.lerp(p1, t);
    let p12 = p1.lerp(p2, t);
    let p23 = p2.lerp(p3, t);
    let p012 = p01.lerp(p12, t);
    let p123 = p12.lerp(p23, t);
    p012.lerp(p123, t)
}

/// The direction of the cubic curve at `t`, with a third of the length of
/// its derivative.
pub open spec fn spec_cubic_bezier_tangent(
    p0: Point,
    p1: Point,
    p2: Point,
    p3: Point,
    t: Fixed,
) -> Vector {
    let p01 = p0.lerp(p1, t);
    let p12 = p1.lerp(p2, t);
    let p23 = p2.lerp(p3, t);
    p12.lerp(p23, t).since(p01.lerp(p12, t))
}

#[verifier::when_used_as_spec(spec_cubic_bezier_tangent)]
pub fn cubic_bezier_tangent(p0: Point, p1: Point, p2: Point, p3: Point, t: Fixed) -> (v: Vector)
    ensures
        v == spec_cubic_bezier_tangent(p0, p1, p2, p3, t),
{
    let p01 = p0.lerp(p1, t);
    let p12 = p1.lerp(p2, t);
    let p23 = p2.lerp(p3, t);
    let p012 = p01.lerp(p12, t);
    let p123 = p12.lerp(p23, t);
    p123.since(p012)
}

/// The unit normal of the cubic curve at `t`; zero where the curve has no
/// direction.
pub open spec fn spec_cubic_bezier_normal(
    p0: Point,
    p1: Point,
    p2: Point,
    p3: Point,
    t: Fixed,
) -> Vector {
    spec_cubic_bezier_tangent(p0, p1, p2, p3, t).hat().normalize()
}

#[verifier::when_used_as_spec(spec_cubic_bezier_normal)]
pub fn cubic_bezier_normal(p0: Point, p1: Point, p2: Point, p3: Point, t: Fixed) -> (n: Vector)
    ensures
        n == spec_cubic_bezier_normal(p0, p1, p2, p3, t),
{
    cubic_bezier_tangent(p0, p1, p2, p3, t).hat().normalize()
}

/// The unit normal at `t` of the segment drawn from `p0`; a `Move` or a
/// `Close` has none.
pub open spec fn spec_segment_normal(segment: CurveSegment, p0: Point, t: Fixed) -> Option<Vector> {
    match segment {
        CurveSegment::Move(_) => None,
        CurveSegment::Line(p) => Some(spec_line_normal(p0, p)),
        CurveSegment::Quad(p1, p2) => Some(spec_quad_bezier_normal(p0, p1, p2, t)),
        CurveSegment::Cubic(p1, p2, p3) => Some(spec_cubic_bezier_normal(p0, p1, p2, p3, t)),
        CurveSegment::Close => None,
    }
}

#[verifier::when_used_as_spec(spec_segment_normal)]
pub fn segment_normal(segment: CurveSegment, p0: Point, t: Fixed) -> (n: Option<Vector>)
    ensures
        n == spec_segment_normal(segment, p0, t),
{
    match segment {
        CurveSegment::Move(_) => None,
        CurveSegment::Line(p) => Some(line_normal(p0, p)),
        CurveSegment::Quad(p1, p2) => Some(quad_bezier_normal(p0, p1, p2, t)),
        CurveSegment::Cubic(p1, p2, p3) => Some(cubic_bezier_normal(p0, p1, p2, p3, t)),
        CurveSegment::Close => None,
    }
}

/// A normal carried forward: `n` where it is defined, else the one before it.
pub open spec fn spec_carried(n: Vector, previous: Vector) -> Vector {
    if n.is_zero() {
        previous
    } else {
        n
    }
}

#[verifier::when_used_as_spec(spec_carried)]
pub fn carried(n: Vector, previous: Vector) -> (r: Vector)
    ensures
        r == spec_carried(n, previous),
{
    if n.x.is_zero() && n.y.is_zero() {
        previous
    } else {
        n
    }
}

/// The unit normals of the quadratic curve at its start, its middle and its
/// end. Where the curve has no direction the normal before it is carried
/// forward; the start, with none before it, takes the normal of the chord.
pub open spec fn spec_quad_normals(p0: Point, p1: Point, p2: Point) -> (Vector, Vector, Vector) {
    let n0 = spec_carried(
        spec_quad_bezier_normal(p0, p1, p2, Fixed { bits: 0 }),
        spec_line_normal(p0, p2),
    );
    let n1 = spec_carried(spec_quad_bezier_normal(p0, p1, p2, Fixed { bits: HALF }), n0);
    let n2 = spec_carried(spec_quad_bezier_normal(p0, p1, p2, Fixed { bits: ONE }), n1);
    (n0, n1, n2)
}

#[verifier::when_used_as_spec(spec_quad_normals)]
pub fn quad_normals(p0: Point, p1: Point, p2: Point) -> (n: (Vector, Vector, Vector))
    ensures
        n == spec_quad_normals(p0, p1, p2),
{
    let n0 = carried(quad_bezier_normal(p0, p1, p2, Fixed::zero()), line_normal(p0, p2));
    let n1 = carried(quad_bezier_normal(p0, p1, p2, Fixed::from_bits(HALF)), n0);
    let n2 = carried(quad_bezier_normal(p0, p1, p2, Fixed::one()), n1);
    (n0, n1, n2)
}

/// The unit normals of the cubic curve at its start, at one and two thirds,
/// and at its end, carried forward as those of a quadratic curve are; the
/// start falls back on the directions to the later points in turn.
pub open spec fn spec_cubic_normals(p0: Point, p1: Point, p2: Point, p3: Point) -> (
    Vector,
    Vector,
    Vector,
    Vector,
) {
    let n0 = spec_carried(
        spec_cubic_bezier_normal(p0, p1, p2, p3, Fixed { bits: 0 }),
        spec_carried(spec_line_normal(p0, p2), spec_line_normal(p0, p3)),
    );
    let n1 = spec_carried(spec_cubic_bezier_normal(p0, p1, p2, p3, Fixed { bits: THIRD }), n0);
    let n2 = spec_carried(spec_cubic_bezier_normal(p0, p1, p2, p3, Fixed { bits: TWO_THIRDS }), n1);
    let n3 = spec_carried(spec_cubic_bezier_normal(p0, p1, p2, p3, Fixed { bits: ONE }), n2);
    (n0, n1, n2, n3)
}

#[verifier::when_used_as_spec(spec_cubic_normals)]
pub fn cubic_normals(p0: Point, p1: Point, p2: Point, p3: Point) -> (n: (
    Vector,
    Vector,
    Vector,
    Vector,
))
    ensures
        n == spec_cubic_normals(p0, p1, p2, p3),
{
    let n0 = carried(
        cubic_bezier_normal(p0, p1, p2, p3, Fixed::zero()),
        carried(line_normal(p0, p2), line_normal(p0, p3)),
    );
    let n1 = carried(cubic_bezier_normal(p0, p1, p2, p3, Fixed::from_bits(THIRD)), n0);
    let n2 = carried(cubic_bezier_normal(p0, p1, p2, p3, Fixed::from_bits(TWO_THIRDS)), n1);
    let n3 = carried(cubic_bezier_normal(p0, p1, p2, p3, Fixed::one()), n2);
    (n0, n1, n2, n3)
}

/// The control point and the end point of the single quadratic segment that
/// stands for the offset of the curve: each point moved along the normal
/// sampled for it.
pub open spec fn quad_candidate(p0: Point, p1: Point, p2: Point, offset: Fixed) -> (Point, Point) {
    let n = spec_quad_normals(p0, p1, p2);
    (p1.plus(n.1.times(offset)), p2.plus(n.2.times(offset)))
}

/// The distance, at the middle of the curve, between the candidate and the
/// curve's own point moved along the start normal.
pub open spec fn quad_offset_error(p0: Point, p1: Point, p2: Point, offset: Fixed) -> Fixed {
    let n = spec_quad_normals(p0, p1, p2);
    let half = Fixed { bits: HALF };
    let op = quad_candidate(p0, p1, p2, offset);
    let real_center = spec_quad_bezier(p0, p1, p2, half).plus(n.0.times(offset));
    let center = spec_quad_bezier(p0.plus(n.0.times(offset)), op.0, op.1, half);
    center.since(real_center).length()
}

/// Whether the candidate is emitted at this depth rather than split.
pub open spec fn quad_accepted(
    p0: Point,
    p1: Point,
    p2: Point,
    offset: Fixed,
    depth: nat,
    max_depth: nat,
) -> bool {
    quad_offset_error(p0, p1, p2, offset).bits < MAX_ERROR || depth >= max_depth
}

/// The quadratic curve divided at `t`: the control point of the first part,
/// the point where the parts meet, the control point of the second part.
pub open spec fn spec_divide_quad_bezier(p0: Point, p1: Point, p2: Point, t: Fixed) -> (
    Point,
    Point,
    Point,
) {
    let p01 = p0.lerp(p1, t);
    let p12 = p1.lerp(p2, t);
    (p01, p01.lerp(p12, t), p12)
}

/// The segments that approximate the quadratic curve moved sideways by
/// `offset`.
pub open spec fn spec_offset_quad_bezier(
    p0: Point,
    p1: Point,
    p2: Point,
    offset: Fixed,
    depth: nat,
    max_depth: nat,
) -> Seq<CurveSegment>
    decreases max_depth - depth,
{
    if quad_accepted(p0, p1, p2, offset, depth, max_depth) {
        let op = quad_candidate(p0, p1, p2, offset);
        seq![CurveSegment::Quad(op.0, op.1)]
    } else {
        let d = spec_divide_quad_bezier(p0, p1, p2, Fixed { bits: HALF });
        spec_offset_quad_bezier(p0, d.0, d.1, offset, depth + 1, max_depth)
            + spec_offset_quad_bezier(d.1, d.2, p2, offset, depth + 1, max_depth)
    }
}

/// The control points and the end point of the single cubic segment that
/// stands for the offset of the curve.
pub open spec fn cubic_candidate(p0: Point, p1: Point, p2: Point, p3: Point, offset: Fixed) -> (
    Point,
    Point,
    Point,
) {
    let n = spec_cubic_normals(p0, p1, p2, p3);
    (p1.plus(n.1.times(offset)), p2.plus(n.2.times(offset)), p3.plus(n.3.times(offset)))
}

/// The distance, at a third of the curve, between the candidate and the
/// curve's own point moved along the start normal.
pub open spec fn cubic_offset_error(
    p0: Point,
    p1: Point,
    p2: Point,
    p3: Point,
    offset: Fixed,
) -> Fixed {
    let n = spec_cubic_normals(p0, p1, p2, p3);
    let third = Fixed { bits: THIRD };
    let op = cubic_candidate(p0, p1, p2, p3, offset);
    let real_center = spec_cubic_bezier(p0, p1, p2, p3, third).plus(n.0.times(offset));
    let center = spec_cubic_bezier(p0.plus(n.0.times(offset)), op.0, op.1, op.2, third);
    center.since(real_center).length()
}

/// Whether the candidate is emitted at this depth rather than split. The
/// error is held against the offset itself: below a negative offset lies no
/// error, and the curve is split down to the full depth.
pub open spec fn cubic_accepted(
    p0: Point,
    p1: Point,
    p2: Point,
    p3: Point,
    offset: Fixed,
    depth: nat,
    max_depth: nat,
) -> bool {
    cubic_offset_error(p0, p1, p2, p3, offset).bits < offset.times(Fixed { bits: MAX_ERROR }).bits
        || depth >= max_depth
}

/// The cubic curve divided at `t`: the two control points of the first part,
/// the point where the parts meet, the two control points of the second
/// part.
pub open spec fn spec_divide_cubic_bezier(p0: Point, p1: Point, p2: Point, p3: Point, t: Fixed) -> (
    Point,
    Point,
    Point,
    Point,
    Point,
) {
    let p01 = p0.lerp(p1, t);
    let p12 = p1.lerp(p2, t);
    let p23 = p2.lerp(p3, t);
    let p012 = p01.lerp(p12, t);
    let p123 = p12.lerp(p23, t);
    (p01, p012, p012.lerp(p123, t), p123, p23)
}

/// The segments that approximate the cubic curve moved sideways by `offset`.
pub open spec fn spec_offset_cubic_bezier(
    p0: Point,
    p1: Point,
    p2: Point,
    p3: Point,
    offset: Fixed,
    depth: nat,
    max_depth: nat,
) -> Seq<CurveSegment>
    decreases max_depth - depth,
{
    if cubic_accepted(p0, p1, p2, p3, offset, depth, max_depth) {
        let op = cubic_candidate(p0, p1, p2, p3, offset);
        seq![CurveSegment::Cubic(op.0, op.1, op.2)]
    } else {
        let d = spec_divide_cubic_bezier(p0, p1, p2, p3, Fixed { bits: THIRD });
        spec_offset_cubic_bezier(p0, d.0, d.1, d.2, offset, depth + 1, max_depth)
            + spec_offset_cubic_bezier(d.2, d.3, d.4, p3, offset, depth + 1, max_depth)
    }
}

impl Curve {
    /// Appends the line to `p1` moved sideways by `offset`.
    pub fn offset_line(&mut self, p0: Point, p1: Point, offset: Fixed)
        ensures
            final(self)@ == old(self)@.push(
                CurveSegment::Line(p1.plus(spec_line_normal(p0, p1).times(offset))),
            ),
    {
        let normal = line_normal(p0, p1);
        let offset = normal.times(offset);
        self.line_to(p1.plus(offset));
    }

    /// Divides a quadratic curve at `t`.
    pub fn divide_quad_bezier(p0: Point, p1: Point, p2: Point, t: Fixed) -> (d: (
        Point,
        Point,
        Point,
    ))
        ensures
            d == spec_divide_quad_bezier(p0, p1, p2, t),
    {
        let p01 = p0.lerp(p1, t);
        let p12 = p1.lerp(p2, t);
        let center = p01.lerp(p12, t);
        (p01, center, p12)
    }

    /// Appends the quadratic curve moved sideways by `offset`, split where a
    /// single segment would stray too far and `depth` is below `max_depth`.
    pub fn offset_quad_bezier(
        &mut self,
        p0: Point,
        p1: Point,
        p2: Point,
        offset: Fixed,
        depth: u8,
        max_depth: u8,
    )
        ensures
            final(self)@ == old(self)@ + spec_offset_quad_bezier(
                p0,
                p1,
                p2,
                offset,
                depth as nat,
                max_depth as nat,
            ),
        decreases max_depth - depth,
    {
        let (n0, n1, n2) = quad_normals(p0, p1, p2);
        let half = Fixed::from_bits(HALF);
        let op0 = p0.plus(n0.times(offset));
        let op1 = p1.plus(n1.times(offset));
        let op2 = p2.plus(n2.times(offset));
        let real_center = quad_bezier(p0, p1, p2, half).plus(n0.times(offset));
        let center = quad_bezier(op0, op1, op2, half);
        let error = center.since(real_center).length();
        if error.bits < MAX_ERROR || depth >= max_depth {
            self.quad_to(op1, op2);
            proof {
                assert(old(self)@.push(CurveSegment::Quad(op1, op2)) =~= old(self)@
                    + seq![CurveSegment::Quad(op1, op2)]);
            }
            return ;
        }
        let (p01, center, p12) = Curve::divide_quad_bezier(p0, p1, p2, half);
        self.offset_quad_bezier(p0, p01, center, offset, depth + 1, max_depth);
        self.offset_quad_bezier(center, p12, p2, offset, depth + 1, max_depth);
        proof {
            let a = spec_offset_quad_bezier(
                p0,
                p01,
                center,
                offset,
                (depth + 1) as nat,
                max_depth as nat,
            );
            let b = spec_offset_quad_bezier(
                center,
                p12,
                p2,
                offset,
                (depth + 1) as nat,
                max_depth as nat,
            );
            assert((old(self)@ + a) + b =~= old(self)@ + (a + b));
        }
    }

    /// Divides a cubic curve at `t`.
    pub fn divide_cubic_bezier(p0: Point, p1: Point, p2: Point, p3: Point, t: Fixed) -> (d: (
        Point,
        Point,
        Point,
        Point,
        Point,
    ))
        ensures
            d == spec_divide_cubic_bezier(p0, p1, p2, p3, t),
    {
        let p01 = p0.lerp(p1, t);
        let p12 = p1.lerp(p2, t);
        let p23 = p2.lerp(p3, t);
        let p012 = p01.lerp(p12, t);
        let p123 = p12.lerp(p23, t);
        let center = p012.lerp(p123, t);
        (p01, p012, center, p123, p23)
    }

    /// Appends the cubic curve moved sideways by `offset`, split where a
    /// single segment would stray too far and `depth` is below `max_depth`.
    pub fn offset_cubic_bezier(
        &mut self,
        p0: Point,
        p1: Point,
        p2: Point,
        p3: Point,
        offset: Fixed,
        depth: u8,
        max_depth: u8,
    )
        ensures
            final(self)@ == old(self)@ + spec_offset_cubic_bezier(
                p0,
                p1,
                p2,
                p3,
                offset,
                depth as nat,
                max_depth as nat,
            ),
        decreases max_depth - depth,
    {
        let (n0, n1, n2, n3) = cubic_normals(p0, p1, p2, p3);
        let third = Fixed::from_bits(THIRD);
        let op0 = p0.plus(n0.times(offset));
        let op1 = p1.plus(n1.times(offset));
        let op2 = p2.plus(n2.times(offset));
        let op3 = p3.plus(n3.times(offset));
        let real_center = cubic_bezier(p0, p1, p2, p3, third).plus(n0.times(offset));
        let center = cubic_bezier(op0, op1, op2, op3, third);
        let error = center.since(real_center).length();
        if error.bits < offset.times(Fixed::from_bits(MAX_ERROR)).bits || depth >= max_depth {
            self.cubic_to(op1, op2, op3);
            proof {
                assert(old(self)@.push(CurveSegment::Cubic(op1, op2, op3)) =~= old(self)@
                    + seq![CurveSegment::Cubic(op1, op2, op3)]);
            }
            return ;
        }
        let (p01, p012, center, p123, p23) = Curve::divide_cubic_bezier(p0, p1, p2, p3, third);
        self.offset_cubic_bezier(p0, p01, p012, center, offset, depth + 1, max_depth);
        self.offset_cubic_bezier(center, p123, p23, p3, offset, depth + 1, max_depth);
        proof {
            let a = spec_offset_cubic_bezier(
                p0,
                p01,
                p012,
                center,
                offset,
                (depth + 1) as nat,
                max_depth as nat,
            );
            let b = spec_offset_cubic_bezier(
                center,
                p123,
                p23,
                p3,
                offset,
                (depth + 1) as nat,
                max_depth as nat,
            );
            assert((old(self)@ + a) + b =~= old(self)@ + (a + b));
        }
    }
}

/// The cap at the end point `p` of an open subpath, drawn from `p - n * r`
/// to `p + n * r` and bulging along `t`, where `r` is half the width.
pub open spec fn cap_segments(p: Point, n: Vector, t: Vector, stroke: Stroke) -> Seq<CurveSegment> {
    let r = stroke.spec_radius();
    let p0 = p.minus(n.times(r));
    let p1 = p.plus(n.times(r));
    match stroke.cap {
        LineCap::Butt => seq![CurveSegment::Line(p1)],
        LineCap::Round => {
            let along = t.times(r).times(Fixed { bits: CAP_HANDLE });
            let across = n.times(r).times(Fixed { bits: CAP_HANDLE });
            let c = p.plus(t.times(r));
            seq![
                CurveSegment::Cubic(p0.plus(along), c.minus(across), c),
                CurveSegment::Cubic(c.plus(across), p1.plus(along), p1),
            ]
        },
        LineCap::Square => {
            let along = t.times(r);
            seq![
                CurveSegment::Line(p0.plus(along)),
                CurveSegment::Line(p1.plus(along)),
                CurveSegment::Line(p1),
            ]
        },
    }
}

/// Whether the corner from `n0` to `n1` turns toward the side that the
/// radius `r` offsets to: the inner side, where the offsets overlap.
pub open spec fn inner_turn(n0: Vector, n1: Vector, r: Fixed) -> bool {
    n0.cross(n1).times(r).bits > 0
}

/// The bevel join: a straight edge to the start of the next offset.
pub open spec fn bevel_segments(pivot: Point, n1: Vector, r: Fixed) -> Seq<CurveSegment> {
    seq![CurveSegment::Line(pivot.plus(n1.times(r)))]
}

/// The unit vector along the bisector of the corner.
pub open spec fn miter_direction(n0: Vector, n1: Vector) -> Vector {
    n0.plus(n1).normalize()
}

/// The cosine of half the turn; the miter's length is the radius over it.
pub open spec fn miter_amount(n0: Vector, n1: Vector) -> Fixed {
    miter_direction(n0, n1).dot(n1)
}

/// Whether the miter of the corner is as long as the limit allows, or longer.
pub open spec fn miter_exceeds(n0: Vector, n1: Vector, limit: Fixed) -> bool {
    Fixed { bits: ONE }.over(miter_amount(n0, n1)).bits >= limit.bits
}

/// The miter join: an edge to the apex and one to the start of the next
/// offset, or the bevel where the miter would be too long.
pub open spec fn miter_segments(pivot: Point, n0: Vector, n1: Vector, r: Fixed, limit: Fixed) -> Seq<
    CurveSegment,
> {
    if miter_exceeds(n0, n1, limit) {
        bevel_segments(pivot, n1, r)
    } else {
        let apex = pivot.plus(miter_direction(n0, n1).times(r).over(miter_amount(n0, n1)));
        seq![CurveSegment::Line(apex), CurveSegment::Line(pivot.plus(n1.times(r)))]
    }
}

/// The point in the middle of the round join.
pub open spec fn round_mid(pivot: Point, n0: Vector, n1: Vector, r: Fixed) -> Point {
    pivot.plus(n0.plus(n1).normalize().times(r))
}

/// The weight of each of the two conics of the round join: the cosine of
/// half the angle that the conic spans.
pub open spec fn round_weight(n0: Vector, n1: Vector) -> Fixed {
    let nmid = n0.plus(n1).normalize();
    Fixed { bits: ONE }.plus(n0.dot(nmid)).times(Fixed { bits: HALF }).sqrt()
}

/// The control point of the conic of the round join on the side of the
/// normal `n`.
pub open spec fn round_control(pivot: Point, n0: Vector, n1: Vector, n: Vector, r: Fixed) -> Point {
    let nmid = n0.plus(n1).normalize();
    let inverse = Fixed { bits: ONE }.over(round_weight(n0, n1));
    pivot.plus(n.plus(nmid).normalize().times(r).times(inverse))
}

/// The round join, drawn from `start`: two conics about the pivot, from
/// `n0` to the middle and from the middle to `n1`. Where nothing was drawn
/// before it the first control point stands for `start`.
pub open spec fn round_segments(
    start: Option<Point>,
    pivot: Point,
    n0: Vector,
    n1: Vector,
    r: Fixed,
) -> Seq<CurveSegment> {
    let c0 = round_control(pivot, n0, n1, n0, r);
    let c1 = round_control(pivot, n0, n1, n1, r);
    let mid = round_mid(pivot, n0, n1, r);
    let w = round_weight(n0, n1);
    seq![
        conic_cubic(
            match start {
                Some(s) => s,
                None => c0,
            },
            c0,
            mid,
            w,
        ),
        conic_cubic(mid, c1, pivot.plus(n1.times(r)), w),
    ]
}

/// The join at `pivot` between an offset that ends along the normal `n0`
/// and one that starts along `n1`, both at the signed distance `r`.
pub open spec fn join_segments(
    start: Option<Point>,
    pivot: Point,
    n0: Vector,
    n1: Vector,
    r: Fixed,
    join: LineJoin,
    miter_limit: Fixed,
) -> Seq<CurveSegment> {
    if inner_turn(n0, n1, r) {
        seq![CurveSegment::Line(pivot.plus(n1.times(r)))]
    } else {
        match join {
            LineJoin::Miter => miter_segments(pivot, n0, n1, r, miter_limit),
            LineJoin::Round => round_segments(start, pivot, n0, n1, r),
            LineJoin::Bevel => bevel_segments(pivot, n1, r),
        }
    }
}

impl Curve {
    /// Appends the cap at `p` with the normal `n` and the outward direction
    /// `t`.
    pub fn stroke_line_cap(&mut self, p: Point, n: Vector, t: Vector, stroke: Stroke)
        ensures
            final(self)@ == old(self)@ + cap_segments(p, n, t, stroke),
    {
        let r = stroke.radius();
        match stroke.cap {
            LineCap::Butt => {
                self.line_to(p.plus(n.times(r)));
            },
            LineCap::Round => {
                let p0 = p.minus(n.times(r));
                let p1 = p.plus(n.times(r));
                let along = t.times(r).times(Fixed::from_bits(CAP_HANDLE));
                let across = n.times(r).times(Fixed::from_bits(CAP_HANDLE));
                let c = p.plus(t.times(r));
                self.cubic_to(p0.plus(along), c.minus(across), c);
                self.cubic_to(c.plus(across), p1.plus(along), p1);
            },
            LineCap::Square => {
                let p0 = p.minus(n.times(r));
                let p1 = p.plus(n.times(r));
                let along = t.times(r);
                self.line_to(p0.plus(along));
                self.line_to(p1.plus(along));
                self.line_to(p1);
            },
        }
        proof {
            assert(self@ =~= old(self)@ + cap_segments(p, n, t, stroke));
        }
    }

    /// Appends the join at `pivot` from the normal `n0` to the normal `n1`.
    pub fn stroke_join(
        &mut self,
        pivot: Point,
        n0: Vector,
        n1: Vector,
        r: Fixed,
        join: LineJoin,
        miter_limit: Fixed,
    )
        ensures
            final(self)@ == old(self)@ + join_segments(
                last_point(old(self)@),
                pivot,
                n0,
                n1,
                r,
                join,
                miter_limit,
            ),
    {
        if n0.cross(n1).times(r).bits > 0 {
            self.line_to(pivot.plus(n1.times(r)));
            proof {
                assert(self@ =~= old(self)@ + seq![CurveSegment::Line(pivot.plus(n1.times(r)))]);
            }
            return ;
        }
        match join {
            LineJoin::Miter => self.stroke_miter(pivot, n0, n1, r, miter_limit),
            LineJoin::Round => self.stroke_round(pivot, n0, n1, r),
            LineJoin::Bevel => self.stroke_bevel(pivot, n1, r),
        }
    }

    /// Appends the miter join, or the bevel where the miter would be as long
    /// as `limit` times the radius, or longer.
    pub fn stroke_miter(&mut self, pivot: Point, n0: Vector, n1: Vector, r: Fixed, limit: Fixed)
        ensures
            final(self)@ == old(self)@ + miter_segments(pivot, n0, n1, r, limit),
    {
        let miter = n0.plus(n1);
        let miter = miter.normalize();
        let amount = miter.dot(n1);
        if Fixed::one().over(amount).bits >= limit.bits {
            self.stroke_bevel(pivot, n1, r);
            return ;
        }
        let miter = miter.times(r).over(amount);
        let p1 = pivot.plus(n1.times(r));
        let m = pivot.plus(miter);
        self.line_to(m);
        self.line_to(p1);
        proof {
            assert(self@ =~= old(self)@ + miter_segments(pivot, n0, n1, r, limit));
        }
    }

    /// Appends the round join.
    pub fn stroke_round(&mut self, pivot: Point, n0: Vector, n1: Vector, r: Fixed)
        ensures
            final(self)@ == old(self)@ + round_segments(last_point(old(self)@), pivot, n0, n1, r),
    {
        let p1 = pivot.plus(n1.times(r));
        let nmid = n0.plus(n1).normalize();
        let mid = pivot.plus(nmid.times(r));
        let dot = n0.dot(nmid);
        let cos_theta_over_2 = Fixed::one().plus(dot).times(Fixed::from_bits(HALF)).sqrt();
        let inv_cos_theta_over_2 = Fixed::one().over(cos_theta_over_2);
        let c0 = pivot.plus(n0.plus(nmid).normalize().times(r).times(inv_cos_theta_over_2));
        let c1 = pivot.plus(n1.plus(nmid).normalize().times(r).times(inv_cos_theta_over_2));
        self.conic_to(c0, mid, cos_theta_over_2);
        proof {
            assert(last_point(self@) == Some(mid));
        }
        self.conic_to(c1, p1, cos_theta_over_2);
        proof {
            assert(self@ =~= old(self)@ + round_segments(last_point(old(self)@), pivot, n0, n1, r));
        }
    }

    /// Appends the bevel join.
    pub fn stroke_bevel(&mut self, pivot: Point, n1: Vector, r: Fixed)
        ensures
            final(self)@ == old(self)@ + bevel_segments(pivot, n1, r),
    {
        let p1 = pivot.plus(n1.times(r));
        self.line_to(p1);
        proof {
            assert(self@ =~= old(self)@ + bevel_segments(pivot, n1, r));
        }
    }
}

/// What the scan of a path carries from one segment to the next.
#[derive(Clone, Copy, Debug, PartialEq, Eq)]
pub struct Walk {
    /// The point where the last segment ended.
    pub position: Point,
    /// The normal at the end of the last edge; none at the start of a subpath.
    pub normal: Option<Vector>,
    /// The start of the first edge of the subpath, with the normal there.
    pub anchor: Option<(Point, Vector)>,
}

/// The scan together with what it has emitted: the outline, which holds
/// the finished contours and the side of the current subpath at the
/// distance of the radius, and the opposite side of the current subpath.
pub struct Trace {
    pub walk: Walk,
    pub out: Seq<CurveSegment>,
    pub outside: Seq<CurveSegment>,
}

/// Where a scan starts: between subpaths, with nothing drawn. The position
/// stands at the origin until the first `Move` sets it; in a well-formed
/// path no edge is drawn before that.
pub open spec fn trace_start(init: Seq<CurveSegment>) -> Trace {
    Trace {
        walk: Walk {
            position: Point { x: Fixed { bits: 0 }, y: Fixed { bits: 0 } },
            normal: None,
            anchor: None,
        },
        out: init,
        outside: Seq::empty(),
    }
}

/// Both sides brought to the start of an edge whose normal there is `n1`:
/// by a join where an edge came before, else by starting the two sides and
/// recording the anchor.
pub open spec fn spec_enter_segment(t: Trace, n1: Vector, stroke: Stroke) -> Trace {
    let r = stroke.spec_radius();
    let p0 = t.walk.position;
    match t.walk.normal {
        Some(n0) => Trace {
            walk: t.walk,
            out: t.out + join_segments(
                last_point(t.out),
                p0,
                n0,
                n1,
                r,
                stroke.join,
                stroke.miter,
            ),
            outside: t.outside + join_segments(
                last_point(t.outside),
                p0,
                n0,
                n1,
                r.neg(),
                stroke.join,
                stroke.miter,
            ),
        },
        None => Trace {
            walk: Walk { position: p0, normal: None, anchor: Some((p0, n1)) },
            out: t.out.push(CurveSegment::Move(p0.plus(n1.times(r)))),
            outside: t.outside.push(CurveSegment::Move(p0.minus(n1.times(r)))),
        },
    }
}

/// The way from where the far side began to where it ended: a straight
/// edge to its last point.
pub open spec fn far_return(outside: Seq<CurveSegment>) -> Seq<CurveSegment> {
    match last_point(outside) {
        Some(end) => seq![CurveSegment::Line(end)],
        None => Seq::empty(),
    }
}

/// The contour of the far side of a closed subpath, which began at `home`:
/// from there straight to where the far side ended, then back along the far
/// side, edge by edge, to where it began. It names every point of the far
/// side, last to first, and so winds against the near side.
pub open spec fn far_contour(outside: Seq<CurveSegment>, home: Point) -> Seq<CurveSegment> {
    seq![CurveSegment::Move(home)] + far_return(outside) + reversed(outside)
        + seq![CurveSegment::Close]
}

/// The subpath closed: the near side is closed as a contour of its own,
/// and the far side as a second one that winds the other way. Each of the
/// two is closed by a straight edge from where the side ended to where it
/// began; no join is made there. A subpath without an edge gives nothing.
pub open spec fn spec_close_contour(t: Trace, stroke: Stroke) -> Trace {
    let r = stroke.spec_radius();
    let walk = Walk { position: t.walk.position, normal: None, anchor: None };
    match t.walk.normal {
        Some(n) => {
            let (pf, nf) = match t.walk.anchor {
                Some(a) => a,
                None => (t.walk.position, n),
            };
            Trace {
                walk,
                out: t.out.push(CurveSegment::Close) + far_contour(
                    t.outside,
                    pf.minus(nf.times(r)),
                ),
                outside: Seq::empty(),
            }
        },
        None => Trace { walk, out: t.out, outside: t.outside },
    }
}

/// The open subpath finished: a cap at its end, the far side traced
/// backwards, a cap at its start, and the contour closed. A subpath without
/// an edge gives nothing.
pub open spec fn spec_finish_open(t: Trace, stroke: Stroke) -> Trace {
    match t.walk.normal {
        Some(n) => {
            let (pf, nf) = match t.walk.anchor {
                Some(a) => a,
                None => (t.walk.position, n),
            };
            Trace {
                walk: Walk { position: t.walk.position, normal: None, anchor: None },
                out: t.out + cap_segments(t.walk.position, n.neg(), n.hat().neg(), stroke)
                    + reversed(t.outside) + cap_segments(pf, nf, nf.hat(), stroke)
                    + seq![CurveSegment::Close],
                outside: Seq::empty(),
            }
        },
        None => t,
    }
}

/// The scan after one more segment. An edge without a direction at its
/// start has no length: it is passed over, and the scan stays as it was.
pub open spec fn spec_stroke_segment(
    t: Trace,
    segment: CurveSegment,
    stroke: Stroke,
    max_depth: nat,
) -> Trace {
    let r = stroke.spec_radius();
    let p0 = t.walk.position;
    match segment {
        CurveSegment::Move(p) => Trace {
            walk: Walk { position: p, normal: None, anchor: None },
            out: t.out,
            outside: t.outside,
        },
        CurveSegment::Line(p1) => {
            let n1 = spec_line_normal(p0, p1);
            if n1.is_zero() {
                t
            } else {
                let e = spec_enter_segment(t, n1, stroke);
                Trace {
                    walk: Walk { position: p1, normal: Some(n1), anchor: e.walk.anchor },
                    out: e.out.push(CurveSegment::Line(p1.plus(n1.times(r)))),
                    outside: e.outside.push(CurveSegment::Line(p1.plus(n1.times(r.neg())))),
                }
            }
        },
        CurveSegment::Quad(p1, p2) => {
            let n = spec_quad_normals(p0, p1, p2);
            if n.0.is_zero() {
                t
            } else {
                let e = spec_enter_segment(t, n.0, stroke);
                Trace {
                    walk: Walk { position: p2, normal: Some(n.2), anchor: e.walk.anchor },
                    out: e.out + spec_offset_quad_bezier(p0, p1, p2, r, 0, max_depth),
                    outside: e.outside + spec_offset_quad_bezier(
                        p0,
                        p1,
                        p2,
                        r.neg(),
                        0,
                        max_depth,
                    ),
                }
            }
        },
        CurveSegment::Cubic(p1, p2, p3) => {
            let n = spec_cubic_normals(p0, p1, p2, p3);
            if n.0.is_zero() {
                t
            } else {
                let e = spec_enter_segment(t, n.0, stroke);
                Trace {
                    walk: Walk { position: p3, normal: Some(n.3), anchor: e.walk.anchor },
                    out: e.out + spec_offset_cubic_bezier(p0, p1, p2, p3, r, 0, max_depth),
                    outside: e.outside + spec_offset_cubic_bezier(
                        p0,
                        p1,
                        p2,
                        p3,
                        r.neg(),
                        0,
                        max_depth,
                    ),
                }
            }
        },
        CurveSegment::Close => spec_close_contour(t, stroke),
    }
}

/// The scan after the first `i` segments of `path`, started on the outline
/// `init`. An open subpath is finished after its last segment: the one
/// before a `Move`, or the last of the path.
pub open spec fn scan(
    path: Seq<CurveSegment>,
    i: nat,
    stroke: Stroke,
    max_depth: nat,
    init: Seq<CurveSegment>,
) -> Trace
    decreases i,
{
    if i == 0 {
        trace_start(init)
    } else {
        let t = spec_stroke_segment(
            scan(path, (i - 1) as nat, stroke, max_depth, init),
            path[i - 1],
            stroke,
            max_depth,
        );
        if i >= path.len() || path[i as int] is Move {
            spec_finish_open(t, stroke)
        } else {
            t
        }
    }
}

/// The outline of the stroke along `path`.
pub open spec fn stroke_outline(path: Seq<CurveSegment>, stroke: Stroke, max_depth: nat) -> Seq<
    CurveSegment,
> {
    scan(path, path.len(), stroke, max_depth, Seq::empty()).out
}

/// Why a path has no stroke.
#[derive(Clone, Copy, Debug, PartialEq, Eq, Structural)]
pub enum StrokeError {
    /// A segment other than a `Move` stands where no subpath is open.
    MalformedPath,
}

impl Curve {
    /// Brings both sides to the start of an edge whose normal there is `n1`.
    pub fn enter_segment(&mut self, outside: &mut Curve, walk: Walk, n1: Vector, stroke: Stroke) -> (w:
        Walk)
        ensures
            (Trace { walk: w, out: final(self)@, outside: final(outside)@ }) == spec_enter_segment(
                Trace { walk, out: old(self)@, outside: old(outside)@ },
                n1,
                stroke,
            ),
    {
        let r = stroke.radius();
        let p0 = walk.position;
        match walk.normal {
            Some(n0) => {
                self.stroke_join(p0, n0, n1, r, stroke.join, stroke.miter);
                outside.stroke_join(p0, n0, n1, r.neg(), stroke.join, stroke.miter);
                walk
            },
            None => {
                self.move_to(p0.plus(n1.times(r)));
                outside.move_to(p0.minus(n1.times(r)));
                Walk { position: p0, normal: None, anchor: Some((p0, n1)) }
            },
        }
    }

    /// Closes the subpath that the scan is in.
    pub fn close_contour(&mut self, outside: &mut Curve, walk: Walk, stroke: Stroke) -> (w: Walk)
        ensures
            (Trace { walk: w, out: final(self)@, outside: final(outside)@ }) == spec_close_contour(
                Trace { walk, out: old(self)@, outside: old(outside)@ },
                stroke,
            ),
    {
        let r = stroke.radius();
        match walk.normal {
            Some(n) => {
                let (pf, nf) = match walk.anchor {
                    Some(a) => a,
                    None => (walk.position, n),
                };
                let home = pf.minus(nf.times(r));
                self.close();
                let ghost closed = self@;
                self.move_to(home);
                match outside.last_point() {
                    Some(end) => {
                        self.line_to(end);
                    },
                    None => {},
                }
                let ghost returned = self@;
                self.append_reverse(outside);
                self.close();
                proof {
                    assert(returned =~= closed + (seq![CurveSegment::Move(home)] + far_return(
                        old(outside)@,
                    )));
                    assert(self@ =~= closed + far_contour(old(outside)@, home));
                }
                outside.clear();
            },
            None => {},
        }
        Walk { position: walk.position, normal: None, anchor: None }
    }

    /// Finishes the open subpath that the scan is in.
    pub fn finish_open(&mut self, outside: &mut Curve, walk: Walk, stroke: Stroke) -> (w: Walk)
        ensures
            (Trace { walk: w, out: final(self)@, outside: final(outside)@ }) == spec_finish_open(
                Trace { walk, out: old(self)@, outside: old(outside)@ },
                stroke,
            ),
    {
        match walk.normal {
            Some(n) => {
                let (pf, nf) = match walk.anchor {
                    Some(a) => a,
                    None => (walk.position, n),
                };
                self.stroke_line_cap(walk.position, n.neg(), n.hat().neg(), stroke);
                self.append_reverse(outside);
                self.stroke_line_cap(pf, nf, nf.hat(), stroke);
                let ghost capped = self@;
                self.close();
                proof {
                    assert(self@ =~= capped + seq![CurveSegment::Close]);
                }
                outside.clear();
                Walk { position: walk.position, normal: None, anchor: None }
            },
            None => walk,
        }
    }

    /// Takes the scan over one more segment.
    pub fn stroke_segment(
        &mut self,
        outside: &mut Curve,
        walk: Walk,
        segment: CurveSegment,
        stroke: Stroke,
        max_depth: u8,
    ) -> (w: Walk)
        ensures
            (Trace { walk: w, out: final(self)@, outside: final(outside)@ }) == spec_stroke_segment(
                Trace { walk, out: old(self)@, outside: old(outside)@ },
                segment,
                stroke,
                max_depth as nat,
            ),
    {
        let r = stroke.radius();
        let p0 = walk.position;
        match segment {
            CurveSegment::Move(p) => Walk { position: p, normal: None, anchor: None },
            CurveSegment::Line(p1) => {
                let n1 = line_normal(p0, p1);
                if n1.x.is_zero() && n1.y.is_zero() {
                    return walk;
                }
                let e = self.enter_segment(outside, walk, n1, stroke);
                self.offset_line(p0, p1, r);
                outside.offset_line(p0, p1, r.neg());
                Walk { position: p1, normal: Some(n1), anchor: e.anchor }
            },
            CurveSegment::Quad(p1, p2) => {
                let n = quad_normals(p0, p1, p2);
                if n.0.x.is_zero() && n.0.y.is_zero() {
                    return walk;
                }
                let e = self.enter_segment(outside, walk, n.0, stroke);
                self.offset_quad_bezier(p0, p1, p2, r, 0, max_depth);
                outside.offset_quad_bezier(p0, p1, p2, r.neg(), 0, max_depth);
                Walk { position: p2, normal: Some(n.2), anchor: e.anchor }
            },
            CurveSegment::Cubic(p1, p2, p3) => {
                let n = cubic_normals(p0, p1, p2, p3);
                if n.0.x.is_zero() && n.0.y.is_zero() {
                    return walk;
                }
                let e = self.enter_segment(outside, walk, n.0, stroke);
                self.offset_cubic_bezier(p0, p1, p2, p3, r, 0, max_depth);
                outside.offset_cubic_bezier(p0, p1, p2, p3, r.neg(), 0, max_depth);
                Walk { position: p3, normal: Some(n.3), anchor: e.anchor }
            },
            CurveSegment::Close => self.close_contour(outside, walk, stroke),
        }
    }

    /// Appends the outline of the stroke along `curve`. A path that is not
    /// well formed has no outline: the error says so, and nothing is
    /// appended.
    pub fn stroke_impl(&mut self, curve: &Curve, stroke: Stroke, max_depth: u8) -> (r: Result<
        (),
        StrokeError,
    >)
        ensures
            well_formed(curve@) ==> r is Ok && final(self)@ == scan(
                curve@,
                curve@.len(),
                stroke,
                max_depth as nat,
                old(self)@,
            ).out,
            !well_formed(curve@) ==> r == Err::<(), StrokeError>(StrokeError::MalformedPath)
                && final(self)@ == old(self)@,
            r is Ok && closed_contours(old(self)@) ==> closed_contours(final(self)@),
    {
        if !curve.is_well_formed() {
            return Err(StrokeError::MalformedPath);
        }
        let mut walk = Walk { position: Point::zero(), normal: None, anchor: None };
        let mut outside = Curve::new();
        let n = curve.len();
        let mut i: usize = 0;
        while i < n
            invariant
                i <= n == curve@.len(),
                (Trace { walk, out: self@, outside: outside@ }) == scan(
                    curve@,
                    i as nat,
                    stroke,
                    max_depth as nat,
                    old(self)@,
                ),
            decreases n - i,
        {
            let segment = curve.segments[i];
            walk = self.stroke_segment(&mut outside, walk, segment, stroke, max_depth);
            let last = if i + 1 < n {
                matches!(curve.segments[i + 1], CurveSegment::Move(_))
            } else {
                true
            };
            if last {
                walk = self.finish_open(&mut outside, walk, stroke);
            }
            i += 1;
        }
        proof {
            if closed_contours(old(self)@) {
                lemma_scan_in_order(curve@, curve@.len(), stroke, max_depth as nat, old(self)@);
            }
        }
        Ok(())
    }

    /// The outline of the stroke along this path, with curves split down to
    /// `max_depth` at most; the error for a path that is not well formed.
    /// Every contour of the outline is closed, and the last comes back to
    /// where it began before it is closed.
    pub fn stroke_with_depth(&self, stroke: Stroke, max_depth: u8) -> (r: Result<
        Curve,
        StrokeError,
    >)
        ensures
            well_formed(self@) ==> r is Ok && r->Ok_0@ == stroke_outline(
                self@,
                stroke,
                max_depth as nat,
            ),
            !well_formed(self@) ==> r == Err::<Curve, StrokeError>(StrokeError::MalformedPath),
            r is Ok ==> closed_contours(r->Ok_0@),
            r is Ok ==> r->Ok_0@.len() == 0 || returns_home(r->Ok_0@),
    {
        let mut outline = Curve::new();
        proof {
            lemma_outline_returns(self@, stroke, max_depth as nat);
        }
        match outline.stroke_impl(self, stroke, max_depth) {
            Ok(()) => Ok(outline),
            Err(e) => Err(e),
        }
    }

    /// The outline of the stroke along this path; the error for a path that
    /// is not well formed.
    pub fn stroke(&self, stroke: Stroke) -> (r: Result<Curve, StrokeError>)
        ensures
            well_formed(self@) ==> r is Ok && r->Ok_0@ == stroke_outline(
                self@,
                stroke,
                MAX_DEPTH as nat,
            ),
            !well_formed(self@) ==> r == Err::<Curve, StrokeError>(StrokeError::MalformedPath),
            r is Ok ==> closed_contours(r->Ok_0@),
            r is Ok ==> r->Ok_0@.len() == 0 || returns_home(r->Ok_0@),
    {
        self.stroke_with_depth(stroke, MAX_DEPTH)
    }
}

} // verus!
