//! The outline of a closed subpath, worked out for a rectangle with its
//! edges along the axes.

use vstd::prelude::*;
use crate::canvas::canvas::FillRule;
use crate::canvas::curve::{
    CurveSegment, closing_winding, edge_winding, inside, orientation, tally, tally_segment,
    winding_number,
};
use crate::canvas::canvas::rect_outline;
use crate::canvas::curve::last_point;
use crate::canvas::outline::{lemma_far_contour_traces, side_from};
use crate::canvas::stroke::{
    LineJoin, Stroke, Trace, Walk, bevel_segments, far_contour, inner_turn, join_segments, scan,
    spec_close_contour, spec_enter_segment, spec_finish_open, spec_line_normal,
    spec_stroke_segment, stroke_outline, trace_start,
};
use crate::layout::fixed::{Fixed, LIMIT, ONE, lemma_isqrt_unique, trunc_quot};
use crate::layout::rect::Rect;
use crate::layout::vector::{Point, Vector, hypot, norm_scale, unit_component};

verus! {

/// The point with the given bit patterns for coordinates.
pub open spec fn at(x: int, y: int) -> Point {
    Point { x: Fixed { bits: x as i64 }, y: Fixed { bits: y as i64 } }
}

/// Whether a bit pattern lies in the inner half of the range, where the
/// difference of two coordinates is exact.
pub open spec fn half_range(v: int) -> bool {
    -(LIMIT / 2) <= v <= LIMIT / 2
}

/// What an edge between two points adds to the winding number about a
/// third, told in the bit patterns of their coordinates.
pub open spec fn crossing(ax: int, ay: int, bx: int, by: int, qx: int, qy: int) -> int {
    let o = (ax - qx) * (by - qy) - (ay - qy) * (bx - qx);
    if ay - qy <= 0 && by - qy > 0 && o > 0 {
        1
    } else if ay - qy > 0 && by - qy <= 0 && o < 0 {
        -1
    } else {
        0
    }
}

/// The winding of an edge is the crossing of its coordinates.
pub proof fn lemma_edge_crossing(ax: int, ay: int, bx: int, by: int, qx: int, qy: int)
    requires
        half_range(ax),
        half_range(ay),
        half_range(bx),
        half_range(by),
        half_range(qx),
        half_range(qy),
    ensures
        edge_winding(at(ax, ay), at(bx, by), at(qx, qy)) == crossing(ax, ay, bx, by, qx, qy),
{
    reveal(Fixed::spec_minus);
    let a = at(ax, ay);
    let b = at(bx, by);
    let q = at(qx, qy);
    assert(orientation(a, b, q) == (ax - qx) * (by - qy) - (ay - qy) * (bx - qx));
}

/// An edge along the x axis crosses no ray along the x axis.
pub proof fn lemma_crossing_level(ax: int, bx: int, y: int, qx: int, qy: int)
    ensures
        crossing(ax, y, bx, y, qx, qy) == 0,
{
}

/// An edge along the y axis is crossed by the ray from the points to its
/// left at its height, upwards or downwards as the edge runs.
pub proof fn lemma_crossing_upright(x: int, ay: int, by: int, qx: int, qy: int)
    ensures
        crossing(x, ay, x, by, qx, qy) == if ay <= qy < by && qx < x {
            1int
        } else if by <= qy < ay && qx < x {
            -1int
        } else {
            0int
        },
{
    let o = (x - qx) * (by - qy) - (ay - qy) * (x - qx);
    assert(o == (x - qx) * (by - ay)) by (nonlinear_arith)
        requires
            o == (x - qx) * (by - qy) - (ay - qy) * (x - qx),
    ;
    assert((by - ay > 0 && x - qx > 0 ==> o > 0) && (by - ay > 0 && x - qx <= 0 ==> o <= 0) && (by
        - ay < 0 && x - qx > 0 ==> o < 0) && (by - ay < 0 && x - qx <= 0 ==> o >= 0))
        by (nonlinear_arith)
        requires
            o == (x - qx) * (by - ay),
    ;
}

/// An edge that runs down by `r` and along x by `dx`, which is `r` or its
/// negative, is crossed downwards by the ray from the points to its left
/// at its height.
pub proof fn lemma_crossing_slant_down(ax: int, ay: int, dx: int, r: int, qx: int, qy: int)
    requires
        r > 0,
        dx == r || dx == -r,
    ensures
        crossing(ax, ay, ax + dx, ay - r, qx, qy) == if ay - r <= qy < ay && (if dx == r {
            qx - ax < ay - qy
        } else {
            qx - ax < qy - ay
        }) {
            -1int
        } else {
            0int
        },
{
    let o = (ax - qx) * (ay - r - qy) - (ay - qy) * (ax + dx - qx);
    assert(o == -(ax - qx) * r - (ay - qy) * dx) by (nonlinear_arith)
        requires
            o == (ax - qx) * (ay - r - qy) - (ay - qy) * (ax + dx - qx),
    ;
    if dx == r {
        assert(o == r * ((qx - ax) - (ay - qy))) by (nonlinear_arith)
            requires
                o == -(ax - qx) * r - (ay - qy) * dx,
                dx == r,
        ;
        assert((o < 0) == (qx - ax < ay - qy)) by (nonlinear_arith)
            requires
                o == r * ((qx - ax) - (ay - qy)),
                r > 0,
        ;
    } else {
        assert(o == r * ((qx - ax) - (qy - ay))) by (nonlinear_arith)
            requires
                o == -(ax - qx) * r - (ay - qy) * dx,
                dx == -r,
        ;
        assert((o < 0) == (qx - ax < qy - ay)) by (nonlinear_arith)
            requires
                o == r * ((qx - ax) - (qy - ay)),
                r > 0,
        ;
    }
}

/// The outline of the stroke of the radius `r`, with bevel joins, along the
/// rectangle from `(x0, y0)` by way of `(x1, y0)` and `(x1, y1)` to
/// `(x0, y1)` and closed: the near side inside the rectangle, cut short at
/// the corners, and the far side around it, traced backwards.
pub open spec fn rect_stroke(x0: int, y0: int, x1: int, y1: int, r: int) -> Seq<CurveSegment> {
    seq![
        CurveSegment::Move(at(x0, y0 + r)),
        CurveSegment::Line(at(x1, y0 + r)),
        CurveSegment::Line(at(x1 - r, y0)),
        CurveSegment::Line(at(x1 - r, y1)),
        CurveSegment::Line(at(x1, y1 - r)),
        CurveSegment::Line(at(x0, y1 - r)),
        CurveSegment::Close,
        CurveSegment::Move(at(x0, y0 - r)),
        CurveSegment::Line(at(x0, y1 + r)),
        CurveSegment::Line(at(x1, y1 + r)),
        CurveSegment::Line(at(x1 + r, y1)),
        CurveSegment::Line(at(x1 + r, y0)),
        CurveSegment::Line(at(x1, y0 - r)),
        CurveSegment::Line(at(x0, y0 - r)),
        CurveSegment::Close,
    ]
}

/// Whether the point lies in the room that the far side of the stroke
/// along the rectangle goes around: beside the three edges drawn, out to
/// the radius, with the two outer corners cut off, and no farther back
/// than the edge that closes the rectangle.
pub open spec fn within_far_side(x0: int, y0: int, x1: int, y1: int, r: int, qx: int, qy: int) -> bool {
    &&& y0 - r <= qy < y1 + r
    &&& x0 <= qx
    &&& qx < x1 + r
    &&& qy < y0 ==> qx - (x1 + r) < qy - y0
    &&& qy >= y1 ==> qx - x1 < (y1 + r) - qy
}

/// Whether the point lies in the hole of the stroke along the rectangle:
/// inside the rectangle, farther than the radius from the three edges
/// drawn.
pub open spec fn within_hole(x0: int, y0: int, x1: int, y1: int, r: int, qx: int, qy: int) -> bool {
    x0 <= qx < x1 - r && y0 + r <= qy < y1 - r
}

/// The outline of the stroke along the rectangle winds minus once about
/// the band, minus twice about the two corners where the near side
/// overlaps itself, and not at all about the hole and what lies outside:
/// under the non-zero rule it holds the band, and nothing else.
pub proof fn lemma_rect_stroke_winding(x0: int, y0: int, x1: int, y1: int, r: int, qx: int, qy: int)
    requires
        0 < r,
        r <= x1 - x0,
        2 * r <= y1 - y0,
        half_range(x0 - r),
        half_range(y0 - r),
        half_range(x1 + r),
        half_range(y1 + r),
        half_range(qx),
        half_range(qy),
    ensures
        winding_number(rect_stroke(x0, y0, x1, y1, r), at(qx, qy)) != 0 <==> within_far_side(
            x0,
            y0,
            x1,
            y1,
            r,
            qx,
            qy,
        ) && !within_hole(x0, y0, x1, y1, r, qx, qy),
        inside(rect_stroke(x0, y0, x1, y1, r), at(qx, qy), FillRule::NonZero) <==> within_far_side(
            x0,
            y0,
            x1,
            y1,
            r,
            qx,
            qy,
        ) && !within_hole(x0, y0, x1, y1, r, qx, qy),
{
    let s = rect_stroke(x0, y0, x1, y1, r);
    let q = at(qx, qy);
    lemma_edge_crossing(x0, y0 + r, x1, y0 + r, qx, qy);
    lemma_edge_crossing(x1, y0 + r, x1 - r, y0, qx, qy);
    lemma_edge_crossing(x1 - r, y0, x1 - r, y1, qx, qy);
    lemma_edge_crossing(x1 - r, y1, x1, y1 - r, qx, qy);
    lemma_edge_crossing(x1, y1 - r, x0, y1 - r, qx, qy);
    lemma_edge_crossing(x0, y1 - r, x0, y0 + r, qx, qy);
    lemma_edge_crossing(x0, y0 - r, x0, y1 + r, qx, qy);
    lemma_edge_crossing(x0, y1 + r, x1, y1 + r, qx, qy);
    lemma_edge_crossing(x1, y1 + r, x1 + r, y1, qx, qy);
    lemma_edge_crossing(x1 + r, y1, x1 + r, y0, qx, qy);
    lemma_edge_crossing(x1 + r, y0, x1, y0 - r, qx, qy);
    lemma_edge_crossing(x1, y0 - r, x0, y0 - r, qx, qy);
    lemma_edge_crossing(x0, y0 - r, x0, y0 - r, qx, qy);
    lemma_crossing_level(x0, x1, y0 + r, qx, qy);
    lemma_crossing_slant_down(x1, y0 + r, -r, r, qx, qy);
    lemma_crossing_upright(x1 - r, y0, y1, qx, qy);
    lemma_crossing_slant_down(x1 - r, y1, r, r, qx, qy);
    lemma_crossing_level(x1, x0, y1 - r, qx, qy);
    lemma_crossing_upright(x0, y1 - r, y0 + r, qx, qy);
    lemma_crossing_upright(x0, y0 - r, y1 + r, qx, qy);
    lemma_crossing_level(x0, x1, y1 + r, qx, qy);
    lemma_crossing_slant_down(x1, y1 + r, r, r, qx, qy);
    lemma_crossing_upright(x1 + r, y1, y0, qx, qy);
    lemma_crossing_slant_down(x1 + r, y0, -r, r, qx, qy);
    lemma_crossing_level(x1, x0, y0 - r, qx, qy);
    lemma_crossing_level(x0, x0, y0 - r, qx, qy);
    assert(x1 - r + r == x1 && y0 + r - r == y0 && x1 + r - r == x1 && y1 + r - r == y1);
    let t0 = tally(s, 0, q);
    let t1 = tally(s, 1, q);
    let t2 = tally(s, 2, q);
    let t3 = tally(s, 3, q);
    let t4 = tally(s, 4, q);
    let t5 = tally(s, 5, q);
    let t6 = tally(s, 6, q);
    let t7 = tally(s, 7, q);
    let t8 = tally(s, 8, q);
    let t9 = tally(s, 9, q);
    let t10 = tally(s, 10, q);
    let t11 = tally(s, 11, q);
    let t12 = tally(s, 12, q);
    let t13 = tally(s, 13, q);
    let t14 = tally(s, 14, q);
    let t15 = tally(s, 15, q);
    assert(t1 == tally_segment(t0, s[0], q));
    assert(t2 == tally_segment(t1, s[1], q));
    assert(t3 == tally_segment(t2, s[2], q));
    assert(t4 == tally_segment(t3, s[3], q));
    assert(t5 == tally_segment(t4, s[4], q));
    assert(t6 == tally_segment(t5, s[5], q));
    assert(t7 == tally_segment(t6, s[6], q));
    assert(t8 == tally_segment(t7, s[7], q));
    assert(t9 == tally_segment(t8, s[8], q));
    assert(t10 == tally_segment(t9, s[9], q));
    assert(t11 == tally_segment(t10, s[10], q));
    assert(t12 == tally_segment(t11, s[11], q));
    assert(t13 == tally_segment(t12, s[12], q));
    assert(t14 == tally_segment(t13, s[13], q));
    assert(t15 == tally_segment(t14, s[14], q));
    let a = at(x0, y0 + r);
    let g = at(x0, y0 - r);
    assert(t1.start == Some(a) && t1.pen == Some(a) && t1.winding == 0);
    assert(t6.start == Some(a) && t6.pen == Some(at(x0, y1 - r)));
    assert(t7.start == Some(a) && t7.pen == Some(a));
    assert(closing_winding(t7.start, t7.pen, q) == edge_winding(a, a, q));
    lemma_edge_crossing(x0, y0 + r, x0, y0 + r, qx, qy);
    lemma_crossing_level(x0, x0, y0 + r, qx, qy);
    assert(t8.start == Some(g) && t8.pen == Some(g) && t8.winding == t7.winding);
    assert(t14.start == Some(g) && t14.pen == Some(g));
    assert(t15.start == Some(g) && t15.pen == Some(g) && t15.winding == t14.winding);
    assert(closing_winding(t15.start, t15.pen, q) == 0);
    let near = t7.winding;
    let far = t14.winding - t7.winding;
    assert(winding_number(s, q) == near + far);
    let up_inner = if y0 <= qy < y1 && qx < x1 - r { 1int } else { 0int };
    let cut_low = if y0 <= qy < y0 + r && qx - x1 < qy - (y0 + r) { 1int } else { 0int };
    let cut_high = if y1 - r <= qy < y1 && qx - (x1 - r) < y1 - qy { 1int } else { 0int };
    let back_inner = if y0 + r <= qy < y1 - r && qx < x0 { 1int } else { 0int };
    assert(near == up_inner - cut_low - cut_high - back_inner);
    let back_outer = if y0 - r <= qy < y1 + r && qx < x0 { 1int } else { 0int };
    let slant_high = if y1 <= qy < y1 + r && qx - x1 < (y1 + r) - qy { 1int } else { 0int };
    let down_outer = if y0 <= qy < y1 && qx < x1 + r { 1int } else { 0int };
    let slant_low = if y0 - r <= qy < y0 && qx - (x1 + r) < qy - y0 { 1int } else { 0int };
    assert(far == back_outer - slant_high - down_outer - slant_low);
}

/// The vector along an axis with the given signs: each of them one, minus
/// one or nothing, times one.
pub open spec fn along(sx: int, sy: int) -> Vector {
    Vector { x: Fixed { bits: (sx * ONE) as i64 }, y: Fixed { bits: (sy * ONE) as i64 } }
}

/// The sign of a number: one, minus one or nothing.
pub open spec fn sign(v: int) -> int {
    if v > 0 {
        1
    } else if v < 0 {
        -1
    } else {
        0
    }
}

/// Of a vector along an axis, the component along the axis comes to one
/// with its sign when the vector is brought to unit length, exactly.
pub proof fn lemma_unit_on_axis(c: int)
    requires
        c != 0,
        -0x8000_0000_0000_0000 <= c < 0x8000_0000_0000_0000,
    ensures
        unit_component(c, c, 0) == sign(c) * ONE,
        unit_component(c, 0, c) == sign(c) * ONE,
        unit_component(0, c, 0) == 0,
        unit_component(0, 0, c) == 0,
{
    let f = norm_scale(c, 0);
    assert(f == norm_scale(0, c));
    let a = c * f;
    let m = if a < 0 { -a } else { a };
    assert(a != 0) by {
        if f == 1 {
            assert(a == c);
        } else {
            assert(a == c * 0x8000_0000);
        }
    }
    assert(m > 0);
    assert(a * a == m * m) by (nonlinear_arith)
        requires
            m == a || m == -a,
    ;
    assert(m * m < (m + 1) * (m + 1) && m * m >= 0) by (nonlinear_arith)
        requires
            m > 0,
    ;
    lemma_isqrt_unique((m * m) as nat, m as nat);
    let zero = 0 * f;
    assert(zero == 0);
    assert(a * a + zero * zero == m * m && zero * zero + a * a == m * m);
    assert(hypot(a, zero) == m && hypot(zero, a) == m);
    vstd::arithmetic::div_mod::lemma_div_multiples_vanish(ONE as int, m);
    assert(m * ONE == m * (ONE as int));
    assert(m * ONE > 0) by (nonlinear_arith)
        requires
            m > 0,
    ;
    assert((m * ONE) / m == ONE);
    assert(c * f * ONE == a * ONE);
    assert(a * ONE == if a < 0 { -(m * ONE) } else { m * ONE }) by (nonlinear_arith)
        requires
            m == if a < 0 { -a } else { a },
    ;
    assert(trunc_quot(a * ONE, m) == sign(a) * ONE);
    assert(sign(a) == sign(c)) by {
        if f == 1 {
        } else {
            assert(a == c * 0x8000_0000);
        }
    }
    assert(0 * f * ONE == 0);
    assert(trunc_quot(0, m) == 0);
}

/// The unit vector along a vector that lies along an axis lies along the
/// same axis the same way, and is one long, exactly.
pub proof fn lemma_normalize_on_axis(v: Vector)
    requires
        (v.x.bits == 0) != (v.y.bits == 0),
    ensures
        v.normalize() == along(sign(v.x.bits as int), sign(v.y.bits as int)),
{
    reveal(Vector::spec_normalize);
    if v.y.bits == 0 {
        lemma_unit_on_axis(v.x.bits as int);
    } else {
        lemma_unit_on_axis(v.y.bits as int);
    }
}

/// Whether a bit pattern lies in the inner quarter of the range.
pub open spec fn quarter_range(v: int) -> bool {
    -(LIMIT / 4) <= v <= LIMIT / 4
}

/// The normal of an edge along an axis lies along the other axis, a
/// quarter turn on from the way the edge runs, and is one long, exactly.
pub proof fn lemma_axis_normal(ax: int, ay: int, bx: int, by: int)
    requires
        quarter_range(ax),
        quarter_range(ay),
        quarter_range(bx),
        quarter_range(by),
        (ax == bx) != (ay == by),
    ensures
        spec_line_normal(at(ax, ay), at(bx, by)) == along(-sign(by - ay), sign(bx - ax)),
{
    let d = at(bx, by).since(at(ax, ay));
    assert(d.x.bits == bx - ax && d.y.bits == by - ay) by {
        reveal(Fixed::spec_minus);
    }
    assert(d.hat().x.bits == -(by - ay) && d.hat().y.bits == bx - ax) by {
        reveal(Fixed::spec_neg);
    }
    lemma_normalize_on_axis(d.hat());
}

/// A point moved along an axis by the radius, to one side and to the other.
pub proof fn lemma_axis_offset(px: int, py: int, sx: int, sy: int, r: Fixed)
    requires
        quarter_range(px),
        quarter_range(py),
        quarter_range(r.bits as int),
        -1 <= sx <= 1,
        -1 <= sy <= 1,
    ensures
        at(px, py).plus(along(sx, sy).times(r)) == at(px + sx * r.bits, py + sy * r.bits),
        at(px, py).minus(along(sx, sy).times(r)) == at(px - sx * r.bits, py - sy * r.bits),
        at(px, py).plus(along(sx, sy).times(r.neg())) == at(px - sx * r.bits, py - sy * r.bits),
        r.neg().bits == -r.bits,
{
    reveal(Fixed::spec_times);
    reveal(Fixed::spec_plus);
    reveal(Fixed::spec_minus);
    reveal(Fixed::spec_neg);
    let e = r.bits as int;
    let k = ONE as int;
    vstd::arithmetic::div_mod::lemma_div_multiples_vanish(e, k);
    assert(k * e == e * k && k * (-e) == -(e * k) && (-k) * e == -(e * k) && (-k) * (-e) == e * k)
        by (nonlinear_arith);
    assert(trunc_quot(e * k, k) == e || e < 0);
    assert(trunc_quot(-(e * k), k) == -e || e < 0);
    vstd::arithmetic::div_mod::lemma_div_multiples_vanish(-e, k);
    assert((-e) * k == -(e * k)) by (nonlinear_arith);
    assert(trunc_quot(e * k, k) == e);
    assert(trunc_quot(-(e * k), k) == -e);
    assert(0 * e == 0 && 0 * (-e) == 0);
    assert(trunc_quot(0, k) == 0);
    assert(sx * ONE == if sx == 1 { k } else if sx == 0 { 0 } else { -k });
    assert(sy * ONE == if sy == 1 { k } else if sy == 0 { 0 } else { -k });
    assert(sx * e == if sx == 1 { e } else if sx == 0 { 0 } else { -e }) by (nonlinear_arith)
        requires
            -1 <= sx <= 1,
    ;
    assert(sy * e == if sy == 1 { e } else if sy == 0 { 0 } else { -e }) by (nonlinear_arith)
        requires
            -1 <= sy <= 1,
    ;
}

/// Where the way turns to the left by a quarter, the side to the left is
/// the inner one: the turn is inner for a radius that is positive, and
/// for none that is negative.
pub proof fn lemma_left_turn(n0: Vector, n1: Vector, r: Fixed)
    requires
        (n0 == along(0, 1) && n1 == along(-1, 0)) || (n0 == along(-1, 0) && n1 == along(0, -1)),
        quarter_range(r.bits as int),
    ensures
        inner_turn(n0, n1, r) == (r.bits > 0),
        inner_turn(n0, n1, r.neg()) == (r.bits < 0),
{
    reveal(Fixed::spec_times);
    reveal(Fixed::spec_minus);
    reveal(Fixed::spec_neg);
    let k = ONE as int;
    let e = r.bits as int;
    assert(k * k == 0x1_0000_0000 && (-k) * (-k) == 0x1_0000_0000 && 0 * 0 == 0 && 0 * k == 0 && k
        * 0 == 0 && 0 * (-k) == 0 && (-k) * 0 == 0 && k * (-k) == -0x1_0000_0000) by (nonlinear_arith)
        requires
            k == 65536,
    ;
    assert(0x1_0000_0000int / 65536 == 65536);
    assert(trunc_quot(0x1_0000_0000, k) == k);
    assert(trunc_quot(-0x1_0000_0000, k) == -k);
    assert(trunc_quot(0, k) == 0);
    assert(n0.cross(n1).bits == k);
    vstd::arithmetic::div_mod::lemma_div_multiples_vanish(e, k);
    vstd::arithmetic::div_mod::lemma_div_multiples_vanish(-e, k);
    assert(k * e == e * k && k * (-e) == (-e) * k && (-e) * k == -(e * k)) by (nonlinear_arith);
    assert(trunc_quot(k * e, k) == e);
    assert(trunc_quot(k * (-e), k) == -e);
}

/// The first edge of a subpath, a line with a direction: both sides are
/// begun and the line is drawn along each of them.
pub proof fn lemma_first_line(t: Trace, p1: Point, stroke: Stroke, max_depth: nat)
    requires
        t.walk.normal is None,
        !spec_line_normal(t.walk.position, p1).is_zero(),
    ensures
        ({
            let p0 = t.walk.position;
            let n = spec_line_normal(p0, p1);
            let r = stroke.spec_radius();
            spec_stroke_segment(t, CurveSegment::Line(p1), stroke, max_depth) == Trace {
                walk: Walk { position: p1, normal: Some(n), anchor: Some((p0, n)) },
                out: t.out + seq![
                    CurveSegment::Move(p0.plus(n.times(r))),
                    CurveSegment::Line(p1.plus(n.times(r))),
                ],
                outside: t.outside + seq![
                    CurveSegment::Move(p0.minus(n.times(r))),
                    CurveSegment::Line(p1.plus(n.times(r.neg()))),
                ],
            }
        }),
{
    let p0 = t.walk.position;
    let n = spec_line_normal(p0, p1);
    let r = stroke.spec_radius();
    let e = spec_enter_segment(t, n, stroke);
    let got = spec_stroke_segment(t, CurveSegment::Line(p1), stroke, max_depth);
    assert(got.out =~= t.out + seq![
        CurveSegment::Move(p0.plus(n.times(r))),
        CurveSegment::Line(p1.plus(n.times(r))),
    ]);
    assert(got.outside =~= t.outside + seq![
        CurveSegment::Move(p0.minus(n.times(r))),
        CurveSegment::Line(p1.plus(n.times(r.neg()))),
    ]);
}

/// A further edge, a line that turns off to the inner side of the near
/// side, with bevel joins: the near side gets the single line of an inner
/// turn, the far side the bevel, and the line is drawn along each of them.
pub proof fn lemma_next_line(t: Trace, p1: Point, stroke: Stroke, max_depth: nat)
    requires
        t.walk.normal is Some,
        stroke.join == LineJoin::Bevel,
        !spec_line_normal(t.walk.position, p1).is_zero(),
        inner_turn(
            t.walk.normal->Some_0,
            spec_line_normal(t.walk.position, p1),
            stroke.spec_radius(),
        ),
        !inner_turn(
            t.walk.normal->Some_0,
            spec_line_normal(t.walk.position, p1),
            stroke.spec_radius().neg(),
        ),
    ensures
        ({
            let p0 = t.walk.position;
            let n = spec_line_normal(p0, p1);
            let r = stroke.spec_radius();
            spec_stroke_segment(t, CurveSegment::Line(p1), stroke, max_depth) == Trace {
                walk: Walk { position: p1, normal: Some(n), anchor: t.walk.anchor },
                out: t.out + seq![
                    CurveSegment::Line(p0.plus(n.times(r))),
                    CurveSegment::Line(p1.plus(n.times(r))),
                ],
                outside: t.outside + seq![
                    CurveSegment::Line(p0.plus(n.times(r.neg()))),
                    CurveSegment::Line(p1.plus(n.times(r.neg()))),
                ],
            }
        }),
{
    let p0 = t.walk.position;
    let n0 = t.walk.normal->Some_0;
    let n = spec_line_normal(p0, p1);
    let r = stroke.spec_radius();
    let near = join_segments(last_point(t.out), p0, n0, n, r, stroke.join, stroke.miter);
    let far = join_segments(last_point(t.outside), p0, n0, n, r.neg(), stroke.join, stroke.miter);
    assert(near == seq![CurveSegment::Line(p0.plus(n.times(r)))]);
    assert(far == bevel_segments(p0, n, r.neg()));
    let got = spec_stroke_segment(t, CurveSegment::Line(p1), stroke, max_depth);
    assert(got.out =~= t.out + seq![
        CurveSegment::Line(p0.plus(n.times(r))),
        CurveSegment::Line(p1.plus(n.times(r))),
    ]);
    assert(got.outside =~= t.outside + seq![
        CurveSegment::Line(p0.plus(n.times(r.neg()))),
        CurveSegment::Line(p1.plus(n.times(r.neg()))),
    ]);
}

/// The near side of the stroke along the rectangle, before it is closed.
pub open spec fn rect_near(x0: int, y0: int, x1: int, y1: int, r: int) -> Seq<CurveSegment> {
    seq![
        CurveSegment::Move(at(x0, y0 + r)),
        CurveSegment::Line(at(x1, y0 + r)),
        CurveSegment::Line(at(x1 - r, y0)),
        CurveSegment::Line(at(x1 - r, y1)),
        CurveSegment::Line(at(x1, y1 - r)),
        CurveSegment::Line(at(x0, y1 - r)),
    ]
}

/// The far side of the stroke along the rectangle, as it is drawn.
pub open spec fn rect_far(x0: int, y0: int, x1: int, y1: int, r: int) -> Seq<CurveSegment> {
    seq![
        CurveSegment::Move(at(x0, y0 - r)),
        CurveSegment::Line(at(x1, y0 - r)),
        CurveSegment::Line(at(x1 + r, y0)),
        CurveSegment::Line(at(x1 + r, y1)),
        CurveSegment::Line(at(x1, y1 + r)),
        CurveSegment::Line(at(x0, y1 + r)),
    ]
}

/// Whether the rectangle and the radius are such that the stroke along the
/// rectangle can be worked out exactly.
pub open spec fn rect_in_range(rect: Rect, stroke: Stroke) -> bool {
    &&& rect.min.x.bits < rect.max.x.bits
    &&& rect.min.y.bits < rect.max.y.bits
    &&& 0 < stroke.spec_radius().bits
    &&& quarter_range(stroke.spec_radius().bits as int)
    &&& quarter_range(rect.min.x.bits as int)
    &&& quarter_range(rect.min.y.bits as int)
    &&& quarter_range(rect.max.x.bits as int)
    &&& quarter_range(rect.max.y.bits as int)
}

/// The scan along the rectangle after its first edge.
pub proof fn lemma_rect_scan_first(rect: Rect, stroke: Stroke, max_depth: nat)
    requires
        rect_in_range(rect, stroke),
    ensures
        ({
            let (x0, y0) = (rect.min.x.bits as int, rect.min.y.bits as int);
            let (x1, y1) = (rect.max.x.bits as int, rect.max.y.bits as int);
            let r = stroke.spec_radius().bits as int;
            scan(rect_outline(rect), 2, stroke, max_depth, Seq::empty()) == Trace {
                walk: Walk {
                    position: at(x1, y0),
                    normal: Some(along(0, 1)),
                    anchor: Some((at(x0, y0), along(0, 1))),
                },
                out: rect_near(x0, y0, x1, y1, r).take(2),
                outside: rect_far(x0, y0, x1, y1, r).take(2),
            }
        }),
{
    let (x0, y0) = (rect.min.x.bits as int, rect.min.y.bits as int);
    let (x1, y1) = (rect.max.x.bits as int, rect.max.y.bits as int);
    let radius = stroke.spec_radius();
    let r = radius.bits as int;
    let c0 = at(x0, y0);
    let c1 = at(x1, y0);
    let path = rect_outline(rect);
    assert(path[0] == CurveSegment::Move(c0));
    assert(path[1] == CurveSegment::Line(c1));
    assert(path[2] is Line);
    assert(path.len() == 5);
    let up = along(0, 1);
    lemma_axis_normal(x0, y0, x1, y0);
    assert(spec_line_normal(c0, c1) == up);
    assert(!up.is_zero());
    lemma_axis_offset(x0, y0, 0, 1, radius);
    lemma_axis_offset(x1, y0, 0, 1, radius);
    assert(0 * r == 0 && 1 * r == r);
    let empty = Seq::<CurveSegment>::empty();
    let t0 = scan(path, 0, stroke, max_depth, empty);
    let t1 = scan(path, 1, stroke, max_depth, empty);
    let t2 = scan(path, 2, stroke, max_depth, empty);
    assert(t0 == trace_start(empty));
    assert(t1 == spec_stroke_segment(t0, path[0], stroke, max_depth));
    assert(t1 == Trace {
        walk: Walk { position: c0, normal: None, anchor: None },
        out: empty,
        outside: empty,
    });
    lemma_first_line(t1, c1, stroke, max_depth);
    assert(t2 == spec_stroke_segment(t1, path[1], stroke, max_depth));
    assert(t2.out =~= rect_near(x0, y0, x1, y1, r).take(2));
    assert(t2.outside =~= rect_far(x0, y0, x1, y1, r).take(2));
}

/// The scan along the rectangle after its second edge.
pub proof fn lemma_rect_scan_second(rect: Rect, stroke: Stroke, max_depth: nat)
    requires
        rect_in_range(rect, stroke),
        stroke.join == LineJoin::Bevel,
    ensures
        ({
            let (x0, y0) = (rect.min.x.bits as int, rect.min.y.bits as int);
            let (x1, y1) = (rect.max.x.bits as int, rect.max.y.bits as int);
            let r = stroke.spec_radius().bits as int;
            scan(rect_outline(rect), 3, stroke, max_depth, Seq::empty()) == Trace {
                walk: Walk {
                    position: at(x1, y1),
                    normal: Some(along(-1, 0)),
                    anchor: Some((at(x0, y0), along(0, 1))),
                },
                out: rect_near(x0, y0, x1, y1, r).take(4),
                outside: rect_far(x0, y0, x1, y1, r).take(4),
            }
        }),
{
    let (x0, y0) = (rect.min.x.bits as int, rect.min.y.bits as int);
    let (x1, y1) = (rect.max.x.bits as int, rect.max.y.bits as int);
    let radius = stroke.spec_radius();
    let r = radius.bits as int;
    let c1 = at(x1, y0);
    let c2 = at(x1, y1);
    let path = rect_outline(rect);
    assert(path[2] == CurveSegment::Line(c2));
    assert(path[3] is Line);
    assert(path.len() == 5);
    let up = along(0, 1);
    let left = along(-1, 0);
    lemma_axis_normal(x1, y0, x1, y1);
    assert(spec_line_normal(c1, c2) == left);
    assert(!left.is_zero());
    lemma_left_turn(up, left, radius);
    lemma_axis_offset(x1, y0, -1, 0, radius);
    lemma_axis_offset(x1, y1, -1, 0, radius);
    assert(0 * r == 0 && (-1) * r == -r);
    let empty = Seq::<CurveSegment>::empty();
    lemma_rect_scan_first(rect, stroke, max_depth);
    let t2 = scan(path, 2, stroke, max_depth, empty);
    let t3 = scan(path, 3, stroke, max_depth, empty);
    lemma_next_line(t2, c2, stroke, max_depth);
    assert(t3 == spec_stroke_segment(t2, path[2], stroke, max_depth));
    let near = rect_near(x0, y0, x1, y1, r);
    let far = rect_far(x0, y0, x1, y1, r);
    assert(t3.out =~= near.take(4)) by {
        assert(t3.out == near.take(2) + seq![
            CurveSegment::Line(at(x1 - r, y0)),
            CurveSegment::Line(at(x1 - r, y1)),
        ]);
    }
    assert(t3.outside =~= far.take(4)) by {
        assert(t3.outside == far.take(2) + seq![
            CurveSegment::Line(at(x1 + r, y0)),
            CurveSegment::Line(at(x1 + r, y1)),
        ]);
    }
}

/// The scan along the rectangle after its third edge: both sides, whole.
pub proof fn lemma_rect_scan_third(rect: Rect, stroke: Stroke, max_depth: nat)
    requires
        rect_in_range(rect, stroke),
        stroke.join == LineJoin::Bevel,
    ensures
        ({
            let (x0, y0) = (rect.min.x.bits as int, rect.min.y.bits as int);
            let (x1, y1) = (rect.max.x.bits as int, rect.max.y.bits as int);
            let r = stroke.spec_radius().bits as int;
            scan(rect_outline(rect), 4, stroke, max_depth, Seq::empty()) == Trace {
                walk: Walk {
                    position: at(x0, y1),
                    normal: Some(along(0, -1)),
                    anchor: Some((at(x0, y0), along(0, 1))),
                },
                out: rect_near(x0, y0, x1, y1, r),
                outside: rect_far(x0, y0, x1, y1, r),
            }
        }),
{
    let (x0, y0) = (rect.min.x.bits as int, rect.min.y.bits as int);
    let (x1, y1) = (rect.max.x.bits as int, rect.max.y.bits as int);
    let radius = stroke.spec_radius();
    let r = radius.bits as int;
    let c2 = at(x1, y1);
    let c3 = at(x0, y1);
    let path = rect_outline(rect);
    assert(path[3] == CurveSegment::Line(c3));
    assert(path[4] is Close);
    assert(path.len() == 5);
    let left = along(-1, 0);
    let down = along(0, -1);
    lemma_axis_normal(x1, y1, x0, y1);
    assert(spec_line_normal(c2, c3) == down);
    assert(!down.is_zero());
    lemma_left_turn(left, down, radius);
    lemma_axis_offset(x1, y1, 0, -1, radius);
    lemma_axis_offset(x0, y1, 0, -1, radius);
    assert(0 * r == 0 && (-1) * r == -r);
    let empty = Seq::<CurveSegment>::empty();
    lemma_rect_scan_second(rect, stroke, max_depth);
    let t3 = scan(path, 3, stroke, max_depth, empty);
    let t4 = scan(path, 4, stroke, max_depth, empty);
    lemma_next_line(t3, c3, stroke, max_depth);
    assert(t4 == spec_stroke_segment(t3, path[3], stroke, max_depth));
    let near = rect_near(x0, y0, x1, y1, r);
    let far = rect_far(x0, y0, x1, y1, r);
    assert(t4.out =~= near) by {
        assert(t4.out == near.take(4) + seq![
            CurveSegment::Line(at(x1, y1 - r)),
            CurveSegment::Line(at(x0, y1 - r)),
        ]);
    }
    assert(t4.outside =~= far) by {
        assert(t4.outside == far.take(4) + seq![
            CurveSegment::Line(at(x1, y1 + r)),
            CurveSegment::Line(at(x0, y1 + r)),
        ]);
    }
}

/// The contour of the far side of the stroke along the rectangle: to the
/// end of the far side, and back along it.
pub proof fn lemma_rect_far_contour(x0: int, y0: int, x1: int, y1: int, r: int)
    ensures
        far_contour(rect_far(x0, y0, x1, y1, r), at(x0, y0 - r)) == seq![
            CurveSegment::Move(at(x0, y0 - r)),
            CurveSegment::Line(at(x0, y1 + r)),
            CurveSegment::Line(at(x1, y1 + r)),
            CurveSegment::Line(at(x1 + r, y1)),
            CurveSegment::Line(at(x1 + r, y0)),
            CurveSegment::Line(at(x1, y0 - r)),
            CurveSegment::Line(at(x0, y0 - r)),
            CurveSegment::Close,
        ],
{
    let home = at(x0, y0 - r);
    let side = rect_far(x0, y0, x1, y1, r);
    assert(side_from(side, home));
    lemma_far_contour_traces(side, home);
    let far = far_contour(side, home);
    assert(far.len() == 8);
    assert(side.last() == side[5]);
    assert(seq![far[1 + 1int]] == crate::canvas::curve::reversed_edge(side[5], side[4].spec_end()));
    assert(seq![far[1 + 2int]] == crate::canvas::curve::reversed_edge(side[4], side[3].spec_end()));
    assert(seq![far[1 + 3int]] == crate::canvas::curve::reversed_edge(side[3], side[2].spec_end()));
    assert(seq![far[1 + 4int]] == crate::canvas::curve::reversed_edge(side[2], side[1].spec_end()));
    assert(seq![far[1 + 5int]] == crate::canvas::curve::reversed_edge(side[1], side[0].spec_end()));
    assert(seq![far[2]][0] == CurveSegment::Line(at(x1, y1 + r)));
    assert(seq![far[3]][0] == CurveSegment::Line(at(x1 + r, y1)));
    assert(seq![far[4]][0] == CurveSegment::Line(at(x1 + r, y0)));
    assert(seq![far[5]][0] == CurveSegment::Line(at(x1, y0 - r)));
    assert(seq![far[6]][0] == CurveSegment::Line(home));
    assert(far[7] == far.last());
    let want = seq![
        CurveSegment::Move(at(x0, y0 - r)),
        CurveSegment::Line(at(x0, y1 + r)),
        CurveSegment::Line(at(x1, y1 + r)),
        CurveSegment::Line(at(x1 + r, y1)),
        CurveSegment::Line(at(x1 + r, y0)),
        CurveSegment::Line(at(x1, y0 - r)),
        CurveSegment::Line(at(x0, y0 - r)),
        CurveSegment::Close,
    ];
    assert(far =~= want);
}

/// The outline of the stroke, with bevel joins, along the outline of a
/// rectangle with its edges along the axes is the one that `rect_stroke`
/// gives, exactly.
pub proof fn lemma_rect_stroke_outline(rect: Rect, stroke: Stroke, max_depth: nat)
    requires
        rect_in_range(rect, stroke),
        stroke.join == LineJoin::Bevel,
    ensures
        stroke_outline(rect_outline(rect), stroke, max_depth) == rect_stroke(
            rect.min.x.bits as int,
            rect.min.y.bits as int,
            rect.max.x.bits as int,
            rect.max.y.bits as int,
            stroke.spec_radius().bits as int,
        ),
{
    let (x0, y0) = (rect.min.x.bits as int, rect.min.y.bits as int);
    let (x1, y1) = (rect.max.x.bits as int, rect.max.y.bits as int);
    let radius = stroke.spec_radius();
    let r = radius.bits as int;
    let path = rect_outline(rect);
    let empty = Seq::<CurveSegment>::empty();
    lemma_rect_scan_third(rect, stroke, max_depth);
    lemma_rect_far_contour(x0, y0, x1, y1, r);
    lemma_axis_offset(x0, y0, 0, 1, radius);
    assert(0 * r == 0 && 1 * r == r);
    let t4 = scan(path, 4, stroke, max_depth, empty);
    let t5 = scan(path, 5, stroke, max_depth, empty);
    assert(path.len() == 5);
    assert(path[4] is Close);
    let closed = spec_close_contour(t4, stroke);
    assert(spec_stroke_segment(t4, path[4], stroke, max_depth) == closed);
    assert(t5 == spec_finish_open(closed, stroke));
    assert(t5 == closed);
    let near = rect_near(x0, y0, x1, y1, r);
    let far = far_contour(rect_far(x0, y0, x1, y1, r), at(x0, y0 - r));
    assert(t5.out == near.push(CurveSegment::Close) + far);
    assert(near.push(CurveSegment::Close) + far =~= rect_stroke(x0, y0, x1, y1, r));
}

/// The stroke, with bevel joins, along a closed rectangle with its edges
/// along the axes holds, under the non-zero rule, the band along the three
/// edges that are drawn, and nothing else: the points beside those edges
/// out to the radius, with the two outer corners cut off by the bevels,
/// but the hole inside the rectangle that lies farther than the radius
/// from them. The edge that closes the rectangle is not drawn and has no
/// band of its own; the band ends on it.
pub proof fn lemma_rect_stroke_band(rect: Rect, stroke: Stroke, max_depth: nat, q: Point)
    requires
        stroke.join == LineJoin::Bevel,
        rect_in_range(rect, stroke),
        stroke.spec_radius().bits <= rect.max.x.bits - rect.min.x.bits,
        2 * stroke.spec_radius().bits <= rect.max.y.bits - rect.min.y.bits,
        half_range(q.x.bits as int),
        half_range(q.y.bits as int),
    ensures
        inside(stroke_outline(rect_outline(rect), stroke, max_depth), q, FillRule::NonZero)
            <==> within_far_side(
            rect.min.x.bits as int,
            rect.min.y.bits as int,
            rect.max.x.bits as int,
            rect.max.y.bits as int,
            stroke.spec_radius().bits as int,
            q.x.bits as int,
            q.y.bits as int,
        ) && !within_hole(
            rect.min.x.bits as int,
            rect.min.y.bits as int,
            rect.max.x.bits as int,
            rect.max.y.bits as int,
            stroke.spec_radius().bits as int,
            q.x.bits as int,
            q.y.bits as int,
        ),
{
    lemma_rect_stroke_outline(rect, stroke, max_depth);
    lemma_rect_stroke_winding(
        rect.min.x.bits as int,
        rect.min.y.bits as int,
        rect.max.x.bits as int,
        rect.max.y.bits as int,
        stroke.spec_radius().bits as int,
        q.x.bits as int,
        q.y.bits as int,
    );
    assert(q == at(q.x.bits as int, q.y.bits as int));
}

} // verus!
