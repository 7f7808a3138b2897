//! What holds of every outline that the stroker makes.

use vstd::prelude::*;
use vstd::arithmetic::power2::{lemma_pow2_unfold, pow2};
use crate::canvas::canvas::FillRule;
use crate::canvas::curve::{
    CurveSegment, closing_winding, edge_winding, inside, last_point, orientation, reversed, tally,
    tally_segment, well_formed, winding_number,
};
use crate::canvas::stroke::{
    LineCap, LineJoin, MAX_ERROR, Stroke, Trace, cap_segments, cubic_accepted, cubic_candidate,
    cubic_offset_error, join_segments, miter_exceeds, quad_accepted, quad_candidate,
    quad_offset_error, round_mid, round_segments, scan, spec_close_contour, spec_cubic_normals,
    far_contour, far_return,
    spec_divide_cubic_bezier, spec_divide_quad_bezier, spec_enter_segment, spec_finish_open,
    spec_line_normal, spec_offset_cubic_bezier, spec_offset_quad_bezier, spec_quad_normals,
    spec_stroke_segment, stroke_outline, trace_start,
};
use crate::canvas::curve::conic_cubic;
use crate::canvas::stroke::{Walk, round_control, round_weight};
use crate::layout::fixed::{
    Fixed, HALF, LIMIT, ONE, THIRD, isqrt, lemma_isqrt_bounds, lemma_isqrt_unique, trunc_div,
    trunc_quot,
};
use crate::layout::unit::lemma_floor_bounds;
use crate::layout::unit::{
    abs, is_unit, lemma_normalize_unit, lemma_scaled_near_radius, lemma_trunc_quot_abs,
    near_radius, norm_squared,
};
use crate::layout::vector::{Point, Vector, hypot, norm_scale, unit_component};

verus! {

/// Every segment is an edge: a line or a curve.
pub open spec fn all_edges(s: Seq<CurveSegment>) -> bool {
    forall|i: int| 0 <= i < s.len() ==> (#[trigger] s[i]).is_edge()
}

/// Every subpath starts with its one `Move`, on an empty path or after a
/// `Close`, and every other segment continues a subpath.
pub open spec fn tidy(s: Seq<CurveSegment>) -> bool {
    forall|i: int|
        0 <= i < s.len() ==> if #[trigger] s[i] is Move {
            i == 0 || s[i - 1] is Close
        } else {
            i > 0 && !(s[i - 1] is Close)
        }
}

/// Every subpath is a closed contour: the path is tidy and does not end in
/// an open subpath.
pub open spec fn closed_contours(s: Seq<CurveSegment>) -> bool {
    tidy(s) && (s.len() > 0 ==> s.last() is Close)
}

/// A tidy path whose last subpath is still open.
pub open spec fn open_contour(s: Seq<CurveSegment>) -> bool {
    tidy(s) && s.len() > 0 && !(s.last() is Close)
}

/// A piece of a curve that the approximator settled on, with the depth at
/// which it did.
pub struct QuadLeaf {
    pub p0: Point,
    pub p1: Point,
    pub p2: Point,
    pub depth: nat,
}

/// The pieces into which the approximator divides a quadratic curve, in
/// order.
pub open spec fn quad_leaves(
    p0: Point,
    p1: Point,
    p2: Point,
    offset: Fixed,
    depth: nat,
    max_depth: nat,
) -> Seq<QuadLeaf>
    decreases max_depth - depth,
{
    if quad_accepted(p0, p1, p2, offset, depth, max_depth) {
        seq![QuadLeaf { p0, p1, p2, depth }]
    } else {
        let d = spec_divide_quad_bezier(p0, p1, p2, Fixed { bits: HALF });
        quad_leaves(p0, d.0, d.1, offset, depth + 1, max_depth) + quad_leaves(
            d.1,
            d.2,
            p2,
            offset,
            depth + 1,
            max_depth,
        )
    }
}

/// The approximator emits one segment for each piece into which it divides
/// a quadratic curve: the candidate of that piece. Each piece strays less
/// than the allowed error from the true offset at its middle, or lies at
/// the full depth; and there are at most two to the power of the remaining
/// depth of them.
pub proof fn lemma_quad_offset_bounded(
    p0: Point,
    p1: Point,
    p2: Point,
    offset: Fixed,
    depth: nat,
    max_depth: nat,
)
    requires
        depth <= max_depth,
    ensures
        ({
            let out = spec_offset_quad_bezier(p0, p1, p2, offset, depth, max_depth);
            let leaves = quad_leaves(p0, p1, p2, offset, depth, max_depth);
            &&& 1 <= out.len() == leaves.len() <= pow2((max_depth - depth) as nat)
            &&& forall|k: int|
                0 <= k < leaves.len() ==> {
                    let leaf = #[trigger] leaves[k];
                    let c = quad_candidate(leaf.p0, leaf.p1, leaf.p2, offset);
                    &&& out[k] == CurveSegment::Quad(c.0, c.1)
                    &&& depth <= leaf.depth <= max_depth
                    &&& (quad_offset_error(leaf.p0, leaf.p1, leaf.p2, offset).bits < MAX_ERROR
                        || leaf.depth == max_depth)
                }
        }),
    decreases max_depth - depth,
{
    vstd::arithmetic::power2::lemma2_to64();
    if quad_accepted(p0, p1, p2, offset, depth, max_depth) {
        vstd::arithmetic::power2::lemma_pow2_pos((max_depth - depth) as nat);
    } else {
        let d = spec_divide_quad_bezier(p0, p1, p2, Fixed { bits: HALF });
        lemma_quad_offset_bounded(p0, d.0, d.1, offset, depth + 1, max_depth);
        lemma_quad_offset_bounded(d.1, d.2, p2, offset, depth + 1, max_depth);
        lemma_pow2_unfold((max_depth - depth) as nat);
    }
}

/// The pieces into which the approximator divides a quadratic curve run
/// from the start of the curve to its end without a gap: the first starts
/// where the curve starts, each ends where the next starts, and the last
/// ends where the curve ends. The offset so ends at the end of the curve
/// moved by the offset along the end normal of the last piece, which for a
/// curve that is not divided is the end normal of the curve.
pub proof fn lemma_quad_leaves_meet(
    p0: Point,
    p1: Point,
    p2: Point,
    offset: Fixed,
    depth: nat,
    max_depth: nat,
)
    ensures
        ({
            let out = spec_offset_quad_bezier(p0, p1, p2, offset, depth, max_depth);
            let leaves = quad_leaves(p0, p1, p2, offset, depth, max_depth);
            let last = leaves.last();
            &&& 1 <= leaves.len() == out.len()
            &&& leaves[0].p0 == p0
            &&& last.p2 == p2
            &&& forall|k: int|
                0 <= k < leaves.len() - 1 ==> (#[trigger] leaves[k]).p2 == leaves[k + 1].p0
            &&& out.last().spec_end() == Some(
                p2.plus(spec_quad_normals(last.p0, last.p1, last.p2).2.times(offset)),
            )
            &&& quad_accepted(p0, p1, p2, offset, depth, max_depth) ==> leaves == seq![
                QuadLeaf { p0, p1, p2, depth },
            ]
        }),
    decreases max_depth - depth,
{
    if !quad_accepted(p0, p1, p2, offset, depth, max_depth) {
        let d = spec_divide_quad_bezier(p0, p1, p2, Fixed { bits: HALF });
        lemma_quad_leaves_meet(p0, d.0, d.1, offset, depth + 1, max_depth);
        lemma_quad_leaves_meet(d.1, d.2, p2, offset, depth + 1, max_depth);
        let a = quad_leaves(p0, d.0, d.1, offset, depth + 1, max_depth);
        let b = quad_leaves(d.1, d.2, p2, offset, depth + 1, max_depth);
        let oa = spec_offset_quad_bezier(p0, d.0, d.1, offset, depth + 1, max_depth);
        let ob = spec_offset_quad_bezier(d.1, d.2, p2, offset, depth + 1, max_depth);
        let leaves = a + b;
        assert(leaves[0] == a[0]);
        assert(leaves.last() == b.last());
        assert((oa + ob).last() == ob.last());
        assert forall|k: int| 0 <= k < leaves.len() - 1 implies (#[trigger] leaves[k]).p2
            == leaves[k + 1].p0 by {
            if k + 1 < a.len() {
                assert(leaves[k] == a[k] && leaves[k + 1] == a[k + 1]);
            } else if k + 1 == a.len() {
                assert(leaves[k] == a.last() && leaves[k + 1] == b[0]);
            } else {
                assert(leaves[k] == b[k - a.len()] && leaves[k + 1] == b[k + 1 - a.len()]);
            }
        }
    }
}

/// A piece of a cubic curve that the approximator settled on, with the
/// depth at which it did.
pub struct CubicLeaf {
    pub p0: Point,
    pub p1: Point,
    pub p2: Point,
    pub p3: Point,
    pub depth: nat,
}

/// The pieces into which the approximator divides a cubic curve, in order.
pub open spec fn cubic_leaves(
    p0: Point,
    p1: Point,
    p2: Point,
    p3: Point,
    offset: Fixed,
    depth: nat,
    max_depth: nat,
) -> Seq<CubicLeaf>
    decreases max_depth - depth,
{
    if cubic_accepted(p0, p1, p2, p3, offset, depth, max_depth) {
        seq![CubicLeaf { p0, p1, p2, p3, depth }]
    } else {
        let d = spec_divide_cubic_bezier(p0, p1, p2, p3, Fixed { bits: THIRD });
        cubic_leaves(p0, d.0, d.1, d.2, offset, depth + 1, max_depth) + cubic_leaves(
            d.2,
            d.3,
            d.4,
            p3,
            offset,
            depth + 1,
            max_depth,
        )
    }
}

/// The approximator emits one segment for each piece into which it divides
/// a cubic curve: the candidate of that piece. Each piece strays less than
/// the allowed error, the offset itself, from the true offset at its first
/// third, or lies at the full depth; and there are at most two to the power
/// of the remaining depth of them.
pub proof fn lemma_cubic_offset_bounded(
    p0: Point,
    p1: Point,
    p2: Point,
    p3: Point,
    offset: Fixed,
    depth: nat,
    max_depth: nat,
)
    requires
        depth <= max_depth,
    ensures
        ({
            let out = spec_offset_cubic_bezier(p0, p1, p2, p3, offset, depth, max_depth);
            let leaves = cubic_leaves(p0, p1, p2, p3, offset, depth, max_depth);
            &&& 1 <= out.len() == leaves.len() <= pow2((max_depth - depth) as nat)
            &&& forall|k: int|
                0 <= k < leaves.len() ==> {
                    let leaf = #[trigger] leaves[k];
                    let c = cubic_candidate(leaf.p0, leaf.p1, leaf.p2, leaf.p3, offset);
                    &&& out[k] == CurveSegment::Cubic(c.0, c.1, c.2)
                    &&& depth <= leaf.depth <= max_depth
                    &&& (cubic_offset_error(leaf.p0, leaf.p1, leaf.p2, leaf.p3, offset).bits
                        < offset.times(Fixed { bits: MAX_ERROR }).bits || leaf.depth == max_depth)
                }
        }),
    decreases max_depth - depth,
{
    vstd::arithmetic::power2::lemma2_to64();
    if cubic_accepted(p0, p1, p2, p3, offset, depth, max_depth) {
        vstd::arithmetic::power2::lemma_pow2_pos((max_depth - depth) as nat);
    } else {
        let d = spec_divide_cubic_bezier(p0, p1, p2, p3, Fixed { bits: THIRD });
        lemma_cubic_offset_bounded(p0, d.0, d.1, d.2, offset, depth + 1, max_depth);
        lemma_cubic_offset_bounded(d.2, d.3, d.4, p3, offset, depth + 1, max_depth);
        lemma_pow2_unfold((max_depth - depth) as nat);
    }
}

/// The pieces into which the approximator divides a cubic curve run from
/// the start of the curve to its end without a gap, and the offset ends at
/// the end of the curve moved by the offset along the end normal of the
/// last piece, which for a curve that is not divided is the end normal of
/// the curve.
pub proof fn lemma_cubic_leaves_meet(
    p0: Point,
    p1: Point,
    p2: Point,
    p3: Point,
    offset: Fixed,
    depth: nat,
    max_depth: nat,
)
    ensures
        ({
            let out = spec_offset_cubic_bezier(p0, p1, p2, p3, offset, depth, max_depth);
            let leaves = cubic_leaves(p0, p1, p2, p3, offset, depth, max_depth);
            let last = leaves.last();
            &&& 1 <= leaves.len() == out.len()
            &&& leaves[0].p0 == p0
            &&& last.p3 == p3
            &&& forall|k: int|
                0 <= k < leaves.len() - 1 ==> (#[trigger] leaves[k]).p3 == leaves[k + 1].p0
            &&& out.last().spec_end() == Some(
                p3.plus(spec_cubic_normals(last.p0, last.p1, last.p2, last.p3).3.times(offset)),
            )
            &&& cubic_accepted(p0, p1, p2, p3, offset, depth, max_depth) ==> leaves == seq![
                CubicLeaf { p0, p1, p2, p3, depth },
            ]
        }),
    decreases max_depth - depth,
{
    if !cubic_accepted(p0, p1, p2, p3, offset, depth, max_depth) {
        let d = spec_divide_cubic_bezier(p0, p1, p2, p3, Fixed { bits: THIRD });
        lemma_cubic_leaves_meet(p0, d.0, d.1, d.2, offset, depth + 1, max_depth);
        lemma_cubic_leaves_meet(d.2, d.3, d.4, p3, offset, depth + 1, max_depth);
        let a = cubic_leaves(p0, d.0, d.1, d.2, offset, depth + 1, max_depth);
        let b = cubic_leaves(d.2, d.3, d.4, p3, offset, depth + 1, max_depth);
        let oa = spec_offset_cubic_bezier(p0, d.0, d.1, d.2, offset, depth + 1, max_depth);
        let ob = spec_offset_cubic_bezier(d.2, d.3, d.4, p3, offset, depth + 1, max_depth);
        let leaves = a + b;
        assert(leaves[0] == a[0]);
        assert(leaves.last() == b.last());
        assert((oa + ob).last() == ob.last());
        assert forall|k: int| 0 <= k < leaves.len() - 1 implies (#[trigger] leaves[k]).p3
            == leaves[k + 1].p0 by {
            if k + 1 < a.len() {
                assert(leaves[k] == a[k] && leaves[k + 1] == a[k + 1]);
            } else if k + 1 == a.len() {
                assert(leaves[k] == a.last() && leaves[k + 1] == b[0]);
            } else {
                assert(leaves[k] == b[k - a.len()] && leaves[k + 1] == b[k + 1 - a.len()]);
            }
        }
    }
}

/// Where the miter of a corner is as long as the limit allows, or longer,
/// the miter join is the bevel join.
pub proof fn lemma_miter_at_limit_is_bevel(
    start: Option<Point>,
    pivot: Point,
    n0: Vector,
    n1: Vector,
    r: Fixed,
    limit: Fixed,
)
    requires
        miter_exceeds(n0, n1, limit),
    ensures
        join_segments(start, pivot, n0, n1, r, LineJoin::Miter, limit) == join_segments(
            start,
            pivot,
            n0,
            n1,
            r,
            LineJoin::Bevel,
            limit,
        ),
{
}

/// The outline is a function of the path, the stroke and the depth: equal
/// inputs give equal outlines.
pub proof fn lemma_stroke_deterministic(
    path: Seq<CurveSegment>,
    stroke: Stroke,
    max_depth: nat,
    other_path: Seq<CurveSegment>,
    other_stroke: Stroke,
    other_depth: nat,
)
    requires
        path == other_path,
        stroke == other_stroke,
        max_depth == other_depth,
    ensures
        stroke_outline(path, stroke, max_depth) == stroke_outline(
            other_path,
            other_stroke,
            other_depth,
        ),
{
}

/// A path traced backwards is made of edges.
pub proof fn lemma_reversed_edges(s: Seq<CurveSegment>)
    ensures
        all_edges(reversed(s)),
    decreases s.len(),
{
    if s.len() > 0 {
        lemma_reversed_edges(s.drop_last());
    }
}

/// A join is made of edges, and of one at least.
pub proof fn lemma_join_edges(
    start: Option<Point>,
    pivot: Point,
    n0: Vector,
    n1: Vector,
    r: Fixed,
    join: LineJoin,
    limit: Fixed,
)
    ensures
        all_edges(join_segments(start, pivot, n0, n1, r, join, limit)),
        join_segments(start, pivot, n0, n1, r, join, limit).len() >= 1,
{
}

/// A cap is made of edges, and of one at least.
pub proof fn lemma_cap_edges(p: Point, n: Vector, t: Vector, stroke: Stroke)
    ensures
        all_edges(cap_segments(p, n, t, stroke)),
        cap_segments(p, n, t, stroke).len() >= 1,
{
}

/// The offset of a quadratic curve is made of edges, and of one at least.
pub proof fn lemma_quad_offset_edges(
    p0: Point,
    p1: Point,
    p2: Point,
    offset: Fixed,
    depth: nat,
    max_depth: nat,
)
    ensures
        all_edges(spec_offset_quad_bezier(p0, p1, p2, offset, depth, max_depth)),
        spec_offset_quad_bezier(p0, p1, p2, offset, depth, max_depth).len() >= 1,
    decreases max_depth - depth,
{
    if !quad_accepted(p0, p1, p2, offset, depth, max_depth) {
        let d = spec_divide_quad_bezier(p0, p1, p2, Fixed { bits: HALF });
        lemma_quad_offset_edges(p0, d.0, d.1, offset, depth + 1, max_depth);
        lemma_quad_offset_edges(d.1, d.2, p2, offset, depth + 1, max_depth);
    }
}

/// The offset of a cubic curve is made of edges, and of one at least.
pub proof fn lemma_cubic_offset_edges(
    p0: Point,
    p1: Point,
    p2: Point,
    p3: Point,
    offset: Fixed,
    depth: nat,
    max_depth: nat,
)
    ensures
        all_edges(spec_offset_cubic_bezier(p0, p1, p2, p3, offset, depth, max_depth)),
        spec_offset_cubic_bezier(p0, p1, p2, p3, offset, depth, max_depth).len() >= 1,
    decreases max_depth - depth,
{
    if !cubic_accepted(p0, p1, p2, p3, offset, depth, max_depth) {
        let d = spec_divide_cubic_bezier(p0, p1, p2, p3, Fixed { bits: THIRD });
        lemma_cubic_offset_edges(p0, d.0, d.1, d.2, offset, depth + 1, max_depth);
        lemma_cubic_offset_edges(d.2, d.3, d.4, p3, offset, depth + 1, max_depth);
    }
}

/// Edges appended to an open contour leave it an open contour.
pub proof fn lemma_open_contour_grows(s: Seq<CurveSegment>, e: Seq<CurveSegment>)
    requires
        open_contour(s),
        all_edges(e),
    ensures
        open_contour(s + e),
{
    let t = s + e;
    assert forall|i: int| 0 <= i < t.len() implies if #[trigger] t[i] is Move {
        i == 0 || t[i - 1] is Close
    } else {
        i > 0 && !(t[i - 1] is Close)
    } by {
        if i < s.len() {
            assert(t[i] == s[i]);
        } else {
            assert(t[i] == e[i - s.len()]);
            if i > s.len() {
                assert(t[i - 1] == e[i - 1 - s.len()]);
            } else {
                assert(t[i - 1] == s.last());
            }
        }
    }
    if e.len() > 0 {
        assert(t.last() == e.last());
    } else {
        assert(t =~= s);
    }
}

/// A `Move` appended where every contour is closed opens a contour.
pub proof fn lemma_contour_opens(s: Seq<CurveSegment>, p: Point)
    requires
        closed_contours(s),
    ensures
        open_contour(s.push(CurveSegment::Move(p))),
{
}

/// A `Close` appended to an open contour closes every contour.
pub proof fn lemma_contour_closes(s: Seq<CurveSegment>)
    requires
        open_contour(s),
    ensures
        closed_contours(s.push(CurveSegment::Close)),
{
}

/// The outline as far as a scan has made it: closed contours while the
/// scan is between subpaths, and one open contour after them while it is in
/// one.
pub open spec fn trace_in_order(t: Trace) -> bool {
    match t.walk.normal {
        Some(_) => open_contour(t.out),
        None => closed_contours(t.out),
    }
}

/// Entering an edge leaves the outline with an open contour.
pub proof fn lemma_enter_in_order(t: Trace, n1: Vector, stroke: Stroke)
    requires
        trace_in_order(t),
    ensures
        open_contour(spec_enter_segment(t, n1, stroke).out),
        spec_enter_segment(t, n1, stroke).walk.normal == t.walk.normal,
{
    let r = stroke.spec_radius();
    match t.walk.normal {
        Some(n0) => {
            let j = join_segments(
                last_point(t.out),
                t.walk.position,
                n0,
                n1,
                r,
                stroke.join,
                stroke.miter,
            );
            lemma_join_edges(
                last_point(t.out),
                t.walk.position,
                n0,
                n1,
                r,
                stroke.join,
                stroke.miter,
            );
            lemma_open_contour_grows(t.out, j);
        },
        None => {
            lemma_contour_opens(t.out, t.walk.position.plus(n1.times(r)));
        },
    }
}

/// Finishing an open subpath leaves every contour closed.
pub proof fn lemma_finish_in_order(t: Trace, stroke: Stroke)
    requires
        trace_in_order(t),
    ensures
        closed_contours(spec_finish_open(t, stroke).out),
        spec_finish_open(t, stroke).walk.normal is None,
{
    match t.walk.normal {
        Some(n) => {
            let (pf, nf) = match t.walk.anchor {
                Some(a) => a,
                None => (t.walk.position, n),
            };
            let c0 = cap_segments(t.walk.position, n.neg(), n.hat().neg(), stroke);
            let c1 = cap_segments(pf, nf, nf.hat(), stroke);
            lemma_cap_edges(t.walk.position, n.neg(), n.hat().neg(), stroke);
            lemma_cap_edges(pf, nf, nf.hat(), stroke);
            lemma_reversed_edges(t.outside);
            lemma_open_contour_grows(t.out, c0);
            lemma_open_contour_grows(t.out + c0, reversed(t.outside));
            lemma_open_contour_grows(t.out + c0 + reversed(t.outside), c1);
            let body = t.out + c0 + reversed(t.outside) + c1;
            lemma_contour_closes(body);
            assert(body.push(CurveSegment::Close) =~= body + seq![CurveSegment::Close]);
        },
        None => {},
    }
}

/// Closing a subpath leaves every contour closed.
pub proof fn lemma_close_in_order(t: Trace, stroke: Stroke)
    requires
        trace_in_order(t),
    ensures
        closed_contours(spec_close_contour(t, stroke).out),
        spec_close_contour(t, stroke).walk.normal is None,
{
    let r = stroke.spec_radius();
    match t.walk.normal {
        Some(n) => {
            let (pf, nf) = match t.walk.anchor {
                Some(a) => a,
                None => (t.walk.position, n),
            };
            lemma_contour_closes(t.out);
            let closed = t.out.push(CurveSegment::Close);
            lemma_contour_opens(closed, pf.minus(nf.times(r)));
            let opened = closed.push(CurveSegment::Move(pf.minus(nf.times(r))));
            lemma_reversed_edges(t.outside);
            lemma_open_contour_grows(opened, far_return(t.outside));
            lemma_open_contour_grows(opened + far_return(t.outside), reversed(t.outside));
            let body = opened + far_return(t.outside) + reversed(t.outside);
            lemma_contour_closes(body);
            assert(body.push(CurveSegment::Close) =~= closed + far_contour(
                t.outside,
                pf.minus(nf.times(r)),
            ));
        },
        None => {},
    }
}

/// A segment leaves the outline in order.
pub proof fn lemma_segment_in_order(
    t: Trace,
    segment: CurveSegment,
    stroke: Stroke,
    max_depth: nat,
)
    requires
        trace_in_order(t),
        segment is Move ==> t.walk.normal is None,
    ensures
        trace_in_order(spec_stroke_segment(t, segment, stroke, max_depth)),
{
    let r = stroke.spec_radius();
    let p0 = t.walk.position;
    match segment {
        CurveSegment::Move(p) => {},
        CurveSegment::Line(p1) => {
            let n1 = spec_line_normal(p0, p1);
            if !n1.is_zero() {
                lemma_enter_in_order(t, n1, stroke);
                let e = spec_enter_segment(t, n1, stroke);
                let edge = seq![CurveSegment::Line(p1.plus(n1.times(r)))];
                lemma_open_contour_grows(e.out, edge);
                assert(e.out.push(CurveSegment::Line(p1.plus(n1.times(r)))) =~= e.out + edge);
            }
        },
        CurveSegment::Quad(p1, p2) => {
            let n = spec_quad_normals(p0, p1, p2);
            if !n.0.is_zero() {
                lemma_enter_in_order(t, n.0, stroke);
                let e = spec_enter_segment(t, n.0, stroke);
                lemma_quad_offset_edges(p0, p1, p2, r, 0, max_depth);
                lemma_open_contour_grows(
                    e.out,
                    spec_offset_quad_bezier(p0, p1, p2, r, 0, max_depth),
                );
            }
        },
        CurveSegment::Cubic(p1, p2, p3) => {
            let n = spec_cubic_normals(p0, p1, p2, p3);
            if !n.0.is_zero() {
                lemma_enter_in_order(t, n.0, stroke);
                let e = spec_enter_segment(t, n.0, stroke);
                lemma_cubic_offset_edges(p0, p1, p2, p3, r, 0, max_depth);
                lemma_open_contour_grows(
                    e.out,
                    spec_offset_cubic_bezier(p0, p1, p2, p3, r, 0, max_depth),
                );
            }
        },
        CurveSegment::Close => {
            lemma_close_in_order(t, stroke);
        },
    }
}

/// The scan keeps the outline in order, and is between subpaths before
/// every `Move` and at the end of the path.
pub proof fn lemma_scan_in_order(
    path: Seq<CurveSegment>,
    i: nat,
    stroke: Stroke,
    max_depth: nat,
    init: Seq<CurveSegment>,
)
    requires
        i <= path.len(),
        closed_contours(init),
    ensures
        trace_in_order(scan(path, i, stroke, max_depth, init)),
        i >= path.len() || path[i as int] is Move ==> scan(
            path,
            i,
            stroke,
            max_depth,
            init,
        ).walk.normal is None,
    decreases i,
{
    if i > 0 {
        lemma_scan_in_order(path, (i - 1) as nat, stroke, max_depth, init);
        let before = scan(path, (i - 1) as nat, stroke, max_depth, init);
        lemma_segment_in_order(before, path[i - 1], stroke, max_depth);
        let t = spec_stroke_segment(before, path[i - 1], stroke, max_depth);
        if i >= path.len() || path[i as int] is Move {
            lemma_finish_in_order(t, stroke);
        }
    }
}

/// Every contour of an outline is closed: each starts with its one `Move`
/// and ends with a `Close`, with edges alone between them.
pub proof fn lemma_outline_closed(path: Seq<CurveSegment>, stroke: Stroke, max_depth: nat)
    ensures
        closed_contours(stroke_outline(path, stroke, max_depth)),
{
    lemma_scan_in_order(path, path.len(), stroke, max_depth, Seq::empty());
}

/// A path whose contours are closed is well formed: it can be stroked and
/// filled in its turn.
pub proof fn lemma_closed_contours_well_formed(s: Seq<CurveSegment>)
    requires
        closed_contours(s),
    ensures
        well_formed(s),
{
}

/// The outline of a single line with butt caps is the quadrilateral through
/// its two ends moved to either side by the normal times the radius: along
/// the near side, across the end, back along the far side, and across the
/// start.
pub proof fn lemma_line_outline(p0: Point, p1: Point, stroke: Stroke, max_depth: nat)
    requires
        stroke.cap == LineCap::Butt,
        !spec_line_normal(p0, p1).is_zero(),
    ensures
        ({
            let n = spec_line_normal(p0, p1);
            let r = stroke.spec_radius();
            stroke_outline(seq![CurveSegment::Move(p0), CurveSegment::Line(p1)], stroke, max_depth)
                == seq![
                CurveSegment::Move(p0.plus(n.times(r))),
                CurveSegment::Line(p1.plus(n.times(r))),
                CurveSegment::Line(p1.plus(n.neg().times(r))),
                CurveSegment::Line(p0.minus(n.times(r))),
                CurveSegment::Line(p0.plus(n.times(r))),
                CurveSegment::Close,
            ]
        }),
{
    let path = seq![CurveSegment::Move(p0), CurveSegment::Line(p1)];
    let n = spec_line_normal(p0, p1);
    let r = stroke.spec_radius();
    let empty = Seq::<CurveSegment>::empty();
    let t0 = scan(path, 0, stroke, max_depth, empty);
    let t1 = scan(path, 1, stroke, max_depth, empty);
    let t2 = scan(path, 2, stroke, max_depth, empty);
    assert(t0 == trace_start(empty));
    assert(path[0] == CurveSegment::Move(p0));
    assert(path[1] == CurveSegment::Line(p1));
    assert(t1 == spec_stroke_segment(t0, path[0], stroke, max_depth));
    assert(t1.walk.position == p0 && t1.walk.normal is None);
    let e = spec_enter_segment(t1, n, stroke);
    let walked = spec_stroke_segment(t1, path[1], stroke, max_depth);
    assert(t2 == spec_finish_open(walked, stroke));
    assert(walked.outside =~= seq![
        CurveSegment::Move(p0.minus(n.times(r))),
        CurveSegment::Line(p1.plus(n.times(r.neg()))),
    ]);
    assert(walked.outside.drop_last() =~= seq![CurveSegment::Move(p0.minus(n.times(r)))]);
    assert(walked.outside.drop_last().drop_last() =~= empty);
    assert(last_point(walked.outside.drop_last()) == Some(p0.minus(n.times(r))));
    assert(reversed(walked.outside.drop_last()) =~= empty) by {
        assert(reversed(walked.outside.drop_last().drop_last()) =~= empty);
    }
    assert(reversed(walked.outside) =~= seq![CurveSegment::Line(p0.minus(n.times(r)))]);
    assert(t2.out =~= seq![
        CurveSegment::Move(p0.plus(n.times(r))),
        CurveSegment::Line(p1.plus(n.times(r))),
        CurveSegment::Line(p1.plus(n.neg().times(r))),
        CurveSegment::Line(p0.minus(n.times(r))),
        CurveSegment::Line(p0.plus(n.times(r))),
        CurveSegment::Close,
    ]);
}

/// Whether `p` lies at the distance of the magnitude of `r` from `center`,
/// within the tolerance.
pub open spec fn on_circle(p: Point, center: Point, r: Fixed) -> bool {
    near_radius(norm_squared(p.since(center)), abs(r.bits as int))
}

/// Whether a circle of the radius `r` about `center` lies within the range
/// of coordinates.
pub open spec fn circle_in_range(center: Point, r: Fixed) -> bool {
    &&& r.in_range()
    &&& abs(center.x.bits as int) + abs(r.bits as int) <= LIMIT
    &&& abs(center.y.bits as int) + abs(r.bits as int) <= LIMIT
}

/// The point that lies from `center` along the unit vector `n` at the
/// signed distance `r` is on the circle of that radius about `center`.
pub proof fn lemma_offset_on_circle(center: Point, n: Vector, r: Fixed)
    requires
        is_unit(n),
        circle_in_range(center, r),
    ensures
        on_circle(center.plus(n.times(r)), center, r),
{
    reveal(Fixed::spec_times);
    reveal(Fixed::spec_plus);
    reveal(Fixed::spec_minus);
    let k = ONE as int;
    let a = abs(n.x.bits as int);
    let b = abs(n.y.bits as int);
    let radius = abs(r.bits as int);
    let px = n.x.bits * r.bits;
    let py = n.y.bits * r.bits;
    assert(abs(px) == a * radius && abs(py) == b * radius) by (nonlinear_arith)
        requires
            px == n.x.bits * r.bits,
            py == n.y.bits * r.bits,
            a == abs(n.x.bits as int),
            b == abs(n.y.bits as int),
            radius == abs(r.bits as int),
    ;
    let dx = trunc_quot(px, k);
    let dy = trunc_quot(py, k);
    lemma_trunc_quot_abs(px, k);
    lemma_trunc_quot_abs(py, k);
    let u = (a * radius) / k;
    let v = (b * radius) / k;
    assert(a * a + b * b == norm_squared(n)) by (nonlinear_arith)
        requires
            a == abs(n.x.bits as int),
            b == abs(n.y.bits as int),
            norm_squared(n) == n.x.bits * n.x.bits + n.y.bits * n.y.bits,
    ;
    lemma_scaled_near_radius(a, b, radius, u, v);
    assert(abs(dx) == u && abs(dy) == v);
    assert(dx * dx + dy * dy == u * u + v * v) by (nonlinear_arith)
        requires
            abs(dx) == u,
            abs(dy) == v,
    ;
    let d = n.times(r);
    assert(d.x.bits == dx && d.y.bits == dy);
    let p = center.plus(d);
    assert(p.x.bits == center.x.bits + dx && p.y.bits == center.y.bits + dy);
    let back = p.since(center);
    assert(back.x.bits == dx && back.y.bits == dy);
}

/// The normal of a line that has a direction is a unit vector.
pub proof fn lemma_line_normal_unit(p0: Point, p1: Point)
    requires
        !spec_line_normal(p0, p1).is_zero(),
    ensures
        is_unit(spec_line_normal(p0, p1)),
{
    let v = p1.since(p0).hat();
    if v.is_zero() {
        reveal(Vector::spec_normalize);
    } else {
        lemma_normalize_unit(v);
    }
}

/// The round join is two cubic segments, of which the first ends in the
/// middle of the arc and the second at its end. Both points lie on the
/// circle of the radius `r` about the pivot, where the arc has a middle:
/// where the corner is no full turn back.
pub proof fn lemma_round_join_on_circle(
    start: Option<Point>,
    pivot: Point,
    n0: Vector,
    n1: Vector,
    r: Fixed,
)
    requires
        is_unit(n1),
        !n0.plus(n1).is_zero(),
        circle_in_range(pivot, r),
    ensures
        ({
            let s = round_segments(start, pivot, n0, n1, r);
            let mid = round_mid(pivot, n0, n1, r);
            let end = pivot.plus(n1.times(r));
            &&& s.len() == 2
            &&& s[0] is Cubic && s[0].spec_end() == Some(mid)
            &&& s[1] is Cubic && s[1].spec_end() == Some(end)
            &&& on_circle(mid, pivot, r)
            &&& on_circle(end, pivot, r)
        }),
{
    lemma_normalize_unit(n0.plus(n1));
    lemma_offset_on_circle(pivot, n0.plus(n1).normalize(), r);
    lemma_offset_on_circle(pivot, n1, r);
}

/// Whether the coordinate lies in the inner quarter of the range, where a
/// sum of two coordinates is exact and so is the difference of two sums.
pub open spec fn in_quarter_range(c: Fixed) -> bool {
    -(LIMIT / 4) <= c.bits <= LIMIT / 4
}

/// The unit vector along the y axis is exactly that, whatever the length of
/// the vector it is taken from.
pub proof fn lemma_normalize_along_y(d: Fixed)
    requires
        d.bits > 0,
    ensures
        (Vector { x: Fixed { bits: 0 }, y: d }).normalize() == (Vector {
            x: Fixed { bits: 0 },
            y: Fixed { bits: ONE },
        }),
{
    reveal(Vector::spec_normalize);
    let y = d.bits as int;
    let f = norm_scale(0, y);
    let ys = y * f;
    assert(ys > 0) by {
        if f == 1 {
            assert(ys == y);
        } else {
            assert(ys == y * 0x8000_0000);
        }
    }
    let zero = 0 * f;
    assert(zero == 0);
    assert(zero * zero + ys * ys == ys * ys);
    assert(ys * ys < (ys + 1) * (ys + 1)) by (nonlinear_arith)
        requires
            ys > 0,
    ;
    assert(ys * ys >= 0) by (nonlinear_arith);
    lemma_isqrt_unique((ys * ys) as nat, ys as nat);
    assert(hypot(zero, ys) == ys);
    assert(0 * f * ONE == 0);
    assert(unit_component(0, 0, y) == 0);
    assert(y * f * ONE == ys * ONE);
    vstd::arithmetic::div_mod::lemma_div_multiples_vanish(ONE as int, ys);
    assert(ys * ONE == ys * (ONE as int));
    assert(ys * ONE >= 0) by (nonlinear_arith)
        requires
            ys > 0,
    ;
    assert(unit_component(y, 0, y) == ONE);
}

/// The normal of a line along the x axis, drawn toward greater x, is the
/// unit vector along the y axis.
pub proof fn lemma_horizontal_normal(p0: Point, p1: Point)
    requires
        p0.y == p1.y,
        p0.x.bits < p1.x.bits,
        in_quarter_range(p0.x),
        in_quarter_range(p0.y),
        in_quarter_range(p1.x),
    ensures
        spec_line_normal(p0, p1) == (Vector { x: Fixed { bits: 0 }, y: Fixed { bits: ONE } }),
{
    let d = p1.since(p0);
    assert(d.x.bits == p1.x.bits - p0.x.bits && d.y.bits == 0) by {
        reveal(Fixed::spec_minus);
    }
    assert(d.hat() == (Vector { x: Fixed { bits: 0 }, y: d.x })) by {
        reveal(Fixed::spec_neg);
    }
    lemma_normalize_along_y(d.x);
}

/// The point that lies from `p` along the y axis at the signed distance
/// `r`, to one side and to the other.
pub proof fn lemma_offset_along_y(p: Point, r: Fixed)
    requires
        0 < r.bits,
        in_quarter_range(r),
        in_quarter_range(p.x),
        in_quarter_range(p.y),
    ensures
        ({
            let up = Vector { x: Fixed { bits: 0 }, y: Fixed { bits: ONE } };
            &&& p.plus(up.times(r)) == (Point { x: p.x, y: Fixed { bits: (p.y.bits + r.bits) as i64 } })
            &&& p.minus(up.times(r)) == (Point {
                x: p.x,
                y: Fixed { bits: (p.y.bits - r.bits) as i64 },
            })
            &&& p.plus(up.neg().times(r)) == p.minus(up.times(r))
        }),
{
    reveal(Fixed::spec_times);
    reveal(Fixed::spec_plus);
    reveal(Fixed::spec_minus);
    reveal(Fixed::spec_neg);
    let e = r.bits as int;
    assert(ONE * e == e * (ONE as int));
    vstd::arithmetic::div_mod::lemma_div_multiples_vanish(e, ONE as int);
    assert(trunc_quot(ONE * e, ONE as int) == e);
    assert((-ONE) * e == -(ONE * e)) by (nonlinear_arith);
    assert(trunc_quot((-ONE) * e, ONE as int) == -e);
    assert(0 * e == 0);
    assert(trunc_quot(0 * e, ONE as int) == 0);
}

/// The winding about `q` of the rectangle from `(x0, y1)` by way of
/// `(x1, y1)`, `(x1, y0)` and `(x0, y0)` back to where it began: minus one
/// for the points of the rectangle but those on its two edges at the
/// greatest x and the greatest y, and zero for all others.
pub proof fn lemma_band_winding(x0: Fixed, x1: Fixed, y0: Fixed, y1: Fixed, q: Point)
    requires
        x0.bits < x1.bits,
        y0.bits < y1.bits,
        -(LIMIT / 2) <= x0.bits && x1.bits <= LIMIT / 2,
        -(LIMIT / 2) <= y0.bits && y1.bits <= LIMIT / 2,
        -(LIMIT / 2) <= q.x.bits <= LIMIT / 2,
        -(LIMIT / 2) <= q.y.bits <= LIMIT / 2,
    ensures
        ({
            let a = Point { x: x0, y: y1 };
            let b = Point { x: x1, y: y1 };
            let c = Point { x: x1, y: y0 };
            let d = Point { x: x0, y: y0 };
            winding_number(
                seq![
                    CurveSegment::Move(a),
                    CurveSegment::Line(b),
                    CurveSegment::Line(c),
                    CurveSegment::Line(d),
                    CurveSegment::Line(a),
                    CurveSegment::Close,
                ],
                q,
            ) == if x0.bits <= q.x.bits < x1.bits && y0.bits <= q.y.bits < y1.bits {
                -1int
            } else {
                0int
            }
        }),
{
    reveal(Fixed::spec_minus);
    let a = Point { x: x0, y: y1 };
    let b = Point { x: x1, y: y1 };
    let c = Point { x: x1, y: y0 };
    let d = Point { x: x0, y: y0 };
    let s = seq![
        CurveSegment::Move(a),
        CurveSegment::Line(b),
        CurveSegment::Line(c),
        CurveSegment::Line(d),
        CurveSegment::Line(a),
        CurveSegment::Close,
    ];
    let (lx, hx, ly, hy) = (x0.bits as int, x1.bits as int, y0.bits as int, y1.bits as int);
    let (qx, qy) = (q.x.bits as int, q.y.bits as int);
    let t0 = tally(s, 0, q);
    let t1 = tally(s, 1, q);
    let t2 = tally(s, 2, q);
    let t3 = tally(s, 3, q);
    let t4 = tally(s, 4, q);
    let t5 = tally(s, 5, q);
    let t6 = tally(s, 6, q);
    assert(t1 == tally_segment(t0, s[0], q));
    assert(t2 == tally_segment(t1, s[1], q));
    assert(t3 == tally_segment(t2, s[2], q));
    assert(t4 == tally_segment(t3, s[3], q));
    assert(t5 == tally_segment(t4, s[4], q));
    assert(t6 == tally_segment(t5, s[5], q));
    assert(t1.winding == 0 && t1.start == Some(a) && t1.pen == Some(a));
    assert(edge_winding(a, b, q) == 0);
    assert(edge_winding(c, d, q) == 0);
    assert(edge_winding(a, a, q) == 0);
    assert(orientation(b, c, q) == (hx - qx) * (ly - hy)) by (nonlinear_arith)
        requires
            orientation(b, c, q) == (hx - qx) * (ly - qy) - (hy - qy) * (hx - qx),
    ;
    assert(orientation(d, a, q) == (lx - qx) * (hy - ly)) by (nonlinear_arith)
        requires
            orientation(d, a, q) == (lx - qx) * (hy - qy) - (ly - qy) * (lx - qx),
    ;
    let right = edge_winding(b, c, q);
    let left = edge_winding(d, a, q);
    assert(right == if ly <= qy < hy && qx < hx {
        -1int
    } else {
        0int
    }) by (nonlinear_arith)
        requires
            right == if hy - qy <= 0 && ly - qy > 0 && (hx - qx) * (ly - hy) > 0 {
                1int
            } else if hy - qy > 0 && ly - qy <= 0 && (hx - qx) * (ly - hy) < 0 {
                -1int
            } else {
                0int
            },
            ly < hy,
    ;
    assert(left == if ly <= qy < hy && qx < lx {
        1int
    } else {
        0int
    }) by (nonlinear_arith)
        requires
            left == if ly - qy <= 0 && hy - qy > 0 && (lx - qx) * (hy - ly) > 0 {
                1int
            } else if ly - qy > 0 && hy - qy <= 0 && (lx - qx) * (hy - ly) < 0 {
                -1int
            } else {
                0int
            },
            ly < hy,
    ;
    assert(t5.winding == right + left);
    assert(t5.start == Some(a) && t5.pen == Some(a));
    assert(t6.winding == right + left && t6.start == Some(a) && t6.pen == Some(a));
    assert(closing_winding(t6.start, t6.pen, q) == 0);
    assert(winding_number(s, q) == right + left);
}

/// The outline of a line along the x axis with butt caps is the rectangle
/// around the line that is as long as the line and as wide as the stroke,
/// exactly: from the start of the line moved up by the radius, by way of its
/// end moved up, its end moved down and its start moved down, and back.
pub proof fn lemma_horizontal_line_outline(p0: Point, p1: Point, stroke: Stroke, max_depth: nat)
    requires
        stroke.cap == LineCap::Butt,
        p0.y == p1.y,
        p0.x.bits < p1.x.bits,
        0 < stroke.spec_radius().bits,
        in_quarter_range(stroke.spec_radius()),
        in_quarter_range(p0.x),
        in_quarter_range(p0.y),
        in_quarter_range(p1.x),
    ensures
        ({
            let up = Fixed { bits: (p0.y.bits + stroke.spec_radius().bits) as i64 };
            let down = Fixed { bits: (p0.y.bits - stroke.spec_radius().bits) as i64 };
            stroke_outline(seq![CurveSegment::Move(p0), CurveSegment::Line(p1)], stroke, max_depth)
                == seq![
                CurveSegment::Move(Point { x: p0.x, y: up }),
                CurveSegment::Line(Point { x: p1.x, y: up }),
                CurveSegment::Line(Point { x: p1.x, y: down }),
                CurveSegment::Line(Point { x: p0.x, y: down }),
                CurveSegment::Line(Point { x: p0.x, y: up }),
                CurveSegment::Close,
            ]
        }),
{
    let r = stroke.spec_radius();
    lemma_horizontal_normal(p0, p1);
    lemma_offset_along_y(p0, r);
    lemma_offset_along_y(p1, r);
    lemma_line_outline(p0, p1, stroke, max_depth);
}

/// The outline of a line along the x axis with butt caps holds, under the
/// non-zero rule, the points that lie along the line and nearer to it than
/// the radius: those of the rectangle around the line, but those on its two
/// edges at the greatest x and the greatest y.
pub proof fn lemma_horizontal_line_band(
    p0: Point,
    p1: Point,
    stroke: Stroke,
    max_depth: nat,
    q: Point,
)
    requires
        stroke.cap == LineCap::Butt,
        p0.y == p1.y,
        p0.x.bits < p1.x.bits,
        0 < stroke.spec_radius().bits,
        in_quarter_range(stroke.spec_radius()),
        in_quarter_range(p0.x),
        in_quarter_range(p0.y),
        in_quarter_range(p1.x),
        in_quarter_range(q.x),
        in_quarter_range(q.y),
    ensures
        inside(
            stroke_outline(seq![CurveSegment::Move(p0), CurveSegment::Line(p1)], stroke, max_depth),
            q,
            FillRule::NonZero,
        ) == (p0.x.bits <= q.x.bits < p1.x.bits && p0.y.bits - stroke.spec_radius().bits
            <= q.y.bits < p0.y.bits + stroke.spec_radius().bits),
{
    let r = stroke.spec_radius();
    lemma_horizontal_line_outline(p0, p1, stroke, max_depth);
    lemma_band_winding(
        p0.x,
        p1.x,
        Fixed { bits: (p0.y.bits - r.bits) as i64 },
        Fixed { bits: (p0.y.bits + r.bits) as i64 },
        q,
    );
}

/// The trace with the outline `before` in front of its own.
pub open spec fn prefixed(before: Seq<CurveSegment>, t: Trace) -> Trace {
    Trace { walk: t.walk, out: before + t.out, outside: t.outside }
}

/// What lies in front of an open contour does not change where the contour
/// has come to.
pub proof fn lemma_last_point_of_open_contour(before: Seq<CurveSegment>, s: Seq<CurveSegment>)
    requires
        open_contour(s),
    ensures
        last_point(before + s) == last_point(s),
        last_point(s) is Some,
{
    assert((before + s).last() == s.last());
}

/// Entering an edge does to an outline with another in front of it what it
/// does to the outline alone.
pub proof fn lemma_enter_prefixed(before: Seq<CurveSegment>, t: Trace, n1: Vector, stroke: Stroke)
    requires
        trace_in_order(t),
    ensures
        spec_enter_segment(prefixed(before, t), n1, stroke) == prefixed(
            before,
            spec_enter_segment(t, n1, stroke),
        ),
{
    let r = stroke.spec_radius();
    let p0 = t.walk.position;
    match t.walk.normal {
        Some(n0) => {
            lemma_last_point_of_open_contour(before, t.out);
            let j = join_segments(last_point(t.out), p0, n0, n1, r, stroke.join, stroke.miter);
            assert((before + t.out) + j =~= before + (t.out + j));
        },
        None => {
            let m = CurveSegment::Move(p0.plus(n1.times(r)));
            assert((before + t.out).push(m) =~= before + t.out.push(m));
        },
    }
}

/// A segment does to an outline with another in front of it what it does
/// to the outline alone.
pub proof fn lemma_segment_prefixed(
    before: Seq<CurveSegment>,
    t: Trace,
    segment: CurveSegment,
    stroke: Stroke,
    max_depth: nat,
)
    requires
        trace_in_order(t),
    ensures
        spec_stroke_segment(prefixed(before, t), segment, stroke, max_depth) == prefixed(
            before,
            spec_stroke_segment(t, segment, stroke, max_depth),
        ),
{
    let r = stroke.spec_radius();
    let p0 = t.walk.position;
    match segment {
        CurveSegment::Move(p) => {},
        CurveSegment::Line(p1) => {
            let n1 = spec_line_normal(p0, p1);
            if !n1.is_zero() {
                lemma_enter_prefixed(before, t, n1, stroke);
                let e = spec_enter_segment(t, n1, stroke);
                let edge = CurveSegment::Line(p1.plus(n1.times(r)));
                assert((before + e.out).push(edge) =~= before + e.out.push(edge));
            }
        },
        CurveSegment::Quad(p1, p2) => {
            let n = spec_quad_normals(p0, p1, p2);
            if !n.0.is_zero() {
                lemma_enter_prefixed(before, t, n.0, stroke);
                let e = spec_enter_segment(t, n.0, stroke);
                let edges = spec_offset_quad_bezier(p0, p1, p2, r, 0, max_depth);
                assert((before + e.out) + edges =~= before + (e.out + edges));
            }
        },
        CurveSegment::Cubic(p1, p2, p3) => {
            let n = spec_cubic_normals(p0, p1, p2, p3);
            if !n.0.is_zero() {
                lemma_enter_prefixed(before, t, n.0, stroke);
                let e = spec_enter_segment(t, n.0, stroke);
                let edges = spec_offset_cubic_bezier(p0, p1, p2, p3, r, 0, max_depth);
                assert((before + e.out) + edges =~= before + (e.out + edges));
            }
        },
        CurveSegment::Close => {
            match t.walk.normal {
                Some(n) => {
                    let (pf, nf) = match t.walk.anchor {
                        Some(a) => a,
                        None => (t.walk.position, n),
                    };
                    let far = far_contour(t.outside, pf.minus(nf.times(r)));
                    assert((before + t.out).push(CurveSegment::Close) + far =~= before + (
                    t.out.push(CurveSegment::Close) + far));
                },
                None => {},
            }
        },
    }
}

/// Finishing an open subpath does to an outline with another in front of
/// it what it does to the outline alone.
pub proof fn lemma_finish_prefixed(before: Seq<CurveSegment>, t: Trace, stroke: Stroke)
    ensures
        spec_finish_open(prefixed(before, t), stroke) == prefixed(
            before,
            spec_finish_open(t, stroke),
        ),
{
    match t.walk.normal {
        Some(n) => {
            let (pf, nf) = match t.walk.anchor {
                Some(a) => a,
                None => (t.walk.position, n),
            };
            let c0 = cap_segments(t.walk.position, n.neg(), n.hat().neg(), stroke);
            let c1 = cap_segments(pf, nf, nf.hat(), stroke);
            let close = seq![CurveSegment::Close];
            assert(before + t.out + c0 + reversed(t.outside) + c1 + close =~= before + (t.out + c0
                + reversed(t.outside) + c1 + close));
        },
        None => {},
    }
}

/// Between subpaths the far side of the stroke is empty and the scan has
/// no anchor.
pub proof fn lemma_scan_at_rest(
    path: Seq<CurveSegment>,
    i: nat,
    stroke: Stroke,
    max_depth: nat,
    init: Seq<CurveSegment>,
)
    requires
        i <= path.len(),
    ensures
        ({
            let t = scan(path, i, stroke, max_depth, init);
            t.walk.normal is None ==> t.outside.len() == 0 && t.walk.anchor is None
        }),
    decreases i,
{
    if i > 0 {
        lemma_scan_at_rest(path, (i - 1) as nat, stroke, max_depth, init);
    }
}

/// As far as the first of two paths goes, the scan of both is the scan of
/// the first, where the second starts a subpath of its own.
pub proof fn lemma_scan_of_first(
    a: Seq<CurveSegment>,
    b: Seq<CurveSegment>,
    i: nat,
    stroke: Stroke,
    max_depth: nat,
)
    requires
        i <= a.len(),
        b.len() > 0,
        b[0] is Move,
    ensures
        scan(a + b, i, stroke, max_depth, Seq::empty()) == scan(
            a,
            i,
            stroke,
            max_depth,
            Seq::empty(),
        ),
    decreases i,
{
    if i > 0 {
        lemma_scan_of_first(a, b, (i - 1) as nat, stroke, max_depth);
        assert((a + b)[i - 1] == a[i - 1]);
        if i < a.len() {
            assert((a + b)[i as int] == a[i as int]);
        } else {
            assert((a + b)[i as int] == b[0]);
        }
    }
}

/// Through the second of two paths, the scan of both is the scan of the
/// second with the outline of the first in front of its own.
pub proof fn lemma_scan_of_second(
    a: Seq<CurveSegment>,
    b: Seq<CurveSegment>,
    j: nat,
    stroke: Stroke,
    max_depth: nat,
)
    requires
        1 <= j <= b.len(),
        b[0] is Move,
    ensures
        scan(a + b, a.len() + j, stroke, max_depth, Seq::empty()) == prefixed(
            stroke_outline(a, stroke, max_depth),
            scan(b, j, stroke, max_depth, Seq::empty()),
        ),
    decreases j,
{
    let empty = Seq::<CurveSegment>::empty();
    let before = stroke_outline(a, stroke, max_depth);
    let i = a.len() + j;
    let t_prev = scan(a + b, (i - 1) as nat, stroke, max_depth, empty);
    let u_prev = scan(b, (j - 1) as nat, stroke, max_depth, empty);
    let segment = b[j - 1];
    assert((a + b)[i - 1] == segment);
    assert((a + b).len() == a.len() + b.len());
    if j < b.len() {
        assert((a + b)[i as int] == b[j as int]);
    }
    lemma_scan_in_order(b, (j - 1) as nat, stroke, max_depth, empty);
    if j == 1 {
        lemma_scan_of_first(a, b, a.len(), stroke, max_depth);
        lemma_scan_in_order(a, a.len(), stroke, max_depth, empty);
        lemma_scan_at_rest(a, a.len(), stroke, max_depth, empty);
        assert(t_prev.out == before);
        assert(u_prev == trace_start(empty));
        let moved = spec_stroke_segment(u_prev, segment, stroke, max_depth);
        assert(spec_stroke_segment(t_prev, segment, stroke, max_depth) == Trace {
            walk: moved.walk,
            out: before,
            outside: t_prev.outside,
        });
        assert(t_prev.outside =~= moved.outside);
        assert(before + moved.out =~= before);
    } else {
        lemma_scan_of_second(a, b, (j - 1) as nat, stroke, max_depth);
        assert(t_prev == prefixed(before, u_prev));
        lemma_segment_prefixed(before, u_prev, segment, stroke, max_depth);
    }
    let u = spec_stroke_segment(u_prev, segment, stroke, max_depth);
    lemma_finish_prefixed(before, u, stroke);
}

/// Subpaths are stroked each on its own: the outline of two paths in a
/// row, of which the second starts a subpath of its own, is the outline of
/// the first followed by the outline of the second.
pub proof fn lemma_subpaths_independent(
    a: Seq<CurveSegment>,
    b: Seq<CurveSegment>,
    stroke: Stroke,
    max_depth: nat,
)
    requires
        b.len() > 0 ==> b[0] is Move,
    ensures
        stroke_outline(a + b, stroke, max_depth) == stroke_outline(a, stroke, max_depth)
            + stroke_outline(b, stroke, max_depth),
{
    if b.len() == 0 {
        assert(a + b =~= a);
        assert(stroke_outline(b, stroke, max_depth) =~= Seq::<CurveSegment>::empty());
        assert(stroke_outline(a, stroke, max_depth) + Seq::<CurveSegment>::empty()
            =~= stroke_outline(a, stroke, max_depth));
    } else {
        lemma_scan_of_second(a, b, b.len(), stroke, max_depth);
        assert((a + b).len() == a.len() + b.len());
    }
}

/// The point at which the last subpath of a path began: that of its last
/// `Move`.
pub open spec fn contour_start(s: Seq<CurveSegment>) -> Option<Point>
    decreases s.len(),
{
    if s.len() == 0 {
        None
    } else {
        match s.last() {
            CurveSegment::Move(p) => Some(p),
            _ => contour_start(s.drop_last()),
        }
    }
}

/// Whether `s` is one side of a subpath that began at `m`: a `Move` to `m`
/// and edges alone after it.
pub open spec fn side_from(s: Seq<CurveSegment>, m: Point) -> bool {
    &&& s.len() >= 1
    &&& s[0] == CurveSegment::Move(m)
    &&& forall|k: int| 1 <= k < s.len() ==> (#[trigger] s[k]).is_edge()
}

/// Whether the two sides of the stroke stand as the walk says. In a
/// subpath the walk has an anchor; the near side began at the anchor moved
/// by the radius along its normal, and the far side is a side of its own
/// that began at the anchor moved against it and has an edge at least.
/// Between subpaths there is no anchor and no far side.
pub open spec fn sides_anchored(t: Trace, stroke: Stroke) -> bool {
    let r = stroke.spec_radius();
    match t.walk.normal {
        Some(_) => {
            &&& t.walk.anchor is Some
            &&& contour_start(t.out) == Some(t.walk.anchor->Some_0.0.plus(t.walk.anchor->Some_0.1.times(r)))
            &&& side_from(t.outside, t.walk.anchor->Some_0.0.minus(t.walk.anchor->Some_0.1.times(r)))
            &&& t.outside.len() >= 2
        },
        None => t.outside.len() == 0 && t.walk.anchor is None,
    }
}

/// Edges appended to a path leave its last subpath beginning where it did.
pub proof fn lemma_contour_start_grows(s: Seq<CurveSegment>, e: Seq<CurveSegment>)
    requires
        all_edges(e),
    ensures
        contour_start(s + e) == contour_start(s),
    decreases e.len(),
{
    if e.len() == 0 {
        assert(s + e =~= s);
    } else {
        let head = e.drop_last();
        assert((s + e).drop_last() =~= s + head);
        assert((s + e).last() == e.last());
        assert(e.last().is_edge());
        assert forall|k: int| 0 <= k < head.len() implies (#[trigger] head[k]).is_edge() by {
            assert(head[k] == e[k]);
        }
        lemma_contour_start_grows(s, head);
    }
}

/// Edges appended to a side leave it a side.
pub proof fn lemma_side_grows(s: Seq<CurveSegment>, m: Point, e: Seq<CurveSegment>)
    requires
        side_from(s, m),
        all_edges(e),
    ensures
        side_from(s + e, m),
{
    let t = s + e;
    assert(t[0] == s[0]);
    assert forall|k: int| 1 <= k < t.len() implies (#[trigger] t[k]).is_edge() by {
        if k < s.len() {
            assert(t[k] == s[k]);
        } else {
            assert(t[k] == e[k - s.len()]);
        }
    }
}

/// A side traced backwards is made of edges, and comes back to where the
/// side began.
pub proof fn lemma_reversed_returns(s: Seq<CurveSegment>, m: Point)
    requires
        side_from(s, m),
        s.len() >= 2,
    ensures
        reversed(s).len() >= 1,
        all_edges(reversed(s)),
        reversed(s).last().spec_end() == Some(m),
        last_point(reversed(s)) == Some(m),
    decreases s.len(),
{
    lemma_reversed_edges(s);
    let head = s.drop_last();
    assert(s.last() == s[s.len() - 1]);
    assert(s.last().is_edge());
    assert(head[0] == s[0]);
    assert forall|k: int| 1 <= k < head.len() implies (#[trigger] head[k]).is_edge() by {
        assert(head[k] == s[k]);
    }
    if s.len() == 2 {
        assert(head =~= seq![CurveSegment::Move(m)]);
        assert(head.drop_last() =~= Seq::<CurveSegment>::empty());
        assert(last_point(head) == Some(m));
        assert(reversed(head.drop_last()) =~= Seq::<CurveSegment>::empty());
        assert(reversed(head) =~= Seq::<CurveSegment>::empty());
        let first = crate::canvas::curve::reversed_edge(s.last(), Some(m));
        assert(reversed(s) =~= first);
        assert(first.len() == 1 && first[0].spec_end() == Some(m));
    } else {
        lemma_reversed_returns(head, m);
        let first = crate::canvas::curve::reversed_edge(s.last(), last_point(head));
        assert(reversed(s) == first + reversed(head));
        assert((first + reversed(head)).last() == reversed(head).last());
    }
    assert(reversed(s).last().is_edge());
}

/// A join ends where the next offset is to start: at the pivot moved by the
/// radius along the normal of the edge that follows.
pub proof fn lemma_join_arrives(
    start: Option<Point>,
    pivot: Point,
    n0: Vector,
    n1: Vector,
    r: Fixed,
    join: LineJoin,
    limit: Fixed,
)
    ensures
        join_segments(start, pivot, n0, n1, r, join, limit).last().spec_end() == Some(
            pivot.plus(n1.times(r)),
        ),
{
}

/// A cap ends across the end of the line from where it began: at the end
/// point moved by the radius along the normal.
pub proof fn lemma_cap_arrives(p: Point, n: Vector, t: Vector, stroke: Stroke)
    ensures
        cap_segments(p, n, t, stroke).last().spec_end() == Some(
            p.plus(n.times(stroke.spec_radius())),
        ),
{
}

/// Entering an edge leaves the sides anchored, but that the far side may
/// have no edge yet.
pub proof fn lemma_enter_anchored(t: Trace, n1: Vector, stroke: Stroke)
    requires
        sides_anchored(t, stroke),
    ensures
        ({
            let e = spec_enter_segment(t, n1, stroke);
            let r = stroke.spec_radius();
            &&& e.walk.anchor is Some
            &&& contour_start(e.out) == Some(e.walk.anchor->Some_0.0.plus(e.walk.anchor->Some_0.1.times(r)))
            &&& side_from(e.outside, e.walk.anchor->Some_0.0.minus(e.walk.anchor->Some_0.1.times(r)))
            &&& t.walk.normal is Some ==> e.outside.len() >= 2
        }),
{
    let r = stroke.spec_radius();
    let p0 = t.walk.position;
    match t.walk.normal {
        Some(n0) => {
            let a = t.walk.anchor->Some_0;
            let near = join_segments(last_point(t.out), p0, n0, n1, r, stroke.join, stroke.miter);
            let far = join_segments(
                last_point(t.outside),
                p0,
                n0,
                n1,
                r.neg(),
                stroke.join,
                stroke.miter,
            );
            lemma_join_edges(last_point(t.out), p0, n0, n1, r, stroke.join, stroke.miter);
            lemma_join_edges(last_point(t.outside), p0, n0, n1, r.neg(), stroke.join, stroke.miter);
            lemma_contour_start_grows(t.out, near);
            lemma_side_grows(t.outside, a.0.minus(a.1.times(r)), far);
        },
        None => {
            let m = CurveSegment::Move(p0.plus(n1.times(r)));
            assert(t.out.push(m).last() == m);
            assert(t.outside =~= Seq::<CurveSegment>::empty());
        },
    }
}

/// A segment leaves the sides anchored.
pub proof fn lemma_segment_anchored(t: Trace, segment: CurveSegment, stroke: Stroke, max_depth: nat)
    requires
        sides_anchored(t, stroke),
        segment is Move ==> t.walk.normal is None,
    ensures
        sides_anchored(spec_stroke_segment(t, segment, stroke, max_depth), stroke),
{
    let r = stroke.spec_radius();
    let p0 = t.walk.position;
    match segment {
        CurveSegment::Move(p) => {},
        CurveSegment::Line(p1) => {
            let n1 = spec_line_normal(p0, p1);
            if !n1.is_zero() {
                lemma_enter_anchored(t, n1, stroke);
                let e = spec_enter_segment(t, n1, stroke);
                let a = e.walk.anchor->Some_0;
                let near = seq![CurveSegment::Line(p1.plus(n1.times(r)))];
                let far = seq![CurveSegment::Line(p1.plus(n1.times(r.neg())))];
                assert(e.out.push(near[0]) =~= e.out + near);
                assert(e.outside.push(far[0]) =~= e.outside + far);
                lemma_contour_start_grows(e.out, near);
                lemma_side_grows(e.outside, a.0.minus(a.1.times(r)), far);
            }
        },
        CurveSegment::Quad(p1, p2) => {
            let n = spec_quad_normals(p0, p1, p2);
            if !n.0.is_zero() {
                lemma_enter_anchored(t, n.0, stroke);
                let e = spec_enter_segment(t, n.0, stroke);
                let a = e.walk.anchor->Some_0;
                let near = spec_offset_quad_bezier(p0, p1, p2, r, 0, max_depth);
                let far = spec_offset_quad_bezier(p0, p1, p2, r.neg(), 0, max_depth);
                lemma_quad_offset_edges(p0, p1, p2, r, 0, max_depth);
                lemma_quad_offset_edges(p0, p1, p2, r.neg(), 0, max_depth);
                lemma_contour_start_grows(e.out, near);
                lemma_side_grows(e.outside, a.0.minus(a.1.times(r)), far);
            }
        },
        CurveSegment::Cubic(p1, p2, p3) => {
            let n = spec_cubic_normals(p0, p1, p2, p3);
            if !n.0.is_zero() {
                lemma_enter_anchored(t, n.0, stroke);
                let e = spec_enter_segment(t, n.0, stroke);
                let a = e.walk.anchor->Some_0;
                let near = spec_offset_cubic_bezier(p0, p1, p2, p3, r, 0, max_depth);
                let far = spec_offset_cubic_bezier(p0, p1, p2, p3, r.neg(), 0, max_depth);
                lemma_cubic_offset_edges(p0, p1, p2, p3, r, 0, max_depth);
                lemma_cubic_offset_edges(p0, p1, p2, p3, r.neg(), 0, max_depth);
                lemma_contour_start_grows(e.out, near);
                lemma_side_grows(e.outside, a.0.minus(a.1.times(r)), far);
            }
        },
        CurveSegment::Close => {},
    }
}

/// Throughout a scan that starts on an outline of its own the sides stand
/// as the walk says.
pub proof fn lemma_scan_anchored(
    path: Seq<CurveSegment>,
    i: nat,
    stroke: Stroke,
    max_depth: nat,
    init: Seq<CurveSegment>,
)
    requires
        i <= path.len(),
    ensures
        sides_anchored(scan(path, i, stroke, max_depth, init), stroke),
        i >= path.len() || path[i as int] is Move ==> scan(
            path,
            i,
            stroke,
            max_depth,
            init,
        ).walk.normal is None,
    decreases i,
{
    if i > 0 {
        lemma_scan_anchored(path, (i - 1) as nat, stroke, max_depth, init);
        let before = scan(path, (i - 1) as nat, stroke, max_depth, init);
        lemma_segment_anchored(before, path[i - 1], stroke, max_depth);
    }
}

/// The contour of an open subpath comes back to where it began before it
/// is closed: its last edge, the end of the cap at the start of the
/// subpath, ends at the point of its `Move`. The `Close` after it adds no
/// edge of any length.
pub proof fn lemma_open_contour_returns(t: Trace, stroke: Stroke)
    requires
        sides_anchored(t, stroke),
        t.walk.normal is Some,
    ensures
        ({
            let out = spec_finish_open(t, stroke).out;
            &&& out.len() >= 1
            &&& out.last() is Close
            &&& last_point(out.drop_last()) == contour_start(out.drop_last())
            &&& contour_start(out.drop_last()) == contour_start(t.out)
        }),
{
    let n = t.walk.normal->Some_0;
    let a = t.walk.anchor->Some_0;
    let r = stroke.spec_radius();
    let c0 = cap_segments(t.walk.position, n.neg(), n.hat().neg(), stroke);
    let c1 = cap_segments(a.0, a.1, a.1.hat(), stroke);
    let back = reversed(t.outside);
    lemma_cap_edges(t.walk.position, n.neg(), n.hat().neg(), stroke);
    lemma_cap_edges(a.0, a.1, a.1.hat(), stroke);
    lemma_cap_arrives(a.0, a.1, a.1.hat(), stroke);
    lemma_reversed_edges(t.outside);
    let body = t.out + c0 + back + c1;
    let out = spec_finish_open(t, stroke).out;
    assert(out == body + seq![CurveSegment::Close]);
    assert(out.drop_last() =~= body);
    assert(body.last() == c1.last());
    lemma_contour_start_grows(t.out, c0);
    lemma_contour_start_grows(t.out + c0, back);
    lemma_contour_start_grows(t.out + c0 + back, c1);
}

/// A side traced backwards has an edge for each edge of the side, last to
/// first: the edge turned round, which ends where the edge began.
pub proof fn lemma_reversed_points(s: Seq<CurveSegment>, m: Point)
    requires
        side_from(s, m),
    ensures
        reversed(s).len() == s.len() - 1,
        forall|j: int|
            0 <= j < s.len() - 1 ==> {
                &&& (#[trigger] reversed(s)[j]).is_edge()
                &&& reversed(s)[j].spec_end() == s[s.len() - 2 - j].spec_end()
                &&& seq![reversed(s)[j]] == crate::canvas::curve::reversed_edge(
                    s[s.len() - 1 - j],
                    s[s.len() - 2 - j].spec_end(),
                )
            },
    decreases s.len(),
{
    let head = s.drop_last();
    if s.len() == 1 {
        assert(head =~= Seq::<CurveSegment>::empty());
        assert(reversed(head) =~= Seq::<CurveSegment>::empty());
        assert(reversed(s) =~= Seq::<CurveSegment>::empty());
    } else {
        assert(head[0] == s[0]);
        assert forall|k: int| 1 <= k < head.len() implies (#[trigger] head[k]).is_edge() by {
            assert(head[k] == s[k]);
        }
        lemma_reversed_points(head, m);
        assert(s.last() == s[s.len() - 1]);
        assert(s.last().is_edge());
        assert(head.last() == s[s.len() - 2]);
        assert(head.last().spec_end() is Some);
        assert(last_point(head) == head.last().spec_end());
        let first = crate::canvas::curve::reversed_edge(s.last(), last_point(head));
        assert(first.len() == 1);
        assert(reversed(s) == first + reversed(head));
        assert forall|j: int| 0 <= j < s.len() - 1 implies {
            &&& (#[trigger] reversed(s)[j]).is_edge()
            &&& reversed(s)[j].spec_end() == s[s.len() - 2 - j].spec_end()
            &&& seq![reversed(s)[j]] == crate::canvas::curve::reversed_edge(
                s[s.len() - 1 - j],
                s[s.len() - 2 - j].spec_end(),
            )
        } by {
            if j == 0 {
                assert(reversed(s)[0] == first[0]);
                assert(seq![first[0]] =~= first);
            } else {
                assert(reversed(s)[j] == reversed(head)[j - 1]);
                assert(head[head.len() - 1 - (j - 1)] == s[s.len() - 1 - j]);
                assert(head[head.len() - 2 - (j - 1)] == s[s.len() - 2 - j]);
            }
        }
    }
}

/// The contour of the far side of a closed subpath traces the far side
/// backwards, whole: after its `Move` to where the far side began it names
/// every point that the far side names, from the last to the first, and
/// then it is closed. Its first edge is the straight one to where the far
/// side ended; every other is an edge of the far side turned round.
pub proof fn lemma_far_contour_traces(outside: Seq<CurveSegment>, home: Point)
    requires
        side_from(outside, home),
        outside.len() >= 2,
    ensures
        ({
            let far = far_contour(outside, home);
            let n = outside.len() as int;
            &&& far.len() == n + 2
            &&& far[0] == CurveSegment::Move(home)
            &&& far[1] == CurveSegment::Line(outside.last().spec_end()->Some_0)
            &&& far.last() is Close
            &&& forall|k: int|
                0 <= k < n ==> (#[trigger] far[1 + k]).is_edge() && far[1 + k].spec_end()
                    == outside[n - 1 - k].spec_end()
            &&& forall|k: int|
                1 <= k < n ==> seq![#[trigger] far[1 + k]] == crate::canvas::curve::reversed_edge(
                    outside[n - k],
                    outside[n - 1 - k].spec_end(),
                )
            &&& far[n].spec_end() == Some(home)
            &&& last_point(far.drop_last()) == Some(home)
        }),
{
    let n = outside.len() as int;
    lemma_reversed_points(outside, home);
    let back = reversed(outside);
    assert(outside.last() == outside[n - 1]);
    assert(outside.last().is_edge());
    assert(last_point(outside) == outside.last().spec_end());
    let run = far_return(outside);
    assert(run.len() == 1);
    let far = far_contour(outside, home);
    assert(far == seq![CurveSegment::Move(home)] + run + back + seq![CurveSegment::Close]);
    assert(far[1] == run[0]);
    assert forall|k: int| 0 <= k < n implies (#[trigger] far[1 + k]).is_edge() && far[1 + k].spec_end()
        == outside[n - 1 - k].spec_end() by {
        if k >= 1 {
            assert(far[1 + k] == back[k - 1]);
        }
    }
    assert forall|k: int| 1 <= k < n implies seq![#[trigger] far[1 + k]]
        == crate::canvas::curve::reversed_edge(outside[n - k], outside[n - 1 - k].spec_end()) by {
        assert(far[1 + k] == back[k - 1]);
    }
    assert(far[n].spec_end() == outside[0].spec_end());
    assert(far.drop_last() =~= seq![CurveSegment::Move(home)] + run + back);
    assert(far.drop_last().last() == far[n]);
}

/// The far side of a closed subpath is kept whole in the outline: the last
/// contour of the closed subpath is the contour that traces it backwards,
/// and comes back to where the far side began.
pub proof fn lemma_closed_far_side_returns(t: Trace, stroke: Stroke)
    requires
        sides_anchored(t, stroke),
        t.walk.normal is Some,
    ensures
        ({
            let out = spec_close_contour(t, stroke).out;
            let a = t.walk.anchor->Some_0;
            let home = a.0.minus(a.1.times(stroke.spec_radius()));
            &&& out == t.out.push(CurveSegment::Close) + far_contour(t.outside, home)
            &&& out.len() >= 1
            &&& out.last() is Close
            &&& contour_start(out.drop_last()) == Some(home)
            &&& last_point(out.drop_last()) == Some(home)
        }),
{
    let a = t.walk.anchor->Some_0;
    let r = stroke.spec_radius();
    let home = a.0.minus(a.1.times(r));
    let back = reversed(t.outside);
    lemma_reversed_returns(t.outside, home);
    lemma_far_contour_traces(t.outside, home);
    let run = far_return(t.outside);
    let opened = t.out.push(CurveSegment::Close).push(CurveSegment::Move(home));
    let out = spec_close_contour(t, stroke).out;
    assert(out =~= opened + run + back + seq![CurveSegment::Close]);
    assert(out.drop_last() =~= opened + run + back);
    assert((opened + run + back).last() == back.last());
    assert(opened.last() == CurveSegment::Move(home));
    assert(run.len() == 1 && run[0].is_edge());
    lemma_contour_start_grows(opened, run);
    lemma_contour_start_grows(opened + run, back);
}

/// Whether the last contour of a path comes back to where it began before
/// it is closed: the path ends in a `Close`, and the edge before that ends
/// at the point of the `Move` that began the contour.
pub open spec fn returns_home(s: Seq<CurveSegment>) -> bool {
    &&& s.len() >= 1
    &&& s.last() is Close
    &&& last_point(s.drop_last()) == contour_start(s.drop_last())
}

/// Whenever a scan is between subpaths, it has added nothing yet to the
/// outline that it started on, or the last contour of the outline comes
/// back to where it began.
pub proof fn lemma_scan_returns(
    path: Seq<CurveSegment>,
    i: nat,
    stroke: Stroke,
    max_depth: nat,
    init: Seq<CurveSegment>,
)
    requires
        i <= path.len(),
    ensures
        ({
            let t = scan(path, i, stroke, max_depth, init);
            t.walk.normal is None ==> t.out == init || returns_home(t.out)
        }),
    decreases i,
{
    if i > 0 {
        lemma_scan_returns(path, (i - 1) as nat, stroke, max_depth, init);
        lemma_scan_anchored(path, (i - 1) as nat, stroke, max_depth, init);
        let before = scan(path, (i - 1) as nat, stroke, max_depth, init);
        let segment = path[i - 1];
        lemma_segment_anchored(before, segment, stroke, max_depth);
        let t = spec_stroke_segment(before, segment, stroke, max_depth);
        if segment is Close && before.walk.normal is Some {
            lemma_closed_far_side_returns(before, stroke);
        }
        if t.walk.normal is Some {
            lemma_open_contour_returns(t, stroke);
        }
    }
}

/// The last contour of every outline comes back to where it began before
/// it is closed. For an open subpath that is its one contour, around both
/// sides and both caps; for a closed subpath it is the contour of the far
/// side. Together with the independence of subpaths this holds of the
/// last contour of every subpath.
pub proof fn lemma_outline_returns(path: Seq<CurveSegment>, stroke: Stroke, max_depth: nat)
    ensures
        stroke_outline(path, stroke, max_depth).len() == 0 || returns_home(
            stroke_outline(path, stroke, max_depth),
        ),
{
    let empty = Seq::<CurveSegment>::empty();
    lemma_scan_returns(path, path.len(), stroke, max_depth, empty);
    lemma_scan_in_order(path, path.len(), stroke, max_depth, empty);
}

/// A closed subpath gets no cap: after its `Close` the outline is what the
/// closing of the two sides made of it, and nothing more.
pub proof fn lemma_close_adds_no_cap(
    path: Seq<CurveSegment>,
    i: nat,
    stroke: Stroke,
    max_depth: nat,
    init: Seq<CurveSegment>,
)
    requires
        1 <= i <= path.len(),
        path[i - 1] is Close,
    ensures
        scan(path, i, stroke, max_depth, init) == spec_close_contour(
            scan(path, (i - 1) as nat, stroke, max_depth, init),
            stroke,
        ),
{
}

/// The round join is made of the two conics that its weight and its
/// control points describe, each kept as the cubic segment that stands for
/// it.
pub proof fn lemma_round_join_conics(
    start: Point,
    pivot: Point,
    n0: Vector,
    n1: Vector,
    r: Fixed,
)
    ensures
        round_segments(Some(start), pivot, n0, n1, r) == seq![
            conic_cubic(
                start,
                round_control(pivot, n0, n1, n0, r),
                round_mid(pivot, n0, n1, r),
                round_weight(n0, n1),
            ),
            conic_cubic(
                round_mid(pivot, n0, n1, r),
                round_control(pivot, n0, n1, n1, r),
                pivot.plus(n1.times(r)),
                round_weight(n0, n1),
            ),
        ],
{
}

/// The weight of the conics of the round join is the cosine of half the
/// angle between the first normal and the middle one, to a bit: its square
/// is half of one and their scalar product, and that half is taken to a
/// bit.
pub proof fn lemma_round_weight(n0: Vector, n1: Vector)
    ensures
        ({
            let d = n0.dot(n0.plus(n1).normalize());
            let half = Fixed { bits: ONE }.plus(d).times(Fixed { bits: HALF });
            let w = round_weight(n0, n1);
            &&& half.bits <= 0 ==> w.bits == 0
            &&& half.bits > 0 ==> w.bits * w.bits <= half.bits * ONE < (w.bits + 1) * (w.bits + 1)
            &&& -LIMIT <= ONE + d.bits <= LIMIT ==> ONE + d.bits - 1 <= 2 * half.bits <= ONE + d.bits + 1
        }),
{
    let d = n0.dot(n0.plus(n1).normalize());
    let sum = Fixed { bits: ONE }.plus(d);
    let half = sum.times(Fixed { bits: HALF });
    let w = round_weight(n0, n1);
    assert(w == half.sqrt());
    if half.bits > 0 {
        reveal(Fixed::spec_sqrt);
        let n = half.bits * ONE;
        assert(0 < n <= 0x7fff_ffff_ffff_ffff * 65536) by (nonlinear_arith)
            requires
                n == half.bits * ONE,
                ONE == 65536,
                0 < half.bits <= 0x7fff_ffff_ffff_ffff,
        ;
        lemma_isqrt_bounds(n as nat);
        let root = isqrt(n as nat) as int;
        assert(root <= LIMIT) by {
            if root > LIMIT {
                assert(root * root > 0x7fff_ffff_ffff_ffff * 65536) by (nonlinear_arith)
                    requires
                        root > 0x7fff_ffff_ffff_ffff,
                ;
            }
        }
    } else {
        reveal(Fixed::spec_sqrt);
    }
    if -LIMIT <= ONE + d.bits <= LIMIT {
        let a = ONE + d.bits;
        assert(sum.bits == a) by {
            reveal(Fixed::spec_plus);
        }
        lemma_half_to_a_bit(a);
        assert(half.bits == trunc_quot(a * HALF, ONE as int)) by {
            reveal(Fixed::spec_times);
        }
    }
}

/// Half of a number, rounded toward zero, is within a bit of the half.
pub proof fn lemma_half_to_a_bit(a: int)
    ensures
        a - 1 <= 2 * trunc_quot(a * HALF, ONE as int) <= a + 1,
        a >= 0 ==> 0 <= trunc_quot(a * HALF, ONE as int) <= a,
        a <= 0 ==> a <= trunc_quot(a * HALF, ONE as int) <= 0,
{
    let m = if a >= 0 { a } else { -a };
    assert(a * HALF == a * 32768 && (-a) * 32768 == -(a * 32768));
    lemma_floor_bounds(m * 32768, 65536);
    let q = (m * 32768) / 65536;
    assert(q * 65536 <= m * 32768 < (q + 1) * 65536);
    if a >= 0 {
        assert(trunc_quot(a * HALF, ONE as int) == q);
    } else {
        assert(a * HALF < 0);
        assert(-(a * HALF) == m * 32768);
        assert(trunc_quot(a * HALF, ONE as int) == -q);
    }
}

/// A length `on`, no longer than `reach`, times the inverse of the weight
/// `w`, is the length over the weight, to a bit and a part in 65536 of the
/// reach.
pub proof fn lemma_scaled_by_inverse(on: int, reach: int, w: int, inverse: int, c: int)
    requires
        0 <= on <= reach,
        0 < w,
        inverse == (ONE * ONE) / w,
        c == (on * inverse) / (ONE as int),
    ensures
        0 <= inverse <= ONE * ONE,
        0 <= c <= on * ONE,
        c * w <= on * ONE,
        ONE * ONE * on - (reach + ONE) * w <= ONE * (c * w),
{
    let k = ONE as int;
    let kk = k * k;
    assert(kk == 0x1_0000_0000) by (nonlinear_arith)
        requires
            kk == k * k,
            k == 65536,
    ;
    lemma_floor_bounds(kk, w);
    assert(inverse * w <= kk < (inverse + 1) * w);
    assert((inverse + 1) * w == inverse * w + w) by (nonlinear_arith);
    assert(inverse <= kk) by (nonlinear_arith)
        requires
            inverse * w <= kk,
            w >= 1,
            inverse >= 0,
    ;
    assert(on * inverse >= 0) by (nonlinear_arith)
        requires
            on >= 0,
            inverse >= 0,
    ;
    lemma_floor_bounds(on * inverse, k);
    assert(c * k <= on * inverse < (c + 1) * k);
    // From above.
    assert((c * k) * w <= (on * inverse) * w) by (nonlinear_arith)
        requires
            c * k <= on * inverse,
            w > 0,
    ;
    assert((on * inverse) * w == on * (inverse * w)) by (nonlinear_arith);
    assert(on * (inverse * w) <= on * kk) by (nonlinear_arith)
        requires
            inverse * w <= kk,
            on >= 0,
    ;
    assert((c * k) * w == (c * w) * k) by (nonlinear_arith);
    assert(on * kk == (on * k) * k) by (nonlinear_arith)
        requires
            kk == k * k,
    ;
    assert(c * w <= on * k) by (nonlinear_arith)
        requires
            (c * w) * k <= (on * k) * k,
            k == 65536,
    ;
    assert(c <= on * k) by (nonlinear_arith)
        requires
            c * w <= on * k,
            w >= 1,
            c >= 0,
    ;
    // From below.
    assert(((c + 1) * k) * w > (on * inverse) * w) by (nonlinear_arith)
        requires
            (c + 1) * k > on * inverse,
            w > 0,
    ;
    assert(on * (inverse * w) >= on * (kk - w)) by (nonlinear_arith)
        requires
            inverse * w > kk - w,
            on >= 0,
    ;
    assert(((c + 1) * k) * w == k * (c * w) + k * w) by (nonlinear_arith);
    assert(on * (kk - w) == kk * on - on * w) by (nonlinear_arith);
    assert(on * w <= reach * w) by (nonlinear_arith)
        requires
            on <= reach,
            w > 0,
    ;
    assert((reach + k) * w == reach * w + k * w) by (nonlinear_arith);
}

/// Whether a circle of the radius `r` about `center`, and the control
/// points of conics along it, lie within the range of coordinates.
pub open spec fn controls_in_range(center: Point, r: Fixed) -> bool {
    &&& r.in_range()
    &&& abs(center.x.bits as int) + abs(r.bits as int) * ONE <= LIMIT
    &&& abs(center.y.bits as int) + abs(r.bits as int) * ONE <= LIMIT
}

/// The control point of a conic of the round join lies from the pivot
/// along the unit vector in the middle of the conic, at the radius over
/// the weight: times the weight, each of its coordinates from the pivot is
/// that of the point of the circle along that vector, to a bit and a part
/// in 65536 of the radius.
pub proof fn lemma_round_control_reach(pivot: Point, n0: Vector, n1: Vector, n: Vector, r: Fixed)
    requires
        round_weight(n0, n1).bits > 0,
        !n.plus(n0.plus(n1).normalize()).is_zero(),
        controls_in_range(pivot, r),
    ensures
        ({
            let w = round_weight(n0, n1).bits as int;
            let u = n.plus(n0.plus(n1).normalize()).normalize();
            let on = u.times(r);
            let c = round_control(pivot, n0, n1, n, r).since(pivot);
            let reach = abs(r.bits as int);
            &&& is_unit(u)
            &&& on_circle(pivot.plus(on), pivot, r)
            &&& abs(c.x.bits as int) * w <= abs(on.x.bits as int) * ONE
            &&& abs(c.y.bits as int) * w <= abs(on.y.bits as int) * ONE
            &&& ONE * ONE * abs(on.x.bits as int) - (reach + ONE) * w <= ONE * (abs(c.x.bits as int) * w)
            &&& ONE * ONE * abs(on.y.bits as int) - (reach + ONE) * w <= ONE * (abs(c.y.bits as int) * w)
            &&& (on.x.bits >= 0 ==> c.x.bits >= 0) && (on.x.bits <= 0 ==> c.x.bits <= 0)
            &&& (on.y.bits >= 0 ==> c.y.bits >= 0) && (on.y.bits <= 0 ==> c.y.bits <= 0)
        }),
{
    let k = ONE as int;
    let weight = round_weight(n0, n1);
    let w = weight.bits as int;
    let u = n.plus(n0.plus(n1).normalize()).normalize();
    let reach = abs(r.bits as int);
    lemma_normalize_unit(n.plus(n0.plus(n1).normalize()));
    assert(reach * ONE >= reach) by (nonlinear_arith)
        requires
            reach >= 0,
    ;
    lemma_offset_on_circle(pivot, u, r);
    let inverse = Fixed { bits: ONE }.over(weight);
    assert(inverse.bits == (ONE * ONE) / w && 0 <= inverse.bits) by {
        reveal(Fixed::spec_over);
        lemma_floor_bounds(ONE * ONE, w);
        assert(ONE * ONE == 0x1_0000_0000) by (nonlinear_arith)
            requires
                ONE == 65536,
        ;
        assert(((ONE * ONE) / w) * w >= (ONE * ONE) / w) by (nonlinear_arith)
            requires
                (ONE * ONE) / w >= 0,
                w >= 1,
        ;
        assert(trunc_div(ONE * ONE, w) == (ONE * ONE) / w);
    }
    let on = u.times(r);
    let px = u.x.bits * r.bits;
    let py = u.y.bits * r.bits;
    lemma_trunc_quot_abs(px, k);
    lemma_trunc_quot_abs(py, k);
    let ax = abs(u.x.bits as int);
    let ay = abs(u.y.bits as int);
    assert(abs(px) == ax * reach && abs(py) == ay * reach) by (nonlinear_arith)
        requires
            px == u.x.bits * r.bits,
            py == u.y.bits * r.bits,
            ax == abs(u.x.bits as int),
            ay == abs(u.y.bits as int),
            reach == abs(r.bits as int),
    ;
    lemma_floor_bounds(ax * reach, k);
    lemma_floor_bounds(ay * reach, k);
    let ox = (ax * reach) / k;
    let oy = (ay * reach) / k;
    assert(ox <= reach) by (nonlinear_arith)
        requires
            ox * k <= ax * reach,
            0 <= ax <= k,
            reach >= 0,
            k == 65536,
    ;
    assert(oy <= reach) by (nonlinear_arith)
        requires
            oy * k <= ay * reach,
            0 <= ay <= k,
            reach >= 0,
            k == 65536,
    ;
    assert(on.x.bits == trunc_quot(px, k) && on.y.bits == trunc_quot(py, k)) by {
        reveal(Fixed::spec_times);
    }
    assert(abs(on.x.bits as int) == ox && abs(on.y.bits as int) == oy);
    let qx = on.x.bits * inverse.bits;
    let qy = on.y.bits * inverse.bits;
    lemma_trunc_quot_abs(qx, k);
    lemma_trunc_quot_abs(qy, k);
    assert(abs(qx) == ox * inverse.bits && abs(qy) == oy * inverse.bits) by (nonlinear_arith)
        requires
            qx == on.x.bits * inverse.bits,
            qy == on.y.bits * inverse.bits,
            ox == abs(on.x.bits as int),
            oy == abs(on.y.bits as int),
            inverse.bits >= 0,
    ;
    assert((qx >= 0 <== on.x.bits >= 0) && (qx <= 0 <== on.x.bits <= 0) && (qy >= 0 <== on.y.bits
        >= 0) && (qy <= 0 <== on.y.bits <= 0)) by (nonlinear_arith)
        requires
            qx == on.x.bits * inverse.bits,
            qy == on.y.bits * inverse.bits,
            inverse.bits >= 0,
    ;
    let cx = (ox * inverse.bits) / k;
    let cy = (oy * inverse.bits) / k;
    lemma_scaled_by_inverse(ox, reach, w, inverse.bits as int, cx);
    lemma_scaled_by_inverse(oy, reach, w, inverse.bits as int, cy);
    assert(ox * ONE <= reach * ONE && oy * ONE <= reach * ONE) by (nonlinear_arith)
        requires
            ox <= reach,
            oy <= reach,
    ;
    let far = on.times(inverse);
    assert(far.x.bits == trunc_quot(qx, k) && far.y.bits == trunc_quot(qy, k)) by {
        reveal(Fixed::spec_times);
    }
    let control = round_control(pivot, n0, n1, n, r);
    assert(control == pivot.plus(far));
    assert(control.since(pivot) == far) by {
        reveal(Fixed::spec_plus);
        reveal(Fixed::spec_minus);
    }
}

/// The scan after the first `i` segments of `path`, as `scan` gives it, but
/// started with the position at `start`.
pub open spec fn scan_from(
    path: Seq<CurveSegment>,
    i: nat,
    stroke: Stroke,
    max_depth: nat,
    init: Seq<CurveSegment>,
    start: Point,
) -> Trace
    decreases i,
{
    if i == 0 {
        Trace {
            walk: Walk { position: start, normal: None, anchor: None },
            out: init,
            outside: Seq::empty(),
        }
    } else {
        let t = spec_stroke_segment(
            scan_from(path, (i - 1) as nat, stroke, max_depth, init, start),
            path[i - 1],
            stroke,
            max_depth,
        );
        if i >= path.len() || path[i as int] is Move {
            spec_finish_open(t, stroke)
        } else {
            t
        }
    }
}

/// Where a scan starts is no matter to the outline of a well-formed path:
/// its first segment is a `Move`, which sets the position before any edge
/// is drawn. No edge of such a path is drawn from a point that the path
/// does not name.
pub proof fn lemma_scan_start_is_no_matter(
    path: Seq<CurveSegment>,
    i: nat,
    stroke: Stroke,
    max_depth: nat,
    init: Seq<CurveSegment>,
    start: Point,
)
    requires
        well_formed(path),
        i <= path.len(),
    ensures
        i >= 1 ==> scan_from(path, i, stroke, max_depth, init, start) == scan(
            path,
            i,
            stroke,
            max_depth,
            init,
        ),
        scan_from(path, i, stroke, max_depth, init, start).out == scan(
            path,
            i,
            stroke,
            max_depth,
            init,
        ).out,
    decreases i,
{
    if i == 1 {
        assert(path[0] is Move);
        assert(scan_from(path, 0, stroke, max_depth, init, start).out == trace_start(init).out);
    } else if i > 1 {
        lemma_scan_start_is_no_matter(path, (i - 1) as nat, stroke, max_depth, init, start);
    }
}

} // verus!
