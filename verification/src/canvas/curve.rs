//! The path model: an ordered run of segments, each drawn from the point
//! where the one before it ended.

use vstd::prelude::*;
use crate::canvas::canvas::FillRule;
use crate::canvas::stroke::{spec_divide_cubic_bezier, spec_divide_quad_bezier};
use crate::layout::fixed::{Fixed, HALF, ONE, wide_product};
use crate::layout::vector::Point;

verus! {

/// One step of a path.
#[derive(Clone, Copy, Debug, PartialEq, Eq, Structural, Hash)]
pub enum CurveSegment {
    /// Starts a subpath at a point.
    Move(Point),
    /// A straight edge to a point.
    Line(Point),
    /// A quadratic curve: control point, end point.
    Quad(Point, Point),
    /// A cubic curve: two control points, end point.
    Cubic(Point, Point, Point),
    /// Closes the subpath back to the point where it started.
    Close,
}

impl CurveSegment {
    /// The point where the segment ends; `Close` names none.
    pub open spec fn spec_end(self) -> Option<Point> {
        match self {
            CurveSegment::Move(p) => Some(p),
            CurveSegment::Line(p) => Some(p),
            CurveSegment::Quad(_, p) => Some(p),
            CurveSegment::Cubic(_, _, p) => Some(p),
            CurveSegment::Close => None,
        }
    }

    /// Whether the segment draws an edge to a point of its own.
    pub open spec fn is_edge(self) -> bool {
        self is Line || self is Quad || self is Cubic
    }

    #[verifier::when_used_as_spec(spec_end)]
    pub fn end(self) -> (p: Option<Point>)
        ensures
            p == self.spec_end(),
    {
        match self {
            CurveSegment::Move(p) => Some(p),
            CurveSegment::Line(p) => Some(p),
            CurveSegment::Quad(_, p) => Some(p),
            CurveSegment::Cubic(_, _, p) => Some(p),
            CurveSegment::Close => None,
        }
    }
}

/// The last point that the segments name: where an edge appended to them
/// would start.
pub open spec fn last_point(s: Seq<CurveSegment>) -> Option<Point>
    decreases s.len(),
{
    if s.len() == 0 {
        None
    } else {
        match s.last().spec_end() {
            Some(p) => Some(p),
            None => last_point(s.drop_last()),
        }
    }
}

/// A path is well formed when every segment but a `Move` continues a
/// subpath: it has a predecessor, and that predecessor is not a `Close`.
pub open spec fn well_formed(s: Seq<CurveSegment>) -> bool {
    forall|i: int|
        0 <= i < s.len() && !(#[trigger] s[i] is Move) ==> i > 0 && !(s[i - 1] is Close)
}

/// The segments that trace `s` backwards: each edge of `s`, last to first,
/// with its control points in reverse order and ending where the edge began.
/// A `Move` or a `Close` gives nothing, nor does an edge that no point
/// precedes.
pub open spec fn reversed(s: Seq<CurveSegment>) -> Seq<CurveSegment>
    decreases s.len(),
{
    if s.len() == 0 {
        Seq::empty()
    } else {
        reversed_edge(s.last(), last_point(s.drop_last())) + reversed(s.drop_last())
    }
}

/// The reverse of one segment that starts at `start`.
pub open spec fn reversed_edge(seg: CurveSegment, start: Option<Point>) -> Seq<CurveSegment> {
    match (seg, start) {
        (CurveSegment::Line(_), Some(a)) => seq![CurveSegment::Line(a)],
        (CurveSegment::Quad(c, _), Some(a)) => seq![CurveSegment::Quad(c, a)],
        (CurveSegment::Cubic(c1, c2, _), Some(a)) => seq![CurveSegment::Cubic(c2, c1, a)],
        _ => Seq::empty(),
    }
}

/// The bit pattern of the scalar three.
pub const THREE: i64 = 196608;

/// The bit pattern of the scalar four.
pub const FOUR: i64 = 262144;

/// The share of the way from an end of a conic with the given weight to
/// its control point at which the control point of the cubic curve lies
/// that stands for the conic: four thirds of the weight over one and the
/// weight. For the weight one the cubic curve is the conic; for the arc of
/// a circle it has the ends and the tangents of the arc and meets it in
/// its middle.
pub open spec fn conic_handle(weight: Fixed) -> Fixed {
    Fixed { bits: FOUR }.times(weight).over(
        Fixed { bits: THREE }.times(Fixed { bits: ONE }.plus(weight)),
    )
}

/// The cubic segment that stands for the conic from `start` with the given
/// control point, end point and weight.
pub open spec fn conic_cubic(start: Point, control: Point, end: Point, weight: Fixed) -> CurveSegment {
    let t = conic_handle(weight);
    CurveSegment::Cubic(start.lerp(control, t), end.lerp(control, t), end)
}

/// A path.
#[derive(Clone, Debug, PartialEq, Eq, Hash)]
pub struct Curve {
    pub segments: Vec<CurveSegment>,
}

impl View for Curve {
    type V = Seq<CurveSegment>;

    open spec fn view(&self) -> Seq<CurveSegment> {
        self.segments@
    }
}

impl Curve {
    /// The empty path.
    pub fn new() -> (c: Curve)
        ensures
            c@ == Seq::<CurveSegment>::empty(),
    {
        Curve { segments: Vec::new() }
    }

    pub fn len(&self) -> (n: usize)
        ensures
            n == self@.len(),
    {
        self.segments.len()
    }

    pub fn is_empty(&self) -> (b: bool)
        ensures
            b == (self@.len() == 0),
    {
        self.segments.len() == 0
    }

    /// The segment at `index`, if the path is that long.
    pub fn segment(&self, index: usize) -> (s: Option<CurveSegment>)
        ensures
            s == if index < self@.len() { Some(self@[index as int]) } else { None },
    {
        if index < self.segments.len() {
            Some(self.segments[index])
        } else {
            None
        }
    }

    /// Removes every segment.
    pub fn clear(&mut self)
        ensures
            final(self)@ == Seq::<CurveSegment>::empty(),
    {
        self.segments.clear();
    }

    /// Appends one segment.
    pub fn append(&mut self, segment: CurveSegment)
        ensures
            final(self)@ == old(self)@.push(segment),
    {
        self.segments.push(segment);
    }

    pub fn move_to(&mut self, p: Point)
        ensures
            final(self)@ == old(self)@.push(CurveSegment::Move(p)),
    {
        self.segments.push(CurveSegment::Move(p));
    }

    pub fn line_to(&mut self, p: Point)
        ensures
            final(self)@ == old(self)@.push(CurveSegment::Line(p)),
    {
        self.segments.push(CurveSegment::Line(p));
    }

    pub fn quad_to(&mut self, control: Point, p: Point)
        ensures
            final(self)@ == old(self)@.push(CurveSegment::Quad(control, p)),
    {
        self.segments.push(CurveSegment::Quad(control, p));
    }

    pub fn cubic_to(&mut self, control0: Point, control1: Point, p: Point)
        ensures
            final(self)@ == old(self)@.push(CurveSegment::Cubic(control0, control1, p)),
    {
        self.segments.push(CurveSegment::Cubic(control0, control1, p));
    }

    pub fn close(&mut self)
        ensures
            final(self)@ == old(self)@.push(CurveSegment::Close),
    {
        self.segments.push(CurveSegment::Close);
    }

    /// The last point that the first `n` segments name.
    pub fn point_before(&self, n: usize) -> (p: Option<Point>)
        requires
            n <= self@.len(),
        ensures
            p == last_point(self@.take(n as int)),
    {
        let mut i = n;
        while i > 0
            invariant
                i <= n <= self@.len(),
                last_point(self@.take(n as int)) == last_point(self@.take(i as int)),
            decreases i,
        {
            proof {
                assert(self@.take(i as int).drop_last() == self@.take(i - 1));
            }
            match self.segments[i - 1].end() {
                Some(p) => {
                    return Some(p);
                },
                None => {},
            }
            i -= 1;
        }
        None
    }

    /// The point where the next edge starts, if the path names any point.
    pub fn last_point(&self) -> (p: Option<Point>)
        ensures
            p == last_point(self@),
    {
        proof {
            assert(self@.take(self@.len() as int) == self@);
        }
        self.point_before(self.segments.len())
    }

    /// Appends the conic from the current point with the given control
    /// point, end point and weight, as a cubic segment. On a path that
    /// names no point yet the control point stands for the start.
    pub fn conic_to(&mut self, control: Point, p: Point, weight: Fixed)
        ensures
            final(self)@ == old(self)@.push(
                conic_cubic(
                    match last_point(old(self)@) {
                        Some(start) => start,
                        None => control,
                    },
                    control,
                    p,
                    weight,
                ),
            ),
    {
        let start = match self.last_point() {
            Some(start) => start,
            None => control,
        };
        let t = Fixed::from_bits(FOUR).times(weight).over(
            Fixed::from_bits(THREE).times(Fixed::one().plus(weight)),
        );
        self.segments.push(CurveSegment::Cubic(start.lerp(control, t), p.lerp(control, t), p));
    }

    /// Appends `other` traced backwards.
    pub fn append_reverse(&mut self, other: &Curve)
        ensures
            final(self)@ == old(self)@ + reversed(other@),
    {
        let mut i = other.segments.len();
        proof {
            assert(other@.take(i as int) == other@);
        }
        while i > 0
            invariant
                i <= other@.len(),
                old(self)@ + reversed(other@) == self@ + reversed(other@.take(i as int)),
            decreases i,
        {
            let start = other.point_before(i - 1);
            let seg = other.segments[i - 1];
            proof {
                let prefix = other@.take(i as int);
                assert(prefix.drop_last() == other@.take(i - 1));
                assert(prefix.last() == seg);
                assert(reversed(prefix) == reversed_edge(seg, start) + reversed(other@.take(i - 1)));
            }
            let ghost before = self@;
            match (seg, start) {
                (CurveSegment::Line(_), Some(a)) => {
                    self.segments.push(CurveSegment::Line(a));
                },
                (CurveSegment::Quad(c, _), Some(a)) => {
                    self.segments.push(CurveSegment::Quad(c, a));
                },
                (CurveSegment::Cubic(c1, c2, _), Some(a)) => {
                    self.segments.push(CurveSegment::Cubic(c2, c1, a));
                },
                _ => {},
            }
            proof {
                assert(self@ =~= before + reversed_edge(seg, start));
                assert(before + (reversed_edge(seg, start) + reversed(other@.take(i - 1))) =~= (
                before + reversed_edge(seg, start)) + reversed(other@.take(i - 1)));
            }
            i -= 1;
        }
        proof {
            assert(reversed(other@.take(0)) =~= Seq::<CurveSegment>::empty());
            assert(self@ + Seq::<CurveSegment>::empty() =~= self@);
        }
    }

    /// Whether every segment but a `Move` continues a subpath.
    pub fn is_well_formed(&self) -> (b: bool)
        ensures
            b == well_formed(self@),
    {
        let n = self.segments.len();
        let mut i: usize = 0;
        while i < n
            invariant
                i <= n == self@.len(),
                well_formed(self@.take(i as int)),
            decreases n - i,
        {
            let ok = match self.segments[i] {
                CurveSegment::Move(_) => true,
                _ => i > 0 && !matches!(self.segments[i - 1], CurveSegment::Close),
            };
            if !ok {
                return false;
            }
            i += 1;
        }
        proof {
            assert(self@.take(n as int) == self@);
        }
        true
    }
}

/// The number of times a curve is halved before its parts count as straight
/// edges in a hit test.
pub const FLATTEN_DEPTH: u8 = 4;

/// Twice the signed area of the triangle from `p` to `a` to `b`: positive
/// where `p` lies to the left of the edge from `a` to `b`.
pub open spec fn orientation(a: Point, b: Point, p: Point) -> int {
    let u = a.since(p);
    let v = b.since(p);
    u.x.bits * v.y.bits - u.y.bits * v.x.bits
}

/// What the edge from `a` to `b` adds to the winding number about `p`: one
/// where it crosses the ray from `p` along the x axis upwards, minus one
/// where it crosses it downwards. An edge owns its lower end and not its
/// upper end.
pub open spec fn edge_winding(a: Point, b: Point, p: Point) -> int {
    let u = a.since(p);
    let v = b.since(p);
    if u.y.bits <= 0 && v.y.bits > 0 && orientation(a, b, p) > 0 {
        1
    } else if u.y.bits > 0 && v.y.bits <= 0 && orientation(a, b, p) < 0 {
        -1
    } else {
        0
    }
}

/// The winding about `p` of the quadratic curve, halved `depth` times into
/// straight edges.
pub open spec fn quad_winding(p0: Point, p1: Point, p2: Point, p: Point, depth: nat) -> int
    decreases depth,
{
    if depth == 0 {
        edge_winding(p0, p2, p)
    } else {
        let d = spec_divide_quad_bezier(p0, p1, p2, Fixed { bits: HALF });
        quad_winding(p0, d.0, d.1, p, (depth - 1) as nat) + quad_winding(
            d.1,
            d.2,
            p2,
            p,
            (depth - 1) as nat,
        )
    }
}

/// The winding about `p` of the cubic curve, halved `depth` times into
/// straight edges.
pub open spec fn cubic_winding(
    p0: Point,
    p1: Point,
    p2: Point,
    p3: Point,
    p: Point,
    depth: nat,
) -> int
    decreases depth,
{
    if depth == 0 {
        edge_winding(p0, p3, p)
    } else {
        let d = spec_divide_cubic_bezier(p0, p1, p2, p3, Fixed { bits: HALF });
        cubic_winding(p0, d.0, d.1, d.2, p, (depth - 1) as nat) + cubic_winding(
            d.2,
            d.3,
            d.4,
            p3,
            p,
            (depth - 1) as nat,
        )
    }
}

/// A count of crossings on the way through a path.
pub struct Tally {
    /// Where the subpath began.
    pub start: Option<Point>,
    /// Where the last segment ended.
    pub pen: Option<Point>,
    /// The winding number so far.
    pub winding: int,
}

/// The winding of the edge that closes a subpath, from `pen` back to `start`.
pub open spec fn closing_winding(start: Option<Point>, pen: Option<Point>, p: Point) -> int {
    match (start, pen) {
        (Some(s), Some(a)) => edge_winding(a, s, p),
        _ => 0,
    }
}

/// The tally after one more segment. An edge where no point came before
/// starts at its own end and adds nothing.
pub open spec fn tally_segment(t: Tally, segment: CurveSegment, p: Point) -> Tally {
    match segment {
        CurveSegment::Move(q) => Tally {
            start: Some(q),
            pen: Some(q),
            winding: t.winding + closing_winding(t.start, t.pen, p),
        },
        CurveSegment::Close => Tally {
            start: t.start,
            pen: t.start,
            winding: t.winding + closing_winding(t.start, t.pen, p),
        },
        CurveSegment::Line(q) => match t.pen {
            Some(a) => Tally { start: t.start, pen: Some(q), winding: t.winding + edge_winding(a, q, p) },
            None => Tally { start: Some(q), pen: Some(q), winding: t.winding },
        },
        CurveSegment::Quad(c, q) => match t.pen {
            Some(a) => Tally {
                start: t.start,
                pen: Some(q),
                winding: t.winding + quad_winding(a, c, q, p, FLATTEN_DEPTH as nat),
            },
            None => Tally { start: Some(q), pen: Some(q), winding: t.winding },
        },
        CurveSegment::Cubic(c0, c1, q) => match t.pen {
            Some(a) => Tally {
                start: t.start,
                pen: Some(q),
                winding: t.winding + cubic_winding(a, c0, c1, q, p, FLATTEN_DEPTH as nat),
            },
            None => Tally { start: Some(q), pen: Some(q), winding: t.winding },
        },
    }
}

/// The tally after the first `i` segments of `s`.
pub open spec fn tally(s: Seq<CurveSegment>, i: nat, p: Point) -> Tally
    decreases i,
{
    if i == 0 {
        Tally { start: None, pen: None, winding: 0 }
    } else {
        tally_segment(tally(s, (i - 1) as nat, p), s[i - 1], p)
    }
}

/// The winding number of the path about `p`: the signed count of the edges
/// that cross the ray from `p` along the x axis, with every subpath closed
/// and every curve flattened.
pub open spec fn winding_number(s: Seq<CurveSegment>, p: Point) -> int {
    let t = tally(s, s.len(), p);
    t.winding + closing_winding(t.start, t.pen, p)
}

/// Whether `p` is inside the path under the fill rule.
pub open spec fn inside(s: Seq<CurveSegment>, p: Point, fill: FillRule) -> bool {
    match fill {
        FillRule::NonZero => winding_number(s, p) != 0,
        FillRule::EvenOdd => winding_number(s, p) % 2 != 0,
    }
}

/// A flattened quadratic curve adds at most one turn for each of its edges.
pub proof fn lemma_quad_winding_bound(p0: Point, p1: Point, p2: Point, p: Point, depth: nat)
    ensures
        -vstd::arithmetic::power2::pow2(depth) <= quad_winding(p0, p1, p2, p, depth)
            <= vstd::arithmetic::power2::pow2(depth),
    decreases depth,
{
    vstd::arithmetic::power2::lemma2_to64();
    if depth > 0 {
        let d = spec_divide_quad_bezier(p0, p1, p2, Fixed { bits: HALF });
        lemma_quad_winding_bound(p0, d.0, d.1, p, (depth - 1) as nat);
        lemma_quad_winding_bound(d.1, d.2, p2, p, (depth - 1) as nat);
        vstd::arithmetic::power2::lemma_pow2_unfold(depth);
    }
}

/// A flattened cubic curve adds at most one turn for each of its edges.
pub proof fn lemma_cubic_winding_bound(
    p0: Point,
    p1: Point,
    p2: Point,
    p3: Point,
    p: Point,
    depth: nat,
)
    ensures
        -vstd::arithmetic::power2::pow2(depth) <= cubic_winding(p0, p1, p2, p3, p, depth)
            <= vstd::arithmetic::power2::pow2(depth),
    decreases depth,
{
    vstd::arithmetic::power2::lemma2_to64();
    if depth > 0 {
        let d = spec_divide_cubic_bezier(p0, p1, p2, p3, Fixed { bits: HALF });
        lemma_cubic_winding_bound(p0, d.0, d.1, d.2, p, (depth - 1) as nat);
        lemma_cubic_winding_bound(d.2, d.3, d.4, p3, p, (depth - 1) as nat);
        vstd::arithmetic::power2::lemma_pow2_unfold(depth);
    }
}

/// Computes what the edge from `a` to `b` adds to the winding about `p`.
pub fn edge_crossing(a: Point, b: Point, p: Point) -> (w: i64)
    ensures
        w == edge_winding(a, b, p),
{
    let u = a.since(p);
    let v = b.since(p);
    let left = wide_product(u.x.bits, v.y.bits);
    let right = wide_product(u.y.bits, v.x.bits);
    assert(-0x3fff_ffff_ffff_ffff_0000_0000_0000_0001 <= left
        <= 0x3fff_ffff_ffff_ffff_0000_0000_0000_0001) by (nonlinear_arith)
        requires
            left == u.x.bits * v.y.bits,
            -0x7fff_ffff_ffff_ffff <= u.x.bits <= 0x7fff_ffff_ffff_ffff,
            -0x7fff_ffff_ffff_ffff <= v.y.bits <= 0x7fff_ffff_ffff_ffff,
    ;
    assert(-0x3fff_ffff_ffff_ffff_0000_0000_0000_0001 <= right
        <= 0x3fff_ffff_ffff_ffff_0000_0000_0000_0001) by (nonlinear_arith)
        requires
            right == u.y.bits * v.x.bits,
            -0x7fff_ffff_ffff_ffff <= u.y.bits <= 0x7fff_ffff_ffff_ffff,
            -0x7fff_ffff_ffff_ffff <= v.x.bits <= 0x7fff_ffff_ffff_ffff,
    ;
    let o = left - right;
    if u.y.bits <= 0 && v.y.bits > 0 && o > 0 {
        1
    } else if u.y.bits > 0 && v.y.bits <= 0 && o < 0 {
        -1
    } else {
        0
    }
}

/// Computes the winding of a flattened quadratic curve about `p`.
pub fn quad_crossing(p0: Point, p1: Point, p2: Point, p: Point, depth: u8) -> (w: i64)
    requires
        depth <= 32,
    ensures
        w == quad_winding(p0, p1, p2, p, depth as nat),
    decreases depth,
{
    if depth == 0 {
        edge_crossing(p0, p2, p)
    } else {
        let (c0, mid, c1) = Curve::divide_quad_bezier(p0, p1, p2, Fixed::from_bits(HALF));
        proof {
            lemma_quad_winding_bound(p0, c0, mid, p, (depth - 1) as nat);
            lemma_quad_winding_bound(mid, c1, p2, p, (depth - 1) as nat);
            vstd::arithmetic::power2::lemma_pow2_strictly_increases((depth - 1) as nat, 32);
            vstd::arithmetic::power2::lemma2_to64();
        }
        quad_crossing(p0, c0, mid, p, depth - 1) + quad_crossing(mid, c1, p2, p, depth - 1)
    }
}

/// Computes the winding of a flattened cubic curve about `p`.
pub fn cubic_crossing(p0: Point, p1: Point, p2: Point, p3: Point, p: Point, depth: u8) -> (w: i64)
    requires
        depth <= 32,
    ensures
        w == cubic_winding(p0, p1, p2, p3, p, depth as nat),
    decreases depth,
{
    if depth == 0 {
        edge_crossing(p0, p3, p)
    } else {
        let (c0, c1, mid, c2, c3) = Curve::divide_cubic_bezier(
            p0,
            p1,
            p2,
            p3,
            Fixed::from_bits(HALF),
        );
        proof {
            lemma_cubic_winding_bound(p0, c0, c1, mid, p, (depth - 1) as nat);
            lemma_cubic_winding_bound(mid, c2, c3, p3, p, (depth - 1) as nat);
            vstd::arithmetic::power2::lemma_pow2_strictly_increases((depth - 1) as nat, 32);
            vstd::arithmetic::power2::lemma2_to64();
        }
        cubic_crossing(p0, c0, c1, mid, p, depth - 1) + cubic_crossing(
            mid,
            c2,
            c3,
            p3,
            p,
            depth - 1,
        )
    }
}

/// Computes the winding of the edge that closes a subpath.
pub fn closing_crossing(start: Option<Point>, pen: Option<Point>, p: Point) -> (w: i64)
    ensures
        w == closing_winding(start, pen, p),
{
    match (start, pen) {
        (Some(s), Some(a)) => edge_crossing(a, s, p),
        _ => 0,
    }
}

/// The winding of a path grows by at most seventeen with each segment.
pub proof fn lemma_tally_bound(s: Seq<CurveSegment>, i: nat, p: Point)
    requires
        i <= s.len(),
    ensures
        -17 * i <= tally(s, i, p).winding <= 17 * i,
    decreases i,
{
    if i > 0 {
        lemma_tally_bound(s, (i - 1) as nat, p);
        let t = tally(s, (i - 1) as nat, p);
        vstd::arithmetic::power2::lemma2_to64();
        match s[i - 1] {
            CurveSegment::Quad(c, q) => {
                if t.pen is Some {
                    lemma_quad_winding_bound(t.pen->Some_0, c, q, p, FLATTEN_DEPTH as nat);
                }
            },
            CurveSegment::Cubic(c0, c1, q) => {
                if t.pen is Some {
                    lemma_cubic_winding_bound(t.pen->Some_0, c0, c1, q, p, FLATTEN_DEPTH as nat);
                }
            },
            _ => {},
        }
    }
}

impl Curve {
    /// The winding number of the path about `p`.
    pub fn winding(&self, p: Point) -> (w: i128)
        ensures
            w == winding_number(self@, p),
    {
        let n = self.segments.len();
        let mut start: Option<Point> = None;
        let mut pen: Option<Point> = None;
        let mut sum: i128 = 0;
        let mut i: usize = 0;
        while i < n
            invariant
                i <= n == self@.len(),
                (Tally { start, pen, winding: sum as int }) == tally(self@, i as nat, p),
            decreases n - i,
        {
            proof {
                lemma_tally_bound(self@, i as nat, p);
                lemma_tally_bound(self@, (i + 1) as nat, p);
            }
            match self.segments[i] {
                CurveSegment::Move(q) => {
                    sum = sum + closing_crossing(start, pen, p) as i128;
                    start = Some(q);
                    pen = Some(q);
                },
                CurveSegment::Close => {
                    sum = sum + closing_crossing(start, pen, p) as i128;
                    pen = start;
                },
                CurveSegment::Line(q) => {
                    match pen {
                        Some(a) => {
                            sum = sum + edge_crossing(a, q, p) as i128;
                        },
                        None => {
                            start = Some(q);
                        },
                    }
                    pen = Some(q);
                },
                CurveSegment::Quad(c, q) => {
                    match pen {
                        Some(a) => {
                            sum = sum + quad_crossing(a, c, q, p, FLATTEN_DEPTH) as i128;
                        },
                        None => {
                            start = Some(q);
                        },
                    }
                    pen = Some(q);
                },
                CurveSegment::Cubic(c0, c1, q) => {
                    match pen {
                        Some(a) => {
                            sum = sum + cubic_crossing(a, c0, c1, q, p, FLATTEN_DEPTH) as i128;
                        },
                        None => {
                            start = Some(q);
                        },
                    }
                    pen = Some(q);
                },
            }
            i += 1;
        }
        proof {
            lemma_tally_bound(self@, n as nat, p);
        }
        sum + closing_crossing(start, pen, p) as i128
    }

    /// Whether `p` is inside the path under the fill rule.
    pub fn contains(&self, p: Point, fill: FillRule) -> (b: bool)
        ensures
            b == inside(self@, p, fill),
    {
        let w = self.winding(p);
        match fill {
            FillRule::NonZero => w != 0,
            FillRule::EvenOdd => w % 2 != 0,
        }
    }
}

} // verus!
