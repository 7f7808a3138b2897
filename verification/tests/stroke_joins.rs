use ori_core::canvas::canvas::FillRule;
use ori_core::canvas::curve::{Curve, CurveSegment};
use ori_core::canvas::stroke::{
    carried, cubic_bezier, cubic_bezier_normal, cubic_bezier_tangent, cubic_normals, line_normal,
    quad_bezier, quad_bezier_normal, quad_bezier_tangent, quad_normals, segment_normal, LineCap,
    LineJoin, Stroke, MAX_DEPTH,
};
use ori_core::layout::fixed::{Fixed, HALF, THIRD};
use ori_core::layout::vector::{Point, Vector};
use std::collections::hash_map::DefaultHasher;
use std::hash::{Hash, Hasher};

fn pt(x: i32, y: i32) -> Point {
    Point::new(Fixed::from_int(x), Fixed::from_int(y))
}

fn ptf(x: f64, y: f64) -> Point {
    Point::new(
        Fixed::from_bits((x * 65536.0).round() as i64),
        Fixed::from_bits((y * 65536.0).round() as i64),
    )
}

fn vec2(x: i32, y: i32) -> Vector {
    Vector::new(Fixed::from_int(x), Fixed::from_int(y))
}

fn xy(p: Point) -> (f64, f64) {
    (p.x.bits as f64 / 65536.0, p.y.bits as f64 / 65536.0)
}

fn distance(p: Point, x: f64, y: f64) -> f64 {
    let (px, py) = xy(p);
    ((px - x) * (px - x) + (py - y) * (py - y)).sqrt()
}

fn unit(degrees: f64) -> Vector {
    let a = degrees.to_radians();
    Vector::new(
        Fixed::from_bits((a.cos() * 65536.0).round() as i64),
        Fixed::from_bits((a.sin() * 65536.0).round() as i64),
    )
}

#[test]
fn defaults() {
    let s = Stroke::default();
    assert_eq!(s.width, Fixed::from_int(1));
    assert_eq!(s.miter, Fixed::from_int(4));
    assert_eq!(s.cap, LineCap::Butt);
    assert_eq!(s.join, LineJoin::Miter);
    let t = Stroke::from(Fixed::from_int(6));
    assert_eq!(t.width, Fixed::from_int(6));
    assert_eq!(t.miter, Fixed::from_int(4));
    assert_eq!(t.cap, LineCap::Butt);
    assert_eq!(t.join, LineJoin::Miter);
    assert_eq!(t.radius(), Fixed::from_int(3));
    assert_eq!(Stroke::default().radius().bits, HALF);
    assert_eq!(MAX_DEPTH, 6);
}

#[test]
fn equal_strokes_hash_alike() {
    let hash = |s: &Stroke| {
        let mut h = DefaultHasher::new();
        s.hash(&mut h);
        h.finish()
    };
    let a = Stroke::from(Fixed::from_ratio(1, 3));
    let b = Stroke::from(Fixed::from_bits(21845));
    let c = Stroke::from(Fixed::from_bits(21846));
    assert_eq!(a, b);
    assert_eq!(hash(&a), hash(&b));
    assert_ne!(a, c);
    assert_ne!(hash(&a), hash(&c));
}

#[test]
fn normals_point_to_the_left_of_the_way() {
    assert_eq!(line_normal(pt(0, 0), pt(10, 0)), vec2(0, 1));
    assert_eq!(line_normal(pt(0, 0), pt(0, 10)), vec2(-1, 0));
    assert_eq!(line_normal(pt(5, 5), pt(0, 5)), vec2(0, -1));
    assert_eq!(line_normal(pt(3, 3), pt(3, 3)), Vector::zero());
    assert_eq!(quad_bezier_normal(pt(0, 0), pt(5, 0), pt(5, 5), Fixed::zero()), vec2(0, 1));
    assert_eq!(quad_bezier_normal(pt(0, 0), pt(5, 0), pt(5, 5), Fixed::one()), vec2(-1, 0));
    assert_eq!(
        cubic_bezier_normal(pt(0, 0), pt(5, 0), pt(10, 5), pt(10, 10), Fixed::zero()),
        vec2(0, 1)
    );
    assert_eq!(
        cubic_bezier_normal(pt(0, 0), pt(5, 0), pt(10, 5), pt(10, 10), Fixed::one()),
        vec2(-1, 0)
    );
    let t = Fixed::from_bits(HALF);
    assert_eq!(segment_normal(CurveSegment::Move(pt(1, 1)), pt(0, 0), t), None);
    assert_eq!(segment_normal(CurveSegment::Close, pt(0, 0), t), None);
    assert_eq!(segment_normal(CurveSegment::Line(pt(4, 0)), pt(0, 0), t), Some(vec2(0, 1)));
    assert_eq!(
        segment_normal(CurveSegment::Quad(pt(4, 4), pt(8, 0)), pt(0, 0), t),
        Some(vec2(0, 1))
    );
    assert_eq!(
        segment_normal(CurveSegment::Cubic(pt(0, 4), pt(8, 4), pt(8, 0)), pt(0, 0), t),
        Some(vec2(0, 1))
    );
}

#[test]
fn curves_are_evaluated_by_repeated_interpolation() {
    let half = Fixed::from_bits(HALF);
    assert_eq!(quad_bezier(pt(0, 0), pt(4, 8), pt(8, 0), half), pt(4, 4));
    assert_eq!(quad_bezier(pt(0, 0), pt(4, 8), pt(8, 0), Fixed::zero()), pt(0, 0));
    assert_eq!(quad_bezier(pt(0, 0), pt(4, 8), pt(8, 0), Fixed::one()), pt(8, 0));
    assert_eq!(quad_bezier_tangent(pt(0, 0), pt(4, 8), pt(8, 0), half), vec2(4, 0));
    assert_eq!(quad_bezier_tangent(pt(0, 0), pt(4, 8), pt(8, 0), Fixed::zero()), vec2(4, 8));
    assert_eq!(cubic_bezier(pt(0, 0), pt(0, 8), pt(8, 8), pt(8, 0), half), pt(4, 6));
    assert_eq!(cubic_bezier_tangent(pt(0, 0), pt(0, 8), pt(8, 8), pt(8, 0), half), vec2(4, 0));
    assert_eq!(
        cubic_bezier_tangent(pt(0, 0), pt(0, 8), pt(8, 8), pt(8, 0), Fixed::one()),
        vec2(0, -8)
    );
    assert_eq!(Curve::divide_quad_bezier(pt(0, 0), pt(4, 8), pt(8, 0), half), (pt(2, 4), pt(4, 4), pt(6, 4)));
    assert_eq!(
        Curve::divide_cubic_bezier(pt(0, 0), pt(0, 8), pt(8, 8), pt(8, 0), half),
        (pt(0, 4), pt(2, 6), pt(4, 6), pt(6, 6), pt(8, 4))
    );
    // A third is the scalar nearest below it.
    let third = Fixed::from_bits(THIRD);
    let p = cubic_bezier(pt(0, 0), pt(3, 0), pt(6, 0), pt(9, 0), third);
    assert!((xy(p).0 - 3.0).abs() < 1e-3 && p.y.bits == 0);
}

#[test]
fn a_missing_direction_is_carried_forward() {
    assert_eq!(carried(Vector::zero(), vec2(0, 1)), vec2(0, 1));
    assert_eq!(carried(vec2(1, 0), vec2(0, 1)), vec2(1, 0));
    // The control point on the start: the chord gives the first normal.
    let n = quad_normals(pt(0, 0), pt(0, 0), pt(10, 0));
    assert_eq!(n, (vec2(0, 1), vec2(0, 1), vec2(0, 1)));
    // The control point on the end: the normal before is carried to the end.
    let n = quad_normals(pt(0, 0), pt(10, 0), pt(10, 0));
    assert_eq!(n, (vec2(0, 1), vec2(0, 1), vec2(0, 1)));
    // A curve that is a point has no normal anywhere.
    let n = quad_normals(pt(3, 3), pt(3, 3), pt(3, 3));
    assert_eq!(n, (Vector::zero(), Vector::zero(), Vector::zero()));
    let n = cubic_normals(pt(0, 0), pt(0, 0), pt(0, 0), pt(10, 0));
    assert_eq!(n, (vec2(0, 1), vec2(0, 1), vec2(0, 1), vec2(0, 1)));
    let n = cubic_normals(pt(0, 0), pt(0, 0), pt(0, 10), pt(0, 10));
    assert_eq!(n, (vec2(-1, 0), vec2(-1, 0), vec2(-1, 0), vec2(-1, 0)));
    let n = cubic_normals(pt(3, 3), pt(3, 3), pt(3, 3), pt(3, 3));
    assert_eq!(n.0, Vector::zero());
    assert_eq!(n.3, Vector::zero());
}

#[test]
fn offset_line_moves_the_end_sideways() {
    let mut c = Curve::new();
    c.move_to(pt(0, 3));
    c.offset_line(pt(0, 0), pt(10, 0), Fixed::from_int(3));
    c.offset_line(pt(0, 0), pt(10, 0), Fixed::from_int(-3));
    assert_eq!(
        c.segments,
        vec![
            CurveSegment::Move(pt(0, 3)),
            CurveSegment::Line(pt(10, 3)),
            CurveSegment::Line(pt(10, -3)),
        ]
    );
}

#[test]
fn a_flat_curve_is_offset_in_one_piece() {
    let mut c = Curve::new();
    c.offset_quad_bezier(pt(0, 0), pt(5, 0), pt(10, 0), Fixed::from_int(2), 0, MAX_DEPTH);
    assert_eq!(c.segments, vec![CurveSegment::Quad(pt(5, 2), pt(10, 2))]);
    let mut d = Curve::new();
    d.offset_cubic_bezier(pt(0, 0), pt(3, 0), pt(6, 0), pt(10, 0), Fixed::from_int(2), 0, MAX_DEPTH);
    assert_eq!(d.segments, vec![CurveSegment::Cubic(pt(3, 2), pt(6, 2), pt(10, 2))]);
}

#[test]
fn a_bent_curve_is_split_until_it_fits_or_the_depth_is_reached() {
    // A hairpin, offset by far more than it is wide.
    let (p0, p1, p2) = (pt(0, 0), pt(100, 1), pt(0, 2));
    for depth in 0..=6u8 {
        let mut c = Curve::new();
        c.offset_quad_bezier(p0, p1, p2, Fixed::from_int(200), 0, depth);
        assert!(c.len() >= 1 && c.len() <= 1usize << depth, "{} pieces at depth {}", c.len(), depth);
        assert!(c.segments.iter().all(|s| matches!(s, CurveSegment::Quad(_, _))));
    }
    let mut whole = Curve::new();
    whole.offset_quad_bezier(p0, p1, p2, Fixed::from_int(200), 0, 0);
    assert_eq!(whole.len(), 1);
    let mut split = Curve::new();
    split.offset_quad_bezier(p0, p1, p2, Fixed::from_int(200), 0, 6);
    assert!(split.len() > 1);
    // Started at the full depth nothing is split.
    let mut deep = Curve::new();
    deep.offset_quad_bezier(p0, p1, p2, Fixed::from_int(200), 6, 6);
    assert_eq!(deep.len(), 1);
    let mut deeper = Curve::new();
    deeper.offset_cubic_bezier(p0, p1, p1, p2, Fixed::from_int(200), 9, 6);
    assert_eq!(deeper.len(), 1);
}

#[test]
fn a_cubic_offset_to_the_far_side_is_split_all_the_way() {
    let (p0, p1, p2, p3) = (pt(0, 0), pt(0, 50), pt(100, 50), pt(100, 0));
    let mut near = Curve::new();
    near.offset_cubic_bezier(p0, p1, p2, p3, Fixed::from_int(5), 0, MAX_DEPTH);
    assert!(near.len() >= 1 && near.len() <= 64);
    assert!(near.segments.iter().all(|s| matches!(s, CurveSegment::Cubic(_, _, _))));
    // No error lies below a negative offset.
    let mut far = Curve::new();
    far.offset_cubic_bezier(p0, p1, p2, p3, Fixed::from_int(-5), 0, MAX_DEPTH);
    assert_eq!(far.len(), 64);
    let mut shallow = Curve::new();
    shallow.offset_cubic_bezier(p0, p1, p2, p3, Fixed::from_int(-5), 0, 2);
    assert_eq!(shallow.len(), 4);
    // Every piece ends at the same distance from the curve's end.
    match far.segments.last() {
        Some(CurveSegment::Cubic(_, _, end)) => assert!(distance(*end, 95.0, 0.0) < 1e-3),
        other => panic!("{:?}", other),
    }
}

#[test]
fn the_depth_of_a_stroke_can_be_chosen() {
    let mut path = Curve::new();
    path.move_to(pt(0, 0));
    path.cubic_to(pt(0, 50), pt(100, 50), pt(100, 0));
    let stroke = Stroke { width: Fixed::from_int(10), ..Stroke::default() };
    let coarse = path.stroke_with_depth(stroke, 0).unwrap();
    let fine = path.stroke_with_depth(stroke, MAX_DEPTH).unwrap();
    let usual = path.stroke(stroke).unwrap();
    assert_eq!(fine.segments, usual.segments);
    // Move, cubic, cap, cubic, cap, close.
    assert_eq!(coarse.len(), 6);
    assert!(fine.len() > coarse.len());
    assert!(fine.len() <= 1 + 64 + 1 + 64 + 1 + 1);
}

#[test]
fn the_inner_side_of_a_corner_gets_a_single_line() {
    let n0 = vec2(0, 1);
    let n1 = vec2(-1, 0);
    let r = Fixed::from_int(2);
    for join in [LineJoin::Miter, LineJoin::Round, LineJoin::Bevel] {
        let mut c = Curve::new();
        c.move_to(pt(10, 2));
        c.stroke_join(pt(10, 0), n0, n1, r, join, Fixed::from_int(4));
        assert_eq!(c.segments[1..], [CurveSegment::Line(pt(8, 0))]);
    }
}

#[test]
fn a_miter_beyond_the_limit_is_a_bevel() {
    let pivot = pt(10, 0);
    let r = Fixed::from_int(-2);
    for degrees in [10.0, 45.0, 90.0, 120.0, 150.0, 170.0, 179.0] {
        let n0 = unit(90.0);
        let n1 = unit(90.0 + degrees);
        let ratio = 1.0 / (degrees / 2.0_f64).to_radians().cos();
        for limit in [1.0, 1.5, 2.0, 4.0, 10.0, 100.0] {
            let limit_fixed = Fixed::from_bits((limit * 65536.0) as i64);
            let mut miter = Curve::new();
            miter.stroke_miter(pivot, n0, n1, r, limit_fixed);
            let mut bevel = Curve::new();
            bevel.stroke_bevel(pivot, n1, r);
            if ratio >= limit + 1e-3 {
                assert_eq!(miter.segments, bevel.segments, "{} degrees, limit {}", degrees, limit);
            } else if ratio <= limit - 1e-3 {
                assert_eq!(miter.len(), 2, "{} degrees, limit {}", degrees, limit);
                assert_eq!(miter.segments[1], bevel.segments[0]);
                // The apex lies on the bisector, at the radius over the cosine
                // of half the turn.
                match miter.segments[0] {
                    CurveSegment::Line(apex) => {
                        let d = distance(apex, 10.0, 0.0);
                        assert!((d - 2.0 * ratio).abs() < 2e-3 * ratio * ratio, "{} vs {}", d, 2.0 * ratio);
                    }
                    other => panic!("{:?}", other),
                }
            }
        }
    }
    // A full turn back has no bisector: always a bevel.
    let mut back = Curve::new();
    back.stroke_miter(pivot, vec2(0, 1), vec2(0, -1), r, Fixed::from_int(1000));
    assert_eq!(back.segments, vec![CurveSegment::Line(pt(10, 2))]);
}

#[test]
fn a_round_join_stays_on_its_circle() {
    let (px, py) = (10.0, -4.0);
    let pivot = ptf(px, py);
    for radius in [-1.0_f64, -2.5, -40.0, -1000.0] {
        for degrees in [5.0, 30.0, 90.0, 135.0, 175.0] {
            let n0 = unit(20.0);
            let n1 = unit(20.0 + degrees);
            let r = Fixed::from_bits((radius * 65536.0) as i64);
            let start = pivot.plus(n0.times(r));
            let mut c = Curve::new();
            c.move_to(start);
            c.stroke_round(pivot, n0, n1, r);
            // Two arcs: to the middle, and to the end.
            assert_eq!(c.len(), 3);
            let tolerance = radius.abs() / 8192.0 + 5.0 / 65536.0;
            let mut from = start;
            for s in &c.segments[1..] {
                match s {
                    CurveSegment::Cubic(c0, c1, end) => {
                        let d = distance(*end, px, py);
                        assert!(
                            (d - radius.abs()).abs() <= tolerance,
                            "{} from the pivot, radius {}",
                            d,
                            radius
                        );
                        // The control points lie outside the circle, and the
                        // curve between its ends strays little from it.
                        assert!(distance(*c0, px, py) >= radius.abs() - tolerance);
                        assert!(distance(*c1, px, py) >= radius.abs() - tolerance);
                        let (ax, ay) = xy(from);
                        let (bx, by) = xy(*c0);
                        let (cx, cy) = xy(*c1);
                        let (dx, dy) = xy(*end);
                        for step in 1..8 {
                            let t = step as f64 / 8.0;
                            let s = 1.0 - t;
                            let x = s * s * s * ax + 3.0 * s * s * t * bx + 3.0 * s * t * t * cx + t * t * t * dx;
                            let y = s * s * s * ay + 3.0 * s * s * t * by + 3.0 * s * t * t * cy + t * t * t * dy;
                            let d = ((x - px) * (x - px) + (y - py) * (y - py)).sqrt();
                            assert!((d - radius.abs()).abs() <= radius.abs() * 5e-4 + 2e-4);
                        }
                        from = *end;
                    }
                    other => panic!("{:?}", other),
                }
            }
            assert_eq!(from, pivot.plus(n1.times(r)));
        }
    }
}

#[test]
fn a_round_join_fills_the_corner() {
    let mut path = Curve::new();
    path.move_to(pt(0, 0));
    path.line_to(pt(10, 0));
    path.line_to(pt(10, 10));
    let stroke = Stroke {
        width: Fixed::from_int(4),
        miter: Fixed::from_int(4),
        cap: LineCap::Butt,
        join: LineJoin::Round,
    };
    let outline = path.stroke(stroke).unwrap();
    // Inside the circle of radius 2 about the corner, outside the bevel.
    assert!(outline.contains(ptf(11.3, -1.3), FillRule::NonZero));
    // Outside the circle, inside the miter.
    assert!(!outline.contains(ptf(11.6, -1.6), FillRule::NonZero));
    let miter = path.stroke(Stroke { join: LineJoin::Miter, ..stroke }).unwrap();
    assert!(miter.contains(ptf(11.6, -1.6), FillRule::NonZero));
    assert!(miter.contains(ptf(11.9, -1.9), FillRule::NonZero));
    let bevel = path.stroke(Stroke { join: LineJoin::Bevel, ..stroke }).unwrap();
    assert!(!bevel.contains(ptf(11.3, -1.3), FillRule::NonZero));
    assert!(bevel.contains(ptf(10.9, -0.9), FillRule::NonZero));
}

#[test]
fn the_band_of_a_closed_curve_is_as_wide_as_the_stroke() {
    // A circle of radius 50 about the origin, as four cubic curves.
    let k = 27.614;
    let mut path = Curve::new();
    path.move_to(ptf(50.0, 0.0));
    path.cubic_to(ptf(50.0, k), ptf(k, 50.0), ptf(0.0, 50.0));
    path.cubic_to(ptf(-k, 50.0), ptf(-50.0, k), ptf(-50.0, 0.0));
    path.cubic_to(ptf(-50.0, -k), ptf(-k, -50.0), ptf(0.0, -50.0));
    path.cubic_to(ptf(k, -50.0), ptf(50.0, -k), ptf(50.0, 0.0));
    path.close();
    let stroke = Stroke {
        width: Fixed::from_int(10),
        miter: Fixed::from_int(4),
        cap: LineCap::Butt,
        join: LineJoin::Round,
    };
    let outline = path.stroke(stroke).unwrap();
    assert!(outline.is_well_formed());
    assert_eq!(outline.segments.last(), Some(&CurveSegment::Close));
    let mut checked = 0;
    for step in 0..72 {
        let a = (step as f64 * 5.0 + 1.0).to_radians();
        for (radius, inside) in [
            (40.0, false),
            (44.0, false),
            (46.0, true),
            (50.0, true),
            (54.0, true),
            (56.0, false),
            (60.0, false),
            (0.5, false),
        ] {
            let p = ptf(radius * a.cos(), radius * a.sin());
            assert_eq!(
                outline.contains(p, FillRule::NonZero),
                inside,
                "at {} degrees, {} from the centre",
                step * 5 + 1,
                radius
            );
            checked += 1;
        }
    }
    assert_eq!(checked, 72 * 8);
}

#[test]
fn the_controls_of_a_round_join_lie_on_the_tangents() {
    // A quarter turn about the origin with the radius 100: each arc spans
    // an eighth of the circle, and its control points lie on the tangents
    // at its ends, at four thirds of the tangent of a quarter of its angle
    // times the radius from them.
    let pivot = pt(0, 0);
    let n0 = vec2(1, 0);
    let n1 = vec2(0, 1);
    let r = Fixed::from_int(100);
    let mut c = Curve::new();
    c.move_to(pt(100, 0));
    c.stroke_round(pivot, n0, n1, r);
    let handle = 100.0 * 4.0 / 3.0 * 11.25_f64.to_radians().tan();
    match (c.segments[1], c.segments[2]) {
        (CurveSegment::Cubic(a0, a1, mid), CurveSegment::Cubic(b0, b1, end)) => {
            assert!(distance(mid, 70.7107, 70.7107) < 1e-2);
            assert_eq!(end, pt(0, 100));
            assert!(distance(a0, 100.0, handle) < 2e-2, "{:?}", xy(a0));
            assert!(distance(b1, handle, 100.0) < 2e-2, "{:?}", xy(b1));
            // About the middle the two arcs mirror each other.
            let s = std::f64::consts::FRAC_1_SQRT_2;
            assert!(distance(a1, 70.7107 + handle * s, 70.7107 - handle * s) < 2e-2, "{:?}", xy(a1));
            assert!(distance(b0, 70.7107 - handle * s, 70.7107 + handle * s) < 2e-2, "{:?}", xy(b0));
        }
        other => panic!("{:?}", other),
    }
}

#[test]
fn a_split_offset_ends_by_the_end_normal_of_the_curve() {
    // A curve that is split ends along the end normal of its last piece,
    // which is the end normal of the whole curve to rounding.
    let cases = [
        (pt(0, 0), pt(100, 1), pt(0, 2)),
        (pt(0, 0), pt(50, 80), pt(100, 0)),
        (pt(-7, 3), pt(40, -60), pt(13, 90)),
        (ptf(0.0, 0.0), ptf(3.3, 7.7), ptf(9.1, 0.3)),
    ];
    for (p0, p1, p2) in cases {
        for offset in [200, 35, -35, 3] {
            let r = Fixed::from_int(offset);
            let mut c = Curve::new();
            c.offset_quad_bezier(p0, p1, p2, r, 0, MAX_DEPTH);
            let whole = p2.plus(quad_bezier_normal(p0, p1, p2, Fixed::one()).times(r));
            let (wx, wy) = xy(whole);
            match c.segments.last() {
                Some(CurveSegment::Quad(_, end)) => {
                    let d = distance(*end, wx, wy);
                    assert!(d <= (offset as f64).abs() * 1e-3 + 1e-4, "{} pieces, {} apart", c.len(), d);
                    if c.len() == 1 {
                        assert_eq!(*end, whole);
                    }
                }
                other => panic!("{:?}", other),
            }
        }
    }
    let (p0, p1, p2, p3) = (pt(0, 0), pt(0, 50), pt(100, 50), pt(100, 0));
    for offset in [5, -5, 40] {
        let r = Fixed::from_int(offset);
        let mut c = Curve::new();
        c.offset_cubic_bezier(p0, p1, p2, p3, r, 0, MAX_DEPTH);
        let whole = p3.plus(cubic_bezier_normal(p0, p1, p2, p3, Fixed::one()).times(r));
        let (wx, wy) = xy(whole);
        match c.segments.last() {
            Some(CurveSegment::Cubic(_, _, end)) => {
                assert!(distance(*end, wx, wy) <= (offset as f64).abs() * 1e-3 + 1e-4);
            }
            other => panic!("{:?}", other),
        }
    }
}
