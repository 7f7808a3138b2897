use ori_core::canvas::canvas::FillRule;
use ori_core::canvas::curve::{Curve, CurveSegment};
use ori_core::layout::fixed::Fixed;
use ori_core::layout::rect::Rect;
use ori_core::layout::vector::Point;

fn pt(x: i32, y: i32) -> Point {
    Point::new(Fixed::from_int(x), Fixed::from_int(y))
}

fn ptf(x: f64, y: f64) -> Point {
    Point::new(
        Fixed::from_bits((x * 65536.0).round() as i64),
        Fixed::from_bits((y * 65536.0).round() as i64),
    )
}

fn xy(p: Point) -> (f64, f64) {
    (p.x.bits as f64 / 65536.0, p.y.bits as f64 / 65536.0)
}

#[test]
fn segments_are_kept_in_order() {
    let mut c = Curve::new();
    assert!(c.is_empty());
    assert_eq!(c.len(), 0);
    assert_eq!(c.segment(0), None);
    assert_eq!(c.last_point(), None);
    c.move_to(pt(0, 0));
    c.line_to(pt(1, 0));
    c.quad_to(pt(2, 0), pt(2, 1));
    c.cubic_to(pt(2, 2), pt(1, 2), pt(0, 2));
    c.close();
    c.append(CurveSegment::Move(pt(9, 9)));
    assert_eq!(c.len(), 6);
    assert!(!c.is_empty());
    assert_eq!(c.segment(0), Some(CurveSegment::Move(pt(0, 0))));
    assert_eq!(c.segment(1), Some(CurveSegment::Line(pt(1, 0))));
    assert_eq!(c.segment(2), Some(CurveSegment::Quad(pt(2, 0), pt(2, 1))));
    assert_eq!(c.segment(3), Some(CurveSegment::Cubic(pt(2, 2), pt(1, 2), pt(0, 2))));
    assert_eq!(c.segment(4), Some(CurveSegment::Close));
    assert_eq!(c.segment(5), Some(CurveSegment::Move(pt(9, 9))));
    assert_eq!(c.segment(6), None);
    assert_eq!(c.last_point(), Some(pt(9, 9)));
    assert_eq!(c.point_before(5), Some(pt(0, 2)));
    assert_eq!(c.point_before(1), Some(pt(0, 0)));
    assert_eq!(c.point_before(0), None);
    c.clear();
    assert!(c.is_empty());
}

#[test]
fn segment_ends() {
    assert_eq!(CurveSegment::Move(pt(1, 2)).end(), Some(pt(1, 2)));
    assert_eq!(CurveSegment::Line(pt(1, 2)).end(), Some(pt(1, 2)));
    assert_eq!(CurveSegment::Quad(pt(0, 0), pt(1, 2)).end(), Some(pt(1, 2)));
    assert_eq!(CurveSegment::Cubic(pt(0, 0), pt(5, 5), pt(1, 2)).end(), Some(pt(1, 2)));
    assert_eq!(CurveSegment::Close.end(), None);
}

#[test]
fn a_path_is_appended_backwards() {
    let mut other = Curve::new();
    other.move_to(pt(0, 0));
    other.line_to(pt(1, 0));
    other.quad_to(pt(2, 0), pt(2, 1));
    other.cubic_to(pt(2, 2), pt(1, 3), pt(0, 3));
    let mut c = Curve::new();
    c.move_to(pt(0, 3));
    c.append_reverse(&other);
    let expected = vec![
        CurveSegment::Move(pt(0, 3)),
        CurveSegment::Cubic(pt(1, 3), pt(2, 2), pt(2, 1)),
        CurveSegment::Quad(pt(2, 0), pt(1, 0)),
        CurveSegment::Line(pt(0, 0)),
    ];
    assert_eq!(c.segments, expected);
    // Twice backwards is forwards again.
    let mut back = Curve::new();
    back.move_to(pt(0, 0));
    back.append_reverse(&c);
    assert_eq!(back.segments, other.segments);
}

#[test]
fn backwards_skips_what_draws_nothing() {
    let mut other = Curve::new();
    other.line_to(pt(5, 5));
    other.move_to(pt(0, 0));
    other.line_to(pt(1, 0));
    other.close();
    other.move_to(pt(7, 7));
    let mut c = Curve::new();
    c.append_reverse(&other);
    // The first line starts nowhere; the moves and the close draw nothing.
    assert_eq!(c.segments, vec![CurveSegment::Line(pt(0, 0))]);
    let mut empty = Curve::new();
    empty.append_reverse(&Curve::new());
    assert!(empty.is_empty());
}

#[test]
fn well_formed_paths() {
    assert!(Curve::new().is_well_formed());
    let mut c = Curve::new();
    c.move_to(pt(0, 0));
    assert!(c.is_well_formed());
    c.close();
    assert!(c.is_well_formed());
    c.move_to(pt(1, 1));
    c.line_to(pt(2, 2));
    c.quad_to(pt(2, 3), pt(3, 3));
    c.cubic_to(pt(2, 3), pt(3, 3), pt(4, 4));
    c.close();
    assert!(c.is_well_formed());
    c.close();
    assert!(!c.is_well_formed());

    let mut d = Curve::new();
    d.line_to(pt(1, 1));
    assert!(!d.is_well_formed());
    let mut e = Curve::new();
    e.move_to(pt(0, 0));
    e.close();
    e.quad_to(pt(1, 1), pt(2, 2));
    assert!(!e.is_well_formed());
}

#[test]
fn a_quarter_circle_conic_becomes_a_cubic_along_the_circle() {
    // The quarter of the circle of radius 100 from (100, 0) to (0, 100)
    // has its control point at (100, 100) and the weight cos 45°.
    let w = Fixed::from_bits(46341);
    let mut c = Curve::new();
    c.move_to(pt(100, 0));
    c.conic_to(pt(100, 100), pt(0, 100), w);
    assert_eq!(c.len(), 2);
    match c.segments[1] {
        CurveSegment::Cubic(c0, c1, end) => {
            assert_eq!(end, pt(0, 100));
            // The control points lie on the tangents at the ends, at 0.5523
            // of the way to where the tangents meet.
            let (c0x, c0y) = xy(c0);
            let (c1x, c1y) = xy(c1);
            assert!((c0x - 100.0).abs() < 1e-9 && (c0y - 55.2285).abs() < 1e-2, "{:?}", (c0x, c0y));
            assert!((c1x - 55.2285).abs() < 1e-2 && (c1y - 100.0).abs() < 1e-9, "{:?}", (c1x, c1y));
            // The curve strays from the circle by less than 3 in 10000.
            for step in 0..=16 {
                let t = step as f64 / 16.0;
                let s = 1.0 - t;
                let x = s * s * s * 100.0 + 3.0 * s * s * t * c0x + 3.0 * s * t * t * c1x;
                let y = 3.0 * s * s * t * c0y + 3.0 * s * t * t * c1y + t * t * t * 100.0;
                let d = (x * x + y * y).sqrt();
                assert!((d - 100.0).abs() < 0.03, "{} at {}", d, t);
            }
        }
        other => panic!("expected a cubic, found {:?}", other),
    }
    // With the weight one the conic is a quadratic curve, and the cubic
    // curve is the same curve: its control points lie at two thirds of the
    // way to the control point.
    let mut q = Curve::new();
    q.move_to(pt(0, 0));
    q.conic_to(pt(4, 8), pt(8, 0), Fixed::one());
    let p = |x: i64, y: i64| Point::new(Fixed::from_bits(x), Fixed::from_bits(y));
    assert_eq!(
        q.segments,
        vec![
            CurveSegment::Move(pt(0, 0)),
            CurveSegment::Cubic(p(174760, 349520), p(349528, 349520), pt(8, 0)),
        ]
    );
    // On an empty path the control point stands for the start.
    let mut e = Curve::new();
    e.conic_to(pt(4, 8), pt(8, 0), Fixed::one());
    assert_eq!(e.segments, vec![CurveSegment::Cubic(pt(4, 8), p(349528, 349520), pt(8, 0))]);
    // A weight of zero leaves the control points on the ends.
    let mut z = Curve::new();
    z.move_to(pt(0, 0));
    z.conic_to(pt(4, 8), pt(8, 0), Fixed::zero());
    assert_eq!(z.segments[1], CurveSegment::Cubic(pt(0, 0), pt(8, 0), pt(8, 0)));
}

#[test]
fn a_rectangle_holds_its_inside() {
    let c = Curve::rect(Rect::new(pt(0, 0), pt(10, 5)));
    assert_eq!(
        c.segments,
        vec![
            CurveSegment::Move(pt(0, 0)),
            CurveSegment::Line(pt(10, 0)),
            CurveSegment::Line(pt(10, 5)),
            CurveSegment::Line(pt(0, 5)),
            CurveSegment::Close,
        ]
    );
    for fill in [FillRule::NonZero, FillRule::EvenOdd] {
        assert!(c.contains(pt(5, 2), fill));
        assert!(c.contains(ptf(0.01, 0.01), fill));
        assert!(c.contains(ptf(9.99, 4.99), fill));
        assert!(!c.contains(pt(-1, 2), fill));
        assert!(!c.contains(pt(11, 2), fill));
        assert!(!c.contains(pt(5, -1), fill));
        assert!(!c.contains(pt(5, 6), fill));
        // An edge owns its lower end: the edges at the least x and the
        // least y belong to the rectangle, the others do not.
        assert!(c.contains(pt(0, 0), fill));
        assert!(c.contains(pt(0, 2), fill));
        assert!(c.contains(pt(5, 0), fill));
        assert!(!c.contains(pt(10, 2), fill));
        assert!(!c.contains(pt(5, 5), fill));
    }
    assert_eq!(c.winding(pt(5, 2)), 1);
    assert_eq!(c.winding(pt(50, 2)), 0);
}

#[test]
fn the_fill_rules_differ_where_contours_overlap() {
    // Two squares, one inside the other, both drawn the same way round.
    let mut c = Curve::rect(Rect::new(pt(0, 0), pt(10, 10)));
    for s in Curve::rect(Rect::new(pt(3, 3), pt(7, 7))).segments {
        c.append(s);
    }
    assert_eq!(c.winding(pt(5, 5)), 2);
    assert!(c.contains(pt(5, 5), FillRule::NonZero));
    assert!(!c.contains(pt(5, 5), FillRule::EvenOdd));
    assert!(c.contains(pt(1, 1), FillRule::NonZero));
    assert!(c.contains(pt(1, 1), FillRule::EvenOdd));
    // The inner square drawn the other way round cuts a hole for both.
    let mut d = Curve::rect(Rect::new(pt(0, 0), pt(10, 10)));
    d.move_to(pt(3, 3));
    d.line_to(pt(3, 7));
    d.line_to(pt(7, 7));
    d.line_to(pt(7, 3));
    d.close();
    assert_eq!(d.winding(pt(5, 5)), 0);
    assert!(!d.contains(pt(5, 5), FillRule::NonZero));
    assert!(!d.contains(pt(5, 5), FillRule::EvenOdd));
    assert!(d.contains(pt(1, 1), FillRule::NonZero));
}

#[test]
fn open_subpaths_are_closed_for_filling() {
    let mut c = Curve::new();
    c.move_to(pt(0, 0));
    c.line_to(pt(10, 0));
    c.line_to(pt(0, 10));
    assert!(c.contains(pt(2, 2), FillRule::NonZero));
    assert!(!c.contains(pt(8, 8), FillRule::NonZero));
    // The same the other way round winds the other way.
    let mut d = Curve::new();
    d.move_to(pt(0, 0));
    d.line_to(pt(0, 10));
    d.line_to(pt(10, 0));
    assert_eq!(c.winding(pt(2, 2)), 1);
    assert_eq!(d.winding(pt(2, 2)), -1);
    assert!(d.contains(pt(2, 2), FillRule::NonZero));
    assert!(d.contains(pt(2, 2), FillRule::EvenOdd));
}

#[test]
fn curves_hold_what_lies_under_them() {
    // An arch over the x axis, with its top at y = 5.
    let mut q = Curve::new();
    q.move_to(pt(0, 0));
    q.quad_to(pt(5, 10), pt(10, 0));
    assert!(q.contains(pt(5, 4), FillRule::NonZero));
    assert!(q.contains(pt(5, 1), FillRule::EvenOdd));
    assert!(!q.contains(pt(5, 6), FillRule::NonZero));
    assert!(!q.contains(pt(1, 4), FillRule::NonZero));
    assert!(!q.contains(pt(5, -1), FillRule::NonZero));
    // The same arch as a cubic curve, with its top at y = 7.5.
    let mut c = Curve::new();
    c.move_to(pt(0, 0));
    c.cubic_to(pt(0, 10), pt(10, 10), pt(10, 0));
    assert!(c.contains(pt(5, 7), FillRule::NonZero));
    assert!(!c.contains(pt(5, 8), FillRule::NonZero));
    assert!(c.contains(pt(1, 4), FillRule::NonZero));
    assert!(!c.contains(pt(11, 4), FillRule::NonZero));
}

#[test]
fn nothing_lies_in_a_path_without_edges() {
    assert!(!Curve::new().contains(pt(0, 0), FillRule::NonZero));
    let mut c = Curve::new();
    c.move_to(pt(0, 0));
    c.close();
    assert!(!c.contains(pt(0, 0), FillRule::EvenOdd));
    // An edge where no point came before starts at its own end.
    let mut d = Curve::new();
    d.line_to(pt(10, 0));
    d.line_to(pt(10, 10));
    d.line_to(pt(0, 10));
    assert!(d.contains(pt(8, 8), FillRule::NonZero));
    assert!(!d.contains(pt(2, 2), FillRule::NonZero));
}
