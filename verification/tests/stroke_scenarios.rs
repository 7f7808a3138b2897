use ori_core::canvas::canvas::FillRule;
use ori_core::canvas::curve::{Curve, CurveSegment};
use ori_core::canvas::stroke::{LineCap, LineJoin, Stroke, StrokeError};
use ori_core::layout::fixed::Fixed;
use ori_core::layout::rect::Rect;
use ori_core::layout::vector::Point;

fn pt(x: i32, y: i32) -> Point {
    Point::new(Fixed::from_int(x), Fixed::from_int(y))
}

fn ptf(x: f64, y: f64) -> Point {
    Point::new(
        Fixed::from_bits((x * 65536.0).round() as i64),
        Fixed::from_bits((y * 65536.0).round() as i64),
    )
}

fn xy(p: Point) -> (f64, f64) {
    (p.x.bits as f64 / 65536.0, p.y.bits as f64 / 65536.0)
}

fn near(p: Point, x: f64, y: f64, tolerance: f64) -> bool {
    let (px, py) = xy(p);
    (px - x).abs() <= tolerance && (py - y).abs() <= tolerance
}

fn stroke_of(width: i32, cap: LineCap, join: LineJoin) -> Stroke {
    Stroke { width: Fixed::from_int(width), miter: Fixed::from_int(4), cap, join }
}

fn line_path(points: &[(i32, i32)]) -> Curve {
    let mut path = Curve::new();
    path.move_to(pt(points[0].0, points[0].1));
    for p in &points[1..] {
        path.line_to(pt(p.0, p.1));
    }
    path
}

#[test]
fn butt_line_is_a_rectangle() {
    let path = line_path(&[(0, 0), (10, 0)]);
    let outline = path.stroke(stroke_of(2, LineCap::Butt, LineJoin::Miter)).unwrap();
    let expected = vec![
        CurveSegment::Move(pt(0, 1)),
        CurveSegment::Line(pt(10, 1)),
        CurveSegment::Line(pt(10, -1)),
        CurveSegment::Line(pt(0, -1)),
        CurveSegment::Line(pt(0, 1)),
        CurveSegment::Close,
    ];
    assert_eq!(outline.segments, expected);
}

#[test]
fn butt_line_covers_its_band_and_nothing_else() {
    let path = line_path(&[(0, 0), (10, 0)]);
    let outline = path.stroke(stroke_of(2, LineCap::Butt, LineJoin::Miter)).unwrap();
    assert!(outline.contains(ptf(5.0, 0.0), FillRule::NonZero));
    assert!(outline.contains(ptf(0.5, 0.9), FillRule::NonZero));
    assert!(outline.contains(ptf(9.5, -0.9), FillRule::NonZero));
    assert!(!outline.contains(ptf(5.0, 1.1), FillRule::NonZero));
    assert!(!outline.contains(ptf(5.0, -1.1), FillRule::NonZero));
    assert!(!outline.contains(ptf(-0.1, 0.0), FillRule::NonZero));
    assert!(!outline.contains(ptf(10.1, 0.0), FillRule::NonZero));
}

#[test]
fn right_angle_miter_has_a_sharp_outer_corner() {
    let path = line_path(&[(0, 0), (10, 0), (10, 10)]);
    let outline = path.stroke(stroke_of(2, LineCap::Butt, LineJoin::Miter)).unwrap();
    // The near side turns inwards at the corner: one line to the start of
    // the next offset, which crosses the one before it at (9, 1).
    let expected_near = vec![
        CurveSegment::Move(pt(0, 1)),
        CurveSegment::Line(pt(10, 1)),
        CurveSegment::Line(pt(9, 0)),
        CurveSegment::Line(pt(9, 10)),
        CurveSegment::Line(pt(11, 10)),
    ];
    assert_eq!(&outline.segments[..5], &expected_near[..]);
    // The far side comes back by way of the apex of the miter at (11, -1).
    let far: Vec<Point> = outline.segments[5..]
        .iter()
        .filter_map(|s| match s {
            CurveSegment::Line(p) => Some(*p),
            _ => None,
        })
        .collect();
    assert_eq!(far.len(), 5);
    assert!(near(far[0], 11.0, 0.0, 1e-4));
    assert!(near(far[1], 11.0, -1.0, 1e-4));
    assert!(near(far[2], 10.0, -1.0, 1e-4));
    assert!(near(far[3], 0.0, -1.0, 1e-4));
    assert!(near(far[4], 0.0, 1.0, 1e-4));
    assert_eq!(outline.segments.last(), Some(&CurveSegment::Close));
    assert_eq!(outline.segments.len(), 11);
    // There is no apex on the inner side.
    assert!(!outline.segments.iter().any(|s| match s {
        CurveSegment::Line(p) => near(*p, 9.0, -1.0, 0.5),
        _ => false,
    }));
}

#[test]
fn right_angle_bevel_cuts_the_outer_corner() {
    let path = line_path(&[(0, 0), (10, 0), (10, 10)]);
    let outline = path.stroke(stroke_of(2, LineCap::Butt, LineJoin::Bevel)).unwrap();
    let expected = vec![
        CurveSegment::Move(pt(0, 1)),
        CurveSegment::Line(pt(10, 1)),
        CurveSegment::Line(pt(9, 0)),
        CurveSegment::Line(pt(9, 10)),
        CurveSegment::Line(pt(11, 10)),
        CurveSegment::Line(pt(11, 0)),
        CurveSegment::Line(pt(10, -1)),
        CurveSegment::Line(pt(0, -1)),
        CurveSegment::Line(pt(0, 1)),
        CurveSegment::Close,
    ];
    assert_eq!(outline.segments, expected);
    // No point of the outline sticks out to the apex.
    assert!(!outline.segments.iter().any(|s| match s {
        CurveSegment::Line(p) => near(*p, 11.0, -1.0, 0.25),
        _ => false,
    }));
}

#[test]
fn round_cap_is_two_cubics_at_each_end() {
    let path = line_path(&[(0, 0), (10, 0)]);
    let outline = path.stroke(stroke_of(2, LineCap::Round, LineJoin::Miter)).unwrap();
    let s = &outline.segments;
    assert_eq!(s.len(), 8);
    assert_eq!(s[0], CurveSegment::Move(pt(0, 1)));
    assert_eq!(s[1], CurveSegment::Line(pt(10, 1)));
    // The cap at the end, about (10, 0): over the top (11, 0) to (10, -1).
    match (s[2], s[3]) {
        (CurveSegment::Cubic(a0, a1, a), CurveSegment::Cubic(b0, b1, b)) => {
            assert!(near(a0, 10.55, 1.0, 1e-3));
            assert!(near(a1, 11.0, 0.55, 1e-3));
            assert!(near(a, 11.0, 0.0, 1e-4));
            assert!(near(b0, 11.0, -0.55, 1e-3));
            assert!(near(b1, 10.55, -1.0, 1e-3));
            assert!(near(b, 10.0, -1.0, 1e-4));
        }
        other => panic!("expected two cubics, found {:?}", other),
    }
    assert_eq!(s[4], CurveSegment::Line(pt(0, -1)));
    // The cap at the start, about (0, 0): over (-1, 0) back to (0, 1).
    match (s[5], s[6]) {
        (CurveSegment::Cubic(a0, a1, a), CurveSegment::Cubic(b0, b1, b)) => {
            assert!(near(a0, -0.55, -1.0, 1e-3));
            assert!(near(a1, -1.0, -0.55, 1e-3));
            assert!(near(a, -1.0, 0.0, 1e-4));
            assert!(near(b0, -1.0, 0.55, 1e-3));
            assert!(near(b1, -0.55, 1.0, 1e-3));
            assert!(near(b, 0.0, 1.0, 1e-4));
        }
        other => panic!("expected two cubics, found {:?}", other),
    }
    assert_eq!(s[7], CurveSegment::Close);
    // Each cap bulges a radius beyond its end of the line.
    assert!(outline.contains(ptf(10.9, 0.0), FillRule::NonZero));
    assert!(outline.contains(ptf(-0.9, 0.0), FillRule::NonZero));
    assert!(!outline.contains(ptf(10.9, 0.9), FillRule::NonZero));
    assert!(!outline.contains(ptf(11.1, 0.0), FillRule::NonZero));
}

#[test]
fn square_cap_extends_the_line_by_the_radius() {
    let path = line_path(&[(0, 0), (10, 0)]);
    let outline = path.stroke(stroke_of(2, LineCap::Square, LineJoin::Miter)).unwrap();
    let expected = vec![
        CurveSegment::Move(pt(0, 1)),
        CurveSegment::Line(pt(10, 1)),
        CurveSegment::Line(pt(11, 1)),
        CurveSegment::Line(pt(11, -1)),
        CurveSegment::Line(pt(10, -1)),
        CurveSegment::Line(pt(0, -1)),
        CurveSegment::Line(pt(-1, -1)),
        CurveSegment::Line(pt(-1, 1)),
        CurveSegment::Line(pt(0, 1)),
        CurveSegment::Close,
    ];
    assert_eq!(outline.segments, expected);
}

#[test]
fn drawing_before_a_move_is_malformed() {
    let mut path = Curve::new();
    path.line_to(pt(10, 0));
    let r = path.stroke(stroke_of(2, LineCap::Butt, LineJoin::Miter));
    assert_eq!(r.err(), Some(StrokeError::MalformedPath));

    let mut path = Curve::new();
    path.move_to(pt(0, 0));
    path.line_to(pt(10, 0));
    path.close();
    path.line_to(pt(5, 5));
    assert!(!path.is_well_formed());
    let r = path.stroke(stroke_of(2, LineCap::Butt, LineJoin::Miter));
    assert_eq!(r.err(), Some(StrokeError::MalformedPath));

    let mut path = Curve::new();
    path.close();
    assert_eq!(
        path.stroke(Stroke::default()).err(),
        Some(StrokeError::MalformedPath)
    );
}

#[test]
fn a_subpath_without_an_edge_gives_nothing() {
    let empty = Curve::new();
    assert!(empty.stroke(Stroke::default()).unwrap().is_empty());

    let mut lone = Curve::new();
    lone.move_to(pt(3, 4));
    assert!(lone.stroke(Stroke::default()).unwrap().is_empty());

    let mut closed = Curve::new();
    closed.move_to(pt(3, 4));
    closed.close();
    assert!(closed.stroke(Stroke::default()).unwrap().is_empty());

    let mut two = Curve::new();
    two.move_to(pt(3, 4));
    two.move_to(pt(0, 0));
    two.line_to(pt(10, 0));
    let outline = two.stroke(stroke_of(2, LineCap::Butt, LineJoin::Miter)).unwrap();
    let alone = line_path(&[(0, 0), (10, 0)])
        .stroke(stroke_of(2, LineCap::Butt, LineJoin::Miter))
        .unwrap();
    assert_eq!(outline.segments, alone.segments);
}

#[test]
fn a_segment_without_length_is_passed_over() {
    let mut path = Curve::new();
    path.move_to(pt(0, 0));
    path.line_to(pt(0, 0));
    path.line_to(pt(10, 0));
    path.line_to(pt(10, 0));
    path.quad_to(pt(10, 0), pt(10, 0));
    path.cubic_to(pt(10, 0), pt(10, 0), pt(10, 0));
    let stroke = stroke_of(2, LineCap::Round, LineJoin::Round);
    let outline = path.stroke(stroke).unwrap();
    let plain = line_path(&[(0, 0), (10, 0)]).stroke(stroke).unwrap();
    assert_eq!(outline.segments, plain.segments);

    let mut only = Curve::new();
    only.move_to(pt(5, 5));
    only.line_to(pt(5, 5));
    assert!(only.stroke(stroke).unwrap().is_empty());
}

#[test]
fn every_subpath_is_stroked_on_its_own() {
    let mut path = Curve::new();
    path.move_to(pt(0, 0));
    path.line_to(pt(10, 0));
    path.move_to(pt(0, 20));
    path.line_to(pt(10, 20));
    let stroke = stroke_of(2, LineCap::Butt, LineJoin::Miter);
    let outline = path.stroke(stroke).unwrap();
    let mut expected = line_path(&[(0, 0), (10, 0)]).stroke(stroke).unwrap().segments;
    expected.extend(line_path(&[(0, 20), (10, 20)]).stroke(stroke).unwrap().segments);
    assert_eq!(outline.segments, expected);
    assert!(outline.contains(ptf(5.0, 0.0), FillRule::NonZero));
    assert!(outline.contains(ptf(5.0, 20.0), FillRule::NonZero));
    assert!(!outline.contains(ptf(5.0, 10.0), FillRule::NonZero));
}

#[test]
fn closed_square_gives_a_band_around_a_hole() {
    let mut path = line_path(&[(0, 0), (10, 0), (10, 10), (0, 10), (0, 0)]);
    path.close();
    let outline = path.stroke(stroke_of(2, LineCap::Butt, LineJoin::Miter)).unwrap();
    let s = &outline.segments;
    // Two contours, each from a move to a close.
    let moves = s.iter().filter(|x| matches!(x, CurveSegment::Move(_))).count();
    let closes = s.iter().filter(|x| matches!(x, CurveSegment::Close)).count();
    assert_eq!(moves, 2);
    assert_eq!(closes, 2);
    assert!(matches!(s[0], CurveSegment::Move(_)));
    assert_eq!(s.last(), Some(&CurveSegment::Close));
    assert!(outline.is_well_formed());
    // On the band.
    for (x, y) in [(5.0, 0.0), (5.0, 0.9), (5.0, -0.9), (10.0, 5.0), (10.9, 5.0), (0.0, 5.0), (5.0, 10.5)] {
        assert!(outline.contains(ptf(x, y), FillRule::NonZero), "({}, {})", x, y);
    }
    // In the hole and outside.
    for (x, y) in [(5.0, 5.0), (2.0, 2.0), (8.5, 8.5), (5.0, -1.5), (12.0, 5.0), (-1.5, 5.0), (5.0, 11.5)] {
        assert!(!outline.contains(ptf(x, y), FillRule::NonZero), "({}, {})", x, y);
    }
}

#[test]
fn equal_inputs_give_equal_outlines() {
    let mut path = Curve::new();
    path.move_to(pt(0, 0));
    path.quad_to(pt(50, 80), pt(100, 0));
    path.cubic_to(pt(130, -40), pt(160, 40), pt(200, 0));
    path.line_to(pt(200, 50));
    let stroke = stroke_of(7, LineCap::Round, LineJoin::Round);
    let a = path.stroke(stroke).unwrap();
    let b = path.clone().stroke(stroke).unwrap();
    assert!(!a.is_empty());
    assert_eq!(a.segments, b.segments);
}

#[test]
fn a_malformed_path_adds_nothing_to_an_outline() {
    let stroke = stroke_of(2, LineCap::Butt, LineJoin::Miter);
    let mut outline = Curve::new();
    outline.move_to(pt(50, 50));
    outline.line_to(pt(60, 50));
    outline.close();
    let before = outline.segments.clone();

    // A line where no subpath is open is not stroked from the origin.
    let mut lone = Curve::new();
    lone.line_to(pt(10, 0));
    assert_eq!(outline.stroke_impl(&lone, stroke, 6), Err(StrokeError::MalformedPath));
    assert_eq!(outline.segments, before);

    for first in [
        CurveSegment::Quad(pt(5, 5), pt(10, 0)),
        CurveSegment::Cubic(pt(3, 3), pt(6, 3), pt(10, 0)),
        CurveSegment::Close,
    ] {
        let mut path = Curve::new();
        path.append(first);
        path.move_to(pt(0, 0));
        path.line_to(pt(10, 0));
        assert_eq!(outline.stroke_impl(&path, stroke, 6), Err(StrokeError::MalformedPath));
        assert_eq!(outline.segments, before);
    }

    // An edge after a close, with a well-formed subpath before it.
    let mut late = Curve::new();
    late.move_to(pt(0, 0));
    late.line_to(pt(10, 0));
    late.close();
    late.line_to(pt(5, 5));
    assert_eq!(outline.stroke_impl(&late, stroke, 6), Err(StrokeError::MalformedPath));
    assert_eq!(outline.segments, before);

    // A well-formed path is appended behind what is there.
    let path = line_path(&[(0, 0), (10, 0)]);
    assert_eq!(outline.stroke_impl(&path, stroke, 6), Ok(()));
    let alone = path.stroke(stroke).unwrap();
    assert_eq!(outline.segments[..before.len()], before[..]);
    assert_eq!(outline.segments[before.len()..], alone.segments[..]);
    assert_eq!(Curve::new().stroke_impl(&Curve::new(), stroke, 6), Ok(()));
}

#[test]
fn contours_come_back_to_where_they_began() {
    let contours = |outline: &Curve| -> Vec<(Point, Point)> {
        let mut found = Vec::new();
        let mut start = None;
        let mut pen = None;
        for s in &outline.segments {
            match s {
                CurveSegment::Move(p) => {
                    start = Some(*p);
                    pen = Some(*p);
                }
                CurveSegment::Close => found.push((start.unwrap(), pen.unwrap())),
                other => pen = other.end(),
            }
        }
        found
    };
    for cap in [LineCap::Butt, LineCap::Round, LineCap::Square] {
        for join in [LineJoin::Miter, LineJoin::Round, LineJoin::Bevel] {
            let stroke = stroke_of(3, cap, join);
            // An open subpath: one contour, which ends where it began.
            let mut open = Curve::new();
            open.move_to(pt(0, 0));
            open.line_to(pt(10, 0));
            open.quad_to(pt(15, 5), pt(10, 10));
            open.cubic_to(pt(5, 15), pt(0, 15), pt(-5, 10));
            let outline = open.stroke(stroke).unwrap();
            let found = contours(&outline);
            assert_eq!(found.len(), 1);
            assert_eq!(found[0].0, found[0].1);
            // A closed subpath: the contour of the far side ends where it
            // began; the near side is closed by the closing edge.
            let mut closed = Curve::new();
            closed.move_to(pt(0, 0));
            closed.line_to(pt(10, 0));
            closed.line_to(pt(10, 10));
            closed.line_to(pt(0, 0));
            closed.close();
            let outline = closed.stroke(stroke).unwrap();
            let found = contours(&outline);
            assert_eq!(found.len(), 2);
            assert_eq!(found[1].0, found[1].1);
            // There is no cap on a closed subpath: of curves there are only
            // those of round joins.
            if join != LineJoin::Round {
                assert!(outline.segments.iter().all(|s| !matches!(s, CurveSegment::Cubic(..))));
            }
        }
    }
}

#[test]
fn the_far_side_of_a_closed_subpath_is_traced_whole() {
    // Two edges and a close: the closing edge itself is not drawn.
    let mut path = Curve::new();
    path.move_to(pt(0, 0));
    path.line_to(pt(10, 0));
    path.line_to(pt(10, 10));
    path.close();
    let outline = path.stroke(stroke_of(2, LineCap::Butt, LineJoin::Bevel)).unwrap();
    let expected = vec![
        // The near side, closed from where it ended to where it began.
        CurveSegment::Move(pt(0, 1)),
        CurveSegment::Line(pt(10, 1)),
        CurveSegment::Line(pt(9, 0)),
        CurveSegment::Line(pt(9, 10)),
        CurveSegment::Close,
        // The far side: to where it ended, and back along it.
        CurveSegment::Move(pt(0, -1)),
        CurveSegment::Line(pt(11, 10)),
        CurveSegment::Line(pt(11, 0)),
        CurveSegment::Line(pt(10, -1)),
        CurveSegment::Line(pt(0, -1)),
        CurveSegment::Close,
    ];
    assert_eq!(outline.segments, expected);
    // What the path encloses, away from its edges, is no part of the stroke.
    for (x, y) in [(7.0, 3.0), (8.0, 2.0), (8.5, 5.0), (5.0, 2.5)] {
        assert_eq!(outline.winding(ptf(x, y)), 0, "({}, {})", x, y);
        assert!(!outline.contains(ptf(x, y), FillRule::NonZero), "({}, {})", x, y);
    }
    // Along both edges the band is there, to either side.
    for (x, y) in [
        (5.0, 0.5), (5.0, -0.5), (2.0, 0.9), (2.0, -0.9), (10.5, 5.0), (9.5, 5.0), (10.9, 9.0),
        (9.1, 5.0), (10.5, 0.0), (9.5, 0.5),
    ] {
        assert!(outline.contains(ptf(x, y), FillRule::NonZero), "({}, {})", x, y);
    }
    for (x, y) in [(5.0, 1.5), (5.0, -1.5), (11.5, 5.0), (12.0, 12.0), (-1.0, 0.0), (10.0, 11.0)] {
        assert!(!outline.contains(ptf(x, y), FillRule::NonZero), "({}, {})", x, y);
    }
    // Where the subpath is closed no join is made: the two sides are closed
    // each by a straight edge, from (9, 10) to (0, 1) and from (0, -1) to
    // (11, 10), and between those two lies what there is of a band along
    // the way back.
    for (x, y) in [(5.0, 5.0), (5.0, 5.9), (5.0, 4.1), (2.0, 2.5)] {
        assert!(outline.contains(ptf(x, y), FillRule::NonZero), "({}, {})", x, y);
    }
    for (x, y) in [(5.0, 6.5), (5.0, 3.5), (9.1, 9.0)] {
        assert!(!outline.contains(ptf(x, y), FillRule::NonZero), "({}, {})", x, y);
    }
}

#[test]
fn a_closed_square_has_its_band_along_every_edge() {
    let mut path = line_path(&[(0, 0), (10, 0), (10, 10), (0, 10), (0, 0)]);
    path.close();
    for join in [LineJoin::Miter, LineJoin::Bevel, LineJoin::Round] {
        let outline = path.stroke(stroke_of(2, LineCap::Butt, join)).unwrap();
        // Along each of the four edges, the last one before the close too.
        for t in [1.5, 3.0, 5.0, 7.0, 8.5] {
            for d in [-0.9, -0.6, -0.3, 0.0, 0.3, 0.6, 0.9] {
                for (x, y) in [(t, d), (10.0 + d, t), (t, 10.0 + d), (d, t)] {
                    assert!(
                        outline.contains(ptf(x, y), FillRule::NonZero),
                        "({}, {}) with {:?}",
                        x,
                        y,
                        join
                    );
                }
            }
            for d in [-1.3, 1.3] {
                for (x, y) in [(t, d), (10.0 + d, t), (t, 10.0 + d), (d, t)] {
                    assert!(
                        !outline.contains(ptf(x, y), FillRule::NonZero),
                        "({}, {}) with {:?}",
                        x,
                        y,
                        join
                    );
                }
            }
        }
        // The hole.
        for (x, y) in [(5.0, 5.0), (1.5, 1.5), (8.5, 8.5), (1.5, 8.5), (8.5, 1.5), (7.0, 3.0)] {
            assert_eq!(outline.winding(ptf(x, y)), 0);
        }
        // The far side is named whole: its last point, where the far side of
        // the last edge ends, stands in the outline.
        assert!(outline.segments.contains(&CurveSegment::Line(pt(-1, 0))));
        assert!(outline.segments.contains(&CurveSegment::Line(pt(-1, 10))));
    }
}

#[test]
fn the_stroke_along_a_closed_rectangle_is_its_band() {
    // The rectangle from (0, 0) to (10, 8), drawn by three edges and closed,
    // with the radius 2 and bevel joins.
    let path = Curve::rect(Rect::new(pt(0, 0), pt(10, 8)));
    let outline = path.stroke(stroke_of(4, LineCap::Butt, LineJoin::Bevel)).unwrap();
    let expected = vec![
        CurveSegment::Move(pt(0, 2)),
        CurveSegment::Line(pt(10, 2)),
        CurveSegment::Line(pt(8, 0)),
        CurveSegment::Line(pt(8, 8)),
        CurveSegment::Line(pt(10, 6)),
        CurveSegment::Line(pt(0, 6)),
        CurveSegment::Close,
        CurveSegment::Move(pt(0, -2)),
        CurveSegment::Line(pt(0, 10)),
        CurveSegment::Line(pt(10, 10)),
        CurveSegment::Line(pt(12, 8)),
        CurveSegment::Line(pt(12, 0)),
        CurveSegment::Line(pt(10, -2)),
        CurveSegment::Line(pt(0, -2)),
        CurveSegment::Close,
    ];
    assert_eq!(outline.segments, expected);
    let (x0, y0, x1, y1, r) = (0.0, 0.0, 10.0, 8.0, 2.0);
    let mut inside = 0;
    let mut outside = 0;
    for i in -16..64 {
        for j in -16..56 {
            // Off the grid of the corners, so that no point lies on an edge.
            let (x, y) = (i as f64 * 0.25 + 0.1, j as f64 * 0.25 + 0.05);
            let far_side = y0 - r <= y
                && y < y1 + r
                && x0 <= x
                && x < x1 + r
                && (y >= y0 || x - (x1 + r) < y - y0)
                && (y < y1 || x - x1 < (y1 + r) - y);
            let hole = x0 <= x && x < x1 - r && y0 + r <= y && y < y1 - r;
            let band = far_side && !hole;
            assert_eq!(outline.contains(ptf(x, y), FillRule::NonZero), band, "({}, {})", x, y);
            if band {
                inside += 1;
            } else {
                outside += 1;
            }
        }
    }
    assert!(inside > 500 && outside > 500);
    // The hole cancels: the two contours wind against each other.
    assert_eq!(outline.winding(ptf(4.0, 4.0)), 0);
    assert_eq!(outline.winding(ptf(11.0, 4.0)), -1);
    assert_eq!(outline.winding(ptf(5.0, -1.0)), -1);
    // Where the near side overlaps itself at an inner corner.
    assert_eq!(outline.winding(ptf(8.5, 1.0)), -2);
    // The edge that closes the rectangle is not drawn: the band ends on it.
    assert!(outline.contains(ptf(0.1, 1.0), FillRule::NonZero));
    assert!(!outline.contains(ptf(-0.1, 1.0), FillRule::NonZero));
    assert!(!outline.contains(ptf(-0.5, 4.0), FillRule::NonZero));
}
