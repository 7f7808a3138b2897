use ori_core::layout::affine::{Affine, Matrix};
use ori_core::layout::fixed::{integer_sqrt, Fixed, HALF, LIMIT, ONE};
use ori_core::layout::rect::{Rect, Size};
use ori_core::layout::vector::{Point, Vector};

fn fx(bits: i64) -> Fixed {
    Fixed::from_bits(bits)
}

fn vec2(x: i32, y: i32) -> Vector {
    Vector::new(Fixed::from_int(x), Fixed::from_int(y))
}

fn pt(x: i32, y: i32) -> Point {
    Point::new(Fixed::from_int(x), Fixed::from_int(y))
}

#[test]
fn integers_and_ratios() {
    assert_eq!(Fixed::from_int(3).bits, 3 * ONE);
    assert_eq!(Fixed::from_int(-7).bits, -7 * ONE);
    assert_eq!(Fixed::from_ratio(1, 2).bits, HALF);
    assert_eq!(Fixed::from_ratio(1, 3).bits, 21845);
    assert_eq!(Fixed::from_ratio(-1, 3).bits, -21845);
    assert_eq!(Fixed::from_ratio(55, 100).bits, 36044);
    assert_eq!(Fixed::one().bits, ONE);
    assert_eq!(Fixed::zero().bits, 0);
}

#[test]
fn sums_and_differences_saturate() {
    assert_eq!(fx(5).plus(fx(7)).bits, 12);
    assert_eq!(fx(5).minus(fx(7)).bits, -2);
    assert_eq!(fx(LIMIT).plus(fx(1)).bits, LIMIT);
    assert_eq!(fx(-LIMIT).minus(fx(1)).bits, -LIMIT);
    assert_eq!(fx(i64::MIN).plus(fx(0)).bits, -LIMIT);
    assert_eq!(fx(i64::MIN).neg().bits, LIMIT);
    assert_eq!(fx(17).neg().bits, -17);
    assert_eq!(fx(-17).abs().bits, 17);
    assert_eq!(fx(17).abs().bits, 17);
}

#[test]
fn products_round_toward_zero() {
    // 1.5 * 2.5 = 3.75
    assert_eq!(fx(98304).times(fx(163840)).bits, 245760);
    // 3 bits * 0.5 = 1.5 bits, rounded toward zero, on either side of it.
    assert_eq!(fx(3).times(fx(HALF)).bits, 1);
    assert_eq!(fx(-3).times(fx(HALF)).bits, -1);
    assert_eq!(fx(3).times(fx(-HALF)).bits, -1);
    assert_eq!(fx(-3).times(fx(-HALF)).bits, 1);
    assert_eq!(fx(LIMIT).times(Fixed::from_int(2)).bits, LIMIT);
    assert_eq!(fx(-LIMIT).times(Fixed::from_int(2)).bits, -LIMIT);
}

#[test]
fn quotients_round_toward_zero_and_never_fail() {
    assert_eq!(Fixed::from_int(1).over(Fixed::from_int(4)).bits, 16384);
    assert_eq!(Fixed::from_int(7).over(Fixed::from_int(-2)).bits, -229376);
    assert_eq!(Fixed::from_int(-7).over(Fixed::from_int(-2)).bits, 229376);
    assert_eq!(Fixed::from_int(2).over(Fixed::from_int(3)).bits, 43690);
    assert_eq!(Fixed::from_int(-2).over(Fixed::from_int(3)).bits, -43690);
    assert_eq!(Fixed::from_int(1).over(Fixed::zero()).bits, LIMIT);
    assert_eq!(Fixed::from_int(-1).over(Fixed::zero()).bits, -LIMIT);
    assert_eq!(Fixed::zero().over(Fixed::zero()).bits, 0);
    assert_eq!(fx(LIMIT).over(fx(1)).bits, LIMIT);
}

#[test]
fn square_roots() {
    assert_eq!(Fixed::from_int(4).sqrt().bits, 2 * ONE);
    assert_eq!(Fixed::from_int(2).sqrt().bits, 92681);
    assert_eq!(Fixed::from_ratio(1, 4).sqrt().bits, HALF);
    assert_eq!(Fixed::zero().sqrt().bits, 0);
    assert_eq!(Fixed::from_int(-4).sqrt().bits, 0);
    assert_eq!(integer_sqrt(0), 0);
    assert_eq!(integer_sqrt(1), 1);
    assert_eq!(integer_sqrt(3), 1);
    assert_eq!(integer_sqrt(4), 2);
    assert_eq!(integer_sqrt(99), 9);
    assert_eq!(integer_sqrt(100), 10);
    assert_eq!(integer_sqrt(u128::MAX), u64::MAX as u128);
    assert_eq!(integer_sqrt(1u128 << 126), 1u128 << 63);
}

#[test]
fn comparisons() {
    assert!(fx(1).lt(fx(2)));
    assert!(!fx(2).lt(fx(2)));
    assert!(fx(2).ge(fx(2)));
    assert!(!fx(1).ge(fx(2)));
    assert!(fx(0).is_zero());
    assert!(!fx(1).is_zero());
}

#[test]
fn vector_arithmetic() {
    let a = vec2(3, 4);
    let b = vec2(-1, 2);
    assert_eq!(a.plus(b), vec2(2, 6));
    assert_eq!(a.minus(b), vec2(4, 2));
    assert_eq!(a.neg(), vec2(-3, -4));
    assert_eq!(a.times(Fixed::from_int(2)), vec2(6, 8));
    assert_eq!(a.over(Fixed::from_int(2)).x.bits, 98304);
    assert_eq!(a.dot(b).bits, 5 * ONE);
    assert_eq!(a.cross(b).bits, 10 * ONE);
    assert_eq!(b.cross(a).bits, -10 * ONE);
    assert_eq!(a.hat(), vec2(-4, 3));
    assert_eq!(vec2(1, 0).hat(), vec2(0, 1));
    assert_eq!(a.length().bits, 5 * ONE);
    assert_eq!(Vector::zero().length().bits, 0);
}

#[test]
fn unit_vectors() {
    assert_eq!(vec2(10, 0).normalize(), vec2(1, 0));
    assert_eq!(vec2(0, -3).normalize(), vec2(0, -1));
    let n = vec2(3, 4).normalize();
    assert_eq!((n.x.bits, n.y.bits), (39321, 52428));
    let m = vec2(-3, 4).normalize();
    assert_eq!((m.x.bits, m.y.bits), (-39321, 52428));
    // The shortest vectors there are have a direction as exact as any.
    let tiny = Vector::new(fx(1), fx(0)).normalize();
    assert_eq!((tiny.x.bits, tiny.y.bits), (ONE, 0));
    let diagonal = Vector::new(fx(1), fx(1)).normalize();
    assert_eq!((diagonal.x.bits, diagonal.y.bits), (46340, 46340));
    // The longest ones too.
    let huge = Vector::new(fx(LIMIT), fx(0)).normalize();
    assert_eq!((huge.x.bits, huge.y.bits), (ONE, 0));
    let wide = Vector::new(fx(i64::MIN), fx(i64::MIN)).normalize();
    assert_eq!((wide.x.bits, wide.y.bits), (-46340, -46340));
    // Without a direction there is no unit vector.
    assert_eq!(Vector::zero().normalize(), Vector::zero());
    for v in [vec2(1, 1), vec2(7, -3), vec2(-1000, 1), Vector::new(fx(5), fx(-12))] {
        let n = v.normalize();
        let square = (n.x.bits * n.x.bits + n.y.bits * n.y.bits) as f64;
        let length = square.sqrt() / 65536.0;
        assert!((length - 1.0).abs() < 4e-5, "{:?} has length {}", n, length);
    }
}

#[test]
fn points() {
    let p = pt(1, 2);
    let q = pt(5, -1);
    assert_eq!(p.plus(vec2(2, 2)), pt(3, 4));
    assert_eq!(p.minus(vec2(2, 2)), pt(-1, 0));
    assert_eq!(q.since(p), vec2(4, -3));
    assert_eq!(p.distance(q).bits, 5 * ONE);
    assert_eq!(p.lerp(q, Fixed::zero()), p);
    assert_eq!(p.lerp(q, Fixed::one()), q);
    assert_eq!(p.lerp(q, Fixed::from_bits(HALF)), Point::new(Fixed::from_int(3), fx(HALF)));
    assert_eq!(Point::zero(), pt(0, 0));
}

#[test]
fn rectangles() {
    let r = Rect::min_size(pt(1, 2), Size::new(Fixed::from_int(3), Fixed::from_int(4)));
    assert_eq!(r, Rect::new(pt(1, 2), pt(4, 6)));
    assert_eq!(r.size(), Size::new(Fixed::from_int(3), Fixed::from_int(4)));
    assert!(r.contains(pt(1, 2)));
    assert!(r.contains(pt(4, 6)));
    assert!(r.contains(pt(2, 3)));
    assert!(!r.contains(pt(0, 3)));
    assert!(!r.contains(pt(5, 3)));
    assert!(!r.contains(pt(2, 1)));
    assert!(!r.contains(pt(2, 7)));
}

#[test]
fn affine_maps() {
    let id = Affine::identity();
    assert_eq!(id.apply(pt(3, -4)), pt(3, -4));
    let t = Affine::translate(vec2(10, 20));
    assert_eq!(t.apply(pt(1, 2)), pt(11, 22));
    assert_eq!(t.inverse().apply(pt(11, 22)), pt(1, 2));
    let s = Affine::scale(vec2(2, 4));
    assert_eq!(s.apply(pt(1, 2)), pt(2, 8));
    assert_eq!(s.inverse().apply(pt(2, 8)), pt(1, 2));
    // A quarter turn takes the x axis to the y axis.
    let q = Affine::rotation(Fixed::zero(), Fixed::one());
    assert_eq!(q.apply(pt(1, 0)), pt(0, 1));
    assert_eq!(q.apply(pt(0, 1)), pt(-1, 0));
    assert_eq!(q.inverse().apply(pt(0, 1)), pt(1, 0));
    // First scale, then move.
    let both = t.compose(s);
    assert_eq!(both.apply(pt(1, 2)), pt(12, 28));
    assert_eq!(both.inverse().apply(pt(12, 28)), pt(1, 2));
    assert_eq!(Matrix::identity().determinant().bits, ONE);
    assert_eq!(s.matrix.determinant().bits, 8 * ONE);
    // The rectangle around a turned rectangle.
    let r = Rect::new(pt(0, 0), pt(4, 2));
    assert_eq!(r.transform(q), Rect::new(pt(-2, 0), pt(0, 4)));
    assert_eq!(r.transform(both), Rect::new(pt(10, 20), pt(18, 28)));
}

#[test]
fn bit_patterns_are_clamped_to_the_range() {
    assert_eq!(Fixed::from_bits(i64::MIN).bits, -LIMIT);
    assert_eq!(Fixed::from_bits(-LIMIT).bits, -LIMIT);
    assert_eq!(Fixed::from_bits(LIMIT).bits, LIMIT);
    assert_eq!(Fixed::from_bits(0).bits, 0);
    assert_eq!(Fixed::from_bits(-1).bits, -1);
    assert_eq!(Fixed::from_bits(i64::MIN + 1).bits, i64::MIN + 1);
}

#[test]
fn the_identity_keeps_every_point() {
    let id = Affine::identity();
    assert_eq!(id.inverse(), id);
    for (x, y) in [(0, 0), (1, -1), (LIMIT, -LIMIT), (-LIMIT, LIMIT), (123456789, -987654321)] {
        let p = Point::new(fx(x), fx(y));
        assert_eq!(id.apply(p), p);
        assert_eq!(id.inverse().apply(p), p);
    }
    let least = Point::new(fx(i64::MIN), fx(i64::MIN));
    assert_eq!(id.apply(least), least);
}
