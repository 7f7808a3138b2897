use ori_core::canvas::canvas::{
    BlendMode, Canvas, Color, FillRule, Image, Mask, Paint, Primitive, Shader,
};
use ori_core::canvas::curve::Curve;
use ori_core::canvas::stroke::Stroke;
use ori_core::layout::affine::Affine;
use ori_core::layout::fixed::{Fixed, LIMIT};
use ori_core::layout::rect::{Rect, Size};
use ori_core::layout::vector::{Point, Vector};
use ori_core::view::ViewId;

fn pt(x: i32, y: i32) -> Point {
    Point::new(Fixed::from_int(x), Fixed::from_int(y))
}

fn rect(x0: i32, y0: i32, x1: i32, y1: i32) -> Rect {
    Rect::new(pt(x0, y0), pt(x1, y1))
}

fn layer_with(r: Rect) -> Canvas {
    let mut c = Canvas::new();
    c.rect(r, Paint::default());
    c
}

#[test]
fn paints() {
    let p = Paint::default();
    assert_eq!(p.shader, Shader::Solid(Color::black()));
    assert_eq!(p.blend, BlendMode::SourceOver);
    assert!(p.anti_alias);
    let red = Color { r: Fixed::one(), g: Fixed::zero(), b: Fixed::zero(), a: Fixed::one() };
    let q = Paint::from(red);
    assert_eq!(q.shader, Shader::Solid(red));
    assert_eq!(q.blend, BlendMode::SourceOver);
    assert!(q.anti_alias);
    assert_eq!(Color::black().a, Fixed::one());
    assert_eq!(Color::transparent().a, Fixed::zero());
}

#[test]
fn a_mask_of_a_rectangle() {
    let m = Mask::from(rect(0, 0, 4, 4));
    assert_eq!(m.fill, FillRule::NonZero);
    assert_eq!(m.curve.segments, Curve::rect(rect(0, 0, 4, 4)).segments);
    assert!(m.curve.contains(pt(2, 2), m.fill));
    assert!(!m.curve.contains(pt(5, 2), m.fill));
}

#[test]
fn primitives_are_kept_in_the_order_drawn() {
    let mut c = Canvas::default();
    assert!(c.primitives().is_empty());
    c.rect(rect(0, 0, 1, 1), Paint::default());
    c.trigger(rect(0, 0, 2, 2));
    c.fill(Curve::rect(rect(0, 0, 3, 3)), FillRule::EvenOdd, Paint::default());
    c.stroke(Curve::rect(rect(0, 0, 4, 4)), Stroke::default(), Paint::default());
    c.image(pt(5, 5), Image { width: 2, height: 3, key: 7 });
    c.layer(Affine::identity(), None, Some(ViewId::new(1)), layer_with(rect(0, 0, 6, 6)));
    c.transform(Affine::translate(Vector::new(Fixed::from_int(1), Fixed::zero())), Canvas::new());
    c.mask(Mask::from(rect(0, 0, 8, 8)), Canvas::new());
    c.view(ViewId::new(9), Canvas::new());
    let p = c.primitives();
    assert_eq!(p.len(), 9);
    assert!(matches!(&p[0], Primitive::Rect { rect: r, paint } if *r == rect(0, 0, 1, 1) && *paint == Paint::default()));
    assert!(matches!(&p[1], Primitive::Rect { rect: r, paint }
        if *r == rect(0, 0, 2, 2)
            && paint.shader == Shader::Solid(Color::transparent())
            && paint.blend == BlendMode::Destination
            && !paint.anti_alias));
    assert!(matches!(&p[2], Primitive::Fill { fill: FillRule::EvenOdd, .. }));
    assert!(matches!(&p[3], Primitive::Stroke { stroke, .. } if *stroke == Stroke::default()));
    assert!(matches!(&p[4], Primitive::Image { point, image } if *point == pt(5, 5) && image.key == 7));
    assert!(matches!(&p[5], Primitive::Layer { primitives, mask: None, view: Some(v), transform }
        if primitives.len() == 1 && v.id == 1 && *transform == Affine::identity()));
    assert!(matches!(&p[6], Primitive::Layer { mask: None, view: None, transform, .. }
        if transform.translation.x == Fixed::from_int(1)));
    assert!(matches!(&p[7], Primitive::Layer { mask: Some(_), view: None, transform, .. }
        if *transform == Affine::identity()));
    assert!(matches!(&p[8], Primitive::Layer { mask: None, view: Some(v), .. } if v.id == 9));
    c.clear();
    assert!(c.primitives().is_empty());
}

#[test]
fn image_size() {
    let i = Image { width: 640, height: 480, key: 0 };
    assert_eq!(i.size(), Size::new(Fixed::from_int(640), Fixed::from_int(480)));
}

#[test]
fn the_topmost_view_under_a_point_is_found() {
    let mut c = Canvas::new();
    assert_eq!(c.view_at(pt(0, 0)), None);
    c.view(ViewId::new(1), layer_with(rect(0, 0, 10, 10)));
    c.view(ViewId::new(2), layer_with(rect(5, 5, 15, 15)));
    assert_eq!(c.view_at(pt(2, 2)), Some(ViewId::new(1)));
    assert_eq!(c.view_at(pt(7, 7)), Some(ViewId::new(2)));
    assert_eq!(c.view_at(pt(12, 12)), Some(ViewId::new(2)));
    assert_eq!(c.view_at(pt(20, 20)), None);
}

#[test]
fn what_belongs_to_no_view_hides_what_lies_under_it() {
    let mut c = Canvas::new();
    c.view(ViewId::new(1), layer_with(rect(0, 0, 10, 10)));
    c.rect(rect(0, 0, 5, 5), Paint::default());
    assert_eq!(c.view_at(pt(2, 2)), None);
    assert_eq!(c.view_at(pt(7, 7)), Some(ViewId::new(1)));
    // A layer without a view that holds the point is passed through.
    let mut d = Canvas::new();
    d.view(ViewId::new(1), layer_with(rect(0, 0, 10, 10)));
    d.layer(Affine::identity(), None, None, layer_with(rect(0, 0, 5, 5)));
    assert_eq!(d.view_at(pt(2, 2)), Some(ViewId::new(1)));
}

#[test]
fn fills_and_images_are_hit_and_strokes_are_not() {
    let mut inner = Canvas::new();
    let mut triangle = Curve::new();
    triangle.move_to(pt(0, 0));
    triangle.line_to(pt(10, 0));
    triangle.line_to(pt(0, 10));
    triangle.close();
    inner.fill(triangle, FillRule::NonZero, Paint::default());
    inner.image(pt(20, 20), Image { width: 4, height: 2, key: 1 });
    inner.stroke(Curve::rect(rect(40, 40, 50, 50)), Stroke::default(), Paint::default());
    let mut c = Canvas::new();
    c.view(ViewId::new(3), inner);
    assert_eq!(c.view_at(pt(2, 2)), Some(ViewId::new(3)));
    assert_eq!(c.view_at(pt(8, 8)), None);
    assert_eq!(c.view_at(pt(22, 21)), Some(ViewId::new(3)));
    assert_eq!(c.view_at(pt(24, 22)), Some(ViewId::new(3)));
    assert_eq!(c.view_at(pt(25, 21)), None);
    assert_eq!(c.view_at(pt(45, 45)), None);
    assert_eq!(c.view_at(pt(40, 45)), None);
}

#[test]
fn layers_are_hit_through_their_transform_and_mask() {
    let shift = Affine::translate(Vector::new(Fixed::from_int(100), Fixed::from_int(0)));
    let mut c = Canvas::new();
    c.layer(shift, None, Some(ViewId::new(4)), layer_with(rect(0, 0, 10, 10)));
    assert_eq!(c.view_at(pt(105, 5)), Some(ViewId::new(4)));
    assert_eq!(c.view_at(pt(5, 5)), None);

    let mut m = Canvas::new();
    m.layer(
        Affine::identity(),
        Some(Mask::from(rect(0, 0, 5, 5))),
        Some(ViewId::new(5)),
        layer_with(rect(0, 0, 10, 10)),
    );
    assert_eq!(m.view_at(pt(2, 2)), Some(ViewId::new(5)));
    assert_eq!(m.view_at(pt(7, 7)), None);

    // Layers nest: the point is taken back through every transform in turn.
    let mut inner = Canvas::new();
    inner.layer(shift, None, Some(ViewId::new(6)), layer_with(rect(0, 0, 10, 10)));
    let mut outer = Canvas::new();
    outer.layer(
        Affine::scale(Vector::new(Fixed::from_int(2), Fixed::from_int(2))),
        None,
        Some(ViewId::new(7)),
        inner,
    );
    assert_eq!(outer.view_at(pt(210, 10)), Some(ViewId::new(6)));
    assert_eq!(outer.view_at(pt(219, 19)), Some(ViewId::new(6)));
    assert_eq!(outer.view_at(pt(222, 10)), None);
    assert_eq!(outer.view_at(pt(105, 5)), None);
}

#[test]
fn a_layer_under_the_identity_is_hit_where_it_was_drawn() {
    let far = LIMIT;
    let corner = Point::new(Fixed::from_bits(-far), Fixed::from_bits(-far));
    let least = Point::new(Fixed::from_bits(i64::MIN), Fixed::from_bits(i64::MIN));
    assert_eq!(least, corner);
    let mut c = Canvas::new();
    c.view(ViewId::new(1), layer_with(Rect::new(corner, corner)));
    assert_eq!(c.view_at(corner), Some(ViewId::new(1)));
    assert_eq!(c.view_at(least), Some(ViewId::new(1)));
    assert_eq!(c.view_at(Point::new(Fixed::from_bits(1 - far), Fixed::from_bits(-far))), None);
    let other = Point::new(Fixed::from_bits(far), Fixed::from_bits(far));
    let mut d = Canvas::new();
    d.view(ViewId::new(2), layer_with(Rect::new(other, other)));
    assert_eq!(d.view_at(other), Some(ViewId::new(2)));
    assert_eq!(d.view_at(corner), None);
}
