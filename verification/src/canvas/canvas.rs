//! What a canvas holds: primitives, their paint, and the masks and layers
//! that arrange them.

use vstd::prelude::*;
use vstd::std_specs::convert::FromSpecImpl;
use crate::canvas::curve::{
    Curve, CurveSegment, closing_winding, edge_winding, inside, orientation, tally, tally_segment,
    winding_number,
};
use crate::canvas::stroke::Stroke;
use crate::layout::affine::Affine;
use crate::layout::fixed::{Fixed, LIMIT, ONE};
use crate::layout::rect::{Rect, Size};
use crate::layout::vector::Point;
use crate::view::ViewId;

verus! {

/// A color, by its red, green, blue and alpha parts, each from zero to one.
#[derive(Clone, Copy, Debug, PartialEq, Eq, Structural, Hash)]
pub struct Color {
    pub r: Fixed,
    pub g: Fixed,
    pub b: Fixed,
    pub a: Fixed,
}

impl Color {
    pub open spec fn spec_black() -> Color {
        Color {
            r: Fixed { bits: 0 },
            g: Fixed { bits: 0 },
            b: Fixed { bits: 0 },
            a: Fixed { bits: ONE },
        }
    }

    pub open spec fn spec_transparent() -> Color {
        Color {
            r: Fixed { bits: 0 },
            g: Fixed { bits: 0 },
            b: Fixed { bits: 0 },
            a: Fixed { bits: 0 },
        }
    }

    pub fn black() -> (c: Color)
        ensures
            c == Color::spec_black(),
    {
        Color { r: Fixed::zero(), g: Fixed::zero(), b: Fixed::zero(), a: Fixed::one() }
    }

    pub fn transparent() -> (c: Color)
        ensures
            c == Color::spec_transparent(),
    {
        Color { r: Fixed::zero(), g: Fixed::zero(), b: Fixed::zero(), a: Fixed::zero() }
    }
}

/// An image, by its size in pixels and the key under which a renderer holds
/// its pixels.
#[derive(Clone, Copy, Debug, PartialEq, Eq, Structural, Hash)]
pub struct Image {
    pub width: u32,
    pub height: u32,
    pub key: u64,
}

impl Image {
    pub open spec fn spec_size(self) -> Size {
        Size { width: Fixed::of(self.width * ONE), height: Fixed::of(self.height * ONE) }
    }

    #[verifier::when_used_as_spec(spec_size)]
    pub fn size(self) -> (s: Size)
        ensures
            s == self.spec_size(),
    {
        assert(ONE == 65536);
        Size {
            width: Fixed::saturate((self.width as i128) * 65536),
            height: Fixed::saturate((self.height as i128) * 65536),
        }
    }
}

/// Ways to fill a shape.
#[derive(Clone, Copy, Debug, PartialEq, Eq, Structural, Hash)]
pub enum Shader {
    /// A solid color.
    Solid(Color),
}

/// Ways to blend two colors.
#[derive(Clone, Copy, Debug, PartialEq, Eq, Structural, Hash)]
pub enum BlendMode {
    /// Replaces the destination with zero.
    Clear,
    /// Replaces the destination with the source.
    Source,
    /// Preserves the destination.
    Destination,
    /// Source over destination.
    SourceOver,
    /// Destination over source.
    DestinationOver,
}

/// A paint that can be used to fill or stroke a shape.
#[derive(Clone, Copy, Debug, PartialEq, Eq, Structural, Hash)]
pub struct Paint {
    /// The shader of the paint.
    pub shader: Shader,
    /// The blend mode of the paint.
    pub blend: BlendMode,
    /// Whether the paint should be anti-aliased.
    pub anti_alias: bool,
}

impl Paint {
    /// Solid black, drawn over what is there, with smooth edges.
    pub open spec fn spec_default() -> Paint {
        Paint {
            shader: Shader::Solid(Color::spec_black()),
            blend: BlendMode::SourceOver,
            anti_alias: true,
        }
    }

    /// The paint of a rectangle that is there to be hit and not to be seen.
    pub open spec fn spec_trigger() -> Paint {
        Paint {
            shader: Shader::Solid(Color::spec_transparent()),
            blend: BlendMode::Destination,
            anti_alias: false,
        }
    }
}

impl Default for Paint {
    fn default() -> (p: Paint)
        ensures
            p == Paint::spec_default(),
    {
        Paint {
            shader: Shader::Solid(Color::black()),
            blend: BlendMode::SourceOver,
            anti_alias: true,
        }
    }
}

impl From<Color> for Paint {
    fn from(value: Color) -> (p: Paint) {
        Paint { shader: Shader::Solid(value), blend: BlendMode::SourceOver, anti_alias: true }
    }
}

impl FromSpecImpl<Color> for Paint {
    open spec fn obeys_from_spec() -> bool {
        true
    }

    open spec fn from_spec(value: Color) -> Paint {
        Paint { shader: Shader::Solid(value), blend: BlendMode::SourceOver, anti_alias: true }
    }
}

/// Rule determining if a point is inside a shape.
#[derive(Clone, Copy, Debug, PartialEq, Eq, Structural, Hash)]
pub enum FillRule {
    /// A point is inside the shape if a ray from the point crosses a non-zero sum of signed edge
    /// crossings.
    NonZero,
    /// A point is inside the shape if a ray from the point crosses an odd number of edges.
    EvenOdd,
}

/// The outline of a rectangle: from `min` around by way of the corner that
/// shares its y with `min`, and closed.
pub open spec fn rect_outline(rect: Rect) -> Seq<CurveSegment> {
    let c = rect.corners();
    seq![
        CurveSegment::Move(c.0),
        CurveSegment::Line(c.1),
        CurveSegment::Line(c.2),
        CurveSegment::Line(c.3),
        CurveSegment::Close,
    ]
}

/// Whether the coordinate lies in the inner half of the range, where the
/// difference of two coordinates is exact.
pub open spec fn in_half_range(c: Fixed) -> bool {
    -(LIMIT / 2) <= c.bits <= LIMIT / 2
}

/// The outline of a rectangle holds, under either fill rule, the points of
/// the rectangle but those on its two edges at the greatest x and the
/// greatest y.
pub proof fn lemma_rect_outline_inside(rect: Rect, p: Point, fill: FillRule)
    requires
        rect.min.x.bits <= rect.max.x.bits,
        rect.min.y.bits <= rect.max.y.bits,
        in_half_range(rect.min.x),
        in_half_range(rect.min.y),
        in_half_range(rect.max.x),
        in_half_range(rect.max.y),
        in_half_range(p.x),
        in_half_range(p.y),
    ensures
        inside(rect_outline(rect), p, fill) == (rect.min.x.bits <= p.x.bits < rect.max.x.bits
            && rect.min.y.bits <= p.y.bits < rect.max.y.bits),
{
    reveal(Fixed::spec_minus);
    let s = rect_outline(rect);
    let c = rect.corners();
    let (x0, y0) = (rect.min.x.bits as int, rect.min.y.bits as int);
    let (x1, y1) = (rect.max.x.bits as int, rect.max.y.bits as int);
    let (px, py) = (p.x.bits as int, p.y.bits as int);
    let t0 = tally(s, 0, p);
    let t1 = tally(s, 1, p);
    let t2 = tally(s, 2, p);
    let t3 = tally(s, 3, p);
    let t4 = tally(s, 4, p);
    let t5 = tally(s, 5, p);
    assert(t1 == tally_segment(t0, s[0], p));
    assert(t2 == tally_segment(t1, s[1], p));
    assert(t3 == tally_segment(t2, s[2], p));
    assert(t4 == tally_segment(t3, s[3], p));
    assert(t5 == tally_segment(t4, s[4], p));
    assert(t1.winding == 0 && t1.start == Some(c.0) && t1.pen == Some(c.0));
    assert(edge_winding(c.0, c.1, p) == 0);
    assert(edge_winding(c.2, c.3, p) == 0);
    assert(orientation(c.1, c.2, p) == (x1 - px) * (y1 - y0)) by (nonlinear_arith)
        requires
            orientation(c.1, c.2, p) == (x1 - px) * (y1 - py) - (y0 - py) * (x1 - px),
    ;
    assert(orientation(c.3, c.0, p) == (x0 - px) * (y0 - y1)) by (nonlinear_arith)
        requires
            orientation(c.3, c.0, p) == (x0 - px) * (y0 - py) - (y1 - py) * (x0 - px),
    ;
    let right = edge_winding(c.1, c.2, p);
    let left = edge_winding(c.3, c.0, p);
    assert(right == if y0 <= py < y1 && px < x1 {
        1int
    } else {
        0int
    }) by (nonlinear_arith)
        requires
            right == if y0 - py <= 0 && y1 - py > 0 && (x1 - px) * (y1 - y0) > 0 {
                1int
            } else if y0 - py > 0 && y1 - py <= 0 && (x1 - px) * (y1 - y0) < 0 {
                -1int
            } else {
                0int
            },
            y0 <= y1,
    ;
    assert(left == if y0 <= py < y1 && px < x0 {
        -1int
    } else {
        0int
    }) by (nonlinear_arith)
        requires
            left == if y1 - py <= 0 && y0 - py > 0 && (x0 - px) * (y0 - y1) > 0 {
                1int
            } else if y1 - py > 0 && y0 - py <= 0 && (x0 - px) * (y0 - y1) < 0 {
                -1int
            } else {
                0int
            },
            y0 <= y1,
    ;
    assert(t5.winding == right + left);
    assert(t5.start == Some(c.0) && t5.pen == Some(c.0));
    assert(closing_winding(t5.start, t5.pen, p) == 0);
    assert(winding_number(s, p) == right + left);
}

impl Curve {
    /// The outline of a rectangle.
    pub fn rect(rect: Rect) -> (c: Curve)
        ensures
            c@ == rect_outline(rect),
    {
        let mut curve = Curve::new();
        curve.move_to(rect.min);
        curve.line_to(Point { x: rect.max.x, y: rect.min.y });
        curve.line_to(rect.max);
        curve.line_to(Point { x: rect.min.x, y: rect.max.y });
        curve.close();
        proof {
            assert(curve@ =~= rect_outline(rect));
        }
        curve
    }
}

/// A mask that can be used to clip a layer.
#[derive(Clone, Debug, PartialEq, Eq)]
pub struct Mask {
    /// The curve of the mask.
    pub curve: Curve,
    /// The fill rule of the mask.
    pub fill: FillRule,
}

impl Mask {
    /// Whether the mask lets the point through.
    pub open spec fn admits(self, p: Point) -> bool {
        inside(self.curve@, p, self.fill)
    }

    /// The mask of a rectangle: its outline under the non-zero rule.
    pub fn rect(rect: Rect) -> (m: Mask)
        ensures
            m.curve@ == rect_outline(rect),
            m.fill == FillRule::NonZero,
    {
        Mask { curve: Curve::rect(rect), fill: FillRule::NonZero }
    }
}

impl From<Rect> for Mask {
    fn from(value: Rect) -> (m: Mask)
        ensures
            m.curve@ == rect_outline(value),
            m.fill == FillRule::NonZero,
    {
        Mask::rect(value)
    }
}

impl FromSpecImpl<Rect> for Mask {
    /// A mask holds a path, which no specification can name by value: what
    /// the conversion gives is stated on the conversion itself.
    open spec fn obeys_from_spec() -> bool {
        false
    }

    open spec fn from_spec(value: Rect) -> Mask {
        arbitrary()
    }
}

/// A primitive that can be drawn on a canvas.
#[derive(Debug, PartialEq, Eq)]
pub enum Primitive {
    /// A rectangle.
    Rect {
        /// The rectangle to draw.
        rect: Rect,
        /// The paint to fill the rectangle with.
        paint: Paint,
    },
    /// A filled curve.
    Fill {
        /// The curve to draw.
        curve: Curve,
        /// The fill rule of the curve.
        fill: FillRule,
        /// The paint to fill the curve with.
        paint: Paint,
    },
    /// A stroked curve.
    Stroke {
        /// The curve to draw.
        curve: Curve,
        /// The stroke properties of the curve.
        stroke: Stroke,
        /// The paint to stroke the curve with.
        paint: Paint,
    },
    /// An image.
    Image {
        /// The top-left corner of the image.
        point: Point,
        /// The image to draw.
        image: Image,
    },
    /// A layer that can be transformed and masked.
    Layer {
        /// The primitives of the layer.
        primitives: Vec<Primitive>,
        /// The transformation of the layer.
        transform: Affine,
        /// The mask of the layer.
        mask: Option<Mask>,
        /// The view of the layer.
        view: Option<ViewId>,
    },
}

/// The view under `point` among the first `n` primitives, of which a later
/// one lies over an earlier one; `view` is the view that they belong to.
///
/// The topmost primitive that holds the point decides: a rectangle, a filled
/// curve or an image gives `view`, be it none; a stroked curve holds no
/// point; a layer holds the point if its mask, where it has one, admits the
/// point taken back through the layer's transform, and a primitive of the
/// layer gives a view for that point.
pub open spec fn view_under(
    primitives: Seq<Primitive>,
    n: nat,
    view: Option<ViewId>,
    point: Point,
) -> Option<ViewId>
    decreases primitives, n,
{
    if n == 0 || n > primitives.len() {
        None
    } else {
        let below = view_under(primitives, (n - 1) as nat, view, point);
        match primitives[n - 1] {
            Primitive::Rect { rect, .. } => if rect.contains(point) {
                view
            } else {
                below
            },
            Primitive::Fill { curve, fill, .. } => if inside(curve@, point, fill) {
                view
            } else {
                below
            },
            Primitive::Stroke { .. } => below,
            Primitive::Image { point: corner, image } => if Rect::spec_min_size(
                corner,
                image.size(),
            ).contains(point) {
                view
            } else {
                below
            },
            Primitive::Layer { primitives: inner, transform, mask, view: layer_view } => {
                let local = transform.inverse().apply(point);
                if mask is Some && !mask->Some_0.admits(local) {
                    below
                } else {
                    let found = view_under(inner@, inner@.len(), layer_view, local);
                    if found is Some {
                        found
                    } else {
                        below
                    }
                }
            },
        }
    }
}

/// A canvas that can be drawn on.
#[derive(Debug, PartialEq, Eq)]
pub struct Canvas {
    pub primitives: Vec<Primitive>,
}

impl Default for Canvas {
    fn default() -> (c: Canvas)
        ensures
            c.primitives@.len() == 0,
    {
        Canvas::new()
    }
}

/// Finds the view under `point` among the first `n` of the primitives.
pub fn view_at_in(primitives: &Vec<Primitive>, n: usize, view: Option<ViewId>, point: Point) -> (v:
    Option<ViewId>)
    requires
        n <= primitives@.len(),
    ensures
        v == view_under(primitives@, n as nat, view, point),
    decreases primitives, n,
{
    if n == 0 {
        return None;
    }
    match &primitives[n - 1] {
        Primitive::Rect { rect, .. } => {
            if rect.contains(point) {
                return view;
            }
        },
        Primitive::Fill { curve, fill, .. } => {
            if curve.contains(point, *fill) {
                return view;
            }
        },
        Primitive::Stroke { .. } => {},
        Primitive::Image { point: corner, image } => {
            let rect = Rect::min_size(*corner, image.size());
            if rect.contains(point) {
                return view;
            }
        },
        Primitive::Layer { primitives: inner, transform, mask, view: layer_view } => {
            let local = transform.inverse().apply(point);
            let admitted = match mask {
                Some(mask) => mask.curve.contains(local, mask.fill),
                None => true,
            };
            if admitted {
                let found = view_at_in(inner, inner.len(), *layer_view, local);
                if found.is_some() {
                    return found;
                }
            }
        },
    }
    view_at_in(primitives, n - 1, view, point)
}

impl Canvas {
    /// Create a new canvas.
    pub fn new() -> (c: Canvas)
        ensures
            c.primitives@.len() == 0,
    {
        Canvas { primitives: Vec::new() }
    }

    /// Get the primitives of the canvas.
    pub fn primitives(&self) -> (p: &[Primitive])
        ensures
            p@ == self.primitives@,
    {
        self.primitives.as_slice()
    }

    /// Clear the canvas.
    pub fn clear(&mut self)
        ensures
            final(self).primitives@.len() == 0,
    {
        self.primitives.clear();
    }

    /// Draw a rectangle.
    pub fn rect(&mut self, rect: Rect, paint: Paint)
        ensures
            final(self).primitives@ == old(self).primitives@.push(Primitive::Rect { rect, paint }),
    {
        self.primitives.push(Primitive::Rect { rect, paint });
    }

    /// Draw a trigger rectangle.
    pub fn trigger(&mut self, rect: Rect)
        ensures
            final(self).primitives@ == old(self).primitives@.push(Primitive::Rect { rect, paint: Paint::spec_trigger() }),
    {
        self.primitives.push(
            Primitive::Rect {
                rect,
                paint: Paint {
                    shader: Shader::Solid(Color::transparent()),
                    blend: BlendMode::Destination,
                    anti_alias: false,
                },
            },
        );
    }

    /// Fill a curve.
    pub fn fill(&mut self, curve: Curve, fill: FillRule, paint: Paint)
        ensures
            final(self).primitives@ == old(self).primitives@.push(Primitive::Fill { curve, fill, paint }),
    {
        self.primitives.push(Primitive::Fill { curve, fill, paint });
    }

    /// Stroke a curve.
    pub fn stroke(&mut self, curve: Curve, stroke: Stroke, paint: Paint)
        ensures
            final(self).primitives@ == old(self).primitives@.push(Primitive::Stroke { curve, stroke, paint }),
    {
        self.primitives.push(Primitive::Stroke { curve, stroke, paint });
    }

    /// Draw an image.
    pub fn image(&mut self, point: Point, image: Image)
        ensures
            final(self).primitives@ == old(self).primitives@.push(Primitive::Image { point, image }),
    {
        self.primitives.push(Primitive::Image { point, image });
    }

    /// Draw a layer: what was drawn on `layer`, transformed, masked and
    /// owned by a view.
    pub fn layer(
        &mut self,
        transform: Affine,
        mask: Option<Mask>,
        view: Option<ViewId>,
        layer: Canvas,
    )
        ensures
            final(self).primitives@ == old(self).primitives@.push(
                Primitive::Layer { primitives: layer.primitives, transform, mask, view },
            ),
    {
        self.primitives.push(
            Primitive::Layer { primitives: layer.primitives, transform, mask, view },
        );
    }

    /// Draw a layer with a transformation.
    pub fn transform(&mut self, transform: Affine, layer: Canvas)
        ensures
            final(self).primitives@ == old(self).primitives@.push(
                Primitive::Layer {
                    primitives: layer.primitives,
                    transform,
                    mask: None,
                    view: None,
                },
            ),
    {
        self.layer(transform, None, None, layer);
    }

    /// Draw a layer with a mask.
    pub fn mask(&mut self, mask: Mask, layer: Canvas)
        ensures
            final(self).primitives@ == old(self).primitives@.push(
                Primitive::Layer {
                    primitives: layer.primitives,
                    transform: Affine::spec_identity(),
                    mask: Some(mask),
                    view: None,
                },
            ),
    {
        self.layer(Affine::identity(), Some(mask), None, layer);
    }

    /// Draw a layer with a view.
    pub fn view(&mut self, view: ViewId, layer: Canvas)
        ensures
            final(self).primitives@ == old(self).primitives@.push(
                Primitive::Layer {
                    primitives: layer.primitives,
                    transform: Affine::spec_identity(),
                    mask: None,
                    view: Some(view),
                },
            ),
    {
        self.layer(Affine::identity(), None, Some(view), layer);
    }

    /// Get the view at a point.
    pub fn view_at(&self, point: Point) -> (v: Option<ViewId>)
        ensures
            v == view_under(self.primitives@, self.primitives@.len(), None, point),
    {
        view_at_in(&self.primitives, self.primitives.len(), None, point)
    }
}

} // verus!
