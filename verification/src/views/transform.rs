//! A view that transforms its content.

use vstd::prelude::*;
use crate::layout::affine::Affine;
use crate::layout::fixed::Fixed;
use crate::layout::rect::{Rect, Size};
use crate::layout::vector::{Point, Vector};

verus! {

/// A view that transforms its content.
#[derive(Debug)]
pub struct Transform<V> {
    /// The content.
    pub content: V,
    /// The transform.
    pub transform: Affine,
}

/// Create a new [`Transform`] view.
pub fn transform<V>(affine: Affine, content: V) -> (t: Transform<V>)
    ensures
        t.content == content,
        t.transform == affine,
{
    Transform::new(affine, content)
}

/// Create a new [`Transform`] view that translates its content.
pub fn translate<V>(translation: Vector, content: V) -> (t: Transform<V>)
    ensures
        t.content == content,
        t.transform == Affine::spec_translate(translation),
{
    Transform::new(Affine::translate(translation), content)
}

/// Create a new [`Transform`] view that rotates its content by the angle
/// with the given cosine and sine.
pub fn rotate<V>(cos: Fixed, sin: Fixed, content: V) -> (t: Transform<V>)
    ensures
        t.content == content,
        t.transform == Affine::spec_rotation(cos, sin),
{
    Transform::new(Affine::rotation(cos, sin), content)
}

/// Create a new [`Transform`] view that scales its content.
pub fn scale<V>(factor: Vector, content: V) -> (t: Transform<V>)
    ensures
        t.content == content,
        t.transform == Affine::spec_scale(factor),
{
    Transform::new(Affine::scale(factor), content)
}

/// The rectangle of a content of the given size, with a corner at the
/// origin.
pub open spec fn content_rect(content_size: Size) -> Rect {
    Rect::spec_min_size(Point { x: Fixed { bits: 0 }, y: Fixed { bits: 0 } }, content_size)
}

impl<V> Transform<V> {
    /// Create a new [`Transform`] view.
    pub fn new(transform: Affine, content: V) -> (t: Transform<V>)
        ensures
            t.content == content,
            t.transform == transform,
    {
        Transform { content, transform }
    }

    /// The size that the view takes up: that of the smallest rectangle
    /// around its transformed content.
    pub open spec fn spec_layout_size(self, content_size: Size) -> Size {
        content_rect(content_size).transform(self.transform).size()
    }

    /// The transform under which the content is drawn: the view's own,
    /// followed by the move that brings the rectangle around the transformed
    /// content to the origin.
    pub open spec fn spec_layout_transform(self, content_size: Size) -> Affine {
        let rect = content_rect(content_size).transform(self.transform);
        Affine::spec_translate(content_rect(content_size).min.since(rect.min)).compose(
            self.transform,
        )
    }

    /// Lays the view out around a content of the given size: the size of
    /// the view, and the transform under which the content is drawn.
    pub fn layout(&self, content_size: Size) -> (r: (Size, Affine))
        ensures
            r.0 == self.spec_layout_size(content_size),
            r.1 == self.spec_layout_transform(content_size),
    {
        let content_rect = Rect::min_size(Point::zero(), content_size);
        let rect = content_rect.transform(self.transform);
        let transform = Affine::translate(content_rect.min.since(rect.min)).compose(self.transform);
        (rect.size(), transform)
    }
}

} // verus!
