//! What a view is told about itself when an event reaches it.

use vstd::prelude::*;
use crate::layout::affine::Affine;
use crate::layout::vector::Point;

verus! {

/// The identifier of a view in a view tree.
#[derive(Clone, Copy, Debug, PartialEq, Eq, Structural, Hash)]
pub struct ViewId {
    pub id: u64,
}

impl ViewId {
    pub fn new(id: u64) -> (v: ViewId)
        ensures
            v.id == id,
    {
        ViewId { id }
    }
}

/// The state of a view as an event reaches it.
#[derive(Clone, Copy, Debug, PartialEq, Eq)]
pub struct EventCx {
    /// Whether a pointer is over the view.
    pub hot: bool,
    /// Whether the view is being pressed.
    pub active: bool,
    /// The map from the view's own coordinates to those of the window.
    pub transform: Affine,
    /// Whether the view tree is due for a rebuild.
    pub needs_rebuild: bool,
}

impl EventCx {
    /// A point of the window in the view's own coordinates.
    pub open spec fn spec_local(&self, point: Point) -> Point {
        self.transform.inverse().apply(point)
    }

    #[verifier::when_used_as_spec(spec_local)]
    pub fn local(&self, point: Point) -> (p: Point)
        ensures
            p == self.spec_local(point),
    {
        self.transform.inverse().apply(point)
    }

    pub fn is_hot(&self) -> (b: bool)
        ensures
            b == self.hot,
    {
        self.hot
    }

    pub fn is_active(&self) -> (b: bool)
        ensures
            b == self.active,
    {
        self.active
    }

    pub fn set_active(&mut self, active: bool)
        ensures
            *final(self) == (EventCx { active, ..*old(self) }),
    {
        self.active = active;
    }

    pub fn request_rebuild(&mut self)
        ensures
            *final(self) == (EventCx { needs_rebuild: true, ..*old(self) }),
    {
        self.needs_rebuild = true;
    }
}

} // verus!
