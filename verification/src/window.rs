//! Windows and the pointers over them.

use vstd::prelude::*;
use crate::event::PointerId;
use crate::layout::vector::Point;
use crate::view::ViewId;

verus! {

/// The identifier of a window.
#[derive(Clone, Copy, Debug, PartialEq, Eq, Structural, Hash)]
pub struct WindowId {
    pub id: u64,
}

/// A pointer over a window.
#[derive(Clone, Copy, Debug, PartialEq, Eq)]
pub struct Pointer {
    pub id: PointerId,
    pub position: Point,
    /// The view under the pointer.
    pub hovered: Option<ViewId>,
}

/// A window, as far as the user interface looks into it.
#[derive(Clone, Debug, PartialEq, Eq)]
pub struct Window {
    pub id: WindowId,
    pub width: u32,
    pub height: u32,
    pub pointers: Vec<Pointer>,
}

/// The place of the first pointer with the identifier `id` at or after
/// `from`.
pub open spec fn pointer_place(pointers: Seq<Pointer>, id: PointerId, from: int) -> Option<int>
    decreases pointers.len() - from,
{
    if from < 0 || from >= pointers.len() {
        None
    } else if pointers[from].id == id {
        Some(from)
    } else {
        pointer_place(pointers, id, from + 1)
    }
}

/// The pointers after the pointer `id` was seen at `position`: it keeps its
/// place and the view under it, or comes last, over no view, where it was
/// not known.
pub open spec fn moved_pointers(pointers: Seq<Pointer>, id: PointerId, position: Point) -> Seq<
    Pointer,
> {
    match pointer_place(pointers, id, 0) {
        Some(i) => pointers.update(i, Pointer { id, position, hovered: pointers[i].hovered }),
        None => pointers.push(Pointer { id, position, hovered: None }),
    }
}

/// The pointers without the pointer `id`.
pub open spec fn left_pointers(pointers: Seq<Pointer>, id: PointerId) -> Seq<Pointer> {
    match pointer_place(pointers, id, 0) {
        Some(i) => pointers.remove(i),
        None => pointers,
    }
}

/// Whether two views, or their absence, are the same.
pub fn same_view(a: Option<ViewId>, b: Option<ViewId>) -> (s: bool)
    ensures
        s == (a == b),
{
    match (a, b) {
        (Some(x), Some(y)) => x.id == y.id,
        (None, None) => true,
        _ => false,
    }
}

impl Window {
    /// A window without pointers.
    pub fn new(id: WindowId, width: u32, height: u32) -> (w: Window)
        ensures
            w.id == id,
            w.width == width,
            w.height == height,
            w.pointers@.len() == 0,
    {
        Window { id, width, height, pointers: Vec::new() }
    }

    pub fn id(&self) -> (id: WindowId)
        ensures
            id == self.id,
    {
        self.id
    }

    pub fn width(&self) -> (w: u32)
        ensures
            w == self.width,
    {
        self.width
    }

    pub fn height(&self) -> (h: u32)
        ensures
            h == self.height,
    {
        self.height
    }

    pub fn pointers(&self) -> (p: &[Pointer])
        ensures
            p@ == self.pointers@,
    {
        self.pointers.as_slice()
    }

    /// The place of the pointer with the identifier `id`.
    pub fn pointer_index(&self, id: PointerId) -> (i: Option<usize>)
        ensures
            match i {
                Some(i) => pointer_place(self.pointers@, id, 0) == Some(i as int) && i
                    < self.pointers@.len() && self.pointers@[i as int].id == id,
                None => pointer_place(self.pointers@, id, 0) is None,
            },
    {
        let n = self.pointers.len();
        let mut i: usize = 0;
        while i < n
            invariant
                i <= n == self.pointers@.len(),
                pointer_place(self.pointers@, id, 0) == pointer_place(self.pointers@, id, i as int),
            decreases n - i,
        {
            if self.pointers[i].id.id == id.id {
                return Some(i);
            }
            i += 1;
        }
        None
    }

    /// The pointer with the identifier `id`.
    pub fn pointer(&self, id: PointerId) -> (p: Option<Pointer>)
        ensures
            p == match pointer_place(self.pointers@, id, 0) {
                Some(i) => Some(self.pointers@[i]),
                None => None,
            },
    {
        match self.pointer_index(id) {
            Some(i) => Some(self.pointers[i]),
            None => None,
        }
    }

    /// Records where a pointer is; a pointer not seen before comes last and
    /// hovers over nothing.
    pub fn pointer_moved(&mut self, id: PointerId, position: Point)
        ensures
            final(self).id == old(self).id,
            final(self).width == old(self).width,
            final(self).height == old(self).height,
            final(self).pointers@ == moved_pointers(old(self).pointers@, id, position),
    {
        match self.pointer_index(id) {
            Some(i) => {
                let hovered = self.pointers[i].hovered;
                self.pointers.set(i, Pointer { id, position, hovered });
            },
            None => {
                self.pointers.push(Pointer { id, position, hovered: None });
            },
        }
    }

    /// Forgets a pointer.
    pub fn pointer_left(&mut self, id: PointerId)
        ensures
            final(self).id == old(self).id,
            final(self).width == old(self).width,
            final(self).height == old(self).height,
            final(self).pointers@ == left_pointers(old(self).pointers@, id),
    {
        match self.pointer_index(id) {
            Some(i) => {
                self.pointers.remove(i);
            },
            None => {},
        }
    }

    /// Records the view under a pointer, and says whether it changed. A
    /// pointer that the window does not know changes nothing.
    pub fn pointer_hovered(&mut self, id: PointerId, hovered: Option<ViewId>) -> (changed: bool)
        ensures
            final(self).id == old(self).id,
            final(self).width == old(self).width,
            final(self).height == old(self).height,
            match pointer_place(old(self).pointers@, id, 0) {
                Some(i) => final(self).pointers@ == old(self).pointers@.update(
                    i,
                    Pointer { id, position: old(self).pointers@[i].position, hovered },
                ) && changed == (old(self).pointers@[i].hovered != hovered),
                None => final(self).pointers@ == old(self).pointers@ && !changed,
            },
    {
        match self.pointer_index(id) {
            Some(i) => {
                let before = self.pointers[i];
                self.pointers.set(i, Pointer { id, position: before.position, hovered });
                !same_view(before.hovered, hovered)
            },
            None => false,
        }
    }
}

} // verus!
