//! A window together with what the user interface keeps for it.

use vstd::prelude::*;
use crate::canvas::canvas::{Canvas, view_under};
use crate::window::{Pointer, Window, same_view};

verus! {

/// A window, the scene last drawn for it, and what its view tree is due.
#[derive(Debug, PartialEq, Eq)]
pub struct WindowUi {
    pub window: Window,
    /// What was last drawn for the window.
    pub scene: Canvas,
    pub needs_rebuild: bool,
    pub needs_layout: bool,
    pub needs_draw: bool,
}

/// The pointer with the view that lies under it in the scene.
pub open spec fn hovering(pointer: Pointer, scene: Canvas) -> Pointer {
    Pointer {
        id: pointer.id,
        position: pointer.position,
        hovered: view_under(scene.primitives@, scene.primitives@.len(), None, pointer.position),
    }
}

/// The pointers, each with the view that lies under it in the scene.
pub open spec fn hovered_pointers(pointers: Seq<Pointer>, scene: Canvas) -> Seq<Pointer> {
    Seq::new(pointers.len(), |i: int| hovering(pointers[i], scene))
}

/// Whether one of the first `n` pointers hovers over another view in the
/// scene than the one recorded for it.
pub open spec fn hover_changed(pointers: Seq<Pointer>, scene: Canvas, n: int) -> bool {
    exists|i: int| 0 <= i < n && i < pointers.len() && hovering(#[trigger] pointers[i], scene).hovered != pointers[i].hovered
}

impl WindowUi {
    /// A window with an empty scene, due for layout and drawing.
    pub fn new(window: Window) -> (w: WindowUi)
        ensures
            w.window == window,
            w.scene.primitives@.len() == 0,
            !w.needs_rebuild,
            w.needs_layout,
            w.needs_draw,
    {
        WindowUi {
            window,
            scene: Canvas::new(),
            needs_rebuild: false,
            needs_layout: true,
            needs_draw: true,
        }
    }

    pub fn window(&self) -> (w: &Window)
        ensures
            *w == self.window,
    {
        &self.window
    }

    pub fn scene(&self) -> (s: &Canvas)
        ensures
            *s == self.scene,
    {
        &self.scene
    }

    pub fn needs_draw(&self) -> (b: bool)
        ensures
            b == self.needs_draw,
    {
        self.needs_draw
    }

    /// The window with its view tree due for a rebuild.
    pub open spec fn rebuilt(self) -> WindowUi {
        WindowUi {
            window: self.window,
            scene: self.scene,
            needs_rebuild: true,
            needs_layout: self.needs_layout,
            needs_draw: self.needs_draw,
        }
    }

    /// Whether this is `before` with other pointers over the window.
    pub open spec fn differs_in_pointers(self, before: WindowUi, pointers: Seq<Pointer>) -> bool {
        &&& self.scene == before.scene
        &&& self.needs_rebuild == before.needs_rebuild
        &&& self.needs_layout == before.needs_layout
        &&& self.needs_draw == before.needs_draw
        &&& self.window.id == before.window.id
        &&& self.window.width == before.window.width
        &&& self.window.height == before.window.height
        &&& self.window.pointers@ == pointers
    }

    /// Asks for the view tree to be rebuilt.
    pub fn request_rebuild(&mut self)
        ensures
            *final(self) == old(self).rebuilt(),
    {
        self.needs_rebuild = true;
    }

    /// Asks for the view tree to be laid out, and so drawn, again.
    pub fn request_layout(&mut self)
        ensures
            final(self).window == old(self).window,
            final(self).scene == old(self).scene,
            final(self).needs_rebuild == old(self).needs_rebuild,
            final(self).needs_layout,
            final(self).needs_draw,
    {
        self.needs_layout = true;
        self.needs_draw = true;
    }

    /// Records for every pointer the view under it in the scene, and says
    /// whether that changed for any of them.
    pub fn update_hovered(&mut self) -> (changed: bool)
        ensures
            final(self).differs_in_pointers(
                *old(self),
                hovered_pointers(old(self).window.pointers@, old(self).scene),
            ),
            changed == hover_changed(
                old(self).window.pointers@,
                old(self).scene,
                old(self).window.pointers@.len() as int,
            ),
    {
        let mut changed = false;
        let n = self.window.pointers.len();
        let mut i: usize = 0;
        while i < n
            invariant
                i <= n == old(self).window.pointers@.len(),
                self.window.pointers@.len() == n,
                self.scene == old(self).scene,
                self.needs_rebuild == old(self).needs_rebuild,
                self.needs_layout == old(self).needs_layout,
                self.needs_draw == old(self).needs_draw,
                self.window.id == old(self).window.id,
                self.window.width == old(self).window.width,
                self.window.height == old(self).window.height,
                forall|j: int|
                    0 <= j < i ==> #[trigger] self.window.pointers@[j] == hovering(
                        old(self).window.pointers@[j],
                        old(self).scene,
                    ),
                forall|j: int|
                    i <= j < n ==> #[trigger] self.window.pointers@[j] == old(self).window.pointers@[j],
                changed == hover_changed(old(self).window.pointers@, old(self).scene, i as int),
            decreases n - i,
        {
            let pointer = self.window.pointers[i];
            let hovered = self.scene.view_at(pointer.position);
            if !same_view(pointer.hovered, hovered) {
                changed = true;
            }
            self.window.pointers.set(
                i,
                Pointer { id: pointer.id, position: pointer.position, hovered },
            );
            proof {
                let ps = old(self).window.pointers@;
                let sc = old(self).scene;
                assert(hovering(ps[i as int], sc).hovered == hovered);
                if hover_changed(ps, sc, i + 1) {
                    let k = choose|k: int|
                        0 <= k < i + 1 && k < ps.len() && hovering(#[trigger] ps[k], sc).hovered
                            != ps[k].hovered;
                    if k < i {
                        assert(hover_changed(ps, sc, i as int));
                    }
                }
            }
            i += 1;
        }
        proof {
            assert(self.window.pointers@ =~= hovered_pointers(
                old(self).window.pointers@,
                old(self).scene,
            ));
        }
        changed
    }
}

} // verus!
