//! User interface state.

use vstd::prelude::*;
use crate::event::{Code, Command, Event, EventKind, Modifiers, PointerButton, PointerId};
use crate::layout::fixed::Fixed;
use crate::layout::vector::{Point, Vector};
use crate::ui::request::{Reply, Step, UiRequest};
use crate::canvas::canvas::Canvas;
use crate::ui::window::{WindowUi, hover_changed, hovered_pointers};
use crate::window::{Window, WindowId, left_pointers, moved_pointers, pointer_place};

verus! {

/// State for running a user interface.
///
/// `D` is whatever the driver keeps for a delegate.
#[derive(Debug)]
pub struct Ui<D> {
    /// The windows, in the order in which they were added.
    pub windows: Vec<WindowUi>,
    pub modifiers: Modifiers,
    pub delegates: Vec<D>,
    /// The commands that were sent and not yet delivered, oldest first.
    pub commands: Vec<Command>,
    /// What the platform is asked to do, oldest first.
    pub requests: Vec<UiRequest>,
    pub quit_requested: bool,
}

/// The place of the first window with the identifier `id` at or after
/// `from`.
pub open spec fn window_place(windows: Seq<WindowUi>, id: WindowId, from: int) -> Option<int>
    decreases windows.len() - from,
{
    if from < 0 || from >= windows.len() {
        None
    } else if windows[from].window.id == id {
        Some(from)
    } else {
        window_place(windows, id, from + 1)
    }
}

/// The identifiers of the windows, in order.
pub open spec fn window_ids_of(windows: Seq<WindowUi>) -> Seq<WindowId> {
    Seq::new(windows.len(), |i: int| windows[i].window.id)
}

/// Whether no two of the windows have the same identifier.
pub open spec fn distinct_ids(windows: Seq<WindowUi>) -> bool {
    forall|i: int, j: int|
        #![trigger windows[i], windows[j]]
        0 <= i < j < windows.len() ==> windows[i].window.id != windows[j].window.id
}

/// The place of a window is the first at which its identifier stands; a
/// window has no place where no window has its identifier.
pub proof fn lemma_window_place(windows: Seq<WindowUi>, id: WindowId, from: int)
    requires
        0 <= from <= windows.len(),
    ensures
        match window_place(windows, id, from) {
            Some(i) => from <= i < windows.len() && windows[i].window.id == id && forall|j: int|
                from <= j < i ==> (#[trigger] windows[j]).window.id != id,
            None => forall|j: int|
                from <= j < windows.len() ==> (#[trigger] windows[j]).window.id != id,
        },
    decreases windows.len() - from,
{
    if from < windows.len() && windows[from].window.id != id {
        lemma_window_place(windows, id, from + 1);
    }
}

/// Among windows with distinct identifiers, the window with a given
/// identifier stands at its place and nowhere else.
pub proof fn lemma_window_once(windows: Seq<WindowUi>, id: WindowId, j: int)
    requires
        distinct_ids(windows),
        0 <= j < windows.len(),
        windows[j].window.id == id,
    ensures
        window_place(windows, id, 0) == Some(j),
{
    lemma_window_place(windows, id, 0);
    let i = window_place(windows, id, 0)->Some_0;
    assert(window_place(windows, id, 0) is Some) by {
        if window_place(windows, id, 0) is None {
            assert(windows[j].window.id != id);
        }
    }
    if i < j {
        assert(windows[i].window.id != windows[j].window.id);
    } else if j < i {
        assert(windows[j].window.id != id);
    }
}

/// Windows that have, place by place, the identifiers of windows with
/// distinct identifiers have distinct identifiers themselves.
pub proof fn lemma_same_ids_distinct(before: Seq<WindowUi>, after: Seq<WindowUi>)
    requires
        distinct_ids(before),
        after.len() == before.len(),
        forall|k: int| 0 <= k < before.len() ==> (#[trigger] after[k]).window.id == before[k].window.id,
    ensures
        distinct_ids(after),
{
    assert forall|i: int, j: int|
        #![trigger after[i], after[j]]
        0 <= i < j < after.len() implies after[i].window.id != after[j].window.id by {
        assert(before[i].window.id != before[j].window.id);
    }
}

/// Where the window at `i` is replaced by, or a window is added at `i`
/// with, the identifier `changed`, which before stood at `i` or nowhere,
/// that identifier has the place `i`, and every other has the place it
/// had.
pub proof fn lemma_place_after_change(
    before: Seq<WindowUi>,
    after: Seq<WindowUi>,
    changed: WindowId,
    i: int,
    id: WindowId,
)
    requires
        0 <= i <= before.len(),
        i < after.len(),
        after.len() == if i < before.len() {
            before.len()
        } else {
            before.len() + 1
        },
        after[i].window.id == changed,
        forall|k: int| 0 <= k < before.len() && k != i ==> #[trigger] after[k] == before[k],
        window_place(before, changed, 0) == if i < before.len() {
            Some(i)
        } else {
            None::<int>
        },
    ensures
        id == changed ==> window_place(after, id, 0) == Some(i),
        id != changed ==> window_place(after, id, 0) == window_place(before, id, 0),
{
    lemma_window_place(before, changed, 0);
    lemma_window_place(before, id, 0);
    lemma_window_place(after, id, 0);
    if id == changed {
        match window_place(after, id, 0) {
            Some(j) => {
                if j < i {
                    assert(after[j] == before[j]);
                    assert(before[j].window.id != id);
                } else if i < j {
                    assert(after[i].window.id != id);
                }
            },
            None => {
                assert(after[i].window.id != id);
            },
        }
    } else {
        if i < before.len() {
            assert(before[i].window.id == changed);
        }
        match (window_place(after, id, 0), window_place(before, id, 0)) {
            (Some(a), Some(b)) => {
                assert(a != i);
                assert(b != i);
                assert(after[a] == before[a]);
                assert(after[b] == before[b]);
                if a < b {
                    assert(before[a].window.id != id);
                } else if b < a {
                    assert(after[b].window.id != id);
                }
            },
            (Some(a), None) => {
                assert(a != i);
                assert(after[a] == before[a]);
                assert(before[a].window.id != id);
            },
            (None, Some(b)) => {
                assert(b != i);
                assert(after[b] == before[b]);
                assert(after[b].window.id != id);
            },
            (None, None) => {},
        }
    }
}

/// The windows without the window that has the identifier `id`.
pub open spec fn without_window(windows: Seq<WindowUi>, id: WindowId) -> Seq<WindowUi> {
    match window_place(windows, id, 0) {
        Some(i) => windows.remove(i),
        None => windows,
    }
}

/// Taking the window with an identifier away from windows with distinct
/// identifiers leaves windows with distinct identifiers, none of which has
/// that identifier, and every other window where it was among them.
pub proof fn lemma_remove_keeps_order(windows: Seq<WindowUi>, id: WindowId)
    requires
        distinct_ids(windows),
    ensures
        distinct_ids(without_window(windows, id)),
        window_place(without_window(windows, id), id, 0) is None,
        forall|other: WindowId|
            other != id ==> (#[trigger] window_place(without_window(windows, id), other, 0) is Some
                <==> window_place(windows, other, 0) is Some),
{
    let after = without_window(windows, id);
    lemma_window_place(windows, id, 0);
    lemma_window_place(after, id, 0);
    match window_place(windows, id, 0) {
        Some(i) => {
            assert forall|a: int, b: int|
                #![trigger after[a], after[b]]
                0 <= a < b < after.len() implies after[a].window.id != after[b].window.id by {
                let x = if a < i { a } else { a + 1 };
                let y = if b < i { b } else { b + 1 };
                assert(after[a] == windows[x] && after[b] == windows[y]);
                assert(windows[x].window.id != windows[y].window.id);
            }
            if window_place(after, id, 0) is Some {
                let j = window_place(after, id, 0)->Some_0;
                let x = if j < i { j } else { j + 1 };
                assert(after[j] == windows[x]);
                if x < i {
                    assert(windows[x].window.id != windows[i].window.id);
                } else {
                    assert(windows[i].window.id != windows[x].window.id);
                }
            }
            assert forall|other: WindowId| other != id implies (#[trigger] window_place(
                after,
                other,
                0,
            ) is Some <==> window_place(windows, other, 0) is Some) by {
                lemma_window_place(windows, other, 0);
                lemma_window_place(after, other, 0);
                if window_place(after, other, 0) is Some {
                    let j = window_place(after, other, 0)->Some_0;
                    let x = if j < i { j } else { j + 1 };
                    assert(after[j] == windows[x]);
                    if window_place(windows, other, 0) is None {
                        assert(windows[x].window.id != other);
                    }
                }
                if window_place(windows, other, 0) is Some {
                    let x = window_place(windows, other, 0)->Some_0;
                    assert(x != i);
                    let j = if x < i { x } else { x - 1 };
                    assert(after[j] == windows[x]);
                    if window_place(after, other, 0) is None {
                        assert(after[j].window.id != other);
                    }
                }
            }
        },
        None => {},
    }
}

/// The list of the identifiers holds an identifier exactly where a window
/// has a place under it, and holds none twice where the windows have
/// distinct identifiers.
pub proof fn lemma_window_ids(windows: Seq<WindowUi>)
    ensures
        forall|id: WindowId|
            #[trigger] window_ids_of(windows).contains(id) <==> window_place(windows, id, 0) is Some,
        distinct_ids(windows) ==> window_ids_of(windows).no_duplicates(),
{
    let ids = window_ids_of(windows);
    assert forall|id: WindowId| #[trigger] ids.contains(id) <==> window_place(
        windows,
        id,
        0,
    ) is Some by {
        lemma_window_place(windows, id, 0);
        if ids.contains(id) {
            let k = choose|k: int| 0 <= k < ids.len() && ids[k] == id;
            assert(windows[k].window.id == id);
        }
        if window_place(windows, id, 0) is Some {
            let i = window_place(windows, id, 0)->Some_0;
            assert(ids[i] == id);
        }
    }
    if distinct_ids(windows) {
        assert forall|i: int, j: int| 0 <= i < ids.len() && 0 <= j < ids.len() && i != j implies ids[i]
            != ids[j] by {
            if i < j {
                assert(windows[i].window.id != windows[j].window.id);
            } else {
                assert(windows[j].window.id != windows[i].window.id);
            }
        }
    }
}

/// The windows with every view tree due for a rebuild.
pub open spec fn all_rebuilt(windows: Seq<WindowUi>) -> Seq<WindowUi> {
    Seq::new(windows.len(), |i: int| windows[i].rebuilt())
}

/// The position of a pointer over a window; the origin for a pointer or a
/// window that is not known.
pub open spec fn pointer_position_of(windows: Seq<WindowUi>, window_id: WindowId, id: PointerId) -> Point {
    match window_place(windows, window_id, 0) {
        Some(w) => match pointer_place(windows[w].window.pointers@, id, 0) {
            Some(i) => windows[w].window.pointers@[i].position,
            None => Point { x: Fixed { bits: 0 }, y: Fixed { bits: 0 } },
        },
        None => Point { x: Fixed { bits: 0 }, y: Fixed { bits: 0 } },
    }
}

impl<D> Ui<D> {
    /// Whether the state is in order: no two windows have the same
    /// identifier. A new state is, and every function keeps it so.
    pub open spec fn well_formed(self) -> bool {
        distinct_ids(self.windows@)
    }

    /// Whether everything but the windows is as it was in `before`.
    pub open spec fn same_but_windows(self, before: Ui<D>) -> bool {
        &&& self.modifiers == before.modifiers
        &&& self.delegates == before.delegates
        &&& self.commands == before.commands
        &&& self.requests == before.requests
        &&& self.quit_requested == before.quit_requested
    }

    /// Whether the state is `before` after the answer `reply` was taken in:
    /// its requests and commands queued behind those that wait, and every
    /// view tree due for a rebuild where the answer asks for one.
    pub open spec fn settled(self, before: Ui<D>, reply: Reply) -> bool {
        &&& self.modifiers == before.modifiers
        &&& self.delegates == before.delegates
        &&& self.quit_requested == before.quit_requested
        &&& self.requests@ == before.requests@ + reply.requests@
        &&& self.commands@ == before.commands@ + reply.commands@
        &&& self.windows@ == if reply.needs_rebuild {
            all_rebuilt(before.windows@)
        } else {
            before.windows@
        }
    }

    /// Create a new [`Ui`].
    pub fn new() -> (ui: Ui<D>)
        ensures
            ui.windows@.len() == 0,
            ui.delegates@.len() == 0,
            ui.commands@.len() == 0,
            ui.requests@.len() == 0,
            ui.modifiers == Modifiers::spec_none(),
            !ui.quit_requested,
            ui.well_formed(),
    {
        Ui {
            windows: Vec::new(),
            modifiers: Modifiers::default(),
            delegates: Vec::new(),
            commands: Vec::new(),
            requests: Vec::new(),
            quit_requested: false,
        }
    }

    /// Push a delegate.
    pub fn push_delegate(&mut self, delegate: D)
        ensures
            final(self).delegates@ == old(self).delegates@.push(delegate),
            final(self).windows == old(self).windows,
            final(self).modifiers == old(self).modifiers,
            final(self).commands == old(self).commands,
            final(self).requests == old(self).requests,
            final(self).quit_requested == old(self).quit_requested,
    {
        self.delegates.push(delegate);
    }

    /// Get the delegates.
    pub fn delegates(&self) -> (d: &[D])
        ensures
            d@ == self.delegates@,
    {
        self.delegates.as_slice()
    }

    /// The place of the window with the identifier `window_id`.
    pub fn window_index(&self, window_id: WindowId) -> (i: Option<usize>)
        ensures
            match i {
                Some(i) => window_place(self.windows@, window_id, 0) == Some(i as int) && i
                    < self.windows@.len() && self.windows@[i as int].window.id == window_id,
                None => window_place(self.windows@, window_id, 0) is None,
            },
    {
        let n = self.windows.len();
        let mut i: usize = 0;
        while i < n
            invariant
                i <= n == self.windows@.len(),
                window_place(self.windows@, window_id, 0) == window_place(
                    self.windows@,
                    window_id,
                    i as int,
                ),
            decreases n - i,
        {
            if self.windows[i].window.id.id == window_id.id {
                return Some(i);
            }
            i += 1;
        }
        None
    }

    /// Add a new window. It takes the place of a window with the same
    /// identifier, and comes last where there is none.
    pub fn add_window(&mut self, window: Window)
        ensures
            final(self).same_but_windows(*old(self)),
            match window_place(old(self).windows@, window.id, 0) {
                Some(i) => final(self).windows@.len() == old(self).windows@.len() && forall|j: int|
                    0 <= j < old(self).windows@.len() && j != i ==> final(self).windows@[j] == old(self).windows@[j],
                None => final(self).windows@.len() == old(self).windows@.len() + 1
                    && final(self).windows@.take(old(self).windows@.len() as int) == old(self).windows@,
            },
            ({
                let i = match window_place(old(self).windows@, window.id, 0) {
                    Some(i) => i,
                    None => old(self).windows@.len() as int,
                };
                let added = final(self).windows@[i];
                &&& added.window == window
                &&& added.scene.primitives@.len() == 0
                &&& !added.needs_rebuild
                &&& added.needs_layout
                &&& added.needs_draw
                &&& window_place(final(self).windows@, window.id, 0) == Some(i)
            }),
            forall|id: WindowId|
                id != window.id ==> #[trigger] window_place(final(self).windows@, id, 0)
                    == window_place(old(self).windows@, id, 0),
            old(self).well_formed() ==> final(self).well_formed(),
            old(self).well_formed() ==> forall|j: int|
                0 <= j < final(self).windows@.len() && (#[trigger] final(self).windows@[j]).window.id == window.id ==> Some(j) == window_place(
                    final(self).windows@,
                    window.id,
                    0,
                ),
    {
        let window_id = window.id;
        let window_ui = WindowUi::new(window);
        proof {
            lemma_window_place(old(self).windows@, window_id, 0);
        }
        match self.window_index(window_id) {
            Some(i) => {
                self.windows.set(i, window_ui);
            },
            None => {
                self.windows.push(window_ui);
                proof {
                    assert(self.windows@.take(old(self).windows@.len() as int) =~= old(self).windows@);
                }
            },
        }
        proof {
            let before = old(self).windows@;
            let after = self.windows@;
            let i = match window_place(before, window_id, 0) {
                Some(i) => i,
                None => before.len() as int,
            };
            assert(after[i].window.id == window_id);
            assert forall|k: int| 0 <= k < before.len() && k != i implies after[k] == before[k] by {
                if window_place(before, window_id, 0) is None {
                    assert(after.take(before.len() as int)[k] == after[k]);
                }
            }
            lemma_place_after_change(before, after, window_id, i, window_id);
            assert forall|id: WindowId| id != window_id implies #[trigger] window_place(
                after,
                id,
                0,
            ) == window_place(before, id, 0) by {
                lemma_place_after_change(before, after, window_id, i, id);
            }
            if distinct_ids(before) {
                assert forall|a: int, b: int|
                    #![trigger after[a], after[b]]
                    0 <= a < b < after.len() implies after[a].window.id != after[b].window.id by {
                    if a != i && b != i {
                        assert(before[a].window.id != before[b].window.id);
                    } else if a == i {
                        if window_place(before, window_id, 0) is Some {
                            assert(before[i].window.id != before[b].window.id);
                        }
                    } else {
                        if window_place(before, window_id, 0) is Some {
                            assert(before[a].window.id != before[i].window.id);
                        }
                    }
                }
                assert forall|j: int|
                    0 <= j < after.len() && (#[trigger] after[j]).window.id == window_id implies Some(
                    j,
                ) == window_place(after, window_id, 0) by {
                    lemma_window_once(after, window_id, j);
                }
            }
        }
    }

    /// Remove a window.
    pub fn remove_window(&mut self, window_id: WindowId)
        ensures
            final(self).same_but_windows(*old(self)),
            final(self).windows@ == match window_place(old(self).windows@, window_id, 0) {
                Some(i) => old(self).windows@.remove(i),
                None => old(self).windows@,
            },
            old(self).well_formed() ==> final(self).well_formed(),
            old(self).well_formed() ==> window_place(final(self).windows@, window_id, 0) is None,
            old(self).well_formed() ==> forall|id: WindowId|
                id != window_id ==> (#[trigger] window_place(final(self).windows@, id, 0) is Some
                    <==> window_place(old(self).windows@, id, 0) is Some),
    {
        match self.window_index(window_id) {
            Some(i) => {
                self.windows.remove(i);
            },
            None => {},
        }
        proof {
            if distinct_ids(old(self).windows@) {
                lemma_remove_keeps_order(old(self).windows@, window_id);
            }
        }
    }

    /// Get a reference to a window, which must be there.
    pub fn window(&self, window_id: WindowId) -> (w: &WindowUi)
        requires
            window_place(self.windows@, window_id, 0) is Some,
        ensures
            *w == self.windows@[window_place(self.windows@, window_id, 0)->Some_0],
    {
        match self.window_index(window_id) {
            Some(i) => &self.windows[i],
            None => &self.windows[0],
        }
    }

    /// Get a mutable reference to a window, which must be there.
    pub fn window_mut(&mut self, window_id: WindowId) -> (w: &mut WindowUi)
        requires
            window_place(old(self).windows@, window_id, 0) is Some,
        ensures
            ({
                let i = window_place(old(self).windows@, window_id, 0)->Some_0;
                &&& *w == old(self).windows@[i]
                &&& final(self).windows@ == old(self).windows@.update(i, *final(w))
                &&& final(self).same_but_windows(*old(self))
                &&& old(self).well_formed() && final(w).window.id == window_id ==> final(self).well_formed()
            }),
    {
        let i = match self.window_index(window_id) {
            Some(i) => i,
            None => 0,
        };
        &mut self.windows[i]
    }

    /// Get the windows, in the order in which they were added.
    pub fn windows(&self) -> (w: &[WindowUi])
        ensures
            w@ == self.windows@,
    {
        self.windows.as_slice()
    }

    /// Get the Ids of all windows.
    pub fn window_ids(&self) -> (ids: Vec<WindowId>)
        ensures
            ids@ == window_ids_of(self.windows@),
            forall|id: WindowId|
                #[trigger] ids@.contains(id) <==> window_place(self.windows@, id, 0) is Some,
            self.well_formed() ==> ids@.no_duplicates(),
    {
        let mut ids: Vec<WindowId> = Vec::new();
        let n = self.windows.len();
        let mut i: usize = 0;
        while i < n
            invariant
                i <= n == self.windows@.len(),
                ids@ == window_ids_of(self.windows@.take(i as int)),
            decreases n - i,
        {
            ids.push(self.windows[i].window.id);
            proof {
                assert(ids@ =~= window_ids_of(self.windows@.take(i + 1)));
            }
            i += 1;
        }
        proof {
            assert(self.windows@.take(n as int) =~= self.windows@);
            lemma_window_ids(self.windows@);
        }
        ids
    }

    /// Get whether the UI should quit: no window is left, or a command to
    /// quit went unhandled.
    pub fn should_quit(&self) -> (b: bool)
        ensures
            b == (self.windows@.len() == 0 || self.quit_requested),
    {
        self.windows.len() == 0 || self.quit_requested
    }

    /// Take the current requests.
    ///
    /// This should be done often and each request should be handled appropriately.
    pub fn take_requests(&mut self) -> (r: Vec<UiRequest>)
        ensures
            r@ == old(self).requests@,
            final(self).requests@.len() == 0,
            final(self).windows == old(self).windows,
            final(self).modifiers == old(self).modifiers,
            final(self).delegates == old(self).delegates,
            final(self).commands == old(self).commands,
            final(self).quit_requested == old(self).quit_requested,
    {
        let mut taken: Vec<UiRequest> = Vec::new();
        taken.append(&mut self.requests);
        taken
    }

    /// Request a rebuild of the view tree.
    pub fn request_rebuild(&mut self)
        ensures
            final(self).same_but_windows(*old(self)),
            final(self).windows@ == all_rebuilt(old(self).windows@),
            old(self).well_formed() ==> final(self).well_formed(),
    {
        let n = self.windows.len();
        let mut i: usize = 0;
        while i < n
            invariant
                i <= n == old(self).windows@.len(),
                self.windows@.len() == n,
                self.same_but_windows(*old(self)),
                forall|j: int| 0 <= j < i ==> #[trigger] self.windows@[j] == old(self).windows@[j].rebuilt(),
                forall|j: int| i <= j < n ==> #[trigger] self.windows@[j] == old(self).windows@[j],
            decreases n - i,
        {
            self.windows[i].request_rebuild();
            i += 1;
        }
        proof {
            assert(self.windows@ =~= all_rebuilt(old(self).windows@));
        }
    }

    /// Takes in what the delegates or the views of a window answered.
    pub fn settle(&mut self, reply: Reply)
        ensures
            final(self).settled(*old(self), reply),
            old(self).well_formed() ==> final(self).well_formed(),
    {
        let mut reply = reply;
        self.requests.append(&mut reply.requests);
        self.commands.append(&mut reply.commands);
        if reply.needs_rebuild {
            self.request_rebuild();
        }
    }

    /// Initialize the UI: takes in what the delegates answered when they
    /// were initialized.
    ///
    /// This should be called after all initial windows have been added.
    pub fn init(&mut self, reply: Reply)
        ensures
            final(self).settled(*old(self), reply),
            old(self).well_formed() ==> final(self).well_formed(),
    {
        self.init_delegate(reply);
    }

    /// Takes in what the delegates answered when they were initialized.
    pub fn init_delegate(&mut self, reply: Reply)
        ensures
            final(self).settled(*old(self), reply),
            old(self).well_formed() ==> final(self).well_formed(),
    {
        self.settle(reply);
    }

    /// Tell the UI that the event loop is idle: takes in what the delegates
    /// answered when they were told so.
    pub fn idle(&mut self, reply: Reply)
        ensures
            final(self).settled(*old(self), reply),
            old(self).well_formed() ==> final(self).well_formed(),
    {
        self.settle(reply);
    }

    /// Tell the UI that the modifiers have changed.
    pub fn modifiers_changed(&mut self, modifiers: Modifiers)
        ensures
            final(self).modifiers == modifiers,
            final(self).windows == old(self).windows,
            final(self).delegates == old(self).delegates,
            final(self).commands == old(self).commands,
            final(self).requests == old(self).requests,
            final(self).quit_requested == old(self).quit_requested,
    {
        self.modifiers = modifiers;
    }

    /// The position of a pointer over a window.
    pub fn pointer_position(&self, window_id: WindowId, id: PointerId) -> (p: Point)
        ensures
            p == pointer_position_of(self.windows@, window_id, id),
    {
        match self.window_index(window_id) {
            Some(w) => match self.windows[w].window.pointer(id) {
                Some(pointer) => pointer.position,
                None => Point::zero(),
            },
            None => Point::zero(),
        }
    }

    /// Whether this is `before` with another state for the window at `i`.
    pub open spec fn differs_in_window(self, before: Ui<D>, i: int) -> bool {
        &&& self.same_but_windows(before)
        &&& self.windows@.len() == before.windows@.len()
        &&& forall|j: int|
            0 <= j < before.windows@.len() && j != i ==> self.windows@[j] == before.windows@[j]
    }

    /// Tell the UI that a window has been resized. The window is due for
    /// layout, and the event that says so goes to every window; nothing
    /// happens for a window that is not there.
    pub fn window_resized(&mut self, window_id: WindowId) -> (e: Option<Event>)
        ensures
            match window_place(old(self).windows@, window_id, 0) {
                Some(i) => {
                    let before = old(self).windows@[i];
                    let after = final(self).windows@[i];
                    &&& final(self).differs_in_window(*old(self), i)
                    &&& after.window == before.window
                    &&& after.scene == before.scene
                    &&& after.needs_rebuild == before.needs_rebuild
                    &&& after.needs_layout
                    &&& after.needs_draw
                    &&& e == Some(
                        Event {
                            kind: EventKind::WindowResized {
                                window: window_id,
                                width: before.window.width,
                                height: before.window.height,
                            },
                            handled: false,
                        },
                    )
                },
                None => *final(self) == *old(self) && e is None,
            },
            old(self).well_formed() ==> final(self).well_formed(),
    {
        match self.window_index(window_id) {
            Some(i) => {
                self.windows[i].request_layout();
                let width = self.windows[i].window.width;
                let height = self.windows[i].window.height;
                Some(Event::new(EventKind::WindowResized { window: window_id, width, height }))
            },
            None => None,
        }
    }

    /// Tell the UI that the request of a window to close went through the
    /// delegates and the views as `event`: where it came back unhandled, the
    /// platform is asked to remove the window.
    pub fn close_requested(&mut self, window_id: WindowId, event: &Event)
        ensures
            final(self).windows == old(self).windows,
            final(self).modifiers == old(self).modifiers,
            final(self).delegates == old(self).delegates,
            final(self).commands == old(self).commands,
            final(self).quit_requested == old(self).quit_requested,
            final(self).requests@ == if event.handled {
                old(self).requests@
            } else {
                old(self).requests@.push(UiRequest::RemoveWindow(window_id))
            },
    {
        if !event.is_handled() {
            self.requests.push(UiRequest::RemoveWindow(window_id));
        }
    }

    /// Records for every pointer over a window the view under it, and says
    /// whether that changed for any of them.
    pub fn update_hovered(&mut self, window_id: WindowId) -> (changed: bool)
        ensures
            match window_place(old(self).windows@, window_id, 0) {
                Some(i) => {
                    let before = old(self).windows@[i];
                    &&& final(self).differs_in_window(*old(self), i)
                    &&& final(self).windows@[i].differs_in_pointers(
                        before,
                        hovered_pointers(before.window.pointers@, before.scene),
                    )
                    &&& changed == hover_changed(
                        before.window.pointers@,
                        before.scene,
                        before.window.pointers@.len() as int,
                    )
                },
                None => *final(self) == *old(self) && !changed,
            },
            old(self).well_formed() ==> final(self).well_formed(),
    {
        match self.window_index(window_id) {
            Some(i) => self.windows[i].update_hovered(),
            None => false,
        }
    }

    /// Tell the UI that a pointer has moved over a window, which must be
    /// there. The window records the pointer and the views under its
    /// pointers; the event tells the position, and how far the pointer came
    /// from where it was, or from the origin.
    pub fn pointer_moved(&mut self, window_id: WindowId, pointer: PointerId, position: Point) -> (e:
        Event)
        requires
            window_place(old(self).windows@, window_id, 0) is Some,
        ensures
            ({
                let i = window_place(old(self).windows@, window_id, 0)->Some_0;
                let before = old(self).windows@[i];
                &&& final(self).differs_in_window(*old(self), i)
                &&& final(self).windows@[i].differs_in_pointers(
                    before,
                    hovered_pointers(
                        moved_pointers(before.window.pointers@, pointer, position),
                        before.scene,
                    ),
                )
            }),
            e.kind == (EventKind::PointerMoved {
                id: pointer,
                position,
                delta: position.since(pointer_position_of(old(self).windows@, window_id, pointer)),
                modifiers: old(self).modifiers,
            }),
            !e.handled,
            old(self).well_formed() ==> final(self).well_formed(),
    {
        let prev = self.pointer_position(window_id, pointer);
        let delta = position.since(prev);
        match self.window_index(window_id) {
            Some(i) => {
                self.windows[i].window.pointer_moved(pointer, position);
                self.windows[i].update_hovered();
            },
            None => {},
        }
        Event::new(EventKind::PointerMoved { id: pointer, position, delta, modifiers: self.modifiers })
    }

    /// Tell the UI that a pointer has left a window, which must be there.
    pub fn pointer_left(&mut self, window_id: WindowId, pointer: PointerId) -> (e: Event)
        requires
            window_place(old(self).windows@, window_id, 0) is Some,
        ensures
            ({
                let i = window_place(old(self).windows@, window_id, 0)->Some_0;
                let before = old(self).windows@[i];
                &&& final(self).differs_in_window(*old(self), i)
                &&& final(self).windows@[i].differs_in_pointers(
                    before,
                    left_pointers(before.window.pointers@, pointer),
                )
            }),
            e.kind == (EventKind::PointerLeft { id: pointer }),
            !e.handled,
            old(self).well_formed() ==> final(self).well_formed(),
    {
        match self.window_index(window_id) {
            Some(i) => {
                self.windows[i].window.pointer_left(pointer);
            },
            None => {},
        }
        Event::new(EventKind::PointerLeft { id: pointer })
    }

    /// Tell the UI that a pointer has scrolled over a window, which must be
    /// there.
    pub fn pointer_scroll(&self, window_id: WindowId, pointer: PointerId, delta: Vector) -> (e:
        Event)
        requires
            window_place(self.windows@, window_id, 0) is Some,
        ensures
            e.kind == (EventKind::PointerScrolled {
                id: pointer,
                position: pointer_position_of(self.windows@, window_id, pointer),
                modifiers: self.modifiers,
                delta,
            }),
            !e.handled,
    {
        Event::new(
            EventKind::PointerScrolled {
                id: pointer,
                position: self.pointer_position(window_id, pointer),
                modifiers: self.modifiers,
                delta,
            },
        )
    }

    /// Tell the UI that a pointer button has been pressed or released over a
    /// window, which must be there.
    pub fn pointer_button(
        &self,
        window_id: WindowId,
        pointer: PointerId,
        button: PointerButton,
        pressed: bool,
    ) -> (e: Event)
        requires
            window_place(self.windows@, window_id, 0) is Some,
        ensures
            e.kind == if pressed {
                EventKind::PointerPressed {
                    id: pointer,
                    position: pointer_position_of(self.windows@, window_id, pointer),
                    modifiers: self.modifiers,
                    button,
                }
            } else {
                EventKind::PointerReleased {
                    id: pointer,
                    position: pointer_position_of(self.windows@, window_id, pointer),
                    modifiers: self.modifiers,
                    button,
                }
            },
            !e.handled,
    {
        if pressed {
            Event::new(
                EventKind::PointerPressed {
                    id: pointer,
                    position: self.pointer_position(window_id, pointer),
                    modifiers: self.modifiers,
                    button,
                },
            )
        } else {
            Event::new(
                EventKind::PointerReleased {
                    id: pointer,
                    position: self.pointer_position(window_id, pointer),
                    modifiers: self.modifiers,
                    button,
                },
            )
        }
    }

    /// Tell the UI that a keyboard key has been pressed or released. The
    /// key's own event comes first. The tab key, pressed, then asks for the
    /// focus to move on, backwards with shift held, and, where no view
    /// takes that, for the focus to be given.
    pub fn keyboard_key(
        &self,
        window_id: WindowId,
        code: Option<Code>,
        text: Option<String>,
        pressed: bool,
    ) -> (steps: Vec<Step>)
        ensures
            steps@.len() == if code == Some(Code::Tab) && pressed {
                3int
            } else {
                1int
            },
            steps@[0].event.kind == if pressed {
                EventKind::KeyPressed { code, text, modifiers: self.modifiers }
            } else {
                EventKind::KeyReleased { code, modifiers: self.modifiers }
            },
            !steps@[0].fallback,
            code == Some(Code::Tab) && pressed ==> {
                &&& steps@[1].event.kind == (EventKind::SwitchFocus {
                    forward: !self.modifiers.shift,
                })
                &&& !steps@[1].fallback
                &&& steps@[2].event.kind == (EventKind::RequestFocus {
                    forward: !self.modifiers.shift,
                })
                &&& steps@[2].fallback
            },
            forall|i: int|
                0 <= i < steps@.len() ==> !(#[trigger] steps@[i]).event.handled && steps@[i].window
                    == window_id,
    {
        let mut steps: Vec<Step> = Vec::new();
        if pressed {
            steps.push(
                Step {
                    window: window_id,
                    event: Event::new(
                        EventKind::KeyPressed { code, text, modifiers: self.modifiers },
                    ),
                    fallback: false,
                },
            );
        } else {
            steps.push(
                Step {
                    window: window_id,
                    event: Event::new(EventKind::KeyReleased { code, modifiers: self.modifiers }),
                    fallback: false,
                },
            );
        }
        let tab = match code {
            Some(Code::Tab) => true,
            _ => false,
        };
        if tab && pressed {
            steps.push(
                Step {
                    window: window_id,
                    event: Event::new(EventKind::SwitchFocus { forward: !self.modifiers.shift }),
                    fallback: false,
                },
            );
            steps.push(
                Step {
                    window: window_id,
                    event: Event::new(EventKind::RequestFocus { forward: !self.modifiers.shift }),
                    fallback: true,
                },
            );
        }
        steps
    }

    /// Takes note of a command that went through the delegates and the
    /// views as `event`: the command to quit, where it came back unhandled,
    /// ends the user interface.
    pub fn handle_builtin_commands(&mut self, event: &Event)
        ensures
            final(self).quit_requested == (old(self).quit_requested || (event.is_quit()
                && !event.handled)),
            final(self).windows == old(self).windows,
            final(self).modifiers == old(self).modifiers,
            final(self).delegates == old(self).delegates,
            final(self).commands == old(self).commands,
            final(self).requests == old(self).requests,
    {
        if event.is_quit() && !event.is_handled() {
            self.quit_requested = true;
        }
    }

    /// The event that delivers a command; it goes to every window.
    pub fn handle_command(&self, command: Command) -> (e: Event)
        ensures
            e.kind == EventKind::Command(command),
            !e.handled,
    {
        Event::from(command)
    }

    /// Handle all pending commands: hands them out, oldest first, for each
    /// to be delivered to every window.
    pub fn handle_commands(&mut self) -> (pending: Vec<Command>)
        ensures
            pending@ == old(self).commands@,
            final(self).commands@.len() == 0,
            final(self).windows == old(self).windows,
            final(self).modifiers == old(self).modifiers,
            final(self).delegates == old(self).delegates,
            final(self).requests == old(self).requests,
            final(self).quit_requested == old(self).quit_requested,
    {
        let mut pending: Vec<Command> = Vec::new();
        pending.append(&mut self.commands);
        pending
    }

    /// Takes in what the delegates answered to an event, and marks the
    /// event where one of them handled it.
    pub fn event_delegate(&mut self, event: &mut Event, reply: Reply)
        ensures
            final(self).settled(*old(self), reply),
            final(event).kind == old(event).kind,
            final(event).handled == (old(event).handled || reply.handled),
            old(self).well_formed() ==> final(self).well_formed(),
    {
        if reply.handled {
            event.handle();
        }
        self.settle(reply);
    }

    /// Handle an event for a single window: the window whose views get the
    /// event once the delegates have seen it. No window gets an event that
    /// is handled, nor does one that is not there.
    pub fn event(&self, window_id: WindowId, event: &Event) -> (target: Option<WindowId>)
        ensures
            target == if !event.handled && window_place(self.windows@, window_id, 0) is Some {
                Some(window_id)
            } else {
                None
            },
    {
        if event.is_handled() {
            return None;
        }
        match self.window_index(window_id) {
            Some(_) => Some(window_id),
            None => None,
        }
    }

    /// Handle an event for all windows: the windows whose views get the
    /// event once the delegates have seen it, in order. No window gets an
    /// event that is handled.
    pub fn event_all(&self, event: &Event) -> (targets: Vec<WindowId>)
        ensures
            targets@ == if event.handled {
                Seq::<WindowId>::empty()
            } else {
                window_ids_of(self.windows@)
            },
    {
        if event.is_handled() {
            Vec::new()
        } else {
            self.window_ids()
        }
    }

    /// Render a window: takes in the scene that was drawn for it. A window
    /// that was due for drawing keeps the scene and is due no more; where
    /// that changes the view under one of its pointers, the event that says
    /// so is to be delivered to it. A window that was not due, or is not
    /// there, stays as it is.
    pub fn render(&mut self, window_id: WindowId, scene: Canvas) -> (e: Option<Event>)
        ensures
            match window_place(old(self).windows@, window_id, 0) {
                Some(i) if old(self).windows@[i].needs_draw => {
                    let before = old(self).windows@[i];
                    let after = final(self).windows@[i];
                    let changed = hover_changed(
                        before.window.pointers@,
                        scene,
                        before.window.pointers@.len() as int,
                    );
                    &&& final(self).differs_in_window(*old(self), i)
                    &&& after.scene == scene
                    &&& after.needs_rebuild == before.needs_rebuild
                    &&& !after.needs_layout
                    &&& !after.needs_draw
                    &&& after.window.id == before.window.id
                    &&& after.window.width == before.window.width
                    &&& after.window.height == before.window.height
                    &&& after.window.pointers@ == hovered_pointers(before.window.pointers@, scene)
                    &&& e == if changed {
                        Some(Event { kind: EventKind::HoveredChanged, handled: false })
                    } else {
                        None
                    }
                },
                _ => *final(self) == *old(self) && e is None,
            },
            old(self).well_formed() ==> final(self).well_formed(),
    {
        match self.window_index(window_id) {
            Some(i) => {
                if !self.windows[i].needs_draw {
                    return None;
                }
                self.windows[i].scene = scene;
                self.windows[i].needs_layout = false;
                self.windows[i].needs_draw = false;
                if self.windows[i].update_hovered() {
                    Some(Event::new(EventKind::HoveredChanged))
                } else {
                    None
                }
            },
            None => None,
        }
    }
}

} // verus!
