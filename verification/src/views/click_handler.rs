//! A view that turns presses and releases of a pointer into clicks.

use vstd::prelude::*;
use crate::event::{Event, EventKind};
use crate::layout::fixed::Fixed;
use crate::layout::vector::Point;
use crate::view::EventCx;

verus! {

/// An event for a click.
#[derive(Clone, Copy, Debug, PartialEq, Eq, Structural, Hash)]
pub enum ClickEvent {
    /// The pointer was pressed.
    Press,
    /// The pointer was released.
    Release,
    /// The pointer was clicked.
    Click,
}

/// What is left to do once a click handler has seen an event.
#[derive(Clone, Copy, Debug, PartialEq, Eq, Structural, Hash)]
pub enum ClickAction {
    /// Run the callback for this kind of click.
    Call(ClickEvent),
    /// Send this click to the content, as an event of its own.
    Emit(ClickEvent),
}

/// A click handler.
///
/// `C` is whatever stands for a callback; the handler keeps the callbacks
/// and says when each is to run.
#[derive(Debug)]
pub struct Clickable<V, C> {
    /// The content.
    pub content: V,
    /// The callback for when the button is pressed.
    pub on_press: Option<C>,
    /// The callback for when the button is released.
    pub on_release: Option<C>,
    /// The callback for when the button is clicked.
    pub on_click: Option<C>,
}

/// Create a new [`Clickable`], with an [`on_press`](Clickable::on_press()) callback.
pub fn on_press<V, C>(content: V, callback: C) -> (c: Clickable<V, C>)
    ensures
        c.content == content,
        c.on_press == Some(callback),
        c.on_release is None,
        c.on_click is None,
{
    Clickable::new(content).on_press(callback)
}

/// Create a new [`Clickable`], with an [`on_release`](Clickable::on_release()) callback.
pub fn on_release<V, C>(content: V, callback: C) -> (c: Clickable<V, C>)
    ensures
        c.content == content,
        c.on_press is None,
        c.on_release == Some(callback),
        c.on_click is None,
{
    Clickable::new(content).on_release(callback)
}

/// Create a new [`Clickable`], with an [`on_click`](Clickable::on_click()) callback.
pub fn on_click<V, C>(content: V, callback: C) -> (c: Clickable<V, C>)
    ensures
        c.content == content,
        c.on_press is None,
        c.on_release is None,
        c.on_click == Some(callback),
{
    Clickable::new(content).on_click(callback)
}

/// The bit pattern of the farthest that a pointer may stray between press
/// and release for the two to count as a click: ten.
pub const MAX_CLICK_DISTANCE: i64 = 655360;

/// What a click handler remembers between events.
#[derive(Clone, Copy, Debug, PartialEq, Eq)]
pub struct ClickableState {
    /// Where the pointer was pressed, in the view's own coordinates.
    pub click_start: Point,
}

impl Default for ClickableState {
    fn default() -> (s: ClickableState)
        ensures
            s.click_start == (Point { x: Fixed { bits: 0 }, y: Fixed { bits: 0 } }),
    {
        ClickableState { click_start: Point::zero() }
    }
}

/// What a pointer did, as far as a click handler tells events apart.
#[derive(Clone, Copy, Debug, PartialEq, Eq, Structural, Hash)]
pub enum PointerAct {
    Move,
    Press,
    Release,
}

/// What the pointer did and where, where the event reports a move, a press
/// or a release.
pub open spec fn spec_pointer_act(kind: EventKind) -> Option<(PointerAct, Point)> {
    match kind {
        EventKind::PointerMoved { position, .. } => Some((PointerAct::Move, position)),
        EventKind::PointerPressed { position, .. } => Some((PointerAct::Press, position)),
        EventKind::PointerReleased { position, .. } => Some((PointerAct::Release, position)),
        _ => None,
    }
}

pub fn pointer_act(kind: &EventKind) -> (r: Option<(PointerAct, Point)>)
    ensures
        r == spec_pointer_act(*kind),
{
    match kind {
        EventKind::PointerMoved { position, .. } => Some((PointerAct::Move, *position)),
        EventKind::PointerPressed { position, .. } => Some((PointerAct::Press, *position)),
        EventKind::PointerReleased { position, .. } => Some((PointerAct::Release, *position)),
        _ => None,
    }
}

/// Everything that a click handler decides on an event.
pub struct Verdict {
    /// What is left for the driver to do, in order.
    pub actions: Seq<ClickAction>,
    pub click_start: Point,
    pub active: bool,
    pub needs_rebuild: bool,
    pub handled: bool,
}

/// The callback of one kind run, where there is one: the call, and the
/// rebuild that follows it.
pub open spec fn called(present: bool, kind: ClickEvent) -> Seq<ClickAction> {
    if present {
        seq![ClickAction::Call(kind)]
    } else {
        Seq::empty()
    }
}

/// What a click handler with the given callbacks decides on an event that
/// its content has seen.
///
/// An event that is handled, or that is no move, press or release of a
/// pointer, passes by. A move over the view is handled. A press over the
/// view makes the view active, runs the press callback, records where the
/// press was, handles the event and sends the press on. A release, while
/// the view is active, makes it inactive, runs the release callback and
/// sends the release on; where the pointer is then no farther than
/// `MAX_CLICK_DISTANCE` from the press, it runs the click callback and sends
/// the click on. Every callback that runs leaves the view tree due for a
/// rebuild.
pub open spec fn click_verdict(
    has_press: bool,
    has_release: bool,
    has_click: bool,
    state: ClickableState,
    cx: EventCx,
    event: Event,
) -> Verdict {
    let idle = Verdict {
        actions: Seq::empty(),
        click_start: state.click_start,
        active: cx.active,
        needs_rebuild: cx.needs_rebuild,
        handled: event.handled,
    };
    match spec_pointer_act(event.kind) {
        Some((act, position)) if !event.handled => {
            let local = cx.spec_local(position);
            if cx.hot && act == PointerAct::Press {
                Verdict {
                    actions: called(has_press, ClickEvent::Press).push(
                        ClickAction::Emit(ClickEvent::Press),
                    ),
                    click_start: local,
                    active: true,
                    needs_rebuild: cx.needs_rebuild || has_press,
                    handled: true,
                }
            } else if cx.active && act == PointerAct::Release {
                let near = local.distance(state.click_start).bits <= MAX_CLICK_DISTANCE;
                Verdict {
                    actions: called(has_release, ClickEvent::Release).push(
                        ClickAction::Emit(ClickEvent::Release),
                    ) + if near {
                        called(has_click, ClickEvent::Click).push(
                            ClickAction::Emit(ClickEvent::Click),
                        )
                    } else {
                        Seq::empty()
                    },
                    click_start: state.click_start,
                    active: false,
                    needs_rebuild: cx.needs_rebuild || has_release || (near && has_click),
                    handled: event.handled,
                }
            } else {
                Verdict {
                    actions: Seq::empty(),
                    click_start: state.click_start,
                    active: cx.active,
                    needs_rebuild: cx.needs_rebuild,
                    handled: cx.hot && act == PointerAct::Move,
                }
            }
        },
        _ => idle,
    }
}

impl<V, C> Clickable<V, C> {
    /// Create a new [`Clickable`].
    pub fn new(content: V) -> (c: Clickable<V, C>)
        ensures
            c.content == content,
            c.on_press is None,
            c.on_release is None,
            c.on_click is None,
    {
        Clickable { content, on_press: None, on_release: None, on_click: None }
    }

    /// Set the callback for when the button is pressed.
    pub fn on_press(self, callback: C) -> (c: Clickable<V, C>)
        ensures
            c.content == self.content,
            c.on_press == Some(callback),
            c.on_release == self.on_release,
            c.on_click == self.on_click,
    {
        let mut this = self;
        this.on_press = Some(callback);
        this
    }

    /// Set the callback for when the button is released.
    pub fn on_release(self, callback: C) -> (c: Clickable<V, C>)
        ensures
            c.content == self.content,
            c.on_press == self.on_press,
            c.on_release == Some(callback),
            c.on_click == self.on_click,
    {
        let mut this = self;
        this.on_release = Some(callback);
        this
    }

    /// Set the callback for when the button is clicked.
    pub fn on_click(self, callback: C) -> (c: Clickable<V, C>)
        ensures
            c.content == self.content,
            c.on_press == self.on_press,
            c.on_release == self.on_release,
            c.on_click == Some(callback),
    {
        let mut this = self;
        this.on_click = Some(callback);
        this
    }

    /// Takes an event that the content has seen, and says what is left to
    /// do: which callbacks to run and which clicks to send to the content,
    /// in order.
    pub fn event(&self, state: &mut ClickableState, cx: &mut EventCx, event: &mut Event) -> (actions:
        Vec<ClickAction>)
        ensures
            ({
                let v = click_verdict(
                    self.on_press is Some,
                    self.on_release is Some,
                    self.on_click is Some,
                    *old(state),
                    *old(cx),
                    *old(event),
                );
                &&& actions@ == v.actions
                &&& final(state).click_start == v.click_start
                &&& final(cx).active == v.active
                &&& final(cx).needs_rebuild == v.needs_rebuild
                &&& final(cx).hot == old(cx).hot
                &&& final(cx).transform == old(cx).transform
                &&& final(event).handled == v.handled
                &&& final(event).kind == old(event).kind
            }),
    {
        let mut actions: Vec<ClickAction> = Vec::new();
        if event.is_handled() {
            return actions;
        }
        match pointer_act(&event.kind) {
            Some((act, position)) => {
                let local = cx.local(position);
                let is_move = matches!(act, PointerAct::Move);
                let is_press = matches!(act, PointerAct::Press);
                let is_release = matches!(act, PointerAct::Release);
                if cx.is_hot() && is_move {
                    event.handle();
                }
                if cx.is_hot() && is_press {
                    cx.set_active(true);
                    if self.on_press.is_some() {
                        actions.push(ClickAction::Call(ClickEvent::Press));
                        cx.request_rebuild();
                    }
                    state.click_start = local;
                    event.handle();
                    actions.push(ClickAction::Emit(ClickEvent::Press));
                } else if cx.is_active() && is_release {
                    cx.set_active(false);
                    if self.on_release.is_some() {
                        actions.push(ClickAction::Call(ClickEvent::Release));
                        cx.request_rebuild();
                    }
                    actions.push(ClickAction::Emit(ClickEvent::Release));
                    let ghost released = actions@;
                    if local.distance(state.click_start).bits > MAX_CLICK_DISTANCE {
                        proof {
                            assert(actions@ =~= released + Seq::<ClickAction>::empty());
                        }
                        return actions;
                    }
                    if self.on_click.is_some() {
                        actions.push(ClickAction::Call(ClickEvent::Click));
                        cx.request_rebuild();
                    }
                    actions.push(ClickAction::Emit(ClickEvent::Click));
                    proof {
                        assert(actions@ =~= released + called(
                            self.on_click is Some,
                            ClickEvent::Click,
                        ).push(ClickAction::Emit(ClickEvent::Click)));
                    }
                }
            },
            None => {},
        }
        actions
    }
}

/// A trait for building [`Clickable`]s.
///
/// `M` tells the two implementations apart: the one for a view that is no
/// click handler yet, and the one for a click handler.
pub trait BuildClickHandler<V, C, M>: Sized {
    /// The click handler that this is, or that wraps it.
    spec fn as_clickable(self) -> Clickable<V, C>;

    /// Wraps the view in a click handler, where it is none yet.
    fn clickable(self) -> (c: Clickable<V, C>)
        ensures
            c == self.as_clickable(),
    ;

    /// Set the callback for when the button is pressed.
    fn on_press(self, cb: C) -> (c: Clickable<V, C>)
        ensures
            c.content == self.as_clickable().content,
            c.on_press == Some(cb),
            c.on_release == self.as_clickable().on_release,
            c.on_click == self.as_clickable().on_click,
    {
        self.clickable().on_press(cb)
    }

    /// Set the callback for when the button is released.
    fn on_release(self, cb: C) -> (c: Clickable<V, C>)
        ensures
            c.content == self.as_clickable().content,
            c.on_press == self.as_clickable().on_press,
            c.on_release == Some(cb),
            c.on_click == self.as_clickable().on_click,
    {
        self.clickable().on_release(cb)
    }

    /// Set the callback for when the button is clicked.
    fn on_click(self, cb: C) -> (c: Clickable<V, C>)
        ensures
            c.content == self.as_clickable().content,
            c.on_press == self.as_clickable().on_press,
            c.on_release == self.as_clickable().on_release,
            c.on_click == Some(cb),
    {
        self.clickable().on_click(cb)
    }
}

impl<V, C> BuildClickHandler<V, C, ()> for V {
    open spec fn as_clickable(self) -> Clickable<V, C> {
        Clickable { content: self, on_press: None, on_release: None, on_click: None }
    }

    fn clickable(self) -> (c: Clickable<V, C>) {
        Clickable::new(self)
    }
}

impl<V, C> BuildClickHandler<V, C, Clickable<V, C>> for Clickable<V, C> {
    open spec fn as_clickable(self) -> Clickable<V, C> {
        self
    }

    fn clickable(self) -> (c: Clickable<V, C>) {
        self
    }
}

} // verus!
