//! Events: what the platform reports, and what the user interface makes of it.

use vstd::prelude::*;
use crate::layout::vector::{Point, Vector};
use crate::window::WindowId;

verus! {

/// The modifier keys that are held down.
#[derive(Clone, Copy, Debug, PartialEq, Eq, Structural, Hash)]
pub struct Modifiers {
    pub shift: bool,
    pub ctrl: bool,
    pub alt: bool,
    pub meta: bool,
}

impl Modifiers {
    /// No modifier held.
    pub open spec fn spec_none() -> Modifiers {
        Modifiers { shift: false, ctrl: false, alt: false, meta: false }
    }
}

impl Default for Modifiers {
    fn default() -> (m: Modifiers)
        ensures
            m == Modifiers::spec_none(),
    {
        Modifiers { shift: false, ctrl: false, alt: false, meta: false }
    }
}

/// The identifier of a pointer: a mouse, a finger, a pen.
#[derive(Clone, Copy, Debug, PartialEq, Eq, Structural, Hash)]
pub struct PointerId {
    pub id: u64,
}

/// A button of a pointer.
#[derive(Clone, Copy, Debug, PartialEq, Eq, Structural, Hash)]
pub enum PointerButton {
    Primary,
    Secondary,
    Tertiary,
    Back,
    Forward,
    Other(u16),
}

/// The physical key that a keyboard event is about.
#[derive(Clone, Copy, Debug, PartialEq, Eq, Structural, Hash)]
pub enum Code {
    Tab,
    Enter,
    Escape,
    Space,
    Backspace,
    /// Any other key, by its scan code.
    Other(u32),
}

/// A message sent to the user interface from anywhere in the program.
#[derive(Clone, Copy, Debug, PartialEq, Eq, Structural, Hash)]
pub enum Command {
    /// Asks the user interface to quit.
    Quit,
    /// A message of the program's own, by its key.
    Custom(u64),
}

/// What an event is about.
#[derive(Clone, Debug, PartialEq, Eq)]
pub enum EventKind {
    /// A window wants to close.
    CloseRequested { window: WindowId },
    /// The view under a pointer changed.
    HoveredChanged,
    KeyPressed { code: Option<Code>, text: Option<String>, modifiers: Modifiers },
    KeyReleased { code: Option<Code>, modifiers: Modifiers },
    PointerLeft { id: PointerId },
    PointerMoved { id: PointerId, position: Point, delta: Vector, modifiers: Modifiers },
    PointerPressed { id: PointerId, position: Point, modifiers: Modifiers, button: PointerButton },
    PointerReleased { id: PointerId, position: Point, modifiers: Modifiers, button: PointerButton },
    PointerScrolled { id: PointerId, position: Point, modifiers: Modifiers, delta: Vector },
    /// Asks for the focus to be given, to the first view or to the last.
    RequestFocus { forward: bool },
    /// Asks for the focus to move on, forwards or backwards.
    SwitchFocus { forward: bool },
    WindowResized { window: WindowId, width: u32, height: u32 },
    /// A command, delivered as an event.
    Command(Command),
}

/// An event on its way through the delegates and the views. Whoever handles
/// it marks it, and those after see the mark.
#[derive(Clone, Debug, PartialEq, Eq)]
pub struct Event {
    pub kind: EventKind,
    pub handled: bool,
}

impl Event {
    /// A fresh event that nobody has handled.
    pub fn new(kind: EventKind) -> (e: Event)
        ensures
            e.kind == kind,
            !e.handled,
    {
        Event { kind, handled: false }
    }

    /// Marks the event as handled.
    pub fn handle(&mut self)
        ensures
            final(self).kind == old(self).kind,
            final(self).handled,
    {
        self.handled = true;
    }

    pub fn is_handled(&self) -> (b: bool)
        ensures
            b == self.handled,
    {
        self.handled
    }

    /// Whether the event delivers the command to quit.
    pub open spec fn spec_is_quit(&self) -> bool {
        self.kind == EventKind::Command(Command::Quit)
    }

    #[verifier::when_used_as_spec(spec_is_quit)]
    pub fn is_quit(&self) -> (b: bool)
        ensures
            b == self.spec_is_quit(),
    {
        match &self.kind {
            EventKind::Command(Command::Quit) => true,
            _ => false,
        }
    }
}

impl From<Command> for Event {
    fn from(command: Command) -> (e: Event)
        ensures
            e.kind == EventKind::Command(command),
            !e.handled,
    {
        Event { kind: EventKind::Command(command), handled: false }
    }
}

impl vstd::std_specs::convert::FromSpecImpl<Command> for Event {
    open spec fn obeys_from_spec() -> bool {
        true
    }

    open spec fn from_spec(command: Command) -> Event {
        Event { kind: EventKind::Command(command), handled: false }
    }
}

} // verus!
