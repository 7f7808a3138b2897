//! What passes between the user interface and its driver.

use vstd::prelude::*;
use crate::event::{Command, Event};
use crate::window::WindowId;

verus! {

/// What the user interface asks of the platform.
#[derive(Clone, Copy, Debug, PartialEq, Eq, Structural, Hash)]
pub enum UiRequest {
    /// Create the window described under a key.
    CreateWindow(u64),
    /// Remove a window.
    RemoveWindow(WindowId),
    /// Apply to a window the change described under a key.
    UpdateWindow(WindowId, u64),
}

/// What the delegates, or the views of a window, answered when they were
/// run.
#[derive(Debug, PartialEq, Eq)]
pub struct Reply {
    /// Whether one of them handled the event.
    pub handled: bool,
    /// Whether one of them asked for the view trees to be rebuilt.
    pub needs_rebuild: bool,
    /// What they asked of the platform, in order.
    pub requests: Vec<UiRequest>,
    /// The commands they sent, in order.
    pub commands: Vec<Command>,
}

impl Reply {
    /// The answer of those who did nothing.
    pub fn new() -> (r: Reply)
        ensures
            !r.handled,
            !r.needs_rebuild,
            r.requests@.len() == 0,
            r.commands@.len() == 0,
    {
        Reply { handled: false, needs_rebuild: false, requests: Vec::new(), commands: Vec::new() }
    }
}

/// One event of a run of events to deliver in order.
#[derive(Debug, PartialEq, Eq)]
pub struct Step {
    /// The window whose views get the event.
    pub window: WindowId,
    pub event: Event,
    /// Whether the event is delivered only where the one before it came back
    /// unhandled.
    pub fallback: bool,
}

} // verus!
