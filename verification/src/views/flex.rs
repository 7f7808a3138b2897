//! A view that takes a share of the room that a stack has left.

use vstd::prelude::*;
use crate::layout::fixed::Fixed;

verus! {

/// A flexible view.
///
/// When used in a stack, will shrink or grow to fill the remaining space.
#[derive(Debug)]
pub struct Flex<V> {
    pub content: V,
    /// The share of the remaining room that the view takes.
    pub flex: Fixed,
}

/// Create a new [`Flex`].
pub fn flex<V>(share: Fixed, content: V) -> (f: Flex<V>)
    ensures
        f.content == content,
        f.flex == share,
{
    Flex::new(share, content)
}

impl<V> Flex<V> {
    pub fn new(flex: Fixed, content: V) -> (f: Flex<V>)
        ensures
            f.content == content,
            f.flex == flex,
    {
        Flex { content, flex }
    }

    /// Whether the view must be laid out again now that it replaces `old`:
    /// it must where its share is another.
    pub fn rebuild(&self, old: &Flex<V>) -> (layout: bool)
        ensures
            layout == (self.flex != old.flex),
    {
        self.flex.bits != old.flex.bits
    }
}

} // verus!
