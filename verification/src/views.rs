//! Views that wrap other views.

pub mod click_handler;
pub mod flex;
pub mod stack;
pub mod transform;
