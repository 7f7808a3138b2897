//! Paths and what is drawn with them.

pub mod canvas;
pub mod closed;
pub mod curve;
pub mod outline;
pub mod stroke;
