//! Vector paths on exact 48.16 fixed-point coordinates: the path model, a
//! stroker that turns a path and its stroke properties into a fillable
//! outline, hit-testing, and the user-interface state built around them.

pub mod canvas;
pub mod event;
pub mod keyboard;
pub mod layout;
pub mod render;
pub mod view;
pub mod window;
pub mod ui;
pub mod views;
