//! Scalars, points, vectors, rectangles and affine maps.

pub mod affine;
pub mod fixed;
pub mod rect;
pub mod space;
pub mod unit;
pub mod vector;
