pub mod color;
pub mod geometry;
pub mod number;
