//! A fixed-size square matrix of `i32` held in one contiguous row-major buffer.
pub mod capacity;
pub mod matrix;
pub mod model;
