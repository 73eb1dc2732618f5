//! Problem models, grouped by the shape of their input.
pub mod graph;
pub mod misc;
