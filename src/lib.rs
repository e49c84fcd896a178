//! Turns function entry/exit probe events of one process into a flame graph:
//! open call paths are paired with their exits, completed paths are merged into
//! a weighted call tree, and the tree is laid out as depth-stacked rectangles.

pub mod event;
pub mod profiler;
pub mod reconstruct;
pub mod render;
pub mod tree;
