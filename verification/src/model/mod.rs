//! What a file says it is, and how to run it.

pub mod graph;
pub mod laws;
pub mod loading;
pub mod meaning;
pub mod spec;
pub mod weights;
