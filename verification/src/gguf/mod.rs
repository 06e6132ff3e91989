//! GGUF container parsing.

pub mod laws;
pub mod model;
pub mod reader;
pub mod value;
