//! The engine: what is resident in its caches, what has to run next, and when to stop.

pub mod calls;
pub mod device;
pub mod engine;
pub mod generate;
pub mod kv;
pub mod laws;
pub mod reply;
pub mod session;
pub mod talk;
