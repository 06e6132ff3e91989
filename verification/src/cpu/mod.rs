//! The processor as a device.

pub mod attention;
pub mod cache;
pub mod heads;
pub mod label;
pub mod machine;
pub mod laws;
pub mod matmul;
pub mod moe;
pub mod ops;
pub mod pass;
pub mod processor;
pub mod ready;
pub mod rope;
pub mod run;
