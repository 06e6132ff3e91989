//! A verified core for running GGUF language models.

pub mod backend;
pub mod cli;
pub mod cpu;
pub mod device;
pub mod dict;
pub mod dtype;
pub mod error;
pub mod gguf;
pub mod gpu;
pub mod jinja;
pub mod model;
pub mod quant;
pub mod runtime;
pub mod sample;
pub mod sample_laws;
pub mod scalar;
pub mod server;
pub mod single;
pub mod slots;
pub mod text;
pub mod tokenizer;
