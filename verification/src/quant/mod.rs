//! ggml block quantization formats.
//!
//! Three concerns live here and nowhere else: how a block decodes ([`dequant`]), how an
//! activation is staged for integer arithmetic ([`quantize`]), and how the two combine into a
//! dot product ([`dot`]).

pub mod block;
pub mod dequant;
pub mod dot;
pub mod dot_laws;
pub mod laws;
pub mod quantize;
