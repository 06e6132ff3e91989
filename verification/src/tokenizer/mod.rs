//! Tokenization and chat formatting, both driven by what the GGUF itself declares.

pub mod decode;
pub mod encode;
pub mod facade;
pub mod index;
pub mod laws;
pub mod pretok;
pub mod roundtrip;
pub mod template;
pub mod vocab;
