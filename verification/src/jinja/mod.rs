//! A Jinja2 subset, enough to render the `tokenizer.chat_template` that ships inside GGUF
//! files.

pub mod eval;
pub mod flow;
pub mod laws;
pub mod lex;
pub mod nodes;
pub mod number;
pub mod ops;
pub mod parse;
pub mod scan;
pub mod scope;
pub mod show;
pub mod value;
