//! An OpenAI-compatible server: what requests mean, what answers look like, and which request
//! runs when.

pub mod config;
pub mod laws;
pub mod openai;
pub mod request;
pub mod rounds;
pub mod schedule;
