//! The command line: its arguments, and what it reports.

pub mod args;
pub mod chat;
pub mod compare;
pub mod inspect;
pub mod summary;
