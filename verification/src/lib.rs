//! Core logic of a small interactive shell: parsing an input line into a
//! pipeline of commands, planning how the pipeline's stages are wired
//! together, dispatching builtin commands, and tracking background jobs.

pub mod completer;
pub mod dispatch;
pub mod display;
pub mod executor;
pub mod messages;
pub mod parser;
pub mod registry;
pub mod strutil;
