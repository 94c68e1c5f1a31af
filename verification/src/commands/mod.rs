//! The engines behind the commands: what each of them decides and computes.

pub mod last;
pub mod migrate;
pub mod obsidian;
pub mod rcal_tasks;
pub mod redir;
pub mod rename;
pub mod retag;
pub mod tman;
pub mod todo;
