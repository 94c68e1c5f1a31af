//! Keeps the tags of Markdown notes and the places of those notes in a vault
//! consistent with each other.

pub mod commands;
pub mod groups;
pub mod notes;
pub mod paths;
pub mod tags;
pub mod text;
pub mod ui;
pub mod utils;
pub mod vault;
