//! Helpers of the command line and of the file system.

pub mod alias;
pub mod cli;
pub mod file;
pub mod vault;
