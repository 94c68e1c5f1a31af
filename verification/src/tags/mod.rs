//! The hierarchical tag model: flat paths, the prefix tree and the scanners
//! that read tags out of a note.

pub mod cache;
pub mod parser;
pub mod primary_cache;
pub mod tree;

pub use parser::TagPath;
pub use tree::TagNode;
