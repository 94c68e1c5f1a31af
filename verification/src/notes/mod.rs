//! Notes as documents: front matter, templates and configuration.

pub mod config;
pub mod frontmatter;
pub mod note;
pub mod template;
