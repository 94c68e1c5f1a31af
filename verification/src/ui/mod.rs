//! What the editor does to the text of a note.

pub mod editor;
