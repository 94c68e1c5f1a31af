//! Reading the tags of the notes of a vault.

pub mod scan;
