//! Writing archives.

pub mod fields;
pub mod archive;
pub mod entry_seekable;
pub mod ending;
