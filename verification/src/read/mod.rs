//! Reading archives.

pub mod fields;
pub mod name;
pub mod record;
pub mod data;
pub mod directory;
pub mod boundary;
pub mod file;
