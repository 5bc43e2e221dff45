//! The records of the ZIP format.

pub mod attribute;
pub mod compression;
pub mod consts;
pub mod date;
pub mod end_record;
pub mod extra_field;
pub mod header;
pub mod version;
