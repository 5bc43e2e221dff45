//! What holds of the library as a whole.

pub mod layout;
pub mod checksum;
pub mod rules;
pub mod extra;
pub mod acceptance;
pub mod data;
pub mod located;
pub mod decisions;
pub mod reading;
pub mod writing;
pub mod names;
pub mod round_trip;
pub mod archive;
pub mod readable;
