//! The formats and rules of ZIP archives, proved.
//!
//! Archives are read and written as bytes and plain values. No function here does input or output: the readers take bytes
//! and tell how many more they need, and the writers return what is to be written, and where.

pub mod bytes;
pub mod crc;
pub mod entry;
pub mod error;
pub mod format;
pub mod law;
pub mod read;
pub mod string;
pub mod write;
