//! Signatures, lengths and limits of the ZIP format.

use vstd::prelude::*;

verus! {

/// Local file header.
pub const LFH_SIGNATURE: u32 = 0x0403_4b50;

/// The fixed fields of a local file header, without its signature.
pub const LFH_LENGTH: usize = 26;

/// Central directory header.
pub const CDH_SIGNATURE: u32 = 0x0201_4b50;

/// The fixed fields of a central directory header, without its signature.
pub const CDH_LENGTH: usize = 42;

/// Central directory digital signature.
pub const CDDS_SIGNATURE: u32 = 0x0505_4b50;

/// End of central directory record.
pub const EOCDR_SIGNATURE: u32 = 0x0605_4b50;

/// The fixed fields of an end of central directory record, without its signature.
pub const EOCDR_LENGTH: usize = 18;

/// ZIP64 end of central directory record.
pub const ZIP64_EOCDR_SIGNATURE: u32 = 0x0606_4b50;

/// The fixed fields of a ZIP64 end of central directory record, without its signature.
pub const ZIP64_EOCDR_LENGTH: usize = 52;

/// ZIP64 end of central directory locator.
pub const ZIP64_EOCDL_SIGNATURE: u32 = 0x0706_4b50;

/// A ZIP64 end of central directory locator, with its signature.
pub const ZIP64_EOCDL_LENGTH: usize = 20;

/// The value of a four-byte field that refers to ZIP64 metadata.
pub const NON_ZIP64_MAX_SIZE: u32 = 0xffff_ffff;

/// The greatest number of files that the legacy format can count.
pub const NON_ZIP64_MAX_NUM_FILES: u16 = 0xffff;

/// The size of a central directory entry without its variable fields.
pub const MIN_CENTRAL_DIRECTORY_ENTRY_SIZE: u64 = 46;

} // verus!
