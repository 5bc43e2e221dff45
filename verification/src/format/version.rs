//! Versions of the ZIP format.

use vstd::prelude::*;

use crate::entry::ZipEntry;
use crate::error::ZipError;
use crate::format::compression::Compression;

verus! {

pub const SPEC_VERSION_MADE_BY: u16 = 63;

pub const MAX_SUPPORTED_EXTRACT_VERSION: u16 = 63;

pub const DEFAULT_VERSION_NEEDED: u16 = 10;

/// The version that a directory needs at least.
pub const DIRECTORY_VERSION_NEEDED: u16 = 20;

/// The least version that a compression method needs.
pub open spec fn method_version(method: u16) -> u16 {
    if method == 8 {
        20
    } else if method == 9 {
        21
    } else if method == 12 {
        46
    } else if method == 14 {
        63
    } else {
        DEFAULT_VERSION_NEEDED
    }
}

/// What is wrong with the version that an entry needs to be extracted, if anything.
///
/// The version is the low byte of the field. Only the Deflate64 method is held to its least version.
pub open spec fn extract_version_error(raw_version: u16, compression: u16) -> Option<ZipError> {
    let version = raw_version % 0x100;
    if version > MAX_SUPPORTED_EXTRACT_VERSION {
        Some(ZipError::FeatureNotSupported("zip file version > 6.3"))
    } else if compression == 9 && version < 21 {
        Some(ZipError::InvalidCompressionVersion { version, required: 21, compression: 9 })
    } else {
        None
    }
}

/// Returns the minimum version of the ZIP format required by a compression method.
pub fn minimum_version_needed(compression: Compression) -> (version: u16)
    ensures
        version == method_version(compression.method_spec()),
{
    minimum_version_needed_for_method(compression.method())
}

/// Returns the minimum version of the ZIP format required by the compression method with a given number.
pub fn minimum_version_needed_for_method(compression: u16) -> (version: u16)
    ensures
        version == method_version(compression),
        compression == 8 ==> version == 20,
        compression == 9 ==> version == 21,
        compression == 12 ==> version == 46,
        compression == 14 ==> version == 63,
        compression != 8 && compression != 9 && compression != 12 && compression != 14 ==> version == 10,
{
    match compression {
        8 => 20,
        9 => 21,
        12 => 46,
        14 => 63,
        // Not every method has a minimum version of its own.
        _ => DEFAULT_VERSION_NEEDED,
    }
}

/// Validates the minimum extraction version for Deflate64 entries.
///
/// Deflate64 decoding can stop making progress when an entry declares a contradictory legacy version. Other methods
/// are not held to their minimum, since legacy versions are in common use with them.
pub fn validate_deflate64_version(version: u16, compression: u16) -> (r: Result<(), ZipError>)
    ensures
        r == (if compression == 9 && version < 21 {
            Err(ZipError::InvalidCompressionVersion { version, required: 21, compression: 9 })
        } else {
            Ok(())
        }),
{
    if compression != 9 {
        return Ok(());
    }
    let required: u16 = minimum_version_needed_for_method(compression);
    if version < required {
        return Err(ZipError::InvalidCompressionVersion { version, required, compression });
    }
    Ok(())
}

/// Validates the version that an entry needs to be extracted.
pub fn validate_extract_version(raw_version: u16, compression: u16) -> (r: Result<(), ZipError>)
    ensures
        r == (match extract_version_error(raw_version, compression) {
            Some(e) => Err(e),
            None => Ok(()),
        }),
        compression != 9 ==> (r is Ok <==> raw_version % 0x100 <= 63),
        compression == 9 ==> (r is Ok <==> 21 <= raw_version % 0x100 <= 63),
{
    // The extraction version occupies the low byte. The high byte is reserved,
    // but some writers populate it as though this were a "version made by" field.
    let version: u16 = raw_version % 0x100;
    if version > MAX_SUPPORTED_EXTRACT_VERSION {
        return Err(ZipError::FeatureNotSupported("zip file version > 6.3"));
    }
    validate_deflate64_version(version, compression)
}

/// Returns the version of the ZIP format that is needed to extract an entry.
pub fn as_needed_to_extract(entry: &ZipEntry) -> (version: u16)
    ensures
        version == entry@.version_needed(),
{
    let mut version: u16 = minimum_version_needed(entry.compression());
    if let Ok(true) = entry.dir() {
        if version < DIRECTORY_VERSION_NEEDED {
            version = DIRECTORY_VERSION_NEEDED;
        }
    }
    version
}

/// Returns the version of the ZIP format that archives are written by, with UNIX as the host.
pub fn as_made_by() -> (version: u16)
    ensures
        version == 3 * 0x100 + 63,
{
    3 * 0x100 + SPEC_VERSION_MADE_BY
}

} // verus!
