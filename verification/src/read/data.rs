//! Where the data of an entry starts.

use vstd::prelude::*;
use vstd::slice::slice_subrange;

use crate::bytes::{le16, le32, read_u32, same_bytes};
use crate::entry::{StoredZipEntry, StoredZipEntryView};
use crate::error::{need, short_read, ZipError};
use crate::format::consts::{LFH_SIGNATURE, NON_ZIP64_MAX_SIZE};
use crate::format::extra_field::{parse_all, parse_extra_fields, zip64_wants};
use crate::format::header::LocalFileHeader;
use crate::law::data::{is_plain_with_descriptor, lemma_descriptor_frees_sizes};
use crate::read::fields::{combined_sizes, get_combined_sizes, get_zip64_extra_field, zip64_field};

verus! {

/// How many bytes of a name are compared at a time.
pub const NAME_CHUNK: usize = 256;

/// What is wrong with the name in a local file header, from its byte `at` on, if anything: it is compared with
/// `expected` a chunk at a time, each of which must be there in full.
pub open spec fn name_error(input: Seq<u8>, expected: Seq<u8>, at: nat) -> Option<ZipError>
    decreases expected.len() - at,
{
    if at >= expected.len() {
        None
    } else {
        let end = if expected.len() - at <= NAME_CHUNK { expected.len() } else { at + NAME_CHUNK as nat };
        if input.len() < 30 + end {
            Some(short_read(input.len(), 30 + end))
        } else if input.subrange(30 + at as int, 30 + end as int) != expected.subrange(at as int, end as int) {
            Some(ZipError::LocalFileHeaderNameMismatch)
        } else {
            name_error(input, expected, end)
        }
    }
}

/// Whether a header refers to ZIP64 extended information for one of the sizes.
pub open spec fn refers_to_zip64(header: LocalFileHeader) -> bool {
    header.compressed_size == NON_ZIP64_MAX_SIZE || header.uncompressed_size == NON_ZIP64_MAX_SIZE
}

/// The sizes (uncompressed, compressed) according to a local file header, which stands at the beginning of `input`.
pub open spec fn local_sizes(header: LocalFileHeader, input: Seq<u8>) -> Result<(u64, u64), ZipError> {
    let name_end = 30 + header.file_name_length as nat;
    let end = name_end + header.extra_field_length as nat;
    if header.extra_field_length == 0 {
        if !refers_to_zip64(header) {
            Ok((header.uncompressed_size as u64, header.compressed_size as u64))
        } else if header.flags.data_descriptor {
            Err(ZipError::Zip64ExtendedFieldIncomplete)
        } else {
            Err(ZipError::LocalFileHeaderSizeMismatch)
        }
    } else if input.len() < end {
        Err(short_read(input.len(), end))
    } else {
        match parse_all(
            input.subrange(name_end as int, end as int),
            zip64_wants(header.uncompressed_size, header.compressed_size, None, None),
        ) {
            Err(e) => Err(e),
            Ok(fields) => if !header.flags.data_descriptor && fields.len() == 0 && refers_to_zip64(header) {
                Err(ZipError::LocalFileHeaderSizeMismatch)
            } else {
                combined_sizes(header.uncompressed_size, header.compressed_size, zip64_field(fields))
            },
        }
    }
}

impl StoredZipEntryView {
    /// What is wrong with the sizes of a local file header, which stands at the beginning of `input`, if anything.
    ///
    /// Where the sizes follow the data in a descriptor, those in the header need only be readable.
    pub open spec fn size_error(self, header: LocalFileHeader, input: Seq<u8>) -> Option<ZipError> {
        let descriptor = header.flags.data_descriptor;
        if !descriptor && ((header.compressed_size != NON_ZIP64_MAX_SIZE && header.compressed_size
            != self.entry.compressed_size) || (header.uncompressed_size != NON_ZIP64_MAX_SIZE
            && header.uncompressed_size != self.entry.uncompressed_size)) {
            Some(ZipError::LocalFileHeaderSizeMismatch)
        } else {
            match local_sizes(header, input) {
                Err(e) => Some(e),
                Ok(sizes) => if !descriptor && sizes != (self.entry.uncompressed_size, self.entry.compressed_size) {
                    Some(ZipError::LocalFileHeaderSizeMismatch)
                } else {
                    None
                },
            }
        }
    }

    /// Where the entry's data starts, if its local file header is `header`.
    pub open spec fn data_start(self, header: LocalFileHeader) -> nat {
        self.file_offset as nat + 30 + header.file_name_length as nat + header.extra_field_length as nat
    }

    /// Where the entry's data starts, given the bytes from where its local file header starts.
    pub open spec fn data_offset(self, input: Seq<u8>) -> Result<u64, ZipError> {
        if input.len() < 4 {
            Err(short_read(input.len(), 4))
        } else if le32(input, 0) != LFH_SIGNATURE {
            Err(ZipError::UnexpectedHeaderError(le32(input, 0), LFH_SIGNATURE))
        } else if input.len() < 30 {
            Err(short_read(input.len(), 30))
        } else {
            match LocalFileHeader::read_at(input, 4) {
                Err(e) => Err(e),
                Ok(header) => {
                    let start = self.data_start(header);
                    let end = start + self.entry.compressed_size;
                    if end > u64::MAX {
                        Err(ZipError::InvalidEntryDataRange)
                    } else if end > self.data_end_boundary {
                        Err(
                            ZipError::EntryDataRangeOverlap {
                                start: start as u64,
                                end: end as u64,
                                boundary: self.data_end_boundary,
                            },
                        )
                    } else if header.flags.data_descriptor != self.entry.data_descriptor {
                        Err(ZipError::LocalFileHeaderDataDescriptorMismatch)
                    } else if header.file_name_length != self.entry.filename.raw.len() {
                        Err(ZipError::LocalFileHeaderNameMismatch)
                    } else if name_error(input, self.entry.filename.raw, 0) is Some {
                        Err(name_error(input, self.entry.filename.raw, 0)->Some_0)
                    } else if self.size_error(header, input) is Some {
                        Err(self.size_error(header, input)->Some_0)
                    } else {
                        Ok(start as u64)
                    }
                },
            }
        }
    }
}

/// Compares the name in a local file header with the one expected.
fn check_name(input: &[u8], expected: &[u8]) -> (r: Result<(), ZipError>)
    requires
        expected@.len() <= 0xffff,
    ensures
        r == (match name_error(input@, expected@, 0) {
            Some(e) => Err(e),
            None => Ok(()),
        }),
{
    let mut at: usize = 0;
    while at < expected.len()
        invariant
            at <= expected@.len() <= 0xffff,
            name_error(input@, expected@, 0) == name_error(input@, expected@, at as nat),
        decreases expected@.len() - at,
    {
        let end: usize = if expected.len() - at <= NAME_CHUNK { expected.len() } else { at + NAME_CHUNK };
        need(input, 30 + end)?;
        if !same_bytes(slice_subrange(input, 30 + at, 30 + end), slice_subrange(expected, at, end)) {
            return Err(ZipError::LocalFileHeaderNameMismatch);
        }
        at = end;
    }
    Ok(())
}

/// Reads the sizes (uncompressed, compressed) of a local file header.
fn read_local_sizes(header: LocalFileHeader, input: &[u8]) -> (r: Result<(u64, u64), ZipError>)
    ensures
        r == local_sizes(header, input@),
{
    let refers: bool = header.compressed_size == NON_ZIP64_MAX_SIZE || header.uncompressed_size == NON_ZIP64_MAX_SIZE;
    if header.extra_field_length == 0 {
        if refers {
            return Err(
                if header.flags.data_descriptor {
                    ZipError::Zip64ExtendedFieldIncomplete
                } else {
                    ZipError::LocalFileHeaderSizeMismatch
                },
            );
        }
        return Ok((header.uncompressed_size as u64, header.compressed_size as u64));
    }
    let name_end: usize = 30 + header.file_name_length as usize;
    let end: usize = name_end + header.extra_field_length as usize;
    need(input, end)?;
    let extra_fields = parse_extra_fields(
        slice_subrange(input, name_end, end),
        header.uncompressed_size,
        header.compressed_size,
        None,
        None,
    )?;
    let zip64_extra_field = get_zip64_extra_field(extra_fields.as_slice());
    if !header.flags.data_descriptor && zip64_extra_field.is_none() && extra_fields.len() == 0 && refers {
        return Err(ZipError::LocalFileHeaderSizeMismatch);
    }
    get_combined_sizes(header.uncompressed_size, header.compressed_size, &zip64_extra_field)
}

impl StoredZipEntry {
    /// Checks the sizes of a local file header.
    fn check_sizes(&self, header: LocalFileHeader, input: &[u8]) -> (r: Result<(), ZipError>)
        ensures
            r == (match self@.size_error(header, input@) {
                Some(e) => Err(e),
                None => Ok(()),
            }),
    {
        let descriptor: bool = header.flags.data_descriptor;
        if !descriptor && ((header.compressed_size != NON_ZIP64_MAX_SIZE && header.compressed_size as u64
            != self.entry.compressed_size) || (header.uncompressed_size != NON_ZIP64_MAX_SIZE
            && header.uncompressed_size as u64 != self.entry.uncompressed_size)) {
            return Err(ZipError::LocalFileHeaderSizeMismatch);
        }
        let (local_uncompressed_size, local_compressed_size) = read_local_sizes(header, input)?;
        if !descriptor && (local_compressed_size != self.entry.compressed_size || local_uncompressed_size
            != self.entry.uncompressed_size) {
            return Err(ZipError::LocalFileHeaderSizeMismatch);
        }
        Ok(())
    }

    /// Returns the offset in bytes where the data of the entry starts, given the bytes of the archive from
    /// [`StoredZipEntry::header_offset`] on.
    ///
    /// The local file header there must agree with the central directory, and the entry's data must end before what
    /// follows it.
    pub fn seek_to_data_offset(&self, input: &[u8]) -> (r: Result<u64, ZipError>)
        ensures
            r == self@.data_offset(input@),
            r matches Ok(start) ==> start == self@.file_offset + 30 + le16(input@, 26) + le16(input@, 28),
            r matches Ok(start) ==> start + self@.entry.compressed_size <= self@.data_end_boundary,
            is_plain_with_descriptor(input@) && self@.entry.data_descriptor && input@.subrange(30, 30 + le16(input@, 26))
                == self@.entry.filename.raw && self@.file_offset + 30 + le16(input@, 26) + self@.entry.compressed_size
                <= self@.data_end_boundary ==> r == Ok::<u64, ZipError>(
                (self@.file_offset + 30 + le16(input@, 26)) as u64,
            ),
    {
        proof {
            if is_plain_with_descriptor(input@) && self@.entry.data_descriptor && input@.subrange(
                30,
                30 + le16(input@, 26),
            ) == self@.entry.filename.raw && self@.file_offset + 30 + le16(input@, 26) + self@.entry.compressed_size
                <= self@.data_end_boundary {
                lemma_descriptor_frees_sizes(self@, input@);
            }
        }
        need(input, 4)?;
        let signature: u32 = read_u32(input, 0);
        if signature != LFH_SIGNATURE {
            return Err(ZipError::UnexpectedHeaderError(signature, LFH_SIGNATURE));
        }
        need(input, 30)?;
        let header = LocalFileHeader::from_bytes(input, 4)?;
        let trailing: u64 = 30 + header.file_name_length as u64 + header.extra_field_length as u64;
        let data_start: u64 = match self.file_offset.checked_add(trailing) {
            Some(offset) => offset,
            None => return Err(ZipError::InvalidEntryDataRange),
        };
        let data_end: u64 = match data_start.checked_add(self.entry.compressed_size) {
            Some(offset) => offset,
            None => return Err(ZipError::InvalidEntryDataRange),
        };
        if data_end > self.data_end_boundary {
            return Err(
                ZipError::EntryDataRangeOverlap { start: data_start, end: data_end, boundary: self.data_end_boundary },
            );
        }
        if header.flags.data_descriptor != self.entry.data_descriptor {
            return Err(ZipError::LocalFileHeaderDataDescriptorMismatch);
        }
        let expected_filename = self.entry.filename.as_bytes();
        if header.file_name_length as usize != expected_filename.len() {
            return Err(ZipError::LocalFileHeaderNameMismatch);
        }
        check_name(input, expected_filename)?;
        self.check_sizes(header, input)?;
        Ok(data_start)
    }
}

} // verus!
