//! Local file headers and central directory entries, with their variable fields.
//!
//! The functions take the bytes of the source from the current position on. Where those end too early, the error tells
//! how many more bytes the next step needs: a source that hands out its bytes piece by piece can be read by calling a
//! function again with that many more bytes.

use vstd::prelude::*;
use vstd::slice::slice_subrange;

use crate::bytes::{copy_range, le16, le32, read_u32};
use crate::crc::crc32_of;
use crate::entry::{StoredZipEntry, StoredZipEntryView, ZipEntry, ZipEntryView};
use crate::error::{need, short_read, ZipError};
use crate::format::attribute::AttributeCompatibility;
use crate::format::compression::{Compression, CompressionLevel};
use crate::format::consts::{CDH_SIGNATURE, LFH_SIGNATURE, MIN_CENTRAL_DIRECTORY_ENTRY_SIZE, NON_ZIP64_MAX_SIZE};
use crate::format::date::ZipDateTime;
use crate::format::extra_field::{parse_all, parse_extra_fields, zip64_wants, ExtraFieldView};
use crate::format::header::{CentralDirectoryRecord, LocalFileHeader};
use crate::law::acceptance::{is_plain_local_header, lemma_plain_local_header_is_accepted};
use crate::read::fields::{combined_sizes, get_combined_sizes, get_zip64_extra_field, zip64_field};
use crate::read::name::{comment_of, detect_comment, detect_filename, filename_of};
use crate::string::{StringEncoding, ZipString, ZipStringView};

verus! {

/// The entry that a local file header describes.
pub open spec fn local_entry(
    header: LocalFileHeader,
    filename: ZipStringView,
    compression: Compression,
    sizes: (u64, u64),
    fields: Seq<ExtraFieldView>,
    file_offset: u64,
) -> ZipEntryView {
    ZipEntryView {
        filename,
        compression,
        compression_level: CompressionLevel::Default,
        crc32: header.crc,
        uncompressed_size: sizes.0,
        compressed_size: sizes.1,
        attribute_compatibility: AttributeCompatibility::Unix,
        last_modification_date: ZipDateTime { date: header.mod_date, time: header.mod_time },
        internal_file_attribute: 0,
        external_file_attribute: 0,
        extra_fields: fields,
        comment: ZipStringView::text(Seq::empty()),
        data_descriptor: header.flags.data_descriptor,
        file_offset,
    }
}

/// The error for entries whose end cannot be told while streaming.
pub open spec fn stored_with_descriptor() -> ZipError {
    ZipError::FeatureNotSupported("stream reading entries with data descriptors & Stored compression mode")
}

/// What a local file header, `header`, and the bytes that hold it and its variable fields, `input`, say.
pub open spec fn local_fields_of(header: LocalFileHeader, input: Seq<u8>, file_offset: u64) -> Result<
    ZipEntryView,
    ZipError,
> {
    let name_end = 30 + header.file_name_length as nat;
    let end = name_end + header.extra_field_length as nat;
    if input.len() < name_end {
        Err(short_read(input.len(), name_end))
    } else if Compression::of_method(header.compression) is None {
        Err(ZipError::CompressionNotSupported(header.compression))
    } else if input.len() < end {
        Err(short_read(input.len(), end))
    } else {
        let basic = input.subrange(30, name_end as int);
        let compression = Compression::of_method(header.compression)->Some_0;
        match parse_all(
            input.subrange(name_end as int, end as int),
            zip64_wants(header.uncompressed_size, header.compressed_size, None, None),
        ) {
            Err(e) => Err(e),
            Ok(fields) => match combined_sizes(
                header.uncompressed_size,
                header.compressed_size,
                zip64_field(fields),
            ) {
                Err(e) => Err(e),
                Ok(sizes) => if header.flags.data_descriptor && compression == Compression::Stored {
                    Err(stored_with_descriptor())
                } else {
                    match filename_of(basic, crc32_of(basic), header.flags.filename_unicode, fields) {
                        Err(e) => Err(e),
                        Ok(filename) => Ok(local_entry(header, filename, compression, sizes, fields, file_offset)),
                    }
                },
            },
        }
    }
}

/// What a source that continues with `input` holds next, and how long that is: a local file header, or the beginning
/// of the central directory (`None`).
pub open spec fn lfh_of(input: Seq<u8>, file_offset: u64) -> Result<(Option<ZipEntryView>, nat), ZipError> {
    if input.len() < 4 {
        Err(short_read(input.len(), 4))
    } else if le32(input, 0) == CDH_SIGNATURE {
        Ok((None, 4))
    } else if le32(input, 0) != LFH_SIGNATURE {
        Err(ZipError::UnexpectedHeaderError(le32(input, 0), LFH_SIGNATURE))
    } else if input.len() < 30 {
        Err(short_read(input.len(), 30))
    } else {
        match LocalFileHeader::read_at(input, 4) {
            Err(e) => Err(e),
            Ok(header) => match local_fields_of(header, input, file_offset) {
                Err(e) => Err(e),
                Ok(entry) => Ok(
                    (Some(entry), 30 + header.file_name_length as nat + header.extra_field_length as nat),
                ),
            },
        }
    }
}

/// The entry that a central directory header describes.
pub open spec fn central_entry(
    header: CentralDirectoryRecord,
    filename: ZipStringView,
    compression: Compression,
    sizes: (u64, u64),
    fields: Seq<ExtraFieldView>,
    comment: ZipStringView,
) -> StoredZipEntryView {
    let file_offset = match zip64_field(fields) {
        Some(zip64) if header.lh_offset == NON_ZIP64_MAX_SIZE && zip64.relative_header_offset is Some =>
            zip64.relative_header_offset->Some_0,
        _ => header.lh_offset as u64,
    };
    StoredZipEntryView {
        entry: ZipEntryView {
            filename,
            compression,
            compression_level: CompressionLevel::Default,
            crc32: header.crc,
            uncompressed_size: sizes.0,
            compressed_size: sizes.1,
            attribute_compatibility: AttributeCompatibility::Unix,
            last_modification_date: ZipDateTime { date: header.mod_date, time: header.mod_time },
            internal_file_attribute: header.inter_attr,
            external_file_attribute: header.exter_attr,
            extra_fields: fields,
            comment,
            data_descriptor: header.flags.data_descriptor,
            file_offset,
        },
        file_offset,
        header_size: (30 + header.file_name_length + header.extra_field_length) as u64,
        data_end_boundary: u64::MAX,
    }
}

/// What a central directory header, `header`, and the bytes that hold it and its variable fields, `input`, say.
pub open spec fn central_fields_of(header: CentralDirectoryRecord, input: Seq<u8>) -> Result<
    StoredZipEntryView,
    ZipError,
> {
    let name_end = 46 + header.file_name_length as nat;
    let extra_end = name_end + header.extra_field_length as nat;
    let end = extra_end + header.file_comment_length as nat;
    if input.len() < name_end {
        Err(short_read(input.len(), name_end))
    } else if Compression::of_method(header.compression) is None {
        Err(ZipError::CompressionNotSupported(header.compression))
    } else if input.len() < extra_end {
        Err(short_read(input.len(), extra_end))
    } else {
        let basic = input.subrange(46, name_end as int);
        let compression = Compression::of_method(header.compression)->Some_0;
        match parse_all(
            input.subrange(name_end as int, extra_end as int),
            zip64_wants(
                header.uncompressed_size,
                header.compressed_size,
                Some(header.lh_offset),
                Some(header.disk_start),
            ),
        ) {
            Err(e) => Err(e),
            Ok(fields) => if input.len() < end {
                Err(short_read(input.len(), end))
            } else {
                let basic_comment = input.subrange(extra_end as int, end as int);
                let unicode = header.flags.filename_unicode;
                match combined_sizes(header.uncompressed_size, header.compressed_size, zip64_field(fields)) {
                    Err(e) => Err(e),
                    Ok(sizes) => match filename_of(basic, crc32_of(basic), unicode, fields) {
                        Err(e) => Err(e),
                        Ok(filename) => Ok(
                            central_entry(
                                header,
                                filename,
                                compression,
                                sizes,
                                fields,
                                comment_of(basic_comment, crc32_of(basic_comment), unicode, fields),
                            ),
                        ),
                    },
                }
            },
        }
    }
}

/// What entry stands at the beginning of `input`, and how long it is, where `remaining` bytes of the central directory
/// remain, which claims to hold `claimed_entries` entries in all.
pub open spec fn cd_record_of(input: Seq<u8>, remaining: u64, claimed_entries: u64) -> Result<
    (StoredZipEntryView, nat),
    ZipError,
> {
    if remaining < MIN_CENTRAL_DIRECTORY_ENTRY_SIZE {
        Err(ZipError::InvalidCentralDirectoryEntryCount { entries: claimed_entries })
    } else if input.len() < 4 {
        Err(short_read(input.len(), 4))
    } else if le32(input, 0) != CDH_SIGNATURE {
        Err(ZipError::UnexpectedHeaderError(le32(input, 0), CDH_SIGNATURE))
    } else if input.len() < 46 {
        Err(short_read(input.len(), 46))
    } else {
        match CentralDirectoryRecord::read_at(input, 4) {
            Err(e) => Err(e),
            Ok(header) => if remaining < header.entry_size() {
                Err(ZipError::InvalidCentralDirectoryEntryCount { entries: claimed_entries })
            } else {
                match central_fields_of(header, input) {
                    Err(e) => Err(e),
                    Ok(entry) => Ok((entry, header.entry_size())),
                }
            },
        }
    }
}

/// How many bytes of the central directory remain once the entry at the beginning of `input` has been tried: its size is
/// taken off as soon as its fixed fields have been accepted, whatever comes of its variable fields.
pub open spec fn remaining_after(input: Seq<u8>, remaining: u64) -> u64 {
    let header = CentralDirectoryRecord::at(input, 4);
    if remaining >= MIN_CENTRAL_DIRECTORY_ENTRY_SIZE && input.len() >= 46 && le32(input, 0) == CDH_SIGNATURE
        && CentralDirectoryRecord::read_at(input, 4) is Ok && remaining >= header.entry_size() {
        (remaining - header.entry_size()) as u64
    } else {
        remaining
    }
}

/// Reads the variable fields of a local file header.
fn local_fields(header: LocalFileHeader, input: &[u8], file_offset: u64) -> (r: Result<ZipEntry, ZipError>)
    requires
        input@.len() >= 30,
    ensures
        match local_fields_of(header, input@, file_offset) {
            Ok(entry) => r is Ok && r->Ok_0@ == entry,
            Err(e) => r == Err::<ZipEntry, ZipError>(e),
        },
{
    let name_end: usize = 30 + header.file_name_length as usize;
    let end: usize = name_end + header.extra_field_length as usize;
    need(input, name_end)?;
    let filename_basic = copy_range(input, 30, name_end);
    let compression = Compression::from_method(header.compression)?;
    need(input, end)?;
    let extra_field = slice_subrange(input, name_end, end);
    let extra_fields = parse_extra_fields(
        extra_field,
        header.uncompressed_size,
        header.compressed_size,
        None,
        None,
    )?;
    let zip64_extra_field = get_zip64_extra_field(extra_fields.as_slice());
    let (uncompressed_size, compressed_size) = get_combined_sizes(
        header.uncompressed_size,
        header.compressed_size,
        &zip64_extra_field,
    )?;
    if header.flags.data_descriptor && compression == Compression::Stored {
        return Err(
            ZipError::FeatureNotSupported("stream reading entries with data descriptors & Stored compression mode"),
        );
    }
    let filename = detect_filename(filename_basic, header.flags.filename_unicode, extra_fields.as_slice())?;
    let entry = ZipEntry {
        filename,
        compression,
        compression_level: CompressionLevel::Default,
        attribute_compatibility: AttributeCompatibility::Unix,
        crc32: header.crc,
        uncompressed_size,
        compressed_size,
        last_modification_date: ZipDateTime { date: header.mod_date, time: header.mod_time },
        internal_file_attribute: 0,
        external_file_attribute: 0,
        extra_fields,
        comment: ZipString::new(Vec::new(), StringEncoding::Utf8),
        data_descriptor: header.flags.data_descriptor,
        file_offset,
    };
    Ok(entry)
}

/// Reads what comes next in a source that is read from its beginning to its end: a local file header, or `None` where
/// the central directory begins. Beside it comes the number of bytes that it takes up.
pub fn lfh(input: &[u8], file_offset: u64) -> (r: Result<(Option<ZipEntry>, usize), ZipError>)
    ensures
        match lfh_of(input@, file_offset) {
            Ok((entry, length)) => {
                &&& r is Ok
                &&& r->Ok_0.1 == length <= input@.len()
                &&& match entry {
                    Some(entry) => r->Ok_0.0 is Some && r->Ok_0.0->Some_0@ == entry,
                    None => r->Ok_0.0 is None,
                }
            },
            Err(e) => r == Err::<(Option<ZipEntry>, usize), ZipError>(e),
        },
        is_plain_local_header(input@) ==> (r is Ok <==> !(le16(input@, 6) & 0x8 != 0 && le16(input@, 8) == 0)),
        is_plain_local_header(input@) && r is Ok ==> {
            &&& r->Ok_0.1 == 30 + le16(input@, 26)
            &&& r->Ok_0.0 matches Some(entry)
            &&& entry@.data_descriptor <==> le16(input@, 6) & 0x8 != 0
            &&& entry@.compressed_size == le32(input@, 18)
            &&& entry@.uncompressed_size == le32(input@, 22)
            &&& entry@.filename.raw == input@.subrange(30, 30 + le16(input@, 26))
        },
{
    proof {
        if is_plain_local_header(input@) {
            lemma_plain_local_header_is_accepted(input@, file_offset);
        }
    }
    need(input, 4)?;
    let signature: u32 = read_u32(input, 0);
    if signature == CDH_SIGNATURE {
        return Ok((None, 4));
    }
    if signature != LFH_SIGNATURE {
        return Err(ZipError::UnexpectedHeaderError(signature, LFH_SIGNATURE));
    }
    need(input, 30)?;
    let header = LocalFileHeader::from_bytes(input, 4)?;
    let entry = local_fields(header, input, file_offset)?;
    Ok((Some(entry), 30 + header.file_name_length as usize + header.extra_field_length as usize))
}

/// Reads the variable fields of a central directory header.
fn central_fields(header: CentralDirectoryRecord, input: &[u8]) -> (r: Result<StoredZipEntry, ZipError>)
    requires
        input@.len() >= 46,
    ensures
        match central_fields_of(header, input@) {
            Ok(entry) => r is Ok && r->Ok_0@ == entry,
            Err(e) => r == Err::<StoredZipEntry, ZipError>(e),
        },
{
    let name_end: usize = 46 + header.file_name_length as usize;
    let extra_end: usize = name_end + header.extra_field_length as usize;
    let end: usize = extra_end + header.file_comment_length as usize;
    let header_size: u64 = 30 + header.file_name_length as u64 + header.extra_field_length as u64;
    need(input, name_end)?;
    let filename_basic = copy_range(input, 46, name_end);
    let compression = Compression::from_method(header.compression)?;
    need(input, extra_end)?;
    let extra_field = slice_subrange(input, name_end, extra_end);
    let extra_fields = parse_extra_fields(
        extra_field,
        header.uncompressed_size,
        header.compressed_size,
        Some(header.lh_offset),
        Some(header.disk_start),
    )?;
    need(input, end)?;
    let comment_basic = copy_range(input, extra_end, end);
    let zip64_extra_field = get_zip64_extra_field(extra_fields.as_slice());
    let (uncompressed_size, compressed_size) = get_combined_sizes(
        header.uncompressed_size,
        header.compressed_size,
        &zip64_extra_field,
    )?;
    let mut file_offset: u64 = header.lh_offset as u64;
    if let Some(zip64) = zip64_extra_field {
        if header.lh_offset == NON_ZIP64_MAX_SIZE {
            if let Some(offset) = zip64.relative_header_offset {
                file_offset = offset;
            }
        }
    }
    let filename = detect_filename(filename_basic, header.flags.filename_unicode, extra_fields.as_slice())?;
    let comment = detect_comment(comment_basic, header.flags.filename_unicode, extra_fields.as_slice());
    let entry = ZipEntry {
        filename,
        compression,
        compression_level: CompressionLevel::Default,
        attribute_compatibility: AttributeCompatibility::Unix,
        crc32: header.crc,
        uncompressed_size,
        compressed_size,
        last_modification_date: ZipDateTime { date: header.mod_date, time: header.mod_time },
        internal_file_attribute: header.inter_attr,
        external_file_attribute: header.exter_attr,
        extra_fields,
        comment,
        data_descriptor: header.flags.data_descriptor,
        file_offset,
    };
    Ok(StoredZipEntry { entry, file_offset, header_size, data_end_boundary: u64::MAX })
}

/// Reads an entry of the central directory, of which `remaining_directory_size` bytes remain, and takes the size of the
/// entry off those. Beside the entry comes the number of bytes that it takes up.
///
/// The size is taken off before the variable fields are read: a caller that tries the same entry again, because bytes
/// lacked, hands in the size that remained before.
pub fn cd_record(input: &[u8], _zip64: bool, remaining_directory_size: &mut u64, claimed_entries: u64) -> (r: Result<
    (StoredZipEntry, usize),
    ZipError,
>)
    ensures
        match cd_record_of(input@, *old(remaining_directory_size), claimed_entries) {
            Ok((entry, length)) => {
                &&& r is Ok
                &&& r->Ok_0.0@ == entry
                &&& r->Ok_0.1 == length <= input@.len()
                &&& length <= *old(remaining_directory_size)
            },
            Err(e) => r == Err::<(StoredZipEntry, usize), ZipError>(e),
        },
        *final(remaining_directory_size) == remaining_after(input@, *old(remaining_directory_size)),
{
    if *remaining_directory_size < MIN_CENTRAL_DIRECTORY_ENTRY_SIZE {
        return Err(ZipError::InvalidCentralDirectoryEntryCount { entries: claimed_entries });
    }
    need(input, 4)?;
    let signature: u32 = read_u32(input, 0);
    if signature != CDH_SIGNATURE {
        return Err(ZipError::UnexpectedHeaderError(signature, CDH_SIGNATURE));
    }
    need(input, 46)?;
    let header = CentralDirectoryRecord::from_bytes(input, 4)?;
    let entry_size: usize = 46 + header.file_name_length as usize + header.extra_field_length as usize
        + header.file_comment_length as usize;
    if *remaining_directory_size < entry_size as u64 {
        return Err(ZipError::InvalidCentralDirectoryEntryCount { entries: claimed_entries });
    }
    *remaining_directory_size = *remaining_directory_size - entry_size as u64;
    let entry = central_fields(header, input)?;
    Ok((entry, entry_size))
}

} // verus!
