//! Which headers are accepted, and what they say, told by the bytes that stand in them.

use vstd::prelude::*;
use vstd::utf8::valid_utf8;

use crate::bytes::{le16, le32};
use crate::crc::crc32_of;
use crate::entry::{StoredZipEntryView, ZipEntryView};
use crate::error::{ShortRead, ZipError};
use crate::format::attribute::AttributeCompatibility;
use crate::format::compression::{Compression, CompressionLevel};
use crate::format::extra_field::{parse_all, ExtraFieldView, Zip64Wants};
use crate::format::header::{unsupported, CentralDirectoryRecord, LocalFileHeader};
use crate::law::layout::{lemma_central_header_layout, lemma_flags_are_bits, lemma_local_header_layout};
use crate::law::rules::{lemma_comment_in_header, lemma_name_without_unicode_path};
use crate::law::rules::{lemma_refused_flags, lemma_where_sizes_stand};
use crate::read::fields::{combined_sizes, zip64_field};
use crate::read::name::{comment_of, filename_of};
use crate::read::record::{cd_record_of, lfh_of, remaining_after};
use crate::string::{StringEncoding, ZipStringView};

verus! {

/// Whether a version, flags and a method are ones with which an entry can be read: no encryption, no patched data, a version
/// up to 6.3, from 2.1 on for Deflate64, and a method that is known.
pub open spec fn is_readable(version: u16, flags: u16, method: u16) -> bool {
    &&& flags & 0x2061 == 0
    &&& version % 0x100 <= 63
    &&& method == 9 ==> version % 0x100 >= 21
    &&& method == 0 || method == 8 || method == 9 || method == 12 || method == 14 || method == 93 || method == 95
}

/// What follows in a source is told by its first four bytes, and a local file header that is not all there yet is asked for.
pub proof fn lemma_local_header_by_signature(input: Seq<u8>, file_offset: u64)
    ensures
        input.len() < 4 ==> lfh_of(input, file_offset) == Err::<(Option<ZipEntryView>, nat), ZipError>(
            ZipError::UpstreamReadError(ShortRead { missing: (4 - input.len()) as usize }),
        ),
        input.len() >= 4 && le32(input, 0) == 0x0201_4b50 ==> lfh_of(input, file_offset) == Ok::<
            (Option<ZipEntryView>, nat),
            ZipError,
        >((None, 4)),
        input.len() >= 4 && le32(input, 0) != 0x0201_4b50 && le32(input, 0) != 0x0403_4b50 ==> lfh_of(input, file_offset)
            == Err::<(Option<ZipEntryView>, nat), ZipError>(ZipError::UnexpectedHeaderError(le32(input, 0), 0x0403_4b50)),
        4 <= input.len() < 30 && le32(input, 0) == 0x0403_4b50 ==> lfh_of(input, file_offset) == Err::<
            (Option<ZipEntryView>, nat),
            ZipError,
        >(ZipError::UpstreamReadError(ShortRead { missing: (30 - input.len()) as usize })),
        input.len() >= 30 && le32(input, 0) == 0x0403_4b50 && unsupported(
            le16(input, 4),
            le16(input, 6),
            le16(input, 8),
        ) is Some ==> lfh_of(input, file_offset) == Err::<(Option<ZipEntryView>, nat), ZipError>(
            unsupported(le16(input, 4), le16(input, 6), le16(input, 8))->Some_0,
        ),
{
}

/// A whole local file header that is readable is accepted where its extra fields, its sizes and its name are, unless its data
/// is stored and its sizes follow behind it: then its end cannot be told while streaming. What the entry holds stands at fixed
/// places in the header.
pub proof fn lemma_local_header_is_accepted(
    input: Seq<u8>,
    file_offset: u64,
    fields: Seq<ExtraFieldView>,
    sizes: (u64, u64),
    name: ZipStringView,
)
    requires
        input.len() >= 30 + le16(input, 26) + le16(input, 28),
        le32(input, 0) == 0x0403_4b50,
        is_readable(le16(input, 4), le16(input, 6), le16(input, 8)),
        parse_all(
            input.subrange(30 + le16(input, 26), 30 + le16(input, 26) + le16(input, 28)),
            (Zip64Wants {
                uncompressed_size: le32(input, 22) == 0xffff_ffff,
                compressed_size: le32(input, 18) == 0xffff_ffff,
                relative_header_offset: false,
                disk_start_number: false,
            }),
        ) == Ok::<Seq<ExtraFieldView>, ZipError>(fields),
        combined_sizes(le32(input, 22), le32(input, 18), zip64_field(fields)) == Ok::<(u64, u64), ZipError>(sizes),
        filename_of(
            input.subrange(30, 30 + le16(input, 26)),
            crc32_of(input.subrange(30, 30 + le16(input, 26))),
            le16(input, 6) & 0x800 != 0,
            fields,
        ) == Ok::<ZipStringView, ZipError>(name),
    ensures
        le16(input, 6) & 0x8 != 0 && le16(input, 8) == 0 ==> lfh_of(input, file_offset) == Err::<
            (Option<ZipEntryView>, nat),
            ZipError,
        >(
            ZipError::FeatureNotSupported(
                "stream reading entries with data descriptors & Stored compression mode",
            ),
        ),
        le16(input, 6) & 0x8 == 0 || le16(input, 8) != 0 ==> {
            &&& lfh_of(input, file_offset) matches Ok((Some(entry), length))
            &&& length == 30 + le16(input, 26) + le16(input, 28)
            &&& entry.filename == name
            &&& Some(entry.compression) == Compression::of_method(le16(input, 8))
            &&& entry.compression_level == CompressionLevel::Default
            &&& entry.crc32 == le32(input, 14)
            &&& entry.uncompressed_size == sizes.0
            &&& entry.compressed_size == sizes.1
            &&& entry.attribute_compatibility == AttributeCompatibility::Unix
            &&& entry.last_modification_date.time == le16(input, 10)
            &&& entry.last_modification_date.date == le16(input, 12)
            &&& entry.internal_file_attribute == 0
            &&& entry.external_file_attribute == 0
            &&& entry.extra_fields == fields
            &&& entry.comment.encoding == StringEncoding::Utf8
            &&& entry.comment.raw.len() == 0
            &&& entry.comment.alternative is None
            &&& entry.data_descriptor <==> le16(input, 6) & 0x8 != 0
            &&& entry.file_offset == file_offset
        },
{
    lemma_refused_flags(le16(input, 4), le16(input, 6), le16(input, 8));
    lemma_flags_are_bits(LocalFileHeader::at(input, 4).flags, le16(input, 6));
    lemma_local_header_layout(LocalFileHeader::at(input, 4), input, 4);
}

/// Whether `input` starts with a whole local file header that is readable, without extra fields, whose sizes fit and whose name
/// holds no NUL byte.
pub open spec fn is_plain_local_header(input: Seq<u8>) -> bool {
    &&& input.len() >= 30 + le16(input, 26)
    &&& le32(input, 0) == 0x0403_4b50
    &&& is_readable(le16(input, 4), le16(input, 6), le16(input, 8))
    &&& le32(input, 18) < 0xffff_ffff
    &&& le32(input, 22) < 0xffff_ffff
    &&& le16(input, 28) == 0
    &&& forall|i: int| 30 <= i < 30 + le16(input, 26) ==> input[i] != 0
}

/// A whole local file header that is readable, without extra fields, whose sizes fit and whose name holds no NUL byte is
/// accepted, unless its data is stored and its sizes follow behind it. Whether they do is told by the fourth of its flags, and
/// nothing else depends on it.
pub proof fn lemma_plain_local_header_is_accepted(input: Seq<u8>, file_offset: u64)
    requires
        is_plain_local_header(input),
    ensures
        lfh_of(input, file_offset) is Ok <==> !(le16(input, 6) & 0x8 != 0 && le16(input, 8) == 0),
        lfh_of(input, file_offset) matches Ok(found) ==> {
            let name = input.subrange(30, 30 + le16(input, 26));
            &&& found.0 matches Some(entry)
            &&& found.1 == 30 + le16(input, 26)
            &&& entry.data_descriptor <==> le16(input, 6) & 0x8 != 0
            &&& entry.crc32 == le32(input, 14)
            &&& entry.compressed_size == le32(input, 18)
            &&& entry.uncompressed_size == le32(input, 22)
            &&& entry.compression.method_spec() == le16(input, 8)
            &&& entry.filename.raw == name
            &&& entry.filename.alternative is None
            &&& le16(input, 6) & 0x800 != 0 ==> (entry.filename.encoding == StringEncoding::Utf8 <==> valid_utf8(name))
            &&& le16(input, 6) & 0x800 == 0 ==> (entry.filename.encoding == StringEncoding::Utf8 <==> forall|i: int|
                0 <= i < name.len() ==> #[trigger] name[i] < 0x80)
            &&& entry.extra_fields.len() == 0
        },
{
    let n = le16(input, 26) as int;
    let name = input.subrange(30, 30 + n);
    let fields = Seq::<ExtraFieldView>::empty();
    let is_utf8 = le16(input, 6) & 0x800 != 0;
    assert forall|i: int| 0 <= i < name.len() implies name[i] != 0 by {
        assert(name[i] == input[30 + i]);
    }
    lemma_name_without_unicode_path(name, crc32_of(name), is_utf8, fields);
    lemma_where_sizes_stand(le32(input, 22), le32(input, 18), zip64_field(fields));
    lemma_local_header_is_accepted(
        input,
        file_offset,
        fields,
        (le32(input, 22) as u64, le32(input, 18) as u64),
        filename_of(name, crc32_of(name), is_utf8, fields)->Ok_0,
    );
}

/// A whole local file header that is readable is refused with what is wrong with its extra fields, its sizes or its name.
pub proof fn lemma_local_header_is_refused(input: Seq<u8>, file_offset: u64)
    requires
        input.len() >= 30 + le16(input, 26) + le16(input, 28),
        le32(input, 0) == 0x0403_4b50,
        is_readable(le16(input, 4), le16(input, 6), le16(input, 8)),
    ensures
        ({
            let name = input.subrange(30, 30 + le16(input, 26));
            let fields = parse_all(
                input.subrange(30 + le16(input, 26), 30 + le16(input, 26) + le16(input, 28)),
                (Zip64Wants {
                    uncompressed_size: le32(input, 22) == 0xffff_ffff,
                    compressed_size: le32(input, 18) == 0xffff_ffff,
                    relative_header_offset: false,
                    disk_start_number: false,
                }),
            );
            let sizes = combined_sizes(le32(input, 22), le32(input, 18), zip64_field(fields->Ok_0));
            let found = filename_of(name, crc32_of(name), le16(input, 6) & 0x800 != 0, fields->Ok_0);
            &&& fields matches Err(e) ==> lfh_of(input, file_offset) == Err::<(Option<ZipEntryView>, nat), ZipError>(e)
            &&& fields is Ok ==> (sizes matches Err(e) ==> lfh_of(input, file_offset) == Err::<
                (Option<ZipEntryView>, nat),
                ZipError,
            >(e))
            &&& fields is Ok && sizes is Ok && le16(input, 6) & 0x8 != 0 && le16(input, 8) == 0 ==> lfh_of(input, file_offset)
                == Err::<(Option<ZipEntryView>, nat), ZipError>(
                ZipError::FeatureNotSupported(
                    "stream reading entries with data descriptors & Stored compression mode",
                ),
            )
            &&& fields is Ok && sizes is Ok && !(le16(input, 6) & 0x8 != 0 && le16(input, 8) == 0) ==> (found matches Err(
                e,
            ) ==> lfh_of(input, file_offset) == Err::<(Option<ZipEntryView>, nat), ZipError>(e))
        }),
{
    lemma_refused_flags(le16(input, 4), le16(input, 6), le16(input, 8));
    lemma_flags_are_bits(LocalFileHeader::at(input, 4).flags, le16(input, 6));
    lemma_local_header_layout(LocalFileHeader::at(input, 4), input, 4);
}

/// A method that is not known, and variable fields that are not all there yet, are told by the lengths in a local file header.
pub proof fn lemma_local_header_is_incomplete(input: Seq<u8>, file_offset: u64)
    requires
        input.len() >= 30,
        le32(input, 0) == 0x0403_4b50,
        unsupported(le16(input, 4), le16(input, 6), le16(input, 8)) is None,
    ensures
        input.len() < 30 + le16(input, 26) ==> lfh_of(input, file_offset) == Err::<(Option<ZipEntryView>, nat), ZipError>(
            ZipError::UpstreamReadError(ShortRead { missing: (30 + le16(input, 26) - input.len()) as usize }),
        ),
        input.len() >= 30 + le16(input, 26) && !is_readable(le16(input, 4), le16(input, 6), le16(input, 8)) ==> lfh_of(
            input,
            file_offset,
        ) == Err::<(Option<ZipEntryView>, nat), ZipError>(ZipError::CompressionNotSupported(le16(input, 8))),
        30 + le16(input, 26) <= input.len() < 30 + le16(input, 26) + le16(input, 28) && is_readable(
            le16(input, 4),
            le16(input, 6),
            le16(input, 8),
        ) ==> lfh_of(input, file_offset) == Err::<(Option<ZipEntryView>, nat), ZipError>(
            ZipError::UpstreamReadError(
                ShortRead { missing: (30 + le16(input, 26) + le16(input, 28) - input.len()) as usize },
            ),
        ),
{
    lemma_refused_flags(le16(input, 4), le16(input, 6), le16(input, 8));
    lemma_local_header_layout(LocalFileHeader::at(input, 4), input, 4);
}

/// An entry of the central directory is tried only where as many bytes of the directory remain as it takes up.
pub proof fn lemma_central_header_fits(input: Seq<u8>, remaining: u64, claimed: u64)
    ensures
        remaining < 46 ==> cd_record_of(input, remaining, claimed) == Err::<(StoredZipEntryView, nat), ZipError>(
            ZipError::InvalidCentralDirectoryEntryCount { entries: claimed },
        ),
        remaining >= 46 && input.len() < 4 ==> cd_record_of(input, remaining, claimed) == Err::<
            (StoredZipEntryView, nat),
            ZipError,
        >(ZipError::UpstreamReadError(ShortRead { missing: (4 - input.len()) as usize })),
        remaining >= 46 && input.len() >= 4 && le32(input, 0) != 0x0201_4b50 ==> cd_record_of(input, remaining, claimed)
            == Err::<(StoredZipEntryView, nat), ZipError>(ZipError::UnexpectedHeaderError(le32(input, 0), 0x0201_4b50)),
        remaining >= 46 && 4 <= input.len() < 46 && le32(input, 0) == 0x0201_4b50 ==> cd_record_of(
            input,
            remaining,
            claimed,
        ) == Err::<(StoredZipEntryView, nat), ZipError>(
            ZipError::UpstreamReadError(ShortRead { missing: (46 - input.len()) as usize }),
        ),
        remaining >= 46 && input.len() >= 46 && le32(input, 0) == 0x0201_4b50 ==> {
            let size = 46 + le16(input, 28) + le16(input, 30) + le16(input, 32);
            let error = unsupported(le16(input, 6), le16(input, 8), le16(input, 10));
            &&& error is Some ==> cd_record_of(input, remaining, claimed) == Err::<(StoredZipEntryView, nat), ZipError>(
                error->Some_0,
            )
            &&& error is None && remaining < size ==> cd_record_of(input, remaining, claimed) == Err::<
                (StoredZipEntryView, nat),
                ZipError,
            >(ZipError::InvalidCentralDirectoryEntryCount { entries: claimed })
            &&& error is None && remaining >= size ==> remaining_after(input, remaining) == remaining - size
            &&& error is Some || remaining < size ==> remaining_after(input, remaining) == remaining
        },
        remaining < 46 || input.len() < 46 || le32(input, 0) != 0x0201_4b50 ==> remaining_after(input, remaining) == remaining,
        cd_record_of(input, remaining, claimed) matches Ok((entry, length)) ==> remaining_after(input, remaining) == remaining
            - length,
{
    lemma_central_header_layout(CentralDirectoryRecord::at(input, 4), input, 4);
}

/// A method that is not known, and variable fields that are not all there yet, are told by the lengths in a central directory
/// header.
pub proof fn lemma_central_header_is_incomplete(input: Seq<u8>, remaining: u64, claimed: u64)
    requires
        input.len() >= 46,
        remaining >= 46 + le16(input, 28) + le16(input, 30) + le16(input, 32),
        le32(input, 0) == 0x0201_4b50,
        unsupported(le16(input, 6), le16(input, 8), le16(input, 10)) is None,
    ensures
        ({
            let name_end = 46 + le16(input, 28);
            let extra_end = name_end + le16(input, 30);
            let end = extra_end + le16(input, 32);
            let known = is_readable(le16(input, 6), le16(input, 8), le16(input, 10));
            &&& input.len() < name_end ==> cd_record_of(input, remaining, claimed) == Err::<
                (StoredZipEntryView, nat),
                ZipError,
            >(ZipError::UpstreamReadError(ShortRead { missing: (name_end - input.len()) as usize }))
            &&& name_end <= input.len() && !known ==> cd_record_of(input, remaining, claimed) == Err::<
                (StoredZipEntryView, nat),
                ZipError,
            >(ZipError::CompressionNotSupported(le16(input, 10)))
            &&& name_end <= input.len() < extra_end && known ==> cd_record_of(input, remaining, claimed) == Err::<
                (StoredZipEntryView, nat),
                ZipError,
            >(ZipError::UpstreamReadError(ShortRead { missing: (extra_end - input.len()) as usize }))
            &&& extra_end <= input.len() < end && known ==> (parse_all(
                input.subrange(name_end, extra_end),
                (Zip64Wants {
                    uncompressed_size: le32(input, 24) == 0xffff_ffff,
                    compressed_size: le32(input, 20) == 0xffff_ffff,
                    relative_header_offset: le32(input, 42) == 0xffff_ffff,
                    disk_start_number: le16(input, 34) == 0xffff,
                }),
            ) matches Err(e) ==> cd_record_of(input, remaining, claimed) == Err::<(StoredZipEntryView, nat), ZipError>(e))
            &&& extra_end <= input.len() < end && known ==> (parse_all(
                input.subrange(name_end, extra_end),
                (Zip64Wants {
                    uncompressed_size: le32(input, 24) == 0xffff_ffff,
                    compressed_size: le32(input, 20) == 0xffff_ffff,
                    relative_header_offset: le32(input, 42) == 0xffff_ffff,
                    disk_start_number: le16(input, 34) == 0xffff,
                }),
            ) is Ok ==> cd_record_of(input, remaining, claimed) == Err::<(StoredZipEntryView, nat), ZipError>(
                ZipError::UpstreamReadError(ShortRead { missing: (end - input.len()) as usize }),
            ))
        }),
{
    lemma_refused_flags(le16(input, 6), le16(input, 8), le16(input, 10));
    lemma_central_header_layout(CentralDirectoryRecord::at(input, 4), input, 4);
}

/// A whole entry of the central directory that is readable is accepted where its extra fields, its sizes and its name are.
/// What the entry holds stands at fixed places in the header. Only a header that refers to ZIP64 metadata for where the local
/// file header stands has that from there.
pub proof fn lemma_central_header_is_accepted(
    input: Seq<u8>,
    remaining: u64,
    claimed: u64,
    fields: Seq<ExtraFieldView>,
    sizes: (u64, u64),
    name: ZipStringView,
)
    requires
        input.len() >= 46 + le16(input, 28) + le16(input, 30) + le16(input, 32),
        remaining >= 46 + le16(input, 28) + le16(input, 30) + le16(input, 32),
        le32(input, 0) == 0x0201_4b50,
        is_readable(le16(input, 6), le16(input, 8), le16(input, 10)),
        parse_all(
            input.subrange(46 + le16(input, 28), 46 + le16(input, 28) + le16(input, 30)),
            (Zip64Wants {
                uncompressed_size: le32(input, 24) == 0xffff_ffff,
                compressed_size: le32(input, 20) == 0xffff_ffff,
                relative_header_offset: le32(input, 42) == 0xffff_ffff,
                disk_start_number: le16(input, 34) == 0xffff,
            }),
        ) == Ok::<Seq<ExtraFieldView>, ZipError>(fields),
        combined_sizes(le32(input, 24), le32(input, 20), zip64_field(fields)) == Ok::<(u64, u64), ZipError>(sizes),
        filename_of(
            input.subrange(46, 46 + le16(input, 28)),
            crc32_of(input.subrange(46, 46 + le16(input, 28))),
            le16(input, 8) & 0x800 != 0,
            fields,
        ) == Ok::<ZipStringView, ZipError>(name),
    ensures
        ({
            let comment = input.subrange(
                46 + le16(input, 28) + le16(input, 30),
                46 + le16(input, 28) + le16(input, 30) + le16(input, 32),
            );
            &&& cd_record_of(input, remaining, claimed) matches Ok((stored, length))
            &&& length == 46 + le16(input, 28) + le16(input, 30) + le16(input, 32)
            &&& stored.entry.filename == name
            &&& Some(stored.entry.compression) == Compression::of_method(le16(input, 10))
            &&& stored.entry.compression_level == CompressionLevel::Default
            &&& stored.entry.crc32 == le32(input, 16)
            &&& stored.entry.uncompressed_size == sizes.0
            &&& stored.entry.compressed_size == sizes.1
            &&& stored.entry.attribute_compatibility == AttributeCompatibility::Unix
            &&& stored.entry.last_modification_date.time == le16(input, 12)
            &&& stored.entry.last_modification_date.date == le16(input, 14)
            &&& stored.entry.internal_file_attribute == le16(input, 36)
            &&& stored.entry.external_file_attribute == le32(input, 38)
            &&& stored.entry.extra_fields == fields
            &&& stored.entry.comment == comment_of(comment, crc32_of(comment), le16(input, 8) & 0x800 != 0, fields)
            &&& stored.entry.data_descriptor <==> le16(input, 8) & 0x8 != 0
            &&& stored.entry.file_offset == stored.file_offset
            &&& stored.header_size == 30 + le16(input, 28) + le16(input, 30)
            &&& stored.data_end_boundary == u64::MAX
            &&& le32(input, 42) < 0xffff_ffff ==> stored.file_offset == le32(input, 42)
            &&& le32(input, 42) == 0xffff_ffff ==> stored.file_offset == (match zip64_field(fields) {
                Some(zip64) => match zip64.relative_header_offset {
                    Some(offset) => offset,
                    None => 0xffff_ffff,
                },
                None => 0xffff_ffff,
            })
        }),
{
    lemma_refused_flags(le16(input, 6), le16(input, 8), le16(input, 10));
    lemma_flags_are_bits(CentralDirectoryRecord::at(input, 4).flags, le16(input, 8));
    lemma_central_header_layout(CentralDirectoryRecord::at(input, 4), input, 4);
}

/// A whole entry of the central directory that is readable, without extra fields, whose sizes fit and whose name holds no NUL
/// byte is accepted.
pub proof fn lemma_plain_central_header_is_accepted(input: Seq<u8>, remaining: u64, claimed: u64)
    requires
        input.len() >= 46 + le16(input, 28) + le16(input, 32),
        remaining >= 46 + le16(input, 28) + le16(input, 32),
        le32(input, 0) == 0x0201_4b50,
        is_readable(le16(input, 6), le16(input, 8), le16(input, 10)),
        le32(input, 20) < 0xffff_ffff,
        le32(input, 24) < 0xffff_ffff,
        le16(input, 30) == 0,
        forall|i: int| 46 <= i < 46 + le16(input, 28) ==> input[i] != 0,
    ensures
        ({
            let name = input.subrange(46, 46 + le16(input, 28));
            let comment = input.subrange(46 + le16(input, 28), 46 + le16(input, 28) + le16(input, 32));
            &&& cd_record_of(input, remaining, claimed) matches Ok((stored, length))
            &&& length == 46 + le16(input, 28) + le16(input, 32)
            &&& stored.entry.filename.raw == name
            &&& stored.entry.filename.alternative is None
            &&& stored.entry.comment.raw == comment
            &&& stored.entry.comment.alternative is None
            &&& le16(input, 8) & 0x800 != 0 ==> (stored.entry.filename.encoding == StringEncoding::Utf8 <==> valid_utf8(
                name,
            )) && (stored.entry.comment.encoding == StringEncoding::Utf8 <==> valid_utf8(comment))
            &&& le16(input, 8) & 0x800 == 0 ==> (stored.entry.filename.encoding == StringEncoding::Utf8 <==> forall|
                i: int,
            |
                0 <= i < name.len() ==> #[trigger] name[i] < 0x80) && (stored.entry.comment.encoding
                == StringEncoding::Utf8 <==> forall|i: int| 0 <= i < comment.len() ==> #[trigger] comment[i] < 0x80)
            &&& stored.entry.crc32 == le32(input, 16)
            &&& stored.entry.compressed_size == le32(input, 20)
            &&& stored.entry.uncompressed_size == le32(input, 24)
            &&& stored.entry.compression.method_spec() == le16(input, 10)
            &&& stored.entry.data_descriptor <==> le16(input, 8) & 0x8 != 0
            &&& stored.file_offset == le32(input, 42)
        }),
{
    let n = le16(input, 28) as int;
    let name = input.subrange(46, 46 + n);
    let comment = input.subrange(46 + n, 46 + n + le16(input, 32));
    let fields = Seq::<ExtraFieldView>::empty();
    let is_utf8 = le16(input, 8) & 0x800 != 0;
    assert forall|i: int| 0 <= i < name.len() implies name[i] != 0 by {
        assert(name[i] == input[46 + i]);
    }
    lemma_name_without_unicode_path(name, crc32_of(name), is_utf8, fields);
    lemma_comment_in_header(comment, crc32_of(comment), is_utf8, fields);
    lemma_where_sizes_stand(le32(input, 24), le32(input, 20), zip64_field(fields));
    lemma_central_header_is_accepted(
        input,
        remaining,
        claimed,
        fields,
        (le32(input, 24) as u64, le32(input, 20) as u64),
        filename_of(name, crc32_of(name), is_utf8, fields)->Ok_0,
    );
}

/// A whole entry of the central directory is refused where its method is not known, and with what is wrong with its extra
/// fields, its sizes or its name.
pub proof fn lemma_central_header_is_refused(input: Seq<u8>, remaining: u64, claimed: u64)
    requires
        input.len() >= 46 + le16(input, 28) + le16(input, 30) + le16(input, 32),
        remaining >= 46 + le16(input, 28) + le16(input, 30) + le16(input, 32),
        le32(input, 0) == 0x0201_4b50,
        unsupported(le16(input, 6), le16(input, 8), le16(input, 10)) is None,
    ensures
        ({
            let name = input.subrange(46, 46 + le16(input, 28));
            let fields = parse_all(
                input.subrange(46 + le16(input, 28), 46 + le16(input, 28) + le16(input, 30)),
                (Zip64Wants {
                    uncompressed_size: le32(input, 24) == 0xffff_ffff,
                    compressed_size: le32(input, 20) == 0xffff_ffff,
                    relative_header_offset: le32(input, 42) == 0xffff_ffff,
                    disk_start_number: le16(input, 34) == 0xffff,
                }),
            );
            let sizes = combined_sizes(le32(input, 24), le32(input, 20), zip64_field(fields->Ok_0));
            let found = filename_of(name, crc32_of(name), le16(input, 8) & 0x800 != 0, fields->Ok_0);
            let known = is_readable(le16(input, 6), le16(input, 8), le16(input, 10));
            &&& !known ==> cd_record_of(input, remaining, claimed) == Err::<(StoredZipEntryView, nat), ZipError>(
                ZipError::CompressionNotSupported(le16(input, 10)),
            )
            &&& known ==> (fields matches Err(e) ==> cd_record_of(input, remaining, claimed) == Err::<
                (StoredZipEntryView, nat),
                ZipError,
            >(e))
            &&& known && fields is Ok ==> (sizes matches Err(e) ==> cd_record_of(input, remaining, claimed) == Err::<
                (StoredZipEntryView, nat),
                ZipError,
            >(e))
            &&& known && fields is Ok && sizes is Ok ==> (found matches Err(e) ==> cd_record_of(input, remaining, claimed)
                == Err::<(StoredZipEntryView, nat), ZipError>(e))
        }),
{
    lemma_refused_flags(le16(input, 6), le16(input, 8), le16(input, 10));
    lemma_flags_are_bits(CentralDirectoryRecord::at(input, 4).flags, le16(input, 8));
    lemma_central_header_layout(CentralDirectoryRecord::at(input, 4), input, 4);
}

} // verus!
