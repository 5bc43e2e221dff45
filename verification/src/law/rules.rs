//! What single values of an archive mean.

use vstd::prelude::*;
use vstd::utf8::valid_utf8;

use crate::entry::{StoredZipEntry, ZipEntryView};
use crate::error::{Zip64ErrorCase, ZipError};
use crate::format::attribute::AttributeCompatibility;
use crate::format::compression::{Compression, CompressionLevel};
use crate::format::date::ZipDateTime;
use crate::format::end_record::{CombinedCentralDirectoryRecord, EndOfCentralDirectoryHeader};
use crate::format::end_record::Zip64EndOfCentralDirectoryRecord;
use crate::format::extra_field::{field_views, ExtraField, ExtraFieldView, InfoZipUnicodeCommentExtraField};
use crate::format::extra_field::{InfoZipUnicodePathExtraField, UnicodeFieldView, UnknownExtraField};
use crate::format::extra_field::Zip64ExtendedInformationExtraField;
use crate::format::header::{has_bit, unsupported};
use crate::format::version::{extract_version_error, method_version};
use crate::law::names::{lemma_first_unicode_comment, lemma_first_unicode_path};
use crate::law::names::{lemma_no_unicode_comment, lemma_no_unicode_path};
use crate::read::directory::{binding_error, entry_views, is_oversized, planned_capacity, range_error};
use crate::read::fields::{combined_sizes, lemma_zip64_index, lemma_zip64_index_is, zip64_field};
use crate::read::name::{comment_of, filename_of};
use crate::string::{StringEncoding, ZipStringView};
use crate::write::archive::{written_views, CentralDirectoryEntry};

verus! {

/// Only the low byte of a version counts. Versions up to 6.3 are accepted; Deflate64 needs version 2.1 at least, and no other
/// method is held to a least version.
pub proof fn lemma_accepted_versions(raw_version: u16, compression: u16)
    ensures
        compression != 9 ==> (extract_version_error(raw_version, compression) is None <==> raw_version % 0x100 <= 63),
        compression == 9 ==> (extract_version_error(raw_version, compression) is None <==> 21 <= raw_version % 0x100 <= 63),
        raw_version % 0x100 > 63 ==> extract_version_error(raw_version, compression) == Some(
            ZipError::FeatureNotSupported("zip file version > 6.3"),
        ),
        compression == 9 && raw_version % 0x100 < 21 ==> extract_version_error(raw_version, compression) == Some(
            ZipError::InvalidCompressionVersion { version: raw_version % 0x100, required: 21, compression: 9 },
        ),
        forall|high: u16|
            high % 0x100 == raw_version % 0x100 ==> #[trigger] extract_version_error(high, compression)
                == extract_version_error(raw_version, compression),
{
}

/// An entry is refused for four of its flags, those of encryption and of patched data, and else only for its version.
pub proof fn lemma_refused_flags(version: u16, flags: u16, compression: u16)
    ensures
        flags & 0x40 != 0 ==> unsupported(version, flags, compression) == Some(
            ZipError::FeatureNotSupported("strong encryption"),
        ),
        flags & 0x40 == 0 && flags & 0x2001 != 0 ==> unsupported(version, flags, compression) == Some(
            ZipError::FeatureNotSupported("encryption"),
        ),
        flags & 0x2041 == 0 && flags & 0x20 != 0 ==> unsupported(version, flags, compression) == Some(
            ZipError::FeatureNotSupported("compressed patched data"),
        ),
        flags & 0x2061 == 0 ==> unsupported(version, flags, compression) == extract_version_error(version, compression),
        unsupported(version, flags, compression) is None <==> {
            &&& flags & 0x2061 == 0
            &&& version % 0x100 <= 63
            &&& compression == 9 ==> version % 0x100 >= 21
        },
{
    assert((flags / 0x1) % 2 == 1 <==> flags & 0x1 != 0) by (bit_vector);
    assert((flags / 0x20) % 2 == 1 <==> flags & 0x20 != 0) by (bit_vector);
    assert((flags / 0x40) % 2 == 1 <==> flags & 0x40 != 0) by (bit_vector);
    assert((flags / 0x2000) % 2 == 1 <==> flags & 0x2000 != 0) by (bit_vector);
    assert(flags & 0x2001 == 0 <==> flags & 0x1 == 0 && flags & 0x2000 == 0) by (bit_vector);
    assert(flags & 0x2041 == 0 <==> flags & 0x2001 == 0 && flags & 0x40 == 0) by (bit_vector);
    assert(flags & 0x2061 == 0 <==> flags & 0x2041 == 0 && flags & 0x20 == 0) by (bit_vector);
    assert(has_bit(flags, 0x1) == ((flags / 0x1) % 2 == 1));
}

/// The methods and their numbers.
pub proof fn lemma_method_numbers(method: u16)
    ensures
        Compression::of_method(0) == Some(Compression::Stored),
        Compression::of_method(8) == Some(Compression::Deflate),
        Compression::of_method(9) == Some(Compression::Deflate64),
        Compression::of_method(12) == Some(Compression::Bz),
        Compression::of_method(14) == Some(Compression::Lzma),
        Compression::of_method(93) == Some(Compression::Zstd),
        Compression::of_method(95) == Some(Compression::Xz),
        Compression::of_method(method) is Some <==> method == 0 || method == 8 || method == 9 || method == 12 || method == 14
            || method == 93 || method == 95,
        Compression::of_method(method) matches Some(compression) ==> compression.method_spec() == method,
{
}

/// An entry whose name is text is a directory exactly when the last byte of its name is a slash. No other entry is one.
pub proof fn lemma_trailing_slash_makes_directory(entry: ZipEntryView, front: Seq<u8>, last: u8)
    ensures
        entry.filename.encoding == StringEncoding::Utf8 && entry.filename.raw == front.push(last) ==> (entry.is_dir()
            <==> last == 0x2f),
        entry.filename.raw.len() == 0 ==> !entry.is_dir(),
        entry.filename.encoding == StringEncoding::Raw ==> !entry.is_dir(),
{
}

/// The least versions of the methods.
pub proof fn lemma_method_versions(method: u16)
    ensures
        method_version(8) == 20,
        method_version(9) == 21,
        method_version(12) == 46,
        method_version(14) == 63,
        method != 8 && method != 9 && method != 12 && method != 14 ==> method_version(method) == 10,
{
}

/// The version that an entry needs: that of its method, but for a directory at least version 2.0.
pub proof fn lemma_needed_versions(entry: ZipEntryView)
    ensures
        entry.compression == Compression::Stored || entry.compression == Compression::Zstd || entry.compression
            == Compression::Xz ==> entry.version_needed() == (if entry.is_dir() {
            20
        } else {
            10u16
        }),
        entry.compression == Compression::Deflate ==> entry.version_needed() == 20,
        entry.compression == Compression::Deflate64 ==> entry.version_needed() == 21,
        entry.compression == Compression::Bz ==> entry.version_needed() == 46,
        entry.compression == Compression::Lzma ==> entry.version_needed() == 63,
        extract_version_error(entry.version_needed(), entry.compression.method_spec()) is None,
{
}

/// What is known of a new entry.
pub proof fn lemma_new_entry(filename: ZipStringView, compression: Compression)
    ensures
        ({
            let entry = ZipEntryView::fresh(filename, compression);
            &&& entry.filename == filename
            &&& entry.compression == compression
            &&& entry.compression_level == CompressionLevel::Default
            &&& entry.crc32 == 0
            &&& entry.uncompressed_size == 0
            &&& entry.compressed_size == 0
            &&& entry.attribute_compatibility == AttributeCompatibility::Unix
            &&& entry.last_modification_date == ZipDateTime { date: 0x21, time: 0 }
            &&& entry.internal_file_attribute == 0
            &&& entry.external_file_attribute == 0
            &&& entry.extra_fields == Seq::<ExtraFieldView>::empty()
            &&& entry.comment.encoding == StringEncoding::Utf8
            &&& entry.comment.raw == Seq::<u8>::empty()
            &&& entry.comment.alternative is None
            &&& !entry.data_descriptor
            &&& entry.file_offset == 0
        }),
{
}

/// A string keeps its bytes whatever it is taken for. It is taken for text exactly when it is said to be UTF-8 and is.
pub proof fn lemma_strings_keep_bytes(raw: Seq<u8>, encoding: StringEncoding)
    ensures
        ({
            let string = ZipStringView::decoded(raw, encoding);
            &&& string.raw == raw
            &&& string.alternative is None
            &&& string.basic() == raw
            &&& string.encoding == StringEncoding::Utf8 <==> encoding == StringEncoding::Utf8 && valid_utf8(raw)
            &&& string.wf()
        }),
{
}

/// A name that contains a NUL byte is refused, whatever the extra fields say.
pub proof fn lemma_nul_is_refused(basic: Seq<u8>, crc32: u32, is_utf8: bool, fields: Seq<ExtraFieldView>, i: int)
    requires
        0 <= i < basic.len(),
        basic[i] == 0,
    ensures
        filename_of(basic, crc32, is_utf8, fields) == Err::<ZipStringView, ZipError>(ZipError::FileNameContainsNul),
{
    assert(basic.contains(basic[i]));
}

/// The name of an entry without a Unicode path for it is what stands in its header: text where it is said to be UTF-8 and is,
/// or where it is not said to be UTF-8 and is ASCII, and bytes in all other cases.
pub proof fn lemma_name_without_unicode_path(basic: Seq<u8>, crc32: u32, is_utf8: bool, fields: Seq<ExtraFieldView>)
    requires
        forall|i: int| 0 <= i < basic.len() ==> basic[i] != 0,
        forall|i: int|
            0 <= i < fields.len() ==> !((#[trigger] fields[i]) matches ExtraFieldView::InfoZipUnicodePath(
                UnicodeFieldView::V1 { crc32: replaced, unicode },
            ) && unicode.len() > 0 && replaced == crc32),
    ensures
        filename_of(basic, crc32, is_utf8, fields) matches Ok(name) && {
            &&& name.raw == basic
            &&& name.alternative is None
            &&& is_utf8 ==> (name.encoding == StringEncoding::Utf8 <==> valid_utf8(basic))
            &&& !is_utf8 ==> (name.encoding == StringEncoding::Utf8 <==> forall|i: int|
                0 <= i < basic.len() ==> #[trigger] basic[i] < 0x80)
        },
{
    lemma_no_unicode_path(fields, crc32);
}

/// The first Unicode path that is not empty and carries the checksum of the name in the header takes that name's place, which
/// is kept beside it, whether or not the name in the header is said to be UTF-8. It must be UTF-8 and without a NUL byte.
pub proof fn lemma_unicode_path_takes_precedence(
    basic: Seq<u8>,
    crc32: u32,
    is_utf8: bool,
    fields: Seq<ExtraFieldView>,
    k: int,
    unicode: Seq<u8>,
)
    requires
        forall|i: int| 0 <= i < basic.len() ==> basic[i] != 0,
        0 <= k < fields.len(),
        fields[k] == ExtraFieldView::InfoZipUnicodePath(UnicodeFieldView::V1 { crc32, unicode }),
        unicode.len() > 0,
        forall|i: int|
            0 <= i < k ==> !((#[trigger] fields[i]) matches ExtraFieldView::InfoZipUnicodePath(
                UnicodeFieldView::V1 { crc32: replaced, unicode },
            ) && unicode.len() > 0 && replaced == crc32),
    ensures
        !valid_utf8(unicode) ==> filename_of(basic, crc32, is_utf8, fields) == Err::<ZipStringView, ZipError>(
            ZipError::InfoZipUnicodePathFieldInvalidUtf8,
        ),
        valid_utf8(unicode) && unicode.contains(0) ==> filename_of(basic, crc32, is_utf8, fields) == Err::<
            ZipStringView,
            ZipError,
        >(ZipError::FileNameContainsNul),
        valid_utf8(unicode) && !unicode.contains(0) ==> {
            &&& filename_of(basic, crc32, is_utf8, fields) matches Ok(name)
            &&& name.encoding == StringEncoding::Utf8
            &&& name.raw == unicode
            &&& name.alternative == Some(basic)
        },
{
    lemma_first_unicode_path(fields, crc32, k);
}

/// A comment that is said to be UTF-8 is what stands in the header, whatever the extra fields say, and so is one without a
/// Unicode comment for it.
pub proof fn lemma_comment_in_header(basic: Seq<u8>, crc32: u32, is_utf8: bool, fields: Seq<ExtraFieldView>)
    requires
        is_utf8 || forall|i: int|
            0 <= i < fields.len() ==> !((#[trigger] fields[i]) matches ExtraFieldView::InfoZipUnicodeComment(
                UnicodeFieldView::V1 { crc32: replaced, unicode },
            ) && replaced == crc32),
    ensures
        comment_of(basic, crc32, is_utf8, fields).raw == basic,
        comment_of(basic, crc32, is_utf8, fields).alternative is None,
        is_utf8 ==> (comment_of(basic, crc32, is_utf8, fields).encoding == StringEncoding::Utf8 <==> valid_utf8(basic)),
        !is_utf8 ==> (comment_of(basic, crc32, is_utf8, fields).encoding == StringEncoding::Utf8 <==> forall|i: int|
            0 <= i < basic.len() ==> #[trigger] basic[i] < 0x80),
{
    if !is_utf8 {
        lemma_no_unicode_comment(fields, crc32);
    }
}

/// The first Unicode comment that carries the checksum of a comment which is not said to be UTF-8 takes its place where it is
/// UTF-8, and is passed over where it is not.
pub proof fn lemma_unicode_comment_takes_place(
    basic: Seq<u8>,
    crc32: u32,
    fields: Seq<ExtraFieldView>,
    k: int,
    unicode: Seq<u8>,
)
    requires
        0 <= k < fields.len(),
        fields[k] == ExtraFieldView::InfoZipUnicodeComment(UnicodeFieldView::V1 { crc32, unicode }),
        forall|i: int|
            0 <= i < k ==> !((#[trigger] fields[i]) matches ExtraFieldView::InfoZipUnicodeComment(
                UnicodeFieldView::V1 { crc32: replaced, unicode },
            ) && replaced == crc32),
    ensures
        valid_utf8(unicode) ==> {
            let comment = comment_of(basic, crc32, false, fields);
            &&& comment.encoding == StringEncoding::Utf8
            &&& comment.raw == unicode
            &&& comment.alternative == Some(basic)
        },
        !valid_utf8(unicode) ==> {
            let comment = comment_of(basic, crc32, false, fields);
            &&& comment.raw == basic
            &&& comment.alternative is None
            &&& comment.encoding == StringEncoding::Utf8 <==> forall|i: int|
                0 <= i < basic.len() ==> #[trigger] basic[i] < 0x80
        },
{
    lemma_first_unicode_comment(fields, crc32, k);
}

/// The ZIP64 extended information of a header is the first such field, if there is one.
pub proof fn lemma_first_zip64_field_counts(fields: Seq<ExtraFieldView>, k: int, zip64: Zip64ExtendedInformationExtraField)
    ensures
        (forall|i: int| 0 <= i < fields.len() ==> !(#[trigger] fields[i] is Zip64ExtendedInformation)) ==> zip64_field(fields)
            is None,
        0 <= k < fields.len() && fields[k] == ExtraFieldView::Zip64ExtendedInformation(zip64) && (forall|i: int|
            0 <= i < k ==> !(#[trigger] fields[i] is Zip64ExtendedInformation)) ==> zip64_field(fields) == Some(zip64),
{
    lemma_zip64_index(fields);
    if 0 <= k < fields.len() && fields[k] == ExtraFieldView::Zip64ExtendedInformation(zip64) && (forall|i: int|
        0 <= i < k ==> !(#[trigger] fields[i] is Zip64ExtendedInformation)) {
        lemma_zip64_index_is(fields, k);
    }
}

/// A size that fits in the header is read from there, whatever the ZIP64 extended information says; one that does not is read
/// from there, and must be there.
pub proof fn lemma_where_sizes_stand(uncompressed: u32, compressed: u32, zip64: Option<Zip64ExtendedInformationExtraField>)
    ensures
        uncompressed < 0xffff_ffff && compressed < 0xffff_ffff ==> combined_sizes(uncompressed, compressed, zip64) == Ok::<
            (u64, u64),
            ZipError,
        >((uncompressed as u64, compressed as u64)),
        combined_sizes(uncompressed, compressed, zip64) matches Ok(sizes) ==> {
            &&& uncompressed < 0xffff_ffff ==> sizes.0 == uncompressed
            &&& compressed < 0xffff_ffff ==> sizes.1 == compressed
            &&& uncompressed == 0xffff_ffff ==> zip64 is Some && zip64->Some_0.uncompressed_size == Some(sizes.0)
            &&& compressed == 0xffff_ffff ==> zip64 is Some && zip64->Some_0.compressed_size == Some(sizes.1)
        },
        combined_sizes(uncompressed, compressed, zip64) is Err ==> {
            &&& combined_sizes(uncompressed, compressed, zip64)->Err_0 == ZipError::Zip64ExtendedFieldIncomplete
            &&& {
                ||| uncompressed == 0xffff_ffff && (zip64 is None || zip64->Some_0.uncompressed_size is None)
                ||| compressed == 0xffff_ffff && (zip64 is None || zip64->Some_0.compressed_size is None)
            }
        },
{
}

/// An end record without a ZIP64 counterpart speaks for itself, unless a disk, the size or the offset in it refers to ZIP64
/// metadata. A count of entries never does.
pub proof fn lemma_legacy_end_record(eocdr: EndOfCentralDirectoryHeader)
    ensures
        CombinedCentralDirectoryRecord::of_legacy(eocdr) is Ok <==> {
            &&& eocdr.disk_num < 0xffff
            &&& eocdr.start_cent_dir_disk < 0xffff
            &&& eocdr.size_cent_dir < 0xffff_ffff
            &&& eocdr.cent_dir_offset < 0xffff_ffff
        },
        CombinedCentralDirectoryRecord::of_legacy(eocdr) matches Ok(record) ==> {
            &&& record.disk_number == eocdr.disk_num
            &&& record.disk_number_start_of_cd == eocdr.start_cent_dir_disk
            &&& record.num_entries_in_directory_on_disk == eocdr.num_of_entries_disk
            &&& record.num_entries_in_directory == eocdr.num_of_entries
            &&& record.directory_size == eocdr.size_cent_dir
            &&& record.offset_of_start_of_directory == eocdr.cent_dir_offset
        },
        CombinedCentralDirectoryRecord::of_legacy(eocdr) matches Err(e) ==> e
            == ZipError::MissingZip64EndOfCentralDirectoryLocator,
{
}

/// Where there is a ZIP64 end record, it counts. Each field of the other must agree with it or hold the greatest number that
/// fits there.
pub proof fn lemma_zip64_end_record_counts(eocdr: EndOfCentralDirectoryHeader, zip64: Zip64EndOfCentralDirectoryRecord)
    ensures
        CombinedCentralDirectoryRecord::of_both(eocdr, zip64) is Ok <==> {
            &&& eocdr.disk_num == 0xffff || eocdr.disk_num == zip64.disk_number
            &&& eocdr.start_cent_dir_disk == 0xffff || eocdr.start_cent_dir_disk == zip64.disk_number_start_of_cd
            &&& eocdr.num_of_entries_disk == 0xffff || eocdr.num_of_entries_disk
                == zip64.num_entries_in_directory_on_disk
            &&& eocdr.num_of_entries == 0xffff || eocdr.num_of_entries == zip64.num_entries_in_directory
            &&& eocdr.size_cent_dir == 0xffff_ffff || eocdr.size_cent_dir == zip64.directory_size
            &&& eocdr.cent_dir_offset == 0xffff_ffff || eocdr.cent_dir_offset == zip64.offset_of_start_of_directory
        },
        CombinedCentralDirectoryRecord::of_both(eocdr, zip64) matches Ok(record) ==> {
            &&& record.disk_number == zip64.disk_number
            &&& record.disk_number_start_of_cd == zip64.disk_number_start_of_cd
            &&& record.num_entries_in_directory_on_disk == zip64.num_entries_in_directory_on_disk
            &&& record.num_entries_in_directory == zip64.num_entries_in_directory
            &&& record.directory_size == zip64.directory_size
            &&& record.offset_of_start_of_directory == zip64.offset_of_start_of_directory
        },
        CombinedCentralDirectoryRecord::of_both(eocdr, zip64) matches Err(e) ==> e
            is MismatchedZip64EndOfCentralDirectoryField,
{
}

/// The first field in which the two end records contradict each other is reported, with what each of them says.
pub proof fn lemma_first_contradiction_is_told(eocdr: EndOfCentralDirectoryHeader, zip64: Zip64EndOfCentralDirectoryRecord)
    ensures
        ({
            let disk = eocdr.disk_num != 0xffff && eocdr.disk_num != zip64.disk_number;
            let start_disk = eocdr.start_cent_dir_disk != 0xffff && eocdr.start_cent_dir_disk
                != zip64.disk_number_start_of_cd;
            let on_disk = eocdr.num_of_entries_disk != 0xffff && eocdr.num_of_entries_disk
                != zip64.num_entries_in_directory_on_disk;
            let entries = eocdr.num_of_entries != 0xffff && eocdr.num_of_entries != zip64.num_entries_in_directory;
            let size = eocdr.size_cent_dir != 0xffff_ffff && eocdr.size_cent_dir != zip64.directory_size;
            let offset = eocdr.cent_dir_offset != 0xffff_ffff && eocdr.cent_dir_offset
                != zip64.offset_of_start_of_directory;
            let error = CombinedCentralDirectoryRecord::of_both(eocdr, zip64)->Err_0;
            &&& disk ==> error == (ZipError::MismatchedZip64EndOfCentralDirectoryField {
                field: "disk number",
                legacy: eocdr.disk_num as u64,
                zip64: zip64.disk_number as u64,
            })
            &&& !disk && start_disk ==> error == (ZipError::MismatchedZip64EndOfCentralDirectoryField {
                field: "central directory start disk",
                legacy: eocdr.start_cent_dir_disk as u64,
                zip64: zip64.disk_number_start_of_cd as u64,
            })
            &&& !disk && !start_disk && on_disk ==> error == (ZipError::MismatchedZip64EndOfCentralDirectoryField {
                field: "number of entries on this disk",
                legacy: eocdr.num_of_entries_disk as u64,
                zip64: zip64.num_entries_in_directory_on_disk,
            })
            &&& !disk && !start_disk && !on_disk && entries ==> error
                == (ZipError::MismatchedZip64EndOfCentralDirectoryField {
                field: "number of entries",
                legacy: eocdr.num_of_entries as u64,
                zip64: zip64.num_entries_in_directory,
            })
            &&& !disk && !start_disk && !on_disk && !entries && size ==> error
                == (ZipError::MismatchedZip64EndOfCentralDirectoryField {
                field: "central directory size",
                legacy: eocdr.size_cent_dir as u64,
                zip64: zip64.directory_size,
            })
            &&& !disk && !start_disk && !on_disk && !entries && !size && offset ==> error
                == (ZipError::MismatchedZip64EndOfCentralDirectoryField {
                field: "central directory offset",
                legacy: eocdr.cent_dir_offset as u64,
                zip64: zip64.offset_of_start_of_directory,
            })
        }),
{
}

/// A central directory may end where the end record begins or before, for its range to be valid, and only there, for it to be
/// bound to the end record.
pub proof fn lemma_directory_ends(record: CombinedCentralDirectoryRecord, boundary: u64)
    ensures
        range_error(record, boundary) is None <==> record.offset_of_start_of_directory + record.directory_size <= boundary,
        binding_error(record, boundary) is None <==> record.offset_of_start_of_directory + record.directory_size == boundary,
        range_error(record, boundary) matches Some(e) ==> e == (ZipError::InvalidCentralDirectoryRange {
            start: record.offset_of_start_of_directory,
            end: if record.offset_of_start_of_directory + record.directory_size > u64::MAX {
                u64::MAX
            } else {
                (record.offset_of_start_of_directory + record.directory_size) as u64
            },
            boundary,
        }),
        binding_error(record, boundary) matches Some(e) ==> e == (ZipError::InvalidCentralDirectoryBinding {
            directory_end: if record.offset_of_start_of_directory + record.directory_size > u64::MAX {
                u64::MAX
            } else {
                (record.offset_of_start_of_directory + record.directory_size) as u64
            },
            end_record: boundary,
        }),
{
}

/// Room is made for no more entries than there are bytes before the directory. It cannot be had beyond the greatest size of an
/// allocation.
pub proof fn lemma_planned_room(count: usize, directory_start: u64)
    ensures
        planned_capacity(count, directory_start) <= directory_start,
        count <= directory_start ==> planned_capacity(count, directory_start) == count,
        count > directory_start ==> planned_capacity(count, directory_start) == 0,
        is_oversized(count, directory_start) <==> count <= directory_start && count * vstd::layout::size_of::<
            StoredZipEntry,
        >() > isize::MAX,
{
}

/// Sequences stand for their elements, in order.
pub proof fn lemma_sequences_are_in_order(
    fields: Seq<ExtraField>,
    entries: Seq<StoredZipEntry>,
    written: Seq<CentralDirectoryEntry>,
    i: int,
)
    ensures
        field_views(fields).len() == fields.len(),
        0 <= i < fields.len() ==> field_views(fields)[i] == fields[i]@,
        entry_views(entries).len() == entries.len(),
        0 <= i < entries.len() ==> entry_views(entries)[i] == entries[i]@,
        written_views(written).len() == written.len(),
        0 <= i < written.len() ==> written_views(written)[i].header == written[i].header && written_views(written)[i].entry
            == written[i].entry@,
{
}

/// An extra field stands for what it holds.
pub proof fn lemma_field_stands_for_content(
    zip64: Zip64ExtendedInformationExtraField,
    unknown: UnknownExtraField,
    version: u8,
    crc32: u32,
    bytes: Vec<u8>,
)
    ensures
        ExtraField::Zip64ExtendedInformation(zip64)@ == ExtraFieldView::Zip64ExtendedInformation(zip64),
        ExtraField::Unknown(unknown)@ == (ExtraFieldView::Unknown {
            header_id: unknown.header_id,
            content: unknown.content@,
        }),
        ExtraField::InfoZipUnicodePath(InfoZipUnicodePathExtraField::V1 { crc32, unicode: bytes })@
            == ExtraFieldView::InfoZipUnicodePath(UnicodeFieldView::V1 { crc32, unicode: bytes@ }),
        ExtraField::InfoZipUnicodePath(InfoZipUnicodePathExtraField::Unknown { version, data: bytes })@
            == ExtraFieldView::InfoZipUnicodePath(UnicodeFieldView::Unknown { version, data: bytes@ }),
        ExtraField::InfoZipUnicodeComment(InfoZipUnicodeCommentExtraField::V1 { crc32, unicode: bytes })@
            == ExtraFieldView::InfoZipUnicodeComment(UnicodeFieldView::V1 { crc32, unicode: bytes@ }),
        ExtraField::InfoZipUnicodeComment(InfoZipUnicodeCommentExtraField::Unknown { version, data: bytes })@
            == ExtraFieldView::InfoZipUnicodeComment(UnicodeFieldView::Unknown { version, data: bytes@ }),
{
}

/// What strings are made of.
pub proof fn lemma_string_forms(raw: Seq<u8>, alternative: Seq<u8>)
    ensures
        ({
            let text = ZipStringView::text(raw);
            let both = ZipStringView::text_with_alternative(raw, alternative);
            let bytes = ZipStringView::bytes(raw);
            &&& text.encoding == StringEncoding::Utf8 && text.raw == raw && text.alternative is None
            &&& both.encoding == StringEncoding::Utf8 && both.raw == raw && both.alternative == Some(alternative)
            &&& bytes.encoding == StringEncoding::Raw && bytes.raw == raw && bytes.alternative is None
            &&& text.basic() == raw && both.basic() == alternative && bytes.basic() == raw
            &&& text.is_plain_text() && !both.is_plain_text() && !bytes.is_plain_text()
        }),
{
}

/// What users are told where ZIP64 is needed.
pub proof fn lemma_messages(case: Zip64ErrorCase)
    ensures
        case == Zip64ErrorCase::TooManyFiles ==> case.message_spec()@ == "More than 65536 files in archive"@,
        case == Zip64ErrorCase::LargeFile ==> case.message_spec()@ == "File is larger than 4 GiB"@,
{
}

} // verus!
