//! What is written, and what is refused, told by the limits of the format.

use vstd::prelude::*;

use crate::bytes::{le32, le32_bytes, lemma_le32_reads_back};
use crate::crc::crc32_of;
use crate::entry::ZipEntryView;
use crate::error::{Zip64ErrorCase, ZipError};
use crate::format::compression::Compression;
use crate::format::extra_field::{fields_bytes, ExtraFieldView, UnicodeFieldView, Zip64ExtendedInformationExtraField};
use crate::law::layout::{lemma_central_header_layout, lemma_end_record_layout, lemma_local_header_layout};
use crate::law::layout::{lemma_locator_layout, lemma_zip64_end_record_layout};
use crate::read::fields::{lemma_zip64_index, lemma_zip64_index_is};
use crate::string::StringEncoding;
use crate::write::archive::{CentralDirectoryEntryView, ZipFileWriterView};
use crate::write::ending::directory_bytes;
use crate::write::entry_seekable::{begun, needs_zip64, ClosingEntryView, EntrySeekableWriter, EntrySeekableWriterView};
use crate::write::fields::{comment_index, lemma_first_index, lemma_first_index_is, path_index};
use crate::write::fields::{with_comment, with_offset, with_path, with_sizes};

verus! {

/// A size or an offset needs ZIP64 from 4 GiB less one byte on, since that number itself refers to ZIP64 metadata.
pub proof fn lemma_when_zip64_is_needed(x: u64, entry: ZipEntryView)
    ensures
        needs_zip64(x) <==> x >= 0xffff_ffff,
        entry.reserves_zip64() <==> entry.uncompressed_size >= 0xffff_ffff || entry.compressed_size >= 0xffff_ffff,
{
}

/// Sizes are put into the first ZIP64 extended information field, where there is one, and nothing else in it or beside it is
/// changed. Where there is none, one with nothing but the sizes is added at the end.
pub proof fn lemma_sizes_are_put(
    fields: Seq<ExtraFieldView>,
    k: int,
    zip64: Zip64ExtendedInformationExtraField,
    uncompressed: u64,
    compressed: u64,
)
    ensures
        (forall|i: int| 0 <= i < fields.len() ==> !(#[trigger] fields[i] is Zip64ExtendedInformation)) ==> with_sizes(
            fields,
            uncompressed,
            compressed,
        ) == fields.push(
            ExtraFieldView::Zip64ExtendedInformation(
                Zip64ExtendedInformationExtraField {
                    uncompressed_size: Some(uncompressed),
                    compressed_size: Some(compressed),
                    relative_header_offset: None,
                    disk_start_number: None,
                },
            ),
        ),
        0 <= k < fields.len() && fields[k] == ExtraFieldView::Zip64ExtendedInformation(zip64) && (forall|i: int|
            0 <= i < k ==> !(#[trigger] fields[i] is Zip64ExtendedInformation)) ==> with_sizes(
            fields,
            uncompressed,
            compressed,
        ) == fields.update(
            k,
            ExtraFieldView::Zip64ExtendedInformation(
                Zip64ExtendedInformationExtraField {
                    uncompressed_size: Some(uncompressed),
                    compressed_size: Some(compressed),
                    relative_header_offset: zip64.relative_header_offset,
                    disk_start_number: zip64.disk_start_number,
                },
            ),
        ),
{
    lemma_zip64_index(fields);
    if 0 <= k < fields.len() && fields[k] == ExtraFieldView::Zip64ExtendedInformation(zip64) && (forall|i: int|
        0 <= i < k ==> !(#[trigger] fields[i] is Zip64ExtendedInformation)) {
        lemma_zip64_index_is(fields, k);
    }
}

/// An offset is put into the first ZIP64 extended information field, where there is one, and nothing else in it or beside it is
/// changed. Where there is none, one with nothing but the offset is added at the end.
pub proof fn lemma_offset_is_put(
    fields: Seq<ExtraFieldView>,
    k: int,
    zip64: Zip64ExtendedInformationExtraField,
    offset: u64,
)
    ensures
        (forall|i: int| 0 <= i < fields.len() ==> !(#[trigger] fields[i] is Zip64ExtendedInformation)) ==> with_offset(
            fields,
            offset,
        ) == fields.push(
            ExtraFieldView::Zip64ExtendedInformation(
                Zip64ExtendedInformationExtraField {
                    uncompressed_size: None,
                    compressed_size: None,
                    relative_header_offset: Some(offset),
                    disk_start_number: None,
                },
            ),
        ),
        0 <= k < fields.len() && fields[k] == ExtraFieldView::Zip64ExtendedInformation(zip64) && (forall|i: int|
            0 <= i < k ==> !(#[trigger] fields[i] is Zip64ExtendedInformation)) ==> with_offset(fields, offset)
            == fields.update(
            k,
            ExtraFieldView::Zip64ExtendedInformation(
                Zip64ExtendedInformationExtraField {
                    uncompressed_size: zip64.uncompressed_size,
                    compressed_size: zip64.compressed_size,
                    relative_header_offset: Some(offset),
                    disk_start_number: zip64.disk_start_number,
                },
            ),
        ),
{
    lemma_zip64_index(fields);
    if 0 <= k < fields.len() && fields[k] == ExtraFieldView::Zip64ExtendedInformation(zip64) && (forall|i: int|
        0 <= i < k ==> !(#[trigger] fields[i] is Zip64ExtendedInformation)) {
        lemma_zip64_index_is(fields, k);
    }
}

/// A Unicode path takes the place of the first one, unless that is of an unknown version, which stays. Where there is none, it
/// is added at the end.
pub proof fn lemma_path_is_put(fields: Seq<ExtraFieldView>, k: int, crc32: u32, unicode: Seq<u8>)
    ensures
        ({
            let field = ExtraFieldView::InfoZipUnicodePath(UnicodeFieldView::V1 { crc32, unicode });
            let first = 0 <= k < fields.len() && fields[k] is InfoZipUnicodePath && forall|i: int|
                0 <= i < k ==> !(#[trigger] fields[i] is InfoZipUnicodePath);
            &&& (forall|i: int| 0 <= i < fields.len() ==> !(#[trigger] fields[i] is InfoZipUnicodePath)) ==> with_path(
                fields,
                crc32,
                unicode,
            ) == fields.push(field)
            &&& first && fields[k]->InfoZipUnicodePath_0 is V1 ==> with_path(fields, crc32, unicode) == fields.update(
                k,
                field,
            )
            &&& first && fields[k]->InfoZipUnicodePath_0 is Unknown ==> with_path(fields, crc32, unicode) == fields
        }),
{
    let p = |field: ExtraFieldView| field is InfoZipUnicodePath;
    lemma_first_index(fields, p);
    if 0 <= k < fields.len() && fields[k] is InfoZipUnicodePath && forall|i: int|
        0 <= i < k ==> !(#[trigger] fields[i] is InfoZipUnicodePath) {
        lemma_first_index_is(fields, p, k);
    }
    assert(path_index(fields) is Some ==> fields[path_index(fields)->Some_0] is InfoZipUnicodePath);
}

/// A Unicode comment takes the place of the first one, unless that is of an unknown version, which stays. Where there is none,
/// it is added at the end.
pub proof fn lemma_comment_is_put(fields: Seq<ExtraFieldView>, k: int, crc32: u32, unicode: Seq<u8>)
    ensures
        ({
            let field = ExtraFieldView::InfoZipUnicodeComment(UnicodeFieldView::V1 { crc32, unicode });
            let first = 0 <= k < fields.len() && fields[k] is InfoZipUnicodeComment && forall|i: int|
                0 <= i < k ==> !(#[trigger] fields[i] is InfoZipUnicodeComment);
            &&& (forall|i: int| 0 <= i < fields.len() ==> !(#[trigger] fields[i] is InfoZipUnicodeComment))
                ==> with_comment(fields, crc32, unicode) == fields.push(field)
            &&& first && fields[k]->InfoZipUnicodeComment_0 is V1 ==> with_comment(fields, crc32, unicode)
                == fields.update(k, field)
            &&& first && fields[k]->InfoZipUnicodeComment_0 is Unknown ==> with_comment(fields, crc32, unicode) == fields
        }),
{
    let p = |field: ExtraFieldView| field is InfoZipUnicodeComment;
    lemma_first_index(fields, p);
    if 0 <= k < fields.len() && fields[k] is InfoZipUnicodeComment && forall|i: int|
        0 <= i < k ==> !(#[trigger] fields[i] is InfoZipUnicodeComment) {
        lemma_first_index_is(fields, p, k);
    }
    assert(comment_index(fields) is Some ==> fields[comment_index(fields)->Some_0] is InfoZipUnicodeComment);
}

/// An entry is prepared for being written by its extra fields alone: ZIP64 sizes where one of them does not fit, and its name
/// and its comment in UTF-8 where both are not plain text, and where they are text and not empty.
pub proof fn lemma_entry_is_prepared(entry: ZipEntryView)
    ensures
        ({
            let plain = entry.filename.encoding == StringEncoding::Utf8 && entry.filename.alternative is None
                && entry.comment.encoding == StringEncoding::Utf8 && entry.comment.alternative is None;
            let sized = if entry.uncompressed_size >= 0xffff_ffff || entry.compressed_size >= 0xffff_ffff {
                with_sizes(entry.extra_fields, entry.uncompressed_size, entry.compressed_size)
            } else {
                entry.extra_fields
            };
            let named = if !plain && entry.filename.encoding == StringEncoding::Utf8 && entry.filename.raw.len() > 0 {
                with_path(sized, crc32_of(entry.filename.basic()), entry.filename.raw)
            } else {
                sized
            };
            let commented = if !plain && entry.comment.encoding == StringEncoding::Utf8 && entry.comment.raw.len() > 0 {
                with_comment(named, crc32_of(entry.comment.basic()), entry.comment.raw)
            } else {
                named
            };
            &&& entry.declares_utf8() <==> plain
            &&& entry.prepared() == (ZipEntryView { extra_fields: commented, ..entry })
            &&& entry.filename.alternative matches Some(alternative) ==> entry.filename.basic() == alternative
            &&& entry.filename.alternative is None ==> entry.filename.basic() == entry.filename.raw
            &&& entry.comment.alternative matches Some(alternative) ==> entry.comment.basic() == alternative
            &&& entry.comment.alternative is None ==> entry.comment.basic() == entry.comment.raw
        }),
{
}

/// What the placeholder of a local file header holds: no sizes yet, and neither encryption nor a data descriptor.
pub proof fn lemma_placeholder_holds(entry: ZipEntryView, has_zip64_sizes: bool)
    requires
        entry.filename.basic().len() <= 0xffff,
        fields_bytes(entry.extra_fields).len() <= 0xffff,
    ensures
        ({
            let header = entry.placeholder(has_zip64_sizes);
            &&& header.version == entry.version_needed()
            &&& !header.flags.data_descriptor
            &&& !header.flags.encrypted
            &&& header.flags.filename_unicode == entry.declares_utf8()
            &&& header.compression == entry.compression.method_spec()
            &&& header.mod_time == entry.last_modification_date.time
            &&& header.mod_date == entry.last_modification_date.date
            &&& header.crc == entry.crc32
            &&& has_zip64_sizes ==> header.compressed_size == 0xffff_ffff && header.uncompressed_size == 0xffff_ffff
            &&& !has_zip64_sizes ==> header.compressed_size == 0 && header.uncompressed_size == 0
            &&& header.file_name_length == entry.filename.basic().len()
            &&& header.extra_field_length == fields_bytes(entry.extra_fields).len()
        }),
{
}

/// An entry is begun unless the archive is poisoned, holds all the files that it can without ZIP64, or the entry's method, its
/// sizes, its extra fields or its name do not allow it.
pub proof fn lemma_when_entry_is_begun(
    before: ZipFileWriterView,
    entry: ZipEntryView,
    lfh_offset: u64,
    r: Result<(EntrySeekableWriter, Vec<u8>), ZipError>,
    after: ZipFileWriterView,
)
    requires
        begun(before, entry, lfh_offset, r, after),
    ensures
        ({
            let full = before.force_no_zip64 && before.cd_entries.len() >= 0xffff;
            let large = entry.uncompressed_size >= 0xffff_ffff || entry.compressed_size >= 0xffff_ffff;
            let extra = fields_bytes(entry.prepared().extra_fields).len() > 0xffff;
            let named = entry.filename.basic().len() > 0xffff;
            &&& r is Ok <==> {
                &&& !before.poisoned
                &&& !full
                &&& entry.compression != Compression::Deflate64
                &&& !(large && before.force_no_zip64)
                &&& !extra
                &&& !named
            }
            &&& before.poisoned ==> r == Err::<(EntrySeekableWriter, Vec<u8>), ZipError>(ZipError::WriterPoisoned)
            &&& r is Err ==> after == (ZipFileWriterView {
                is_zip64: before.is_zip64 || (!before.poisoned && !full && entry.compression != Compression::Deflate64
                    && large && !before.force_no_zip64),
                ..before
            })
            &&& !before.poisoned && full ==> r == Err::<(EntrySeekableWriter, Vec<u8>), ZipError>(
                ZipError::Zip64Needed(Zip64ErrorCase::TooManyFiles),
            )
            &&& !before.poisoned && !full && entry.compression == Compression::Deflate64 ==> r == Err::<
                (EntrySeekableWriter, Vec<u8>),
                ZipError,
            >(ZipError::FeatureNotSupported("Deflate64 writing"))
            &&& !before.poisoned && !full && entry.compression != Compression::Deflate64 ==> {
                &&& large && before.force_no_zip64 ==> r == Err::<(EntrySeekableWriter, Vec<u8>), ZipError>(
                    ZipError::Zip64Needed(Zip64ErrorCase::LargeFile),
                )
                &&& !(large && before.force_no_zip64) && extra ==> r == Err::<(EntrySeekableWriter, Vec<u8>), ZipError>(
                    ZipError::ExtraFieldTooLarge,
                )
                &&& !(large && before.force_no_zip64) && !extra && named ==> r == Err::<
                    (EntrySeekableWriter, Vec<u8>),
                    ZipError,
                >(ZipError::FileNameTooLarge)
            }
        }),
{
}

/// What an entry writer and its archive hold once the entry is begun. The placeholder stands where the archive ended, and the
/// data behind it.
pub proof fn lemma_what_is_begun(
    before: ZipFileWriterView,
    entry: ZipEntryView,
    lfh_offset: u64,
    r: Result<(EntrySeekableWriter, Vec<u8>), ZipError>,
    after: ZipFileWriterView,
)
    requires
        begun(before, entry, lfh_offset, r, after),
        r is Ok,
    ensures
        ({
            let writer = r->Ok_0.0@;
            let bytes = r->Ok_0.1@;
            let large = entry.uncompressed_size >= 0xffff_ffff || entry.compressed_size >= 0xffff_ffff;
            let name = entry.filename.basic();
            &&& writer.entry == entry.prepared()
            &&& writer.data.len() == 0
            &&& writer.uncompressed_size == 0
            &&& writer.lfh_offset == lfh_offset
            &&& writer.data_offset == lfh_offset + bytes.len()
            &&& writer.local_header_has_zip64_sizes <==> large
            &&& writer.force_no_zip64 == before.force_no_zip64
            &&& writer.lfh == entry.prepared().placeholder(large)
            &&& bytes.len() == 30 + name.len() + fields_bytes(entry.prepared().extra_fields).len()
            &&& le32(bytes, 0) == 0x0403_4b50
            &&& bytes.subrange(4, 30) == writer.lfh.to_bytes()
            &&& bytes.subrange(30, 30 + name.len() as int) == name
            &&& bytes.subrange(30 + name.len() as int, bytes.len() as int) == fields_bytes(entry.prepared().extra_fields)
            &&& after.poisoned
            &&& after.cd_entries == before.cd_entries
            &&& after.is_zip64 <==> before.is_zip64 || large
            &&& after.force_no_zip64 == before.force_no_zip64
            &&& after.comment == before.comment
        }),
{
    let writer = r->Ok_0.0@;
    let bytes = r->Ok_0.1@;
    let name = entry.filename.basic();
    let fields = fields_bytes(entry.prepared().extra_fields);
    lemma_local_header_layout(writer.lfh, bytes, 0);
    lemma_header_parts(writer.lfh.to_bytes(), name, fields);
}

proof fn lemma_header_parts(header: Seq<u8>, name: Seq<u8>, fields: Seq<u8>)
    requires
        header.len() == 26,
    ensures
        ({
            let bytes = le32_bytes(0x0403_4b50) + header + (name + fields);
            &&& bytes.len() == 30 + name.len() + fields.len()
            &&& le32(bytes, 0) == 0x0403_4b50
            &&& bytes.subrange(4, 30) == header
            &&& bytes.subrange(30, 30 + name.len() as int) == name
            &&& bytes.subrange(30 + name.len() as int, bytes.len() as int) == fields
        }),
{
    let signature = le32_bytes(0x0403_4b50);
    let bytes = signature + header + (name + fields);
    assert(bytes.subrange(0, 4) =~= signature);
    lemma_le32_reads_back(bytes, 0, 0x0403_4b50);
    assert(bytes.subrange(4, 30) =~= header);
    assert(bytes.subrange(30, 30 + name.len() as int) =~= name);
    assert(bytes.subrange(30 + name.len() as int, bytes.len() as int) =~= fields);
}

/// What was accepted of the data is counted and kept behind what came before, and nothing else is changed.
pub proof fn lemma_write_is_recorded(writer: EntrySeekableWriterView, buf: Seq<u8>, written: nat)
    requires
        written <= buf.len(),
        writer.uncompressed_size + written <= u64::MAX,
    ensures
        ({
            let after = writer.recorded(buf, written);
            &&& after.data == writer.data + buf.subrange(0, written as int)
            &&& after.uncompressed_size == writer.uncompressed_size + written
            &&& after == (EntrySeekableWriterView {
                data: after.data,
                uncompressed_size: after.uncompressed_size,
                ..writer
            })
        }),
{
    assert(buf.take(written as int) =~= buf.subrange(0, written as int));
}

/// An entry is closed unless its sizes need ZIP64 for which no room was set aside, or need it or its offset does where the
/// archive must do without.
pub proof fn lemma_when_entry_is_closed(writer: EntrySeekableWriterView, end_offset: u64)
    requires
        writer.data_offset <= end_offset,
    ensures
        ({
            let large = writer.uncompressed_size >= 0xffff_ffff || end_offset - writer.data_offset >= 0xffff_ffff;
            let far = writer.lfh_offset >= 0xffff_ffff;
            &&& writer.close_error(end_offset) is None <==> (large ==> writer.local_header_has_zip64_sizes
                && !writer.force_no_zip64) && (far ==> !writer.force_no_zip64)
            &&& writer.close_error(end_offset) matches Some(e) ==> e == ZipError::Zip64Needed(Zip64ErrorCase::LargeFile)
        }),
{
}

/// What the local file header holds once an entry is closed: the checksum and the sizes of the data, of which the sizes stand in
/// the extra fields where room was set aside for them there. All else stays, but that a version that knows of ZIP64 is called
/// for where there is ZIP64 metadata.
pub proof fn lemma_what_is_closed(writer: EntrySeekableWriterView, end_offset: u64)
    requires
        writer.data_offset <= end_offset,
        writer.close_error(end_offset) is None,
    ensures
        ({
            let closing = writer.closing(end_offset);
            let room = writer.local_header_has_zip64_sizes;
            let far = writer.lfh_offset >= 0xffff_ffff;
            &&& closing.lfh_offset == writer.lfh_offset
            &&& closing.end_offset == end_offset
            &&& closing.entry == (ZipEntryView { extra_fields: closing.entry.extra_fields, ..writer.entry })
            &&& room ==> closing.entry.extra_fields == with_sizes(
                writer.entry.extra_fields,
                writer.uncompressed_size,
                (end_offset - writer.data_offset) as u64,
            )
            &&& !room ==> closing.entry.extra_fields == writer.entry.extra_fields
            &&& closing.lfh.crc == crc32_of(writer.data)
            &&& room ==> closing.lfh.compressed_size == 0xffff_ffff && closing.lfh.uncompressed_size == 0xffff_ffff
            &&& !room ==> closing.lfh.compressed_size == end_offset - writer.data_offset && closing.lfh.uncompressed_size
                == writer.uncompressed_size
            &&& closing.lfh.version == (if (room || far) && writer.lfh.version < 45 {
                45
            } else {
                writer.lfh.version
            })
            &&& closing.lfh.flags == writer.lfh.flags
            &&& closing.lfh.compression == writer.lfh.compression
            &&& closing.lfh.mod_time == writer.lfh.mod_time
            &&& closing.lfh.mod_date == writer.lfh.mod_date
            &&& closing.lfh.file_name_length == writer.lfh.file_name_length
            &&& closing.lfh.extra_field_length == writer.lfh.extra_field_length
        }),
{
}

/// The patch of a local file header stands behind the signature: the fixed fields at their places, the name, the extra fields.
pub proof fn lemma_patch_layout(closing: ClosingEntryView)
    ensures
        ({
            let patch = closing.patch();
            let name = closing.entry.filename.basic();
            let fields = fields_bytes(closing.entry.extra_fields);
            &&& patch.len() == 26 + name.len() + fields.len()
            &&& patch.subrange(0, 26) == closing.lfh.to_bytes()
            &&& patch.subrange(26, 26 + name.len() as int) == name
            &&& patch.subrange(26 + name.len() as int, patch.len() as int) == fields
        }),
{
    lemma_local_header_layout(closing.lfh, Seq::empty(), 0);
    lemma_patch_parts(closing.lfh.to_bytes(), closing.entry.filename.basic(), fields_bytes(closing.entry.extra_fields));
}

proof fn lemma_patch_parts(header: Seq<u8>, name: Seq<u8>, fields: Seq<u8>)
    requires
        header.len() == 26,
    ensures
        ({
            let patch = header + (name + fields);
            &&& patch.len() == 26 + name.len() + fields.len()
            &&& patch.subrange(0, 26) == header
            &&& patch.subrange(26, 26 + name.len() as int) == name
            &&& patch.subrange(26 + name.len() as int, patch.len() as int) == fields
        }),
{
    let patch = header + (name + fields);
    assert(patch.subrange(0, 26) =~= header);
    assert(patch.subrange(26, 26 + name.len() as int) =~= name);
    assert(patch.subrange(26 + name.len() as int, patch.len() as int) =~= fields);
}

/// What an archive holds after an entry of it was closed: an error completes the entry, and nothing else is changed by it.
pub proof fn lemma_archive_after_close(archive: ZipFileWriterView, writer: EntrySeekableWriterView, end_offset: u64)
    ensures
        ({
            let after = archive.after_close(writer, end_offset);
            &&& writer.close_error(end_offset) is Some ==> after == (ZipFileWriterView { poisoned: false, ..archive })
            &&& writer.close_error(end_offset) is None ==> after == (ZipFileWriterView {
                is_zip64: archive.is_zip64 || writer.local_header_has_zip64_sizes,
                ..archive
            })
        }),
{
}

/// An entry is entered in the central directory unless its extra fields there or its comment are too long. Its header says what
/// the local file header says, and where that stands.
pub proof fn lemma_what_is_finished(closing: ClosingEntryView)
    ensures
        ({
            let far = closing.lfh_offset >= 0xffff_ffff;
            let fields = if far {
                with_offset(closing.entry.extra_fields, closing.lfh_offset)
            } else {
                closing.entry.extra_fields
            };
            let comment = closing.entry.comment.basic();
            let finished = closing.finished();
            &&& fields_bytes(fields).len() > 0xffff ==> closing.finish_error() == Some(ZipError::ExtraFieldTooLarge)
            &&& fields_bytes(fields).len() <= 0xffff && comment.len() > 0xffff ==> closing.finish_error() == Some(
                ZipError::CommentTooLarge,
            )
            &&& fields_bytes(fields).len() <= 0xffff && comment.len() <= 0xffff ==> {
                &&& closing.finish_error() is None
                &&& finished.header.extra_field_length == fields_bytes(fields).len()
                &&& finished.header.file_comment_length == comment.len()
            }
            &&& finished.entry == (ZipEntryView { extra_fields: fields, ..closing.entry })
            &&& finished.header.v_made_by == 0x33f
            &&& finished.header.v_needed == closing.lfh.version
            &&& finished.header.flags == closing.lfh.flags
            &&& finished.header.compression == closing.lfh.compression
            &&& finished.header.mod_time == closing.lfh.mod_time
            &&& finished.header.mod_date == closing.lfh.mod_date
            &&& finished.header.crc == closing.lfh.crc
            &&& finished.header.compressed_size == closing.lfh.compressed_size
            &&& finished.header.uncompressed_size == closing.lfh.uncompressed_size
            &&& finished.header.file_name_length == closing.lfh.file_name_length
            &&& finished.header.disk_start == 0
            &&& finished.header.inter_attr == closing.entry.internal_file_attribute
            &&& finished.header.exter_attr == closing.entry.external_file_attribute
            &&& far ==> finished.header.lh_offset == 0xffff_ffff
            &&& !far ==> finished.header.lh_offset == closing.lfh_offset
        }),
{
}

/// What an archive holds after an entry of it was finished: the entry behind the others, unless there was an error, and the need
/// for ZIP64 where the entry stands too far or where the entries can no longer be counted without.
pub proof fn lemma_archive_after_finish(archive: ZipFileWriterView, closing: ClosingEntryView)
    ensures
        ({
            let after = archive.after_finish(closing);
            let far = closing.lfh_offset >= 0xffff_ffff;
            &&& !after.poisoned
            &&& after.force_no_zip64 == archive.force_no_zip64
            &&& after.comment == archive.comment
            &&& closing.finish_error() is Some ==> {
                &&& after.cd_entries == archive.cd_entries
                &&& after.is_zip64 <==> archive.is_zip64 || far
            }
            &&& closing.finish_error() is None ==> {
                &&& after.cd_entries == archive.cd_entries.push(closing.finished())
                &&& after.is_zip64 <==> archive.is_zip64 || far || archive.cd_entries.len() + 1 > 0xffff
            }
        }),
{
}

/// An archive is closed unless it is poisoned, its comment is too long, or its central directory is too large or too far where
/// it must do without ZIP64.
pub proof fn lemma_when_archive_is_closed(archive: ZipFileWriterView, directory_offset: u64)
    requires
        directory_bytes(archive.cd_entries).len() <= u64::MAX,
    ensures
        ({
            let large = directory_bytes(archive.cd_entries).len() >= 0xffff_ffff || directory_offset >= 0xffff_ffff;
            &&& archive.poisoned ==> archive.ending_error(directory_offset) == Some(ZipError::WriterPoisoned)
            &&& !archive.poisoned && archive.comment.len() > 0xffff ==> archive.ending_error(directory_offset) == Some(
                ZipError::CommentTooLarge,
            )
            &&& !archive.poisoned && archive.comment.len() <= 0xffff && archive.force_no_zip64 && large
                ==> archive.ending_error(directory_offset) == Some(ZipError::Zip64Needed(Zip64ErrorCase::LargeFile))
            &&& !archive.poisoned && archive.comment.len() <= 0xffff && !(archive.force_no_zip64 && large)
                ==> archive.ending_error(directory_offset) is None
            &&& archive.ends_in_zip64(directory_offset) <==> archive.is_zip64 || large
        }),
{
}

/// What the end record of an archive says. A number that does not fit is told by the greatest that does.
pub proof fn lemma_what_end_record_says(archive: ZipFileWriterView, directory_offset: u64)
    requires
        directory_bytes(archive.cd_entries).len() <= u64::MAX,
        archive.comment.len() <= 0xffff,
    ensures
        ({
            let record = archive.end_record(directory_offset);
            let count = archive.cd_entries.len();
            let size = directory_bytes(archive.cd_entries).len();
            &&& record.disk_num == 0
            &&& record.start_cent_dir_disk == 0
            &&& record.num_of_entries == record.num_of_entries_disk
            &&& count <= 0xffff ==> record.num_of_entries == count
            &&& count > 0xffff ==> record.num_of_entries == 0xffff
            &&& size < 0xffff_ffff ==> record.size_cent_dir == size
            &&& size >= 0xffff_ffff ==> record.size_cent_dir == 0xffff_ffff
            &&& directory_offset < 0xffff_ffff ==> record.cent_dir_offset == directory_offset
            &&& directory_offset >= 0xffff_ffff ==> record.cent_dir_offset == 0xffff_ffff
            &&& record.file_comm_length == archive.comment.len()
        }),
{
}

/// What the ZIP64 end records of an archive say.
pub proof fn lemma_what_zip64_records_say(archive: ZipFileWriterView, directory_offset: u64)
    requires
        directory_offset + directory_bytes(archive.cd_entries).len() <= u64::MAX,
        archive.cd_entries.len() <= u64::MAX,
    ensures
        ({
            let record = archive.zip64_end_record(directory_offset);
            let locator = archive.zip64_locator(directory_offset);
            &&& record.size_of_zip64_end_of_cd_record == 44
            &&& record.version_made_by == 0x33f
            &&& record.version_needed_to_extract == 45
            &&& record.disk_number == 0
            &&& record.disk_number_start_of_cd == 0
            &&& record.num_entries_in_directory_on_disk == archive.cd_entries.len()
            &&& record.num_entries_in_directory == archive.cd_entries.len()
            &&& record.directory_size == directory_bytes(archive.cd_entries).len()
            &&& record.offset_of_start_of_directory == directory_offset
            &&& locator.number_of_disk_with_start_of_zip64_end_of_central_directory == 0
            &&& locator.relative_offset == directory_offset + directory_bytes(archive.cd_entries).len()
            &&& locator.total_number_of_disks == 1
        }),
{
}

/// Central directories are written one entry after the other, in order.
pub proof fn lemma_directory_is_in_order(front: Seq<CentralDirectoryEntryView>, last: CentralDirectoryEntryView)
    ensures
        directory_bytes(Seq::empty()).len() == 0,
        directory_bytes(front.push(last)) == directory_bytes(front) + last.to_bytes(),
{
    assert(front.push(last).drop_last() =~= front);
}

/// An entry of a central directory is its signature, the fixed fields of its header, its name, its extra fields and its comment.
pub proof fn lemma_central_entry_layout(written: CentralDirectoryEntryView)
    ensures
        ({
            let bytes = written.to_bytes();
            let name = written.entry.filename.basic();
            let fields = fields_bytes(written.entry.extra_fields);
            let comment = written.entry.comment.basic();
            &&& bytes.len() == 46 + name.len() + fields.len() + comment.len()
            &&& le32(bytes, 0) == 0x0201_4b50
            &&& bytes.subrange(4, 46) == written.header.to_bytes()
            &&& bytes.subrange(46, 46 + name.len() as int) == name
            &&& bytes.subrange(46 + name.len() as int, (46 + name.len() + fields.len()) as int) == fields
            &&& bytes.subrange((46 + name.len() + fields.len()) as int, bytes.len() as int) == comment
        }),
{
    lemma_central_header_layout(written.header, Seq::empty(), 0);
    lemma_central_parts(
        written.header.to_bytes(),
        written.entry.filename.basic(),
        fields_bytes(written.entry.extra_fields),
        written.entry.comment.basic(),
    );
}

proof fn lemma_central_parts(header: Seq<u8>, name: Seq<u8>, fields: Seq<u8>, comment: Seq<u8>)
    requires
        header.len() == 42,
    ensures
        ({
            let bytes = le32_bytes(0x0201_4b50) + header + name + fields + comment;
            &&& bytes.len() == 46 + name.len() + fields.len() + comment.len()
            &&& le32(bytes, 0) == 0x0201_4b50
            &&& bytes.subrange(4, 46) == header
            &&& bytes.subrange(46, 46 + name.len() as int) == name
            &&& bytes.subrange(46 + name.len() as int, (46 + name.len() + fields.len()) as int) == fields
            &&& bytes.subrange((46 + name.len() + fields.len()) as int, bytes.len() as int) == comment
        }),
{
    let bytes = le32_bytes(0x0201_4b50) + header + name + fields + comment;
    assert(bytes.subrange(0, 4) =~= le32_bytes(0x0201_4b50));
    lemma_le32_reads_back(bytes, 0, 0x0201_4b50);
    assert(bytes.subrange(4, 46) =~= header);
    assert(bytes.subrange(46, 46 + name.len() as int) =~= name);
    assert(bytes.subrange(46 + name.len() as int, (46 + name.len() + fields.len()) as int) =~= fields);
    assert(bytes.subrange((46 + name.len() + fields.len()) as int, bytes.len() as int) =~= comment);
}

/// What comes behind the entries of an archive: the central directory; where ZIP64 is needed, the ZIP64 end record and its
/// locator; the end record and the comment. Each record starts with its signature.
pub proof fn lemma_ending_layout(archive: ZipFileWriterView, directory_offset: u64)
    ensures
        ({
            let ending = archive.ending(directory_offset);
            let size = directory_bytes(archive.cd_entries).len() as int;
            let at = if archive.ends_in_zip64(directory_offset) {
                size + 76
            } else {
                size
            };
            &&& ending.len() == at + 22 + archive.comment.len()
            &&& ending.subrange(0, size) == directory_bytes(archive.cd_entries)
            &&& archive.ends_in_zip64(directory_offset) ==> {
                &&& ending.subrange(size, size + 4) == le32_bytes(0x0606_4b50)
                &&& ending.subrange(size + 4, size + 56) == archive.zip64_end_record(directory_offset).to_bytes()
                &&& ending.subrange(size + 56, size + 60) == le32_bytes(0x0706_4b50)
                &&& ending.subrange(size + 60, size + 76) == archive.zip64_locator(directory_offset).to_bytes()
            }
            &&& ending.subrange(at, at + 4) == le32_bytes(0x0605_4b50)
            &&& ending.subrange(at + 4, at + 22) == archive.end_record(directory_offset).to_bytes()
            &&& ending.subrange(at + 22, ending.len() as int) == archive.comment
        }),
{
    lemma_end_record_layout(archive.end_record(directory_offset), Seq::empty(), 0);
    lemma_zip64_end_record_layout(archive.zip64_end_record(directory_offset), Seq::empty(), 0);
    lemma_locator_layout(archive.zip64_locator(directory_offset), Seq::empty(), 0);
    lemma_ending_parts(
        directory_bytes(archive.cd_entries),
        archive.zip64_end_record(directory_offset).to_bytes(),
        archive.zip64_locator(directory_offset).to_bytes(),
        archive.end_record(directory_offset).to_bytes(),
        archive.comment,
    );
}

proof fn lemma_ending_parts(
    directory: Seq<u8>,
    zip64: Seq<u8>,
    locator: Seq<u8>,
    record: Seq<u8>,
    comment: Seq<u8>,
)
    requires
        zip64.len() == 52,
        locator.len() == 16,
        record.len() == 18,
    ensures
        ({
            let size = directory.len() as int;
            let last = le32_bytes(0x0605_4b50) + record + comment;
            let short = directory + Seq::<u8>::empty() + last;
            let long = directory + ((le32_bytes(0x0606_4b50) + zip64) + (le32_bytes(0x0706_4b50) + locator)) + last;
            &&& short.len() == size + 22 + comment.len()
            &&& short.subrange(0, size) == directory
            &&& short.subrange(size, size + 4) == le32_bytes(0x0605_4b50)
            &&& short.subrange(size + 4, size + 22) == record
            &&& short.subrange(size + 22, short.len() as int) == comment
            &&& long.len() == size + 98 + comment.len()
            &&& long.subrange(0, size) == directory
            &&& long.subrange(size, size + 4) == le32_bytes(0x0606_4b50)
            &&& long.subrange(size + 4, size + 56) == zip64
            &&& long.subrange(size + 56, size + 60) == le32_bytes(0x0706_4b50)
            &&& long.subrange(size + 60, size + 76) == locator
            &&& long.subrange(size + 76, size + 80) == le32_bytes(0x0605_4b50)
            &&& long.subrange(size + 80, size + 98) == record
            &&& long.subrange(size + 98, long.len() as int) == comment
        }),
{
    let size = directory.len() as int;
    let last = le32_bytes(0x0605_4b50) + record + comment;
    let short = directory + Seq::<u8>::empty() + last;
    let long = directory + ((le32_bytes(0x0606_4b50) + zip64) + (le32_bytes(0x0706_4b50) + locator)) + last;
    assert(short.subrange(0, size) =~= directory);
    assert(short.subrange(size, size + 4) =~= le32_bytes(0x0605_4b50));
    assert(short.subrange(size + 4, size + 22) =~= record);
    assert(short.subrange(size + 22, short.len() as int) =~= comment);
    assert(long.subrange(0, size) =~= directory);
    assert(long.subrange(size, size + 4) =~= le32_bytes(0x0606_4b50));
    assert(long.subrange(size + 4, size + 56) =~= zip64);
    assert(long.subrange(size + 56, size + 60) =~= le32_bytes(0x0706_4b50));
    assert(long.subrange(size + 60, size + 76) =~= locator);
    assert(long.subrange(size + 76, size + 80) =~= le32_bytes(0x0605_4b50));
    assert(long.subrange(size + 80, size + 98) =~= record);
    assert(long.subrange(size + 98, long.len() as int) =~= comment);
}

} // verus!
