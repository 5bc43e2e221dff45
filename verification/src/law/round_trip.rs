//! What was written is what is read.

use vstd::prelude::*;

use crate::bytes::{le32, le32_bytes, lemma_le32_reads_back};
use crate::crc::crc32_of;
use crate::entry::{StoredZipEntryView, ZipEntryView};
use crate::error::ZipError;
use crate::format::consts::{CDH_LENGTH, CDH_SIGNATURE, LFH_LENGTH, LFH_SIGNATURE};
use crate::format::extra_field::{fields_bytes, fields_readable, lemma_fields_read_back, zip64_wants};
use crate::format::extra_field::{ExtraFieldView, Zip64Wants};
use crate::format::header::{lemma_central_header_reads_back, lemma_local_header_reads_back};
use crate::format::header::LocalFileHeader;
use crate::format::version::extract_version_error;
use crate::law::names::{lemma_comment_reads_back, lemma_name_reads_back, lemma_offset_keeps_strings};
use crate::law::names::{lemma_same_strings, lemma_sizes_keep_strings};
use crate::law::readable::{has_sound_fields, lemma_central_fields_are_readable, lemma_local_fields_are_readable};
use crate::law::writing::{lemma_patch_fits_placeholder, lemma_written_version_is_read};
use crate::read::data::{name_error, NAME_CHUNK};
use crate::read::fields::{combined_sizes, lemma_zip64_index, lemma_zip64_index_is, zip64_field, zip64_index};
use crate::read::name::{comment_of, filename_of};
use crate::read::record::{cd_record_of, central_entry, lfh_of};
use crate::string::{StringEncoding, ZipStringView};
use crate::write::archive::CentralDirectoryEntryView;
use crate::write::entry_seekable::{lemma_sizes_fit_in_room, ClosingEntryView};
use crate::write::entry_seekable::EntrySeekableWriterView;
use crate::write::fields::{lemma_sizes_are_there, with_offset};

verus! {

/// Whether the name of an entry can be told again from its header: it holds no NUL, and the entry's own extra fields leave
/// it alone.
pub open spec fn legible_name(entry: ZipEntryView) -> bool {
    &&& entry.wf()
    &&& !entry.filename.raw.contains(0)
    &&& !entry.filename.basic().contains(0)
    &&& entry.fields_keep_name()
}

/// Whether an entry is being written in the way that it was begun.
pub open spec fn writes(writer: EntrySeekableWriterView, entry: ZipEntryView, end_offset: u64) -> bool {
    &&& writer.wf()
    &&& writer.entry == entry.prepared()
    &&& writer.local_header_has_zip64_sizes == entry.reserves_zip64()
    &&& writer.data_offset <= end_offset
    &&& writer.close_error(end_offset) is None
}

/// A local file header with its signature, and what follows it.
pub open spec fn local_bytes(closing: ClosingEntryView, rest: Seq<u8>) -> Seq<u8> {
    le32_bytes(LFH_SIGNATURE) + closing.patch() + rest
}

proof fn lemma_closing_wf(writer: EntrySeekableWriterView, end_offset: u64)
    requires
        writer.wf(),
    ensures
        writer.closing(end_offset).wf(),
{
    lemma_patch_fits_placeholder(writer, end_offset);
    if writer.local_header_has_zip64_sizes {
        lemma_sizes_fit_in_room(
            writer.entry.extra_fields,
            writer.uncompressed_size,
            writer.compressed_size(end_offset),
        );
    }
}

proof fn lemma_closing_sizes(writer: EntrySeekableWriterView, end_offset: u64)
    requires
        writer.wf(),
        writer.data_offset <= end_offset,
        writer.close_error(end_offset) is None,
    ensures
        ({
            let closing = writer.closing(end_offset);
            combined_sizes(
                closing.lfh.uncompressed_size,
                closing.lfh.compressed_size,
                zip64_field(closing.entry.extra_fields),
            ) == Ok::<(u64, u64), ZipError>((writer.uncompressed_size, writer.compressed_size(end_offset)))
        }),
{
    lemma_sizes_are_there(writer.entry.extra_fields, writer.uncompressed_size, writer.compressed_size(end_offset));
}

proof fn lemma_local_parts(closing: ClosingEntryView, rest: Seq<u8>)
    requires
        closing.wf(),
    ensures
        ({
            let b = local_bytes(closing, rest);
            let name_end = 30 + closing.lfh.file_name_length;
            let end = name_end + closing.lfh.extra_field_length;
            &&& b.len() == end + rest.len()
            &&& b.subrange(0, 4) == le32_bytes(LFH_SIGNATURE)
            &&& b.subrange(4, 4 + LFH_LENGTH) == closing.lfh.to_bytes()
            &&& b.subrange(30, name_end) == closing.entry.filename.basic()
            &&& b.subrange(name_end, end) == fields_bytes(closing.entry.extra_fields)
            &&& le32(b, 0) == LFH_SIGNATURE
        }),
{
    let b = local_bytes(closing, rest);
    let name_end = 30 + closing.lfh.file_name_length;
    let end = name_end + closing.lfh.extra_field_length;
    let header = closing.lfh.to_bytes();
    assert(header.len() == LFH_LENGTH);
    assert(b.subrange(0, 4) =~= le32_bytes(LFH_SIGNATURE));
    assert(b.subrange(4, 4 + LFH_LENGTH) =~= header);
    assert(b.subrange(30, name_end) =~= closing.entry.filename.basic());
    assert(b.subrange(name_end, end) =~= fields_bytes(closing.entry.extra_fields));
    lemma_le32_reads_back(b, 0, LFH_SIGNATURE);
}

/// The local file header of an entry that was closed is read back, whatever follows it: it has the entry's name, method,
/// date and extra fields, the checksum of the data that was written, and its sizes.
pub proof fn lemma_local_entry_reads_back(
    entry: ZipEntryView,
    writer: EntrySeekableWriterView,
    end_offset: u64,
    rest: Seq<u8>,
)
    requires
        writes(writer, entry, end_offset),
        legible_name(entry),
        has_sound_fields(entry),
    ensures
        ({
            let closing = writer.closing(end_offset);
            lfh_of(local_bytes(closing, rest), writer.lfh_offset) matches Ok((Some(read), length)) && {
                &&& writer.lfh_offset + length == writer.data_offset
                &&& read.filename.raw == entry.filename.raw
                &&& read.filename.basic() == entry.filename.basic()
                &&& entry.filename.encoding == StringEncoding::Utf8 ==> read.filename.encoding == StringEncoding::Utf8
                &&& read.compression == entry.compression
                &&& read.last_modification_date == entry.last_modification_date
                &&& read.extra_fields == closing.entry.extra_fields
                &&& read.crc32 == crc32_of(writer.data)
                &&& read.uncompressed_size == writer.data.len()
                &&& read.compressed_size == end_offset - writer.data_offset
                &&& !read.data_descriptor
                &&& read.file_offset == writer.lfh_offset
            }
        }),
{
    let closing = writer.closing(end_offset);
    let header = closing.lfh;
    let b = local_bytes(closing, rest);
    lemma_local_fields_are_readable(entry, writer, end_offset);
    lemma_closing_wf(writer, end_offset);
    lemma_patch_fits_placeholder(writer, end_offset);
    lemma_local_parts(closing, rest);
    lemma_written_version_is_read(writer, end_offset);
    lemma_local_header_reads_back(header, b, 4);
    lemma_fields_read_back(
        closing.entry.extra_fields,
        zip64_wants(header.uncompressed_size, header.compressed_size, None, None),
    );
    lemma_closing_sizes(writer, end_offset);
    lemma_sizes_keep_strings(
        writer.entry.extra_fields,
        writer.uncompressed_size,
        writer.compressed_size(end_offset),
    );
    entry.compression.lemma_method_identifies();
    lemma_name_reads_back(entry, closing.entry.extra_fields);
}

impl CentralDirectoryEntryView {
    /// What the header says that a ZIP64 extended information field holds.
    pub open spec fn wants(self) -> Zip64Wants {
        zip64_wants(
            self.header.uncompressed_size,
            self.header.compressed_size,
            Some(self.header.lh_offset),
            Some(self.header.disk_start),
        )
    }

    /// The entry's name as it is read.
    pub open spec fn name_read(self) -> Result<ZipStringView, ZipError> {
        let basic = self.entry.filename.basic();
        filename_of(basic, crc32_of(basic), self.header.flags.filename_unicode, self.entry.extra_fields)
    }

    /// The entry's comment as it is read.
    pub open spec fn comment_read(self) -> ZipStringView {
        let basic = self.entry.comment.basic();
        comment_of(basic, crc32_of(basic), self.header.flags.filename_unicode, self.entry.extra_fields)
    }

    /// The entry's sizes (uncompressed, compressed) as they are read.
    pub open spec fn sizes_read(self) -> Result<(u64, u64), ZipError> {
        combined_sizes(
            self.header.uncompressed_size,
            self.header.compressed_size,
            zip64_field(self.entry.extra_fields),
        )
    }

    /// Whether the entry can be read from the central directory: its header tells the lengths of its variable fields and
    /// calls for nothing that is not supported, and its extra fields and its name can be told again.
    pub open spec fn readable(self) -> bool {
        &&& self.header.file_name_length == self.entry.filename.basic().len()
        &&& self.header.extra_field_length == fields_bytes(self.entry.extra_fields).len()
        &&& self.header.file_comment_length == self.entry.comment.basic().len()
        &&& !self.header.flags.encrypted
        &&& extract_version_error(self.header.v_needed, self.header.compression) is None
        &&& self.header.compression == self.entry.compression.method_spec()
        &&& fields_readable(self.entry.extra_fields, self.wants())
        &&& self.name_read() is Ok
        &&& self.sizes_read() is Ok
    }

    /// The entry as it is read from the central directory.
    pub open spec fn stored(self) -> StoredZipEntryView {
        central_entry(
            self.header,
            self.name_read()->Ok_0,
            self.entry.compression,
            self.sizes_read()->Ok_0,
            self.entry.extra_fields,
            self.comment_read(),
        )
    }
}

proof fn lemma_central_parts(e: CentralDirectoryEntryView, rest: Seq<u8>)
    requires
        e.readable(),
    ensures
        ({
            let b = e.to_bytes() + rest;
            let name_end = 46 + e.header.file_name_length;
            let extra_end = name_end + e.header.extra_field_length;
            let end = extra_end + e.header.file_comment_length;
            &&& b.len() == end + rest.len()
            &&& e.to_bytes().len() == e.header.entry_size()
            &&& b.subrange(4, 4 + CDH_LENGTH) == e.header.to_bytes()
            &&& b.subrange(46, name_end) == e.entry.filename.basic()
            &&& b.subrange(name_end, extra_end) == fields_bytes(e.entry.extra_fields)
            &&& b.subrange(extra_end, end) == e.entry.comment.basic()
            &&& le32(b, 0) == CDH_SIGNATURE
        }),
{
    let b = e.to_bytes() + rest;
    let name_end = 46 + e.header.file_name_length;
    let extra_end = name_end + e.header.extra_field_length;
    let end = extra_end + e.header.file_comment_length;
    let header = e.header.to_bytes();
    assert(header.len() == CDH_LENGTH);
    assert(b.subrange(0, 4) =~= le32_bytes(CDH_SIGNATURE));
    assert(b.subrange(4, 4 + CDH_LENGTH) =~= header);
    assert(b.subrange(46, name_end) =~= e.entry.filename.basic());
    assert(b.subrange(name_end, extra_end) =~= fields_bytes(e.entry.extra_fields));
    assert(b.subrange(extra_end, end) =~= e.entry.comment.basic());
    lemma_le32_reads_back(b, 0, CDH_SIGNATURE);
}

/// A readable entry is read back from the central directory, whatever follows it.
pub proof fn lemma_central_entry_reads_back(
    e: CentralDirectoryEntryView,
    rest: Seq<u8>,
    remaining: u64,
    claimed_entries: u64,
)
    requires
        e.readable(),
        e.to_bytes().len() <= remaining,
    ensures
        cd_record_of(e.to_bytes() + rest, remaining, claimed_entries) == Ok::<(StoredZipEntryView, nat), ZipError>(
            (e.stored(), e.to_bytes().len()),
        ),
{
    let b = e.to_bytes() + rest;
    lemma_central_parts(e, rest);
    lemma_central_header_reads_back(e.header, b, 4);
    lemma_fields_read_back(e.entry.extra_fields, e.wants());
    e.entry.compression.lemma_method_identifies();
}

proof fn lemma_offset_is_there(fields: Seq<ExtraFieldView>, offset: u64)
    ensures
        ({
            let field = zip64_field(with_offset(fields, offset));
            &&& field is Some
            &&& field->Some_0.relative_header_offset == Some(offset)
            &&& zip64_field(fields) matches Some(before) ==> field->Some_0.uncompressed_size == before.uncompressed_size
                && field->Some_0.compressed_size == before.compressed_size
        }),
{
    let after = with_offset(fields, offset);
    lemma_zip64_index(fields);
    match zip64_index(fields) {
        Some(i) => lemma_zip64_index_is(after, i),
        None => lemma_zip64_index_is(after, fields.len() as int),
    }
}

/// An entry that was closed can be read from the central directory, and is read as it was written: it has the entry's name,
/// comment, method, date, attributes and extra fields, the checksum of the data that was written, its sizes, and the offset
/// of the local file header.
pub proof fn lemma_written_entry_reads_back(entry: ZipEntryView, writer: EntrySeekableWriterView, end_offset: u64)
    requires
        writes(writer, entry, end_offset),
        legible_name(entry),
        entry.fields_keep_comment(),
        has_sound_fields(entry),
        writer.closing(end_offset).finish_error() is None,
    ensures
        ({
            let written = writer.closing(end_offset).finished();
            let read = written.stored();
            &&& written.readable()
            &&& read.file_offset == read.entry.file_offset == writer.lfh_offset
            &&& read.entry.filename.raw == entry.filename.raw
            &&& read.entry.filename.basic() == entry.filename.basic()
            &&& entry.filename.encoding == StringEncoding::Utf8 ==> read.entry.filename.encoding == StringEncoding::Utf8
            &&& read.entry.comment.raw == entry.comment.raw
            &&& read.entry.comment.basic() == entry.comment.basic()
            &&& entry.comment.encoding == StringEncoding::Utf8 ==> read.entry.comment.encoding == StringEncoding::Utf8
            &&& read.entry.compression == entry.compression
            &&& read.entry.last_modification_date == entry.last_modification_date
            &&& read.entry.internal_file_attribute == entry.internal_file_attribute
            &&& read.entry.external_file_attribute == entry.external_file_attribute
            &&& read.entry.extra_fields == writer.closing(end_offset).central_fields()
            &&& read.entry.crc32 == crc32_of(writer.data)
            &&& read.entry.uncompressed_size == writer.data.len()
            &&& read.entry.compressed_size == end_offset - writer.data_offset
            &&& !read.entry.data_descriptor
        }),
{
    let closing = writer.closing(end_offset);
    let written = closing.finished();
    let fields = closing.entry.extra_fields;
    let central = closing.central_fields();
    lemma_central_fields_are_readable(entry, writer, end_offset);
    lemma_closing_wf(writer, end_offset);
    lemma_written_version_is_read(writer, end_offset);
    lemma_closing_sizes(writer, end_offset);
    lemma_offset_is_there(fields, writer.lfh_offset);
    lemma_sizes_keep_strings(
        writer.entry.extra_fields,
        writer.uncompressed_size,
        writer.compressed_size(end_offset),
    );
    lemma_offset_keeps_strings(fields, writer.lfh_offset);
    lemma_same_strings(writer.entry.extra_fields, fields, central);
    lemma_name_reads_back(entry, central);
    lemma_comment_reads_back(entry, central);
    assert(written.sizes_read() == Ok::<(u64, u64), ZipError>(
        (writer.uncompressed_size, writer.compressed_size(end_offset)),
    ));
}

/// Where an entry was written whose name stands in the header as it is, its data is found again: the local file header that
/// was written agrees with the central directory.
pub proof fn lemma_written_data_is_found(
    entry: ZipEntryView,
    writer: EntrySeekableWriterView,
    end_offset: u64,
    rest: Seq<u8>,
    boundary: u64,
)
    requires
        writes(writer, entry, end_offset),
        legible_name(entry),
        entry.fields_keep_comment(),
        entry.filename.basic() == entry.filename.raw,
        has_sound_fields(entry),
        writer.closing(end_offset).finish_error() is None,
        end_offset <= boundary,
    ensures
        ({
            let closing = writer.closing(end_offset);
            let stored = StoredZipEntryView { data_end_boundary: boundary, ..closing.finished().stored() };
            stored.data_offset(local_bytes(closing, rest)) == Ok::<u64, ZipError>(writer.data_offset)
        }),
{
    let closing = writer.closing(end_offset);
    let stored = StoredZipEntryView { data_end_boundary: boundary, ..closing.finished().stored() };
    lemma_written_entry_reads_back(entry, writer, end_offset);
    lemma_local_fields_are_readable(entry, writer, end_offset);
    lemma_closing_wf(writer, end_offset);
    lemma_patch_fits_placeholder(writer, end_offset);
    lemma_written_version_is_read(writer, end_offset);
    lemma_closing_sizes(writer, end_offset);
    assert(writer.data_offset == writer.lfh_offset + 30 + closing.lfh.file_name_length
        + closing.lfh.extra_field_length);
    lemma_agreeing_data_is_found(stored, closing, rest);
}

proof fn lemma_agreeing_data_is_found(stored: StoredZipEntryView, closing: ClosingEntryView, rest: Seq<u8>)
    requires
        closing.wf(),
        extract_version_error(closing.lfh.version, closing.lfh.compression) is None,
        !closing.lfh.flags.encrypted,
        !closing.lfh.flags.data_descriptor,
        !stored.entry.data_descriptor,
        stored.entry.filename.raw == closing.entry.filename.basic(),
        fields_readable(
            closing.entry.extra_fields,
            zip64_wants(closing.lfh.uncompressed_size, closing.lfh.compressed_size, None, None),
        ),
        combined_sizes(
            closing.lfh.uncompressed_size,
            closing.lfh.compressed_size,
            zip64_field(closing.entry.extra_fields),
        ) == Ok::<(u64, u64), ZipError>((stored.entry.uncompressed_size, stored.entry.compressed_size)),
        stored.data_start(closing.lfh) + stored.entry.compressed_size <= stored.data_end_boundary,
    ensures
        stored.data_offset(local_bytes(closing, rest)) == Ok::<u64, ZipError>(stored.data_start(closing.lfh) as u64),
{
    let header = closing.lfh;
    let fields = closing.entry.extra_fields;
    let b = local_bytes(closing, rest);
    lemma_local_parts(closing, rest);
    assert(LocalFileHeader::read_at(b, 4) == Ok::<LocalFileHeader, ZipError>(header)) by {
        lemma_local_header_reads_back(header, b, 4);
    }
    assert(name_error(b, stored.entry.filename.raw, 0) is None) by {
        lemma_same_name_passes(b, stored.entry.filename.raw, 0);
    }
    lemma_fields_read_back(fields, zip64_wants(header.uncompressed_size, header.compressed_size, None, None));
    if header.extra_field_length == 0 {
        lemma_no_bytes_no_fields(fields);
    }
    assert(stored.size_error(header, b) is None);
}

proof fn lemma_same_name_passes(input: Seq<u8>, expected: Seq<u8>, at: nat)
    requires
        30 + expected.len() <= input.len(),
        input.subrange(30, 30 + expected.len() as int) == expected,
    ensures
        name_error(input, expected, at) is None,
    decreases expected.len() - at,
{
    if at < expected.len() {
        let end = if expected.len() - at <= NAME_CHUNK { expected.len() } else { at + NAME_CHUNK as nat };
        assert(input.subrange(30 + at as int, 30 + end as int) =~= input.subrange(30, 30 + expected.len() as int).subrange(
            at as int,
            end as int,
        ));
        lemma_same_name_passes(input, expected, end);
    }
}

proof fn lemma_no_bytes_no_fields(fields: Seq<ExtraFieldView>)
    requires
        fields_bytes(fields).len() == 0,
    ensures
        fields.len() == 0,
{
    if fields.len() > 0 {
        assert(fields.last().to_bytes().len() >= 4);
    }
}

} // verus!
