//! Entries that are written to a seekable output.
//!
//! A placeholder of the local file header is written first, then the data, and finally the placeholder is replaced by the
//! header itself, whose length is the same. No output is done here: what is to be written, and where, is returned.

use vstd::prelude::*;
use vstd::slice::slice_subrange;

use crate::bytes::{copy, le32_bytes, push_bytes, push_u32};
use crate::crc::{crc32_of, hashed_bytes};
use crate::entry::{ZipEntry, ZipEntryView};
use crate::error::{Zip64ErrorCase, ZipError};
use crate::format::compression::Compression;
use crate::format::consts::{LFH_SIGNATURE, NON_ZIP64_MAX_NUM_FILES, NON_ZIP64_MAX_SIZE};
use crate::format::extra_field::{as_bytes, field_length, fields_bytes, ExtraFieldView};
use crate::format::header::{CentralDirectoryRecord, GeneralPurposeFlag, LocalFileHeader};
use crate::format::version::{as_made_by, as_needed_to_extract};
use crate::read::fields::{lemma_zip64_index, zip64_field, zip64_index};
use crate::string::StringEncoding;
use crate::write::archive::{CentralDirectoryEntry, CentralDirectoryEntryView, ZipFileWriter, ZipFileWriterView};
use crate::write::archive::written_views;
use crate::write::fields::{lemma_comment_keeps_zip64, lemma_path_keeps_zip64, lemma_sizes_are_there};
use crate::write::fields::{put_comment, put_offset, put_path, put_sizes};
use crate::write::fields::{with_comment, with_offset, with_path, with_sizes};

verus! {

/// The version that is needed to read ZIP64 metadata.
pub const ZIP64_VERSION_NEEDED: u16 = 45;

/// The greatest length of a local file header: its fixed fields, and two variable fields.
pub const MAX_LOCAL_HEADER_LENGTH: u64 = 131100;

/// Whether a size or an offset does not fit in the legacy format.
pub open spec fn needs_zip64(x: u64) -> bool {
    x >= NON_ZIP64_MAX_SIZE
}

impl ZipEntryView {
    /// Whether room for ZIP64 sizes is set aside in the local file header.
    pub open spec fn reserves_zip64(self) -> bool {
        needs_zip64(self.uncompressed_size) || needs_zip64(self.compressed_size)
    }

    /// Whether the header can declare the name and the comment to be UTF-8.
    pub open spec fn declares_utf8(self) -> bool {
        self.filename.is_plain_text() && self.comment.is_plain_text()
    }

    /// The extra fields, with room for ZIP64 sizes where it is set aside.
    pub open spec fn fields_with_room(self) -> Seq<ExtraFieldView> {
        if self.reserves_zip64() {
            with_sizes(self.extra_fields, self.uncompressed_size, self.compressed_size)
        } else {
            self.extra_fields
        }
    }

    /// These extra fields, with the name in UTF-8 where the header cannot declare it.
    pub open spec fn fields_with_path(self, fields: Seq<ExtraFieldView>) -> Seq<ExtraFieldView> {
        if !self.declares_utf8() && self.filename.encoding == StringEncoding::Utf8 && self.filename.raw.len() > 0 {
            with_path(fields, crc32_of(self.filename.basic()), self.filename.raw)
        } else {
            fields
        }
    }

    /// These extra fields, with the comment in UTF-8 where the header cannot declare it.
    pub open spec fn fields_with_comment(self, fields: Seq<ExtraFieldView>) -> Seq<ExtraFieldView> {
        if !self.declares_utf8() && self.comment.encoding == StringEncoding::Utf8 && self.comment.raw.len() > 0 {
            with_comment(fields, crc32_of(self.comment.basic()), self.comment.raw)
        } else {
            fields
        }
    }

    /// The entry with the extra fields that its local file header is written with.
    pub open spec fn prepared(self) -> ZipEntryView {
        ZipEntryView {
            extra_fields: self.fields_with_comment(self.fields_with_path(self.fields_with_room())),
            ..self
        }
    }

    /// The local file header that is written before the data is known, for an entry that has been prepared.
    pub open spec fn placeholder(self, has_zip64_sizes: bool) -> LocalFileHeader {
        LocalFileHeader {
            version: self.version_needed(),
            flags: GeneralPurposeFlag {
                data_descriptor: false,
                encrypted: false,
                filename_unicode: self.declares_utf8(),
            },
            compression: self.compression.method_spec(),
            mod_time: self.last_modification_date.time,
            mod_date: self.last_modification_date.date,
            crc: self.crc32,
            compressed_size: if has_zip64_sizes { NON_ZIP64_MAX_SIZE } else { 0 },
            uncompressed_size: if has_zip64_sizes { NON_ZIP64_MAX_SIZE } else { 0 },
            file_name_length: self.filename.basic().len() as u16,
            extra_field_length: fields_bytes(self.extra_fields).len() as u16,
        }
    }

    /// What keeps the entry's local file header from being written, if anything.
    pub open spec fn header_error(self, force_no_zip64: bool) -> Option<ZipError> {
        if self.reserves_zip64() && force_no_zip64 {
            Some(ZipError::Zip64Needed(Zip64ErrorCase::LargeFile))
        } else if fields_bytes(self.prepared().extra_fields).len() > 0xffff {
            Some(ZipError::ExtraFieldTooLarge)
        } else if self.filename.basic().len() > 0xffff {
            Some(ZipError::FileNameTooLarge)
        } else {
            None
        }
    }

    /// The variable fields of the entry's local file header.
    pub open spec fn local_trailer(self) -> Seq<u8> {
        self.filename.basic() + fields_bytes(self.extra_fields)
    }
}

impl ZipFileWriterView {
    /// What keeps an entry from being begun before its header is looked at, if anything.
    pub open spec fn admission_error(self, entry: ZipEntryView) -> Option<ZipError> {
        if self.poisoned {
            Some(ZipError::WriterPoisoned)
        } else if self.force_no_zip64 && self.cd_entries.len() >= NON_ZIP64_MAX_NUM_FILES {
            Some(ZipError::Zip64Needed(Zip64ErrorCase::TooManyFiles))
        } else if entry.compression == Compression::Deflate64 {
            Some(ZipError::FeatureNotSupported("Deflate64 writing"))
        } else {
            None
        }
    }

    /// The archive after an entry of it was closed, where the data ends at `end_offset`: an error completes the entry,
    /// otherwise its local file header is yet to be patched.
    pub open spec fn after_close(self, entry: EntrySeekableWriterView, end_offset: u64) -> ZipFileWriterView {
        match entry.close_error(end_offset) {
            Some(e) => ZipFileWriterView { poisoned: false, ..self },
            None => self.with_zip64(entry.local_header_has_zip64_sizes),
        }
    }

    /// The archive after an entry of it was finished. Be it with an error, the entry is complete.
    pub open spec fn after_finish(self, closing: ClosingEntryView) -> ZipFileWriterView {
        match closing.finish_error() {
            Some(e) => ZipFileWriterView { poisoned: false, ..self.with_zip64(needs_zip64(closing.lfh_offset)) },
            None => {
                let cd_entries = self.cd_entries.push(closing.finished());
                let needed = needs_zip64(closing.lfh_offset) || cd_entries.len() > NON_ZIP64_MAX_NUM_FILES;
                ZipFileWriterView { cd_entries, poisoned: false, ..self.with_zip64(needed) }
            },
        }
    }

    /// The archive, with ZIP64 end records where `needed`.
    pub open spec fn with_zip64(self, needed: bool) -> ZipFileWriterView {
        ZipFileWriterView { is_zip64: self.is_zip64 || needed, ..self }
    }
}

/// What an [`EntrySeekableWriter`] stands for.
#[verifier::ext_equal]
pub struct EntrySeekableWriterView {
    /// The entry, as it was prepared.
    pub entry: ZipEntryView,
    /// The data that has been written, before compression.
    pub data: Seq<u8>,
    pub uncompressed_size: u64,
    pub lfh: LocalFileHeader,
    pub lfh_offset: u64,
    pub data_offset: u64,
    pub local_header_has_zip64_sizes: bool,
    pub force_no_zip64: bool,
}

impl EntrySeekableWriterView {
    /// The state is consistent: the data is counted, the header is the placeholder, and the data follows the header. Where
    /// the header has room for ZIP64 sizes, so have the extra fields.
    pub open spec fn wf(self) -> bool {
        &&& self.uncompressed_size == self.data.len()
        &&& self.lfh == self.entry.placeholder(self.local_header_has_zip64_sizes)
        &&& self.entry.filename.basic().len() <= 0xffff
        &&& fields_bytes(self.entry.extra_fields).len() <= 0xffff
        &&& self.data_offset == self.lfh_offset + 30 + self.entry.local_trailer().len()
        &&& self.local_header_has_zip64_sizes ==> {
            &&& zip64_field(self.entry.extra_fields) is Some
            &&& zip64_field(self.entry.extra_fields)->Some_0.uncompressed_size is Some
            &&& zip64_field(self.entry.extra_fields)->Some_0.compressed_size is Some
        }
        &&& self.entry.compression != Compression::Deflate64
    }

    /// The state after the first `written` bytes of `buf` were accepted.
    pub open spec fn recorded(self, buf: Seq<u8>, written: nat) -> EntrySeekableWriterView {
        EntrySeekableWriterView {
            data: self.data + buf.take(written as int),
            uncompressed_size: (self.uncompressed_size + written) as u64,
            ..self
        }
    }

    /// The size of the compressed data, where it ends at `end_offset`.
    pub open spec fn compressed_size(self, end_offset: u64) -> u64 {
        (end_offset - self.data_offset) as u64
    }

    /// Whether one of the sizes does not fit in the legacy format.
    pub open spec fn requires_zip64_sizes(self, end_offset: u64) -> bool {
        needs_zip64(self.uncompressed_size) || needs_zip64(self.compressed_size(end_offset))
    }

    /// What keeps the entry from being closed where its data ends at `end_offset`, if anything.
    pub open spec fn close_error(self, end_offset: u64) -> Option<ZipError> {
        if (self.force_no_zip64 && (self.requires_zip64_sizes(end_offset) || needs_zip64(self.lfh_offset))) || (
        self.requires_zip64_sizes(end_offset) && !self.local_header_has_zip64_sizes) {
            Some(ZipError::Zip64Needed(Zip64ErrorCase::LargeFile))
        } else {
            None
        }
    }

    /// The entry as it is closed where its data ends at `end_offset`.
    pub open spec fn closing(self, end_offset: u64) -> ClosingEntryView {
        let compressed_size = self.compressed_size(end_offset);
        let has_zip64_sizes = self.local_header_has_zip64_sizes;
        ClosingEntryView {
            entry: if has_zip64_sizes {
                ZipEntryView {
                    extra_fields: with_sizes(self.entry.extra_fields, self.uncompressed_size, compressed_size),
                    ..self.entry
                }
            } else {
                self.entry
            },
            lfh: LocalFileHeader {
                version: if (has_zip64_sizes || needs_zip64(self.lfh_offset)) && self.lfh.version
                    < ZIP64_VERSION_NEEDED {
                    ZIP64_VERSION_NEEDED
                } else {
                    self.lfh.version
                },
                crc: crc32_of(self.data),
                compressed_size: if has_zip64_sizes { NON_ZIP64_MAX_SIZE } else { compressed_size as u32 },
                uncompressed_size: if has_zip64_sizes { NON_ZIP64_MAX_SIZE } else { self.uncompressed_size as u32 },
                ..self.lfh
            },
            lfh_offset: self.lfh_offset,
            end_offset,
        }
    }
}

/// An entry writer for a seekable ZIP output.
///
/// This writer doesn't use data descriptors. Instead, it has a placeholder local file header written, then the entry
/// data, then the header patched with the final CRC and sizes.
///
/// If the final compressed or uncompressed size requires ZIP64 but no ZIP64 size fields were reserved up front, closing
/// this writer will fail. Use [`ZipEntryBuilder::size`](crate::entry::ZipEntryBuilder::size) to reserve those fields when
/// the size is known to exceed the non-ZIP64 limit.
pub struct EntrySeekableWriter {
    pub(crate) entry: ZipEntry,
    pub(crate) hasher: crc32fast::Hasher,
    pub(crate) uncompressed_size: u64,
    pub(crate) lfh: LocalFileHeader,
    pub(crate) lfh_offset: u64,
    pub(crate) data_offset: u64,
    pub(crate) local_header_has_zip64_sizes: bool,
    pub(crate) force_no_zip64: bool,
}

impl View for EntrySeekableWriter {
    type V = EntrySeekableWriterView;

    open(crate) spec fn view(&self) -> EntrySeekableWriterView {
        EntrySeekableWriterView {
            entry: self.entry@,
            data: hashed_bytes(self.hasher),
            uncompressed_size: self.uncompressed_size,
            lfh: self.lfh,
            lfh_offset: self.lfh_offset,
            data_offset: self.data_offset,
            local_header_has_zip64_sizes: self.local_header_has_zip64_sizes,
            force_no_zip64: self.force_no_zip64,
        }
    }
}

/// What a [`ClosingEntry`] stands for.
#[verifier::ext_equal]
pub struct ClosingEntryView {
    pub entry: ZipEntryView,
    pub lfh: LocalFileHeader,
    pub lfh_offset: u64,
    pub end_offset: u64,
}

impl ClosingEntryView {
    /// The header tells the lengths of its variable fields.
    pub open spec fn wf(self) -> bool {
        &&& self.lfh.file_name_length == self.entry.filename.basic().len()
        &&& self.lfh.extra_field_length == fields_bytes(self.entry.extra_fields).len()
        &&& self.lfh_offset + 4 <= u64::MAX
    }

    /// The local file header that replaces the placeholder, without its signature.
    pub open spec fn patch(self) -> Seq<u8> {
        self.lfh.to_bytes() + self.entry.local_trailer()
    }

    /// The extra fields of the entry in the central directory.
    pub open spec fn central_fields(self) -> Seq<ExtraFieldView> {
        if needs_zip64(self.lfh_offset) {
            with_offset(self.entry.extra_fields, self.lfh_offset)
        } else {
            self.entry.extra_fields
        }
    }

    /// What keeps the entry from being entered in the central directory, if anything.
    pub open spec fn finish_error(self) -> Option<ZipError> {
        if fields_bytes(self.central_fields()).len() > 0xffff {
            Some(ZipError::ExtraFieldTooLarge)
        } else if self.entry.comment.basic().len() > 0xffff {
            Some(ZipError::CommentTooLarge)
        } else {
            None
        }
    }

    /// The entry in the central directory.
    pub open spec fn finished(self) -> CentralDirectoryEntryView {
        CentralDirectoryEntryView {
            header: CentralDirectoryRecord {
                v_made_by: 0x33f,
                v_needed: self.lfh.version,
                flags: self.lfh.flags,
                compression: self.lfh.compression,
                mod_time: self.lfh.mod_time,
                mod_date: self.lfh.mod_date,
                crc: self.lfh.crc,
                compressed_size: self.lfh.compressed_size,
                uncompressed_size: self.lfh.uncompressed_size,
                file_name_length: self.lfh.file_name_length,
                extra_field_length: fields_bytes(self.central_fields()).len() as u16,
                file_comment_length: self.entry.comment.basic().len() as u16,
                disk_start: 0,
                inter_attr: self.entry.internal_file_attribute,
                exter_attr: self.entry.external_file_attribute,
                lh_offset: if needs_zip64(self.lfh_offset) { NON_ZIP64_MAX_SIZE } else { self.lfh_offset as u32 },
            },
            entry: ZipEntryView { extra_fields: self.central_fields(), ..self.entry },
        }
    }
}

/// An entry whose data has been written and whose local file header is to be patched.
pub struct ClosingEntry {
    pub(crate) entry: ZipEntry,
    pub(crate) lfh: LocalFileHeader,
    pub(crate) lfh_offset: u64,
    pub(crate) end_offset: u64,
}

impl View for ClosingEntry {
    type V = ClosingEntryView;

    open(crate) spec fn view(&self) -> ClosingEntryView {
        ClosingEntryView {
            entry: self.entry@,
            lfh: self.lfh,
            lfh_offset: self.lfh_offset,
            end_offset: self.end_offset,
        }
    }
}

proof fn lemma_updated_length(fields: Seq<ExtraFieldView>, i: int, field: ExtraFieldView)
    requires
        0 <= i < fields.len(),
    ensures
        fields_bytes(fields.update(i, field)).len() + fields[i].to_bytes().len() == fields_bytes(fields).len()
            + field.to_bytes().len(),
    decreases fields.len(),
{
    let updated = fields.update(i, field);
    if i == fields.len() - 1 {
        assert(updated.drop_last() =~= fields.drop_last());
    } else {
        lemma_updated_length(fields.drop_last(), i, field);
        assert(updated.drop_last() =~= fields.drop_last().update(i, field));
    }
}

/// Writing sizes where there is room for them leaves the length of the extra fields as it is.
pub proof fn lemma_sizes_fit_in_room(fields: Seq<ExtraFieldView>, uncompressed_size: u64, compressed_size: u64)
    requires
        zip64_field(fields) is Some,
        zip64_field(fields)->Some_0.uncompressed_size is Some,
        zip64_field(fields)->Some_0.compressed_size is Some,
    ensures
        fields_bytes(with_sizes(fields, uncompressed_size, compressed_size)).len() == fields_bytes(fields).len(),
{
    lemma_zip64_index(fields);
    let i = zip64_index(fields)->Some_0;
    let updated = with_sizes(fields, uncompressed_size, compressed_size);
    lemma_updated_length(fields, i, updated[i]);
    assert(updated[i].content().len() == fields[i].content().len());
}

proof fn lemma_prepared_has_room(entry: ZipEntryView)
    requires
        entry.reserves_zip64(),
    ensures
        ({
            let field = zip64_field(entry.prepared().extra_fields);
            &&& field is Some
            &&& field->Some_0.uncompressed_size is Some
            &&& field->Some_0.compressed_size is Some
        }),
{
    let room = entry.fields_with_room();
    let named = entry.fields_with_path(room);
    lemma_sizes_are_there(entry.extra_fields, entry.uncompressed_size, entry.compressed_size);
    lemma_path_keeps_zip64(room, crc32_of(entry.filename.basic()), entry.filename.raw);
    lemma_comment_keeps_zip64(named, crc32_of(entry.comment.basic()), entry.comment.raw);
}

/// Adds to an entry the extra fields that its local file header is written with.
fn prepare(entry: &mut ZipEntry, reserves_zip64: bool)
    requires
        reserves_zip64 == old(entry)@.reserves_zip64(),
    ensures
        final(entry)@ == old(entry)@.prepared(),
{
    if reserves_zip64 {
        // Reserve ZIP64 size slots up front so the later header patch stays the same width.
        put_sizes(&mut entry.extra_fields, entry.uncompressed_size, entry.compressed_size);
    }
    let utf8_without_alternative: bool = entry.filename.is_utf8_without_alternative()
        && entry.comment.is_utf8_without_alternative();
    if !utf8_without_alternative {
        if matches!(entry.filename.encoding(), StringEncoding::Utf8) {
            let u_file_name = copy(entry.filename.as_bytes());
            if u_file_name.len() > 0 {
                let basic_crc32: u32 = crc32fast::hash(entry.filename.basic());
                put_path(&mut entry.extra_fields, basic_crc32, u_file_name);
            }
        }
        if matches!(entry.comment.encoding(), StringEncoding::Utf8) {
            let u_comment = copy(entry.comment.as_bytes());
            if u_comment.len() > 0 {
                let basic_crc32: u32 = crc32fast::hash(entry.comment.basic());
                put_comment(&mut entry.extra_fields, basic_crc32, u_comment);
            }
        }
    }
}

/// Returns the variable fields of an entry's local file header, behind `start`.
fn append_trailer(start: Vec<u8>, entry: &ZipEntry) -> (r: Vec<u8>)
    ensures
        r@ == start@ + entry@.local_trailer(),
{
    let mut out = start;
    push_bytes(&mut out, entry.filename.basic());
    push_bytes(&mut out, as_bytes(entry.extra_fields.as_slice()).as_slice());
    assert(out@ =~= start@ + entry@.local_trailer());
    out
}

impl EntrySeekableWriter {
    /// Begins an entry whose local file header will stand at `lfh_offset`. Beside the entry writer comes the placeholder
    /// of that header, with its signature, which is to be written there.
    ///
    /// Until the entry is completed, the archive counts as poisoned.
    pub(crate) fn from_raw(writer: &mut ZipFileWriter, entry: ZipEntry, lfh_offset: u64) -> (r: Result<
        (EntrySeekableWriter, Vec<u8>),
        ZipError,
    >)
        requires
            !old(writer)@.poisoned,
            lfh_offset + MAX_LOCAL_HEADER_LENGTH <= u64::MAX,
        ensures
            begun(old(writer)@, entry@, lfh_offset, r, final(writer)@),
    {
        if writer.force_no_zip64 && writer.cd_entries.len() >= NON_ZIP64_MAX_NUM_FILES as usize {
            return Err(ZipError::Zip64Needed(Zip64ErrorCase::TooManyFiles));
        }
        if matches!(entry.compression(), Compression::Deflate64) {
            return Err(ZipError::FeatureNotSupported("Deflate64 writing"));
        }
        let ghost before = entry@;
        let mut entry = entry;
        let (lfh, local_header_has_zip64_sizes, header) = EntrySeekableWriter::write_lfh(writer, &mut entry)?;
        let data_offset: u64 = lfh_offset + header.len() as u64;
        writer.poisoned = true;
        proof {
            if local_header_has_zip64_sizes {
                lemma_prepared_has_room(before);
            }
        }
        Ok(
            (
                EntrySeekableWriter {
                    entry,
                    hasher: crc32fast::Hasher::new(),
                    uncompressed_size: 0,
                    lfh,
                    lfh_offset,
                    data_offset,
                    local_header_has_zip64_sizes,
                    force_no_zip64: writer.force_no_zip64,
                },
                header,
            ),
        )
    }

    /// Prepares an entry and returns the placeholder of its local file header, and whether that has room for ZIP64 sizes.
    /// Beside it come the bytes that are to be written.
    fn write_lfh(writer: &mut ZipFileWriter, entry: &mut ZipEntry) -> (r: Result<
        (LocalFileHeader, bool, Vec<u8>),
        ZipError,
    >)
        ensures
            final(writer)@ == old(writer)@.with_zip64(old(entry)@.reserves_zip64() && !old(writer)@.force_no_zip64),
            match old(entry)@.header_error(old(writer)@.force_no_zip64) {
                Some(e) => {
                    &&& r == Err::<(LocalFileHeader, bool, Vec<u8>), ZipError>(e)
                    &&& final(entry)@ == (if e is Zip64Needed { old(entry)@ } else { old(entry)@.prepared() })
                },
                None => {
                    &&& r is Ok
                    &&& final(entry)@ == old(entry)@.prepared()
                    &&& r->Ok_0.0 == final(entry)@.placeholder(r->Ok_0.1)
                    &&& r->Ok_0.1 == old(entry)@.reserves_zip64()
                    &&& r->Ok_0.2@ == le32_bytes(LFH_SIGNATURE) + r->Ok_0.0.to_bytes() + final(entry)@.local_trailer()
                    &&& r->Ok_0.2@.len() == 30 + final(entry)@.local_trailer().len()
                },
            },
    {
        let local_header_has_zip64_sizes: bool = entry.uncompressed_size >= NON_ZIP64_MAX_SIZE as u64
            || entry.compressed_size >= NON_ZIP64_MAX_SIZE as u64;
        if local_header_has_zip64_sizes {
            if writer.force_no_zip64 {
                return Err(ZipError::Zip64Needed(Zip64ErrorCase::LargeFile));
            }
            writer.is_zip64 = true;
        }
        prepare(entry, local_header_has_zip64_sizes);
        let extra_field_length: u16 = field_length(entry.extra_fields.as_slice())?;
        if entry.filename.basic().len() > 0xffff {
            return Err(ZipError::FileNameTooLarge);
        }
        let size: u32 = if local_header_has_zip64_sizes { NON_ZIP64_MAX_SIZE } else { 0 };
        let lfh = LocalFileHeader {
            compressed_size: size,
            uncompressed_size: size,
            compression: entry.compression.method(),
            crc: entry.crc32,
            extra_field_length,
            file_name_length: entry.filename.basic().len() as u16,
            mod_time: entry.last_modification_date.time,
            mod_date: entry.last_modification_date.date,
            version: as_needed_to_extract(entry),
            flags: GeneralPurposeFlag {
                data_descriptor: false,
                encrypted: false,
                filename_unicode: entry.filename.is_utf8_without_alternative()
                    && entry.comment.is_utf8_without_alternative(),
            },
        };
        let mut header: Vec<u8> = Vec::new();
        push_u32(&mut header, LFH_SIGNATURE);
        push_bytes(&mut header, lfh.as_slice().as_slice());
        assert(header@ =~= le32_bytes(LFH_SIGNATURE) + lfh.to_bytes());
        let header = append_trailer(header, entry);
        Ok((lfh, local_header_has_zip64_sizes, header))
    }

    /// Returns the offset where the entry's data starts.
    pub fn data_offset(&self) -> (r: u64)
        ensures
            r == self@.data_offset,
    {
        self.data_offset
    }

    /// Returns the entry's compression method.
    pub fn compression(&self) -> (r: Compression)
        ensures
            r == self@.entry.compression,
    {
        self.entry.compression
    }

    /// Notes that the first `written` bytes of `buf` were accepted as the entry's next data.
    pub fn record_write(&mut self, buf: &[u8], written: usize)
        requires
            old(self)@.wf(),
            written <= buf@.len(),
            old(self)@.data.len() + written <= u64::MAX,
        ensures
            final(self)@.wf(),
            final(self)@ == old(self)@.recorded(buf@, written as nat),
    {
        let accepted = slice_subrange(buf, 0, written);
        assert(accepted@ =~= buf@.take(written as int));
        self.hasher.update(accepted);
        self.uncompressed_size = self.uncompressed_size + written as u64;
    }

    /// Gives the entry up because its header or its data could not be written. The entry is then complete, and it is not in
    /// the central directory.
    pub fn fail(self, writer: &mut ZipFileWriter)
        ensures
            final(writer)@ == (ZipFileWriterView { poisoned: false, ..old(writer)@ }),
    {
        writer.poisoned = false;
    }

    /// Consumes this entry writer, once its compressed data has been written up to `end_offset`.
    ///
    /// This includes:
    /// - Finalising the CRC32 hash value for the written data.
    /// - Calculating the compressed and uncompressed byte sizes.
    /// - Patching the local file header: what is to be written, and where, is returned.
    ///
    /// The archive is the one that the entry was begun in. An error completes the entry.
    pub fn close(self, writer: &mut ZipFileWriter, end_offset: u64) -> (r: Result<ClosingEntry, ZipError>)
        requires
            self@.wf(),
            self@.data_offset <= end_offset,
        ensures
            match self@.close_error(end_offset) {
                Some(e) => r == Err::<ClosingEntry, ZipError>(e),
                None => r is Ok && r->Ok_0@ == self@.closing(end_offset) && r->Ok_0@.wf(),
            },
            final(writer)@ == old(writer)@.after_close(self@, end_offset),
            old(writer)@.wf() ==> final(writer)@.wf(),
    {
        let ghost before = self@;
        let crc: u32 = self.hasher.finalize();
        let uncompressed_size: u64 = self.uncompressed_size;
        let compressed_size: u64 = end_offset - self.data_offset;
        let requires_zip64_sizes: bool = uncompressed_size >= NON_ZIP64_MAX_SIZE as u64 || compressed_size
            >= NON_ZIP64_MAX_SIZE as u64;
        let requires_zip64_offset: bool = self.lfh_offset >= NON_ZIP64_MAX_SIZE as u64;
        if self.force_no_zip64 && (requires_zip64_sizes || requires_zip64_offset) {
            writer.poisoned = false;
            return Err(ZipError::Zip64Needed(Zip64ErrorCase::LargeFile));
        }
        if requires_zip64_sizes && !self.local_header_has_zip64_sizes {
            writer.poisoned = false;
            return Err(ZipError::Zip64Needed(Zip64ErrorCase::LargeFile));
        }
        let mut lfh = self.lfh;
        let mut entry = self.entry;
        if self.local_header_has_zip64_sizes {
            writer.is_zip64 = true;
            lfh.compressed_size = NON_ZIP64_MAX_SIZE;
            lfh.uncompressed_size = NON_ZIP64_MAX_SIZE;
            put_sizes(&mut entry.extra_fields, uncompressed_size, compressed_size);
            proof {
                lemma_sizes_fit_in_room(before.entry.extra_fields, uncompressed_size, compressed_size);
            }
        } else {
            lfh.compressed_size = compressed_size as u32;
            lfh.uncompressed_size = uncompressed_size as u32;
        }
        if (self.local_header_has_zip64_sizes || requires_zip64_offset) && lfh.version < ZIP64_VERSION_NEEDED {
            lfh.version = ZIP64_VERSION_NEEDED;
        }
        lfh.crc = crc;
        Ok(ClosingEntry { entry, lfh, lfh_offset: self.lfh_offset, end_offset })
    }
}

/// What comes of beginning an entry in an archive, `before`: an entry writer and the placeholder, or an error; and the
/// archive afterwards.
pub open spec fn begun(
    before: ZipFileWriterView,
    entry: ZipEntryView,
    lfh_offset: u64,
    r: Result<(EntrySeekableWriter, Vec<u8>), ZipError>,
    after: ZipFileWriterView,
) -> bool {
    let reserves = entry.reserves_zip64() && !before.force_no_zip64;
    match before.admission_error(entry) {
        Some(e) => r == Err::<(EntrySeekableWriter, Vec<u8>), ZipError>(e) && after == before,
        None => match entry.header_error(before.force_no_zip64) {
            Some(e) => {
                &&& r == Err::<(EntrySeekableWriter, Vec<u8>), ZipError>(e)
                &&& after == before.with_zip64(reserves)
            },
            None => {
                let begun = r->Ok_0.0@;
                &&& r is Ok
                &&& begun.wf()
                &&& begun.entry == entry.prepared()
                &&& begun.data == Seq::<u8>::empty()
                &&& begun.lfh_offset == lfh_offset
                &&& begun.local_header_has_zip64_sizes == entry.reserves_zip64()
                &&& begun.force_no_zip64 == before.force_no_zip64
                &&& r->Ok_0.1@ == le32_bytes(LFH_SIGNATURE) + begun.lfh.to_bytes() + begun.entry.local_trailer()
                &&& after == (ZipFileWriterView { poisoned: true, ..before.with_zip64(reserves) })
            },
        },
    }
}

impl ZipFileWriter {
    /// Begins an entry whose local file header will stand at `lfh_offset`, where the archive ends so far. Beside the entry
    /// writer comes the placeholder of that header, with its signature, which is to be written there.
    ///
    /// Until the entry is completed, no other can be begun: an entry that is abandoned leaves the archive poisoned.
    pub fn write_entry_seekable(&mut self, entry: ZipEntry, lfh_offset: u64) -> (r: Result<
        (EntrySeekableWriter, Vec<u8>),
        ZipError,
    >)
        requires
            lfh_offset + MAX_LOCAL_HEADER_LENGTH <= u64::MAX,
        ensures
            begun(old(self)@, entry@, lfh_offset, r, final(self)@),
            old(self)@.wf() ==> final(self)@.wf(),
    {
        if self.poisoned {
            return Err(ZipError::WriterPoisoned);
        }
        EntrySeekableWriter::from_raw(self, entry, lfh_offset)
    }
}

impl ClosingEntry {
    /// Gives the entry up because its local file header could not be patched. The entry is then complete, and it is not in
    /// the central directory.
    pub fn fail(self, writer: &mut ZipFileWriter)
        ensures
            final(writer)@ == (ZipFileWriterView { poisoned: false, ..old(writer)@ }),
    {
        writer.poisoned = false;
    }

    /// Returns the offset where the patch is to be written: behind the signature of the local file header.
    pub fn patch_offset(&self) -> (r: u64)
        requires
            self@.wf(),
        ensures
            r == self@.lfh_offset + 4,
    {
        self.lfh_offset + 4
    }

    /// Returns the local file header that replaces the placeholder, without its signature.
    pub fn patch(&self) -> (r: Vec<u8>)
        ensures
            r@ == self@.patch(),
    {
        append_trailer(self.lfh.as_slice(), &self.entry)
    }

    /// Returns the offset where the entry's data ends, and where writing goes on after the patch.
    pub fn end_offset(&self) -> (r: u64)
        ensures
            r == self@.end_offset,
    {
        self.end_offset
    }

    /// Consumes this entry, once its local file header has been patched.
    ///
    /// This includes:
    /// - Constructing a central directory header.
    /// - Pushing that central directory header to the [`ZipFileWriter`]'s store.
    ///
    /// Either way, the entry is then complete.
    pub fn finish(self, writer: &mut ZipFileWriter) -> (r: Result<(), ZipError>)
        requires
            self@.wf(),
        ensures
            r == (match self@.finish_error() {
                Some(e) => Err(e),
                None => Ok(()),
            }),
            final(writer)@ == old(writer)@.after_finish(self@),
            old(writer)@.wf() ==> final(writer)@.wf(),
    {
        writer.poisoned = false;
        let mut entry = self.entry;
        let lfh = self.lfh;
        let mut lh_offset: u32 = NON_ZIP64_MAX_SIZE;
        if self.lfh_offset >= NON_ZIP64_MAX_SIZE as u64 {
            writer.is_zip64 = true;
            put_offset(&mut entry.extra_fields, self.lfh_offset);
        } else {
            lh_offset = self.lfh_offset as u32;
        }
        let extra_field_length: u16 = field_length(entry.extra_fields.as_slice())?;
        if entry.comment.basic().len() > 0xffff {
            return Err(ZipError::CommentTooLarge);
        }
        let header = CentralDirectoryRecord {
            compressed_size: lfh.compressed_size,
            uncompressed_size: lfh.uncompressed_size,
            crc: lfh.crc,
            v_made_by: as_made_by(),
            v_needed: lfh.version,
            compression: lfh.compression,
            extra_field_length,
            file_name_length: lfh.file_name_length,
            file_comment_length: entry.comment.basic().len() as u16,
            mod_time: lfh.mod_time,
            mod_date: lfh.mod_date,
            flags: lfh.flags,
            disk_start: 0,
            inter_attr: entry.internal_file_attribute,
            exter_attr: entry.external_file_attribute,
            lh_offset,
        };
        let ghost entries = writer@.cd_entries;
        let ghost view = CentralDirectoryEntryView { header, entry: entry@ };
        writer.cd_entries.push(CentralDirectoryEntry { header, entry });
        assert(written_views(writer.cd_entries@) =~= entries.push(view));
        // Mark the archive as ZIP64 once the central directory no longer fits in the legacy count field.
        if writer.cd_entries.len() > NON_ZIP64_MAX_NUM_FILES as usize {
            writer.is_zip64 = true;
        }
        Ok(())
    }
}

} // verus!
