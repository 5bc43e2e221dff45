//! The extra fields that are written can be read.

use vstd::prelude::*;

use crate::crc::crc32_of;
use crate::entry::ZipEntryView;
use crate::format::extra_field::{fields_bytes, fields_readable, zip64_wants, ExtraFieldView, UnicodeFieldView};
use crate::format::extra_field::{Zip64Wants, INFO_ZIP_UNICODE_COMMENT_ID, INFO_ZIP_UNICODE_PATH_ID};
use crate::format::extra_field::ZIP64_EXTENDED_INFORMATION_ID;
use crate::law::round_trip::writes;
use crate::read::fields::{lemma_zip64_index, zip64_index};
use crate::write::entry_seekable::{lemma_sizes_fit_in_room, needs_zip64, EntrySeekableWriterView};
use crate::write::fields::{comment_index, lemma_comment_keeps_zip64, lemma_first_index, lemma_path_keeps_zip64};
use crate::write::fields::{lemma_sizes_are_there, path_index, with_comment, with_offset, with_path, with_sizes};

verus! {

impl ExtraFieldView {
    /// Whether the field does not pretend to be of another kind.
    pub open spec fn genuine(self) -> bool {
        match self {
            ExtraFieldView::InfoZipUnicodeComment(UnicodeFieldView::Unknown { version, data }) => version != 1,
            ExtraFieldView::InfoZipUnicodePath(UnicodeFieldView::Unknown { version, data }) => version != 1,
            ExtraFieldView::Unknown { header_id, content } => {
                &&& header_id != ZIP64_EXTENDED_INFORMATION_ID
                &&& header_id != INFO_ZIP_UNICODE_COMMENT_ID
                &&& header_id != INFO_ZIP_UNICODE_PATH_ID
            },
            _ => true,
        }
    }

    /// Whether the field, if it is ZIP64 extended information, holds exactly the sizes where `sizes`, and the offset where
    /// `offset`.
    pub open spec fn extends(self, sizes: bool, offset: bool) -> bool {
        self matches ExtraFieldView::Zip64ExtendedInformation(zip64) ==> {
            &&& zip64.uncompressed_size is Some == sizes
            &&& zip64.compressed_size is Some == sizes
            &&& zip64.relative_header_offset is Some == offset
            &&& zip64.disk_start_number is None
        }
    }
}

/// Whether no field pretends to be of another kind, no id occurs twice, and ZIP64 extended information holds exactly the
/// sizes where `sizes`, and the offset where `offset`.
pub open spec fn are_sound(fields: Seq<ExtraFieldView>, sizes: bool, offset: bool) -> bool {
    &&& forall|i: int| 0 <= i < fields.len() ==> #[trigger] fields[i].genuine()
    &&& forall|i: int| 0 <= i < fields.len() ==> #[trigger] fields[i].extends(sizes, offset)
    &&& forall|i: int, j: int| 0 <= i < j < fields.len() ==> #[trigger] fields[i].id() != #[trigger] fields[j].id()
}

/// Whether the entry's own extra fields are sound. ZIP64 extended information among them may hold sizes only where the
/// writer sets room for them aside.
pub open spec fn has_sound_fields(entry: ZipEntryView) -> bool {
    are_sound(entry.fields_with_room(), entry.reserves_zip64(), false)
}

proof fn lemma_genuine_id(field: ExtraFieldView)
    requires
        field.genuine(),
    ensures
        field.id() == ZIP64_EXTENDED_INFORMATION_ID <==> field is Zip64ExtendedInformation,
        field.id() == INFO_ZIP_UNICODE_PATH_ID <==> field is InfoZipUnicodePath,
        field.id() == INFO_ZIP_UNICODE_COMMENT_ID <==> field is InfoZipUnicodeComment,
{
}

proof fn lemma_push_is_sound(fields: Seq<ExtraFieldView>, field: ExtraFieldView, sizes: bool, offset: bool)
    requires
        are_sound(fields, sizes, offset),
        field.genuine(),
        field.extends(sizes, offset),
        forall|i: int| 0 <= i < fields.len() ==> #[trigger] fields[i].id() != field.id(),
    ensures
        are_sound(fields.push(field), sizes, offset),
{
    let after = fields.push(field);
    assert forall|i: int| 0 <= i < after.len() implies #[trigger] after[i].genuine() by {
        if i < fields.len() {
            assert(fields[i].genuine());
        }
    }
    assert forall|i: int| 0 <= i < after.len() implies #[trigger] after[i].extends(sizes, offset) by {
        if i < fields.len() {
            assert(fields[i].extends(sizes, offset));
        }
    }
}

proof fn lemma_update_is_sound(
    fields: Seq<ExtraFieldView>,
    k: int,
    field: ExtraFieldView,
    sizes: bool,
    offset: bool,
    sizes_after: bool,
    offset_after: bool,
)
    requires
        are_sound(fields, sizes, offset),
        0 <= k < fields.len(),
        field.genuine(),
        field.id() == fields[k].id(),
        field.extends(sizes_after, offset_after),
        (sizes, offset) == (sizes_after, offset_after) || field is Zip64ExtendedInformation,
    ensures
        are_sound(fields.update(k, field), sizes_after, offset_after),
{
    let after = fields.update(k, field);
    assert forall|i: int| 0 <= i < after.len() implies #[trigger] after[i].genuine() by {
        assert(fields[i].genuine());
    }
    assert forall|i: int| 0 <= i < after.len() implies #[trigger] after[i].extends(sizes_after, offset_after) by {
        assert(fields[i].extends(sizes, offset));
        assert(fields[i].genuine());
        if i != k {
            lemma_genuine_id(fields[i]);
            lemma_genuine_id(field);
            assert(fields[i].id() != fields[k].id());
        }
    }
    assert forall|i: int, j: int| 0 <= i < j < after.len() implies #[trigger] after[i].id()
        != #[trigger] after[j].id() by {
        assert(fields[i].id() != fields[j].id());
    }
}

proof fn lemma_path_is_sound(
    fields: Seq<ExtraFieldView>,
    crc32: u32,
    unicode: Seq<u8>,
    sizes: bool,
    offset: bool,
)
    requires
        are_sound(fields, sizes, offset),
    ensures
        are_sound(with_path(fields, crc32, unicode), sizes, offset),
{
    let p = |field: ExtraFieldView| field is InfoZipUnicodePath;
    let field = ExtraFieldView::InfoZipUnicodePath(UnicodeFieldView::V1 { crc32, unicode });
    lemma_first_index(fields, p);
    match path_index(fields) {
        Some(i) => {
            assert(p(fields[i]));
            lemma_update_is_sound(fields, i, field, sizes, offset, sizes, offset);
        },
        None => {
            assert forall|i: int| 0 <= i < fields.len() implies #[trigger] fields[i].id() != field.id() by {
                assert(!p(fields[i]));
                lemma_genuine_id(fields[i]);
            }
            lemma_push_is_sound(fields, field, sizes, offset);
        },
    }
}

proof fn lemma_comment_is_sound(
    fields: Seq<ExtraFieldView>,
    crc32: u32,
    unicode: Seq<u8>,
    sizes: bool,
    offset: bool,
)
    requires
        are_sound(fields, sizes, offset),
    ensures
        are_sound(with_comment(fields, crc32, unicode), sizes, offset),
{
    let p = |field: ExtraFieldView| field is InfoZipUnicodeComment;
    let field = ExtraFieldView::InfoZipUnicodeComment(UnicodeFieldView::V1 { crc32, unicode });
    lemma_first_index(fields, p);
    match comment_index(fields) {
        Some(i) => {
            assert(p(fields[i]));
            lemma_update_is_sound(fields, i, field, sizes, offset, sizes, offset);
        },
        None => {
            assert forall|i: int| 0 <= i < fields.len() implies #[trigger] fields[i].id() != field.id() by {
                assert(!p(fields[i]));
                lemma_genuine_id(fields[i]);
            }
            lemma_push_is_sound(fields, field, sizes, offset);
        },
    }
}

proof fn lemma_sizes_are_sound(fields: Seq<ExtraFieldView>, uncompressed_size: u64, compressed_size: u64)
    requires
        are_sound(fields, true, false),
        zip64_index(fields) is Some,
    ensures
        are_sound(with_sizes(fields, uncompressed_size, compressed_size), true, false),
{
    lemma_zip64_index(fields);
    let i = zip64_index(fields)->Some_0;
    assert(fields[i].extends(true, false));
    let after = with_sizes(fields, uncompressed_size, compressed_size);
    lemma_update_is_sound(fields, i, after[i], true, false, true, false);
}

proof fn lemma_offset_is_sound(fields: Seq<ExtraFieldView>, offset: u64, sizes: bool)
    requires
        are_sound(fields, sizes, false),
        sizes ==> zip64_index(fields) is Some,
    ensures
        are_sound(with_offset(fields, offset), sizes, true),
{
    let after = with_offset(fields, offset);
    lemma_zip64_index(fields);
    match zip64_index(fields) {
        Some(i) => {
            assert(fields[i].extends(sizes, false));
            lemma_update_is_sound(fields, i, after[i], sizes, false, sizes, true);
        },
        None => {
            let field = after[fields.len() as int];
            assert forall|i: int| 0 <= i < fields.len() implies #[trigger] fields[i].id() != field.id() by {
                assert(!(fields[i] is Zip64ExtendedInformation));
                lemma_genuine_id(fields[i]);
            }
            assert(are_sound(fields, sizes, true)) by {
                assert forall|i: int| 0 <= i < fields.len() implies #[trigger] fields[i].extends(sizes, true) by {
                    assert(!(fields[i] is Zip64ExtendedInformation));
                }
            }
            lemma_push_is_sound(fields, field, sizes, true);
        },
    }
}

proof fn lemma_content_fits(fields: Seq<ExtraFieldView>, i: int)
    requires
        0 <= i < fields.len(),
    ensures
        fields[i].content().len() <= fields_bytes(fields).len(),
    decreases fields.len(),
{
    if i < fields.len() - 1 {
        lemma_content_fits(fields.drop_last(), i);
    }
}

proof fn lemma_sound_fields_are_readable(fields: Seq<ExtraFieldView>, sizes: bool, offset: bool)
    requires
        are_sound(fields, sizes, offset),
        fields_bytes(fields).len() <= 0xffff,
    ensures
        fields_readable(
            fields,
            (Zip64Wants {
                uncompressed_size: sizes,
                compressed_size: sizes,
                relative_header_offset: offset,
                disk_start_number: false,
            }),
        ),
{
    let wants = Zip64Wants {
        uncompressed_size: sizes,
        compressed_size: sizes,
        relative_header_offset: offset,
        disk_start_number: false,
    };
    assert forall|i: int| 0 <= i < fields.len() implies #[trigger] fields[i].readable(wants) by {
        assert(fields[i].genuine());
        assert(fields[i].extends(sizes, offset));
        lemma_content_fits(fields, i);
    }
}

proof fn lemma_prepared_fields_are_sound(entry: ZipEntryView)
    requires
        has_sound_fields(entry),
    ensures
        are_sound(entry.prepared().extra_fields, entry.reserves_zip64(), false),
        entry.reserves_zip64() ==> zip64_index(entry.prepared().extra_fields) is Some,
{
    let room = entry.fields_with_room();
    let named = entry.fields_with_path(room);
    let path_crc32 = crc32_of(entry.filename.basic());
    let comment_crc32 = crc32_of(entry.comment.basic());
    lemma_path_is_sound(room, path_crc32, entry.filename.raw, entry.reserves_zip64(), false);
    lemma_comment_is_sound(named, comment_crc32, entry.comment.raw, entry.reserves_zip64(), false);
    lemma_sizes_are_there(entry.extra_fields, entry.uncompressed_size, entry.compressed_size);
    lemma_path_keeps_zip64(room, path_crc32, entry.filename.raw);
    lemma_comment_keeps_zip64(named, comment_crc32, entry.comment.raw);
}

proof fn lemma_closing_fields_are_sound(entry: ZipEntryView, writer: EntrySeekableWriterView, end_offset: u64)
    requires
        writes(writer, entry, end_offset),
        has_sound_fields(entry),
    ensures
        ({
            let fields = writer.closing(end_offset).entry.extra_fields;
            &&& are_sound(fields, writer.local_header_has_zip64_sizes, false)
            &&& fields_bytes(fields).len() <= 0xffff
            &&& writer.local_header_has_zip64_sizes ==> zip64_index(fields) is Some
        }),
{
    let fields = writer.entry.extra_fields;
    let uncompressed_size = writer.uncompressed_size;
    let compressed_size = writer.compressed_size(end_offset);
    lemma_prepared_fields_are_sound(entry);
    if writer.local_header_has_zip64_sizes {
        lemma_sizes_are_sound(fields, uncompressed_size, compressed_size);
        lemma_sizes_fit_in_room(fields, uncompressed_size, compressed_size);
        lemma_sizes_are_there(fields, uncompressed_size, compressed_size);
    }
}

/// The extra fields that an entry is written with can be read from its local file header, if its own extra fields are sound.
pub proof fn lemma_local_fields_are_readable(entry: ZipEntryView, writer: EntrySeekableWriterView, end_offset: u64)
    requires
        writes(writer, entry, end_offset),
        has_sound_fields(entry),
    ensures
        ({
            let closing = writer.closing(end_offset);
            fields_readable(
                closing.entry.extra_fields,
                zip64_wants(closing.lfh.uncompressed_size, closing.lfh.compressed_size, None, None),
            )
        }),
{
    lemma_closing_fields_are_sound(entry, writer, end_offset);
    lemma_sound_fields_are_readable(
        writer.closing(end_offset).entry.extra_fields,
        writer.local_header_has_zip64_sizes,
        false,
    );
}

/// The extra fields that an entry is written with can be read from the central directory, if its own extra fields are sound.
pub proof fn lemma_central_fields_are_readable(entry: ZipEntryView, writer: EntrySeekableWriterView, end_offset: u64)
    requires
        writes(writer, entry, end_offset),
        has_sound_fields(entry),
        writer.closing(end_offset).finish_error() is None,
    ensures
        ({
            let written = writer.closing(end_offset).finished();
            fields_readable(written.entry.extra_fields, written.wants())
        }),
{
    let closing = writer.closing(end_offset);
    let sizes = writer.local_header_has_zip64_sizes;
    lemma_closing_fields_are_sound(entry, writer, end_offset);
    if needs_zip64(writer.lfh_offset) {
        lemma_offset_is_sound(closing.entry.extra_fields, writer.lfh_offset, sizes);
    }
    lemma_sound_fields_are_readable(closing.central_fields(), sizes, needs_zip64(writer.lfh_offset));
}

/// An entry without extra fields of its own has sound fields, and its name and its comment are left alone.
pub proof fn lemma_no_own_fields(entry: ZipEntryView)
    requires
        entry.extra_fields.len() == 0,
        entry.filename.raw.len() > 0 || entry.filename.basic().len() == 0,
        entry.comment.raw.len() > 0 || entry.comment.basic().len() == 0,
    ensures
        has_sound_fields(entry),
        entry.fields_keep_name(),
        entry.fields_keep_comment(),
{
    lemma_zip64_index(entry.extra_fields);
    lemma_first_index(entry.extra_fields, |field: ExtraFieldView| field is InfoZipUnicodePath);
    lemma_first_index(entry.extra_fields, |field: ExtraFieldView| field is InfoZipUnicodeComment);
}

} // verus!
