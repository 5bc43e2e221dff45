//! How extra fields are framed, and what they say.

use vstd::prelude::*;

use crate::bytes::{le16, le16_bytes, le32, le32_bytes, le64, le64_bytes, lemma_le16_reads_back};
use crate::error::ZipError;
use crate::format::extra_field::{has_id, parse_after, parse_all, parse_field, zip64_wants};
use crate::format::extra_field::{fields_bytes, ExtraFieldView, UnicodeFieldView, Zip64Wants};

verus! {

/// Extra fields, each an id and a content, as bytes: the id, the length of the content, the content.
pub open spec fn framed(raw: Seq<(u16, Seq<u8>)>) -> Seq<u8>
    decreases raw.len(),
{
    if raw.len() == 0 {
        Seq::empty()
    } else {
        le16_bytes(raw[0].0) + le16_bytes(raw[0].1.len() as u16) + raw[0].1 + framed(raw.drop_first())
    }
}

/// A header refers to ZIP64 metadata for a value by the greatest number that fits in its place.
pub proof fn lemma_wanted_values(uncompressed: u32, compressed: u32, offset: Option<u32>, disk: Option<u16>)
    ensures
        ({
            let wants = zip64_wants(uncompressed, compressed, offset, disk);
            &&& wants.uncompressed_size <==> uncompressed == 0xffff_ffff
            &&& wants.compressed_size <==> compressed == 0xffff_ffff
            &&& wants.relative_header_offset <==> offset is Some && offset->Some_0 == 0xffff_ffff
            &&& wants.disk_start_number <==> disk is Some && disk->Some_0 == 0xffff
        }),
{
}

/// ZIP64 extended information holds the values that are wanted and no others, one after the other: the uncompressed size, the
/// compressed size, the offset and the disk.
pub proof fn lemma_zip64_field_is_read(data: Seq<u8>, wants: Zip64Wants)
    requires
        data.len() <= 0xffff,
    ensures
        ({
            let sizes = (if wants.uncompressed_size {
                8int
            } else {
                0
            }) + (if wants.compressed_size {
                8int
            } else {
                0
            });
            let disk_at = sizes + (if wants.relative_header_offset {
                8int
            } else {
                0
            });
            let length = disk_at + (if wants.disk_start_number {
                4int
            } else {
                0
            });
            let field = parse_field(0x0001, data, wants);
            &&& data.len() < length ==> field == Err::<ExtraFieldView, ZipError>(ZipError::Zip64ExtendedFieldIncomplete)
            &&& data.len() > length ==> field == Err::<ExtraFieldView, ZipError>(
                ZipError::Zip64ExtendedInformationFieldTooLong { expected: length as usize, actual: data.len() as usize },
            )
            &&& data.len() == length ==> {
                &&& field matches Ok(ExtraFieldView::Zip64ExtendedInformation(zip64))
                &&& zip64.uncompressed_size == (if wants.uncompressed_size {
                    Some(le64(data, 0))
                } else {
                    None
                })
                &&& zip64.compressed_size == (if wants.compressed_size {
                    Some(
                        le64(
                            data,
                            if wants.uncompressed_size {
                                8
                            } else {
                                0
                            },
                        ),
                    )
                } else {
                    None
                })
                &&& zip64.relative_header_offset == (if wants.relative_header_offset {
                    Some(le64(data, sizes))
                } else {
                    None
                })
                &&& zip64.disk_start_number == (if wants.disk_start_number {
                    Some(le32(data, disk_at))
                } else {
                    None
                })
            }
        }),
{
}

/// A Unicode path or comment starts with a version. In version 1 a checksum and the text follow. Other versions are kept as
/// they are.
pub proof fn lemma_unicode_field_is_read(data: Seq<u8>, wants: Zip64Wants)
    ensures
        data.len() == 0 || data[0] == 1 && data.len() < 5 ==> {
            &&& parse_field(0x7075, data, wants) == Err::<ExtraFieldView, ZipError>(
                ZipError::InfoZipUnicodePathFieldIncomplete,
            )
            &&& parse_field(0x6375, data, wants) == Err::<ExtraFieldView, ZipError>(
                ZipError::InfoZipUnicodeCommentFieldIncomplete,
            )
        },
        data.len() >= 5 && data[0] == 1 ==> {
            let field = UnicodeFieldView::V1 { crc32: le32(data, 1), unicode: data.subrange(5, data.len() as int) };
            &&& parse_field(0x7075, data, wants) == Ok::<ExtraFieldView, ZipError>(
                ExtraFieldView::InfoZipUnicodePath(field),
            )
            &&& parse_field(0x6375, data, wants) == Ok::<ExtraFieldView, ZipError>(
                ExtraFieldView::InfoZipUnicodeComment(field),
            )
        },
        data.len() > 0 && data[0] != 1 ==> {
            let field = UnicodeFieldView::Unknown { version: data[0], data: data.subrange(1, data.len() as int) };
            &&& parse_field(0x7075, data, wants) == Ok::<ExtraFieldView, ZipError>(
                ExtraFieldView::InfoZipUnicodePath(field),
            )
            &&& parse_field(0x6375, data, wants) == Ok::<ExtraFieldView, ZipError>(
                ExtraFieldView::InfoZipUnicodeComment(field),
            )
        },
{
    if data.len() >= 5 {
        assert(data.skip(5) =~= data.subrange(5, data.len() as int));
    }
    if data.len() >= 1 {
        assert(data.skip(1) =~= data.subrange(1, data.len() as int));
    }
}

/// A field with any other id is kept as it is.
pub proof fn lemma_other_field_is_kept(id: u16, data: Seq<u8>, wants: Zip64Wants)
    requires
        id != 0x0001,
        id != 0x6375,
        id != 0x7075,
    ensures
        parse_field(id, data, wants) == Ok::<ExtraFieldView, ZipError>(
            ExtraFieldView::Unknown { header_id: id, content: data },
        ),
{
}

/// A field that was read has the id under which it was read.
pub proof fn lemma_field_keeps_id(id: u16, data: Seq<u8>, wants: Zip64Wants)
    ensures
        parse_field(id, data, wants) matches Ok(field) ==> field.id() == id,
{
}

/// What reading one framed field and what follows it comes down to.
proof fn lemma_frame_step(id: u16, content: Seq<u8>, rest: Seq<u8>, wants: Zip64Wants, seen: Seq<ExtraFieldView>)
    requires
        content.len() <= 0xffff,
    ensures
        ({
            let data = le16_bytes(id) + le16_bytes(content.len() as u16) + content + rest;
            parse_after(data, wants, seen) == (if has_id(seen, id) {
                Err(ZipError::DuplicateExtraFieldHeader(id))
            } else {
                match parse_field(id, content, wants) {
                    Err(e) => Err(e),
                    Ok(field) => parse_after(rest, wants, seen.push(field)),
                }
            })
        }),
{
    let data = le16_bytes(id) + le16_bytes(content.len() as u16) + content + rest;
    let size = content.len() as u16;
    assert(data.subrange(0, 2) =~= le16_bytes(id));
    lemma_le16_reads_back(data, 0, id);
    assert(data.subrange(2, 4) =~= le16_bytes(size));
    lemma_le16_reads_back(data, 2, size);
    assert(data.subrange(4, 4 + size) =~= content);
    assert(data.skip(4 + size as int) =~= rest);
}

proof fn lemma_frames_are_read(
    raw: Seq<(u16, Seq<u8>)>,
    tail: Seq<u8>,
    wants: Zip64Wants,
    seen: Seq<ExtraFieldView>,
    fields: Seq<ExtraFieldView>,
)
    requires
        raw.len() == fields.len(),
        forall|i: int| 0 <= i < raw.len() ==> (#[trigger] raw[i]).1.len() <= 0xffff,
        forall|i: int, j: int| 0 <= i < j < raw.len() ==> (#[trigger] raw[i]).0 != (#[trigger] raw[j]).0,
        forall|i: int| 0 <= i < raw.len() ==> !has_id(seen, (#[trigger] raw[i]).0),
        forall|i: int|
            0 <= i < raw.len() ==> parse_field((#[trigger] raw[i]).0, raw[i].1, wants) == Ok::<ExtraFieldView, ZipError>(
                fields[i],
            ),
    ensures
        parse_after(framed(raw) + tail, wants, seen) == parse_after(tail, wants, seen + fields),
    decreases raw.len(),
{
    if raw.len() == 0 {
        assert(framed(raw) + tail =~= tail);
        assert(seen + fields =~= seen);
    } else {
        let rest = framed(raw.drop_first()) + tail;
        let next = seen.push(fields[0]);
        lemma_frame_step(raw[0].0, raw[0].1, rest, wants, seen);
        lemma_field_keeps_id(raw[0].0, raw[0].1, wants);
        assert(framed(raw) + tail =~= le16_bytes(raw[0].0) + le16_bytes(raw[0].1.len() as u16) + raw[0].1 + rest);
        assert forall|i: int| 0 <= i < raw.drop_first().len() implies !has_id(next, (#[trigger] raw.drop_first()[i]).0) by {
            let id = raw.drop_first()[i].0;
            assert(raw.drop_first()[i] == raw[i + 1]);
            assert(!has_id(seen, id));
            if has_id(next, id) {
                let j = choose|j: int| 0 <= j < next.len() && #[trigger] next[j].id() == id;
                if j < seen.len() {
                    assert(seen[j].id() == id);
                }
            }
        }
        assert forall|i: int| 0 <= i < raw.drop_first().len() implies (#[trigger] raw.drop_first()[i]).1.len() <= 0xffff
            && parse_field(raw.drop_first()[i].0, raw.drop_first()[i].1, wants) == Ok::<ExtraFieldView, ZipError>(
            fields.drop_first()[i],
        ) by {
            assert(raw.drop_first()[i] == raw[i + 1]);
        }
        assert forall|i: int, j: int| 0 <= i < j < raw.drop_first().len() implies (#[trigger] raw.drop_first()[i]).0 != (
        #[trigger] raw.drop_first()[j]).0 by {
            assert(raw.drop_first()[i] == raw[i + 1]);
            assert(raw.drop_first()[j] == raw[j + 1]);
        }
        lemma_frames_are_read(raw.drop_first(), tail, wants, next, fields.drop_first());
        assert(next + fields.drop_first() =~= seen + fields);
    }
}

/// Extra fields with ids of their own are read one after the other, each from its own content. Up to three bytes behind them
/// are passed over. A field that is said to be longer than what remains is refused, and so is a second one with the same id.
pub proof fn lemma_framed_fields_are_read(
    raw: Seq<(u16, Seq<u8>)>,
    tail: Seq<u8>,
    wants: Zip64Wants,
    fields: Seq<ExtraFieldView>,
)
    requires
        raw.len() == fields.len(),
        forall|i: int| 0 <= i < raw.len() ==> (#[trigger] raw[i]).1.len() <= 0xffff,
        forall|i: int, j: int| 0 <= i < j < raw.len() ==> (#[trigger] raw[i]).0 != (#[trigger] raw[j]).0,
        forall|i: int|
            0 <= i < raw.len() ==> parse_field((#[trigger] raw[i]).0, raw[i].1, wants) == Ok::<ExtraFieldView, ZipError>(
                fields[i],
            ),
    ensures
        tail.len() < 4 ==> parse_all(framed(raw) + tail, wants) == Ok::<Seq<ExtraFieldView>, ZipError>(fields),
        4 <= tail.len() < 4 + le16(tail, 2) ==> parse_all(framed(raw) + tail, wants) == Err::<Seq<ExtraFieldView>, ZipError>(
            ZipError::InvalidExtraFieldHeader(le16(tail, 2)),
        ),
        tail.len() >= 4 + le16(tail, 2) && tail.len() >= 4 ==> {
            let repeated = exists|i: int| 0 <= i < raw.len() && (#[trigger] raw[i]).0 == le16(tail, 0);
            &&& repeated ==> parse_all(framed(raw) + tail, wants) == Err::<Seq<ExtraFieldView>, ZipError>(
                ZipError::DuplicateExtraFieldHeader(le16(tail, 0)),
            )
            &&& !repeated ==> (parse_field(le16(tail, 0), tail.subrange(4, 4 + le16(tail, 2)), wants) matches Err(e)
                ==> parse_all(framed(raw) + tail, wants) == Err::<Seq<ExtraFieldView>, ZipError>(e))
        },
{
    lemma_frames_are_read(raw, tail, wants, Seq::empty(), fields);
    assert(Seq::<ExtraFieldView>::empty() + fields =~= fields);
    assert forall|i: int| 0 <= i < raw.len() implies fields[i].id() == (#[trigger] raw[i]).0 by {
        lemma_field_keeps_id(raw[i].0, raw[i].1, wants);
    }
    if tail.len() >= 4 && tail.len() >= 4 + le16(tail, 2) {
        let id = le16(tail, 0);
        if exists|i: int| 0 <= i < raw.len() && (#[trigger] raw[i]).0 == id {
            let i = choose|i: int| 0 <= i < raw.len() && (#[trigger] raw[i]).0 == id;
            assert(fields[i].id() == id);
            assert(has_id(fields, id));
        } else if has_id(fields, id) {
            let j = choose|j: int| 0 <= j < fields.len() && #[trigger] fields[j].id() == id;
            assert(raw[j].0 == id);
        }
    }
}

/// What the content of a field is written as. Of ZIP64 extended information, a value that is absent takes up no room.
pub proof fn lemma_field_content(field: ExtraFieldView)
    ensures
        field matches ExtraFieldView::Zip64ExtendedInformation(zip64) ==> field.id() == 0x0001 && field.content() == (
        match zip64.uncompressed_size {
            Some(x) => le64_bytes(x),
            None => Seq::empty(),
        }) + (match zip64.compressed_size {
            Some(x) => le64_bytes(x),
            None => Seq::empty(),
        }) + (match zip64.relative_header_offset {
            Some(x) => le64_bytes(x),
            None => Seq::empty(),
        }) + (match zip64.disk_start_number {
            Some(x) => le32_bytes(x),
            None => Seq::empty(),
        }),
        field is InfoZipUnicodePath ==> field.id() == 0x7075,
        field is InfoZipUnicodeComment ==> field.id() == 0x6375,
        field matches ExtraFieldView::InfoZipUnicodePath(UnicodeFieldView::V1 { crc32, unicode }) ==> field.content()
            == seq![1u8] + le32_bytes(crc32) + unicode,
        field matches ExtraFieldView::InfoZipUnicodePath(UnicodeFieldView::Unknown { version, data }) ==> field.content()
            == seq![version] + data,
        field matches ExtraFieldView::InfoZipUnicodeComment(UnicodeFieldView::V1 { crc32, unicode }) ==> field.content()
            == seq![1u8] + le32_bytes(crc32) + unicode,
        field matches ExtraFieldView::InfoZipUnicodeComment(UnicodeFieldView::Unknown { version, data }) ==> field.content()
            == seq![version] + data,
        field matches ExtraFieldView::Unknown { header_id, content } ==> field.id() == header_id && field.content() == content,
{
}

/// Extra fields are written in the order in which they stand, each as its id, the length of its content and its content.
pub proof fn lemma_fields_are_framed(fields: Seq<ExtraFieldView>)
    ensures
        fields_bytes(fields) == framed(Seq::new(fields.len(), |i: int| (fields[i].id(), fields[i].content()))),
    decreases fields.len(),
{
    let raw = Seq::new(fields.len(), |i: int| (fields[i].id(), fields[i].content()));
    if fields.len() > 0 {
        let front = fields.drop_last();
        lemma_fields_are_framed(front);
        let front_raw = Seq::new(front.len(), |i: int| (front[i].id(), front[i].content()));
        assert(raw =~= front_raw.push((fields.last().id(), fields.last().content())));
        lemma_framed_push(front_raw, fields.last().id(), fields.last().content());
    }
}

proof fn lemma_framed_push(raw: Seq<(u16, Seq<u8>)>, id: u16, content: Seq<u8>)
    ensures
        framed(raw.push((id, content))) == framed(raw) + (le16_bytes(id) + le16_bytes(content.len() as u16) + content),
    decreases raw.len(),
{
    let all = raw.push((id, content));
    let last = le16_bytes(id) + le16_bytes(content.len() as u16) + content;
    if raw.len() == 0 {
        assert(all.drop_first() =~= Seq::empty());
        assert(framed(all.drop_first()) =~= Seq::empty());
        assert(framed(all) =~= last);
        assert(framed(raw) + last =~= last);
    } else {
        lemma_framed_push(raw.drop_first(), id, content);
        assert(all.drop_first() =~= raw.drop_first().push((id, content)));
        let first = le16_bytes(raw[0].0) + le16_bytes(raw[0].1.len() as u16) + raw[0].1;
        assert(all[0] == raw[0]);
        assert(framed(all) == first + framed(all.drop_first()));
        assert(framed(raw) == first + framed(raw.drop_first()));
        assert(first + (framed(raw.drop_first()) + last) =~= first + framed(raw.drop_first()) + last);
    }
}

} // verus!
