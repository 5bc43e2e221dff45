//! Extra fields that the writer maintains itself.

use vstd::prelude::*;

use crate::format::extra_field::{field_views, ExtraField, ExtraFieldView, InfoZipUnicodeCommentExtraField};
use crate::format::extra_field::{InfoZipUnicodePathExtraField, UnicodeFieldView, Zip64ExtendedInformationExtraField};
use crate::read::fields::{get_zip64_extra_field_mut, lemma_zip64_index, lemma_zip64_index_is, zip64_field, zip64_index};

verus! {

/// Where the first field that `p` holds of stands, if there is one.
pub open spec fn first_index(fields: Seq<ExtraFieldView>, p: spec_fn(ExtraFieldView) -> bool) -> Option<int>
    decreases fields.len(),
{
    if fields.len() == 0 {
        None
    } else if p(fields[0]) {
        Some(0)
    } else {
        match first_index(fields.drop_first(), p) {
            Some(i) => Some(i + 1),
            None => None,
        }
    }
}

/// Where the first Unicode path stands, if there is one.
pub open spec fn path_index(fields: Seq<ExtraFieldView>) -> Option<int> {
    first_index(fields, |field: ExtraFieldView| field is InfoZipUnicodePath)
}

/// Where the first Unicode comment stands, if there is one.
pub open spec fn comment_index(fields: Seq<ExtraFieldView>) -> Option<int> {
    first_index(fields, |field: ExtraFieldView| field is InfoZipUnicodeComment)
}

/// The first index at which `p` holds is such an index, and none comes before it.
pub proof fn lemma_first_index(fields: Seq<ExtraFieldView>, p: spec_fn(ExtraFieldView) -> bool)
    ensures
        first_index(fields, p) matches Some(i) ==> {
            &&& 0 <= i < fields.len()
            &&& p(fields[i])
            &&& forall|j: int| 0 <= j < i ==> !p(#[trigger] fields[j])
        },
        first_index(fields, p) is None ==> forall|j: int| 0 <= j < fields.len() ==> !p(#[trigger] fields[j]),
    decreases fields.len(),
{
    if fields.len() > 0 && !p(fields[0]) {
        let rest = fields.drop_first();
        lemma_first_index(rest, p);
        assert forall|j: int| 0 < j < fields.len() implies fields[j] == rest[j - 1] by {}
    }
}

/// Where a field of a kind stands, and none of that kind before it, is the first index of that kind.
pub proof fn lemma_first_index_is(fields: Seq<ExtraFieldView>, p: spec_fn(ExtraFieldView) -> bool, i: int)
    requires
        0 <= i < fields.len(),
        p(fields[i]),
        forall|j: int| 0 <= j < i ==> !p(#[trigger] fields[j]),
    ensures
        first_index(fields, p) == Some(i),
{
    lemma_first_index(fields, p);
    match first_index(fields, p) {
        Some(k) => {
            if k < i {
                assert(!p(fields[k]));
            } else if i < k {
                assert(!p(fields[i]));
            }
        },
        None => {
            assert(!p(fields[i]));
        },
    }
}

/// The fields, of which the first ZIP64 extended information field holds these sizes. Where there is none, one is added.
pub open spec fn with_sizes(
    fields: Seq<ExtraFieldView>,
    uncompressed_size: u64,
    compressed_size: u64,
) -> Seq<ExtraFieldView> {
    match zip64_index(fields) {
        Some(i) => fields.update(
            i,
            ExtraFieldView::Zip64ExtendedInformation(
                Zip64ExtendedInformationExtraField {
                    uncompressed_size: Some(uncompressed_size),
                    compressed_size: Some(compressed_size),
                    ..fields[i]->Zip64ExtendedInformation_0
                },
            ),
        ),
        None => fields.push(
            ExtraFieldView::Zip64ExtendedInformation(
                Zip64ExtendedInformationExtraField {
                    uncompressed_size: Some(uncompressed_size),
                    compressed_size: Some(compressed_size),
                    relative_header_offset: None,
                    disk_start_number: None,
                },
            ),
        ),
    }
}

/// The fields, of which the first ZIP64 extended information field holds this offset of the local file header. Where
/// there is none, one is added.
pub open spec fn with_offset(fields: Seq<ExtraFieldView>, offset: u64) -> Seq<ExtraFieldView> {
    match zip64_index(fields) {
        Some(i) => fields.update(
            i,
            ExtraFieldView::Zip64ExtendedInformation(
                Zip64ExtendedInformationExtraField {
                    relative_header_offset: Some(offset),
                    ..fields[i]->Zip64ExtendedInformation_0
                },
            ),
        ),
        None => fields.push(
            ExtraFieldView::Zip64ExtendedInformation(
                Zip64ExtendedInformationExtraField {
                    uncompressed_size: None,
                    compressed_size: None,
                    relative_header_offset: Some(offset),
                    disk_start_number: None,
                },
            ),
        ),
    }
}

/// The fields, of which the first Unicode path holds this text. Where there is none, one is added; one of an unknown
/// version stays as it is.
pub open spec fn with_path(fields: Seq<ExtraFieldView>, crc32: u32, unicode: Seq<u8>) -> Seq<ExtraFieldView> {
    let field = ExtraFieldView::InfoZipUnicodePath(UnicodeFieldView::V1 { crc32, unicode });
    match path_index(fields) {
        Some(i) => if fields[i]->InfoZipUnicodePath_0 is V1 {
            fields.update(i, field)
        } else {
            fields
        },
        None => fields.push(field),
    }
}

/// The fields, of which the first Unicode comment holds this text. Where there is none, one is added; one of an unknown
/// version stays as it is.
pub open spec fn with_comment(fields: Seq<ExtraFieldView>, crc32: u32, unicode: Seq<u8>) -> Seq<ExtraFieldView> {
    let field = ExtraFieldView::InfoZipUnicodeComment(UnicodeFieldView::V1 { crc32, unicode });
    match comment_index(fields) {
        Some(i) => if fields[i]->InfoZipUnicodeComment_0 is V1 {
            fields.update(i, field)
        } else {
            fields
        },
        None => fields.push(field),
    }
}

proof fn lemma_zip64_field_kept(before: Seq<ExtraFieldView>, after: Seq<ExtraFieldView>)
    requires
        before.len() <= after.len(),
        forall|j: int|
            0 <= j < before.len() ==> #[trigger] after[j] == before[j] || !(after[j] is Zip64ExtendedInformation
                || before[j] is Zip64ExtendedInformation),
        forall|j: int| before.len() <= j < after.len() ==> !(#[trigger] after[j] is Zip64ExtendedInformation),
    ensures
        zip64_field(after) == zip64_field(before),
{
    lemma_zip64_index(before);
    lemma_zip64_index(after);
    match zip64_index(before) {
        Some(i) => {
            assert(after[i] == before[i]);
            lemma_zip64_index_is(after, i);
        },
        None => {
            if let Some(i) = zip64_index(after) {
                assert(after[i] is Zip64ExtendedInformation);
            }
        },
    }
}

/// A Unicode path leaves the ZIP64 extended information as it is.
pub proof fn lemma_path_keeps_zip64(fields: Seq<ExtraFieldView>, crc32: u32, unicode: Seq<u8>)
    ensures
        zip64_field(with_path(fields, crc32, unicode)) == zip64_field(fields),
{
    lemma_first_index(fields, |field: ExtraFieldView| field is InfoZipUnicodePath);
    lemma_zip64_field_kept(fields, with_path(fields, crc32, unicode));
}

/// A Unicode comment leaves the ZIP64 extended information as it is.
pub proof fn lemma_comment_keeps_zip64(fields: Seq<ExtraFieldView>, crc32: u32, unicode: Seq<u8>)
    ensures
        zip64_field(with_comment(fields, crc32, unicode)) == zip64_field(fields),
{
    lemma_first_index(fields, |field: ExtraFieldView| field is InfoZipUnicodeComment);
    lemma_zip64_field_kept(fields, with_comment(fields, crc32, unicode));
}

/// Sizes that were put in the ZIP64 extended information are there.
pub proof fn lemma_sizes_are_there(fields: Seq<ExtraFieldView>, uncompressed_size: u64, compressed_size: u64)
    ensures
        ({
            let field = zip64_field(with_sizes(fields, uncompressed_size, compressed_size));
            &&& field is Some
            &&& field->Some_0.uncompressed_size == Some(uncompressed_size)
            &&& field->Some_0.compressed_size == Some(compressed_size)
        }),
{
    let after = with_sizes(fields, uncompressed_size, compressed_size);
    lemma_zip64_index(fields);
    match zip64_index(fields) {
        Some(i) => lemma_zip64_index_is(after, i),
        None => lemma_zip64_index_is(after, fields.len() as int),
    }
}

/// Makes the first ZIP64 extended information field hold these sizes.
pub(crate) fn put_sizes(extra_fields: &mut Vec<ExtraField>, uncompressed_size: u64, compressed_size: u64)
    ensures
        field_views(final(extra_fields)@) == with_sizes(
            field_views(old(extra_fields)@),
            uncompressed_size,
            compressed_size,
        ),
{
    let ghost before = field_views(extra_fields@);
    match get_zip64_extra_field_mut(extra_fields) {
        Some(zip64) => {
            zip64.uncompressed_size = Some(uncompressed_size);
            zip64.compressed_size = Some(compressed_size);
        },
        None => {
            extra_fields.push(
                ExtraField::Zip64ExtendedInformation(
                    Zip64ExtendedInformationExtraField {
                        uncompressed_size: Some(uncompressed_size),
                        compressed_size: Some(compressed_size),
                        relative_header_offset: None,
                        disk_start_number: None,
                    },
                ),
            );
        },
    }
    proof {
        lemma_zip64_index(before);
    }
    assert(field_views(extra_fields@) =~= with_sizes(before, uncompressed_size, compressed_size));
}

/// Makes the first ZIP64 extended information field hold this offset of the local file header.
pub(crate) fn put_offset(extra_fields: &mut Vec<ExtraField>, offset: u64)
    ensures
        field_views(final(extra_fields)@) == with_offset(field_views(old(extra_fields)@), offset),
{
    let ghost before = field_views(extra_fields@);
    match get_zip64_extra_field_mut(extra_fields) {
        Some(zip64) => {
            zip64.relative_header_offset = Some(offset);
        },
        None => {
            extra_fields.push(
                ExtraField::Zip64ExtendedInformation(
                    Zip64ExtendedInformationExtraField {
                        uncompressed_size: None,
                        compressed_size: None,
                        relative_header_offset: Some(offset),
                        disk_start_number: None,
                    },
                ),
            );
        },
    }
    proof {
        lemma_zip64_index(before);
    }
    assert(field_views(extra_fields@) =~= with_offset(before, offset));
}

/// Makes the first Unicode path hold this text.
pub(crate) fn put_path(extra_fields: &mut Vec<ExtraField>, crc32: u32, unicode: Vec<u8>)
    ensures
        field_views(final(extra_fields)@) == with_path(field_views(old(extra_fields)@), crc32, unicode@),
{
    let ghost views = field_views(extra_fields@);
    let ghost p = |field: ExtraFieldView| field is InfoZipUnicodePath;
    let field = ExtraField::InfoZipUnicodePath(InfoZipUnicodePathExtraField::V1 { crc32, unicode });
    let mut i: usize = 0;
    while i < extra_fields.len()
        invariant
            i <= extra_fields@.len(),
            *extra_fields == *old(extra_fields),
            views == field_views(extra_fields@),
            p == (|field: ExtraFieldView| field is InfoZipUnicodePath),
            field@ == ExtraFieldView::InfoZipUnicodePath(UnicodeFieldView::V1 { crc32, unicode: unicode@ }),
            forall|j: int| 0 <= j < i ==> !(#[trigger] views[j] is InfoZipUnicodePath),
        decreases extra_fields@.len() - i,
    {
        assert(views[i as int] == extra_fields@[i as int]@);
        if let ExtraField::InfoZipUnicodePath(path) = &extra_fields[i] {
            proof {
                lemma_first_index_is(views, p, i as int);
            }
            if matches!(path, InfoZipUnicodePathExtraField::V1 { .. }) {
                extra_fields.set(i, field);
                assert(field_views(extra_fields@) =~= views.update(i as int, field@));
            }
            return ;
        }
        i += 1;
    }
    proof {
        lemma_first_index(views, p);
    }
    extra_fields.push(field);
    assert(field_views(extra_fields@) =~= views.push(field@));
}

/// Makes the first Unicode comment hold this text.
pub(crate) fn put_comment(extra_fields: &mut Vec<ExtraField>, crc32: u32, unicode: Vec<u8>)
    ensures
        field_views(final(extra_fields)@) == with_comment(field_views(old(extra_fields)@), crc32, unicode@),
{
    let ghost views = field_views(extra_fields@);
    let ghost p = |field: ExtraFieldView| field is InfoZipUnicodeComment;
    let field = ExtraField::InfoZipUnicodeComment(InfoZipUnicodeCommentExtraField::V1 { crc32, unicode });
    let mut i: usize = 0;
    while i < extra_fields.len()
        invariant
            i <= extra_fields@.len(),
            *extra_fields == *old(extra_fields),
            views == field_views(extra_fields@),
            p == (|field: ExtraFieldView| field is InfoZipUnicodeComment),
            field@ == ExtraFieldView::InfoZipUnicodeComment(UnicodeFieldView::V1 { crc32, unicode: unicode@ }),
            forall|j: int| 0 <= j < i ==> !(#[trigger] views[j] is InfoZipUnicodeComment),
        decreases extra_fields@.len() - i,
    {
        assert(views[i as int] == extra_fields@[i as int]@);
        if let ExtraField::InfoZipUnicodeComment(comment) = &extra_fields[i] {
            proof {
                lemma_first_index_is(views, p, i as int);
            }
            if matches!(comment, InfoZipUnicodeCommentExtraField::V1 { .. }) {
                extra_fields.set(i, field);
                assert(field_views(extra_fields@) =~= views.update(i as int, field@));
            }
            return ;
        }
        i += 1;
    }
    proof {
        lemma_first_index(views, p);
    }
    extra_fields.push(field);
    assert(field_views(extra_fields@) =~= views.push(field@));
}

} // verus!
