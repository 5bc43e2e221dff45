//! Names and comments survive being written and read.

use vstd::prelude::*;

use crate::crc::crc32_of;
use crate::entry::ZipEntryView;
use crate::format::extra_field::{ExtraFieldView, UnicodeFieldView};
use crate::read::fields::lemma_zip64_index;
use crate::read::name::{comment_of, filename_of, unicode_comment, unicode_path};
use crate::string::StringEncoding;
use crate::write::fields::{comment_index, lemma_first_index, lemma_first_index_is, path_index};
use crate::write::fields::{with_comment, with_offset, with_path, with_sizes};

verus! {

/// Whether a field replaces a name with the checksum `crc32`.
pub open spec fn replaces_name(field: ExtraFieldView, crc32: u32) -> bool {
    field matches ExtraFieldView::InfoZipUnicodePath(UnicodeFieldView::V1 { crc32: replaced, unicode })
        && unicode.len() > 0 && replaced == crc32
}

/// Whether a field replaces a comment with the checksum `crc32`.
pub open spec fn replaces_comment(field: ExtraFieldView, crc32: u32) -> bool {
    field matches ExtraFieldView::InfoZipUnicodeComment(UnicodeFieldView::V1 { crc32: replaced, unicode })
        && replaced == crc32
}

/// Where no field replaces a name, there is no Unicode path for it.
pub proof fn lemma_no_unicode_path(fields: Seq<ExtraFieldView>, crc32: u32)
    requires
        forall|i: int| 0 <= i < fields.len() ==> !replaces_name(#[trigger] fields[i], crc32),
    ensures
        unicode_path(fields, crc32) is None,
    decreases fields.len(),
{
    if fields.len() > 0 {
        assert(!replaces_name(fields[0], crc32));
        assert forall|i: int| 0 <= i < fields.drop_first().len() implies !replaces_name(
            #[trigger] fields.drop_first()[i],
            crc32,
        ) by {
            assert(fields.drop_first()[i] == fields[i + 1]);
        }
        lemma_no_unicode_path(fields.drop_first(), crc32);
    }
}

/// The first field that replaces a name is its Unicode path.
pub proof fn lemma_first_unicode_path(fields: Seq<ExtraFieldView>, crc32: u32, k: int)
    requires
        0 <= k < fields.len(),
        replaces_name(fields[k], crc32),
        forall|i: int| 0 <= i < k ==> !replaces_name(#[trigger] fields[i], crc32),
    ensures
        unicode_path(fields, crc32) == Some(fields[k]->InfoZipUnicodePath_0->unicode),
    decreases fields.len(),
{
    if k > 0 {
        assert(!replaces_name(fields[0], crc32));
        let rest = fields.drop_first();
        assert forall|i: int| 0 <= i < k - 1 implies !replaces_name(#[trigger] rest[i], crc32) by {
            assert(rest[i] == fields[i + 1]);
        }
        assert(rest[k - 1] == fields[k]);
        lemma_first_unicode_path(rest, crc32, k - 1);
    }
}

/// Where no field replaces a comment, there is no Unicode comment for it.
pub proof fn lemma_no_unicode_comment(fields: Seq<ExtraFieldView>, crc32: u32)
    requires
        forall|i: int| 0 <= i < fields.len() ==> !replaces_comment(#[trigger] fields[i], crc32),
    ensures
        unicode_comment(fields, crc32) is None,
    decreases fields.len(),
{
    if fields.len() > 0 {
        assert(!replaces_comment(fields[0], crc32));
        assert forall|i: int| 0 <= i < fields.drop_first().len() implies !replaces_comment(
            #[trigger] fields.drop_first()[i],
            crc32,
        ) by {
            assert(fields.drop_first()[i] == fields[i + 1]);
        }
        lemma_no_unicode_comment(fields.drop_first(), crc32);
    }
}

/// The first field that replaces a comment is its Unicode comment.
pub proof fn lemma_first_unicode_comment(fields: Seq<ExtraFieldView>, crc32: u32, k: int)
    requires
        0 <= k < fields.len(),
        replaces_comment(fields[k], crc32),
        forall|i: int| 0 <= i < k ==> !replaces_comment(#[trigger] fields[i], crc32),
    ensures
        unicode_comment(fields, crc32) == Some(fields[k]->InfoZipUnicodeComment_0->unicode),
    decreases fields.len(),
{
    if k > 0 {
        assert(!replaces_comment(fields[0], crc32));
        let rest = fields.drop_first();
        assert forall|i: int| 0 <= i < k - 1 implies !replaces_comment(#[trigger] rest[i], crc32) by {
            assert(rest[i] == fields[i + 1]);
        }
        assert(rest[k - 1] == fields[k]);
        lemma_first_unicode_comment(rest, crc32, k - 1);
    }
}

impl ZipEntryView {
    /// Whether the writer adds the name in UTF-8 to the extra fields.
    pub open spec fn adds_path(self) -> bool {
        !self.declares_utf8() && self.filename.encoding == StringEncoding::Utf8 && self.filename.raw.len() > 0
    }

    /// Whether the writer adds the comment in UTF-8 to the extra fields.
    pub open spec fn adds_comment(self) -> bool {
        !self.declares_utf8() && self.comment.encoding == StringEncoding::Utf8 && self.comment.raw.len() > 0
    }

    /// Whether the entry's own extra fields leave its name alone: none replaces it, and none takes the place where the
    /// writer puts it. A name that is empty as text is empty in any encoding.
    pub open spec fn fields_keep_name(self) -> bool {
        &&& self.filename.raw.len() > 0 || self.filename.basic().len() == 0
        &&& if self.adds_path() {
            path_index(self.extra_fields) matches Some(i) ==> self.extra_fields[i]->InfoZipUnicodePath_0 is V1
        } else {
            forall|i: int|
                0 <= i < self.extra_fields.len() ==> !replaces_name(
                    #[trigger] self.extra_fields[i],
                    crc32_of(self.filename.basic()),
                )
        }
    }

    /// Whether the entry's own extra fields leave its comment alone: none replaces it, and none takes the place where the
    /// writer puts it. A comment that is empty as text is empty in any encoding.
    pub open spec fn fields_keep_comment(self) -> bool {
        &&& self.comment.raw.len() > 0 || self.comment.basic().len() == 0
        &&& if self.adds_comment() {
            comment_index(self.extra_fields) matches Some(i) ==> self.extra_fields[i]->InfoZipUnicodeComment_0 is V1
        } else {
            forall|i: int|
                0 <= i < self.extra_fields.len() ==> !replaces_comment(
                    #[trigger] self.extra_fields[i],
                    crc32_of(self.comment.basic()),
                )
        }
    }
}

/// Whether two sequences of extra fields hold the same Unicode paths at the same places, and the second no others.
pub open spec fn same_paths(a: Seq<ExtraFieldView>, b: Seq<ExtraFieldView>) -> bool {
    &&& a.len() <= b.len()
    &&& forall|i: int|
        0 <= i < a.len() ==> #[trigger] b[i] == a[i] || !(a[i] is InfoZipUnicodePath || b[i] is InfoZipUnicodePath)
    &&& forall|i: int| a.len() <= i < b.len() ==> !(#[trigger] b[i] is InfoZipUnicodePath)
}

/// Whether two sequences of extra fields hold the same Unicode comments at the same places, and the second no others.
pub open spec fn same_comments(a: Seq<ExtraFieldView>, b: Seq<ExtraFieldView>) -> bool {
    &&& a.len() <= b.len()
    &&& forall|i: int|
        0 <= i < a.len() ==> #[trigger] b[i] == a[i] || !(a[i] is InfoZipUnicodeComment
            || b[i] is InfoZipUnicodeComment)
    &&& forall|i: int| a.len() <= i < b.len() ==> !(#[trigger] b[i] is InfoZipUnicodeComment)
}

/// Having the same Unicode paths and comments is transitive.
pub proof fn lemma_same_strings(a: Seq<ExtraFieldView>, b: Seq<ExtraFieldView>, c: Seq<ExtraFieldView>)
    ensures
        same_paths(a, b) && same_paths(b, c) ==> same_paths(a, c),
        same_comments(a, b) && same_comments(b, c) ==> same_comments(a, c),
{
    if same_paths(a, b) && same_paths(b, c) {
        assert forall|i: int| 0 <= i < a.len() implies #[trigger] c[i] == a[i] || !(a[i] is InfoZipUnicodePath
            || c[i] is InfoZipUnicodePath) by {
            assert(b[i] == b[i]);
        }
        assert forall|i: int| a.len() <= i < c.len() implies !(#[trigger] c[i] is InfoZipUnicodePath) by {
            if i < b.len() {
                assert(!(b[i] is InfoZipUnicodePath));
            }
        }
    }
    if same_comments(a, b) && same_comments(b, c) {
        assert forall|i: int| 0 <= i < a.len() implies #[trigger] c[i] == a[i] || !(a[i] is InfoZipUnicodeComment
            || c[i] is InfoZipUnicodeComment) by {
            assert(b[i] == b[i]);
        }
        assert forall|i: int| a.len() <= i < c.len() implies !(#[trigger] c[i] is InfoZipUnicodeComment) by {
            if i < b.len() {
                assert(!(b[i] is InfoZipUnicodeComment));
            }
        }
    }
}

proof fn lemma_same_paths(a: Seq<ExtraFieldView>, b: Seq<ExtraFieldView>, crc32: u32)
    requires
        same_paths(a, b),
    ensures
        unicode_path(b, crc32) == unicode_path(a, crc32),
    decreases b.len(),
{
    if a.len() == 0 {
        assert forall|i: int| 0 <= i < b.len() implies !replaces_name(#[trigger] b[i], crc32) by {
            assert(!(b[i] is InfoZipUnicodePath));
        }
        lemma_no_unicode_path(b, crc32);
    } else {
        assert(b[0] == a[0] || !(a[0] is InfoZipUnicodePath || b[0] is InfoZipUnicodePath));
        assert(same_paths(a.drop_first(), b.drop_first()));
        lemma_same_paths(a.drop_first(), b.drop_first(), crc32);
    }
}

proof fn lemma_same_comments(a: Seq<ExtraFieldView>, b: Seq<ExtraFieldView>, crc32: u32)
    requires
        same_comments(a, b),
    ensures
        unicode_comment(b, crc32) == unicode_comment(a, crc32),
    decreases b.len(),
{
    if a.len() == 0 {
        assert forall|i: int| 0 <= i < b.len() implies !replaces_comment(#[trigger] b[i], crc32) by {
            assert(!(b[i] is InfoZipUnicodeComment));
        }
        lemma_no_unicode_comment(b, crc32);
    } else {
        assert(b[0] == a[0] || !(a[0] is InfoZipUnicodeComment || b[0] is InfoZipUnicodeComment));
        assert(same_comments(a.drop_first(), b.drop_first()));
        lemma_same_comments(a.drop_first(), b.drop_first(), crc32);
    }
}

/// ZIP64 sizes leave the Unicode paths and comments as they are.
pub proof fn lemma_sizes_keep_strings(fields: Seq<ExtraFieldView>, uncompressed_size: u64, compressed_size: u64)
    ensures
        same_paths(fields, with_sizes(fields, uncompressed_size, compressed_size)),
        same_comments(fields, with_sizes(fields, uncompressed_size, compressed_size)),
{
    lemma_zip64_index(fields);
}

/// A ZIP64 offset leaves the Unicode paths and comments as they are.
pub proof fn lemma_offset_keeps_strings(fields: Seq<ExtraFieldView>, offset: u64)
    ensures
        same_paths(fields, with_offset(fields, offset)),
        same_comments(fields, with_offset(fields, offset)),
{
    lemma_zip64_index(fields);
}

proof fn lemma_path_keeps_comments(fields: Seq<ExtraFieldView>, crc32: u32, unicode: Seq<u8>)
    ensures
        same_comments(fields, with_path(fields, crc32, unicode)),
{
    lemma_first_index(fields, |field: ExtraFieldView| field is InfoZipUnicodePath);
}

proof fn lemma_comment_keeps_paths(fields: Seq<ExtraFieldView>, crc32: u32, unicode: Seq<u8>)
    ensures
        same_paths(fields, with_comment(fields, crc32, unicode)),
{
    lemma_first_index(fields, |field: ExtraFieldView| field is InfoZipUnicodeComment);
}

proof fn lemma_added_path_is_found(own: Seq<ExtraFieldView>, fields: Seq<ExtraFieldView>, crc32: u32, unicode: Seq<u8>)
    requires
        same_paths(own, fields),
        path_index(own) matches Some(i) ==> own[i]->InfoZipUnicodePath_0 is V1,
        unicode.len() > 0,
    ensures
        unicode_path(with_path(fields, crc32, unicode), crc32) == Some(unicode),
{
    let p = |field: ExtraFieldView| field is InfoZipUnicodePath;
    let after = with_path(fields, crc32, unicode);
    lemma_first_index(fields, p);
    lemma_first_index(own, p);
    match path_index(fields) {
        Some(i) => {
            assert(p(fields[i]));
            assert(own[i] == fields[i]);
            assert forall|j: int| 0 <= j < i implies !p(#[trigger] own[j]) by {
                assert(!p(fields[j]));
            }
            lemma_first_index_is(own, p, i);
            assert forall|j: int| 0 <= j < i implies !replaces_name(#[trigger] after[j], crc32) by {
                assert(!p(fields[j]));
            }
            lemma_first_unicode_path(after, crc32, i);
        },
        None => {
            assert forall|j: int| 0 <= j < fields.len() implies !replaces_name(#[trigger] after[j], crc32) by {
                assert(!p(fields[j]));
            }
            lemma_first_unicode_path(after, crc32, fields.len() as int);
        },
    }
}

proof fn lemma_added_comment_is_found(
    own: Seq<ExtraFieldView>,
    fields: Seq<ExtraFieldView>,
    crc32: u32,
    unicode: Seq<u8>,
)
    requires
        same_comments(own, fields),
        comment_index(own) matches Some(i) ==> own[i]->InfoZipUnicodeComment_0 is V1,
    ensures
        unicode_comment(with_comment(fields, crc32, unicode), crc32) == Some(unicode),
{
    let p = |field: ExtraFieldView| field is InfoZipUnicodeComment;
    let after = with_comment(fields, crc32, unicode);
    lemma_first_index(fields, p);
    lemma_first_index(own, p);
    match comment_index(fields) {
        Some(i) => {
            assert(p(fields[i]));
            assert(own[i] == fields[i]);
            assert forall|j: int| 0 <= j < i implies !p(#[trigger] own[j]) by {
                assert(!p(fields[j]));
            }
            lemma_first_index_is(own, p, i);
            assert forall|j: int| 0 <= j < i implies !replaces_comment(#[trigger] after[j], crc32) by {
                assert(!p(fields[j]));
            }
            lemma_first_unicode_comment(after, crc32, i);
        },
        None => {
            assert forall|j: int| 0 <= j < fields.len() implies !replaces_comment(#[trigger] after[j], crc32) by {
                assert(!p(fields[j]));
            }
            lemma_first_unicode_comment(after, crc32, fields.len() as int);
        },
    }
}

/// A name is read back as it was written: the same bytes, in the header and as a string, and text as text. Whatever ZIP64
/// information is added to the extra fields makes no difference.
pub proof fn lemma_name_reads_back(entry: ZipEntryView, fields: Seq<ExtraFieldView>)
    requires
        entry.wf(),
        !entry.filename.raw.contains(0),
        !entry.filename.basic().contains(0),
        entry.fields_keep_name(),
        same_paths(entry.prepared().extra_fields, fields),
    ensures
        ({
            let basic = entry.filename.basic();
            filename_of(basic, crc32_of(basic), entry.declares_utf8(), fields) matches Ok(name) && {
                &&& name.raw == entry.filename.raw
                &&& name.basic() == basic
                &&& entry.filename.encoding == StringEncoding::Utf8 ==> name.encoding == StringEncoding::Utf8
                &&& entry.declares_utf8() ==> name == entry.filename
            }
        }),
{
    let crc32 = crc32_of(entry.filename.basic());
    let own = entry.extra_fields;
    let room = entry.fields_with_room();
    let named = entry.fields_with_path(room);
    lemma_sizes_keep_strings(own, entry.uncompressed_size, entry.compressed_size);
    lemma_comment_keeps_paths(named, crc32_of(entry.comment.basic()), entry.comment.raw);
    lemma_same_paths(entry.prepared().extra_fields, fields, crc32);
    lemma_same_paths(named, entry.prepared().extra_fields, crc32);
    if entry.adds_path() {
        lemma_added_path_is_found(own, room, crc32, entry.filename.raw);
    } else {
        lemma_same_paths(own, room, crc32);
        lemma_no_unicode_path(own, crc32);
    }
}

/// A comment is read back as it was written: the same bytes as a string, and text as text. Whatever ZIP64 information is
/// added to the extra fields makes no difference.
pub proof fn lemma_comment_reads_back(entry: ZipEntryView, fields: Seq<ExtraFieldView>)
    requires
        entry.wf(),
        entry.fields_keep_comment(),
        same_comments(entry.prepared().extra_fields, fields),
    ensures
        ({
            let basic = entry.comment.basic();
            let comment = comment_of(basic, crc32_of(basic), entry.declares_utf8(), fields);
            &&& comment.raw == entry.comment.raw
            &&& comment.basic() == basic
            &&& entry.comment.encoding == StringEncoding::Utf8 ==> comment.encoding == StringEncoding::Utf8
            &&& entry.declares_utf8() ==> comment == entry.comment
        }),
{
    let crc32 = crc32_of(entry.comment.basic());
    let own = entry.extra_fields;
    let room = entry.fields_with_room();
    let named = entry.fields_with_path(room);
    lemma_sizes_keep_strings(own, entry.uncompressed_size, entry.compressed_size);
    lemma_path_keeps_comments(room, crc32_of(entry.filename.basic()), entry.filename.raw);
    lemma_same_comments(entry.prepared().extra_fields, fields, crc32);
    if entry.adds_comment() {
        assert(same_comments(own, named));
        lemma_added_comment_is_found(own, named, crc32, entry.comment.raw);
    } else {
        lemma_same_comments(own, room, crc32);
        lemma_same_comments(room, named, crc32);
        lemma_no_unicode_comment(own, crc32);
    }
}

} // verus!
