//! What the name and the comment of an entry are, given the bytes in its header and its extra fields.

use vstd::prelude::*;
use vstd::utf8::valid_utf8;

use crate::bytes::contains_byte;
use crate::crc::crc32_of;
use crate::error::ZipError;
use crate::format::extra_field::{field_views, ExtraField, ExtraFieldView, InfoZipUnicodeCommentExtraField};
use crate::format::extra_field::{InfoZipUnicodePathExtraField, UnicodeFieldView};
use crate::string::{all_ascii, is_ascii, text_of, StringEncoding, ZipString, ZipStringView};

verus! {

/// The Unicode path among the extra fields that replaces a name with the checksum `crc32`: the first one that is not
/// empty and carries that checksum.
pub open spec fn unicode_path(fields: Seq<ExtraFieldView>, crc32: u32) -> Option<Seq<u8>>
    decreases fields.len(),
{
    if fields.len() == 0 {
        None
    } else {
        match fields[0] {
            ExtraFieldView::InfoZipUnicodePath(UnicodeFieldView::V1 { crc32: replaced, unicode }) if unicode.len() > 0
                && replaced == crc32 => Some(unicode),
            _ => unicode_path(fields.drop_first(), crc32),
        }
    }
}

/// The Unicode comment among the extra fields that replaces a comment with the checksum `crc32`: the first one that
/// carries that checksum.
pub open spec fn unicode_comment(fields: Seq<ExtraFieldView>, crc32: u32) -> Option<Seq<u8>>
    decreases fields.len(),
{
    if fields.len() == 0 {
        None
    } else {
        match fields[0] {
            ExtraFieldView::InfoZipUnicodeComment(UnicodeFieldView::V1 { crc32: replaced, unicode }) if replaced
                == crc32 => Some(unicode),
            _ => unicode_comment(fields.drop_first(), crc32),
        }
    }
}

/// What bytes are taken for whose encoding the header does not tell: only ASCII is taken for text, since a string in
/// another encoding may look like UTF-8.
pub open spec fn undeclared(basic: Seq<u8>) -> ZipStringView {
    if all_ascii(basic) {
        ZipStringView::text(basic)
    } else {
        ZipStringView::bytes(basic)
    }
}

/// The name of an entry, where `basic` stands in its header and has the checksum `basic_crc32`.
pub open spec fn filename_of(
    basic: Seq<u8>,
    basic_crc32: u32,
    basic_is_utf8: bool,
    fields: Seq<ExtraFieldView>,
) -> Result<ZipStringView, ZipError> {
    if basic.contains(0) {
        Err(ZipError::FileNameContainsNul)
    } else {
        match unicode_path(fields, basic_crc32) {
            Some(unicode) => if !valid_utf8(unicode) {
                Err(ZipError::InfoZipUnicodePathFieldInvalidUtf8)
            } else if unicode.contains(0) {
                Err(ZipError::FileNameContainsNul)
            } else {
                Ok(ZipStringView::text_with_alternative(unicode, basic))
            },
            None => if basic_is_utf8 {
                Ok(ZipStringView::decoded(basic, StringEncoding::Utf8))
            } else {
                Ok(undeclared(basic))
            },
        }
    }
}

/// The comment of an entry, where `basic` stands in its header and has the checksum `basic_crc32`.
pub open spec fn comment_of(
    basic: Seq<u8>,
    basic_crc32: u32,
    basic_is_utf8: bool,
    fields: Seq<ExtraFieldView>,
) -> ZipStringView {
    if basic_is_utf8 {
        ZipStringView::decoded(basic, StringEncoding::Utf8)
    } else {
        match unicode_comment(fields, basic_crc32) {
            Some(unicode) if valid_utf8(unicode) => ZipStringView::text_with_alternative(unicode, basic),
            _ => undeclared(basic),
        }
    }
}

/// Takes bytes for a string whose encoding the header does not tell.
fn undeclared_string(basic: Vec<u8>) -> (r: ZipString)
    ensures
        r@ == undeclared(basic@),
{
    if is_ascii(basic.as_slice()) {
        ZipString::from_ascii(basic)
    } else {
        ZipString::new(basic, StringEncoding::Raw)
    }
}

/// Finds the Unicode path that replaces a name with a given checksum.
fn find_unicode_path(fields: &[ExtraField], basic_crc32: u32) -> (r: Option<&Vec<u8>>)
    ensures
        match unicode_path(field_views(fields@), basic_crc32) {
            Some(unicode) => r is Some && r->Some_0@ == unicode,
            None => r is None,
        },
{
    let ghost views = field_views(fields@);
    let mut i: usize = 0;
    assert(views.skip(0) =~= views);
    while i < fields.len()
        invariant
            i <= fields@.len(),
            views == field_views(fields@),
            unicode_path(views, basic_crc32) == unicode_path(views.skip(i as int), basic_crc32),
        decreases fields@.len() - i,
    {
        assert(views.skip(i as int)[0] == fields@[i as int]@);
        assert(views.skip(i as int).drop_first() =~= views.skip(i + 1));
        if let ExtraField::InfoZipUnicodePath(InfoZipUnicodePathExtraField::V1 { crc32, unicode }) = &fields[i] {
            if unicode.len() > 0 && *crc32 == basic_crc32 {
                return Some(unicode);
            }
        }
        i += 1;
    }
    None
}

/// Finds the Unicode comment that replaces a comment with a given checksum.
fn find_unicode_comment(fields: &[ExtraField], basic_crc32: u32) -> (r: Option<&Vec<u8>>)
    ensures
        match unicode_comment(field_views(fields@), basic_crc32) {
            Some(unicode) => r is Some && r->Some_0@ == unicode,
            None => r is None,
        },
{
    let ghost views = field_views(fields@);
    let mut i: usize = 0;
    assert(views.skip(0) =~= views);
    while i < fields.len()
        invariant
            i <= fields@.len(),
            views == field_views(fields@),
            unicode_comment(views, basic_crc32) == unicode_comment(views.skip(i as int), basic_crc32),
        decreases fields@.len() - i,
    {
        assert(views.skip(i as int)[0] == fields@[i as int]@);
        assert(views.skip(i as int).drop_first() =~= views.skip(i + 1));
        if let ExtraField::InfoZipUnicodeComment(InfoZipUnicodeCommentExtraField::V1 { crc32, unicode }) = &fields[i] {
            if *crc32 == basic_crc32 {
                return Some(unicode);
            }
        }
        i += 1;
    }
    None
}

/// Determines the comment of an entry from the bytes in its header, their checksum and the entry's extra fields.
pub fn detect_comment_by_crc32(
    basic: Vec<u8>,
    basic_crc32: u32,
    basic_is_utf8: bool,
    extra_fields: &[ExtraField],
) -> (r: ZipString)
    ensures
        r@ == comment_of(basic@, basic_crc32, basic_is_utf8, field_views(extra_fields@)),
{
    if basic_is_utf8 {
        return ZipString::new(basic, StringEncoding::Utf8);
    }
    match find_unicode_comment(extra_fields, basic_crc32) {
        Some(unicode) => match text_of(unicode.as_slice()) {
            Some(text) => ZipString::new_with_alternative(text, basic),
            None => undeclared_string(basic),
        },
        None => undeclared_string(basic),
    }
}

/// Determines the comment of an entry from the bytes in its header and the entry's extra fields.
pub fn detect_comment(basic: Vec<u8>, basic_is_utf8: bool, extra_fields: &[ExtraField]) -> (r: ZipString)
    ensures
        r@ == comment_of(basic@, crc32_of(basic@), basic_is_utf8, field_views(extra_fields@)),
{
    let basic_crc32: u32 = crc32fast::hash(basic.as_slice());
    detect_comment_by_crc32(basic, basic_crc32, basic_is_utf8, extra_fields)
}

/// Determines the name of an entry from the bytes in its header, their checksum and the entry's extra fields.
pub fn detect_filename_by_crc32(
    basic: Vec<u8>,
    basic_crc32: u32,
    basic_is_utf8: bool,
    extra_fields: &[ExtraField],
) -> (r: Result<ZipString, ZipError>)
    ensures
        match filename_of(basic@, basic_crc32, basic_is_utf8, field_views(extra_fields@)) {
            Ok(filename) => r is Ok && r->Ok_0@ == filename,
            Err(e) => r == Err::<ZipString, ZipError>(e),
        },
{
    if contains_byte(basic.as_slice(), 0) {
        return Err(ZipError::FileNameContainsNul);
    }
    match find_unicode_path(extra_fields, basic_crc32) {
        Some(unicode) => match text_of(unicode.as_slice()) {
            None => Err(ZipError::InfoZipUnicodePathFieldInvalidUtf8),
            Some(text) => {
                if contains_byte(unicode.as_slice(), 0) {
                    return Err(ZipError::FileNameContainsNul);
                }
                Ok(ZipString::new_with_alternative(text, basic))
            },
        },
        None => {
            if basic_is_utf8 {
                Ok(ZipString::new(basic, StringEncoding::Utf8))
            } else {
                Ok(undeclared_string(basic))
            }
        },
    }
}

/// Determines the name of an entry from the bytes in its header and the entry's extra fields.
pub fn detect_filename(basic: Vec<u8>, basic_is_utf8: bool, extra_fields: &[ExtraField]) -> (r: Result<
    ZipString,
    ZipError,
>)
    ensures
        match filename_of(basic@, crc32_of(basic@), basic_is_utf8, field_views(extra_fields@)) {
            Ok(filename) => r is Ok && r->Ok_0@ == filename,
            Err(e) => r == Err::<ZipString, ZipError>(e),
        },
{
    let basic_crc32: u32 = crc32fast::hash(basic.as_slice());
    detect_filename_by_crc32(basic, basic_crc32, basic_is_utf8, extra_fields)
}

/// No name that is accepted contains a NUL byte, neither as text nor in the header.
pub proof fn lemma_filename_without_nul(
    basic: Seq<u8>,
    basic_crc32: u32,
    basic_is_utf8: bool,
    fields: Seq<ExtraFieldView>,
)
    ensures
        filename_of(basic, basic_crc32, basic_is_utf8, fields) matches Ok(filename) ==> {
            &&& !filename.raw.contains(0)
            &&& filename.basic() == basic
            &&& !filename.basic().contains(0)
        },
{
}

} // verus!
