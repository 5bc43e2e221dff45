//! Extra fields.

use vstd::prelude::*;
use vstd::slice::slice_subrange;

use crate::bytes::{copy, copy_range, le16, le16_bytes, le32, le32_bytes, le64, le64_bytes};
use crate::bytes::{lemma_le16_reads_back, lemma_le32_reads_back, lemma_le64_reads_back};
use crate::bytes::{push_bytes, push_u16, push_u32, push_u64, read_u16, read_u32, read_u64};
use crate::error::ZipError;
use crate::format::consts::NON_ZIP64_MAX_SIZE;

verus! {

/// The id of a ZIP64 extended information field.
pub const ZIP64_EXTENDED_INFORMATION_ID: u16 = 0x0001;

/// The id of an Info-ZIP Unicode Comment field.
pub const INFO_ZIP_UNICODE_COMMENT_ID: u16 = 0x6375;

/// The id of an Info-ZIP Unicode Path field.
pub const INFO_ZIP_UNICODE_PATH_ID: u16 = 0x7075;

/// The values of header fields that are too large for the legacy format.
#[derive(Debug, Clone, Copy, PartialEq, Eq, Structural)]
pub struct Zip64ExtendedInformationExtraField {
    pub uncompressed_size: Option<u64>,
    pub compressed_size: Option<u64>,
    pub relative_header_offset: Option<u64>,
    pub disk_start_number: Option<u32>,
}

/// An entry's comment in UTF-8.
#[derive(Debug)]
pub enum InfoZipUnicodeCommentExtraField {
    /// The text, and the checksum of the comment that it replaces.
    V1 { crc32: u32, unicode: Vec<u8> },
    Unknown { version: u8, data: Vec<u8> },
}

/// An entry's name in UTF-8.
#[derive(Debug)]
pub enum InfoZipUnicodePathExtraField {
    /// The text, and the checksum of the name that it replaces.
    V1 { crc32: u32, unicode: Vec<u8> },
    Unknown { version: u8, data: Vec<u8> },
}

/// An extra field that the library does not interpret.
#[derive(Debug)]
pub struct UnknownExtraField {
    pub header_id: u16,
    pub content: Vec<u8>,
}

/// An extra field.
#[derive(Debug)]
pub enum ExtraField {
    Zip64ExtendedInformation(Zip64ExtendedInformationExtraField),
    InfoZipUnicodeComment(InfoZipUnicodeCommentExtraField),
    InfoZipUnicodePath(InfoZipUnicodePathExtraField),
    Unknown(UnknownExtraField),
}

/// What an Info-ZIP Unicode field stands for.
#[verifier::ext_equal]
pub enum UnicodeFieldView {
    V1 { crc32: u32, unicode: Seq<u8> },
    Unknown { version: u8, data: Seq<u8> },
}

/// What an [`ExtraField`] stands for.
#[verifier::ext_equal]
pub enum ExtraFieldView {
    Zip64ExtendedInformation(Zip64ExtendedInformationExtraField),
    InfoZipUnicodeComment(UnicodeFieldView),
    InfoZipUnicodePath(UnicodeFieldView),
    Unknown { header_id: u16, content: Seq<u8> },
}

impl View for InfoZipUnicodeCommentExtraField {
    type V = UnicodeFieldView;

    open spec fn view(&self) -> UnicodeFieldView {
        match *self {
            InfoZipUnicodeCommentExtraField::V1 { crc32, unicode } => UnicodeFieldView::V1 { crc32, unicode: unicode@ },
            InfoZipUnicodeCommentExtraField::Unknown { version, data } => UnicodeFieldView::Unknown {
                version,
                data: data@,
            },
        }
    }
}

impl View for InfoZipUnicodePathExtraField {
    type V = UnicodeFieldView;

    open spec fn view(&self) -> UnicodeFieldView {
        match *self {
            InfoZipUnicodePathExtraField::V1 { crc32, unicode } => UnicodeFieldView::V1 { crc32, unicode: unicode@ },
            InfoZipUnicodePathExtraField::Unknown { version, data } => UnicodeFieldView::Unknown {
                version,
                data: data@,
            },
        }
    }
}

impl View for ExtraField {
    type V = ExtraFieldView;

    open spec fn view(&self) -> ExtraFieldView {
        match *self {
            ExtraField::Zip64ExtendedInformation(zip64) => ExtraFieldView::Zip64ExtendedInformation(zip64),
            ExtraField::InfoZipUnicodeComment(comment) => ExtraFieldView::InfoZipUnicodeComment(comment@),
            ExtraField::InfoZipUnicodePath(path) => ExtraFieldView::InfoZipUnicodePath(path@),
            ExtraField::Unknown(unknown) => ExtraFieldView::Unknown {
                header_id: unknown.header_id,
                content: unknown.content@,
            },
        }
    }
}

/// What a sequence of extra fields stands for.
pub open spec fn field_views(fields: Seq<ExtraField>) -> Seq<ExtraFieldView> {
    Seq::new(fields.len(), |i: int| fields[i]@)
}

impl Clone for InfoZipUnicodeCommentExtraField {
    fn clone(&self) -> (r: InfoZipUnicodeCommentExtraField)
        ensures
            r@ == self@,
    {
        match self {
            InfoZipUnicodeCommentExtraField::V1 { crc32, unicode } => InfoZipUnicodeCommentExtraField::V1 {
                crc32: *crc32,
                unicode: copy(unicode.as_slice()),
            },
            InfoZipUnicodeCommentExtraField::Unknown { version, data } => InfoZipUnicodeCommentExtraField::Unknown {
                version: *version,
                data: copy(data.as_slice()),
            },
        }
    }
}

impl Clone for InfoZipUnicodePathExtraField {
    fn clone(&self) -> (r: InfoZipUnicodePathExtraField)
        ensures
            r@ == self@,
    {
        match self {
            InfoZipUnicodePathExtraField::V1 { crc32, unicode } => InfoZipUnicodePathExtraField::V1 {
                crc32: *crc32,
                unicode: copy(unicode.as_slice()),
            },
            InfoZipUnicodePathExtraField::Unknown { version, data } => InfoZipUnicodePathExtraField::Unknown {
                version: *version,
                data: copy(data.as_slice()),
            },
        }
    }
}

impl Clone for UnknownExtraField {
    fn clone(&self) -> (r: UnknownExtraField)
        ensures
            r.header_id == self.header_id,
            r.content@ == self.content@,
    {
        UnknownExtraField { header_id: self.header_id, content: copy(self.content.as_slice()) }
    }
}

impl Clone for ExtraField {
    fn clone(&self) -> (r: ExtraField)
        ensures
            r@ == self@,
    {
        match self {
            ExtraField::Zip64ExtendedInformation(zip64) => ExtraField::Zip64ExtendedInformation(*zip64),
            ExtraField::InfoZipUnicodeComment(comment) => ExtraField::InfoZipUnicodeComment(comment.clone()),
            ExtraField::InfoZipUnicodePath(path) => ExtraField::InfoZipUnicodePath(path.clone()),
            ExtraField::Unknown(unknown) => ExtraField::Unknown(unknown.clone()),
        }
    }
}

/// Copies extra fields.
pub(crate) fn copy_fields(fields: &[ExtraField]) -> (r: Vec<ExtraField>)
    ensures
        field_views(r@) == field_views(fields@),
{
    let mut out: Vec<ExtraField> = Vec::new();
    let mut i: usize = 0;
    while i < fields.len()
        invariant
            i <= fields@.len(),
            field_views(out@) == field_views(fields@).take(i as int),
        decreases fields@.len() - i,
    {
        let field = fields[i].clone();
        let ghost before = field_views(out@);
        let ghost view = field@;
        out.push(field);
        assert(field_views(out@) =~= before.push(view));
        assert(field_views(out@) =~= field_views(fields@).take(i + 1));
        i += 1;
    }
    assert(field_views(fields@).take(i as int) =~= field_views(fields@));
    out
}

/// The header fields that decide what a ZIP64 extended information field holds.
///
/// A value stands in the field exactly when its place in the header holds the greatest number that fits there. A local
/// file header has no place for an offset and a disk.
#[derive(Debug, Clone, Copy, PartialEq, Eq, Structural)]
pub struct Zip64Wants {
    pub uncompressed_size: bool,
    pub compressed_size: bool,
    pub relative_header_offset: bool,
    pub disk_start_number: bool,
}

/// Which values a ZIP64 extended information field holds beside these header fields.
pub open spec fn zip64_wants(
    uncompressed_size: u32,
    compressed_size: u32,
    lh_offset: Option<u32>,
    disk_start: Option<u16>,
) -> Zip64Wants {
    Zip64Wants {
        uncompressed_size: uncompressed_size == NON_ZIP64_MAX_SIZE,
        compressed_size: compressed_size == NON_ZIP64_MAX_SIZE,
        relative_header_offset: lh_offset == Some(NON_ZIP64_MAX_SIZE),
        disk_start_number: disk_start == Some(0xffffu16),
    }
}

impl Zip64Wants {
    /// Where the compressed size stands.
    pub open spec fn compressed_at(self) -> nat {
        if self.uncompressed_size { 8 } else { 0 }
    }

    /// Where the offset stands.
    pub open spec fn offset_at(self) -> nat {
        self.compressed_at() + if self.compressed_size { 8nat } else { 0 }
    }

    /// Where the disk stands.
    pub open spec fn disk_at(self) -> nat {
        self.offset_at() + if self.relative_header_offset { 8nat } else { 0 }
    }

    /// The length of the field.
    pub open spec fn length(self) -> nat {
        self.disk_at() + if self.disk_start_number { 4nat } else { 0 }
    }

    /// What the content of a ZIP64 extended information field says.
    pub open spec fn read(self, data: Seq<u8>) -> Result<Zip64ExtendedInformationExtraField, ZipError> {
        if data.len() < self.length() {
            Err(ZipError::Zip64ExtendedFieldIncomplete)
        } else if data.len() > self.length() {
            Err(
                ZipError::Zip64ExtendedInformationFieldTooLong {
                    expected: self.length() as usize,
                    actual: data.len() as usize,
                },
            )
        } else {
            Ok(
                Zip64ExtendedInformationExtraField {
                    uncompressed_size: if self.uncompressed_size { Some(le64(data, 0)) } else { None },
                    compressed_size: if self.compressed_size {
                        Some(le64(data, self.compressed_at() as int))
                    } else {
                        None
                    },
                    relative_header_offset: if self.relative_header_offset {
                        Some(le64(data, self.offset_at() as int))
                    } else {
                        None
                    },
                    disk_start_number: if self.disk_start_number {
                        Some(le32(data, self.disk_at() as int))
                    } else {
                        None
                    },
                },
            )
        }
    }

    /// Whether a field holds exactly the values that are wanted.
    pub open spec fn met_by(self, field: Zip64ExtendedInformationExtraField) -> bool {
        &&& self.uncompressed_size == field.uncompressed_size is Some
        &&& self.compressed_size == field.compressed_size is Some
        &&& self.relative_header_offset == field.relative_header_offset is Some
        &&& self.disk_start_number == field.disk_start_number is Some
    }
}

/// What the content of an Info-ZIP Unicode field says, if it is complete.
pub open spec fn unicode_field(data: Seq<u8>) -> Option<UnicodeFieldView> {
    if data.len() == 0 {
        None
    } else if data[0] != 1 {
        Some(UnicodeFieldView::Unknown { version: data[0], data: data.skip(1) })
    } else if data.len() < 5 {
        None
    } else {
        Some(UnicodeFieldView::V1 { crc32: le32(data, 1), unicode: data.skip(5) })
    }
}

/// What an extra field with a given id and content says.
pub open spec fn parse_field(header_id: u16, data: Seq<u8>, wants: Zip64Wants) -> Result<ExtraFieldView, ZipError> {
    if header_id == ZIP64_EXTENDED_INFORMATION_ID {
        match wants.read(data) {
            Ok(zip64) => Ok(ExtraFieldView::Zip64ExtendedInformation(zip64)),
            Err(e) => Err(e),
        }
    } else if header_id == INFO_ZIP_UNICODE_COMMENT_ID {
        match unicode_field(data) {
            Some(field) => Ok(ExtraFieldView::InfoZipUnicodeComment(field)),
            None => Err(ZipError::InfoZipUnicodeCommentFieldIncomplete),
        }
    } else if header_id == INFO_ZIP_UNICODE_PATH_ID {
        match unicode_field(data) {
            Some(field) => Ok(ExtraFieldView::InfoZipUnicodePath(field)),
            None => Err(ZipError::InfoZipUnicodePathFieldIncomplete),
        }
    } else {
        Ok(ExtraFieldView::Unknown { header_id, content: data })
    }
}

impl ExtraFieldView {
    /// The id of the field.
    pub open spec fn id(self) -> u16 {
        match self {
            ExtraFieldView::Zip64ExtendedInformation(_) => ZIP64_EXTENDED_INFORMATION_ID,
            ExtraFieldView::InfoZipUnicodeComment(_) => INFO_ZIP_UNICODE_COMMENT_ID,
            ExtraFieldView::InfoZipUnicodePath(_) => INFO_ZIP_UNICODE_PATH_ID,
            ExtraFieldView::Unknown { header_id, content } => header_id,
        }
    }

    /// The content of the field.
    pub open spec fn content(self) -> Seq<u8> {
        match self {
            ExtraFieldView::Zip64ExtendedInformation(zip64) => zip64_content(zip64),
            ExtraFieldView::InfoZipUnicodeComment(field) => unicode_content(field),
            ExtraFieldView::InfoZipUnicodePath(field) => unicode_content(field),
            ExtraFieldView::Unknown { header_id, content } => content,
        }
    }

    /// The field as bytes: its id, the length of its content, its content.
    pub open spec fn to_bytes(self) -> Seq<u8> {
        le16_bytes(self.id()) + le16_bytes(self.content().len() as u16) + self.content()
    }
}

/// The content of a ZIP64 extended information field.
pub open spec fn zip64_content(field: Zip64ExtendedInformationExtraField) -> Seq<u8> {
    optional_u64(field.uncompressed_size) + optional_u64(field.compressed_size) + optional_u64(
        field.relative_header_offset,
    ) + match field.disk_start_number {
        Some(x) => le32_bytes(x),
        None => Seq::empty(),
    }
}

/// The bytes of a number that may be absent.
pub open spec fn optional_u64(x: Option<u64>) -> Seq<u8> {
    match x {
        Some(x) => le64_bytes(x),
        None => Seq::empty(),
    }
}

/// The content of an Info-ZIP Unicode field.
pub open spec fn unicode_content(field: UnicodeFieldView) -> Seq<u8> {
    match field {
        UnicodeFieldView::V1 { crc32, unicode } => seq![1u8] + le32_bytes(crc32) + unicode,
        UnicodeFieldView::Unknown { version, data } => seq![version] + data,
    }
}

/// Whether a field with a given id is among the fields.
pub open spec fn has_id(fields: Seq<ExtraFieldView>, header_id: u16) -> bool {
    exists|i: int| 0 <= i < fields.len() && #[trigger] fields[i].id() == header_id
}

/// What the extra fields in `data` say, where `seen` came before them in the same header.
///
/// Up to three bytes at the end, too few for another field, are ignored.
pub open spec fn parse_after(data: Seq<u8>, wants: Zip64Wants, seen: Seq<ExtraFieldView>) -> Result<
    Seq<ExtraFieldView>,
    ZipError,
>
    decreases data.len(),
{
    if data.len() < 4 {
        Ok(seen)
    } else {
        let header_id = le16(data, 0);
        let size = le16(data, 2);
        if data.len() < 4 + size {
            Err(ZipError::InvalidExtraFieldHeader(size))
        } else if has_id(seen, header_id) {
            Err(ZipError::DuplicateExtraFieldHeader(header_id))
        } else {
            match parse_field(header_id, data.subrange(4, 4 + size), wants) {
                Err(e) => Err(e),
                Ok(field) => parse_after(data.skip(4 + size), wants, seen.push(field)),
            }
        }
    }
}

/// What the extra fields of a header say.
pub open spec fn parse_all(data: Seq<u8>, wants: Zip64Wants) -> Result<Seq<ExtraFieldView>, ZipError> {
    parse_after(data, wants, Seq::empty())
}

/// The bytes of extra fields.
pub open spec fn fields_bytes(fields: Seq<ExtraFieldView>) -> Seq<u8>
    decreases fields.len(),
{
    if fields.len() == 0 {
        Seq::empty()
    } else {
        fields_bytes(fields.drop_last()) + fields.last().to_bytes()
    }
}

/// Appends a number that may be absent.
fn push_optional_u64(out: &mut Vec<u8>, x: Option<u64>)
    ensures
        final(out)@ == old(out)@ + optional_u64(x),
{
    match x {
        Some(x) => push_u64(out, x),
        None => {
            assert(out@ =~= old(out)@ + optional_u64(x));
        },
    }
}

impl ExtraField {
    /// Returns the id of the field.
    pub fn header_id(&self) -> (r: u16)
        ensures
            r == self@.id(),
    {
        match self {
            ExtraField::Zip64ExtendedInformation(_) => ZIP64_EXTENDED_INFORMATION_ID,
            ExtraField::InfoZipUnicodeComment(_) => INFO_ZIP_UNICODE_COMMENT_ID,
            ExtraField::InfoZipUnicodePath(_) => INFO_ZIP_UNICODE_PATH_ID,
            ExtraField::Unknown(unknown) => unknown.header_id,
        }
    }

    /// Returns the content of the field.
    pub fn content(&self) -> (r: Vec<u8>)
        ensures
            r@ == self@.content(),
    {
        let mut out: Vec<u8> = Vec::new();
        match self {
            ExtraField::Zip64ExtendedInformation(zip64) => {
                push_optional_u64(&mut out, zip64.uncompressed_size);
                push_optional_u64(&mut out, zip64.compressed_size);
                push_optional_u64(&mut out, zip64.relative_header_offset);
                if let Some(x) = zip64.disk_start_number {
                    push_u32(&mut out, x);
                }
            },
            ExtraField::InfoZipUnicodeComment(field) => {
                match field {
                    InfoZipUnicodeCommentExtraField::V1 { crc32, unicode } => {
                        out.push(1);
                        push_u32(&mut out, *crc32);
                        push_bytes(&mut out, unicode.as_slice());
                    },
                    InfoZipUnicodeCommentExtraField::Unknown { version, data } => {
                        out.push(*version);
                        push_bytes(&mut out, data.as_slice());
                    },
                }
            },
            ExtraField::InfoZipUnicodePath(field) => {
                match field {
                    InfoZipUnicodePathExtraField::V1 { crc32, unicode } => {
                        out.push(1);
                        push_u32(&mut out, *crc32);
                        push_bytes(&mut out, unicode.as_slice());
                    },
                    InfoZipUnicodePathExtraField::Unknown { version, data } => {
                        out.push(*version);
                        push_bytes(&mut out, data.as_slice());
                    },
                }
            },
            ExtraField::Unknown(unknown) => {
                push_bytes(&mut out, unknown.content.as_slice());
            },
        }
        assert(out@ =~= self@.content());
        out
    }
}

/// Returns the bytes of extra fields.
pub fn as_bytes(fields: &[ExtraField]) -> (r: Vec<u8>)
    ensures
        r@ == fields_bytes(field_views(fields@)),
{
    let mut out: Vec<u8> = Vec::new();
    let mut i: usize = 0;
    let ghost views = field_views(fields@);
    assert(views.take(0) =~= Seq::empty());
    while i < fields.len()
        invariant
            i <= fields@.len(),
            views == field_views(fields@),
            out@ == fields_bytes(views.take(i as int)),
        decreases fields@.len() - i,
    {
        let content = fields[i].content();
        push_u16(&mut out, fields[i].header_id());
        push_u16(&mut out, content.len() as u16);
        push_bytes(&mut out, content.as_slice());
        proof {
            let next = views.take(i + 1);
            assert(next.drop_last() =~= views.take(i as int));
            assert(next.last() == fields@[i as int]@);
            assert(out@ =~= fields_bytes(views.take(i as int)) + next.last().to_bytes());
        }
        i += 1;
    }
    assert(views.take(i as int) =~= views);
    out
}

/// Returns the length in bytes of extra fields, if it fits in a header.
pub fn field_length(fields: &[ExtraField]) -> (r: Result<u16, ZipError>)
    ensures
        r == (if fields_bytes(field_views(fields@)).len() <= 0xffff {
            Ok(fields_bytes(field_views(fields@)).len() as u16)
        } else {
            Err(ZipError::ExtraFieldTooLarge)
        }),
{
    let length: usize = as_bytes(fields).len();
    if length > 0xffff {
        return Err(ZipError::ExtraFieldTooLarge);
    }
    Ok(length as u16)
}

/// Whether a field with a given id is among the fields.
fn contains_id(fields: &Vec<ExtraField>, header_id: u16) -> (r: bool)
    ensures
        r == has_id(field_views(fields@), header_id),
{
    let ghost views = field_views(fields@);
    let mut i: usize = 0;
    while i < fields.len()
        invariant
            i <= fields@.len(),
            views == field_views(fields@),
            forall|j: int| 0 <= j < i ==> #[trigger] views[j].id() != header_id,
        decreases fields@.len() - i,
    {
        if fields[i].header_id() == header_id {
            assert(views[i as int].id() == header_id);
            return true;
        }
        i += 1;
    }
    false
}

/// Reads the content of a ZIP64 extended information field.
fn zip64_from_bytes(data: &[u8], wants: Zip64Wants) -> (r: Result<Zip64ExtendedInformationExtraField, ZipError>)
    ensures
        r == wants.read(data@),
{
    let compressed_at: usize = if wants.uncompressed_size { 8 } else { 0 };
    let offset_at: usize = if wants.compressed_size { compressed_at + 8 } else { compressed_at };
    let disk_at: usize = if wants.relative_header_offset { offset_at + 8 } else { offset_at };
    let length: usize = if wants.disk_start_number { disk_at + 4 } else { disk_at };
    if data.len() < length {
        return Err(ZipError::Zip64ExtendedFieldIncomplete);
    }
    if data.len() > length {
        return Err(ZipError::Zip64ExtendedInformationFieldTooLong { expected: length, actual: data.len() });
    }
    let uncompressed_size: Option<u64> = if wants.uncompressed_size { Some(read_u64(data, 0)) } else { None };
    let compressed_size: Option<u64> = if wants.compressed_size { Some(read_u64(data, compressed_at)) } else { None };
    let relative_header_offset: Option<u64> = if wants.relative_header_offset {
        Some(read_u64(data, offset_at))
    } else {
        None
    };
    let disk_start_number: Option<u32> = if wants.disk_start_number { Some(read_u32(data, disk_at)) } else { None };
    Ok(
        Zip64ExtendedInformationExtraField {
            uncompressed_size,
            compressed_size,
            relative_header_offset,
            disk_start_number,
        },
    )
}

/// Reads an extra field with a given id and content.
fn field_from_bytes(header_id: u16, data: &[u8], wants: Zip64Wants) -> (r: Result<ExtraField, ZipError>)
    ensures
        match parse_field(header_id, data@, wants) {
            Ok(field) => r is Ok && r->Ok_0@ == field,
            Err(e) => r == Err::<ExtraField, ZipError>(e),
        },
{
    if header_id == ZIP64_EXTENDED_INFORMATION_ID {
        match zip64_from_bytes(data, wants) {
            Ok(zip64) => Ok(ExtraField::Zip64ExtendedInformation(zip64)),
            Err(e) => Err(e),
        }
    } else if header_id == INFO_ZIP_UNICODE_COMMENT_ID {
        if data.len() == 0 || (data[0] == 1 && data.len() < 5) {
            return Err(ZipError::InfoZipUnicodeCommentFieldIncomplete);
        }
        let field = if data[0] == 1 {
            InfoZipUnicodeCommentExtraField::V1 { crc32: read_u32(data, 1), unicode: copy_range(data, 5, data.len()) }
        } else {
            InfoZipUnicodeCommentExtraField::Unknown { version: data[0], data: copy_range(data, 1, data.len()) }
        };
        Ok(ExtraField::InfoZipUnicodeComment(field))
    } else if header_id == INFO_ZIP_UNICODE_PATH_ID {
        if data.len() == 0 || (data[0] == 1 && data.len() < 5) {
            return Err(ZipError::InfoZipUnicodePathFieldIncomplete);
        }
        let field = if data[0] == 1 {
            InfoZipUnicodePathExtraField::V1 { crc32: read_u32(data, 1), unicode: copy_range(data, 5, data.len()) }
        } else {
            InfoZipUnicodePathExtraField::Unknown { version: data[0], data: copy_range(data, 1, data.len()) }
        };
        Ok(ExtraField::InfoZipUnicodePath(field))
    } else {
        let content = copy_range(data, 0, data.len());
        assert(content@ =~= data@);
        Ok(ExtraField::Unknown(UnknownExtraField { header_id, content }))
    }
}

/// Reads the extra fields of a header, of which the fields that a ZIP64 extended information field may extend are given.
pub fn parse_extra_fields(
    data: &[u8],
    uncompressed_size: u32,
    compressed_size: u32,
    lh_offset: Option<u32>,
    disk_start: Option<u16>,
) -> (r: Result<Vec<ExtraField>, ZipError>)
    ensures
        match parse_all(data@, zip64_wants(uncompressed_size, compressed_size, lh_offset, disk_start)) {
            Ok(fields) => r is Ok && field_views(r->Ok_0@) == fields,
            Err(e) => r == Err::<Vec<ExtraField>, ZipError>(e),
        },
{
    let wants = Zip64Wants {
        uncompressed_size: uncompressed_size == NON_ZIP64_MAX_SIZE,
        compressed_size: compressed_size == NON_ZIP64_MAX_SIZE,
        relative_header_offset: matches!(lh_offset, Some(0xffff_ffff)),
        disk_start_number: matches!(disk_start, Some(0xffff)),
    };
    assert(wants == zip64_wants(uncompressed_size, compressed_size, lh_offset, disk_start));
    let mut fields: Vec<ExtraField> = Vec::new();
    let mut cursor: usize = 0;
    assert(data@.skip(0) =~= data@);
    assert(field_views(fields@) =~= Seq::empty());
    while data.len() - cursor >= 4
        invariant
            cursor <= data@.len(),
            wants == zip64_wants(uncompressed_size, compressed_size, lh_offset, disk_start),
            parse_all(data@, wants) == parse_after(data@.skip(cursor as int), wants, field_views(fields@)),
        decreases data@.len() - cursor,
    {
        let ghost rest = data@.skip(cursor as int);
        let header_id: u16 = read_u16(data, cursor);
        let size: u16 = read_u16(data, cursor + 2);
        assert(header_id == le16(rest, 0));
        assert(size == le16(rest, 2));
        if data.len() - cursor - 4 < size as usize {
            return Err(ZipError::InvalidExtraFieldHeader(size));
        }
        if contains_id(&fields, header_id) {
            return Err(ZipError::DuplicateExtraFieldHeader(header_id));
        }
        let start: usize = cursor + 4;
        let end: usize = start + size as usize;
        let content = slice_subrange(data, start, end);
        assert(content@ =~= rest.subrange(4, 4 + size));
        match field_from_bytes(header_id, content, wants) {
            Err(e) => {
                return Err(e);
            },
            Ok(field) => {
                let ghost before = field_views(fields@);
                fields.push(field);
                assert(field_views(fields@) =~= before.push(field@));
            },
        }
        assert(rest.skip(4 + size) =~= data@.skip(end as int));
        cursor = end;
    }
    Ok(fields)
}

impl ExtraFieldView {
    /// Whether the field, once written, is taken for itself again: its content fits its length field, it does not
    /// pretend to be of another kind, and a ZIP64 field holds what the header calls for.
    pub open spec fn readable(self, wants: Zip64Wants) -> bool {
        &&& self.content().len() <= 0xffff
        &&& match self {
            ExtraFieldView::Zip64ExtendedInformation(zip64) => wants.met_by(zip64),
            ExtraFieldView::InfoZipUnicodeComment(UnicodeFieldView::Unknown { version, data }) => version != 1,
            ExtraFieldView::InfoZipUnicodePath(UnicodeFieldView::Unknown { version, data }) => version != 1,
            ExtraFieldView::Unknown { header_id, content } => {
                &&& header_id != ZIP64_EXTENDED_INFORMATION_ID
                &&& header_id != INFO_ZIP_UNICODE_COMMENT_ID
                &&& header_id != INFO_ZIP_UNICODE_PATH_ID
            },
            _ => true,
        }
    }
}

/// Whether extra fields, once written, are taken for themselves again.
pub open spec fn fields_readable(fields: Seq<ExtraFieldView>, wants: Zip64Wants) -> bool {
    &&& forall|i: int| 0 <= i < fields.len() ==> #[trigger] fields[i].readable(wants)
    &&& forall|i: int, j: int| 0 <= i < j < fields.len() ==> #[trigger] fields[i].id() != #[trigger] fields[j].id()
}

proof fn lemma_unicode_content_reads_back(field: UnicodeFieldView)
    requires
        field matches UnicodeFieldView::Unknown { version, data } ==> version != 1,
    ensures
        unicode_field(unicode_content(field)) == Some(field),
{
    let content = unicode_content(field);
    match field {
        UnicodeFieldView::V1 { crc32, unicode } => {
            assert(content.subrange(1, 5) =~= le32_bytes(crc32));
            lemma_le32_reads_back(content, 1, crc32);
            assert(content.skip(5) =~= unicode);
        },
        UnicodeFieldView::Unknown { version, data } => {
            assert(content.skip(1) =~= data);
        },
    }
}

proof fn lemma_parts_of_concat(a: Seq<u8>, b: Seq<u8>, c: Seq<u8>, d: Seq<u8>)
    ensures
        ({
            let s = a + b + c + d;
            let b_at = a.len() as int;
            let c_at = b_at + b.len();
            let d_at = c_at + c.len();
            &&& s.len() == d_at + d.len()
            &&& s.subrange(0, b_at) == a
            &&& s.subrange(b_at, c_at) == b
            &&& s.subrange(c_at, d_at) == c
            &&& s.subrange(d_at, d_at + d.len()) == d
        }),
{
    let s = a + b + c + d;
    let b_at = a.len() as int;
    let c_at = b_at + b.len();
    let d_at = c_at + c.len();
    assert(s.subrange(0, b_at) =~= a);
    assert(s.subrange(b_at, c_at) =~= b);
    assert(s.subrange(c_at, d_at) =~= c);
    assert(s.subrange(d_at, d_at + d.len()) =~= d);
}

proof fn lemma_optional_u64_length(x: Option<u64>)
    ensures
        optional_u64(x).len() == (if x is Some { 8nat } else { 0 }),
{
}

proof fn lemma_optional_u64_reads_back(s: Seq<u8>, i: int, x: Option<u64>)
    requires
        0 <= i,
        i + optional_u64(x).len() <= s.len(),
        s.subrange(i, i + optional_u64(x).len()) == optional_u64(x),
    ensures
        x matches Some(n) ==> le64(s, i) == n,
{
    lemma_optional_u64_length(x);
    if let Some(n) = x {
        lemma_le64_reads_back(s, i, n);
    }
}

proof fn lemma_zip64_content_reads_back(field: Zip64ExtendedInformationExtraField, wants: Zip64Wants)
    requires
        wants.met_by(field),
    ensures
        wants.read(zip64_content(field)) == Ok::<Zip64ExtendedInformationExtraField, ZipError>(field),
{
    let a = optional_u64(field.uncompressed_size);
    let b = optional_u64(field.compressed_size);
    let c = optional_u64(field.relative_header_offset);
    let d = match field.disk_start_number {
        Some(x) => le32_bytes(x),
        None => Seq::<u8>::empty(),
    };
    let content = zip64_content(field);
    assert(content == a + b + c + d);
    lemma_parts_of_concat(a, b, c, d);
    lemma_optional_u64_length(field.uncompressed_size);
    lemma_optional_u64_length(field.compressed_size);
    lemma_optional_u64_length(field.relative_header_offset);
    assert(d.len() == (if wants.disk_start_number { 4nat } else { 0 }));
    assert(content.len() == wants.length());
    lemma_optional_u64_reads_back(content, 0, field.uncompressed_size);
    lemma_optional_u64_reads_back(content, wants.compressed_at() as int, field.compressed_size);
    lemma_optional_u64_reads_back(content, wants.offset_at() as int, field.relative_header_offset);
    if let Some(x) = field.disk_start_number {
        lemma_le32_reads_back(content, wants.disk_at() as int, x);
    }
}

proof fn lemma_field_reads_back(field: ExtraFieldView, wants: Zip64Wants)
    requires
        field.readable(wants),
    ensures
        parse_field(field.id(), field.content(), wants) == Ok::<ExtraFieldView, ZipError>(field),
{
    match field {
        ExtraFieldView::Zip64ExtendedInformation(zip64) => lemma_zip64_content_reads_back(zip64, wants),
        ExtraFieldView::InfoZipUnicodeComment(unicode) => lemma_unicode_content_reads_back(unicode),
        ExtraFieldView::InfoZipUnicodePath(unicode) => lemma_unicode_content_reads_back(unicode),
        ExtraFieldView::Unknown { header_id, content } => {},
    }
}

/// The bytes of extra fields are the bytes of the first followed by those of the others.
pub proof fn lemma_fields_bytes_first(fields: Seq<ExtraFieldView>)
    requires
        fields.len() > 0,
    ensures
        fields_bytes(fields) == fields[0].to_bytes() + fields_bytes(fields.drop_first()),
    decreases fields.len(),
{
    if fields.len() == 1 {
        assert(fields.drop_last() =~= Seq::empty());
        assert(fields.drop_first() =~= Seq::empty());
        assert(fields_bytes(fields) =~= fields[0].to_bytes() + fields_bytes(fields.drop_first()));
    } else {
        lemma_fields_bytes_first(fields.drop_last());
        assert(fields.drop_last().drop_first() =~= fields.drop_first().drop_last());
        assert(fields_bytes(fields) =~= fields[0].to_bytes() + (fields_bytes(fields.drop_first().drop_last())
            + fields.last().to_bytes()));
    }
}

proof fn lemma_fields_read_back_from(fields: Seq<ExtraFieldView>, i: int, wants: Zip64Wants)
    requires
        0 <= i <= fields.len(),
        fields_readable(fields, wants),
    ensures
        parse_after(fields_bytes(fields.skip(i)), wants, fields.take(i)) == Ok::<Seq<ExtraFieldView>, ZipError>(fields),
    decreases fields.len() - i,
{
    let rest = fields.skip(i);
    let data = fields_bytes(rest);
    if i == fields.len() {
        assert(fields.take(i) =~= fields);
    } else {
        let field = fields[i];
        let size = field.content().len() as u16;
        lemma_fields_bytes_first(rest);
        assert(rest.drop_first() =~= fields.skip(i + 1));
        assert(data == field.to_bytes() + fields_bytes(fields.skip(i + 1)));
        assert(field.readable(wants));
        assert(data.subrange(0, 2) =~= le16_bytes(field.id()));
        lemma_le16_reads_back(data, 0, field.id());
        assert(data.subrange(2, 4) =~= le16_bytes(size));
        lemma_le16_reads_back(data, 2, size);
        assert(data.subrange(4, 4 + size) =~= field.content());
        assert(data.skip(4 + size) =~= fields_bytes(fields.skip(i + 1)));
        lemma_field_reads_back(field, wants);
        assert(!has_id(fields.take(i), field.id())) by {
            if has_id(fields.take(i), field.id()) {
                let j = choose|j: int| 0 <= j < i && #[trigger] fields.take(i)[j].id() == field.id();
                assert(fields[j].id() == fields[i].id());
            }
        }
        assert(fields.take(i).push(field) =~= fields.take(i + 1));
        lemma_fields_read_back_from(fields, i + 1, wants);
    }
}

/// Extra fields read back as they were written, if each is taken for itself and no id occurs twice.
pub proof fn lemma_fields_read_back(fields: Seq<ExtraFieldView>, wants: Zip64Wants)
    requires
        fields_readable(fields, wants),
    ensures
        parse_all(fields_bytes(fields), wants) == Ok::<Seq<ExtraFieldView>, ZipError>(fields),
{
    lemma_fields_read_back_from(fields, 0, wants);
    assert(fields.skip(0) =~= fields);
    assert(fields.take(0) =~= Seq::empty());
}

} // verus!
