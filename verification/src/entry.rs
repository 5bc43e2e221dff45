//! Entries of archives.

use vstd::prelude::*;

use crate::error::ZipError;
use crate::format::attribute::AttributeCompatibility;
use crate::format::compression::{Compression, CompressionLevel};
use crate::format::date::ZipDateTime;
use crate::format::extra_field::{copy_fields, field_views, ExtraField, ExtraFieldView};
use crate::format::version::{method_version, DIRECTORY_VERSION_NEEDED};
use crate::string::{StringEncoding, ZipString, ZipStringView};

verus! {

/// What a [`ZipEntry`] stands for.
#[verifier::ext_equal]
pub struct ZipEntryView {
    pub filename: ZipStringView,
    pub compression: Compression,
    pub compression_level: CompressionLevel,
    pub crc32: u32,
    pub uncompressed_size: u64,
    pub compressed_size: u64,
    pub attribute_compatibility: AttributeCompatibility,
    pub last_modification_date: ZipDateTime,
    pub internal_file_attribute: u16,
    pub external_file_attribute: u32,
    pub extra_fields: Seq<ExtraFieldView>,
    pub comment: ZipStringView,
    pub data_descriptor: bool,
    pub file_offset: u64,
}

impl ZipEntryView {
    /// The strings of the entry are well formed.
    pub open spec fn wf(self) -> bool {
        self.filename.wf() && self.comment.wf()
    }

    /// Whether the entry is a directory: its name is text that ends with a slash.
    pub open spec fn is_dir(self) -> bool {
        &&& self.filename.encoding == StringEncoding::Utf8
        &&& self.filename.raw.len() > 0
        &&& self.filename.raw.last() == 0x2f
    }

    /// The version of the ZIP format that is needed to extract the entry.
    pub open spec fn version_needed(self) -> u16 {
        let version = method_version(self.compression.method_spec());
        if self.is_dir() && version < DIRECTORY_VERSION_NEEDED {
            DIRECTORY_VERSION_NEEDED
        } else {
            version
        }
    }

    /// A new entry, about which only its name and its compression method are known.
    pub open spec fn fresh(filename: ZipStringView, compression: Compression) -> ZipEntryView {
        ZipEntryView {
            filename,
            compression,
            compression_level: CompressionLevel::Default,
            crc32: 0,
            uncompressed_size: 0,
            compressed_size: 0,
            attribute_compatibility: AttributeCompatibility::Unix,
            last_modification_date: ZipDateTime { date: 0x21, time: 0 },
            internal_file_attribute: 0,
            external_file_attribute: 0,
            extra_fields: Seq::empty(),
            comment: ZipStringView::text(Seq::empty()),
            data_descriptor: false,
            file_offset: 0,
        }
    }
}

/// An immutable store of data about a ZIP entry.
///
/// This type cannot be directly constructed so instead, the [`ZipEntryBuilder`] must be used.
#[derive(Debug)]
pub struct ZipEntry {
    pub(crate) filename: ZipString,
    pub(crate) compression: Compression,
    pub(crate) compression_level: CompressionLevel,
    pub(crate) crc32: u32,
    pub(crate) uncompressed_size: u64,
    pub(crate) compressed_size: u64,
    pub(crate) attribute_compatibility: AttributeCompatibility,
    pub(crate) last_modification_date: ZipDateTime,
    pub(crate) internal_file_attribute: u16,
    pub(crate) external_file_attribute: u32,
    pub(crate) extra_fields: Vec<ExtraField>,
    pub(crate) comment: ZipString,
    pub(crate) data_descriptor: bool,
    pub(crate) file_offset: u64,
}

impl View for ZipEntry {
    type V = ZipEntryView;

    open(crate) spec fn view(&self) -> ZipEntryView {
        ZipEntryView {
            filename: self.filename@,
            compression: self.compression,
            compression_level: self.compression_level,
            crc32: self.crc32,
            uncompressed_size: self.uncompressed_size,
            compressed_size: self.compressed_size,
            attribute_compatibility: self.attribute_compatibility,
            last_modification_date: self.last_modification_date,
            internal_file_attribute: self.internal_file_attribute,
            external_file_attribute: self.external_file_attribute,
            extra_fields: field_views(self.extra_fields@),
            comment: self.comment@,
            data_descriptor: self.data_descriptor,
            file_offset: self.file_offset,
        }
    }
}

impl Clone for ZipEntry {
    fn clone(&self) -> (r: ZipEntry)
        ensures
            r@ == self@,
    {
        ZipEntry {
            filename: self.filename.clone(),
            compression: self.compression,
            compression_level: self.compression_level,
            crc32: self.crc32,
            uncompressed_size: self.uncompressed_size,
            compressed_size: self.compressed_size,
            attribute_compatibility: self.attribute_compatibility,
            last_modification_date: self.last_modification_date,
            internal_file_attribute: self.internal_file_attribute,
            external_file_attribute: self.external_file_attribute,
            extra_fields: copy_fields(self.extra_fields.as_slice()),
            comment: self.comment.clone(),
            data_descriptor: self.data_descriptor,
            file_offset: self.file_offset,
        }
    }
}

impl ZipEntry {
    pub(crate) fn new(filename: ZipString, compression: Compression) -> (r: ZipEntry)
        ensures
            r@ == ZipEntryView::fresh(filename@, compression),
    {
        let r = ZipEntry {
            filename,
            compression,
            compression_level: CompressionLevel::Default,
            crc32: 0,
            uncompressed_size: 0,
            compressed_size: 0,
            attribute_compatibility: AttributeCompatibility::Unix,
            last_modification_date: ZipDateTime::default_for_write(),
            internal_file_attribute: 0,
            external_file_attribute: 0,
            extra_fields: Vec::new(),
            comment: ZipString::new(Vec::new(), StringEncoding::Utf8),
            data_descriptor: false,
            file_offset: 0,
        };
        assert(field_views(r.extra_fields@) =~= Seq::empty());
        assert(r.comment@ =~= ZipStringView::text(Seq::empty()));
        r
    }

    /// Returns the entry's filename.
    ///
    /// This is the raw filename stored during ZIP creation. On entries retrieved from untrusted ZIP files, the filename
    /// should be sanitised before being used as a path.
    pub fn filename(&self) -> (r: &ZipString)
        ensures
            r@ == self@.filename,
    {
        &self.filename
    }

    /// Returns the entry's compression method.
    pub fn compression(&self) -> (r: Compression)
        ensures
            r == self@.compression,
    {
        self.compression
    }

    /// Returns the entry's CRC32 value.
    pub fn crc32(&self) -> (r: u32)
        ensures
            r == self@.crc32,
    {
        self.crc32
    }

    /// Returns the entry's uncompressed size.
    pub fn uncompressed_size(&self) -> (r: u64)
        ensures
            r == self@.uncompressed_size,
    {
        self.uncompressed_size
    }

    /// Returns the entry's compressed size.
    pub fn compressed_size(&self) -> (r: u64)
        ensures
            r == self@.compressed_size,
    {
        self.compressed_size
    }

    /// Returns the entry's attribute's host compatibility.
    pub fn attribute_compatibility(&self) -> (r: AttributeCompatibility)
        ensures
            r == self@.attribute_compatibility,
    {
        self.attribute_compatibility
    }

    /// Returns the entry's last modification time & date.
    pub fn last_modification_date(&self) -> (r: &ZipDateTime)
        ensures
            *r == self@.last_modification_date,
    {
        &self.last_modification_date
    }

    /// Returns the entry's internal file attribute.
    pub fn internal_file_attribute(&self) -> (r: u16)
        ensures
            r == self@.internal_file_attribute,
    {
        self.internal_file_attribute
    }

    /// Returns the entry's external file attribute
    pub fn external_file_attribute(&self) -> (r: u32)
        ensures
            r == self@.external_file_attribute,
    {
        self.external_file_attribute
    }

    /// Returns the entry's extra field data.
    pub fn extra_fields(&self) -> (r: &[ExtraField])
        ensures
            field_views(r@) == self@.extra_fields,
    {
        self.extra_fields.as_slice()
    }

    /// Returns the entry's file comment.
    pub fn comment(&self) -> (r: &ZipString)
        ensures
            r@ == self@.comment,
    {
        &self.comment
    }

    /// Returns the entry's integer-based UNIX permissions.
    ///
    /// This will return None if the attribute host compatibility is not listed as Unix.
    pub fn unix_permissions(&self) -> (r: Option<u16>)
        ensures
            r == (if self@.attribute_compatibility == AttributeCompatibility::Unix {
                Some((self@.external_file_attribute / 0x1_0000) as u16)
            } else {
                None
            }),
    {
        if !matches!(self.attribute_compatibility, AttributeCompatibility::Unix) {
            return None;
        }
        Some((self.external_file_attribute / 0x1_0000) as u16)
    }

    /// Returns whether or not the entry represents a directory.
    pub fn dir(&self) -> (r: Result<bool, ZipError>)
        ensures
            r == (if self@.filename.encoding == StringEncoding::Utf8 {
                Ok(self@.is_dir())
            } else {
                Err(ZipError::StringNotUtf8)
            }),
            self@.filename.encoding == StringEncoding::Utf8 ==> {
                let name = self@.filename.raw;
                r == Ok::<bool, ZipError>(name.len() > 0 && name[name.len() - 1] == 0x2f)
            },
    {
        match self.filename.encoding() {
            StringEncoding::Raw => Err(ZipError::StringNotUtf8),
            StringEncoding::Utf8 => {
                let name = self.filename.as_bytes();
                Ok(name.len() > 0 && name[name.len() - 1] == 0x2f)
            },
        }
    }

    /// Returns whether or not the entry has a data descriptor.
    pub fn data_descriptor(&self) -> (r: bool)
        ensures
            r == self@.data_descriptor,
    {
        self.data_descriptor
    }

    /// Returns the file offset in bytes of the local file header for this entry.
    pub fn file_offset(&self) -> (r: u64)
        ensures
            r == self@.file_offset,
    {
        self.file_offset
    }
}

/// What a [`StoredZipEntry`] stands for.
#[verifier::ext_equal]
pub struct StoredZipEntryView {
    pub entry: ZipEntryView,
    pub file_offset: u64,
    pub header_size: u64,
    pub data_end_boundary: u64,
}

/// An immutable store of data about how a ZIP entry is stored within a specific archive.
///
/// Besides storing archive independent information like the size and timestamp it can also be used to query
/// information about how the entry is stored in an archive.
pub struct StoredZipEntry {
    pub(crate) entry: ZipEntry,
    pub(crate) file_offset: u64,
    pub(crate) header_size: u64,
    pub(crate) data_end_boundary: u64,
}

impl View for StoredZipEntry {
    type V = StoredZipEntryView;

    open(crate) spec fn view(&self) -> StoredZipEntryView {
        StoredZipEntryView {
            entry: self.entry@,
            file_offset: self.file_offset,
            header_size: self.header_size,
            data_end_boundary: self.data_end_boundary,
        }
    }
}

impl Clone for StoredZipEntry {
    fn clone(&self) -> (r: StoredZipEntry)
        ensures
            r@ == self@,
    {
        StoredZipEntry {
            entry: self.entry.clone(),
            file_offset: self.file_offset,
            header_size: self.header_size,
            data_end_boundary: self.data_end_boundary,
        }
    }
}

impl StoredZipEntry {
    /// Returns the offset in bytes to where the header of the entry starts.
    pub fn header_offset(&self) -> (r: u64)
        ensures
            r == self@.file_offset,
    {
        self.file_offset
    }

    /// Returns the combined size in bytes of the header, the filename, and any extra fields.
    ///
    /// Note: This uses the extra field length stored in the central directory, which may differ from that stored in
    /// the local file header.
    pub fn header_size(&self) -> (r: u64)
        ensures
            r == self@.header_size,
    {
        self.header_size
    }
}

impl core::ops::Deref for StoredZipEntry {
    type Target = ZipEntry;

    fn deref(&self) -> (r: &ZipEntry)
        ensures
            r@ == self@.entry,
    {
        &self.entry
    }
}

/// Builds a [`ZipEntry`].
pub struct ZipEntryBuilder(pub(crate) ZipEntry);

impl View for ZipEntryBuilder {
    type V = ZipEntryView;

    open(crate) spec fn view(&self) -> ZipEntryView {
        self.0@
    }
}

impl ZipEntryBuilder {
    /// Constructs a new builder which defines the raw underlying data of a ZIP entry.
    pub fn new(filename: ZipString, compression: Compression) -> (r: ZipEntryBuilder)
        ensures
            r@ == ZipEntryView::fresh(filename@, compression),
    {
        ZipEntryBuilder(ZipEntry::new(filename, compression))
    }

    /// Sets the sizes of the entry.
    pub fn size(self, compressed_size: u64, uncompressed_size: u64) -> (r: ZipEntryBuilder)
        ensures
            r@ == (ZipEntryView { compressed_size, uncompressed_size, ..self@ }),
    {
        let mut entry = self.0;
        entry.compressed_size = compressed_size;
        entry.uncompressed_size = uncompressed_size;
        ZipEntryBuilder(entry)
    }

    /// Sets the extra fields of the entry.
    pub fn extra_fields(self, fields: Vec<ExtraField>) -> (r: ZipEntryBuilder)
        ensures
            r@ == (ZipEntryView { extra_fields: field_views(fields@), ..self@ }),
    {
        let mut entry = self.0;
        entry.extra_fields = fields;
        ZipEntryBuilder(entry)
    }

    /// Sets the comment of the entry.
    pub fn comment(self, comment: ZipString) -> (r: ZipEntryBuilder)
        ensures
            r@ == (ZipEntryView { comment: comment@, ..self@ }),
    {
        let mut entry = self.0;
        entry.comment = comment;
        ZipEntryBuilder(entry)
    }

    /// Returns the entry as built.
    pub fn build(self) -> (r: ZipEntry)
        ensures
            r@ == self@,
    {
        ZipEntry::from(self)
    }
}

impl From<ZipEntryBuilder> for ZipEntry {
    fn from(builder: ZipEntryBuilder) -> (r: ZipEntry)
        ensures
            r@ == builder@,
    {
        builder.0
    }
}

impl vstd::std_specs::convert::FromSpecImpl<ZipEntryBuilder> for ZipEntry {
    open spec fn obeys_from_spec() -> bool {
        true
    }

    closed spec fn from_spec(builder: ZipEntryBuilder) -> ZipEntry {
        builder.0
    }
}

} // verus!
