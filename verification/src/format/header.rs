//! Local file headers and central directory headers.

use vstd::prelude::*;

use crate::bytes::{le16, le16_bytes, le32, le32_bytes, push_u16, push_u32, read_u16, read_u32};
use crate::bytes::{lemma_le16_reads_back, lemma_le32_reads_back};
use crate::error::ZipError;
use crate::format::consts::{CDH_LENGTH, LFH_LENGTH};
use crate::format::version::{extract_version_error, validate_extract_version};
use crate::law::layout::{lemma_central_header_layout, lemma_local_header_layout};

verus! {

/// The flags of an entry.
#[derive(Debug, Clone, Copy, PartialEq, Eq, Structural)]
pub struct GeneralPurposeFlag {
    pub data_descriptor: bool,
    pub encrypted: bool,
    pub filename_unicode: bool,
}

/// A local file header, without its signature and its variable fields.
#[derive(Debug, Clone, Copy, PartialEq, Eq, Structural)]
pub struct LocalFileHeader {
    pub version: u16,
    pub flags: GeneralPurposeFlag,
    pub compression: u16,
    pub mod_time: u16,
    pub mod_date: u16,
    pub crc: u32,
    pub compressed_size: u32,
    pub uncompressed_size: u32,
    pub file_name_length: u16,
    pub extra_field_length: u16,
}

/// A central directory header, without its signature and its variable fields.
#[derive(Debug, Clone, Copy, PartialEq, Eq, Structural)]
pub struct CentralDirectoryRecord {
    pub v_made_by: u16,
    pub v_needed: u16,
    pub flags: GeneralPurposeFlag,
    pub compression: u16,
    pub mod_time: u16,
    pub mod_date: u16,
    pub crc: u32,
    pub compressed_size: u32,
    pub uncompressed_size: u32,
    pub file_name_length: u16,
    pub extra_field_length: u16,
    pub file_comment_length: u16,
    pub disk_start: u16,
    pub inter_attr: u16,
    pub exter_attr: u32,
    pub lh_offset: u32,
}

/// Whether the bit of `value` with the weight `weight`, a power of two, is set.
pub open spec fn has_bit(value: u16, weight: u16) -> bool {
    (value / weight) % 2 == 1
}

/// What keeps an entry with these header fields from being read, if anything.
pub open spec fn unsupported(version: u16, flags: u16, compression: u16) -> Option<ZipError> {
    if has_bit(flags, 0x40) {
        Some(ZipError::FeatureNotSupported("strong encryption"))
    } else if has_bit(flags, 0x1) || has_bit(flags, 0x2000) {
        Some(ZipError::FeatureNotSupported("encryption"))
    } else if has_bit(flags, 0x20) {
        Some(ZipError::FeatureNotSupported("compressed patched data"))
    } else {
        extract_version_error(version, compression)
    }
}

impl GeneralPurposeFlag {
    /// The flags that a number stands for.
    pub open spec fn of_bits(value: u16) -> GeneralPurposeFlag {
        GeneralPurposeFlag {
            data_descriptor: has_bit(value, 0x8),
            encrypted: has_bit(value, 0x1),
            filename_unicode: has_bit(value, 0x800),
        }
    }

    /// The flags as a number.
    pub open spec fn to_bits(self) -> u16 {
        ((if self.encrypted { 0x1int } else { 0 }) + (if self.data_descriptor { 0x8int } else { 0 }) + (if self.filename_unicode {
            0x800int
        } else {
            0
        })) as u16
    }

    /// Reads flags.
    pub fn from_value(value: u16) -> (r: GeneralPurposeFlag)
        ensures
            r == GeneralPurposeFlag::of_bits(value),
    {
        GeneralPurposeFlag {
            data_descriptor: (value / 0x8) % 2 == 1,
            encrypted: value % 2 == 1,
            filename_unicode: (value / 0x800) % 2 == 1,
        }
    }

    /// Returns the flags as a number.
    pub fn as_value(&self) -> (r: u16)
        ensures
            r == self.to_bits(),
    {
        let encrypted: u16 = if self.encrypted { 0x1 } else { 0 };
        let data_descriptor: u16 = if self.data_descriptor { 0x8 } else { 0 };
        let filename_unicode: u16 = if self.filename_unicode { 0x800 } else { 0 };
        encrypted + data_descriptor + filename_unicode
    }
}

/// Checks that an entry with these header fields can be read.
fn check_supported(version: u16, flags: u16, compression: u16) -> (r: Result<(), ZipError>)
    ensures
        r == (match unsupported(version, flags, compression) {
            Some(e) => Err(e),
            None => Ok(()),
        }),
{
    if (flags / 0x40) % 2 == 1 {
        return Err(ZipError::FeatureNotSupported("strong encryption"));
    }
    if flags % 2 == 1 || (flags / 0x2000) % 2 == 1 {
        return Err(ZipError::FeatureNotSupported("encryption"));
    }
    if (flags / 0x20) % 2 == 1 {
        return Err(ZipError::FeatureNotSupported("compressed patched data"));
    }
    validate_extract_version(version, compression)
}

impl LocalFileHeader {
    /// The header that stands in `b` from `i` on.
    pub open spec fn at(b: Seq<u8>, i: int) -> LocalFileHeader {
        LocalFileHeader {
            version: le16(b, i),
            flags: GeneralPurposeFlag::of_bits(le16(b, i + 2)),
            compression: le16(b, i + 4),
            mod_time: le16(b, i + 6),
            mod_date: le16(b, i + 8),
            crc: le32(b, i + 10),
            compressed_size: le32(b, i + 14),
            uncompressed_size: le32(b, i + 18),
            file_name_length: le16(b, i + 22),
            extra_field_length: le16(b, i + 24),
        }
    }

    /// What reading the header that stands in `b` from `i` on gives.
    pub open spec fn read_at(b: Seq<u8>, i: int) -> Result<LocalFileHeader, ZipError> {
        match unsupported(le16(b, i), le16(b, i + 2), le16(b, i + 4)) {
            Some(e) => Err(e),
            None => Ok(LocalFileHeader::at(b, i)),
        }
    }

    /// The bytes of the header.
    pub open spec fn to_bytes(self) -> Seq<u8> {
        le16_bytes(self.version) + le16_bytes(self.flags.to_bits()) + le16_bytes(self.compression) + le16_bytes(
            self.mod_time,
        ) + le16_bytes(self.mod_date) + le32_bytes(self.crc) + le32_bytes(self.compressed_size) + le32_bytes(
            self.uncompressed_size,
        ) + le16_bytes(self.file_name_length) + le16_bytes(self.extra_field_length)
    }

    /// Reads the header that stands in `b` from `i` on.
    pub fn from_bytes(b: &[u8], i: usize) -> (r: Result<LocalFileHeader, ZipError>)
        requires
            i + LFH_LENGTH <= b.len(),
        ensures
            r == LocalFileHeader::read_at(b@, i as int),
            r is Ok <==> {
                &&& !has_bit(le16(b@, i + 2), 0x1)
                &&& !has_bit(le16(b@, i + 2), 0x20)
                &&& !has_bit(le16(b@, i + 2), 0x40)
                &&& !has_bit(le16(b@, i + 2), 0x2000)
                &&& le16(b@, i as int) % 0x100 <= 63
                &&& le16(b@, i + 4) == 9 ==> le16(b@, i as int) % 0x100 >= 21
            },
            r matches Ok(h) ==> {
                &&& h.version == le16(b@, i as int)
                &&& h.flags.encrypted == has_bit(le16(b@, i + 2), 0x1)
                &&& h.flags.data_descriptor == has_bit(le16(b@, i + 2), 0x8)
                &&& h.flags.filename_unicode == has_bit(le16(b@, i + 2), 0x800)
                &&& h.compression == le16(b@, i + 4)
                &&& h.mod_time == le16(b@, i + 6)
                &&& h.mod_date == le16(b@, i + 8)
                &&& h.crc == le32(b@, i + 10)
                &&& h.compressed_size == le32(b@, i + 14)
                &&& h.uncompressed_size == le32(b@, i + 18)
                &&& h.file_name_length == le16(b@, i + 22)
                &&& h.extra_field_length == le16(b@, i + 24)
            },
    {
        let version: u16 = read_u16(b, i);
        let flags: u16 = read_u16(b, i + 2);
        let compression: u16 = read_u16(b, i + 4);
        match check_supported(version, flags, compression) {
            Err(e) => Err(e),
            Ok(()) => Ok(
                LocalFileHeader {
                    version,
                    flags: GeneralPurposeFlag::from_value(flags),
                    compression,
                    mod_time: read_u16(b, i + 6),
                    mod_date: read_u16(b, i + 8),
                    crc: read_u32(b, i + 10),
                    compressed_size: read_u32(b, i + 14),
                    uncompressed_size: read_u32(b, i + 18),
                    file_name_length: read_u16(b, i + 22),
                    extra_field_length: read_u16(b, i + 24),
                },
            ),
        }
    }

    /// Returns the bytes of the header.
    pub fn as_slice(&self) -> (r: Vec<u8>)
        ensures
            r@ == self.to_bytes(),
            r@.len() == LFH_LENGTH,
            le16(r@, 0) == self.version,
            le16(r@, 2) == self.flags.to_bits(),
            le16(r@, 4) == self.compression,
            le16(r@, 6) == self.mod_time,
            le16(r@, 8) == self.mod_date,
            le32(r@, 10) == self.crc,
            le32(r@, 14) == self.compressed_size,
            le32(r@, 18) == self.uncompressed_size,
            le16(r@, 22) == self.file_name_length,
            le16(r@, 24) == self.extra_field_length,
    {
        let mut out: Vec<u8> = Vec::new();
        push_u16(&mut out, self.version);
        push_u16(&mut out, self.flags.as_value());
        push_u16(&mut out, self.compression);
        push_u16(&mut out, self.mod_time);
        push_u16(&mut out, self.mod_date);
        push_u32(&mut out, self.crc);
        push_u32(&mut out, self.compressed_size);
        push_u32(&mut out, self.uncompressed_size);
        push_u16(&mut out, self.file_name_length);
        push_u16(&mut out, self.extra_field_length);
        assert(out@ =~= self.to_bytes());
        proof {
            lemma_local_header_layout(*self, out@, 0);
        }
        out
    }
}

impl CentralDirectoryRecord {
    /// The header that stands in `b` from `i` on.
    pub open spec fn at(b: Seq<u8>, i: int) -> CentralDirectoryRecord {
        CentralDirectoryRecord {
            v_made_by: le16(b, i),
            v_needed: le16(b, i + 2),
            flags: GeneralPurposeFlag::of_bits(le16(b, i + 4)),
            compression: le16(b, i + 6),
            mod_time: le16(b, i + 8),
            mod_date: le16(b, i + 10),
            crc: le32(b, i + 12),
            compressed_size: le32(b, i + 16),
            uncompressed_size: le32(b, i + 20),
            file_name_length: le16(b, i + 24),
            extra_field_length: le16(b, i + 26),
            file_comment_length: le16(b, i + 28),
            disk_start: le16(b, i + 30),
            inter_attr: le16(b, i + 32),
            exter_attr: le32(b, i + 34),
            lh_offset: le32(b, i + 38),
        }
    }

    /// What reading the header that stands in `b` from `i` on gives.
    pub open spec fn read_at(b: Seq<u8>, i: int) -> Result<CentralDirectoryRecord, ZipError> {
        match unsupported(le16(b, i + 2), le16(b, i + 4), le16(b, i + 6)) {
            Some(e) => Err(e),
            None => Ok(CentralDirectoryRecord::at(b, i)),
        }
    }

    /// The bytes of the fields that say how the entry is encoded.
    pub open spec fn encoding_bytes(self) -> Seq<u8> {
        le16_bytes(self.v_made_by) + le16_bytes(self.v_needed) + le16_bytes(self.flags.to_bits()) + le16_bytes(
            self.compression,
        ) + le16_bytes(self.mod_time) + le16_bytes(self.mod_date)
    }

    /// The bytes of the fields that describe the entry's data and the variable fields.
    pub open spec fn size_bytes(self) -> Seq<u8> {
        le32_bytes(self.crc) + le32_bytes(self.compressed_size) + le32_bytes(self.uncompressed_size) + le16_bytes(
            self.file_name_length,
        ) + le16_bytes(self.extra_field_length) + le16_bytes(self.file_comment_length)
    }

    /// The bytes of the fields that say where the entry stands and what attributes it has.
    pub open spec fn place_bytes(self) -> Seq<u8> {
        le16_bytes(self.disk_start) + le16_bytes(self.inter_attr) + le32_bytes(self.exter_attr) + le32_bytes(
            self.lh_offset,
        )
    }

    /// The bytes of the header.
    pub open spec fn to_bytes(self) -> Seq<u8> {
        self.encoding_bytes() + self.size_bytes() + self.place_bytes()
    }

    /// The size of the entry in the central directory: the signature, this header and its variable fields.
    pub open spec fn entry_size(self) -> nat {
        46 + self.file_name_length as nat + self.extra_field_length as nat + self.file_comment_length as nat
    }

    /// Reads the header that stands in `b` from `i` on.
    pub fn from_bytes(b: &[u8], i: usize) -> (r: Result<CentralDirectoryRecord, ZipError>)
        requires
            i + CDH_LENGTH <= b.len(),
        ensures
            r == CentralDirectoryRecord::read_at(b@, i as int),
            r is Ok <==> {
                &&& !has_bit(le16(b@, i + 4), 0x1)
                &&& !has_bit(le16(b@, i + 4), 0x20)
                &&& !has_bit(le16(b@, i + 4), 0x40)
                &&& !has_bit(le16(b@, i + 4), 0x2000)
                &&& le16(b@, i + 2) % 0x100 <= 63
                &&& le16(b@, i + 6) == 9 ==> le16(b@, i + 2) % 0x100 >= 21
            },
            r matches Ok(h) ==> {
                &&& h.v_made_by == le16(b@, i as int)
                &&& h.v_needed == le16(b@, i + 2)
                &&& h.flags.encrypted == has_bit(le16(b@, i + 4), 0x1)
                &&& h.flags.data_descriptor == has_bit(le16(b@, i + 4), 0x8)
                &&& h.flags.filename_unicode == has_bit(le16(b@, i + 4), 0x800)
                &&& h.compression == le16(b@, i + 6)
                &&& h.mod_time == le16(b@, i + 8)
                &&& h.mod_date == le16(b@, i + 10)
                &&& h.crc == le32(b@, i + 12)
                &&& h.compressed_size == le32(b@, i + 16)
                &&& h.uncompressed_size == le32(b@, i + 20)
                &&& h.file_name_length == le16(b@, i + 24)
                &&& h.extra_field_length == le16(b@, i + 26)
                &&& h.file_comment_length == le16(b@, i + 28)
                &&& h.disk_start == le16(b@, i + 30)
                &&& h.inter_attr == le16(b@, i + 32)
                &&& h.exter_attr == le32(b@, i + 34)
                &&& h.lh_offset == le32(b@, i + 38)
            },
    {
        let v_needed: u16 = read_u16(b, i + 2);
        let flags: u16 = read_u16(b, i + 4);
        let compression: u16 = read_u16(b, i + 6);
        match check_supported(v_needed, flags, compression) {
            Err(e) => Err(e),
            Ok(()) => Ok(
                CentralDirectoryRecord {
                    v_made_by: read_u16(b, i),
                    v_needed,
                    flags: GeneralPurposeFlag::from_value(flags),
                    compression,
                    mod_time: read_u16(b, i + 8),
                    mod_date: read_u16(b, i + 10),
                    crc: read_u32(b, i + 12),
                    compressed_size: read_u32(b, i + 16),
                    uncompressed_size: read_u32(b, i + 20),
                    file_name_length: read_u16(b, i + 24),
                    extra_field_length: read_u16(b, i + 26),
                    file_comment_length: read_u16(b, i + 28),
                    disk_start: read_u16(b, i + 30),
                    inter_attr: read_u16(b, i + 32),
                    exter_attr: read_u32(b, i + 34),
                    lh_offset: read_u32(b, i + 38),
                },
            ),
        }
    }

    /// Returns the bytes of the header.
    pub fn as_slice(&self) -> (r: Vec<u8>)
        ensures
            r@ == self.to_bytes(),
            r@.len() == CDH_LENGTH,
            le16(r@, 0) == self.v_made_by,
            le16(r@, 2) == self.v_needed,
            le16(r@, 4) == self.flags.to_bits(),
            le16(r@, 6) == self.compression,
            le16(r@, 8) == self.mod_time,
            le16(r@, 10) == self.mod_date,
            le32(r@, 12) == self.crc,
            le32(r@, 16) == self.compressed_size,
            le32(r@, 20) == self.uncompressed_size,
            le16(r@, 24) == self.file_name_length,
            le16(r@, 26) == self.extra_field_length,
            le16(r@, 28) == self.file_comment_length,
            le16(r@, 30) == self.disk_start,
            le16(r@, 32) == self.inter_attr,
            le32(r@, 34) == self.exter_attr,
            le32(r@, 38) == self.lh_offset,
    {
        let mut out: Vec<u8> = Vec::new();
        push_u16(&mut out, self.v_made_by);
        push_u16(&mut out, self.v_needed);
        push_u16(&mut out, self.flags.as_value());
        push_u16(&mut out, self.compression);
        push_u16(&mut out, self.mod_time);
        push_u16(&mut out, self.mod_date);
        push_u32(&mut out, self.crc);
        push_u32(&mut out, self.compressed_size);
        push_u32(&mut out, self.uncompressed_size);
        push_u16(&mut out, self.file_name_length);
        push_u16(&mut out, self.extra_field_length);
        push_u16(&mut out, self.file_comment_length);
        push_u16(&mut out, self.disk_start);
        push_u16(&mut out, self.inter_attr);
        push_u32(&mut out, self.exter_attr);
        push_u32(&mut out, self.lh_offset);
        assert(out@ =~= self.to_bytes());
        proof {
            lemma_central_header_layout(*self, out@, 0);
        }
        out
    }
}

/// Flags survive being written as a number, and a number that was written has no other bits.
pub proof fn lemma_flags_read_back(flags: GeneralPurposeFlag)
    ensures
        GeneralPurposeFlag::of_bits(flags.to_bits()) == flags,
        !has_bit(flags.to_bits(), 0x20),
        !has_bit(flags.to_bits(), 0x40),
        !has_bit(flags.to_bits(), 0x2000),
        has_bit(flags.to_bits(), 0x1) == flags.encrypted,
{
}

/// A local file header reads back as it was written, if it declares no encryption and a supported version.
pub proof fn lemma_local_header_reads_back(h: LocalFileHeader, b: Seq<u8>, i: int)
    requires
        0 <= i,
        i + LFH_LENGTH <= b.len(),
        b.subrange(i, i + LFH_LENGTH) == h.to_bytes(),
        !h.flags.encrypted,
        extract_version_error(h.version, h.compression) is None,
    ensures
        LocalFileHeader::read_at(b, i) == Ok::<LocalFileHeader, ZipError>(h),
{
    let s = h.to_bytes();
    lemma_flags_read_back(h.flags);
    assert(b.subrange(i, i + 2) =~= le16_bytes(h.version)) by {
        assert(b.subrange(i, i + 2) =~= s.subrange(0, 2));
    }
    lemma_le16_reads_back(b, i, h.version);
    assert(b.subrange(i + 2, i + 4) =~= le16_bytes(h.flags.to_bits())) by {
        assert(b.subrange(i + 2, i + 4) =~= s.subrange(2, 4));
    }
    lemma_le16_reads_back(b, i + 2, h.flags.to_bits());
    assert(b.subrange(i + 4, i + 6) =~= le16_bytes(h.compression)) by {
        assert(b.subrange(i + 4, i + 6) =~= s.subrange(4, 6));
    }
    lemma_le16_reads_back(b, i + 4, h.compression);
    assert(b.subrange(i + 6, i + 8) =~= le16_bytes(h.mod_time)) by {
        assert(b.subrange(i + 6, i + 8) =~= s.subrange(6, 8));
    }
    lemma_le16_reads_back(b, i + 6, h.mod_time);
    assert(b.subrange(i + 8, i + 10) =~= le16_bytes(h.mod_date)) by {
        assert(b.subrange(i + 8, i + 10) =~= s.subrange(8, 10));
    }
    lemma_le16_reads_back(b, i + 8, h.mod_date);
    assert(b.subrange(i + 10, i + 14) =~= le32_bytes(h.crc)) by {
        assert(b.subrange(i + 10, i + 14) =~= s.subrange(10, 14));
    }
    lemma_le32_reads_back(b, i + 10, h.crc);
    assert(b.subrange(i + 14, i + 18) =~= le32_bytes(h.compressed_size)) by {
        assert(b.subrange(i + 14, i + 18) =~= s.subrange(14, 18));
    }
    lemma_le32_reads_back(b, i + 14, h.compressed_size);
    assert(b.subrange(i + 18, i + 22) =~= le32_bytes(h.uncompressed_size)) by {
        assert(b.subrange(i + 18, i + 22) =~= s.subrange(18, 22));
    }
    lemma_le32_reads_back(b, i + 18, h.uncompressed_size);
    assert(b.subrange(i + 22, i + 24) =~= le16_bytes(h.file_name_length)) by {
        assert(b.subrange(i + 22, i + 24) =~= s.subrange(22, 24));
    }
    lemma_le16_reads_back(b, i + 22, h.file_name_length);
    assert(b.subrange(i + 24, i + 26) =~= le16_bytes(h.extra_field_length)) by {
        assert(b.subrange(i + 24, i + 26) =~= s.subrange(24, 26));
    }
    lemma_le16_reads_back(b, i + 24, h.extra_field_length);
}

proof fn lemma_encoding_bytes_read_back(h: CentralDirectoryRecord, b: Seq<u8>, i: int)
    requires
        0 <= i,
        i + 12 <= b.len(),
        b.subrange(i, i + 12) == h.encoding_bytes(),
    ensures
        le16(b, i) == h.v_made_by,
        le16(b, i + 2) == h.v_needed,
        le16(b, i + 4) == h.flags.to_bits(),
        le16(b, i + 6) == h.compression,
        le16(b, i + 8) == h.mod_time,
        le16(b, i + 10) == h.mod_date,
{
    let s = h.encoding_bytes();
    assert(b.subrange(i, i + 2) =~= le16_bytes(h.v_made_by)) by {
        assert(b.subrange(i, i + 2) =~= s.subrange(0, 2));
    }
    lemma_le16_reads_back(b, i, h.v_made_by);
    assert(b.subrange(i + 2, i + 4) =~= le16_bytes(h.v_needed)) by {
        assert(b.subrange(i + 2, i + 4) =~= s.subrange(2, 4));
    }
    lemma_le16_reads_back(b, i + 2, h.v_needed);
    assert(b.subrange(i + 4, i + 6) =~= le16_bytes(h.flags.to_bits())) by {
        assert(b.subrange(i + 4, i + 6) =~= s.subrange(4, 6));
    }
    lemma_le16_reads_back(b, i + 4, h.flags.to_bits());
    assert(b.subrange(i + 6, i + 8) =~= le16_bytes(h.compression)) by {
        assert(b.subrange(i + 6, i + 8) =~= s.subrange(6, 8));
    }
    lemma_le16_reads_back(b, i + 6, h.compression);
    assert(b.subrange(i + 8, i + 10) =~= le16_bytes(h.mod_time)) by {
        assert(b.subrange(i + 8, i + 10) =~= s.subrange(8, 10));
    }
    lemma_le16_reads_back(b, i + 8, h.mod_time);
    assert(b.subrange(i + 10, i + 12) =~= le16_bytes(h.mod_date)) by {
        assert(b.subrange(i + 10, i + 12) =~= s.subrange(10, 12));
    }
    lemma_le16_reads_back(b, i + 10, h.mod_date);
}

proof fn lemma_size_bytes_read_back(h: CentralDirectoryRecord, b: Seq<u8>, i: int)
    requires
        0 <= i,
        i + 18 <= b.len(),
        b.subrange(i, i + 18) == h.size_bytes(),
    ensures
        le32(b, i) == h.crc,
        le32(b, i + 4) == h.compressed_size,
        le32(b, i + 8) == h.uncompressed_size,
        le16(b, i + 12) == h.file_name_length,
        le16(b, i + 14) == h.extra_field_length,
        le16(b, i + 16) == h.file_comment_length,
{
    let s = h.size_bytes();
    assert(b.subrange(i, i + 4) =~= le32_bytes(h.crc)) by {
        assert(b.subrange(i, i + 4) =~= s.subrange(0, 4));
    }
    lemma_le32_reads_back(b, i, h.crc);
    assert(b.subrange(i + 4, i + 8) =~= le32_bytes(h.compressed_size)) by {
        assert(b.subrange(i + 4, i + 8) =~= s.subrange(4, 8));
    }
    lemma_le32_reads_back(b, i + 4, h.compressed_size);
    assert(b.subrange(i + 8, i + 12) =~= le32_bytes(h.uncompressed_size)) by {
        assert(b.subrange(i + 8, i + 12) =~= s.subrange(8, 12));
    }
    lemma_le32_reads_back(b, i + 8, h.uncompressed_size);
    assert(b.subrange(i + 12, i + 14) =~= le16_bytes(h.file_name_length)) by {
        assert(b.subrange(i + 12, i + 14) =~= s.subrange(12, 14));
    }
    lemma_le16_reads_back(b, i + 12, h.file_name_length);
    assert(b.subrange(i + 14, i + 16) =~= le16_bytes(h.extra_field_length)) by {
        assert(b.subrange(i + 14, i + 16) =~= s.subrange(14, 16));
    }
    lemma_le16_reads_back(b, i + 14, h.extra_field_length);
    assert(b.subrange(i + 16, i + 18) =~= le16_bytes(h.file_comment_length)) by {
        assert(b.subrange(i + 16, i + 18) =~= s.subrange(16, 18));
    }
    lemma_le16_reads_back(b, i + 16, h.file_comment_length);
}

proof fn lemma_place_bytes_read_back(h: CentralDirectoryRecord, b: Seq<u8>, i: int)
    requires
        0 <= i,
        i + 12 <= b.len(),
        b.subrange(i, i + 12) == h.place_bytes(),
    ensures
        le16(b, i) == h.disk_start,
        le16(b, i + 2) == h.inter_attr,
        le32(b, i + 4) == h.exter_attr,
        le32(b, i + 8) == h.lh_offset,
{
    let s = h.place_bytes();
    assert(b.subrange(i, i + 2) =~= le16_bytes(h.disk_start)) by {
        assert(b.subrange(i, i + 2) =~= s.subrange(0, 2));
    }
    lemma_le16_reads_back(b, i, h.disk_start);
    assert(b.subrange(i + 2, i + 4) =~= le16_bytes(h.inter_attr)) by {
        assert(b.subrange(i + 2, i + 4) =~= s.subrange(2, 4));
    }
    lemma_le16_reads_back(b, i + 2, h.inter_attr);
    assert(b.subrange(i + 4, i + 8) =~= le32_bytes(h.exter_attr)) by {
        assert(b.subrange(i + 4, i + 8) =~= s.subrange(4, 8));
    }
    lemma_le32_reads_back(b, i + 4, h.exter_attr);
    assert(b.subrange(i + 8, i + 12) =~= le32_bytes(h.lh_offset)) by {
        assert(b.subrange(i + 8, i + 12) =~= s.subrange(8, 12));
    }
    lemma_le32_reads_back(b, i + 8, h.lh_offset);
}

/// A central directory header reads back as it was written, if it declares no encryption and a supported version.
pub proof fn lemma_central_header_reads_back(h: CentralDirectoryRecord, b: Seq<u8>, i: int)
    requires
        0 <= i,
        i + CDH_LENGTH <= b.len(),
        b.subrange(i, i + CDH_LENGTH) == h.to_bytes(),
        !h.flags.encrypted,
        extract_version_error(h.v_needed, h.compression) is None,
    ensures
        CentralDirectoryRecord::read_at(b, i) == Ok::<CentralDirectoryRecord, ZipError>(h),
{
    let s = h.to_bytes();
    lemma_flags_read_back(h.flags);
    assert(b.subrange(i, i + 12) =~= s.subrange(0, 12));
    assert(s.subrange(0, 12) =~= h.encoding_bytes());
    lemma_encoding_bytes_read_back(h, b, i);
    assert(b.subrange(i + 12, i + 30) =~= s.subrange(12, 30));
    assert(s.subrange(12, 30) =~= h.size_bytes());
    lemma_size_bytes_read_back(h, b, i + 12);
    assert(b.subrange(i + 30, i + 42) =~= s.subrange(30, 42));
    assert(s.subrange(30, 42) =~= h.place_bytes());
    lemma_place_bytes_read_back(h, b, i + 30);
}

} // verus!
