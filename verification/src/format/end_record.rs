//! The records at the end of an archive.

use vstd::prelude::*;

use crate::bytes::{le16, le16_bytes, le32, le32_bytes, le64, le64_bytes, push_u16, push_u32, push_u64};
use crate::bytes::{lemma_le16_reads_back, lemma_le32_reads_back, lemma_le64_reads_back};
use crate::bytes::{read_u16, read_u32, read_u64};
use crate::error::{need, short_read, ZipError};
use crate::format::consts::{EOCDR_LENGTH, NON_ZIP64_MAX_SIZE, ZIP64_EOCDL_LENGTH, ZIP64_EOCDL_SIGNATURE};
use crate::format::consts::{ZIP64_EOCDR_LENGTH, ZIP64_EOCDR_SIGNATURE};
use crate::law::layout::{lemma_end_record_layout, lemma_locator_layout, lemma_zip64_end_record_layout};

verus! {

/// An end of central directory record, without its signature and its comment.
#[derive(Debug, Clone, Copy, PartialEq, Eq, Structural)]
pub struct EndOfCentralDirectoryHeader {
    pub disk_num: u16,
    pub start_cent_dir_disk: u16,
    pub num_of_entries_disk: u16,
    pub num_of_entries: u16,
    pub size_cent_dir: u32,
    pub cent_dir_offset: u32,
    pub file_comm_length: u16,
}

/// A ZIP64 end of central directory record, without its signature.
#[derive(Debug, Clone, Copy, PartialEq, Eq, Structural)]
pub struct Zip64EndOfCentralDirectoryRecord {
    /// The size of the record, without its signature and this field.
    pub size_of_zip64_end_of_cd_record: u64,
    pub version_made_by: u16,
    pub version_needed_to_extract: u16,
    pub disk_number: u32,
    pub disk_number_start_of_cd: u32,
    pub num_entries_in_directory_on_disk: u64,
    pub num_entries_in_directory: u64,
    pub directory_size: u64,
    pub offset_of_start_of_directory: u64,
}

/// A ZIP64 end of central directory locator, without its signature.
#[derive(Debug, Clone, Copy, PartialEq, Eq, Structural)]
pub struct Zip64EndOfCentralDirectoryLocator {
    pub number_of_disk_with_start_of_zip64_end_of_central_directory: u32,
    pub relative_offset: u64,
    pub total_number_of_disks: u32,
}

/// What the end of central directory record and its ZIP64 counterpart say together.
#[derive(Debug, Clone, Copy, PartialEq, Eq, Structural)]
pub struct CombinedCentralDirectoryRecord {
    pub disk_number: u32,
    pub disk_number_start_of_cd: u32,
    pub num_entries_in_directory_on_disk: u64,
    pub num_entries_in_directory: u64,
    pub directory_size: u64,
    pub offset_of_start_of_directory: u64,
}

impl EndOfCentralDirectoryHeader {
    /// The record that stands in `b` from `i` on.
    pub open spec fn at(b: Seq<u8>, i: int) -> EndOfCentralDirectoryHeader {
        EndOfCentralDirectoryHeader {
            disk_num: le16(b, i),
            start_cent_dir_disk: le16(b, i + 2),
            num_of_entries_disk: le16(b, i + 4),
            num_of_entries: le16(b, i + 6),
            size_cent_dir: le32(b, i + 8),
            cent_dir_offset: le32(b, i + 12),
            file_comm_length: le16(b, i + 16),
        }
    }

    /// The bytes of the record.
    pub open spec fn to_bytes(self) -> Seq<u8> {
        le16_bytes(self.disk_num) + le16_bytes(self.start_cent_dir_disk) + le16_bytes(self.num_of_entries_disk)
            + le16_bytes(self.num_of_entries) + le32_bytes(self.size_cent_dir) + le32_bytes(self.cent_dir_offset)
            + le16_bytes(self.file_comm_length)
    }

    /// Reads the record that stands in `b` from `i` on.
    pub fn from_bytes(b: &[u8], i: usize) -> (r: EndOfCentralDirectoryHeader)
        requires
            i + EOCDR_LENGTH <= b.len(),
        ensures
            r == EndOfCentralDirectoryHeader::at(b@, i as int),
            r.disk_num == le16(b@, i as int),
            r.start_cent_dir_disk == le16(b@, i + 2),
            r.num_of_entries_disk == le16(b@, i + 4),
            r.num_of_entries == le16(b@, i + 6),
            r.size_cent_dir == le32(b@, i + 8),
            r.cent_dir_offset == le32(b@, i + 12),
            r.file_comm_length == le16(b@, i + 16),
    {
        EndOfCentralDirectoryHeader {
            disk_num: read_u16(b, i),
            start_cent_dir_disk: read_u16(b, i + 2),
            num_of_entries_disk: read_u16(b, i + 4),
            num_of_entries: read_u16(b, i + 6),
            size_cent_dir: read_u32(b, i + 8),
            cent_dir_offset: read_u32(b, i + 12),
            file_comm_length: read_u16(b, i + 16),
        }
    }

    /// Returns the bytes of the record.
    pub fn as_slice(&self) -> (r: Vec<u8>)
        ensures
            r@ == self.to_bytes(),
            r@.len() == EOCDR_LENGTH,
            le16(r@, 0) == self.disk_num,
            le16(r@, 2) == self.start_cent_dir_disk,
            le16(r@, 4) == self.num_of_entries_disk,
            le16(r@, 6) == self.num_of_entries,
            le32(r@, 8) == self.size_cent_dir,
            le32(r@, 12) == self.cent_dir_offset,
            le16(r@, 16) == self.file_comm_length,
    {
        let mut out: Vec<u8> = Vec::new();
        push_u16(&mut out, self.disk_num);
        push_u16(&mut out, self.start_cent_dir_disk);
        push_u16(&mut out, self.num_of_entries_disk);
        push_u16(&mut out, self.num_of_entries);
        push_u32(&mut out, self.size_cent_dir);
        push_u32(&mut out, self.cent_dir_offset);
        push_u16(&mut out, self.file_comm_length);
        assert(out@ =~= self.to_bytes());
        proof {
            lemma_end_record_layout(*self, out@, 0);
        }
        out
    }
}

impl Zip64EndOfCentralDirectoryRecord {
    /// The record that stands in `b` from `i` on.
    pub open spec fn at(b: Seq<u8>, i: int) -> Zip64EndOfCentralDirectoryRecord {
        Zip64EndOfCentralDirectoryRecord {
            size_of_zip64_end_of_cd_record: le64(b, i),
            version_made_by: le16(b, i + 8),
            version_needed_to_extract: le16(b, i + 10),
            disk_number: le32(b, i + 12),
            disk_number_start_of_cd: le32(b, i + 16),
            num_entries_in_directory_on_disk: le64(b, i + 20),
            num_entries_in_directory: le64(b, i + 28),
            directory_size: le64(b, i + 36),
            offset_of_start_of_directory: le64(b, i + 44),
        }
    }

    /// What reading the record whose signature stands at the beginning of `input` gives.
    pub open spec fn read(input: Seq<u8>) -> Result<Zip64EndOfCentralDirectoryRecord, ZipError> {
        if input.len() < 4 {
            Err(short_read(input.len(), 4))
        } else if le32(input, 0) != ZIP64_EOCDR_SIGNATURE {
            Err(ZipError::UnexpectedHeaderError(le32(input, 0), ZIP64_EOCDR_SIGNATURE))
        } else if input.len() < 56 {
            Err(short_read(input.len(), 56))
        } else if le64(input, 4) < 44 {
            Err(ZipError::InvalidZip64EndOfCentralDirectorySize(le64(input, 4)))
        } else {
            Ok(Zip64EndOfCentralDirectoryRecord::at(input, 4))
        }
    }

    /// The bytes of the record.
    pub open spec fn to_bytes(self) -> Seq<u8> {
        le64_bytes(self.size_of_zip64_end_of_cd_record) + le16_bytes(self.version_made_by) + le16_bytes(
            self.version_needed_to_extract,
        ) + le32_bytes(self.disk_number) + le32_bytes(self.disk_number_start_of_cd) + le64_bytes(
            self.num_entries_in_directory_on_disk,
        ) + le64_bytes(self.num_entries_in_directory) + le64_bytes(self.directory_size) + le64_bytes(
            self.offset_of_start_of_directory,
        )
    }

    /// Reads the record whose signature stands at the beginning of `input`. The size that it declares must cover its
    /// fixed fields.
    pub fn from_input(input: &[u8]) -> (r: Result<Zip64EndOfCentralDirectoryRecord, ZipError>)
        ensures
            r == Zip64EndOfCentralDirectoryRecord::read(input@),
            r is Ok <==> input@.len() >= 56 && le32(input@, 0) == 0x0606_4b50 && le64(input@, 4) >= 44,
            r matches Ok(h) ==> {
                &&& h.size_of_zip64_end_of_cd_record == le64(input@, 4)
                &&& h.version_made_by == le16(input@, 12)
                &&& h.version_needed_to_extract == le16(input@, 14)
                &&& h.disk_number == le32(input@, 16)
                &&& h.disk_number_start_of_cd == le32(input@, 20)
                &&& h.num_entries_in_directory_on_disk == le64(input@, 24)
                &&& h.num_entries_in_directory == le64(input@, 32)
                &&& h.directory_size == le64(input@, 40)
                &&& h.offset_of_start_of_directory == le64(input@, 48)
            },
    {
        need(input, 4)?;
        let signature: u32 = read_u32(input, 0);
        if signature != ZIP64_EOCDR_SIGNATURE {
            return Err(ZipError::UnexpectedHeaderError(signature, ZIP64_EOCDR_SIGNATURE));
        }
        need(input, 56)?;
        let size: u64 = read_u64(input, 4);
        if size < 44 {
            return Err(ZipError::InvalidZip64EndOfCentralDirectorySize(size));
        }
        Ok(
            Zip64EndOfCentralDirectoryRecord {
                size_of_zip64_end_of_cd_record: size,
                version_made_by: read_u16(input, 12),
                version_needed_to_extract: read_u16(input, 14),
                disk_number: read_u32(input, 16),
                disk_number_start_of_cd: read_u32(input, 20),
                num_entries_in_directory_on_disk: read_u64(input, 24),
                num_entries_in_directory: read_u64(input, 32),
                directory_size: read_u64(input, 40),
                offset_of_start_of_directory: read_u64(input, 48),
            },
        )
    }

    /// Returns the bytes of the record.
    pub fn as_bytes(&self) -> (r: Vec<u8>)
        ensures
            r@ == self.to_bytes(),
            r@.len() == ZIP64_EOCDR_LENGTH,
            le64(r@, 0) == self.size_of_zip64_end_of_cd_record,
            le16(r@, 8) == self.version_made_by,
            le16(r@, 10) == self.version_needed_to_extract,
            le32(r@, 12) == self.disk_number,
            le32(r@, 16) == self.disk_number_start_of_cd,
            le64(r@, 20) == self.num_entries_in_directory_on_disk,
            le64(r@, 28) == self.num_entries_in_directory,
            le64(r@, 36) == self.directory_size,
            le64(r@, 44) == self.offset_of_start_of_directory,
    {
        let mut out: Vec<u8> = Vec::new();
        push_u64(&mut out, self.size_of_zip64_end_of_cd_record);
        push_u16(&mut out, self.version_made_by);
        push_u16(&mut out, self.version_needed_to_extract);
        push_u32(&mut out, self.disk_number);
        push_u32(&mut out, self.disk_number_start_of_cd);
        push_u64(&mut out, self.num_entries_in_directory_on_disk);
        push_u64(&mut out, self.num_entries_in_directory);
        push_u64(&mut out, self.directory_size);
        push_u64(&mut out, self.offset_of_start_of_directory);
        assert(out@ =~= self.to_bytes());
        proof {
            lemma_zip64_end_record_layout(*self, out@, 0);
        }
        out
    }
}

impl Zip64EndOfCentralDirectoryLocator {
    /// The locator that stands in `b` from `i` on.
    pub open spec fn at(b: Seq<u8>, i: int) -> Zip64EndOfCentralDirectoryLocator {
        Zip64EndOfCentralDirectoryLocator {
            number_of_disk_with_start_of_zip64_end_of_central_directory: le32(b, i),
            relative_offset: le64(b, i + 4),
            total_number_of_disks: le32(b, i + 12),
        }
    }

    /// What reading the locator whose signature stands at the beginning of `input` gives: `None` where another
    /// signature stands there.
    pub open spec fn read(input: Seq<u8>) -> Result<Option<Zip64EndOfCentralDirectoryLocator>, ZipError> {
        if input.len() < 4 {
            Err(short_read(input.len(), 4))
        } else if le32(input, 0) != ZIP64_EOCDL_SIGNATURE {
            Ok(None)
        } else if input.len() < 20 {
            Err(short_read(input.len(), 20))
        } else {
            Ok(Some(Zip64EndOfCentralDirectoryLocator::at(input, 4)))
        }
    }

    /// The bytes of the locator.
    pub open spec fn to_bytes(self) -> Seq<u8> {
        le32_bytes(self.number_of_disk_with_start_of_zip64_end_of_central_directory) + le64_bytes(self.relative_offset)
            + le32_bytes(self.total_number_of_disks)
    }

    /// Reads the locator whose signature stands at the beginning of `input`, if there is one.
    pub fn try_from_input(input: &[u8]) -> (r: Result<Option<Zip64EndOfCentralDirectoryLocator>, ZipError>)
        ensures
            r == Zip64EndOfCentralDirectoryLocator::read(input@),
            input@.len() >= 20 && le32(input@, 0) == 0x0706_4b50 ==> r is Ok && r->Ok_0 is Some,
            r matches Ok(Some(h)) ==> {
                &&& le32(input@, 0) == 0x0706_4b50
                &&& h.number_of_disk_with_start_of_zip64_end_of_central_directory == le32(input@, 4)
                &&& h.relative_offset == le64(input@, 8)
                &&& h.total_number_of_disks == le32(input@, 16)
            },
    {
        need(input, 4)?;
        if read_u32(input, 0) != ZIP64_EOCDL_SIGNATURE {
            return Ok(None);
        }
        need(input, ZIP64_EOCDL_LENGTH)?;
        Ok(
            Some(
                Zip64EndOfCentralDirectoryLocator {
                    number_of_disk_with_start_of_zip64_end_of_central_directory: read_u32(input, 4),
                    relative_offset: read_u64(input, 8),
                    total_number_of_disks: read_u32(input, 16),
                },
            ),
        )
    }

    /// Returns the bytes of the locator.
    pub fn as_bytes(&self) -> (r: Vec<u8>)
        ensures
            r@ == self.to_bytes(),
            r@.len() == 16,
            le32(r@, 0) == self.number_of_disk_with_start_of_zip64_end_of_central_directory,
            le64(r@, 4) == self.relative_offset,
            le32(r@, 12) == self.total_number_of_disks,
    {
        let mut out: Vec<u8> = Vec::new();
        push_u32(&mut out, self.number_of_disk_with_start_of_zip64_end_of_central_directory);
        push_u64(&mut out, self.relative_offset);
        push_u32(&mut out, self.total_number_of_disks);
        assert(out@ =~= self.to_bytes());
        proof {
            lemma_locator_layout(*self, out@, 0);
        }
        out
    }
}

/// What a field of the end of central directory record and its ZIP64 counterpart say together: the latter counts where
/// the former holds `sentinel`, the greatest number that fits there; otherwise they must agree.
pub open spec fn combined_field(legacy: u64, sentinel: u64, zip64: u64, field: &'static str) -> Result<u64, ZipError> {
    if legacy == sentinel || legacy == zip64 {
        Ok(zip64)
    } else {
        Err(ZipError::MismatchedZip64EndOfCentralDirectoryField { field, legacy, zip64 })
    }
}

/// Combines a field of the end of central directory record with its ZIP64 counterpart.
fn combine_field(legacy: u64, sentinel: u64, zip64: u64, field: &'static str) -> (r: Result<u64, ZipError>)
    ensures
        r == combined_field(legacy, sentinel, zip64, field),
{
    if legacy != sentinel && legacy != zip64 {
        return Err(ZipError::MismatchedZip64EndOfCentralDirectoryField { field, legacy, zip64 });
    }
    Ok(zip64)
}

impl CombinedCentralDirectoryRecord {
    /// What an end of central directory record says without a ZIP64 counterpart.
    ///
    /// A size, an offset or a disk that stands in a ZIP64 record cannot be told. A count of entries can: the greatest
    /// number that fits in its field is itself a valid count.
    pub open spec fn of_legacy(eocdr: EndOfCentralDirectoryHeader) -> Result<CombinedCentralDirectoryRecord, ZipError> {
        if eocdr.disk_num == 0xffff || eocdr.start_cent_dir_disk == 0xffff || eocdr.size_cent_dir
            == NON_ZIP64_MAX_SIZE || eocdr.cent_dir_offset == NON_ZIP64_MAX_SIZE {
            Err(ZipError::MissingZip64EndOfCentralDirectoryLocator)
        } else {
            Ok(
                CombinedCentralDirectoryRecord {
                    disk_number: eocdr.disk_num as u32,
                    disk_number_start_of_cd: eocdr.start_cent_dir_disk as u32,
                    num_entries_in_directory_on_disk: eocdr.num_of_entries_disk as u64,
                    num_entries_in_directory: eocdr.num_of_entries as u64,
                    directory_size: eocdr.size_cent_dir as u64,
                    offset_of_start_of_directory: eocdr.cent_dir_offset as u64,
                },
            )
        }
    }

    /// The first contradiction between an end of central directory record and its ZIP64 counterpart, if there is one.
    pub open spec fn contradiction(
        eocdr: EndOfCentralDirectoryHeader,
        zip64: Zip64EndOfCentralDirectoryRecord,
    ) -> Option<ZipError> {
        let disk = combined_field(eocdr.disk_num as u64, 0xffff, zip64.disk_number as u64, "disk number");
        let start_disk = combined_field(
            eocdr.start_cent_dir_disk as u64,
            0xffff,
            zip64.disk_number_start_of_cd as u64,
            "central directory start disk",
        );
        let on_disk = combined_field(
            eocdr.num_of_entries_disk as u64,
            0xffff,
            zip64.num_entries_in_directory_on_disk,
            "number of entries on this disk",
        );
        let entries = combined_field(
            eocdr.num_of_entries as u64,
            0xffff,
            zip64.num_entries_in_directory,
            "number of entries",
        );
        let size = combined_field(
            eocdr.size_cent_dir as u64,
            0xffff_ffff,
            zip64.directory_size,
            "central directory size",
        );
        let offset = combined_field(
            eocdr.cent_dir_offset as u64,
            0xffff_ffff,
            zip64.offset_of_start_of_directory,
            "central directory offset",
        );
        if disk is Err {
            Some(disk->Err_0)
        } else if start_disk is Err {
            Some(start_disk->Err_0)
        } else if on_disk is Err {
            Some(on_disk->Err_0)
        } else if entries is Err {
            Some(entries->Err_0)
        } else if size is Err {
            Some(size->Err_0)
        } else if offset is Err {
            Some(offset->Err_0)
        } else {
            None
        }
    }

    /// What an end of central directory record and its ZIP64 counterpart say together.
    pub open spec fn of_both(eocdr: EndOfCentralDirectoryHeader, zip64: Zip64EndOfCentralDirectoryRecord) -> Result<
        CombinedCentralDirectoryRecord,
        ZipError,
    > {
        match CombinedCentralDirectoryRecord::contradiction(eocdr, zip64) {
            Some(e) => Err(e),
            None => Ok(
                CombinedCentralDirectoryRecord {
                    disk_number: zip64.disk_number,
                    disk_number_start_of_cd: zip64.disk_number_start_of_cd,
                    num_entries_in_directory_on_disk: zip64.num_entries_in_directory_on_disk,
                    num_entries_in_directory: zip64.num_entries_in_directory,
                    directory_size: zip64.directory_size,
                    offset_of_start_of_directory: zip64.offset_of_start_of_directory,
                },
            ),
        }
    }

    /// Returns what an end of central directory record says without a ZIP64 counterpart.
    pub fn try_from_legacy(eocdr: &EndOfCentralDirectoryHeader) -> (r: Result<CombinedCentralDirectoryRecord, ZipError>)
        ensures
            r == CombinedCentralDirectoryRecord::of_legacy(*eocdr),
    {
        if eocdr.disk_num == 0xffff || eocdr.start_cent_dir_disk == 0xffff || eocdr.size_cent_dir
            == NON_ZIP64_MAX_SIZE || eocdr.cent_dir_offset == NON_ZIP64_MAX_SIZE {
            return Err(ZipError::MissingZip64EndOfCentralDirectoryLocator);
        }
        Ok(
            CombinedCentralDirectoryRecord {
                disk_number: eocdr.disk_num as u32,
                disk_number_start_of_cd: eocdr.start_cent_dir_disk as u32,
                num_entries_in_directory_on_disk: eocdr.num_of_entries_disk as u64,
                num_entries_in_directory: eocdr.num_of_entries as u64,
                directory_size: eocdr.size_cent_dir as u64,
                offset_of_start_of_directory: eocdr.cent_dir_offset as u64,
            },
        )
    }

    /// Combines an end of central directory record with its ZIP64 counterpart. Where a field of the former does not
    /// refer to the latter, they must agree.
    pub fn combine(eocdr: EndOfCentralDirectoryHeader, zip64: Zip64EndOfCentralDirectoryRecord) -> (r: Result<
        CombinedCentralDirectoryRecord,
        ZipError,
    >)
        ensures
            r == CombinedCentralDirectoryRecord::of_both(eocdr, zip64),
    {
        combine_field(eocdr.disk_num as u64, 0xffff, zip64.disk_number as u64, "disk number")?;
        combine_field(
            eocdr.start_cent_dir_disk as u64,
            0xffff,
            zip64.disk_number_start_of_cd as u64,
            "central directory start disk",
        )?;
        combine_field(
            eocdr.num_of_entries_disk as u64,
            0xffff,
            zip64.num_entries_in_directory_on_disk,
            "number of entries on this disk",
        )?;
        combine_field(eocdr.num_of_entries as u64, 0xffff, zip64.num_entries_in_directory, "number of entries")?;
        combine_field(eocdr.size_cent_dir as u64, 0xffff_ffff, zip64.directory_size, "central directory size")?;
        combine_field(
            eocdr.cent_dir_offset as u64,
            0xffff_ffff,
            zip64.offset_of_start_of_directory,
            "central directory offset",
        )?;
        Ok(
            CombinedCentralDirectoryRecord {
                disk_number: zip64.disk_number,
                disk_number_start_of_cd: zip64.disk_number_start_of_cd,
                num_entries_in_directory_on_disk: zip64.num_entries_in_directory_on_disk,
                num_entries_in_directory: zip64.num_entries_in_directory,
                directory_size: zip64.directory_size,
                offset_of_start_of_directory: zip64.offset_of_start_of_directory,
            },
        )
    }
}

/// An end of central directory record reads back as it was written.
pub proof fn lemma_end_record_reads_back(h: EndOfCentralDirectoryHeader, b: Seq<u8>, i: int)
    requires
        0 <= i,
        i + 18 <= b.len(),
        b.subrange(i, i + 18) == h.to_bytes(),
    ensures
        EndOfCentralDirectoryHeader::at(b, i) == h,
{
    let s = h.to_bytes();
    assert(b.subrange(i, i + 2) =~= le16_bytes(h.disk_num)) by {
        assert(b.subrange(i, i + 2) =~= s.subrange(0, 2));
    }
    lemma_le16_reads_back(b, i, h.disk_num);
    assert(b.subrange(i + 2, i + 4) =~= le16_bytes(h.start_cent_dir_disk)) by {
        assert(b.subrange(i + 2, i + 4) =~= s.subrange(2, 4));
    }
    lemma_le16_reads_back(b, i + 2, h.start_cent_dir_disk);
    assert(b.subrange(i + 4, i + 6) =~= le16_bytes(h.num_of_entries_disk)) by {
        assert(b.subrange(i + 4, i + 6) =~= s.subrange(4, 6));
    }
    lemma_le16_reads_back(b, i + 4, h.num_of_entries_disk);
    assert(b.subrange(i + 6, i + 8) =~= le16_bytes(h.num_of_entries)) by {
        assert(b.subrange(i + 6, i + 8) =~= s.subrange(6, 8));
    }
    lemma_le16_reads_back(b, i + 6, h.num_of_entries);
    assert(b.subrange(i + 8, i + 12) =~= le32_bytes(h.size_cent_dir)) by {
        assert(b.subrange(i + 8, i + 12) =~= s.subrange(8, 12));
    }
    lemma_le32_reads_back(b, i + 8, h.size_cent_dir);
    assert(b.subrange(i + 12, i + 16) =~= le32_bytes(h.cent_dir_offset)) by {
        assert(b.subrange(i + 12, i + 16) =~= s.subrange(12, 16));
    }
    lemma_le32_reads_back(b, i + 12, h.cent_dir_offset);
    assert(b.subrange(i + 16, i + 18) =~= le16_bytes(h.file_comm_length)) by {
        assert(b.subrange(i + 16, i + 18) =~= s.subrange(16, 18));
    }
    lemma_le16_reads_back(b, i + 16, h.file_comm_length);
}

/// A ZIP64 end of central directory record reads back as it was written.
pub proof fn lemma_zip64_end_record_reads_back(h: Zip64EndOfCentralDirectoryRecord, b: Seq<u8>, i: int)
    requires
        0 <= i,
        i + 52 <= b.len(),
        b.subrange(i, i + 52) == h.to_bytes(),
    ensures
        Zip64EndOfCentralDirectoryRecord::at(b, i) == h,
{
    let s = h.to_bytes();
    assert(b.subrange(i, i + 8) =~= le64_bytes(h.size_of_zip64_end_of_cd_record)) by {
        assert(b.subrange(i, i + 8) =~= s.subrange(0, 8));
    }
    lemma_le64_reads_back(b, i, h.size_of_zip64_end_of_cd_record);
    assert(b.subrange(i + 8, i + 10) =~= le16_bytes(h.version_made_by)) by {
        assert(b.subrange(i + 8, i + 10) =~= s.subrange(8, 10));
    }
    lemma_le16_reads_back(b, i + 8, h.version_made_by);
    assert(b.subrange(i + 10, i + 12) =~= le16_bytes(h.version_needed_to_extract)) by {
        assert(b.subrange(i + 10, i + 12) =~= s.subrange(10, 12));
    }
    lemma_le16_reads_back(b, i + 10, h.version_needed_to_extract);
    assert(b.subrange(i + 12, i + 16) =~= le32_bytes(h.disk_number)) by {
        assert(b.subrange(i + 12, i + 16) =~= s.subrange(12, 16));
    }
    lemma_le32_reads_back(b, i + 12, h.disk_number);
    assert(b.subrange(i + 16, i + 20) =~= le32_bytes(h.disk_number_start_of_cd)) by {
        assert(b.subrange(i + 16, i + 20) =~= s.subrange(16, 20));
    }
    lemma_le32_reads_back(b, i + 16, h.disk_number_start_of_cd);
    assert(b.subrange(i + 20, i + 28) =~= le64_bytes(h.num_entries_in_directory_on_disk)) by {
        assert(b.subrange(i + 20, i + 28) =~= s.subrange(20, 28));
    }
    lemma_le64_reads_back(b, i + 20, h.num_entries_in_directory_on_disk);
    assert(b.subrange(i + 28, i + 36) =~= le64_bytes(h.num_entries_in_directory)) by {
        assert(b.subrange(i + 28, i + 36) =~= s.subrange(28, 36));
    }
    lemma_le64_reads_back(b, i + 28, h.num_entries_in_directory);
    assert(b.subrange(i + 36, i + 44) =~= le64_bytes(h.directory_size)) by {
        assert(b.subrange(i + 36, i + 44) =~= s.subrange(36, 44));
    }
    lemma_le64_reads_back(b, i + 36, h.directory_size);
    assert(b.subrange(i + 44, i + 52) =~= le64_bytes(h.offset_of_start_of_directory)) by {
        assert(b.subrange(i + 44, i + 52) =~= s.subrange(44, 52));
    }
    lemma_le64_reads_back(b, i + 44, h.offset_of_start_of_directory);
}

/// A ZIP64 end of central directory locator reads back as it was written.
pub proof fn lemma_locator_reads_back(h: Zip64EndOfCentralDirectoryLocator, b: Seq<u8>, i: int)
    requires
        0 <= i,
        i + 16 <= b.len(),
        b.subrange(i, i + 16) == h.to_bytes(),
    ensures
        Zip64EndOfCentralDirectoryLocator::at(b, i) == h,
{
    let s = h.to_bytes();
    assert(b.subrange(i, i + 4) =~= le32_bytes(h.number_of_disk_with_start_of_zip64_end_of_central_directory)) by {
        assert(b.subrange(i, i + 4) =~= s.subrange(0, 4));
    }
    lemma_le32_reads_back(b, i, h.number_of_disk_with_start_of_zip64_end_of_central_directory);
    assert(b.subrange(i + 4, i + 12) =~= le64_bytes(h.relative_offset)) by {
        assert(b.subrange(i + 4, i + 12) =~= s.subrange(4, 12));
    }
    lemma_le64_reads_back(b, i + 4, h.relative_offset);
    assert(b.subrange(i + 12, i + 16) =~= le32_bytes(h.total_number_of_disks)) by {
        assert(b.subrange(i + 12, i + 16) =~= s.subrange(12, 16));
    }
    lemma_le32_reads_back(b, i + 12, h.total_number_of_disks);
}

} // verus!
