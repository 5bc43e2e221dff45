//! Where each value stands in the bytes of an archive.

use vstd::prelude::*;

use crate::bytes::{le16, le16_bytes, le32, le32_bytes, le64, le64_bytes};
use crate::bytes::{lemma_le16_reads_back, lemma_le32_reads_back};
use crate::format::end_record::{lemma_end_record_reads_back, lemma_locator_reads_back};
use crate::format::end_record::{lemma_zip64_end_record_reads_back, EndOfCentralDirectoryHeader};
use crate::format::end_record::{Zip64EndOfCentralDirectoryLocator, Zip64EndOfCentralDirectoryRecord};
use crate::format::header::{CentralDirectoryRecord, GeneralPurposeFlag, LocalFileHeader};

verus! {

/// Numbers are read with their least significant byte first.
pub proof fn lemma_numbers_are_little_endian(s: Seq<u8>, i: int)
    ensures
        le16(s, i) == s[i] + 0x100 * s[i + 1],
        le32(s, i) == s[i] + 0x100 * s[i + 1] + 0x1_0000 * s[i + 2] + 0x100_0000 * s[i + 3],
        le64(s, i) == s[i] + 0x100 * s[i + 1] + 0x1_0000 * s[i + 2] + 0x100_0000 * s[i + 3] + 0x1_0000_0000 * (s[i + 4]
            + 0x100 * s[i + 5] + 0x1_0000 * s[i + 6] + 0x100_0000 * s[i + 7]),
{
}

/// Numbers are written with their least significant byte first.
pub proof fn lemma_numbers_are_written_little_endian(x: u16, y: u32)
    ensures
        le16_bytes(x) == seq![(x % 0x100) as u8, (x / 0x100) as u8],
        le32_bytes(y) == seq![
            (y % 0x100) as u8,
            (y / 0x100 % 0x100) as u8,
            (y / 0x1_0000 % 0x100) as u8,
            (y / 0x100_0000) as u8,
        ],
{
    assert(le16_bytes(x) =~= seq![(x % 0x100) as u8, (x / 0x100) as u8]);
    assert(le32_bytes(y) =~= seq![
        (y % 0x100) as u8,
        (y / 0x100 % 0x100) as u8,
        (y / 0x1_0000 % 0x100) as u8,
        (y / 0x100_0000) as u8,
    ]);
}

/// A number of eight bytes is written as its lower half and then its upper half.
pub proof fn lemma_long_numbers_are_written_by_halves(z: u64)
    ensures
        le64_bytes(z) == le32_bytes((z % 0x1_0000_0000) as u32) + le32_bytes((z / 0x1_0000_0000) as u32),
{
}

/// The flags are the bits of a number: the first for encryption, the fourth for a data descriptor, the twelfth for names in
/// UTF-8. No others are ever written.
pub proof fn lemma_flags_are_bits(flags: GeneralPurposeFlag, value: u16)
    ensures
        flags.encrypted <==> flags.to_bits() & 0x1 != 0,
        flags.data_descriptor <==> flags.to_bits() & 0x8 != 0,
        flags.filename_unicode <==> flags.to_bits() & 0x800 != 0,
        flags.to_bits() & 0xf7f6 == 0,
        GeneralPurposeFlag::of_bits(value).encrypted <==> value & 0x1 != 0,
        GeneralPurposeFlag::of_bits(value).data_descriptor <==> value & 0x8 != 0,
        GeneralPurposeFlag::of_bits(value).filename_unicode <==> value & 0x800 != 0,
{
    let bits = flags.to_bits();
    assert((bits / 0x1) % 2 == 1 <==> bits & 0x1 != 0) by (bit_vector);
    assert((bits / 0x8) % 2 == 1 <==> bits & 0x8 != 0) by (bit_vector);
    assert((bits / 0x800) % 2 == 1 <==> bits & 0x800 != 0) by (bit_vector);
    assert((value / 0x1) % 2 == 1 <==> value & 0x1 != 0) by (bit_vector);
    assert((value / 0x8) % 2 == 1 <==> value & 0x8 != 0) by (bit_vector);
    assert((value / 0x800) % 2 == 1 <==> value & 0x800 != 0) by (bit_vector);
    assert(bits == 0 || bits == 0x1 || bits == 0x8 || bits == 0x9 || bits == 0x800 || bits == 0x801 || bits == 0x808
        || bits == 0x809 ==> bits & 0xf7f6 == 0) by (bit_vector);
}

/// Where the fields of a local file header stand, behind its signature, as it is written and as it is read.
pub proof fn lemma_local_header_layout(h: LocalFileHeader, b: Seq<u8>, i: int)
    ensures
        h.to_bytes().len() == 26,
        le16(h.to_bytes(), 0) == h.version,
        le16(h.to_bytes(), 2) == h.flags.to_bits(),
        le16(h.to_bytes(), 4) == h.compression,
        le16(h.to_bytes(), 6) == h.mod_time,
        le16(h.to_bytes(), 8) == h.mod_date,
        le32(h.to_bytes(), 10) == h.crc,
        le32(h.to_bytes(), 14) == h.compressed_size,
        le32(h.to_bytes(), 18) == h.uncompressed_size,
        le16(h.to_bytes(), 22) == h.file_name_length,
        le16(h.to_bytes(), 24) == h.extra_field_length,
        LocalFileHeader::at(b, i).version == le16(b, i),
        LocalFileHeader::at(b, i).flags == GeneralPurposeFlag::of_bits(le16(b, i + 2)),
        LocalFileHeader::at(b, i).compression == le16(b, i + 4),
        LocalFileHeader::at(b, i).mod_time == le16(b, i + 6),
        LocalFileHeader::at(b, i).mod_date == le16(b, i + 8),
        LocalFileHeader::at(b, i).crc == le32(b, i + 10),
        LocalFileHeader::at(b, i).compressed_size == le32(b, i + 14),
        LocalFileHeader::at(b, i).uncompressed_size == le32(b, i + 18),
        LocalFileHeader::at(b, i).file_name_length == le16(b, i + 22),
        LocalFileHeader::at(b, i).extra_field_length == le16(b, i + 24),
{
    let s = h.to_bytes();
    assert(s.subrange(0, 2) =~= le16_bytes(h.version));
    lemma_le16_reads_back(s, 0, h.version);
    assert(s.subrange(2, 4) =~= le16_bytes(h.flags.to_bits()));
    lemma_le16_reads_back(s, 2, h.flags.to_bits());
    assert(s.subrange(4, 6) =~= le16_bytes(h.compression));
    lemma_le16_reads_back(s, 4, h.compression);
    assert(s.subrange(6, 8) =~= le16_bytes(h.mod_time));
    lemma_le16_reads_back(s, 6, h.mod_time);
    assert(s.subrange(8, 10) =~= le16_bytes(h.mod_date));
    lemma_le16_reads_back(s, 8, h.mod_date);
    assert(s.subrange(10, 14) =~= le32_bytes(h.crc));
    lemma_le32_reads_back(s, 10, h.crc);
    assert(s.subrange(14, 18) =~= le32_bytes(h.compressed_size));
    lemma_le32_reads_back(s, 14, h.compressed_size);
    assert(s.subrange(18, 22) =~= le32_bytes(h.uncompressed_size));
    lemma_le32_reads_back(s, 18, h.uncompressed_size);
    assert(s.subrange(22, 24) =~= le16_bytes(h.file_name_length));
    lemma_le16_reads_back(s, 22, h.file_name_length);
    assert(s.subrange(24, 26) =~= le16_bytes(h.extra_field_length));
    lemma_le16_reads_back(s, 24, h.extra_field_length);
}

/// Where the fields of a central directory header stand, behind its signature, as it is written and as it is read.
pub proof fn lemma_central_header_layout(h: CentralDirectoryRecord, b: Seq<u8>, i: int)
    ensures
        h.to_bytes().len() == 42,
        le16(h.to_bytes(), 0) == h.v_made_by,
        le16(h.to_bytes(), 2) == h.v_needed,
        le16(h.to_bytes(), 4) == h.flags.to_bits(),
        le16(h.to_bytes(), 6) == h.compression,
        le16(h.to_bytes(), 8) == h.mod_time,
        le16(h.to_bytes(), 10) == h.mod_date,
        le32(h.to_bytes(), 12) == h.crc,
        le32(h.to_bytes(), 16) == h.compressed_size,
        le32(h.to_bytes(), 20) == h.uncompressed_size,
        le16(h.to_bytes(), 24) == h.file_name_length,
        le16(h.to_bytes(), 26) == h.extra_field_length,
        le16(h.to_bytes(), 28) == h.file_comment_length,
        le16(h.to_bytes(), 30) == h.disk_start,
        le16(h.to_bytes(), 32) == h.inter_attr,
        le32(h.to_bytes(), 34) == h.exter_attr,
        le32(h.to_bytes(), 38) == h.lh_offset,
        CentralDirectoryRecord::at(b, i).v_made_by == le16(b, i),
        CentralDirectoryRecord::at(b, i).v_needed == le16(b, i + 2),
        CentralDirectoryRecord::at(b, i).flags == GeneralPurposeFlag::of_bits(le16(b, i + 4)),
        CentralDirectoryRecord::at(b, i).compression == le16(b, i + 6),
        CentralDirectoryRecord::at(b, i).mod_time == le16(b, i + 8),
        CentralDirectoryRecord::at(b, i).mod_date == le16(b, i + 10),
        CentralDirectoryRecord::at(b, i).crc == le32(b, i + 12),
        CentralDirectoryRecord::at(b, i).compressed_size == le32(b, i + 16),
        CentralDirectoryRecord::at(b, i).uncompressed_size == le32(b, i + 20),
        CentralDirectoryRecord::at(b, i).file_name_length == le16(b, i + 24),
        CentralDirectoryRecord::at(b, i).extra_field_length == le16(b, i + 26),
        CentralDirectoryRecord::at(b, i).file_comment_length == le16(b, i + 28),
        CentralDirectoryRecord::at(b, i).disk_start == le16(b, i + 30),
        CentralDirectoryRecord::at(b, i).inter_attr == le16(b, i + 32),
        CentralDirectoryRecord::at(b, i).exter_attr == le32(b, i + 34),
        CentralDirectoryRecord::at(b, i).lh_offset == le32(b, i + 38),
{
    let s = h.to_bytes();
    assert(s.subrange(0, 2) =~= le16_bytes(h.v_made_by));
    lemma_le16_reads_back(s, 0, h.v_made_by);
    assert(s.subrange(2, 4) =~= le16_bytes(h.v_needed));
    lemma_le16_reads_back(s, 2, h.v_needed);
    assert(s.subrange(4, 6) =~= le16_bytes(h.flags.to_bits()));
    lemma_le16_reads_back(s, 4, h.flags.to_bits());
    assert(s.subrange(6, 8) =~= le16_bytes(h.compression));
    lemma_le16_reads_back(s, 6, h.compression);
    assert(s.subrange(8, 10) =~= le16_bytes(h.mod_time));
    lemma_le16_reads_back(s, 8, h.mod_time);
    assert(s.subrange(10, 12) =~= le16_bytes(h.mod_date));
    lemma_le16_reads_back(s, 10, h.mod_date);
    assert(s.subrange(12, 16) =~= le32_bytes(h.crc));
    lemma_le32_reads_back(s, 12, h.crc);
    assert(s.subrange(16, 20) =~= le32_bytes(h.compressed_size));
    lemma_le32_reads_back(s, 16, h.compressed_size);
    assert(s.subrange(20, 24) =~= le32_bytes(h.uncompressed_size));
    lemma_le32_reads_back(s, 20, h.uncompressed_size);
    assert(s.subrange(24, 26) =~= le16_bytes(h.file_name_length));
    lemma_le16_reads_back(s, 24, h.file_name_length);
    assert(s.subrange(26, 28) =~= le16_bytes(h.extra_field_length));
    lemma_le16_reads_back(s, 26, h.extra_field_length);
    assert(s.subrange(28, 30) =~= le16_bytes(h.file_comment_length));
    lemma_le16_reads_back(s, 28, h.file_comment_length);
    assert(s.subrange(30, 32) =~= le16_bytes(h.disk_start));
    lemma_le16_reads_back(s, 30, h.disk_start);
    assert(s.subrange(32, 34) =~= le16_bytes(h.inter_attr));
    lemma_le16_reads_back(s, 32, h.inter_attr);
    assert(s.subrange(34, 38) =~= le32_bytes(h.exter_attr));
    lemma_le32_reads_back(s, 34, h.exter_attr);
    assert(s.subrange(38, 42) =~= le32_bytes(h.lh_offset));
    lemma_le32_reads_back(s, 38, h.lh_offset);
}

/// Where the fields of an end of central directory record stand, behind its signature, as it is written and as it is read.
pub proof fn lemma_end_record_layout(h: EndOfCentralDirectoryHeader, b: Seq<u8>, i: int)
    ensures
        h.to_bytes().len() == 18,
        le16(h.to_bytes(), 0) == h.disk_num,
        le16(h.to_bytes(), 2) == h.start_cent_dir_disk,
        le16(h.to_bytes(), 4) == h.num_of_entries_disk,
        le16(h.to_bytes(), 6) == h.num_of_entries,
        le32(h.to_bytes(), 8) == h.size_cent_dir,
        le32(h.to_bytes(), 12) == h.cent_dir_offset,
        le16(h.to_bytes(), 16) == h.file_comm_length,
        EndOfCentralDirectoryHeader::at(b, i).disk_num == le16(b, i),
        EndOfCentralDirectoryHeader::at(b, i).start_cent_dir_disk == le16(b, i + 2),
        EndOfCentralDirectoryHeader::at(b, i).num_of_entries_disk == le16(b, i + 4),
        EndOfCentralDirectoryHeader::at(b, i).num_of_entries == le16(b, i + 6),
        EndOfCentralDirectoryHeader::at(b, i).size_cent_dir == le32(b, i + 8),
        EndOfCentralDirectoryHeader::at(b, i).cent_dir_offset == le32(b, i + 12),
        EndOfCentralDirectoryHeader::at(b, i).file_comm_length == le16(b, i + 16),
{
    let s = h.to_bytes();
    assert(s.subrange(0, 18) =~= s);
    lemma_end_record_reads_back(h, s, 0);
}

/// Where the fields of a ZIP64 end of central directory record stand, behind its signature, as it is written and as it is
/// read.
pub proof fn lemma_zip64_end_record_layout(h: Zip64EndOfCentralDirectoryRecord, b: Seq<u8>, i: int)
    ensures
        h.to_bytes().len() == 52,
        le64(h.to_bytes(), 0) == h.size_of_zip64_end_of_cd_record,
        le16(h.to_bytes(), 8) == h.version_made_by,
        le16(h.to_bytes(), 10) == h.version_needed_to_extract,
        le32(h.to_bytes(), 12) == h.disk_number,
        le32(h.to_bytes(), 16) == h.disk_number_start_of_cd,
        le64(h.to_bytes(), 20) == h.num_entries_in_directory_on_disk,
        le64(h.to_bytes(), 28) == h.num_entries_in_directory,
        le64(h.to_bytes(), 36) == h.directory_size,
        le64(h.to_bytes(), 44) == h.offset_of_start_of_directory,
        Zip64EndOfCentralDirectoryRecord::at(b, i).size_of_zip64_end_of_cd_record == le64(b, i),
        Zip64EndOfCentralDirectoryRecord::at(b, i).version_made_by == le16(b, i + 8),
        Zip64EndOfCentralDirectoryRecord::at(b, i).version_needed_to_extract == le16(b, i + 10),
        Zip64EndOfCentralDirectoryRecord::at(b, i).disk_number == le32(b, i + 12),
        Zip64EndOfCentralDirectoryRecord::at(b, i).disk_number_start_of_cd == le32(b, i + 16),
        Zip64EndOfCentralDirectoryRecord::at(b, i).num_entries_in_directory_on_disk == le64(b, i + 20),
        Zip64EndOfCentralDirectoryRecord::at(b, i).num_entries_in_directory == le64(b, i + 28),
        Zip64EndOfCentralDirectoryRecord::at(b, i).directory_size == le64(b, i + 36),
        Zip64EndOfCentralDirectoryRecord::at(b, i).offset_of_start_of_directory == le64(b, i + 44),
{
    let s = h.to_bytes();
    assert(s.subrange(0, 52) =~= s);
    lemma_zip64_end_record_reads_back(h, s, 0);
}

/// Where the fields of a ZIP64 end of central directory locator stand, behind its signature, as it is written and as it is
/// read.
pub proof fn lemma_locator_layout(h: Zip64EndOfCentralDirectoryLocator, b: Seq<u8>, i: int)
    ensures
        h.to_bytes().len() == 16,
        le32(h.to_bytes(), 0) == h.number_of_disk_with_start_of_zip64_end_of_central_directory,
        le64(h.to_bytes(), 4) == h.relative_offset,
        le32(h.to_bytes(), 12) == h.total_number_of_disks,
        Zip64EndOfCentralDirectoryLocator::at(b, i).number_of_disk_with_start_of_zip64_end_of_central_directory == le32(b, i),
        Zip64EndOfCentralDirectoryLocator::at(b, i).relative_offset == le64(b, i + 4),
        Zip64EndOfCentralDirectoryLocator::at(b, i).total_number_of_disks == le32(b, i + 12),
{
    let s = h.to_bytes();
    assert(s.subrange(0, 16) =~= s);
    lemma_locator_reads_back(h, s, 0);
}

} // verus!
