//! Reading archives.

use async_zip::entry::{StoredZipEntry, ZipEntryBuilder};
use async_zip::error::{ShortRead, ZipError};
use async_zip::format::compression::Compression;
use async_zip::format::consts::{
    CDDS_SIGNATURE, CDH_SIGNATURE, EOCDR_SIGNATURE, LFH_SIGNATURE, ZIP64_EOCDL_SIGNATURE, ZIP64_EOCDR_SIGNATURE,
};
use async_zip::format::end_record::{
    EndOfCentralDirectoryHeader, Zip64EndOfCentralDirectoryLocator, Zip64EndOfCentralDirectoryRecord,
};
use async_zip::format::extra_field::{ExtraField, InfoZipUnicodeCommentExtraField, InfoZipUnicodePathExtraField};
use async_zip::format::header::CentralDirectoryRecord;
use async_zip::format::version::MAX_SUPPORTED_EXTRACT_VERSION;
use async_zip::read::boundary::assign_entry_data_boundaries;
use async_zip::read::directory::{
    cd, cd_entry_capacity, consume_central_directory_digital_signature, validate_central_directory_binding,
    validate_central_directory_range, validate_zip64_end_record_binding, validate_zip64_entry_count,
};
use async_zip::read::file::{eocdr, FileReader, FileStep, ZipFile};
use async_zip::read::name::{detect_comment, detect_comment_by_crc32, detect_filename, detect_filename_by_crc32};
use async_zip::read::record::{cd_record, lfh};
use async_zip::string::{StringEncoding, ZipString};
use async_zip::write::archive::ZipFileWriter;

const UNSUPPORTED_EXTRACT_VERSION: u16 = MAX_SUPPORTED_EXTRACT_VERSION + 1;

fn read_file(data: &[u8]) -> Result<ZipFile, ZipError> {
    async_zip::read::file::file(data)
}

fn position(data: &[u8], signature: u32) -> usize {
    data.windows(4).position(|window| window == signature.to_le_bytes()).unwrap()
}

fn last_position(data: &[u8], signature: u32) -> usize {
    data.windows(4).rposition(|window| window == signature.to_le_bytes()).unwrap()
}

fn put(data: &mut [u8], at: usize, bytes: &[u8]) {
    data[at..at + bytes.len()].copy_from_slice(bytes);
}

/// Where the data of an entry starts, given the whole archive.
fn data_offset(data: &[u8], entry: &StoredZipEntry) -> Result<u64, ZipError> {
    entry.seek_to_data_offset(&data[entry.header_offset() as usize..])
}

fn entry_named(name: &str) -> ZipEntryBuilder {
    ZipEntryBuilder::new(ZipString::from_text(name), Compression::Stored)
}

/// Writes a stored entry behind what `out` holds.
fn write_entry_whole(writer: &mut ZipFileWriter, out: &mut Vec<u8>, entry: ZipEntryBuilder, data: &[u8]) {
    let (mut entry_writer, header) = writer.write_entry_seekable(entry.build(), out.len() as u64).unwrap();
    out.extend_from_slice(&header);
    out.extend_from_slice(data);
    entry_writer.record_write(data, data.len());
    let closing = entry_writer.close(writer, out.len() as u64).unwrap();
    put(out, closing.patch_offset() as usize, &closing.patch());
    closing.finish(writer).unwrap();
}

/// An archive of stored entries.
fn archive(entries: &[(&str, &[u8])]) -> Vec<u8> {
    let mut out = Vec::new();
    let mut writer = ZipFileWriter::new();
    for (name, data) in entries {
        write_entry_whole(&mut writer, &mut out, entry_named(name), data);
    }
    let ending = writer.close(out.len() as u64).unwrap();
    out.extend_from_slice(&ending);
    out
}

/// An archive of one entry, of which both headers declare a version.
fn versioned(local_version: u16, central_version: u16) -> Vec<u8> {
    let mut data = archive(&[("file", b"data")]);
    put(&mut data, 4, &local_version.to_le_bytes());
    let offset = position(&data, CDH_SIGNATURE);
    put(&mut data, offset + 6, &central_version.to_le_bytes());
    data
}

/// An archive whose end records both tell everything.
fn zip64_archive() -> Vec<u8> {
    let mut data = archive(&[("file", b"data")]);
    let directory = position(&data, CDH_SIGNATURE) as u64;
    let end = last_position(&data, EOCDR_SIGNATURE);
    let mut trailer = ZIP64_EOCDR_SIGNATURE.to_le_bytes().to_vec();
    trailer.extend_from_slice(
        &Zip64EndOfCentralDirectoryRecord {
            size_of_zip64_end_of_cd_record: 44,
            version_made_by: 45,
            version_needed_to_extract: 45,
            disk_number: 0,
            disk_number_start_of_cd: 0,
            num_entries_in_directory_on_disk: 1,
            num_entries_in_directory: 1,
            directory_size: end as u64 - directory,
            offset_of_start_of_directory: directory,
        }
        .as_bytes(),
    );
    trailer.extend_from_slice(&ZIP64_EOCDL_SIGNATURE.to_le_bytes());
    trailer.extend_from_slice(
        &Zip64EndOfCentralDirectoryLocator {
            number_of_disk_with_start_of_zip64_end_of_central_directory: 0,
            relative_offset: end as u64,
            total_number_of_disks: 1,
        }
        .as_bytes(),
    );
    data.splice(end..end, trailer);
    data
}

fn error_of<T>(r: Result<T, ZipError>) -> ZipError {
    match r {
        Ok(_) => panic!("expected an error"),
        Err(e) => e,
    }
}

#[test]
fn invalid_matching_unicode_path_extra_field_is_rejected() {
    let basic = b"basic.txt".to_vec();
    let fields = [ExtraField::InfoZipUnicodePath(InfoZipUnicodePathExtraField::V1 {
        crc32: crc32fast::hash(&basic),
        unicode: vec![0xFF],
    })];

    assert!(matches!(detect_filename(basic, false, &fields), Err(ZipError::InfoZipUnicodePathFieldInvalidUtf8)));
}

#[test]
fn invalid_non_matching_unicode_path_extra_field_is_ignored() {
    let basic = b"basic.txt".to_vec();
    let fields = [ExtraField::InfoZipUnicodePath(InfoZipUnicodePathExtraField::V1 { crc32: 0, unicode: vec![0xFF] })];

    assert_eq!(detect_filename(basic, false, &fields).unwrap().as_str().unwrap(), "basic.txt");
}

#[test]
fn matching_unicode_path_replaces_the_name() {
    let basic = b"b\xe9.txt".to_vec();
    let fields = [ExtraField::InfoZipUnicodePath(InfoZipUnicodePathExtraField::V1 {
        crc32: crc32fast::hash(&basic),
        unicode: "b\u{e9}.txt".as_bytes().to_vec(),
    })];

    let name = detect_filename(basic.clone(), false, &fields).unwrap();
    assert_eq!(name.as_str().unwrap(), "b\u{e9}.txt");
    assert_eq!(name.alternative(), Some(&basic[..]));

    let by_crc32 = detect_filename_by_crc32(basic.clone(), 7, false, &fields).unwrap();
    assert!(matches!(by_crc32.encoding(), StringEncoding::Raw));
    assert_eq!(by_crc32.as_bytes(), &basic[..]);
    assert!(matches!(by_crc32.as_str(), Err(ZipError::StringNotUtf8)));
}

#[test]
fn empty_unicode_path_is_ignored() {
    let basic = b"name".to_vec();
    let crc32 = crc32fast::hash(&basic);
    let fields = [ExtraField::InfoZipUnicodePath(InfoZipUnicodePathExtraField::V1 { crc32, unicode: vec![] })];
    let name = detect_filename(basic, false, &fields).unwrap();
    assert!(name.is_utf8_without_alternative());
}

#[test]
fn nul_in_either_name_is_rejected() {
    assert!(matches!(detect_filename(b"a\0b".to_vec(), true, &[]), Err(ZipError::FileNameContainsNul)));
    let fields =
        [ExtraField::InfoZipUnicodePath(InfoZipUnicodePathExtraField::V1 { crc32: 5, unicode: b"a\0".to_vec() })];
    let r = detect_filename_by_crc32(b"a".to_vec(), 5, false, &fields);
    assert!(matches!(r, Err(ZipError::FileNameContainsNul)));
}

#[test]
fn declared_name_that_is_not_utf8_stays_raw() {
    let name = detect_filename(vec![0xff, 0xfe], true, &[]).unwrap();
    assert!(matches!(name.encoding(), StringEncoding::Raw));
    assert_eq!(name.as_bytes(), &[0xff, 0xfe]);
}

#[test]
fn undeclared_name_is_text_only_if_ascii() {
    // UTF-8 in form, but not declared.
    let name = detect_filename("\u{e9}".as_bytes().to_vec(), false, &[]).unwrap();
    assert!(matches!(name.encoding(), StringEncoding::Raw));
    let name = detect_filename(b"plain".to_vec(), false, &[]).unwrap();
    assert!(matches!(name.encoding(), StringEncoding::Utf8));
}

#[test]
fn comments_are_detected_like_names() {
    let basic = vec![0xe9];
    let crc32 = crc32fast::hash(&basic);
    let field = |unicode: &[u8]| {
        [ExtraField::InfoZipUnicodeComment(InfoZipUnicodeCommentExtraField::V1 { crc32, unicode: unicode.to_vec() })]
    };
    let comment = detect_comment(basic.clone(), false, &field("\u{e9}".as_bytes()));
    assert_eq!(comment.as_str().unwrap(), "\u{e9}");
    assert_eq!(comment.alternative(), Some(&basic[..]));
    // A field that is not UTF-8 is no error here.
    let comment = detect_comment(basic.clone(), false, &field(&[0xff]));
    assert!(matches!(comment.encoding(), StringEncoding::Raw));
    // A declared comment is not replaced.
    let comment = detect_comment(b"declared".to_vec(), true, &field(b"other"));
    assert_eq!(comment.as_str().unwrap(), "declared");
    assert!(comment.alternative().is_none());
    let comment = detect_comment_by_crc32(b"ascii".to_vec(), 1, false, &[]);
    assert_eq!(comment.as_str().unwrap(), "ascii");
}

#[test]
fn test_nonempty_cd_comment() {
    let mut out = Vec::new();
    let mut writer = ZipFileWriter::new();
    let entry = entry_named("a").comment(ZipString::from_text("a comment"));
    write_entry_whole(&mut writer, &mut out, entry, b"");
    let ending = writer.close(out.len() as u64).unwrap();

    let mut remaining = 46 + 1 + 9 + 100;
    let (entry, length) = cd_record(&ending, false, &mut remaining, 1).unwrap();
    // The entry ends behind its non-empty comment field.
    assert_eq!(length, 46 + 1 + 9);
    assert_eq!(remaining, 100);
    assert_eq!(entry.comment().as_str().unwrap(), "a comment");
}

#[test]
fn test_zip64_central_sentinel_requires_recognized_extra_field() {
    let mut out = Vec::new();
    let mut writer = ZipFileWriter::new();
    write_entry_whole(&mut writer, &mut out, entry_named("a").size(1 << 32, 1 << 32), b"data");
    let mut directory = writer.close(out.len() as u64).unwrap();
    let extra_field_offset = 46 + 1;
    assert_eq!(&directory[extra_field_offset..extra_field_offset + 2], &1_u16.to_le_bytes());
    put(&mut directory, extra_field_offset, &0xf00d_u16.to_le_bytes());

    let mut remaining = 1000;
    // The entry is taken off once its fixed fields have been accepted, even where its variable fields lack.
    let err = error_of(cd_record(&directory[..45], true, &mut remaining, 1));
    assert!(matches!(err, ZipError::UpstreamReadError(ShortRead { missing: 1 })));
    assert_eq!(remaining, 1000);
    let err = error_of(cd_record(&directory[..60], true, &mut remaining, 1));
    assert!(matches!(err, ZipError::UpstreamReadError(ShortRead { missing: 7 })));
    assert_eq!(remaining, 1000 - 67);
    remaining = 1000;
    let err = error_of(cd_record(&directory, true, &mut remaining, 1));
    assert!(matches!(err, ZipError::Zip64ExtendedFieldIncomplete));
    assert_eq!(remaining, 1000 - 67);
}

#[test]
fn test_local_header_name_must_match_central_directory_name() {
    let mut data = archive(&[("name", b"data")]);
    data[30] = b'N';
    let reader = read_file(&data).unwrap();
    let err = error_of(data_offset(&data, &reader.entries()[0]));
    assert!(matches!(err, ZipError::LocalFileHeaderNameMismatch));
}

#[test]
fn names_are_compared_to_their_end() {
    let name = "n".repeat(600);
    let mut data = archive(&[(&name, b"")]);
    let reader = read_file(&data).unwrap();
    assert_eq!(data_offset(&data, &reader.entries()[0]).unwrap(), 630);
    // All of a chunk is wanted before it is compared.
    let err = error_of(reader.entries()[0].seek_to_data_offset(&data[..30 + 300]));
    assert!(matches!(err, ZipError::UpstreamReadError(ShortRead { missing: 212 })));
    data[30 + 599] = b'm';
    let err = error_of(data_offset(&data, &reader.entries()[0]));
    assert!(matches!(err, ZipError::LocalFileHeaderNameMismatch));
}

#[test]
fn test_strong_encryption_entries_are_rejected() {
    let mut data = archive(&[("file", b"data")]);
    let offset = position(&data, CDH_SIGNATURE);
    put(&mut data, offset + 8, &0x0041_u16.to_le_bytes());
    assert!(matches!(error_of(read_file(&data)), ZipError::FeatureNotSupported("strong encryption")));
}

#[test]
fn test_streamed_central_strong_encryption_entries_are_rejected() {
    let mut record = [0; 42];
    record[4..6].copy_from_slice(&0x0040_u16.to_le_bytes());
    let err = error_of(CentralDirectoryRecord::from_bytes(&record, 0));
    assert!(matches!(err, ZipError::FeatureNotSupported("strong encryption")));
}

fn strong_encryption_only_in_local_header() -> Vec<u8> {
    let mut data = archive(&[("file", b"data")]);
    let local_header = position(&data, LFH_SIGNATURE);
    put(&mut data, local_header + 6, &0x0040_u16.to_le_bytes());
    data
}

#[test]
fn test_streamed_local_strong_encryption_entries_are_rejected() {
    let err = error_of(lfh(&strong_encryption_only_in_local_header(), 0));
    assert!(matches!(err, ZipError::FeatureNotSupported("strong encryption")));
}

#[test]
fn test_seekable_local_strong_encryption_entries_are_rejected() {
    let data = strong_encryption_only_in_local_header();
    let reader = read_file(&data).unwrap();
    let err = error_of(data_offset(&data, &reader.entries()[0]));
    assert!(matches!(err, ZipError::FeatureNotSupported("strong encryption")));
}

#[test]
fn test_archive_rejects_unsupported_central_directory_extract_versions() {
    let data = versioned(20, UNSUPPORTED_EXTRACT_VERSION);
    assert!(matches!(error_of(read_file(&data)), ZipError::FeatureNotSupported("zip file version > 6.3")));
}

#[test]
fn test_archive_accepts_nonzero_reserved_extract_version_bytes() {
    let version = 3 << 8 | 20;
    let data = versioned(version, version);
    let reader = read_file(&data).unwrap();
    data_offset(&data, &reader.entries()[0]).unwrap();
}

#[test]
fn test_stream_rejects_unsupported_local_extract_versions() {
    let data = versioned(UNSUPPORTED_EXTRACT_VERSION, 20);
    assert!(matches!(error_of(lfh(&data, 0)), ZipError::FeatureNotSupported("zip file version > 6.3")));
}

#[test]
fn test_stream_accepts_maximum_supported_local_extract_version() {
    let data = versioned(MAX_SUPPORTED_EXTRACT_VERSION, 20);
    assert!(lfh(&data, 0).unwrap().0.is_some());
}

#[test]
fn test_incremental_central_directory_reader_rejects_unsupported_extract_versions() {
    let data = versioned(20, UNSUPPORTED_EXTRACT_VERSION);
    let offset = position(&data, CDH_SIGNATURE);
    let mut remaining = 1000;
    let err = error_of(cd_record(&data[offset..], false, &mut remaining, 1));
    assert!(matches!(err, ZipError::FeatureNotSupported("zip file version > 6.3")));
}

#[test]
fn test_incremental_central_directory_reader_accepts_maximum_supported_extract_version() {
    let data = versioned(20, MAX_SUPPORTED_EXTRACT_VERSION);
    let offset = position(&data, CDH_SIGNATURE);
    let mut remaining = 1000;
    assert!(cd_record(&data[offset..], false, &mut remaining, 1).is_ok());
}

#[test]
fn test_nul_filenames_are_rejected() {
    let mut data = archive(&[("a.b", b"data")]);
    data[31] = 0;
    let offset = position(&data, CDH_SIGNATURE);
    data[offset + 47] = 0;
    assert!(matches!(error_of(read_file(&data)), ZipError::FileNameContainsNul));
    assert!(matches!(error_of(lfh(&data, 0)), ZipError::FileNameContainsNul));
}

fn empty_stored_zip(
    local_flags: u16,
    local_compressed_size: u32,
    local_uncompressed_size: u32,
    local_extra: &[u8],
    central_flags: u16,
    central_compressed_size: u32,
    central_uncompressed_size: u32,
) -> Vec<u8> {
    let mut zip = Vec::new();

    // Local file header for an empty stored entry named "a".
    zip.extend_from_slice(b"PK\x03\x04");
    zip.extend_from_slice(&20_u16.to_le_bytes());
    zip.extend_from_slice(&local_flags.to_le_bytes());
    zip.extend_from_slice(&0_u16.to_le_bytes());
    zip.extend_from_slice(&0_u16.to_le_bytes());
    zip.extend_from_slice(&0_u16.to_le_bytes());
    zip.extend_from_slice(&0_u32.to_le_bytes());
    zip.extend_from_slice(&local_compressed_size.to_le_bytes());
    zip.extend_from_slice(&local_uncompressed_size.to_le_bytes());
    zip.extend_from_slice(&1_u16.to_le_bytes());
    zip.extend_from_slice(&(local_extra.len() as u16).to_le_bytes());
    zip.push(b'a');
    zip.extend_from_slice(local_extra);

    let central_directory_offset = zip.len() as u32;

    zip.extend_from_slice(b"PK\x01\x02");
    zip.extend_from_slice(&20_u16.to_le_bytes());
    zip.extend_from_slice(&20_u16.to_le_bytes());
    zip.extend_from_slice(&central_flags.to_le_bytes());
    zip.extend_from_slice(&0_u16.to_le_bytes());
    zip.extend_from_slice(&0_u16.to_le_bytes());
    zip.extend_from_slice(&0_u16.to_le_bytes());
    zip.extend_from_slice(&0_u32.to_le_bytes());
    zip.extend_from_slice(&central_compressed_size.to_le_bytes());
    zip.extend_from_slice(&central_uncompressed_size.to_le_bytes());
    zip.extend_from_slice(&1_u16.to_le_bytes());
    zip.extend_from_slice(&0_u16.to_le_bytes());
    zip.extend_from_slice(&0_u16.to_le_bytes());
    zip.extend_from_slice(&0_u16.to_le_bytes());
    zip.extend_from_slice(&0_u16.to_le_bytes());
    zip.extend_from_slice(&0_u32.to_le_bytes());
    zip.extend_from_slice(&0_u32.to_le_bytes());
    zip.push(b'a');

    let central_directory_size = zip.len() as u32 - central_directory_offset;

    zip.extend_from_slice(b"PK\x05\x06");
    zip.extend_from_slice(&0_u16.to_le_bytes());
    zip.extend_from_slice(&0_u16.to_le_bytes());
    zip.extend_from_slice(&1_u16.to_le_bytes());
    zip.extend_from_slice(&1_u16.to_le_bytes());
    zip.extend_from_slice(&central_directory_size.to_le_bytes());
    zip.extend_from_slice(&central_directory_offset.to_le_bytes());
    zip.extend_from_slice(&0_u16.to_le_bytes());

    zip
}

fn zip64_sizes_extra_field(compressed_size: u64, uncompressed_size: u64) -> Vec<u8> {
    let mut extra = Vec::new();
    extra.extend_from_slice(&1_u16.to_le_bytes());
    extra.extend_from_slice(&16_u16.to_le_bytes());
    extra.extend_from_slice(&uncompressed_size.to_le_bytes());
    extra.extend_from_slice(&compressed_size.to_le_bytes());
    extra
}

/// What comes of looking for the data of the only entry of an archive.
fn only_data_offset(data: &[u8]) -> Result<u64, ZipError> {
    data_offset(data, &read_file(data).unwrap().entries()[0])
}

#[test]
fn test_local_header_sizes_must_match_central_directory() {
    let err = error_of(only_data_offset(&empty_stored_zip(0, 1, 1, &[], 0, 0, 0)));
    assert!(matches!(err, ZipError::LocalFileHeaderSizeMismatch));
}

#[test]
fn test_local_header_descriptor_flag_must_match_central_directory() {
    let err = error_of(only_data_offset(&empty_stored_zip(1 << 3, 0, 0, &[], 0, 0, 0)));
    assert!(matches!(err, ZipError::LocalFileHeaderDataDescriptorMismatch));
}

#[test]
fn test_each_concrete_local_size_must_match_central_directory() {
    let err = error_of(only_data_offset(&empty_stored_zip(0, u32::MAX, 1, &[], 0, 0, 0)));
    assert!(matches!(err, ZipError::LocalFileHeaderSizeMismatch));
}

#[test]
fn test_local_zip64_sizes_must_match_central_directory() {
    let local_extra = zip64_sizes_extra_field(1, 0);
    let err = error_of(only_data_offset(&empty_stored_zip(0, u32::MAX, u32::MAX, &local_extra, 0, 0, 0)));
    assert!(matches!(err, ZipError::LocalFileHeaderSizeMismatch));
}

#[test]
fn matching_local_zip64_sizes_are_accepted() {
    let local_extra = zip64_sizes_extra_field(0, 0);
    let data = empty_stored_zip(0, u32::MAX, u32::MAX, &local_extra, 0, 0, 0);
    assert_eq!(only_data_offset(&data).unwrap(), 30 + 1 + 20);
}

#[test]
fn test_local_zip64_sizes_must_have_overrides() {
    let err = error_of(only_data_offset(&empty_stored_zip(0, u32::MAX, u32::MAX, &[], 0, 0, 0)));
    assert!(matches!(err, ZipError::LocalFileHeaderSizeMismatch));
}

#[test]
fn test_each_local_zip64_size_must_have_an_override() {
    for (compressed_size, uncompressed_size) in [(u32::MAX, 0), (0, u32::MAX)] {
        let err = error_of(only_data_offset(&empty_stored_zip(0, compressed_size, uncompressed_size, &[], 0, 0, 0)));
        assert!(matches!(err, ZipError::LocalFileHeaderSizeMismatch));
    }
}

#[test]
fn described_sizes_need_only_be_readable() {
    // Where the sizes follow the data, those in the local header do not count.
    let data = empty_stored_zip(1 << 3, 7, 9, &[], 1 << 3, 0, 0);
    assert_eq!(only_data_offset(&data).unwrap(), 31);
    let data = empty_stored_zip(1 << 3, u32::MAX, 0, &[], 1 << 3, 0, 0);
    assert!(matches!(error_of(only_data_offset(&data)), ZipError::Zip64ExtendedFieldIncomplete));
}

#[test]
fn test_central_directory_encryption_is_rejected() {
    for flags in [0x0001, 0x2000] {
        let data = empty_stored_zip(0, 0, 0, &[], flags, 0, 0);
        assert!(matches!(error_of(read_file(&data)), ZipError::FeatureNotSupported("encryption")));
    }
}

#[test]
fn test_compressed_patched_entries_are_rejected() {
    let data = empty_stored_zip(0, 0, 0, &[], 0x20, 0, 0);
    assert!(matches!(error_of(read_file(&data)), ZipError::FeatureNotSupported("compressed patched data")));
}

#[test]
fn test_stream_with_entry_rejects_compressed_patched_local_headers() {
    let data = empty_stored_zip(0x20, 0, 0, &[], 0x20, 0, 0);
    assert!(matches!(error_of(lfh(&data, 0)), ZipError::FeatureNotSupported("compressed patched data")));
}

#[test]
fn test_seekable_reader_rejects_compressed_patched_local_headers() {
    let err = error_of(only_data_offset(&empty_stored_zip(0x20, 0, 0, &[], 0, 0, 0)));
    assert!(matches!(err, ZipError::FeatureNotSupported("compressed patched data")));
}

#[test]
fn test_entry_body_must_not_overlap_later_local_header() {
    let mut data = archive(&[("a", b""), ("b", b"")]);
    let central_directory = position(&data, CDH_SIGNATURE);
    put(&mut data, central_directory + 20, &1_u32.to_le_bytes());

    let reader = read_file(&data).unwrap();
    let err = error_of(data_offset(&data, &reader.entries()[0]));
    assert!(matches!(err, ZipError::EntryDataRangeOverlap { start: 31, end: 32, boundary: 31 }));
}

#[test]
fn test_directory_size_must_cover_claimed_entry_count() {
    let mut data = archive(&[("alpha.txt", b"alpha\n"), ("beta.txt", b"beta\n")]);
    let eocd_offset = data.len() - 22;
    data[eocd_offset + 12..eocd_offset + 16].fill(0);

    assert!(matches!(error_of(read_file(&data)), ZipError::InvalidCentralDirectoryEntryCount { entries: 2 }));
}

#[test]
fn test_directory_size_must_cover_variable_length_entries() {
    let mut data = archive(&[("long-alpha.txt", b"alpha\n"), ("long-beta.txt", b"beta\n")]);
    // This size covers two fixed headers, but not their filename fields.
    let eocd_offset = data.len() - 22;
    put(&mut data, eocd_offset + 12, &92_u32.to_le_bytes());

    assert!(matches!(error_of(read_file(&data)), ZipError::InvalidCentralDirectoryEntryCount { entries: 2 }));
}

#[test]
fn test_local_extra_field_must_not_overlap_later_local_header() {
    let mut data = archive(&[("a", b""), ("b", b"")]);
    // Consume the following local file header signature as a local-only extra field.
    put(&mut data, 28, &4_u16.to_le_bytes());

    let reader = read_file(&data).unwrap();
    let err = error_of(data_offset(&data, &reader.entries()[0]));
    assert!(matches!(err, ZipError::EntryDataRangeOverlap { .. }));
}

#[test]
fn test_many_entry_ranges_validate() {
    let names: Vec<String> = (0..1_024).map(|index| format!("{index}")).collect();
    let entries: Vec<(&str, &[u8])> = names.iter().map(|name| (name.as_str(), &b""[..])).collect();
    let data = archive(&entries);

    let reader = read_file(&data).unwrap();
    assert_eq!(reader.entries().len(), 1_024);
    for index in 0..1_024 {
        data_offset(&data, &reader.entries()[index]).unwrap();
    }
}

#[test]
fn test_directory_range_must_fit_before_end_record() {
    let mut data = b"PK\x05\x06".to_vec();
    data.resize(22, 0);
    // A directory byte at offset zero would overlap the end record there.
    data[12] = 1;

    let err = error_of(read_file(&data));
    assert!(matches!(err, ZipError::InvalidCentralDirectoryRange { start: 0, end: 1, boundary: 0 }));
}

#[test]
fn test_bound_directory_span_must_be_fully_parsed() {
    let mut data = archive(&[("inner", b"B")]);
    data.extend_from_slice(&archive(&[("outer", b"A")]));

    let inner_cd = position(&data, CDH_SIGNATURE);
    let selected_eocdr = last_position(&data, EOCDR_SIGNATURE);
    let directory_size = (selected_eocdr - inner_cd) as u32;
    put(&mut data, selected_eocdr + 12, &directory_size.to_le_bytes());
    put(&mut data, selected_eocdr + 16, &(inner_cd as u32).to_le_bytes());

    let err = error_of(read_file(&data));
    assert!(matches!(err, ZipError::InvalidCentralDirectorySize { expected, actual } if expected > actual));
}

/// An archive of one entry with a digital signature behind its central directory.
fn signed(length: u16, signature: &[u8]) -> Vec<u8> {
    let mut data = archive(&[("signed", b"A")]);
    let eocdr = position(&data, EOCDR_SIGNATURE);
    let mut record = CDDS_SIGNATURE.to_le_bytes().to_vec();
    record.extend_from_slice(&length.to_le_bytes());
    record.extend_from_slice(signature);
    let record_length = record.len();
    data.splice(eocdr..eocdr, record);
    let eocdr = eocdr + record_length;
    let directory_size = u32::from_le_bytes(data[eocdr + 12..eocdr + 16].try_into().unwrap());
    put(&mut data, eocdr + 12, &(directory_size + record_length as u32).to_le_bytes());
    data
}

#[test]
fn test_directory_allows_digital_signature_record() {
    assert_eq!(read_file(&signed(9, b"signature")).unwrap().entries().len(), 1);
}

#[test]
fn test_digital_signature_must_fill_declared_directory_span() {
    let err = error_of(read_file(&signed(2, b"x")));
    assert!(matches!(err, ZipError::InvalidCentralDirectorySize { expected, actual } if actual > expected));
}

#[test]
fn digital_signatures_are_consumed_to_their_end() {
    let mut input = CDDS_SIGNATURE.to_le_bytes().to_vec();
    input.extend_from_slice(&[2, 0, 7, 8]);
    assert_eq!(consume_central_directory_digital_signature(&input, 0, 8).unwrap(), 8);
    // Nothing remains.
    assert_eq!(consume_central_directory_digital_signature(&input, 3, 3).unwrap(), 3);
    // Too few bytes remain for one.
    let err = error_of(consume_central_directory_digital_signature(&input, 3, 8));
    assert!(matches!(err, ZipError::InvalidCentralDirectorySize { expected: 8, actual: 3 }));
    let err = error_of(consume_central_directory_digital_signature(&[0; 8], 0, 8));
    assert!(matches!(err, ZipError::InvalidCentralDirectorySize { expected: 8, actual: 0 }));
    let err = error_of(consume_central_directory_digital_signature(&input[..7], 0, 8));
    assert!(matches!(err, ZipError::UpstreamReadError(ShortRead { missing: 1 })));
}

#[test]
fn test_zip64_range_boundary_must_be_an_adjacent_end_record() {
    let mut data = archive(&[("visible", b"A")]);
    let zip64_eocdr_offset = data.len() as u64;
    data.extend_from_slice(&ZIP64_EOCDR_SIGNATURE.to_le_bytes());
    data.extend_from_slice(
        &Zip64EndOfCentralDirectoryRecord {
            size_of_zip64_end_of_cd_record: 44,
            version_made_by: 45,
            version_needed_to_extract: 45,
            disk_number: 0,
            disk_number_start_of_cd: 0,
            num_entries_in_directory_on_disk: 0,
            num_entries_in_directory: 0,
            directory_size: 0,
            offset_of_start_of_directory: zip64_eocdr_offset,
        }
        .as_bytes(),
    );
    data.extend_from_slice(b"gap!");
    data.extend_from_slice(&ZIP64_EOCDL_SIGNATURE.to_le_bytes());
    data.extend_from_slice(
        &Zip64EndOfCentralDirectoryLocator {
            number_of_disk_with_start_of_zip64_end_of_central_directory: 0,
            relative_offset: zip64_eocdr_offset,
            total_number_of_disks: 1,
        }
        .as_bytes(),
    );
    data.extend_from_slice(&EOCDR_SIGNATURE.to_le_bytes());
    data.extend_from_slice(
        &EndOfCentralDirectoryHeader {
            disk_num: u16::MAX,
            start_cent_dir_disk: u16::MAX,
            num_of_entries_disk: u16::MAX,
            num_of_entries: u16::MAX,
            size_cent_dir: u32::MAX,
            cent_dir_offset: u32::MAX,
            file_comm_length: 0,
        }
        .as_slice(),
    );

    let err = error_of(read_file(&data));
    assert!(matches!(err, ZipError::InvalidZip64EndOfCentralDirectoryLocatorOffset(..)));
}

#[test]
fn zip64_archives_are_read() {
    let data = zip64_archive();
    let reader = read_file(&data).unwrap();
    assert!(reader.zip64());
    assert_eq!(reader.entries()[0].filename().as_str().unwrap(), "file");
    assert_eq!(data_offset(&data, &reader.entries()[0]).unwrap(), 34);
}

#[test]
fn test_zip64_locator_requires_end_record_signature() {
    let mut data = zip64_archive();
    let offset = position(&data, ZIP64_EOCDR_SIGNATURE);
    put(&mut data, offset, &0_u32.to_le_bytes());
    assert!(matches!(error_of(read_file(&data)), ZipError::UnexpectedHeaderError(0, ZIP64_EOCDR_SIGNATURE)));
}

#[test]
fn test_zip64_end_record_size_must_cover_fixed_fields() {
    let mut data = zip64_archive();
    let offset = position(&data, ZIP64_EOCDR_SIGNATURE);
    put(&mut data, offset + 4, &43_u64.to_le_bytes());
    assert!(matches!(error_of(read_file(&data)), ZipError::InvalidZip64EndOfCentralDirectorySize(43)));
}

#[test]
fn test_directory_must_bind_to_selected_end_record() {
    let inner = archive(&[("inner", b"B")]);
    // The offsets of the outer archive count from its own beginning.
    let outer = archive(&[("outer", b"A")]);
    let mut data = inner;
    data.extend_from_slice(&outer);

    assert!(matches!(error_of(read_file(&data)), ZipError::InvalidCentralDirectoryBinding { .. }));

    // Here the directory that the end record tells of can be read, but ends too early.
    let mut data = archive(&[("file", b"A")]);
    let eocdr = last_position(&data, EOCDR_SIGNATURE);
    data.splice(eocdr..eocdr, [0u8; 3]);
    let err = error_of(read_file(&data));
    assert!(matches!(
        err,
        ZipError::InvalidCentralDirectoryBinding { directory_end, end_record }
            if directory_end == eocdr as u64 && end_record == eocdr as u64 + 3
    ));
}

#[test]
fn repro_conflicting_zip64_and_legacy_central_directories() {
    let mut data = archive(&[("visible.txt", b"visible")]);
    let legacy_eocdr_offset = last_position(&data, EOCDR_SIGNATURE);
    let zip64_eocdr_offset = legacy_eocdr_offset as u64;

    // A valid ZIP64 end record immediately before the other, which describes an empty directory.
    let mut zip64_trailer = ZIP64_EOCDR_SIGNATURE.to_le_bytes().to_vec();
    zip64_trailer.extend_from_slice(
        &Zip64EndOfCentralDirectoryRecord {
            size_of_zip64_end_of_cd_record: 44,
            version_made_by: 45,
            version_needed_to_extract: 45,
            disk_number: 0,
            disk_number_start_of_cd: 0,
            num_entries_in_directory_on_disk: 0,
            num_entries_in_directory: 0,
            directory_size: 0,
            offset_of_start_of_directory: zip64_eocdr_offset,
        }
        .as_bytes(),
    );
    zip64_trailer.extend_from_slice(&ZIP64_EOCDL_SIGNATURE.to_le_bytes());
    zip64_trailer.extend_from_slice(
        &Zip64EndOfCentralDirectoryLocator {
            number_of_disk_with_start_of_zip64_end_of_central_directory: 0,
            relative_offset: zip64_eocdr_offset,
            total_number_of_disks: 1,
        }
        .as_bytes(),
    );
    data.splice(legacy_eocdr_offset..legacy_eocdr_offset, zip64_trailer);

    let err = error_of(read_file(&data));
    assert!(matches!(err, ZipError::MismatchedZip64EndOfCentralDirectoryField { .. }));
}

#[test]
fn test_each_concrete_legacy_end_field_must_match_zip64() {
    // Offsets are relative to the start of the ZIP64 end-record signature.
    let mismatches = [
        ("disk number", 16, 4, 1_u64),
        ("central directory start disk", 20, 4, 1),
        ("number of entries on this disk", 24, 8, 0),
        ("number of entries", 32, 8, 0),
        ("central directory size", 40, 8, 0),
        ("central directory offset", 48, 8, 0),
    ];

    for (expected_field, field_offset, field_length, value) in mismatches {
        let mut data = zip64_archive();
        let record_offset = position(&data, ZIP64_EOCDR_SIGNATURE);
        put(&mut data, record_offset + field_offset, &value.to_le_bytes()[..field_length]);

        let err = error_of(read_file(&data));
        assert!(
            matches!(err, ZipError::MismatchedZip64EndOfCentralDirectoryField { field, .. } if field == expected_field),
            "unexpected error for {expected_field}: {err:?}"
        );
    }
}

#[test]
fn archives_without_end_record_are_rejected() {
    assert!(matches!(error_of(read_file(b"")), ZipError::UnableToLocateEOCDR));
    assert!(matches!(error_of(read_file(&[0; 100])), ZipError::UnableToLocateEOCDR));
    // A record that is not whole does not count.
    assert!(matches!(error_of(read_file(b"PK\x05\x06\0\0\0\0\0\0\0\0\0\0\0\0\0\0\0\0\0")), ZipError::UnableToLocateEOCDR));
}

#[test]
fn end_record_is_located_from_the_tail() {
    let mut data = vec![0; 70_000];
    let mut record = b"PK\x05\x06".to_vec();
    record.resize(22, 0);
    data.extend_from_slice(&record);
    let tail = &data[data.len() - 65_557..];
    assert_eq!(eocdr(tail, data.len() as u64).unwrap(), 70_004);
    assert_eq!(eocdr(&data, data.len() as u64).unwrap(), 70_004);
}

#[test]
fn split_archives_are_rejected() {
    let mut data = archive(&[("file", b"data")]);
    let eocdr = last_position(&data, EOCDR_SIGNATURE);
    put(&mut data, eocdr + 4, &1_u16.to_le_bytes());
    assert!(matches!(error_of(read_file(&data)), ZipError::FeatureNotSupported("Spanned/split files")));
}

#[test]
fn zip64_sentinels_need_a_locator() {
    let mut data = archive(&[("file", b"data")]);
    let eocdr = last_position(&data, EOCDR_SIGNATURE);
    put(&mut data, eocdr + 16, &u32::MAX.to_le_bytes());
    assert!(matches!(error_of(read_file(&data)), ZipError::MissingZip64EndOfCentralDirectoryLocator));
}

#[test]
fn archive_comment_is_read() {
    let mut writer = ZipFileWriter::new();
    writer.comment(b"hello".to_vec());
    let data = writer.close(0).unwrap();
    let reader: ZipFile = read_file(&data).unwrap();
    assert_eq!(reader.comment().as_str().unwrap(), "hello");
    assert!(reader.entries().is_empty());
    assert!(!reader.zip64());
    // The comment ends too early.
    assert!(matches!(
        error_of(FileReader::new(4).supply(&data[4..data.len() - 2])),
        ZipError::UpstreamReadError(ShortRead { missing: 2 })
    ));
}

#[test]
fn file_reader_asks_for_parts() {
    let data = zip64_archive();
    let end = last_position(&data, EOCDR_SIGNATURE) as u64;
    let zip64_end = position(&data, ZIP64_EOCDR_SIGNATURE) as u64;
    let directory = position(&data, CDH_SIGNATURE) as u64;
    let expected =
        [(end + 4, 65_553), (end - 20, 20), (zip64_end, 56), (directory, zip64_end - directory)];
    let mut reader = FileReader::new(eocdr(&data, data.len() as u64).unwrap());
    for (offset, length) in expected {
        assert_eq!(reader.request(), (offset, length));
        let part = &data[offset as usize..data.len().min((offset + length) as usize)];
        match reader.supply(part).unwrap() {
            FileStep::Continue(next) => reader = next,
            FileStep::Done(file) => {
                assert_eq!(file.entries().len(), 1);
                return;
            }
        }
    }
    panic!("expected the archive to be read");
}

#[test]
fn entry_count_must_fit_before_zip64_end_record() {
    let record = |entries: u64, start: u64| Zip64EndOfCentralDirectoryRecord {
        size_of_zip64_end_of_cd_record: 44,
        version_made_by: 45,
        version_needed_to_extract: 45,
        disk_number: 0,
        disk_number_start_of_cd: 0,
        num_entries_in_directory_on_disk: entries,
        num_entries_in_directory: entries,
        directory_size: 0,
        offset_of_start_of_directory: start,
    };
    assert!(validate_zip64_entry_count(&record(2, 8), 100).is_ok());
    let err = error_of(validate_zip64_entry_count(&record(2, 9), 100));
    assert!(matches!(err, ZipError::InvalidCentralDirectoryEntryCount { entries: 2 }));
    let err = error_of(validate_zip64_entry_count(&record(u64::MAX, 0), 100));
    assert!(matches!(err, ZipError::InvalidCentralDirectoryEntryCount { entries: u64::MAX }));
    assert!(validate_zip64_entry_count(&record(u64::MAX, 0), u64::MAX).is_ok());

    assert!(validate_zip64_end_record_binding(&record(0, 0), 10, 66).is_ok());
    let err = error_of(validate_zip64_end_record_binding(&record(0, 0), 10, 67));
    assert!(matches!(err, ZipError::InvalidZip64EndOfCentralDirectoryLocatorOffset(66, 67)));
    let err = error_of(validate_zip64_end_record_binding(&record(0, 0), u64::MAX - 20, 67));
    assert!(matches!(err, ZipError::InvalidZip64EndOfCentralDirectoryLocatorOffset(u64::MAX, 67)));
}

#[test]
fn directory_spans_are_validated() {
    let record = async_zip::format::end_record::CombinedCentralDirectoryRecord {
        disk_number: 0,
        disk_number_start_of_cd: 0,
        num_entries_in_directory_on_disk: 0,
        num_entries_in_directory: 0,
        directory_size: 5,
        offset_of_start_of_directory: 10,
    };
    assert!(validate_central_directory_range(&record, 15).is_ok());
    assert!(validate_central_directory_range(&record, 16).is_ok());
    let err = error_of(validate_central_directory_range(&record, 14));
    assert!(matches!(err, ZipError::InvalidCentralDirectoryRange { start: 10, end: 15, boundary: 14 }));
    assert!(validate_central_directory_binding(&record, 15).is_ok());
    let err = error_of(validate_central_directory_binding(&record, 16));
    assert!(matches!(err, ZipError::InvalidCentralDirectoryBinding { directory_end: 15, end_record: 16 }));
    let mut over = record;
    over.directory_size = u64::MAX;
    let err = error_of(validate_central_directory_range(&over, 16));
    assert!(matches!(err, ZipError::InvalidCentralDirectoryRange { start: 10, end: u64::MAX, boundary: 16 }));
    let err = error_of(validate_central_directory_binding(&over, 16));
    assert!(matches!(err, ZipError::InvalidCentralDirectoryBinding { directory_end: u64::MAX, end_record: 16 }));
}

#[test]
fn claimed_entries_get_room_only_if_plausible() {
    assert_eq!(cd_entry_capacity(3, 3).unwrap(), 3);
    assert_eq!(cd_entry_capacity(4, 3).unwrap(), 0);
    let err = error_of(cd_entry_capacity(usize::MAX, u64::MAX));
    assert!(matches!(err, ZipError::FeatureNotSupported("Oversized central directory")));
}

#[test]
fn directory_is_read_alone() {
    let data = archive(&[("a", b""), ("b", b"")]);
    let start = position(&data, CDH_SIGNATURE);
    let entries = cd(&data[start..], 2, start as u64, 94, false).unwrap();
    assert_eq!(entries[1].filename().as_str().unwrap(), "b");
    assert_eq!(entries[1].header_offset(), 31);
    let err = error_of(cd(&data[start..start + 50], 2, start as u64, 94, false));
    assert!(matches!(err, ZipError::UpstreamReadError(ShortRead { missing: 1 })));
    let err = error_of(cd(&data[start..], 1, start as u64, 94, false));
    assert!(matches!(err, ZipError::InvalidCentralDirectorySize { expected: 94, actual: 47 }));
}

#[test]
fn streams_end_where_the_directory_begins() {
    let data = archive(&[("a", b"")]);
    let (entry, length) = lfh(&data, 0).unwrap();
    assert_eq!(length, 31);
    assert_eq!(entry.unwrap().filename().as_str().unwrap(), "a");
    let (entry, length) = lfh(&data[31..], 31).unwrap();
    assert!(entry.is_none());
    assert_eq!(length, 4);
    let err = error_of(lfh(&[0; 30], 0));
    assert!(matches!(err, ZipError::UnexpectedHeaderError(0, LFH_SIGNATURE)));
    let err = error_of(lfh(&empty_stored_zip(1 << 3, 0, 0, &[], 0, 0, 0), 0));
    assert!(matches!(
        err,
        ZipError::FeatureNotSupported("stream reading entries with data descriptors & Stored compression mode")
    ));
}

#[test]
fn unknown_compression_is_rejected() {
    let mut data = empty_stored_zip(0, 0, 0, &[], 0, 0, 0);
    put(&mut data, 8, &1_u16.to_le_bytes());
    assert!(matches!(error_of(lfh(&data, 0)), ZipError::CompressionNotSupported(1)));
}

#[test]
fn more_bytes_change_nothing_and_fewer_do_not_do() {
    let data = archive(&[("name", b"")]);
    // A pulling source is asked for as many bytes as lack, until the header is whole.
    let mut have = 0;
    let mut asked = Vec::new();
    let length = loop {
        match lfh(&data[..have], 0) {
            Ok((_, length)) => break length,
            Err(ZipError::UpstreamReadError(ShortRead { missing })) => {
                asked.push(missing);
                have += missing;
            }
            Err(e) => panic!("unexpected error: {e:?}"),
        }
    };
    assert_eq!(asked, [4, 26, 4]);
    assert_eq!(length, 34);
    assert_eq!(lfh(&data, 0).unwrap().1, 34);
}

#[test]
fn boundaries_are_the_next_headers() {
    let data = archive(&[("a", b"12"), ("b", b""), ("c", b"3")]);
    let start = position(&data, CDH_SIGNATURE);
    let mut entries = cd(&data[start..], 3, start as u64, 141, false).unwrap();
    entries.swap(0, 2);
    assign_entry_data_boundaries(&mut entries, start as u64);
    for entry in &entries {
        data_offset(&data, entry).unwrap();
    }
    // With the directory in its way, the last entry cannot be read.
    assign_entry_data_boundaries(&mut entries, start as u64 - 1);
    assert!(matches!(error_of(data_offset(&data, &entries[0])), ZipError::EntryDataRangeOverlap { .. }));
    data_offset(&data, &entries[1]).unwrap();
}

#[test]
fn data_ranges_must_fit_in_a_file() {
    let mut out = Vec::new();
    let mut writer = ZipFileWriter::new();
    write_entry_whole(&mut writer, &mut out, entry_named("a").size(1 << 32, 1 << 32), b"data");
    let mut directory = writer.close(out.len() as u64).unwrap();
    // The compressed size stands behind the uncompressed size.
    put(&mut directory, 46 + 1 + 4 + 8, &u64::MAX.to_le_bytes());
    let mut remaining = 1000;
    let (entry, _) = cd_record(&directory, true, &mut remaining, 1).unwrap();
    assert!(matches!(error_of(entry.seek_to_data_offset(&out)), ZipError::InvalidEntryDataRange));
}
