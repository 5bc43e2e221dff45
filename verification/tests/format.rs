//! The pieces of the format.

use async_zip::entry::{ZipEntry, ZipEntryBuilder};
use async_zip::error::{Zip64ErrorCase, ZipError};
use async_zip::format::attribute::AttributeCompatibility;
use async_zip::format::compression::Compression;
use async_zip::format::end_record::{
    CombinedCentralDirectoryRecord, EndOfCentralDirectoryHeader, Zip64EndOfCentralDirectoryLocator,
    Zip64EndOfCentralDirectoryRecord,
};
use async_zip::format::extra_field::{
    as_bytes, field_length, parse_extra_fields, ExtraField, InfoZipUnicodeCommentExtraField,
    InfoZipUnicodePathExtraField, UnknownExtraField, Zip64ExtendedInformationExtraField,
};
use async_zip::format::header::{CentralDirectoryRecord, GeneralPurposeFlag, LocalFileHeader};
use async_zip::format::version::{
    as_made_by, as_needed_to_extract, minimum_version_needed, minimum_version_needed_for_method,
    validate_deflate64_version, validate_extract_version,
};
use async_zip::read::fields::{get_combined_sizes, get_zip64_extra_field, get_zip64_extra_field_mut};
use async_zip::string::{StringEncoding, ZipString};

fn entry_named(name: &str, compression: Compression) -> ZipEntry {
    ZipEntryBuilder::new(ZipString::from_text(name), compression).build()
}

fn error_of<T>(r: Result<T, ZipError>) -> ZipError {
    match r {
        Ok(_) => panic!("expected an error"),
        Err(e) => e,
    }
}

#[test]
fn compression_minimum_versions_match_appnote() {
    assert_eq!(minimum_version_needed(Compression::Stored), 10);
    assert_eq!(minimum_version_needed(Compression::Deflate), 20);
    assert_eq!(minimum_version_needed(Compression::Deflate64), 21);
    assert_eq!(minimum_version_needed(Compression::Bz), 46);
    assert_eq!(minimum_version_needed(Compression::Lzma), 63);
    assert_eq!(minimum_version_needed(Compression::Zstd), 10);
    assert_eq!(minimum_version_needed(Compression::Xz), 10);
}

#[test]
fn methods_without_a_version_get_the_default() {
    assert_eq!(minimum_version_needed_for_method(9), 21);
    assert_eq!(minimum_version_needed_for_method(1), 10);
    assert_eq!(minimum_version_needed_for_method(0xffff), 10);
}

#[test]
fn versions_are_validated() {
    assert!(validate_extract_version(63, 8).is_ok());
    assert!(validate_extract_version(0x033f, 8).is_ok());
    let err = error_of(validate_extract_version(64, 8));
    assert!(matches!(err, ZipError::FeatureNotSupported("zip file version > 6.3")));
    assert!(validate_extract_version(0x0315, 9).is_ok());
    let err = error_of(validate_extract_version(0x0314, 9));
    assert!(matches!(err, ZipError::InvalidCompressionVersion { version: 20, required: 21, compression: 9 }));
    assert!(validate_deflate64_version(0, 8).is_ok());
    assert!(validate_deflate64_version(20, 9).is_err());
}

#[test]
fn directories_need_a_later_version() {
    assert_eq!(as_needed_to_extract(&entry_named("a", Compression::Stored)), 10);
    assert_eq!(as_needed_to_extract(&entry_named("a/", Compression::Stored)), 20);
    assert_eq!(as_needed_to_extract(&entry_named("a/", Compression::Bz)), 46);
    assert_eq!(as_made_by(), 0x033f);
}

#[test]
fn new_entries_are_blank() {
    let entry = entry_named("a", Compression::Zstd);
    assert_eq!(entry.filename().as_str().unwrap(), "a");
    assert_eq!(entry.compression(), Compression::Zstd);
    assert_eq!(entry.crc32(), 0);
    assert_eq!(entry.uncompressed_size(), 0);
    assert_eq!(entry.compressed_size(), 0);
    assert_eq!(entry.attribute_compatibility(), AttributeCompatibility::Unix);
    assert_eq!((entry.last_modification_date().date, entry.last_modification_date().time), (0x21, 0));
    assert_eq!(entry.internal_file_attribute(), 0);
    assert_eq!(entry.external_file_attribute(), 0);
    assert!(entry.extra_fields().is_empty());
    assert_eq!(entry.comment().as_str().unwrap(), "");
    assert_eq!(entry.unix_permissions(), Some(0));
    assert!(!entry.data_descriptor());
    assert_eq!(entry.file_offset(), 0);
    let entry = ZipEntryBuilder::new(ZipString::from_text("b"), Compression::Stored).size(3, 5).build();
    assert_eq!((entry.compressed_size(), entry.uncompressed_size()), (3, 5));
    let copy = entry.clone();
    assert_eq!(copy.filename().as_bytes(), b"b");
    assert_eq!(copy.compressed_size(), 3);
}

#[test]
fn permissions_are_the_upper_attributes() {
    let mut bytes = [0u8; 47];
    bytes[..4].copy_from_slice(b"PK\x01\x02");
    bytes[28] = 1;
    bytes[46] = b'a';
    bytes[38..42].copy_from_slice(&0x81a4_1234_u32.to_le_bytes());
    let mut remaining = 47;
    let (entry, _) = async_zip::read::record::cd_record(&bytes, false, &mut remaining, 1).unwrap();
    assert_eq!(entry.unix_permissions(), Some(0o100644));
    assert_eq!(entry.external_file_attribute(), 0x81a4_1234);
}

#[test]
fn zip64_cases_have_messages() {
    assert_eq!(Zip64ErrorCase::TooManyFiles.message(), "More than 65536 files in archive");
    assert_eq!(Zip64ErrorCase::LargeFile.message(), "File is larger than 4 GiB");
}

#[test]
fn strings_that_are_not_utf8_are_raw() {
    let string = ZipString::new(vec![0xc3, 0xa9], StringEncoding::Utf8);
    assert_eq!(string.as_str().unwrap(), "\u{e9}");
    assert!(string.is_utf8_without_alternative());
    assert_eq!(string.basic(), &[0xc3, 0xa9]);
    let string = ZipString::new(vec![0xc3], StringEncoding::Utf8);
    assert!(matches!(string.encoding(), StringEncoding::Raw));
    assert!(matches!(string.as_str(), Err(ZipError::StringNotUtf8)));
    assert!(!string.is_utf8_without_alternative());
    let string = ZipString::new_with_alternative("\u{e9}", vec![0x82]);
    assert!(!string.is_utf8_without_alternative());
    assert_eq!(string.basic(), &[0x82]);
    assert_eq!(string.clone().alternative(), Some(&[0x82u8][..]));
}

#[test]
fn compression_methods_have_numbers() {
    for compression in [
        Compression::Stored,
        Compression::Deflate,
        Compression::Deflate64,
        Compression::Bz,
        Compression::Lzma,
        Compression::Zstd,
        Compression::Xz,
    ] {
        assert_eq!(Compression::from_method(compression.method()).unwrap(), compression);
    }
    assert!(matches!(Compression::from_method(97), Err(ZipError::CompressionNotSupported(97))));
}

#[test]
fn headers_read_back() {
    let flags = GeneralPurposeFlag { data_descriptor: true, encrypted: false, filename_unicode: true };
    assert_eq!(flags.as_value(), 0x808);
    assert_eq!(GeneralPurposeFlag::from_value(0x808), flags);
    let header = LocalFileHeader {
        version: 45,
        flags,
        compression: 8,
        mod_time: 1,
        mod_date: 2,
        crc: 3,
        compressed_size: 4,
        uncompressed_size: 5,
        file_name_length: 6,
        extra_field_length: 7,
    };
    let bytes = header.as_slice();
    assert_eq!(bytes.len(), 26);
    assert_eq!(LocalFileHeader::from_bytes(&bytes, 0).unwrap(), header);
    let header = CentralDirectoryRecord {
        v_made_by: 0x33f,
        v_needed: 20,
        flags,
        compression: 8,
        mod_time: 1,
        mod_date: 2,
        crc: 3,
        compressed_size: 4,
        uncompressed_size: 5,
        file_name_length: 6,
        extra_field_length: 7,
        file_comment_length: 8,
        disk_start: 9,
        inter_attr: 10,
        exter_attr: 11,
        lh_offset: 0x1234_5678,
    };
    let bytes = header.as_slice();
    assert_eq!(bytes.len(), 42);
    assert_eq!(bytes[38..], [0x78, 0x56, 0x34, 0x12]);
    assert_eq!(CentralDirectoryRecord::from_bytes(&bytes, 0).unwrap(), header);
    let mut encrypted = header;
    encrypted.flags.encrypted = true;
    let err = error_of(CentralDirectoryRecord::from_bytes(&encrypted.as_slice(), 0));
    assert!(matches!(err, ZipError::FeatureNotSupported("encryption")));
}

#[test]
fn extra_fields_read_back() {
    let fields = [
        ExtraField::Zip64ExtendedInformation(Zip64ExtendedInformationExtraField {
            uncompressed_size: Some(1 << 40),
            compressed_size: Some(2),
            relative_header_offset: Some(3),
            disk_start_number: Some(4),
        }),
        ExtraField::InfoZipUnicodeComment(InfoZipUnicodeCommentExtraField::V1 { crc32: 5, unicode: vec![6] }),
        ExtraField::InfoZipUnicodePath(InfoZipUnicodePathExtraField::Unknown { version: 7, data: vec![8, 9] }),
        ExtraField::Unknown(UnknownExtraField { header_id: 0xf00d, content: vec![10] }),
    ];
    let bytes = as_bytes(&fields);
    assert_eq!(bytes.len(), 4 + 28 + 4 + 6 + 4 + 3 + 4 + 1);
    assert_eq!(field_length(&fields).unwrap() as usize, bytes.len());
    let read = parse_extra_fields(&bytes, u32::MAX, u32::MAX, Some(u32::MAX), Some(u16::MAX)).unwrap();
    assert_eq!(format!("{read:?}"), format!("{fields:?}"));
    assert_eq!(as_bytes(&read.clone()), bytes);
}

#[test]
fn extra_fields_are_checked() {
    let parse = |data: &[u8]| parse_extra_fields(data, 0, 0, None, None);
    // Up to three bytes at the end are ignored.
    assert!(parse(&[1, 0, 0]).unwrap().is_empty());
    assert!(matches!(error_of(parse(&[0xd, 0xf0, 2, 0, 9])), ZipError::InvalidExtraFieldHeader(2)));
    let twice = [0xd, 0xf0, 0, 0, 0xd, 0xf0, 0, 0];
    assert!(matches!(error_of(parse(&twice)), ZipError::DuplicateExtraFieldHeader(0xf00d)));
    let err = error_of(parse(&[1, 0, 1, 0, 9]));
    assert!(matches!(err, ZipError::Zip64ExtendedInformationFieldTooLong { expected: 0, actual: 1 }));
    let err = error_of(parse_extra_fields(&[1, 0, 1, 0, 9], u32::MAX, 0, None, None));
    assert!(matches!(err, ZipError::Zip64ExtendedFieldIncomplete));
    assert!(matches!(error_of(parse(&[0x75, 0x63, 0, 0])), ZipError::InfoZipUnicodeCommentFieldIncomplete));
    assert!(matches!(error_of(parse(&[0x75, 0x63, 1, 0, 1])), ZipError::InfoZipUnicodeCommentFieldIncomplete));
    assert!(matches!(error_of(parse(&[0x75, 0x70, 0, 0])), ZipError::InfoZipUnicodePathFieldIncomplete));
    let fields = [ExtraField::Unknown(UnknownExtraField { header_id: 9, content: vec![0; 65_532] })];
    assert!(matches!(field_length(&fields), Err(ZipError::ExtraFieldTooLarge)));
}

#[test]
fn zip64_information_is_found_and_combined() {
    let zip64 = Zip64ExtendedInformationExtraField {
        uncompressed_size: Some(7),
        compressed_size: None,
        relative_header_offset: None,
        disk_start_number: None,
    };
    let mut fields = vec![
        ExtraField::Unknown(UnknownExtraField { header_id: 9, content: vec![] }),
        ExtraField::Zip64ExtendedInformation(zip64),
    ];
    assert_eq!(get_zip64_extra_field(&fields), Some(&zip64));
    assert_eq!(get_combined_sizes(u32::MAX, 3, &Some(&zip64)).unwrap(), (7, 3));
    assert_eq!(get_combined_sizes(1, 3, &None).unwrap(), (1, 3));
    let err = error_of(get_combined_sizes(1, u32::MAX, &Some(&zip64)));
    assert!(matches!(err, ZipError::Zip64ExtendedFieldIncomplete));
    let err = error_of(get_combined_sizes(u32::MAX, 1, &None));
    assert!(matches!(err, ZipError::Zip64ExtendedFieldIncomplete));
    get_zip64_extra_field_mut(&mut fields).unwrap().compressed_size = Some(8);
    assert_eq!(get_zip64_extra_field(&fields).unwrap().compressed_size, Some(8));
    fields.pop();
    assert!(get_zip64_extra_field(&fields).is_none());
    assert!(get_zip64_extra_field_mut(&mut fields).is_none());
}

#[test]
fn end_records_read_back_and_combine() {
    let eocdr = EndOfCentralDirectoryHeader {
        disk_num: 0,
        start_cent_dir_disk: 0,
        num_of_entries_disk: 2,
        num_of_entries: 2,
        size_cent_dir: u32::MAX,
        cent_dir_offset: 5,
        file_comm_length: 6,
    };
    assert_eq!(EndOfCentralDirectoryHeader::from_bytes(&eocdr.as_slice(), 0), eocdr);
    let zip64 = Zip64EndOfCentralDirectoryRecord {
        size_of_zip64_end_of_cd_record: 44,
        version_made_by: 45,
        version_needed_to_extract: 45,
        disk_number: 0,
        disk_number_start_of_cd: 0,
        num_entries_in_directory_on_disk: 2,
        num_entries_in_directory: 2,
        directory_size: 1 << 33,
        offset_of_start_of_directory: 5,
    };
    let mut bytes = b"PK\x06\x06".to_vec();
    bytes.extend_from_slice(&zip64.as_bytes());
    assert_eq!(Zip64EndOfCentralDirectoryRecord::from_input(&bytes).unwrap(), zip64);
    let locator = Zip64EndOfCentralDirectoryLocator {
        number_of_disk_with_start_of_zip64_end_of_central_directory: 1,
        relative_offset: 1 << 35,
        total_number_of_disks: 3,
    };
    let mut bytes = b"PK\x06\x07".to_vec();
    bytes.extend_from_slice(&locator.as_bytes());
    assert_eq!(Zip64EndOfCentralDirectoryLocator::try_from_input(&bytes).unwrap(), Some(locator));
    assert_eq!(Zip64EndOfCentralDirectoryLocator::try_from_input(b"none").unwrap(), None);

    let combined = CombinedCentralDirectoryRecord::combine(eocdr, zip64).unwrap();
    assert_eq!(combined.directory_size, 1 << 33);
    assert_eq!(combined.num_entries_in_directory, 2);
    let err = error_of(CombinedCentralDirectoryRecord::try_from_legacy(&eocdr));
    assert!(matches!(err, ZipError::MissingZip64EndOfCentralDirectoryLocator));
    let mut small = eocdr;
    small.size_cent_dir = 9;
    assert_eq!(CombinedCentralDirectoryRecord::try_from_legacy(&small).unwrap().directory_size, 9);
}
