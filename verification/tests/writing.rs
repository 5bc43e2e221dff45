//! Writing archives.

use async_compression::futures::{bufread::DeflateDecoder, write::DeflateEncoder};
use async_zip::entry::{ZipEntry, ZipEntryBuilder};
use async_zip::error::{Zip64ErrorCase, ZipError};
use async_zip::format::compression::Compression;
use async_zip::format::consts::{CDH_SIGNATURE, LFH_SIGNATURE, NON_ZIP64_MAX_SIZE};
use async_zip::format::extra_field::{
    ExtraField, InfoZipUnicodeCommentExtraField, InfoZipUnicodePathExtraField, UnknownExtraField,
    Zip64ExtendedInformationExtraField,
};
use async_zip::read::file::ZipFile;
use async_zip::read::record::lfh;
use async_zip::string::{StringEncoding, ZipString};
use async_zip::write::archive::{central_directory_size_field, ZipFileWriter};
use futures_lite::io::{AsyncReadExt, AsyncWriteExt};

const DATA_DESCRIPTOR_SIGNATURE: u32 = 0x0807_4b50;

fn read_file(data: &[u8]) -> Result<ZipFile, ZipError> {
    async_zip::read::file::file(data)
}

fn put(data: &mut [u8], at: usize, bytes: &[u8]) {
    data[at..at + bytes.len()].copy_from_slice(bytes);
}

fn entry_named(name: &str) -> ZipEntryBuilder {
    ZipEntryBuilder::new(ZipString::from_text(name), Compression::Stored)
}

fn error_of<T>(r: Result<T, ZipError>) -> ZipError {
    match r {
        Ok(_) => panic!("expected an error"),
        Err(e) => e,
    }
}

/// An output that is held in memory.
struct Output {
    writer: ZipFileWriter,
    bytes: Vec<u8>,
}

impl Output {
    fn new() -> Output {
        Output { writer: ZipFileWriter::new(), bytes: Vec::new() }
    }

    /// Writes an entry whose compressed data is at hand.
    fn write(&mut self, entry: ZipEntry, data: &[u8], compressed: &[u8]) -> Result<(), ZipError> {
        let (mut entry_writer, header) = self.writer.write_entry_seekable(entry, self.bytes.len() as u64)?;
        self.bytes.extend_from_slice(&header);
        assert_eq!(entry_writer.data_offset(), self.bytes.len() as u64);
        self.bytes.extend_from_slice(compressed);
        entry_writer.record_write(data, data.len());
        let closing = entry_writer.close(&mut self.writer, self.bytes.len() as u64)?;
        assert_eq!(closing.end_offset(), self.bytes.len() as u64);
        put(&mut self.bytes, closing.patch_offset() as usize, &closing.patch());
        closing.finish(&mut self.writer)
    }

    fn write_stored(&mut self, entry: ZipEntryBuilder, data: &[u8]) -> Result<(), ZipError> {
        self.write(entry.build(), data, data)
    }

    fn close(self) -> Vec<u8> {
        let mut bytes = self.bytes;
        let ending = self.writer.close(bytes.len() as u64).unwrap();
        bytes.extend_from_slice(&ending);
        bytes
    }
}

fn u16_at(buffer: &[u8], at: usize) -> u16 {
    u16::from_le_bytes(buffer[at..at + 2].try_into().unwrap())
}

fn u32_at(buffer: &[u8], at: usize) -> u32 {
    u32::from_le_bytes(buffer[at..at + 4].try_into().unwrap())
}

fn directory_offset(buffer: &[u8]) -> usize {
    buffer.windows(4).position(|window| window == CDH_SIGNATURE.to_le_bytes()).unwrap()
}

fn modification_dates(buffer: &[u8]) -> ((u16, u16), (u16, u16)) {
    assert_eq!(u32_at(buffer, 0), LFH_SIGNATURE);
    let central = directory_offset(buffer);
    ((u16_at(buffer, 10), u16_at(buffer, 12)), (u16_at(buffer, central + 12), u16_at(buffer, central + 14)))
}

fn compact_entry_headers(buffer: &[u8]) -> ((u16, u16), (u16, u16)) {
    assert_eq!(u32_at(buffer, 0), LFH_SIGNATURE);
    let central = directory_offset(buffer);
    ((u16_at(buffer, 6), u16_at(buffer, 28)), (u16_at(buffer, central + 8), u16_at(buffer, central + 30)))
}

fn entry_versions(buffer: &[u8]) -> (u16, u16) {
    assert_eq!(u32_at(buffer, 0), LFH_SIGNATURE);
    (u16_at(buffer, 4), u16_at(buffer, directory_offset(buffer) + 6))
}

/// What another reader finds in an archive.
fn contents(buffer: Vec<u8>, name: &str) -> Vec<u8> {
    let mut archive = zip::read::ZipArchive::new(std::io::Cursor::new(buffer)).unwrap();
    let mut entry = archive.by_name(name).unwrap();
    let mut contents = Vec::new();
    std::io::Read::read_to_end(&mut entry, &mut contents).unwrap();
    contents
}

#[test]
fn default_modification_date_is_valid_for_seekable_stream_writes() {
    let mut output = Output::new();
    output.write_stored(entry_named("file"), b"data").unwrap();
    assert_eq!(modification_dates(&output.close()), ((0, 0x21), (0, 0x21)));
}

#[test]
fn seekable_stream_writes_compact_headers() {
    let mut output = Output::new();
    output.write_stored(entry_named("file"), b"data").unwrap();
    let buffer = output.close();

    let ((local_flags, local_extra_length), (central_flags, central_extra_length)) = compact_entry_headers(&buffer);
    assert_eq!(local_flags & (1 << 3), 0);
    assert_eq!(central_flags & (1 << 3), 0);
    assert_eq!(local_extra_length, 0);
    assert_eq!(central_extra_length, 0);

    let data_descriptor_signature = DATA_DESCRIPTOR_SIGNATURE.to_le_bytes();
    assert!(!buffer.windows(data_descriptor_signature.len()).any(|window| window == data_descriptor_signature));

    assert_eq!(contents(buffer, "file"), b"data");
}

#[test]
fn seekable_stream_updates_reserved_zip64_sizes_when_actual_size_fits() {
    let data = b"data";
    let mut output = Output::new();
    let entry = entry_named("file").size(NON_ZIP64_MAX_SIZE as u64 + 1, NON_ZIP64_MAX_SIZE as u64 + 1);
    output.write_stored(entry, data).unwrap();

    assert!(output.writer.is_zip64());
    let cd_entry = output.writer.cd_entries().last().unwrap();
    assert_eq!(cd_entry.header.compressed_size, NON_ZIP64_MAX_SIZE);
    assert_eq!(cd_entry.header.uncompressed_size, NON_ZIP64_MAX_SIZE);
    match cd_entry.entry.extra_fields().last().unwrap() {
        ExtraField::Zip64ExtendedInformation(zip64) => {
            assert_eq!(zip64.compressed_size, Some(data.len() as u64));
            assert_eq!(zip64.uncompressed_size, Some(data.len() as u64));
        }
        field => panic!("Expected a Zip64 extended field, got {field:?}"),
    }

    let buffer = output.close();
    let (local_version, central_version) = entry_versions(&buffer);
    assert_eq!(local_version, 45);
    assert_eq!(central_version, 45);
    assert_eq!(u32_at(&buffer, 18), NON_ZIP64_MAX_SIZE);
    assert_eq!(u32_at(&buffer, 22), NON_ZIP64_MAX_SIZE);
    let central_directory_offset = directory_offset(&buffer);
    assert_eq!(u32_at(&buffer, central_directory_offset + 20), NON_ZIP64_MAX_SIZE);
    assert_eq!(u32_at(&buffer, central_directory_offset + 24), NON_ZIP64_MAX_SIZE);

    let reader = read_file(&buffer).unwrap();
    assert!(reader.zip64());
    assert_eq!(reader.entries()[0].compressed_size(), data.len() as u64);
    assert_eq!(reader.entries()[0].uncompressed_size(), data.len() as u64);
}

#[test]
fn seekable_stream_reserves_zip64_sizes_at_legacy_sentinel() {
    let data = b"data";
    let mut output = Output::new();
    let entry = entry_named("file").size(NON_ZIP64_MAX_SIZE as u64, NON_ZIP64_MAX_SIZE as u64);
    output.write_stored(entry, data).unwrap();

    assert!(output.writer.is_zip64());
    let cd_entry = output.writer.cd_entries().last().unwrap();
    assert_eq!(cd_entry.header.compressed_size, NON_ZIP64_MAX_SIZE);
    assert_eq!(cd_entry.header.uncompressed_size, NON_ZIP64_MAX_SIZE);
    match cd_entry.entry.extra_fields().last().unwrap() {
        ExtraField::Zip64ExtendedInformation(zip64) => {
            assert_eq!(zip64.compressed_size, Some(data.len() as u64));
            assert_eq!(zip64.uncompressed_size, Some(data.len() as u64));
        }
        field => panic!("Expected a Zip64 extended field, got {field:?}"),
    }
}

#[test]
fn seekable_stream_preserves_data_with_existing_zip64_extra_field() {
    let data = b"data";
    let mut output = Output::new();
    let entry = entry_named("file")
        .size(NON_ZIP64_MAX_SIZE as u64 + 1, NON_ZIP64_MAX_SIZE as u64 + 1)
        .extra_fields(vec![ExtraField::Zip64ExtendedInformation(Zip64ExtendedInformationExtraField {
            uncompressed_size: None,
            compressed_size: None,
            relative_header_offset: None,
            disk_start_number: None,
        })]);
    output.write_stored(entry, data).unwrap();
    let buffer = output.close();

    let reader = read_file(&buffer).unwrap();
    let at = reader.entries()[0].seek_to_data_offset(&buffer).unwrap() as usize;
    assert_eq!(&buffer[at..at + 4], data);
    assert_eq!(contents(buffer, "file"), data);
}

/// Writes an entry behind an offset that needs ZIP64.
fn write_far_entry(offset: u64) {
    let mut writer = ZipFileWriter::new();
    let (mut entry_writer, header) = writer.write_entry_seekable(entry_named("file").build(), offset).unwrap();
    entry_writer.record_write(b"data", 4);
    let end = offset + header.len() as u64 + 4;
    let closing = entry_writer.close(&mut writer, end).unwrap();
    assert_eq!(closing.patch_offset(), offset + 4);
    assert_eq!(u16_at(&closing.patch(), 0), 45);
    closing.finish(&mut writer).unwrap();

    assert!(writer.is_zip64());
    let cd_entry = writer.cd_entries().last().unwrap();
    assert_eq!(cd_entry.header.v_needed, 45);
    assert_eq!(cd_entry.header.lh_offset, NON_ZIP64_MAX_SIZE);
    match cd_entry.entry.extra_fields().last().unwrap() {
        ExtraField::Zip64ExtendedInformation(zip64) => {
            assert_eq!(zip64.compressed_size, None);
            assert_eq!(zip64.uncompressed_size, None);
            assert_eq!(zip64.relative_header_offset, Some(offset));
        }
        field => panic!("Expected a Zip64 extended field, got {field:?}"),
    }
    writer.close(end).unwrap();
}

#[test]
fn seekable_stream_raises_version_needed_for_zip64_local_header_offset() {
    write_far_entry(NON_ZIP64_MAX_SIZE as u64 + 1);
}

#[test]
fn seekable_stream_raises_version_needed_at_zip64_local_header_offset_sentinel() {
    write_far_entry(NON_ZIP64_MAX_SIZE as u64);
}

#[test]
fn seekable_stream_deflate_writes_compact_headers() {
    let data = b"repeated data ".repeat(128);
    let compressed = futures_lite::future::block_on(async {
        let mut encoder = DeflateEncoder::new(Vec::new());
        encoder.write_all(&data).await.unwrap();
        encoder.close().await.unwrap();
        encoder.into_inner()
    });
    let mut output = Output::new();
    let entry = ZipEntryBuilder::new(ZipString::from_text("file"), Compression::Deflate);
    output.write(entry.build(), &data, &compressed).unwrap();
    let buffer = output.close();

    let ((local_flags, local_extra_length), (central_flags, central_extra_length)) = compact_entry_headers(&buffer);
    assert_eq!(local_flags & (1 << 3), 0);
    assert_eq!(central_flags & (1 << 3), 0);
    assert_eq!(local_extra_length, 0);
    assert_eq!(central_extra_length, 0);

    let reader = read_file(&buffer).unwrap();
    let entry = &reader.entries()[0];
    let at = entry.seek_to_data_offset(&buffer).unwrap() as usize;
    let stored = &buffer[at..at + entry.compressed_size() as usize];
    let actual = futures_lite::future::block_on(async {
        let mut actual = Vec::new();
        DeflateDecoder::new(stored).read_to_end(&mut actual).await.unwrap();
        actual
    });
    assert_eq!(actual, data);
    assert_eq!(entry.crc32(), crc32fast::hash(&data));
    assert_eq!(entry.uncompressed_size(), data.len() as u64);
}

#[test]
fn reject_large_archive_comment() {
    let mut writer = ZipFileWriter::new();
    writer.comment("x".repeat(u16::MAX as usize + 1).into_bytes());
    assert!(matches!(writer.close(0), Err(ZipError::CommentTooLarge)));
}

#[test]
fn reject_deflate64_seekable_stream_writes() {
    let mut writer = ZipFileWriter::new();
    let entry = ZipEntryBuilder::new(ZipString::from_text("file"), Compression::Deflate64);
    let result = writer.write_entry_seekable(entry.build(), 0);
    assert!(matches!(result, Err(ZipError::FeatureNotSupported("Deflate64 writing"))));
    // The archive can still be written to.
    assert!(writer.write_entry_seekable(entry_named("file").build(), 0).is_ok());
}

#[test]
fn large_central_directory_size_uses_zip64() {
    let mut is_zip64 = false;

    let field = central_directory_size_field(NON_ZIP64_MAX_SIZE as u64 + 1, false, &mut is_zip64).unwrap();

    assert_eq!(field, NON_ZIP64_MAX_SIZE);
    assert!(is_zip64);
}

#[test]
fn large_central_directory_size_errors_without_zip64() {
    let mut is_zip64 = false;

    let result = central_directory_size_field(NON_ZIP64_MAX_SIZE as u64 + 1, true, &mut is_zip64);

    assert!(matches!(result, Err(ZipError::Zip64Needed(Zip64ErrorCase::LargeFile))));
    assert!(!is_zip64);
}

#[test]
fn small_central_directory_size_stands_for_itself() {
    let mut is_zip64 = false;
    assert_eq!(central_directory_size_field(94, true, &mut is_zip64).unwrap(), 94);
    assert_eq!(central_directory_size_field(0xffff_fffe, false, &mut is_zip64).unwrap(), 0xffff_fffe);
    assert!(!is_zip64);
    assert_eq!(central_directory_size_field(0xffff_ffff, false, &mut is_zip64).unwrap(), 0xffff_ffff);
    assert!(is_zip64);
}

#[test]
fn cancelled_seekable_entry_payload_poisoned_writer_cannot_be_reused() {
    let mut writer = ZipFileWriter::new();
    let (mut entry_writer, _) = writer.write_entry_seekable(entry_named("a").build(), 0).unwrap();
    entry_writer.record_write(b"first", 2);
    drop(entry_writer);

    let retry = writer.write_entry_seekable(entry_named("b").build(), 33);
    assert!(matches!(retry, Err(ZipError::WriterPoisoned)));
    assert!(matches!(writer.close(33), Err(ZipError::WriterPoisoned)));
}

#[test]
fn abandoned_entry_writers_poison_parent() {
    let mut writer = ZipFileWriter::new();
    let entry_writer = writer.write_entry_seekable(entry_named("a").build(), 0).unwrap();
    drop(entry_writer);

    let retry = writer.write_entry_seekable(entry_named("b").build(), 31);
    assert!(matches!(retry, Err(ZipError::WriterPoisoned)));
    assert!(matches!(writer.close(31), Err(ZipError::WriterPoisoned)));
}

#[test]
fn cancelled_seekable_entry_close_poisoned_writer_cannot_be_reused() {
    let mut writer = ZipFileWriter::new();
    let (mut entry_writer, header) = writer.write_entry_seekable(entry_named("a").build(), 0).unwrap();
    entry_writer.record_write(b"first", 5);
    // The patch is never written.
    let closing = entry_writer.close(&mut writer, header.len() as u64 + 5).unwrap();
    drop(closing);

    let retry = writer.write_entry_seekable(entry_named("b").build(), 36);
    assert!(matches!(retry, Err(ZipError::WriterPoisoned)));
}

#[test]
fn failed_entries_do_not_poison() {
    let mut writer = ZipFileWriter::new();
    let (entry_writer, header) = writer.write_entry_seekable(entry_named("a").build(), 0).unwrap();
    // The data needs ZIP64 sizes, for which no room was set aside.
    let result = entry_writer.close(&mut writer, header.len() as u64 + NON_ZIP64_MAX_SIZE as u64);
    assert!(matches!(result, Err(ZipError::Zip64Needed(Zip64ErrorCase::LargeFile))));
    assert!(!writer.is_zip64());
    let (entry_writer, header) = writer.write_entry_seekable(entry_named("b").build(), 0).unwrap();
    let closing = entry_writer.close(&mut writer, header.len() as u64).unwrap();
    // The output failed, before or after the closing.
    closing.fail(&mut writer);
    let (entry_writer, _) = writer.write_entry_seekable(entry_named("c").build(), 0).unwrap();
    entry_writer.fail(&mut writer);
    assert!(writer.cd_entries().is_empty());
    assert!(writer.write_entry_seekable(entry_named("d").build(), 0).is_ok());
}

#[test]
fn archives_without_zip64_refuse_what_needs_it() {
    let mut writer = ZipFileWriter::new().force_no_zip64();
    let big = entry_named("a").size(0, NON_ZIP64_MAX_SIZE as u64).build();
    let result = writer.write_entry_seekable(big, 0);
    assert!(matches!(result, Err(ZipError::Zip64Needed(Zip64ErrorCase::LargeFile))));
    let far = NON_ZIP64_MAX_SIZE as u64;
    let (entry_writer, header) = writer.write_entry_seekable(entry_named("a").build(), far).unwrap();
    let result = entry_writer.close(&mut writer, far + header.len() as u64);
    assert!(matches!(result, Err(ZipError::Zip64Needed(Zip64ErrorCase::LargeFile))));
    assert!(!writer.is_zip64());
    assert!(matches!(writer.close(far), Err(ZipError::Zip64Needed(Zip64ErrorCase::LargeFile))));
}

#[test]
fn many_entries_need_zip64() {
    let write = |writer: &mut ZipFileWriter| {
        let (entry_writer, header) = writer.write_entry_seekable(entry_named("a").build(), 0)?;
        entry_writer.close(writer, header.len() as u64)?.finish(writer)
    };
    let mut writer = ZipFileWriter::new();
    for _ in 0..65_535 {
        write(&mut writer).unwrap();
    }
    assert!(!writer.is_zip64());
    write(&mut writer).unwrap();
    assert!(writer.is_zip64());

    let mut writer = ZipFileWriter::new().force_no_zip64();
    for _ in 0..65_535 {
        write(&mut writer).unwrap();
    }
    assert!(matches!(write(&mut writer), Err(ZipError::Zip64Needed(Zip64ErrorCase::TooManyFiles))));
}

#[test]
fn variable_fields_have_limits() {
    let mut output = Output::new();
    let long = "n".repeat(65_536);
    let r = output.write_stored(entry_named(&long), b"");
    assert!(matches!(r, Err(ZipError::FileNameTooLarge)));
    let field = ExtraField::Unknown(UnknownExtraField { header_id: 0xf00d, content: vec![0; 65_532] });
    let r = output.write_stored(entry_named("a").extra_fields(vec![field]), b"");
    assert!(matches!(r, Err(ZipError::ExtraFieldTooLarge)));
    let r = output.write_stored(entry_named("a").comment(ZipString::from_text(&long)), b"");
    assert!(matches!(r, Err(ZipError::CommentTooLarge)));
    assert!(output.writer.cd_entries().is_empty());
    // An error completes the entry.
    output.write_stored(entry_named("a"), b"").unwrap();
}

#[test]
fn extra_fields_must_fit_with_the_offset_too() {
    let mut writer = ZipFileWriter::new();
    let field = ExtraField::Unknown(UnknownExtraField { header_id: 0xf00d, content: vec![0; 65_531] });
    let entry = entry_named("a").extra_fields(vec![field]).build();
    let far = NON_ZIP64_MAX_SIZE as u64;
    let (entry_writer, header) = writer.write_entry_seekable(entry, far).unwrap();
    let closing = entry_writer.close(&mut writer, far + header.len() as u64).unwrap();
    assert!(matches!(closing.finish(&mut writer), Err(ZipError::ExtraFieldTooLarge)));
    assert!(writer.write_entry_seekable(entry_named("b").build(), far).is_ok());
}

#[test]
fn patch_takes_the_place_of_the_placeholder() {
    for size in [0, NON_ZIP64_MAX_SIZE as u64] {
        let mut writer = ZipFileWriter::new();
        let entry = entry_named("file").size(size, size).build();
        let (mut entry_writer, header) = writer.write_entry_seekable(entry, 100).unwrap();
        entry_writer.record_write(b"12345", 5);
        let closing = entry_writer.close(&mut writer, 100 + header.len() as u64 + 5).unwrap();
        let patch = closing.patch();
        assert_eq!(patch.len() + 4, header.len());
        assert_eq!(u32_at(&patch, 10), crc32fast::hash(b"12345"));
        // The names agree.
        assert_eq!(patch[26..30], header[30..34]);
    }
}

#[test]
fn refused_zip64_leaves_the_archive_alone() {
    let mut writer = ZipFileWriter::new().force_no_zip64();
    for (compressed, uncompressed) in [(u32::MAX as u64, 0), (0, u32::MAX as u64)] {
        let entry = entry_named("a").size(compressed, uncompressed).build();
        let result = writer.write_entry_seekable(entry, 0);
        assert!(matches!(result, Err(ZipError::Zip64Needed(Zip64ErrorCase::LargeFile))));
        assert!(!writer.is_zip64());
    }
    assert!(writer.write_entry_seekable(entry_named("a").build(), 0).is_ok());
}

#[test]
fn hashed_data_is_what_was_accepted() {
    let mut writer = ZipFileWriter::new();
    let (mut entry_writer, header) = writer.write_entry_seekable(entry_named("a").build(), 0).unwrap();
    assert_eq!(entry_writer.compression(), Compression::Stored);
    entry_writer.record_write(b"hello, ", 5);
    entry_writer.record_write(b", world", 7);
    let closing = entry_writer.close(&mut writer, header.len() as u64 + 12).unwrap();
    let patch = closing.patch();
    assert_eq!(u32_at(&patch, 10), 0xffab_723a);
    assert_eq!(u32_at(&patch, 10), crc32fast::hash(b"hello, world"));
    assert_eq!(u32_at(&patch, 14), 12);
    assert_eq!(u32_at(&patch, 18), 12);
}

#[test]
fn names_with_alternatives_are_written_twice() {
    let name = ZipString::new_with_alternative("\u{e9}", vec![0x82]);
    let mut output = Output::new();
    output.write_stored(ZipEntryBuilder::new(name, Compression::Stored), b"").unwrap();
    let bytes = output.close();
    // The header holds the alternative and does not declare UTF-8.
    assert_eq!(u16_at(&bytes, 6) & 0x800, 0);
    assert_eq!(bytes[30], 0x82);

    let (entry, _) = lfh(&bytes, 0).unwrap();
    let entry = entry.unwrap();
    assert_eq!(entry.filename().as_str().unwrap(), "\u{e9}");
    assert_eq!(entry.filename().alternative(), Some(&[0x82u8][..]));
    match &entry.extra_fields()[0] {
        ExtraField::InfoZipUnicodePath(InfoZipUnicodePathExtraField::V1 { crc32, unicode }) => {
            assert_eq!(*crc32, crc32fast::hash(&[0x82]));
            assert_eq!(unicode, "\u{e9}".as_bytes());
        }
        field => panic!("expected a Unicode path, got {field:?}"),
    }
    // The name in the header is not the name of the entry, so that its data is not found.
    let reader = read_file(&bytes).unwrap();
    let r = reader.entries()[0].seek_to_data_offset(&bytes);
    assert!(matches!(r, Err(ZipError::LocalFileHeaderNameMismatch)));
}

#[test]
fn unicode_fields_are_updated_in_place() {
    let own = vec![
        ExtraField::InfoZipUnicodeComment(InfoZipUnicodeCommentExtraField::V1 { crc32: 1, unicode: vec![b'x'] }),
        ExtraField::InfoZipUnicodePath(InfoZipUnicodePathExtraField::Unknown { version: 2, data: vec![7] }),
    ];
    let comment = ZipString::new_with_alternative("\u{e9}", vec![0x82]);
    let mut output = Output::new();
    output.write_stored(entry_named("a").comment(comment).extra_fields(own), b"").unwrap();
    let entry = &output.writer.cd_entries()[0].entry;
    assert_eq!(entry.extra_fields().len(), 2);
    match &entry.extra_fields()[0] {
        ExtraField::InfoZipUnicodeComment(InfoZipUnicodeCommentExtraField::V1 { crc32, unicode }) => {
            assert_eq!(*crc32, crc32fast::hash(&[0x82]));
            assert_eq!(unicode, "\u{e9}".as_bytes());
        }
        field => panic!("expected a Unicode comment, got {field:?}"),
    }
    // A field of an unknown version is left alone.
    assert!(matches!(
        &entry.extra_fields()[1],
        ExtraField::InfoZipUnicodePath(InfoZipUnicodePathExtraField::Unknown { version: 2, .. })
    ));
    let reader = read_file(&output.close()).unwrap();
    assert_eq!(reader.entries()[0].comment().as_str().unwrap(), "\u{e9}");
    assert_eq!(reader.entries()[0].comment().alternative(), Some(&[0x82u8][..]));
}

#[test]
fn archives_read_as_they_were_written() {
    let mut output = Output::new();
    output.writer.comment(b"of the archive".to_vec());
    output.write_stored(entry_named("first.txt"), b"first").unwrap();
    output.write_stored(entry_named("dir/"), b"").unwrap();
    let raw = ZipString::new(vec![0xff, 0x41], StringEncoding::Raw);
    let field = ExtraField::Unknown(UnknownExtraField { header_id: 0xf00d, content: vec![1, 2, 3] });
    let entry = ZipEntryBuilder::new(raw, Compression::Stored)
        .extra_fields(vec![field])
        .comment(ZipString::from_text("of the entry"));
    output.write_stored(entry, b"third").unwrap();
    let bytes = output.close();

    let reader = read_file(&bytes).unwrap();
    assert!(!reader.zip64());
    assert_eq!(reader.comment().as_str().unwrap(), "of the archive");
    assert_eq!(reader.entries().len(), 3);
    let [first, second, third] = reader.entries() else { panic!("expected three entries") };
    assert_eq!(first.filename().as_str().unwrap(), "first.txt");
    assert_eq!(first.crc32(), crc32fast::hash(b"first"));
    assert!(!first.dir().unwrap());
    assert_eq!(first.header_offset(), 0);
    assert_eq!(first.header_size(), 39);
    assert_eq!(second.filename().as_str().unwrap(), "dir/");
    assert!(second.dir().unwrap());
    assert_eq!(u16_at(&bytes, second.header_offset() as usize + 4), 20);
    assert_eq!(third.filename().as_bytes(), &[0xff, 0x41]);
    assert!(matches!(third.dir(), Err(ZipError::StringNotUtf8)));
    assert_eq!(third.comment().as_str().unwrap(), "of the entry");
    assert!(matches!(&third.extra_fields()[0], ExtraField::Unknown(unknown) if unknown.content == [1, 2, 3]));
    for (entry, data) in [(first, &b"first"[..]), (second, b""), (third, b"third")] {
        let header = entry.header_offset() as usize;
        let at = entry.seek_to_data_offset(&bytes[header..]).unwrap() as usize;
        assert_eq!(&bytes[at..at + entry.compressed_size() as usize], data);
        assert_eq!(entry.uncompressed_size(), data.len() as u64);
        assert_eq!(entry.file_offset(), entry.header_offset());
    }
}

#[test]
fn stream_of_local_headers_reads_back() {
    let mut output = Output::new();
    output.write_stored(entry_named("file").size(1 << 32, 1 << 32), b"data").unwrap();
    let bytes = output.close();
    let (entry, length) = lfh(&bytes, 0).unwrap();
    let entry = entry.unwrap();
    assert_eq!(entry.uncompressed_size(), 4);
    assert_eq!(entry.compressed_size(), 4);
    assert_eq!(entry.crc32(), crc32fast::hash(b"data"));
    assert_eq!(length, 30 + 4 + 20);
    assert_eq!(&bytes[length..length + 4], b"data");
}
