//! The errors of the library.

use vstd::prelude::*;

verus! {

/// Which limit of the legacy ZIP format an archive would exceed.
#[derive(Debug, Clone, Copy, PartialEq, Eq, Structural)]
pub enum Zip64ErrorCase {
    TooManyFiles,
    LargeFile,
}

impl Zip64ErrorCase {
    /// The case in words, for messages to users.
    pub open spec fn message_spec(self) -> &'static str {
        match self {
            Zip64ErrorCase::TooManyFiles => "More than 65536 files in archive",
            Zip64ErrorCase::LargeFile => "File is larger than 4 GiB",
        }
    }

    /// Returns the case in words, for messages to users.
    pub fn message(&self) -> (text: &'static str)
        ensures
            text@ == self.message_spec()@,
    {
        match self {
            Zip64ErrorCase::TooManyFiles => "More than 65536 files in archive",
            Zip64ErrorCase::LargeFile => "File is larger than 4 GiB",
        }
    }
}

/// A read that ended before all the bytes asked for had come.
#[derive(Debug, Clone, Copy, PartialEq, Eq, Structural)]
pub struct ShortRead {
    /// How many of the bytes asked for were not there.
    pub missing: usize,
}

/// An enum of possible errors and their descriptions.
#[non_exhaustive]
#[allow(inconsistent_fields)]
#[derive(Debug, Clone, Copy)]
pub enum ZipError {
    /// The archive uses a feature that is not supported.
    FeatureNotSupported(&'static str),
    /// The compression method is not supported.
    CompressionNotSupported(u16),
    /// The host attribute compatibility is not supported.
    AttributeCompatibilityNotSupported(u16),
    /// A ZIP64 archive holds more than a 32-bit target can address.
    TargetZip64NotSupported,
    /// ZIP64 is needed, and the writer was told not to use it.
    Zip64Needed(Zip64ErrorCase),
    /// The end of the file has not been reached.
    EOFNotReached,
    /// The extra fields exceed their maximum size.
    ExtraFieldTooLarge,
    /// The comment exceeds its maximum size.
    CommentTooLarge,
    /// The file name exceeds its maximum size.
    FileNameTooLarge,
    /// A central directory reader cannot be used again after a cancelled read.
    CentralDirectoryReaderPoisoned,
    /// A writer cannot be used again after an entry was left unfinished.
    WriterPoisoned,
    /// The bytes are not UTF-8.
    StringNotUtf8,
    /// No end of central directory record was found.
    UnableToLocateEOCDR,
    /// An extra field was said to be this long, but fewer bytes remain.
    InvalidExtraFieldHeader(u16),
    /// The ZIP64 extended information field is incomplete.
    Zip64ExtendedFieldIncomplete,
    /// An extra field with this id occurs twice in a header.
    DuplicateExtraFieldHeader(u16),
    /// The source of the bytes failed.
    UpstreamReadError(ShortRead),
    /// A computed CRC32 value did not match the expected value.
    CRC32CheckError,
    /// The entry index is out of bounds.
    EntryIndexOutOfBounds,
    /// A signature (actual, expected) is not the one expected.
    UnexpectedHeaderError(u32, u32),
    /// The Info-ZIP Unicode Comment field is incomplete.
    InfoZipUnicodeCommentFieldIncomplete,
    /// The Info-ZIP Unicode Path field is incomplete.
    InfoZipUnicodePathFieldIncomplete,
    /// The Info-ZIP Unicode Path field applies to the entry and is not UTF-8.
    InfoZipUnicodePathFieldInvalidUtf8,
    /// A file name contains a NUL byte.
    FileNameContainsNul,
    /// The end of central directory offset did not match the actual offset.
    InvalidEndOfCentralDirectoryOffset(u64, u64),
    /// The central directory entry count exceeds the available central directory range.
    InvalidCentralDirectoryEntryCount { entries: u64 },
    /// The central directory takes up another number of bytes than declared.
    InvalidCentralDirectorySize { expected: u64, actual: u64 },
    /// The central directory overlaps the end record.
    InvalidCentralDirectoryRange { start: u64, end: u64, boundary: u64 },
    /// The central directory does not end where the end record begins.
    InvalidCentralDirectoryBinding { directory_end: u64, end_record: u64 },
    /// The ZIP64 end of central directory locator was not found.
    MissingZip64EndOfCentralDirectoryLocator,
    /// The ZIP64 end of central directory locator offset (expected, actual) did not match.
    InvalidZip64EndOfCentralDirectoryLocatorOffset(u64, u64),
    /// The ZIP64 end of central directory record is too short for its fixed fields.
    InvalidZip64EndOfCentralDirectorySize(u64),
    /// A field of the end of central directory record contradicts its ZIP64 counterpart.
    MismatchedZip64EndOfCentralDirectoryField { field: &'static str, legacy: u64, zip64: u64 },
    /// The ZIP64 extended information field is longer than the header calls for.
    Zip64ExtendedInformationFieldTooLong { expected: usize, actual: usize },
    /// The version needed to extract is too low for the compression method.
    InvalidCompressionVersion { version: u16, required: u16, compression: u16 },
    /// The range of an entry's data does not fit in a file.
    InvalidEntryDataRange,
    /// The range of an entry's data runs into what follows it.
    EntryDataRangeOverlap { start: u64, end: u64, boundary: u64 },
    /// The local file header's name differs from the central directory's.
    LocalFileHeaderNameMismatch,
    /// The local file header's sizes differ from the central directory's.
    LocalFileHeaderSizeMismatch,
    /// The local file header's data descriptor flag differs from the central directory's.
    LocalFileHeaderDataDescriptorMismatch,
}

/// The error of a read that wants its input to reach up to `end`, where only `available` bytes are there.
pub open spec fn short_read(available: nat, end: nat) -> ZipError {
    ZipError::UpstreamReadError(ShortRead { missing: (end - available) as usize })
}

/// Checks that an input reaches up to `end`.
pub(crate) fn need(input: &[u8], end: usize) -> (r: Result<(), ZipError>)
    ensures
        r is Ok <==> end <= input@.len(),
        r matches Err(e) ==> e == short_read(input@.len(), end as nat),
{
    if input.len() < end {
        return Err(ZipError::UpstreamReadError(ShortRead { missing: end - input.len() }));
    }
    Ok(())
}

} // verus!
