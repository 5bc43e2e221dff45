//! Whole archives.
//!
//! An archive is read by a [`FileReader`], which asks for parts of the archive and is handed their bytes. It does no
//! input of its own, so that it serves any source; [`file`] serves it from memory.

use vstd::prelude::*;
use vstd::slice::slice_subrange;

use crate::bytes::{copy_range, le32, read_u32};
use crate::entry::{StoredZipEntry, StoredZipEntryView};
use crate::error::{need, short_read, ZipError};
use crate::format::consts::EOCDR_SIGNATURE;
use crate::format::end_record::{CombinedCentralDirectoryRecord, EndOfCentralDirectoryHeader};
use crate::format::end_record::{Zip64EndOfCentralDirectoryLocator, Zip64EndOfCentralDirectoryRecord};
use crate::read::boundary::{assign_entry_data_boundaries, with_boundaries};
use crate::read::directory::{binding_error, cd, directory_of, entry_views, range_error};
use crate::read::directory::{validate_central_directory_binding, validate_central_directory_range};
use crate::read::directory::{validate_zip64_end_record_binding, validate_zip64_entry_count};
use crate::string::{StringEncoding, ZipString, ZipStringView};

verus! {

/// The greatest distance of an end of central directory record from the end of an archive: the record itself, and the
/// longest comment.
pub const MAX_END_RECORD_DISTANCE: usize = 65557;

/// What a [`ZipFile`] stands for.
#[verifier::ext_equal]
pub struct ZipFileView {
    pub entries: Seq<StoredZipEntryView>,
    pub comment: ZipStringView,
    pub zip64: bool,
}

/// An immutable store of data about a ZIP file.
pub struct ZipFile {
    pub(crate) entries: Vec<StoredZipEntry>,
    pub(crate) comment: ZipString,
    pub(crate) zip64: bool,
}

impl View for ZipFile {
    type V = ZipFileView;

    open(crate) spec fn view(&self) -> ZipFileView {
        ZipFileView { entries: entry_views(self.entries@), comment: self.comment@, zip64: self.zip64 }
    }
}

impl ZipFile {
    /// Returns the entries of the archive.
    pub fn entries(&self) -> (r: &[StoredZipEntry])
        ensures
            entry_views(r@) == self@.entries,
    {
        self.entries.as_slice()
    }

    /// Returns the comment of the archive.
    pub fn comment(&self) -> (r: &ZipString)
        ensures
            r@ == self@.comment,
    {
        &self.comment
    }

    /// Returns whether the archive is a ZIP64 archive.
    pub fn zip64(&self) -> (r: bool)
        ensures
            r == self@.zip64,
    {
        self.zip64
    }
}

/// The last position, from `low` to `high`, at which an end of central directory record's signature stands.
pub open spec fn last_end_record(data: Seq<u8>, low: int, high: int) -> Option<int>
    decreases high - low + 1,
{
    if high < low {
        None
    } else if le32(data, high) == EOCDR_SIGNATURE {
        Some(high)
    } else {
        last_end_record(data, low, high - 1)
    }
}

/// The offset of an archive's end of central directory record, behind its signature, where the archive has the given
/// length and `tail` is the end of it: the last one that is whole and near enough to the end.
pub open spec fn eocdr_of(tail: Seq<u8>, length: u64) -> Result<u64, ZipError> {
    let low = if tail.len() <= MAX_END_RECORD_DISTANCE { 0 } else { tail.len() - MAX_END_RECORD_DISTANCE };
    match last_end_record(tail, low, tail.len() - 22) {
        Some(i) => Ok((length - tail.len() + i + 4) as u64),
        None => Err(ZipError::UnableToLocateEOCDR),
    }
}

/// Locates the end of central directory record of an archive that has the given length and ends with `tail`. The offset
/// excludes the record's signature.
pub fn eocdr(tail: &[u8], length: u64) -> (r: Result<u64, ZipError>)
    requires
        tail@.len() <= length,
    ensures
        r == eocdr_of(tail@, length),
{
    if tail.len() < 22 {
        return Err(ZipError::UnableToLocateEOCDR);
    }
    let low: usize = if tail.len() <= MAX_END_RECORD_DISTANCE { 0 } else { tail.len() - MAX_END_RECORD_DISTANCE };
    let mut end: usize = tail.len() - 21;
    while low < end
        invariant
            low <= end,
            end + 21 <= tail.len(),
            tail@.len() <= length,
            low == (if tail@.len() <= MAX_END_RECORD_DISTANCE { 0 } else { tail@.len() - MAX_END_RECORD_DISTANCE }),
            last_end_record(tail@, low as int, tail@.len() - 22) == last_end_record(tail@, low as int, end - 1),
        decreases end,
    {
        end -= 1;
        if read_u32(tail, end) == EOCDR_SIGNATURE {
            return Ok(length - tail.len() as u64 + end as u64 + 4);
        }
    }
    Err(ZipError::UnableToLocateEOCDR)
}

/// The bytes of `data` from `offset` on, `length` of them, or as many as there are.
pub open spec fn window(data: Seq<u8>, offset: u64, length: u64) -> Seq<u8> {
    if offset >= data.len() {
        Seq::empty()
    } else if length >= data.len() - offset {
        data.skip(offset as int)
    } else {
        data.subrange(offset as int, offset + length)
    }
}

/// Returns the bytes of `data` from `offset` on, `length` of them, or as many as there are.
fn read_at(data: &[u8], offset: u64, length: u64) -> (r: &[u8])
    ensures
        r@ == window(data@, offset, length),
{
    if offset >= data.len() as u64 {
        let r = slice_subrange(data, data.len(), data.len());
        assert(r@ =~= Seq::empty());
        return r;
    }
    let start: usize = offset as usize;
    if length >= (data.len() - start) as u64 {
        let r = slice_subrange(data, start, data.len());
        assert(r@ =~= data@.skip(start as int));
        return r;
    }
    slice_subrange(data, start, start + length as usize)
}

/// What a [`FileReader`] stands for.
pub enum FileReaderView {
    EndRecord { eocdr_offset: u64 },
    Locator { eocdr_offset: u64, eocdr: EndOfCentralDirectoryHeader, comment: ZipStringView },
    Zip64EndRecord {
        eocdr: EndOfCentralDirectoryHeader,
        comment: ZipStringView,
        locator_offset: u64,
        zip64_eocdr_offset: u64,
    },
    Directory { record: CombinedCentralDirectoryRecord, comment: ZipStringView, zip64: bool, boundary: u64 },
}

/// What a [`FileStep`] stands for.
pub enum FileStepView {
    Continue(FileReaderView),
    Done(ZipFileView),
}

/// How far the reading of an archive has come.
pub enum FileReader {
    /// The end of central directory record and the archive's comment come next.
    EndRecord { eocdr_offset: u64 },
    /// The place comes next where a ZIP64 end of central directory locator may stand.
    Locator { eocdr_offset: u64, eocdr: EndOfCentralDirectoryHeader, comment: ZipString },
    /// The ZIP64 end of central directory record comes next.
    Zip64EndRecord {
        eocdr: EndOfCentralDirectoryHeader,
        comment: ZipString,
        locator_offset: u64,
        zip64_eocdr_offset: u64,
    },
    /// The central directory comes next.
    Directory { record: CombinedCentralDirectoryRecord, comment: ZipString, zip64: bool, boundary: u64 },
}

/// What comes of handing bytes to a [`FileReader`].
pub enum FileStep {
    /// Another part of the archive is asked for.
    Continue(FileReader),
    /// The archive has been read.
    Done(ZipFile),
}

impl View for FileReader {
    type V = FileReaderView;

    open spec fn view(&self) -> FileReaderView {
        match *self {
            FileReader::EndRecord { eocdr_offset } => FileReaderView::EndRecord { eocdr_offset },
            FileReader::Locator { eocdr_offset, eocdr, comment } => FileReaderView::Locator {
                eocdr_offset,
                eocdr,
                comment: comment@,
            },
            FileReader::Zip64EndRecord { eocdr, comment, locator_offset, zip64_eocdr_offset } =>
                FileReaderView::Zip64EndRecord { eocdr, comment: comment@, locator_offset, zip64_eocdr_offset },
            FileReader::Directory { record, comment, zip64, boundary } => FileReaderView::Directory {
                record,
                comment: comment@,
                zip64,
                boundary,
            },
        }
    }
}

impl View for FileStep {
    type V = FileStepView;

    open spec fn view(&self) -> FileStepView {
        match *self {
            FileStep::Continue(reader) => FileStepView::Continue(reader@),
            FileStep::Done(file) => FileStepView::Done(file@),
        }
    }
}

/// How many bytes before an end of central directory record, behind its signature, a locator stands.
pub const LOCATOR_DISTANCE: u64 = 24;

/// The offset of an end of central directory record's signature.
pub open spec fn record_offset(eocdr_offset: u64) -> u64 {
    if eocdr_offset < 4 {
        0
    } else {
        (eocdr_offset - 4) as u64
    }
}

/// What follows once the end records have been read: the central directory, if its place is sound and the archive is not
/// split.
pub open spec fn approach_directory(
    record: CombinedCentralDirectoryRecord,
    comment: ZipStringView,
    zip64: bool,
    boundary: u64,
) -> Result<FileStepView, ZipError> {
    if range_error(record, boundary) is Some {
        Err(range_error(record, boundary)->Some_0)
    } else if record.disk_number != record.disk_number_start_of_cd || record.num_entries_in_directory
        != record.num_entries_in_directory_on_disk {
        Err(ZipError::FeatureNotSupported("Spanned/split files"))
    } else {
        Ok(FileStepView::Continue(FileReaderView::Directory { record, comment, zip64, boundary }))
    }
}

/// What follows once it is known that the archive is not a ZIP64 archive.
pub open spec fn approach_legacy(
    eocdr_offset: u64,
    eocdr: EndOfCentralDirectoryHeader,
    comment: ZipStringView,
) -> Result<FileStepView, ZipError> {
    match CombinedCentralDirectoryRecord::of_legacy(eocdr) {
        Err(e) => Err(e),
        Ok(record) => approach_directory(record, comment, false, record_offset(eocdr_offset)),
    }
}

/// What is wrong with a ZIP64 end record at `offset`, whose locator stands at `locator_offset`, if anything.
pub open spec fn zip64_record_error(
    record: Zip64EndOfCentralDirectoryRecord,
    offset: u64,
    locator_offset: u64,
) -> Option<ZipError> {
    let expected = offset + 12 + record.size_of_zip64_end_of_cd_record;
    let minimum_end = record.num_entries_in_directory * 46 + record.offset_of_start_of_directory;
    if expected > u64::MAX {
        Some(ZipError::InvalidZip64EndOfCentralDirectoryLocatorOffset(u64::MAX, locator_offset))
    } else if expected != locator_offset {
        Some(ZipError::InvalidZip64EndOfCentralDirectoryLocatorOffset(expected as u64, locator_offset))
    } else if offset < minimum_end && offset < u64::MAX {
        Some(ZipError::InvalidCentralDirectoryEntryCount { entries: record.num_entries_in_directory })
    } else {
        None
    }
}

impl FileReaderView {
    /// The part of the archive that is asked for (offset, length). Where the archive ends earlier, what is there will do.
    pub open spec fn wants(self) -> (u64, u64) {
        match self {
            FileReaderView::EndRecord { eocdr_offset } => (eocdr_offset, 65553),
            FileReaderView::Locator { eocdr_offset, eocdr, comment } => ((eocdr_offset - LOCATOR_DISTANCE) as u64, 20),
            FileReaderView::Zip64EndRecord { eocdr, comment, locator_offset, zip64_eocdr_offset } => (
                zip64_eocdr_offset,
                56,
            ),
            FileReaderView::Directory { record, comment, zip64, boundary } => (
                record.offset_of_start_of_directory,
                record.directory_size,
            ),
        }
    }

    /// A locator can only stand before a record that is far enough from the beginning.
    pub open spec fn wf(self) -> bool {
        self matches FileReaderView::Locator { eocdr_offset, eocdr, comment } ==> eocdr_offset >= LOCATOR_DISTANCE
    }

    /// What comes of handing over the bytes asked for.
    pub open spec fn step(self, bytes: Seq<u8>) -> Result<FileStepView, ZipError> {
        match self {
            FileReaderView::EndRecord { eocdr_offset } => {
                let eocdr = EndOfCentralDirectoryHeader::at(bytes, 0);
                let end = 18 + eocdr.file_comm_length as nat;
                if bytes.len() < 18 {
                    Err(short_read(bytes.len(), 18))
                } else if bytes.len() < end {
                    Err(short_read(bytes.len(), end))
                } else {
                    let comment = ZipStringView::decoded(bytes.subrange(18, end as int), StringEncoding::Utf8);
                    if eocdr_offset < LOCATOR_DISTANCE {
                        approach_legacy(eocdr_offset, eocdr, comment)
                    } else {
                        Ok(FileStepView::Continue(FileReaderView::Locator { eocdr_offset, eocdr, comment }))
                    }
                }
            },
            FileReaderView::Locator { eocdr_offset, eocdr, comment } => match Zip64EndOfCentralDirectoryLocator::read(
                bytes,
            ) {
                Err(e) => Err(e),
                Ok(None) => approach_legacy(eocdr_offset, eocdr, comment),
                Ok(Some(locator)) => Ok(
                    FileStepView::Continue(
                        FileReaderView::Zip64EndRecord {
                            eocdr,
                            comment,
                            locator_offset: (eocdr_offset - LOCATOR_DISTANCE) as u64,
                            zip64_eocdr_offset: locator.relative_offset,
                        },
                    ),
                ),
            },
            FileReaderView::Zip64EndRecord { eocdr, comment, locator_offset, zip64_eocdr_offset } =>
                match Zip64EndOfCentralDirectoryRecord::read(bytes) {
                    Err(e) => Err(e),
                    Ok(zip64_eocdr) => match zip64_record_error(zip64_eocdr, zip64_eocdr_offset, locator_offset) {
                        Some(e) => Err(e),
                        None => match CombinedCentralDirectoryRecord::of_both(eocdr, zip64_eocdr) {
                            Err(e) => Err(e),
                            Ok(record) => approach_directory(record, comment, true, zip64_eocdr_offset),
                        },
                    },
                },
            FileReaderView::Directory { record, comment, zip64, boundary } => match directory_of(
                bytes,
                record.num_entries_in_directory,
                record.offset_of_start_of_directory,
                record.directory_size,
            ) {
                Err(e) => Err(e),
                Ok(entries) => match binding_error(record, boundary) {
                    Some(e) => Err(e),
                    None => Ok(
                        FileStepView::Done(
                            ZipFileView {
                                entries: with_boundaries(entries, record.offset_of_start_of_directory),
                                comment,
                                zip64,
                            },
                        ),
                    ),
                },
            },
        }
    }

    /// How many more steps there can be.
    pub open spec fn rank(self) -> nat {
        match self {
            FileReaderView::EndRecord { eocdr_offset } => 4,
            FileReaderView::Locator { eocdr_offset, eocdr, comment } => 3,
            FileReaderView::Zip64EndRecord { eocdr, comment, locator_offset, zip64_eocdr_offset } => 2,
            FileReaderView::Directory { record, comment, zip64, boundary } => 1,
        }
    }

    /// What comes of handing over all the parts of `data` that are asked for, one after the other.
    pub open spec fn outcome(self, data: Seq<u8>) -> Result<ZipFileView, ZipError>
        decreases self.rank(),
    {
        match self.step(window(data, self.wants().0, self.wants().1)) {
            Err(e) => Err(e),
            Ok(FileStepView::Done(file)) => Ok(file),
            Ok(FileStepView::Continue(next)) => next.outcome(data),
        }
    }
}

/// What the archive in `data` holds.
pub open spec fn archive_of(data: Seq<u8>) -> Result<ZipFileView, ZipError> {
    match eocdr_of(data, data.len() as u64) {
        Err(e) => Err(e),
        Ok(eocdr_offset) => (FileReaderView::EndRecord { eocdr_offset }).outcome(data),
    }
}

/// Goes on to the central directory.
fn to_directory(record: CombinedCentralDirectoryRecord, comment: ZipString, zip64: bool, boundary: u64) -> (r: Result<
    FileStep,
    ZipError,
>)
    ensures
        match approach_directory(record, comment@, zip64, boundary) {
            Ok(step) => r is Ok && r->Ok_0@ == step,
            Err(e) => r == Err::<FileStep, ZipError>(e),
        },
{
    validate_central_directory_range(&record, boundary)?;
    // Outdated feature so unlikely to ever be supported.
    if record.disk_number != record.disk_number_start_of_cd || record.num_entries_in_directory
        != record.num_entries_in_directory_on_disk {
        return Err(ZipError::FeatureNotSupported("Spanned/split files"));
    }
    Ok(FileStep::Continue(FileReader::Directory { record, comment, zip64, boundary }))
}

/// Goes on without a ZIP64 end record.
fn to_legacy(eocdr_offset: u64, eocdr: EndOfCentralDirectoryHeader, comment: ZipString) -> (r: Result<
    FileStep,
    ZipError,
>)
    ensures
        match approach_legacy(eocdr_offset, eocdr, comment@) {
            Ok(step) => r is Ok && r->Ok_0@ == step,
            Err(e) => r == Err::<FileStep, ZipError>(e),
        },
{
    let record = CombinedCentralDirectoryRecord::try_from_legacy(&eocdr)?;
    to_directory(record, comment, false, eocdr_offset.saturating_sub(4))
}

impl FileReader {
    /// Starts to read an archive whose end of central directory record, behind its signature, stands at `eocdr_offset`.
    pub fn new(eocdr_offset: u64) -> (r: FileReader)
        ensures
            r@ == (FileReaderView::EndRecord { eocdr_offset }),
            r@.wf(),
    {
        FileReader::EndRecord { eocdr_offset }
    }

    /// Returns the part of the archive that is asked for (offset, length). Where the archive ends earlier, what is there
    /// will do.
    pub fn request(&self) -> (r: (u64, u64))
        requires
            self@.wf(),
        ensures
            r == self@.wants(),
    {
        match self {
            FileReader::EndRecord { eocdr_offset } => (*eocdr_offset, 65553),
            FileReader::Locator { eocdr_offset, .. } => (*eocdr_offset - LOCATOR_DISTANCE, 20),
            FileReader::Zip64EndRecord { zip64_eocdr_offset, .. } => (*zip64_eocdr_offset, 56),
            FileReader::Directory { record, .. } => (record.offset_of_start_of_directory, record.directory_size),
        }
    }

    /// Takes the bytes asked for.
    pub fn supply(self, bytes: &[u8]) -> (r: Result<FileStep, ZipError>)
        requires
            self@.wf(),
        ensures
            match self@.step(bytes@) {
                Ok(step) => r is Ok && r->Ok_0@ == step,
                Err(e) => r == Err::<FileStep, ZipError>(e),
            },
            r matches Ok(FileStep::Continue(next)) ==> next@.wf() && next@.rank() < self@.rank(),
    {
        match self {
            FileReader::EndRecord { eocdr_offset } => {
                need(bytes, 18)?;
                let eocdr = EndOfCentralDirectoryHeader::from_bytes(bytes, 0);
                let end: usize = 18 + eocdr.file_comm_length as usize;
                need(bytes, end)?;
                let comment = ZipString::new(copy_range(bytes, 18, end), StringEncoding::Utf8);
                if eocdr_offset < LOCATOR_DISTANCE {
                    return to_legacy(eocdr_offset, eocdr, comment);
                }
                Ok(FileStep::Continue(FileReader::Locator { eocdr_offset, eocdr, comment }))
            },
            FileReader::Locator { eocdr_offset, eocdr, comment } => {
                match Zip64EndOfCentralDirectoryLocator::try_from_input(bytes)? {
                    None => to_legacy(eocdr_offset, eocdr, comment),
                    Some(locator) => Ok(
                        FileStep::Continue(
                            FileReader::Zip64EndRecord {
                                eocdr,
                                comment,
                                locator_offset: eocdr_offset - LOCATOR_DISTANCE,
                                zip64_eocdr_offset: locator.relative_offset,
                            },
                        ),
                    ),
                }
            },
            FileReader::Zip64EndRecord { eocdr, comment, locator_offset, zip64_eocdr_offset } => {
                let zip64_eocdr = Zip64EndOfCentralDirectoryRecord::from_input(bytes)?;
                validate_zip64_end_record_binding(&zip64_eocdr, zip64_eocdr_offset, locator_offset)?;
                validate_zip64_entry_count(&zip64_eocdr, zip64_eocdr_offset)?;
                let record = CombinedCentralDirectoryRecord::combine(eocdr, zip64_eocdr)?;
                to_directory(record, comment, true, zip64_eocdr_offset)
            },
            FileReader::Directory { record, comment, zip64, boundary } => {
                let mut entries = cd(
                    bytes,
                    record.num_entries_in_directory,
                    record.offset_of_start_of_directory,
                    record.directory_size,
                    zip64,
                )?;
                validate_central_directory_binding(&record, boundary)?;
                assign_entry_data_boundaries(&mut entries, record.offset_of_start_of_directory);
                Ok(FileStep::Done(ZipFile { entries, comment, zip64 }))
            },
        }
    }
}

/// Reads the archive in `data`.
pub fn file(data: &[u8]) -> (r: Result<ZipFile, ZipError>)
    ensures
        match archive_of(data@) {
            Ok(file) => r is Ok && r->Ok_0@ == file,
            Err(e) => r == Err::<ZipFile, ZipError>(e),
        },
{
    let eocdr_offset: u64 = eocdr(data, data.len() as u64)?;
    let mut reader = FileReader::new(eocdr_offset);
    loop
        invariant
            reader@.wf(),
            archive_of(data@) == reader@.outcome(data@),
        decreases reader@.rank(),
    {
        let (offset, length) = reader.request();
        let bytes = read_at(data, offset, length);
        match reader.supply(bytes)? {
            FileStep::Done(file) => {
                return Ok(file);
            },
            FileStep::Continue(next) => {
                reader = next;
            },
        }
    }
}

} // verus!
