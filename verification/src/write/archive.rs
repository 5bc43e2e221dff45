//! The state of an archive that is being written.

use vstd::prelude::*;

use crate::entry::{ZipEntry, ZipEntryView};
use crate::error::{Zip64ErrorCase, ZipError};
use crate::format::consts::{NON_ZIP64_MAX_NUM_FILES, NON_ZIP64_MAX_SIZE};
use crate::format::header::CentralDirectoryRecord;

verus! {

/// What a [`CentralDirectoryEntry`] stands for.
#[verifier::ext_equal]
pub struct CentralDirectoryEntryView {
    pub header: CentralDirectoryRecord,
    pub entry: ZipEntryView,
}

/// An entry that has been written, and its header in the central directory.
pub struct CentralDirectoryEntry {
    pub header: CentralDirectoryRecord,
    pub entry: ZipEntry,
}

impl View for CentralDirectoryEntry {
    type V = CentralDirectoryEntryView;

    open spec fn view(&self) -> CentralDirectoryEntryView {
        CentralDirectoryEntryView { header: self.header, entry: self.entry@ }
    }
}

/// What a sequence of entries stands for.
pub open spec fn written_views(entries: Seq<CentralDirectoryEntry>) -> Seq<CentralDirectoryEntryView> {
    Seq::new(entries.len(), |i: int| entries[i]@)
}

/// What a [`ZipFileWriter`] stands for.
#[verifier::ext_equal]
pub struct ZipFileWriterView {
    /// The entries that have been written, in order.
    pub cd_entries: Seq<CentralDirectoryEntryView>,
    /// Whether the archive needs ZIP64 end records.
    pub is_zip64: bool,
    /// Whether the archive must do without ZIP64.
    pub force_no_zip64: bool,
    /// Whether an entry was begun and has not been completed.
    pub poisoned: bool,
    /// The archive's comment.
    pub comment: Seq<u8>,
}

impl ZipFileWriterView {
    /// An archive with more entries than the legacy format can count needs ZIP64 end records.
    pub open spec fn wf(self) -> bool {
        self.cd_entries.len() > NON_ZIP64_MAX_NUM_FILES ==> self.is_zip64
    }
}

/// An archive that is being written.
pub struct ZipFileWriter {
    pub(crate) cd_entries: Vec<CentralDirectoryEntry>,
    pub(crate) is_zip64: bool,
    pub(crate) force_no_zip64: bool,
    pub(crate) poisoned: bool,
    pub(crate) comment: Vec<u8>,
}

impl View for ZipFileWriter {
    type V = ZipFileWriterView;

    open(crate) spec fn view(&self) -> ZipFileWriterView {
        ZipFileWriterView {
            cd_entries: written_views(self.cd_entries@),
            is_zip64: self.is_zip64,
            force_no_zip64: self.force_no_zip64,
            poisoned: self.poisoned,
            comment: self.comment@,
        }
    }
}

impl ZipFileWriter {
    /// Starts an archive without entries.
    pub fn new() -> (r: ZipFileWriter)
        ensures
            r@ == (ZipFileWriterView {
                cd_entries: Seq::empty(),
                is_zip64: false,
                force_no_zip64: false,
                poisoned: false,
                comment: Seq::empty(),
            }),
            r@.wf(),
    {
        let r = ZipFileWriter {
            cd_entries: Vec::new(),
            is_zip64: false,
            force_no_zip64: false,
            poisoned: false,
            comment: Vec::new(),
        };
        assert(written_views(r.cd_entries@) =~= Seq::empty());
        r
    }

    /// Forces the archive to do without ZIP64. What needs ZIP64 is then an error.
    pub fn force_no_zip64(self) -> (r: ZipFileWriter)
        ensures
            r@ == (ZipFileWriterView { force_no_zip64: true, ..self@ }),
    {
        let mut writer = self;
        writer.force_no_zip64 = true;
        writer
    }

    /// Sets the comment of the archive.
    pub fn comment(&mut self, comment: Vec<u8>)
        ensures
            final(self)@ == (ZipFileWriterView { comment: comment@, ..old(self)@ }),
    {
        self.comment = comment;
    }

    /// Returns the entries that have been written.
    pub fn cd_entries(&self) -> (r: &[CentralDirectoryEntry])
        ensures
            written_views(r@) == self@.cd_entries,
    {
        self.cd_entries.as_slice()
    }

    /// Returns whether the archive needs ZIP64 end records.
    pub fn is_zip64(&self) -> (r: bool)
        ensures
            r == self@.is_zip64,
    {
        self.is_zip64
    }
}

/// Returns how a central directory of this size is declared in the end record. Where the size does not fit there, the
/// archive needs ZIP64.
pub fn central_directory_size_field(size: u64, force_no_zip64: bool, is_zip64: &mut bool) -> (r: Result<u32, ZipError>)
    ensures
        r == (if size < NON_ZIP64_MAX_SIZE {
            Ok(size as u32)
        } else if force_no_zip64 {
            Err(ZipError::Zip64Needed(Zip64ErrorCase::LargeFile))
        } else {
            Ok(NON_ZIP64_MAX_SIZE)
        }),
        *final(is_zip64) == (*old(is_zip64) || (size >= NON_ZIP64_MAX_SIZE && !force_no_zip64)),
{
    if size < NON_ZIP64_MAX_SIZE as u64 {
        return Ok(size as u32);
    }
    if force_no_zip64 {
        return Err(ZipError::Zip64Needed(Zip64ErrorCase::LargeFile));
    }
    *is_zip64 = true;
    Ok(NON_ZIP64_MAX_SIZE)
}

} // verus!
