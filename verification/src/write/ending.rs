//! What comes behind the entries of an archive: the central directory and the end records.

use vstd::prelude::*;

use crate::bytes::{le32_bytes, push_bytes, push_u32};
use crate::error::{Zip64ErrorCase, ZipError};
use crate::format::consts::{CDH_SIGNATURE, EOCDR_SIGNATURE, NON_ZIP64_MAX_NUM_FILES, NON_ZIP64_MAX_SIZE};
use crate::format::consts::{ZIP64_EOCDL_SIGNATURE, ZIP64_EOCDR_SIGNATURE};
use crate::format::end_record::{EndOfCentralDirectoryHeader, Zip64EndOfCentralDirectoryLocator};
use crate::format::end_record::Zip64EndOfCentralDirectoryRecord;
use crate::format::extra_field::{as_bytes, fields_bytes};
use crate::format::version::as_made_by;
use crate::write::archive::{central_directory_size_field, written_views, CentralDirectoryEntry};
use crate::write::archive::{CentralDirectoryEntryView, ZipFileWriter, ZipFileWriterView};
use crate::write::entry_seekable::{needs_zip64, ZIP64_VERSION_NEEDED};

verus! {

impl CentralDirectoryEntryView {
    /// The entry as it stands in the central directory.
    pub open spec fn to_bytes(self) -> Seq<u8> {
        le32_bytes(CDH_SIGNATURE) + self.header.to_bytes() + self.entry.filename.basic() + fields_bytes(
            self.entry.extra_fields,
        ) + self.entry.comment.basic()
    }
}

/// The entries of a central directory, one after the other.
pub open spec fn directory_bytes(entries: Seq<CentralDirectoryEntryView>) -> Seq<u8>
    decreases entries.len(),
{
    if entries.len() == 0 {
        Seq::empty()
    } else {
        directory_bytes(entries.drop_last()) + entries.last().to_bytes()
    }
}

/// A size or an offset as the end of central directory record tells it.
pub open spec fn legacy_size(x: u64) -> u32 {
    if needs_zip64(x) {
        NON_ZIP64_MAX_SIZE
    } else {
        x as u32
    }
}

/// A count of entries as the end of central directory record tells it.
pub open spec fn legacy_count(count: nat) -> u16 {
    if count > NON_ZIP64_MAX_NUM_FILES {
        NON_ZIP64_MAX_NUM_FILES
    } else {
        count as u16
    }
}

impl ZipFileWriterView {
    /// The size of the central directory.
    pub open spec fn directory_size(self) -> u64 {
        directory_bytes(self.cd_entries).len() as u64
    }

    /// Whether the archive, with its central directory at `directory_offset`, has ZIP64 end records.
    pub open spec fn ends_in_zip64(self, directory_offset: u64) -> bool {
        self.is_zip64 || needs_zip64(self.directory_size()) || needs_zip64(directory_offset)
    }

    /// What keeps the archive from being closed, if anything.
    pub open spec fn ending_error(self, directory_offset: u64) -> Option<ZipError> {
        if self.poisoned {
            Some(ZipError::WriterPoisoned)
        } else if self.comment.len() > 0xffff {
            Some(ZipError::CommentTooLarge)
        } else if self.force_no_zip64 && (needs_zip64(self.directory_size()) || needs_zip64(directory_offset)) {
            Some(ZipError::Zip64Needed(Zip64ErrorCase::LargeFile))
        } else {
            None
        }
    }

    /// The end of central directory record.
    pub open spec fn end_record(self, directory_offset: u64) -> EndOfCentralDirectoryHeader {
        EndOfCentralDirectoryHeader {
            disk_num: 0,
            start_cent_dir_disk: 0,
            num_of_entries_disk: legacy_count(self.cd_entries.len()),
            num_of_entries: legacy_count(self.cd_entries.len()),
            size_cent_dir: legacy_size(self.directory_size()),
            cent_dir_offset: legacy_size(directory_offset),
            file_comm_length: self.comment.len() as u16,
        }
    }

    /// The ZIP64 end of central directory record.
    pub open spec fn zip64_end_record(self, directory_offset: u64) -> Zip64EndOfCentralDirectoryRecord {
        Zip64EndOfCentralDirectoryRecord {
            size_of_zip64_end_of_cd_record: 44,
            version_made_by: 0x33f,
            version_needed_to_extract: ZIP64_VERSION_NEEDED,
            disk_number: 0,
            disk_number_start_of_cd: 0,
            num_entries_in_directory_on_disk: self.cd_entries.len() as u64,
            num_entries_in_directory: self.cd_entries.len() as u64,
            directory_size: self.directory_size(),
            offset_of_start_of_directory: directory_offset,
        }
    }

    /// The ZIP64 end of central directory locator.
    pub open spec fn zip64_locator(self, directory_offset: u64) -> Zip64EndOfCentralDirectoryLocator {
        Zip64EndOfCentralDirectoryLocator {
            number_of_disk_with_start_of_zip64_end_of_central_directory: 0,
            relative_offset: (directory_offset + self.directory_size()) as u64,
            total_number_of_disks: 1,
        }
    }

    /// The ZIP64 end records, if there are any.
    pub open spec fn zip64_ending(self, directory_offset: u64) -> Seq<u8> {
        if self.ends_in_zip64(directory_offset) {
            (le32_bytes(ZIP64_EOCDR_SIGNATURE) + self.zip64_end_record(directory_offset).to_bytes()) + (le32_bytes(
                ZIP64_EOCDL_SIGNATURE,
            ) + self.zip64_locator(directory_offset).to_bytes())
        } else {
            Seq::empty()
        }
    }

    /// The end of central directory record with its signature, and the comment.
    pub open spec fn legacy_ending(self, directory_offset: u64) -> Seq<u8> {
        le32_bytes(EOCDR_SIGNATURE) + self.end_record(directory_offset).to_bytes() + self.comment
    }

    /// All that comes behind the entries, from `directory_offset` on.
    pub open spec fn ending(self, directory_offset: u64) -> Seq<u8> {
        directory_bytes(self.cd_entries) + self.zip64_ending(directory_offset) + self.legacy_ending(directory_offset)
    }
}

/// Returns the bytes of a central directory.
fn directory(entries: &[CentralDirectoryEntry]) -> (r: Vec<u8>)
    ensures
        r@ == directory_bytes(written_views(entries@)),
{
    let mut out: Vec<u8> = Vec::new();
    let mut i: usize = 0;
    let ghost views = written_views(entries@);
    assert(views.take(0) =~= Seq::empty());
    while i < entries.len()
        invariant
            i <= entries@.len(),
            views == written_views(entries@),
            out@ == directory_bytes(views.take(i as int)),
        decreases entries@.len() - i,
    {
        let entry = &entries[i].entry;
        let ghost before = out@;
        push_u32(&mut out, CDH_SIGNATURE);
        push_bytes(&mut out, entries[i].header.as_slice().as_slice());
        push_bytes(&mut out, entry.filename().basic());
        push_bytes(&mut out, as_bytes(entry.extra_fields()).as_slice());
        push_bytes(&mut out, entry.comment().basic());
        proof {
            let next = views.take(i + 1);
            assert(next.drop_last() =~= views.take(i as int));
            assert(next.last() == entries@[i as int]@);
            lemma_append_entry(
                before,
                le32_bytes(CDH_SIGNATURE),
                next.last().header.to_bytes(),
                entry@.filename.basic(),
                fields_bytes(entry@.extra_fields),
                entry@.comment.basic(),
            );
        }
        i += 1;
    }
    assert(views.take(i as int) =~= views);
    out
}

/// Appends ZIP64 end records, with their signatures.
fn push_zip64_records(
    out: &mut Vec<u8>,
    zip64_eocdr: &Zip64EndOfCentralDirectoryRecord,
    locator: &Zip64EndOfCentralDirectoryLocator,
)
    ensures
        final(out)@ == old(out)@ + ((le32_bytes(ZIP64_EOCDR_SIGNATURE) + zip64_eocdr.to_bytes()) + (le32_bytes(
            ZIP64_EOCDL_SIGNATURE,
        ) + locator.to_bytes())),
{
    let ghost record = zip64_eocdr.to_bytes();
    let ghost place = locator.to_bytes();
    push_u32(out, ZIP64_EOCDR_SIGNATURE);
    push_bytes(out, zip64_eocdr.as_bytes().as_slice());
    push_u32(out, ZIP64_EOCDL_SIGNATURE);
    push_bytes(out, locator.as_bytes().as_slice());
    proof {
        lemma_regroup(old(out)@, le32_bytes(ZIP64_EOCDR_SIGNATURE), record, le32_bytes(ZIP64_EOCDL_SIGNATURE), place);
    }
}

/// Appends an end of central directory record, with its signature and the comment.
fn push_end_record(out: &mut Vec<u8>, eocdr: &EndOfCentralDirectoryHeader, comment: &[u8])
    ensures
        final(out)@ == old(out)@ + (le32_bytes(EOCDR_SIGNATURE) + eocdr.to_bytes() + comment@),
{
    let ghost record = eocdr.to_bytes();
    push_u32(out, EOCDR_SIGNATURE);
    push_bytes(out, eocdr.as_slice().as_slice());
    push_bytes(out, comment);
    proof {
        lemma_regroup(old(out)@, le32_bytes(EOCDR_SIGNATURE), record, comment@, Seq::empty());
        assert(old(out)@ + le32_bytes(EOCDR_SIGNATURE) + record + comment@ + Seq::<u8>::empty() =~= out@);
        assert(le32_bytes(EOCDR_SIGNATURE) + record + (comment@ + Seq::<u8>::empty()) =~= le32_bytes(EOCDR_SIGNATURE)
            + record + comment@);
    }
}

proof fn lemma_append_entry(a: Seq<u8>, b: Seq<u8>, c: Seq<u8>, d: Seq<u8>, e: Seq<u8>, f: Seq<u8>)
    ensures
        a + b + c + d + e + f == a + (b + c + d + e + f),
{
    assert(a + b + c + d + e + f =~= a + (b + c + d + e + f));
}

proof fn lemma_regroup(a: Seq<u8>, b: Seq<u8>, c: Seq<u8>, d: Seq<u8>, e: Seq<u8>)
    ensures
        a + b + c + d + e == a + ((b + c) + (d + e)),
{
    assert(a + b + c + d + e =~= a + ((b + c) + (d + e)));
}

impl ZipFileWriter {
    /// Consumes this archive, whose entries end at `directory_offset`, and returns what is to be written from there on:
    /// the central directory and the end records.
    pub fn close(self, directory_offset: u64) -> (r: Result<Vec<u8>, ZipError>)
        requires
            directory_offset + directory_bytes(self@.cd_entries).len() <= u64::MAX,
        ensures
            match self@.ending_error(directory_offset) {
                Some(e) => r == Err::<Vec<u8>, ZipError>(e),
                None => r is Ok && r->Ok_0@ == self@.ending(directory_offset),
            },
    {
        if self.poisoned {
            return Err(ZipError::WriterPoisoned);
        }
        if self.comment.len() > 0xffff {
            return Err(ZipError::CommentTooLarge);
        }
        let mut is_zip64: bool = self.is_zip64;
        let mut out: Vec<u8> = directory(self.cd_entries.as_slice());
        let directory_size: u64 = out.len() as u64;
        let size_cent_dir: u32 = central_directory_size_field(directory_size, self.force_no_zip64, &mut is_zip64)?;
        let cent_dir_offset: u32 = central_directory_size_field(directory_offset, self.force_no_zip64, &mut is_zip64)?;
        let count: usize = self.cd_entries.len();
        let legacy: u16 = if count > NON_ZIP64_MAX_NUM_FILES as usize { NON_ZIP64_MAX_NUM_FILES } else { count as u16 };
        if is_zip64 {
            let zip64_eocdr = Zip64EndOfCentralDirectoryRecord {
                size_of_zip64_end_of_cd_record: 44,
                version_made_by: as_made_by(),
                version_needed_to_extract: ZIP64_VERSION_NEEDED,
                disk_number: 0,
                disk_number_start_of_cd: 0,
                num_entries_in_directory_on_disk: count as u64,
                num_entries_in_directory: count as u64,
                directory_size,
                offset_of_start_of_directory: directory_offset,
            };
            let locator = Zip64EndOfCentralDirectoryLocator {
                number_of_disk_with_start_of_zip64_end_of_central_directory: 0,
                relative_offset: directory_offset + directory_size,
                total_number_of_disks: 1,
            };
            push_zip64_records(&mut out, &zip64_eocdr, &locator);
        }
        assert(out@ =~= directory_bytes(self@.cd_entries) + self@.zip64_ending(directory_offset));
        let eocdr = EndOfCentralDirectoryHeader {
            disk_num: 0,
            start_cent_dir_disk: 0,
            num_of_entries_disk: legacy,
            num_of_entries: legacy,
            size_cent_dir,
            cent_dir_offset,
            file_comm_length: self.comment.len() as u16,
        };
        push_end_record(&mut out, &eocdr, self.comment.as_slice());
        Ok(out)
    }
}

} // verus!
