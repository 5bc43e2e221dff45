//! The central directory.

use vstd::prelude::*;
use vstd::slice::slice_subrange;

use crate::bytes::{le16, le32, read_u16, read_u32};
use crate::entry::{StoredZipEntry, StoredZipEntryView};
use crate::error::{need, short_read, ZipError};
use crate::format::consts::{CDDS_SIGNATURE, MIN_CENTRAL_DIRECTORY_ENTRY_SIZE};
use crate::format::end_record::{CombinedCentralDirectoryRecord, Zip64EndOfCentralDirectoryRecord};
use crate::read::record::{cd_record, cd_record_of};

verus! {

/// Checks that the entries of which a ZIP64 end record, at the offset `zip64_eocdr_offset`, tells can fit between the
/// start of the central directory and that record.
pub fn validate_zip64_entry_count(
    zip64_eocdr: &Zip64EndOfCentralDirectoryRecord,
    zip64_eocdr_offset: u64,
) -> (r: Result<(), ZipError>)
    ensures
        r == ({
            let minimum_end = zip64_eocdr.num_entries_in_directory * MIN_CENTRAL_DIRECTORY_ENTRY_SIZE
                + zip64_eocdr.offset_of_start_of_directory;
            if zip64_eocdr_offset < minimum_end && zip64_eocdr_offset < u64::MAX {
                Err(
                    ZipError::InvalidCentralDirectoryEntryCount { entries: zip64_eocdr.num_entries_in_directory },
                )
            } else {
                Ok(())
            }
        }),
{
    let minimum_size: u64 = match zip64_eocdr.num_entries_in_directory.checked_mul(MIN_CENTRAL_DIRECTORY_ENTRY_SIZE) {
        Some(size) => size,
        None => u64::MAX,
    };
    let minimum_central_directory_end: u64 = minimum_size.saturating_add(zip64_eocdr.offset_of_start_of_directory);
    if zip64_eocdr_offset < minimum_central_directory_end {
        return Err(ZipError::InvalidCentralDirectoryEntryCount { entries: zip64_eocdr.num_entries_in_directory });
    }
    Ok(())
}

/// Ensures the ZIP64 end record occupies the entire span before its locator.
///
/// The record's size field excludes its signature and the size field itself, so both are added when deriving the
/// locator's expected offset.
pub fn validate_zip64_end_record_binding(
    zip64_eocdr: &Zip64EndOfCentralDirectoryRecord,
    zip64_eocdr_offset: u64,
    zip64_locator_offset: u64,
) -> (r: Result<(), ZipError>)
    ensures
        r == ({
            let expected = zip64_eocdr_offset + 12 + zip64_eocdr.size_of_zip64_end_of_cd_record;
            if expected > u64::MAX {
                Err(ZipError::InvalidZip64EndOfCentralDirectoryLocatorOffset(u64::MAX, zip64_locator_offset))
            } else if expected != zip64_locator_offset {
                Err(
                    ZipError::InvalidZip64EndOfCentralDirectoryLocatorOffset(expected as u64, zip64_locator_offset),
                )
            } else {
                Ok(())
            }
        }),
{
    let size_end: u64 = match zip64_eocdr_offset.checked_add(12) {
        Some(offset) => offset,
        None => return Err(
            ZipError::InvalidZip64EndOfCentralDirectoryLocatorOffset(u64::MAX, zip64_locator_offset),
        ),
    };
    let expected_locator_offset: u64 = match size_end.checked_add(zip64_eocdr.size_of_zip64_end_of_cd_record) {
        Some(offset) => offset,
        None => return Err(
            ZipError::InvalidZip64EndOfCentralDirectoryLocatorOffset(u64::MAX, zip64_locator_offset),
        ),
    };
    if expected_locator_offset != zip64_locator_offset {
        return Err(
            ZipError::InvalidZip64EndOfCentralDirectoryLocatorOffset(expected_locator_offset, zip64_locator_offset),
        );
    }
    Ok(())
}

/// What is wrong with where the central directory ends, if anything: it must end where the end record begins.
pub open spec fn binding_error(eocdr: CombinedCentralDirectoryRecord, boundary: u64) -> Option<ZipError> {
    let end = eocdr.offset_of_start_of_directory + eocdr.directory_size;
    if end > u64::MAX {
        Some(ZipError::InvalidCentralDirectoryBinding { directory_end: u64::MAX, end_record: boundary })
    } else if end != boundary {
        Some(ZipError::InvalidCentralDirectoryBinding { directory_end: end as u64, end_record: boundary })
    } else {
        None
    }
}

/// What is wrong with the range of the central directory, if anything: it must not overlap the end record.
pub open spec fn range_error(eocdr: CombinedCentralDirectoryRecord, boundary: u64) -> Option<ZipError> {
    let start = eocdr.offset_of_start_of_directory;
    let end = start + eocdr.directory_size;
    if end > u64::MAX {
        Some(ZipError::InvalidCentralDirectoryRange { start, end: u64::MAX, boundary })
    } else if end > boundary {
        Some(ZipError::InvalidCentralDirectoryRange { start, end: end as u64, boundary })
    } else {
        None
    }
}

/// Ensures the declared central-directory span ends exactly where the selected end record begins.
///
/// For a ZIP64 archive, `boundary` is the ZIP64 end record; otherwise it is the legacy end record.
pub fn validate_central_directory_binding(eocdr: &CombinedCentralDirectoryRecord, boundary: u64) -> (r: Result<
    (),
    ZipError,
>)
    ensures
        r == (match binding_error(*eocdr, boundary) {
            Some(e) => Err(e),
            None => Ok(()),
        }),
{
    let end: u64 = match eocdr.offset_of_start_of_directory.checked_add(eocdr.directory_size) {
        Some(end) => end,
        None => return Err(
            ZipError::InvalidCentralDirectoryBinding { directory_end: u64::MAX, end_record: boundary },
        ),
    };
    if end != boundary {
        return Err(ZipError::InvalidCentralDirectoryBinding { directory_end: end, end_record: boundary });
    }
    Ok(())
}

/// Ensures the declared central-directory span does not overlap the selected end record.
pub fn validate_central_directory_range(eocdr: &CombinedCentralDirectoryRecord, boundary: u64) -> (r: Result<
    (),
    ZipError,
>)
    ensures
        r == (match range_error(*eocdr, boundary) {
            Some(e) => Err(e),
            None => Ok(()),
        }),
{
    let start: u64 = eocdr.offset_of_start_of_directory;
    let end: u64 = match start.checked_add(eocdr.directory_size) {
        Some(end) => end,
        None => return Err(ZipError::InvalidCentralDirectoryRange { start, end: u64::MAX, boundary }),
    };
    if end > boundary {
        return Err(ZipError::InvalidCentralDirectoryRange { start, end, boundary });
    }
    Ok(())
}

/// How many entries to make room for before reading: none where the claim exceeds the bytes before the directory.
pub open spec fn planned_capacity(num_of_entries: usize, directory_start: u64) -> usize {
    if num_of_entries > directory_start {
        0
    } else {
        num_of_entries
    }
}

/// Whether room for as many entries as planned cannot be had.
pub open spec fn is_oversized(num_of_entries: usize, directory_start: u64) -> bool {
    planned_capacity(num_of_entries, directory_start) * vstd::layout::size_of::<StoredZipEntry>() > isize::MAX
}

/// Returns how many entries to make room for before reading the central directory.
pub fn cd_entry_capacity(num_of_entries: usize, directory_start: u64) -> (r: Result<usize, ZipError>)
    ensures
        r == (if is_oversized(num_of_entries, directory_start) {
            Err(ZipError::FeatureNotSupported("Oversized central directory"))
        } else {
            Ok(planned_capacity(num_of_entries, directory_start))
        }),
{
    let capacity: usize = if num_of_entries as u64 > directory_start { 0 } else { num_of_entries };
    let size: usize = match capacity.checked_mul(core::mem::size_of::<StoredZipEntry>()) {
        Some(size) => size,
        None => usize::MAX,
    };
    if size > isize::MAX as usize {
        return Err(ZipError::FeatureNotSupported("Oversized central directory"));
    }
    Ok(capacity)
}

/// The entries of a central directory whose bytes are `input`, and where they end.
///
/// Before `at` stood the entries `seen`; from there on, `count` more are to come, in `remaining` bytes.
pub open spec fn entries_after(
    input: Seq<u8>,
    at: nat,
    count: nat,
    remaining: u64,
    claimed_entries: u64,
    seen: Seq<StoredZipEntryView>,
) -> Result<(Seq<StoredZipEntryView>, nat), ZipError>
    decreases count,
{
    if count == 0 {
        Ok((seen, at))
    } else {
        match cd_record_of(input.skip(at as int), remaining, claimed_entries) {
            Err(e) => Err(e),
            Ok((entry, length)) => entries_after(
                input,
                at + length,
                (count - 1) as nat,
                (remaining - length) as u64,
                claimed_entries,
                seen.push(entry),
            ),
        }
    }
}

/// Where a central directory ends whose entries end at `at`: there, or behind a digital signature that fills the
/// directory up to `directory_size`.
pub open spec fn signature_end(input: Seq<u8>, at: nat, directory_size: u64) -> Result<nat, ZipError> {
    let misfit = ZipError::InvalidCentralDirectorySize { expected: directory_size, actual: at as u64 };
    let end = at + 6 + le16(input, at as int + 4) as nat;
    if at >= directory_size {
        Ok(at)
    } else if directory_size - at < 6 {
        Err(misfit)
    } else if input.len() < at + 4 {
        Err(short_read(input.len(), at + 4))
    } else if le32(input, at as int) != CDDS_SIGNATURE {
        Err(misfit)
    } else if input.len() < at + 6 {
        Err(short_read(input.len(), at + 6))
    } else if end > u64::MAX {
        Err(ZipError::InvalidCentralDirectorySize { expected: directory_size, actual: u64::MAX })
    } else if end != directory_size {
        Err(ZipError::InvalidCentralDirectorySize { expected: directory_size, actual: end as u64 })
    } else if input.len() < end {
        Err(short_read(input.len(), end))
    } else {
        Ok(end)
    }
}

/// The entries of the central directory that starts at the beginning of `input`.
pub open spec fn directory_of(
    input: Seq<u8>,
    num_of_entries: u64,
    directory_start: u64,
    directory_size: u64,
) -> Result<Seq<StoredZipEntryView>, ZipError> {
    if num_of_entries > usize::MAX {
        Err(ZipError::TargetZip64NotSupported)
    } else if is_oversized(num_of_entries as usize, directory_start) {
        Err(ZipError::FeatureNotSupported("Oversized central directory"))
    } else {
        match entries_after(input, 0, num_of_entries as nat, directory_size, num_of_entries, Seq::empty()) {
            Err(e) => Err(e),
            Ok((entries, at)) => match signature_end(input, at, directory_size) {
                Err(e) => Err(e),
                Ok(end) => if end != directory_size {
                    Err(ZipError::InvalidCentralDirectorySize { expected: directory_size, actual: end as u64 })
                } else {
                    Ok(entries)
                },
            },
        }
    }
}

/// Consumes an optional digital-signature record that exactly fills the unparsed central-directory span, and returns
/// where it ends.
///
/// Stopping at `at` is valid only when the declared entries already consumed the full span. Other trailing bytes,
/// truncated records, and length claims that do not reach `directory_size` are rejected.
pub fn consume_central_directory_digital_signature(input: &[u8], at: usize, directory_size: u64) -> (r: Result<
    usize,
    ZipError,
>)
    requires
        at <= input@.len(),
    ensures
        match signature_end(input@, at as nat, directory_size) {
            Ok(end) => r is Ok && r->Ok_0 == end <= input@.len(),
            Err(e) => r == Err::<usize, ZipError>(e),
        },
{
    let actual: u64 = at as u64;
    if actual >= directory_size {
        return Ok(at);
    }
    if directory_size - actual < 6 {
        return Err(ZipError::InvalidCentralDirectorySize { expected: directory_size, actual });
    }
    let rest = slice_subrange(input, at, input.len());
    need(rest, 4)?;
    if read_u32(rest, 0) != CDDS_SIGNATURE {
        return Err(ZipError::InvalidCentralDirectorySize { expected: directory_size, actual });
    }
    need(rest, 6)?;
    let signature_length: u16 = read_u16(rest, 4);
    let record_end: u64 = match actual.checked_add(6 + signature_length as u64) {
        Some(end) => end,
        None => return Err(
            ZipError::InvalidCentralDirectorySize { expected: directory_size, actual: u64::MAX },
        ),
    };
    if record_end != directory_size {
        return Err(ZipError::InvalidCentralDirectorySize { expected: directory_size, actual: record_end });
    }
    let record_length: usize = 6 + signature_length as usize;
    need(rest, record_length)?;
    Ok(at + record_length)
}

/// Parses exactly the central-directory span declared by the selected end record.
///
/// The bytes of the archive from `directory_start` on are `input`. Once the declared entries have been read, only an
/// optional central-directory digital-signature record may remain.
pub fn cd(
    input: &[u8],
    num_of_entries: u64,
    directory_start: u64,
    directory_size: u64,
    zip64: bool,
) -> (r: Result<Vec<StoredZipEntry>, ZipError>)
    ensures
        match directory_of(input@, num_of_entries, directory_start, directory_size) {
            Ok(entries) => r is Ok && entry_views(r->Ok_0@) == entries,
            Err(e) => r == Err::<Vec<StoredZipEntry>, ZipError>(e),
        },
{
    let claimed_entries: u64 = num_of_entries;
    if num_of_entries > usize::MAX as u64 {
        return Err(ZipError::TargetZip64NotSupported);
    }
    let count: usize = num_of_entries as usize;
    let capacity: usize = cd_entry_capacity(count, directory_start)?;
    let mut entries: Vec<StoredZipEntry> = Vec::with_capacity(capacity);
    let mut remaining_directory_size: u64 = directory_size;
    let mut at: usize = 0;
    let mut i: usize = 0;
    assert(entry_views(entries@) =~= Seq::empty());
    while i < count
        invariant
            i <= count,
            count == num_of_entries,
            claimed_entries == num_of_entries,
            at <= input@.len(),
            !is_oversized(count, directory_start),
            entries_after(input@, 0, count as nat, directory_size, num_of_entries, Seq::empty()) == entries_after(
                input@,
                at as nat,
                (count - i) as nat,
                remaining_directory_size,
                num_of_entries,
                entry_views(entries@),
            ),
        decreases count - i,
    {
        let rest = slice_subrange(input, at, input.len());
        assert(rest@ =~= input@.skip(at as int));
        let (entry, length) = cd_record(rest, zip64, &mut remaining_directory_size, claimed_entries)?;
        let ghost before = entry_views(entries@);
        let ghost view = entry@;
        entries.push(entry);
        assert(entry_views(entries@) =~= before.push(view));
        at = at + length;
        i += 1;
    }
    let end: usize = consume_central_directory_digital_signature(input, at, directory_size)?;
    if end as u64 != directory_size {
        return Err(ZipError::InvalidCentralDirectorySize { expected: directory_size, actual: end as u64 });
    }
    Ok(entries)
}

/// What a sequence of entries stands for.
pub open spec fn entry_views(entries: Seq<StoredZipEntry>) -> Seq<StoredZipEntryView> {
    Seq::new(entries.len(), |i: int| entries[i]@)
}

} // verus!
