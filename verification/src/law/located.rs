//! Which archives are accepted, told by the bytes that stand in them.

use vstd::prelude::*;

use crate::bytes::{le16, le32, le64};
use crate::entry::StoredZipEntryView;
use crate::error::{ShortRead, ZipError};
use crate::format::end_record::{CombinedCentralDirectoryRecord, EndOfCentralDirectoryHeader};
use crate::format::end_record::Zip64EndOfCentralDirectoryRecord;
use crate::law::reading::{follow, lemma_last_end_record_bounds};
use crate::law::rules::{lemma_legacy_end_record, lemma_zip64_end_record_counts};
use crate::read::boundary::{lemma_next_after, with_boundaries};
use crate::read::directory::{directory_of, entries_after, is_oversized};
use crate::read::file::{approach_directory, approach_legacy, archive_of, eocdr_of, window};
use crate::read::file::{FileReaderView, ZipFileView};
use crate::read::record::cd_record_of;
use crate::string::{StringEncoding, ZipStringView};

verus! {

/// The end record is the last that is whole and starts among the last 65557 bytes.
pub proof fn lemma_end_record_is_found(data: Seq<u8>, i: int)
    requires
        data.len() <= u64::MAX,
    ensures
        0 <= i <= data.len() - 22 && data.len() - 65557 <= i && le32(data, i) == 0x0605_4b50 && (forall|j: int|
            i < j <= data.len() - 22 ==> #[trigger] le32(data, j) != 0x0605_4b50) ==> eocdr_of(data, data.len() as u64)
            == Ok::<u64, ZipError>((i + 4) as u64),
        (forall|j: int|
            0 <= j <= data.len() - 22 && data.len() - 65557 <= j ==> #[trigger] le32(data, j) != 0x0605_4b50) ==> eocdr_of(
            data,
            data.len() as u64,
        ) == Err::<u64, ZipError>(ZipError::UnableToLocateEOCDR),
{
    let low = if data.len() <= 65557 { 0 } else { data.len() - 65557 };
    lemma_last_end_record_bounds(data, low, data.len() - 22);
    assert(le32(data, i) == le32(data, i));
}

/// A part of an archive is what stands from its offset on, up to its length or the end of the archive.
pub proof fn lemma_part_of_archive(data: Seq<u8>, offset: u64, length: u64, k: int)
    ensures
        offset >= data.len() ==> window(data, offset, length).len() == 0,
        offset <= data.len() && offset + length <= data.len() ==> window(data, offset, length).len() == length,
        offset <= data.len() < offset + length ==> window(data, offset, length).len() == data.len() - offset,
        0 <= k < window(data, offset, length).len() ==> window(data, offset, length)[k] == data[offset + k],
{
}

/// What reading the entry gives that stands at `at` in a central directory whose bytes are `input`, out of the bytes that
/// remain of the directory.
#[verifier::opaque]
pub open spec fn entry_at(input: Seq<u8>, at: int, directory_size: u64, claimed: u64) -> Result<
    (StoredZipEntryView, nat),
    ZipError,
> {
    cd_record_of(input.subrange(at, input.len() as int), (directory_size - at) as u64, claimed)
}

/// Whether `positions` are where the entries of a central directory, whose bytes are `input`, start, and where they end, each
/// being read from where the one before it ends, out of the bytes that remain.
pub open spec fn are_entries_at(
    input: Seq<u8>,
    directory_size: u64,
    claimed: u64,
    entries: Seq<StoredZipEntryView>,
    positions: Seq<int>,
) -> bool {
    &&& positions.len() == entries.len() + 1
    &&& positions[0] == 0
    &&& forall|i: int|
        0 <= i < entries.len() ==> entry_at(input, positions[i], directory_size, claimed) == Ok::<
            (StoredZipEntryView, nat),
            ZipError,
        >((#[trigger] entries[i], (positions[i + 1] - positions[i]) as nat)) && 0 <= positions[i] <= positions[i + 1]
            <= directory_size && positions[i + 1] <= input.len()
}

proof fn lemma_one_entry(
    input: Seq<u8>,
    at: int,
    count: nat,
    directory_size: u64,
    claimed: u64,
    seen: Seq<StoredZipEntryView>,
)
    requires
        count > 0,
        0 <= at <= directory_size,
        at <= input.len(),
    ensures
        entries_after(input, at as nat, count, (directory_size - at) as u64, claimed, seen) == (match entry_at(
            input,
            at,
            directory_size,
            claimed,
        ) {
            Err(e) => Err(e),
            Ok((entry, length)) => entries_after(
                input,
                at as nat + length,
                (count - 1) as nat,
                ((directory_size - at) as u64 - length) as u64,
                claimed,
                seen.push(entry),
            ),
        }),
{
    reveal(entry_at);
    assert(input.skip(at) =~= input.subrange(at, input.len() as int));
}

proof fn lemma_entries_from(
    input: Seq<u8>,
    directory_size: u64,
    entries: Seq<StoredZipEntryView>,
    positions: Seq<int>,
    k: int,
)
    requires
        are_entries_at(input, directory_size, entries.len() as u64, entries, positions),
        0 <= k <= entries.len(),
        0 <= positions[k] <= directory_size,
        positions[k] <= input.len(),
    ensures
        entries_after(
            input,
            positions[k] as nat,
            (entries.len() - k) as nat,
            (directory_size - positions[k]) as u64,
            entries.len() as u64,
            entries.take(k),
        ) == Ok::<(Seq<StoredZipEntryView>, nat), ZipError>((entries, positions[entries.len() as int] as nat)),
    decreases entries.len() - k,
{
    if k == entries.len() {
        assert(entries.take(k) =~= entries);
    } else {
        let at = positions[k];
        assert(entries[k] == entries[k]);
        lemma_one_entry(
            input,
            at,
            (entries.len() - k) as nat,
            directory_size,
            entries.len() as u64,
            entries.take(k),
        );
        lemma_entries_from(input, directory_size, entries, positions, k + 1);
        assert(entries.take(k).push(entries[k]) =~= entries.take(k + 1));
        assert(at as nat + (positions[k + 1] - at) as nat == positions[k + 1] as nat);
    }
}

/// A central directory whose entries can be read one after the other is accepted exactly when they fill it, or when what is
/// left of it is filled by a digital signature.
pub proof fn lemma_directory_is_accepted(
    input: Seq<u8>,
    directory_start: u64,
    directory_size: u64,
    entries: Seq<StoredZipEntryView>,
    positions: Seq<int>,
)
    requires
        entries.len() <= usize::MAX,
        !is_oversized(entries.len() as usize, directory_start),
        are_entries_at(input, directory_size, entries.len() as u64, entries, positions),
    ensures
        ({
            let end = positions[entries.len() as int];
            let found = directory_of(input, entries.len() as u64, directory_start, directory_size);
            let filled = end == directory_size || {
                &&& end + 6 <= directory_size
                &&& end + 6 <= input.len()
                &&& le32(input, end) == 0x0505_4b50
                &&& end + 6 + le16(input, end + 4) == directory_size
                &&& directory_size <= input.len()
            };
            &&& filled ==> found == Ok::<Seq<StoredZipEntryView>, ZipError>(entries)
            &&& !filled ==> found is Err
            &&& end < directory_size < end + 6 ==> found == Err::<Seq<StoredZipEntryView>, ZipError>(
                ZipError::InvalidCentralDirectorySize { expected: directory_size, actual: end as u64 },
            )
            &&& end + 6 <= directory_size && end + 4 <= input.len() && le32(input, end) != 0x0505_4b50 ==> found == Err::<
                Seq<StoredZipEntryView>,
                ZipError,
            >(ZipError::InvalidCentralDirectorySize { expected: directory_size, actual: end as u64 })
        }),
{
    lemma_entries_from(input, directory_size, entries, positions, 0);
    assert(entries.take(0) =~= Seq::empty());
    assert(directory_size - positions[0] == directory_size);
    if entries.len() > 0 {
        assert(entries[entries.len() - 1] == entries.last());
    }
}

/// More entries than can be counted here, or than room can be made for, are refused at once.
pub proof fn lemma_directory_is_too_large(input: Seq<u8>, claimed: u64, directory_start: u64, directory_size: u64)
    ensures
        claimed > usize::MAX ==> directory_of(input, claimed, directory_start, directory_size) == Err::<
            Seq<StoredZipEntryView>,
            ZipError,
        >(ZipError::TargetZip64NotSupported),
        claimed <= usize::MAX && is_oversized(claimed as usize, directory_start) ==> directory_of(
            input,
            claimed,
            directory_start,
            directory_size,
        ) == Err::<Seq<StoredZipEntryView>, ZipError>(ZipError::FeatureNotSupported("Oversized central directory")),
{
}

proof fn lemma_entries_stop(
    input: Seq<u8>,
    directory_size: u64,
    claimed: u64,
    entries: Seq<StoredZipEntryView>,
    positions: Seq<int>,
    error: ZipError,
    k: int,
)
    requires
        entries.len() < claimed,
        are_entries_at(input, directory_size, claimed, entries, positions),
        entry_at(input, positions[entries.len() as int], directory_size, claimed) == Err::<(StoredZipEntryView, nat), ZipError>(error),
        0 <= k <= entries.len(),
        0 <= positions[k] <= directory_size,
        positions[k] <= input.len(),
    ensures
        entries_after(
            input,
            positions[k] as nat,
            (claimed - k) as nat,
            (directory_size - positions[k]) as u64,
            claimed,
            entries.take(k),
        ) == Err::<(Seq<StoredZipEntryView>, nat), ZipError>(error),
    decreases entries.len() - k,
{
    let at = positions[k];
    lemma_one_entry(input, at, (claimed - k) as nat, directory_size, claimed, entries.take(k));
    if k < entries.len() {
        assert(entries[k] == entries[k]);
        lemma_entries_stop(input, directory_size, claimed, entries, positions, error, k + 1);
        assert(entries.take(k).push(entries[k]) =~= entries.take(k + 1));
        assert(at as nat + (positions[k + 1] - at) as nat == positions[k + 1] as nat);
    }
}

/// A central directory of which fewer entries can be read than it claims is refused with what is wrong with the first one that
/// cannot be read.
pub proof fn lemma_directory_is_refused(
    input: Seq<u8>,
    directory_start: u64,
    directory_size: u64,
    claimed: u64,
    entries: Seq<StoredZipEntryView>,
    positions: Seq<int>,
    error: ZipError,
)
    requires
        entries.len() < claimed <= usize::MAX,
        !is_oversized(claimed as usize, directory_start),
        are_entries_at(input, directory_size, claimed, entries, positions),
        entry_at(input, positions[entries.len() as int], directory_size, claimed) == Err::<(StoredZipEntryView, nat), ZipError>(error),
    ensures
        directory_of(input, claimed, directory_start, directory_size) == Err::<Seq<StoredZipEntryView>, ZipError>(error),
{
    lemma_entries_stop(input, directory_size, claimed, entries, positions, error, 0);
    assert(entries.take(0) =~= Seq::empty());
}

/// The entries of an archive keep what the central directory says of them, and each is told where its data must end: at the
/// nearest local file header behind its own, or at the central directory where that is nearer.
pub proof fn lemma_boundaries_are_nearest(entries: Seq<StoredZipEntryView>, directory_start: u64, i: int)
    requires
        0 <= i < entries.len(),
    ensures
        with_boundaries(entries, directory_start).len() == entries.len(),
        ({
            let bounded = with_boundaries(entries, directory_start)[i];
            let boundary = bounded.data_end_boundary;
            &&& bounded.entry == entries[i].entry
            &&& bounded.file_offset == entries[i].file_offset
            &&& bounded.header_size == entries[i].header_size
            &&& boundary <= directory_start
            &&& forall|j: int|
                0 <= j < entries.len() && entries[i].file_offset < (#[trigger] entries[j]).file_offset ==> boundary
                    <= entries[j].file_offset
            &&& boundary == directory_start || exists|j: int|
                0 <= j < entries.len() && entries[i].file_offset < boundary && (#[trigger] entries[j]).file_offset
                    == boundary
        }),
{
    lemma_next_after(entries, entries[i].file_offset, directory_start);
}

/// Which parts of an archive are asked for, one after the other: from the end record to the end of the archive, the place before
/// it where a locator may stand, the ZIP64 end record, the central directory.
pub proof fn lemma_what_is_asked_for(reader: FileReaderView)
    requires
        reader.wf(),
    ensures
        reader matches FileReaderView::EndRecord { eocdr_offset } ==> reader.wants() == (eocdr_offset, 65553u64),
        reader matches FileReaderView::Locator { eocdr_offset, eocdr, comment } ==> eocdr_offset >= 24 && reader.wants() == (
            (eocdr_offset - 24) as u64,
            20u64,
        ),
        reader matches FileReaderView::Zip64EndRecord { eocdr, comment, locator_offset, zip64_eocdr_offset }
            ==> reader.wants() == (zip64_eocdr_offset, 56u64),
        reader matches FileReaderView::Directory { record, comment, zip64, boundary } ==> reader.wants() == (
            record.offset_of_start_of_directory,
            record.directory_size,
        ),
{
}

/// Whether the end record of an archive, `data`, is at `i`: the last that is whole and starts among the last 65557 bytes.
pub open spec fn ends_at(data: Seq<u8>, i: int) -> bool {
    &&& 0 <= i <= data.len() - 22
    &&& data.len() - 65557 <= i
    &&& le32(data, i) == 0x0605_4b50
    &&& forall|j: int| i < j <= data.len() - 22 ==> #[trigger] le32(data, j) != 0x0605_4b50
}

/// What is wrong with a ZIP64 end record at `at` that is not all there: its signature, if that is, and else how much is missing.
pub open spec fn cut_off_error(data: Seq<u8>, at: u64) -> ZipError {
    if at >= data.len() {
        ZipError::UpstreamReadError(ShortRead { missing: 4 })
    } else if at + 4 > data.len() {
        ZipError::UpstreamReadError(ShortRead { missing: (at + 4 - data.len()) as usize })
    } else if le32(data, at as int) != 0x0606_4b50 {
        ZipError::UnexpectedHeaderError(le32(data, at as int), 0x0606_4b50)
    } else {
        ZipError::UpstreamReadError(ShortRead { missing: (at + 56 - data.len()) as usize })
    }
}

/// [`archive_of`], kept whole in proofs.
#[verifier::opaque]
spec fn archive(data: Seq<u8>) -> Result<ZipFileView, ZipError> {
    archive_of(data)
}

/// What comes of a reader, kept whole in proofs.
#[verifier::opaque]
spec fn going_on(reader: FileReaderView, data: Seq<u8>) -> Result<ZipFileView, ZipError> {
    reader.outcome(data)
}

/// What comes of going on to the central directory, kept whole in proofs.
#[verifier::opaque]
spec fn opened(
    record: CombinedCentralDirectoryRecord,
    comment: ZipStringView,
    zip64: bool,
    boundary: u64,
    data: Seq<u8>,
) -> Result<ZipFileView, ZipError> {
    follow(approach_directory(record, comment, zip64, boundary), data)
}

/// [`directory_of`] a part of an archive, kept whole in proofs.
#[verifier::opaque]
spec fn listed(data: Seq<u8>, from: int, to: int, count: u64, start: u64, size: u64) -> Result<
    Seq<StoredZipEntryView>,
    ZipError,
> {
    directory_of(data.subrange(from, to), count, start, size)
}

/// The comment of an archive whose end record is at `i`.
#[verifier::opaque]
spec fn comment_behind(data: Seq<u8>, i: int) -> ZipStringView {
    ZipStringView::decoded(data.subrange(i + 22, i + 22 + le16(data, i + 20)), StringEncoding::Utf8)
}

/// What comes of going on to the central directory that ends at `boundary` or before.
proof fn lemma_directory_is_entered(
    record: CombinedCentralDirectoryRecord,
    comment: ZipStringView,
    zip64: bool,
    boundary: u64,
    data: Seq<u8>,
)
    requires
        boundary <= data.len() <= u64::MAX,
    ensures
        ({
            let start = record.offset_of_start_of_directory;
            let end = start + record.directory_size;
            let outcome = opened(record, comment, zip64, boundary, data);
            let split = record.disk_number != record.disk_number_start_of_cd || record.num_entries_in_directory_on_disk
                != record.num_entries_in_directory;
            let found = listed(
                data,
                start as int,
                end,
                record.num_entries_in_directory,
                start,
                record.directory_size,
            );
            &&& end > boundary ==> outcome == Err::<ZipFileView, ZipError>(
                ZipError::InvalidCentralDirectoryRange {
                    start,
                    end: if end > u64::MAX {
                        u64::MAX
                    } else {
                        end as u64
                    },
                    boundary,
                },
            )
            &&& end <= boundary && split ==> outcome == Err::<ZipFileView, ZipError>(
                ZipError::FeatureNotSupported("Spanned/split files"),
            )
            &&& end <= boundary && !split ==> (found matches Err(e) ==> outcome == Err::<ZipFileView, ZipError>(e))
            &&& end < boundary && !split && found is Ok ==> outcome == Err::<ZipFileView, ZipError>(
                ZipError::InvalidCentralDirectoryBinding { directory_end: end as u64, end_record: boundary },
            )
            &&& end == boundary && !split && found is Ok ==> outcome == Ok::<ZipFileView, ZipError>(
                ZipFileView { entries: with_boundaries(found->Ok_0, start), comment, zip64 },
            )
        }),
{
    reveal(opened);
    reveal(listed);
    let reader = FileReaderView::Directory { record, comment, zip64, boundary };
    let start = record.offset_of_start_of_directory;
    let end = start + record.directory_size;
    let bytes = window(data, start, record.directory_size);
    if end <= boundary {
        assert(bytes =~= data.subrange(start as int, end));
        assert(reader.outcome(data) == follow(reader.step(bytes), data));
    }
}

/// What comes of the end record at `i`, up to where a locator may stand before it.
proof fn lemma_end_record_is_entered(data: Seq<u8>, i: int)
    requires
        data.len() <= u64::MAX,
        ends_at(data, i),
        i + 22 + le16(data, i + 20) <= data.len(),
    ensures
        ({
            let eocdr = EndOfCentralDirectoryHeader::at(data, i + 4);
            let comment = comment_behind(data, i);
            let offset = (i + 4) as u64;
            archive(data) == (if i < 20 {
                follow(approach_legacy(offset, eocdr, comment), data)
            } else {
                going_on(FileReaderView::Locator { eocdr_offset: offset, eocdr, comment }, data)
            })
        }),
{
    reveal(archive);
    reveal(going_on);
    reveal(comment_behind);
    let offset = (i + 4) as u64;
    let reader = FileReaderView::EndRecord { eocdr_offset: offset };
    let bytes = window(data, offset, 65553);
    lemma_end_record_is_found(data, i);
    lemma_end_record_is_read_from(data, i);
    assert(reader.outcome(data) == follow(reader.step(bytes), data));
}

proof fn lemma_end_record_is_read_from(data: Seq<u8>, i: int)
    requires
        data.len() <= u64::MAX,
        0 <= i <= data.len() - 22,
        data.len() - 65557 <= i,
        i + 22 + le16(data, i + 20) <= data.len(),
    ensures
        ({
            let bytes = window(data, (i + 4) as u64, 65553);
            &&& bytes.len() == data.len() - i - 4
            &&& EndOfCentralDirectoryHeader::at(bytes, 0) == EndOfCentralDirectoryHeader::at(data, i + 4)
            &&& bytes.subrange(18, 18 + le16(data, i + 20)) == data.subrange(i + 22, i + 22 + le16(data, i + 20))
        }),
{
    let bytes = window(data, (i + 4) as u64, 65553);
    let end = data.len() as int;
    assert(bytes =~= data.subrange(i + 4, end));
    lemma_numbers_of_part(data, i + 4, end, 0);
    lemma_numbers_of_part(data, i + 4, end, 2);
    lemma_numbers_of_part(data, i + 4, end, 4);
    lemma_numbers_of_part(data, i + 4, end, 6);
    lemma_numbers_of_part(data, i + 4, end, 8);
    lemma_numbers_of_part(data, i + 4, end, 12);
    lemma_numbers_of_part(data, i + 4, end, 16);
    assert(bytes.subrange(18, 18 + le16(data, i + 20)) =~= data.subrange(i + 22, i + 22 + le16(data, i + 20)));
}

/// A comment that is said to be longer than what remains is asked for in vain.
pub proof fn lemma_comment_is_cut_off(data: Seq<u8>, i: int)
    requires
        data.len() <= u64::MAX,
        ends_at(data, i),
        i + 22 + le16(data, i + 20) > data.len(),
    ensures
        archive_of(data) == Err::<ZipFileView, ZipError>(
            ZipError::UpstreamReadError(ShortRead { missing: (i + 22 + le16(data, i + 20) - data.len()) as usize }),
        ),
{
    let offset = (i + 4) as u64;
    let reader = FileReaderView::EndRecord { eocdr_offset: offset };
    let bytes = window(data, offset, 65553);
    lemma_end_record_is_found(data, i);
    assert(bytes =~= data.subrange(i + 4, data.len() as int));
    lemma_numbers_of_part(data, i + 4, data.len() as int, 16);
    assert(reader.outcome(data) == follow(reader.step(bytes), data));
}

/// What comes of going on without a locator.
proof fn lemma_legacy_is_entered(data: Seq<u8>, i: int)
    requires
        data.len() <= u64::MAX,
        ends_at(data, i),
        i + 22 + le16(data, i + 20) <= data.len(),
        i < 20 || le32(data, i - 20) != 0x0706_4b50,
    ensures
        archive(data) == (match CombinedCentralDirectoryRecord::of_legacy(EndOfCentralDirectoryHeader::at(data, i + 4)) {
            Err(e) => Err(e),
            Ok(record) => opened(record, comment_behind(data, i), false, i as u64, data),
        }),
{
    let eocdr = EndOfCentralDirectoryHeader::at(data, i + 4);
    let comment = comment_behind(data, i);
    lemma_end_record_is_entered(data, i);
    reveal(opened);
    if i >= 20 {
        reveal(going_on);
        let reader = FileReaderView::Locator { eocdr_offset: (i + 4) as u64, eocdr, comment };
        let place = window(data, (i - 20) as u64, 20);
        assert(place =~= data.subrange(i - 20, i));
        assert(reader.outcome(data) == follow(reader.step(place), data));
        lemma_numbers_of_part(data, i - 20, i, 0);
    }
}

proof fn lemma_archive_without_locator_cases(data: Seq<u8>, i: int)
    requires
        data.len() <= u64::MAX,
        ends_at(data, i),
        i + 22 + le16(data, i + 20) <= data.len(),
        i < 20 || le32(data, i - 20) != 0x0706_4b50,
    ensures
        ({
            let size = le32(data, i + 12);
            let start = le32(data, i + 16);
            let elsewhere = le16(data, i + 4) == 0xffff || le16(data, i + 6) == 0xffff || size == 0xffff_ffff || start
                == 0xffff_ffff;
            let split = le16(data, i + 4) != le16(data, i + 6) || le16(data, i + 8) != le16(data, i + 10);
            let found = listed(
                data,
                start as int,
                start + size,
                le16(data, i + 10) as u64,
                start as u64,
                size as u64,
            );
            &&& elsewhere ==> archive(data) == Err::<ZipFileView, ZipError>(
                ZipError::MissingZip64EndOfCentralDirectoryLocator,
            )
            &&& !elsewhere && start + size > i ==> archive(data) == Err::<ZipFileView, ZipError>(
                ZipError::InvalidCentralDirectoryRange {
                    start: start as u64,
                    end: (start + size) as u64,
                    boundary: i as u64,
                },
            )
            &&& !elsewhere && start + size <= i && split ==> archive(data) == Err::<ZipFileView, ZipError>(
                ZipError::FeatureNotSupported("Spanned/split files"),
            )
            &&& !elsewhere && start + size <= i && !split ==> (found matches Err(e) ==> archive(data) == Err::<
                ZipFileView,
                ZipError,
            >(e))
            &&& !elsewhere && start + size < i && !split && found is Ok ==> archive(data) == Err::<
                ZipFileView,
                ZipError,
            >(
                ZipError::InvalidCentralDirectoryBinding {
                    directory_end: (start + size) as u64,
                    end_record: i as u64,
                },
            )
            &&& !elsewhere && start + size == i && !split && found is Ok ==> {
                &&& archive(data) matches Ok(archive)
                &&& archive.entries == with_boundaries(found->Ok_0, start as u64)
                &&& archive.comment == comment_behind(data, i)
                &&& !archive.zip64
            }
        }),
{
    let eocdr = EndOfCentralDirectoryHeader::at(data, i + 4);
    lemma_legacy_is_entered(data, i);
    lemma_legacy_end_record(eocdr);
    if let Ok(record) = CombinedCentralDirectoryRecord::of_legacy(eocdr) {
        lemma_directory_is_entered(record, comment_behind(data, i), false, i as u64, data);
    }
}

/// What an archive without a ZIP64 locator before its end record, which is at `i`, is taken for. Its central directory must end
/// by the end record, then exactly there, and the archive must be in one piece.
pub proof fn lemma_archive_without_locator(data: Seq<u8>, i: int)
    requires
        data.len() <= u64::MAX,
        ends_at(data, i),
        i + 22 + le16(data, i + 20) <= data.len(),
        i < 20 || le32(data, i - 20) != 0x0706_4b50,
    ensures
        ({
            let size = le32(data, i + 12);
            let start = le32(data, i + 16);
            let elsewhere = le16(data, i + 4) == 0xffff || le16(data, i + 6) == 0xffff || size == 0xffff_ffff || start
                == 0xffff_ffff;
            let split = le16(data, i + 4) != le16(data, i + 6) || le16(data, i + 8) != le16(data, i + 10);
            let found = directory_of(
                data.subrange(start as int, start + size),
                le16(data, i + 10) as u64,
                start as u64,
                size as u64,
            );
            &&& elsewhere ==> archive_of(data) == Err::<ZipFileView, ZipError>(
                ZipError::MissingZip64EndOfCentralDirectoryLocator,
            )
            &&& !elsewhere && start + size > i ==> archive_of(data) == Err::<ZipFileView, ZipError>(
                ZipError::InvalidCentralDirectoryRange {
                    start: start as u64,
                    end: (start + size) as u64,
                    boundary: i as u64,
                },
            )
            &&& !elsewhere && start + size <= i && split ==> archive_of(data) == Err::<ZipFileView, ZipError>(
                ZipError::FeatureNotSupported("Spanned/split files"),
            )
            &&& !elsewhere && start + size <= i && !split ==> (found matches Err(e) ==> archive_of(data) == Err::<
                ZipFileView,
                ZipError,
            >(e))
            &&& !elsewhere && start + size < i && !split && found is Ok ==> archive_of(data) == Err::<
                ZipFileView,
                ZipError,
            >(
                ZipError::InvalidCentralDirectoryBinding {
                    directory_end: (start + size) as u64,
                    end_record: i as u64,
                },
            )
            &&& !elsewhere && start + size == i && !split && found is Ok ==> {
                &&& archive_of(data) matches Ok(archive)
                &&& archive.entries == with_boundaries(found->Ok_0, start as u64)
                &&& archive.comment == ZipStringView::decoded(
                    data.subrange(i + 22, i + 22 + le16(data, i + 20)),
                    StringEncoding::Utf8,
                )
                &&& !archive.zip64
            }
        }),
{
    lemma_archive_without_locator_cases(data, i);
    reveal(archive);
    reveal(listed);
    reveal(comment_behind);
}

/// What comes of the locator before the end record at `i`.
proof fn lemma_locator_is_followed(data: Seq<u8>, i: int)
    requires
        data.len() <= u64::MAX,
        ends_at(data, i),
        i + 22 + le16(data, i + 20) <= data.len(),
        i >= 20,
        le32(data, i - 20) == 0x0706_4b50,
    ensures
        archive(data) == going_on(
            (FileReaderView::Zip64EndRecord {
                eocdr: EndOfCentralDirectoryHeader::at(data, i + 4),
                comment: comment_behind(data, i),
                locator_offset: (i - 20) as u64,
                zip64_eocdr_offset: le64(data, i - 12),
            }),
            data,
        ),
{
    let eocdr = EndOfCentralDirectoryHeader::at(data, i + 4);
    let comment = comment_behind(data, i);
    lemma_end_record_is_entered(data, i);
    reveal(going_on);
    let reader = FileReaderView::Locator { eocdr_offset: (i + 4) as u64, eocdr, comment };
    let place = window(data, (i - 20) as u64, 20);
    assert(place =~= data.subrange(i - 20, i));
    assert(reader.outcome(data) == follow(reader.step(place), data));
    lemma_numbers_of_part(data, i - 20, i, 0);
    lemma_numbers_of_part(data, i - 20, i, 8);
}

/// What comes of a ZIP64 end record at `at`.
proof fn lemma_zip64_step(
    bytes: Seq<u8>,
    zip64: Zip64EndOfCentralDirectoryRecord,
    eocdr: EndOfCentralDirectoryHeader,
    comment: ZipStringView,
    locator_offset: u64,
    at: u64,
    data: Seq<u8>,
)
    requires
        at < u64::MAX,
        Zip64EndOfCentralDirectoryRecord::read(bytes) == Ok::<Zip64EndOfCentralDirectoryRecord, ZipError>(zip64),
    ensures
        ({
            let reader = FileReaderView::Zip64EndRecord { eocdr, comment, locator_offset, zip64_eocdr_offset: at };
            let reach = at + 12 + zip64.size_of_zip64_end_of_cd_record;
            let least_end = zip64.num_entries_in_directory * 46 + zip64.offset_of_start_of_directory;
            follow(reader.step(bytes), data) == (if reach > u64::MAX {
                Err(ZipError::InvalidZip64EndOfCentralDirectoryLocatorOffset(u64::MAX, locator_offset))
            } else if reach != locator_offset {
                Err(ZipError::InvalidZip64EndOfCentralDirectoryLocatorOffset(reach as u64, locator_offset))
            } else if at < least_end {
                Err(ZipError::InvalidCentralDirectoryEntryCount { entries: zip64.num_entries_in_directory })
            } else {
                match CombinedCentralDirectoryRecord::of_both(eocdr, zip64) {
                    Err(e) => Err(e),
                    Ok(record) => opened(record, comment, true, at, data),
                }
            })
        }),
{
    reveal(opened);
}

proof fn lemma_zip64_record_is_entered(
    data: Seq<u8>,
    eocdr: EndOfCentralDirectoryHeader,
    comment: ZipStringView,
    locator_offset: u64,
    at: u64,
)
    requires
        data.len() <= u64::MAX,
    ensures
        ({
            let reader = FileReaderView::Zip64EndRecord { eocdr, comment, locator_offset, zip64_eocdr_offset: at };
            let zip64 = Zip64EndOfCentralDirectoryRecord::at(data, at + 4);
            let reach = at + 12 + le64(data, at + 4);
            let least_end = le64(data, at + 32) * 46 + le64(data, at + 48);
            &&& at + 56 > data.len() ==> going_on(reader, data) == Err::<ZipFileView, ZipError>(cut_off_error(data, at))
            &&& at + 56 <= data.len() ==> going_on(reader, data) == (if le32(data, at as int) != 0x0606_4b50 {
                Err(ZipError::UnexpectedHeaderError(le32(data, at as int), 0x0606_4b50))
            } else if le64(data, at + 4) < 44 {
                Err(ZipError::InvalidZip64EndOfCentralDirectorySize(le64(data, at + 4)))
            } else if reach > u64::MAX {
                Err(ZipError::InvalidZip64EndOfCentralDirectoryLocatorOffset(u64::MAX, locator_offset))
            } else if reach != locator_offset {
                Err(ZipError::InvalidZip64EndOfCentralDirectoryLocatorOffset(reach as u64, locator_offset))
            } else if at < least_end {
                Err(ZipError::InvalidCentralDirectoryEntryCount { entries: le64(data, at + 32) })
            } else {
                match CombinedCentralDirectoryRecord::of_both(eocdr, zip64) {
                    Err(e) => Err(e),
                    Ok(record) => opened(record, comment, true, at, data),
                }
            })
        }),
{
    reveal(going_on);
    let reader = FileReaderView::Zip64EndRecord { eocdr, comment, locator_offset, zip64_eocdr_offset: at };
    let bytes = window(data, at, 56);
    assert(reader.outcome(data) == follow(reader.step(bytes), data));
    lemma_zip64_record_is_read_from(data, at);
    if Zip64EndOfCentralDirectoryRecord::read(bytes) is Ok {
        let zip64 = Zip64EndOfCentralDirectoryRecord::at(data, at + 4);
        lemma_zip64_step(bytes, zip64, eocdr, comment, locator_offset, at, data);
    }
}

proof fn lemma_archive_with_locator_cases(data: Seq<u8>, i: int)
    requires
        data.len() <= u64::MAX,
        ends_at(data, i),
        i + 22 + le16(data, i + 20) <= data.len(),
        i >= 20,
        le32(data, i - 20) == 0x0706_4b50,
    ensures
        ({
            let at = le64(data, i - 12);
            let eocdr = EndOfCentralDirectoryHeader::at(data, i + 4);
            let zip64 = Zip64EndOfCentralDirectoryRecord::at(data, at + 4);
            let whole = at + 56 <= data.len() && le32(data, at as int) == 0x0606_4b50;
            let reach = at + 12 + le64(data, at + 4);
            let sound = whole && le64(data, at + 4) >= 44 && reach == i - 20;
            let least_end = le64(data, at + 32) * 46 + le64(data, at + 48);
            let combined = CombinedCentralDirectoryRecord::of_both(eocdr, zip64);
            let start = le64(data, at + 48);
            let end = start + le64(data, at + 40);
            let split = le32(data, at + 16) != le32(data, at + 20) || le64(data, at + 24) != le64(data, at + 32);
            let found = listed(
                data,
                start as int,
                end,
                le64(data, at + 32),
                start,
                le64(data, at + 40),
            );
            &&& at + 56 <= data.len() && le32(data, at as int) != 0x0606_4b50 ==> archive(data) == Err::<
                ZipFileView,
                ZipError,
            >(ZipError::UnexpectedHeaderError(le32(data, at as int), 0x0606_4b50))
            &&& at + 56 > data.len() ==> archive(data) == Err::<ZipFileView, ZipError>(cut_off_error(data, at))
            &&& whole && le64(data, at + 4) < 44 ==> archive(data) == Err::<ZipFileView, ZipError>(
                ZipError::InvalidZip64EndOfCentralDirectorySize(le64(data, at + 4)),
            )
            &&& whole && le64(data, at + 4) >= 44 && reach != i - 20 ==> archive(data) == Err::<ZipFileView, ZipError>(
                ZipError::InvalidZip64EndOfCentralDirectoryLocatorOffset(
                    if reach > u64::MAX {
                        u64::MAX
                    } else {
                        reach as u64
                    },
                    (i - 20) as u64,
                ),
            )
            &&& sound && at < least_end ==> archive(data) == Err::<ZipFileView, ZipError>(
                ZipError::InvalidCentralDirectoryEntryCount { entries: le64(data, at + 32) },
            )
            &&& sound && least_end <= at ==> (combined matches Err(e) ==> archive(data) == Err::<ZipFileView, ZipError>(
                e,
            ))
            &&& sound && least_end <= at && combined is Ok && end > at ==> archive(data) == Err::<ZipFileView, ZipError>(
                ZipError::InvalidCentralDirectoryRange {
                    start,
                    end: if end > u64::MAX {
                        u64::MAX
                    } else {
                        end as u64
                    },
                    boundary: at,
                },
            )
            &&& sound && least_end <= at && combined is Ok && end <= at && split ==> archive(data) == Err::<
                ZipFileView,
                ZipError,
            >(ZipError::FeatureNotSupported("Spanned/split files"))
            &&& sound && least_end <= at && combined is Ok && end <= at && !split ==> (found matches Err(e) ==> archive(data) == Err::<ZipFileView, ZipError>(e))
            &&& sound && least_end <= at && combined is Ok && end < at && !split && found is Ok ==> archive(data) == Err::<
                ZipFileView,
                ZipError,
            >(ZipError::InvalidCentralDirectoryBinding { directory_end: end as u64, end_record: at })
            &&& sound && least_end <= at && combined is Ok && end == at && !split && found is Ok ==> {
                &&& archive(data) matches Ok(archive)
                &&& archive.entries == with_boundaries(found->Ok_0, start)
                &&& archive.comment == comment_behind(data, i)
                &&& archive.zip64
            }
        }),
{
    let at = le64(data, i - 12);
    let eocdr = EndOfCentralDirectoryHeader::at(data, i + 4);
    let comment = comment_behind(data, i);
    lemma_locator_is_followed(data, i);
    lemma_zip64_record_is_entered(data, eocdr, comment, (i - 20) as u64, at);
    if at + 56 <= data.len() {
        let zip64 = Zip64EndOfCentralDirectoryRecord::at(data, at + 4);
        lemma_zip64_end_record_counts(eocdr, zip64);
        if let Ok(record) = CombinedCentralDirectoryRecord::of_both(eocdr, zip64) {
            lemma_directory_is_entered(record, comment, true, at, data);
        }
    }
}

/// What an archive with a ZIP64 locator before its end record, which is at `i`, is taken for. The locator tells where the ZIP64
/// end record is, which must reach up to the locator, and the central directory must end by that record, then exactly there.
pub proof fn lemma_archive_with_locator(data: Seq<u8>, i: int)
    requires
        data.len() <= u64::MAX,
        ends_at(data, i),
        i + 22 + le16(data, i + 20) <= data.len(),
        i >= 20,
        le32(data, i - 20) == 0x0706_4b50,
    ensures
        ({
            let at = le64(data, i - 12);
            let eocdr = EndOfCentralDirectoryHeader::at(data, i + 4);
            let zip64 = Zip64EndOfCentralDirectoryRecord::at(data, at + 4);
            let whole = at + 56 <= data.len() && le32(data, at as int) == 0x0606_4b50;
            let reach = at + 12 + le64(data, at + 4);
            let sound = whole && le64(data, at + 4) >= 44 && reach == i - 20;
            let least_end = le64(data, at + 32) * 46 + le64(data, at + 48);
            let combined = CombinedCentralDirectoryRecord::of_both(eocdr, zip64);
            let start = le64(data, at + 48);
            let end = start + le64(data, at + 40);
            let split = le32(data, at + 16) != le32(data, at + 20) || le64(data, at + 24) != le64(data, at + 32);
            let found = directory_of(
                data.subrange(start as int, end),
                le64(data, at + 32),
                start,
                le64(data, at + 40),
            );
            &&& at + 56 <= data.len() && le32(data, at as int) != 0x0606_4b50 ==> archive_of(data) == Err::<
                ZipFileView,
                ZipError,
            >(ZipError::UnexpectedHeaderError(le32(data, at as int), 0x0606_4b50))
            &&& at + 56 > data.len() ==> archive_of(data) == Err::<ZipFileView, ZipError>(cut_off_error(data, at))
            &&& whole && le64(data, at + 4) < 44 ==> archive_of(data) == Err::<ZipFileView, ZipError>(
                ZipError::InvalidZip64EndOfCentralDirectorySize(le64(data, at + 4)),
            )
            &&& whole && le64(data, at + 4) >= 44 && reach != i - 20 ==> archive_of(data) == Err::<ZipFileView, ZipError>(
                ZipError::InvalidZip64EndOfCentralDirectoryLocatorOffset(
                    if reach > u64::MAX {
                        u64::MAX
                    } else {
                        reach as u64
                    },
                    (i - 20) as u64,
                ),
            )
            &&& sound && at < least_end ==> archive_of(data) == Err::<ZipFileView, ZipError>(
                ZipError::InvalidCentralDirectoryEntryCount { entries: le64(data, at + 32) },
            )
            &&& sound && least_end <= at ==> (combined matches Err(e) ==> archive_of(data) == Err::<ZipFileView, ZipError>(
                e,
            ))
            &&& sound && least_end <= at && combined is Ok && end > at ==> archive_of(data) == Err::<ZipFileView, ZipError>(
                ZipError::InvalidCentralDirectoryRange {
                    start,
                    end: if end > u64::MAX {
                        u64::MAX
                    } else {
                        end as u64
                    },
                    boundary: at,
                },
            )
            &&& sound && least_end <= at && combined is Ok && end <= at && split ==> archive_of(data) == Err::<
                ZipFileView,
                ZipError,
            >(ZipError::FeatureNotSupported("Spanned/split files"))
            &&& sound && least_end <= at && combined is Ok && end <= at && !split ==> (found matches Err(e) ==> archive_of(
                data,
            ) == Err::<ZipFileView, ZipError>(e))
            &&& sound && least_end <= at && combined is Ok && end < at && !split && found is Ok ==> archive_of(data) == Err::<
                ZipFileView,
                ZipError,
            >(ZipError::InvalidCentralDirectoryBinding { directory_end: end as u64, end_record: at })
            &&& sound && least_end <= at && combined is Ok && end == at && !split && found is Ok ==> {
                &&& archive_of(data) matches Ok(archive)
                &&& archive.entries == with_boundaries(found->Ok_0, start)
                &&& archive.comment == ZipStringView::decoded(
                    data.subrange(i + 22, i + 22 + le16(data, i + 20)),
                    StringEncoding::Utf8,
                )
                &&& archive.zip64
            }
        }),
{
    lemma_archive_with_locator_cases(data, i);
    reveal(archive);
    reveal(listed);
    reveal(comment_behind);
}

proof fn lemma_numbers_of_part(data: Seq<u8>, from: int, to: int, k: int)
    requires
        0 <= from <= to <= data.len(),
        0 <= k,
    ensures
        from + k + 2 <= to ==> le16(data.subrange(from, to), k) == le16(data, from + k),
        from + k + 4 <= to ==> le32(data.subrange(from, to), k) == le32(data, from + k),
        from + k + 8 <= to ==> le64(data.subrange(from, to), k) == le64(data, from + k),
{
}

proof fn lemma_zip64_record_is_read_from(data: Seq<u8>, at: u64)
    requires
        data.len() <= u64::MAX,
    ensures
        at + 56 > data.len() ==> Zip64EndOfCentralDirectoryRecord::read(window(data, at, 56)) == Err::<
            Zip64EndOfCentralDirectoryRecord,
            ZipError,
        >(cut_off_error(data, at)),
        at + 56 <= data.len() ==> Zip64EndOfCentralDirectoryRecord::read(window(data, at, 56)) == (if le32(data, at as int)
            != 0x0606_4b50 {
            Err::<Zip64EndOfCentralDirectoryRecord, ZipError>(
                ZipError::UnexpectedHeaderError(le32(data, at as int), 0x0606_4b50),
            )
        } else if le64(data, at + 4) < 44 {
            Err(ZipError::InvalidZip64EndOfCentralDirectorySize(le64(data, at + 4)))
        } else {
            Ok(Zip64EndOfCentralDirectoryRecord::at(data, at + 4))
        }),
{
    if at + 4 <= data.len() < at + 56 {
        assert(window(data, at, 56) =~= data.subrange(at as int, data.len() as int));
        lemma_numbers_of_part(data, at as int, data.len() as int, 0);
    }
    if at + 56 <= data.len() {
        let bytes = data.subrange(at as int, at + 56);
        assert(window(data, at, 56) =~= bytes);
        lemma_numbers_of_part(data, at as int, at + 56, 0);
        lemma_numbers_of_part(data, at as int, at + 56, 4);
        lemma_numbers_of_part(data, at as int, at + 56, 12);
        lemma_numbers_of_part(data, at as int, at + 56, 14);
        lemma_numbers_of_part(data, at as int, at + 56, 16);
        lemma_numbers_of_part(data, at as int, at + 56, 20);
        lemma_numbers_of_part(data, at as int, at + 56, 24);
        lemma_numbers_of_part(data, at as int, at + 56, 32);
        lemma_numbers_of_part(data, at as int, at + 56, 40);
        lemma_numbers_of_part(data, at as int, at + 56, 48);
    }
}

} // verus!
