//! What holds of all archives that are read.

use vstd::prelude::*;

use crate::bytes::{le16, le32};
use crate::entry::StoredZipEntryView;
use crate::error::{ShortRead, ZipError};
use crate::format::consts::{EOCDR_SIGNATURE, ZIP64_EOCDR_SIGNATURE};
use crate::format::end_record::{CombinedCentralDirectoryRecord, EndOfCentralDirectoryHeader};
use crate::format::end_record::{Zip64EndOfCentralDirectoryLocator, Zip64EndOfCentralDirectoryRecord};
use crate::format::extra_field::{parse_after, parse_field, zip64_wants, ExtraFieldView, Zip64Wants};
use crate::format::header::{CentralDirectoryRecord, LocalFileHeader};
use crate::read::boundary::{lemma_next_after, with_boundaries};
use crate::read::data::{local_sizes, name_error, NAME_CHUNK};
use crate::read::directory::{directory_of, entries_after, signature_end};
use crate::read::file::{approach_directory, approach_legacy, archive_of, eocdr_of, last_end_record, window};
use crate::read::file::{FileReaderView, FileStepView, ZipFileView, LOCATOR_DISTANCE, MAX_END_RECORD_DISTANCE};
use crate::read::record::{cd_record_of, central_fields_of, lfh_of, local_fields_of};
use crate::string::{StringEncoding, ZipStringView};

verus! {

proof fn lemma_le_of_prefix(a: Seq<u8>, b: Seq<u8>)
    ensures
        forall|i: int| #![trigger le16(a + b, i)] 0 <= i && i + 2 <= a.len() ==> le16(a + b, i) == le16(a, i),
        forall|i: int| #![trigger le32(a + b, i)] 0 <= i && i + 4 <= a.len() ==> le32(a + b, i) == le32(a, i),
{
}

proof fn lemma_parts_of_prefix(a: Seq<u8>, b: Seq<u8>)
    ensures
        forall|i: int, j: int| #![trigger (a + b).subrange(i, j)]
            0 <= i <= j <= a.len() ==> (a + b).subrange(i, j) == a.subrange(i, j),
{
    assert forall|i: int, j: int| #![trigger (a + b).subrange(i, j)] 0 <= i <= j <= a.len() implies (a + b).subrange(
        i,
        j,
    ) == a.subrange(i, j) by {
        assert((a + b).subrange(i, j) =~= a.subrange(i, j));
    }
}

/// Whether a result holds with `more` further bytes too: it stays what it is, and where bytes lack, no fewer than that
/// many will do.
pub open spec fn stable<T>(before: Result<T, ZipError>, after: Result<T, ZipError>, more: nat) -> bool {
    match before {
        Err(ZipError::UpstreamReadError(ShortRead { missing })) => {
            &&& missing > 0
            &&& more < missing ==> after == Err::<T, ZipError>(
                ZipError::UpstreamReadError(ShortRead { missing: (missing - more) as usize }),
            )
        },
        _ => after == before,
    }
}

proof fn lemma_parse_lacks_nothing(data: Seq<u8>, wants: Zip64Wants, seen: Seq<ExtraFieldView>)
    ensures
        !(parse_after(data, wants, seen) matches Err(ZipError::UpstreamReadError(_))),
    decreases data.len(),
{
    if data.len() >= 4 {
        let size = le16(data, 2);
        if data.len() >= 4 + size {
            if let Ok(field) = parse_field(le16(data, 0), data.subrange(4, 4 + size), wants) {
                lemma_parse_lacks_nothing(data.skip(4 + size), wants, seen.push(field));
            }
        }
    }
}

proof fn lemma_local_fields_are_stable(header: LocalFileHeader, a: Seq<u8>, b: Seq<u8>, file_offset: u64)
    requires
        a.len() >= 30,
    ensures
        stable(local_fields_of(header, a, file_offset), local_fields_of(header, a + b, file_offset), b.len()),
{
    lemma_parts_of_prefix(a, b);
    let name_end = 30 + header.file_name_length as int;
    let end = name_end + header.extra_field_length;
    lemma_parse_lacks_nothing(
        a.subrange(name_end, end),
        zip64_wants(header.uncompressed_size, header.compressed_size, None, None),
        Seq::empty(),
    );
}

/// A local file header is read the same whatever follows it, and where bytes lack, no fewer will do: a source that hands
/// out its bytes piece by piece is read as if they were all there.
pub proof fn lemma_lfh_is_stable(a: Seq<u8>, b: Seq<u8>, file_offset: u64)
    ensures
        stable(lfh_of(a, file_offset), lfh_of(a + b, file_offset), b.len()),
{
    lemma_le_of_prefix(a, b);
    if a.len() >= 30 {
        assert(LocalFileHeader::read_at(a + b, 4) == LocalFileHeader::read_at(a, 4));
        if let Ok(header) = LocalFileHeader::read_at(a, 4) {
            lemma_local_fields_are_stable(header, a, b, file_offset);
        }
    }
}

proof fn lemma_central_fields_are_stable(header: CentralDirectoryRecord, a: Seq<u8>, b: Seq<u8>)
    requires
        a.len() >= 46,
    ensures
        stable(central_fields_of(header, a), central_fields_of(header, a + b), b.len()),
{
    lemma_parts_of_prefix(a, b);
    let name_end = 46 + header.file_name_length as int;
    let extra_end = name_end + header.extra_field_length;
    lemma_parse_lacks_nothing(
        a.subrange(name_end, extra_end),
        zip64_wants(header.uncompressed_size, header.compressed_size, Some(header.lh_offset), Some(header.disk_start)),
        Seq::empty(),
    );
}

/// A central directory entry is read the same whatever follows it, and where bytes lack, no fewer will do.
pub proof fn lemma_cd_record_is_stable(a: Seq<u8>, b: Seq<u8>, remaining: u64, claimed_entries: u64)
    ensures
        stable(
            cd_record_of(a, remaining, claimed_entries),
            cd_record_of(a + b, remaining, claimed_entries),
            b.len(),
        ),
{
    lemma_le_of_prefix(a, b);
    if a.len() >= 46 {
        assert(CentralDirectoryRecord::read_at(a + b, 4) == CentralDirectoryRecord::read_at(a, 4));
        if let Ok(header) = CentralDirectoryRecord::read_at(a, 4) {
            lemma_central_fields_are_stable(header, a, b);
        }
    }
}

proof fn lemma_name_error_is_stable(a: Seq<u8>, b: Seq<u8>, expected: Seq<u8>, at: nat)
    requires
        expected.len() <= 0xffff,
    ensures
        match name_error(a, expected, at) {
            Some(ZipError::UpstreamReadError(ShortRead { missing })) => {
                &&& missing > 0
                &&& b.len() < missing ==> name_error(a + b, expected, at) == Some(
                    ZipError::UpstreamReadError(ShortRead { missing: (missing - b.len()) as usize }),
                )
            },
            error => name_error(a + b, expected, at) == error,
        },
    decreases expected.len() - at,
{
    if at < expected.len() {
        let end = if expected.len() - at <= NAME_CHUNK { expected.len() } else { at + NAME_CHUNK as nat };
        if a.len() >= 30 + end {
            assert((a + b).subrange(30 + at as int, 30 + end as int) =~= a.subrange(30 + at as int, 30 + end as int));
            lemma_name_error_is_stable(a, b, expected, end);
        }
    }
}

proof fn lemma_local_sizes_are_stable(header: LocalFileHeader, a: Seq<u8>, b: Seq<u8>)
    ensures
        stable(local_sizes(header, a), local_sizes(header, a + b), b.len()),
{
    lemma_parts_of_prefix(a, b);
    let name_end = 30 + header.file_name_length as int;
    let end = name_end + header.extra_field_length;
    lemma_parse_lacks_nothing(
        a.subrange(name_end, end),
        zip64_wants(header.uncompressed_size, header.compressed_size, None, None),
        Seq::empty(),
    );
}

/// The start of an entry's data is the same whatever follows its local file header, and where bytes lack, no fewer will
/// do.
pub proof fn lemma_data_offset_is_stable(entry: StoredZipEntryView, a: Seq<u8>, b: Seq<u8>)
    ensures
        stable(entry.data_offset(a), entry.data_offset(a + b), b.len()),
{
    lemma_le_of_prefix(a, b);
    if a.len() >= 30 {
        assert(LocalFileHeader::read_at(a + b, 4) == LocalFileHeader::read_at(a, 4));
        if let Ok(header) = LocalFileHeader::read_at(a, 4) {
            if header.file_name_length == entry.entry.filename.raw.len() {
                lemma_name_error_is_stable(a, b, entry.entry.filename.raw, 0);
            }
            lemma_local_sizes_are_stable(header, a, b);
        }
    }
}

proof fn lemma_last_end_record_of_tail(data: Seq<u8>, cut: int, low: int, high: int)
    requires
        0 <= cut <= data.len(),
        0 <= low,
        high + 4 <= data.len() - cut,
    ensures
        last_end_record(data, cut + low, cut + high) == (match last_end_record(data.skip(cut), low, high) {
            Some(i) => Some(cut + i),
            None => None,
        }),
    decreases high - low + 1,
{
    if high >= low {
        assert(le32(data.skip(cut), high) == le32(data, cut + high));
        lemma_last_end_record_of_tail(data, cut, low, high - 1);
    }
}

/// The end of an archive is all it takes to locate its end record.
pub proof fn lemma_tail_locates_end_record(data: Seq<u8>, cut: int)
    requires
        0 <= cut <= data.len() <= u64::MAX,
        cut == 0 || data.len() - cut >= MAX_END_RECORD_DISTANCE,
    ensures
        eocdr_of(data.skip(cut), data.len() as u64) == eocdr_of(data, data.len() as u64),
{
    let tail = data.skip(cut);
    let low = if tail.len() <= MAX_END_RECORD_DISTANCE { 0 } else { tail.len() - MAX_END_RECORD_DISTANCE };
    lemma_last_end_record_of_tail(data, cut, low, tail.len() - 22);
    lemma_last_end_record_bounds(data, cut + low, data.len() - 22);
}

/// The last position with a signature holds one, and none comes behind it.
pub proof fn lemma_last_end_record_bounds(data: Seq<u8>, low: int, high: int)
    ensures
        last_end_record(data, low, high) matches Some(i) ==> low <= i <= high && le32(data, i) == EOCDR_SIGNATURE
            && forall|j: int| i < j <= high ==> #[trigger] le32(data, j) != EOCDR_SIGNATURE,
        last_end_record(data, low, high) is None ==> forall|j: int|
            low <= j <= high ==> #[trigger] le32(data, j) != EOCDR_SIGNATURE,
    decreases high - low + 1,
{
    if high >= low {
        lemma_last_end_record_bounds(data, low, high - 1);
    }
}

/// The end record that is chosen is a whole one, and no whole one comes behind it.
pub proof fn lemma_last_end_record_is_chosen(data: Seq<u8>)
    requires
        data.len() <= u64::MAX,
    ensures
        eocdr_of(data, data.len() as u64) matches Ok(offset) ==> {
            &&& 4 <= offset
            &&& offset + 18 <= data.len()
            &&& le32(data, offset - 4) == EOCDR_SIGNATURE
            &&& forall|j: int| offset - 4 < j <= data.len() - 22 ==> #[trigger] le32(data, j) != EOCDR_SIGNATURE
        },
{
    let low = if data.len() <= MAX_END_RECORD_DISTANCE { 0 } else { data.len() - MAX_END_RECORD_DISTANCE };
    lemma_last_end_record_bounds(data, low, data.len() - 22);
}

proof fn lemma_entries_after(
    input: Seq<u8>,
    at: nat,
    count: nat,
    remaining: u64,
    claimed_entries: u64,
    seen: Seq<StoredZipEntryView>,
)
    requires
        at <= input.len(),
    ensures
        entries_after(input, at, count, remaining, claimed_entries, seen) matches Ok((entries, end)) ==> {
            &&& entries.len() == seen.len() + count
            &&& at <= end <= input.len()
            &&& end - at <= remaining
        },
    decreases count,
{
    if count > 0 {
        if let Ok((entry, length)) = cd_record_of(input.skip(at as int), remaining, claimed_entries) {
            lemma_entries_after(
                input,
                at + length,
                (count - 1) as nat,
                (remaining - length) as u64,
                claimed_entries,
                seen.push(entry),
            );
        }
    }
}

/// A central directory that is accepted holds as many entries as it claims, and these, with an optional digital signature
/// behind them, take up exactly the bytes that it claims.
pub proof fn lemma_directory_is_exact(input: Seq<u8>, num_of_entries: u64, directory_start: u64, directory_size: u64)
    ensures
        directory_of(input, num_of_entries, directory_start, directory_size) matches Ok(entries) ==> {
            &&& entries.len() == num_of_entries
            &&& directory_size <= input.len()
            &&& exists|at: nat| #[trigger] signature_end(input, at, directory_size) == Ok::<nat, ZipError>(
                directory_size as nat,
            ) && entries_after(input, 0, num_of_entries as nat, directory_size, num_of_entries, Seq::empty()) == Ok::<
                (Seq<StoredZipEntryView>, nat),
                ZipError,
            >((entries, at))
        },
{
    if directory_of(input, num_of_entries, directory_start, directory_size) is Ok {
        lemma_entries_after(input, 0, num_of_entries as nat, directory_size, num_of_entries, Seq::empty());
        let at = entries_after(
            input,
            0,
            num_of_entries as nat,
            directory_size,
            num_of_entries,
            Seq::empty(),
        )->Ok_0.1;
        assert(signature_end(input, at, directory_size) is Ok);
    }
}

/// Whether the data of an entry, whose local file header is read from `input`, takes up the bytes from `start` to `end`.
pub open spec fn has_data_at(entry: StoredZipEntryView, input: Seq<u8>, start: nat, end: nat) -> bool {
    &&& entry.data_offset(input) == Ok::<u64, ZipError>(start as u64)
    &&& start <= u64::MAX
    &&& end == start + entry.entry.compressed_size
}

/// Entries whose local file headers stand at different offsets do not overlap: where the data of one can be read, it ends
/// before the other begins, or the other comes before it. And it ends before the central directory.
///
/// The local file headers are read from `input`.
pub proof fn lemma_entries_do_not_overlap(
    entries: Seq<StoredZipEntryView>,
    directory_start: u64,
    i: int,
    j: int,
    input: Seq<u8>,
    start: nat,
    end: nat,
)
    requires
        0 <= i < entries.len(),
        0 <= j < entries.len(),
        has_data_at(with_boundaries(entries, directory_start)[i], input, start, end),
    ensures
        entries[i].file_offset + 30 <= start <= end <= directory_start,
        entries[i].file_offset < entries[j].file_offset ==> end <= entries[j].file_offset,
{
    lemma_next_after(entries, entries[i].file_offset, directory_start);
}

/// Entries that are apart are given their whole range: where all other local file headers come before an entry's or behind
/// the end of its data, and the central directory does too, the entry's data may extend to its end.
pub proof fn lemma_boundary_admits_data(entries: Seq<StoredZipEntryView>, directory_start: u64, i: int, end: u64)
    requires
        0 <= i < entries.len(),
        end <= directory_start,
        forall|j: int|
            0 <= j < entries.len() ==> (#[trigger] entries[j]).file_offset <= entries[i].file_offset
                || end <= entries[j].file_offset,
    ensures
        end <= with_boundaries(entries, directory_start)[i].data_end_boundary,
{
    lemma_next_after(entries, entries[i].file_offset, directory_start);
}

/// Whether the end records of an archive, `data`, say what `record` and `file` hold, where the first of them stands at
/// `boundary`: the ZIP64 end record, or, where there is none, the end of central directory record.
pub open spec fn records_say(
    data: Seq<u8>,
    file: ZipFileView,
    record: CombinedCentralDirectoryRecord,
    boundary: u64,
) -> bool {
    eocdr_of(data, data.len() as u64) matches Ok(offset) && {
        let eocdr = EndOfCentralDirectoryHeader::at(data.skip(offset as int), 0);
        let comment_end = offset + 18 + eocdr.file_comm_length;
        &&& comment_end <= data.len()
        &&& file.comment == ZipStringView::decoded(data.subrange(offset + 18, comment_end), StringEncoding::Utf8)
        &&& if file.zip64 {
            &&& LOCATOR_DISTANCE <= offset
            &&& boundary + 56 <= offset - LOCATOR_DISTANCE
            &&& Zip64EndOfCentralDirectoryLocator::read(data.subrange(offset - 24, offset - 4)) matches Ok(Some(locator))
                && locator.relative_offset == boundary
            &&& le32(data, boundary as int) == ZIP64_EOCDR_SIGNATURE
            &&& Zip64EndOfCentralDirectoryRecord::read(data.subrange(boundary as int, boundary + 56)) matches Ok(zip64)
                && boundary + 12 + zip64.size_of_zip64_end_of_cd_record == offset - LOCATOR_DISTANCE
                && CombinedCentralDirectoryRecord::of_both(eocdr, zip64) == Ok::<
                CombinedCentralDirectoryRecord,
                ZipError,
            >(record)
        } else {
            &&& boundary == offset - 4
            &&& le32(data, boundary as int) == EOCDR_SIGNATURE
            &&& CombinedCentralDirectoryRecord::of_legacy(eocdr) == Ok::<CombinedCentralDirectoryRecord, ZipError>(
                record,
            )
        }
    }
}

/// Whether `file` is what stands in an archive, `data`, according to its central directory, which takes up the bytes that
/// `record` tells of and ends at `boundary`.
pub open spec fn directory_holds(
    data: Seq<u8>,
    file: ZipFileView,
    record: CombinedCentralDirectoryRecord,
    boundary: u64,
) -> bool {
    let start = record.offset_of_start_of_directory;
    &&& start + record.directory_size == boundary <= data.len()
    &&& record.disk_number == record.disk_number_start_of_cd
    &&& record.num_entries_in_directory == record.num_entries_in_directory_on_disk == file.entries.len()
    &&& directory_of(
        data.subrange(start as int, boundary as int),
        record.num_entries_in_directory,
        start,
        record.directory_size,
    ) matches Ok(entries) && file.entries == with_boundaries(entries, start)
}

/// Whether `file` is what stands in an archive, `data`: its end records, of which the first stands at `boundary`, say
/// `record`, and its central directory ends exactly there.
pub open spec fn is_bound(
    data: Seq<u8>,
    file: ZipFileView,
    record: CombinedCentralDirectoryRecord,
    boundary: u64,
) -> bool {
    &&& records_say(data, file, record, boundary)
    &&& directory_holds(data, file, record, boundary)
}

/// What comes of a step and all further ones.
pub open spec fn follow(step: Result<FileStepView, ZipError>, data: Seq<u8>) -> Result<ZipFileView, ZipError> {
    match step {
        Err(e) => Err(e),
        Ok(FileStepView::Done(file)) => Ok(file),
        Ok(FileStepView::Continue(next)) => next.outcome(data),
    }
}

proof fn lemma_directory_outcome(
    record: CombinedCentralDirectoryRecord,
    comment: ZipStringView,
    zip64: bool,
    boundary: u64,
    data: Seq<u8>,
)
    requires
        boundary <= data.len() <= u64::MAX,
    ensures
        follow(approach_directory(record, comment, zip64, boundary), data) matches Ok(file) ==> {
            &&& directory_holds(data, file, record, boundary)
            &&& file.comment == comment
            &&& file.zip64 == zip64
        },
{
    let reader = FileReaderView::Directory { record, comment, zip64, boundary };
    let start = record.offset_of_start_of_directory;
    let bytes = window(data, start, record.directory_size);
    lemma_directory_is_exact(bytes, record.num_entries_in_directory, start, record.directory_size);
    if follow(approach_directory(record, comment, zip64, boundary), data) is Ok {
        assert(reader.outcome(data) is Ok);
        assert(reader.step(bytes) is Ok);
        assert(bytes =~= data.subrange(start as int, boundary as int));
    }
}

proof fn lemma_legacy_is_bound(data: Seq<u8>, offset: u64, eocdr: EndOfCentralDirectoryHeader, comment: ZipStringView)
    requires
        data.len() <= u64::MAX,
        eocdr_of(data, data.len() as u64) == Ok::<u64, ZipError>(offset),
        eocdr == EndOfCentralDirectoryHeader::at(data.skip(offset as int), 0),
        offset + 18 + eocdr.file_comm_length <= data.len(),
        comment == ZipStringView::decoded(
            data.subrange(offset + 18, offset + 18 + eocdr.file_comm_length),
            StringEncoding::Utf8,
        ),
    ensures
        follow(approach_legacy(offset, eocdr, comment), data) matches Ok(file) ==> exists|
            record: CombinedCentralDirectoryRecord,
            boundary: u64,
        | is_bound(data, file, record, boundary),
{
    lemma_last_end_record_is_chosen(data);
    let boundary = (offset - 4) as u64;
    if let Ok(record) = CombinedCentralDirectoryRecord::of_legacy(eocdr) {
        lemma_directory_outcome(record, comment, false, boundary, data);
        if let Ok(file) = follow(approach_legacy(offset, eocdr, comment), data) {
            assert(is_bound(data, file, record, boundary));
        }
    }
}

proof fn lemma_zip64_is_bound(
    data: Seq<u8>,
    offset: u64,
    eocdr: EndOfCentralDirectoryHeader,
    comment: ZipStringView,
    boundary: u64,
)
    requires
        data.len() <= u64::MAX,
        LOCATOR_DISTANCE <= offset,
        eocdr_of(data, data.len() as u64) == Ok::<u64, ZipError>(offset),
        eocdr == EndOfCentralDirectoryHeader::at(data.skip(offset as int), 0),
        offset + 18 + eocdr.file_comm_length <= data.len(),
        comment == ZipStringView::decoded(
            data.subrange(offset + 18, offset + 18 + eocdr.file_comm_length),
            StringEncoding::Utf8,
        ),
        Zip64EndOfCentralDirectoryLocator::read(data.subrange(offset - 24, offset - 4)) matches Ok(Some(locator))
            && locator.relative_offset == boundary,
    ensures
        (FileReaderView::Zip64EndRecord {
            eocdr,
            comment,
            locator_offset: (offset - 24) as u64,
            zip64_eocdr_offset: boundary,
        }).outcome(data) matches Ok(file) ==> exists|record: CombinedCentralDirectoryRecord, boundary: u64|
            is_bound(data, file, record, boundary),
{
    let reader = FileReaderView::Zip64EndRecord {
        eocdr,
        comment,
        locator_offset: (offset - 24) as u64,
        zip64_eocdr_offset: boundary,
    };
    let bytes = window(data, boundary, 56);
    assert(reader.outcome(data) == follow(reader.step(bytes), data));
    if let Ok(file) = reader.outcome(data) {
        assert(Zip64EndOfCentralDirectoryRecord::read(bytes) is Ok);
        assert(bytes.len() >= 56);
        assert(bytes =~= data.subrange(boundary as int, boundary + 56));
        let zip64 = Zip64EndOfCentralDirectoryRecord::read(bytes)->Ok_0;
        assert(le32(bytes, 0) == le32(data, boundary as int));
        assert(zip64.size_of_zip64_end_of_cd_record >= 44);
        let record = CombinedCentralDirectoryRecord::of_both(eocdr, zip64)->Ok_0;
        lemma_directory_outcome(record, comment, true, boundary, data);
        assert(is_bound(data, file, record, boundary));
    }
}

/// An archive that is accepted is in one piece, holds as many entries as it claims, and its central directory ends exactly
/// where its end record begins: the ZIP64 end record that its locator points to, or, where there is none, the end of
/// central directory record.
pub proof fn lemma_accepted_archive_is_bound(data: Seq<u8>)
    requires
        data.len() <= u64::MAX,
    ensures
        archive_of(data) matches Ok(file) ==> exists|record: CombinedCentralDirectoryRecord, boundary: u64|
            is_bound(data, file, record, boundary),
{
    if let Ok(offset) = eocdr_of(data, data.len() as u64) {
        let reader = FileReaderView::EndRecord { eocdr_offset: offset };
        let bytes = window(data, offset, 65553);
        lemma_last_end_record_is_chosen(data);
        lemma_end_record_is_near(data);
        assert(bytes =~= data.skip(offset as int));
        assert(reader.outcome(data) == follow(reader.step(bytes), data));
        let eocdr = EndOfCentralDirectoryHeader::at(bytes, 0);
        let comment_end = offset + 18 + eocdr.file_comm_length;
        if reader.step(bytes) is Ok {
            let comment = ZipStringView::decoded(data.subrange(offset + 18, comment_end), StringEncoding::Utf8);
            assert(bytes.subrange(18, 18 + eocdr.file_comm_length) =~= data.subrange(offset + 18, comment_end));
            lemma_legacy_is_bound(data, offset, eocdr, comment);
            if offset >= LOCATOR_DISTANCE {
                let next = FileReaderView::Locator { eocdr_offset: offset, eocdr, comment };
                let place = window(data, (offset - 24) as u64, 20);
                assert(place =~= data.subrange(offset - 24, offset - 4));
                assert(next.outcome(data) == follow(next.step(place), data));
                if let Ok(Some(locator)) = Zip64EndOfCentralDirectoryLocator::read(place) {
                    lemma_zip64_is_bound(data, offset, eocdr, comment, locator.relative_offset);
                }
            }
        }
    }
}

proof fn lemma_end_record_is_near(data: Seq<u8>)
    requires
        data.len() <= u64::MAX,
    ensures
        eocdr_of(data, data.len() as u64) matches Ok(offset) ==> data.len() - offset <= 65553,
{
    let low = if data.len() <= MAX_END_RECORD_DISTANCE { 0 } else { data.len() - MAX_END_RECORD_DISTANCE };
    lemma_last_end_record_bounds(data, low, data.len() - 22);
}

} // verus!
