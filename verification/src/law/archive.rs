//! An archive that was written is read as it was written.

use vstd::prelude::*;

use crate::bytes::{le32, le32_bytes, le64, lemma_le32_reads_back};
use crate::crc::crc32_of;
use crate::entry::{StoredZipEntryView, ZipEntryView};
use crate::error::ZipError;
use crate::format::consts::{EOCDR_SIGNATURE, LFH_SIGNATURE, ZIP64_EOCDL_SIGNATURE, ZIP64_EOCDR_SIGNATURE};
use crate::format::end_record::{lemma_end_record_reads_back, lemma_locator_reads_back};
use crate::format::end_record::{lemma_zip64_end_record_reads_back, CombinedCentralDirectoryRecord};
use crate::format::end_record::{EndOfCentralDirectoryHeader, Zip64EndOfCentralDirectoryLocator};
use crate::format::end_record::Zip64EndOfCentralDirectoryRecord;
use crate::law::readable::has_sound_fields;
use crate::law::reading::{follow, lemma_boundary_admits_data};
use crate::law::round_trip::{legible_name, lemma_central_entry_reads_back, lemma_written_data_is_found};
use crate::law::round_trip::{lemma_written_entry_reads_back, writes};
use crate::read::boundary::with_boundaries;
use crate::read::directory::{directory_of, entries_after, is_oversized, range_error};
use crate::read::record::cd_record_of;
use crate::read::file::{archive_of, eocdr_of, last_end_record, window, FileReaderView, FileStepView, ZipFileView};
use crate::read::file::{approach_directory, approach_legacy, record_offset, zip64_record_error};
use crate::read::file::{LOCATOR_DISTANCE, MAX_END_RECORD_DISTANCE};
use crate::string::{StringEncoding, ZipStringView};
use crate::write::archive::{CentralDirectoryEntryView, ZipFileWriterView};
use crate::write::ending::directory_bytes;
use crate::write::entry_seekable::{ClosingEntryView, EntrySeekableWriterView};

verus! {

/// The entries of an archive as they are read from its central directory.
pub open spec fn stored_entries(entries: Seq<CentralDirectoryEntryView>) -> Seq<StoredZipEntryView> {
    Seq::new(entries.len(), |i: int| entries[i].stored())
}

/// Whether all entries of an archive can be read from its central directory.
pub open spec fn all_readable(entries: Seq<CentralDirectoryEntryView>) -> bool {
    forall|i: int| 0 <= i < entries.len() ==> #[trigger] entries[i].readable()
}

proof fn lemma_directory_is_long_enough(entries: Seq<CentralDirectoryEntryView>)
    ensures
        directory_bytes(entries).len() >= 46 * entries.len(),
    decreases entries.len(),
{
    if entries.len() > 0 {
        lemma_directory_is_long_enough(entries.drop_last());
        assert(entries.last().header.to_bytes().len() == 42);
        assert(entries.last().to_bytes().len() >= 46);
    }
}

proof fn lemma_skip_first(all: Seq<u8>, at: int, first: Seq<u8>, next: Seq<u8>)
    requires
        0 <= at <= all.len(),
        all.skip(at) == first + next,
    ensures
        all.skip(at + first.len()) == next,
        at + first.len() + next.len() == all.len(),
{
    assert(all.skip(at).len() == first.len() + next.len());
    assert(all.skip(at + first.len()) =~= all.skip(at).skip(first.len() as int));
    assert((first + next).skip(first.len() as int) =~= next);
}

/// The entries of a central directory, and where they end.
#[verifier::opaque]
spec fn entries_read(
    input: Seq<u8>,
    at: nat,
    count: nat,
    remaining: u64,
    claimed_entries: u64,
    seen: Seq<StoredZipEntryView>,
) -> Result<(Seq<StoredZipEntryView>, nat), ZipError> {
    entries_after(input, at, count, remaining, claimed_entries, seen)
}

/// Whether `piece` is read as the entry `value`, whatever follows it.
#[verifier::opaque]
spec fn is_read_as(piece: Seq<u8>, value: StoredZipEntryView, claimed_entries: u64) -> bool {
    forall|rest: Seq<u8>, remaining: u64|
        piece.len() <= remaining ==> #[trigger] cd_record_of(piece + rest, remaining, claimed_entries) == Ok::<
            (StoredZipEntryView, nat),
            ZipError,
        >((value, piece.len()))
}

/// Pieces from the index `k` on, one after the other.
spec fn joined(pieces: Seq<Seq<u8>>, k: int) -> Seq<u8>
    decreases pieces.len() - k,
{
    if 0 <= k < pieces.len() {
        pieces[k] + joined(pieces, k + 1)
    } else {
        Seq::empty()
    }
}

proof fn lemma_piece_is_read(
    all: Seq<u8>,
    at: nat,
    count: nat,
    remaining: u64,
    claimed_entries: u64,
    seen: Seq<StoredZipEntryView>,
    piece: Seq<u8>,
    value: StoredZipEntryView,
    next: Seq<u8>,
)
    requires
        is_read_as(piece, value, claimed_entries),
        count > 0,
        all.skip(at as int) == piece + next,
        piece.len() <= remaining,
    ensures
        entries_read(all, at, count, remaining, claimed_entries, seen) == entries_read(
            all,
            at + piece.len(),
            (count - 1) as nat,
            (remaining - piece.len()) as u64,
            claimed_entries,
            seen.push(value),
        ),
{
    reveal(entries_read);
    reveal(is_read_as);
}

proof fn lemma_pieces_are_read(
    pieces: Seq<Seq<u8>>,
    values: Seq<StoredZipEntryView>,
    k: int,
    all: Seq<u8>,
    at: nat,
    claimed_entries: u64,
)
    requires
        0 <= k <= pieces.len() == values.len(),
        forall|i: int| 0 <= i < pieces.len() ==> is_read_as(#[trigger] pieces[i], values[i], claimed_entries),
        at <= all.len() <= u64::MAX,
        all.skip(at as int) == joined(pieces, k),
    ensures
        entries_read(
            all,
            at,
            (pieces.len() - k) as nat,
            (all.len() - at) as u64,
            claimed_entries,
            values.take(k),
        ) == Ok::<(Seq<StoredZipEntryView>, nat), ZipError>((values, all.len())),
    decreases pieces.len() - k,
{
    assert(all.skip(at as int).len() == all.len() - at);
    if k == pieces.len() {
        reveal(entries_read);
        assert(values.take(k) =~= values);
    } else {
        let next = joined(pieces, k + 1);
        lemma_skip_first(all, at as int, pieces[k], next);
        lemma_piece_is_read(
            all,
            at,
            (pieces.len() - k) as nat,
            (all.len() - at) as u64,
            claimed_entries,
            values.take(k),
            pieces[k],
            values[k],
            next,
        );
        assert(values.take(k).push(values[k]) =~= values.take(k + 1));
        lemma_pieces_are_read(pieces, values, k + 1, all, at + pieces[k].len(), claimed_entries);
    }
}

/// The bytes of an entry.
#[verifier::opaque]
spec fn entry_bytes(entry: CentralDirectoryEntryView) -> Seq<u8> {
    entry.to_bytes()
}

/// The bytes of entries, one after the other.
#[verifier::opaque]
spec fn entries_bytes(entries: Seq<CentralDirectoryEntryView>) -> Seq<u8> {
    directory_bytes(entries)
}

/// The bytes of each entry.
spec fn entry_pieces(entries: Seq<CentralDirectoryEntryView>) -> Seq<Seq<u8>> {
    Seq::new(entries.len(), |i: int| entry_bytes(entries[i]))
}

proof fn lemma_entries_bytes_last(entries: Seq<CentralDirectoryEntryView>)
    ensures
        entries.len() == 0 ==> entries_bytes(entries) == Seq::<u8>::empty(),
        entries.len() > 0 ==> entries_bytes(entries) == entries_bytes(entries.drop_last()) + entry_bytes(entries.last()),
{
    reveal(entry_bytes);
    reveal(entries_bytes);
}

proof fn lemma_join(a: Seq<u8>, b: Seq<u8>, c: Seq<u8>)
    ensures
        (a + b) + c == a + (b + c),
        a + Seq::<u8>::empty() == a,
        Seq::<u8>::empty() + a == a,
{
    assert((a + b) + c =~= a + (b + c));
    assert(a + Seq::<u8>::empty() =~= a);
    assert(Seq::<u8>::empty() + a =~= a);
}

proof fn lemma_entries_bytes(entries: Seq<CentralDirectoryEntryView>)
    ensures
        entries.len() == 0 ==> entries_bytes(entries) == Seq::<u8>::empty(),
        entries.len() > 0 ==> entries_bytes(entries) == entry_bytes(entries[0]) + entries_bytes(entries.drop_first()),
    decreases entries.len(),
{
    lemma_entries_bytes_last(entries);
    if entries.len() > 0 {
        let first = entry_bytes(entries[0]);
        let front = entries.drop_last();
        let rest = entries.drop_first();
        lemma_entries_bytes(front);
        lemma_entries_bytes_last(rest);
        lemma_join(first, entries_bytes(rest.drop_last()), entry_bytes(entries.last()));
        lemma_join(first, Seq::empty(), Seq::empty());
        if entries.len() > 1 {
            assert(front.drop_first() =~= rest.drop_last());
            assert(rest.last() == entries.last());
            assert(front[0] == entries[0]);
        }
    }
}

proof fn lemma_directory_is_joined(entries: Seq<CentralDirectoryEntryView>, k: int)
    requires
        0 <= k <= entries.len(),
    ensures
        entries_bytes(entries.skip(k)) == joined(entry_pieces(entries), k),
    decreases entries.len() - k,
{
    lemma_entries_bytes(entries.skip(k));
    if k < entries.len() {
        assert(entries.skip(k).drop_first() =~= entries.skip(k + 1));
        lemma_directory_is_joined(entries, k + 1);
    }
}

proof fn lemma_entry_is_read(e: CentralDirectoryEntryView, claimed_entries: u64)
    requires
        e.readable(),
    ensures
        is_read_as(entry_bytes(e), e.stored(), claimed_entries),
{
    reveal(entry_bytes);
    reveal(is_read_as);
    assert forall|rest: Seq<u8>, remaining: u64| e.to_bytes().len() <= remaining implies #[trigger] cd_record_of(
        e.to_bytes() + rest,
        remaining,
        claimed_entries,
    ) == Ok::<(StoredZipEntryView, nat), ZipError>((e.stored(), e.to_bytes().len())) by {
        lemma_central_entry_reads_back(e, rest, remaining, claimed_entries);
    }
}

/// A central directory that was written is read as it was written.
pub proof fn lemma_directory_reads_back(entries: Seq<CentralDirectoryEntryView>, directory_start: u64)
    requires
        all_readable(entries),
        directory_bytes(entries).len() <= u64::MAX,
        entries.len() <= usize::MAX,
        !is_oversized(entries.len() as usize, directory_start),
    ensures
        directory_of(
            directory_bytes(entries),
            entries.len() as u64,
            directory_start,
            directory_bytes(entries).len() as u64,
        ) == Ok::<Seq<StoredZipEntryView>, ZipError>(stored_entries(entries)),
{
    let all = directory_bytes(entries);
    let claimed_entries = entries.len() as u64;
    lemma_directory_is_joined(entries, 0);
    assert(entries.skip(0) =~= entries);
    assert(all == entries_bytes(entries)) by {
        reveal(entries_bytes);
    }
    assert(all.skip(0) =~= all);
    assert forall|i: int| 0 <= i < entries.len() implies is_read_as(
        #[trigger] entry_pieces(entries)[i],
        stored_entries(entries)[i],
        claimed_entries,
    ) by {
        assert(entries[i].readable());
        lemma_entry_is_read(entries[i], claimed_entries);
    }
    lemma_pieces_are_read(entry_pieces(entries), stored_entries(entries), 0, all, 0, claimed_entries);
    assert(stored_entries(entries).take(0) =~= Seq::empty());
    reveal(entries_read);
}

/// An archive: its entries, `body`, and what comes behind them.
pub open spec fn whole(body: Seq<u8>, writer: ZipFileWriterView) -> Seq<u8> {
    body + writer.ending(body.len() as u64)
}

/// Where the end of central directory record of an archive stands.
pub open spec fn end_record_at(body: Seq<u8>, writer: ZipFileWriterView) -> int {
    (body.len() + directory_bytes(writer.cd_entries).len() + writer.zip64_ending(body.len() as u64).len()) as int
}

/// Whether the end records of an archive cannot be mistaken: the comment does not look like another end record, and, where
/// there are no ZIP64 end records, what comes before the end record does not look like one.
pub open spec fn is_unmistakable(body: Seq<u8>, writer: ZipFileWriterView) -> bool {
    let data = whole(body, writer);
    let at = end_record_at(body, writer);
    &&& forall|j: int| at < j <= data.len() - 22 ==> #[trigger] le32(data, j) != EOCDR_SIGNATURE
    &&& !writer.ends_in_zip64(body.len() as u64) && at >= 20 ==> le32(data, at - 20) != ZIP64_EOCDL_SIGNATURE
}

/// Whether an archive is within the limits of this machine and was not refused.
pub open spec fn is_writable(body: Seq<u8>, writer: ZipFileWriterView) -> bool {
    &&& whole(body, writer).len() <= u64::MAX
    &&& writer.cd_entries.len() <= usize::MAX
    &&& !is_oversized(writer.cd_entries.len() as usize, body.len() as u64)
    &&& writer.wf()
    &&& writer.ending_error(body.len() as u64) is None
}

/// What an archive holds as it is read.
pub open spec fn file_written(body: Seq<u8>, writer: ZipFileWriterView) -> ZipFileView {
    ZipFileView {
        entries: with_boundaries(stored_entries(writer.cd_entries), body.len() as u64),
        comment: ZipStringView::decoded(writer.comment, StringEncoding::Utf8),
        zip64: writer.ends_in_zip64(body.len() as u64),
    }
}

/// What the end records of an archive say together.
pub open spec fn record_written(body: Seq<u8>, writer: ZipFileWriterView) -> CombinedCentralDirectoryRecord {
    CombinedCentralDirectoryRecord {
        disk_number: 0,
        disk_number_start_of_cd: 0,
        num_entries_in_directory_on_disk: writer.cd_entries.len() as u64,
        num_entries_in_directory: writer.cd_entries.len() as u64,
        directory_size: writer.directory_size(),
        offset_of_start_of_directory: body.len() as u64,
    }
}

proof fn lemma_five_parts(a: Seq<u8>, b: Seq<u8>, c: Seq<u8>, d: Seq<u8>)
    ensures
        ({
            let s = a + (b + c + d);
            let b_at = a.len() as int;
            let c_at = b_at + b.len();
            let d_at = c_at + c.len();
            &&& s.len() == d_at + d.len()
            &&& s.subrange(b_at, c_at) == b
            &&& s.subrange(c_at, d_at) == c
            &&& s.skip(d_at) == d
        }),
{
    let s = a + (b + c + d);
    let b_at = a.len() as int;
    let c_at = b_at + b.len();
    let d_at = c_at + c.len();
    assert(s.subrange(b_at, c_at) =~= b);
    assert(s.subrange(c_at, d_at) =~= c);
    assert(s.skip(d_at) =~= d);
}

proof fn lemma_whole_parts(body: Seq<u8>, writer: ZipFileWriterView)
    ensures
        ({
            let data = whole(body, writer);
            let offset = body.len() as u64;
            let directory_end = body.len() + directory_bytes(writer.cd_entries).len();
            let at = end_record_at(body, writer);
            &&& data.len() == at + writer.legacy_ending(offset).len()
            &&& data.subrange(body.len() as int, directory_end as int) == directory_bytes(writer.cd_entries)
            &&& data.subrange(directory_end as int, at) == writer.zip64_ending(offset)
            &&& data.skip(at) == writer.legacy_ending(offset)
        }),
{
    let offset = body.len() as u64;
    lemma_five_parts(
        body,
        directory_bytes(writer.cd_entries),
        writer.zip64_ending(offset),
        writer.legacy_ending(offset),
    );
}

proof fn lemma_legacy_ending(writer: ZipFileWriterView, offset: u64)
    requires
        writer.comment.len() <= 0xffff,
    ensures
        ({
            let ending = writer.legacy_ending(offset);
            &&& ending.len() == 22 + writer.comment.len()
            &&& le32(ending, 0) == EOCDR_SIGNATURE
            &&& EndOfCentralDirectoryHeader::at(ending.skip(4), 0) == writer.end_record(offset)
            &&& ending.skip(4).subrange(18, 18 + writer.comment.len() as int) == writer.comment
        }),
{
    let ending = writer.legacy_ending(offset);
    let record = writer.end_record(offset).to_bytes();
    assert(record.len() == 18);
    assert(ending.subrange(0, 4) =~= le32_bytes(EOCDR_SIGNATURE));
    lemma_le32_reads_back(ending, 0, EOCDR_SIGNATURE);
    assert(ending.skip(4).subrange(0, 18) =~= record);
    lemma_end_record_reads_back(writer.end_record(offset), ending.skip(4), 0);
    assert(ending.skip(4).subrange(18, 18 + writer.comment.len() as int) =~= writer.comment);
}

proof fn lemma_two_records(a: Seq<u8>, b: Seq<u8>, c: Seq<u8>, d: Seq<u8>)
    requires
        a.len() == 4,
        b.len() == 52,
        c.len() == 4,
        d.len() == 16,
    ensures
        ({
            let s = (a + b) + (c + d);
            &&& s.len() == 76
            &&& s.subrange(0, 56).subrange(0, 4) == a
            &&& s.subrange(0, 56).subrange(4, 56) == b
            &&& s.subrange(56, 76).subrange(0, 4) == c
            &&& s.subrange(56, 76).subrange(4, 20) == d
        }),
{
    let s = (a + b) + (c + d);
    assert(s.subrange(0, 56).subrange(0, 4) =~= a);
    assert(s.subrange(0, 56).subrange(4, 56) =~= b);
    assert(s.subrange(56, 76).subrange(0, 4) =~= c);
    assert(s.subrange(56, 76).subrange(4, 20) =~= d);
}

proof fn lemma_zip64_record_is_read(record: Zip64EndOfCentralDirectoryRecord, input: Seq<u8>)
    requires
        input.len() == 56,
        input.subrange(0, 4) == le32_bytes(ZIP64_EOCDR_SIGNATURE),
        input.subrange(4, 56) == record.to_bytes(),
        record.size_of_zip64_end_of_cd_record >= 44,
    ensures
        Zip64EndOfCentralDirectoryRecord::read(input) == Ok::<Zip64EndOfCentralDirectoryRecord, ZipError>(record),
{
    lemma_le32_reads_back(input, 0, ZIP64_EOCDR_SIGNATURE);
    lemma_zip64_end_record_reads_back(record, input, 4);
    assert(Zip64EndOfCentralDirectoryRecord::at(input, 4).size_of_zip64_end_of_cd_record == le64(input, 4));
}

proof fn lemma_locator_is_read(locator: Zip64EndOfCentralDirectoryLocator, input: Seq<u8>)
    requires
        input.len() == 20,
        input.subrange(0, 4) == le32_bytes(ZIP64_EOCDL_SIGNATURE),
        input.subrange(4, 20) == locator.to_bytes(),
    ensures
        Zip64EndOfCentralDirectoryLocator::read(input) == Ok::<Option<Zip64EndOfCentralDirectoryLocator>, ZipError>(
            Some(locator),
        ),
{
    lemma_le32_reads_back(input, 0, ZIP64_EOCDL_SIGNATURE);
    lemma_locator_reads_back(locator, input, 4);
}

proof fn lemma_record_lengths(record: Zip64EndOfCentralDirectoryRecord, locator: Zip64EndOfCentralDirectoryLocator)
    ensures
        record.to_bytes().len() == 52,
        locator.to_bytes().len() == 16,
{
}

/// Whether `ending` is read as a ZIP64 end record and a locator.
#[verifier::opaque]
spec fn is_zip64_ending(
    ending: Seq<u8>,
    record: Zip64EndOfCentralDirectoryRecord,
    locator: Zip64EndOfCentralDirectoryLocator,
) -> bool {
    &&& ending.len() == 76
    &&& Zip64EndOfCentralDirectoryRecord::read(ending.subrange(0, 56)) == Ok::<
        Zip64EndOfCentralDirectoryRecord,
        ZipError,
    >(record)
    &&& Zip64EndOfCentralDirectoryLocator::read(ending.subrange(56, 76)) == Ok::<
        Option<Zip64EndOfCentralDirectoryLocator>,
        ZipError,
    >(Some(locator))
}

proof fn lemma_records_are_read(
    a: Seq<u8>,
    b: Seq<u8>,
    c: Seq<u8>,
    d: Seq<u8>,
    record: Zip64EndOfCentralDirectoryRecord,
    locator: Zip64EndOfCentralDirectoryLocator,
)
    requires
        a == le32_bytes(ZIP64_EOCDR_SIGNATURE),
        b == record.to_bytes(),
        c == le32_bytes(ZIP64_EOCDL_SIGNATURE),
        d == locator.to_bytes(),
        record.size_of_zip64_end_of_cd_record >= 44,
    ensures
        is_zip64_ending((a + b) + (c + d), record, locator),
{
    let s = (a + b) + (c + d);
    lemma_record_lengths(record, locator);
    lemma_two_records(a, b, c, d);
    assert(is_zip64_ending(s, record, locator)) by {
        let first = s.subrange(0, 56);
        let second = s.subrange(56, 76);
        lemma_zip64_record_is_read(record, first);
        lemma_locator_is_read(locator, second);
        reveal(is_zip64_ending);
    }
}

proof fn lemma_zip64_ending(writer: ZipFileWriterView, offset: u64)
    requires
        writer.ends_in_zip64(offset),
    ensures
        is_zip64_ending(
            writer.zip64_ending(offset),
            writer.zip64_end_record(offset),
            writer.zip64_locator(offset),
        ),
{
    let record = writer.zip64_end_record(offset);
    let locator = writer.zip64_locator(offset);
    lemma_records_are_read(
        le32_bytes(ZIP64_EOCDR_SIGNATURE),
        record.to_bytes(),
        le32_bytes(ZIP64_EOCDL_SIGNATURE),
        locator.to_bytes(),
        record,
        locator,
    );
}

proof fn lemma_end_record_is_last(data: Seq<u8>, at: int, low: int, high: int)
    requires
        low <= at <= high,
        le32(data, at) == EOCDR_SIGNATURE,
        forall|j: int| at < j <= high ==> #[trigger] le32(data, j) != EOCDR_SIGNATURE,
    ensures
        last_end_record(data, low, high) == Some(at),
    decreases high - low,
{
    if at < high {
        lemma_end_record_is_last(data, at, low, high - 1);
    }
}

proof fn lemma_end_record_is_located(body: Seq<u8>, writer: ZipFileWriterView)
    requires
        is_writable(body, writer),
        is_unmistakable(body, writer),
    ensures
        ({
            let data = whole(body, writer);
            eocdr_of(data, data.len() as u64) == Ok::<u64, ZipError>((end_record_at(body, writer) + 4) as u64)
        }),
{
    let data = whole(body, writer);
    let at = end_record_at(body, writer);
    let low = if data.len() <= MAX_END_RECORD_DISTANCE { 0 } else { data.len() - MAX_END_RECORD_DISTANCE };
    lemma_whole_parts(body, writer);
    lemma_legacy_ending(writer, body.len() as u64);
    assert(le32(data.skip(at), 0) == le32(data, at));
    lemma_end_record_is_last(data, at, low, data.len() - 22);
}

proof fn lemma_directory_step(
    data: Seq<u8>,
    record: CombinedCentralDirectoryRecord,
    comment: ZipStringView,
    zip64: bool,
    boundary: u64,
    entries: Seq<StoredZipEntryView>,
)
    requires
        directory_of(
            window(data, record.offset_of_start_of_directory, record.directory_size),
            record.num_entries_in_directory,
            record.offset_of_start_of_directory,
            record.directory_size,
        ) == Ok::<Seq<StoredZipEntryView>, ZipError>(entries),
        record.offset_of_start_of_directory + record.directory_size == boundary,
    ensures
        (FileReaderView::Directory { record, comment, zip64, boundary }).outcome(data) == Ok::<ZipFileView, ZipError>(
            (ZipFileView {
                entries: with_boundaries(entries, record.offset_of_start_of_directory),
                comment,
                zip64,
            }),
        ),
{
}

proof fn lemma_directory_state(body: Seq<u8>, writer: ZipFileWriterView)
    requires
        is_writable(body, writer),
        all_readable(writer.cd_entries),
    ensures
        (FileReaderView::Directory {
            record: record_written(body, writer),
            comment: ZipStringView::decoded(writer.comment, StringEncoding::Utf8),
            zip64: writer.ends_in_zip64(body.len() as u64),
            boundary: (body.len() + directory_bytes(writer.cd_entries).len()) as u64,
        }).outcome(whole(body, writer)) == Ok::<ZipFileView, ZipError>(file_written(body, writer)),
{
    let data = whole(body, writer);
    let record = record_written(body, writer);
    lemma_whole_parts(body, writer);
    lemma_directory_reads_back(writer.cd_entries, body.len() as u64);
    lemma_directory_window(body, writer);
    lemma_directory_step(
        data,
        record,
        ZipStringView::decoded(writer.comment, StringEncoding::Utf8),
        writer.ends_in_zip64(body.len() as u64),
        (body.len() + directory_bytes(writer.cd_entries).len()) as u64,
        stored_entries(writer.cd_entries),
    );
}

proof fn lemma_directory_window(body: Seq<u8>, writer: ZipFileWriterView)
    requires
        is_writable(body, writer),
    ensures
        window(whole(body, writer), body.len() as u64, writer.directory_size()) == directory_bytes(writer.cd_entries),
{
    let data = whole(body, writer);
    let directory_end = (body.len() + directory_bytes(writer.cd_entries).len()) as int;
    lemma_whole_parts(body, writer);
    assert(data.len() > directory_end) by {
        lemma_legacy_ending(writer, body.len() as u64);
    }
    assert(window(data, body.len() as u64, writer.directory_size()) == data.subrange(body.len() as int, directory_end));
}

proof fn lemma_end_record_step(
    data: Seq<u8>,
    eocdr_offset: u64,
    eocdr: EndOfCentralDirectoryHeader,
    comment: Seq<u8>,
)
    requires
        eocdr_offset < data.len(),
        data.len() == eocdr_offset + 18 + comment.len(),
        comment.len() <= 0xffff,
        EndOfCentralDirectoryHeader::at(data.skip(eocdr_offset as int), 0) == eocdr,
        eocdr.file_comm_length == comment.len(),
        data.skip(eocdr_offset as int).subrange(18, 18 + comment.len() as int) == comment,
    ensures
        ({
            let decoded = ZipStringView::decoded(comment, StringEncoding::Utf8);
            (FileReaderView::EndRecord { eocdr_offset }).outcome(data) == (if eocdr_offset < LOCATOR_DISTANCE {
                follow(approach_legacy(eocdr_offset, eocdr, decoded), data)
            } else {
                (FileReaderView::Locator { eocdr_offset, eocdr, comment: decoded }).outcome(data)
            })
        }),
{
    let reader = FileReaderView::EndRecord { eocdr_offset };
    let bytes = window(data, eocdr_offset, 65553);
    assert(bytes == data.skip(eocdr_offset as int));
    assert(reader.wants() == (eocdr_offset, 65553u64));
    assert(reader.outcome(data) == follow(reader.step(bytes), data));
}

proof fn lemma_locator_step(
    data: Seq<u8>,
    eocdr_offset: u64,
    eocdr: EndOfCentralDirectoryHeader,
    comment: ZipStringView,
    found: Option<Zip64EndOfCentralDirectoryLocator>,
)
    requires
        LOCATOR_DISTANCE <= eocdr_offset,
        eocdr_offset <= data.len(),
        Zip64EndOfCentralDirectoryLocator::read(data.subrange(eocdr_offset - 24, eocdr_offset - 4)) == Ok::<
            Option<Zip64EndOfCentralDirectoryLocator>,
            ZipError,
        >(found),
    ensures
        (FileReaderView::Locator { eocdr_offset, eocdr, comment }).outcome(data) == (match found {
            None => follow(approach_legacy(eocdr_offset, eocdr, comment), data),
            Some(locator) => (FileReaderView::Zip64EndRecord {
                eocdr,
                comment,
                locator_offset: (eocdr_offset - 24) as u64,
                zip64_eocdr_offset: locator.relative_offset,
            }).outcome(data),
        }),
{
    let reader = FileReaderView::Locator { eocdr_offset, eocdr, comment };
    let bytes = window(data, (eocdr_offset - 24) as u64, 20);
    assert(bytes == data.subrange(eocdr_offset - 24, eocdr_offset - 4));
    assert(reader.wants() == ((eocdr_offset - 24) as u64, 20u64));
    assert(reader.outcome(data) == follow(reader.step(bytes), data));
}

proof fn lemma_zip64_record_step(
    data: Seq<u8>,
    eocdr: EndOfCentralDirectoryHeader,
    comment: ZipStringView,
    locator_offset: u64,
    zip64_eocdr_offset: u64,
    zip64_eocdr: Zip64EndOfCentralDirectoryRecord,
    record: CombinedCentralDirectoryRecord,
)
    requires
        zip64_eocdr_offset + 56 < data.len(),
        Zip64EndOfCentralDirectoryRecord::read(
            data.subrange(zip64_eocdr_offset as int, zip64_eocdr_offset + 56),
        ) == Ok::<Zip64EndOfCentralDirectoryRecord, ZipError>(zip64_eocdr),
        zip64_record_error(zip64_eocdr, zip64_eocdr_offset, locator_offset) is None,
        CombinedCentralDirectoryRecord::of_both(eocdr, zip64_eocdr) == Ok::<CombinedCentralDirectoryRecord, ZipError>(
            record,
        ),
    ensures
        (FileReaderView::Zip64EndRecord { eocdr, comment, locator_offset, zip64_eocdr_offset }).outcome(data) == follow(
            approach_directory(record, comment, true, zip64_eocdr_offset),
            data,
        ),
{
    let reader = FileReaderView::Zip64EndRecord { eocdr, comment, locator_offset, zip64_eocdr_offset };
    let bytes = window(data, zip64_eocdr_offset, 56);
    assert(bytes == data.subrange(zip64_eocdr_offset as int, zip64_eocdr_offset + 56));
    assert(reader.wants() == (zip64_eocdr_offset, 56u64));
    assert(reader.outcome(data) == follow(reader.step(bytes), data));
}

proof fn lemma_records_agree(body: Seq<u8>, writer: ZipFileWriterView)
    requires
        is_writable(body, writer),
        body.len() + directory_bytes(writer.cd_entries).len() + 76 <= u64::MAX,
    ensures
        ({
            let offset = body.len() as u64;
            let eocdr = writer.end_record(offset);
            let zip64 = writer.zip64_end_record(offset);
            let boundary = (body.len() + directory_bytes(writer.cd_entries).len()) as u64;
            let record = record_written(body, writer);
            &&& CombinedCentralDirectoryRecord::of_both(eocdr, zip64) == Ok::<CombinedCentralDirectoryRecord, ZipError>(
                record,
            )
            &&& zip64_record_error(zip64, boundary, (boundary + 56) as u64) is None
            &&& !writer.ends_in_zip64(offset) ==> CombinedCentralDirectoryRecord::of_legacy(eocdr) == Ok::<
                CombinedCentralDirectoryRecord,
                ZipError,
            >(record)
            &&& range_error(record, boundary) is None
        }),
{
    lemma_directory_is_long_enough(writer.cd_entries);
}

proof fn lemma_zip64_archive_outcome(body: Seq<u8>, writer: ZipFileWriterView, eocdr_offset: u64)
    requires
        is_writable(body, writer),
        all_readable(writer.cd_entries),
        writer.ends_in_zip64(body.len() as u64),
        eocdr_offset == end_record_at(body, writer) + 4,
    ensures
        (FileReaderView::Locator {
            eocdr_offset,
            eocdr: writer.end_record(body.len() as u64),
            comment: ZipStringView::decoded(writer.comment, StringEncoding::Utf8),
        }).outcome(whole(body, writer)) == Ok::<ZipFileView, ZipError>(file_written(body, writer)),
        eocdr_offset >= LOCATOR_DISTANCE,
{
    let data = whole(body, writer);
    let offset = body.len() as u64;
    let at = end_record_at(body, writer);
    let boundary = (body.len() + directory_bytes(writer.cd_entries).len()) as u64;
    let eocdr = writer.end_record(offset);
    let comment = ZipStringView::decoded(writer.comment, StringEncoding::Utf8);
    let ending = writer.zip64_ending(offset);
    let record = record_written(body, writer);
    lemma_zip64_ending(writer, offset);
    reveal(is_zip64_ending);
    lemma_zip64_parts(body, writer);
    lemma_records_agree(body, writer);
    assert(approach_directory(record, comment, true, boundary) == Ok::<FileStepView, ZipError>(
        FileStepView::Continue(FileReaderView::Directory { record, comment, zip64: true, boundary }),
    ));
    lemma_directory_state(body, writer);
    lemma_locator_step(data, eocdr_offset, eocdr, comment, Some(writer.zip64_locator(offset)));
    lemma_zip64_record_step(
        data,
        eocdr,
        comment,
        (at - 20) as u64,
        boundary,
        writer.zip64_end_record(offset),
        record,
    );
}

proof fn lemma_zip64_parts(body: Seq<u8>, writer: ZipFileWriterView)
    requires
        is_writable(body, writer),
        writer.ends_in_zip64(body.len() as u64),
    ensures
        ({
            let data = whole(body, writer);
            let ending = writer.zip64_ending(body.len() as u64);
            let at = end_record_at(body, writer);
            let boundary = body.len() + directory_bytes(writer.cd_entries).len();
            &&& at == boundary + 76
            &&& at + 22 <= data.len()
            &&& data.subrange(at - 20, at) == ending.subrange(56, 76)
            &&& data.subrange(boundary as int, boundary as int + 56) == ending.subrange(0, 56)
        }),
{
    let data = whole(body, writer);
    let offset = body.len() as u64;
    let ending = writer.zip64_ending(offset);
    let at = end_record_at(body, writer);
    let boundary = (body.len() + directory_bytes(writer.cd_entries).len()) as int;
    lemma_whole_parts(body, writer);
    assert(ending.len() == 76) by {
        lemma_zip64_ending(writer, offset);
        reveal(is_zip64_ending);
    }
    assert(writer.legacy_ending(offset).len() >= 22) by {
        lemma_legacy_ending(writer, offset);
    }
    assert(data.subrange(at - 20, at) =~= data.subrange(boundary, at).subrange(56, 76));
    assert(data.subrange(boundary, boundary + 56) =~= data.subrange(boundary, at).subrange(0, 56));
}

proof fn lemma_legacy_archive_outcome(body: Seq<u8>, writer: ZipFileWriterView, eocdr_offset: u64)
    requires
        is_writable(body, writer),
        all_readable(writer.cd_entries),
        !writer.ends_in_zip64(body.len() as u64),
        eocdr_offset == end_record_at(body, writer) + 4,
    ensures
        follow(
            approach_legacy(
                eocdr_offset,
                writer.end_record(body.len() as u64),
                ZipStringView::decoded(writer.comment, StringEncoding::Utf8),
            ),
            whole(body, writer),
        ) == Ok::<ZipFileView, ZipError>(file_written(body, writer)),
{
    let boundary = (body.len() + directory_bytes(writer.cd_entries).len()) as u64;
    let comment = ZipStringView::decoded(writer.comment, StringEncoding::Utf8);
    let record = record_written(body, writer);
    lemma_legacy_records(body, writer);
    lemma_directory_state(body, writer);
    assert(record_offset(eocdr_offset) == boundary);
    assert(approach_legacy(eocdr_offset, writer.end_record(body.len() as u64), comment) == Ok::<
        FileStepView,
        ZipError,
    >(FileStepView::Continue(FileReaderView::Directory { record, comment, zip64: false, boundary })));
}

/// An archive that was written is read as it was written: its entries, in their order, its comment, and whether it is a
/// ZIP64 archive. What its body holds makes no difference.
pub proof fn lemma_archive_reads_back(body: Seq<u8>, writer: ZipFileWriterView)
    requires
        is_writable(body, writer),
        is_unmistakable(body, writer),
        all_readable(writer.cd_entries),
    ensures
        archive_of(whole(body, writer)) == Ok::<ZipFileView, ZipError>(file_written(body, writer)),
{
    let data = whole(body, writer);
    let offset = body.len() as u64;
    let at = end_record_at(body, writer);
    let eocdr_offset = (at + 4) as u64;
    let eocdr = writer.end_record(offset);
    let comment = ZipStringView::decoded(writer.comment, StringEncoding::Utf8);
    lemma_end_record_is_located(body, writer);
    lemma_end_record_parts(body, writer);
    lemma_end_record_step(data, eocdr_offset, eocdr, writer.comment);
    if writer.ends_in_zip64(offset) {
        lemma_zip64_archive_outcome(body, writer, eocdr_offset);
    } else {
        lemma_legacy_archive_outcome(body, writer, eocdr_offset);
        if at >= 20 {
            assert(le32(data.subrange(at - 20, at), 0) == le32(data, at - 20));
            lemma_locator_step(data, eocdr_offset, eocdr, comment, None);
        }
    }
}

proof fn lemma_end_record_parts(body: Seq<u8>, writer: ZipFileWriterView)
    requires
        is_writable(body, writer),
    ensures
        ({
            let data = whole(body, writer);
            let rest = data.skip(end_record_at(body, writer) + 4);
            &&& data.len() == end_record_at(body, writer) + 22 + writer.comment.len()
            &&& EndOfCentralDirectoryHeader::at(rest, 0) == writer.end_record(body.len() as u64)
            &&& rest.subrange(18, 18 + writer.comment.len() as int) == writer.comment
        }),
{
    let data = whole(body, writer);
    let at = end_record_at(body, writer);
    lemma_whole_parts(body, writer);
    lemma_legacy_ending(writer, body.len() as u64);
    assert(data.skip(at).skip(4) =~= data.skip(at + 4));
}

proof fn lemma_legacy_records(body: Seq<u8>, writer: ZipFileWriterView)
    requires
        is_writable(body, writer),
        !writer.ends_in_zip64(body.len() as u64),
    ensures
        ({
            let record = record_written(body, writer);
            let boundary = (body.len() + directory_bytes(writer.cd_entries).len()) as u64;
            &&& CombinedCentralDirectoryRecord::of_legacy(writer.end_record(body.len() as u64)) == Ok::<
                CombinedCentralDirectoryRecord,
                ZipError,
            >(record)
            &&& range_error(record, boundary) is None
        }),
{
    lemma_whole_parts(body, writer);
    lemma_legacy_ending(writer, body.len() as u64);
}

/// An entry that was written to an archive: as it was handed in, its writer after all its data, and where its data ends.
pub struct WrittenEntry {
    pub entry: ZipEntryView,
    pub writer: EntrySeekableWriterView,
    pub end_offset: u64,
}

impl WrittenEntry {
    /// The entry as it was closed.
    pub open spec fn closing(self) -> ClosingEntryView {
        self.writer.closing(self.end_offset)
    }

    /// Whether the entry was written without an error, and its name, its comment and its extra fields can be told again.
    pub open spec fn is_legible(self) -> bool {
        &&& writes(self.writer, self.entry, self.end_offset)
        &&& legible_name(self.entry)
        &&& self.entry.fields_keep_comment()
        &&& has_sound_fields(self.entry)
        &&& self.closing().finish_error() is None
    }

    /// Whether the patched local file header stands in its place in `body`, with room for the data behind it.
    pub open spec fn stands_in(self, body: Seq<u8>) -> bool {
        &&& self.end_offset <= body.len()
        &&& body.subrange(self.writer.lfh_offset as int, self.writer.data_offset as int) == le32_bytes(LFH_SIGNATURE)
            + self.closing().patch()
    }

    /// Whether the entry is read as it was written, where `read` is what is read, and `data` the archive. Its data is found
    /// where it was written, if its name stands in the header as it is.
    pub open spec fn is_read_as(self, read: StoredZipEntryView, data: Seq<u8>) -> bool {
        let entry = self.entry;
        &&& read.file_offset == read.entry.file_offset == self.writer.lfh_offset
        &&& read.entry.filename.raw == entry.filename.raw
        &&& read.entry.filename.basic() == entry.filename.basic()
        &&& entry.filename.encoding == StringEncoding::Utf8 ==> read.entry.filename.encoding == StringEncoding::Utf8
        &&& read.entry.comment.raw == entry.comment.raw
        &&& read.entry.comment.basic() == entry.comment.basic()
        &&& entry.comment.encoding == StringEncoding::Utf8 ==> read.entry.comment.encoding == StringEncoding::Utf8
        &&& read.entry.compression == entry.compression
        &&& read.entry.last_modification_date == entry.last_modification_date
        &&& read.entry.internal_file_attribute == entry.internal_file_attribute
        &&& read.entry.external_file_attribute == entry.external_file_attribute
        &&& read.entry.extra_fields == self.closing().central_fields()
        &&& read.entry.crc32 == crc32_of(self.writer.data)
        &&& read.entry.uncompressed_size == self.writer.data.len()
        &&& read.entry.compressed_size == self.end_offset - self.writer.data_offset
        &&& !read.entry.data_descriptor
        &&& entry.filename.basic() == entry.filename.raw ==> read.data_offset(
            data.skip(self.writer.lfh_offset as int),
        ) == Ok::<u64, ZipError>(self.writer.data_offset)
    }
}

/// Whether `written` are the entries of an archive: in its central directory, and one behind the other in its body.
pub open spec fn are_written(body: Seq<u8>, archive: ZipFileWriterView, written: Seq<WrittenEntry>) -> bool {
    &&& archive.cd_entries.len() == written.len()
    &&& forall|i: int| 0 <= i < written.len() ==> #[trigger] archive.cd_entries[i] == written[i].closing().finished()
    &&& forall|i: int| 0 <= i < written.len() ==> (#[trigger] written[i]).stands_in(body)
    &&& forall|i: int, j: int|
        0 <= i < j < written.len() ==> (#[trigger] written[i]).end_offset <= (#[trigger] written[j]).writer.lfh_offset
}

proof fn lemma_header_and_rest(body: Seq<u8>, ending: Seq<u8>, from: int, to: int, header: Seq<u8>)
    requires
        0 <= from <= to <= body.len(),
        body.subrange(from, to) == header,
    ensures
        (body + ending).skip(from) == header + (body + ending).skip(to),
{
    let data = body + ending;
    assert(data.skip(from) =~= data.subrange(from, to) + data.skip(to));
    assert(data.subrange(from, to) =~= body.subrange(from, to));
}

proof fn lemma_written_entries_are_apart(body: Seq<u8>, archive: ZipFileWriterView, written: Seq<WrittenEntry>, i: int)
    requires
        are_written(body, archive, written),
        forall|k: int| 0 <= k < written.len() ==> (#[trigger] written[k]).is_legible(),
        0 <= i < written.len(),
        body.len() <= u64::MAX,
    ensures
        written[i].end_offset <= with_boundaries(
            stored_entries(archive.cd_entries),
            body.len() as u64,
        )[i].data_end_boundary,
{
    let entries = stored_entries(archive.cd_entries);
    assert forall|j: int| 0 <= j < entries.len() implies (#[trigger] entries[j]).file_offset
        == written[j].writer.lfh_offset by {
        assert(written[j].is_legible());
        assert(archive.cd_entries[j] == written[j].closing().finished());
        lemma_written_entry_reads_back(written[j].entry, written[j].writer, written[j].end_offset);
    }
    assert(written[i].stands_in(body));
    assert forall|j: int| 0 <= j < entries.len() implies (#[trigger] entries[j]).file_offset <= entries[i].file_offset
        || written[i].end_offset <= entries[j].file_offset by {
        if j < i {
            assert(written[j].end_offset <= written[i].writer.lfh_offset);
            assert(written[j].is_legible());
        } else if i < j {
            assert(written[i].end_offset <= written[j].writer.lfh_offset);
        }
    }
    lemma_boundary_admits_data(entries, body.len() as u64, i, written[i].end_offset);
}

proof fn lemma_one_written_entry_is_read(
    body: Seq<u8>,
    archive: ZipFileWriterView,
    written: Seq<WrittenEntry>,
    i: int,
)
    requires
        are_written(body, archive, written),
        forall|k: int| 0 <= k < written.len() ==> (#[trigger] written[k]).is_legible(),
        0 <= i < written.len(),
        body.len() <= u64::MAX,
    ensures
        written[i].is_read_as(file_written(body, archive).entries[i], whole(body, archive)),
{
    let one = written[i];
    let data = whole(body, archive);
    let closing = one.closing();
    let read = file_written(body, archive).entries[i];
    let boundary = read.data_end_boundary;
    assert(one.is_legible());
    assert(one.stands_in(body));
    assert(archive.cd_entries[i] == closing.finished());
    lemma_written_entries_are_apart(body, archive, written, i);
    lemma_written_entry_reads_back(one.entry, one.writer, one.end_offset);
    assert(read == StoredZipEntryView { data_end_boundary: boundary, ..closing.finished().stored() });
    if one.entry.filename.basic() == one.entry.filename.raw {
        let rest = data.skip(one.writer.data_offset as int);
        lemma_header_and_rest(
            body,
            archive.ending(body.len() as u64),
            one.writer.lfh_offset as int,
            one.writer.data_offset as int,
            le32_bytes(LFH_SIGNATURE) + closing.patch(),
        );
        lemma_written_data_is_found(one.entry, one.writer, one.end_offset, rest, boundary);
    }
}

/// An archive that was written, with each patched local file header in its place, is read as it was written: as many entries
/// in the same order, each with its name, comment, method, date, attributes, extra fields, checksum, sizes and offset, and
/// its data is found where it was written.
pub proof fn lemma_written_archive_is_read(body: Seq<u8>, archive: ZipFileWriterView, written: Seq<WrittenEntry>)
    requires
        is_writable(body, archive),
        is_unmistakable(body, archive),
        are_written(body, archive, written),
        forall|i: int| 0 <= i < written.len() ==> (#[trigger] written[i]).is_legible(),
    ensures
        archive_of(whole(body, archive)) matches Ok(file) && {
            &&& file.entries.len() == written.len()
            &&& file.comment == ZipStringView::decoded(archive.comment, StringEncoding::Utf8)
            &&& file.zip64 == archive.ends_in_zip64(body.len() as u64)
            &&& forall|i: int|
                0 <= i < written.len() ==> (#[trigger] written[i]).is_read_as(file.entries[i], whole(body, archive))
        },
{
    assert forall|i: int| 0 <= i < archive.cd_entries.len() implies #[trigger] archive.cd_entries[i].readable() by {
        assert(written[i].is_legible());
        assert(archive.cd_entries[i] == written[i].closing().finished());
        lemma_written_entry_reads_back(written[i].entry, written[i].writer, written[i].end_offset);
    }
    lemma_archive_reads_back(body, archive);
    assert forall|i: int| 0 <= i < written.len() implies (#[trigger] written[i]).is_read_as(
        file_written(body, archive).entries[i],
        whole(body, archive),
    ) by {
        lemma_one_written_entry_is_read(body, archive, written, i);
    }
}

} // verus!
