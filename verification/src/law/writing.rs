//! What holds of all archives that are written.

use vstd::prelude::*;

use crate::crc::crc32_of;
use crate::entry::ZipEntryView;
use crate::error::ZipError;
use crate::format::consts::{NON_ZIP64_MAX_NUM_FILES, NON_ZIP64_MAX_SIZE};
use crate::format::version::extract_version_error;
use crate::read::fields::zip64_field;
use crate::write::archive::ZipFileWriterView;
use crate::write::entry_seekable::{begun, lemma_sizes_fit_in_room, needs_zip64, ClosingEntryView};
use crate::write::entry_seekable::{EntrySeekableWriter, EntrySeekableWriterView, ZIP64_VERSION_NEEDED};
use crate::write::fields::lemma_sizes_are_there;

verus! {

/// An attempt to begin an entry, and what came of it.
pub struct Attempt {
    pub entry: ZipEntryView,
    pub lfh_offset: u64,
    pub result: Result<(EntrySeekableWriter, Vec<u8>), ZipError>,
}

/// Whether an archive goes through `states` while entries are begun one after the other.
pub open spec fn is_trace(states: Seq<ZipFileWriterView>, attempts: Seq<Attempt>) -> bool {
    &&& states.len() == attempts.len() + 1
    &&& forall|k: int|
        0 <= k < attempts.len() ==> begun(
            #[trigger] states[k],
            attempts[k].entry,
            attempts[k].lfh_offset,
            attempts[k].result,
            states[k + 1],
        )
}

/// Whether an archive refuses all further entries, and refuses to be closed: both report that it is poisoned, whatever is
/// tried, and it stays that way.
pub open spec fn is_lost(archive: ZipFileWriterView) -> bool {
    &&& forall|directory_offset: u64|
        #[trigger] archive.ending_error(directory_offset) == Some(ZipError::WriterPoisoned)
    &&& forall|states: Seq<ZipFileWriterView>, attempts: Seq<Attempt>, k: int|
        #![trigger is_trace(states, attempts), attempts[k]]
        is_trace(states, attempts) && states[0] == archive && 0 <= k < attempts.len() ==> {
            &&& attempts[k].result == Err::<(EntrySeekableWriter, Vec<u8>), ZipError>(ZipError::WriterPoisoned)
            &&& states[k + 1] == archive
        }
}

/// Whether an archive refuses nothing for being poisoned.
pub open spec fn is_sound(archive: ZipFileWriterView) -> bool {
    &&& forall|other: ZipEntryView| #[trigger] archive.admission_error(other) != Some(ZipError::WriterPoisoned)
    &&& forall|directory_offset: u64|
        #[trigger] archive.ending_error(directory_offset) != Some(ZipError::WriterPoisoned)
}

proof fn lemma_poisoned_trace(states: Seq<ZipFileWriterView>, attempts: Seq<Attempt>, k: int)
    requires
        is_trace(states, attempts),
        states[0].poisoned,
        0 <= k < states.len(),
    ensures
        states[k] == states[0],
        k < attempts.len() ==> attempts[k].result == Err::<(EntrySeekableWriter, Vec<u8>), ZipError>(
            ZipError::WriterPoisoned,
        ) && states[k + 1] == states[0],
    decreases k,
{
    if k > 0 {
        lemma_poisoned_trace(states, attempts, k - 1);
    }
}

proof fn lemma_poisoned_is_lost(archive: ZipFileWriterView)
    requires
        archive.poisoned,
    ensures
        is_lost(archive),
{
    assert forall|states: Seq<ZipFileWriterView>, attempts: Seq<Attempt>, k: int|
        #![trigger is_trace(states, attempts), attempts[k]]
        is_trace(states, attempts) && states[0] == archive && 0 <= k < attempts.len() implies {
        &&& attempts[k].result == Err::<(EntrySeekableWriter, Vec<u8>), ZipError>(ZipError::WriterPoisoned)
        &&& states[k + 1] == archive
    } by {
        lemma_poisoned_trace(states, attempts, k);
    }
}

/// An entry that was begun decides what becomes of its archive.
///
/// Where it is abandoned, or its closing is abandoned before it is finished, every further entry and the archive's own
/// closing are refused with [`ZipError::WriterPoisoned`]. Where its closing runs to completion, with success or with an
/// error, nothing is refused for that.
///
/// Here `writer` is the entry writer after any writes.
pub proof fn lemma_entry_decides_poison(
    before: ZipFileWriterView,
    entry: ZipEntryView,
    lfh_offset: u64,
    r: Result<(EntrySeekableWriter, Vec<u8>), ZipError>,
    after: ZipFileWriterView,
    writer: EntrySeekableWriterView,
    end_offset: u64,
)
    requires
        begun(before, entry, lfh_offset, r, after),
        r is Ok,
    ensures
        is_lost(after),
        writer.close_error(end_offset) is None ==> {
            let closing = writer.closing(end_offset);
            let closed = after.after_close(writer, end_offset);
            &&& is_lost(closed)
            &&& is_sound(closed.after_finish(closing))
        },
        writer.close_error(end_offset) is Some ==> is_sound(after.after_close(writer, end_offset)),
{
    lemma_poisoned_is_lost(after);
    if writer.close_error(end_offset) is None {
        lemma_poisoned_is_lost(after.after_close(writer, end_offset));
    }
}

/// A call that offers `buf` as an entry's next data. Where the output accepted some of it, `accepted` tells how much;
/// where it was not ready or failed, nothing is noted.
pub struct WriteCall {
    pub buf: Seq<u8>,
    pub accepted: Option<nat>,
}

impl WriteCall {
    /// The data that the call contributes.
    pub open spec fn data(self) -> Seq<u8> {
        match self.accepted {
            Some(n) => self.buf.take(n as int),
            None => Seq::empty(),
        }
    }

    /// The entry writer after the call.
    pub open spec fn done(self, writer: EntrySeekableWriterView) -> EntrySeekableWriterView {
        match self.accepted {
            Some(n) => writer.recorded(self.buf, n),
            None => writer,
        }
    }
}

/// The data that calls contribute, one after the other.
pub open spec fn accepted_data(calls: Seq<WriteCall>) -> Seq<u8>
    decreases calls.len(),
{
    if calls.len() == 0 {
        Seq::empty()
    } else {
        accepted_data(calls.drop_last()) + calls.last().data()
    }
}

/// The entry writer after calls, one after the other.
pub open spec fn after_calls(writer: EntrySeekableWriterView, calls: Seq<WriteCall>) -> EntrySeekableWriterView
    decreases calls.len(),
{
    if calls.len() == 0 {
        writer
    } else {
        calls.last().done(after_calls(writer, calls.drop_last()))
    }
}

proof fn lemma_calls_accumulate(writer: EntrySeekableWriterView, calls: Seq<WriteCall>)
    requires
        writer.wf(),
        forall|k: int|
            0 <= k < calls.len() ==> ((#[trigger] calls[k]).accepted matches Some(n) ==> n <= calls[k].buf.len()),
        writer.data.len() + accepted_data(calls).len() <= u64::MAX,
    ensures
        ({
            let data = writer.data + accepted_data(calls);
            &&& after_calls(writer, calls) == (EntrySeekableWriterView {
                data,
                uncompressed_size: data.len() as u64,
                ..writer
            })
            &&& after_calls(writer, calls).wf()
        }),
    decreases calls.len(),
{
    if calls.len() == 0 {
        assert(writer.data + accepted_data(calls) =~= writer.data);
    } else {
        let front = calls.drop_last();
        assert forall|k: int| 0 <= k < front.len() implies ((#[trigger] front[k]).accepted matches Some(n) ==> n
            <= front[k].buf.len()) by {
            assert(front[k] == calls[k]);
        }
        lemma_calls_accumulate(writer, front);
        assert(calls[calls.len() - 1] == calls.last());
        assert(writer.data + accepted_data(front) + calls.last().data() =~= writer.data + accepted_data(calls));
    }
}

/// Both headers of an entry carry the checksum and the size of exactly what was accepted of its data, in order: the tails
/// that were not accepted, and the calls that were not ready or failed, contribute nothing.
pub proof fn lemma_checksum_is_of_accepted_data(
    before: ZipFileWriterView,
    entry: ZipEntryView,
    lfh_offset: u64,
    r: Result<(EntrySeekableWriter, Vec<u8>), ZipError>,
    after: ZipFileWriterView,
    calls: Seq<WriteCall>,
    end_offset: u64,
)
    requires
        begun(before, entry, lfh_offset, r, after),
        r is Ok,
        forall|k: int|
            0 <= k < calls.len() ==> ((#[trigger] calls[k]).accepted matches Some(n) ==> n <= calls[k].buf.len()),
        accepted_data(calls).len() <= u64::MAX,
        after_calls(r->Ok_0.0@, calls).close_error(end_offset) is None,
    ensures
        ({
            let writer = after_calls(r->Ok_0.0@, calls);
            let closing = writer.closing(end_offset);
            &&& writer.wf()
            &&& writer.data == accepted_data(calls)
            &&& closing.lfh.crc == crc32_of(accepted_data(calls))
            &&& closing.finished().header.crc == crc32_of(accepted_data(calls))
            &&& if writer.local_header_has_zip64_sizes {
                zip64_field(closing.entry.extra_fields) matches Some(zip64) && zip64.uncompressed_size == Some(
                    accepted_data(calls).len() as u64,
                )
            } else {
                closing.lfh.uncompressed_size == accepted_data(calls).len()
            }
        }),
{
    let begun = r->Ok_0.0@;
    lemma_calls_accumulate(begun, calls);
    assert(begun.data + accepted_data(calls) =~= accepted_data(calls));
    let writer = after_calls(begun, calls);
    lemma_sizes_are_there(writer.entry.extra_fields, writer.uncompressed_size, writer.compressed_size(end_offset));
}

/// An entry that is refused leaves the archive as it was, but that ZIP64 end records may be needed.
pub proof fn lemma_refused_entry_changes_little(
    before: ZipFileWriterView,
    entry: ZipEntryView,
    lfh_offset: u64,
    r: Result<(EntrySeekableWriter, Vec<u8>), ZipError>,
    after: ZipFileWriterView,
)
    requires
        begun(before, entry, lfh_offset, r, after),
        r is Err,
    ensures
        after == (ZipFileWriterView { is_zip64: after.is_zip64, ..before }),
        before.is_zip64 ==> after.is_zip64,
{
}

/// The patched local file header takes up exactly the place of the placeholder, so that the data stays where it is.
pub proof fn lemma_patch_fits_placeholder(writer: EntrySeekableWriterView, end_offset: u64)
    requires
        writer.wf(),
    ensures
        ({
            let closing = writer.closing(end_offset);
            &&& closing.patch().len() == writer.lfh.to_bytes().len() + writer.entry.local_trailer().len()
            &&& closing.lfh_offset + 4 + closing.patch().len() == writer.data_offset
        }),
{
    if writer.local_header_has_zip64_sizes {
        lemma_sizes_fit_in_room(
            writer.entry.extra_fields,
            writer.uncompressed_size,
            writer.compressed_size(end_offset),
        );
    }
}

/// The header carries the checksum of all data that was written, and its sizes where they fit; where they do not, or room
/// for ZIP64 sizes was set aside, it refers to ZIP64. An entry with ZIP64 metadata calls for a version that knows of it.
pub proof fn lemma_header_tells_data(writer: EntrySeekableWriterView, end_offset: u64)
    requires
        writer.wf(),
        writer.data_offset <= end_offset,
        writer.close_error(end_offset) is None,
    ensures
        ({
            let closing = writer.closing(end_offset);
            &&& closing.lfh.crc == crc32_of(writer.data)
            &&& !writer.local_header_has_zip64_sizes ==> closing.lfh.uncompressed_size == writer.data.len()
                && closing.lfh.compressed_size == end_offset - writer.data_offset
            &&& writer.local_header_has_zip64_sizes ==> closing.lfh.uncompressed_size == NON_ZIP64_MAX_SIZE
                && closing.lfh.compressed_size == NON_ZIP64_MAX_SIZE
            &&& !closing.lfh.flags.data_descriptor
            &&& writer.local_header_has_zip64_sizes || needs_zip64(writer.lfh_offset) ==> closing.lfh.version
                >= ZIP64_VERSION_NEEDED
        }),
{
}

/// The local file header and the central directory header of an entry agree.
pub proof fn lemma_headers_agree(closing: ClosingEntryView)
    ensures
        ({
            let header = closing.finished().header;
            &&& header.v_needed == closing.lfh.version
            &&& header.flags == closing.lfh.flags
            &&& header.compression == closing.lfh.compression
            &&& header.crc == closing.lfh.crc
            &&& header.compressed_size == closing.lfh.compressed_size
            &&& header.uncompressed_size == closing.lfh.uncompressed_size
            &&& header.file_name_length == closing.lfh.file_name_length
        }),
{
}

/// The version that an entry is written with is one that entries are read with.
pub proof fn lemma_written_version_is_read(writer: EntrySeekableWriterView, end_offset: u64)
    requires
        writer.wf(),
    ensures
        extract_version_error(writer.lfh.version, writer.lfh.compression) is None,
        ({
            let lfh = writer.closing(end_offset).lfh;
            extract_version_error(lfh.version, lfh.compression) is None
        }),
{
}

/// An archive that must do without ZIP64 never comes to need it: where an entry would, it is refused.
pub proof fn lemma_forced_archive_stays_without_zip64(
    before: ZipFileWriterView,
    entry: ZipEntryView,
    lfh_offset: u64,
    r: Result<(EntrySeekableWriter, Vec<u8>), ZipError>,
    during: ZipFileWriterView,
    writer: EntrySeekableWriterView,
    end_offset: u64,
)
    requires
        before.force_no_zip64,
        !before.is_zip64,
        begun(before, entry, lfh_offset, r, during),
        r is Ok ==> writer == (EntrySeekableWriterView {
            data: writer.data,
            uncompressed_size: writer.uncompressed_size,
            ..r->Ok_0.0@
        }),
    ensures
        !during.is_zip64,
        r is Ok && writer.close_error(end_offset) is None ==> {
            &&& !during.with_zip64(writer.local_header_has_zip64_sizes).is_zip64
            &&& !needs_zip64(writer.closing(end_offset).lfh_offset)
            &&& during.cd_entries.len() + 1 <= NON_ZIP64_MAX_NUM_FILES
        },
{
}

} // verus!
