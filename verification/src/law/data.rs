//! Where the data of an entry starts, told by the bytes that stand in its local file header.

use vstd::prelude::*;

use crate::bytes::{le16, le32};
use crate::entry::StoredZipEntryView;
use crate::error::{ShortRead, ZipError};
use crate::format::extra_field::{parse_all, ExtraFieldView, Zip64Wants};
use crate::format::header::{unsupported, LocalFileHeader};
use crate::law::layout::{lemma_flags_are_bits, lemma_local_header_layout};
use crate::law::rules::{lemma_refused_flags, lemma_where_sizes_stand};
use crate::read::data::{name_error, NAME_CHUNK};
use crate::read::fields::{combined_sizes, zip64_field};

verus! {

/// Comparing a name that is all there tells whether the bytes are the same.
proof fn lemma_name_is_compared(input: Seq<u8>, expected: Seq<u8>, at: nat)
    requires
        at <= expected.len(),
        input.len() >= 30 + expected.len(),
    ensures
        name_error(input, expected, at) is None <==> input.subrange(30 + at as int, 30 + expected.len() as int)
            == expected.subrange(at as int, expected.len() as int),
        name_error(input, expected, at) matches Some(e) ==> e == ZipError::LocalFileHeaderNameMismatch,
    decreases expected.len() - at,
{
    let length = expected.len();
    let found = input.subrange(30 + at as int, 30 + length as int);
    let wanted = expected.subrange(at as int, length as int);
    if at == length {
        assert(found =~= wanted);
    } else {
        let end = if length - at <= NAME_CHUNK { length } else { at + NAME_CHUNK as nat };
        lemma_name_is_compared(input, expected, end);
        let found_chunk = input.subrange(30 + at as int, 30 + end as int);
        let wanted_chunk = expected.subrange(at as int, end as int);
        let found_rest = input.subrange(30 + end as int, 30 + length as int);
        let wanted_rest = expected.subrange(end as int, length as int);
        assert(found =~= found_chunk + found_rest);
        assert(wanted =~= wanted_chunk + wanted_rest);
        if found == wanted {
            assert(found_chunk =~= found.subrange(0, end - at));
            assert(wanted_chunk =~= wanted.subrange(0, end - at));
            assert(found_rest =~= found.subrange(end - at, length - at));
            assert(wanted_rest =~= wanted.subrange(end - at, length - at));
        }
    }
}

/// Which values the ZIP64 extended information of the local file header at the beginning of `input` holds.
pub open spec fn local_wants(input: Seq<u8>) -> Zip64Wants {
    Zip64Wants {
        uncompressed_size: le32(input, 22) == 0xffff_ffff,
        compressed_size: le32(input, 18) == 0xffff_ffff,
        relative_header_offset: false,
        disk_start_number: false,
    }
}

/// Where the data of an entry starts, behind a local file header at the beginning of `input`.
pub open spec fn start_behind(entry: StoredZipEntryView, input: Seq<u8>) -> int {
    entry.file_offset + 30 + le16(input, 26) + le16(input, 28)
}

/// The data of an entry starts behind its local file header exactly when that header is readable, the data ends by the
/// boundary, both headers agree on whether the sizes follow the data and on the name, and the sizes in the local file header
/// are readable and, unless they follow the data, those of the central directory.
pub proof fn lemma_data_starts_behind_header(entry: StoredZipEntryView, input: Seq<u8>)
    requires
        input.len() >= 30 + le16(input, 26) + le16(input, 28),
    ensures
        ({
            let start = start_behind(entry, input);
            let extra = input.subrange(30 + le16(input, 26), 30 + le16(input, 26) + le16(input, 28));
            let fields = parse_all(extra, local_wants(input));
            let sizes = combined_sizes(le32(input, 22), le32(input, 18), zip64_field(fields->Ok_0));
            let accepted = {
                &&& le32(input, 0) == 0x0403_4b50
                &&& le16(input, 6) & 0x2061 == 0
                &&& le16(input, 4) % 0x100 <= 63
                &&& le16(input, 8) == 9 ==> le16(input, 4) % 0x100 >= 21
                &&& start + entry.entry.compressed_size <= entry.data_end_boundary
                &&& le16(input, 6) & 0x8 != 0 <==> entry.entry.data_descriptor
                &&& input.subrange(30, 30 + le16(input, 26)) == entry.entry.filename.raw
                &&& fields is Ok
                &&& sizes is Ok
                &&& entry.entry.data_descriptor || sizes->Ok_0 == (
                    entry.entry.uncompressed_size,
                    entry.entry.compressed_size,
                )
            };
            &&& entry.data_offset(input) is Ok <==> accepted
            &&& accepted ==> entry.data_offset(input) == Ok::<u64, ZipError>(start as u64)
        }),
{
    let header = LocalFileHeader::at(input, 4);
    let n = le16(input, 26) as int;
    let name = input.subrange(30, 30 + n);
    let expected = entry.entry.filename.raw;
    let extra = input.subrange(30 + n, 30 + n + le16(input, 28));
    lemma_refused_flags(le16(input, 4), le16(input, 6), le16(input, 8));
    lemma_flags_are_bits(header.flags, le16(input, 6));
    lemma_local_header_layout(header, input, 4);
    assert(name.len() == n);
    if expected.len() == n {
        lemma_name_is_compared(input, expected, 0);
        assert(expected.subrange(0, n) =~= expected);
    }
    if le16(input, 28) == 0 {
        assert(extra =~= Seq::empty());
        assert(parse_all(extra, local_wants(input)) == Ok::<Seq<ExtraFieldView>, ZipError>(Seq::empty()));
    }
    lemma_where_sizes_stand(le32(input, 22), le32(input, 18), None);
    match parse_all(extra, local_wants(input)) {
        Ok(fields) => lemma_where_sizes_stand(le32(input, 22), le32(input, 18), zip64_field(fields)),
        Err(_) => {},
    }
}

/// Whether `input` starts with a whole local file header that is supported, without extra fields, which says that the sizes
/// follow the data and does not refer to ZIP64 metadata for them.
pub open spec fn is_plain_with_descriptor(input: Seq<u8>) -> bool {
    &&& input.len() >= 30 + le16(input, 26)
    &&& le32(input, 0) == 0x0403_4b50
    &&& le16(input, 6) & 0x2061 == 0
    &&& le16(input, 6) & 0x8 != 0
    &&& le16(input, 4) % 0x100 <= 63
    &&& le16(input, 8) == 9 ==> le16(input, 4) % 0x100 >= 21
    &&& le16(input, 28) == 0
    &&& le32(input, 18) < 0xffff_ffff
    &&& le32(input, 22) < 0xffff_ffff
}

/// Where both headers say that the sizes follow the data, the names agree and the data ends by the boundary, the data of an
/// entry starts behind its local file header, whatever the sizes in the two headers are, as long as those in the local file
/// header do not refer to ZIP64 metadata that is not there.
pub proof fn lemma_descriptor_frees_sizes(entry: StoredZipEntryView, input: Seq<u8>)
    requires
        is_plain_with_descriptor(input),
        entry.entry.data_descriptor,
        input.subrange(30, 30 + le16(input, 26)) == entry.entry.filename.raw,
        entry.file_offset + 30 + le16(input, 26) + entry.entry.compressed_size <= entry.data_end_boundary,
    ensures
        entry.data_offset(input) == Ok::<u64, ZipError>((entry.file_offset + 30 + le16(input, 26)) as u64),
{
    lemma_data_starts_behind_header(entry, input);
    lemma_where_sizes_stand(le32(input, 22), le32(input, 18), None);
    assert(input.subrange(30 + le16(input, 26), 30 + le16(input, 26) + le16(input, 28)) =~= Seq::empty());
}

/// Where neither header says that the sizes follow the data, all else being as it should, the sizes in the two headers decide:
/// the data of an entry is found where they are the same, and is refused where they are not.
pub proof fn lemma_sizes_must_agree(entry: StoredZipEntryView, input: Seq<u8>)
    requires
        input.len() >= 30 + le16(input, 26),
        le32(input, 0) == 0x0403_4b50,
        le16(input, 6) & 0x2061 == 0,
        le16(input, 4) % 0x100 <= 63,
        le16(input, 8) == 9 ==> le16(input, 4) % 0x100 >= 21,
        le16(input, 28) == 0,
        le16(input, 6) & 0x8 == 0,
        !entry.entry.data_descriptor,
        input.subrange(30, 30 + le16(input, 26)) == entry.entry.filename.raw,
        entry.file_offset + 30 + le16(input, 26) + entry.entry.compressed_size <= entry.data_end_boundary,
    ensures
        entry.data_offset(input) == (if le32(input, 18) < 0xffff_ffff && le32(input, 22) < 0xffff_ffff && le32(input, 18)
            == entry.entry.compressed_size && le32(input, 22) == entry.entry.uncompressed_size {
            Ok::<u64, ZipError>((entry.file_offset + 30 + le16(input, 26)) as u64)
        } else {
            Err(ZipError::LocalFileHeaderSizeMismatch)
        }),
{
    let header = LocalFileHeader::at(input, 4);
    let expected = entry.entry.filename.raw;
    lemma_data_starts_behind_header(entry, input);
    lemma_refused_flags(le16(input, 4), le16(input, 6), le16(input, 8));
    lemma_flags_are_bits(header.flags, le16(input, 6));
    lemma_local_header_layout(header, input, 4);
    lemma_name_is_compared(input, expected, 0);
    assert(expected.subrange(0, expected.len() as int) =~= expected);
    lemma_where_sizes_stand(le32(input, 22), le32(input, 18), None);
    assert(input.subrange(30 + le16(input, 26), 30 + le16(input, 26) + le16(input, 28)) =~= Seq::empty());
}

/// What is wrong with a local file header is told in this order: what stands there, what is not supported, where the data
/// ends, whether the sizes follow it, and the name.
pub proof fn lemma_why_data_is_refused(entry: StoredZipEntryView, input: Seq<u8>)
    ensures
        input.len() < 4 ==> entry.data_offset(input) == Err::<u64, ZipError>(
            ZipError::UpstreamReadError(ShortRead { missing: (4 - input.len()) as usize }),
        ),
        input.len() >= 4 && le32(input, 0) != 0x0403_4b50 ==> entry.data_offset(input) == Err::<u64, ZipError>(
            ZipError::UnexpectedHeaderError(le32(input, 0), 0x0403_4b50),
        ),
        4 <= input.len() < 30 && le32(input, 0) == 0x0403_4b50 ==> entry.data_offset(input) == Err::<u64, ZipError>(
            ZipError::UpstreamReadError(ShortRead { missing: (30 - input.len()) as usize }),
        ),
        input.len() >= 30 && le32(input, 0) == 0x0403_4b50 ==> {
            let error = unsupported(le16(input, 4), le16(input, 6), le16(input, 8));
            let start = start_behind(entry, input);
            let end = start + entry.entry.compressed_size;
            &&& error is Some ==> entry.data_offset(input) == Err::<u64, ZipError>(error->Some_0)
            &&& error is None && end > u64::MAX ==> entry.data_offset(input) == Err::<u64, ZipError>(
                ZipError::InvalidEntryDataRange,
            )
            &&& error is None && entry.data_end_boundary < end <= u64::MAX ==> entry.data_offset(input) == Err::<
                u64,
                ZipError,
            >(
                ZipError::EntryDataRangeOverlap {
                    start: start as u64,
                    end: end as u64,
                    boundary: entry.data_end_boundary,
                },
            )
            &&& error is None && end <= entry.data_end_boundary && (le16(input, 6) & 0x8 != 0)
                != entry.entry.data_descriptor ==> entry.data_offset(input) == Err::<u64, ZipError>(
                ZipError::LocalFileHeaderDataDescriptorMismatch,
            )
            &&& error is None && end <= entry.data_end_boundary && (le16(input, 6) & 0x8 != 0)
                == entry.entry.data_descriptor && input.len() >= 30 + le16(input, 26) && input.subrange(
                30,
                30 + le16(input, 26),
            ) != entry.entry.filename.raw ==> entry.data_offset(input) == Err::<u64, ZipError>(
                ZipError::LocalFileHeaderNameMismatch,
            )
        },
{
    let header = LocalFileHeader::at(input, 4);
    let expected = entry.entry.filename.raw;
    if input.len() >= 30 {
        lemma_flags_are_bits(header.flags, le16(input, 6));
        lemma_local_header_layout(header, input, 4);
        if input.len() >= 30 + le16(input, 26) && expected.len() == le16(input, 26) {
            lemma_name_is_compared(input, expected, 0);
            assert(expected.subrange(0, expected.len() as int) =~= expected);
        }
    }
}

/// Where all else is as it should, what is wrong with the sizes in a local file header is told in this order: that a size which
/// stands in the header itself differs, what is wrong with the extra fields, that a size is nowhere to be found, that a size
/// which stands in the extra fields differs. Where the sizes follow the data, they need only be readable.
pub proof fn lemma_why_sizes_are_refused(entry: StoredZipEntryView, input: Seq<u8>)
    requires
        input.len() >= 30 + le16(input, 26) + le16(input, 28),
        le32(input, 0) == 0x0403_4b50,
        unsupported(le16(input, 4), le16(input, 6), le16(input, 8)) is None,
        start_behind(entry, input) + entry.entry.compressed_size <= entry.data_end_boundary,
        (le16(input, 6) & 0x8 != 0) == entry.entry.data_descriptor,
        input.subrange(30, 30 + le16(input, 26)) == entry.entry.filename.raw,
    ensures
        ({
            let extra = input.subrange(30 + le16(input, 26), 30 + le16(input, 26) + le16(input, 28));
            let fields = parse_all(extra, local_wants(input));
            let sizes = combined_sizes(le32(input, 22), le32(input, 18), zip64_field(fields->Ok_0));
            let descriptor = entry.entry.data_descriptor;
            let refers = le32(input, 18) == 0xffff_ffff || le32(input, 22) == 0xffff_ffff;
            let differs = (le32(input, 18) != 0xffff_ffff && le32(input, 18) != entry.entry.compressed_size) || (le32(
                input,
                22,
            ) != 0xffff_ffff && le32(input, 22) != entry.entry.uncompressed_size);
            &&& !descriptor && differs ==> entry.data_offset(input) == Err::<u64, ZipError>(
                ZipError::LocalFileHeaderSizeMismatch,
            )
            &&& descriptor || !differs ==> {
                &&& fields matches Err(e) ==> entry.data_offset(input) == Err::<u64, ZipError>(e)
                &&& fields matches Ok(found) ==> {
                    &&& !descriptor && refers && found.len() == 0 ==> entry.data_offset(input) == Err::<u64, ZipError>(
                        ZipError::LocalFileHeaderSizeMismatch,
                    )
                    &&& (descriptor || found.len() > 0) && sizes is Err ==> entry.data_offset(input) == Err::<
                        u64,
                        ZipError,
                    >(ZipError::Zip64ExtendedFieldIncomplete)
                    &&& !descriptor && sizes is Ok && sizes->Ok_0 != (
                        entry.entry.uncompressed_size,
                        entry.entry.compressed_size,
                    ) ==> entry.data_offset(input) == Err::<u64, ZipError>(ZipError::LocalFileHeaderSizeMismatch)
                }
            }
        }),
{
    let header = LocalFileHeader::at(input, 4);
    let n = le16(input, 26) as int;
    let expected = entry.entry.filename.raw;
    let extra = input.subrange(30 + n, 30 + n + le16(input, 28));
    lemma_flags_are_bits(header.flags, le16(input, 6));
    lemma_local_header_layout(header, input, 4);
    lemma_name_is_compared(input, expected, 0);
    assert(expected.subrange(0, n) =~= expected);
    if le16(input, 28) == 0 {
        assert(extra =~= Seq::empty());
        assert(parse_all(extra, local_wants(input)) == Ok::<Seq<ExtraFieldView>, ZipError>(Seq::empty()));
    }
    lemma_where_sizes_stand(le32(input, 22), le32(input, 18), None);
    match parse_all(extra, local_wants(input)) {
        Ok(fields) => lemma_where_sizes_stand(le32(input, 22), le32(input, 18), zip64_field(fields)),
        Err(_) => {},
    }
}

/// Where all else is as it should and the extra fields of a local file header are not all there yet, they are asked for, unless
/// a size which stands in the header itself differs already.
pub proof fn lemma_extra_fields_are_asked_for(entry: StoredZipEntryView, input: Seq<u8>)
    requires
        30 + le16(input, 26) <= input.len() < 30 + le16(input, 26) + le16(input, 28),
        le32(input, 0) == 0x0403_4b50,
        unsupported(le16(input, 4), le16(input, 6), le16(input, 8)) is None,
        start_behind(entry, input) + entry.entry.compressed_size <= entry.data_end_boundary,
        (le16(input, 6) & 0x8 != 0) == entry.entry.data_descriptor,
        input.subrange(30, 30 + le16(input, 26)) == entry.entry.filename.raw,
    ensures
        ({
            let differs = (le32(input, 18) != 0xffff_ffff && le32(input, 18) != entry.entry.compressed_size) || (le32(
                input,
                22,
            ) != 0xffff_ffff && le32(input, 22) != entry.entry.uncompressed_size);
            entry.data_offset(input) == (if !entry.entry.data_descriptor && differs {
                Err::<u64, ZipError>(ZipError::LocalFileHeaderSizeMismatch)
            } else {
                Err(
                    ZipError::UpstreamReadError(
                        ShortRead { missing: (30 + le16(input, 26) + le16(input, 28) - input.len()) as usize },
                    ),
                )
            })
        }),
{
    let header = LocalFileHeader::at(input, 4);
    let expected = entry.entry.filename.raw;
    lemma_flags_are_bits(header.flags, le16(input, 6));
    lemma_local_header_layout(header, input, 4);
    lemma_name_is_compared(input, expected, 0);
    assert(expected.subrange(0, expected.len() as int) =~= expected);
}

proof fn lemma_same_start(input: Seq<u8>, expected: Seq<u8>, k: nat)
    requires
        256 * k <= expected.len(),
        input.len() >= 30 + 256 * k,
        input.subrange(30, 30 + 256 * k as int) == expected.subrange(0, 256 * k as int),
    ensures
        name_error(input, expected, 0) == name_error(input, expected, (256 * k) as nat),
    decreases k,
{
    if k > 0 {
        let at = 256 * (k - 1);
        assert(input.subrange(30, 30 + at) =~= input.subrange(30, 30 + 256 * k as int).subrange(0, at));
        assert(expected.subrange(0, at) =~= expected.subrange(0, 256 * k as int).subrange(0, at));
        lemma_same_start(input, expected, (k - 1) as nat);
        assert(input.subrange(30 + at, 30 + at + 256) =~= input.subrange(30, 30 + 256 * k as int).subrange(at, at + 256));
        assert(expected.subrange(at, at + 256) =~= expected.subrange(0, 256 * k as int).subrange(at, at + 256));
    }
}

/// A name is compared 256 bytes at a time, and no more of it is asked for than the next 256 bytes.
pub proof fn lemma_name_is_asked_for_in_pieces(entry: StoredZipEntryView, input: Seq<u8>, k: nat)
    requires
        input.len() >= 30 + 256 * k,
        le32(input, 0) == 0x0403_4b50,
        unsupported(le16(input, 4), le16(input, 6), le16(input, 8)) is None,
        start_behind(entry, input) + entry.entry.compressed_size <= entry.data_end_boundary,
        (le16(input, 6) & 0x8 != 0) == entry.entry.data_descriptor,
        le16(input, 26) == entry.entry.filename.raw.len(),
        256 * k < entry.entry.filename.raw.len(),
        input.subrange(30, 30 + 256 * k as int) == entry.entry.filename.raw.subrange(0, 256 * k as int),
    ensures
        ({
            let length = entry.entry.filename.raw.len();
            let end = if length < 256 * k + 256 {
                length
            } else {
                256 * k + 256
            };
            input.len() < 30 + end ==> entry.data_offset(input) == Err::<u64, ZipError>(
                ZipError::UpstreamReadError(ShortRead { missing: (30 + end - input.len()) as usize }),
            )
        }),
{
    let header = LocalFileHeader::at(input, 4);
    lemma_flags_are_bits(header.flags, le16(input, 6));
    lemma_local_header_layout(header, input, 4);
    lemma_same_start(input, entry.entry.filename.raw, k);
}

} // verus!
