//! Little-endian numbers and plain byte sequences.

use vstd::prelude::*;
use vstd::slice::slice_subrange;

verus! {

/// The two bytes of `s` from `i` on, as a little-endian number.
pub open spec fn le16(s: Seq<u8>, i: int) -> u16 {
    (s[i] + 0x100 * s[i + 1]) as u16
}

/// The four bytes of `s` from `i` on, as a little-endian number.
pub open spec fn le32(s: Seq<u8>, i: int) -> u32 {
    (le16(s, i) + 0x1_0000 * le16(s, i + 2)) as u32
}

/// The eight bytes of `s` from `i` on, as a little-endian number.
pub open spec fn le64(s: Seq<u8>, i: int) -> u64 {
    (le32(s, i) + 0x1_0000_0000 * le32(s, i + 4)) as u64
}

/// A number as two little-endian bytes.
pub open spec fn le16_bytes(x: u16) -> Seq<u8> {
    seq![(x % 0x100) as u8, (x / 0x100) as u8]
}

/// A number as four little-endian bytes.
pub open spec fn le32_bytes(x: u32) -> Seq<u8> {
    le16_bytes((x % 0x1_0000) as u16) + le16_bytes((x / 0x1_0000) as u16)
}

/// A number as eight little-endian bytes.
pub open spec fn le64_bytes(x: u64) -> Seq<u8> {
    le32_bytes((x % 0x1_0000_0000) as u32) + le32_bytes((x / 0x1_0000_0000) as u32)
}

/// A number can be read back from where its bytes stand.
pub proof fn lemma_le16_reads_back(s: Seq<u8>, i: int, x: u16)
    requires
        0 <= i,
        i + 2 <= s.len(),
        s.subrange(i, i + 2) == le16_bytes(x),
    ensures
        le16(s, i) == x,
{
    assert(s[i] == s.subrange(i, i + 2)[0]);
    assert(s[i + 1] == s.subrange(i, i + 2)[1]);
}

/// A number can be read back from where its bytes stand.
pub proof fn lemma_le32_reads_back(s: Seq<u8>, i: int, x: u32)
    requires
        0 <= i,
        i + 4 <= s.len(),
        s.subrange(i, i + 4) == le32_bytes(x),
    ensures
        le32(s, i) == x,
{
    let b = s.subrange(i, i + 4);
    assert(s.subrange(i, i + 2) =~= b.subrange(0, 2));
    assert(s.subrange(i + 2, i + 4) =~= b.subrange(2, 4));
    assert(b.subrange(0, 2) =~= le16_bytes((x % 0x1_0000) as u16));
    assert(b.subrange(2, 4) =~= le16_bytes((x / 0x1_0000) as u16));
    lemma_le16_reads_back(s, i, (x % 0x1_0000) as u16);
    lemma_le16_reads_back(s, i + 2, (x / 0x1_0000) as u16);
}

/// A number can be read back from where its bytes stand.
pub proof fn lemma_le64_reads_back(s: Seq<u8>, i: int, x: u64)
    requires
        0 <= i,
        i + 8 <= s.len(),
        s.subrange(i, i + 8) == le64_bytes(x),
    ensures
        le64(s, i) == x,
{
    let b = s.subrange(i, i + 8);
    assert(s.subrange(i, i + 4) =~= b.subrange(0, 4));
    assert(s.subrange(i + 4, i + 8) =~= b.subrange(4, 8));
    assert(b.subrange(0, 4) =~= le32_bytes((x % 0x1_0000_0000) as u32));
    assert(b.subrange(4, 8) =~= le32_bytes((x / 0x1_0000_0000) as u32));
    lemma_le32_reads_back(s, i, (x % 0x1_0000_0000) as u32);
    lemma_le32_reads_back(s, i + 4, (x / 0x1_0000_0000) as u32);
}

/// Reads a little-endian `u16` at `i`.
pub(crate) fn read_u16(s: &[u8], i: usize) -> (x: u16)
    requires
        i + 2 <= s.len(),
    ensures
        x == le16(s@, i as int),
{
    s[i] as u16 + 0x100 * (s[i + 1] as u16)
}

/// Reads a little-endian `u32` at `i`.
pub(crate) fn read_u32(s: &[u8], i: usize) -> (x: u32)
    requires
        i + 4 <= s.len(),
    ensures
        x == le32(s@, i as int),
{
    read_u16(s, i) as u32 + 0x1_0000 * (read_u16(s, i + 2) as u32)
}

/// Reads a little-endian `u64` at `i`.
pub(crate) fn read_u64(s: &[u8], i: usize) -> (x: u64)
    requires
        i + 8 <= s.len(),
    ensures
        x == le64(s@, i as int),
{
    read_u32(s, i) as u64 + 0x1_0000_0000 * (read_u32(s, i + 4) as u64)
}

/// Appends a little-endian `u16`.
pub(crate) fn push_u16(out: &mut Vec<u8>, x: u16)
    ensures
        final(out)@ == old(out)@ + le16_bytes(x),
{
    out.push((x % 0x100) as u8);
    out.push((x / 0x100) as u8);
    assert(out@ =~= old(out)@ + le16_bytes(x));
}

/// Appends a little-endian `u32`.
pub(crate) fn push_u32(out: &mut Vec<u8>, x: u32)
    ensures
        final(out)@ == old(out)@ + le32_bytes(x),
{
    push_u16(out, (x % 0x1_0000) as u16);
    push_u16(out, (x / 0x1_0000) as u16);
    assert(out@ =~= old(out)@ + le32_bytes(x));
}

/// Appends a little-endian `u64`.
pub(crate) fn push_u64(out: &mut Vec<u8>, x: u64)
    ensures
        final(out)@ == old(out)@ + le64_bytes(x),
{
    push_u32(out, (x % 0x1_0000_0000) as u32);
    push_u32(out, (x / 0x1_0000_0000) as u32);
    assert(out@ =~= old(out)@ + le64_bytes(x));
}

/// Appends bytes.
pub(crate) fn push_bytes(out: &mut Vec<u8>, bytes: &[u8])
    ensures
        final(out)@ == old(out)@ + bytes@,
{
    out.extend_from_slice(bytes);
    assert(out@ =~= old(out)@ + bytes@);
}

/// Copies the bytes of a slice.
pub(crate) fn copy(bytes: &[u8]) -> (v: Vec<u8>)
    ensures
        v@ == bytes@,
{
    let mut v: Vec<u8> = Vec::new();
    push_bytes(&mut v, bytes);
    assert(v@ =~= bytes@);
    v
}

/// Copies a part of a slice.
pub(crate) fn copy_range(bytes: &[u8], start: usize, end: usize) -> (v: Vec<u8>)
    requires
        start <= end <= bytes@.len(),
    ensures
        v@ == bytes@.subrange(start as int, end as int),
{
    copy(slice_subrange(bytes, start, end))
}

/// Whether two slices hold the same bytes.
pub(crate) fn same_bytes(a: &[u8], b: &[u8]) -> (r: bool)
    ensures
        r <==> a@ == b@,
{
    if a.len() != b.len() {
        return false;
    }
    let mut i: usize = 0;
    while i < a.len()
        invariant
            i <= a@.len(),
            a@.len() == b@.len(),
            forall|j: int| 0 <= j < i ==> a@[j] == b@[j],
        decreases a@.len() - i,
    {
        if a[i] != b[i] {
            return false;
        }
        i += 1;
    }
    assert(a@ =~= b@);
    true
}

/// Whether a byte occurs in a slice.
pub(crate) fn contains_byte(bytes: &[u8], b: u8) -> (r: bool)
    ensures
        r <==> bytes@.contains(b),
{
    let mut i: usize = 0;
    while i < bytes.len()
        invariant
            i <= bytes@.len(),
            forall|j: int| 0 <= j < i ==> bytes@[j] != b,
        decreases bytes@.len() - i,
    {
        if bytes[i] == b {
            assert(bytes@[i as int] == b);
            return true;
        }
        i += 1;
    }
    false
}

} // verus!
