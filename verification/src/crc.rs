//! CRC32 checksums, as the `crc32fast` crate computes them.

use vstd::prelude::*;

verus! {

/// An in-progress CRC32 computation of `crc32fast`.
#[verifier::external_type_specification]
#[verifier::external_body]
pub struct ExHasher(crc32fast::Hasher);

/// The checksum register after `bits` more zero bits: each shifts it down, and a one that falls out is fed back by the
/// IEEE polynomial, lowest power last.
pub open spec fn crc32_shifted(register: u32, bits: nat) -> u32
    decreases bits,
{
    if bits == 0 {
        register
    } else {
        let fed: u32 = if register % 2 == 1 { 0xedb8_8320 } else { 0 };
        crc32_shifted((register / 2) ^ fed, (bits - 1) as nat)
    }
}

/// The checksum register after `bytes`. It starts with all ones.
pub open spec fn crc32_register(bytes: Seq<u8>) -> u32
    decreases bytes.len(),
{
    if bytes.len() == 0 {
        0xffff_ffff
    } else {
        crc32_shifted(crc32_register(bytes.drop_last()) ^ (bytes.last() as u32), 8)
    }
}

/// The CRC32 (IEEE) checksum of `bytes`: the register's complement.
pub open spec fn crc32_of(bytes: Seq<u8>) -> u32 {
    crc32_register(bytes) ^ 0xffff_ffff
}

/// The bytes that a hasher has been fed since it was created.
pub uninterp spec fn hashed_bytes(hasher: crc32fast::Hasher) -> Seq<u8>;

/// `crc32fast::hash` returns the CRC32 (IEEE) checksum of the whole slice.
pub assume_specification[ crc32fast::hash ](buf: &[u8]) -> (crc: u32)
    ensures
        crc == crc32_of(buf@),
;

/// `crc32fast::Hasher::new` returns a hasher that has been fed nothing.
pub assume_specification[ crc32fast::Hasher::new ]() -> (hasher: crc32fast::Hasher)
    ensures
        hashed_bytes(hasher) == Seq::<u8>::empty(),
;

/// `crc32fast::Hasher::update` feeds a slice to the hasher, after what it was fed before. The hasher counts its bytes
/// in a `u64`, which must not overflow.
pub assume_specification[ crc32fast::Hasher::update ](hasher: &mut crc32fast::Hasher, buf: &[u8])
    requires
        hashed_bytes(*old(hasher)).len() + buf@.len() <= u64::MAX,
    ensures
        hashed_bytes(*final(hasher)) == hashed_bytes(*old(hasher)) + buf@,
;

/// `crc32fast::Hasher::finalize` returns the CRC32 (IEEE) checksum of all that the hasher was fed.
pub assume_specification[ crc32fast::Hasher::finalize ](hasher: crc32fast::Hasher) -> (crc: u32)
    ensures
        crc == crc32_of(hashed_bytes(hasher)),
;

} // verus!
