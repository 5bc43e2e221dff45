//! What a checksum becomes as bytes are appended.

use vstd::prelude::*;

use crate::crc::{crc32_of, crc32_register, crc32_shifted};

verus! {

/// A checksum register after one more bit.
pub open spec fn after_bit(register: u32) -> u32 {
    (register >> 1) ^ (if register & 1 != 0 {
        0xedb8_8320
    } else {
        0u32
    })
}

proof fn lemma_shift(register: u32, bits: nat)
    ensures
        bits > 0 ==> crc32_shifted(register, bits) == crc32_shifted(after_bit(register), (bits - 1) as nat),
        crc32_shifted(register, 0) == register,
{
    assert(register % 2 == 1 <==> register & 1 != 0) by (bit_vector);
    assert(register / 2 == register >> 1) by (bit_vector);
}

/// The checksum of nothing is 0. A byte that is appended is taken into the complement of the checksum, which then goes through
/// eight bits, and the complement of that is the new checksum.
pub proof fn lemma_checksum_of_appended_byte(bytes: Seq<u8>, byte: u8)
    ensures
        crc32_of(Seq::empty()) == 0,
        ({
            let start = !crc32_of(bytes) ^ (byte as u32);
            let half = after_bit(after_bit(after_bit(after_bit(start))));
            crc32_of(bytes.push(byte)) == !after_bit(after_bit(after_bit(after_bit(half))))
        }),
{
    let register = crc32_register(bytes);
    assert(0xffff_ffffu32 ^ 0xffff_ffff == 0) by (bit_vector);
    assert(!(register ^ 0xffff_ffff) == register) by (bit_vector);
    assert(bytes.push(byte).drop_last() =~= bytes);
    let r0 = register ^ (byte as u32);
    let r1 = after_bit(r0);
    let r2 = after_bit(r1);
    let r3 = after_bit(r2);
    let r4 = after_bit(r3);
    let r5 = after_bit(r4);
    let r6 = after_bit(r5);
    let r7 = after_bit(r6);
    let r8 = after_bit(r7);
    lemma_shift(r0, 8);
    lemma_shift(r1, 7);
    lemma_shift(r2, 6);
    lemma_shift(r3, 5);
    lemma_shift(r4, 4);
    lemma_shift(r5, 3);
    lemma_shift(r6, 2);
    lemma_shift(r7, 1);
    lemma_shift(r8, 0);
    assert(r8 ^ 0xffff_ffff == !r8) by (bit_vector);
}

} // verus!
