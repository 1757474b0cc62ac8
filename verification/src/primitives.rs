//! Executable CRC-32 primitives: single-bit and zero-byte state updates,
//! the O(log n) all-zero-buffer checksum, and the thin layer over the
//! `crc32fast` crate that the library builds on.

use vstd::prelude::*;

verus! {

use crate::model::{
    step_bit, step_byte, crc_raw_from, crc32_raw, crc32_of, zeros, lemma_crc32_empty, CRC32_POLY,
    CRC32_XOR,
};

/// Advance a raw CRC-32 state by a single input bit (reflected polynomial,
/// lsb first).
pub fn update_one_bit(crc: u32, b: bool) -> (r: u32)
    ensures
        r == step_bit(crc, b),
{
    let mut c = crc;
    if b {
        c = c ^ 1;
    }
    let must_subtract = c & 1 != 0;
    c = c >> 1u32;
    if must_subtract {
        c ^ CRC32_POLY
    } else {
        c
    }
}

/// Advance a raw CRC-32 state by one zero input byte.
pub fn update_0(crc: u32) -> (r: u32)
    ensures
        r == step_byte(crc, 0u8),
{
    proof {
        assert(0u8 & 0x01 == 0 && 0u8 & 0x02 == 0 && 0u8 & 0x04 == 0 && 0u8 & 0x08 == 0 && 0u8
            & 0x10 == 0 && 0u8 & 0x20 == 0 && 0u8 & 0x40 == 0 && 0u8 & 0x80 == 0) by (bit_vector);
    }
    let mut c = crc;
    c = update_one_bit(c, false);
    c = update_one_bit(c, false);
    c = update_one_bit(c, false);
    c = update_one_bit(c, false);
    c = update_one_bit(c, false);
    c = update_one_bit(c, false);
    c = update_one_bit(c, false);
    c = update_one_bit(c, false);
    c
}

/// Turning a finalized CRC-32 into its raw form and back is the same XOR.
pub(crate) proof fn lemma_final_raw(x: u32, y: u32)
    requires
        x == y ^ CRC32_XOR,
    ensures
        y == x ^ CRC32_XOR,
{
    assert(y == (y ^ CRC32_XOR) ^ CRC32_XOR) by (bit_vector);
}

/// Relies on `crc32fast::hash`: it returns the finalized IEEE 802.3
/// (reflected) CRC-32 of the given bytes.
#[verifier::external_body]
pub(crate) fn crc32_hash(data: &[u8]) -> (r: u32)
    ensures
        r == crc32_of(data@),
{
    crc32fast::hash(data)
}

/// Relies on `crc32fast::Hasher::{new_with_initial_len, update, finalize}`:
/// updating a hasher seeded with the finalized CRC-32 of a buffer of length
/// `len` by one byte yields the finalized CRC-32 of that buffer extended by
/// the byte.
#[verifier::external_body]
pub(crate) fn crc32_extend_byte(crc: u32, len: u64, b: u8) -> (r: u32)
    ensures
        forall|s: Seq<u8>|
            crc32_of(s) == crc && s.len() == len ==> r == crc32_of(#[trigger] s.push(b)),
{
    let mut h = crc32fast::Hasher::new_with_initial_len(crc, len);
    h.update(&[b]);
    h.finalize()
}

/// Relies on `crc32fast::Hasher::combine`: given the finalized CRC-32 of a
/// buffer `x`, and the finalized CRC-32 and the length of a buffer `y`, it
/// returns the finalized CRC-32 of the concatenation `x ++ y`.
#[verifier::external_body]
pub(crate) fn crc32_concat(crc_a: u32, crc_b: u32, len_b: u64) -> (r: u32)
    ensures
        forall|x: Seq<u8>, y: Seq<u8>|
            crc32_of(x) == crc_a && crc32_of(y) == crc_b && y.len() == len_b ==> r == crc32_of(
                #[trigger] (x + y),
            ),
{
    let mut a = crc32fast::Hasher::new_with_initial(crc_a);
    let b = crc32fast::Hasher::new_with_initial_len(crc_b, len_b);
    a.combine(&b);
    a.finalize()
}

/// The low `n` bits of a 64-bit word, as a mask.
pub open spec fn mask_low(n: nat) -> u64 {
    if n >= 64 {
        0xFFFFFFFFFFFFFFFFu64
    } else {
        ((1u64 << n) - 1) as u64
    }
}

/// Finalized CRC-32 of `block_size` zero bytes, computed with O(log n)
/// combines of power-of-two zero blocks.
pub fn zeroes_crc32(block_size: u64) -> (r: u32)
    ensures
        r == crc32_of(zeros(block_size as nat)),
{
    // CRC-32 of a single zero byte, from the bit-level primitives.
    let c1 = update_0(CRC32_XOR) ^ CRC32_XOR;
    proof {
        assert(zeros(1)[0] == 0u8);
        assert(zeros(1).drop_first() =~= Seq::<u8>::empty());
        assert(crc32_raw(zeros(1)) == crc_raw_from(step_byte(CRC32_XOR, 0u8), zeros(1).drop_first()));
        lemma_crc32_empty();
    }
    let mut acc: u32 = 0;
    let mut pow2_crc: u32 = c1;
    let mut n: u64 = 0;
    proof {
        assert(block_size & (((1u64 << 0u64) - 1) as u64) == 0) by (bit_vector);
        assert(zeros(0) =~= Seq::<u8>::empty());
        assert(1u64 << 0u64 == 1) by (bit_vector);
    }
    while n < 64
        invariant
            n <= 64,
            acc == crc32_of(zeros((block_size & mask_low(n as nat)) as nat)),
            n < 64 ==> pow2_crc == crc32_of(zeros((1u64 << n) as nat)),
        decreases 64 - n,
    {
        let pow2: u64 = 1u64 << n;
        if block_size & pow2 != 0 {
            let prev = acc;
            acc = crc32_concat(acc, pow2_crc, pow2);
            proof {
                let lo = (block_size & mask_low(n as nat)) as nat;
                let p2 = (1u64 << n) as nat;
                assert(zeros(lo) + zeros(p2) =~= zeros(lo + p2));
                assert(acc == crc32_of(zeros(lo) + zeros(p2)));
                if n == 63 {
                    assert(block_size & 0xFFFFFFFFFFFFFFFFu64 == (block_size
                        & 0x7FFFFFFFFFFFFFFFu64) + 0x8000000000000000u64) by (bit_vector)
                        requires
                            block_size & (1u64 << 63u64) != 0,
                    ;
                    assert((1u64 << 63u64) == 0x8000000000000000u64) by (bit_vector);
                    assert(((1u64 << 63u64) - 1) as u64 == 0x7FFFFFFFFFFFFFFFu64) by (bit_vector);
                } else {
                    let n1: u64 = (n + 1) as u64;
                    assert(block_size & (((1u64 << n1) - 1) as u64) == (block_size & (((1u64 << n)
                        - 1) as u64)) + (1u64 << n)) by (bit_vector)
                        requires
                            n < 63,
                            n1 == n + 1,
                            block_size & (1u64 << n) != 0,
                    ;
                }
            }
        } else if block_size < pow2 {
            proof {
                assert(block_size & (((1u64 << n) - 1) as u64) == block_size) by (bit_vector)
                    requires
                        n < 64,
                        block_size < (1u64 << n),
                ;
            }
            return acc;
        } else {
            proof {
                if n == 63 {
                    assert(block_size & 0xFFFFFFFFFFFFFFFFu64 == block_size
                        & 0x7FFFFFFFFFFFFFFFu64) by (bit_vector)
                        requires
                            block_size & (1u64 << 63u64) == 0,
                    ;
                    assert(((1u64 << 63u64) - 1) as u64 == 0x7FFFFFFFFFFFFFFFu64) by (bit_vector);
                } else {
                    let n1: u64 = (n + 1) as u64;
                    assert(block_size & (((1u64 << n1) - 1) as u64) == block_size & (((1u64 << n)
                        - 1) as u64)) by (bit_vector)
                        requires
                            n < 63,
                            n1 == n + 1,
                            block_size & (1u64 << n) == 0,
                    ;
                }
            }
        }
        if n < 63 {
            pow2_crc = crc32_concat(pow2_crc, pow2_crc, pow2);
            proof {
                let p2 = (1u64 << n) as nat;
                assert(zeros(p2) + zeros(p2) =~= zeros(p2 + p2));
                assert(pow2_crc == crc32_of(zeros(p2) + zeros(p2)));
                let n1: u64 = (n + 1) as u64;
                assert((1u64 << n1) == (1u64 << n) + (1u64 << n)) by (bit_vector)
                    requires
                        n < 63,
                        n1 == n + 1,
                ;
            }
        }
        n = n + 1;
    }
    proof {
        assert(block_size & 0xFFFFFFFFFFFFFFFFu64 == block_size) by (bit_vector);
    }
    acc
}

} // verus!
