//! GF(2) linearity of the CRC-32 fold, and its two consequences that drive
//! the partial hasher: the bit-flip delta and the mask-shift identity.

use vstd::prelude::*;

verus! {

use crate::model::{
    step_bit, step_byte, crc_raw_from, crc32_raw, crc32_of, zeros, single_byte_buf, xor_bytes,
    lemma_crc_raw_push, lemma_zero_head, lemma_xor_zeros, CRC32_XOR,
};

/// One bit step is linear over GF(2): the step of the XOR is the XOR of the
/// steps, with the input bits XORed as well.
proof fn lemma_step_bit_linear(c1: u32, c2: u32, b1: bool, b2: bool)
    ensures
        step_bit(c1, b1) ^ step_bit(c2, b2) == step_bit(c1 ^ c2, b1 != b2),
{
    if b1 {
        if b2 {
            assert(step_bit(c1, true) ^ step_bit(c2, true) == step_bit(c1 ^ c2, false))
                by (bit_vector);
        } else {
            assert(step_bit(c1, true) ^ step_bit(c2, false) == step_bit(c1 ^ c2, true))
                by (bit_vector);
        }
    } else {
        if b2 {
            assert(step_bit(c1, false) ^ step_bit(c2, true) == step_bit(c1 ^ c2, true))
                by (bit_vector);
        } else {
            assert(step_bit(c1, false) ^ step_bit(c2, false) == step_bit(c1 ^ c2, false))
                by (bit_vector);
        }
    }
}

/// One byte step is linear over GF(2).
proof fn lemma_step_byte_linear(c1: u32, c2: u32, b1: u8, b2: u8)
    ensures
        step_byte(c1, b1) ^ step_byte(c2, b2) == step_byte(c1 ^ c2, b1 ^ b2),
{
    assert(((b1 ^ b2) & 0x01 != 0) == ((b1 & 0x01 != 0) != (b2 & 0x01 != 0))
        && ((b1 ^ b2) & 0x02 != 0) == ((b1 & 0x02 != 0) != (b2 & 0x02 != 0))
        && ((b1 ^ b2) & 0x04 != 0) == ((b1 & 0x04 != 0) != (b2 & 0x04 != 0))
        && ((b1 ^ b2) & 0x08 != 0) == ((b1 & 0x08 != 0) != (b2 & 0x08 != 0))
        && ((b1 ^ b2) & 0x10 != 0) == ((b1 & 0x10 != 0) != (b2 & 0x10 != 0))
        && ((b1 ^ b2) & 0x20 != 0) == ((b1 & 0x20 != 0) != (b2 & 0x20 != 0))
        && ((b1 ^ b2) & 0x40 != 0) == ((b1 & 0x40 != 0) != (b2 & 0x40 != 0))
        && ((b1 ^ b2) & 0x80 != 0) == ((b1 & 0x80 != 0) != (b2 & 0x80 != 0))) by (bit_vector);
    let d1 = step_bit(c1, b1 & 0x01 != 0);
    let d2 = step_bit(c2, b2 & 0x01 != 0);
    lemma_step_bit_linear(c1, c2, b1 & 0x01 != 0, b2 & 0x01 != 0);
    let e1 = step_bit(d1, b1 & 0x02 != 0);
    let e2 = step_bit(d2, b2 & 0x02 != 0);
    lemma_step_bit_linear(d1, d2, b1 & 0x02 != 0, b2 & 0x02 != 0);
    let f1 = step_bit(e1, b1 & 0x04 != 0);
    let f2 = step_bit(e2, b2 & 0x04 != 0);
    lemma_step_bit_linear(e1, e2, b1 & 0x04 != 0, b2 & 0x04 != 0);
    let g1 = step_bit(f1, b1 & 0x08 != 0);
    let g2 = step_bit(f2, b2 & 0x08 != 0);
    lemma_step_bit_linear(f1, f2, b1 & 0x08 != 0, b2 & 0x08 != 0);
    let h1 = step_bit(g1, b1 & 0x10 != 0);
    let h2 = step_bit(g2, b2 & 0x10 != 0);
    lemma_step_bit_linear(g1, g2, b1 & 0x10 != 0, b2 & 0x10 != 0);
    let i1 = step_bit(h1, b1 & 0x20 != 0);
    let i2 = step_bit(h2, b2 & 0x20 != 0);
    lemma_step_bit_linear(h1, h2, b1 & 0x20 != 0, b2 & 0x20 != 0);
    let j1 = step_bit(i1, b1 & 0x40 != 0);
    let j2 = step_bit(i2, b2 & 0x40 != 0);
    lemma_step_bit_linear(i1, i2, b1 & 0x40 != 0, b2 & 0x40 != 0);
    lemma_step_bit_linear(j1, j2, b1 & 0x80 != 0, b2 & 0x80 != 0);
}

/// The whole fold is linear over GF(2): folding two equal-length buffers from
/// two states and XORing the results equals folding the bytewise XOR from the
/// XOR of the states.
pub proof fn lemma_crc_raw_linear(c1: u32, c2: u32, s1: Seq<u8>, s2: Seq<u8>)
    requires
        s1.len() == s2.len(),
    ensures
        crc_raw_from(c1, s1) ^ crc_raw_from(c2, s2) == crc_raw_from(c1 ^ c2, xor_bytes(s1, s2)),
    decreases s1.len(),
{
    if s1.len() == 0 {
        assert(xor_bytes(s1, s2).len() == 0);
    } else {
        lemma_step_byte_linear(c1, c2, s1[0], s2[0]);
        lemma_crc_raw_linear(
            step_byte(c1, s1[0]),
            step_byte(c2, s2[0]),
            s1.drop_first(),
            s2.drop_first(),
        );
        assert(xor_bytes(s1, s2)[0] == (s1[0] ^ s2[0]));
        assert(xor_bytes(s1, s2).drop_first() =~= xor_bytes(s1.drop_first(), s2.drop_first()));
    }
}

/// The XOR of the finalized CRCs of two equal-length buffers depends only on
/// their bytewise XOR (the initial state and the final XOR both cancel).
pub proof fn lemma_crc32_difference(s1: Seq<u8>, s2: Seq<u8>)
    requires
        s1.len() == s2.len(),
    ensures
        crc32_of(s1) ^ crc32_of(s2) == crc_raw_from(0u32, xor_bytes(s1, s2)),
{
    assert(CRC32_XOR ^ CRC32_XOR == 0u32) by (bit_vector);
    lemma_crc_raw_linear(CRC32_XOR, CRC32_XOR, s1, s2);
    let a = crc32_raw(s1);
    let b = crc32_raw(s2);
    assert((a ^ CRC32_XOR) ^ (b ^ CRC32_XOR) == a ^ b) by (bit_vector);
}

/// Flipping the bits `m` of the byte at position `p` of a buffer changes its
/// finalized CRC-32 by the delta between the raw CRC of the single-byte
/// buffer holding `m` at `p` and the raw CRC of the all-zero buffer.
pub proof fn lemma_crc32_flip(s: Seq<u8>, p: int, m: u8)
    requires
        0 <= p < s.len(),
    ensures
        crc32_of(s.update(p, s[p] ^ m)) == crc32_of(s) ^ (crc32_raw(
            single_byte_buf(s.len(), p, m),
        ) ^ crc32_raw(zeros(s.len()))),
{
    let n = s.len();
    let s2 = s.update(p, s[p] ^ m);
    let sb = single_byte_buf(n, p, m);
    lemma_crc32_difference(s2, s);
    assert forall|i: int| #![trigger xor_bytes(s2, s)[i]] 0 <= i < n implies xor_bytes(s2, s)[i]
        == sb[i] by {
        let x = s[i];
        if i == p {
            assert((x ^ m) ^ x == m) by (bit_vector);
        } else {
            assert(x ^ x == 0u8) by (bit_vector);
        }
    }
    assert(xor_bytes(s2, s) =~= sb);
    lemma_crc32_difference(sb, zeros(n));
    lemma_xor_zeros(sb);
    let d = crc_raw_from(0u32, sb);
    let w = crc32_of(s2);
    let y = crc32_of(s);
    let u = crc32_raw(sb);
    let v = crc32_raw(zeros(n));
    assert(w == y ^ (u ^ v)) by (bit_vector)
        requires
            w ^ y == d,
            (u ^ CRC32_XOR) ^ (v ^ CRC32_XOR) == d,
    ;
}

/// Shifting a single-bit mask one byte towards the front of the buffer: one
/// zero-byte step plus the all-zero correction moves the mask from position
/// `p` to position `p - 1` while keeping the buffer length `n`.
pub proof fn lemma_mask_shift(n: nat, p: int, m: u8)
    requires
        1 <= p < n,
    ensures
        step_byte(crc32_raw(single_byte_buf(n, p, m)), 0u8) ^ (crc32_raw(zeros(n)) ^ step_byte(
            crc32_raw(zeros(n)),
            0u8,
        )) == crc32_raw(single_byte_buf(n, p - 1, m)),
{
    lemma_crc_raw_push(CRC32_XOR, single_byte_buf(n, p, m), 0u8);
    lemma_crc_raw_push(CRC32_XOR, zeros(n), 0u8);
    assert(single_byte_buf(n, p, m).push(0u8) =~= single_byte_buf(n + 1, p, m));
    assert(zeros(n).push(0u8) =~= zeros(n + 1));
    assert(CRC32_XOR ^ CRC32_XOR == 0u32) by (bit_vector);
    // The raw difference at length n + 1.
    lemma_crc_raw_linear(CRC32_XOR, CRC32_XOR, single_byte_buf(n + 1, p, m), zeros(n + 1));
    lemma_xor_zeros(single_byte_buf(n + 1, p, m));
    // The raw difference at length n.
    lemma_crc_raw_linear(CRC32_XOR, CRC32_XOR, single_byte_buf(n, p - 1, m), zeros(n));
    lemma_xor_zeros(single_byte_buf(n, p - 1, m));
    // A single-bit buffer keeps its zero-initialised fold when a leading zero
    // byte is dropped.
    assert(single_byte_buf(n + 1, p, m) =~= seq![0u8] + single_byte_buf(n, p - 1, m));
    lemma_zero_head(single_byte_buf(n, p - 1, m));
    let d = crc_raw_from(0u32, single_byte_buf(n, p - 1, m));
    let a = crc32_raw(single_byte_buf(n, p, m));
    let az = crc32_raw(zeros(n));
    let a1 = crc32_raw(single_byte_buf(n + 1, p, m));
    let az1 = crc32_raw(zeros(n + 1));
    let t = crc32_raw(single_byte_buf(n, p - 1, m));
    assert(a1 ^ (az ^ az1) == t) by (bit_vector)
        requires
            a1 ^ az1 == d,
            t ^ az == d,
    ;
}

} // verus!
