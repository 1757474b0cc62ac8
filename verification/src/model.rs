//! The mathematical model of CRC-32 (IEEE 802.3, reflected polynomial
//! 0xEDB88320, initial raw state 0xFFFFFFFF, final XOR 0xFFFFFFFF).
//!
//! The model is a bit-by-bit fold: `step_bit` advances the raw state by one
//! input bit (lsb first), `step_byte` by one byte, and `crc_raw_from` by a
//! whole byte sequence. `crc32_of` is the finalized checksum of a buffer.

use vstd::prelude::*;

verus! {

/// The CRC-32 polynomial (IEEE 802.3), in reflected (lsb-first) form.
pub const CRC32_POLY: u32 = 0xEDB88320;

/// The initial raw CRC-32 state, which is also the final XOR constant.
pub const CRC32_XOR: u32 = 0xFFFFFFFF;

/// Advance a raw CRC-32 state by a single input bit: XOR the bit into the
/// lsb; if the lsb is then set, shift right and fold in the polynomial,
/// otherwise just shift right.
pub open spec fn step_bit(crc: u32, bit: bool) -> u32 {
    let t = if bit { crc ^ 1u32 } else { crc };
    if t & 1u32 != 0u32 {
        (t >> 1u32) ^ CRC32_POLY
    } else {
        t >> 1u32
    }
}

/// Advance a raw CRC-32 state by one input byte, feeding its bits lsb first.
pub open spec fn step_byte(crc: u32, b: u8) -> u32 {
    let c0 = step_bit(crc, b & 0x01 != 0);
    let c1 = step_bit(c0, b & 0x02 != 0);
    let c2 = step_bit(c1, b & 0x04 != 0);
    let c3 = step_bit(c2, b & 0x08 != 0);
    let c4 = step_bit(c3, b & 0x10 != 0);
    let c5 = step_bit(c4, b & 0x20 != 0);
    let c6 = step_bit(c5, b & 0x40 != 0);
    step_bit(c6, b & 0x80 != 0)
}

/// The raw CRC-32 state after feeding every byte of `s` into state `crc`.
pub open spec fn crc_raw_from(crc: u32, s: Seq<u8>) -> u32
    decreases s.len(),
{
    if s.len() == 0 {
        crc
    } else {
        crc_raw_from(step_byte(crc, s[0]), s.drop_first())
    }
}

/// The raw (pre final-XOR) CRC-32 of a whole buffer.
pub open spec fn crc32_raw(s: Seq<u8>) -> u32 {
    crc_raw_from(CRC32_XOR, s)
}

/// The finalized CRC-32 of a buffer.
pub open spec fn crc32_of(s: Seq<u8>) -> u32 {
    crc32_raw(s) ^ CRC32_XOR
}

/// An all-zero buffer of length `n`.
pub open spec fn zeros(n: nat) -> Seq<u8> {
    Seq::new(n, |i: int| 0u8)
}

/// A buffer of length `n` whose only non-zero byte is `m`, at position `p`.
pub open spec fn single_byte_buf(n: nat, p: int, m: u8) -> Seq<u8> {
    Seq::new(n, |i: int| if i == p { m } else { 0u8 })
}

/// Bytewise XOR of two buffers of equal length.
pub open spec fn xor_bytes(a: Seq<u8>, b: Seq<u8>) -> Seq<u8> {
    Seq::new(a.len(), |i: int| a[i] ^ b[i])
}

/// The byte with bit `i` set and every other bit clear.
pub open spec fn pow2_byte(i: int) -> u8 {
    if i == 0 {
        0x01
    } else if i == 1 {
        0x02
    } else if i == 2 {
        0x04
    } else if i == 3 {
        0x08
    } else if i == 4 {
        0x10
    } else if i == 5 {
        0x20
    } else if i == 6 {
        0x40
    } else if i == 7 {
        0x80
    } else {
        0x00
    }
}

/// Feeding one more byte extends the fold by one `step_byte`.
pub proof fn lemma_crc_raw_push(crc: u32, s: Seq<u8>, b: u8)
    ensures
        crc_raw_from(crc, s.push(b)) == step_byte(crc_raw_from(crc, s), b),
    decreases s.len(),
{
    if s.len() == 0 {
        assert(s.push(b)[0] == b);
        assert(s.push(b).drop_first() =~= Seq::<u8>::empty());
        assert(crc_raw_from(crc, s.push(b)) == crc_raw_from(
            step_byte(crc, b),
            Seq::<u8>::empty(),
        ));
        assert(crc_raw_from(step_byte(crc, b), Seq::<u8>::empty()) == step_byte(crc, b));
        assert(crc_raw_from(crc, s) == crc);
    } else {
        assert(s.push(b)[0] == s[0]);
        assert(s.push(b).drop_first() =~= s.drop_first().push(b));
        assert(crc_raw_from(crc, s.push(b)) == crc_raw_from(
            step_byte(crc, s[0]),
            s.drop_first().push(b),
        ));
        assert(crc_raw_from(crc, s) == crc_raw_from(step_byte(crc, s[0]), s.drop_first()));
        lemma_crc_raw_push(step_byte(crc, s[0]), s.drop_first(), b);
    }
}

/// XOR with the all-zero buffer is the identity.
pub proof fn lemma_xor_zeros(s: Seq<u8>)
    ensures
        xor_bytes(s, zeros(s.len())) == s,
{
    assert forall|i: int| #![trigger xor_bytes(s, zeros(s.len()))[i]] 0 <= i < s.len() implies
        xor_bytes(s, zeros(s.len()))[i] == s[i] by {
        let x = s[i];
        assert(x ^ 0u8 == x) by (bit_vector);
    }
    assert(xor_bytes(s, zeros(s.len())) =~= s);
}

/// A zero byte in front of a zero-initialised fold changes nothing.
pub proof fn lemma_zero_head(s: Seq<u8>)
    ensures
        crc_raw_from(0u32, seq![0u8] + s) == crc_raw_from(0u32, s),
{
    assert(step_byte(0u32, 0u8) == 0u32) by (bit_vector);
    assert((seq![0u8] + s)[0] == 0u8);
    assert((seq![0u8] + s).drop_first() =~= s);
    assert((seq![0u8] + s).len() == s.len() + 1);
}

/// The CRC-32 of the empty buffer is zero.
pub proof fn lemma_crc32_empty()
    ensures
        crc32_of(Seq::<u8>::empty()) == 0u32,
{
    assert(CRC32_XOR ^ CRC32_XOR == 0u32) by (bit_vector);
}

} // verus!
