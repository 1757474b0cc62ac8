//! The partial hasher: a stateful producer that, for a buffer of n bytes,
//! emits the finalized CRC-32 of each of the n + 1 "partially zeroed"
//! variants of the buffer in O(n) total work, by rolling single-bit deltas
//! through the CRC state instead of rehashing each variant.

use vstd::prelude::*;

verus! {

use crate::model::{
    step_byte, crc32_raw, crc32_of, zeros, single_byte_buf, pow2_byte, lemma_crc32_empty,
    CRC32_XOR,
};
use crate::linear::{lemma_crc32_flip, lemma_mask_shift};
use crate::primitives::{update_0, zeroes_crc32, crc32_hash, crc32_extend_byte, lemma_final_raw};

/// Which end of the buffer is replaced by zeroes as the hasher advances.
pub enum HashMode {
    /// Keep a prefix of the buffer and zero the suffix; the split index k
    /// counts the kept prefix bytes.
    ZeroFromEnd,
    /// Zero a prefix and keep the suffix; the split index k counts the
    /// zeroed prefix bytes.
    FillFromEnd,
}

/// The partial variant of `b` with split index `k` under `mode`.
pub open spec fn variant_bytes(mode: HashMode, b: Seq<u8>, k: nat) -> Seq<u8> {
    match mode {
        HashMode::ZeroFromEnd => b.take(k as int) + zeros((b.len() - k) as nat),
        HashMode::FillFromEnd => zeros(k) + b.skip(k as int),
    }
}

/// The j-th value (0-based) that a partial hasher over `b` in `mode` emits:
/// the finalized CRC-32 of the variant with split index k = |b| - j, so the
/// split index runs from |b| down to 0.
pub open spec fn emitted_value(mode: HashMode, b: Seq<u8>, j: nat) -> u32 {
    crc32_of(variant_bytes(mode, b, (b.len() - j) as nat))
}

/// A partial variant has the same length as the buffer itself.
proof fn lemma_variant_len(mode: HashMode, b: Seq<u8>, k: nat)
    requires
        k <= b.len(),
    ensures
        variant_bytes(mode, b, k).len() == b.len(),
{
}

/// Lowering the split index by one flips the byte at the new split position
/// between its original value and zero; in either mode the flipped bits are
/// exactly the bits of that byte of the buffer.
proof fn lemma_variant_step(mode: HashMode, b: Seq<u8>, k: nat)
    requires
        1 <= k <= b.len(),
    ensures
        variant_bytes(mode, b, (k - 1) as nat) == variant_bytes(mode, b, k).update(
            k - 1,
            variant_bytes(mode, b, k)[k - 1] ^ b[k - 1],
        ),
{
    let n = b.len();
    let s1 = variant_bytes(mode, b, k);
    let s2 = variant_bytes(mode, b, (k - 1) as nat);
    let x = b[k - 1];
    assert(x ^ x == 0u8) by (bit_vector);
    assert(0u8 ^ x == x) by (bit_vector);
    match mode {
        HashMode::ZeroFromEnd => {
            assert(s1[k - 1] == x);
            assert(s2 =~= s1.update(k - 1, s1[k - 1] ^ x));
        },
        HashMode::FillFromEnd => {
            assert(s1[k - 1] == 0u8);
            assert(s2 =~= s1.update(k - 1, s1[k - 1] ^ x));
        },
    }
}

/// One step of the emission roll: if the running value is the CRC-32 of the
/// variant with the bits `acc` of the split byte already flipped, XORing in
/// the single-bit mask delta flips the bits `m` as well.
proof fn lemma_flip_bit(s0: Seq<u8>, p: int, acc: u8, m: u8, cur: u32, maskv: u32, azv: u32)
    requires
        0 <= p < s0.len(),
        cur == crc32_of(s0.update(p, s0[p] ^ acc)),
        maskv == crc32_raw(single_byte_buf(s0.len(), p, m)),
        azv == crc32_raw(zeros(s0.len())),
    ensures
        cur ^ (maskv ^ azv) == crc32_of(s0.update(p, s0[p] ^ (acc ^ m))),
{
    let s1 = s0.update(p, s0[p] ^ acc);
    assert(s1.len() == s0.len());
    lemma_crc32_flip(s1, p, m);
    let x = s0[p];
    assert(((x ^ acc) ^ m) == x ^ (acc ^ m)) by (bit_vector);
    assert(s1.update(p, s1[p] ^ m) =~= s0.update(p, s0[p] ^ (acc ^ m)));
}

/// The lazy partial-variant hasher. Created from a borrowed buffer and a
/// mode, it emits exactly n + 1 CRC-32 values through `next` and then
/// reports the end of the sequence forever after.
pub struct PartialHasher<'a> {
    /// The original buffer; a cursor shrinks logically from the right.
    buf: &'a [u8],
    /// How many buffer bytes the cursor still covers; the split index of the
    /// value `next` will hand out.
    pos: usize,
    /// True until the first value has been emitted.
    first: bool,
    /// Raw CRC-32 of the all-zero buffer of the same length as `buf`.
    all_zero: u32,
    /// Finalized CRC-32 of the current partial variant.
    current_crc: u32,
    /// Raw CRC-32s of the eight buffers (of the same length as `buf`) whose
    /// only set bit is bit i of the byte just left of the cursor.
    rolling_mask: Vec<u32>,
    /// XOR correction that keeps a rolling mask at buffer length when it is
    /// advanced by one zero byte.
    advance_xor: u32,
    /// The mode the hasher was constructed in.
    mode: Ghost<HashMode>,
}

impl<'a> PartialHasher<'a> {
    /// The buffer the hasher walks.
    pub closed spec fn input(self) -> Seq<u8> {
        self.buf@
    }

    /// The mode the hasher was constructed in.
    pub closed spec fn hash_mode(self) -> HashMode {
        self.mode@
    }

    /// How many values the hasher has emitted so far.
    pub closed spec fn emitted(self) -> nat {
        if self.first {
            0
        } else {
            (self.input().len() - self.pos + 1) as nat
        }
    }

    /// The internal state invariant: the cursor is inside the buffer, the
    /// current value is the CRC-32 of the current variant, and the rolling
    /// masks, the all-zero CRC and the advance correction are what the roll
    /// step needs.
    pub closed spec fn wf(self) -> bool {
        let n = self.input().len();
        &&& self.pos <= n
        &&& (self.first ==> self.pos == n)
        &&& self.rolling_mask@.len() == 8
        &&& self.current_crc == crc32_of(variant_bytes(self.mode@, self.input(), self.pos as nat))
        &&& (self.pos >= 1 ==> {
            &&& self.all_zero == crc32_raw(zeros(n))
            &&& self.advance_xor == crc32_raw(zeros(n)) ^ step_byte(crc32_raw(zeros(n)), 0u8)
            &&& (forall|i: int|
                0 <= i < 8 ==> self.rolling_mask@[i] == crc32_raw(
                    single_byte_buf(n, self.pos - 1, pow2_byte(i)),
                ))
        })
    }

    /// The raw CRC-32 of the buffer of length `nm1 + 1` whose only non-zero
    /// byte is `m`, at the last position.
    fn single_byte_mask(zprev: u32, nm1: u64, m: u8) -> (r: u32)
        requires
            zprev == crc32_of(zeros(nm1 as nat)),
        ensures
            r == crc32_raw(single_byte_buf(nm1 as nat + 1, nm1 as int, m)),
    {
        let e = crc32_extend_byte(zprev, nm1, m);
        proof {
            assert(zeros(nm1 as nat).len() == nm1);
            assert(e == crc32_of(zeros(nm1 as nat).push(m)));
            assert(zeros(nm1 as nat).push(m) =~= single_byte_buf(nm1 as nat + 1, nm1 as int, m));
        }
        let r = e ^ CRC32_XOR;
        proof {
            lemma_final_raw(e, crc32_raw(single_byte_buf(nm1 as nat + 1, nm1 as int, m)));
        }
        r
    }

    /// The shared part of construction: everything but the initial current
    /// value, which is the all-zero CRC until a mode-specific constructor
    /// overrides it.
    fn new_common(buf: &'a [u8], Ghost(mode): Ghost<HashMode>) -> (h: Self)
        ensures
            h.buf@ == buf@,
            h.pos == buf@.len(),
            h.first == true,
            h.mode@ == mode,
            h.rolling_mask@.len() == 8,
            h.current_crc == crc32_of(zeros(buf@.len())),
            buf@.len() >= 1 ==> {
                &&& h.all_zero == crc32_raw(zeros(buf@.len()))
                &&& h.advance_xor == crc32_raw(zeros(buf@.len())) ^ step_byte(
                    crc32_raw(zeros(buf@.len())),
                    0u8,
                )
                &&& (forall|i: int|
                    0 <= i < 8 ==> h.rolling_mask@[i] == crc32_raw(
                        single_byte_buf(buf@.len(), buf@.len() - 1, pow2_byte(i)),
                    ))
            },
    {
        let n = buf.len();
        if n == 0 {
            proof {
                lemma_crc32_empty();
                assert(zeros(0) =~= Seq::<u8>::empty());
            }
            let masks: Vec<u32> = vec![0u32; 8];
            return PartialHasher {
                buf,
                pos: 0,
                first: true,
                all_zero: CRC32_XOR,
                current_crc: 0,
                rolling_mask: masks,
                advance_xor: 0,
                mode: Ghost(mode),
            };
        }
        let n64 = n as u64;
        let z = zeroes_crc32(n64);
        let raw_z = z ^ CRC32_XOR;
        proof {
            lemma_final_raw(z, crc32_raw(zeros(n as nat)));
        }
        let adv = raw_z ^ update_0(raw_z);
        let zprev = zeroes_crc32(n64 - 1);
        let mut masks: Vec<u32> = Vec::new();
        masks.push(Self::single_byte_mask(zprev, n64 - 1, 0x01));
        masks.push(Self::single_byte_mask(zprev, n64 - 1, 0x02));
        masks.push(Self::single_byte_mask(zprev, n64 - 1, 0x04));
        masks.push(Self::single_byte_mask(zprev, n64 - 1, 0x08));
        masks.push(Self::single_byte_mask(zprev, n64 - 1, 0x10));
        masks.push(Self::single_byte_mask(zprev, n64 - 1, 0x20));
        masks.push(Self::single_byte_mask(zprev, n64 - 1, 0x40));
        masks.push(Self::single_byte_mask(zprev, n64 - 1, 0x80));
        proof {
            assert((n64 - 1) as nat + 1 == n as nat);
            assert(masks@[0] == crc32_raw(single_byte_buf(n as nat, n as int - 1, pow2_byte(0))));
            assert(masks@[1] == crc32_raw(single_byte_buf(n as nat, n as int - 1, pow2_byte(1))));
            assert(masks@[2] == crc32_raw(single_byte_buf(n as nat, n as int - 1, pow2_byte(2))));
            assert(masks@[3] == crc32_raw(single_byte_buf(n as nat, n as int - 1, pow2_byte(3))));
            assert(masks@[4] == crc32_raw(single_byte_buf(n as nat, n as int - 1, pow2_byte(4))));
            assert(masks@[5] == crc32_raw(single_byte_buf(n as nat, n as int - 1, pow2_byte(5))));
            assert(masks@[6] == crc32_raw(single_byte_buf(n as nat, n as int - 1, pow2_byte(6))));
            assert(masks@[7] == crc32_raw(single_byte_buf(n as nat, n as int - 1, pow2_byte(7))));
        }
        PartialHasher {
            buf,
            pos: n,
            first: true,
            all_zero: raw_z,
            current_crc: z,
            rolling_mask: masks,
            advance_xor: adv,
            mode: Ghost(mode),
        }
    }

    /// First emit the CRC-32 of the buffer itself, then of the buffer with
    /// ever more trailing bytes zeroed, down to the all-zero buffer.
    pub fn new_zero_from_end(buf: &'a [u8]) -> (h: Self)
        ensures
            h.wf(),
            h.input() == buf@,
            h.hash_mode() == HashMode::ZeroFromEnd,
            h.emitted() == 0,
    {
        let mut h = Self::new_common(buf, Ghost(HashMode::ZeroFromEnd));
        let c = crc32_hash(buf);
        h.current_crc = c;
        proof {
            assert(variant_bytes(HashMode::ZeroFromEnd, buf@, buf@.len()) =~= buf@);
        }
        h
    }

    /// First emit the CRC-32 of the all-zero buffer, then of the buffer with
    /// ever more trailing bytes restored, up to the CRC-32 of the buffer
    /// itself.
    pub fn new_fill_from_end(buf: &'a [u8]) -> (h: Self)
        ensures
            h.wf(),
            h.input() == buf@,
            h.hash_mode() == HashMode::FillFromEnd,
            h.emitted() == 0,
    {
        let h = Self::new_common(buf, Ghost(HashMode::FillFromEnd));
        proof {
            assert(variant_bytes(HashMode::FillFromEnd, buf@, buf@.len()) =~= zeros(buf@.len()));
        }
        h
    }

    /// Emit the next value. The j-th call (0-based, j <= n) returns the
    /// CRC-32 of the variant with split index n - j; every later call
    /// returns `None`.
    /// Fold the split byte into the running CRC: flip, bit by bit, the byte
    /// at position `p` of the variant from its current value to that value
    /// XOR `b`, using the rolling single-bit masks.
    #[verifier::rlimit(60)]
    fn apply_byte(
        cur: u32,
        b: u8,
        masks: &Vec<u32>,
        az: u32,
        Ghost(s0): Ghost<Seq<u8>>,
        Ghost(p): Ghost<int>,
    ) -> (r: u32)
        requires
            masks@.len() == 8,
            0 <= p < s0.len(),
            cur == crc32_of(s0),
            az == crc32_raw(zeros(s0.len())),
            forall|i: int|
                0 <= i < 8 ==> masks@[i] == crc32_raw(single_byte_buf(s0.len(), p, pow2_byte(i))),
        ensures
            r == crc32_of(s0.update(p, s0[p] ^ b)),
    {
        proof {
            assert((b & 0x00) == 0u8
                && (b & 0x01 != 0 ==> (b & 0x01) == ((b & 0x00) ^ 0x01u8))
                && (b & 0x01 == 0 ==> (b & 0x01) == (b & 0x00))
                && (b & 0x02 != 0 ==> (b & 0x03) == ((b & 0x01) ^ 0x02u8))
                && (b & 0x02 == 0 ==> (b & 0x03) == (b & 0x01))
                && (b & 0x04 != 0 ==> (b & 0x07) == ((b & 0x03) ^ 0x04u8))
                && (b & 0x04 == 0 ==> (b & 0x07) == (b & 0x03))
                && (b & 0x08 != 0 ==> (b & 0x0f) == ((b & 0x07) ^ 0x08u8))
                && (b & 0x08 == 0 ==> (b & 0x0f) == (b & 0x07))
                && (b & 0x10 != 0 ==> (b & 0x1f) == ((b & 0x0f) ^ 0x10u8))
                && (b & 0x10 == 0 ==> (b & 0x1f) == (b & 0x0f))
                && (b & 0x20 != 0 ==> (b & 0x3f) == ((b & 0x1f) ^ 0x20u8))
                && (b & 0x20 == 0 ==> (b & 0x3f) == (b & 0x1f))
                && (b & 0x40 != 0 ==> (b & 0x7f) == ((b & 0x3f) ^ 0x40u8))
                && (b & 0x40 == 0 ==> (b & 0x7f) == (b & 0x3f))
                && (b & 0x80 != 0 ==> b == ((b & 0x7f) ^ 0x80u8))
                && (b & 0x80 == 0 ==> b == (b & 0x7f))) by (bit_vector);
            let x0 = s0[p];
            assert(x0 ^ 0u8 == x0) by (bit_vector);
            assert(s0.update(p, s0[p] ^ (b & 0x00)) =~= s0);
        }
        let mut cur = cur;
        if b & 0x01 != 0 {
            proof {
                lemma_flip_bit(s0, p, b & 0x00, 0x01u8, cur, masks@[0], az);
            }
            cur = cur ^ (masks[0] ^ az);
        }
        proof {
            assert(cur == crc32_of(s0.update(p, s0[p] ^ (b & 0x01))));
        }
        if b & 0x02 != 0 {
            proof {
                lemma_flip_bit(s0, p, b & 0x01, 0x02u8, cur, masks@[1], az);
            }
            cur = cur ^ (masks[1] ^ az);
        }
        proof {
            assert(cur == crc32_of(s0.update(p, s0[p] ^ (b & 0x03))));
        }
        if b & 0x04 != 0 {
            proof {
                lemma_flip_bit(s0, p, b & 0x03, 0x04u8, cur, masks@[2], az);
            }
            cur = cur ^ (masks[2] ^ az);
        }
        proof {
            assert(cur == crc32_of(s0.update(p, s0[p] ^ (b & 0x07))));
        }
        if b & 0x08 != 0 {
            proof {
                lemma_flip_bit(s0, p, b & 0x07, 0x08u8, cur, masks@[3], az);
            }
            cur = cur ^ (masks[3] ^ az);
        }
        proof {
            assert(cur == crc32_of(s0.update(p, s0[p] ^ (b & 0x0f))));
        }
        if b & 0x10 != 0 {
            proof {
                lemma_flip_bit(s0, p, b & 0x0f, 0x10u8, cur, masks@[4], az);
            }
            cur = cur ^ (masks[4] ^ az);
        }
        proof {
            assert(cur == crc32_of(s0.update(p, s0[p] ^ (b & 0x1f))));
        }
        if b & 0x20 != 0 {
            proof {
                lemma_flip_bit(s0, p, b & 0x1f, 0x20u8, cur, masks@[5], az);
            }
            cur = cur ^ (masks[5] ^ az);
        }
        proof {
            assert(cur == crc32_of(s0.update(p, s0[p] ^ (b & 0x3f))));
        }
        if b & 0x40 != 0 {
            proof {
                lemma_flip_bit(s0, p, b & 0x3f, 0x40u8, cur, masks@[6], az);
            }
            cur = cur ^ (masks[6] ^ az);
        }
        proof {
            assert(cur == crc32_of(s0.update(p, s0[p] ^ (b & 0x7f))));
        }
        if b & 0x80 != 0 {
            proof {
                lemma_flip_bit(s0, p, b & 0x7f, 0x80u8, cur, masks@[7], az);
            }
            cur = cur ^ (masks[7] ^ az);
        }
        proof {
            assert(cur == crc32_of(s0.update(p, s0[p] ^ b)));
        }
        cur
    }

    /// Advance all eight rolling masks one byte towards the front of the
    /// buffer: a zero-byte step plus the all-zero length correction.
    fn shift_masks(masks: &mut Vec<u32>, adv: u32, Ghost(n): Ghost<nat>, Ghost(p): Ghost<int>)
        requires
            old(masks)@.len() == 8,
            1 <= p < n,
            adv == crc32_raw(zeros(n)) ^ step_byte(crc32_raw(zeros(n)), 0u8),
            forall|i: int|
                0 <= i < 8 ==> old(masks)@[i] == crc32_raw(single_byte_buf(n, p, pow2_byte(i))),
        ensures
            final(masks)@.len() == 8,
            forall|i: int|
                0 <= i < 8 ==> final(masks)@[i] == crc32_raw(
                    single_byte_buf(n, p - 1, pow2_byte(i)),
                ),
    {
        let mut i: usize = 0;
        while i < 8
            invariant
                i <= 8,
                1 <= p < n,
                masks@.len() == 8,
                adv == crc32_raw(zeros(n)) ^ step_byte(crc32_raw(zeros(n)), 0u8),
                forall|j: int|
                    0 <= j < i ==> masks@[j] == crc32_raw(single_byte_buf(n, p - 1, pow2_byte(j))),
                forall|j: int|
                    i <= j < 8 ==> masks@[j] == crc32_raw(single_byte_buf(n, p, pow2_byte(j))),
            decreases 8 - i,
        {
            let mv = update_0(masks[i]);
            proof {
                lemma_mask_shift(n, p, pow2_byte(i as int));
            }
            masks[i] = mv ^ adv;
            i += 1;
        }
    }

    /// Emit the next value. The j-th call (0-based, j <= n) returns the
    /// CRC-32 of the variant with split index n - j; every later call
    /// returns `None`.
    pub fn next(&mut self) -> (r: Option<u32>)
        requires
            old(self).wf(),
        ensures
            final(self).wf(),
            final(self).input() == old(self).input(),
            final(self).hash_mode() == old(self).hash_mode(),
            old(self).emitted() <= old(self).input().len() ==> {
                &&& r == Some(
                    emitted_value(old(self).hash_mode(), old(self).input(), old(self).emitted()),
                )
                &&& final(self).emitted() == old(self).emitted() + 1
            },
            old(self).emitted() > old(self).input().len() ==> {
                &&& r is None
                &&& final(self).emitted() == old(self).emitted()
            },
    {
        let ghost bs = self.buf@;
        let ghost n: nat = bs.len();
        let ghost md = self.mode@;
        if self.first {
            self.first = false;
            return Some(self.current_crc);
        }
        if self.pos == 0 {
            return None;
        }
        let ghost k: nat = self.pos as nat;
        let ghost s0 = variant_bytes(md, bs, k);
        let ghost pp: int = k as int - 1;
        let p = self.pos - 1;
        let b = self.buf[p];
        proof {
            lemma_variant_len(md, bs, k);
            lemma_variant_step(md, bs, k);
        }
        let c = Self::apply_byte(
            self.current_crc,
            b,
            &self.rolling_mask,
            self.all_zero,
            Ghost(s0),
            Ghost(pp),
        );
        self.current_crc = c;
        proof {
            assert(self.current_crc == crc32_of(variant_bytes(md, bs, (k - 1) as nat)));
        }
        self.pos = p;
        if p > 0 {
            Self::shift_masks(&mut self.rolling_mask, self.advance_xor, Ghost(n), Ghost(pp));
        }
        Some(self.current_crc)
    }
}

/// Mode boundary: the last value zero-from-end emits and the first value
/// fill-from-end emits are both the CRC-32 of the all-zero buffer.
pub proof fn lemma_mode_boundary(b: Seq<u8>)
    ensures
        emitted_value(HashMode::ZeroFromEnd, b, b.len()) == crc32_of(zeros(b.len())),
        emitted_value(HashMode::FillFromEnd, b, 0) == crc32_of(zeros(b.len())),
{
    assert(variant_bytes(HashMode::ZeroFromEnd, b, 0) =~= zeros(b.len()));
    assert(variant_bytes(HashMode::FillFromEnd, b, b.len()) =~= zeros(b.len()));
}

/// Empty buffer: in either mode the single value emitted is the CRC-32 of
/// the empty buffer, which is zero.
pub proof fn lemma_empty_input(mode: HashMode)
    ensures
        emitted_value(mode, Seq::<u8>::empty(), 0) == 0u32,
{
    lemma_crc32_empty();
    assert(variant_bytes(mode, Seq::<u8>::empty(), 0) =~= Seq::<u8>::empty());
}

/// Zero-from-end correctness: for every split index k, the emission with
/// 0-based index |b| - k is the CRC-32 of the kept k-byte prefix followed by
/// zeroes.
pub proof fn lemma_zero_from_end_value(b: Seq<u8>, k: nat)
    requires
        k <= b.len(),
    ensures
        emitted_value(HashMode::ZeroFromEnd, b, (b.len() - k) as nat) == crc32_of(
            b.take(k as int) + zeros((b.len() - k) as nat),
        ),
{
}

/// Fill-from-end correctness: for every split index k, the emission with
/// 0-based index |b| - k is the CRC-32 of k zeroes followed by the kept
/// suffix.
pub proof fn lemma_fill_from_end_value(b: Seq<u8>, k: nat)
    requires
        k <= b.len(),
    ensures
        emitted_value(HashMode::FillFromEnd, b, (b.len() - k) as nat) == crc32_of(
            zeros(k) + b.skip(k as int),
        ),
{
}

/// Determinism: what a hasher emits is a function of the buffer contents,
/// the mode and the emission index alone, so two hashers over equal inputs
/// emit equal sequences.
pub proof fn lemma_deterministic(mode: HashMode, b1: Seq<u8>, b2: Seq<u8>, j: nat)
    requires
        b1 == b2,
    ensures
        emitted_value(mode, b1, j) == emitted_value(mode, b2, j),
{
}

} // verus!
