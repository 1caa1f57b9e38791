//! The exact inverse of the bit reader: an unaligned, LSB-first bit-level
//! writer that grows its backing buffer by whole bytes on demand. Writing
//! `v` in `n` bits makes `bits_value` of the written span equal `v`, so a
//! read of the same span returns `v` again.

use vstd::prelude::*;
use vstd::arithmetic::power2::*;
use vstd::bits::*;
use crate::bits::{bit_of, bits_value, mask8, lemma_bits_value_split, lemma_bits_value_within_byte};

verus! {

pub struct BitWriter {
    pub content: Vec<u8>,
    /// Bit position in the buffer.
    pub pos: usize,
}

/// All bits at positions `pos` and beyond are still zero, so a write can
/// fill them by or-ing.
pub open spec fn zero_from(c: Seq<u8>, pos: int) -> bool {
    &&& (pos / 8 < c.len() ==> c[pos / 8] >> ((pos % 8) as u8) == 0)
    &&& forall|k: int| pos / 8 < k < c.len() ==> c[k] == 0
}

/// Bits below `pos` agree between `c1` and `c2`.
pub open spec fn bits_below_same(c1: Seq<u8>, c2: Seq<u8>, pos: int) -> bool {
    forall|i: int| 0 <= i < pos ==> bit_of(c1, i) == bit_of(c2, i)
}

/// Law: the write/read round trip. A write's contract makes the value of
/// the written bit span equal the value written (for any width 1..=64 and
/// any value below 2 to that width), and a read's contract returns the
/// value of that same span; this lemma closes the remaining gap, that a
/// span already written keeps its value under every later write, whose
/// preserved prefix covers it. So writing `v` in `n` bits, then more
/// values after it, then reading `n` bits from the original offset,
/// returns `v` exactly.
pub proof fn lemma_written_span_stable(c1: Seq<u8>, c2: Seq<u8>, pos: int, n: nat, v: nat)
    requires
        bits_value(c1, pos, n) == v,
        bits_below_same(c2, c1, pos + n),
        0 <= pos,
    ensures
        bits_value(c2, pos, n) == v,
{
    lemma_bits_value_from_bits(c2, c1, pos, n);
}

/// A span whose bits agree in two buffers has the same value in both.
pub proof fn lemma_bits_value_from_bits(c1: Seq<u8>, c2: Seq<u8>, pos: int, n: nat)
    requires
        forall|i: int| pos <= i < pos + n ==> bit_of(c1, i) == bit_of(c2, i),
    ensures
        bits_value(c1, pos, n) == bits_value(c2, pos, n),
    decreases n,
{
    if n > 0 {
        assert(bit_of(c1, pos) == bit_of(c2, pos));
        lemma_bits_value_from_bits(c1, c2, pos + 1, (n - 1) as nat);
    }
}

impl BitWriter {
    pub open spec fn wf(&self) -> bool {
        &&& self.pos <= 8 * self.content@.len()
        &&& zero_from(self.content@, self.pos as int)
    }

    pub fn new(content: Vec<u8>) -> (r: Self)
        ensures
            r.content@ == content@,
            r.pos == 0,
            (forall|k: int| 0 <= k < content@.len() ==> content@[k] == 0) ==> r.wf(),
    {
        proof {
            if forall|k: int| 0 <= k < content@.len() ==> content@[k] == 0 {
                if content@.len() > 0 {
                    let b = content@[0];
                    assert(b == 0 ==> b >> 0u8 == 0) by (bit_vector);
                }
            }
        }
        Self { content, pos: 0 }
    }

    /// Write the low `bits` bits of `v` (at most 8), LSB-first across byte
    /// boundaries; `v` must fit in `bits` bits.
    pub fn write_u8(&mut self, v: u8, bits: usize)
        requires
            old(self).wf(),
            1 <= bits <= 8,
            (v as nat) < pow2(bits as nat),
            old(self).pos + 64 <= usize::MAX,
        ensures
            final(self).wf(),
            final(self).pos == old(self).pos + bits,
            final(self).content@.len()
                == vstd::math::max(old(self).content@.len() as int, (old(self).pos + bits + 7) / 8),
            bits_below_same(final(self).content@, old(self).content@, old(self).pos as int),
            bits_value(final(self).content@, old(self).pos as int, bits as nat) == v as nat,
    {
        let ghost c0 = self.content@;
        let byte_pos = self.pos / 8;
        let s: u8 = (self.pos % 8) as u8;
        proof {
            lemma2_to64();
            assert((v as nat) < pow2(8)) by {
                if bits < 8 {
                    lemma_pow2_strictly_increases(bits as nat, 8);
                }
            };
            lemma_u64_shl_is_mul(1u64, bits as u64);
            assert((v as u64) < (1u64 << (bits as u64)));
        }
        if byte_pos >= self.content.len() {
            self.content.push(0);
        }
        let ghost c1 = self.content@;
        if s as usize + bits > 8 {
            // The span crosses a byte boundary: low part completes the
            // current byte, high part starts the next.
            if byte_pos + 1 >= self.content.len() {
                self.content.push(0);
            }
            let p1_len: u8 = 8 - s;
            let p2_len: u8 = (bits - p1_len as usize) as u8;
            proof {
                assert(1u8 << p1_len >= 1 && 1u8 << p2_len >= 1 && (1u8 << p1_len) <= 128)
                    by (bit_vector)
                    requires 1 <= p1_len <= 7, 1 <= p2_len <= 7,
                ;
            }
            let b0 = self.content[byte_pos];
            let p1: u8 = v & ((1u8 << p1_len) - 1);
            proof {
                assert(p1 < (1u8 << p1_len) && (p1 << s) <= 254 && b0 | (p1 << s) < 256)
                    by (bit_vector)
                    requires p1 == v & (((1u8 << p1_len) - 1) as u8), 1 <= p1_len <= 7, s == 8 - p1_len,
                ;
            }
            self.content.set(byte_pos, b0 | (p1 << s));
            let b1 = self.content[byte_pos + 1];
            let p2: u8 = (v >> p1_len) & ((1u8 << p2_len) - 1);
            self.content.set(byte_pos + 1, b1 | p2);
            proof {
                let c = self.content@;
                let pos = self.pos as int;
                let nb0 = c[pos / 8];
                let nb1 = c[pos / 8 + 1];
                assert(b1 == 0);
                assert(b1 | p2 == p2) by (bit_vector)
                    requires b1 == 0,
                ;
                assert(0u8 >> s == 0) by (bit_vector);
                assert(b0 >> s == 0);
                lemma_bits_value_split(c, pos, p1_len as nat, p2_len as nat);
                lemma_bits_value_within_byte(c, pos, p1_len as nat);
                lemma_bits_value_within_byte(c, pos + p1_len, p2_len as nat);
                assert((pos + p1_len) / 8 == pos / 8 + 1 && (pos + p1_len) % 8 == 0);
                // The two stored parts read back as the two halves of v,
                // and reassemble to v.
                assert((nb0 >> s) & mask8(p1_len as u64) == p1
                    && (nb1 >> 0u8) & mask8(p2_len as u64) == p2
                    && p1 + (1u8 << p1_len) * p2 == v
                    && nb1 >> p2_len == 0)
                    by (bit_vector)
                    requires
                        1 <= p1_len <= 7,
                        1 <= p2_len <= 7,
                        s == 8 - p1_len,
                        p1_len as usize + p2_len as usize == bits,
                        bits <= 8,
                        (v as u64) < (1u64 << (bits as u64)),
                        b0 >> s == 0,
                        p1 == v & (((1u8 << p1_len) - 1) as u8),
                        p2 == (v >> p1_len) & (((1u8 << p2_len) - 1) as u8),
                        nb0 == b0 | ((p1 << s) as u8),
                        nb1 == p2,
                ;
                lemma_u8_shl_is_mul(1u8, p1_len);
                // Bits below the write position are untouched.
                assert forall|i: int| 0 <= i < pos implies bit_of(c, i) == bit_of(c0, i) by {
                    if i / 8 == pos / 8 {
                        let j = (i % 8) as u8;
                        assert(((b0 | ((p1 << s) as u8)) >> j) & 1 == (b0 >> j) & 1)
                            by (bit_vector)
                            requires j < s, s <= 7,
                        ;
                    } else {
                        assert(c[i / 8] == c0[i / 8]);
                    }
                }
                // Everything from the new position on is still zero.
                let npos = pos + bits;
                assert(npos / 8 == pos / 8 + 1 && npos % 8 == p2_len);
                assert(nb1 >> ((npos % 8) as u8) == 0);
                assert forall|k: int| npos / 8 < k < c.len() implies c[k] == 0 by {
                    assert(c0.len() <= k < c.len() ==> c[k] == 0);
                    assert(k < c0.len() ==> c[k] == c0[k] && c0[k] == 0);
                }
            }
        } else {
            let b0 = self.content[byte_pos];
            proof {
                assert(0u8 >> s == 0) by (bit_vector);
                assert(b0 >> s == 0);
                lemma2_to64();
                lemma_u64_shl_is_mul(1u64, bits as u64);
                assert((v << s) < 256 && b0 | (v << s) < 256) by (bit_vector)
                    requires s <= 7, b0 >> s == 0, (s as usize) + bits <= 8, bits <= 8,
                        (v as u64) < (1u64 << (bits as u64)),
                ;
            }
            self.content.set(byte_pos, b0 | (v << s));
            proof {
                let c = self.content@;
                let pos = self.pos as int;
                let nb0 = c[pos / 8];
                lemma_bits_value_within_byte(c, pos, bits as nat);
                let nbits = bits as u64;
                assert((nb0 >> s) & mask8(nbits) == v
                    && (s as u64 + nbits < 8 ==> nb0 >> ((s as u64 + nbits) as u8) == 0))
                    by (bit_vector)
                    requires
                        s <= 7,
                        1 <= nbits <= 8,
                        s as u64 + nbits <= 8,
                        b0 >> s == 0,
                        (v as u64) < (1u64 << nbits),
                        nb0 == b0 | ((v << s) as u8),
                ;
                assert forall|i: int| 0 <= i < pos implies bit_of(c, i) == bit_of(c0, i) by {
                    if i / 8 == pos / 8 {
                        let j = (i % 8) as u8;
                        assert(((b0 | ((v << s) as u8)) >> j) & 1 == (b0 >> j) & 1)
                            by (bit_vector)
                            requires j < s, s <= 7,
                        ;
                    } else {
                        assert(c[i / 8] == c0[i / 8]);
                    }
                }
                let npos = pos + bits;
                if s as usize + bits == 8 {
                    assert(npos / 8 == pos / 8 + 1 && npos % 8 == 0);
                    if npos / 8 < c.len() {
                        let z = c[npos / 8];
                        assert(z == 0);
                        assert(z == 0 ==> z >> 0u8 == 0) by (bit_vector);
                    }
                } else {
                    assert(npos / 8 == pos / 8 && (npos % 8) as u8 == (s as u64 + nbits) as u8);
                }
                assert forall|k: int| npos / 8 < k < c.len() implies c[k] == 0 by {
                    assert(c0.len() <= k < c.len() ==> c[k] == 0);
                    assert(k < c0.len() ==> c[k] == c0[k] && c0[k] == 0);
                }
            }
        }
        self.pos = self.pos + bits;
    }

    /// Write the low `bits` bits of `v` (at most 16): low byte first, as
    /// the reader reassembles.
    pub fn write_u16(&mut self, v: u16, bits: usize)
        requires
            old(self).wf(),
            1 <= bits <= 16,
            (v as nat) < pow2(bits as nat),
            old(self).pos + 128 <= usize::MAX,
        ensures
            final(self).wf(),
            final(self).pos == old(self).pos + bits,
            final(self).content@.len()
                == vstd::math::max(old(self).content@.len() as int, (old(self).pos + bits + 7) / 8),
            bits_below_same(final(self).content@, old(self).content@, old(self).pos as int),
            bits_value(final(self).content@, old(self).pos as int, bits as nat) == v as nat,
    {
        if bits <= 8 {
            proof {
                assert(v < 256) by {
                    lemma2_to64();
                    if bits < 8 {
                        lemma_pow2_strictly_increases(bits as nat, 8);
                    }
                };
            }
            self.write_u8(v as u8, bits);
            return;
        }
        let p1: u8 = (v & 0xff) as u8;
        let p2: u8 = (v >> 8u16) as u8;
        proof {
            lemma2_to64();
            lemma_u64_shl_is_mul(1u64, bits as u64);
            lemma_u64_shl_is_mul(1u64, (bits - 8) as u64);
            assert(p1 < 256 && (p2 as u64) < (1u64 << ((bits - 8) as u64))
                && v == p1 + 256 * (p2 as u16)) by (bit_vector)
                requires
                    9 <= bits <= 16,
                    (v as u64) < (1u64 << (bits as u64)),
                    p1 == (v & 0xff) as u8,
                    p2 == (v >> 8u16) as u8,
            ;
        }
        let ghost c0 = self.content@;
        let ghost pos0 = self.pos as int;
        self.write_u8(p1, 8);
        let ghost c1 = self.content@;
        self.write_u8(p2, bits - 8);
        proof {
            let c2 = self.content@;
            lemma_bits_value_from_bits(c2, c1, pos0, 8);
            lemma_bits_value_split(c2, pos0, 8, (bits - 8) as nat);
            lemma2_to64();
        }
    }

    /// Write the low `bits` bits of `v` (at most 32).
    pub fn write_u32(&mut self, v: u32, bits: usize)
        requires
            old(self).wf(),
            1 <= bits <= 32,
            (v as nat) < pow2(bits as nat),
            old(self).pos + 192 <= usize::MAX,
        ensures
            final(self).wf(),
            final(self).pos == old(self).pos + bits,
            final(self).content@.len()
                == vstd::math::max(old(self).content@.len() as int, (old(self).pos + bits + 7) / 8),
            bits_below_same(final(self).content@, old(self).content@, old(self).pos as int),
            bits_value(final(self).content@, old(self).pos as int, bits as nat) == v as nat,
    {
        if bits <= 16 {
            proof {
                assert(v < 0x10000) by {
                    lemma2_to64();
                    if bits < 16 {
                        lemma_pow2_strictly_increases(bits as nat, 16);
                    }
                };
            }
            self.write_u16(v as u16, bits);
            return;
        }
        let p1: u16 = (v & 0xffff) as u16;
        let p2: u16 = (v >> 16u32) as u16;
        proof {
            lemma2_to64();
            lemma_u64_shl_is_mul(1u64, bits as u64);
            lemma_u64_shl_is_mul(1u64, (bits - 16) as u64);
            assert(p1 < 0x10000 && (p2 as u64) < (1u64 << ((bits - 16) as u64))
                && v == p1 + 0x10000 * (p2 as u32)) by (bit_vector)
                requires
                    17 <= bits <= 32,
                    (v as u64) < (1u64 << (bits as u64)),
                    p1 == (v & 0xffff) as u16,
                    p2 == (v >> 16u32) as u16,
            ;
        }
        let ghost pos0 = self.pos as int;
        self.write_u16(p1, 16);
        let ghost c1 = self.content@;
        self.write_u16(p2, bits - 16);
        proof {
            let c2 = self.content@;
            lemma_bits_value_from_bits(c2, c1, pos0, 16);
            lemma_bits_value_split(c2, pos0, 16, (bits - 16) as nat);
            lemma2_to64();
        }
    }

    /// Write the low `bits` bits of `v` (at most 64).
    pub fn write_u64(&mut self, v: u64, bits: usize)
        requires
            old(self).wf(),
            1 <= bits <= 64,
            (v as nat) < pow2(bits as nat),
            old(self).pos + 256 <= usize::MAX,
        ensures
            final(self).wf(),
            final(self).pos == old(self).pos + bits,
            final(self).content@.len()
                == vstd::math::max(old(self).content@.len() as int, (old(self).pos + bits + 7) / 8),
            bits_below_same(final(self).content@, old(self).content@, old(self).pos as int),
            bits_value(final(self).content@, old(self).pos as int, bits as nat) == v as nat,
    {
        if bits <= 32 {
            proof {
                assert(v < 0x1_0000_0000) by {
                    lemma2_to64();
                    if bits < 32 {
                        lemma_pow2_strictly_increases(bits as nat, 32);
                    }
                };
            }
            self.write_u32(v as u32, bits);
            return;
        }
        let p1: u32 = (v & 0xffff_ffff) as u32;
        let p2: u32 = (v >> 32u64) as u32;
        proof {
            lemma2_to64();
            lemma2_to64_rest();
            if bits < 64 {
                lemma_u64_shl_is_mul(1u64, bits as u64);
            }
            lemma_u64_shl_is_mul(1u64, (bits - 32) as u64);
            assert(p1 < 0x1_0000_0000 && (p2 as u64) < (1u64 << ((bits - 32) as u64))
                && v == p1 + 0x1_0000_0000 * (p2 as u64)) by (bit_vector)
                requires
                    33 <= bits <= 64,
                    bits < 64 ==> (v as u64) < (1u64 << (bits as u64)),
                    p1 == (v & 0xffff_ffff) as u32,
                    p2 == (v >> 32u64) as u32,
            ;
        }
        let ghost pos0 = self.pos as int;
        self.write_u32(p1, 32);
        let ghost c1 = self.content@;
        self.write_u32(p2, bits - 32);
        proof {
            let c2 = self.content@;
            lemma_bits_value_from_bits(c2, c1, pos0, 32);
            lemma_bits_value_split(c2, pos0, 32, (bits - 32) as nat);
            lemma2_to64();
            lemma2_to64_rest();
        }
    }

    /// Write every byte of `sdata`, then a terminating zero byte: the
    /// inverse of the C-string read. `sdata` must hold no zero byte.
    pub fn write_string(&mut self, sdata: &Vec<u8>)
        requires
            old(self).wf(),
            forall|j: int| 0 <= j < sdata@.len() ==> sdata@[j] != 0,
            old(self).pos + 8 * (sdata@.len() + 1) + 128 <= usize::MAX,
        ensures
            final(self).wf(),
            final(self).pos == old(self).pos + 8 * (sdata@.len() + 1),
            bits_below_same(final(self).content@, old(self).content@, old(self).pos as int),
            forall|j: int| 0 <= j < sdata@.len()
                ==> bits_value(final(self).content@, old(self).pos + 8 * j, 8) == sdata@[j] as nat,
            bits_value(final(self).content@, old(self).pos + 8 * sdata@.len(), 8) == 0,
    {
        let ghost c0 = self.content@;
        let ghost pos0 = self.pos as int;
        proof {
            lemma2_to64();
        }
        let mut i: usize = 0;
        while i < sdata.len()
            invariant
                self.wf(),
                c0 == old(self).content@,
                pos0 == old(self).pos,
                i <= sdata@.len(),
                forall|j: int| 0 <= j < sdata@.len() ==> sdata@[j] != 0,
                pos0 + 8 * (sdata@.len() + 1) + 128 <= usize::MAX,
                self.pos == pos0 + 8 * i,
                bits_below_same(self.content@, c0, pos0),
                forall|j: int| 0 <= j < i
                    ==> bits_value(self.content@, pos0 + 8 * j, 8) == sdata@[j] as nat,
                pow2(8) == 256,
            decreases sdata@.len() - i,
        {
            let b = sdata[i];
            let ghost c1 = self.content@;
            self.write_u8(b, 8);
            proof {
                let c2 = self.content@;
                assert forall|j: int| 0 <= j < i + 1 implies
                    bits_value(c2, pos0 + 8 * j, 8) == sdata@[j] as nat by {
                    if j < i {
                        lemma_bits_value_from_bits(c2, c1, pos0 + 8 * j, 8);
                    }
                }
                assert forall|x: int| 0 <= x < pos0 implies bit_of(c2, x) == bit_of(c0, x) by {
                    assert(bit_of(c2, x) == bit_of(c1, x));
                }
            }
            i = i + 1;
        }
        let ghost c1 = self.content@;
        self.write_u8(0, 8);
        proof {
            let c2 = self.content@;
            assert forall|j: int| 0 <= j < sdata@.len() implies
                bits_value(c2, pos0 + 8 * j, 8) == sdata@[j] as nat by {
                lemma_bits_value_from_bits(c2, c1, pos0 + 8 * j, 8);
            }
            assert forall|x: int| 0 <= x < pos0 implies bit_of(c2, x) == bit_of(c0, x) by {
                assert(bit_of(c2, x) == bit_of(c1, x));
            }
        }
    }
}

} // verus!
