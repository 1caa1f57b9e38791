//! An unaligned, LSB-first bit-level reader over a byte buffer: the
//! foundation every decoder in this crate is built on.

use vstd::prelude::*;
use vstd::arithmetic::power2::*;
use vstd::bits::*;
use crate::bits::{bits_value, mask8, lemma_bits_value_bound, lemma_bits_value_split,
    lemma_bits_value_within_byte};
use crate::fault::DecodeFault;

verus! {

pub struct BitReader {
    pub content: Vec<u8>,
    /// Bit position in the buffer.
    pub pos: usize,
}

/// The bytes `extract_bits(c, pos, n)` hold exactly the `n` bits of `c`
/// starting at bit `pos`, packed LSB-first from bit 0 of a fresh buffer,
/// with zero padding up to the next byte boundary.
pub open spec fn extract_bits(c: Seq<u8>, pos: int, n: nat) -> Seq<u8> {
    Seq::new(
        ((n + 7) / 8) as nat,
        |j: int| bits_value(c, pos + 8 * j, (if n - 8 * j >= 8 { 8int } else { n - 8 * j }) as nat) as u8,
    )
}

/// Position (in whole bytes from `pos`) of the first zero byte that can be
/// read completely, if any: the model of a C-string read.
pub open spec fn nul_index(c: Seq<u8>, pos: int) -> Option<nat>
    decreases 8 * c.len() - pos when pos >= 0
{
    if pos < 0 || pos + 8 > 8 * c.len() {
        None
    } else if bits_value(c, pos, 8) == 0 {
        Some(0)
    } else {
        match nul_index(c, pos + 8) {
            Option::None => None,
            Option::Some(k) => Some(k + 1),
        }
    }
}

/// A C-string can be read at `pos`: a zero byte arrives before the buffer ends.
pub open spec fn str_ok(c: Seq<u8>, pos: int) -> bool {
    nul_index(c, pos) is Some
}

/// The bytes of the C-string at `pos`, without the terminating zero.
pub open spec fn str_bytes(c: Seq<u8>, pos: int) -> Seq<u8> {
    Seq::new(nul_index(c, pos).unwrap(), |j: int| bits_value(c, pos + 8 * j, 8) as u8)
}

/// The bit position just past the C-string at `pos`, terminator included.
pub open spec fn str_end(c: Seq<u8>, pos: int) -> int {
    pos + 8 * (nul_index(c, pos).unwrap() + 1)
}

impl BitReader {
    pub open spec fn wf(&self) -> bool {
        &&& self.pos <= 8 * self.content@.len()
        &&& 8 * self.content@.len() + 8 <= usize::MAX
    }

    pub fn new(content: Vec<u8>) -> (r: Self)
        requires
            8 * content@.len() + 8 <= usize::MAX,
        ensures
            r.wf(),
            r.content@ == content@,
            r.pos == 0,
    {
        Self { content, pos: 0 }
    }

    /// True when no whole byte is left past the current position.
    pub fn is_empty(&self) -> (r: bool)
        requires
            self.wf(),
        ensures
            r == ((self.pos + 7) / 8 >= self.content@.len()),
    {
        (self.pos + 7) / 8 >= self.content.len()
    }

    pub fn bits_left(&self) -> (r: usize)
        requires
            self.wf(),
        ensures
            r == 8 * self.content@.len() - self.pos,
    {
        self.content.len() * 8 - self.pos
    }

    /// Read `bits` bits (at most 8), LSB-first across byte boundaries.
    pub fn read_u8(&mut self, bits: usize) -> (r: u8)
        requires
            old(self).wf(),
            1 <= bits <= 8,
            old(self).pos + bits <= 8 * old(self).content@.len(),
        ensures
            final(self).wf(),
            final(self).content@ == old(self).content@,
            final(self).pos == old(self).pos + bits,
            r as nat == bits_value(old(self).content@, old(self).pos as int, bits as nat),
            (r as nat) < pow2(bits as nat),
    {
        proof {
            lemma_bits_value_bound(self.content@, self.pos as int, bits as nat);
        }
        let byte_pos = self.pos / 8;
        let bit_pos: u8 = (self.pos % 8) as u8;
        let r: u8;
        if bit_pos as usize + bits > 8 {
            // The span crosses a byte boundary: low part from the current
            // byte, high part from the next.
            let p1_len: u8 = 8 - bit_pos;
            let p2_len: u8 = (bits - p1_len as usize) as u8;
            proof {
                assert(1u8 << p1_len >= 1 && 1u8 << p2_len >= 1) by (bit_vector)
                    requires 1 <= p1_len <= 7, 1 <= p2_len <= 7,
                ;
            }
            let b0 = self.content[byte_pos];
            let b1 = self.content[byte_pos + 1];
            let p1 = (b0 >> bit_pos) & ((1u8 << p1_len) - 1);
            let p2 = b1 & ((1u8 << p2_len) - 1);
            r = (p2 << p1_len) | p1;
            proof {
                let c = self.content@;
                let pos = self.pos as int;
                lemma_bits_value_split(c, pos, p1_len as nat, p2_len as nat);
                lemma_bits_value_within_byte(c, pos, p1_len as nat);
                lemma_bits_value_within_byte(c, pos + p1_len, p2_len as nat);
                assert((pos + p1_len) / 8 == byte_pos + 1 && (pos + p1_len) % 8 == 0);
                assert((b0 >> bit_pos) & (((1u8 << p1_len) - 1) as u8) == (b0 >> bit_pos) & mask8(p1_len as u64))
                    by (bit_vector)
                    requires 1 <= p1_len <= 7,
                ;
                assert(b1 & (((1u8 << p2_len) - 1) as u8) == (b1 >> 0u8) & mask8(p2_len as u64))
                    by (bit_vector)
                    requires 1 <= p2_len <= 7,
                ;
                assert(p1 < (1u8 << p1_len) && p2 < (1u8 << p2_len)) by (bit_vector)
                    requires
                        1 <= p1_len <= 7,
                        1 <= p2_len <= 7,
                        p1 == (b0 >> bit_pos) & (((1u8 << p1_len) - 1) as u8),
                        p2 == b1 & (((1u8 << p2_len) - 1) as u8),
                ;
                assert(((p2 << p1_len) | p1) == p1 + (1u8 << p1_len) * p2)
                    by (bit_vector)
                    requires
                        1 <= p1_len <= 7,
                        1 <= p2_len <= 7,
                        p1_len as usize + p2_len as usize <= 8,
                        p1 < (1u8 << p1_len),
                        p2 < (1u8 << p2_len),
                ;
                lemma2_to64();
                lemma_u8_shl_is_mul(1u8, p1_len);
            }
        } else {
            let b0 = self.content[byte_pos];
            proof {
                let nb = bits as u64;
                assert(nb < 8 ==> 1u8 << nb >= 1) by (bit_vector);
            }
            let m: u8 = if bits == 8 { 0xff } else { (1u8 << bits) - 1 };
            r = (b0 >> bit_pos) & m;
            proof {
                let c = self.content@;
                let pos = self.pos as int;
                lemma_bits_value_within_byte(c, pos, bits as nat);
                let nb = bits as u64;
                assert(m == mask8(nb)) by (bit_vector)
                    requires 1 <= nb <= 8, m == (if nb == 8 { 0xffu8 } else { ((1u8 << nb) - 1) as u8 }),
                ;
            }
        }
        self.pos = self.pos + bits;
        r
    }

    /// Read `bits` bits (at most 16).
    pub fn read_u16(&mut self, bits: usize) -> (r: u16)
        requires
            old(self).wf(),
            1 <= bits <= 16,
            old(self).pos + bits <= 8 * old(self).content@.len(),
        ensures
            final(self).wf(),
            final(self).content@ == old(self).content@,
            final(self).pos == old(self).pos + bits,
            r as nat == bits_value(old(self).content@, old(self).pos as int, bits as nat),
            (r as nat) < pow2(bits as nat),
    {
        proof {
            lemma_bits_value_bound(self.content@, self.pos as int, bits as nat);
        }
        if bits <= 8 {
            return self.read_u8(bits) as u16;
        }
        let p1 = self.read_u8(8) as u16;
        let p2 = self.read_u8(bits - 8) as u16;
        proof {
            lemma_bits_value_split(self.content@, old(self).pos as int, 8, (bits - 8) as nat);
            lemma2_to64();
            assert(((p2 << 8u16) | p1) == p1 + p2 * 256) by (bit_vector)
                requires p1 < 256, p2 < 256,
            ;
        }
        (p2 << 8u16) | p1
    }

    /// Read `bits` bits (at most 32).
    pub fn read_u32(&mut self, bits: usize) -> (r: u32)
        requires
            old(self).wf(),
            1 <= bits <= 32,
            old(self).pos + bits <= 8 * old(self).content@.len(),
        ensures
            final(self).wf(),
            final(self).content@ == old(self).content@,
            final(self).pos == old(self).pos + bits,
            r as nat == bits_value(old(self).content@, old(self).pos as int, bits as nat),
            (r as nat) < pow2(bits as nat),
    {
        proof {
            lemma_bits_value_bound(self.content@, self.pos as int, bits as nat);
        }
        if bits <= 16 {
            return self.read_u16(bits) as u32;
        }
        let p1 = self.read_u16(16) as u32;
        let p2 = self.read_u16(bits - 16) as u32;
        proof {
            lemma_bits_value_split(self.content@, old(self).pos as int, 16, (bits - 16) as nat);
            lemma2_to64();
            assert(((p2 << 16u32) | p1) == p1 + p2 * 0x10000) by (bit_vector)
                requires p1 < 0x10000, p2 < 0x10000,
            ;
        }
        (p2 << 16u32) | p1
    }

    /// Read `bits` bits (at most 64).
    pub fn read_u64(&mut self, bits: usize) -> (r: u64)
        requires
            old(self).wf(),
            1 <= bits <= 64,
            old(self).pos + bits <= 8 * old(self).content@.len(),
        ensures
            final(self).wf(),
            final(self).content@ == old(self).content@,
            final(self).pos == old(self).pos + bits,
            r as nat == bits_value(old(self).content@, old(self).pos as int, bits as nat),
            (r as nat) < pow2(bits as nat),
    {
        proof {
            lemma_bits_value_bound(self.content@, self.pos as int, bits as nat);
        }
        if bits <= 32 {
            return self.read_u32(bits) as u64;
        }
        let p1 = self.read_u32(32) as u64;
        let p2 = self.read_u32(bits - 32) as u64;
        proof {
            lemma_bits_value_split(self.content@, old(self).pos as int, 32, (bits - 32) as nat);
            lemma2_to64();
            assert(((p2 << 32u64) | p1) == p1 + p2 * 0x1_0000_0000) by (bit_vector)
                requires p1 < 0x1_0000_0000, p2 < 0x1_0000_0000,
            ;
        }
        (p2 << 32u64) | p1
    }

    /// Read whole bytes until and including a zero byte; the returned
    /// bytes exclude the terminator. Exhausting the stream first is a
    /// decode fault, never a silent partial string.
    pub fn read_string(&mut self) -> (r: Result<Vec<u8>, DecodeFault>)
        requires
            old(self).wf(),
        ensures
            final(self).wf(),
            final(self).content@ == old(self).content@,
            old(self).pos <= final(self).pos,
            match r {
                Ok(s) => {
                    &&& str_ok(old(self).content@, old(self).pos as int)
                    &&& nul_index(old(self).content@, old(self).pos as int) == Some(s@.len())
                    &&& s@ == str_bytes(old(self).content@, old(self).pos as int)
                    &&& final(self).pos == old(self).pos + 8 * (s@.len() + 1)
                    &&& final(self).pos as int == str_end(old(self).content@, old(self).pos as int)
                    &&& forall|j: int| 0 <= j < s@.len()
                        ==> s@[j] as nat == bits_value(old(self).content@, old(self).pos + 8 * j, 8)
                            && s@[j] != 0
                },
                Err(f) => {
                    &&& f == DecodeFault::TruncatedRead
                    &&& nul_index(old(self).content@, old(self).pos as int) is None
                },
            },
    {
        let ghost c = self.content@;
        let ghost pos0 = self.pos as int;
        let mut out: Vec<u8> = Vec::new();
        loop
            invariant
                self.wf(),
                c == old(self).content@,
                pos0 == old(self).pos,
                self.content@ == c,
                pos0 <= self.pos,
                self.pos == pos0 + 8 * out@.len(),
                forall|j: int| 0 <= j < out@.len()
                    ==> out@[j] as nat == bits_value(c, pos0 + 8 * j, 8) && out@[j] != 0,
                nul_index(c, pos0) == match nul_index(c, self.pos as int) {
                    Option::None => Option::<nat>::None,
                    Option::Some(k) => Option::Some((k + out@.len()) as nat),
                },
            decreases 8 * self.content@.len() - self.pos,
        {
            if self.content.len() * 8 - self.pos < 8 {
                return Err(DecodeFault::TruncatedRead);
            }
            let b = self.read_u8(8);
            if b == 0 {
                proof {
                    assert(out@ =~= str_bytes(c, pos0));
                }
                return Ok(out);
            }
            out.push(b);
        }
    }

    /// Read exactly `nbits` bits into a fresh, isolated byte buffer,
    /// packed from bit 0 and zero-padded to a whole byte: the sub-slice a
    /// decoder is handed so it cannot read past its extent.
    pub fn read_bits_buf(&mut self, nbits: usize) -> (r: Result<Vec<u8>, DecodeFault>)
        requires
            old(self).wf(),
        ensures
            final(self).wf(),
            final(self).content@ == old(self).content@,
            match r {
                Ok(buf) => {
                    &&& old(self).pos + nbits <= 8 * old(self).content@.len()
                    &&& final(self).pos == old(self).pos + nbits
                    &&& buf@ == extract_bits(old(self).content@, old(self).pos as int, nbits as nat)
                },
                Err(f) => {
                    &&& f == DecodeFault::TruncatedRead
                    &&& old(self).pos + nbits > 8 * old(self).content@.len()
                    &&& final(self).pos == old(self).pos
                },
            },
    {
        if nbits > self.content.len() * 8 - self.pos {
            return Err(DecodeFault::TruncatedRead);
        }
        let ghost c = self.content@;
        let ghost pos0 = self.pos as int;
        let ghost target = extract_bits(c, pos0, nbits as nat);
        let mut out: Vec<u8> = Vec::new();
        let mut rem: usize = nbits;
        while rem > 0
            invariant
                self.wf(),
                c == old(self).content@,
                pos0 == old(self).pos,
                target == extract_bits(c, pos0, nbits as nat),
                self.content@ == c,
                rem <= nbits,
                self.pos == pos0 + (nbits - rem),
                self.pos + rem <= 8 * c.len(),
                rem > 0 ==> nbits - rem == 8 * out@.len(),
                out@.len() == ((nbits - rem) + 7) / 8,
                forall|j: int| 0 <= j < out@.len() ==> out@[j] == target[j],
            decreases rem,
        {
            let w = if rem >= 8 { 8 } else { rem };
            let b = self.read_u8(w);
            proof {
                let j = out@.len() as int;
                assert(target[j] == bits_value(c, pos0 + 8 * j, (if nbits - 8 * j >= 8 { 8int } else { nbits - 8 * j }) as nat) as u8);
                lemma_bits_value_bound(c, pos0 + 8 * j, w as nat);
                lemma2_to64();
            }
            out.push(b);
            rem = rem - w;
            proof {
                if rem > 0 {
                    assert(nbits - rem == 8 * out@.len());
                }
            }
        }
        proof {
            assert(out@ =~= target);
        }
        Ok(out)
    }
}

} // verus!
