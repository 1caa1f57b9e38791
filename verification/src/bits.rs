//! The mathematical model of the wire format: a byte buffer seen as a
//! stream of bits, LSB-first within each byte, and the unsigned value
//! assembled from a span of such bits.

use vstd::prelude::*;
use vstd::arithmetic::power2::*;

verus! {

/// Bit `i` of a byte sequence: bit `i % 8` of byte `i / 8`, where bit 0
/// of a byte is its least significant bit.
pub open spec fn bit_of(c: Seq<u8>, i: int) -> u8 {
    (c[i / 8] >> ((i % 8) as u8)) & 1
}

/// The unsigned value of the `n` bits starting at bit `pos`, assembled
/// LSB-first: the bit at `pos` is the least significant.
pub open spec fn bits_value(c: Seq<u8>, pos: int, n: nat) -> nat
    decreases n,
{
    if n == 0 {
        0
    } else {
        bit_of(c, pos) as nat + 2 * bits_value(c, pos + 1, (n - 1) as nat)
    }
}

/// The low-`n`-bits mask for `n <= 8`.
pub open spec fn mask8(n: u64) -> u8 {
    ((1u64 << n) - 1) as u8
}

pub proof fn lemma_bits_value_bound(c: Seq<u8>, pos: int, n: nat)
    ensures
        bits_value(c, pos, n) < pow2(n),
    decreases n,
{
    if n == 0 {
        lemma_pow2_pos(0);
        assert(pow2(0) == 1) by { lemma2_to64(); };
    } else {
        lemma_bits_value_bound(c, pos + 1, (n - 1) as nat);
        assert(bit_of(c, pos) <= 1) by {
            let b = c[pos / 8];
            let s = (pos % 8) as u8;
            assert((b >> s) & 1 <= 1) by (bit_vector);
        };
        assert(pow2(n) == 2 * pow2((n - 1) as nat)) by {
            lemma_pow2_unfold(n);
        };
    }
}

pub proof fn lemma_bits_value_split(c: Seq<u8>, pos: int, m: nat, n: nat)
    ensures
        bits_value(c, pos, m + n) == bits_value(c, pos, m) + pow2(m) * bits_value(c, pos + m, n),
    decreases m,
{
    if m == 0 {
        assert(pow2(0) == 1) by { lemma2_to64(); };
    } else {
        lemma_bits_value_split(c, pos + 1, (m - 1) as nat, n);
        lemma_pow2_unfold(m);
        assert((m + n - 1) as nat == (m - 1) as nat + n);
        let rest = bits_value(c, pos + m, n);
        let head = bit_of(c, pos) as nat;
        let mid = bits_value(c, pos + 1, (m - 1) as nat);
        assert(bits_value(c, pos, m + n) == head + 2 * (mid + pow2((m - 1) as nat) * rest));
        assert(2 * (mid + pow2((m - 1) as nat) * rest)
            == 2 * mid + (2 * pow2((m - 1) as nat)) * rest) by (nonlinear_arith);
        assert(bits_value(c, pos, m) == head + 2 * mid);
    }
}

/// A span that stays within one byte is a shift-and-mask of that byte.
pub proof fn lemma_bits_value_within_byte(c: Seq<u8>, pos: int, n: nat)
    requires
        0 <= pos,
        pos % 8 + n <= 8,
        pos / 8 < c.len(),
    ensures
        bits_value(c, pos, n) == ((c[pos / 8] >> ((pos % 8) as u8)) & mask8(n as u64)) as nat,
    decreases n,
{
    let b = c[pos / 8];
    let s = (pos % 8) as u8;
    if n == 0 {
        assert((b >> s) & mask8(0) == 0) by (bit_vector);
    } else if pos % 8 == 7 {
        assert(n == 1);
        assert(bits_value(c, pos + 1, 0) == 0);
        assert((b >> s) & mask8(1) == (b >> s) & 1) by (bit_vector);
    } else {
        assert((pos + 1) / 8 == pos / 8 && (pos + 1) % 8 == pos % 8 + 1) by {
            assert(pos % 8 < 7);
        };
        lemma_bits_value_within_byte(c, pos + 1, (n - 1) as nat);
        let n64 = n as u64;
        assert(((b >> s) & 1) + 2 * ((b >> (s + 1) as u8) & mask8((n64 - 1) as u64))
            == (b >> s) & mask8(n64)) by (bit_vector)
            requires
                s < 7,
                1 <= n64 <= 8,
                s as u64 + n64 <= 8,
        ;
    }
}

/// A bit span that lies within the first `m` bytes has the same value
/// over the prefix of length `m` as over the whole buffer.
pub proof fn lemma_bits_value_prefix(c: Seq<u8>, m: int, pos: int, n: nat)
    requires
        0 <= pos,
        pos + n <= 8 * m,
        m <= c.len(),
    ensures
        bits_value(c.take(m), pos, n) == bits_value(c, pos, n),
    decreases n,
{
    if n > 0 {
        assert(pos / 8 < m) by (nonlinear_arith)
            requires 0 <= pos, pos < 8 * m,
        ;
        assert(c.take(m)[pos / 8] == c[pos / 8]);
        lemma_bits_value_prefix(c, m, pos + 1, (n - 1) as nat);
    }
}

} // verus!
