//! Reliable-channel fragment reassembly. Each of the two sub-streams
//! accumulates 256-byte-aligned fragments of a logical object into a
//! buffer; a fragment at offset 0 starts a new object. Structural checks
//! run before any mutation, so a rejected fragment leaves the buffer and
//! the acked count exactly as they were.

use vstd::prelude::*;
use crate::bits::bits_value;
use crate::bitreader::{BitReader, extract_bits, str_ok, str_bytes, str_end};
use crate::fault::DecodeFault;

verus! {

/// The fragment granularity in bytes.
pub const FRAGMENT_SIZE: u32 = 256;

pub open spec fn round_up4(n: int) -> int {
    ((n + 3) / 4) * 4
}

pub open spec fn ceil_div256(n: int) -> int {
    (n + 255) / 256
}

/// One sub-stream's reassembly state.
pub struct DataFragment {
    pub filename: Option<Vec<u8>>,
    pub buffer: Vec<u8>,
    pub bytes: u32,
    pub bits: u32,
    pub is_compressed: bool,
    pub num_fragments: i32,
    pub acked_fragments: i32,
}

/// The spec-level state of one sub-stream.
pub struct DataFragmentV {
    pub filename: Option<Seq<u8>>,
    pub buffer: Seq<u8>,
    pub bytes: u32,
    pub bits: u32,
    pub is_compressed: bool,
    pub num_fragments: i32,
    pub acked_fragments: i32,
}

impl View for DataFragment {
    type V = DataFragmentV;

    open spec fn view(&self) -> DataFragmentV {
        DataFragmentV {
            filename: match self.filename {
                Option::Some(ref v) => Some(v@),
                Option::None => None,
            },
            buffer: self.buffer@,
            bytes: self.bytes,
            bits: self.bits,
            is_compressed: self.is_compressed,
            num_fragments: self.num_fragments,
            acked_fragments: self.acked_fragments,
        }
    }
}

/// The invariant every sub-stream state keeps: the buffer is empty or
/// sized to the object's total rounded up to a multiple of 4, the counts
/// are non-negative, and the total fits the widest size field.
pub open spec fn frag_wf(f: DataFragmentV) -> bool {
    &&& (f.buffer.len() == 0 || f.buffer.len() == round_up4(f.bytes as int))
    &&& f.num_fragments >= 0
    &&& f.acked_fragments >= 0
    &&& f.bytes < 0x4000000
}

/// An idle sub-stream: nothing pending.
pub open spec fn frag_empty() -> DataFragmentV {
    DataFragmentV {
        filename: None,
        buffer: Seq::empty(),
        bytes: 0,
        bits: 0,
        is_compressed: false,
        num_fragments: 0,
        acked_fragments: 0,
    }
}

impl Default for DataFragment {
    fn default() -> (r: Self)
        ensures
            r@ == frag_empty(),
            frag_wf(r@),
    {
        let r = DataFragment {
            filename: None,
            buffer: Vec::new(),
            bytes: 0,
            bits: 0,
            is_compressed: false,
            num_fragments: 0,
            acked_fragments: 0,
        };
        proof {
            assert(r@.buffer =~= frag_empty().buffer);
        }
        r
    }
}

/// `buf` with `data` written over the range starting at `offset`.
pub open spec fn splice_bytes(buf: Seq<u8>, offset: int, data: Seq<u8>) -> Seq<u8> {
    Seq::new(
        buf.len(),
        |i: int| if offset <= i < offset + data.len() {
            data[i - offset]
        } else {
            buf[i]
        },
    )
}

/// A freshly started object with the given filename, compression flag and
/// total byte count: a zeroed buffer of the rounded size, the fragment
/// count, and nothing acked yet.
pub open spec fn fresh_frag(filename: Option<Seq<u8>>, compressed: bool, bytes: nat) -> DataFragmentV {
    DataFragmentV {
        filename: filename,
        buffer: Seq::new(round_up4(bytes as int) as nat, |i: int| 0u8),
        bytes: bytes as u32,
        bits: (8 * bytes) as u32,
        is_compressed: compressed,
        num_fragments: ceil_div256(bytes as int) as i32,
        acked_fragments: 0,
    }
}

/// The copy step shared by every accepted fragment: trim the final
/// partial fragment, require `offset + length <= totalBytes` before
/// touching anything, then copy the payload and count the fragments.
pub open spec fn sp_frag_copy(c: Seq<u8>, pos: int, f: DataFragmentV, start: int, count: int) -> Result<
    (DataFragmentV, int),
    DecodeFault,
> {
    let offset = start * 256;
    let length0 = count * 256;
    let rest = 256 - (f.bytes as int % 256);
    let length = if start + count == f.num_fragments && rest < 256 {
        length0 - rest
    } else {
        length0
    };
    if length < 0 {
        Err(DecodeFault::StructuralInvariantViolation)
    } else if offset + length > f.bytes {
        Err(DecodeFault::StructuralInvariantViolation)
    } else if f.acked_fragments + count > i32::MAX {
        Err(DecodeFault::StructuralInvariantViolation)
    } else if pos + 8 * length > 8 * c.len() {
        Err(DecodeFault::TruncatedRead)
    } else {
        Ok(
            (
                DataFragmentV {
                    buffer: splice_bytes(f.buffer, offset, extract_bits(c, pos, (8 * length) as nat)),
                    acked_fragments: (f.acked_fragments + count) as i32,
                    ..f
                },
                pos + 8 * length,
            ),
        )
    }
}

/// A single-block object header: optional compression flag (with a
/// skipped 26-bit field) and an 18-bit total byte size. The 18-bit width
/// is the one concrete contract this crate implements; other engine
/// revisions use 17 bits.
pub open spec fn sp_frag_new_single(c: Seq<u8>, pos: int) -> Result<(DataFragmentV, int), DecodeFault> {
    if pos + 1 > 8 * c.len() {
        Err(DecodeFault::TruncatedRead)
    } else {
        let compressed = bits_value(c, pos, 1) == 1;
        let p = if compressed { pos + 27 } else { pos + 1 };
        if p + 18 > 8 * c.len() {
            Err(DecodeFault::TruncatedRead)
        } else {
            Ok((fresh_frag(None, compressed, bits_value(c, p, 18)), p + 18))
        }
    }
}

/// A multi-fragment object header at offset 0: optional 32-bit marker and
/// filename, optional compression flag (with a skipped 26-bit field), and
/// a 26-bit total byte size.
pub open spec fn sp_frag_new_multi(c: Seq<u8>, pos: int) -> Result<
    ((Option<Seq<u8>>, bool, nat), int),
    DecodeFault,
> {
    if pos + 1 > 8 * c.len() {
        Err(DecodeFault::TruncatedRead)
    } else if bits_value(c, pos, 1) == 1 {
        if pos + 33 > 8 * c.len() {
            Err(DecodeFault::TruncatedRead)
        } else if !str_ok(c, pos + 33) {
            Err(DecodeFault::TruncatedRead)
        } else {
            sp_frag_new_multi_tail(c, str_end(c, pos + 33), Some(str_bytes(c, pos + 33)))
        }
    } else {
        sp_frag_new_multi_tail(c, pos + 1, None)
    }
}

pub open spec fn sp_frag_new_multi_tail(c: Seq<u8>, pos: int, filename: Option<Seq<u8>>) -> Result<
    ((Option<Seq<u8>>, bool, nat), int),
    DecodeFault,
> {
    if pos + 1 > 8 * c.len() {
        Err(DecodeFault::TruncatedRead)
    } else if bits_value(c, pos, 1) == 1 {
        if pos + 53 > 8 * c.len() {
            Err(DecodeFault::TruncatedRead)
        } else {
            Ok(((filename, true, bits_value(c, pos + 27, 26)), pos + 53))
        }
    } else {
        if pos + 27 > 8 * c.len() {
            Err(DecodeFault::TruncatedRead)
        } else {
            Ok(((filename, false, bits_value(c, pos + 1, 26)), pos + 27))
        }
    }
}

/// One fragment of sub-stream data, applied to the sub-stream state `f`.
pub open spec fn sp_subchannel(c: Seq<u8>, pos: int, f: DataFragmentV) -> Result<
    (DataFragmentV, int),
    DecodeFault,
> {
    if pos + 1 > 8 * c.len() {
        Err(DecodeFault::TruncatedRead)
    } else if bits_value(c, pos, 1) == 0 {
        match sp_frag_new_single(c, pos + 1) {
            Ok(t) => sp_frag_copy(c, t.1, t.0, 0, t.0.num_fragments as int),
            Err(e) => Err(e),
        }
    } else {
        if pos + 22 > 8 * c.len() {
            Err(DecodeFault::TruncatedRead)
        } else {
            let start = bits_value(c, pos + 1, 18) as int;
            let count = bits_value(c, pos + 19, 3) as int;
            if start == 0 {
                match sp_frag_new_multi(c, pos + 22) {
                    Ok(t) => sp_frag_copy(c, t.1, fresh_frag(t.0.0, t.0.1, t.0.2), 0, count),
                    Err(e) => Err(e),
                }
            } else {
                if f.buffer.len() == 0 {
                    Err(DecodeFault::StructuralInvariantViolation)
                } else {
                    sp_frag_copy(c, pos + 22, f, start, count)
                }
            }
        }
    }
}

/// A vector of `n` zero bytes.
pub fn zero_vec(n: usize) -> (r: Vec<u8>)
    ensures
        r@ == Seq::new(n as nat, |i: int| 0u8),
{
    let mut out: Vec<u8> = Vec::new();
    let mut i: usize = 0;
    while i < n
        invariant
            i <= n,
            out@.len() == i,
            forall|j: int| 0 <= j < i ==> out@[j] == 0u8,
        decreases n - i,
    {
        out.push(0);
        i = i + 1;
    }
    proof {
        assert(out@ =~= Seq::new(n as nat, |i: int| 0u8));
    }
    out
}

/// Overwrite `buf[offset .. offset + data.len()]` with `data`.
fn splice(buf: &mut Vec<u8>, offset: usize, data: &Vec<u8>)
    requires
        offset + data@.len() <= old(buf)@.len(),
    ensures
        final(buf)@ == splice_bytes(old(buf)@, offset as int, data@),
{
    let _buf_len = buf.len();
    let mut i: usize = 0;
    while i < data.len()
        invariant
            i <= data@.len(),
            offset + data@.len() <= buf@.len(),
            buf@.len() <= usize::MAX,
            buf@.len() == old(buf)@.len(),
            forall|j: int| 0 <= j < i ==> buf@[offset + j] == data@[j],
            forall|j: int| 0 <= j < buf@.len() && !(offset <= j < offset + i) ==> buf@[j] == old(buf)@[j],
        decreases data@.len() - i,
    {
        let b = data[i];
        buf.set(offset + i, b);
        i = i + 1;
    }
    proof {
        assert(buf@ =~= splice_bytes(old(buf)@, offset as int, data@));
    }
}

/// Build a fresh object state.
fn fresh_fragment(filename: Option<Vec<u8>>, compressed: bool, bytes: u32) -> (r: DataFragment)
    requires
        bytes < 0x4000000,
    ensures
        r@ == fresh_frag(
            match filename {
                Option::Some(v) => Some(v@),
                Option::None => None,
            },
            compressed,
            bytes as nat,
        ),
        frag_wf(r@),
{
    let buffer = zero_vec((((bytes + 3) / 4) * 4) as usize);
    let num_fragments = ((bytes + 255) / 256) as i32;
    DataFragment {
        filename,
        buffer,
        bytes,
        bits: bytes * 8,
        is_compressed: compressed,
        num_fragments,
        acked_fragments: 0,
    }
}

/// The shared copy step: all structural checks run before the state is
/// touched, so on any fault `f` is exactly what it was.
fn frag_copy_into(reader: &mut BitReader, f: &mut DataFragment, start: u32, count: u32) -> (r: Result<
    (),
    DecodeFault,
>)
    requires
        old(reader).wf(),
        frag_wf(old(f)@),
        old(f)@.buffer.len() == round_up4(old(f)@.bytes as int),
        start < 0x40000,
        count <= 0x40000,
    ensures
        final(reader).wf(),
        final(reader).content@ == old(reader).content@,
        frag_wf(final(f)@),
        match r {
            Ok(()) => sp_frag_copy(old(reader).content@, old(reader).pos as int, old(f)@,
                start as int, count as int)
                matches Ok(t) && final(f)@ == t.0 && final(reader).pos as int == t.1,
            Err(e) => sp_frag_copy(old(reader).content@, old(reader).pos as int, old(f)@,
                start as int, count as int)
                == Err::<(DataFragmentV, int), DecodeFault>(e)
                && *final(f) == *old(f),
        },
{
    let offset: u32 = start * 256;
    let length0: u32 = count * 256;
    let bmod: u32 = f.bytes % 256;
    let mut length: u32 = length0;
    if (start as i64) + (count as i64) == (f.num_fragments as i64) && bmod != 0 {
        let rest: u32 = 256 - bmod;
        if length0 < rest {
            return Err(DecodeFault::StructuralInvariantViolation);
        }
        length = length0 - rest;
    }
    if (offset as u64) + (length as u64) > f.bytes as u64 {
        return Err(DecodeFault::StructuralInvariantViolation);
    }
    if f.acked_fragments > i32::MAX - (count as i32) {
        return Err(DecodeFault::StructuralInvariantViolation);
    }
    if (length as u64) * 8 > reader.bits_left() as u64 {
        return Err(DecodeFault::TruncatedRead);
    }
    let payload = match reader.read_bits_buf((length * 8) as usize) {
        Ok(b) => b,
        Err(e) => { return Err(e); },
    };
    proof {
        assert(round_up4(f@.bytes as int) >= f@.bytes as int);
        assert(offset + payload@.len() <= f@.buffer.len());
    }
    splice(&mut f.buffer, offset as usize, &payload);
    f.acked_fragments = f.acked_fragments + count as i32;
    Ok(())
}

/// Apply one fragment to the sub-stream state `data`. On any fault the
/// state is exactly what it was before the fragment was seen.
pub fn read_sub_channel_data(reader: &mut BitReader, data: &mut DataFragment) -> (r: Result<
    (),
    DecodeFault,
>)
    requires
        old(reader).wf(),
        frag_wf(old(data)@),
    ensures
        final(reader).wf(),
        final(reader).content@ == old(reader).content@,
        frag_wf(final(data)@),
        match r {
            Ok(()) => sp_subchannel(old(reader).content@, old(reader).pos as int, old(data)@)
                matches Ok(t) && final(data)@ == t.0 && final(reader).pos as int == t.1,
            Err(e) => sp_subchannel(old(reader).content@, old(reader).pos as int, old(data)@)
                == Err::<(DataFragmentV, int), DecodeFault>(e)
                && final(data)@ == old(data)@,
        },
{
    proof {
        vstd::arithmetic::power2::lemma2_to64();
    }
    if reader.bits_left() < 1 {
        return Err(DecodeFault::TruncatedRead);
    }
    let single = reader.read_u8(1) == 0;
    if single {
        if reader.bits_left() < 1 {
            return Err(DecodeFault::TruncatedRead);
        }
        let compressed = reader.read_u8(1) == 1;
        if compressed {
            if reader.bits_left() < 26 {
                return Err(DecodeFault::TruncatedRead);
            }
            let _skipped = reader.read_u32(26);
        }
        if reader.bits_left() < 18 {
            return Err(DecodeFault::TruncatedRead);
        }
        let total = reader.read_u32(18);
        let mut nf = fresh_fragment(None, compressed, total);
        let count = nf.num_fragments;
        match frag_copy_into(reader, &mut nf, 0, count as u32) {
            Ok(()) => {
                *data = nf;
                Ok(())
            },
            Err(e) => Err(e),
        }
    } else {
        if reader.bits_left() < 21 {
            return Err(DecodeFault::TruncatedRead);
        }
        let start = reader.read_u32(18);
        let count = reader.read_u8(3) as u32;
        if start == 0 {
            if reader.bits_left() < 1 {
                return Err(DecodeFault::TruncatedRead);
            }
            let filename: Option<Vec<u8>>;
            if reader.read_u8(1) == 1 {
                if reader.bits_left() < 32 {
                    return Err(DecodeFault::TruncatedRead);
                }
                let _marker = reader.read_u32(32);
                filename = match reader.read_string() {
                    Ok(s) => Some(s),
                    Err(e) => { return Err(e); },
                };
            } else {
                filename = None;
            }
            if reader.bits_left() < 1 {
                return Err(DecodeFault::TruncatedRead);
            }
            let compressed = reader.read_u8(1) == 1;
            if compressed {
                if reader.bits_left() < 26 {
                    return Err(DecodeFault::TruncatedRead);
                }
                let _skipped = reader.read_u32(26);
            }
            if reader.bits_left() < 26 {
                return Err(DecodeFault::TruncatedRead);
            }
            let total = reader.read_u32(26);
            let mut nf = fresh_fragment(filename, compressed, total);
            match frag_copy_into(reader, &mut nf, 0, count) {
                Ok(()) => {
                    *data = nf;
                    Ok(())
                },
                Err(e) => Err(e),
            }
        } else {
            if data.buffer.len() == 0 {
                return Err(DecodeFault::StructuralInvariantViolation);
            }
            frag_copy_into(reader, data, start, count)
        }
    }
}

} // verus!
