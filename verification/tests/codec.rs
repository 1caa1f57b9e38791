//! The bit-level codec: write/read round trips, LSB-first boundary
//! crossing, and C-string handling.

use netchan::bitreader::BitReader;
use netchan::bitwriter::BitWriter;
use netchan::fault::DecodeFault;

#[test]
fn round_trip_all_widths() {
    for n in 1..=64u32 {
        let max: u64 = if n == 64 { u64::MAX } else { (1u64 << n) - 1 };
        let samples = [0u64, 1, max / 2, max.saturating_sub(1), max];
        for &v in samples.iter() {
            let v = v & max;
            let mut w = BitWriter::new(Vec::new());
            w.write_u64(v, n as usize);
            let mut r = BitReader::new(w.content);
            assert_eq!(r.read_u64(n as usize), v, "width {} value {}", n, v);
        }
    }
}

#[test]
fn round_trip_unaligned_offset() {
    // Write a 5-bit prelude so every later span starts mid-byte.
    for n in 1..=64u32 {
        let max: u64 = if n == 64 { u64::MAX } else { (1u64 << n) - 1 };
        let v = max ^ (max >> 1);
        let mut w = BitWriter::new(Vec::new());
        w.write_u8(0b10101, 5);
        w.write_u64(v, n as usize);
        w.write_u8(0x3f, 6);
        let mut r = BitReader::new(w.content);
        assert_eq!(r.read_u8(5), 0b10101);
        assert_eq!(r.read_u64(n as usize), v);
        assert_eq!(r.read_u8(6), 0x3f);
    }
}

#[test]
fn boundary_crossing_literal() {
    // [0b10110010, 0b01101101]: 3 bits then 13 bits, LSB-first.
    let mut r = BitReader::new(vec![0b10110010, 0b01101101]);
    assert_eq!(r.read_u8(3), 0b010);
    assert_eq!(r.read_u16(13), 3510);
    assert_eq!(r.bits_left(), 0);
}

#[test]
fn cstring_round_trip_empty() {
    let mut w = BitWriter::new(Vec::new());
    w.write_string(&Vec::new());
    let mut r = BitReader::new(w.content);
    assert_eq!(r.read_string().unwrap(), Vec::<u8>::new());
}

#[test]
fn cstring_round_trip_a() {
    let s = b"a".to_vec();
    let mut w = BitWriter::new(Vec::new());
    w.write_string(&s);
    let mut r = BitReader::new(w.content);
    assert_eq!(r.read_string().unwrap(), s);
}

#[test]
fn cstring_round_trip_hello() {
    let s = b"hello".to_vec();
    let mut w = BitWriter::new(Vec::new());
    w.write_string(&s);
    let mut r = BitReader::new(w.content);
    assert_eq!(r.read_string().unwrap(), s);
}

#[test]
fn cstring_round_trip_unaligned() {
    let s = b"hello".to_vec();
    let mut w = BitWriter::new(Vec::new());
    w.write_u8(0b101, 3);
    w.write_string(&s);
    let mut r = BitReader::new(w.content);
    assert_eq!(r.read_u8(3), 0b101);
    assert_eq!(r.read_string().unwrap(), s);
}

#[test]
fn cstring_truncated_is_a_fault() {
    // No terminating zero byte anywhere: never a silent partial string.
    let mut r = BitReader::new(vec![b'a', b'b']);
    assert_eq!(r.read_string(), Err(DecodeFault::TruncatedRead));
}

#[test]
fn reader_positions_and_emptiness() {
    let mut r = BitReader::new(vec![0xff, 0x00]);
    assert!(!r.is_empty());
    assert_eq!(r.bits_left(), 16);
    assert_eq!(r.read_u8(8), 0xff);
    assert_eq!(r.bits_left(), 8);
    assert_eq!(r.read_u8(8), 0x00);
    assert!(r.is_empty());
}

#[test]
fn extracted_subbuffer_is_isolated() {
    // 3 bits of prelude, then 13 bits extracted into a fresh buffer that
    // starts at bit 0 and is zero-padded.
    let mut r = BitReader::new(vec![0b10110010, 0b01101101]);
    assert_eq!(r.read_u8(3), 0b010);
    let sub = r.read_bits_buf(13).unwrap();
    assert_eq!(sub.len(), 2);
    let mut rs = BitReader::new(sub);
    assert_eq!(rs.read_u16(13), 3510);
    assert_eq!(rs.read_u8(3), 0); // padding bits are zero
}

#[test]
fn writer_grows_by_whole_bytes() {
    let mut w = BitWriter::new(Vec::new());
    w.write_u8(1, 1);
    assert_eq!(w.content.len(), 1);
    w.write_u16(0x1ff, 9);
    assert_eq!(w.content.len(), 2);
    assert_eq!(w.pos, 10);
}
