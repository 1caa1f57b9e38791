//! The remaining per-message decoders, each through a synthetic bit
//! stream built with the writer.

use netchan::bitreader::BitReader;
use netchan::bitwriter::BitWriter;
use netchan::dispatch::{process_messages, DecodedMessage, DispatchOutcome};
use netchan::fault::DecodeFault;
use netchan::fragment::{read_sub_channel_data, DataFragment};
use netchan::messages::{
    CLCBaselineAck, CLCClientInfo, CLCListenEvents, CLCLoadingProgress, CUserCmd, NETSignonState,
};
use netchan::session::check_receiving_list;

#[test]
fn baseline_ack_second_field_is_one_bit() {
    let mut w = BitWriter::new(Vec::new());
    w.write_u32(77, 32);
    w.write_u8(1, 1);
    let mut r = BitReader::new(w.content);
    let m = CLCBaselineAck::parse(&mut r).unwrap();
    assert_eq!(m.n_baseline_tick, 77);
    assert_eq!(m.n_baseline_nr, 1);
    assert_eq!(r.bits_left(), 7);
}

#[test]
fn loading_progress_single_byte() {
    let mut r = BitReader::new(vec![42]);
    let m = CLCLoadingProgress::parse(&mut r).unwrap();
    assert_eq!(m.idk, 42);
}

#[test]
fn listen_events_sixteen_words() {
    let mut w = BitWriter::new(Vec::new());
    for i in 0..16u32 {
        w.write_u32(i * 3 + 1, 32);
    }
    let mut r = BitReader::new(w.content);
    let m = CLCListenEvents::parse(&mut r).unwrap();
    assert_eq!(m.events.len(), 16);
    for i in 0..16usize {
        assert_eq!(m.events[i], i as u32 * 3 + 1);
    }
}

#[test]
fn listen_events_truncated() {
    let mut w = BitWriter::new(Vec::new());
    for i in 0..15u32 {
        w.write_u32(i, 32);
    }
    let mut r = BitReader::new(w.content);
    assert!(matches!(
        CLCListenEvents::parse(&mut r),
        Err(DecodeFault::TruncatedRead)
    ));
}

#[test]
fn signon_state_with_blocks() {
    let mut w = BitWriter::new(Vec::new());
    w.write_u8(2, 8); // state
    w.write_u32(7, 32); // spawn count
    w.write_u32(9, 32); // opaque word
    w.write_u32(2, 32); // first block length
    w.write_u8(0xab, 8);
    w.write_u8(0xcd, 8);
    w.write_u32(0, 32); // second block empty
    let mut r = BitReader::new(w.content);
    let m = NETSignonState::parse(&mut r).unwrap();
    assert_eq!(m.n_signon_state, 2);
    assert_eq!(m.n_spawn_count, 7);
    assert_eq!(m.idk1, 9);
    assert_eq!(m.idk2_buf, vec![0xab, 0xcd]);
    assert!(m.idk3_buf.is_empty());
}

#[test]
fn client_info_with_optional_files() {
    let mut w = BitWriter::new(Vec::new());
    w.write_u32(3, 32); // server count
    w.write_u32(0xdeadbeef, 32); // send-table CRC
    w.write_u8(1, 1); // hltv flag
    w.write_u32(1234, 32); // friends id
    w.write_string(&b"player".to_vec());
    w.write_u8(1, 1); // file 0 present
    w.write_u32(0x11, 32);
    w.write_u8(0, 1); // file 1 absent
    w.write_u8(0, 1); // file 2 absent
    w.write_u8(1, 1); // file 3 present
    w.write_u32(0x44, 32);
    let mut r = BitReader::new(w.content);
    let m = CLCClientInfo::parse(&mut r).unwrap();
    assert_eq!(m.n_server_count, 3);
    assert_eq!(m.n_send_table_crc, 0xdeadbeef);
    assert!(m.b_is_hltv);
    assert_eq!(m.n_friends_id, 1234);
    assert_eq!(m.friends_name, b"player".to_vec());
    assert_eq!(m.n_custom_files, vec![0x11, 0, 0, 0x44]);
}

#[test]
fn file_control_message_is_reported() {
    let mut w = BitWriter::new(Vec::new());
    w.write_u8(2, 6); // file control opcode
    w.write_u32(99, 32);
    w.write_string(&b"maps/x.bsp".to_vec());
    w.write_u8(1, 1); // granted
    let mut baseline = CUserCmd::default();
    let mut r = BitReader::new(w.content);
    let (msgs, outcome) = process_messages(&mut r, &mut baseline);
    assert_eq!(outcome, DispatchOutcome::Completed);
    assert_eq!(msgs.len(), 1);
    match &msgs[0] {
        DecodedMessage::File { transfer_id, filename, granted } => {
            assert_eq!(*transfer_id, 99);
            assert_eq!(filename, &b"maps/x.bsp".to_vec());
            assert!(*granted);
        }
        _ => panic!("expected a file message"),
    }
}

#[test]
fn nop_opcodes_are_skipped() {
    let mut w = BitWriter::new(Vec::new());
    w.write_u8(0, 6);
    w.write_u8(0, 6);
    w.write_u8(16, 6); // loading progress
    w.write_u8(55, 8);
    let mut baseline = CUserCmd::default();
    let mut r = BitReader::new(w.content);
    let (msgs, outcome) = process_messages(&mut r, &mut baseline);
    assert_eq!(outcome, DispatchOutcome::Completed);
    assert_eq!(msgs.len(), 1);
    match &msgs[0] {
        DecodedMessage::LoadingProgress(p) => assert_eq!(p.idk, 55),
        _ => panic!("expected a loading progress message"),
    }
}

#[test]
fn compressed_object_is_reported_unimplemented() {
    // A completed single-block object flagged compressed is recognized
    // but unsupported: the buffer is dropped, the channel stays usable.
    let mut w = BitWriter::new(Vec::new());
    w.write_u8(0, 1); // single block
    w.write_u8(1, 1); // compressed
    w.write_u32(0, 26); // skipped decompressed-size field
    w.write_u32(4, 18); // total bytes
    for _ in 0..4 {
        w.write_u8(0, 8);
    }
    let mut data = DataFragment::default();
    read_sub_channel_data(&mut BitReader::new(w.content), &mut data).unwrap();
    assert!(data.is_compressed);
    assert_eq!(data.acked_fragments, data.num_fragments);

    let mut baseline = CUserCmd::default();
    let (msgs, ready, fault) = check_receiving_list(&mut data, &mut baseline);
    assert!(msgs.is_empty());
    assert!(ready);
    assert_eq!(fault, Some(DecodeFault::UnimplementedMessageType));
    assert!(data.buffer.is_empty());
}

#[test]
fn named_object_is_reported_unimplemented() {
    // A multi-fragment object carrying a filename is a file transfer:
    // out of scope, reported once complete.
    let mut w = BitWriter::new(Vec::new());
    w.write_u8(1, 1); // multi-fragment
    w.write_u32(0, 18); // start fragment
    w.write_u8(1, 3); // fragment count
    w.write_u8(1, 1); // filename present
    w.write_u32(0, 32); // transfer marker
    w.write_string(&b"download.dat".to_vec());
    w.write_u8(0, 1); // not compressed
    w.write_u32(4, 26); // total bytes
    for _ in 0..4 {
        w.write_u8(9, 8);
    }
    let mut data = DataFragment::default();
    read_sub_channel_data(&mut BitReader::new(w.content), &mut data).unwrap();
    assert_eq!(data.filename, Some(b"download.dat".to_vec()));
    assert_eq!(data.acked_fragments, data.num_fragments);

    let mut baseline = CUserCmd::default();
    let (_, ready, fault) = check_receiving_list(&mut data, &mut baseline);
    assert!(ready);
    assert_eq!(fault, Some(DecodeFault::UnimplementedMessageType));
    assert!(data.buffer.is_empty());
}

#[test]
fn over_acked_channel_is_corrupt() {
    // Deliver the same middle fragment twice: acked overtakes the total.
    let all: Vec<u8> = (0..700u32).map(|i| (i % 7) as u8).collect();
    let mut head = BitWriter::new(Vec::new());
    head.write_u8(1, 1);
    head.write_u32(0, 18);
    head.write_u8(2, 3);
    head.write_u8(0, 1);
    head.write_u8(0, 1);
    head.write_u32(700, 26);
    for &b in &all[0..512] {
        head.write_u8(b, 8);
    }
    let mut data = DataFragment::default();
    read_sub_channel_data(&mut BitReader::new(head.content), &mut data).unwrap();
    assert_eq!(data.acked_fragments, 2);

    let mut dup = BitWriter::new(Vec::new());
    dup.write_u8(1, 1);
    dup.write_u32(1, 18);
    dup.write_u8(1, 3);
    for &b in &all[256..512] {
        dup.write_u8(b, 8);
    }
    read_sub_channel_data(&mut BitReader::new(dup.content), &mut data).unwrap();
    read_sub_channel_data(
        &mut BitReader::new({
            let mut w = BitWriter::new(Vec::new());
            w.write_u8(1, 1);
            w.write_u32(1, 18);
            w.write_u8(1, 3);
            for &b in &all[256..512] {
                w.write_u8(b, 8);
            }
            w.content
        }),
        &mut data,
    )
    .unwrap();
    assert_eq!(data.acked_fragments, 4);
    assert_eq!(data.num_fragments, 3);

    let mut baseline = CUserCmd::default();
    let (msgs, ready, fault) = check_receiving_list(&mut data, &mut baseline);
    assert!(msgs.is_empty());
    assert!(!ready);
    assert_eq!(fault, Some(DecodeFault::StructuralInvariantViolation));
}

#[test]
fn key_values_float_is_raw_bit_pattern() {
    // FLOAT carries raw IEEE-754 bits: 0x3f800000 is exactly 1.0.
    let sub = [3u8, b'f', 0, 0x00, 0x00, 0x80, 0x3f, 11];
    let mut w = BitWriter::new(Vec::new());
    w.write_u32(sub.len() as u32, 32);
    for &b in &sub {
        w.write_u8(b, 8);
    }
    let mut r = BitReader::new(w.content);
    let m = netchan::messages::CmdKeyValues::parse(&mut r).unwrap();
    match m.entries[0].value {
        netchan::messages::KvValue::FloatBits(bits) => {
            assert_eq!(bits, 0x3f800000);
            assert_eq!(f32::from_bits(bits), 1.0f32);
        }
        _ => panic!("expected a float value"),
    }
}

#[test]
fn key_values_u64_entry() {
    let v: u64 = 0x0102030405060708;
    let mut sub = vec![7u8, b'u', 0];
    sub.extend_from_slice(&v.to_le_bytes());
    sub.push(11);
    let mut w = BitWriter::new(Vec::new());
    w.write_u32(sub.len() as u32, 32);
    for &b in &sub {
        w.write_u8(b, 8);
    }
    let mut r = BitReader::new(w.content);
    let m = netchan::messages::CmdKeyValues::parse(&mut r).unwrap();
    match m.entries[0].value {
        netchan::messages::KvValue::U64(u) => assert_eq!(u, v),
        _ => panic!("expected a 64-bit value"),
    }
}

#[test]
fn delta_weapon_block_with_subtype() {
    let mut w = BitWriter::new(Vec::new());
    for _ in 0..10 {
        w.write_u8(0, 1); // command, tick, angles, moves, buttons, impulse absent
    }
    w.write_u8(1, 1); // weapon block present
    w.write_u16(123, 11);
    w.write_u8(1, 1); // subtype present
    w.write_u8(9, 6);
    w.write_u8(0, 1); // mouse dx absent
    w.write_u8(0, 1); // mouse dy absent
    let mut baseline = CUserCmd::default();
    baseline.weaponselect = 1;
    baseline.weaponsubtype = 2;
    let mut r = BitReader::new(w.content);
    let cmd = netchan::messages::parse_usercmd(&mut r, &baseline).unwrap();
    assert_eq!(cmd.weaponselect, 123);
    assert_eq!(cmd.weaponsubtype, 9);
}

#[test]
fn delta_mouse_values_are_signed() {
    let mut w = BitWriter::new(Vec::new());
    for _ in 0..11 {
        w.write_u8(0, 1);
    }
    w.write_u8(1, 1); // mouse dx present
    w.write_u16(0xffff, 16); // -1 as two's complement
    w.write_u8(1, 1); // mouse dy present
    w.write_u16(5, 16);
    let baseline = CUserCmd::default();
    let mut r = BitReader::new(w.content);
    let cmd = netchan::messages::parse_usercmd(&mut r, &baseline).unwrap();
    assert_eq!(cmd.mousedx, -1);
    assert_eq!(cmd.mousedy, 5);
}
