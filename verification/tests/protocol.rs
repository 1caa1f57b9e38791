//! Fragment reassembly, delta decoding, dispatch routing, and the
//! per-packet decode entry point.

use netchan::bitreader::BitReader;
use netchan::bitwriter::BitWriter;
use netchan::dispatch::{process_messages, DecodedMessage, DispatchOutcome};
use netchan::fault::DecodeFault;
use netchan::fragment::{read_sub_channel_data, DataFragment};
use netchan::messages::{parse_usercmd, CLCMove, CUserCmd, CmdKeyValues, KvValue, NETSetConVar};
use netchan::session::{DecodeStatus, SessionState};

fn payload_bytes(from: usize, len: usize) -> Vec<u8> {
    (0..len).map(|i| ((from + i) % 251) as u8).collect()
}

/// One multi-fragment wire record: indicator, start, count, then (for a
/// new object) the offset-0 header, then the payload bytes.
fn multi_fragment(start: u32, count: u8, new_object_total: Option<u32>, payload: &[u8]) -> Vec<u8> {
    let mut w = BitWriter::new(Vec::new());
    w.write_u8(1, 1); // multi-fragment
    w.write_u32(start, 18);
    w.write_u8(count, 3);
    if let Some(total) = new_object_total {
        w.write_u8(0, 1); // no filename
        w.write_u8(0, 1); // not compressed
        w.write_u32(total, 26);
    }
    for &b in payload {
        w.write_u8(b, 8);
    }
    w.content
}

#[test]
fn fragment_reassembly_700_bytes() {
    let mut data = DataFragment::default();
    let all = payload_bytes(0, 700);

    let f1 = multi_fragment(0, 1, Some(700), &all[0..256]);
    read_sub_channel_data(&mut BitReader::new(f1), &mut data).unwrap();
    assert_eq!(data.num_fragments, 3);
    assert_eq!(data.acked_fragments, 1);

    let f2 = multi_fragment(1, 1, None, &all[256..512]);
    read_sub_channel_data(&mut BitReader::new(f2), &mut data).unwrap();
    assert_eq!(data.acked_fragments, 2);

    // The final fragment is trimmed to 700 - 512 = 188 bytes.
    let f3 = multi_fragment(2, 1, None, &all[512..700]);
    read_sub_channel_data(&mut BitReader::new(f3), &mut data).unwrap();
    assert_eq!(data.acked_fragments, 3);
    assert_eq!(data.num_fragments, 3);
    assert_eq!(&data.buffer[..700], &all[..]);
}

#[test]
fn fragment_range_violation_leaves_state_unchanged() {
    let mut data = DataFragment::default();
    let all = payload_bytes(3, 700);
    let f1 = multi_fragment(0, 1, Some(700), &all[0..256]);
    read_sub_channel_data(&mut BitReader::new(f1), &mut data).unwrap();

    let buffer_before = data.buffer.clone();
    let acked_before = data.acked_fragments;

    // offset 512 + length 768 > 700: rejected before any mutation.
    let bad = multi_fragment(2, 3, None, &payload_bytes(0, 768));
    let r = read_sub_channel_data(&mut BitReader::new(bad), &mut data);
    assert_eq!(r, Err(DecodeFault::StructuralInvariantViolation));
    assert_eq!(data.buffer, buffer_before);
    assert_eq!(data.acked_fragments, acked_before);
}

#[test]
fn delta_decoding_absent_fields_advance_from_baseline() {
    let mut baseline = CUserCmd::default();
    baseline.command_number = 10;
    baseline.tick_count = 100;
    // All 13 presence bits clear.
    let mut r = BitReader::new(vec![0, 0]);
    let cmd = parse_usercmd(&mut r, &baseline).unwrap();
    assert_eq!(cmd.command_number, 11);
    assert_eq!(cmd.tick_count, 101);
}

#[test]
fn delta_decoding_explicit_command_number_updates_baseline() {
    let mut baseline = CUserCmd::default();
    baseline.command_number = 10;
    baseline.tick_count = 100;

    let mut w = BitWriter::new(Vec::new());
    w.write_u8(1, 4); // new commands
    w.write_u8(0, 3); // backup commands
    w.write_u16(45, 16); // sub-stream bit length
    w.write_u8(1, 1); // command number present
    w.write_u32(50, 32);
    for _ in 0..12 {
        w.write_u8(0, 1); // every other field absent
    }
    let mut r = BitReader::new(w.content);
    let m = CLCMove::parse(&mut r, &mut baseline).unwrap();
    assert_eq!(m.n_new_commands, 1);
    assert_eq!(m.n_length, 45);
    assert_eq!(m.user_cmd.command_number, 50);
    assert_eq!(m.user_cmd.tick_count, 101);
    // The baseline is unconditionally replaced by the decoded command.
    assert_eq!(baseline.command_number, 50);
    assert_eq!(baseline.tick_count, 101);
}

#[test]
fn delta_decoding_absent_fields_keep_baseline_values() {
    let mut baseline = CUserCmd::default();
    baseline.forwardmove = 0x3f800000; // raw bits of 1.0f32
    baseline.buttons = 5;
    baseline.mousedx = -7;
    let mut r = BitReader::new(vec![0, 0]);
    let cmd = parse_usercmd(&mut r, &baseline).unwrap();
    assert_eq!(cmd.forwardmove, 0x3f800000);
    assert_eq!(cmd.buttons, 5);
    assert_eq!(cmd.mousedx, -7);
}

fn tick_message_bits(w: &mut BitWriter) {
    w.write_u8(4, 6); // NetTick opcode
    w.write_u32(12345, 32);
    w.write_u16(500, 16);
    w.write_u16(250, 16);
}

#[test]
fn dispatch_routes_net_tick() {
    let mut w = BitWriter::new(Vec::new());
    tick_message_bits(&mut w);
    let mut baseline = CUserCmd::default();
    let mut r = BitReader::new(w.content);
    let (msgs, outcome) = process_messages(&mut r, &mut baseline);
    assert_eq!(outcome, DispatchOutcome::Completed);
    assert_eq!(msgs.len(), 1);
    match &msgs[0] {
        DecodedMessage::Tick(t) => {
            assert_eq!(t.n_tick, 12345);
            assert_eq!(t.host_frame_time_raw, 500);
            assert_eq!(t.host_frame_time_std_deviation_raw, 250);
            // The fixed-point fields divided by 100000 give the frame times.
            assert_eq!(t.host_frame_time_raw as f32 / 100000.0, 0.005f32);
            assert_eq!(t.host_frame_time_std_deviation_raw as f32 / 100000.0, 0.0025f32);
        }
        _ => panic!("expected a tick"),
    }
}

#[test]
fn unknown_opcode_halts_but_keeps_earlier_messages() {
    let mut w = BitWriter::new(Vec::new());
    tick_message_bits(&mut w);
    w.write_u8(20, 6); // opcode outside the known set
    let mut baseline = CUserCmd::default();
    let mut r = BitReader::new(w.content);
    let (msgs, outcome) = process_messages(&mut r, &mut baseline);
    assert_eq!(outcome, DispatchOutcome::Halted(DecodeFault::UnknownMessageType));
    assert_eq!(msgs.len(), 1);
    assert!(matches!(msgs[0], DecodedMessage::Tick(_)));
}

#[test]
fn disconnect_stops_processing() {
    let mut w = BitWriter::new(Vec::new());
    w.write_u8(1, 6); // disconnect opcode
    w.write_string(&b"bye".to_vec());
    tick_message_bits(&mut w); // never reached
    let mut baseline = CUserCmd::default();
    let mut r = BitReader::new(w.content);
    let (msgs, outcome) = process_messages(&mut r, &mut baseline);
    assert_eq!(outcome, DispatchOutcome::Disconnected);
    assert_eq!(msgs.len(), 1);
    match &msgs[0] {
        DecodedMessage::Disconnect(reason) => assert_eq!(reason, &b"bye".to_vec()),
        _ => panic!("expected a disconnect"),
    }
}

#[test]
fn truncated_message_body_halts_buffer() {
    let mut w = BitWriter::new(Vec::new());
    w.write_u8(5, 6); // string command opcode
    w.write_u8(b'a', 8); // no terminating zero follows
    let mut baseline = CUserCmd::default();
    let mut r = BitReader::new(w.content);
    let (msgs, outcome) = process_messages(&mut r, &mut baseline);
    assert_eq!(outcome, DispatchOutcome::Halted(DecodeFault::TruncatedRead));
    assert_eq!(msgs.len(), 0);
}

#[test]
fn set_convar_pairs_decode() {
    let mut w = BitWriter::new(Vec::new());
    w.write_u8(2, 8);
    w.write_string(&b"a".to_vec());
    w.write_string(&b"1".to_vec());
    w.write_string(&b"bb".to_vec());
    w.write_string(&b"22".to_vec());
    let mut r = BitReader::new(w.content);
    let m = NETSetConVar::parse(&mut r).unwrap();
    assert_eq!(m.convars.len(), 2);
    assert_eq!(m.convars[0].name, b"a".to_vec());
    assert_eq!(m.convars[0].value, b"1".to_vec());
    assert_eq!(m.convars[1].name, b"bb".to_vec());
    assert_eq!(m.convars[1].value, b"22".to_vec());
}

fn kv_message(sub: &[u8]) -> Vec<u8> {
    let mut w = BitWriter::new(Vec::new());
    w.write_u32(sub.len() as u32, 32);
    for &b in sub {
        w.write_u8(b, 8);
    }
    w.content
}

#[test]
fn key_values_int_entry() {
    // tag INT, name "k", value 7 little-endian, end marker 11.
    let sub = [2u8, b'k', 0, 7, 0, 0, 0, 11];
    let mut r = BitReader::new(kv_message(&sub));
    let m = CmdKeyValues::parse(&mut r).unwrap();
    assert_eq!(m.entries.len(), 1);
    assert_eq!(m.entries[0].name, b"k".to_vec());
    assert!(matches!(m.entries[0].value, KvValue::Int(7)));
}

#[test]
fn key_values_color_and_string() {
    let sub = [
        6u8, b'c', 0, 10, 20, 30, 40, // COLOR
        1, b's', 0, b'v', 0, // STRING
        11,
    ];
    let mut r = BitReader::new(kv_message(&sub));
    let m = CmdKeyValues::parse(&mut r).unwrap();
    assert_eq!(m.entries.len(), 2);
    assert!(matches!(
        m.entries[0].value,
        KvValue::Color { r: 10, g: 20, b: 30, a: 40 }
    ));
    match &m.entries[1].value {
        KvValue::Text(v) => assert_eq!(v, &b"v".to_vec()),
        _ => panic!("expected a string value"),
    }
}

#[test]
fn key_values_wide_string_is_unimplemented() {
    let sub = [5u8, b'x', 0, 11];
    let mut r = BitReader::new(kv_message(&sub));
    assert!(matches!(
        CmdKeyValues::parse(&mut r),
        Err(DecodeFault::UnimplementedMessageType)
    ));
}

#[test]
fn key_values_unknown_tag_is_fatal() {
    let sub = [9u8, b'x', 0, 11];
    let mut r = BitReader::new(kv_message(&sub));
    assert!(matches!(
        CmdKeyValues::parse(&mut r),
        Err(DecodeFault::UnknownMessageType)
    ));
}

fn header_bytes(flags: u8) -> Vec<u8> {
    let mut v = vec![0u8; 12];
    v[0] = 1; // sequence 1: not the connectionless marker
    v[8] = flags;
    v
}

#[test]
fn decode_rejects_short_packet() {
    let mut s = SessionState::new();
    let r = s.decode(&vec![1, 2, 3, 4, 5]);
    assert_eq!(r.status, DecodeStatus::Rejected);
    assert_eq!(r.fault, Some(DecodeFault::MalformedHeader));
}

#[test]
fn decode_bypasses_connectionless_packets() {
    let mut s = SessionState::new();
    let r = s.decode(&vec![0xff, 0xff, 0xff, 0xff, 9, 9]);
    assert_eq!(r.status, DecodeStatus::Bypass);
    assert!(r.messages.is_empty());
    assert_eq!(r.fault, None);
}

#[test]
fn decode_plain_packet_with_tick() {
    let mut s = SessionState::new();
    let mut w = BitWriter::new(Vec::new());
    tick_message_bits(&mut w);
    let mut packet = header_bytes(0);
    packet.extend_from_slice(&w.content);
    let r = s.decode(&packet);
    assert_eq!(r.status, DecodeStatus::Accepted);
    assert_eq!(r.fault, None);
    assert_eq!(r.messages.len(), 1);
    assert!(matches!(r.messages[0], DecodedMessage::Tick(_)));
}

#[test]
fn decode_choked_packet_skips_count_byte() {
    let mut s = SessionState::new();
    let mut w = BitWriter::new(Vec::new());
    tick_message_bits(&mut w);
    let mut packet = header_bytes(16); // CHOKED
    packet.push(3); // the choked-packet count byte
    packet.extend_from_slice(&w.content);
    let r = s.decode(&packet);
    assert_eq!(r.status, DecodeStatus::Accepted);
    assert_eq!(r.messages.len(), 1);
}

#[test]
fn decode_reliable_single_block_dispatches_object() {
    // The reassembled object holds one StringCmd message.
    let mut obj = BitWriter::new(Vec::new());
    obj.write_u8(5, 6); // string command opcode
    obj.write_string(&b"hi".to_vec());
    let object = obj.content; // 4 bytes

    let mut w = BitWriter::new(Vec::new());
    w.write_u8(0, 3); // sub-channel index
    w.write_u8(1, 1); // stream 0 has data
    w.write_u8(0, 1); // single block
    w.write_u8(0, 1); // not compressed
    w.write_u32(object.len() as u32, 18);
    for &b in &object {
        w.write_u8(b, 8);
    }
    w.write_u8(0, 1); // stream 1 has no data

    let mut packet = header_bytes(1); // RELIABLE
    packet.extend_from_slice(&w.content);

    let mut s = SessionState::new();
    let r = s.decode(&packet);
    assert_eq!(r.status, DecodeStatus::Accepted);
    assert_eq!(r.fault, None);
    assert_eq!(r.messages.len(), 1);
    match &r.messages[0] {
        DecodedMessage::StringCmd(m) => assert_eq!(m.command, b"hi".to_vec()),
        _ => panic!("expected a string command"),
    }
    // The completed buffer was drained and cleared.
    assert!(s.streams[0].buffer.is_empty());
    assert_eq!(s.streams[0].acked_fragments, s.streams[0].num_fragments);
}

#[test]
fn decode_reliable_rejection_restores_session() {
    // First, a partial object on stream 0.
    let all = payload_bytes(0, 700);
    let mut w = BitWriter::new(Vec::new());
    w.write_u8(0, 3);
    w.write_u8(1, 1); // stream 0 has data
    for &b in &multi_fragment(0, 1, Some(700), &all[0..256]) {
        w.write_u8(b, 8);
    }
    w.write_u8(0, 1); // stream 1 idle
    let mut packet = header_bytes(1);
    packet.extend_from_slice(&w.content);
    let mut s = SessionState::new();
    let r = s.decode(&packet);
    assert_eq!(r.status, DecodeStatus::Accepted);
    assert_eq!(s.streams[0].acked_fragments, 1);
    let buffer_before = s.streams[0].buffer.clone();

    // Then a packet whose fragment violates the range invariant.
    let mut w2 = BitWriter::new(Vec::new());
    w2.write_u8(0, 3);
    w2.write_u8(1, 1);
    for &b in &multi_fragment(2, 3, None, &payload_bytes(0, 768)) {
        w2.write_u8(b, 8);
    }
    w2.write_u8(0, 1);
    let mut packet2 = header_bytes(1);
    packet2.extend_from_slice(&w2.content);
    let r2 = s.decode(&packet2);
    assert_eq!(r2.status, DecodeStatus::Rejected);
    assert_eq!(r2.fault, Some(DecodeFault::StructuralInvariantViolation));
    assert_eq!(s.streams[0].buffer, buffer_before);
    assert_eq!(s.streams[0].acked_fragments, 1);
}

#[test]
fn baseline_persists_across_packets() {
    let mut s = SessionState::new();

    let mut w = BitWriter::new(Vec::new());
    w.write_u8(9, 6); // move opcode
    w.write_u8(1, 4);
    w.write_u8(0, 3);
    w.write_u16(45, 16);
    w.write_u8(1, 1);
    w.write_u32(50, 32);
    for _ in 0..12 {
        w.write_u8(0, 1);
    }
    let mut packet = header_bytes(0);
    packet.extend_from_slice(&w.content);
    let r = s.decode(&packet);
    assert_eq!(r.status, DecodeStatus::Accepted);
    assert_eq!(s.baseline.command_number, 50);

    // A second move with both presence bits clear advances from 50.
    let mut w2 = BitWriter::new(Vec::new());
    w2.write_u8(9, 6);
    w2.write_u8(1, 4);
    w2.write_u8(0, 3);
    w2.write_u16(13, 16);
    for _ in 0..13 {
        w2.write_u8(0, 1);
    }
    let mut packet2 = header_bytes(0);
    packet2.extend_from_slice(&w2.content);
    let r2 = s.decode(&packet2);
    assert_eq!(r2.status, DecodeStatus::Accepted);
    assert_eq!(s.baseline.command_number, 51);
    match &r2.messages[0] {
        DecodedMessage::Move(m) => assert_eq!(m.user_cmd.command_number, 51),
        _ => panic!("expected a move"),
    }
}
