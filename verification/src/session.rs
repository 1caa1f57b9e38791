//! The persistent cross-packet state and the per-packet decode entry
//! point. A packet is decoded against the session's two fragment
//! sub-streams and the delta baseline; a structurally rejected packet
//! leaves the session exactly as it was.

use vstd::prelude::*;
use crate::bitreader::BitReader;
use crate::dispatch::{DecodedMessage, DispatchOutcome, MessageV, process_messages, sp_dispatch};
use crate::fault::DecodeFault;
use crate::fragment::{
    DataFragment, DataFragmentV, frag_empty, frag_wf, read_sub_channel_data, sp_subchannel,
};
use crate::frame::{FramedPacket, PACKET_FLAG_RELIABLE, copy_range, parse_packet, sp_frame};
use crate::messages::CUserCmd;
use crate::bits::bits_value;

verus! {

/// How one packet's decode ended.
#[derive(Clone, Copy, Debug, PartialEq, Eq, Structural)]
pub enum DecodeStatus {
    /// The packet was decoded; the session state advanced.
    Accepted,
    /// The connectionless marker: the packet is not netchannel-framed.
    Bypass,
    /// A disconnect message was decoded; the session state advanced.
    Disconnected,
    /// A structural fault: the session state is untouched.
    Rejected,
}

/// What one packet produced: the decoded messages, how the decode ended,
/// and the first buffer-local fault reported, if any.
pub struct DecodeReport {
    pub messages: Vec<DecodedMessage>,
    pub status: DecodeStatus,
    pub fault: Option<DecodeFault>,
}

/// The spec-level session state.
pub struct SessionV {
    pub stream0: DataFragmentV,
    pub stream1: DataFragmentV,
    pub baseline: CUserCmd,
}

/// The persistent, cross-packet state: the two fragment sub-streams and
/// the user-command delta baseline.
pub struct SessionState {
    pub streams: Vec<DataFragment>,
    pub baseline: CUserCmd,
}

impl View for SessionState {
    type V = SessionV;

    open spec fn view(&self) -> SessionV {
        SessionV {
            stream0: self.streams@[0]@,
            stream1: self.streams@[1]@,
            baseline: self.baseline,
        }
    }
}

/// The fragment state with its buffer dropped: the object was drained or
/// abandoned.
pub open spec fn cleared(f: DataFragmentV) -> DataFragmentV {
    DataFragmentV { buffer: Seq::empty(), ..f }
}

/// What checking one sub-stream does: the sub-stream state after the
/// check, the baseline after any dispatched moves, the messages decoded
/// from a completed buffer, whether the channel is still in good standing,
/// and any buffer-local fault to report.
pub open spec fn sp_check(f: DataFragmentV, b: CUserCmd) -> (
    DataFragmentV,
    CUserCmd,
    Seq<MessageV>,
    bool,
    Option<DecodeFault>,
) {
    if f.buffer.len() == 0 {
        (f, b, Seq::empty(), true, None)
    } else if f.acked_fragments < f.num_fragments {
        (f, b, Seq::empty(), true, None)
    } else if f.acked_fragments > f.num_fragments {
        (f, b, Seq::empty(), false, Some(DecodeFault::StructuralInvariantViolation))
    } else if f.is_compressed {
        (cleared(f), b, Seq::empty(), true, Some(DecodeFault::UnimplementedMessageType))
    } else if f.filename is Some {
        (cleared(f), b, Seq::empty(), true, Some(DecodeFault::UnimplementedMessageType))
    } else {
        let d = sp_dispatch(f.buffer.take(f.bytes as int), 0, b);
        match d.1 {
            DispatchOutcome::Disconnected => (f, d.2, d.0, false, None),
            DispatchOutcome::Completed => (cleared(f), d.2, d.0, true, None),
            DispatchOutcome::Halted(fl) => (cleared(f), d.2, d.0, true, Some(fl)),
        }
    }
}

/// Check one sub-stream after this packet's fragments were applied: an
/// empty or still-accumulating buffer is fine; over-acked is corruption;
/// a completed buffer is dispatched and then cleared, except that a
/// compressed or named (file-transfer) object is reported unimplemented.
pub fn check_receiving_list(data: &mut DataFragment, baseline: &mut CUserCmd) -> (r: (
    Vec<DecodedMessage>,
    bool,
    Option<DecodeFault>,
))
    requires
        frag_wf(old(data)@),
    ensures
        frag_wf(final(data)@),
        ({
            let sp = sp_check(old(data)@, *old(baseline));
            &&& final(data)@ == sp.0
            &&& *final(baseline) == sp.1
            &&& r.0@.map_values(|m: DecodedMessage| m@) == sp.2
            &&& r.1 == sp.3
            &&& r.2 == sp.4
        }),
{
    let ghost empty_map = Seq::<DecodedMessage>::empty().map_values(|m: DecodedMessage| m@);
    proof {
        assert(empty_map =~= Seq::<MessageV>::empty());
    }
    if data.buffer.len() == 0 {
        return (Vec::new(), true, None);
    }
    if data.acked_fragments < data.num_fragments {
        return (Vec::new(), true, None);
    }
    if data.acked_fragments > data.num_fragments {
        return (Vec::new(), false, Some(DecodeFault::StructuralInvariantViolation));
    }
    if data.is_compressed {
        data.buffer = Vec::new();
        proof {
            assert(data@.buffer =~= Seq::<u8>::empty());
        }
        return (Vec::new(), true, Some(DecodeFault::UnimplementedMessageType));
    }
    let has_name = match &data.filename {
        Option::Some(_) => true,
        Option::None => false,
    };
    if has_name {
        data.buffer = Vec::new();
        proof {
            assert(data@.buffer =~= Seq::<u8>::empty());
        }
        return (Vec::new(), true, Some(DecodeFault::UnimplementedMessageType));
    }
    proof {
        assert(crate::fragment::round_up4(data@.bytes as int) >= data@.bytes as int);
    }
    let prefix = copy_range(&data.buffer, 0, data.bytes as usize);
    proof {
        assert(prefix@ =~= data@.buffer.take(data@.bytes as int));
    }
    let mut reader = BitReader::new(prefix);
    let (msgs, outcome) = process_messages(&mut reader, baseline);
    match outcome {
        DispatchOutcome::Disconnected => (msgs, false, None),
        DispatchOutcome::Completed => {
            data.buffer = Vec::new();
            proof {
                assert(data@.buffer =~= Seq::<u8>::empty());
            }
            (msgs, true, None)
        },
        DispatchOutcome::Halted(f) => {
            data.buffer = Vec::new();
            proof {
                assert(data@.buffer =~= Seq::<u8>::empty());
            }
            (msgs, true, Some(f))
        },
    }
}

/// The gated sub-stream read: a 1-bit indicator, then that stream's
/// fragment data if present.
pub open spec fn sp_rel_stream(c: Seq<u8>, pos: int, f: DataFragmentV) -> Result<
    (DataFragmentV, int),
    DecodeFault,
> {
    if pos + 1 > 8 * c.len() {
        Err(DecodeFault::TruncatedRead)
    } else if bits_value(c, pos, 1) == 1 {
        sp_subchannel(c, pos + 1, f)
    } else {
        Ok((f, pos + 1))
    }
}

fn rel_stream(reader: &mut BitReader, f: &mut DataFragment) -> (r: Result<(), DecodeFault>)
    requires
        old(reader).wf(),
        frag_wf(old(f)@),
    ensures
        final(reader).wf(),
        final(reader).content@ == old(reader).content@,
        frag_wf(final(f)@),
        match r {
            Ok(()) => sp_rel_stream(old(reader).content@, old(reader).pos as int, old(f)@)
                matches Ok(t) && final(f)@ == t.0 && final(reader).pos as int == t.1,
            Err(e) => sp_rel_stream(old(reader).content@, old(reader).pos as int, old(f)@)
                == Err::<(DataFragmentV, int), DecodeFault>(e)
                && final(f)@ == old(f)@,
        },
{
    if reader.bits_left() < 1 {
        return Err(DecodeFault::TruncatedRead);
    }
    if reader.read_u8(1) == 1 {
        read_sub_channel_data(reader, f)
    } else {
        Ok(())
    }
}

/// An exact copy of a sub-stream state.
fn duplicate_fragment(f: &DataFragment) -> (r: DataFragment)
    ensures
        r@ == f@,
{
    let filename: Option<Vec<u8>> = match &f.filename {
        Option::Some(v) => {
            let c = copy_range(v, 0, v.len());
            proof {
                assert(c@ =~= v@);
            }
            Some(c)
        },
        Option::None => None,
    };
    let buffer = copy_range(&f.buffer, 0, f.buffer.len());
    proof {
        assert(buffer@ =~= f.buffer@);
    }
    DataFragment {
        filename,
        buffer,
        bytes: f.bytes,
        bits: f.bits,
        is_compressed: f.is_compressed,
        num_fragments: f.num_fragments,
        acked_fragments: f.acked_fragments,
    }
}

pub open spec fn sp_halt_fault(oc: DispatchOutcome) -> Option<DecodeFault> {
    match oc {
        DispatchOutcome::Halted(f) => Some(f),
        _ => None,
    }
}

pub open spec fn first_fault(a: Option<DecodeFault>, b: Option<DecodeFault>) -> Option<DecodeFault> {
    if a is Some {
        a
    } else {
        b
    }
}

/// The packet's own trailing payload, dispatched after any reliable
/// sub-stream work.
pub open spec fn sp_decode_tail(
    c: Seq<u8>,
    pos: int,
    s: SessionV,
    msgs: Seq<MessageV>,
    fault: Option<DecodeFault>,
) -> (SessionV, Seq<MessageV>, DecodeStatus, Option<DecodeFault>) {
    let d = sp_dispatch(c, pos, s.baseline);
    (
        SessionV { baseline: d.2, ..s },
        msgs + d.0,
        match d.1 {
            DispatchOutcome::Disconnected => DecodeStatus::Disconnected,
            _ => DecodeStatus::Accepted,
        },
        first_fault(fault, sp_halt_fault(d.1)),
    )
}

/// What the two gated fragment reads and the two buffer checks do:
/// reject the packet (session untouched), stop on a disconnect, or go on
/// to the trailing payload at the given bit position.
pub enum RelPhaseV {
    Go(DataFragmentV, DataFragmentV, CUserCmd, Seq<MessageV>, Option<DecodeFault>, int),
    Stop(DataFragmentV, DataFragmentV, CUserCmd, Seq<MessageV>, Option<DecodeFault>),
    Reject(DecodeFault),
}

pub open spec fn sp_rel_phase(c: Seq<u8>, pos: int, f0: DataFragmentV, f1: DataFragmentV, b: CUserCmd) -> RelPhaseV {
    match sp_rel_stream(c, pos, f0) {
        Err(f) => RelPhaseV::Reject(f),
        Ok(t0) => match sp_rel_stream(c, t0.1, f1) {
            Err(f) => RelPhaseV::Reject(f),
            Ok(t1) => {
                let k0 = sp_check(t0.0, b);
                if !k0.3 {
                    if k0.4 is Some {
                        RelPhaseV::Reject(DecodeFault::StructuralInvariantViolation)
                    } else {
                        RelPhaseV::Stop(k0.0, t1.0, k0.1, k0.2, None)
                    }
                } else {
                    let k1 = sp_check(t1.0, k0.1);
                    if !k1.3 {
                        if k1.4 is Some {
                            RelPhaseV::Reject(DecodeFault::StructuralInvariantViolation)
                        } else {
                            RelPhaseV::Stop(k0.0, k1.0, k1.1, k0.2 + k1.2, k0.4)
                        }
                    } else {
                        RelPhaseV::Go(k0.0, k1.0, k1.1, k0.2 + k1.2, first_fault(k0.4, k1.4), t1.1)
                    }
                }
            },
        },
    }
}

/// The reliable path: a 3-bit sub-channel index, the two gated fragment
/// reads, the two buffer checks, then the trailing payload. Any
/// structural fault rejects the packet with the session unchanged.
pub open spec fn sp_decode_reliable(c: Seq<u8>, s: SessionV) -> (
    SessionV,
    Seq<MessageV>,
    DecodeStatus,
    Option<DecodeFault>,
) {
    if 3 > 8 * c.len() {
        (s, Seq::empty(), DecodeStatus::Rejected, Some(DecodeFault::TruncatedRead))
    } else {
        match sp_rel_phase(c, 3, s.stream0, s.stream1, s.baseline) {
            RelPhaseV::Reject(f) => (s, Seq::empty(), DecodeStatus::Rejected, Some(f)),
            RelPhaseV::Stop(f0, f1, b, msgs, fault) => (
                SessionV { stream0: f0, stream1: f1, baseline: b },
                msgs,
                DecodeStatus::Disconnected,
                fault,
            ),
            RelPhaseV::Go(f0, f1, b, msgs, fault, q) => sp_decode_tail(
                c,
                q,
                SessionV { stream0: f0, stream1: f1, baseline: b },
                msgs,
                fault,
            ),
        }
    }
}

/// The executable mirror of the reliable phase's outcome.
pub enum RelPhase {
    Go(Vec<DecodedMessage>, Option<DecodeFault>),
    Stop(Vec<DecodedMessage>, Option<DecodeFault>),
    Reject(DecodeFault),
}

/// Run the two gated fragment reads and the two buffer checks. On
/// rejection every piece of state handed in is restored exactly.
#[verifier::rlimit(100)]
#[verifier::spinoff_prover]
fn reliable_phase(
    reader: &mut BitReader,
    f0: &mut DataFragment,
    f1: &mut DataFragment,
    baseline: &mut CUserCmd,
) -> (r: RelPhase)
    requires
        old(reader).wf(),
        frag_wf(old(f0)@),
        frag_wf(old(f1)@),
    ensures
        final(reader).wf(),
        final(reader).content@ == old(reader).content@,
        frag_wf(final(f0)@),
        frag_wf(final(f1)@),
        ({
            let sp = sp_rel_phase(old(reader).content@, old(reader).pos as int, old(f0)@,
                old(f1)@, *old(baseline));
            match r {
                RelPhase::Reject(f) => sp == RelPhaseV::Reject(f)
                    && final(f0)@ == old(f0)@
                    && final(f1)@ == old(f1)@
                    && *final(baseline) == *old(baseline),
                RelPhase::Stop(msgs, fault) => sp matches RelPhaseV::Stop(s0, s1, sb, sm, sf)
                    && final(f0)@ == s0
                    && final(f1)@ == s1
                    && *final(baseline) == sb
                    && msgs@.map_values(|m: DecodedMessage| m@) == sm
                    && fault == sf,
                RelPhase::Go(msgs, fault) => sp matches RelPhaseV::Go(s0, s1, sb, sm, sf, q)
                    && final(f0)@ == s0
                    && final(f1)@ == s1
                    && *final(baseline) == sb
                    && msgs@.map_values(|m: DecodedMessage| m@) == sm
                    && fault == sf
                    && final(reader).pos as int == q,
            }
        }),
{
    let ghost empty_map = Seq::<DecodedMessage>::empty().map_values(|m: DecodedMessage| m@);
    proof {
        assert(empty_map =~= Seq::<MessageV>::empty());
    }
    let keep0 = duplicate_fragment(f0);
    let keep1 = duplicate_fragment(f1);
    let keep_b = *baseline;
    match rel_stream(reader, f0) {
        Ok(()) => {},
        Err(e) => {
            return RelPhase::Reject(e);
        },
    }
    match rel_stream(reader, f1) {
        Ok(()) => {},
        Err(e) => {
            *f0 = keep0;
            return RelPhase::Reject(e);
        },
    }
    let (msgs0, ready0, fault0) = check_receiving_list(f0, baseline);
    if !ready0 {
        match fault0 {
            Some(_) => {
                *f0 = keep0;
                *f1 = keep1;
                *baseline = keep_b;
                return RelPhase::Reject(DecodeFault::StructuralInvariantViolation);
            },
            None => {
                return RelPhase::Stop(msgs0, None);
            },
        }
    }
    let (msgs1, ready1, fault1) = check_receiving_list(f1, baseline);
    let mut out = msgs0;
    let mut rest = msgs1;
    out.append(&mut rest);
    if !ready1 {
        match fault1 {
            Some(_) => {
                *f0 = keep0;
                *f1 = keep1;
                *baseline = keep_b;
                return RelPhase::Reject(DecodeFault::StructuralInvariantViolation);
            },
            None => {
                proof {
                    match sp_rel_phase(old(reader).content@, old(reader).pos as int, old(f0)@,
                        old(f1)@, *old(baseline)) {
                        RelPhaseV::Stop(_, _, _, sm, _) => {
                            assert(out@.map_values(|m: DecodedMessage| m@) =~= sm);
                        },
                        _ => {},
                    }
                }
                return RelPhase::Stop(out, fault0);
            },
        }
    }
    let fault = match fault0 {
        Some(e) => Some(e),
        None => fault1,
    };
    proof {
        match sp_rel_phase(old(reader).content@, old(reader).pos as int, old(f0)@, old(f1)@,
            *old(baseline)) {
            RelPhaseV::Go(_, _, _, sm, _, _) => {
                assert(out@.map_values(|m: DecodedMessage| m@) =~= sm);
            },
            _ => {},
        }
    }
    RelPhase::Go(out, fault)
}

/// One packet, decoded against the session state.
pub open spec fn sp_decode(s: SessionV, packet: Seq<u8>) -> (
    SessionV,
    Seq<MessageV>,
    DecodeStatus,
    Option<DecodeFault>,
) {
    match sp_frame(packet) {
        Err(f) => (s, Seq::empty(), DecodeStatus::Rejected, Some(f)),
        Ok(FramedPacket::Bypass) => (s, Seq::empty(), DecodeStatus::Bypass, None),
        Ok(FramedPacket::Framed { header, payload_start }) => {
            let c = packet.skip(payload_start as int);
            if header.flags & PACKET_FLAG_RELIABLE != 0 {
                sp_decode_reliable(c, s)
            } else {
                sp_decode_tail(c, 0, s, Seq::empty(), None)
            }
        },
    }
}

impl SessionState {
    pub open spec fn wf(&self) -> bool {
        &&& self.streams@.len() == 2
        &&& frag_wf(self.streams@[0]@)
        &&& frag_wf(self.streams@[1]@)
    }

    /// A fresh session: both sub-streams idle, the baseline all zero.
    pub fn new() -> (r: SessionState)
        ensures
            r.wf(),
            r@.stream0 == frag_empty(),
            r@.stream1 == frag_empty(),
            r@.baseline == CUserCmd::zero(),
    {
        let mut streams: Vec<DataFragment> = Vec::new();
        streams.push(Default::default());
        streams.push(Default::default());
        SessionState { streams, baseline: Default::default() }
    }

    /// Decode one packet in arrival order. The packet bytes are read,
    /// never mutated; a rejected packet leaves the whole session state
    /// exactly as it was before the packet was seen.
    #[verifier::rlimit(100)]
    #[verifier::spinoff_prover]
    pub fn decode(&mut self, packet: &Vec<u8>) -> (r: DecodeReport)
        requires
            old(self).wf(),
            8 * packet@.len() + 64 <= usize::MAX,
        ensures
            final(self).wf(),
            ({
                let sp = sp_decode(old(self)@, packet@);
                &&& final(self)@ == sp.0
                &&& r.messages@.map_values(|m: DecodedMessage| m@) == sp.1
                &&& r.status == sp.2
                &&& r.fault == sp.3
            }),
    {
        let ghost s0 = self@;
        let ghost empty_map = Seq::<DecodedMessage>::empty().map_values(|m: DecodedMessage| m@);
        proof {
            assert(empty_map =~= Seq::<MessageV>::empty());
        }
        let framed = match parse_packet(packet) {
            Err(f) => {
                return DecodeReport {
                    messages: Vec::new(),
                    status: DecodeStatus::Rejected,
                    fault: Some(f),
                };
            },
            Ok(FramedPacket::Bypass) => {
                return DecodeReport {
                    messages: Vec::new(),
                    status: DecodeStatus::Bypass,
                    fault: None,
                };
            },
            Ok(FramedPacket::Framed { header, payload_start }) => (header, payload_start),
        };
        let header = framed.0;
        let payload_start = framed.1;
        let payload = copy_range(packet, payload_start, packet.len());
        proof {
            assert(payload@ =~= packet@.skip(payload_start as int));
        }
        let mut reader = BitReader::new(payload);
        let mut msgs: Vec<DecodedMessage> = Vec::new();
        let mut fault: Option<DecodeFault> = None;
        if header.flags & PACKET_FLAG_RELIABLE != 0 {
            if reader.bits_left() < 3 {
                return DecodeReport {
                    messages: Vec::new(),
                    status: DecodeStatus::Rejected,
                    fault: Some(DecodeFault::TruncatedRead),
                };
            }
            let _subchannel_index = reader.read_u8(3);
            let mut f0 = self.streams.remove(0);
            let mut f1 = self.streams.remove(0);
            match reliable_phase(&mut reader, &mut f0, &mut f1, &mut self.baseline) {
                RelPhase::Reject(e) => {
                    self.streams.push(f0);
                    self.streams.push(f1);
                    proof {
                        assert(self@ == s0);
                    }
                    return DecodeReport {
                        messages: Vec::new(),
                        status: DecodeStatus::Rejected,
                        fault: Some(e),
                    };
                },
                RelPhase::Stop(m, fl) => {
                    self.streams.push(f0);
                    self.streams.push(f1);
                    return DecodeReport {
                        messages: m,
                        status: DecodeStatus::Disconnected,
                        fault: fl,
                    };
                },
                RelPhase::Go(m, fl) => {
                    self.streams.push(f0);
                    self.streams.push(f1);
                    msgs = m;
                    fault = fl;
                },
            }
        }
        let (mut msgs2, outcome) = process_messages(&mut reader, &mut self.baseline);
        msgs.append(&mut msgs2);
        let status = match outcome {
            DispatchOutcome::Disconnected => DecodeStatus::Disconnected,
            _ => DecodeStatus::Accepted,
        };
        let fault_out = match fault {
            Some(e) => Some(e),
            None => match outcome {
                DispatchOutcome::Halted(e) => Some(e),
                _ => None,
            },
        };
        proof {
            let sp = sp_decode(s0, packet@);
            assert(msgs@.map_values(|m: DecodedMessage| m@) =~= sp.1);
        }
        DecodeReport { messages: msgs, status, fault: fault_out }
    }
}

} // verus!
