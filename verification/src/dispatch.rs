//! The message dispatch loop: while at least 6 bits remain, read a 6-bit
//! opcode and route to the matching decoder. Control opcodes 0 to 2 are
//! handled inline; an opcode outside the known set stops this buffer only,
//! and messages decoded earlier in the same call remain valid.

use vstd::prelude::*;
use crate::bits::bits_value;
use crate::bitreader::{BitReader, str_ok, str_bytes, str_end};
use crate::fault::DecodeFault;
use crate::messages::{
    CLCBaselineAck, CLCClientInfo, CLCListenEvents, CLCLoadingProgress, CLCMove, CUserCmd,
    ClientInfoV, CmdKeyValues, ConVar, KvEntry, KvEntryV, NETSetConVar, NETSignonState,
    NETStringCmd, NETTick, SignonStateV, sp_baseline_ack, sp_client_info, sp_cmd_key_values,
    sp_listen_events, sp_loading_progress, sp_move, sp_setconvar, sp_signon_state, sp_stringcmd,
    sp_tick, NET_TICK, NET_STRINGCMD, NET_SETCONVAR, NET_SIGNONSTATE, CLC_CLIENTINFO, CLC_MOVE,
    CLC_BASELINEACK, CLC_LISTENEVENTS, CLC_LOADINGPROGRESS, CLC_CMDKEYVALUES,
};

verus! {

/// One decoded message, tagged by its opcode.
pub enum DecodedMessage {
    Disconnect(Vec<u8>),
    File { transfer_id: u32, filename: Vec<u8>, granted: bool },
    Tick(NETTick),
    StringCmd(NETStringCmd),
    SetConVar(NETSetConVar),
    SignonState(NETSignonState),
    ClientInfo(CLCClientInfo),
    Move(CLCMove),
    BaselineAck(CLCBaselineAck),
    ListenEvents(CLCListenEvents),
    LoadingProgress(CLCLoadingProgress),
    KeyValues(CmdKeyValues),
}

/// The spec-level form of a decoded message.
pub enum MessageV {
    Disconnect(Seq<u8>),
    File { transfer_id: u32, filename: Seq<u8>, granted: bool },
    Tick(NETTick),
    StringCmd(Seq<u8>),
    SetConVar(Seq<(Seq<u8>, Seq<u8>)>),
    SignonState(SignonStateV),
    ClientInfo(ClientInfoV),
    Move(CLCMove),
    BaselineAck(CLCBaselineAck),
    ListenEvents(Seq<u32>),
    LoadingProgress(CLCLoadingProgress),
    KeyValues(Seq<KvEntryV>),
}

impl View for DecodedMessage {
    type V = MessageV;

    open spec fn view(&self) -> MessageV {
        match self {
            DecodedMessage::Disconnect(reason) => MessageV::Disconnect(reason@),
            DecodedMessage::File { transfer_id, filename, granted } => MessageV::File {
                transfer_id: *transfer_id,
                filename: filename@,
                granted: *granted,
            },
            DecodedMessage::Tick(m) => MessageV::Tick(*m),
            DecodedMessage::StringCmd(m) => MessageV::StringCmd(m.command@),
            DecodedMessage::SetConVar(m) => MessageV::SetConVar(
                m.convars@.map_values(|cv: ConVar| (cv.name@, cv.value@)),
            ),
            DecodedMessage::SignonState(m) => MessageV::SignonState(
                SignonStateV {
                    n_signon_state: m.n_signon_state,
                    n_spawn_count: m.n_spawn_count,
                    idk1: m.idk1,
                    idk2_buf: m.idk2_buf@,
                    idk3_buf: m.idk3_buf@,
                },
            ),
            DecodedMessage::ClientInfo(m) => MessageV::ClientInfo(
                ClientInfoV {
                    n_server_count: m.n_server_count,
                    n_send_table_crc: m.n_send_table_crc,
                    b_is_hltv: m.b_is_hltv,
                    n_friends_id: m.n_friends_id,
                    friends_name: m.friends_name@,
                    n_custom_files: m.n_custom_files@,
                },
            ),
            DecodedMessage::Move(m) => MessageV::Move(*m),
            DecodedMessage::BaselineAck(m) => MessageV::BaselineAck(*m),
            DecodedMessage::ListenEvents(m) => MessageV::ListenEvents(m.events@),
            DecodedMessage::LoadingProgress(m) => MessageV::LoadingProgress(*m),
            DecodedMessage::KeyValues(m) => MessageV::KeyValues(
                m.entries@.map_values(|e: KvEntry| e@),
            ),
        }
    }
}

/// How a dispatch pass over one buffer ended.
#[derive(Clone, Copy, Debug, PartialEq, Eq, Structural)]
pub enum DispatchOutcome {
    /// Fewer than 6 bits remained: the buffer is exhausted.
    Completed,
    /// A disconnect message was read: processing stops and signals teardown.
    Disconnected,
    /// A fault stopped this buffer; messages decoded before it stand.
    Halted(DecodeFault),
}

pub open spec fn clamp_end(c: Seq<u8>, q: int) -> int {
    if q <= 8 * c.len() {
        q
    } else {
        8 * c.len() as int
    }
}

/// What handling one opcode does: either the loop continues (with at most
/// one decoded message, the next bit position, and the possibly updated
/// baseline), or the pass finishes with its final messages and outcome.
pub enum StepRes {
    Continue(Option<MessageV>, int, CUserCmd),
    Finish(Seq<MessageV>, DispatchOutcome),
}

/// Handling of the single opcode `op` whose body starts at bit `p`.
pub open spec fn sp_step(c: Seq<u8>, p: int, op: u8, b: CUserCmd) -> StepRes {
    if op == 0 {
        StepRes::Continue(None, p, b)
    } else if op == 1 {
        if !str_ok(c, p) {
            StepRes::Finish(Seq::empty(), DispatchOutcome::Halted(DecodeFault::TruncatedRead))
        } else {
            StepRes::Finish(
                seq![MessageV::Disconnect(str_bytes(c, p))],
                DispatchOutcome::Disconnected,
            )
        }
    } else if op == 2 {
        if p + 32 > 8 * c.len() || !str_ok(c, p + 32) || str_end(c, p + 32) + 1 > 8 * c.len() {
            StepRes::Finish(Seq::empty(), DispatchOutcome::Halted(DecodeFault::TruncatedRead))
        } else {
            StepRes::Continue(
                Some(
                    MessageV::File {
                        transfer_id: bits_value(c, p, 32) as u32,
                        filename: str_bytes(c, p + 32),
                        granted: bits_value(c, str_end(c, p + 32), 1) == 1,
                    },
                ),
                str_end(c, p + 32) + 1,
                b,
            )
        }
    } else if op == NET_TICK {
        match sp_tick(c, p) {
            Ok(t) => StepRes::Continue(Some(MessageV::Tick(t.0)), t.1, b),
            Err(f) => StepRes::Finish(Seq::empty(), DispatchOutcome::Halted(f)),
        }
    } else if op == NET_STRINGCMD {
        match sp_stringcmd(c, p) {
            Ok(t) => StepRes::Continue(Some(MessageV::StringCmd(t.0)), t.1, b),
            Err(f) => StepRes::Finish(Seq::empty(), DispatchOutcome::Halted(f)),
        }
    } else if op == NET_SETCONVAR {
        match sp_setconvar(c, p) {
            Ok(t) => StepRes::Continue(Some(MessageV::SetConVar(t.0)), t.1, b),
            Err(f) => StepRes::Finish(Seq::empty(), DispatchOutcome::Halted(f)),
        }
    } else if op == NET_SIGNONSTATE {
        match sp_signon_state(c, p) {
            Ok(t) => StepRes::Continue(Some(MessageV::SignonState(t.0)), t.1, b),
            Err(f) => StepRes::Finish(Seq::empty(), DispatchOutcome::Halted(f)),
        }
    } else if op == CLC_CLIENTINFO {
        match sp_client_info(c, p) {
            Ok(t) => StepRes::Continue(Some(MessageV::ClientInfo(t.0)), t.1, b),
            Err(f) => StepRes::Finish(Seq::empty(), DispatchOutcome::Halted(f)),
        }
    } else if op == CLC_MOVE {
        match sp_move(c, p, b) {
            Ok(t) => StepRes::Continue(Some(MessageV::Move(t.0)), t.1, t.0.user_cmd),
            Err(f) => StepRes::Finish(Seq::empty(), DispatchOutcome::Halted(f)),
        }
    } else if op == CLC_BASELINEACK {
        match sp_baseline_ack(c, p) {
            Ok(t) => StepRes::Continue(Some(MessageV::BaselineAck(t.0)), t.1, b),
            Err(f) => StepRes::Finish(Seq::empty(), DispatchOutcome::Halted(f)),
        }
    } else if op == CLC_LISTENEVENTS {
        match sp_listen_events(c, p) {
            Ok(t) => StepRes::Continue(Some(MessageV::ListenEvents(t.0)), t.1, b),
            Err(f) => StepRes::Finish(Seq::empty(), DispatchOutcome::Halted(f)),
        }
    } else if op == CLC_LOADINGPROGRESS {
        match sp_loading_progress(c, p) {
            Ok(t) => StepRes::Continue(Some(MessageV::LoadingProgress(t.0)), t.1, b),
            Err(f) => StepRes::Finish(Seq::empty(), DispatchOutcome::Halted(f)),
        }
    } else if op == CLC_CMDKEYVALUES {
        match sp_cmd_key_values(c, p) {
            Ok(t) => StepRes::Continue(Some(MessageV::KeyValues(t.0)), t.1, b),
            Err(f) => StepRes::Finish(Seq::empty(), DispatchOutcome::Halted(f)),
        }
    } else {
        StepRes::Finish(Seq::empty(), DispatchOutcome::Halted(DecodeFault::UnknownMessageType))
    }
}

/// The dispatch loop over the buffer `c` from bit `pos`, with delta
/// baseline `b`: the messages decoded in order, how the pass ended, and
/// the baseline after every decoded move.
pub open spec fn sp_dispatch(c: Seq<u8>, pos: int, b: CUserCmd) -> (Seq<MessageV>, DispatchOutcome, CUserCmd)
    decreases 8 * c.len() - pos when 0 <= pos
{
    if pos + 6 > 8 * c.len() {
        (Seq::empty(), DispatchOutcome::Completed, b)
    } else {
        match sp_step(c, pos + 6, bits_value(c, pos, 6) as u8, b) {
            StepRes::Finish(msgs, oc) => (msgs, oc, b),
            StepRes::Continue(om, q, b2) => {
                let rest = sp_dispatch(c, if clamp_end(c, q) >= pos + 6 { clamp_end(c, q) } else { pos + 6 }, b2);
                (
                    match om {
                        Option::Some(m) => seq![m] + rest.0,
                        Option::None => rest.0,
                    },
                    rest.1,
                    rest.2,
                )
            },
        }
    }
}

/// A control message: NOP, disconnect with a reason string, or a file
/// request/denial. Returns the message decoded, if any, and whether
/// processing may continue.
pub fn process_control_message(command: u8, reader: &mut BitReader) -> (r: Result<
    (Option<DecodedMessage>, bool),
    DecodeFault,
>)
    requires
        old(reader).wf(),
        command <= 2,
    ensures
        final(reader).wf(),
        final(reader).content@ == old(reader).content@,
        old(reader).pos <= final(reader).pos,
        ({
            let c = old(reader).content@;
            let p = old(reader).pos as int;
            match r {
                Ok(t) => {
                    &&& (command == 0 ==> t == (Option::<DecodedMessage>::None, true)
                        && final(reader).pos == old(reader).pos)
                    &&& (command == 1 ==> str_ok(c, p) && !t.1
                        && (t.0 matches Some(m) && m@ == MessageV::Disconnect(str_bytes(c, p))))
                    &&& (command == 2 ==> p + 32 <= 8 * c.len() && str_ok(c, p + 32)
                        && str_end(c, p + 32) + 1 <= 8 * c.len() && t.1
                        && (t.0 matches Some(m) && m@ == (MessageV::File {
                            transfer_id: bits_value(c, p, 32) as u32,
                            filename: str_bytes(c, p + 32),
                            granted: bits_value(c, str_end(c, p + 32), 1) == 1,
                        }))
                        && final(reader).pos as int == str_end(c, p + 32) + 1)
                },
                Err(f) => {
                    &&& f == DecodeFault::TruncatedRead
                    &&& command != 0
                    &&& (command == 1 ==> !str_ok(c, p))
                    &&& (command == 2 ==> p + 32 > 8 * c.len() || !str_ok(c, p + 32)
                        || str_end(c, p + 32) + 1 > 8 * c.len())
                },
            }
        }),
{
    if command == 0 {
        return Ok((None, true));
    }
    if command == 1 {
        let reason = match reader.read_string() {
            Ok(s) => s,
            Err(f) => { return Err(f); },
        };
        return Ok((Some(DecodedMessage::Disconnect(reason)), false));
    }
    if reader.bits_left() < 32 {
        return Err(DecodeFault::TruncatedRead);
    }
    let transfer_id = reader.read_u32(32);
    let filename = match reader.read_string() {
        Ok(s) => s,
        Err(f) => { return Err(f); },
    };
    if reader.bits_left() < 1 {
        return Err(DecodeFault::TruncatedRead);
    }
    let granted = reader.read_u8(1) == 1;
    Ok((Some(DecodedMessage::File { transfer_id, filename, granted }), true))
}

/// The executable mirror of one opcode step.
pub enum ExecStep {
    Continue(Option<DecodedMessage>),
    Finish(Vec<DecodedMessage>, DispatchOutcome),
}

#[verifier::rlimit(100)]
#[verifier::spinoff_prover]
fn dispatch_step(command: u8, reader: &mut BitReader, baseline: &mut CUserCmd) -> (r: ExecStep)
    requires
        old(reader).wf(),
    ensures
        final(reader).wf(),
        final(reader).content@ == old(reader).content@,
        old(reader).pos <= final(reader).pos,
        ({
            let sp = sp_step(old(reader).content@, old(reader).pos as int, command, *old(baseline));
            match r {
                ExecStep::Continue(om) => sp matches StepRes::Continue(sm, q, b2)
                    && (match om {
                        Option::Some(m) => sm == Some(m@),
                        Option::None => sm is None,
                    })
                    && q == final(reader).pos as int
                    && *final(baseline) == b2,
                ExecStep::Finish(msgs, oc) => sp matches StepRes::Finish(sm, soc)
                    && msgs@.map_values(|m: DecodedMessage| m@) == sm
                    && oc == soc
                    && *final(baseline) == *old(baseline),
            }
        }),
{
    if command <= 2 {
        match process_control_message(command, reader) {
            Ok((msg, cont)) => {
                if cont {
                    return ExecStep::Continue(msg);
                }
                let mut out: Vec<DecodedMessage> = Vec::new();
                match msg {
                    Some(m) => { out.push(m); },
                    None => {},
                }
                proof {
                    match sp_step(old(reader).content@, old(reader).pos as int, command,
                        *old(baseline)) {
                        StepRes::Finish(sm, _) => {
                            assert(out@.map_values(|m: DecodedMessage| m@) =~= sm);
                        },
                        StepRes::Continue(_, _, _) => {},
                    }
                }
                return ExecStep::Finish(out, DispatchOutcome::Disconnected);
            },
            Err(f) => {
                let out: Vec<DecodedMessage> = Vec::new();
                proof {
                    assert(out@.map_values(|m: DecodedMessage| m@) =~= Seq::<MessageV>::empty());
                }
                return ExecStep::Finish(out, DispatchOutcome::Halted(f));
            },
        }
    }
    let parsed: Result<DecodedMessage, DecodeFault> = if command == NET_TICK {
        match NETTick::parse(reader) {
            Ok(m) => Ok(DecodedMessage::Tick(m)),
            Err(f) => Err(f),
        }
    } else if command == NET_STRINGCMD {
        match NETStringCmd::parse(reader) {
            Ok(m) => Ok(DecodedMessage::StringCmd(m)),
            Err(f) => Err(f),
        }
    } else if command == NET_SETCONVAR {
        match NETSetConVar::parse(reader) {
            Ok(m) => Ok(DecodedMessage::SetConVar(m)),
            Err(f) => Err(f),
        }
    } else if command == NET_SIGNONSTATE {
        match NETSignonState::parse(reader) {
            Ok(m) => Ok(DecodedMessage::SignonState(m)),
            Err(f) => Err(f),
        }
    } else if command == CLC_CLIENTINFO {
        match CLCClientInfo::parse(reader) {
            Ok(m) => Ok(DecodedMessage::ClientInfo(m)),
            Err(f) => Err(f),
        }
    } else if command == CLC_MOVE {
        match CLCMove::parse(reader, baseline) {
            Ok(m) => Ok(DecodedMessage::Move(m)),
            Err(f) => Err(f),
        }
    } else if command == CLC_BASELINEACK {
        match CLCBaselineAck::parse(reader) {
            Ok(m) => Ok(DecodedMessage::BaselineAck(m)),
            Err(f) => Err(f),
        }
    } else if command == CLC_LISTENEVENTS {
        match CLCListenEvents::parse(reader) {
            Ok(m) => Ok(DecodedMessage::ListenEvents(m)),
            Err(f) => Err(f),
        }
    } else if command == CLC_LOADINGPROGRESS {
        match CLCLoadingProgress::parse(reader) {
            Ok(m) => Ok(DecodedMessage::LoadingProgress(m)),
            Err(f) => Err(f),
        }
    } else if command == CLC_CMDKEYVALUES {
        match CmdKeyValues::parse(reader) {
            Ok(m) => Ok(DecodedMessage::KeyValues(m)),
            Err(f) => Err(f),
        }
    } else {
        let out: Vec<DecodedMessage> = Vec::new();
        proof {
            assert(out@.map_values(|m: DecodedMessage| m@) =~= Seq::<MessageV>::empty());
        }
        return ExecStep::Finish(out, DispatchOutcome::Halted(DecodeFault::UnknownMessageType));
    };
    match parsed {
        Ok(m) => ExecStep::Continue(Some(m)),
        Err(f) => {
            let out: Vec<DecodedMessage> = Vec::new();
            proof {
                assert(out@.map_values(|m: DecodedMessage| m@) =~= Seq::<MessageV>::empty());
            }
            ExecStep::Finish(out, DispatchOutcome::Halted(f))
        },
    }
}

/// Walk a completed bit stream: extract 6-bit opcodes and route each to
/// its decoder, mutating the delta baseline as moves are decoded.
#[verifier::rlimit(100)]
#[verifier::spinoff_prover]
pub fn process_messages(reader: &mut BitReader, baseline: &mut CUserCmd) -> (r: (
    Vec<DecodedMessage>,
    DispatchOutcome,
))
    requires
        old(reader).wf(),
    ensures
        final(reader).wf(),
        final(reader).content@ == old(reader).content@,
        ({
            let sp = sp_dispatch(old(reader).content@, old(reader).pos as int, *old(baseline));
            &&& r.0@.map_values(|m: DecodedMessage| m@) == sp.0
            &&& r.1 == sp.1
            &&& *final(baseline) == sp.2
        }),
    decreases 8 * old(reader).content@.len() - old(reader).pos,
{
    let ghost c = reader.content@;
    let ghost pos0 = reader.pos as int;
    let ghost b0 = *baseline;
    if reader.bits_left() < 6 {
        let out: Vec<DecodedMessage> = Vec::new();
        proof {
            assert(out@.map_values(|m: DecodedMessage| m@) =~= Seq::<MessageV>::empty());
        }
        return (out, DispatchOutcome::Completed);
    }
    let command = reader.read_u8(6);
    match dispatch_step(command, reader, baseline) {
        ExecStep::Finish(msgs, oc) => (msgs, oc),
        ExecStep::Continue(om) => {
            let (mut rest, oc) = process_messages(reader, baseline);
            let mut out: Vec<DecodedMessage> = Vec::new();
            match om {
                Some(m) => { out.push(m); },
                None => {},
            }
            out.append(&mut rest);
            proof {
                let sp = sp_dispatch(c, pos0, b0);
                assert(out@.map_values(|m: DecodedMessage| m@) =~= sp.0);
            }
            (out, oc)
        },
    }
}

} // verus!
