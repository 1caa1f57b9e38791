//! The per-message-type body decoders. Each message type has a spec-level
//! parser over the byte buffer and a bit position, and an executable
//! `parse` proved to return exactly what the spec parser says. Values the
//! wire carries as IEEE-754 bit patterns are kept as their raw bits.

use vstd::prelude::*;
use crate::bits::bits_value;
use crate::bitreader::{BitReader, extract_bits, str_ok, str_bytes, str_end};
use crate::fault::DecodeFault;

verus! {

pub const NET_NOP: u8 = 0;
pub const NET_TICK: u8 = 4;
pub const NET_STRINGCMD: u8 = 5;
pub const NET_SETCONVAR: u8 = 6;
pub const NET_SIGNONSTATE: u8 = 7;

pub const CLC_CLIENTINFO: u8 = 8;
pub const CLC_MOVE: u8 = 9;
pub const CLC_BASELINEACK: u8 = 11;
pub const CLC_LISTENEVENTS: u8 = 12;
pub const CLC_LOADINGPROGRESS: u8 = 16;
pub const CLC_CMDKEYVALUES: u8 = 18;

/// The value of `v` reinterpreted as a two's-complement 32-bit integer.
pub open spec fn as_i32(v: nat) -> i32 {
    if v < 0x8000_0000 {
        v as i32
    } else {
        (v - 0x1_0000_0000) as i32
    }
}

/// The value of `v` reinterpreted as a two's-complement 16-bit integer.
pub open spec fn as_i16(v: nat) -> i16 {
    if v < 0x8000 {
        v as i16
    } else {
        (v - 0x1_0000) as i16
    }
}

/// `x + 1` with two's-complement wraparound.
pub open spec fn wrap_inc_i32(x: i32) -> i32 {
    if x == i32::MAX {
        i32::MIN
    } else {
        (x + 1) as i32
    }
}

pub fn u32_to_i32(v: u32) -> (r: i32)
    ensures
        r == as_i32(v as nat),
{
    proof {
        assert(v as i32 == as_i32(v as nat)) by (bit_vector);
    }
    #[verifier::truncate] (v as i32)
}

pub fn u16_to_i16(v: u16) -> (r: i16)
    ensures
        r == as_i16(v as nat),
{
    proof {
        assert(v as i16 == as_i16(v as nat)) by (bit_vector);
    }
    #[verifier::truncate] (v as i16)
}

pub fn wrap_inc(x: i32) -> (r: i32)
    ensures
        r == wrap_inc_i32(x),
{
    if x == i32::MAX {
        i32::MIN
    } else {
        x + 1
    }
}

/// A client input sample. The wire sends view angles and movement axes as
/// IEEE-754 bit patterns; they are kept here as the raw 32-bit values.
#[derive(Clone, Copy, Debug, PartialEq, Eq, Structural)]
pub struct QAngle {
    pub x: u32,
    pub y: u32,
    pub z: u32,
}

#[derive(Clone, Copy, Debug, PartialEq, Eq, Structural)]
pub struct CUserCmd {
    pub command_number: i32,
    pub tick_count: i32,
    pub viewangles: QAngle,
    pub forwardmove: u32,
    pub sidemove: u32,
    pub upmove: u32,
    pub buttons: i32,
    pub impulse: u8,
    pub weaponselect: i32,
    pub weaponsubtype: i32,
    pub mousedx: i16,
    pub mousedy: i16,
    pub hasbeenpredicted: bool,
}

impl Default for CUserCmd {
    fn default() -> (r: Self)
        ensures
            r == CUserCmd::zero(),
    {
        CUserCmd {
            command_number: 0,
            tick_count: 0,
            viewangles: QAngle { x: 0, y: 0, z: 0 },
            forwardmove: 0,
            sidemove: 0,
            upmove: 0,
            buttons: 0,
            impulse: 0,
            weaponselect: 0,
            weaponsubtype: 0,
            mousedx: 0,
            mousedy: 0,
            hasbeenpredicted: false,
        }
    }
}

impl CUserCmd {
    pub open spec fn zero() -> CUserCmd {
        CUserCmd {
            command_number: 0,
            tick_count: 0,
            viewangles: QAngle { x: 0, y: 0, z: 0 },
            forwardmove: 0,
            sidemove: 0,
            upmove: 0,
            buttons: 0,
            impulse: 0,
            weaponselect: 0,
            weaponsubtype: 0,
            mousedx: 0,
            mousedy: 0,
            hasbeenpredicted: false,
        }
    }
}

/// A tick announcement. The two frame-time fields are 16-bit fixed-point
/// values; dividing by 100000 yields the time in seconds.
#[derive(Clone, Copy, Debug, PartialEq, Eq, Structural)]
pub struct NETTick {
    pub n_tick: i32,
    pub host_frame_time_raw: u16,
    pub host_frame_time_std_deviation_raw: u16,
}

pub open spec fn sp_tick(c: Seq<u8>, pos: int) -> Result<(NETTick, int), DecodeFault> {
    if pos + 64 <= 8 * c.len() {
        Ok(
            (
                NETTick {
                    n_tick: as_i32(bits_value(c, pos, 32)),
                    host_frame_time_raw: bits_value(c, pos + 32, 16) as u16,
                    host_frame_time_std_deviation_raw: bits_value(c, pos + 48, 16) as u16,
                },
                pos + 64,
            ),
        )
    } else {
        Err(DecodeFault::TruncatedRead)
    }
}

impl NETTick {
    pub fn parse(reader: &mut BitReader) -> (r: Result<NETTick, DecodeFault>)
        requires
            old(reader).wf(),
        ensures
            final(reader).wf(),
            final(reader).content@ == old(reader).content@,
            old(reader).pos <= final(reader).pos,
            match r {
                Ok(m) => sp_tick(old(reader).content@, old(reader).pos as int)
                    == Ok::<(NETTick, int), DecodeFault>((m, final(reader).pos as int)),
                Err(f) => sp_tick(old(reader).content@, old(reader).pos as int)
                    == Err::<(NETTick, int), DecodeFault>(f),
            },
    {
        if reader.bits_left() < 64 {
            return Err(DecodeFault::TruncatedRead);
        }
        let n_tick = u32_to_i32(reader.read_u32(32));
        let host_frame_time_raw = reader.read_u16(16);
        let host_frame_time_std_deviation_raw = reader.read_u16(16);
        Ok(NETTick { n_tick, host_frame_time_raw, host_frame_time_std_deviation_raw })
    }
}

/// A console command string.
pub struct NETStringCmd {
    pub command: Vec<u8>,
}

pub open spec fn sp_stringcmd(c: Seq<u8>, pos: int) -> Result<(Seq<u8>, int), DecodeFault> {
    if str_ok(c, pos) {
        Ok((str_bytes(c, pos), str_end(c, pos)))
    } else {
        Err(DecodeFault::TruncatedRead)
    }
}

impl NETStringCmd {
    pub fn parse(reader: &mut BitReader) -> (r: Result<NETStringCmd, DecodeFault>)
        requires
            old(reader).wf(),
        ensures
            final(reader).wf(),
            final(reader).content@ == old(reader).content@,
            old(reader).pos <= final(reader).pos,
            match r {
                Ok(m) => sp_stringcmd(old(reader).content@, old(reader).pos as int)
                    == Ok::<(Seq<u8>, int), DecodeFault>((m.command@, final(reader).pos as int)),
                Err(f) => sp_stringcmd(old(reader).content@, old(reader).pos as int)
                    == Err::<(Seq<u8>, int), DecodeFault>(f),
            },
    {
        match reader.read_string() {
            Ok(command) => Ok(NETStringCmd { command }),
            Err(f) => Err(f),
        }
    }
}

/// A baseline acknowledgement. The second field is read with only 1 bit
/// where a full value seems expected; this protocol revision is
/// reproduced verbatim, but the width looks like a latent defect upstream.
#[derive(Clone, Copy, Debug, PartialEq, Eq, Structural)]
pub struct CLCBaselineAck {
    pub n_baseline_tick: u32,
    pub n_baseline_nr: u32,
}

pub open spec fn sp_baseline_ack(c: Seq<u8>, pos: int) -> Result<(CLCBaselineAck, int), DecodeFault> {
    if pos + 33 <= 8 * c.len() {
        Ok(
            (
                CLCBaselineAck {
                    n_baseline_tick: bits_value(c, pos, 32) as u32,
                    n_baseline_nr: bits_value(c, pos + 32, 1) as u32,
                },
                pos + 33,
            ),
        )
    } else {
        Err(DecodeFault::TruncatedRead)
    }
}

impl CLCBaselineAck {
    pub fn parse(reader: &mut BitReader) -> (r: Result<CLCBaselineAck, DecodeFault>)
        requires
            old(reader).wf(),
        ensures
            final(reader).wf(),
            final(reader).content@ == old(reader).content@,
            old(reader).pos <= final(reader).pos,
            match r {
                Ok(m) => sp_baseline_ack(old(reader).content@, old(reader).pos as int)
                    == Ok::<(CLCBaselineAck, int), DecodeFault>((m, final(reader).pos as int)),
                Err(f) => sp_baseline_ack(old(reader).content@, old(reader).pos as int)
                    == Err::<(CLCBaselineAck, int), DecodeFault>(f),
            },
    {
        if reader.bits_left() < 33 {
            return Err(DecodeFault::TruncatedRead);
        }
        let n_baseline_tick = reader.read_u32(32);
        let n_baseline_nr = reader.read_u32(1);
        Ok(CLCBaselineAck { n_baseline_tick, n_baseline_nr })
    }
}

/// A loading-progress report: one opaque byte.
#[derive(Clone, Copy, Debug, PartialEq, Eq, Structural)]
pub struct CLCLoadingProgress {
    pub idk: u8,
}

pub open spec fn sp_loading_progress(c: Seq<u8>, pos: int) -> Result<(CLCLoadingProgress, int), DecodeFault> {
    if pos + 8 <= 8 * c.len() {
        Ok((CLCLoadingProgress { idk: bits_value(c, pos, 8) as u8 }, pos + 8))
    } else {
        Err(DecodeFault::TruncatedRead)
    }
}

impl CLCLoadingProgress {
    pub fn parse(reader: &mut BitReader) -> (r: Result<CLCLoadingProgress, DecodeFault>)
        requires
            old(reader).wf(),
        ensures
            final(reader).wf(),
            final(reader).content@ == old(reader).content@,
            old(reader).pos <= final(reader).pos,
            match r {
                Ok(m) => sp_loading_progress(old(reader).content@, old(reader).pos as int)
                    == Ok::<(CLCLoadingProgress, int), DecodeFault>((m, final(reader).pos as int)),
                Err(f) => sp_loading_progress(old(reader).content@, old(reader).pos as int)
                    == Err::<(CLCLoadingProgress, int), DecodeFault>(f),
            },
    {
        if reader.bits_left() < 8 {
            return Err(DecodeFault::TruncatedRead);
        }
        let idk = reader.read_u8(8);
        Ok(CLCLoadingProgress { idk })
    }
}

/// A fixed block of 16 event-mask words.
pub struct CLCListenEvents {
    pub events: Vec<u32>,
}

pub open spec fn sp_listen_events(c: Seq<u8>, pos: int) -> Result<(Seq<u32>, int), DecodeFault> {
    if pos + 512 <= 8 * c.len() {
        Ok((Seq::new(16, |j: int| bits_value(c, pos + 32 * j, 32) as u32), pos + 512))
    } else {
        Err(DecodeFault::TruncatedRead)
    }
}

impl CLCListenEvents {
    pub fn parse(reader: &mut BitReader) -> (r: Result<CLCListenEvents, DecodeFault>)
        requires
            old(reader).wf(),
        ensures
            final(reader).wf(),
            final(reader).content@ == old(reader).content@,
            old(reader).pos <= final(reader).pos,
            match r {
                Ok(m) => sp_listen_events(old(reader).content@, old(reader).pos as int)
                    == Ok::<(Seq<u32>, int), DecodeFault>((m.events@, final(reader).pos as int)),
                Err(f) => sp_listen_events(old(reader).content@, old(reader).pos as int)
                    == Err::<(Seq<u32>, int), DecodeFault>(f),
            },
    {
        if reader.bits_left() < 512 {
            return Err(DecodeFault::TruncatedRead);
        }
        let ghost c = reader.content@;
        let ghost pos0 = reader.pos as int;
        let ghost target = Seq::<u32>::new(16, |j: int| bits_value(c, pos0 + 32 * j, 32) as u32);
        let mut events: Vec<u32> = Vec::new();
        let mut i: usize = 0;
        while i < 16
            invariant
                reader.wf(),
                c == old(reader).content@,
                pos0 == old(reader).pos,
                pos0 + 512 <= 8 * c.len(),
                target == Seq::<u32>::new(16, |j: int| bits_value(c, pos0 + 32 * j, 32) as u32),
                reader.content@ == c,
                i <= 16,
                reader.pos == pos0 + 32 * i,
                events@.len() == i,
                forall|j: int| 0 <= j < i ==> events@[j] == target[j],
            decreases 16 - i,
        {
            let v = reader.read_u32(32);
            events.push(v);
            i = i + 1;
        }
        proof {
            assert(events@ =~= target);
        }
        Ok(CLCListenEvents { events })
    }
}

/// A signon-state change: handshake phase, spawn count, an opaque word,
/// and two length-prefixed opaque byte blocks.
pub struct NETSignonState {
    pub n_signon_state: u8,
    pub n_spawn_count: u32,
    pub idk1: u32,
    pub idk2_buf: Vec<u8>,
    pub idk3_buf: Vec<u8>,
}

/// The spec-level fields of a signon-state message.
pub struct SignonStateV {
    pub n_signon_state: u8,
    pub n_spawn_count: u32,
    pub idk1: u32,
    pub idk2_buf: Seq<u8>,
    pub idk3_buf: Seq<u8>,
}

pub open spec fn sp_signon_state(c: Seq<u8>, pos: int) -> Result<(SignonStateV, int), DecodeFault> {
    if pos + 104 > 8 * c.len() {
        Err(DecodeFault::TruncatedRead)
    } else {
        let len2 = bits_value(c, pos + 72, 32);
        let p2 = pos + 104;
        if p2 + 8 * len2 + 32 > 8 * c.len() {
            Err(DecodeFault::TruncatedRead)
        } else {
            let len3 = bits_value(c, p2 + 8 * len2, 32);
            let p3 = p2 + 8 * len2 + 32;
            if p3 + 8 * len3 > 8 * c.len() {
                Err(DecodeFault::TruncatedRead)
            } else {
                Ok(
                    (
                        SignonStateV {
                            n_signon_state: bits_value(c, pos, 8) as u8,
                            n_spawn_count: bits_value(c, pos + 8, 32) as u32,
                            idk1: bits_value(c, pos + 40, 32) as u32,
                            idk2_buf: extract_bits(c, p2, (8 * len2) as nat),
                            idk3_buf: extract_bits(c, p3, (8 * len3) as nat),
                        },
                        p3 + 8 * len3,
                    ),
                )
            }
        }
    }
}

impl NETSignonState {
    pub fn parse(reader: &mut BitReader) -> (r: Result<NETSignonState, DecodeFault>)
        requires
            old(reader).wf(),
        ensures
            final(reader).wf(),
            final(reader).content@ == old(reader).content@,
            old(reader).pos <= final(reader).pos,
            match r {
                Ok(m) => sp_signon_state(old(reader).content@, old(reader).pos as int)
                    matches Ok(t)
                    && t.0.n_signon_state == m.n_signon_state
                    && t.0.n_spawn_count == m.n_spawn_count
                    && t.0.idk1 == m.idk1
                    && t.0.idk2_buf == m.idk2_buf@
                    && t.0.idk3_buf == m.idk3_buf@
                    && t.1 == final(reader).pos as int,
                Err(f) => sp_signon_state(old(reader).content@, old(reader).pos as int)
                    == Err::<(SignonStateV, int), DecodeFault>(f),
            },
    {
        if reader.bits_left() < 104 {
            return Err(DecodeFault::TruncatedRead);
        }
        let n_signon_state = reader.read_u8(8);
        let n_spawn_count = reader.read_u32(32);
        let idk1 = reader.read_u32(32);
        let idk2_len = reader.read_u32(32);
        if (idk2_len as u64) * 8 + 32 > reader.bits_left() as u64 {
            return Err(DecodeFault::TruncatedRead);
        }
        let idk2_buf = match reader.read_bits_buf((idk2_len as u64 * 8) as usize) {
            Ok(b) => b,
            Err(f) => { return Err(f); },
        };
        let idk3_len = reader.read_u32(32);
        if (idk3_len as u64) * 8 > reader.bits_left() as u64 {
            return Err(DecodeFault::TruncatedRead);
        }
        let idk3_buf = match reader.read_bits_buf((idk3_len as u64 * 8) as usize) {
            Ok(b) => b,
            Err(f) => { return Err(f); },
        };
        Ok(NETSignonState { n_signon_state, n_spawn_count, idk1, idk2_buf, idk3_buf })
    }
}

/// One name/value pair of a convar update.
pub struct ConVar {
    pub name: Vec<u8>,
    pub value: Vec<u8>,
}

/// A batch of convar updates.
pub struct NETSetConVar {
    pub convars: Vec<ConVar>,
}

pub open spec fn sp_convar_pairs(c: Seq<u8>, pos: int, count: nat) -> Result<
    (Seq<(Seq<u8>, Seq<u8>)>, int),
    DecodeFault,
>
    decreases count,
{
    if count == 0 {
        Ok((Seq::empty(), pos))
    } else if !str_ok(c, pos) {
        Err(DecodeFault::TruncatedRead)
    } else {
        let name = str_bytes(c, pos);
        let p1 = str_end(c, pos);
        if !str_ok(c, p1) {
            Err(DecodeFault::TruncatedRead)
        } else {
            let value = str_bytes(c, p1);
            let p2 = str_end(c, p1);
            match sp_convar_pairs(c, p2, (count - 1) as nat) {
                Ok(t) => Ok((seq![(name, value)] + t.0, t.1)),
                Err(f) => Err(f),
            }
        }
    }
}

pub open spec fn sp_setconvar(c: Seq<u8>, pos: int) -> Result<
    (Seq<(Seq<u8>, Seq<u8>)>, int),
    DecodeFault,
> {
    if pos + 8 > 8 * c.len() {
        Err(DecodeFault::TruncatedRead)
    } else {
        sp_convar_pairs(c, pos + 8, bits_value(c, pos, 8))
    }
}

impl NETSetConVar {
    fn parse_pairs(reader: &mut BitReader, count: u8) -> (r: Result<Vec<ConVar>, DecodeFault>)
        requires
            old(reader).wf(),
        ensures
            final(reader).wf(),
            final(reader).content@ == old(reader).content@,
            old(reader).pos <= final(reader).pos,
            match r {
                Ok(v) => sp_convar_pairs(old(reader).content@, old(reader).pos as int, count as nat)
                    matches Ok(t)
                    && t.0.len() == v@.len()
                    && (forall|i: int| 0 <= i < v@.len()
                        ==> t.0[i].0 == v@[i].name@ && t.0[i].1 == v@[i].value@)
                    && t.1 == final(reader).pos as int,
                Err(f) => sp_convar_pairs(old(reader).content@, old(reader).pos as int, count as nat)
                    == Err::<(Seq<(Seq<u8>, Seq<u8>)>, int), DecodeFault>(f),
            },
        decreases count,
    {
        if count == 0 {
            return Ok(Vec::new());
        }
        let name = match reader.read_string() {
            Ok(s) => s,
            Err(f) => { return Err(f); },
        };
        let value = match reader.read_string() {
            Ok(s) => s,
            Err(f) => { return Err(f); },
        };
        let mut rest = match Self::parse_pairs(reader, count - 1) {
            Ok(v) => v,
            Err(f) => { return Err(f); },
        };
        let mut out: Vec<ConVar> = Vec::new();
        out.push(ConVar { name, value });
        out.append(&mut rest);
        Ok(out)
    }

    pub fn parse(reader: &mut BitReader) -> (r: Result<NETSetConVar, DecodeFault>)
        requires
            old(reader).wf(),
        ensures
            final(reader).wf(),
            final(reader).content@ == old(reader).content@,
            old(reader).pos <= final(reader).pos,
            match r {
                Ok(m) => sp_setconvar(old(reader).content@, old(reader).pos as int)
                    matches Ok(t)
                    && t.0 == m.convars@.map_values(|cv: ConVar| (cv.name@, cv.value@))
                    && t.1 == final(reader).pos as int,
                Err(f) => sp_setconvar(old(reader).content@, old(reader).pos as int)
                    == Err::<(Seq<(Seq<u8>, Seq<u8>)>, int), DecodeFault>(f),
            },
    {
        if reader.bits_left() < 8 {
            return Err(DecodeFault::TruncatedRead);
        }
        let numvars = reader.read_u8(8);
        match Self::parse_pairs(reader, numvars) {
            Ok(convars) => {
                proof {
                    match sp_setconvar(old(reader).content@, old(reader).pos as int) {
                        Ok(t) => {
                            assert(t.0 =~= convars@.map_values(|cv: ConVar| (cv.name@, cv.value@)));
                        },
                        Err(_) => {},
                    }
                }
                Ok(NETSetConVar { convars })
            },
            Err(f) => Err(f),
        }
    }
}

/// A client's self-description at connect time.
pub struct CLCClientInfo {
    pub n_server_count: i32,
    pub n_send_table_crc: u32,
    pub b_is_hltv: bool,
    pub n_friends_id: u32,
    pub friends_name: Vec<u8>,
    pub n_custom_files: Vec<u32>,
}

/// The spec-level fields of a client-info message.
pub struct ClientInfoV {
    pub n_server_count: i32,
    pub n_send_table_crc: u32,
    pub b_is_hltv: bool,
    pub n_friends_id: u32,
    pub friends_name: Seq<u8>,
    pub n_custom_files: Seq<u32>,
}

/// Four optional file CRCs, each gated by a presence bit; absent means 0.
pub open spec fn sp_custom_files(c: Seq<u8>, pos: int, k: nat) -> Result<(Seq<u32>, int), DecodeFault>
    decreases k,
{
    if k == 0 {
        Ok((Seq::empty(), pos))
    } else if pos + 1 > 8 * c.len() {
        Err(DecodeFault::TruncatedRead)
    } else if bits_value(c, pos, 1) == 1 {
        if pos + 33 > 8 * c.len() {
            Err(DecodeFault::TruncatedRead)
        } else {
            match sp_custom_files(c, pos + 33, (k - 1) as nat) {
                Ok(t) => Ok((seq![bits_value(c, pos + 1, 32) as u32] + t.0, t.1)),
                Err(f) => Err(f),
            }
        }
    } else {
        match sp_custom_files(c, pos + 1, (k - 1) as nat) {
            Ok(t) => Ok((seq![0u32] + t.0, t.1)),
            Err(f) => Err(f),
        }
    }
}

pub open spec fn sp_client_info(c: Seq<u8>, pos: int) -> Result<(ClientInfoV, int), DecodeFault> {
    if pos + 97 > 8 * c.len() {
        Err(DecodeFault::TruncatedRead)
    } else if !str_ok(c, pos + 97) {
        Err(DecodeFault::TruncatedRead)
    } else {
        let name = str_bytes(c, pos + 97);
        let p = str_end(c, pos + 97);
        match sp_custom_files(c, p, 4) {
            Ok(t) => Ok(
                (
                    ClientInfoV {
                        n_server_count: as_i32(bits_value(c, pos, 32)),
                        n_send_table_crc: bits_value(c, pos + 32, 32) as u32,
                        b_is_hltv: bits_value(c, pos + 64, 1) == 1,
                        n_friends_id: bits_value(c, pos + 65, 32) as u32,
                        friends_name: name,
                        n_custom_files: t.0,
                    },
                    t.1,
                ),
            ),
            Err(f) => Err(f),
        }
    }
}

impl CLCClientInfo {
    fn parse_custom_files(reader: &mut BitReader, k: u8) -> (r: Result<Vec<u32>, DecodeFault>)
        requires
            old(reader).wf(),
        ensures
            final(reader).wf(),
            final(reader).content@ == old(reader).content@,
            old(reader).pos <= final(reader).pos,
            match r {
                Ok(v) => sp_custom_files(old(reader).content@, old(reader).pos as int, k as nat)
                    matches Ok(t)
                    && t.0 == v@
                    && t.1 == final(reader).pos as int,
                Err(f) => sp_custom_files(old(reader).content@, old(reader).pos as int, k as nat)
                    == Err::<(Seq<u32>, int), DecodeFault>(f),
            },
        decreases k,
    {
        if k == 0 {
            let r: Vec<u32> = Vec::new();
            proof {
                assert(r@ =~= Seq::<u32>::empty());
            }
            return Ok(r);
        }
        if reader.bits_left() < 1 {
            return Err(DecodeFault::TruncatedRead);
        }
        let present = reader.read_u8(1);
        let v: u32;
        if present == 1 {
            if reader.bits_left() < 32 {
                return Err(DecodeFault::TruncatedRead);
            }
            v = reader.read_u32(32);
        } else {
            v = 0;
        }
        let mut rest = match Self::parse_custom_files(reader, k - 1) {
            Ok(t) => t,
            Err(f) => { return Err(f); },
        };
        let mut out: Vec<u32> = Vec::new();
        out.push(v);
        out.append(&mut rest);
        proof {
            match sp_custom_files(old(reader).content@, old(reader).pos as int, k as nat) {
                Ok(t) => {
                    assert(out@ =~= t.0);
                },
                Err(_) => {},
            }
        }
        Ok(out)
    }

    pub fn parse(reader: &mut BitReader) -> (r: Result<CLCClientInfo, DecodeFault>)
        requires
            old(reader).wf(),
        ensures
            final(reader).wf(),
            final(reader).content@ == old(reader).content@,
            old(reader).pos <= final(reader).pos,
            match r {
                Ok(m) => sp_client_info(old(reader).content@, old(reader).pos as int)
                    matches Ok(t)
                    && t.0.n_server_count == m.n_server_count
                    && t.0.n_send_table_crc == m.n_send_table_crc
                    && t.0.b_is_hltv == m.b_is_hltv
                    && t.0.n_friends_id == m.n_friends_id
                    && t.0.friends_name == m.friends_name@
                    && t.0.n_custom_files == m.n_custom_files@
                    && m.n_custom_files@.len() == 4
                    && t.1 == final(reader).pos as int,
                Err(f) => sp_client_info(old(reader).content@, old(reader).pos as int)
                    == Err::<(ClientInfoV, int), DecodeFault>(f),
            },
    {
        if reader.bits_left() < 97 {
            return Err(DecodeFault::TruncatedRead);
        }
        let n_server_count = u32_to_i32(reader.read_u32(32));
        let n_send_table_crc = reader.read_u32(32);
        let b_is_hltv = reader.read_u8(1) == 1;
        let n_friends_id = reader.read_u32(32);
        let friends_name = match reader.read_string() {
            Ok(s) => s,
            Err(f) => { return Err(f); },
        };
        let n_custom_files = match Self::parse_custom_files(reader, 4) {
            Ok(v) => v,
            Err(f) => { return Err(f); },
        };
        proof {
            match sp_custom_files(old(reader).content@, old(reader).pos + 97
                + 8 * (friends_name@.len() + 1), 4) {
                Ok(t) => {
                    assert(t.0.len() == 4) by {
                        lemma_sp_custom_files_len(old(reader).content@,
                            old(reader).pos + 97 + 8 * (friends_name@.len() + 1), 4);
                    };
                },
                Err(_) => {},
            }
        }
        Ok(CLCClientInfo {
            n_server_count,
            n_send_table_crc,
            b_is_hltv,
            n_friends_id,
            friends_name,
            n_custom_files,
        })
    }
}

proof fn lemma_sp_custom_files_len(c: Seq<u8>, pos: int, k: nat)
    ensures
        sp_custom_files(c, pos, k) matches Ok(t) ==> t.0.len() == k,
    decreases k,
{
    if k > 0 {
        if pos + 1 <= 8 * c.len() {
            if bits_value(c, pos, 1) == 1 {
                if pos + 33 <= 8 * c.len() {
                    lemma_sp_custom_files_len(c, pos + 33, (k - 1) as nat);
                }
            } else {
                lemma_sp_custom_files_len(c, pos + 1, (k - 1) as nat);
            }
        }
    }
}


// --- Delta-encoded user command ---------------------------------------

/// A presence-gated raw 32-bit field: an explicit value, or the
/// baseline's prior value when the bit is clear.
pub open spec fn sp_opt_u32(c: Seq<u8>, pos: int, keep: u32) -> Result<(u32, int), DecodeFault> {
    if pos + 1 > 8 * c.len() {
        Err(DecodeFault::TruncatedRead)
    } else if bits_value(c, pos, 1) == 1 {
        if pos + 33 > 8 * c.len() {
            Err(DecodeFault::TruncatedRead)
        } else {
            Ok((bits_value(c, pos + 1, 32) as u32, pos + 33))
        }
    } else {
        Ok((keep, pos + 1))
    }
}

/// A presence-gated signed 32-bit field.
pub open spec fn sp_opt_i32(c: Seq<u8>, pos: int, keep: i32) -> Result<(i32, int), DecodeFault> {
    if pos + 1 > 8 * c.len() {
        Err(DecodeFault::TruncatedRead)
    } else if bits_value(c, pos, 1) == 1 {
        if pos + 33 > 8 * c.len() {
            Err(DecodeFault::TruncatedRead)
        } else {
            Ok((as_i32(bits_value(c, pos + 1, 32)), pos + 33))
        }
    } else {
        Ok((keep, pos + 1))
    }
}

/// A presence-gated 8-bit field.
pub open spec fn sp_opt_u8(c: Seq<u8>, pos: int, keep: u8) -> Result<(u8, int), DecodeFault> {
    if pos + 1 > 8 * c.len() {
        Err(DecodeFault::TruncatedRead)
    } else if bits_value(c, pos, 1) == 1 {
        if pos + 9 > 8 * c.len() {
            Err(DecodeFault::TruncatedRead)
        } else {
            Ok((bits_value(c, pos + 1, 8) as u8, pos + 9))
        }
    } else {
        Ok((keep, pos + 1))
    }
}

/// A presence-gated signed 16-bit field.
pub open spec fn sp_opt_i16(c: Seq<u8>, pos: int, keep: i16) -> Result<(i16, int), DecodeFault> {
    if pos + 1 > 8 * c.len() {
        Err(DecodeFault::TruncatedRead)
    } else if bits_value(c, pos, 1) == 1 {
        if pos + 17 > 8 * c.len() {
            Err(DecodeFault::TruncatedRead)
        } else {
            Ok((as_i16(bits_value(c, pos + 1, 16)), pos + 17))
        }
    } else {
        Ok((keep, pos + 1))
    }
}

/// The weapon block: an optional 11-bit weapon select with a nested
/// optional 6-bit subtype.
pub open spec fn sp_weapon(c: Seq<u8>, pos: int, keep_sel: i32, keep_sub: i32) -> Result<
    ((i32, i32), int),
    DecodeFault,
> {
    if pos + 1 > 8 * c.len() {
        Err(DecodeFault::TruncatedRead)
    } else if bits_value(c, pos, 1) == 1 {
        if pos + 13 > 8 * c.len() {
            Err(DecodeFault::TruncatedRead)
        } else {
            let sel = bits_value(c, pos + 1, 11) as i32;
            if bits_value(c, pos + 12, 1) == 1 {
                if pos + 19 > 8 * c.len() {
                    Err(DecodeFault::TruncatedRead)
                } else {
                    Ok(((sel, bits_value(c, pos + 13, 6) as i32), pos + 19))
                }
            } else {
                Ok(((sel, keep_sub), pos + 13))
            }
        }
    } else {
        Ok(((keep_sel, keep_sub), pos + 1))
    }
}

/// The command number and tick count: an explicit 32-bit value when the
/// presence bit is set, else the baseline's value plus one.
pub open spec fn sp_cmd_head(c: Seq<u8>, pos: int, b: CUserCmd) -> Result<((i32, i32), int), DecodeFault> {
    match sp_opt_i32(c, pos, wrap_inc_i32(b.command_number)) {
        Ok(t1) => match sp_opt_i32(c, t1.1, wrap_inc_i32(b.tick_count)) {
            Ok(t2) => Ok(((t1.0, t2.0), t2.1)),
            Err(f) => Err(f),
        },
        Err(f) => Err(f),
    }
}

pub open spec fn sp_cmd_angles(c: Seq<u8>, pos: int, b: CUserCmd) -> Result<(QAngle, int), DecodeFault> {
    match sp_opt_u32(c, pos, b.viewangles.x) {
        Ok(t1) => match sp_opt_u32(c, t1.1, b.viewangles.y) {
            Ok(t2) => match sp_opt_u32(c, t2.1, b.viewangles.z) {
                Ok(t3) => Ok((QAngle { x: t1.0, y: t2.0, z: t3.0 }, t3.1)),
                Err(f) => Err(f),
            },
            Err(f) => Err(f),
        },
        Err(f) => Err(f),
    }
}

pub open spec fn sp_cmd_moves(c: Seq<u8>, pos: int, b: CUserCmd) -> Result<((u32, u32, u32), int), DecodeFault> {
    match sp_opt_u32(c, pos, b.forwardmove) {
        Ok(t1) => match sp_opt_u32(c, t1.1, b.sidemove) {
            Ok(t2) => match sp_opt_u32(c, t2.1, b.upmove) {
                Ok(t3) => Ok(((t1.0, t2.0, t3.0), t3.1)),
                Err(f) => Err(f),
            },
            Err(f) => Err(f),
        },
        Err(f) => Err(f),
    }
}

pub open spec fn sp_cmd_rest(c: Seq<u8>, pos: int, b: CUserCmd) -> Result<
    ((i32, u8, i32, i32, i16, i16), int),
    DecodeFault,
> {
    match sp_opt_i32(c, pos, b.buttons) {
        Ok(t1) => match sp_opt_u8(c, t1.1, b.impulse) {
            Ok(t2) => match sp_weapon(c, t2.1, b.weaponselect, b.weaponsubtype) {
                Ok(t3) => match sp_opt_i16(c, t3.1, b.mousedx) {
                    Ok(t4) => match sp_opt_i16(c, t4.1, b.mousedy) {
                        Ok(t5) => Ok(
                            ((t1.0, t2.0, t3.0.0, t3.0.1, t4.0, t5.0), t5.1),
                        ),
                        Err(f) => Err(f),
                    },
                    Err(f) => Err(f),
                },
                Err(f) => Err(f),
            },
            Err(f) => Err(f),
        },
        Err(f) => Err(f),
    }
}

/// One delta-encoded user command against the baseline `b`: fields that
/// are absent keep the baseline's prior value; the command number and
/// tick count advance by one when absent.
pub open spec fn sp_usercmd(c: Seq<u8>, pos: int, b: CUserCmd) -> Result<(CUserCmd, int), DecodeFault> {
    match sp_cmd_head(c, pos, b) {
        Ok(h) => match sp_cmd_angles(c, h.1, b) {
            Ok(a) => match sp_cmd_moves(c, a.1, b) {
                Ok(mv) => match sp_cmd_rest(c, mv.1, b) {
                    Ok(rst) => Ok(
                        (
                            CUserCmd {
                                command_number: h.0.0,
                                tick_count: h.0.1,
                                viewangles: a.0,
                                forwardmove: mv.0.0,
                                sidemove: mv.0.1,
                                upmove: mv.0.2,
                                buttons: rst.0.0,
                                impulse: rst.0.1,
                                weaponselect: rst.0.2,
                                weaponsubtype: rst.0.3,
                                mousedx: rst.0.4,
                                mousedy: rst.0.5,
                                hasbeenpredicted: false,
                            },
                            rst.1,
                        ),
                    ),
                    Err(f) => Err(f),
                },
                Err(f) => Err(f),
            },
            Err(f) => Err(f),
        },
        Err(f) => Err(f),
    }
}

fn read_opt_u32(reader: &mut BitReader, keep: u32) -> (r: Result<u32, DecodeFault>)
    requires
        old(reader).wf(),
    ensures
        final(reader).wf(),
        final(reader).content@ == old(reader).content@,
        match r {
            Ok(v) => sp_opt_u32(old(reader).content@, old(reader).pos as int, keep)
                == Ok::<(u32, int), DecodeFault>((v, final(reader).pos as int)),
            Err(f) => sp_opt_u32(old(reader).content@, old(reader).pos as int, keep)
                == Err::<(u32, int), DecodeFault>(f),
        },
{
    if reader.bits_left() < 1 {
        return Err(DecodeFault::TruncatedRead);
    }
    if reader.read_u8(1) == 1 {
        if reader.bits_left() < 32 {
            return Err(DecodeFault::TruncatedRead);
        }
        Ok(reader.read_u32(32))
    } else {
        Ok(keep)
    }
}

fn read_opt_i32(reader: &mut BitReader, keep: i32) -> (r: Result<i32, DecodeFault>)
    requires
        old(reader).wf(),
    ensures
        final(reader).wf(),
        final(reader).content@ == old(reader).content@,
        match r {
            Ok(v) => sp_opt_i32(old(reader).content@, old(reader).pos as int, keep)
                == Ok::<(i32, int), DecodeFault>((v, final(reader).pos as int)),
            Err(f) => sp_opt_i32(old(reader).content@, old(reader).pos as int, keep)
                == Err::<(i32, int), DecodeFault>(f),
        },
{
    if reader.bits_left() < 1 {
        return Err(DecodeFault::TruncatedRead);
    }
    if reader.read_u8(1) == 1 {
        if reader.bits_left() < 32 {
            return Err(DecodeFault::TruncatedRead);
        }
        Ok(u32_to_i32(reader.read_u32(32)))
    } else {
        Ok(keep)
    }
}

fn read_opt_u8(reader: &mut BitReader, keep: u8) -> (r: Result<u8, DecodeFault>)
    requires
        old(reader).wf(),
    ensures
        final(reader).wf(),
        final(reader).content@ == old(reader).content@,
        match r {
            Ok(v) => sp_opt_u8(old(reader).content@, old(reader).pos as int, keep)
                == Ok::<(u8, int), DecodeFault>((v, final(reader).pos as int)),
            Err(f) => sp_opt_u8(old(reader).content@, old(reader).pos as int, keep)
                == Err::<(u8, int), DecodeFault>(f),
        },
{
    if reader.bits_left() < 1 {
        return Err(DecodeFault::TruncatedRead);
    }
    if reader.read_u8(1) == 1 {
        if reader.bits_left() < 8 {
            return Err(DecodeFault::TruncatedRead);
        }
        Ok(reader.read_u8(8))
    } else {
        Ok(keep)
    }
}

fn read_opt_i16(reader: &mut BitReader, keep: i16) -> (r: Result<i16, DecodeFault>)
    requires
        old(reader).wf(),
    ensures
        final(reader).wf(),
        final(reader).content@ == old(reader).content@,
        match r {
            Ok(v) => sp_opt_i16(old(reader).content@, old(reader).pos as int, keep)
                == Ok::<(i16, int), DecodeFault>((v, final(reader).pos as int)),
            Err(f) => sp_opt_i16(old(reader).content@, old(reader).pos as int, keep)
                == Err::<(i16, int), DecodeFault>(f),
        },
{
    if reader.bits_left() < 1 {
        return Err(DecodeFault::TruncatedRead);
    }
    if reader.read_u8(1) == 1 {
        if reader.bits_left() < 16 {
            return Err(DecodeFault::TruncatedRead);
        }
        Ok(u16_to_i16(reader.read_u16(16)))
    } else {
        Ok(keep)
    }
}

fn read_weapon(reader: &mut BitReader, keep_sel: i32, keep_sub: i32) -> (r: Result<(i32, i32), DecodeFault>)
    requires
        old(reader).wf(),
    ensures
        final(reader).wf(),
        final(reader).content@ == old(reader).content@,
        match r {
            Ok(v) => sp_weapon(old(reader).content@, old(reader).pos as int, keep_sel, keep_sub)
                == Ok::<((i32, i32), int), DecodeFault>((v, final(reader).pos as int)),
            Err(f) => sp_weapon(old(reader).content@, old(reader).pos as int, keep_sel, keep_sub)
                == Err::<((i32, i32), int), DecodeFault>(f),
        },
{
    if reader.bits_left() < 1 {
        return Err(DecodeFault::TruncatedRead);
    }
    if reader.read_u8(1) == 1 {
        if reader.bits_left() < 12 {
            return Err(DecodeFault::TruncatedRead);
        }
        let sel = reader.read_u16(11) as i32;
        if reader.read_u8(1) == 1 {
            if reader.bits_left() < 6 {
                return Err(DecodeFault::TruncatedRead);
            }
            let sub = reader.read_u8(6) as i32;
            Ok((sel, sub))
        } else {
            Ok((sel, keep_sub))
        }
    } else {
        Ok((keep_sel, keep_sub))
    }
}

/// Decode one delta-encoded user command from an isolated sub-stream.
pub fn parse_usercmd(reader: &mut BitReader, baseline: &CUserCmd) -> (r: Result<CUserCmd, DecodeFault>)
    requires
        old(reader).wf(),
    ensures
        final(reader).wf(),
        final(reader).content@ == old(reader).content@,
        match r {
            Ok(cmd) => sp_usercmd(old(reader).content@, old(reader).pos as int, *baseline)
                matches Ok(t) && t.0 == cmd && t.1 == final(reader).pos as int,
            Err(f) => sp_usercmd(old(reader).content@, old(reader).pos as int, *baseline)
                == Err::<(CUserCmd, int), DecodeFault>(f),
        },
{
    let command_number = match read_opt_i32(reader, wrap_inc(baseline.command_number)) {
        Ok(v) => v,
        Err(f) => { return Err(f); },
    };
    let tick_count = match read_opt_i32(reader, wrap_inc(baseline.tick_count)) {
        Ok(v) => v,
        Err(f) => { return Err(f); },
    };
    let ax = match read_opt_u32(reader, baseline.viewangles.x) {
        Ok(v) => v,
        Err(f) => { return Err(f); },
    };
    let ay = match read_opt_u32(reader, baseline.viewangles.y) {
        Ok(v) => v,
        Err(f) => { return Err(f); },
    };
    let az = match read_opt_u32(reader, baseline.viewangles.z) {
        Ok(v) => v,
        Err(f) => { return Err(f); },
    };
    let forwardmove = match read_opt_u32(reader, baseline.forwardmove) {
        Ok(v) => v,
        Err(f) => { return Err(f); },
    };
    let sidemove = match read_opt_u32(reader, baseline.sidemove) {
        Ok(v) => v,
        Err(f) => { return Err(f); },
    };
    let upmove = match read_opt_u32(reader, baseline.upmove) {
        Ok(v) => v,
        Err(f) => { return Err(f); },
    };
    let buttons = match read_opt_i32(reader, baseline.buttons) {
        Ok(v) => v,
        Err(f) => { return Err(f); },
    };
    let impulse = match read_opt_u8(reader, baseline.impulse) {
        Ok(v) => v,
        Err(f) => { return Err(f); },
    };
    let weapon = match read_weapon(reader, baseline.weaponselect, baseline.weaponsubtype) {
        Ok(v) => v,
        Err(f) => { return Err(f); },
    };
    let mousedx = match read_opt_i16(reader, baseline.mousedx) {
        Ok(v) => v,
        Err(f) => { return Err(f); },
    };
    let mousedy = match read_opt_i16(reader, baseline.mousedy) {
        Ok(v) => v,
        Err(f) => { return Err(f); },
    };
    Ok(CUserCmd {
        command_number,
        tick_count,
        viewangles: QAngle { x: ax, y: ay, z: az },
        forwardmove,
        sidemove,
        upmove,
        buttons,
        impulse,
        weaponselect: weapon.0,
        weaponsubtype: weapon.1,
        mousedx,
        mousedy,
        hasbeenpredicted: false,
    })
}

/// A client-move message: counts, the bit length of an embedded
/// sub-stream, and the user command delta-decoded from that sub-stream.
#[derive(Clone, Copy, Debug, PartialEq, Eq, Structural)]
pub struct CLCMove {
    pub n_new_commands: u8,
    pub n_backup_commands: u8,
    pub n_length: u16,
    pub user_cmd: CUserCmd,
}

pub open spec fn sp_move(c: Seq<u8>, pos: int, b: CUserCmd) -> Result<(CLCMove, int), DecodeFault> {
    if pos + 23 > 8 * c.len() {
        Err(DecodeFault::TruncatedRead)
    } else {
        let nlen = bits_value(c, pos + 7, 16);
        if pos + 23 + nlen > 8 * c.len() {
            Err(DecodeFault::TruncatedRead)
        } else {
            let sub = extract_bits(c, pos + 23, nlen);
            match sp_usercmd(sub, 0, b) {
                Ok(t) => Ok(
                    (
                        CLCMove {
                            n_new_commands: bits_value(c, pos, 4) as u8,
                            n_backup_commands: bits_value(c, pos + 4, 3) as u8,
                            n_length: nlen as u16,
                            user_cmd: t.0,
                        },
                        pos + 23 + nlen,
                    ),
                ),
                Err(f) => Err(f),
            }
        }
    }
}

impl CLCMove {
    /// Decode a move and, on success, replace the delta baseline with the
    /// newly decoded command. On failure the baseline is untouched.
    pub fn parse(reader: &mut BitReader, baseline: &mut CUserCmd) -> (r: Result<CLCMove, DecodeFault>)
        requires
            old(reader).wf(),
        ensures
            final(reader).wf(),
            final(reader).content@ == old(reader).content@,
            old(reader).pos <= final(reader).pos,
            match r {
                Ok(m) => sp_move(old(reader).content@, old(reader).pos as int, *old(baseline))
                    matches Ok(t) && t.0 == m && t.1 == final(reader).pos as int
                    && *final(baseline) == m.user_cmd,
                Err(f) => sp_move(old(reader).content@, old(reader).pos as int, *old(baseline))
                    == Err::<(CLCMove, int), DecodeFault>(f)
                    && *final(baseline) == *old(baseline),
            },
    {
        if reader.bits_left() < 23 {
            return Err(DecodeFault::TruncatedRead);
        }
        let n_new_commands = reader.read_u8(4);
        let n_backup_commands = reader.read_u8(3);
        let n_length = reader.read_u16(16);
        let sub = match reader.read_bits_buf(n_length as usize) {
            Ok(b) => b,
            Err(f) => { return Err(f); },
        };
        let mut sub_reader = BitReader::new(sub);
        let user_cmd = match parse_usercmd(&mut sub_reader, baseline) {
            Ok(cmd) => cmd,
            Err(f) => { return Err(f); },
        };
        *baseline = user_cmd;
        Ok(CLCMove { n_new_commands, n_backup_commands, n_length, user_cmd })
    }
}


// --- Self-describing key/value format ---------------------------------

pub const TYPE_NONE: u8 = 0;
pub const TYPE_STRING: u8 = 1;
pub const TYPE_INT: u8 = 2;
pub const TYPE_FLOAT: u8 = 3;
pub const TYPE_PTR: u8 = 4;
pub const TYPE_WSTRING: u8 = 5;
pub const TYPE_COLOR: u8 = 6;
pub const TYPE_UINT64: u8 = 7;
pub const TYPE_NUMTYPES: u8 = 8;
/// The type tag that ends a key/value block.
pub const TYPE_END_MARKER: u8 = 11;

/// One tagged value. A float arrives as its raw IEEE-754 bit pattern and
/// is kept as those 32 bits, never converted numerically.
pub enum KvValue {
    Empty,
    Text(Vec<u8>),
    Int(i32),
    U64(u64),
    FloatBits(u32),
    Color { r: u8, g: u8, b: u8, a: u8 },
    Ptr(u32),
}

/// The spec-level form of a tagged value.
pub enum KvValueV {
    Empty,
    Text(Seq<u8>),
    Int(i32),
    U64(u64),
    FloatBits(u32),
    Color { r: u8, g: u8, b: u8, a: u8 },
    Ptr(u32),
}

pub struct KvEntry {
    pub name: Vec<u8>,
    pub value: KvValue,
}

/// The spec-level form of one named entry.
pub struct KvEntryV {
    pub name: Seq<u8>,
    pub value: KvValueV,
}

impl View for KvValue {
    type V = KvValueV;

    open spec fn view(&self) -> KvValueV {
        match self {
            KvValue::Empty => KvValueV::Empty,
            KvValue::Text(t) => KvValueV::Text(t@),
            KvValue::Int(v) => KvValueV::Int(*v),
            KvValue::U64(v) => KvValueV::U64(*v),
            KvValue::FloatBits(v) => KvValueV::FloatBits(*v),
            KvValue::Color { r, g, b, a } => KvValueV::Color { r: *r, g: *g, b: *b, a: *a },
            KvValue::Ptr(v) => KvValueV::Ptr(*v),
        }
    }
}

impl View for KvEntry {
    type V = KvEntryV;

    open spec fn view(&self) -> KvEntryV {
        KvEntryV { name: self.name@, value: self.value@ }
    }
}

/// A key/value command: a byte-counted, isolated block of tagged entries.
pub struct CmdKeyValues {
    pub entries: Vec<KvEntry>,
}

pub open spec fn clamp_pos(c: Seq<u8>, q: int) -> int {
    if q <= 8 * c.len() {
        q
    } else {
        8 * c.len() as int
    }
}

/// The value following a name, by type tag: where it ends and what it is.
/// A wide string is recognized but unsupported; a tag outside the known
/// set is a fatal format fault.
pub open spec fn sp_kv_value(c: Seq<u8>, pos: int, tag: u8) -> Result<(KvValueV, int), DecodeFault> {
    if tag == TYPE_NONE {
        Ok((KvValueV::Empty, pos))
    } else if tag == TYPE_STRING {
        if !str_ok(c, pos) {
            Err(DecodeFault::TruncatedRead)
        } else {
            Ok((KvValueV::Text(str_bytes(c, pos)), str_end(c, pos)))
        }
    } else if tag == TYPE_WSTRING {
        Err(DecodeFault::UnimplementedMessageType)
    } else if tag == TYPE_INT {
        if pos + 32 > 8 * c.len() {
            Err(DecodeFault::TruncatedRead)
        } else {
            Ok((KvValueV::Int(as_i32(bits_value(c, pos, 32))), pos + 32))
        }
    } else if tag == TYPE_UINT64 {
        if pos + 64 > 8 * c.len() {
            Err(DecodeFault::TruncatedRead)
        } else {
            Ok((KvValueV::U64(bits_value(c, pos, 64) as u64), pos + 64))
        }
    } else if tag == TYPE_FLOAT {
        if pos + 32 > 8 * c.len() {
            Err(DecodeFault::TruncatedRead)
        } else {
            Ok((KvValueV::FloatBits(bits_value(c, pos, 32) as u32), pos + 32))
        }
    } else if tag == TYPE_COLOR {
        if pos + 32 > 8 * c.len() {
            Err(DecodeFault::TruncatedRead)
        } else {
            Ok(
                (
                    KvValueV::Color {
                        r: bits_value(c, pos, 8) as u8,
                        g: bits_value(c, pos + 8, 8) as u8,
                        b: bits_value(c, pos + 16, 8) as u8,
                        a: bits_value(c, pos + 24, 8) as u8,
                    },
                    pos + 32,
                ),
            )
        }
    } else if tag == TYPE_PTR {
        if pos + 32 > 8 * c.len() {
            Err(DecodeFault::TruncatedRead)
        } else {
            Ok((KvValueV::Ptr(bits_value(c, pos, 32) as u32), pos + 32))
        }
    } else {
        Err(DecodeFault::UnknownMessageType)
    }
}

/// The entries of a key/value block from `pos` to the end marker.
pub open spec fn sp_kv_entries(c: Seq<u8>, pos: int) -> Result<Seq<KvEntryV>, DecodeFault>
    decreases 8 * c.len() - pos when 0 <= pos
{
    if pos + 8 > 8 * c.len() {
        Err(DecodeFault::TruncatedRead)
    } else {
        let tag = bits_value(c, pos, 8) as u8;
        if tag == TYPE_END_MARKER {
            Ok(Seq::empty())
        } else if !str_ok(c, pos + 8) {
            Err(DecodeFault::TruncatedRead)
        } else {
            let name = str_bytes(c, pos + 8);
            let p = str_end(c, pos + 8);
            match sp_kv_value(c, p, tag) {
                Ok(t) => match sp_kv_entries(c, clamp_pos(c, t.1)) {
                    Ok(rest) => Ok(seq![KvEntryV { name: name, value: t.0 }] + rest),
                    Err(f) => Err(f),
                },
                Err(f) => Err(f),
            }
        }
    }
}

/// The whole message: a 32-bit byte count, then an isolated block of
/// exactly that many bytes holding the tagged entries.
pub open spec fn sp_cmd_key_values(c: Seq<u8>, pos: int) -> Result<(Seq<KvEntryV>, int), DecodeFault> {
    if pos + 32 > 8 * c.len() {
        Err(DecodeFault::TruncatedRead)
    } else {
        let nbytes = bits_value(c, pos, 32);
        let p = pos + 32;
        if p + 8 * nbytes > 8 * c.len() {
            Err(DecodeFault::TruncatedRead)
        } else {
            let sub = extract_bits(c, p, (8 * nbytes) as nat);
            match sp_kv_entries(sub, 0) {
                Ok(es) => Ok((es, p + 8 * nbytes)),
                Err(f) => Err(f),
            }
        }
    }
}

impl CmdKeyValues {
    fn parse_entries(reader: &mut BitReader) -> (r: Result<Vec<KvEntry>, DecodeFault>)
        requires
            old(reader).wf(),
        ensures
            final(reader).wf(),
            final(reader).content@ == old(reader).content@,
            old(reader).pos <= final(reader).pos,
            match r {
                Ok(v) => sp_kv_entries(old(reader).content@, old(reader).pos as int)
                    matches Ok(es) && es == v@.map_values(|e: KvEntry| e@),
                Err(f) => sp_kv_entries(old(reader).content@, old(reader).pos as int)
                    == Err::<Seq<KvEntryV>, DecodeFault>(f),
            },
        decreases 8 * old(reader).content@.len() - old(reader).pos,
    {
        let ghost c = reader.content@;
        let ghost pos0 = reader.pos as int;
        if reader.bits_left() < 8 {
            return Err(DecodeFault::TruncatedRead);
        }
        let tag = reader.read_u8(8);
        if tag == TYPE_END_MARKER {
            let out: Vec<KvEntry> = Vec::new();
            proof {
                assert(out@.map_values(|e: KvEntry| e@) =~= Seq::<KvEntryV>::empty());
            }
            return Ok(out);
        }
        let name = match reader.read_string() {
            Ok(s) => s,
            Err(f) => { return Err(f); },
        };
        let value: KvValue;
        if tag == TYPE_NONE {
            value = KvValue::Empty;
        } else if tag == TYPE_STRING {
            value = match reader.read_string() {
                Ok(s) => KvValue::Text(s),
                Err(f) => { return Err(f); },
            };
        } else if tag == TYPE_WSTRING {
            return Err(DecodeFault::UnimplementedMessageType);
        } else if tag == TYPE_INT {
            if reader.bits_left() < 32 {
                return Err(DecodeFault::TruncatedRead);
            }
            value = KvValue::Int(u32_to_i32(reader.read_u32(32)));
        } else if tag == TYPE_UINT64 {
            if reader.bits_left() < 64 {
                return Err(DecodeFault::TruncatedRead);
            }
            value = KvValue::U64(reader.read_u64(64));
        } else if tag == TYPE_FLOAT {
            if reader.bits_left() < 32 {
                return Err(DecodeFault::TruncatedRead);
            }
            value = KvValue::FloatBits(reader.read_u32(32));
        } else if tag == TYPE_COLOR {
            if reader.bits_left() < 32 {
                return Err(DecodeFault::TruncatedRead);
            }
            let cr = reader.read_u8(8);
            let cg = reader.read_u8(8);
            let cb = reader.read_u8(8);
            let ca = reader.read_u8(8);
            value = KvValue::Color { r: cr, g: cg, b: cb, a: ca };
        } else if tag == TYPE_PTR {
            if reader.bits_left() < 32 {
                return Err(DecodeFault::TruncatedRead);
            }
            value = KvValue::Ptr(reader.read_u32(32));
        } else {
            return Err(DecodeFault::UnknownMessageType);
        }
        proof {
            assert(clamp_pos(c, reader.pos as int) == reader.pos as int);
        }
        let mut rest = match Self::parse_entries(reader) {
            Ok(v) => v,
            Err(f) => { return Err(f); },
        };
        let mut out: Vec<KvEntry> = Vec::new();
        out.push(KvEntry { name, value });
        out.append(&mut rest);
        proof {
            match sp_kv_entries(c, pos0) {
                Ok(es) => {
                    assert(out@.map_values(|e: KvEntry| e@) =~= es);
                },
                Err(_) => {},
            }
        }
        Ok(out)
    }

    pub fn parse(reader: &mut BitReader) -> (r: Result<CmdKeyValues, DecodeFault>)
        requires
            old(reader).wf(),
        ensures
            final(reader).wf(),
            final(reader).content@ == old(reader).content@,
            old(reader).pos <= final(reader).pos,
            match r {
                Ok(m) => sp_cmd_key_values(old(reader).content@, old(reader).pos as int)
                    matches Ok(t)
                    && t.0 == m.entries@.map_values(|e: KvEntry| e@)
                    && t.1 == final(reader).pos as int,
                Err(f) => sp_cmd_key_values(old(reader).content@, old(reader).pos as int)
                    == Err::<(Seq<KvEntryV>, int), DecodeFault>(f),
            },
    {
        if reader.bits_left() < 32 {
            return Err(DecodeFault::TruncatedRead);
        }
        let num_bytes = reader.read_u32(32);
        if (num_bytes as u64) * 8 > reader.bits_left() as u64 {
            return Err(DecodeFault::TruncatedRead);
        }
        let sub = match reader.read_bits_buf((num_bytes as u64 * 8) as usize) {
            Ok(b) => b,
            Err(f) => { return Err(f); },
        };
        let mut sub_reader = BitReader::new(sub);
        match Self::parse_entries(&mut sub_reader) {
            Ok(entries) => Ok(CmdKeyValues { entries }),
            Err(f) => Err(f),
        }
    }
}

} // verus!
