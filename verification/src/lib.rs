//! Decoder for a game's client/server network-channel protocol: an
//! unaligned LSB-first bit codec, packet-header framing, two-stream
//! fragment reassembly, and per-message-type body decoders with a
//! delta-compressed user-command format.

pub mod bits;
pub mod bitreader;
pub mod bitwriter;
pub mod dispatch;
pub mod fault;
pub mod fragment;
pub mod frame;
pub mod messages;
pub mod session;
