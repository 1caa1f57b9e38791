//! The fault kinds a decode can report. Every fault is local to the
//! packet or sub-buffer being processed: the decoder never panics and
//! never touches the original packet bytes.

use vstd::prelude::*;

verus! {

#[derive(Clone, Copy, Debug, PartialEq, Eq, Structural)]
pub enum DecodeFault {
    /// The buffer is shorter than the fixed packet header.
    MalformedHeader,
    /// A fragment's offset/length or acked/total bookkeeping does not fit
    /// the object being reassembled.
    StructuralInvariantViolation,
    /// A recognized but unsupported construct: wide strings, compressed
    /// payloads, named file-transfer objects.
    UnimplementedMessageType,
    /// An opcode or type tag outside the known set.
    UnknownMessageType,
    /// A read past the end of the buffer.
    TruncatedRead,
}

} // verus!
