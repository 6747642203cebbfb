//! Errors of the protocol readers.
use vstd::prelude::*;

verus! {

/// Why a Minecraft packet could not be read.
#[derive(Debug, Clone, Copy, PartialEq, Eq, Structural)]
pub enum ProtocolError {
    /// A VarInt still had its continuation bit set on its fifth byte.
    VarIntTooBig,
    /// A string's bytes were not valid UTF-8.
    InvalidUtf8,
    /// The packet id is not one that the reader supports.
    UnsupportedPacketId(i32),
    /// A packet's bytes end before its length says.
    PacketIncomplete,
    /// The bytes cannot be read: they run out before a value ends, or a
    /// string length or a handshake state is out of range.
    Malformed,
}

} // verus!
