//! Numbers of the Minecraft protocol.
use vstd::prelude::*;

verus! {

/// The id of the handshake packet, and of the status response and login
/// disconnect packets that the fallback server sends.
pub const HANDSHAKE: i32 = 0x00;

/// The bits of a VarInt byte that carry the number.
pub const VARINT_SEGMENT_BITS: u8 = 0x7F;

/// `VARINT_SEGMENT_BITS` as an `i32` mask.
pub const VARINT_SEGMENT_BITS_I32: i32 = 0x7F;

/// The bit of a VarInt byte that says another byte follows.
pub const VARINT_CONTINUE_BIT: u8 = 0x80;

/// `VARINT_CONTINUE_BIT` as an `i32` mask.
pub const VARINT_CONTINUE_BIT_I32: i32 = 0x80;

/// The most bytes that a VarInt reader takes.
pub const VARINT_MAX_BYTES: usize = 5;

/// The protocol version that the fallback server reports.
pub const DEFAULT_PROTOCOL: u32 = 763;

} // verus!
