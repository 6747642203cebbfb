//! The Minecraft protocol: VarInts, strings, the handshake packet, the
//! packets of the fallback server, and the status response document.

pub mod constants;
pub mod error;
pub mod fake_server;
pub mod ping;
pub mod protocol;
pub mod varint;
