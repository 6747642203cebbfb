//! What the fallback server answers a client's handshake with.
use vstd::prelude::*;

use crate::mcp::protocol::{HandshakeState, ServerBoundMcPacket};

verus! {

/// The fallback server's answer to a handshake.
#[derive(Debug, Clone, Copy, PartialEq, Eq, Structural)]
pub enum FakeServerAction {
    /// Send the status response.
    SendStatus,
    /// Disconnect the player with the kick message.
    Kick,
    /// The next state is not supported.
    Unsupported,
}

/// The answer to a handshake by the state that it asks for: a status
/// request gets the status response, a login is kicked, a transfer is not
/// supported.
pub fn fake_server_action(packet: &ServerBoundMcPacket) -> (a: FakeServerAction)
    ensures
        a == (match packet.fields().3 {
            HandshakeState::Status => FakeServerAction::SendStatus,
            HandshakeState::Login => FakeServerAction::Kick,
            HandshakeState::Transfer => FakeServerAction::Unsupported,
        }),
{
    match packet {
        ServerBoundMcPacket::Handshake { next_state, .. } => match next_state {
            HandshakeState::Status => FakeServerAction::SendStatus,
            HandshakeState::Login => FakeServerAction::Kick,
            HandshakeState::Transfer => FakeServerAction::Unsupported,
        },
    }
}

} // verus!
