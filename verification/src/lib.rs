//! Protocol logic of a small Minecraft TCP proxy: the Minecraft VarInt and
//! string codecs, the handshake packet reader, the client-bound packets of the
//! fallback ("sorry") server, the PROXY protocol v2 header, and the decisions
//! that the proxy and its health checker take.

pub mod buffer;
pub mod configuration;
pub mod health_check;
pub mod json;
pub mod mcp;
pub mod proxy;
pub mod proxy_protocol;
pub mod text;
