# mc_proxy

A small Minecraft (Java Edition) TCP proxy with PROXY protocol v2 support,
health checking of the origin servers, and a fallback ("sorry") server that
answers status requests and kicks players while an origin is down.

`src/` is the verified library (Verus):

- `mcp/varint.rs` – the VarInt codec (`McVarInt`), a byte-at-a-time decoder
  for streams, and the laws of the codec (write then read, read then write,
  prefix independence).
- `mcp/protocol.rs` – Minecraft strings, the handshake packet reader, and the
  packets of the fallback server (`to_packet`), with a law that a written
  packet reads back.
- `mcp/ping.rs`, `mcp/fake_server.rs` – the status document and the fallback
  server's answer to a handshake.
- `proxy_protocol.rs` – the PROXY protocol v2 header.
- `health_check.rs`, `proxy.rs` – the decisions of the health checker and of
  the proxy for each client.
- `configuration.rs`, `text.rs` – configuration values and line joining.
- `json.rs` – the compact JSON of an object with one string field, and the
  trusted call into `serde_json` that writes it.
- `buffer.rs` – the trusted interface to the `bytes` crate's buffers.

`app/` is the program around it: configuration file, sockets, tasks, logging
and JSON serialisation of the status document.
