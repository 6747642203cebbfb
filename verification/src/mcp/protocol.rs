//! Minecraft strings, the handshake packet that a client sends first, and the
//! packets that the fallback server sends back.
use vstd::prelude::*;
use vstd::utf8::{decode_utf8, encode_utf8, valid_utf8};

use crate::buffer::{
    buf_as_slice, buf_extend, buf_extend_from_slice, buf_freeze, buf_get_u16, buf_len, buf_new,
    buf_split_to, buf_to_vec, bytes_mut_view, bytes_view,
};
use crate::mcp::constants::HANDSHAKE;
use crate::mcp::error::ProtocolError;
use crate::mcp::varint::{
    lemma_varint_encoding_len, lemma_varint_roundtrip, varint_encoding, varint_too_big,
    varint_value, varint_width, McVarInt,
};
use crate::json::{json_object_field, json_object_with_field};
use crate::text::{join_lines, join_with, texts};
use vstd::string::StringExecFns;

verus! {

// ---------------------------------------------------------------------------
// What the readers make of bytes
// ---------------------------------------------------------------------------

/// What a reader makes of the bytes in front of it.
pub enum Reading<T> {
    /// A value, and the bytes left after it.
    Value(T, Seq<u8>),
    /// An error, and the bytes left where the reader stopped.
    Refused(ProtocolError, Seq<u8>),
    /// Bytes that the reader cannot take: they run out before the value
    /// ends, or a length or a state is out of range. The bytes are those left
    /// where the reader stopped.
    Malformed(Seq<u8>),
}

/// Reading a VarInt at the front of `s`.
pub open spec fn varint_reading(s: Seq<u8>) -> Reading<i32> {
    if varint_width(s) > s.len() {
        Reading::Malformed(s)
    } else if varint_too_big(s) {
        Reading::Refused(ProtocolError::VarIntTooBig, s.skip(varint_width(s) as int))
    } else {
        Reading::Value(varint_value(s), s.skip(varint_width(s) as int))
    }
}

/// Reading a string at the front of `s`: a VarInt length, then that many
/// bytes of UTF-8.
pub open spec fn string_reading(s: Seq<u8>) -> Reading<Seq<char>> {
    match varint_reading(s) {
        Reading::Value(n, r) => {
            if n < 0 || n > r.len() {
                Reading::Malformed(s)
            } else if valid_utf8(r.take(n as int)) {
                Reading::Value(decode_utf8(r.take(n as int)), r.skip(n as int))
            } else {
                Reading::Refused(ProtocolError::InvalidUtf8, r.skip(n as int))
            }
        },
        Reading::Refused(e, r) => Reading::Refused(e, r),
        Reading::Malformed(r) => Reading::Malformed(r),
    }
}

/// The next state that a handshake asks for, by its number (1 to 3).
pub open spec fn handshake_state_of(n: int) -> HandshakeState {
    if n == 1 {
        HandshakeState::Status
    } else if n == 2 {
        HandshakeState::Login
    } else {
        HandshakeState::Transfer
    }
}

/// The fields of a handshake: protocol version, server address, server port
/// and next state.
pub type HandshakeFields = (i32, Seq<char>, u16, HandshakeState);

/// Reading the body of a handshake packet (what follows its length): the
/// packet id, which must be that of the handshake, the protocol version, the
/// server address, the port (two bytes, big-endian) and the next state.
pub open spec fn handshake_reading(s: Seq<u8>) -> Reading<HandshakeFields> {
    match varint_reading(s) {
        Reading::Malformed(r) => Reading::Malformed(r),
        Reading::Refused(e, r) => Reading::Refused(e, r),
        Reading::Value(id, r1) => {
            if id != HANDSHAKE {
                Reading::Refused(ProtocolError::UnsupportedPacketId(id), r1)
            } else {
                match varint_reading(r1) {
                    Reading::Malformed(r) => Reading::Malformed(r),
                    Reading::Refused(e, r) => Reading::Refused(e, r),
                    Reading::Value(version, r2) => {
                        match string_reading(r2) {
                            Reading::Malformed(r) => Reading::Malformed(r),
                            Reading::Refused(e, r) => Reading::Refused(e, r),
                            Reading::Value(address, r3) => {
                                if r3.len() < 2 {
                                    Reading::Malformed(r3)
                                } else {
                                    let port = (r3[0] * 256 + r3[1]) as u16;
                                    match varint_reading(r3.skip(2)) {
                                        Reading::Malformed(r) => Reading::Malformed(r),
                                        Reading::Refused(e, r) => Reading::Refused(e, r),
                                        Reading::Value(state, r5) => {
                                            if 1 <= state <= 3 {
                                                Reading::Value(
                                                    (
                                                        version,
                                                        address,
                                                        port,
                                                        handshake_state_of(state as int),
                                                    ),
                                                    r5,
                                                )
                                            } else {
                                                Reading::Malformed(r5)
                                            }
                                        },
                                    }
                                }
                            },
                        }
                    },
                }
            }
        },
    }
}

/// Reading a framed handshake packet: a VarInt length, then a body of that
/// many bytes. Bytes of the body after the handshake are ignored.
pub open spec fn packet_reading(s: Seq<u8>) -> Reading<HandshakeFields> {
    match varint_reading(s) {
        Reading::Malformed(r) => Reading::Malformed(r),
        Reading::Refused(e, r) => Reading::Refused(e, r),
        Reading::Value(n, r) => {
            if n < 0 {
                Reading::Malformed(r)
            } else if n > r.len() {
                Reading::Refused(ProtocolError::PacketIncomplete, r)
            } else {
                match handshake_reading(r.take(n as int)) {
                    Reading::Value(f, _) => Reading::Value(f, r.skip(n as int)),
                    Reading::Refused(e, _) => Reading::Refused(e, r.skip(n as int)),
                    Reading::Malformed(_) => Reading::Malformed(r.skip(n as int)),
                }
            }
        },
    }
}

/// `String::from_utf8`: the string whose UTF-8 encoding the bytes are, or
/// `None` where they are not valid UTF-8.
#[verifier::external_body]
fn string_from_utf8(v: Vec<u8>) -> (r: Option<String>)
    ensures
        r is Some <==> valid_utf8(v@),
        r matches Some(s) ==> s@ == decode_utf8(v@),
{
    String::from_utf8(v).ok()
}

// ---------------------------------------------------------------------------
// Strings
// ---------------------------------------------------------------------------

/// A Minecraft string: its length in bytes, and its text.
pub struct McString {
    pub length: McVarInt,
    pub value: String,
}

impl McString {
    /// Reads a string from the front of `buf` and takes its bytes off. The
    /// length must be readable and fit the buffer (the buffer's `split_to`
    /// panics otherwise).
    pub fn read(buf: &mut bytes::BytesMut) -> (r: Result<McString, ProtocolError>)
        requires
            !(string_reading(bytes_mut_view(*old(buf))) is Malformed),
        ensures
            match string_reading(bytes_mut_view(*old(buf))) {
                Reading::Value(text, rest) => (r matches Ok(m) && m.value@ == text && m.length@
                    == varint_value(bytes_mut_view(*old(buf)))) && bytes_mut_view(*final(buf))
                    == rest,
                Reading::Refused(e, rest) => r == Err::<McString, ProtocolError>(e)
                    && bytes_mut_view(*final(buf)) == rest,
                Reading::Malformed(_) => false,
            },
    {
        let length = match McVarInt::read(buf) {
            Ok(v) => v,
            Err(e) => return Err(e),
        };
        let n = length.value();
        let string_data = buf_split_to(buf, n as usize);
        let bytes = buf_to_vec(&string_data);
        match string_from_utf8(bytes) {
            Some(value) => Ok(McString { length, value }),
            None => Err(ProtocolError::InvalidUtf8),
        }
    }

    /// Reads a string as `read` does and hands out its text.
    pub fn read_string(buf: &mut bytes::BytesMut) -> (r: Result<String, ProtocolError>)
        requires
            !(string_reading(bytes_mut_view(*old(buf))) is Malformed),
        ensures
            match string_reading(bytes_mut_view(*old(buf))) {
                Reading::Value(text, rest) => (r matches Ok(t) && t@ == text) && bytes_mut_view(
                    *final(buf),
                ) == rest,
                Reading::Refused(e, rest) => r == Err::<String, ProtocolError>(e)
                    && bytes_mut_view(*final(buf)) == rest,
                Reading::Malformed(_) => false,
            },
    {
        match Self::read(buf) {
            Ok(m) => Ok(m.value),
            Err(e) => Err(e),
        }
    }

    /// Whether `read` can take a string from the front of `data`: the
    /// length is readable and fits.
    pub fn readable(data: &[u8]) -> (r: bool)
        ensures
            r == !(string_reading(data@) is Malformed),
    {
        match McVarInt::peek(data) {
            None => false,
            Some(Err(_)) => true,
            Some(Ok((n, w))) => 0 <= n && n as usize <= data.len() - w,
        }
    }
}

// ---------------------------------------------------------------------------
// The handshake
// ---------------------------------------------------------------------------

/// The state that a client asks for in its handshake.
#[derive(Debug, Clone, Copy, PartialEq, Eq, Structural)]
pub enum HandshakeState {
    Status,
    Login,
    Transfer,
}

impl HandshakeState {
    /// The state of number 1 (status), 2 (login) or 3 (transfer); other
    /// numbers are not states.
    pub fn from(value: McVarInt) -> (r: Self)
        requires
            1 <= value@ <= 3,
        ensures
            r == handshake_state_of(value@ as int),
    {
        let n = value.value();
        if n == 1 {
            HandshakeState::Status
        } else if n == 2 {
            HandshakeState::Login
        } else {
            HandshakeState::Transfer
        }
    }
}

/// A packet that a client sends to the server.
pub enum ServerBoundMcPacket {
    Handshake {
        protocol_version: McVarInt,
        server_address: String,
        server_port: u16,
        next_state: HandshakeState,
    },
}

impl ServerBoundMcPacket {
    /// The fields of the packet.
    pub open spec fn fields(self) -> HandshakeFields {
        match self {
            ServerBoundMcPacket::Handshake {
                protocol_version,
                server_address,
                server_port,
                next_state,
            } => (protocol_version@, server_address@, server_port, next_state),
        }
    }

    /// Reads the body of a handshake packet (the bytes after its length)
    /// from the front of `buf` and takes them off. Where the bytes cannot be
    /// read (they run out, a length or the next state is out of range) it
    /// stops with `Malformed`.
    pub fn read_body(buf: &mut bytes::BytesMut) -> (r: Result<Self, ProtocolError>)
        ensures
            match handshake_reading(bytes_mut_view(*old(buf))) {
                Reading::Value(f, rest) => (r matches Ok(p) && p.fields() == f) && bytes_mut_view(
                    *final(buf),
                ) == rest,
                Reading::Refused(e, rest) => r == Err::<Self, ProtocolError>(e) && bytes_mut_view(
                    *final(buf),
                ) == rest,
                Reading::Malformed(rest) => r == Err::<Self, ProtocolError>(
                    ProtocolError::Malformed,
                ) && bytes_mut_view(*final(buf)) == rest,
            },
    {
        if McVarInt::peek(buf_as_slice(buf)).is_none() {
            return Err(ProtocolError::Malformed);
        }
        let packet_id = match McVarInt::read(buf) {
            Ok(v) => v.value(),
            Err(e) => return Err(e),
        };
        if packet_id != HANDSHAKE {
            return Err(ProtocolError::UnsupportedPacketId(packet_id));
        }
        if McVarInt::peek(buf_as_slice(buf)).is_none() {
            return Err(ProtocolError::Malformed);
        }
        let protocol_version = match McVarInt::read_i32(buf) {
            Ok(v) => v,
            Err(e) => return Err(e),
        };
        if !McString::readable(buf_as_slice(buf)) {
            return Err(ProtocolError::Malformed);
        }
        let server_address = match McString::read_string(buf) {
            Ok(s) => s,
            Err(e) => return Err(e),
        };
        if buf_len(buf) < 2 {
            return Err(ProtocolError::Malformed);
        }
        let server_port = buf_get_u16(buf);
        if McVarInt::peek(buf_as_slice(buf)).is_none() {
            return Err(ProtocolError::Malformed);
        }
        let state = match McVarInt::read(buf) {
            Ok(v) => v,
            Err(e) => return Err(e),
        };
        let n = state.value();
        if n < 1 || n > 3 {
            return Err(ProtocolError::Malformed);
        }
        let next_state = HandshakeState::from(state);
        Ok(
            ServerBoundMcPacket::Handshake {
                protocol_version: McVarInt::new(protocol_version),
                server_address,
                server_port,
                next_state,
            },
        )
    }

    /// Reads a framed handshake packet from the front of `buf`: its length,
    /// then its body as `read_body` does. A negative length is `Malformed`;
    /// a body shorter than the length is `PacketIncomplete`.
    pub fn read(buf: &mut bytes::BytesMut) -> (r: Result<Self, ProtocolError>)
        ensures
            match packet_reading(bytes_mut_view(*old(buf))) {
                Reading::Value(f, rest) => (r matches Ok(p) && p.fields() == f) && bytes_mut_view(
                    *final(buf),
                ) == rest,
                Reading::Refused(e, rest) => r == Err::<Self, ProtocolError>(e) && bytes_mut_view(
                    *final(buf),
                ) == rest,
                Reading::Malformed(rest) => r == Err::<Self, ProtocolError>(
                    ProtocolError::Malformed,
                ) && bytes_mut_view(*final(buf)) == rest,
            },
    {
        if McVarInt::peek(buf_as_slice(buf)).is_none() {
            return Err(ProtocolError::Malformed);
        }
        let length = match McVarInt::read(buf) {
            Ok(v) => v.value(),
            Err(e) => return Err(e),
        };
        if length < 0 {
            return Err(ProtocolError::Malformed);
        }
        if length as usize > buf_len(buf) {
            return Err(ProtocolError::PacketIncomplete);
        }
        let mut body = buf_split_to(buf, length as usize);
        Self::read_body(&mut body)
    }
}


// ---------------------------------------------------------------------------
// Packets that the server sends
// ---------------------------------------------------------------------------

/// The field that a chat text component carries its text in.
pub open spec fn text_key() -> Seq<char> {
    seq!['t', 'e', 'x', 't']
}

/// The chat text component whose text is `reason`, as JSON:
/// `{"text":"reason"}`.
pub open spec fn text_component_json(reason: Seq<char>) -> Seq<char> {
    json_object_with_field(text_key(), reason)
}

/// The JSON text component of a reason.
fn text_component(reason: &String) -> (r: String)
    ensures
        r@ == text_component_json(reason@),
{
    let key = String::from_str("text");
    proof {
        reveal_strlit("text");
        assert(key@ =~= text_key());
    }
    json_object_field(&key, reason)
}

/// A packet that the server sends to a client.
pub enum ClientBoundMcPacket {
    /// The answer to a status request: the status document as JSON.
    StatusResponse { json_response: String },
    /// The message that a client is disconnected with while logging in.
    LoginDisconnect { reason: String },
}

/// A packet of id 0 whose field is a string of the given bytes, framed by
/// its length: `length, id, string length, string bytes`.
pub open spec fn packet_frame(body: Seq<u8>) -> Seq<u8> {
    let payload = varint_encoding(0) + varint_encoding(body.len()) + body;
    varint_encoding(payload.len()) + payload
}

/// Frames the bytes of a string field as a packet of id 0.
fn frame_packet(body: &[u8]) -> (r: bytes::Bytes)
    requires
        body@.len() + 6 <= i32::MAX,
        body@.len() + 11 <= isize::MAX,
    ensures
        bytes_view(r) == packet_frame(body@),
{
    proof {
        lemma_varint_encoding_len(0);
        lemma_varint_encoding_len(body@.len() as i32);
    }
    let mut packet_data = buf_new();
    McVarInt::new(HANDSHAKE).write(&mut packet_data);
    McVarInt::new(body.len() as i32).write(&mut packet_data);
    buf_extend_from_slice(&mut packet_data, body);
    let ghost payload = bytes_mut_view(packet_data);
    assert(payload =~= varint_encoding(0) + varint_encoding(body@.len()) + body@);
    let mut packet = buf_new();
    proof {
        lemma_varint_encoding_len(payload.len() as i32);
    }
    McVarInt::new(buf_len(&packet_data) as i32).write(&mut packet);
    buf_extend(&mut packet, packet_data);
    buf_freeze(packet)
}

impl ClientBoundMcPacket {
    /// The text that the packet carries: the status JSON, or the JSON text
    /// component of the disconnect reason.
    pub open spec fn payload_text(self) -> Seq<char> {
        match self {
            ClientBoundMcPacket::StatusResponse { json_response } => json_response@,
            ClientBoundMcPacket::LoginDisconnect { reason } => text_component_json(reason@),
        }
    }

    /// Whether the packet's length fits the `i32` VarInt that frames it,
    /// and the packet fits in memory.
    pub open spec fn fits_frame(self) -> bool {
        &&& encode_utf8(self.payload_text()).len() + 6 <= i32::MAX
        &&& encode_utf8(self.payload_text()).len() + 11 <= isize::MAX
    }

    /// The disconnect packet whose reason is the lines joined by newlines.
    pub fn login_disconnect(reason: &Vec<String>) -> (r: Self)
        ensures
            r matches ClientBoundMcPacket::LoginDisconnect { reason: t } && t@ == join_with(
                texts(reason@),
                seq!['\n'],
            ),
    {
        let reason = join_lines(reason);
        ClientBoundMcPacket::LoginDisconnect { reason }
    }

    /// The bytes of the packet: its length, the id 0, and its text as a
    /// Minecraft string (UTF-8 bytes after their count).
    pub fn to_packet(&self) -> (r: bytes::Bytes)
        requires
            self.fits_frame(),
        ensures
            bytes_view(r) == packet_frame(encode_utf8(self.payload_text())),
    {
        match self {
            ClientBoundMcPacket::StatusResponse { json_response } => {
                frame_packet(json_response.as_str().as_bytes())
            },
            ClientBoundMcPacket::LoginDisconnect { reason } => {
                let data = text_component(reason);
                frame_packet(data.as_str().as_bytes())
            },
        }
    }

    /// The bytes of the packet as `to_packet` writes them, or `None` where
    /// its text is too long for the VarInt that frames it.
    pub fn try_to_packet(&self) -> (r: Option<bytes::Bytes>)
        ensures
            r is Some <==> self.fits_frame(),
            r matches Some(b) ==> bytes_view(b) == packet_frame(encode_utf8(self.payload_text())),
    {
        let len = match self {
            ClientBoundMcPacket::StatusResponse { json_response } => {
                json_response.as_str().as_bytes().len()
            },
            ClientBoundMcPacket::LoginDisconnect { reason } => {
                text_component(reason).as_str().as_bytes().len()
            },
        };
        assert(len == encode_utf8(self.payload_text()).len());
        if len <= (i32::MAX - 6) as usize && len <= (isize::MAX - 11) as usize {
            Some(self.to_packet())
        } else {
            None
        }
    }
}

/// A packet that `to_packet` writes reads back: its length prefix counts the
/// bytes after it, its id is 0, and its string field reads as its text with
/// nothing left over.
pub proof fn lemma_packet_frame_reads_back(text: Seq<char>)
    requires
        encode_utf8(text).len() + 6 <= i32::MAX,
    ensures
        ({
            let packet = packet_frame(encode_utf8(text));
            let payload = varint_encoding(0) + varint_encoding(encode_utf8(text).len())
                + encode_utf8(text);
            &&& varint_reading(packet) == Reading::Value(payload.len() as i32, payload)
            &&& varint_reading(payload) == Reading::Value(
                0i32,
                varint_encoding(encode_utf8(text).len()) + encode_utf8(text),
            )
            &&& string_reading(varint_encoding(encode_utf8(text).len()) + encode_utf8(text))
                == Reading::Value(text, Seq::<u8>::empty())
        }),
{
    let body = encode_utf8(text);
    let field = varint_encoding(body.len()) + body;
    let payload = varint_encoding(0) + varint_encoding(body.len()) + body;
    assert(payload =~= varint_encoding(0) + field);
    let packet = varint_encoding(payload.len()) + payload;
    lemma_varint_encoding_len(body.len() as i32);
    lemma_varint_encoding_len(0);
    lemma_varint_roundtrip(payload.len() as i32, payload);
    assert(packet.skip(varint_encoding(payload.len()).len() as int) =~= payload);
    lemma_varint_roundtrip(0, field);
    assert(payload.skip(varint_encoding(0).len() as int) =~= field);
    lemma_varint_roundtrip(body.len() as i32, body);
    assert(field.skip(varint_encoding(body.len()).len() as int) =~= body);
    assert(body.take(body.len() as int) =~= body);
    assert(body.skip(body.len() as int) =~= Seq::<u8>::empty());
    vstd::utf8::encode_utf8_valid_utf8(text);
    vstd::utf8::encode_utf8_decode_utf8(text);
    assert(varint_reading(packet) == Reading::Value(payload.len() as i32, payload));
    assert(varint_reading(payload) == Reading::Value(0i32, field));
    assert(varint_reading(field) == Reading::Value(body.len() as i32, body));
    assert((body.len() as i32) as int == body.len());
    assert(decode_utf8(body) == text);
    assert(string_reading(field) == Reading::Value(text, Seq::<u8>::empty()));
}


/// The encoding of a non-negative number, then any bytes, reads as that
/// number with those bytes left.
proof fn lemma_varint_reading_encoding(v: i32, rest: Seq<u8>)
    requires
        v >= 0,
    ensures
        varint_reading(varint_encoding(v as nat) + rest) == Reading::Value(v, rest),
{
    let e = varint_encoding(v as nat);
    lemma_varint_roundtrip(v, rest);
    assert((e + rest).skip(e.len() as int) =~= rest);
}

/// A string written as its byte count and its UTF-8 bytes, then any bytes,
/// reads as that text with those bytes left.
pub proof fn lemma_string_reading_roundtrip(t: Seq<char>, rest: Seq<u8>)
    requires
        encode_utf8(t).len() <= i32::MAX,
    ensures
        string_reading(varint_encoding(encode_utf8(t).len()) + encode_utf8(t) + rest)
            == Reading::Value(t, rest),
{
    let b = encode_utf8(t);
    let n = b.len() as i32;
    let s = varint_encoding(b.len()) + b + rest;
    assert(s =~= varint_encoding(n as nat) + (b + rest));
    lemma_varint_reading_encoding(n, b + rest);
    assert((b + rest).take(n as int) =~= b);
    assert((b + rest).skip(n as int) =~= rest);
    vstd::utf8::encode_utf8_valid_utf8(t);
    vstd::utf8::encode_utf8_decode_utf8(t);
}

/// A handshake body written field by field reads back: the packet id 0, the
/// protocol version, the address as a string, the port as two bytes (most
/// significant first) and the next state 1, 2 or 3 read as that version,
/// address, port and state (status, login, transfer), with the bytes after
/// the body left over.
pub proof fn lemma_handshake_reading_roundtrip(
    version: i32,
    address: Seq<char>,
    port: u16,
    state: i32,
    rest: Seq<u8>,
)
    requires
        version >= 0,
        encode_utf8(address).len() <= i32::MAX,
        1 <= state <= 3,
    ensures
        handshake_reading(
            varint_encoding(0) + varint_encoding(version as nat) + varint_encoding(
                encode_utf8(address).len(),
            ) + encode_utf8(address) + seq![(port / 256) as u8, (port % 256) as u8]
                + varint_encoding(state as nat) + rest,
        ) == Reading::Value(
            (
                version,
                address,
                port,
                if state == 1 {
                    HandshakeState::Status
                } else if state == 2 {
                    HandshakeState::Login
                } else {
                    HandshakeState::Transfer
                },
            ),
            rest,
        ),
{
    let b = encode_utf8(address);
    let str_bytes = varint_encoding(b.len()) + b;
    let port_bytes = seq![(port / 256) as u8, (port % 256) as u8];
    let r4 = varint_encoding(state as nat) + rest;
    let r3 = port_bytes + r4;
    let r2 = str_bytes + r3;
    let r1 = varint_encoding(version as nat) + r2;
    let s = varint_encoding(0) + r1;
    assert(s =~= varint_encoding(0) + varint_encoding(version as nat) + varint_encoding(b.len()) + b
        + port_bytes + varint_encoding(state as nat) + rest);
    lemma_varint_reading_encoding(0, r1);
    lemma_varint_reading_encoding(version, r2);
    assert(r2 =~= varint_encoding(b.len()) + b + r3);
    lemma_string_reading_roundtrip(address, r3);
    assert(r3[0] == (port / 256) as u8 && r3[1] == (port % 256) as u8);
    assert(((port / 256) as u8) * 256 + ((port % 256) as u8) == port);
    assert(r3.skip(2) =~= r4);
    lemma_varint_reading_encoding(state, rest);
}

/// A framed packet is its length, then a body of that many bytes: reading a
/// body after its length prefix (and before any other bytes) gives what
/// reading the body alone gives, with those other bytes left over. In
/// particular a length equal to the bytes of the body is never cut short.
pub proof fn lemma_packet_reading_framing(body: Seq<u8>, rest: Seq<u8>)
    requires
        body.len() + 5 <= i32::MAX,
    ensures
        packet_reading(varint_encoding(body.len()) + body + rest) == match handshake_reading(body) {
            Reading::Value(f, _) => Reading::Value(f, rest),
            Reading::Refused(e, _) => Reading::Refused(e, rest),
            Reading::Malformed(_) => Reading::Malformed(rest),
        },
{
    let n = body.len() as i32;
    let s = varint_encoding(body.len()) + body + rest;
    assert(s =~= varint_encoding(n as nat) + (body + rest));
    lemma_varint_reading_encoding(n, body + rest);
    assert((body + rest).take(n as int) =~= body);
    assert((body + rest).skip(n as int) =~= rest);
}

} // verus!
