//! The binary header of the PROXY protocol, version 2, that tells the
//! upstream server the client's address.
use vstd::prelude::*;

verus! {

/// The twelve bytes that open every version 2 header.
pub open spec fn pp_signature() -> Seq<u8> {
    seq![0x0Du8, 0x0A, 0x0D, 0x0A, 0x00, 0x0D, 0x0A, 0x51, 0x55, 0x49, 0x54, 0x0A]
}

/// Address family: unspecified.
pub const AF_UNSPEC: u8 = 0x00;

/// Address family: IPv4.
pub const AF_INET: u8 = 0x10;

/// Address family: IPv6.
pub const AF_INET6: u8 = 0x20;

/// Address family: Unix socket.
pub const AF_UNIX: u8 = 0x30;

/// Transport: unspecified.
pub const TRANSPORT_UNSPEC: u8 = 0x00;

/// Transport: stream (TCP).
pub const TRANSPORT_STREAM: u8 = 0x01;

/// Transport: datagram (UDP).
pub const TRANSPORT_DGRAM: u8 = 0x02;

/// The command of a header: `Local` for a connection that the proxy opened
/// itself, `Proxy` for one that it relays.
#[derive(Debug, Clone, Copy, PartialEq, Eq, Structural)]
pub enum CommandV2 {
    Local,
    Proxy,
}

/// The byte of the version (2) and the command.
pub open spec fn command_byte(c: CommandV2) -> u8 {
    match c {
        CommandV2::Local => 0x20,
        CommandV2::Proxy => 0x21,
    }
}

impl CommandV2 {
    fn get_num(&self) -> (r: u8)
        ensures
            r == command_byte(*self),
    {
        match self {
            CommandV2::Local => 0x20,
            CommandV2::Proxy => 0x21,
        }
    }
}

/// The transport protocol of the relayed connection.
#[derive(Debug, Clone, Copy, PartialEq, Eq, Structural)]
pub enum TransportProtocol {
    Unspec,
    /// TCP
    Stream,
    /// UDP
    Dgram,
}

/// The low half of the family and transport byte.
pub open spec fn transport_bits(t: TransportProtocol) -> u8 {
    match t {
        TransportProtocol::Unspec => 0x00,
        TransportProtocol::Stream => 0x01,
        TransportProtocol::Dgram => 0x02,
    }
}

/// An IPv4 socket address: the four octets of the address, and the port.
#[derive(Debug, Clone, Copy, PartialEq, Eq)]
pub struct Ipv4Endpoint {
    pub ip: [u8; 4],
    pub port: u16,
}

/// An IPv6 socket address: the sixteen octets of the address, and the port.
#[derive(Debug, Clone, Copy, PartialEq, Eq)]
pub struct Ipv6Endpoint {
    pub ip: [u8; 16],
    pub port: u16,
}

/// A socket address of either family.
#[derive(Debug, Clone, Copy, PartialEq, Eq)]
pub enum ProxyEndpoint {
    V4(Ipv4Endpoint),
    V6(Ipv6Endpoint),
}

/// Why no header could be written.
#[derive(Debug, Clone, Copy, PartialEq, Eq, Structural)]
pub enum ProxyProtocolError {
    /// The source and the destination are of different address families.
    MixedAddressFamilies,
}

/// A number as two bytes, most significant first.
pub open spec fn be_u16(x: u16) -> Seq<u8> {
    seq![(x / 256) as u8, (x % 256) as u8]
}

/// The sixteen bytes of a header: signature, version and command, family
/// and transport, and the length of the address block that follows.
pub open spec fn header_bytes(command: CommandV2, family_and_transport: u8, length: u16) -> Seq<u8> {
    pp_signature() + seq![command_byte(command), family_and_transport] + be_u16(length)
}

/// The bytes that `append_pp_v2_ipv4` appends: a header for IPv4 over TCP,
/// then source address, destination address, source port, destination port.
pub open spec fn pp_v2_ipv4_bytes(src: Ipv4Endpoint, dest: Ipv4Endpoint, command: CommandV2) -> Seq<u8> {
    header_bytes(command, 0x11, 12) + src.ip@ + dest.ip@ + be_u16(src.port) + be_u16(dest.port)
}

/// The bytes that `append_pp_v2_ipv6` appends: a header for IPv6 over TCP,
/// then source address, destination address, source port, destination port.
pub open spec fn pp_v2_ipv6_bytes(src: Ipv6Endpoint, dest: Ipv6Endpoint, command: CommandV2) -> Seq<u8> {
    header_bytes(command, 0x21, 36) + src.ip@ + dest.ip@ + be_u16(src.port) + be_u16(dest.port)
}

/// The two bytes of a number, most significant first (`u16::to_be_bytes`).
fn u16_be_bytes(x: u16) -> (r: [u8; 2])
    ensures
        r@ == be_u16(x),
{
    let r = [(x / 256) as u8, (x % 256) as u8];
    assert(r@ =~= be_u16(x));
    r
}

/// Appends the bytes of a slice to a vector.
fn push_bytes(data: &mut Vec<u8>, bytes: &[u8])
    ensures
        final(data)@ == old(data)@ + bytes@,
{
    let mut i: usize = 0;
    while i < bytes.len()
        invariant
            i <= bytes@.len(),
            data@ == old(data)@ + bytes@.take(i as int),
        decreases bytes.len() - i,
    {
        data.push(bytes[i]);
        i = i + 1;
        assert(data@ =~= old(data)@ + bytes@.take(i as int));
    }
    assert(bytes@.take(bytes.len() as int) =~= bytes@);
}

/// The fixed part of a version 2 header.
struct ProxyHeaderV2 {
    sig: [u8; 12],
    version_and_command: u8,
    af_and_transport: u8,
    length: u16,
}

/// The signature that opens a header.
fn proxy_protocol_start() -> (r: [u8; 12])
    ensures
        r@ == pp_signature(),
{
    let r = [0x0Du8, 0x0A, 0x0D, 0x0A, 0x00, 0x0D, 0x0A, 0x51, 0x55, 0x49, 0x54, 0x0A];
    assert(r@ =~= pp_signature());
    r
}

impl ProxyHeaderV2 {
    spec fn view_bytes(self) -> Seq<u8> {
        self.sig@ + seq![self.version_and_command, self.af_and_transport] + be_u16(self.length)
    }

    /// The header for an IPv4 address block (twelve bytes).
    fn create_v4(addr: Ipv4Endpoint, command: CommandV2, transport: TransportProtocol) -> (r: ProxyHeaderV2)
        ensures
            r.view_bytes() == header_bytes(command, (0x10 + transport_bits(transport)) as u8, 12),
    {
        let af_and_transport = match transport {
            TransportProtocol::Unspec => AF_INET | TRANSPORT_UNSPEC,
            TransportProtocol::Stream => AF_INET | TRANSPORT_STREAM,
            TransportProtocol::Dgram => AF_INET | TRANSPORT_DGRAM,
        };
        assert(0x10u8 | 0x00u8 == 0x10u8) by (bit_vector);
        assert(0x10u8 | 0x01u8 == 0x11u8) by (bit_vector);
        assert(0x10u8 | 0x02u8 == 0x12u8) by (bit_vector);
        let length: u16 = 12;
        ProxyHeaderV2 {
            sig: proxy_protocol_start(),
            version_and_command: command.get_num(),
            af_and_transport,
            length,
        }
    }

    /// The header for an IPv6 address block (thirty-six bytes).
    fn create_v6(addr: Ipv6Endpoint, command: CommandV2, transport: TransportProtocol) -> (r: ProxyHeaderV2)
        ensures
            r.view_bytes() == header_bytes(command, (0x20 + transport_bits(transport)) as u8, 36),
    {
        let af_and_transport = match transport {
            TransportProtocol::Unspec => AF_INET6 | TRANSPORT_UNSPEC,
            TransportProtocol::Stream => AF_INET6 | TRANSPORT_STREAM,
            TransportProtocol::Dgram => AF_INET6 | TRANSPORT_DGRAM,
        };
        assert(0x20u8 | 0x00u8 == 0x20u8) by (bit_vector);
        assert(0x20u8 | 0x01u8 == 0x21u8) by (bit_vector);
        assert(0x20u8 | 0x02u8 == 0x22u8) by (bit_vector);
        let length: u16 = 36;
        ProxyHeaderV2 {
            sig: proxy_protocol_start(),
            version_and_command: command.get_num(),
            af_and_transport,
            length,
        }
    }

    fn to_bytes(&self) -> (r: Vec<u8>)
        ensures
            r@ == self.view_bytes(),
    {
        let mut data = Vec::new();
        push_bytes(&mut data, self.sig.as_slice());
        data.push(self.version_and_command);
        data.push(self.af_and_transport);
        push_bytes(&mut data, u16_be_bytes(self.length).as_slice());
        assert(data@ =~= self.view_bytes());
        data
    }
}

/// The address block for IPv4.
struct V4ProxyAddress {
    src: Ipv4Endpoint,
    dest: Ipv4Endpoint,
}

impl V4ProxyAddress {
    fn to_bytes(&self) -> (r: Vec<u8>)
        ensures
            r@ == self.src.ip@ + self.dest.ip@ + be_u16(self.src.port) + be_u16(self.dest.port),
    {
        let mut data = Vec::new();
        push_bytes(&mut data, self.src.ip.as_slice());
        push_bytes(&mut data, self.dest.ip.as_slice());
        push_bytes(&mut data, u16_be_bytes(self.src.port).as_slice());
        push_bytes(&mut data, u16_be_bytes(self.dest.port).as_slice());
        assert(data@ =~= self.src.ip@ + self.dest.ip@ + be_u16(self.src.port) + be_u16(self.dest.port));
        data
    }
}

/// The address block for IPv6.
struct V6ProxyAddress {
    src: Ipv6Endpoint,
    dest: Ipv6Endpoint,
}

impl V6ProxyAddress {
    fn to_bytes(&self) -> (r: Vec<u8>)
        ensures
            r@ == self.src.ip@ + self.dest.ip@ + be_u16(self.src.port) + be_u16(self.dest.port),
    {
        let mut data = Vec::new();
        push_bytes(&mut data, self.src.ip.as_slice());
        push_bytes(&mut data, self.dest.ip.as_slice());
        push_bytes(&mut data, u16_be_bytes(self.src.port).as_slice());
        push_bytes(&mut data, u16_be_bytes(self.dest.port).as_slice());
        assert(data@ =~= self.src.ip@ + self.dest.ip@ + be_u16(self.src.port) + be_u16(self.dest.port));
        data
    }
}

/// Appends a version 2 header for a TCP connection from `src` to `dest`
/// over IPv4.
pub fn append_pp_v2_ipv4(data: &mut Vec<u8>, src: Ipv4Endpoint, dest: Ipv4Endpoint, command: CommandV2)
    ensures
        final(data)@ == old(data)@ + pp_v2_ipv4_bytes(src, dest, command),
{
    let header = ProxyHeaderV2::create_v4(dest, command, TransportProtocol::Stream);
    push_bytes(data, header.to_bytes().as_slice());
    let addr = V4ProxyAddress { src, dest };
    push_bytes(data, addr.to_bytes().as_slice());
    assert(data@ =~= old(data)@ + pp_v2_ipv4_bytes(src, dest, command));
}

/// Appends a version 2 header for a TCP connection from `src` to `dest`
/// over IPv6.
pub fn append_pp_v2_ipv6(data: &mut Vec<u8>, src: Ipv6Endpoint, dest: Ipv6Endpoint, command: CommandV2)
    ensures
        final(data)@ == old(data)@ + pp_v2_ipv6_bytes(src, dest, command),
{
    let header = ProxyHeaderV2::create_v6(dest, command, TransportProtocol::Stream);
    push_bytes(data, header.to_bytes().as_slice());
    let addr = V6ProxyAddress { src, dest };
    push_bytes(data, addr.to_bytes().as_slice());
    assert(data@ =~= old(data)@ + pp_v2_ipv6_bytes(src, dest, command));
}

/// Appends a version 2 header for a TCP connection from `src` to `dest`,
/// of their address family; two addresses of different families are
/// refused and nothing is appended.
pub fn append_proxy_protocol_v2(
    data: &mut Vec<u8>,
    src: ProxyEndpoint,
    dest: ProxyEndpoint,
    command: CommandV2,
) -> (r: Result<(), ProxyProtocolError>)
    ensures
        match (src, dest) {
            (ProxyEndpoint::V4(s), ProxyEndpoint::V4(d)) => r is Ok && final(data)@ == old(data)@
                + pp_v2_ipv4_bytes(s, d, command),
            (ProxyEndpoint::V6(s), ProxyEndpoint::V6(d)) => r is Ok && final(data)@ == old(data)@
                + pp_v2_ipv6_bytes(s, d, command),
            _ => r == Err::<(), ProxyProtocolError>(ProxyProtocolError::MixedAddressFamilies)
                && final(data)@ == old(data)@,
        },
{
    match (src, dest) {
        (ProxyEndpoint::V4(s), ProxyEndpoint::V4(d)) => {
            append_pp_v2_ipv4(data, s, d, command);
            Ok(())
        },
        (ProxyEndpoint::V6(s), ProxyEndpoint::V6(d)) => {
            append_pp_v2_ipv6(data, s, d, command);
            Ok(())
        },
        _ => Err(ProxyProtocolError::MixedAddressFamilies),
    }
}

/// The length field of a header counts the bytes of the address block that
/// follows the sixteen header bytes: 12 for IPv4, 36 for IPv6.
pub proof fn lemma_pp_v2_length_field(
    s4: Ipv4Endpoint,
    d4: Ipv4Endpoint,
    s6: Ipv6Endpoint,
    d6: Ipv6Endpoint,
    command: CommandV2,
)
    ensures
        ({
            let b = pp_v2_ipv4_bytes(s4, d4, command);
            &&& b.subrange(0, 12) == pp_signature()
            &&& b[12] == command_byte(command)
            &&& b[14] * 256 + b[15] == b.len() - 16
        }),
        ({
            let b = pp_v2_ipv6_bytes(s6, d6, command);
            &&& b.subrange(0, 12) == pp_signature()
            &&& b[12] == command_byte(command)
            &&& b[14] * 256 + b[15] == b.len() - 16
        }),
{
    let b4 = pp_v2_ipv4_bytes(s4, d4, command);
    assert(b4.subrange(0, 12) =~= pp_signature());
    let b6 = pp_v2_ipv6_bytes(s6, d6, command);
    assert(b6.subrange(0, 12) =~= pp_signature());
}


/// The layout of an IPv4 header: 28 bytes; the signature; the command byte;
/// family IPv4 and transport TCP; the length 12; then the source address,
/// the destination address, the source port and the destination port, each
/// port most significant byte first.
pub proof fn lemma_pp_v2_ipv4_layout(src: Ipv4Endpoint, dest: Ipv4Endpoint, command: CommandV2)
    ensures
        ({
            let b = pp_v2_ipv4_bytes(src, dest, command);
            &&& b.len() == 28
            &&& b.subrange(0, 12) == pp_signature()
            &&& b[12] == command_byte(command)
            &&& b[13] == 0x11
            &&& b[14] == 0 && b[15] == 12
            &&& b.subrange(16, 20) == src.ip@
            &&& b.subrange(20, 24) == dest.ip@
            &&& b[24] * 256 + b[25] == src.port
            &&& b[26] * 256 + b[27] == dest.port
        }),
{
    let b = pp_v2_ipv4_bytes(src, dest, command);
    assert(b.subrange(0, 12) =~= pp_signature());
    assert(b.subrange(16, 20) =~= src.ip@);
    assert(b.subrange(20, 24) =~= dest.ip@);
    assert(b[24] == (src.port / 256) as u8 && b[25] == (src.port % 256) as u8);
    assert(b[26] == (dest.port / 256) as u8 && b[27] == (dest.port % 256) as u8);
}

/// The layout of an IPv6 header: 52 bytes; the signature; the command byte;
/// family IPv6 and transport TCP; the length 36; then the source address,
/// the destination address, the source port and the destination port, each
/// port most significant byte first.
pub proof fn lemma_pp_v2_ipv6_layout(src: Ipv6Endpoint, dest: Ipv6Endpoint, command: CommandV2)
    ensures
        ({
            let b = pp_v2_ipv6_bytes(src, dest, command);
            &&& b.len() == 52
            &&& b.subrange(0, 12) == pp_signature()
            &&& b[12] == command_byte(command)
            &&& b[13] == 0x21
            &&& b[14] == 0 && b[15] == 36
            &&& b.subrange(16, 32) == src.ip@
            &&& b.subrange(32, 48) == dest.ip@
            &&& b[48] * 256 + b[49] == src.port
            &&& b[50] * 256 + b[51] == dest.port
        }),
{
    let b = pp_v2_ipv6_bytes(src, dest, command);
    assert(b.subrange(0, 12) =~= pp_signature());
    assert(b.subrange(16, 32) =~= src.ip@);
    assert(b.subrange(32, 48) =~= dest.ip@);
    assert(b[48] == (src.port / 256) as u8 && b[49] == (src.port % 256) as u8);
    assert(b[50] == (dest.port / 256) as u8 && b[51] == (dest.port % 256) as u8);
}

} // verus!
