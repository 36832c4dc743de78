//! RDP Gateway Protocol Binary Packets
//!
//! This module implements the binary packet structures for MS-TSGU protocol.
//! All packets are sent through the IN/OUT HTTP channels. All integers are
//! little-endian.
use vstd::prelude::*;
use vstd::slice::*;

use crate::text::{chars_of, decimal, push_char};

verus! {

// ---------------------------------------------------------------------------
// Little-endian integers
// ---------------------------------------------------------------------------

pub open spec fn le16(v: u16) -> Seq<u8> {
    seq![(v % 256) as u8, (v / 256) as u8]
}

pub open spec fn le32(v: u32) -> Seq<u8> {
    seq![(v % 256) as u8, ((v / 256) % 256) as u8, ((v / 65536) % 256) as u8, (v / 16777216) as u8]
}

/// The `u16` stored little-endian at `b[i..i + 2]`.
pub open spec fn u16_at(b: Seq<u8>, i: int) -> u16 {
    (b[i] + 256 * b[i + 1]) as u16
}

/// The `u32` stored little-endian at `b[i..i + 4]`.
pub open spec fn u32_at(b: Seq<u8>, i: int) -> u32 {
    (b[i] + 256 * b[i + 1] + 65536 * b[i + 2] + 16777216 * b[i + 3]) as u32
}

pub proof fn lemma_le16_roundtrip(v: u16, rest: Seq<u8>)
    ensures
        u16_at(le16(v) + rest, 0) == v,
{
    let b = le16(v) + rest;
    assert(b[0] == (v % 256) as u8);
    assert(b[1] == (v / 256) as u8);
}

pub proof fn lemma_le32_roundtrip(v: u32, rest: Seq<u8>)
    ensures
        u32_at(le32(v) + rest, 0) == v,
{
    let b = le32(v) + rest;
    assert(b[0] == (v % 256) as u8);
    assert(b[1] == ((v / 256) % 256) as u8);
    assert(b[2] == ((v / 65536) % 256) as u8);
    assert(b[3] == (v / 16777216) as u8);
}

fn put_u16(w: &mut Vec<u8>, v: u16)
    ensures
        final(w)@ == old(w)@ + le16(v),
{
    w.push((v % 256) as u8);
    w.push((v / 256) as u8);
    assert(final(w)@ =~= old(w)@ + le16(v));
}

fn put_u32(w: &mut Vec<u8>, v: u32)
    ensures
        final(w)@ == old(w)@ + le32(v),
{
    w.push((v % 256) as u8);
    w.push(((v / 256) % 256) as u8);
    w.push(((v / 65536) % 256) as u8);
    w.push((v / 16777216) as u8);
    assert(final(w)@ =~= old(w)@ + le32(v));
}

// ---------------------------------------------------------------------------
// Reading from a byte slice (`Read for &[u8]`)
// ---------------------------------------------------------------------------

/// `read_exact` on a slice: the first `n` bytes, advancing the slice; when
/// fewer are left, an end-of-input error and the slice is used up.
fn take_bytes<'a>(reader: &mut &'a [u8], n: usize) -> (res: Result<&'a [u8], RdgError>)
    ensures
        match res {
            Ok(b) => old(reader)@.len() >= n && b@ == old(reader)@.take(n as int) && final(reader)@ == old(reader)@.skip(n as int),
            Err(e) => old(reader)@.len() < n && e == RdgError::UnexpectedEof && final(reader)@
                == Seq::<u8>::empty(),
        },
{
    let len = reader.len();
    if len < n {
        *reader = slice_subrange(*reader, len, len);
        return Err(RdgError::UnexpectedEof);
    }
    let head = slice_subrange(*reader, 0, n);
    *reader = slice_subrange(*reader, n, len);
    Ok(head)
}

fn read_u16(reader: &mut &[u8]) -> (res: Result<u16, RdgError>)
    ensures
        match res {
            Ok(v) => old(reader)@.len() >= 2 && v == u16_at(old(reader)@, 0) && final(reader)@
                == old(reader)@.skip(2),
            Err(e) => old(reader)@.len() < 2 && e == RdgError::UnexpectedEof && final(reader)@
                == Seq::<u8>::empty(),
        },
{
    let b = take_bytes(reader, 2)?;
    Ok((b[0] as u16) + 256 * (b[1] as u16))
}

fn read_u32(reader: &mut &[u8]) -> (res: Result<u32, RdgError>)
    ensures
        match res {
            Ok(v) => old(reader)@.len() >= 4 && v == u32_at(old(reader)@, 0) && final(reader)@
                == old(reader)@.skip(4),
            Err(e) => old(reader)@.len() < 4 && e == RdgError::UnexpectedEof && final(reader)@
                == Seq::<u8>::empty(),
        },
{
    let b = take_bytes(reader, 4)?;
    Ok((b[0] as u32) + 256 * (b[1] as u32) + 65536 * (b[2] as u32) + 16777216 * (b[3] as u32))
}

// ---------------------------------------------------------------------------
// Errors and packet types
// ---------------------------------------------------------------------------

/// Why a packet could not be read.
#[derive(Debug, Clone, Copy, PartialEq, Eq, Structural)]
pub enum RdgError {
    /// The input ended before the packet did
    UnexpectedEof,
    /// The packet type field holds no known type
    UnknownPacketType(u16),
    /// The header announces fewer bytes than the response needs
    ResponseTooShort(PacketType, u32),
    /// A packet of another type arrived than the one expected
    UnexpectedPacketType(PacketType, PacketType),
}

/// Packet types used in HTTP_PACKET_HEADER
#[derive(Debug, Clone, Copy, PartialEq, Eq, Structural)]
pub enum PacketType {
    HandshakeRequest,
    HandshakeResponse,
    TunnelCreate,
    TunnelResponse,
    TunnelAuth,
    TunnelAuthResponse,
    ChannelCreate,
    ChannelResponse,
    Data,
    ServiceMessage,
    Reauth,
}

impl PacketType {
    /// The wire value of the packet type.
    pub open spec fn spec_code(self) -> u16 {
        match self {
            PacketType::HandshakeRequest => 0x0001,
            PacketType::HandshakeResponse => 0x0002,
            PacketType::TunnelCreate => 0x0003,
            PacketType::TunnelResponse => 0x0004,
            PacketType::TunnelAuth => 0x0005,
            PacketType::TunnelAuthResponse => 0x0006,
            PacketType::ChannelCreate => 0x0007,
            PacketType::ChannelResponse => 0x0008,
            PacketType::Data => 0x0009,
            PacketType::ServiceMessage => 0x000A,
            PacketType::Reauth => 0x000B,
        }
    }

    /// The packet type with the given wire value, if any.
    pub open spec fn spec_from_code(value: u16) -> Option<PacketType> {
        if value == 0x0001 {
            Some(PacketType::HandshakeRequest)
        } else if value == 0x0002 {
            Some(PacketType::HandshakeResponse)
        } else if value == 0x0003 {
            Some(PacketType::TunnelCreate)
        } else if value == 0x0004 {
            Some(PacketType::TunnelResponse)
        } else if value == 0x0005 {
            Some(PacketType::TunnelAuth)
        } else if value == 0x0006 {
            Some(PacketType::TunnelAuthResponse)
        } else if value == 0x0007 {
            Some(PacketType::ChannelCreate)
        } else if value == 0x0008 {
            Some(PacketType::ChannelResponse)
        } else if value == 0x0009 {
            Some(PacketType::Data)
        } else if value == 0x000A {
            Some(PacketType::ServiceMessage)
        } else if value == 0x000B {
            Some(PacketType::Reauth)
        } else {
            None
        }
    }

    /// Converts the packet type to its wire value
    pub fn code(self) -> (r: u16)
        ensures
            r == self.spec_code(),
    {
        match self {
            PacketType::HandshakeRequest => 0x0001,
            PacketType::HandshakeResponse => 0x0002,
            PacketType::TunnelCreate => 0x0003,
            PacketType::TunnelResponse => 0x0004,
            PacketType::TunnelAuth => 0x0005,
            PacketType::TunnelAuthResponse => 0x0006,
            PacketType::ChannelCreate => 0x0007,
            PacketType::ChannelResponse => 0x0008,
            PacketType::Data => 0x0009,
            PacketType::ServiceMessage => 0x000A,
            PacketType::Reauth => 0x000B,
        }
    }

    /// Converts a u16 to PacketType
    pub fn from_u16(value: u16) -> (r: Result<Self, RdgError>)
        ensures
            match PacketType::spec_from_code(value) {
                Some(t) => r == Ok::<PacketType, RdgError>(t),
                None => r == Err::<PacketType, RdgError>(RdgError::UnknownPacketType(value)),
            },
    {
        match value {
            0x0001 => Ok(PacketType::HandshakeRequest),
            0x0002 => Ok(PacketType::HandshakeResponse),
            0x0003 => Ok(PacketType::TunnelCreate),
            0x0004 => Ok(PacketType::TunnelResponse),
            0x0005 => Ok(PacketType::TunnelAuth),
            0x0006 => Ok(PacketType::TunnelAuthResponse),
            0x0007 => Ok(PacketType::ChannelCreate),
            0x0008 => Ok(PacketType::ChannelResponse),
            0x0009 => Ok(PacketType::Data),
            0x000A => Ok(PacketType::ServiceMessage),
            0x000B => Ok(PacketType::Reauth),
            _ => Err(RdgError::UnknownPacketType(value)),
        }
    }
}

/// Every packet type is found again from its wire value, and only from it.
pub proof fn lemma_packet_type_code_roundtrip(t: PacketType, value: u16)
    ensures
        PacketType::spec_from_code(t.spec_code()) == Some(t),
        PacketType::spec_from_code(value) matches Some(u) ==> u.spec_code() == value,
{
}

/// The wire codes of the packet types are those of MS-TSGU, 1 to 11 in the
/// order of the protocol, each response one above its request; no other
/// value names a packet type.
pub proof fn lemma_packet_type_wire_codes(value: u16)
    ensures
        PacketType::HandshakeRequest.spec_code() == 1,
        PacketType::HandshakeResponse.spec_code() == 2,
        PacketType::TunnelCreate.spec_code() == 3,
        PacketType::TunnelResponse.spec_code() == 4,
        PacketType::TunnelAuth.spec_code() == 5,
        PacketType::TunnelAuthResponse.spec_code() == 6,
        PacketType::ChannelCreate.spec_code() == 7,
        PacketType::ChannelResponse.spec_code() == 8,
        PacketType::Data.spec_code() == 9,
        PacketType::ServiceMessage.spec_code() == 10,
        PacketType::Reauth.spec_code() == 11,
        (PacketType::spec_from_code(value) is Some) == (1 <= value <= 11),
        PacketType::spec_from_code(9) == Some(PacketType::Data),
        PacketType::spec_from_code(10) == Some(PacketType::ServiceMessage),
        PacketType::spec_from_code(11) == Some(PacketType::Reauth),
{
}

/// Extended authentication types
#[derive(Debug, Clone, Copy)]
pub enum ExtendedAuth {
    NoAuth,
    Paa,
    Smartcard,
    Sspi,
}

impl ExtendedAuth {
    pub open spec fn spec_code(self) -> u16 {
        match self {
            ExtendedAuth::NoAuth => 0x0000,
            ExtendedAuth::Paa => 0x0001,
            ExtendedAuth::Smartcard => 0x0002,
            ExtendedAuth::Sspi => 0x0004,
        }
    }

    /// The wire value of the authentication type
    pub fn code(self) -> (r: u16)
        ensures
            r == self.spec_code(),
    {
        match self {
            ExtendedAuth::NoAuth => 0x0000,
            ExtendedAuth::Paa => 0x0001,
            ExtendedAuth::Smartcard => 0x0002,
            ExtendedAuth::Sspi => 0x0004,
        }
    }
}

// ---------------------------------------------------------------------------
// Header
// ---------------------------------------------------------------------------

/// HTTP packet header (8 bytes)
///
/// This is the common header for all RDG packets.
/// Format (little-endian):
/// - packetType: u16 (2 bytes)
/// - reserved: u16 (2 bytes) - must be 0
/// - packetLength: u32 (4 bytes) - total packet size including header
#[derive(Debug, Clone)]
pub struct HttpPacketHeader {
    pub packet_type: PacketType,
    pub packet_length: u32,
}

/// The 8 bytes of a header.
pub open spec fn header_bytes(t: PacketType, length: u32) -> Seq<u8> {
    le16(t.spec_code()) + le16(0) + le32(length)
}

/// What reading a header from `b` gives, and what is left of `b`.
pub open spec fn read_header_spec(b: Seq<u8>) -> (Result<HttpPacketHeader, RdgError>, Seq<u8>) {
    if b.len() < 2 {
        (Err(RdgError::UnexpectedEof), Seq::empty())
    } else {
        match PacketType::spec_from_code(u16_at(b, 0)) {
            None => (Err(RdgError::UnknownPacketType(u16_at(b, 0))), b.skip(2)),
            Some(t) => if b.len() < 8 {
                (Err(RdgError::UnexpectedEof), Seq::empty())
            } else {
                (Ok(HttpPacketHeader { packet_type: t, packet_length: u32_at(b, 4) }), b.skip(8))
            },
        }
    }
}

impl HttpPacketHeader {
    pub open spec fn spec_bytes(&self) -> Seq<u8> {
        header_bytes(self.packet_type, self.packet_length)
    }

    /// Creates a new packet header
    pub fn new(packet_type: PacketType, packet_length: u32) -> (r: Self)
        ensures
            r.packet_type == packet_type,
            r.packet_length == packet_length,
    {
        Self { packet_type, packet_length }
    }

    /// Writes the header to a writer (8 bytes, little-endian)
    pub fn write(&self, writer: &mut Vec<u8>) -> (r: Result<(), RdgError>)
        ensures
            r is Ok,
            final(writer)@ == old(writer)@ + self.spec_bytes(),
    {
        put_u16(writer, self.packet_type.code());
        put_u16(writer, 0);  // reserved
        put_u32(writer, self.packet_length);
        assert(final(writer)@ =~= old(writer)@ + self.spec_bytes());
        Ok(())
    }

    /// Reads a header from a reader (8 bytes, little-endian)
    pub fn read(reader: &mut &[u8]) -> (r: Result<Self, RdgError>)
        ensures
            (r, final(reader)@) == read_header_spec(old(reader)@),
    {
        let ghost b = reader@;
        // Read packet type
        let code = read_u16(reader)?;
        let packet_type = PacketType::from_u16(code)?;
        // Read reserved (skip)
        let _reserved = read_u16(reader);
        if _reserved.is_err() {
            return Err(RdgError::UnexpectedEof);
        }
        // Read packet length
        let r4 = read_u32(reader);
        let packet_length = match r4 {
            Ok(v) => v,
            Err(e) => return Err(e),
        };
        assert(b.skip(2).skip(2).skip(4) =~= b.skip(8));
        assert(u16_at(b.skip(2).skip(2), 0) == u16_at(b, 4));
        assert(u32_at(b.skip(2).skip(2), 0) == u32_at(b, 4));
        Ok(Self { packet_type, packet_length })
    }
}

/// Reading back the bytes that `write` produced gives the same header and
/// consumes exactly those bytes.
pub proof fn lemma_header_roundtrip(h: HttpPacketHeader, rest: Seq<u8>)
    ensures
        read_header_spec(h.spec_bytes() + rest) == (
            Ok::<HttpPacketHeader, RdgError>(h),
            rest,
        ),
{
    let t = h.packet_type;
    let b = h.spec_bytes() + rest;
    lemma_le16_roundtrip(t.spec_code(), le16(0) + le32(h.packet_length) + rest);
    assert(b =~= le16(t.spec_code()) + (le16(0) + le32(h.packet_length) + rest));
    lemma_le32_roundtrip(h.packet_length, rest);
    assert(b.skip(4) =~= le32(h.packet_length) + rest);
    assert(u32_at(b, 4) == u32_at(b.skip(4), 0));
    assert(b.skip(8) =~= rest);
}

// ---------------------------------------------------------------------------
// Requests
// ---------------------------------------------------------------------------

/// HTTP Handshake Request Packet
///
/// Sent by client to initiate RDG connection.
/// Total size: 14 bytes
#[derive(Debug, Clone)]
pub struct HttpHandshakeRequest {
    pub ver_major: u8,  // Protocol major version (1)
    pub ver_minor: u8,  // Protocol minor version (0)
    pub extended_auth: u16,  // Extended authentication flags
}

impl HttpHandshakeRequest {
    /// The 14 bytes of the packet: header, versions, client version 0, auth flags.
    pub open spec fn spec_bytes(&self) -> Seq<u8> {
        header_bytes(PacketType::HandshakeRequest, 14) + seq![self.ver_major, self.ver_minor]
            + le16(0) + le16(self.extended_auth)
    }

    /// Creates a new handshake request with PAA authentication
    pub fn new_with_paa() -> (r: Self)
        ensures
            r.ver_major == 1,
            r.ver_minor == 0,
            r.extended_auth == ExtendedAuth::Paa.spec_code(),
    {
        Self { ver_major: 1, ver_minor: 0, extended_auth: ExtendedAuth::Paa.code() }
    }

    /// Writes the complete packet (header + body) to a writer
    pub fn write(&self, writer: &mut Vec<u8>) -> (r: Result<(), RdgError>)
        ensures
            r is Ok,
            final(writer)@ == old(writer)@ + self.spec_bytes(),
            self.spec_bytes().len() == 14,
    {
        // Total packet size: 8 (header) + 6 (body) = 14 bytes
        let header = HttpPacketHeader::new(PacketType::HandshakeRequest, 14);
        let _ = header.write(writer);
        writer.push(self.ver_major);
        writer.push(self.ver_minor);
        put_u16(writer, 0);  // clientVersion (must be 0)
        put_u16(writer, self.extended_auth);
        assert(final(writer)@ =~= old(writer)@ + self.spec_bytes());
        Ok(())
    }
}

/// HTTP Tunnel Packet (Create Tunnel Request)
///
/// Sent by client to create a tunnel.
/// Minimum size: 16 bytes (without optional fields)
#[derive(Debug, Clone)]
pub struct HttpTunnelPacket {
    pub caps_flags: u32,  // Capability flags
    pub fields_present: u16,  // Indicates which optional fields are present
}

impl HttpTunnelPacket {
    /// The 16 bytes of the packet: header, capabilities, fields present, reserved.
    pub open spec fn spec_bytes(&self) -> Seq<u8> {
        header_bytes(PacketType::TunnelCreate, 16) + le32(self.caps_flags) + le16(
            self.fields_present,
        ) + le16(0)
    }

    /// Creates a new tunnel creation request
    pub fn new() -> (r: Self)
        ensures
            r.caps_flags == 1,
            r.fields_present == 0,
    {
        Self {
            caps_flags: 0x00000001,  // HTTP_CAPABILITY_TYPE_QUAR_SOH (basic capability)
            fields_present: 0,  // No optional fields
        }
    }

    /// Writes the complete packet to a writer
    pub fn write(&self, writer: &mut Vec<u8>) -> (r: Result<(), RdgError>)
        ensures
            r is Ok,
            final(writer)@ == old(writer)@ + self.spec_bytes(),
            self.spec_bytes().len() == 16,
    {
        // Total packet size: 8 (header) + 8 (body) = 16 bytes
        let header = HttpPacketHeader::new(PacketType::TunnelCreate, 16);
        let _ = header.write(writer);
        put_u32(writer, self.caps_flags);
        put_u16(writer, self.fields_present);
        put_u16(writer, 0);  // reserved
        assert(final(writer)@ =~= old(writer)@ + self.spec_bytes());
        Ok(())
    }
}

/// HTTP Tunnel Auth Packet
///
/// Sent by client for tunnel authentication.
/// Minimum size: 12 bytes (without auth data)
#[derive(Debug, Clone)]
pub struct HttpTunnelAuthPacket {
    pub fields_present: u16,  // Optional fields indicator
}

impl HttpTunnelAuthPacket {
    /// The 12 bytes of the packet: header, fields present, reserved.
    pub open spec fn spec_bytes(&self) -> Seq<u8> {
        header_bytes(PacketType::TunnelAuth, 12) + le16(self.fields_present) + le16(0)
    }

    /// Creates a new tunnel auth packet (no additional auth data needed with PAA)
    pub fn new() -> (r: Self)
        ensures
            r.fields_present == 0,
    {
        Self { fields_present: 0 }
    }

    /// Writes the complete packet to a writer
    pub fn write(&self, writer: &mut Vec<u8>) -> (r: Result<(), RdgError>)
        ensures
            r is Ok,
            final(writer)@ == old(writer)@ + self.spec_bytes(),
            self.spec_bytes().len() == 12,
    {
        // Total packet size: 8 (header) + 4 (body) = 12 bytes
        let header = HttpPacketHeader::new(PacketType::TunnelAuth, 12);
        let _ = header.write(writer);
        put_u16(writer, self.fields_present);
        put_u16(writer, 0);  // reserved
        assert(final(writer)@ =~= old(writer)@ + self.spec_bytes());
        Ok(())
    }
}

// ---------------------------------------------------------------------------
// Channel creation: resources as UTF-16LE text
// ---------------------------------------------------------------------------

/// The parts joined with `sep` between them.
pub open spec fn join(parts: Seq<Seq<char>>, sep: char) -> Seq<char>
    decreases parts.len(),
{
    if parts.len() == 0 {
        Seq::empty()
    } else if parts.len() == 1 {
        parts[0]
    } else {
        join(parts.drop_last(), sep) + seq![sep] + parts.last()
    }
}

/// The UTF-16 code units of one character.
pub open spec fn utf16_units(c: char) -> Seq<u16> {
    let u = c as u32;
    if u < 0x10000 {
        seq![u as u16]
    } else {
        seq![(0xD800 + (u - 0x10000) / 0x400) as u16, (0xDC00 + (u - 0x10000) % 0x400) as u16]
    }
}

/// `str::encode_utf16`.
pub open spec fn utf16(s: Seq<char>) -> Seq<u16>
    decreases s.len(),
{
    if s.len() == 0 {
        Seq::empty()
    } else {
        utf16(s.drop_last()) + utf16_units(s.last())
    }
}

/// Code units written little-endian.
pub open spec fn le16_all(us: Seq<u16>) -> Seq<u8>
    decreases us.len(),
{
    if us.len() == 0 {
        Seq::empty()
    } else {
        le16_all(us.drop_last()) + le16(us.last())
    }
}

/// HTTP Channel Packet (Create Channel Request)
///
/// Sent by client to create a data channel.
/// Size: varies based on target server name
#[derive(Debug, Clone)]
pub struct HttpChannelPacket {
    pub resources: Vec<String>,  // Target resources (e.g., server names)
}

/// The views of a list of strings.
pub open spec fn views(v: Seq<String>) -> Seq<Seq<char>> {
    v.map_values(|s: String| s@)
}

/// The bytes of a channel creation request for the given resources: header,
/// resource count, resource byte length (with terminator), the resources
/// joined with `;` as UTF-16LE, and a null terminator.
pub open spec fn channel_packet_bytes(rs: Seq<Seq<char>>) -> Seq<u8> {
    let units = utf16(join(rs, ';'));
    let size = 8 + 4 + 4 + 2 * units.len() + 2;
    header_bytes(PacketType::ChannelCreate, size as u32) + le32(rs.len() as u32) + le32(
        (2 * units.len() + 2) as u32,
    ) + le16_all(units) + le16(0)
}

impl HttpChannelPacket {
    /// The resources joined with `;`, as UTF-16 code units.
    pub open spec fn spec_units(&self) -> Seq<u16> {
        utf16(join(views(self.resources@), ';'))
    }

    /// Header, resource count, resource byte length (with terminator), the
    /// resources as UTF-16LE, and a null terminator.
    pub open spec fn spec_bytes(&self) -> Seq<u8> {
        channel_packet_bytes(views(self.resources@))
    }

    /// Creates a new channel creation request for `server:port`
    pub fn new(target_server: String, target_port: u16) -> (r: Self)
        ensures
            r.resources@.len() == 1,
            r.resources@[0]@ == target_server@ + seq![':'] + decimal(target_port as nat),
    {
        // Format: "server:port"
        let mut resource = target_server;
        push_char(&mut resource, ':');
        push_decimal(&mut resource, target_port);
        let mut resources: Vec<String> = Vec::new();
        resources.push(resource);
        Self { resources }
    }

    /// The resources joined with `;`, as UTF-16 code units.
    pub fn utf16_units(&self) -> (r: Vec<u16>)
        ensures
            r@ == self.spec_units(),
    {
        joined_utf16(&self.resources)
    }

    /// Writes the complete packet to a writer
    pub fn write(&self, writer: &mut Vec<u8>) -> (r: Result<(), RdgError>)
        requires
            2 * self.spec_units().len() + 18 <= usize::MAX,
        ensures
            r is Ok,
            final(writer)@ == old(writer)@ + self.spec_bytes(),
            self.spec_bytes().len() == 8 + 4 + 4 + 2 * self.spec_units().len() + 2,
    {
        // Resource string as UTF-16 code units
        let utf16_chars = joined_utf16(&self.resources);
        let resource_bytes = utf16_chars.len() * 2;
        // Total packet size: 8 (header) + 4 (count) + 4 (length) + resource_bytes + 2 (null terminator)
        let packet_size = 8 + 4 + 4 + resource_bytes + 2;
        let header = HttpPacketHeader::new(PacketType::ChannelCreate, packet_size as u32);
        let _ = header.write(writer);
        // Number of resources
        put_u32(writer, self.resources.len() as u32);
        // Resource string length (in bytes, including null terminator)
        put_u32(writer, (resource_bytes + 2) as u32);
        let ghost before_units = writer@;
        let mut i: usize = 0;
        while i < utf16_chars.len()
            invariant
                i <= utf16_chars@.len(),
                writer@ == before_units + le16_all(utf16_chars@.take(i as int)),
            decreases utf16_chars@.len() - i,
        {
            assert(utf16_chars@.take(i + 1).drop_last() =~= utf16_chars@.take(i as int));
            put_u16(writer, utf16_chars[i]);
            i = i + 1;
        }
        assert(utf16_chars@.take(utf16_chars@.len() as int) =~= utf16_chars@);
        // Null terminator
        put_u16(writer, 0);
        proof {
            lemma_le16_all_len(utf16_chars@);
        }
        assert(final(writer)@ =~= old(writer)@ + self.spec_bytes());
        Ok(())
    }
}

pub proof fn lemma_le16_all_len(us: Seq<u16>)
    ensures
        le16_all(us).len() == 2 * us.len(),
    decreases us.len(),
{
    if us.len() > 0 {
        lemma_le16_all_len(us.drop_last());
    }
}

/// Appends the decimal digits of `n`.
pub(crate) fn push_decimal(s: &mut String, n: u16)
    ensures
        final(s)@ == old(s)@ + decimal(n as nat),
    decreases n,
{
    if n >= 10 {
        push_decimal(s, n / 10);
        push_char(s, char_of_digit((n % 10) as u8));
    } else {
        push_char(s, char_of_digit(n as u8));
    }
    assert(final(s)@ =~= old(s)@ + decimal(n as nat));
}

fn char_of_digit(d: u8) -> (c: char)
    requires
        d < 10,
    ensures
        c == ((d + 0x30) as u32) as char,
{
    match d {
        0 => '0',
        1 => '1',
        2 => '2',
        3 => '3',
        4 => '4',
        5 => '5',
        6 => '6',
        7 => '7',
        8 => '8',
        _ => '9',
    }
}

/// The UTF-16 code units of one character.
fn push_utf16(out: &mut Vec<u16>, c: char)
    ensures
        final(out)@ == old(out)@ + utf16_units(c),
{
    let u = c as u32;
    if u < 0x10000 {
        out.push(u as u16);
    } else {
        let v = u - 0x10000;
        out.push((0xD800 + v / 0x400) as u16);
        out.push((0xDC00 + v % 0x400) as u16);
    }
    assert(final(out)@ =~= old(out)@ + utf16_units(c));
}

/// The resources joined with `;`, encoded as UTF-16.
fn joined_utf16(resources: &Vec<String>) -> (r: Vec<u16>)
    ensures
        r@ == utf16(join(views(resources@), ';')),
{
    let mut out: Vec<u16> = Vec::new();
    let ghost mut text: Seq<char> = Seq::empty();
    let mut i: usize = 0;
    while i < resources.len()
        invariant
            i <= resources@.len(),
            text == join(views(resources@.take(i as int)), ';'),
            out@ == utf16(text),
        decreases resources@.len() - i,
    {
        proof {
            let vs = views(resources@.take(i + 1));
            assert(vs.drop_last() =~= views(resources@.take(i as int)));
            assert(vs.last() == resources@[i as int]@);
        }
        if i > 0 {
            push_utf16(&mut out, ';');
            proof {
                lemma_utf16_push(text, ';');
                text = text.push(';');
            }
        }
        let cs = chars_of(resources[i].as_str());
        let mut j: usize = 0;
        assert(text + cs@.take(0) =~= text);
        while j < cs.len()
            invariant
                j <= cs@.len(),
                out@ == utf16(text + cs@.take(j as int)),
            decreases cs@.len() - j,
        {
            proof {
                lemma_utf16_push(text + cs@.take(j as int), cs@[j as int]);
                assert((text + cs@.take(j as int)).push(cs@[j as int]) =~= text + cs@.take(j + 1));
            }
            push_utf16(&mut out, cs[j]);
            j = j + 1;
        }
        proof {
            assert(cs@.take(cs@.len() as int) =~= cs@);
            let vs = views(resources@.take(i + 1));
            if i == 0 {
                assert(vs.len() == 1);
                assert(text + cs@ =~= cs@);
            } else {
                assert(join(vs, ';') =~= text + cs@);
            }
            text = text + cs@;
        }
        i = i + 1;
    }
    assert(resources@.take(resources@.len() as int) =~= resources@);
    out
}

proof fn lemma_utf16_push(s: Seq<char>, c: char)
    ensures
        utf16(s.push(c)) == utf16(s) + utf16_units(c),
{
    assert(s.push(c).drop_last() =~= s);
}

// ---------------------------------------------------------------------------
// Responses
// ---------------------------------------------------------------------------

/// HTTP Handshake Response Packet
///
/// Received from server in response to handshake request.
/// Total size: 18 bytes
#[derive(Debug, Clone)]
pub struct HttpHandshakeResponse {
    pub error_code: u32,  // HRESULT (0 = success)
    pub ver_major: u8,  // Server protocol major version
    pub ver_minor: u8,  // Server protocol minor version
    pub extended_auth: u16,  // Server supported auth methods
}

impl HttpHandshakeResponse {
    /// What reading the body `b` announced by `header` gives, and what is left of `b`:
    /// error code, versions, server version (skipped), auth methods.
    pub open spec fn read_spec(b: Seq<u8>, header: HttpPacketHeader) -> (Result<Self, RdgError>, Seq<u8>) {
        if header.packet_length < 18 {
            (Err(RdgError::ResponseTooShort(PacketType::HandshakeResponse, header.packet_length)), b)
        } else if b.len() < 10 {
            (Err(RdgError::UnexpectedEof), Seq::empty())
        } else {
            (
                Ok(
                    HttpHandshakeResponse {
                        error_code: u32_at(b, 0),
                        ver_major: b[4],
                        ver_minor: b[5],
                        extended_auth: u16_at(b, 8),
                    },
                ),
                b.skip(10),
            )
        }
    }

    /// Reads the packet from a reader (expects header already read)
    pub fn read(reader: &mut &[u8], header: &HttpPacketHeader) -> (r: Result<Self, RdgError>)
        ensures
            (r, final(reader)@) == Self::read_spec(old(reader)@, *header),
    {
        if header.packet_length < 18 {
            return Err(RdgError::ResponseTooShort(PacketType::HandshakeResponse, header.packet_length));
        }
        let b = take_bytes(reader, 10)?;
        let error_code = (b[0] as u32) + 256 * (b[1] as u32) + 65536 * (b[2] as u32) + 16777216 * (b[3] as u32);
        let ver_major = b[4];
        let ver_minor = b[5];
        // b[6..8]: server version (skipped)
        let extended_auth = (b[8] as u16) + 256 * (b[9] as u16);
        Ok(Self { error_code, ver_major, ver_minor, extended_auth })
    }

    /// Checks if the response indicates success
    pub fn is_success(&self) -> (r: bool)
        ensures
            r == (self.error_code == 0),
    {
        self.error_code == 0
    }
}

/// HTTP Tunnel Response Packet
///
/// Received from server in response to tunnel creation.
/// Minimum size: 20 bytes
#[derive(Debug, Clone)]
pub struct HttpTunnelResponse {
    pub server_version: u32,  // Server version
    pub error_code: u32,  // HRESULT (0 = success)
    pub fields_present: u16,  // Optional fields indicator
}

impl HttpTunnelResponse {
    /// What reading the body `b` announced by `header` gives, and what is left of `b`:
    /// server version, error code, fields present, reserved (skipped).
    pub open spec fn read_spec(b: Seq<u8>, header: HttpPacketHeader) -> (Result<Self, RdgError>, Seq<u8>) {
        if header.packet_length < 20 {
            (Err(RdgError::ResponseTooShort(PacketType::TunnelResponse, header.packet_length)), b)
        } else if b.len() < 12 {
            (Err(RdgError::UnexpectedEof), Seq::empty())
        } else {
            (
                Ok(
                    HttpTunnelResponse {
                        server_version: u32_at(b, 0),
                        error_code: u32_at(b, 4),
                        fields_present: u16_at(b, 8),
                    },
                ),
                b.skip(12),
            )
        }
    }

    /// Reads the packet from a reader (expects header already read)
    pub fn read(reader: &mut &[u8], header: &HttpPacketHeader) -> (r: Result<Self, RdgError>)
        ensures
            (r, final(reader)@) == Self::read_spec(old(reader)@, *header),
    {
        if header.packet_length < 20 {
            return Err(RdgError::ResponseTooShort(PacketType::TunnelResponse, header.packet_length));
        }
        let b = take_bytes(reader, 12)?;
        let server_version = (b[0] as u32) + 256 * (b[1] as u32) + 65536 * (b[2] as u32) + 16777216 * (b[3] as u32);
        let error_code = (b[4] as u32) + 256 * (b[5] as u32) + 65536 * (b[6] as u32) + 16777216 * (b[7] as u32);
        let fields_present = (b[8] as u16) + 256 * (b[9] as u16);
        // b[10..12]: reserved (skipped)
        Ok(Self { server_version, error_code, fields_present })
    }

    /// Checks if the response indicates success
    pub fn is_success(&self) -> (r: bool)
        ensures
            r == (self.error_code == 0),
    {
        self.error_code == 0
    }
}

/// HTTP Tunnel Auth Response Packet
///
/// Received from server in response to tunnel auth.
/// Minimum size: 16 bytes
#[derive(Debug, Clone)]
pub struct HttpTunnelAuthResponse {
    pub error_code: u32,  // HRESULT (0 = success)
    pub fields_present: u16,  // Optional fields indicator
}

impl HttpTunnelAuthResponse {
    /// What reading the body `b` announced by `header` gives, and what is left of `b`:
    /// error code, fields present, reserved (skipped).
    pub open spec fn read_spec(b: Seq<u8>, header: HttpPacketHeader) -> (Result<Self, RdgError>, Seq<u8>) {
        if header.packet_length < 16 {
            (Err(RdgError::ResponseTooShort(PacketType::TunnelAuthResponse, header.packet_length)), b)
        } else if b.len() < 8 {
            (Err(RdgError::UnexpectedEof), Seq::empty())
        } else {
            (
                Ok(HttpTunnelAuthResponse { error_code: u32_at(b, 0), fields_present: u16_at(b, 4) }),
                b.skip(8),
            )
        }
    }

    /// Reads the packet from a reader (expects header already read)
    pub fn read(reader: &mut &[u8], header: &HttpPacketHeader) -> (r: Result<Self, RdgError>)
        ensures
            (r, final(reader)@) == Self::read_spec(old(reader)@, *header),
    {
        if header.packet_length < 16 {
            return Err(RdgError::ResponseTooShort(PacketType::TunnelAuthResponse, header.packet_length));
        }
        let b = take_bytes(reader, 8)?;
        let error_code = (b[0] as u32) + 256 * (b[1] as u32) + 65536 * (b[2] as u32) + 16777216 * (b[3] as u32);
        let fields_present = (b[4] as u16) + 256 * (b[5] as u16);
        // b[6..8]: reserved (skipped)
        Ok(Self { error_code, fields_present })
    }

    /// Checks if the response indicates success
    pub fn is_success(&self) -> (r: bool)
        ensures
            r == (self.error_code == 0),
    {
        self.error_code == 0
    }
}

/// HTTP Channel Response Packet
///
/// Received from server in response to channel creation.
/// Minimum size: 28 bytes
#[derive(Debug, Clone)]
pub struct HttpChannelResponse {
    pub error_code: u32,  // HRESULT (0 = success)
    pub fields_present: u16,  // Optional fields indicator
    pub channel_id: u32,  // Assigned channel ID
}

impl HttpChannelResponse {
    /// What reading the body `b` announced by `header` gives, and what is left of `b`:
    /// error code, fields present, reserved, and the channel id at packet
    /// offset 0x10 (body offset 8).
    pub open spec fn read_spec(b: Seq<u8>, header: HttpPacketHeader) -> (Result<Self, RdgError>, Seq<u8>) {
        if header.packet_length < 28 {
            (Err(RdgError::ResponseTooShort(PacketType::ChannelResponse, header.packet_length)), b)
        } else if b.len() < 12 {
            (Err(RdgError::UnexpectedEof), Seq::empty())
        } else {
            (
                Ok(
                    HttpChannelResponse {
                        error_code: u32_at(b, 0),
                        fields_present: u16_at(b, 4),
                        channel_id: u32_at(b, 8),
                    },
                ),
                b.skip(12),
            )
        }
    }

    /// Reads the packet from a reader (expects header already read)
    pub fn read(reader: &mut &[u8], header: &HttpPacketHeader) -> (r: Result<Self, RdgError>)
        ensures
            (r, final(reader)@) == Self::read_spec(old(reader)@, *header),
    {
        if header.packet_length < 28 {
            return Err(RdgError::ResponseTooShort(PacketType::ChannelResponse, header.packet_length));
        }
        let b = take_bytes(reader, 12)?;
        let error_code = (b[0] as u32) + 256 * (b[1] as u32) + 65536 * (b[2] as u32) + 16777216 * (b[3] as u32);
        let fields_present = (b[4] as u16) + 256 * (b[5] as u16);
        // b[6..8]: reserved; the channel id follows at packet offset 0x10
        let channel_id = (b[8] as u32) + 256 * (b[9] as u32) + 65536 * (b[10] as u32) + 16777216 * (b[11] as u32);
        Ok(Self { error_code, fields_present, channel_id })
    }

    /// Checks if the response indicates success
    pub fn is_success(&self) -> (r: bool)
        ensures
            r == (self.error_code == 0),
    {
        self.error_code == 0
    }
}

} // verus!
