//! RDP Gateway (RDG) protocol decisions
//!
//! The Microsoft Remote Desktop Gateway protocol (MS-TSGU) uses two HTTP
//! channels for bidirectional communication:
//! - OUT channel: receives data from server (using RDG_OUT_DATA method, chunked encoding)
//! - IN channel: sends data to server (using RDG_IN_DATA method, chunked encoding)
//!
//! Authentication uses PAA (Pluggable Authentication Architecture) with SSO tokens.
//!
//! ## Connection Flow
//!
//! 1. Create OUT channel → HTTP 200 + seed payload (ignored)
//! 2. Create IN channel → HTTP 200
//! 3. Send/receive binary RDG packets through chunked HTTP encoding
//! 4. RDG handshake → tunnel → channel → RDP data
//!
//! This module holds what is decided at each step; the sockets are driven by
//! the caller.
use vstd::prelude::*;
use vstd::string::*;

use crate::rdp_parser::lines;
use crate::sia::chunked::{chunk_frame, encode_chunk, from_utf8_lossy, lossy_text};
use crate::sia::rdg_packets::{
    header_bytes, lemma_header_roundtrip, lemma_le16_all_len, le16, le16_all, le32, read_header_spec,
    u32_at,
    channel_packet_bytes, join, utf16, views, ExtendedAuth, HttpChannelPacket, HttpChannelResponse, HttpHandshakeRequest,
    HttpHandshakeResponse, HttpPacketHeader, HttpTunnelAuthPacket, HttpTunnelAuthResponse,
    HttpTunnelPacket, HttpTunnelResponse, PacketType, RdgError,
};
use crate::text::{
    chars_of, decimal, find, find_char, lemma_decimal_lacks, lemma_find_properties,
    lemma_find_unique, lemma_parse_u16_decimal, parse_u16, parse_u16_in,
};

verus! {

/// Why connecting through the gateway failed.
#[derive(Debug)]
pub enum GatewayError {
    /// The gateway hostname names a port that is not a `u16`
    InvalidGatewayPort(String),
    /// A channel was refused; the status line of the response (or "Unknown error")
    ChannelFailed(ChannelKind, ChannelStage, String),
    /// A handshake packet could not be read
    Packet(RdgError),
    /// The handshake response carried an error code
    HandshakeFailed(u32),
    /// The tunnel response carried an error code
    TunnelCreateFailed(u32),
    /// The tunnel authentication response carried an error code
    TunnelAuthFailed(u32),
    /// The channel response carried an error code
    ChannelCreateFailed(u32),
}

/// Gateway connection that handles communication with CyberArk RDP Gateway
pub struct GatewayConnection {
    gateway_host: String,
    gateway_port: u16,
    target_server: String,
    target_port: u16,
    paa_cookie: String,  // SSO token for authentication
}

/// The host and port named by a gateway hostname: `host:port`, or a bare
/// host on port 443; `Err` holds a port text that does not parse.
pub open spec fn spec_gateway_address(h: Seq<char>) -> Result<(Seq<char>, u16), Seq<char>> {
    match find(h, ':') {
        Some(i) => match parse_u16(h.skip(i as int + 1)) {
            Some(p) => Ok((h.take(i as int), p)),
            None => Err(h.skip(i as int + 1)),
        },
        None => Ok((h, 443)),
    }
}

impl GatewayConnection {
    pub closed spec fn host(&self) -> Seq<char> {
        self.gateway_host@
    }

    pub closed spec fn port(&self) -> u16 {
        self.gateway_port
    }

    pub closed spec fn target(&self) -> Seq<char> {
        self.target_server@
    }

    pub closed spec fn target_port_spec(&self) -> u16 {
        self.target_port
    }

    pub closed spec fn cookie(&self) -> Seq<char> {
        self.paa_cookie@
    }

    /// Creates a new gateway connection
    ///
    /// # Arguments
    /// * `gateway_hostname` - Gateway server hostname (can include :port)
    /// * `target_server` - Target RDP server to connect to
    /// * `target_port` - Target RDP server port
    /// * `paa_cookie` - SSO token for PAA authentication
    /// * `_password` - Password (not used in current implementation)
    pub fn new(
        gateway_hostname: &str,
        target_server: String,
        target_port: u16,
        paa_cookie: String,
        _password: String,
    ) -> (r: Result<Self, GatewayError>)
        ensures
            match spec_gateway_address(gateway_hostname@) {
                Ok((host, port)) => r matches Ok(c) && c.host() == host && c.port() == port
                    && c.target() == target_server@ && c.target_port_spec() == target_port
                    && c.cookie() == paa_cookie@,
                Err(p) => r matches Err(GatewayError::InvalidGatewayPort(s)) && s@ == p,
            },
    {
        // Parse hostname and port (default to 443 if not specified)
        let cs = chars_of(gateway_hostname);
        let n = cs.len();
        let i = find_char(&cs, 0, n, ':');
        assert(cs@.subrange(0, n as int) =~= cs@);
        let (gateway_host, gateway_port) = if i < n {
            assert(cs@.subrange(i + 1, n as int) =~= cs@.skip(i + 1));
            assert(cs@.subrange(0, i as int) =~= cs@.take(i as int));
            match parse_u16_in(&cs, i + 1, n) {
                Some(port) => (String::from_str(gateway_hostname.substring_char(0, i)), port),
                None => {
                    return Err(
                        GatewayError::InvalidGatewayPort(
                            String::from_str(gateway_hostname.substring_char(i + 1, n)),
                        ),
                    );
                },
            }
        } else {
            (String::from_str(gateway_hostname), 443)
        };
        Ok(Self { gateway_host, gateway_port, target_server, target_port, paa_cookie })
    }

    pub fn gateway_host(&self) -> (r: &str)
        ensures
            r@ == self.host(),
    {
        self.gateway_host.as_str()
    }

    pub fn gateway_port(&self) -> (r: u16)
        ensures
            r == self.port(),
    {
        self.gateway_port
    }

    pub fn target_server(&self) -> (r: &str)
        ensures
            r@ == self.target(),
    {
        self.target_server.as_str()
    }

    pub fn target_port(&self) -> (r: u16)
        ensures
            r == self.target_port_spec(),
    {
        self.target_port
    }
}

// ---------------------------------------------------------------------------
// HTTP responses
// ---------------------------------------------------------------------------

pub open spec fn crlf_crlf() -> Seq<u8> {
    seq![13u8, 10u8, 13u8, 10u8]
}

/// Whether a blank line (`\r\n\r\n`) starts at `j`.
pub open spec fn blank_at(b: Seq<u8>, j: int) -> bool {
    b.subrange(j, j + 4) == crlf_crlf()
}

/// Offset of the first `\r\n\r\n` in `b`, if any.
pub open spec fn header_end(b: Seq<u8>) -> Option<nat>
    decreases b.len(),
{
    if b.len() < 4 {
        None
    } else if b.take(4) == crlf_crlf() {
        Some(0)
    } else {
        match header_end(b.drop_first()) {
            Some(i) => Some(i + 1),
            None => None,
        }
    }
}

/// The body of an HTTP response held in `b`: what follows the first blank line.
pub open spec fn http_body(b: Seq<u8>) -> Seq<u8> {
    match header_end(b) {
        Some(i) => b.skip(i as int + 4),
        None => Seq::empty(),
    }
}

proof fn lemma_header_end_at(b: Seq<u8>, k: int)
    requires
        0 <= k,
        k + 4 <= b.len(),
        b.subrange(k, k + 4) == crlf_crlf(),
        forall|j: int| 0 <= j < k ==> !#[trigger] blank_at(b, j),
    ensures
        header_end(b) == Some(k as nat),
    decreases k,
{
    if k == 0 {
        assert(b.take(4) =~= b.subrange(0, 4));
    } else {
        assert(b.take(4) =~= b.subrange(0, 4));
        assert(!blank_at(b, 0));
        let t = b.drop_first();
        assert(t.subrange(k - 1, k + 3) =~= b.subrange(k, k + 4));
        assert forall|j: int| 0 <= j < k - 1 implies !#[trigger] blank_at(t, j) by {
            assert(t.subrange(j, j + 4) =~= b.subrange(j + 1, j + 5));
            assert(!blank_at(b, j + 1));
        }
        lemma_header_end_at(t, k - 1);
    }
}

proof fn lemma_header_end_none(b: Seq<u8>)
    requires
        forall|j: int| 0 <= j && j + 4 <= b.len() ==> !#[trigger] blank_at(b, j),
    ensures
        header_end(b) is None,
    decreases b.len(),
{
    if b.len() >= 4 {
        assert(b.take(4) =~= b.subrange(0, 4));
        assert(!blank_at(b, 0));
        let t = b.drop_first();
        assert forall|j: int| 0 <= j && j + 4 <= t.len() implies !#[trigger] blank_at(t, j) by {
            assert(t.subrange(j, j + 4) =~= b.subrange(j + 1, j + 5));
            assert(!blank_at(b, j + 1));
        }
        lemma_header_end_none(t);
    }
}

/// Helper function to extract HTTP body data from response buffer
///
/// Finds the end of HTTP headers (`\r\n\r\n`) in the first `len` bytes and
/// returns the rest of them; nothing when there is no blank line, or when
/// `len` is below 4 (then the buffer may be shorter than `len`).
pub fn extract_http_body(buffer: &[u8], len: usize) -> (r: Vec<u8>)
    requires
        len <= buffer@.len() || len <= 3,
    ensures
        len <= buffer@.len() ==> r@ == http_body(buffer@.take(len as int)),
        len > buffer@.len() ==> r@.len() == 0,
{
    if len > buffer.len() {
        return Vec::new();
    }
    let ghost b = buffer@.take(len as int);
    // Look for end of HTTP headers (\r\n\r\n)
    let end = if len >= 3 {
        len - 3
    } else {
        0
    };
    let mut i: usize = 0;
    while i < end
        invariant
            len <= buffer@.len(),
            b == buffer@.take(len as int),
            end == (if len >= 3 {
                len - 3
            } else {
                0
            }),
            i <= end,
            forall|j: int| 0 <= j < i ==> !#[trigger] blank_at(b, j),
        decreases end - i,
    {
        if buffer[i] == 13 && buffer[i + 1] == 10 && buffer[i + 2] == 13 && buffer[i + 3] == 10 {
            proof {
                assert(b.subrange(i as int, i + 4) =~= crlf_crlf());
                lemma_header_end_at(b, i as int);
            }
            let body_start = i + 4;
            let mut out: Vec<u8> = Vec::new();
            let mut k = body_start;
            while k < len
                invariant
                    body_start <= k <= len <= buffer@.len(),
                    out@ == buffer@.subrange(body_start as int, k as int),
                decreases len - k,
            {
                out.push(buffer[k]);
                assert(out@ =~= buffer@.subrange(body_start as int, k + 1));
                k = k + 1;
            }
            assert(b.skip(body_start as int) =~= buffer@.subrange(body_start as int, len as int));
            return out;
        }
        proof {
            assert(!blank_at(b, i as int)) by {
                if b.subrange(i as int, i + 4) == crlf_crlf() {
                    assert(b.subrange(i as int, i + 4)[0] == buffer@[i as int]);
                    assert(b.subrange(i as int, i + 4)[1] == buffer@[i + 1]);
                    assert(b.subrange(i as int, i + 4)[2] == buffer@[i + 2]);
                    assert(b.subrange(i as int, i + 4)[3] == buffer@[i + 3]);
                }
            }
        }
        i = i + 1;
    }
    proof {
        lemma_header_end_none(b);
    }
    Vec::new()
}

/// Whether `text` begins with `prefix`.
pub open spec fn starts_with(text: Seq<char>, prefix: Seq<char>) -> bool {
    prefix.len() <= text.len() && text.take(prefix.len() as int) == prefix
}

fn starts_with_str(text: &Vec<char>, prefix: &str) -> (r: bool)
    ensures
        r == starts_with(text@, prefix@),
{
    let p = chars_of(prefix);
    if p.len() > text.len() {
        return false;
    }
    let mut i: usize = 0;
    while i < p.len()
        invariant
            p@ == prefix@,
            p@.len() <= text@.len(),
            i <= p@.len(),
            forall|j: int| 0 <= j < i ==> text@[j] == p@[j],
        decreases p@.len() - i,
    {
        if text[i] != p[i] {
            assert(text@.take(p@.len() as int)[i as int] != p@[i as int]);
            return false;
        }
        i = i + 1;
    }
    assert(text@.take(p@.len() as int) =~= p@);
    true
}

/// The status of an HTTP response text: 401 or 200 for HTTP/1.1 or HTTP/1.0.
pub open spec fn is_status(text: Seq<char>, code: u16) -> bool {
    if code == 401 {
        starts_with(text, "HTTP/1.1 401"@) || starts_with(text, "HTTP/1.0 401"@)
    } else {
        starts_with(text, "HTTP/1.1 200"@) || starts_with(text, "HTTP/1.0 200"@)
    }
}

/// The first line of a response text, for an error message.
pub open spec fn status_line(text: Seq<char>) -> Seq<char> {
    if lines(text).len() > 0 {
        lines(text)[0]
    } else {
        "Unknown error"@
    }
}

fn first_line_or_unknown(text: &str) -> (r: String)
    ensures
        r@ == status_line(text@),
{
    let cs = chars_of(text);
    let n = cs.len();
    if n == 0 {
        return String::from_str("Unknown error");
    }
    let nl = find_char(&cs, 0, n, '\n');
    assert(cs@.subrange(0, n as int) =~= cs@);
    let end = if nl < n && nl > 0 && cs[nl - 1] == '\r' {
        nl - 1
    } else {
        nl
    };
    proof {
        if nl < n {
            if nl > 0 && cs@[nl - 1] == '\r' {
                assert(cs@.take(nl as int).drop_last() =~= cs@.subrange(0, end as int));
            } else {
                assert(cs@.take(nl as int) =~= cs@.subrange(0, end as int));
            }
            assert(lines(cs@)[0] == crate::rdp_parser::strip_cr(cs@.take(nl as int)));
        } else {
            assert(cs@.subrange(0, end as int) =~= cs@);
        }
    }
    String::from_str(text.substring_char(0, end))
}

// ---------------------------------------------------------------------------
// Channel creation
// ---------------------------------------------------------------------------

#[derive(Debug, Clone, Copy, PartialEq, Eq, Structural)]
pub enum ChannelKind {
    /// Server to client (RDG_OUT_DATA)
    Out,
    /// Client to server (RDG_IN_DATA, chunked)
    In,
}

#[derive(Debug, Clone, Copy, PartialEq, Eq, Structural)]
pub enum ChannelStage {
    /// The first request, without credentials
    Initial,
    /// The request repeated with the PAA token
    Authenticating,
}

/// What to do with a channel's HTTP response.
#[derive(Debug)]
pub enum ChannelReply {
    /// The server asks for authentication: send this request
    SendAuth(String),
    /// The channel is open; for the OUT channel, the body bytes after the headers
    Established(Vec<u8>),
    /// The channel was refused
    Failed(GatewayError),
}

/// The HTTP request that opens a channel.
pub open spec fn channel_request_text(
    kind: ChannelKind,
    host: Seq<char>,
    auth: Option<Seq<char>>,
    connection_id: Seq<char>,
    correlation_id: Seq<char>,
) -> Seq<char> {
    let method = match kind {
        ChannelKind::Out => "RDG_OUT_DATA /remoteDesktopGateway/ HTTP/1.1\r\n"@,
        ChannelKind::In => "RDG_IN_DATA /remoteDesktopGateway/ HTTP/1.1\r\n"@,
    };
    let auth_line = match auth {
        Some(cookie) => "Authorization: PAA "@ + cookie + "\r\n"@,
        None => Seq::empty(),
    };
    let encoding_line = match kind {
        ChannelKind::Out => Seq::empty(),
        ChannelKind::In => "Transfer-Encoding: chunked\r\n"@,
    };
    method + "Host: "@ + host + "\r\n"@ + "User-Agent: MS-RDGateway/1.0\r\n"@
        + "Connection: Keep-Alive\r\n"@ + auth_line + encoding_line + "RDG-Connection-Id: "@
        + connection_id + "\r\n"@ + "RDG-Correlation-Id: "@ + correlation_id + "\r\n"@ + "\r\n"@
}

/// What a channel response decides: a 401 to the first request asks for the
/// PAA token; anything but a 200 refuses the channel; a 200 opens it.
pub open spec fn spec_channel_reply(
    c: GatewayConnection,
    kind: ChannelKind,
    stage: ChannelStage,
    response: Seq<u8>,
    connection_id: Seq<char>,
    correlation_id: Seq<char>,
    reply: ChannelReply,
) -> bool {
    let text = lossy_text(response);
    if stage == ChannelStage::Initial && is_status(text, 401) {
        reply matches ChannelReply::SendAuth(req) && req@ == channel_request_text(
            kind,
            c.host(),
            Some(c.cookie()),
            connection_id,
            correlation_id,
        )
    } else if !is_status(text, 200) {
        reply matches ChannelReply::Failed(GatewayError::ChannelFailed(k, s, line)) && k == kind
            && s == stage && line@ == status_line(text)
    } else {
        reply matches ChannelReply::Established(body) && body@ == match kind {
            ChannelKind::Out => http_body(response),
            ChannelKind::In => Seq::empty(),
        }
    }
}

impl GatewayConnection {
    /// The HTTP request that opens a channel, with the PAA token when
    /// `authenticated`.
    pub fn channel_request(
        &self,
        kind: ChannelKind,
        authenticated: bool,
        connection_id: &str,
        correlation_id: &str,
    ) -> (r: String)
        ensures
            r@ == channel_request_text(
                kind,
                self.host(),
                if authenticated {
                    Some(self.cookie())
                } else {
                    None
                },
                connection_id@,
                correlation_id@,
            ),
    {
        let mut s = match kind {
            ChannelKind::Out => String::from_str("RDG_OUT_DATA /remoteDesktopGateway/ HTTP/1.1\r\n"),
            ChannelKind::In => String::from_str("RDG_IN_DATA /remoteDesktopGateway/ HTTP/1.1\r\n"),
        };
        s.append("Host: ");
        s.append(self.gateway_host.as_str());
        s.append("\r\n");
        s.append("User-Agent: MS-RDGateway/1.0\r\n");
        s.append("Connection: Keep-Alive\r\n");
        let ghost before_auth = s@;
        if authenticated {
            s.append("Authorization: PAA ");
            s.append(self.paa_cookie.as_str());
            s.append("\r\n");
        }
        let ghost before_enc = s@;
        match kind {
            ChannelKind::In => s.append("Transfer-Encoding: chunked\r\n"),
            ChannelKind::Out => {},
        }
        let ghost before_ids = s@;
        s.append("RDG-Connection-Id: ");
        s.append(connection_id);
        s.append("\r\n");
        s.append("RDG-Correlation-Id: ");
        s.append(correlation_id);
        s.append("\r\n");
        s.append("\r\n");
        proof {
            let auth_line = if authenticated {
                "Authorization: PAA "@ + self.cookie() + "\r\n"@
            } else {
                Seq::<char>::empty()
            };
            let encoding_line = match kind {
                ChannelKind::Out => Seq::<char>::empty(),
                ChannelKind::In => "Transfer-Encoding: chunked\r\n"@,
            };
            assert(before_enc =~= before_auth + auth_line);
            assert(before_ids =~= before_enc + encoding_line);
            assert(s@ =~= channel_request_text(
                kind,
                self.host(),
                if authenticated {
                    Some(self.cookie())
                } else {
                    None
                },
                connection_id@,
                correlation_id@,
            ));
        }
        s
    }

    /// Decides what a channel's HTTP response means (the first `response`
    /// bytes that one read of the channel gave).
    pub fn on_channel_response(
        &self,
        kind: ChannelKind,
        stage: ChannelStage,
        response: &[u8],
        connection_id: &str,
        correlation_id: &str,
    ) -> (r: ChannelReply)
        ensures
            spec_channel_reply(*self, kind, stage, response@, connection_id@, correlation_id@, r),
    {
        let text = from_utf8_lossy(response);
        let cs = chars_of(text.as_str());
        let unauthorized = starts_with_str(&cs, "HTTP/1.1 401") || starts_with_str(
            &cs,
            "HTTP/1.0 401",
        );
        if stage == ChannelStage::Initial && unauthorized {
            return ChannelReply::SendAuth(
                self.channel_request(kind, true, connection_id, correlation_id),
            );
        }
        let ok = starts_with_str(&cs, "HTTP/1.1 200") || starts_with_str(&cs, "HTTP/1.0 200");
        if !ok {
            return ChannelReply::Failed(
                GatewayError::ChannelFailed(kind, stage, first_line_or_unknown(text.as_str())),
            );
        }
        match kind {
            ChannelKind::Out => {
                assert(response@.take(response@.len() as int) =~= response@);
                ChannelReply::Established(extract_http_body(response, response.len()))
            },
            ChannelKind::In => ChannelReply::Established(Vec::new()),
        }
    }
}

// ---------------------------------------------------------------------------
// Connection identifiers
// ---------------------------------------------------------------------------

/// A lowercase hexadecimal digit.
pub open spec fn is_lower_hex(c: char) -> bool {
    ('0' <= c && c <= '9') || ('a' <= c && c <= 'f')
}

/// The hyphenated lowercase text of a random (version 4, RFC variant) UUID:
/// `xxxxxxxx-xxxx-4xxx-yxxx-xxxxxxxxxxxx`, `y` one of `8`, `9`, `a`, `b`.
pub open spec fn is_uuid_v4_text(s: Seq<char>) -> bool {
    &&& s.len() == 36
    &&& forall|i: int|
        0 <= i < 36 ==> if i == 8 || i == 13 || i == 18 || i == 23 {
            s[i] == '-'
        } else {
            is_lower_hex(#[trigger] s[i])
        }
    &&& s[14] == '4'
    &&& (s[19] == '8' || s[19] == '9' || s[19] == 'a' || s[19] == 'b')
}

/// The lowercase hexadecimal digit of `d < 16`.
pub open spec fn lower_hex_char(d: u8) -> char {
    if d < 10 {
        (0x30 + d) as char
    } else {
        (0x57 + d) as char
    }
}

/// Bytes written as lowercase hexadecimal, two digits each.
pub open spec fn hex_bytes(b: Seq<u8>) -> Seq<char>
    decreases b.len(),
{
    if b.len() == 0 {
        Seq::empty()
    } else {
        seq![lower_hex_char(b[0] / 16), lower_hex_char(b[0] % 16)] + hex_bytes(b.drop_first())
    }
}

/// The hyphenated lowercase text of a UUID's 16 bytes: groups of 4, 2, 2, 2
/// and 6 bytes.
pub open spec fn uuid_text(b: Seq<u8>) -> Seq<char> {
    hex_bytes(b.subrange(0, 4)) + seq!['-'] + hex_bytes(b.subrange(4, 6)) + seq!['-'] + hex_bytes(
        b.subrange(6, 8),
    ) + seq!['-'] + hex_bytes(b.subrange(8, 10)) + seq!['-'] + hex_bytes(b.subrange(10, 16))
}

/// Random bytes made a version 4 UUID of the RFC variant: the high nibble of
/// byte 6 becomes 4, the two high bits of byte 8 become `10`.
pub open spec fn random_uuid_bytes(b: Seq<u8>) -> Seq<u8> {
    b.update(6, (b[6] % 16 + 0x40) as u8).update(8, (b[8] % 64 + 0x80) as u8)
}

/// Calls `uuid::Builder::from_random_bytes`, which sets the version and
/// variant bits of the given bytes, and writes the UUID with `to_string`,
/// whose `Display` is the hyphenated lowercase form.
#[verifier::external_body]
fn uuid_text_from_random(bytes: [u8; 16]) -> (r: String)
    ensures
        r@ == uuid_text(random_uuid_bytes(bytes@)),
{
    uuid::Builder::from_random_bytes(bytes).into_uuid().to_string()
}

proof fn lemma_hex_bytes(b: Seq<u8>)
    ensures
        hex_bytes(b).len() == 2 * b.len(),
        forall|i: int|
            0 <= i < b.len() ==> hex_bytes(b)[2 * i] == lower_hex_char(b[i] / 16) && hex_bytes(
                b,
            )[2 * i + 1] == lower_hex_char(b[i] % 16),
    decreases b.len(),
{
    if b.len() > 0 {
        let t = b.drop_first();
        lemma_hex_bytes(t);
        assert forall|i: int| 0 <= i < b.len() implies hex_bytes(b)[2 * i] == lower_hex_char(
            b[i] / 16,
        ) && hex_bytes(b)[2 * i + 1] == lower_hex_char(b[i] % 16) by {
            if i > 0 {
                assert(b[i] == t[i - 1]);
                assert(hex_bytes(b)[2 * i] == hex_bytes(t)[2 * (i - 1)]);
                assert(hex_bytes(b)[2 * i + 1] == hex_bytes(t)[2 * (i - 1) + 1]);
            }
        }
    }
}

proof fn lemma_lower_hex_char(d: u8)
    requires
        d < 16,
    ensures
        is_lower_hex(lower_hex_char(d)),
        d < 10 ==> lower_hex_char(d) as u32 == 0x30 + d,
        d >= 10 ==> lower_hex_char(d) as u32 == 0x57 + d,
{
}

/// Every hexadecimal digit is a lowercase one.
proof fn lemma_hex_digits_lower(b: Seq<u8>)
    ensures
        forall|j: int| 0 <= j < hex_bytes(b).len() ==> is_lower_hex(#[trigger] hex_bytes(b)[j]),
{
    lemma_hex_bytes(b);
    assert forall|j: int| 0 <= j < hex_bytes(b).len() implies is_lower_hex(
        #[trigger] hex_bytes(b)[j],
    ) by {
        let i = j / 2;
        let x = b[i];
        assert(x / 16 < 16 && x % 16 < 16);
        lemma_lower_hex_char(x / 16);
        lemma_lower_hex_char(x % 16);
        if j % 2 == 0 {
            assert(j == 2 * i);
        } else {
            assert(j == 2 * i + 1);
        }
    }
}

/// The text of random bytes made a UUID has the form of a version 4 UUID.
pub proof fn lemma_random_uuid_text(b: Seq<u8>)
    requires
        b.len() == 16,
    ensures
        is_uuid_v4_text(uuid_text(random_uuid_bytes(b))),
{
    let u = random_uuid_bytes(b);
    let g0 = u.subrange(0, 4);
    let g1 = u.subrange(4, 6);
    let g2 = u.subrange(6, 8);
    let g3 = u.subrange(8, 10);
    let g4 = u.subrange(10, 16);
    lemma_hex_bytes(g0);
    lemma_hex_bytes(g1);
    lemma_hex_bytes(g2);
    lemma_hex_bytes(g3);
    lemma_hex_bytes(g4);
    lemma_hex_digits_lower(g0);
    lemma_hex_digits_lower(g1);
    lemma_hex_digits_lower(g2);
    lemma_hex_digits_lower(g3);
    lemma_hex_digits_lower(g4);
    let t = uuid_text(u);
    assert(t.len() == 36);
    assert(g2[0] == u[6]);
    assert(g3[0] == u[8]);
    assert(t[14] == hex_bytes(g2)[0]);
    assert(t[19] == hex_bytes(g3)[0]);
    assert(u[6] / 16 == 4);
    assert(8 <= u[8] / 16 <= 11);
    assert forall|i: int| 0 <= i < 36 implies if i == 8 || i == 13 || i == 18 || i == 23 {
        t[i] == '-'
    } else {
        is_lower_hex(#[trigger] t[i])
    } by {
        if i < 8 {
            assert(t[i] == hex_bytes(g0)[i]);
        } else if 8 < i < 13 {
            assert(t[i] == hex_bytes(g1)[i - 9]);
        } else if 13 < i < 18 {
            assert(t[i] == hex_bytes(g2)[i - 14]);
        } else if 18 < i < 23 {
            assert(t[i] == hex_bytes(g3)[i - 19]);
        } else if 23 < i {
            assert(t[i] == hex_bytes(g4)[i - 24]);
        }
    }
}

/// The identifiers that both channels of one connection carry.
#[derive(Debug, Clone)]
pub struct ChannelIds {
    pub connection_id: String,
    pub correlation_id: String,
}

/// The identifiers of a connection to the gateway, made from 16 random bytes
/// each: version 4 UUIDs in their hyphenated lowercase text.
pub fn new_channel_ids(connection_bytes: [u8; 16], correlation_bytes: [u8; 16]) -> (r: ChannelIds)
    ensures
        r.connection_id@ == uuid_text(random_uuid_bytes(connection_bytes@)),
        r.correlation_id@ == uuid_text(random_uuid_bytes(correlation_bytes@)),
        is_uuid_v4_text(r.connection_id@),
        is_uuid_v4_text(r.correlation_id@),
{
    let connection_id = uuid_text_from_random(connection_bytes);
    let correlation_id = uuid_text_from_random(correlation_bytes);
    proof {
        lemma_random_uuid_text(connection_bytes@);
        lemma_random_uuid_text(correlation_bytes@);
    }
    ChannelIds { connection_id, correlation_id }
}

// ---------------------------------------------------------------------------
// The RDG handshake
// ---------------------------------------------------------------------------

/// The steps of the RDG protocol handshake:
/// 1. Handshake (negotiate protocol version and auth)
/// 2. Tunnel creation (establish tunnel with capabilities)
/// 3. Tunnel authentication (authenticate the tunnel)
/// 4. Channel creation (create data channel for RDP traffic)
#[derive(Debug, Clone, Copy, PartialEq, Eq, Structural)]
pub enum HandshakeStage {
    Handshake,
    TunnelCreate,
    TunnelAuth,
    ChannelCreate,
}

/// Where the handshake stands after a response.
#[derive(Debug, Clone, Copy, PartialEq, Eq, Structural)]
pub enum HandshakeProgress {
    /// Go on with this stage
    Next(HandshakeStage),
    /// The data channel was created, with this id
    Complete(u32),
}

/// The resource that the data channel is created for: `server:port`.
pub open spec fn channel_resource(server: Seq<char>, port: u16) -> Seq<char> {
    server + seq![':'] + decimal(port as nat)
}

/// Whether the size of the channel creation request fits in a `usize`.
pub open spec fn channel_request_fits(server: Seq<char>, port: u16) -> bool {
    2 * utf16(channel_resource(server, port)).len() + 18 <= usize::MAX
}

/// The packet that a stage sends.
pub open spec fn stage_packet(c: GatewayConnection, stage: HandshakeStage) -> Seq<u8> {
    match stage {
        HandshakeStage::Handshake => HttpHandshakeRequest {
            ver_major: 1,
            ver_minor: 0,
            extended_auth: ExtendedAuth::Paa.spec_code(),
        }.spec_bytes(),
        HandshakeStage::TunnelCreate => HttpTunnelPacket {
            caps_flags: 1,
            fields_present: 0,
        }.spec_bytes(),
        HandshakeStage::TunnelAuth => HttpTunnelAuthPacket { fields_present: 0 }.spec_bytes(),
        HandshakeStage::ChannelCreate => channel_packet_bytes(
            seq![channel_resource(c.target(), c.target_port_spec())],
        ),
    }
}

/// The type of the response that a stage waits for.
pub open spec fn expected_response_type(stage: HandshakeStage) -> PacketType {
    match stage {
        HandshakeStage::Handshake => PacketType::HandshakeResponse,
        HandshakeStage::TunnelCreate => PacketType::TunnelResponse,
        HandshakeStage::TunnelAuth => PacketType::TunnelAuthResponse,
        HandshakeStage::ChannelCreate => PacketType::ChannelResponse,
    }
}

/// What a stage's response body decides: a response that cannot be read or
/// that carries a non-zero error code ends the handshake with an error;
/// otherwise the next stage follows, and after the channel, its id.
pub open spec fn spec_stage_response(
    stage: HandshakeStage,
    header: HttpPacketHeader,
    body: Seq<u8>,
) -> Result<HandshakeProgress, GatewayError> {
    match stage {
        HandshakeStage::Handshake => match HttpHandshakeResponse::read_spec(body, header).0 {
            Err(e) => Err(GatewayError::Packet(e)),
            Ok(resp) => if resp.error_code != 0 {
                Err(GatewayError::HandshakeFailed(resp.error_code))
            } else {
                Ok(HandshakeProgress::Next(HandshakeStage::TunnelCreate))
            },
        },
        HandshakeStage::TunnelCreate => match HttpTunnelResponse::read_spec(body, header).0 {
            Err(e) => Err(GatewayError::Packet(e)),
            Ok(resp) => if resp.error_code != 0 {
                Err(GatewayError::TunnelCreateFailed(resp.error_code))
            } else {
                Ok(HandshakeProgress::Next(HandshakeStage::TunnelAuth))
            },
        },
        HandshakeStage::TunnelAuth => match HttpTunnelAuthResponse::read_spec(body, header).0 {
            Err(e) => Err(GatewayError::Packet(e)),
            Ok(resp) => if resp.error_code != 0 {
                Err(GatewayError::TunnelAuthFailed(resp.error_code))
            } else {
                Ok(HandshakeProgress::Next(HandshakeStage::ChannelCreate))
            },
        },
        HandshakeStage::ChannelCreate => match HttpChannelResponse::read_spec(body, header).0 {
            Err(e) => Err(GatewayError::Packet(e)),
            Ok(resp) => if resp.error_code != 0 {
                Err(GatewayError::ChannelCreateFailed(resp.error_code))
            } else {
                Ok(HandshakeProgress::Complete(resp.channel_id))
            },
        },
    }
}

/// A refused stage ends the handshake: for each stage, a response body that
/// is long enough is read for its error code (the little-endian `u32` at
/// body offset 0, or 4 for the tunnel response); a non-zero code gives that
/// stage's error carrying the code, and only a zero code lets the handshake
/// go on, to the next stage in order or, after the channel, to the channel id
/// at body offset 8.
pub proof fn lemma_refused_stage_stops(stage: HandshakeStage, header: HttpPacketHeader, body: Seq<u8>)
    ensures
        stage == HandshakeStage::Handshake && header.packet_length >= 18 && body.len() >= 10
            ==> spec_stage_response(stage, header, body) == if u32_at(body, 0) != 0 {
            Err::<HandshakeProgress, GatewayError>(GatewayError::HandshakeFailed(u32_at(body, 0)))
        } else {
            Ok(HandshakeProgress::Next(HandshakeStage::TunnelCreate))
        },
        stage == HandshakeStage::TunnelCreate && header.packet_length >= 20 && body.len() >= 12
            ==> spec_stage_response(stage, header, body) == if u32_at(body, 4) != 0 {
            Err::<HandshakeProgress, GatewayError>(GatewayError::TunnelCreateFailed(u32_at(body, 4)))
        } else {
            Ok(HandshakeProgress::Next(HandshakeStage::TunnelAuth))
        },
        stage == HandshakeStage::TunnelAuth && header.packet_length >= 16 && body.len() >= 8
            ==> spec_stage_response(stage, header, body) == if u32_at(body, 0) != 0 {
            Err::<HandshakeProgress, GatewayError>(GatewayError::TunnelAuthFailed(u32_at(body, 0)))
        } else {
            Ok(HandshakeProgress::Next(HandshakeStage::ChannelCreate))
        },
        stage == HandshakeStage::ChannelCreate && header.packet_length >= 28 && body.len() >= 12
            ==> spec_stage_response(stage, header, body) == if u32_at(body, 0) != 0 {
            Err::<HandshakeProgress, GatewayError>(GatewayError::ChannelCreateFailed(u32_at(body, 0)))
        } else {
            Ok(HandshakeProgress::Complete(u32_at(body, 8)))
        },
{
}

/// Errors are compared by what they carry; the message text of a channel
/// failure is compared by its view.
pub open spec fn same_error(a: GatewayError, b: GatewayError) -> bool {
    match (a, b) {
        (GatewayError::InvalidGatewayPort(x), GatewayError::InvalidGatewayPort(y)) => x@ == y@,
        (GatewayError::ChannelFailed(k1, s1, x), GatewayError::ChannelFailed(k2, s2, y)) => k1
            == k2 && s1 == s2 && x@ == y@,
        _ => a == b,
    }
}

pub open spec fn same_result(
    a: Result<HandshakeProgress, GatewayError>,
    b: Result<HandshakeProgress, GatewayError>,
) -> bool {
    match (a, b) {
        (Ok(x), Ok(y)) => x == y,
        (Err(x), Err(y)) => same_error(x, y),
        _ => false,
    }
}

impl GatewayConnection {
    /// Whether the channel creation request of this connection can be sized.
    pub fn channel_request_fits(&self) -> (r: bool)
        ensures
            r == channel_request_fits(self.target(), self.target_port_spec()),
    {
        let packet = HttpChannelPacket::new(self.target_server.clone(), self.target_port);
        let units = packet.utf16_units();
        proof {
            assert(views(packet.resources@) =~= seq![packet.resources@[0]@]);
            assert(join(views(packet.resources@), ';') == packet.resources@[0]@);
        }
        units.len() <= (usize::MAX - 18) / 2
    }

    /// The bytes that a stage sends through the IN channel: its packet,
    /// written as one HTTP chunk.
    pub fn stage_request(&self, stage: HandshakeStage) -> (r: Vec<u8>)
        requires
            stage == HandshakeStage::ChannelCreate ==> channel_request_fits(
                self.target(),
                self.target_port_spec(),
            ),
        ensures
            r@ == chunk_frame(stage_packet(*self, stage)),
    {
        let mut buf: Vec<u8> = Vec::new();
        match stage {
            HandshakeStage::Handshake => {
                let _ = HttpHandshakeRequest::new_with_paa().write(&mut buf);
            },
            HandshakeStage::TunnelCreate => {
                let _ = HttpTunnelPacket::new().write(&mut buf);
            },
            HandshakeStage::TunnelAuth => {
                let _ = HttpTunnelAuthPacket::new().write(&mut buf);
            },
            HandshakeStage::ChannelCreate => {
                let packet = HttpChannelPacket::new(self.target_server.clone(), self.target_port);
                proof {
                    assert(views(packet.resources@) =~= seq![
                        channel_resource(self.target(), self.target_port_spec()),
                    ]);
                }
                let _ = packet.write(&mut buf);
            },
        }
        assert(buf@ =~= stage_packet(*self, stage));
        encode_chunk(buf.as_slice())
    }
}

/// The type of the response that a stage waits for.
pub fn stage_response_type(stage: HandshakeStage) -> (r: PacketType)
    ensures
        r == expected_response_type(stage),
{
    match stage {
        HandshakeStage::Handshake => PacketType::HandshakeResponse,
        HandshakeStage::TunnelCreate => PacketType::TunnelResponse,
        HandshakeStage::TunnelAuth => PacketType::TunnelAuthResponse,
        HandshakeStage::ChannelCreate => PacketType::ChannelResponse,
    }
}

/// Checks the header of a response: it must be of the expected type; the
/// body that follows has `packet_length - 8` bytes.
pub fn response_body_len(header: &HttpPacketHeader, expected: PacketType) -> (r: Result<
    usize,
    GatewayError,
>)
    requires
        header.packet_type == expected ==> header.packet_length >= 8,
    ensures
        header.packet_type == expected ==> (r matches Ok(n) && n == header.packet_length - 8),
        header.packet_type != expected ==> (r matches Err(e) && e == GatewayError::Packet(
            RdgError::UnexpectedPacketType(expected, header.packet_type),
        )),
{
    if header.packet_type != expected {
        return Err(GatewayError::Packet(RdgError::UnexpectedPacketType(expected, header.packet_type)));
    }
    Ok((header.packet_length - 8) as usize)
}

/// Reads a stage's response body and decides how the handshake goes on.
pub fn stage_response(stage: HandshakeStage, header: &HttpPacketHeader, body: &[u8]) -> (r: Result<
    HandshakeProgress,
    GatewayError,
>)
    ensures
        same_result(r, spec_stage_response(stage, *header, body@)),
{
    let mut reader = body;
    match stage {
        HandshakeStage::Handshake => match HttpHandshakeResponse::read(&mut reader, header) {
            Err(e) => Err(GatewayError::Packet(e)),
            Ok(resp) => {
                if !resp.is_success() {
                    return Err(GatewayError::HandshakeFailed(resp.error_code));
                }
                Ok(HandshakeProgress::Next(HandshakeStage::TunnelCreate))
            },
        },
        HandshakeStage::TunnelCreate => match HttpTunnelResponse::read(&mut reader, header) {
            Err(e) => Err(GatewayError::Packet(e)),
            Ok(resp) => {
                if !resp.is_success() {
                    return Err(GatewayError::TunnelCreateFailed(resp.error_code));
                }
                Ok(HandshakeProgress::Next(HandshakeStage::TunnelAuth))
            },
        },
        HandshakeStage::TunnelAuth => match HttpTunnelAuthResponse::read(&mut reader, header) {
            Err(e) => Err(GatewayError::Packet(e)),
            Ok(resp) => {
                if !resp.is_success() {
                    return Err(GatewayError::TunnelAuthFailed(resp.error_code));
                }
                Ok(HandshakeProgress::Next(HandshakeStage::ChannelCreate))
            },
        },
        HandshakeStage::ChannelCreate => match HttpChannelResponse::read(&mut reader, header) {
            Err(e) => Err(GatewayError::Packet(e)),
            Ok(resp) => {
                if !resp.is_success() {
                    return Err(GatewayError::ChannelCreateFailed(resp.error_code));
                }
                Ok(HandshakeProgress::Complete(resp.channel_id))
            },
        },
    }
}


/// The request type each stage sends.
pub open spec fn stage_request_type(stage: HandshakeStage) -> PacketType {
    match stage {
        HandshakeStage::Handshake => PacketType::HandshakeRequest,
        HandshakeStage::TunnelCreate => PacketType::TunnelCreate,
        HandshakeStage::TunnelAuth => PacketType::TunnelAuth,
        HandshakeStage::ChannelCreate => PacketType::ChannelCreate,
    }
}

/// Every packet of the handshake begins with a header that names its type
/// (codes 1, 3, 5 and 7, stage by stage) and its whole size in bytes, and
/// each stage waits for the response type whose code follows its own.
pub proof fn lemma_stage_packet_header(c: GatewayConnection, stage: HandshakeStage)
    requires
        stage == HandshakeStage::ChannelCreate ==> stage_packet(c, stage).len() <= u32::MAX,
    ensures
        read_header_spec(stage_packet(c, stage)).0 == Ok::<HttpPacketHeader, RdgError>(
            HttpPacketHeader {
                packet_type: stage_request_type(stage),
                packet_length: stage_packet(c, stage).len() as u32,
            },
        ),
        stage_request_type(stage).spec_code() == match stage {
            HandshakeStage::Handshake => 1u16,
            HandshakeStage::TunnelCreate => 3u16,
            HandshakeStage::TunnelAuth => 5u16,
            HandshakeStage::ChannelCreate => 7u16,
        },
        expected_response_type(stage).spec_code() == stage_request_type(stage).spec_code() + 1,
{
    let b = stage_packet(c, stage);
    match stage {
        HandshakeStage::Handshake => {
            let h = HttpPacketHeader { packet_type: PacketType::HandshakeRequest, packet_length: 14 };
            let rest = seq![1u8, 0u8] + le16(0) + le16(ExtendedAuth::Paa.spec_code());
            assert(b =~= h.spec_bytes() + rest);
            lemma_header_roundtrip(h, rest);
        },
        HandshakeStage::TunnelCreate => {
            let h = HttpPacketHeader { packet_type: PacketType::TunnelCreate, packet_length: 16 };
            let rest = le32(1) + le16(0) + le16(0);
            assert(b =~= h.spec_bytes() + rest);
            lemma_header_roundtrip(h, rest);
        },
        HandshakeStage::TunnelAuth => {
            let h = HttpPacketHeader { packet_type: PacketType::TunnelAuth, packet_length: 12 };
            let rest = le16(0) + le16(0);
            assert(b =~= h.spec_bytes() + rest);
            lemma_header_roundtrip(h, rest);
        },
        HandshakeStage::ChannelCreate => {
            let rs = seq![channel_resource(c.target(), c.target_port_spec())];
            let units = utf16(join(rs, ';'));
            let size = 8 + 4 + 4 + 2 * units.len() + 2;
            lemma_le16_all_len(units);
            let h = HttpPacketHeader { packet_type: PacketType::ChannelCreate, packet_length: size as u32 };
            let rest = le32(rs.len() as u32) + le32((2 * units.len() + 2) as u32) + le16_all(units)
                + le16(0);
            assert(b =~= h.spec_bytes() + rest);
            assert(b.len() == size);
            lemma_header_roundtrip(h, rest);
        },
    }
}

/// A gateway named `host:port` is reached at that port; a host named alone
/// is reached at port 443.
pub proof fn lemma_gateway_address(host: Seq<char>, port: u16)
    requires
        find(host, ':') is None,
    ensures
        spec_gateway_address(host + seq![':'] + decimal(port as nat)) == Ok::<
            (Seq<char>, u16),
            Seq<char>,
        >((host, port)),
        spec_gateway_address(host) == Ok::<(Seq<char>, u16), Seq<char>>((host, 443u16)),
{
    let s = host + seq![':'] + decimal(port as nat);
    lemma_find_properties(host, ':');
    assert forall|j: int| 0 <= j < host.len() implies s[j] != ':' by {
        assert(s[j] == host[j]);
    }
    lemma_find_unique(s, ':', host.len() as int);
    assert(s.take(host.len() as int) =~= host);
    assert(s.skip(host.len() as int + 1) =~= decimal(port as nat));
    lemma_parse_u16_decimal(port);
}

} // verus!
