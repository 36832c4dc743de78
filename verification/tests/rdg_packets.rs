use cyberark_rdp::sia::rdg_packets::{
    ExtendedAuth, HttpChannelPacket, HttpChannelResponse, HttpHandshakeRequest,
    HttpHandshakeResponse, HttpPacketHeader, HttpTunnelAuthPacket, HttpTunnelAuthResponse,
    HttpTunnelPacket, HttpTunnelResponse, PacketType, RdgError,
};

#[test]
fn test_packet_header_roundtrip() {
    let header = HttpPacketHeader::new(PacketType::HandshakeRequest, 100);
    let mut buf = Vec::new();
    header.write(&mut buf).unwrap();

    let parsed = HttpPacketHeader::read(&mut buf.as_slice()).unwrap();
    assert_eq!(header.packet_type.code(), parsed.packet_type.code());
    assert_eq!(header.packet_length, parsed.packet_length);
}

#[test]
fn test_handshake_request_size() {
    let request = HttpHandshakeRequest::new_with_paa();
    let mut buf = Vec::new();
    request.write(&mut buf).unwrap();
    assert_eq!(buf.len(), 14); // 8 header + 6 body
}

#[test]
fn header_bytes_are_little_endian() {
    let header = HttpPacketHeader::new(PacketType::ChannelCreate, 0x0102_0304);
    let mut buf = Vec::new();
    header.write(&mut buf).unwrap();
    assert_eq!(buf, vec![0x07, 0x00, 0x00, 0x00, 0x04, 0x03, 0x02, 0x01]);
}

#[test]
fn header_read_consumes_eight_bytes() {
    let bytes = [0x02u8, 0x00, 0x00, 0x00, 0x12, 0x00, 0x00, 0x00, 0xAA, 0xBB];
    let mut reader: &[u8] = &bytes;
    let h = HttpPacketHeader::read(&mut reader).unwrap();
    assert_eq!(h.packet_type, PacketType::HandshakeResponse);
    assert_eq!(h.packet_length, 18);
    assert_eq!(reader, &[0xAA, 0xBB]);
}

#[test]
fn header_read_errors() {
    let mut short: &[u8] = &[0x01];
    assert!(matches!(HttpPacketHeader::read(&mut short), Err(RdgError::UnexpectedEof)));
    let mut unknown: &[u8] = &[0x0C, 0x00, 0, 0, 8, 0, 0, 0];
    assert!(matches!(HttpPacketHeader::read(&mut unknown), Err(RdgError::UnknownPacketType(12))));
    let mut truncated: &[u8] = &[0x01, 0x00, 0, 0];
    assert!(matches!(HttpPacketHeader::read(&mut truncated), Err(RdgError::UnexpectedEof)));
}

#[test]
fn packet_type_codes_roundtrip() {
    for code in 1u16..=11 {
        let t = PacketType::from_u16(code).unwrap();
        assert_eq!(t.code(), code);
    }
    assert!(matches!(PacketType::from_u16(0), Err(RdgError::UnknownPacketType(0))));
    assert!(matches!(PacketType::from_u16(0x0C), Err(RdgError::UnknownPacketType(0x0C))));
}

#[test]
fn extended_auth_codes() {
    assert_eq!(ExtendedAuth::NoAuth.code(), 0);
    assert_eq!(ExtendedAuth::Paa.code(), 1);
    assert_eq!(ExtendedAuth::Smartcard.code(), 2);
    assert_eq!(ExtendedAuth::Sspi.code(), 4);
}

#[test]
fn handshake_request_bytes() {
    let request = HttpHandshakeRequest::new_with_paa();
    let mut buf = Vec::new();
    request.write(&mut buf).unwrap();
    assert_eq!(buf, vec![1, 0, 0, 0, 14, 0, 0, 0, 1, 0, 0, 0, 1, 0]);
}

#[test]
fn tunnel_packets_bytes() {
    let mut buf = Vec::new();
    HttpTunnelPacket::new().write(&mut buf).unwrap();
    assert_eq!(buf, vec![3, 0, 0, 0, 16, 0, 0, 0, 1, 0, 0, 0, 0, 0, 0, 0]);
    let mut buf = Vec::new();
    HttpTunnelAuthPacket::new().write(&mut buf).unwrap();
    assert_eq!(buf, vec![5, 0, 0, 0, 12, 0, 0, 0, 0, 0, 0, 0]);
}

#[test]
fn channel_packet_bytes() {
    let packet = HttpChannelPacket::new("ab".to_string(), 7);
    let mut buf = Vec::new();
    packet.write(&mut buf).unwrap();
    // "ab:7" is 4 UTF-16 units: 8 + 4 + 4 + 8 + 2 = 26 bytes
    assert_eq!(buf.len(), 26);
    assert_eq!(&buf[0..8], &[7, 0, 0, 0, 26, 0, 0, 0]);
    assert_eq!(&buf[8..12], &[1, 0, 0, 0]);
    assert_eq!(&buf[12..16], &[10, 0, 0, 0]);
    assert_eq!(&buf[16..26], &[b'a', 0, b'b', 0, b':', 0, b'7', 0, 0, 0]);
    assert_eq!(packet.utf16_units(), vec![0x61, 0x62, 0x3A, 0x37]);
}

#[test]
fn handshake_response_read() {
    let header = HttpPacketHeader::new(PacketType::HandshakeResponse, 18);
    let body = [0x00u8, 0x00, 0x00, 0x00, 1, 0, 0x00, 0x00, 0x01, 0x00];
    let mut reader: &[u8] = &body;
    let resp = HttpHandshakeResponse::read(&mut reader, &header).unwrap();
    assert_eq!(resp.error_code, 0);
    assert!(resp.is_success());
    let failing = [0x05u8, 0x00, 0x00, 0x00, 1, 0, 0, 0, 1, 0];
    let mut reader: &[u8] = &failing;
    let resp = HttpHandshakeResponse::read(&mut reader, &header).unwrap();
    assert_eq!(resp.error_code, 5);
    assert!(!resp.is_success());
    let mut short: &[u8] = &[0u8, 0];
    assert!(matches!(HttpHandshakeResponse::read(&mut short, &header), Err(RdgError::UnexpectedEof)));
}

#[test]
fn tunnel_and_channel_responses_read() {
    let header = HttpPacketHeader::new(PacketType::TunnelResponse, 20);
    let body = [0x07u8, 0, 0, 0, 0, 0, 0, 0, 0x03, 0, 0, 0];
    let mut reader: &[u8] = &body;
    let resp = HttpTunnelResponse::read(&mut reader, &header).unwrap();
    assert_eq!(resp.server_version, 7);
    assert_eq!(resp.fields_present, 3);
    assert!(resp.is_success());
    let short_header = HttpPacketHeader::new(PacketType::TunnelResponse, 19);
    let mut reader: &[u8] = &body;
    assert!(matches!(
        HttpTunnelResponse::read(&mut reader, &short_header),
        Err(RdgError::ResponseTooShort(PacketType::TunnelResponse, 19))
    ));

    let header = HttpPacketHeader::new(PacketType::TunnelAuthResponse, 16);
    let body = [0x01u8, 0, 0, 0, 0, 0, 0, 0];
    let mut reader: &[u8] = &body;
    let resp = HttpTunnelAuthResponse::read(&mut reader, &header).unwrap();
    assert_eq!(resp.error_code, 1);
    assert!(!resp.is_success());

    let header = HttpPacketHeader::new(PacketType::ChannelResponse, 28);
    // error code, fields present, reserved, then the channel id at packet offset 0x10
    let body = [0u8, 0, 0, 0, 0, 0, 0, 0, 0x2A, 0, 0, 0];
    let mut reader: &[u8] = &body;
    let resp = HttpChannelResponse::read(&mut reader, &header).unwrap();
    assert!(resp.is_success());
    assert_eq!(resp.channel_id, 0x2A);
    let short_header = HttpPacketHeader::new(PacketType::ChannelResponse, 27);
    let mut reader: &[u8] = &body;
    assert!(matches!(
        HttpChannelResponse::read(&mut reader, &short_header),
        Err(RdgError::ResponseTooShort(PacketType::ChannelResponse, 27))
    ));
}
