use cyberark_rdp::sia::chunked::encode_chunk;
use cyberark_rdp::sia::gateway::{
    extract_http_body, new_channel_ids, response_body_len, stage_response, stage_response_type,
    ChannelKind, ChannelReply, ChannelStage, GatewayConnection, GatewayError, HandshakeProgress,
    HandshakeStage,
};
use cyberark_rdp::sia::rdg_packets::{HttpPacketHeader, PacketType, RdgError};

fn connection() -> GatewayConnection {
    GatewayConnection::new(
        "gw.example.com:8443",
        "target.local".to_string(),
        3389,
        "COOKIE".to_string(),
        "pw".to_string(),
    )
    .unwrap()
}

#[test]
fn gateway_address_parsing() {
    let c = connection();
    assert_eq!(c.gateway_host(), "gw.example.com");
    assert_eq!(c.gateway_port(), 8443);
    assert_eq!(c.target_server(), "target.local");
    assert_eq!(c.target_port(), 3389);
    let c = GatewayConnection::new("gw", "t".to_string(), 1, "c".to_string(), String::new()).unwrap();
    assert_eq!(c.gateway_host(), "gw");
    assert_eq!(c.gateway_port(), 443);
    match GatewayConnection::new("gw:99999", "t".to_string(), 1, "c".to_string(), String::new()) {
        Err(GatewayError::InvalidGatewayPort(p)) => assert_eq!(p, "99999"),
        _ => panic!("expected an invalid port"),
    }
    match GatewayConnection::new("gw:", "t".to_string(), 1, "c".to_string(), String::new()) {
        Err(GatewayError::InvalidGatewayPort(p)) => assert_eq!(p, ""),
        _ => panic!("expected an invalid port"),
    }
}

#[test]
fn http_body_after_headers() {
    let response = b"HTTP/1.1 200 OK\r\nContent-Length: 3\r\n\r\nabcJUNK";
    assert_eq!(extract_http_body(response, response.len() - 4), b"abc".to_vec());
    assert_eq!(extract_http_body(b"HTTP/1.1 200 OK\r\n", 17), Vec::<u8>::new());
    assert_eq!(extract_http_body(b"\r\n\r\n", 4), Vec::<u8>::new());
    assert_eq!(extract_http_body(b"\r\n\r\nX", 5), b"X".to_vec());
    assert_eq!(extract_http_body(b"ab", 2), Vec::<u8>::new());
}

#[test]
fn channel_requests() {
    let c = connection();
    let out = c.channel_request(ChannelKind::Out, false, "conn", "corr");
    assert_eq!(
        out,
        "RDG_OUT_DATA /remoteDesktopGateway/ HTTP/1.1\r\nHost: gw.example.com\r\nUser-Agent: MS-RDGateway/1.0\r\nConnection: Keep-Alive\r\nRDG-Connection-Id: conn\r\nRDG-Correlation-Id: corr\r\n\r\n"
    );
    let inc = c.channel_request(ChannelKind::In, true, "conn", "corr");
    assert_eq!(
        inc,
        "RDG_IN_DATA /remoteDesktopGateway/ HTTP/1.1\r\nHost: gw.example.com\r\nUser-Agent: MS-RDGateway/1.0\r\nConnection: Keep-Alive\r\nAuthorization: PAA COOKIE\r\nTransfer-Encoding: chunked\r\nRDG-Connection-Id: conn\r\nRDG-Correlation-Id: corr\r\n\r\n"
    );
}

#[test]
fn channel_responses() {
    let c = connection();
    match c.on_channel_response(ChannelKind::Out, ChannelStage::Initial, b"HTTP/1.1 401 Unauthorized\r\n\r\n", "a", "b") {
        ChannelReply::SendAuth(req) => assert!(req.contains("Authorization: PAA COOKIE\r\n")),
        _ => panic!("expected a request with the token"),
    }
    match c.on_channel_response(ChannelKind::Out, ChannelStage::Authenticating, b"HTTP/1.1 200 OK\r\n\r\n0123456789", "a", "b") {
        ChannelReply::Established(body) => assert_eq!(body, b"0123456789".to_vec()),
        _ => panic!("expected the channel to open"),
    }
    match c.on_channel_response(ChannelKind::In, ChannelStage::Initial, b"HTTP/1.0 200 OK\r\n\r\nxyz", "a", "b") {
        ChannelReply::Established(body) => assert!(body.is_empty()),
        _ => panic!("expected the channel to open"),
    }
    match c.on_channel_response(ChannelKind::In, ChannelStage::Authenticating, b"HTTP/1.1 401 Unauthorized\r\nX: y\r\n\r\n", "a", "b") {
        ChannelReply::Failed(GatewayError::ChannelFailed(k, s, line)) => {
            assert_eq!(k, ChannelKind::In);
            assert_eq!(s, ChannelStage::Authenticating);
            assert_eq!(line, "HTTP/1.1 401 Unauthorized");
        }
        _ => panic!("expected a refusal"),
    }
    match c.on_channel_response(ChannelKind::Out, ChannelStage::Initial, b"", "a", "b") {
        ChannelReply::Failed(GatewayError::ChannelFailed(_, _, line)) => assert_eq!(line, "Unknown error"),
        _ => panic!("expected a refusal"),
    }
    // Bytes that are not UTF-8 are read as replacement characters.
    match c.on_channel_response(ChannelKind::Out, ChannelStage::Initial, b"\xffHTTP/1.1 200 OK\r\n\r\n", "a", "b") {
        ChannelReply::Failed(GatewayError::ChannelFailed(_, _, line)) => {
            assert_eq!(line, "\u{FFFD}HTTP/1.1 200 OK")
        }
        _ => panic!("expected a refusal"),
    }
}

#[test]
fn channel_ids_are_uuid_text() {
    let ids = new_channel_ids([0u8; 16], [0xFFu8; 16]);
    assert_eq!(ids.connection_id, "00000000-0000-4000-8000-000000000000");
    assert_eq!(ids.correlation_id, "ffffffff-ffff-4fff-bfff-ffffffffffff");
    let bytes = [
        0x12u8, 0x34, 0x56, 0x78, 0x9A, 0xBC, 0xDE, 0xF0, 0x0F, 0xED, 0xCB, 0xA9, 0x87, 0x65, 0x43, 0x21,
    ];
    let ids = new_channel_ids(bytes, bytes);
    assert_eq!(ids.connection_id, "12345678-9abc-4ef0-8fed-cba987654321");
    assert_eq!(ids.connection_id, ids.correlation_id);
}

#[test]
fn stage_requests_are_chunked_packets() {
    let c = connection();
    let hs = c.stage_request(HandshakeStage::Handshake);
    let mut expected = b"E\r\n".to_vec();
    expected.extend_from_slice(&[1, 0, 0, 0, 14, 0, 0, 0, 1, 0, 0, 0, 1, 0]);
    expected.extend_from_slice(b"\r\n");
    assert_eq!(hs, expected);
    let tc = c.stage_request(HandshakeStage::TunnelCreate);
    assert_eq!(&tc[0..4], b"10\r\n");
    assert_eq!(tc.len(), 4 + 16 + 2);
    let ta = c.stage_request(HandshakeStage::TunnelAuth);
    assert_eq!(&ta[0..3], b"C\r\n");
    assert!(c.channel_request_fits());
    let ch = c.stage_request(HandshakeStage::ChannelCreate);
    // "target.local:3389" is 17 units: 18 + 34 = 52 = 0x34 bytes
    assert_eq!(&ch[0..4], b"34\r\n");
    assert_eq!(ch.len(), 4 + 52 + 2);
    assert_eq!(encode_chunk(&[]), b"0\r\n\r\n".to_vec());
}

#[test]
fn stage_response_types_and_bodies() {
    assert_eq!(stage_response_type(HandshakeStage::Handshake), PacketType::HandshakeResponse);
    assert_eq!(stage_response_type(HandshakeStage::TunnelCreate), PacketType::TunnelResponse);
    assert_eq!(stage_response_type(HandshakeStage::TunnelAuth), PacketType::TunnelAuthResponse);
    assert_eq!(stage_response_type(HandshakeStage::ChannelCreate), PacketType::ChannelResponse);

    let header = HttpPacketHeader::new(PacketType::HandshakeResponse, 18);
    assert_eq!(response_body_len(&header, PacketType::HandshakeResponse).unwrap(), 10);
    match response_body_len(&header, PacketType::TunnelResponse) {
        Err(GatewayError::Packet(RdgError::UnexpectedPacketType(e, g))) => {
            assert_eq!(e, PacketType::TunnelResponse);
            assert_eq!(g, PacketType::HandshakeResponse);
        }
        _ => panic!("expected a type mismatch"),
    }
}

#[test]
fn handshake_progress() {
    let h = HttpPacketHeader::new(PacketType::HandshakeResponse, 18);
    let ok = [0u8; 10];
    assert_eq!(
        stage_response(HandshakeStage::Handshake, &h, &ok).unwrap(),
        HandshakeProgress::Next(HandshakeStage::TunnelCreate)
    );
    let failed = [0x05u8, 0x40, 0, 0x80, 0, 0, 0, 0, 0, 0];
    assert!(matches!(
        stage_response(HandshakeStage::Handshake, &h, &failed),
        Err(GatewayError::HandshakeFailed(0x8000_4005))
    ));
    let t = HttpPacketHeader::new(PacketType::TunnelResponse, 20);
    assert_eq!(
        stage_response(HandshakeStage::TunnelCreate, &t, &[0u8; 12]).unwrap(),
        HandshakeProgress::Next(HandshakeStage::TunnelAuth)
    );
    let a = HttpPacketHeader::new(PacketType::TunnelAuthResponse, 16);
    assert_eq!(
        stage_response(HandshakeStage::TunnelAuth, &a, &[0u8; 8]).unwrap(),
        HandshakeProgress::Next(HandshakeStage::ChannelCreate)
    );
    assert!(matches!(
        stage_response(HandshakeStage::TunnelAuth, &a, &[1u8, 0, 0, 0, 0, 0, 0, 0]),
        Err(GatewayError::TunnelAuthFailed(1))
    ));
    let c = HttpPacketHeader::new(PacketType::ChannelResponse, 28);
    let mut body = [0u8; 12];
    body[8] = 9;
    assert_eq!(
        stage_response(HandshakeStage::ChannelCreate, &c, &body).unwrap(),
        HandshakeProgress::Complete(9)
    );
    assert!(matches!(
        stage_response(HandshakeStage::ChannelCreate, &c, &[0u8; 4]),
        Err(GatewayError::Packet(RdgError::UnexpectedEof))
    ));
}

#[test]
fn stage_packets_announce_type_and_size() {
    let c = connection();
    let stages = [
        (HandshakeStage::Handshake, 1u16),
        (HandshakeStage::TunnelCreate, 3),
        (HandshakeStage::TunnelAuth, 5),
        (HandshakeStage::ChannelCreate, 7),
    ];
    for (stage, code) in stages {
        let framed = c.stage_request(stage);
        let line_end = framed.iter().position(|b| *b == b'\n').unwrap();
        let size = usize::from_str_radix(std::str::from_utf8(&framed[..line_end - 1]).unwrap(), 16).unwrap();
        let packet = &framed[line_end + 1..line_end + 1 + size];
        assert_eq!(&framed[line_end + 1 + size..], b"\r\n");
        let mut reader: &[u8] = packet;
        let header = HttpPacketHeader::read(&mut reader).unwrap();
        assert_eq!(header.packet_type.code(), code);
        assert_eq!(header.packet_length as usize, packet.len());
        assert_eq!(stage_response_type(stage).code(), code + 1);
    }
}

#[test]
fn wrong_type_short_header_is_an_error() {
    let header = HttpPacketHeader::new(PacketType::TunnelResponse, 4);
    match response_body_len(&header, PacketType::HandshakeResponse) {
        Err(GatewayError::Packet(RdgError::UnexpectedPacketType(e, g))) => {
            assert_eq!(e, PacketType::HandshakeResponse);
            assert_eq!(g, PacketType::TunnelResponse);
        }
        _ => panic!("expected a type mismatch"),
    }
}

#[test]
fn http_body_of_short_lengths() {
    assert_eq!(extract_http_body(b"", 3), Vec::<u8>::new());
    assert_eq!(extract_http_body(b"ab", 3), Vec::<u8>::new());
    assert_eq!(extract_http_body(b"abc", 0), Vec::<u8>::new());
}
