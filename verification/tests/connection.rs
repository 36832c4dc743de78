use cyberark_rdp::config::Config;
use cyberark_rdp::connection::{
    build_connector_config, extract_server_public_key, plan_connection, queue_input,
    ConnectionError, ConnectionPlan, DesktopSize, InputEvent,
};
use cyberark_rdp::rdp_parser::RdpFile;
use cyberark_rdp::sia::gateway::GatewayError;
use ironrdp_pdu::input::fast_path::{FastPathInputEvent, KeyboardFlags};

/// A certificate whose subject public key is the bytes 1 to 16.
const CERT_HEX: &str = "3075305fa003020102020101300d06092a864886f70d01010b05003000301e170d3235303130313030303030305a170d3335303130313030303030305a30003022300d06092a864886f70d01010105000311000102030405060708090a0b0c0d0e0f10300d06092a864886f70d01010b0500030300aabb";

fn hex_bytes(s: &str) -> Vec<u8> {
    (0..s.len())
        .step_by(2)
        .map(|i| u8::from_str_radix(&s[i..i + 2], 16).unwrap())
        .collect()
}

#[test]
fn connector_settings_follow_file_and_config() {
    let rdp = RdpFile::parse("enablecredsspsupport:i:0\nalternate shell:s:psm /token\n");
    let mut config = Config::default();
    config.default_width = 1920;
    config.default_height = 1080;
    let s = build_connector_config(&rdp, &config, "CORP\\user@id", "secret");
    assert_eq!(s.username, "CORP\\user@id");
    assert_eq!(s.password, "secret");
    assert!(s.enable_tls);
    assert!(!s.enable_credssp);
    assert_eq!(s.desktop_size, DesktopSize { width: 1920, height: 1080 });
    assert_eq!(s.client_name, "cyberark-rdp");
    assert_eq!(s.alternate_shell, "psm /token");
    assert_eq!(s.keyboard_functional_keys_count, 12);
    assert!(s.enable_audio_playback);
    assert!(s.enable_server_pointer);
    assert!(!s.autologon);

    let rdp = RdpFile::parse("");
    let s = build_connector_config(&rdp, &Config::default(), "u", "p");
    assert!(s.enable_credssp);
    assert_eq!(s.alternate_shell, "");
    assert_eq!(s.desktop_size, DesktopSize { width: 1280, height: 1024 });
}

#[test]
fn direct_plan() {
    let rdp = RdpFile::parse("full address:s:server.example.com:3390\n");
    match plan_connection(&rdp, "pw") {
        Ok(ConnectionPlan::Direct { hostname, port, address }) => {
            assert_eq!(hostname, "server.example.com");
            assert_eq!(port, 3390);
            assert_eq!(address, "server.example.com:3390");
        }
        _ => panic!("expected a direct plan"),
    }
    let rdp = RdpFile::parse("full address:s:host\n");
    match plan_connection(&rdp, "pw") {
        Ok(ConnectionPlan::Direct { address, .. }) => assert_eq!(address, "host:3389"),
        _ => panic!("expected a direct plan"),
    }
}

#[test]
fn gateway_plan() {
    let content = "full address:s:target.local\ngatewayusagemethod:i:1\ngatewayhostname:s:gw.example.com\nalternate shell:s:/sso SSOTOKEN /sso_type rdp_file\ngatewayaccesstoken:s:ACCESS\n";
    let rdp = RdpFile::parse(content);
    match plan_connection(&rdp, "pw") {
        Ok(ConnectionPlan::Gateway { hostname, port, gateway }) => {
            assert_eq!(hostname, "target.local");
            assert_eq!(port, 3389);
            assert_eq!(gateway.gateway_host(), "gw.example.com");
            assert_eq!(gateway.gateway_port(), 443);
            assert_eq!(gateway.target_server(), "target.local");
            assert_eq!(gateway.target_port(), 3389);
        }
        _ => panic!("expected a gateway plan"),
    }
}

#[test]
fn plan_errors() {
    let rdp = RdpFile::parse("username:s:x\n");
    assert!(matches!(plan_connection(&rdp, "pw"), Err(ConnectionError::NoHostname)));
    let rdp = RdpFile::parse("full address:s:h\ngatewayusagemethod:i:1\n");
    assert!(matches!(plan_connection(&rdp, "pw"), Err(ConnectionError::NoGatewayHostname)));
    let rdp = RdpFile::parse("full address:s:h\ngatewayusagemethod:i:1\ngatewayhostname:s:gw\n");
    assert!(matches!(plan_connection(&rdp, "pw"), Err(ConnectionError::NoGatewayToken)));
    let rdp = RdpFile::parse(
        "full address:s:h\ngatewayusagemethod:i:1\ngatewayhostname:s:gw:http\ngatewayaccesstoken:s:T\n",
    );
    match plan_connection(&rdp, "pw") {
        Err(ConnectionError::Gateway(GatewayError::InvalidGatewayPort(p))) => assert_eq!(p, "http"),
        _ => panic!("expected an invalid gateway port"),
    }
}

#[test]
fn server_public_key_from_certificate() {
    let der = hex_bytes(CERT_HEX);
    let certs = vec![der.clone()];
    let key = extract_server_public_key(Some(&certs)).unwrap();
    assert_eq!(key, (1u8..=16).collect::<Vec<u8>>());
    assert_ne!(key, der);
}

#[test]
fn server_public_key_errors() {
    assert!(matches!(extract_server_public_key(None), Err(ConnectionError::NoPeerCertificates)));
    let empty: Vec<Vec<u8>> = Vec::new();
    assert!(matches!(
        extract_server_public_key(Some(&empty)),
        Err(ConnectionError::NoServerCertificate)
    ));
    let garbage = vec![vec![0x30u8, 0x03, 0x02, 0x01]];
    assert!(matches!(
        extract_server_public_key(Some(&garbage)),
        Err(ConnectionError::InvalidCertificate)
    ));
}

#[test]
fn input_queue_stops_at_shutdown() {
    let mut batch: Vec<FastPathInputEvent> = Vec::new();
    let key = FastPathInputEvent::KeyboardEvent(KeyboardFlags::RELEASE, 0x1E);
    assert!(!queue_input(&mut batch, InputEvent::Keyboard(key.clone())));
    assert!(!queue_input(&mut batch, InputEvent::Mouse(key)));
    assert_eq!(batch.len(), 2);
    assert!(queue_input(&mut batch, InputEvent::Shutdown));
    assert_eq!(batch.len(), 2);
}
