use cyberark_rdp::rdp_parser::{RdpFile, RdpValue};

#[test]
fn test_parse_basic_rdp() {
    let mut content = String::new();
    content.push_str("full address:s:server.example.com:3389\n");
    content.push_str("username:s:testuser\n");
    content.push_str("domain:s:CORP\n");
    content.push_str("desktopwidth:i:1024\n");
    content.push_str("desktopheight:i:768\n");
    content.push_str("screen mode id:i:2\n");

    let rdp = RdpFile::parse(&content);

    assert_eq!(rdp.hostname().unwrap(), "server.example.com");
    assert_eq!(rdp.port(), 3389);
    assert_eq!(rdp.username().unwrap(), "testuser");
    assert_eq!(rdp.domain().unwrap(), "CORP");
    assert_eq!(rdp.desktop_width().unwrap(), 1024);
    assert_eq!(rdp.desktop_height().unwrap(), 768);
}

#[test]
fn keys_are_lowercased_and_later_lines_win() {
    let rdp = RdpFile::parse("GatewayHostname:s:first.example\ngatewayhostname:s:second.example\n");
    assert_eq!(rdp.gateway_hostname(), Some("second.example"));
    assert_eq!(rdp.get_str("GATEWAYHOSTNAME"), Some("second.example"));
    assert_eq!(rdp.entries().len(), 1);
}

#[test]
fn malformed_lines_are_skipped() {
    let content = "# comment\n\n   \nnovalue\nonly:one\nbad:i:notanumber\nodd:x:1\n  port:i:42  \r\nshell:s:a:b:c\n";
    let rdp = RdpFile::parse(content);
    assert_eq!(rdp.get_int("port"), Some(42));
    assert_eq!(rdp.get_str("shell"), Some("a:b:c"));
    assert_eq!(rdp.get_int("bad"), None);
    assert_eq!(rdp.get_int("odd"), None);
    assert_eq!(rdp.entries().len(), 2);
}

#[test]
fn values_keep_their_types() {
    let rdp = RdpFile::parse("a:i:-7\nb:s:-7\n");
    assert_eq!(rdp.get_int("a"), Some(-7));
    assert_eq!(rdp.get_str("a"), None);
    assert_eq!(rdp.get_str("b"), Some("-7"));
    assert_eq!(rdp.get_int("b"), None);
    let mut found_integer = false;
    for (k, v) in rdp.entries() {
        if k == "a" {
            found_integer = matches!(v, RdpValue::Integer(-7));
        }
    }
    assert!(found_integer);
}

#[test]
fn port_sources() {
    let rdp = RdpFile::parse("full address:s:host:4000\nserver port:i:5000\n");
    assert_eq!(rdp.port(), 5000);
    let rdp = RdpFile::parse("full address:s:host:4000\n");
    assert_eq!(rdp.port(), 4000);
    assert_eq!(rdp.full_address(), Some("host:4000"));
    let rdp = RdpFile::parse("full address:s:host:notaport\n");
    assert_eq!(rdp.port(), 3389);
    let rdp = RdpFile::parse("full address:s:host\n");
    assert_eq!(rdp.port(), 3389);
    assert_eq!(rdp.hostname().unwrap(), "host");
    let rdp = RdpFile::parse("server port:i:70000\n");
    assert_eq!(rdp.port(), 70000u32 as u16);
    let rdp = RdpFile::parse("");
    assert_eq!(rdp.port(), 3389);
    assert_eq!(rdp.hostname(), None);
}

#[test]
fn gateway_settings() {
    let content = "gatewayusagemethod:i:1\ngatewayhostname:s:gw.example.com:8443\ngatewayaccesstoken:s:TOKEN\nalternate shell:s:/sso abc123 /sso_type rdp_file\n";
    let rdp = RdpFile::parse(content);
    assert!(rdp.gateway_usage());
    assert_eq!(rdp.gateway_hostname(), Some("gw.example.com:8443"));
    assert_eq!(rdp.gateway_access_token(), Some("TOKEN"));
    assert_eq!(rdp.alternate_shell(), Some("/sso abc123 /sso_type rdp_file"));
    assert_eq!(rdp.sso_token(), Some("abc123"));
    let rdp = RdpFile::parse("gatewayusagemethod:i:2\nalternate shell:s:/sso\n");
    assert!(!rdp.gateway_usage());
    assert_eq!(rdp.sso_token(), None);
    let rdp = RdpFile::parse("alternate shell:s:  rdpinit.exe   /sso   tok  \n");
    assert_eq!(rdp.sso_token(), Some("tok"));
}

#[test]
fn credssp_and_desktop_size() {
    let rdp = RdpFile::parse("enablecredsspsupport:i:0\ndesktopwidth:i:65537\n");
    assert_eq!(rdp.enable_credssp(), Some(false));
    assert_eq!(rdp.desktop_width(), Some(1));
    assert_eq!(rdp.desktop_height(), None);
    let rdp = RdpFile::parse("enablecredsspsupport:i:5\n");
    assert_eq!(rdp.enable_credssp(), Some(true));
    let rdp = RdpFile::parse("");
    assert_eq!(rdp.enable_credssp(), None);
}

#[test]
fn crlf_line_endings() {
    let rdp = RdpFile::parse("username:s:alice\r\ndomain:s:CORP\r\n");
    assert_eq!(rdp.username(), Some("alice"));
    assert_eq!(rdp.domain(), Some("CORP"));
}

#[test]
fn appended_line_replaces_value() {
    let base = "username:s:alice\ndomain:s:CORP";
    let appended = format!("{}\n{}", base, "USERNAME:s:bob");
    let rdp = RdpFile::parse(&appended);
    assert_eq!(rdp.username(), Some("bob"));
    assert_eq!(rdp.domain(), Some("CORP"));
    let with_comment = format!("{}\n{}", base, "# username:s:carol");
    let rdp = RdpFile::parse(&with_comment);
    assert_eq!(rdp.username(), Some("alice"));
}
