//! What a connection is made of: the connector settings taken from the RDP
//! file and the configuration, the way to the server (direct or through the
//! gateway), the server's public key, and the input queue of the session.
use vstd::prelude::*;
use x509_cert::der::Decode;

use crate::config::Config;
use crate::rdp_parser::{
    before, int_of, sso_after, spec_port, text_of, tokens, RdpFile, SpecRdpValue,
};
use crate::sia::gateway::{spec_gateway_address, GatewayConnection, GatewayError};
use crate::sia::rdg_packets::push_decimal;
use crate::text::{decimal, push_char};
use vstd::string::*;

verus! {

#[derive(Debug, Clone, Copy, PartialEq, Eq, Structural)]
pub struct DesktopSize {
    pub width: u16,
    pub height: u16,
}

/// Framebuffer update received from the server
#[derive(Debug, Clone)]
pub struct FrameUpdate {
    /// RGBA pixel data
    pub data: Vec<u8>,
    pub width: u16,
    pub height: u16,
}

/// Why a connection could not be set up.
#[derive(Debug)]
pub enum ConnectionError {
    /// "no hostname in RDP file"
    NoHostname,
    /// "gateway configured but no gateway hostname"
    NoGatewayHostname,
    /// "gateway configured but no SSO token or access token found"
    NoGatewayToken,
    /// The gateway address could not be used
    Gateway(GatewayError),
    /// "no peer certificates"
    NoPeerCertificates,
    /// "no server certificate"
    NoServerCertificate,
    /// "failed to parse server certificate"
    InvalidCertificate,
    /// "failed to extract public key"
    NoPublicKey,
}

// ---------------------------------------------------------------------------
// Connector settings
// ---------------------------------------------------------------------------

/// The settings the RDP connector is built with.
#[derive(Debug, Clone)]
pub struct ConnectorSettings {
    pub username: String,
    pub password: String,
    pub enable_tls: bool,
    pub enable_credssp: bool,
    pub keyboard_subtype: u32,
    pub keyboard_functional_keys_count: u32,
    pub keyboard_layout: u32,
    pub desktop_size: DesktopSize,
    pub desktop_scale_factor: u32,
    pub client_build: u32,
    pub client_name: String,
    pub alternate_shell: String,
    pub autologon: bool,
    pub enable_audio_playback: bool,
    pub enable_server_pointer: bool,
    pub pointer_software_rendering: bool,
}

/// The name the client announces.
pub open spec fn client_name_text() -> Seq<char> {
    seq!['c', 'y', 'b', 'e', 'r', 'a', 'r', 'k', '-', 'r', 'd', 'p']
}

/// CredSSP/NLA is on unless `enablecredsspsupport` is the integer 0.
pub open spec fn credssp_enabled(m: Map<Seq<char>, SpecRdpValue>) -> bool {
    match int_of(m, "enablecredsspsupport"@) {
        Some(n) => n != 0,
        None => true,
    }
}

/// The alternate shell, empty when there is none.
pub open spec fn shell_text(m: Map<Seq<char>, SpecRdpValue>) -> Seq<char> {
    match text_of(m, "alternate shell"@) {
        Some(s) => s,
        None => Seq::empty(),
    }
}

/// Build the connector settings from the parsed RDP file: the desktop size is
/// the configured one, the domain stays inside the user name.
pub fn build_connector_config(
    rdp_file: &RdpFile,
    config: &Config,
    username: &str,
    password: &str,
) -> (r: ConnectorSettings)
    ensures
        r.username@ == username@,
        r.password@ == password@,
        r.enable_tls,
        r.enable_credssp == credssp_enabled(rdp_file@),
        r.keyboard_subtype == 0,
        r.keyboard_functional_keys_count == 12,
        r.keyboard_layout == 0,
        r.desktop_size == (DesktopSize { width: config.default_width, height: config.default_height }),
        r.desktop_scale_factor == 0,
        r.client_build == 0,
        r.client_name@ == client_name_text(),
        r.alternate_shell@ == shell_text(rdp_file@),
        !r.autologon,
        r.enable_audio_playback,
        r.enable_server_pointer,
        !r.pointer_software_rendering,
{
    let enable_credssp = match rdp_file.enable_credssp() {
        Some(b) => b,
        None => true,
    };
    let alternate_shell = match rdp_file.alternate_shell() {
        Some(s) => String::from_str(s),
        None => String::new(),
    };
    let client_name = String::from_str("cyberark-rdp");
    proof {
        reveal_strlit("cyberark-rdp");
    }
    ConnectorSettings {
        username: String::from_str(username),
        password: String::from_str(password),
        enable_tls: true,
        enable_credssp,
        keyboard_subtype: 0,
        keyboard_functional_keys_count: 12,
        keyboard_layout: 0,
        desktop_size: DesktopSize { width: config.default_width, height: config.default_height },
        desktop_scale_factor: 0,
        client_build: 0,
        client_name,
        alternate_shell,
        autologon: false,
        enable_audio_playback: true,
        enable_server_pointer: true,
        pointer_software_rendering: false,
    }
}

// ---------------------------------------------------------------------------
// The way to the server
// ---------------------------------------------------------------------------

/// How the session reaches the server.
pub enum ConnectionPlan {
    /// A TCP connection to `address`, which is `hostname:port`
    Direct { hostname: String, port: u16, address: String },
    /// A tunnel through the RDP gateway to `hostname:port`
    Gateway { hostname: String, port: u16, gateway: GatewayConnection },
}

/// The host part of the full address.
pub open spec fn host_of(m: Map<Seq<char>, SpecRdpValue>) -> Option<Seq<char>> {
    match text_of(m, "full address"@) {
        Some(a) => Some(before(a, ':')),
        None => None,
    }
}

/// The token the gateway is authenticated with: the `/sso` token of the
/// alternate shell, else the gateway access token.
pub open spec fn gateway_token(m: Map<Seq<char>, SpecRdpValue>) -> Option<Seq<char>> {
    let sso = match text_of(m, "alternate shell"@) {
        Some(shell) => sso_after(tokens(shell)),
        None => None,
    };
    match sso {
        Some(t) => Some(t),
        None => text_of(m, "gatewayaccesstoken"@),
    }
}

/// The gateway is authenticated with the `/sso` token of the alternate
/// shell whenever there is one, whatever `gatewayaccesstoken` holds; the
/// access token serves only when the shell names no `/sso` token.
pub proof fn lemma_sso_token_first(m: Map<Seq<char>, SpecRdpValue>, shell: Seq<char>)
    ensures
        text_of(m, "alternate shell"@) == Some(shell) && sso_after(tokens(shell)) is Some
            ==> gateway_token(m) == sso_after(tokens(shell)),
        text_of(m, "alternate shell"@) == Some(shell) && sso_after(tokens(shell)) is None
            ==> gateway_token(m) == text_of(m, "gatewayaccesstoken"@),
        text_of(m, "alternate shell"@) is None ==> gateway_token(m) == text_of(
            m,
            "gatewayaccesstoken"@,
        ),
{
}

/// Whether the file asks for the gateway (`gatewayusagemethod` is 1).
pub open spec fn uses_gateway(m: Map<Seq<char>, SpecRdpValue>) -> bool {
    int_of(m, "gatewayusagemethod"@) == Some(1i64)
}

/// Decides how to reach the server that the RDP file names.
pub fn plan_connection(rdp_file: &RdpFile, password: &str) -> (r: Result<
    ConnectionPlan,
    ConnectionError,
>)
    ensures
        match host_of(rdp_file@) {
            None => r matches Err(ConnectionError::NoHostname),
            Some(host) => if !uses_gateway(rdp_file@) {
                r matches Ok(ConnectionPlan::Direct { hostname, port, address }) && hostname@
                    == host && port == spec_port(rdp_file@) && address@ == host + seq![':']
                    + decimal(port as nat)
            } else {
                match (text_of(rdp_file@, "gatewayhostname"@), gateway_token(rdp_file@)) {
                    (None, _) => r matches Err(ConnectionError::NoGatewayHostname),
                    (Some(_), None) => r matches Err(ConnectionError::NoGatewayToken),
                    (Some(gw), Some(token)) => match spec_gateway_address(gw) {
                        Err(p) => r matches Err(
                            ConnectionError::Gateway(GatewayError::InvalidGatewayPort(s)),
                        ) && s@ == p,
                        Ok((gh, gp)) => r matches Ok(
                            ConnectionPlan::Gateway { hostname, port, gateway },
                        ) && hostname@ == host && port == spec_port(rdp_file@) && gateway.host()
                            == gh && gateway.port() == gp && gateway.target() == host
                            && gateway.target_port_spec() == port && gateway.cookie() == token,
                    },
                }
            },
        },
{
    proof {
        reveal_strlit("gatewayhostname");
        reveal_strlit("gatewayaccesstoken");
        reveal_strlit("gatewayusagemethod");
        reveal_strlit("alternate shell");
    }
    let hostname = match rdp_file.hostname() {
        Some(h) => h,
        None => return Err(ConnectionError::NoHostname),
    };
    let port = rdp_file.port();
    if !rdp_file.gateway_usage() {
        let mut address = hostname.clone();
        push_char(&mut address, ':');
        push_decimal(&mut address, port);
        return Ok(ConnectionPlan::Direct { hostname, port, address });
    }
    let gateway_hostname = match rdp_file.gateway_hostname() {
        Some(g) => g,
        None => return Err(ConnectionError::NoGatewayHostname),
    };
    let token = match rdp_file.sso_token() {
        Some(t) => t,
        None => match rdp_file.gateway_access_token() {
            Some(t) => t,
            None => return Err(ConnectionError::NoGatewayToken),
        },
    };
    match GatewayConnection::new(
        gateway_hostname,
        hostname.clone(),
        port,
        String::from_str(token),
        String::from_str(password),
    ) {
        Ok(gateway) => Ok(ConnectionPlan::Gateway { hostname, port, gateway }),
        Err(e) => Err(ConnectionError::Gateway(e)),
    }
}

// ---------------------------------------------------------------------------
// The server's public key
// ---------------------------------------------------------------------------

/// Whether `x509_cert::Certificate::from_der` decodes these bytes.
pub uninterp spec fn der_certificate_decodes(der: Seq<u8>) -> bool;

/// What `ironrdp_tls::extract_tls_server_public_key` gives for the
/// certificate that `x509_cert::Certificate::from_der` decodes from these
/// bytes: the subject public key bits, or `None` when they are not a whole
/// number of bytes. The decoded certificate is an opaque outside value, so
/// this one name stands for the two calls in turn.
pub uninterp spec fn certificate_public_key(der: Seq<u8>) -> Option<Seq<u8>>;

/// Decodes a DER certificate with `x509_cert::Certificate::from_der` and
/// reads its public key with `ironrdp_tls::extract_tls_server_public_key`.
/// The contract claims no more than the two names above: whether the bytes
/// decode, and which key the decoded certificate carries.
#[verifier::external_body]
fn certificate_key_from_der(der: &[u8]) -> (r: Result<Vec<u8>, ConnectionError>)
    ensures
        !der_certificate_decodes(der@) ==> r matches Err(ConnectionError::InvalidCertificate),
        der_certificate_decodes(der@) ==> match certificate_public_key(der@) {
            Some(k) => r matches Ok(v) && v@ == k,
            None => r matches Err(ConnectionError::NoPublicKey),
        },
{
    match x509_cert::Certificate::from_der(der) {
        Err(_) => Err(ConnectionError::InvalidCertificate),
        Ok(cert) => match ironrdp_tls::extract_tls_server_public_key(&cert) {
            Some(key) => Ok(key.to_vec()),
            None => Err(ConnectionError::NoPublicKey),
        },
    }
}

/// The public key of the server, from the certificates its TLS peer
/// presented (`None` when it presented none): the first one is the server's.
pub fn extract_server_public_key(peer_certificates: Option<&Vec<Vec<u8>>>) -> (r: Result<
    Vec<u8>,
    ConnectionError,
>)
    ensures
        match peer_certificates {
            None => r matches Err(ConnectionError::NoPeerCertificates),
            Some(certs) => if certs@.len() == 0 {
                r matches Err(ConnectionError::NoServerCertificate)
            } else {
                let der = certs@[0]@;
                if !der_certificate_decodes(der) {
                    r matches Err(ConnectionError::InvalidCertificate)
                } else {
                    match certificate_public_key(der) {
                        Some(k) => r matches Ok(v) && v@ == k,
                        None => r matches Err(ConnectionError::NoPublicKey),
                    }
                }
            },
        },
{
    let certs = match peer_certificates {
        Some(c) => c,
        None => return Err(ConnectionError::NoPeerCertificates),
    };
    if certs.len() == 0 {
        return Err(ConnectionError::NoServerCertificate);
    }
    certificate_key_from_der(certs[0].as_slice())
}

// ---------------------------------------------------------------------------
// Input queue of the session
// ---------------------------------------------------------------------------

/// `ironrdp_pdu`'s fast-path input event, carried through the queue unread.
#[verifier::external_type_specification]
#[verifier::external_body]
pub struct ExFastPathInputEvent(ironrdp_pdu::input::fast_path::FastPathInputEvent);

/// Input events from window to RDP thread
#[derive(Debug)]
pub enum InputEvent {
    Mouse(ironrdp_pdu::input::fast_path::FastPathInputEvent),
    Keyboard(ironrdp_pdu::input::fast_path::FastPathInputEvent),
    Shutdown,
}

/// Takes one event off the input queue: a shutdown ends the session; a mouse
/// or keyboard event joins the batch that goes to the server next.
pub fn queue_input(
    batch: &mut Vec<ironrdp_pdu::input::fast_path::FastPathInputEvent>,
    event: InputEvent,
) -> (stop: bool)
    ensures
        stop == (event is Shutdown),
        match event {
            InputEvent::Mouse(e) => final(batch)@ == old(batch)@.push(e),
            InputEvent::Keyboard(e) => final(batch)@ == old(batch)@.push(e),
            InputEvent::Shutdown => final(batch)@ == old(batch)@,
        },
{
    match event {
        InputEvent::Shutdown => true,
        InputEvent::Mouse(e) | InputEvent::Keyboard(e) => {
            batch.push(e);
            false
        },
    }
}

} // verus!
