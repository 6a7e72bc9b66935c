use wavekat_sip::account::{parse_hex_sha256, SipAccount, TlsPolicy, Transport};
use wavekat_sip::tls_error::{to_hex, CertFailure, UntrustedCertificate};

fn make_account() -> SipAccount {
    SipAccount {
        display_name: "Test".to_string(),
        username: "1001".to_string(),
        password: "secret".to_string(),
        domain: "sip.example.com".to_string(),
        auth_username: None,
        server: None,
        port: None,
        transport: Transport::default(),
        tls_policy: TlsPolicy::default(),
    }
}

#[test]
fn defaults_auth_username_to_username() {
    let acct = make_account();
    assert_eq!(acct.auth_username(), "1001");
}

#[test]
fn overrides_auth_username() {
    let mut acct = make_account();
    acct.auth_username = Some("admin".to_string());
    assert_eq!(acct.auth_username(), "admin");
}

#[test]
fn defaults_server_to_domain() {
    let acct = make_account();
    assert_eq!(acct.server(), "sip.example.com");
}

#[test]
fn overrides_server() {
    let mut acct = make_account();
    acct.server = Some("10.0.0.1".to_string());
    assert_eq!(acct.server(), "10.0.0.1");
}

#[test]
fn defaults_port_to_5060() {
    let acct = make_account();
    assert_eq!(acct.port(), 5060);
}

#[test]
fn overrides_port() {
    let mut acct = make_account();
    acct.port = Some(5080);
    assert_eq!(acct.port(), 5080);
}

#[test]
fn default_transport_is_udp() {
    assert_eq!(Transport::default(), Transport::Udp);
}

#[test]
fn tls_port_defaults_to_5061() {
    let mut acct = make_account();
    acct.transport = Transport::Tls;
    assert_eq!(acct.port(), 5061);
}

#[test]
fn explicit_port_still_wins_under_tls() {
    let mut acct = make_account();
    acct.transport = Transport::Tls;
    acct.port = Some(5080);
    assert_eq!(acct.port(), 5080);
}

#[test]
fn udp_and_tcp_ports_are_unchanged() {
    let mut acct = make_account();
    acct.transport = Transport::Tcp;
    assert_eq!(acct.port(), 5060);
    acct.transport = Transport::Udp;
    assert_eq!(acct.port(), 5060);
}

#[test]
fn tls_policy_default_is_system_roots() {
    assert_eq!(TlsPolicy::default(), TlsPolicy::SystemRoots);
}

#[test]
fn tls_policy_defaults_to_system_roots() {
    assert_eq!(make_account().tls_policy, TlsPolicy::SystemRoots);
}

#[test]
fn pinned_from_hex_rejects_a_sign_prefixed_chunk() {
    // `u8::from_str_radix` accepts a leading `+`, so `"+f"` parses as 15.
    // Repeated 32 times it is exactly 64 characters, so the length check
    // passes too — and without a digit guard the result is a pin of
    // `[15; 32]`, silently built from input that is not a fingerprint.
    let bad = "+f".repeat(32);
    assert_eq!(bad.len(), 64);
    let err = TlsPolicy::pinned_from_hex(&bad).expect_err("a `+` is not a hex digit");
    assert!(err.contains("hex"), "{err}");
}

#[test]
fn pinned_from_hex_matches_fingerprint_hex() {
    // The constructor and UntrustedCertificate::fingerprint_hex must
    // agree on format, or an operator pasting one into the other fails.
    let cert = UntrustedCertificate {
        sha256: [0x42u8; 32],
        reason: CertFailure::UnknownIssuer,
    };
    let policy = TlsPolicy::pinned_from_hex(&cert.fingerprint_hex()).expect("valid hex");
    assert_eq!(
        policy,
        TlsPolicy::Pinned {
            sha256: cert.sha256
        }
    );
}

#[test]
fn pinned_from_hex_rejects_wrong_length() {
    assert!(TlsPolicy::pinned_from_hex("ab").is_err());
}

#[test]
fn pinned_from_hex_rejects_non_hex_characters() {
    assert!(TlsPolicy::pinned_from_hex(&format!("{}zz", "0".repeat(62))).is_err());
}

#[test]
fn hex_pins_are_read_digit_by_digit() {
    let mut digest = [0u8; 32];
    digest[0] = 0x0f;
    digest[1] = 0xa0;
    digest[31] = 0x7b;
    let text = to_hex(&digest);
    assert!(text.starts_with("0fa000"));
    assert!(text.ends_with("7b"));
    assert_eq!(parse_hex_sha256(&text), Ok(digest));
    assert_eq!(parse_hex_sha256(&text.to_uppercase()), Ok(digest));
}

#[test]
fn hex_pin_errors_name_the_problem() {
    assert!(parse_hex_sha256("ab").unwrap_err().contains("64"));
    assert!(parse_hex_sha256(&"g".repeat(64)).unwrap_err().contains("hex"));
}
