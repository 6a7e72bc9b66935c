use wavekat_sip::account::{SipAccount, TlsPolicy, Transport};
use wavekat_sip::message::StatusCode;
use wavekat_sip::registrar::{register_config, RegistrarState};
use wavekat_sip::stack::registration::RegisterOutcome;

fn account() -> SipAccount {
    SipAccount {
        display_name: "T".into(),
        username: "1001".into(),
        password: "secret".into(),
        domain: "example.com".into(),
        auth_username: None,
        server: Some("127.0.0.1".into()),
        port: Some(5060),
        transport: Transport::Udp,
        tls_policy: TlsPolicy::default(),
    }
}

#[test]
fn register_config_uris_follow_account() {
    let cfg = register_config(&account(), "sip:1001@10.0.0.1:5060", "t", "c", 60).unwrap();
    assert_eq!(cfg.registrar_uri.text, "sip:example.com");
    assert_eq!(cfg.aor.text, "sip:1001@example.com");
    assert_eq!(cfg.username, "1001");
    assert_eq!(cfg.contact.text, "sip:1001@10.0.0.1:5060");
    assert_eq!(cfg.expires, 60);
}

#[test]
fn attempts_are_counted_and_recorded() {
    let mut state = RegistrarState::new();
    assert!(state.can_begin());
    assert_eq!(state.begin(5), 1);
    assert_eq!(state.finish(RegisterOutcome::Registered { expires: 120 }, 6), Ok(()));
    assert_eq!(state.begin(7), 2);
    let error = state.finish(RegisterOutcome::Failed(StatusCode::from_code(403)), 8).unwrap_err();
    assert!(error.contains("403"), "{error}");
    let d = state.diagnostics("example.com", "sip:1001@10.0.0.1", "call", 60);
    assert_eq!(d.server_uri, "sip:example.com");
    assert_eq!(d.cseq, 2);
    assert_eq!(d.negotiated_expires, Some(120));
    assert_eq!(d.configured_expires, 60);
    assert_eq!(d.last_status, Some(403));
    assert_eq!(d.last_attempt_at, Some(7));
    assert_eq!(d.last_success_at, Some(6));
    assert!(d.last_error.unwrap().contains("403"));
    assert_eq!(d.register_count, 1);
    assert_eq!(d.failure_count, 1);
}

#[test]
fn every_failure_is_an_error() {
    let mut state = RegistrarState::new();
    state.begin(0);
    assert!(state.finish(RegisterOutcome::Unauthorized, 1).is_err());
    assert!(state.finish(RegisterOutcome::TimedOut, 1).unwrap_err().contains("timed out"));
    assert!(state.finish(RegisterOutcome::EngineStopped, 1).is_err());
    let d = state.diagnostics("d", "c", "i", 1);
    assert_eq!(d.failure_count, 2);
    assert_eq!(d.last_status, Some(401));
}
