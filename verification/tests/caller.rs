use wavekat_sip::account::{SipAccount, TlsPolicy, Transport};
use wavekat_sip::caller::{call_config, call_id_from};
use wavekat_sip::headers::{contact_uri_text, Uri};
use wavekat_sip::net::{IpAddr, Ipv4Addr, SocketAddr};

fn test_account() -> SipAccount {
    SipAccount {
        display_name: "Office".to_string(),
        username: "1001".to_string(),
        password: "secret".to_string(),
        domain: "sip.example.com".to_string(),
        auth_username: None,
        server: Some("pbx.example.com".to_string()),
        port: Some(5080),
        transport: Transport::Udp,
        tls_policy: TlsPolicy::default(),
    }
}

#[test]
fn caller_holds_account_and_endpoint_inputs() {
    let acct = test_account();
    assert_eq!(acct.auth_username(), "1001");
}

#[test]
fn a_call_is_placed_as_the_account() {
    let addr = SocketAddr::new(IpAddr::V4(Ipv4Addr(10, 0, 0, 1)), 5060);
    let contact = contact_uri_text("1001", addr, Transport::Tcp);
    assert_eq!(contact, "sip:1001@10.0.0.1:5060;transport=tcp");
    let target = Uri::parse("sip:1002@sip.example.com").unwrap();
    let cfg = call_config(
        &test_account(),
        target,
        &contact,
        "tag",
        &call_id_from("abc"),
        b"v=0".to_vec(),
    )
    .unwrap();
    assert_eq!(cfg.target.text, "sip:1002@sip.example.com");
    assert_eq!(cfg.from.text, "sip:1001@sip.example.com");
    assert_eq!(cfg.contact.text, "sip:1001@10.0.0.1:5060;transport=TCP");
    assert_eq!(cfg.contact.host_port, "10.0.0.1:5060");
    assert_eq!(cfg.contact.via_transport(), "TCP");
    assert_eq!(cfg.call_id, "abc@wavekat.com");
    assert_eq!(cfg.username, "1001");
    assert_eq!(cfg.password, "secret");
    assert_eq!(cfg.sdp, b"v=0");
}

#[test]
fn unreadable_contacts_make_no_call() {
    let target = Uri::parse("sip:1002@sip.example.com").unwrap();
    assert!(call_config(&test_account(), target, "sip:a@b:x", "t", "c", Vec::new()).is_none());
}
