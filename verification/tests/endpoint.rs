use wavekat_sip::endpoint::{auto_answer_200, cancelled_487, InboundRoute, Registry};
use wavekat_sip::message::{parse, Request, SipMessage};
use wavekat_sip::stack::dialog::DialogId;
use wavekat_sip::stack::transaction::TransactionKey;

fn read_request(raw: &[u8]) -> Request {
    match parse(raw) {
        Some(SipMessage::Request(r)) => r,
        other => panic!("expected a request, got {other:?}"),
    }
}

fn request(method: &str, branch: &str, to_tag: &str) -> Request {
    let raw = format!(
        "{method} sip:bob@10.0.0.2:5060 SIP/2.0\r\n\
         Via: SIP/2.0/UDP 10.0.0.1:5060;branch={branch}\r\n\
         From: <sip:alice@example.com>;tag=alice\r\n\
         To: <sip:bob@example.com>{to_tag}\r\n\
         Call-ID: call-in\r\n\
         CSeq: 2 {method}\r\n\
         Content-Length: 0\r\n\r\n"
    );
    read_request(raw.as_bytes())
}

fn route(registry: &Registry, request: &Request) -> InboundRoute {
    registry.route_inbound(&TransactionKey::from_request(request).unwrap(), request)
}

fn dialog() -> DialogId {
    DialogId {
        call_id: "call-in".into(),
        local_tag: "ours".into(),
        remote_tag: "alice".into(),
    }
}

#[test]
fn opted_in_call_receives_inbound_in_dialog_requests() {
    let mut registry = Registry::new();
    for method in ["INVITE", "INFO", "NOTIFY", "REFER"] {
        let inside = request(method, "z9hG4bK-1", ";tag=ours");
        assert!(matches!(route(&registry, &inside), InboundRoute::AutoAnswer));
    }
    assert_eq!(registry.register_dialog(dialog(), 6), None);
    assert_eq!(registry.register_dialog(dialog(), 7), Some(6));
    for method in ["INVITE", "INFO", "NOTIFY", "REFER"] {
        let inside = request(method, "z9hG4bK-1", ";tag=ours");
        assert!(matches!(route(&registry, &inside), InboundRoute::ToCall(7)));
    }
    assert_eq!(registry.unregister_dialog(&dialog()), Some(7));
    assert_eq!(registry.unregister_dialog(&dialog()), None);
    let inside = request("INFO", "z9hG4bK-1", ";tag=ours");
    assert!(matches!(route(&registry, &inside), InboundRoute::AutoAnswer));
}

#[test]
fn remote_bye_fires_call_terminated() {
    let mut registry = Registry::new();
    registry.register_dialog(dialog(), 7);
    let bye = request("BYE", "z9hG4bK-1", ";tag=ours");
    assert!(matches!(route(&registry, &bye), InboundRoute::AutoAnswer));
    registry.register_call(dialog(), 9);
    assert!(matches!(route(&registry, &bye), InboundRoute::HungUp(9)));
    let other = request("BYE", "z9hG4bK-1", ";tag=else");
    assert!(matches!(route(&registry, &other), InboundRoute::AutoAnswer));
    assert_eq!(registry.unregister_call(&dialog()), Some(9));
    assert!(matches!(route(&registry, &bye), InboundRoute::AutoAnswer));
}

#[test]
fn inbound_cancel_fires_incoming_cancelled_and_487s_the_invite() {
    let mut registry = Registry::new();
    let invite = request("INVITE", "z9hG4bK-c", "");
    assert!(matches!(route(&registry, &invite), InboundRoute::NewCall));
    registry.register_incoming(TransactionKey::from_request(&invite).unwrap(), 3);
    let cancel = request("CANCEL", "z9hG4bK-c", "");
    match route(&registry, &cancel) {
        InboundRoute::Cancel { id, invite: key } => {
            assert_eq!(id, 3);
            assert_eq!(key, TransactionKey::from_request(&invite).unwrap());
        }
        other => panic!("expected a cancel, got {other:?}"),
    }
    assert_eq!(cancelled_487(&invite, "ours").unwrap().status_code.code, 487);
    assert_eq!(auto_answer_200(&cancel, "ours").unwrap().status_code.code, 200);
}

#[test]
fn cancel_after_accept_does_not_487_the_established_call() {
    let mut registry = Registry::new();
    let invite = request("INVITE", "z9hG4bK-c", "");
    let key = TransactionKey::from_request(&invite).unwrap();
    registry.register_incoming(key.copy(), 3);
    assert_eq!(registry.unregister_incoming(&key), Some(3));
    let cancel = request("CANCEL", "z9hG4bK-c", "");
    assert!(matches!(route(&registry, &cancel), InboundRoute::AutoAnswer));
}

#[test]
fn stray_cancel_is_answered_200_without_487() {
    let registry = Registry::new();
    let cancel = request("CANCEL", "z9hG4bK-stray", "");
    assert!(matches!(route(&registry, &cancel), InboundRoute::AutoAnswer));
    assert_eq!(auto_answer_200(&cancel, "ours").unwrap().status_code.code, 200);
}

#[test]
fn acks_are_absorbed_and_options_answered() {
    let registry = Registry::new();
    let ack = request("ACK", "z9hG4bK-a", ";tag=ours");
    assert!(matches!(route(&registry, &ack), InboundRoute::Absorb));
    let options = request("OPTIONS", "z9hG4bK-o", "");
    assert!(matches!(route(&registry, &options), InboundRoute::AutoAnswer));
}
