use wavekat_sip::headers::{headers_from, headers_to, headers_via, Uri};
use wavekat_sip::message::{
    headers_cseq, parse, Header, HeaderKind, Method, Request, Response, SipMessage,
};
use wavekat_sip::stack::dialog::{fill_request, seq_to_acknowledge, Dialog, DialogId};
use wavekat_sip::stack::transaction::TokenCounter;

fn read_request(raw: &[u8]) -> Request {
    match parse(raw) {
        Some(SipMessage::Request(r)) => r,
        other => panic!("expected a request, got {other:?}"),
    }
}

fn read_response(raw: &[u8]) -> Response {
    match parse(raw) {
        Some(SipMessage::Response(r)) => r,
        other => panic!("expected a response, got {other:?}"),
    }
}

fn invite() -> Request {
    let raw = "INVITE sip:bob@biloxi.example.com SIP/2.0\r\n\
         Via: SIP/2.0/UDP 10.0.0.1:5060;branch=z9hG4bK-inv\r\n\
         Record-Route: <sip:p1.example.com;lr>\r\n\
         From: \"Alice\" <sip:alice@atlanta.example.com>;tag=alice\r\n\
         To: <sip:bob@biloxi.example.com>\r\n\
         Contact: <sip:alice@10.0.0.1:5060>\r\n\
         Call-ID: call-dlg\r\n\
         CSeq: 314 INVITE\r\n\
         Content-Length: 0\r\n\r\n";
    read_request(raw.as_bytes())
}

fn ok_response() -> Response {
    // Two Record-Route entries: UAC must reverse them.
    let raw = "SIP/2.0 200 OK\r\n\
         Via: SIP/2.0/UDP 10.0.0.1:5060;branch=z9hG4bK-inv\r\n\
         Record-Route: <sip:p1.example.com;lr>\r\n\
         Record-Route: <sip:p2.example.com;lr>\r\n\
         From: \"Alice\" <sip:alice@atlanta.example.com>;tag=alice\r\n\
         To: <sip:bob@biloxi.example.com>;tag=bob\r\n\
         Contact: <sip:bob@192.168.9.9:5060>\r\n\
         Call-ID: call-dlg\r\n\
         CSeq: 314 INVITE\r\n\
         Content-Length: 0\r\n\r\n";
    read_response(raw.as_bytes())
}

fn local_contact() -> Uri {
    Uri::parse("sip:alice@10.0.0.1:5060").unwrap()
}

#[test]
fn uac_dialog_captures_identity_and_target() {
    let dialog = Dialog::uac(&invite(), &ok_response(), local_contact()).unwrap();
    assert!(dialog.is_confirmed());
    assert_eq!(
        dialog.id(),
        DialogId {
            call_id: "call-dlg".into(),
            local_tag: "alice".into(),
            remote_tag: "bob".into(),
        }
    );
    assert_eq!(
        dialog.remote_target(),
        "sip:bob@192.168.9.9:5060"
    );
}

#[test]
fn in_dialog_request_uses_target_route_set_and_tags() {
    let mut tokens = TokenCounter::new();
    let mut dialog = Dialog::uac(&invite(), &ok_response(), local_contact()).unwrap();
    let bye = dialog.new_request(Method::Bye, &mut tokens);

    // Request-URI is the remote target, not a route.
    assert_eq!(bye.uri, "sip:bob@192.168.9.9:5060");
    assert_eq!(bye.method, Method::Bye);

    // CSeq advanced from the INVITE's 314 → 315, method BYE.
    let cseq = headers_cseq(&bye.headers).unwrap();
    assert_eq!(cseq.0, 315);
    assert_eq!(cseq.1, Method::Bye);

    // From carries our tag, To the remote tag.
    assert_eq!(
        headers_from(&bye.headers).unwrap().tag,
        Some("alice".to_string())
    );
    assert_eq!(
        headers_to(&bye.headers).unwrap().tag,
        Some("bob".to_string())
    );

    // Route set present and REVERSED for the UAC: p2 before p1.
    let route = bye
        .headers
        .iter()
        .find_map(|h| match h {
            h if h.kind == HeaderKind::Route => Some(h.value.clone()),
            _ => None,
        })
        .expect("Route header present");
    let p2 = route.find("p2").expect("p2 in route");
    let p1 = route.find("p1").expect("p1 in route");
    assert!(p2 < p1, "UAC route set must be reversed: {route}");

    // Fresh transaction branch.
    let branch = headers_via(&bye.headers).unwrap().branch.unwrap();
    assert!(branch.starts_with("z9hG4bK"));
}

#[test]
fn route_set_is_replayed_on_every_request() {
    // A second in-dialog request still carries the
    // route set captured at establishment (never dropped to the Contact).
    let mut tokens = TokenCounter::new();
    let mut dialog = Dialog::uac(&invite(), &ok_response(), local_contact()).unwrap();
    let _bye = dialog.new_request(Method::Bye, &mut tokens);
    let reinvite = dialog.new_request(Method::Invite, &mut tokens);
    assert!(reinvite
        .headers
        .iter()
        .any(|h| h.kind == HeaderKind::Route));
    // And the CSeq keeps advancing.
    assert_eq!(headers_cseq(&reinvite.headers).unwrap().0, 316);
}

#[test]
fn uas_dialog_orients_parties_and_matches_inbound() {
    let dialog = Dialog::uas(&invite(), "ourtag".into(), local_contact()).unwrap();
    // We are the callee: remote is the caller (alice), local is us (bob)+tag.
    let id = dialog.id();
    assert_eq!(id.local_tag, "ourtag");
    assert_eq!(id.remote_tag, "alice");

    // An inbound in-dialog request (the peer's BYE) maps to this dialog:
    // its To tag is ours, its From tag is theirs.
    let bye_raw = "BYE sip:bob@10.0.0.1:5060 SIP/2.0\r\n\
         Via: SIP/2.0/UDP 1.2.3.4:5060;branch=z9hG4bK-bye\r\n\
         From: \"Alice\" <sip:alice@atlanta.example.com>;tag=alice\r\n\
         To: <sip:bob@biloxi.example.com>;tag=ourtag\r\n\
         Call-ID: call-dlg\r\n\
         CSeq: 1 BYE\r\n\
         Content-Length: 0\r\n\r\n";
    let inbound = read_request(bye_raw.as_bytes());
    assert_eq!(DialogId::from_request(&inbound), Some(dialog.id()));
}

#[test]
fn early_dialog_from_provisional_is_not_confirmed() {
    let raw = "SIP/2.0 180 Ringing\r\n\
         Via: SIP/2.0/UDP 10.0.0.1:5060;branch=z9hG4bK-inv\r\n\
         From: \"Alice\" <sip:alice@atlanta.example.com>;tag=alice\r\n\
         To: <sip:bob@biloxi.example.com>;tag=bob\r\n\
         Contact: <sip:bob@192.168.9.9:5060>\r\n\
         Call-ID: call-dlg\r\n\
         CSeq: 314 INVITE\r\n\
         Content-Length: 0\r\n\r\n";
    let ringing = read_response(raw.as_bytes());
    let mut dialog = Dialog::uac(&invite(), &ringing, local_contact()).unwrap();
    assert!(!dialog.is_confirmed());
    dialog.confirm();
    assert!(dialog.is_confirmed());
}

#[test]
fn the_ack_reuses_the_sequence_number() {
    let mut tokens = TokenCounter::new();
    let dialog = Dialog::uac(&invite(), &ok_response(), local_contact()).unwrap();
    let ack = dialog.ack_2xx(314, &mut tokens);
    assert_eq!(ack.method, Method::Ack);
    assert_eq!(headers_cseq(&ack.headers), Some((314, Method::Ack)));
    assert!(ack.headers.iter().any(|h| h.kind == HeaderKind::Route));
    assert_eq!(ack.uri, "sip:bob@192.168.9.9:5060");
}

#[test]
fn a_filled_request_carries_headers_and_body() {
    let mut tokens = TokenCounter::new();
    let mut dialog = Dialog::uac(&invite(), &ok_response(), local_contact()).unwrap();
    assert!(dialog.can_send());
    let info = fill_request(
        dialog.new_request(Method::Info, &mut tokens),
        &vec![Header::new(HeaderKind::ContentType, "application/dtmf-relay")],
        b"Signal=5".to_vec(),
    );
    assert_eq!(info.header(HeaderKind::ContentType), Some("application/dtmf-relay"));
    assert_eq!(info.header(HeaderKind::ContentLength), Some("8"));
    assert_eq!(info.body, b"Signal=5");
}

#[test]
fn responses_without_a_contact_make_no_dialog() {
    let mut response = ok_response();
    response.headers.retain(|h| h.kind != HeaderKind::To);
    assert!(Dialog::uac(&invite(), &response, local_contact()).is_none());
}

#[test]
fn requests_find_the_dialog_of_the_peer() {
    let mut tokens = TokenCounter::new();
    let mut caller = Dialog::uac(&invite(), &ok_response(), local_contact()).unwrap();
    let contact = Uri::parse("sip:bob@192.168.9.9:5060").unwrap();
    let mut callee = Dialog::uas(&invite(), "bob".to_string(), contact).unwrap();
    let bye = caller.new_request(Method::Bye, &mut tokens);
    assert_eq!(DialogId::from_request(&bye), Some(callee.id()));
    let info = callee.new_request(Method::Info, &mut tokens);
    let extra = vec![Header::new(HeaderKind::ContentType, "application/dtmf-relay")];
    let info = fill_request(info, &extra, b"Signal=1".to_vec());
    assert_eq!(DialogId::from_request(&info), Some(caller.id()));
    assert_eq!(caller.remote_target(), "sip:bob@192.168.9.9:5060");
    assert_eq!(callee.remote_target(), "sip:alice@10.0.0.1:5060");
    assert!(bye.header(HeaderKind::Via).unwrap().contains(";rport;branch="));
}

#[test]
fn only_a_2xx_to_an_invite_is_acknowledged() {
    assert_eq!(seq_to_acknowledge(&invite(), &ok_response()), Some(314));
    let mut busy = ok_response();
    busy.status_code.code = 486;
    assert_eq!(seq_to_acknowledge(&invite(), &busy), None);
    let mut info = invite();
    info.method = Method::Info;
    assert_eq!(seq_to_acknowledge(&info, &ok_response()), None);
}
