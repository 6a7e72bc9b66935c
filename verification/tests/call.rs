use wavekat_sip::caller::{dial_outcome, hangup_outcome};
use wavekat_sip::headers::Uri;
use wavekat_sip::message::{
    headers_cseq, parse, HeaderKind, Method, Request, Response, SipMessage,
};
use wavekat_sip::net::{IpAddr, Ipv4Addr, Ipv6Addr, SocketAddr, SocketAddrV6};
use wavekat_sip::sdp::{build_sdp_offer, AudioCodec};
use wavekat_sip::session_timer::{session_expires_in, supports_timer, SessionTimer};
use wavekat_sip::stack::call::{
    build_invite, hangup_step, CallConfig, CallFlow, CallOutcome, CallStep,
};
use wavekat_sip::stack::engine::Event;
use wavekat_sip::stack::transaction::{TokenCounter, TransactionKey};

fn read_response(raw: &[u8]) -> Response {
    match parse(raw) {
        Some(SipMessage::Response(r)) => r,
        other => panic!("expected a response, got {other:?}"),
    }
}

fn local() -> SocketAddr {
    SocketAddr::new(IpAddr::V4(Ipv4Addr(127, 0, 0, 1)), 5060)
}
fn config() -> CallConfig {
    CallConfig {
        target: Uri::parse("sip:bob@example.com").unwrap(),
        from: Uri::parse("sip:alice@example.com").unwrap(),
        contact: Uri::parse("sip:alice@127.0.0.1:5060").unwrap(),
        from_tag: "alicetag".into(),
        call_id: "call-xyz".into(),
        sdp: b"v=0\r\n".to_vec(),
        username: "alice".into(),
        password: "secret".into(),
    }
}

#[test]
fn build_invite_carries_sdp() {
    let cfg = config();
    let invite = build_invite(&cfg, 1, local(), &mut TokenCounter::new());
    assert_eq!(invite.method, Method::Invite);
    assert_eq!(invite.body, b"v=0\r\n");
    assert!(invite
        .headers
        .iter()
        .any(|h| h.kind == HeaderKind::ContentType));
}

fn answer(to: &Request, status: &str, extra: &str, body: &str) -> Response {
    let raw = format!(
        "SIP/2.0 {status}\r\nVia: {}\r\nFrom: {}\r\nTo: <sip:bob@example.com>;tag=bob\r\n\
         Call-ID: call-xyz\r\nCSeq: {}\r\n{extra}Content-Length: {}\r\n\r\n{body}",
        to.header(HeaderKind::Via).unwrap(),
        to.header(HeaderKind::From).unwrap(),
        to.header(HeaderKind::CSeq).unwrap(),
        body.len(),
    );
    read_response(raw.as_bytes())
}

const CONTACT: &str = "Contact: <sip:bob@127.0.0.1:5070>\r\n";

#[test]
fn call_is_answered_acked_and_hung_up() {
    let cfg = config();
    let mut tokens = TokenCounter::new();
    let invite = build_invite(&cfg, 1, local(), &mut tokens);
    let mut flow = CallFlow::new(invite.copy());
    let ringing = answer(&invite, "180 Ringing", "", "");
    assert!(matches!(flow.on_response(&cfg, &ringing, &mut tokens), CallStep::Wait));
    let ok = answer(&invite, "200 OK", CONTACT, "");
    let (ack, outcome) = match flow.on_response(&cfg, &ok, &mut tokens) {
        CallStep::Acknowledge { ack, outcome } => (ack, outcome),
        other => panic!("expected the ACK, got {other:?}"),
    };
    assert_eq!(ack.method, Method::Ack);
    assert_eq!(headers_cseq(&ack.headers), Some((1, Method::Ack)));
    let mut dialog = match outcome {
        CallOutcome::Answered { dialog, .. } => *dialog,
        other => panic!("expected Answered, got {other:?}"),
    };
    assert!(dialog.is_confirmed());

    let bye = dialog.new_request(Method::Bye, &mut tokens);
    assert_eq!(bye.method, Method::Bye);
    assert_eq!(bye.uri, "sip:bob@127.0.0.1:5070");
    let key = TransactionKey::from_request(&bye).unwrap();
    let done = Event::Response { key: key.copy(), response: answer(&bye, "200 OK", "", "") };
    assert_eq!(hangup_step(Some(&done)), Some(true));
    assert_eq!(hangup_step(Some(&Event::TimedOut { key })), Some(false));
    assert_eq!(hangup_step(None), Some(false));
}

#[test]
fn rejected_call_reports_status() {
    let cfg = config();
    let mut tokens = TokenCounter::new();
    let invite = build_invite(&cfg, 1, local(), &mut tokens);
    let mut flow = CallFlow::new(invite.copy());
    let busy = answer(&invite, "486 Busy Here", "", "");
    match flow.on_response(&cfg, &busy, &mut tokens) {
        CallStep::Done(CallOutcome::Rejected(status)) => assert_eq!(status.code, 486),
        other => panic!("expected Rejected(486), got {other:?}"),
    }
}

#[test]
fn a_challenged_call_is_retried_once() {
    let cfg = config();
    let mut tokens = TokenCounter::new();
    let invite = build_invite(&cfg, 1, local(), &mut tokens);
    let mut flow = CallFlow::new(invite.copy());
    let challenge = answer(
        &invite,
        "407 Proxy Authentication Required",
        "Proxy-Authenticate: Digest realm=\"p\", nonce=\"n\", qop=\"auth\"\r\n",
        "",
    );
    let retry = match flow.on_response(&cfg, &challenge, &mut tokens) {
        CallStep::Send(r) => r,
        other => panic!("expected a retry, got {other:?}"),
    };
    assert_eq!(headers_cseq(&retry.headers), Some((2, Method::Invite)));
    assert!(retry.header(HeaderKind::ProxyAuthorization).is_some());
    assert_ne!(retry.header(HeaderKind::Via), invite.header(HeaderKind::Via));
    assert_eq!(retry.body, invite.body);
    assert!(matches!(
        flow.on_response(&cfg, &challenge, &mut tokens),
        CallStep::Done(CallOutcome::Unauthorized)
    ));
}

#[test]
fn events_that_are_no_response_decide_the_call_too() {
    let cfg = config();
    let mut tokens = TokenCounter::new();
    let invite = build_invite(&cfg, 1, local(), &mut tokens);
    let key = TransactionKey::from_request(&invite).unwrap();
    let mut flow = CallFlow::new(invite);
    assert!(matches!(
        flow.on_event(&cfg, Some(&Event::Terminated { key: key.copy() }), &mut tokens),
        CallStep::Wait
    ));
    assert!(matches!(
        flow.on_event(&cfg, Some(&Event::TimedOut { key }), &mut tokens),
        CallStep::Done(CallOutcome::TimedOut)
    ));
    assert!(matches!(
        flow.on_event(&cfg, None, &mut tokens),
        CallStep::Done(CallOutcome::EngineStopped)
    ));
}

#[test]
fn outbound_invite_carries_session_timer_headers() {
    let invite = build_invite(&config(), 1, local(), &mut TokenCounter::new());
    assert!(supports_timer(&invite.headers));
    let asked = session_expires_in(&invite.headers).unwrap();
    assert_eq!(asked.interval_secs, 1800);
    assert_eq!(asked.refresher, None);
}

#[test]
fn an_invite_over_tcp_names_tcp() {
    let cfg = CallConfig {
        contact: Uri::parse("sip:alice@127.0.0.1:5060;transport=tcp").unwrap(),
        ..config()
    };
    let invite = build_invite(&cfg, 1, local(), &mut TokenCounter::new());
    assert!(invite.header(HeaderKind::Via).unwrap().starts_with("SIP/2.0/TCP 127.0.0.1:5060"));
    let contact = invite.header(HeaderKind::Contact).unwrap().to_ascii_lowercase();
    assert!(contact.contains(";transport=tcp"), "{contact}");
}

#[test]
fn an_answer_settles_media_and_timer() {
    let cfg = config();
    let mut tokens = TokenCounter::new();
    let invite = build_invite(&cfg, 1, local(), &mut tokens);
    let mut flow = CallFlow::new(invite.copy());
    let sdp = String::from_utf8(build_sdp_offer(IpAddr::V4(Ipv4Addr(10, 0, 0, 9)), 7000)).unwrap();
    let extra = format!("{CONTACT}Session-Expires: 600;refresher=uas\r\n");
    let ok = answer(&invite, "200 OK", &extra, &sdp);
    match flow.on_response(&cfg, &ok, &mut tokens) {
        CallStep::Acknowledge { outcome, .. } => {
            let call = dial_outcome(outcome).unwrap();
            assert_eq!(call.remote_media.port, 7000);
            assert_eq!(call.remote_media.codec, Some(AudioCodec::Opus { payload_type: 111 }));
            assert_eq!(
                call.timer,
                Some(SessionTimer { interval_secs: 600, we_are_refresher: false })
            );
            assert!(call.dialog.is_confirmed());
        }
        other => panic!("expected an answer, got {other:?}"),
    }
}

#[test]
fn failed_calls_say_why() {
    assert!(dial_outcome(CallOutcome::Unauthorized).unwrap_err().contains("authentication"));
    assert!(dial_outcome(CallOutcome::TimedOut).unwrap_err().contains("timed out"));
    assert!(dial_outcome(CallOutcome::EngineStopped).unwrap_err().contains("engine stopped"));
    let busy = wavekat_sip::message::StatusCode::from_code(486);
    let error = dial_outcome(CallOutcome::Rejected(busy)).unwrap_err();
    assert!(error.contains("486"), "{error}");
    assert_eq!(hangup_outcome(true), Ok(()));
    assert!(hangup_outcome(false).is_err());
}

#[test]
fn an_invite_from_a_scoped_address_names_the_scope() {
    let local = SocketAddr::V6(SocketAddrV6 {
        ip: Ipv6Addr(0xfe80, 0, 0, 0, 0, 0, 0, 1),
        port: 5060,
        flowinfo: 0,
        scope_id: 2,
    });
    let invite = build_invite(&config(), 1, local, &mut TokenCounter::new());
    let via = invite.header(HeaderKind::Via).unwrap();
    assert!(via.starts_with("SIP/2.0/UDP [fe80::1%2]:5060;"), "{via}");
}
