use wavekat_sip::headers::{headers_from, Uri};
use wavekat_sip::message::{
    headers_cseq, parse, HeaderKind, Method, Request, Response, SipMessage,
};
use wavekat_sip::net::{IpAddr, Ipv4Addr, SocketAddr};
use wavekat_sip::stack::registration::{
    build_register, granted_expires, RegisterConfig, RegisterFlow, RegisterOutcome, RegisterStep,
};
use wavekat_sip::stack::transaction::TokenCounter;

fn read_response(raw: &[u8]) -> Response {
    match parse(raw) {
        Some(SipMessage::Response(r)) => r,
        other => panic!("expected a response, got {other:?}"),
    }
}

fn addr() -> SocketAddr {
    SocketAddr::new(IpAddr::V4(Ipv4Addr(10, 0, 0, 1)), 5060)
}

fn config() -> RegisterConfig {
    RegisterConfig {
        registrar_uri: Uri::parse("sip:example.com").unwrap(),
        aor: Uri::parse("sip:alice@example.com").unwrap(),
        contact: Uri::parse("sip:alice@10.0.0.1:5060").unwrap(),
        from_tag: "alicetag".into(),
        call_id: "reg-call".into(),
        expires: 60,
        username: "alice".into(),
        password: "secret".into(),
    }
}

#[test]
fn build_register_has_expected_shape() {
    let cfg = config();
    let req = build_register(&cfg, 1, addr(), &mut TokenCounter::new());
    assert_eq!(req.method, Method::Register);
    assert_eq!(req.uri, "sip:example.com");
    assert_eq!(headers_cseq(&req.headers).unwrap().0, 1);
    assert_eq!(
        headers_from(&req.headers).unwrap().tag,
        Some("alicetag".to_string())
    );
    assert_eq!(req.header(HeaderKind::Expires), Some("60"));
}

#[test]
fn granted_expires_reads_the_header() {
    let raw = "SIP/2.0 200 OK\r\nVia: SIP/2.0/UDP 10.0.0.1:5060;branch=z9hG4bK-x\r\n\
         From: <sip:a@b>;tag=a\r\nTo: <sip:a@b>;tag=s\r\nCall-ID: c\r\nCSeq: 1 REGISTER\r\n\
         Expires: 120\r\nContent-Length: 0\r\n\r\n";
    let resp = read_response(raw.as_bytes());
    assert_eq!(granted_expires(&resp), Some(120));
}

fn answer(to: &Request, status: &str, extra: &str) -> Response {
    let raw = format!(
        "SIP/2.0 {status}\r\nVia: {}\r\nFrom: {}\r\nTo: <sip:alice@example.com>;tag=s\r\n\
         Call-ID: reg-call\r\nCSeq: {}\r\n{extra}Content-Length: 0\r\n\r\n",
        to.header(HeaderKind::Via).unwrap(),
        to.header(HeaderKind::From).unwrap(),
        to.header(HeaderKind::CSeq).unwrap(),
    );
    read_response(raw.as_bytes())
}

const CHALLENGE: &str =
    "WWW-Authenticate: Digest realm=\"example.com\", nonce=\"n\", qop=\"auth\"\r\n";

#[test]
fn a_challenge_is_answered_and_then_registered() {
    let cfg = config();
    let mut tokens = TokenCounter::new();
    let request = build_register(&cfg, 1, addr(), &mut tokens);
    let mut flow = RegisterFlow::new(request.copy());
    let challenge = answer(&request, "401 Unauthorized", CHALLENGE);
    let retry = match flow.on_final(&cfg, Some(&challenge), &mut tokens) {
        RegisterStep::Send(r) => r,
        other => panic!("expected a retry, got {other:?}"),
    };
    assert_eq!(headers_cseq(&retry.headers), Some((2, Method::Register)));
    assert!(retry.header(HeaderKind::Authorization).unwrap().contains("username=\"alice\""));
    let ok = answer(&retry, "200 OK", "Expires: 30\r\n");
    match flow.on_final(&cfg, Some(&ok), &mut tokens) {
        RegisterStep::Done(o) => assert_eq!(o, RegisterOutcome::Registered { expires: 30 }),
        other => panic!("expected the end, got {other:?}"),
    }
}

#[test]
fn a_second_challenge_ends_the_attempt() {
    let cfg = config();
    let mut tokens = TokenCounter::new();
    let request = build_register(&cfg, 1, addr(), &mut tokens);
    let mut flow = RegisterFlow::new(request.copy());
    let challenge = answer(&request, "401 Unauthorized", CHALLENGE);
    assert!(matches!(
        flow.on_final(&cfg, Some(&challenge), &mut tokens),
        RegisterStep::Send(_)
    ));
    assert!(matches!(
        flow.on_final(&cfg, Some(&challenge), &mut tokens),
        RegisterStep::Done(RegisterOutcome::Unauthorized)
    ));
}

#[test]
fn refusals_timeouts_and_unreadable_challenges_end_the_attempt() {
    let cfg = config();
    let mut tokens = TokenCounter::new();
    let request = build_register(&cfg, 1, addr(), &mut tokens);
    let mut flow = RegisterFlow::new(request.copy());
    match flow.on_final(&cfg, Some(&answer(&request, "403 Forbidden", "")), &mut tokens) {
        RegisterStep::Done(RegisterOutcome::Failed(status)) => assert_eq!(status.code, 403),
        other => panic!("expected a failure, got {other:?}"),
    }
    assert!(matches!(
        flow.on_final(&cfg, None, &mut tokens),
        RegisterStep::Done(RegisterOutcome::TimedOut)
    ));
    assert!(matches!(
        flow.on_final(&cfg, Some(&answer(&request, "401 Unauthorized", "")), &mut tokens),
        RegisterStep::Done(RegisterOutcome::Unauthorized)
    ));
}

#[test]
fn a_lifetime_that_is_not_named_is_the_requested_one() {
    let cfg = config();
    let mut tokens = TokenCounter::new();
    let request = build_register(&cfg, 1, addr(), &mut tokens);
    let mut flow = RegisterFlow::new(request.copy());
    assert!(matches!(
        flow.on_final(&cfg, Some(&answer(&request, "200 OK", "")), &mut tokens),
        RegisterStep::Done(RegisterOutcome::Registered { expires: 60 })
    ));
}

#[test]
fn a_register_over_tcp_names_tcp() {
    let cfg = RegisterConfig {
        contact: Uri::parse("sip:alice@10.0.0.1:5060;transport=tcp").unwrap(),
        ..config()
    };
    let request = build_register(&cfg, 1, addr(), &mut TokenCounter::new());
    assert!(request.header(HeaderKind::Via).unwrap().starts_with("SIP/2.0/TCP 10.0.0.1:5060"));
    let contact = request.header(HeaderKind::Contact).unwrap().to_ascii_lowercase();
    assert!(contact.contains(";transport=tcp"), "{contact}");
}
