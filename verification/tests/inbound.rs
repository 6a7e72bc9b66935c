use wavekat_sip::headers::headers_to;
use wavekat_sip::inbound::InboundRequest;
use wavekat_sip::message::{
    header_value, headers_cseq, parse, Header, HeaderKind, Method, Request, SipMessage, StatusCode,
};

fn info_request() -> Request {
    let raw = "INFO sip:bob@10.0.0.1:5060 SIP/2.0\r\n\
         Via: SIP/2.0/UDP 1.2.3.4:5060;branch=z9hG4bK-info\r\n\
         From: <sip:alice@atlanta.example.com>;tag=alice\r\n\
         To: <sip:bob@biloxi.example.com>;tag=ourtag\r\n\
         Call-ID: call-dlg\r\n\
         CSeq: 2 INFO\r\n\
         Content-Type: application/dtmf-relay\r\n\
         Content-Length: 21\r\n\r\n\
         Signal=5\nDuration=160";
    match parse(raw.as_bytes()) {
        Some(SipMessage::Request(r)) => r,
        other => panic!("expected a request, got {other:?}"),
    }
}

#[test]
fn exposes_method_headers_and_body() {
    let req = InboundRequest { request: info_request() };
    assert_eq!(req.method(), Method::Info);
    assert_eq!(req.body(), b"Signal=5\nDuration=160");
    assert!(headers_cseq(req.headers()).is_some());
}

#[test]
fn answers_keep_the_tag_of_the_dialog() {
    let req = InboundRequest { request: info_request() };
    let answer = req.ok().unwrap();
    assert_eq!(answer.status_code.code, 200);
    assert_eq!(headers_to(&answer.headers).unwrap().tag, Some("ourtag".to_string()));
    assert_eq!(header_value(&answer.headers, HeaderKind::CallId), Some("call-dlg"));
    assert!(answer.body.is_empty());
}

#[test]
fn answers_can_carry_headers_and_sdp() {
    let req = InboundRequest { request: info_request() };
    let extra = vec![Header::other("X-Note", "one")];
    let answer = req
        .respond(StatusCode::from_code(488), extra, Some(b"v=0\r\n".to_vec()))
        .unwrap();
    assert_eq!(answer.status_code.code, 488);
    assert_eq!(answer.body, b"v=0\r\n");
    assert_eq!(
        header_value(&answer.headers, HeaderKind::ContentType),
        Some("application/sdp")
    );
    assert_eq!(answer.headers.last().unwrap().name(), "X-Note");
}
