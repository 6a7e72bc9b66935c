use wavekat_sip::headers::{headers_from, headers_to, Uri};
use wavekat_sip::message::{
    headers_cseq, parse, HeaderKind, Request, SipMessage, StatusCode,
};
use wavekat_sip::stack::response::{build_response, ResponseBody};

fn read_request(raw: &[u8]) -> Request {
    match parse(raw) {
        Some(SipMessage::Request(r)) => r,
        other => panic!("expected a request, got {other:?}"),
    }
}

fn invite() -> Request {
    let raw = "INVITE sip:bob@example.com SIP/2.0\r\n\
         Via: SIP/2.0/UDP 10.0.0.1:5060;branch=z9hG4bK-r\r\n\
         From: <sip:alice@example.com>;tag=alice\r\n\
         To: <sip:bob@example.com>\r\n\
         Call-ID: call-r\r\n\
         CSeq: 1 INVITE\r\n\
         Content-Length: 0\r\n\r\n";
    read_request(raw.as_bytes())
}

#[test]
fn ok_echoes_dialog_headers_and_adds_to_tag() {
    let resp = build_response(
        &invite(),
        StatusCode::from_code(200),
        Some("srvtag"),
        Some(&Uri::parse("sip:bob@10.0.0.2:5060").unwrap()),
        Some(ResponseBody {
            content_type: "application/sdp",
            bytes: b"v=0\r\n".to_vec(),
        }),
    )
    .unwrap();

    assert_eq!(resp.status_code.code, 200);
    assert_eq!(
        headers_to(&resp.headers).unwrap().tag,
        Some("srvtag".to_string())
    );
    assert_eq!(
        headers_from(&resp.headers).unwrap().tag,
        Some("alice".to_string())
    );
    assert_eq!(headers_cseq(&resp.headers).unwrap().0, 1);
    assert_eq!(resp.body, b"v=0\r\n");
    assert!(resp.headers.iter().any(|h| h.kind == HeaderKind::Contact));
}

#[test]
fn ok_echoes_record_route_in_order() {
    // RFC 3261 §12.1.1: every Record-Route the proxy chain inserted must be
    // mirrored into the 2xx, in the same order, so the peer can build its
    // route set and send the in-dialog BYE back through the proxies.
    let raw = "INVITE sip:bob@example.com SIP/2.0\r\n\
         Via: SIP/2.0/UDP 10.0.0.1:5060;branch=z9hG4bK-r\r\n\
         Record-Route: <sip:proxy1.example.com;lr>\r\n\
         Record-Route: <sip:proxy2.example.com;lr>\r\n\
         From: <sip:alice@example.com>;tag=alice\r\n\
         To: <sip:bob@example.com>\r\n\
         Call-ID: call-r\r\n\
         CSeq: 1 INVITE\r\n\
         Content-Length: 0\r\n\r\n";
    let invite = read_request(raw.as_bytes());
    let resp = build_response(&invite, StatusCode::from_code(200), Some("srvtag"), None, None).unwrap();

    let record_routes: Vec<String> = resp
        .headers
        .iter()
        .filter_map(|h| match h {
            h if h.kind == HeaderKind::RecordRoute => Some(h.value.clone()),
            _ => None,
        })
        .collect();
    assert_eq!(
        record_routes,
        vec![
            "<sip:proxy1.example.com;lr>".to_string(),
            "<sip:proxy2.example.com;lr>".to_string(),
        ],
        "2xx must mirror Record-Route values verbatim and in order"
    );
}

#[test]
fn reject_keeps_existing_to_tag() {
    let raw = "BYE sip:bob@example.com SIP/2.0\r\n\
         Via: SIP/2.0/UDP 10.0.0.1:5060;branch=z9hG4bK-b\r\n\
         From: <sip:alice@example.com>;tag=alice\r\n\
         To: <sip:bob@example.com>;tag=bob\r\n\
         Call-ID: call-r\r\n\
         CSeq: 2 BYE\r\n\
         Content-Length: 0\r\n\r\n";
    let bye = read_request(raw.as_bytes());
    let resp = build_response(&bye, StatusCode::from_code(200), Some("ignored"), None, None).unwrap();
    // Existing tag is preserved, not overwritten.
    assert_eq!(
        headers_to(&resp.headers).unwrap().tag,
        Some("bob".to_string())
    );
    assert_eq!(resp.body.len(), 0);
}

#[test]
fn requests_without_a_to_get_no_response() {
    let mut request = invite();
    request.headers.retain(|h| h.kind != HeaderKind::To);
    assert!(build_response(&request, StatusCode::from_code(200), None, None, None).is_none());
}
