use wavekat_sip::callee::{AcceptStep, IncomingCall};
use wavekat_sip::headers::{headers_to, Uri};
use wavekat_sip::message::{
    header_value, parse, HeaderKind, Method, Request, SipMessage, StatusCode,
};
use wavekat_sip::net::{IpAddr, Ipv4Addr};
use wavekat_sip::sdp::{build_sdp_offer, parse_sdp, AudioCodec};
use wavekat_sip::session_timer::{session_expires_in, supports_timer, Refresher};

fn read_request(raw: &[u8]) -> Request {
    match parse(raw) {
        Some(SipMessage::Request(r)) => r,
        other => panic!("expected a request, got {other:?}"),
    }
}

fn invite(extra: &str, sdp: &str) -> Request {
    let raw = format!(
        "INVITE sip:bob@10.0.0.2:5060 SIP/2.0\r\n\
         Via: SIP/2.0/UDP 10.0.0.1:5060;branch=z9hG4bK-in\r\n\
         From: \"Alice\" <sip:alice@example.com>;tag=alice\r\n\
         To: <sip:bob@example.com>\r\n\
         Contact: <sip:alice@10.0.0.1:5060>\r\n\
         Call-ID: call-in\r\n\
         CSeq: 1 INVITE\r\n\
         {extra}Content-Type: application/sdp\r\n\
         Content-Length: {}\r\n\r\n{sdp}",
        sdp.len(),
    );
    read_request(raw.as_bytes())
}

fn incoming(extra: &str, sdp: &str) -> IncomingCall {
    let request = invite(extra, sdp);
    let remote_media = parse_sdp(&request.body).unwrap();
    IncomingCall { request, local_tag: "ours".to_string(), remote_media }
}

fn offer() -> String {
    String::from_utf8(build_sdp_offer(IpAddr::V4(Ipv4Addr(10, 0, 0, 1)), 4000)).unwrap()
}

fn contact() -> Uri {
    Uri::parse("sip:bob@10.0.0.2:5060").unwrap()
}

fn local_ip() -> IpAddr {
    IpAddr::V4(Ipv4Addr(10, 0, 0, 2))
}

#[test]
fn reject_requires_non_2xx() {
    assert!(StatusCode::from_code(200).code < 300);
    assert!(StatusCode::from_code(486).code >= 300);
    let call = incoming("", &offer());
    let error = call.reject(StatusCode::from_code(200)).unwrap_err();
    assert!(error.contains("non-failure status"), "{error}");
    let busy = call.reject(StatusCode::from_code(486)).unwrap();
    assert_eq!(busy.status_code.code, 486);
    assert_eq!(headers_to(&busy.headers).unwrap().tag, Some("ours".to_string()));
}

#[test]
fn an_accepted_call_answers_opus_alone() {
    match incoming("", &offer()).accept(local_ip(), 6000, &contact()) {
        AcceptStep::Answer(a) => {
            assert_eq!(a.response.status_code.code, 200);
            let media = parse_sdp(&a.response.body).unwrap();
            assert_eq!(media.codec, Some(AudioCodec::Opus { payload_type: 111 }));
            assert_eq!(media.port, 6000);
            assert_eq!(a.remote_media.port, 4000);
            assert_eq!(a.remote_media.codec, media.codec);
            assert_eq!(a.timer, None);
            let mut dialog = a.dialog.unwrap();
            assert_eq!(dialog.id().local_tag, "ours");
            let bye = dialog.request_with_branch(Method::Bye, "z9hG4bK-x");
            assert_eq!(bye.uri, "sip:alice@10.0.0.1:5060");
        }
        other => panic!("expected an answer, got {other:?}"),
    }
}

#[test]
fn an_offer_without_known_codec_is_refused() {
    let sdp = "v=0\r\nc=IN IP4 10.0.0.1\r\nm=audio 5000 RTP/AVP 18\r\n\
               a=rtpmap:18 G729/8000\r\n";
    match incoming("", sdp).accept(local_ip(), 6000, &contact()) {
        AcceptStep::Refuse(refusal) => {
            assert_eq!(refusal.response.unwrap().status_code.code, 488);
            assert!(refusal.error.contains("payload type 18"), "{}", refusal.error);
        }
        other => panic!("expected a refusal, got {other:?}"),
    }
}

#[test]
fn a_refusal_is_known_before_media_is_bound() {
    assert!(incoming("", &offer()).refusal().is_none());
    let sdp = "v=0\r\nc=IN IP4 10.0.0.1\r\nm=audio 5000 RTP/AVP 18\r\n\
               a=rtpmap:18 G729/8000\r\n";
    let mut call = incoming("", sdp);
    let refusal = call.refusal().unwrap();
    let response = refusal.response.unwrap();
    assert_eq!(response.status_code.code, 488);
    assert_eq!(headers_to(&response.headers).unwrap().tag, Some("ours".to_string()));
    assert_eq!(
        refusal.error,
        "no supported codec in the offer (first payload type 18); answered 488"
    );
    call.request.headers.retain(|h| h.kind != HeaderKind::To);
    let refusal = call.refusal().unwrap();
    assert!(refusal.response.is_none());
    assert_eq!(refusal.error, "could not build 488 response");
}

#[test]
fn the_session_timer_is_echoed() {
    let extra = "Supported: timer\r\nSession-Expires: 1800\r\n";
    match incoming(extra, &offer()).accept(local_ip(), 6000, &contact()) {
        AcceptStep::Answer(a) => {
            assert!(supports_timer(&a.response.headers));
            let echo = session_expires_in(&a.response.headers).unwrap();
            assert_eq!(echo.interval_secs, 1800);
            assert_eq!(echo.refresher, Some(Refresher::Uac));
            assert_eq!(header_value(&a.response.headers, HeaderKind::Require), Some("timer"));
            assert!(!a.timer.unwrap().we_are_refresher);
        }
        other => panic!("expected an answer, got {other:?}"),
    }
}

#[test]
fn one_tag_serves_every_response() {
    let call = incoming("", &offer());
    let ringing = call.ring().unwrap();
    assert_eq!(ringing.status_code.code, 180);
    assert_eq!(headers_to(&ringing.headers).unwrap().tag, Some("ours".to_string()));
    assert_eq!(call.caller().unwrap(), "\"Alice\" <sip:alice@example.com>;tag=alice");
}

#[test]
fn record_routes_are_mirrored_into_the_answer() {
    let extra = "Record-Route: <sip:p1.example.com;lr>\r\n\
                 Record-Route: <sip:p2.example.com;lr>\r\n";
    match incoming(extra, &offer()).accept(local_ip(), 6000, &contact()) {
        AcceptStep::Answer(a) => {
            let routes: Vec<&str> = a
                .response
                .headers
                .iter()
                .filter(|h| h.kind == HeaderKind::RecordRoute)
                .map(|h| h.value.as_str())
                .collect();
            assert_eq!(routes, vec!["<sip:p1.example.com;lr>", "<sip:p2.example.com;lr>"]);
        }
        other => panic!("expected an answer, got {other:?}"),
    }
}

#[test]
fn an_answer_echoes_the_numbers_of_the_offer() {
    let sdp = "v=0\r\nc=IN IP4 10.0.0.1\r\nm=audio 5000 RTP/AVP 18 96 97\r\n\
               a=rtpmap:96 PCMA/8000\r\na=rtpmap:97 telephone-event/8000\r\n";
    match incoming("", sdp).accept(local_ip(), 6000, &contact()) {
        AcceptStep::Answer(a) => {
            let text = String::from_utf8(a.response.body).unwrap();
            assert!(text.contains("m=audio 6000 RTP/AVP 96 97\r\n"), "{text}");
            assert_eq!(a.remote_media.codec, Some(AudioCodec::PcmaAt { payload_type: 96 }));
        }
        other => panic!("expected an answer, got {other:?}"),
    }
}
