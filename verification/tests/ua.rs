use wavekat_sip::message::{parse, Request, Response, SipMessage, StatusCode, Version};
use wavekat_sip::net::{IpAddr, Ipv4Addr, SocketAddr};
use wavekat_sip::stack::engine::Event;
use wavekat_sip::stack::transaction::TransactionKey;
use wavekat_sip::stack::ua::{
    advertise, await_final, hangup_succeeded, AwaitStep, RoutedEvent, Router,
};

fn read_request(raw: &[u8]) -> Request {
    match parse(raw) {
        Some(SipMessage::Request(r)) => r,
        other => panic!("expected a request, got {other:?}"),
    }
}

fn peer() -> SocketAddr {
    SocketAddr::new(IpAddr::V4(Ipv4Addr(127, 0, 0, 1)), 5070)
}

fn request(method: &str) -> Request {
    let raw = format!(
        "{method} sip:alice@127.0.0.1:5060 SIP/2.0\r\n\
         Via: SIP/2.0/UDP 127.0.0.1:5070;branch=z9hG4bK-in\r\n\
         From: <sip:bob@example.com>;tag=bob\r\n\
         To: <sip:alice@example.com>\r\n\
         Call-ID: inbound\r\n\
         CSeq: 1 {method}\r\nContent-Length: 0\r\n\r\n"
    );
    read_request(raw.as_bytes())
}

fn response(code: u16) -> Response {
    Response {
        status_code: StatusCode::from_code(code),
        version: Version::V2,
        headers: Vec::new(),
        body: Vec::new(),
    }
}

#[test]
fn a_subscriber_hears_its_transaction_to_the_end() {
    let mut router = Router::new();
    let key = TransactionKey::from_request(&request("OPTIONS")).unwrap();
    router.subscribe(key.copy(), 4);
    let event = Event::Response { key: key.copy(), response: response(200) };
    assert!(matches!(router.route(event.clone()), RoutedEvent::Subscriber { id: 4, .. }));
    let end = Event::Terminated { key: key.copy() };
    assert!(matches!(router.route(end), RoutedEvent::Subscriber { id: 4, .. }));
    assert!(matches!(router.route(event), RoutedEvent::Dropped));
}

#[test]
fn inbound_requests_go_to_the_incoming_stream() {
    let mut router = Router::new();
    let invite = request("INVITE");
    let key = TransactionKey::from_request(&invite).unwrap();
    let event = Event::IncomingRequest { key, request: invite, peer: peer() };
    match router.route(event) {
        RoutedEvent::Incoming(i) => assert_eq!(i.peer, peer()),
        other => panic!("expected Incoming, got {other:?}"),
    }
    let event = Event::UnmatchedRequest { request: request("ACK"), peer: peer() };
    assert!(matches!(router.route(event), RoutedEvent::Incoming(_)));
}

#[test]
fn final_responses_are_awaited() {
    let key = TransactionKey::from_request(&request("BYE")).unwrap();
    let ringing = Event::Response { key: key.copy(), response: response(180) };
    assert!(matches!(await_final(Some(ringing)), AwaitStep::Wait));
    let done = Event::Response { key: key.copy(), response: response(200) };
    assert!(matches!(await_final(Some(done)), AwaitStep::Final(_)));
    assert!(matches!(await_final(Some(Event::TimedOut { key })), AwaitStep::GaveUp));
    assert!(matches!(await_final(None), AwaitStep::GaveUp));
    assert!(hangup_succeeded(Some(&response(202))));
    assert!(!hangup_succeeded(Some(&response(481))));
    assert!(!hangup_succeeded(None));
}

#[test]
fn the_product_is_advertised() {
    let plain = advertise(request("OPTIONS"), None);
    assert_eq!(plain, request("OPTIONS"));
    let named = advertise(request("OPTIONS"), Some("my-app/1.2.3"));
    assert_eq!(named.headers.last().unwrap().name(), "User-Agent");
    assert_eq!(named.headers.last().unwrap().value, "my-app/1.2.3");
    assert_eq!(named.headers.len(), plain.headers.len() + 1);
}
