use wavekat_sip::message::{parse, Method, Request, Response, SipMessage};
use wavekat_sip::net::{IpAddr, Ipv4Addr, SocketAddr};
use wavekat_sip::stack::engine::{Command, Effect, Engine, Event};
use wavekat_sip::stack::transaction::{Reliability, TimerId, Timers, TransactionKey};
use wavekat_sip::time::Duration;

const BRANCH: &str = "z9hG4bK-engine";

fn read_request(raw: &[u8]) -> Request {
    match parse(raw) {
        Some(SipMessage::Request(r)) => r,
        other => panic!("expected a request, got {other:?}"),
    }
}

fn read_response(raw: &[u8]) -> Response {
    match parse(raw) {
        Some(SipMessage::Response(r)) => r,
        other => panic!("expected a response, got {other:?}"),
    }
}

fn fast_timers() -> Timers {
    Timers {
        t1: Duration::from_millis(1),
        t2: Duration::from_millis(4),
        t4: Duration::from_millis(5),
    }
}

fn peer() -> SocketAddr {
    SocketAddr::new(IpAddr::V4(Ipv4Addr(127, 0, 0, 1)), 5070)
}

fn request(method: &str, seq: u32) -> Request {
    let raw = format!(
        "{method} sip:bob@127.0.0.1:5070 SIP/2.0\r\n\
         Via: SIP/2.0/UDP 127.0.0.1:5060;branch={BRANCH}\r\n\
         From: <sip:alice@example.com>;tag=alice\r\n\
         To: <sip:bob@example.com>\r\n\
         Call-ID: call-eng\r\n\
         CSeq: {seq} {method}\r\n\
         Content-Length: 0\r\n\r\n"
    );
    read_request(raw.as_bytes())
}

fn response(code: u16, method: &str) -> Response {
    let raw = format!(
        "SIP/2.0 {code} X\r\n\
         Via: SIP/2.0/UDP 127.0.0.1:5060;branch={BRANCH}\r\n\
         From: <sip:alice@example.com>;tag=alice\r\n\
         To: <sip:bob@example.com>;tag=bob\r\n\
         Call-ID: call-eng\r\n\
         CSeq: 4 {method}\r\n\
         Content-Length: 0\r\n\r\n"
    );
    read_response(raw.as_bytes())
}

fn events(effects: Vec<Effect>) -> Vec<Event> {
    effects
        .into_iter()
        .filter_map(|e| match e {
            Effect::Publish(event) => Some(event),
            _ => None,
        })
        .collect()
}

fn sent(effects: &[Effect]) -> Vec<&SipMessage> {
    effects
        .iter()
        .filter_map(|e| match e {
            Effect::Send { message, .. } => Some(message),
            _ => None,
        })
        .collect()
}

/// The key and the generation with which a timer was armed.
fn armed(effects: &[Effect], want: TimerId) -> (TransactionKey, u64) {
    effects
        .iter()
        .find_map(|e| match e {
            Effect::Sleep { key, id, generation, .. } if *id == want => {
                Some((key.copy(), *generation))
            }
            _ => None,
        })
        .expect("the timer is armed")
}

#[test]
fn client_transaction_delivers_response_then_terminates() {
    let mut engine = Engine::new(fast_timers(), Reliability::Unreliable);
    let out = engine.on_command(Command::StartClient {
        request: request("OPTIONS", 4),
        peer: peer(),
    });
    assert!(matches!(sent(&out)[0], SipMessage::Request(_)));
    let out = engine.on_inbound(SipMessage::Response(response(200, "OPTIONS")), peer());
    let (key, generation) = armed(&out, TimerId::K);
    let published = events(out);
    assert!(matches!(
        &published[..],
        [Event::Response { response, .. }] if response.status_code.code == 200
    ));
    assert!(engine.can_fire(&key, TimerId::K, generation));
    let published = events(engine.on_timer_fire(&key, TimerId::K, generation));
    assert!(matches!(&published[..], [Event::Terminated { .. }]));
}

#[test]
fn inbound_invite_opens_server_transaction_and_sends_response() {
    let mut engine = Engine::new(fast_timers(), Reliability::Unreliable);
    let invite = SipMessage::Request(request("INVITE", 1));
    let published = events(engine.on_inbound(invite.copy(), peer()));
    let key = match &published[..] {
        [Event::IncomingRequest { key, request, .. }] => {
            assert_eq!(request.method, Method::Invite);
            key.copy()
        }
        other => panic!("expected IncomingRequest, got {other:?}"),
    };
    // The same INVITE again is not handed up a second time.
    assert!(events(engine.on_inbound(invite, peer())).is_empty());
    let out = engine.on_command(Command::SendResponse {
        key,
        response: response(486, "INVITE"),
    });
    match sent(&out)[..] {
        [SipMessage::Response(r)] => assert_eq!(r.status_code.code, 486),
        _ => panic!("expected the response, got {out:?}"),
    }
}

#[test]
fn no_final_response_times_out() {
    let mut engine = Engine::new(fast_timers(), Reliability::Unreliable);
    let out = engine.on_command(Command::StartClient {
        request: request("OPTIONS", 4),
        peer: peer(),
    });
    let (key, generation) = armed(&out, TimerId::F);
    assert!(engine.can_fire(&key, TimerId::F, generation));
    let published = events(engine.on_timer_fire(&key, TimerId::F, generation));
    assert!(matches!(
        &published[..],
        [Event::TimedOut { .. }, Event::Terminated { .. }]
    ));
}

#[test]
fn stopped_timers_do_nothing() {
    let mut engine = Engine::new(fast_timers(), Reliability::Unreliable);
    let out = engine.on_command(Command::StartClient {
        request: request("OPTIONS", 4),
        peer: peer(),
    });
    let (key, generation) = armed(&out, TimerId::E);
    engine.on_inbound(SipMessage::Response(response(200, "OPTIONS")), peer());
    assert!(engine.can_fire(&key, TimerId::E, generation));
    assert!(engine.on_timer_fire(&key, TimerId::E, generation).is_empty());
}

#[test]
fn an_ack_without_a_transaction_is_handed_up() {
    let mut engine = Engine::new(fast_timers(), Reliability::Unreliable);
    let published = events(engine.on_inbound(SipMessage::Request(request("ACK", 1)), peer()));
    assert!(matches!(&published[..], [Event::UnmatchedRequest { .. }]));
}

#[test]
fn stray_responses_are_dropped() {
    let mut engine = Engine::new(fast_timers(), Reliability::Unreliable);
    assert!(engine
        .on_inbound(SipMessage::Response(response(200, "OPTIONS")), peer())
        .is_empty());
}
