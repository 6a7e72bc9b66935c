use wavekat_sip::message::{parse, Request, Response, SipMessage};
use wavekat_sip::stack::transaction::server_non_invite::{ServerNonInvite, State};
use wavekat_sip::stack::transaction::{Reliability, TimerId, Timers, TxAction};

fn read_request(raw: &[u8]) -> Request {
    match parse(raw) {
        Some(SipMessage::Request(r)) => r,
        other => panic!("expected a request, got {other:?}"),
    }
}

fn read_response(raw: &[u8]) -> Response {
    match parse(raw) {
        Some(SipMessage::Response(r)) => r,
        other => panic!("expected a response, got {other:?}"),
    }
}

fn request() -> Request {
    let raw = "BYE sip:bob@example.com SIP/2.0\r\n\
         Via: SIP/2.0/UDP 10.0.0.2:5060;branch=z9hG4bK-bye\r\n\
         From: <sip:alice@example.com>;tag=alice\r\n\
         To: <sip:bob@example.com>;tag=bob\r\n\
         Call-ID: call-bye\r\n\
         CSeq: 9 BYE\r\n\
         Content-Length: 0\r\n\r\n";
    read_request(raw.as_bytes())
}

fn response(code: u16) -> Response {
    let raw = format!(
        "SIP/2.0 {code} X\r\n\
         Via: SIP/2.0/UDP 10.0.0.2:5060;branch=z9hG4bK-bye\r\n\
         From: <sip:alice@example.com>;tag=alice\r\n\
         To: <sip:bob@example.com>;tag=bob\r\n\
         Call-ID: call-bye\r\n\
         CSeq: 9 BYE\r\n\
         Content-Length: 0\r\n\r\n"
    );
    read_response(raw.as_bytes())
}

#[test]
fn start_delivers_request() {
    let (tx, actions) =
        ServerNonInvite::start(&request(), Timers::default(), Reliability::Unreliable);
    assert_eq!(tx.state(), State::Trying);
    assert!(matches!(actions[0], TxAction::DeliverRequest(_)));
}

#[test]
fn retransmit_in_trying_is_absorbed() {
    let (mut tx, _) =
        ServerNonInvite::start(&request(), Timers::default(), Reliability::Unreliable);
    assert!(tx.on_request(&request()).is_empty());
}

#[test]
fn provisional_then_replays_on_retransmit() {
    let (mut tx, _) =
        ServerNonInvite::start(&request(), Timers::default(), Reliability::Unreliable);
    let out = tx.send_response(response(100));
    assert_eq!(tx.state(), State::Proceeding);
    assert!(matches!(out[0], TxAction::Send(_)));
    assert_eq!(
        tx.on_request(&request()),
        vec![TxAction::Send(SipMessage::Response(response(100)))]
    );
}

#[test]
fn final_completes_and_arms_j_on_udp() {
    let (mut tx, _) =
        ServerNonInvite::start(&request(), Timers::default(), Reliability::Unreliable);
    let out = tx.send_response(response(200));
    assert_eq!(tx.state(), State::Completed);
    assert!(matches!(out[0], TxAction::Send(_)));
    assert!(matches!(
        out[1],
        TxAction::StartTimer { id: TimerId::J, .. }
    ));
    // Retransmitted request replays the final.
    assert_eq!(
        tx.on_request(&request()),
        vec![TxAction::Send(SipMessage::Response(response(200)))]
    );
}

#[test]
fn final_terminates_immediately_on_reliable() {
    let (mut tx, _) =
        ServerNonInvite::start(&request(), Timers::default(), Reliability::Reliable);
    let out = tx.send_response(response(404));
    assert_eq!(tx.state(), State::Terminated);
    assert!(matches!(out[0], TxAction::Send(_)));
    assert_eq!(out[1], TxAction::Terminated);
}

#[test]
fn timer_j_terminates_from_completed() {
    let (mut tx, _) =
        ServerNonInvite::start(&request(), Timers::default(), Reliability::Unreliable);
    tx.send_response(response(200));
    assert_eq!(tx.on_timer(TimerId::J), vec![TxAction::Terminated]);
    assert_eq!(tx.state(), State::Terminated);
}
