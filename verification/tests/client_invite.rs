use wavekat_sip::message::{parse, Method, Request, Response, SipMessage};
use wavekat_sip::stack::transaction::client_invite::{ClientInvite, State};
use wavekat_sip::stack::transaction::{Reliability, TimerId, Timers, TxAction};

fn read_request(raw: &[u8]) -> Request {
    match parse(raw) {
        Some(SipMessage::Request(r)) => r,
        other => panic!("expected a request, got {other:?}"),
    }
}

fn read_response(raw: &[u8]) -> Response {
    match parse(raw) {
        Some(SipMessage::Response(r)) => r,
        other => panic!("expected a response, got {other:?}"),
    }
}

fn invite() -> Request {
    let raw = "INVITE sip:bob@example.com SIP/2.0\r\n\
         Via: SIP/2.0/UDP 10.0.0.1:5060;branch=z9hG4bK-inv\r\n\
         From: <sip:alice@example.com>;tag=alice\r\n\
         To: <sip:bob@example.com>\r\n\
         Call-ID: call-abc\r\n\
         CSeq: 1 INVITE\r\n\
         Content-Length: 0\r\n\r\n";
    read_request(raw.as_bytes())
}

fn response(code: u16) -> Response {
    let raw = format!(
        "SIP/2.0 {code} X\r\n\
         Via: SIP/2.0/UDP 10.0.0.1:5060;branch=z9hG4bK-inv\r\n\
         From: <sip:alice@example.com>;tag=alice\r\n\
         To: <sip:bob@example.com>;tag=bob\r\n\
         Call-ID: call-abc\r\n\
         CSeq: 1 INVITE\r\n\
         Content-Length: 0\r\n\r\n"
    );
    read_response(raw.as_bytes())
}

#[test]
fn start_sends_invite_and_arms_a_and_b_on_udp() {
    let (tx, actions) =
        ClientInvite::start(invite(), Timers::default(), Reliability::Unreliable);
    assert_eq!(tx.state(), State::Calling);
    assert!(matches!(actions[0], TxAction::Send(_)));
    assert!(matches!(
        actions[1],
        TxAction::StartTimer { id: TimerId::A, .. }
    ));
    assert!(matches!(
        actions[2],
        TxAction::StartTimer { id: TimerId::B, .. }
    ));
}

#[test]
fn start_skips_timer_a_on_reliable_transport() {
    let (_tx, actions) =
        ClientInvite::start(invite(), Timers::default(), Reliability::Reliable);
    assert!(!actions
        .iter()
        .any(|a| matches!(a, TxAction::StartTimer { id: TimerId::A, .. })));
    assert!(actions
        .iter()
        .any(|a| matches!(a, TxAction::StartTimer { id: TimerId::B, .. })));
}

#[test]
fn timer_a_retransmits_and_doubles() {
    let (mut tx, _) = ClientInvite::start(invite(), Timers::default(), Reliability::Unreliable);
    let a = tx.on_timer(TimerId::A);
    assert!(matches!(a[0], TxAction::Send(_)));
    match a[1] {
        TxAction::StartTimer {
            id: TimerId::A,
            after,
        } => assert_eq!(after, Timers::default().t1.multiplied(2)),
        _ => panic!("expected Timer A reschedule"),
    }
    // Second fire doubles again → 4·T1.
    let a2 = tx.on_timer(TimerId::A);
    match a2[1] {
        TxAction::StartTimer {
            id: TimerId::A,
            after,
        } => assert_eq!(after, Timers::default().t1.multiplied(4)),
        _ => panic!("expected Timer A reschedule"),
    }
}

#[test]
fn timer_b_times_out_the_transaction() {
    let (mut tx, _) = ClientInvite::start(invite(), Timers::default(), Reliability::Unreliable);
    let out = tx.on_timer(TimerId::B);
    assert_eq!(out, vec![TxAction::TimedOut, TxAction::Terminated]);
    assert_eq!(tx.state(), State::Terminated);
}

#[test]
fn provisional_moves_to_proceeding_and_stops_retransmits() {
    let (mut tx, _) = ClientInvite::start(invite(), Timers::default(), Reliability::Unreliable);
    let out = tx.on_response(&response(180));
    assert_eq!(tx.state(), State::Proceeding);
    assert!(out.contains(&TxAction::StopTimer(TimerId::A)));
    assert!(out.contains(&TxAction::StopTimer(TimerId::B)));
    assert!(matches!(out.last(), Some(TxAction::DeliverResponse(_))));
    // A retransmit timer firing in Proceeding is ignored.
    assert!(tx.on_timer(TimerId::A).is_empty());
}

#[test]
fn success_delivers_and_terminates_without_acking() {
    let (mut tx, _) = ClientInvite::start(invite(), Timers::default(), Reliability::Unreliable);
    let out = tx.on_response(&response(200));
    assert_eq!(tx.state(), State::Terminated);
    assert!(matches!(out[0], TxAction::DeliverResponse(_)));
    assert_eq!(out[1], TxAction::Terminated);
    // No ACK is sent by the transaction for a 2xx.
    assert!(!out.iter().any(|a| matches!(a, TxAction::Send(_))));
}

#[test]
fn non_2xx_final_acks_delivers_and_enters_completed_on_udp() {
    let (mut tx, _) = ClientInvite::start(invite(), Timers::default(), Reliability::Unreliable);
    let out = tx.on_response(&response(486));
    assert_eq!(tx.state(), State::Completed);
    // ACK first, then deliver, then arm Timer D.
    match &out[0] {
        TxAction::Send(SipMessage::Request(r)) => assert_eq!(r.method, Method::Ack),
        other => panic!("expected ACK send, got {other:?}"),
    }
    assert!(matches!(out[1], TxAction::DeliverResponse(_)));
    assert!(matches!(
        out[2],
        TxAction::StartTimer { id: TimerId::D, .. }
    ));
}

#[test]
fn retransmitted_non_2xx_resends_ack_only() {
    let (mut tx, _) = ClientInvite::start(invite(), Timers::default(), Reliability::Unreliable);
    tx.on_response(&response(486));
    let out = tx.on_response(&response(486));
    assert_eq!(out.len(), 1);
    assert!(matches!(out[0], TxAction::Send(SipMessage::Request(_))));
}

#[test]
fn non_2xx_final_terminates_immediately_on_reliable() {
    let (mut tx, _) = ClientInvite::start(invite(), Timers::default(), Reliability::Reliable);
    let out = tx.on_response(&response(500));
    assert_eq!(tx.state(), State::Terminated);
    assert!(matches!(out[0], TxAction::Send(_)));
    assert!(matches!(out[1], TxAction::DeliverResponse(_)));
    assert_eq!(out[2], TxAction::Terminated);
}

#[test]
fn timer_d_terminates_from_completed() {
    let (mut tx, _) = ClientInvite::start(invite(), Timers::default(), Reliability::Unreliable);
    tx.on_response(&response(404));
    let out = tx.on_timer(TimerId::D);
    assert_eq!(out, vec![TxAction::Terminated]);
    assert_eq!(tx.state(), State::Terminated);
}
