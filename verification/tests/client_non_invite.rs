use wavekat_sip::message::{parse, Request, Response, SipMessage};
use wavekat_sip::stack::transaction::client_non_invite::{ClientNonInvite, State};
use wavekat_sip::stack::transaction::{Reliability, TimerId, Timers, TxAction};

fn read_request(raw: &[u8]) -> Request {
    match parse(raw) {
        Some(SipMessage::Request(r)) => r,
        other => panic!("expected a request, got {other:?}"),
    }
}

fn read_response(raw: &[u8]) -> Response {
    match parse(raw) {
        Some(SipMessage::Response(r)) => r,
        other => panic!("expected a response, got {other:?}"),
    }
}

fn request() -> Request {
    let raw = "OPTIONS sip:bob@example.com SIP/2.0\r\n\
         Via: SIP/2.0/UDP 10.0.0.1:5060;branch=z9hG4bK-opt\r\n\
         From: <sip:alice@example.com>;tag=alice\r\n\
         To: <sip:bob@example.com>\r\n\
         Call-ID: call-opt\r\n\
         CSeq: 4 OPTIONS\r\n\
         Content-Length: 0\r\n\r\n";
    read_request(raw.as_bytes())
}

fn response(code: u16) -> Response {
    let raw = format!(
        "SIP/2.0 {code} X\r\n\
         Via: SIP/2.0/UDP 10.0.0.1:5060;branch=z9hG4bK-opt\r\n\
         From: <sip:alice@example.com>;tag=alice\r\n\
         To: <sip:bob@example.com>;tag=bob\r\n\
         Call-ID: call-opt\r\n\
         CSeq: 4 OPTIONS\r\n\
         Content-Length: 0\r\n\r\n"
    );
    read_response(raw.as_bytes())
}

#[test]
fn start_sends_request_and_arms_e_and_f_on_udp() {
    let (tx, actions) =
        ClientNonInvite::start(request(), Timers::default(), Reliability::Unreliable);
    assert_eq!(tx.state(), State::Trying);
    assert!(matches!(actions[0], TxAction::Send(_)));
    assert!(matches!(
        actions[1],
        TxAction::StartTimer { id: TimerId::E, .. }
    ));
    assert!(matches!(
        actions[2],
        TxAction::StartTimer { id: TimerId::F, .. }
    ));
}

#[test]
fn timer_e_backs_off_capped_at_t2() {
    let timers = Timers::default();
    let (mut tx, _) = ClientNonInvite::start(request(), timers, Reliability::Unreliable);
    // T1=500ms → 1s → 2s → 4s(=T2) → stays 4s.
    let expected = [
        timers.t1.multiplied(2),
        timers.t1.multiplied(4),
        timers.t2, // capped
        timers.t2,
    ];
    for want in expected {
        let out = tx.on_timer(TimerId::E);
        match out[1] {
            TxAction::StartTimer {
                id: TimerId::E,
                after,
            } => assert_eq!(after, want),
            _ => panic!("expected Timer E reschedule"),
        }
    }
}

#[test]
fn provisional_enters_proceeding_and_pins_e_to_t2() {
    let timers = Timers::default();
    let (mut tx, _) = ClientNonInvite::start(request(), timers, Reliability::Unreliable);
    let out = tx.on_response(&response(100));
    assert_eq!(tx.state(), State::Proceeding);
    assert!(matches!(out[0], TxAction::DeliverResponse(_)));
    // Timer E in Proceeding fires at exactly T2 regardless of prior backoff.
    match tx.on_timer(TimerId::E)[1] {
        TxAction::StartTimer {
            id: TimerId::E,
            after,
        } => assert_eq!(after, timers.t2),
        _ => panic!("expected Timer E reschedule"),
    }
}

#[test]
fn final_response_completes_and_arms_k_on_udp() {
    let (mut tx, _) =
        ClientNonInvite::start(request(), Timers::default(), Reliability::Unreliable);
    let out = tx.on_response(&response(200));
    assert_eq!(tx.state(), State::Completed);
    assert!(out.contains(&TxAction::StopTimer(TimerId::E)));
    assert!(out.contains(&TxAction::StopTimer(TimerId::F)));
    assert!(out
        .iter()
        .any(|a| matches!(a, TxAction::DeliverResponse(_))));
    assert!(matches!(
        out.last(),
        Some(TxAction::StartTimer { id: TimerId::K, .. })
    ));
}

#[test]
fn final_response_terminates_immediately_on_reliable() {
    let (mut tx, _) =
        ClientNonInvite::start(request(), Timers::default(), Reliability::Reliable);
    let out = tx.on_response(&response(404));
    assert_eq!(tx.state(), State::Terminated);
    assert!(matches!(out[0], TxAction::DeliverResponse(_)));
    assert_eq!(out[1], TxAction::Terminated);
}

#[test]
fn retransmitted_final_is_absorbed() {
    let (mut tx, _) =
        ClientNonInvite::start(request(), Timers::default(), Reliability::Unreliable);
    tx.on_response(&response(200));
    assert!(tx.on_response(&response(200)).is_empty());
}

#[test]
fn timer_f_times_out() {
    let (mut tx, _) =
        ClientNonInvite::start(request(), Timers::default(), Reliability::Unreliable);
    let out = tx.on_timer(TimerId::F);
    assert_eq!(out, vec![TxAction::TimedOut, TxAction::Terminated]);
}

#[test]
fn timer_k_terminates_from_completed() {
    let (mut tx, _) =
        ClientNonInvite::start(request(), Timers::default(), Reliability::Unreliable);
    tx.on_response(&response(200));
    assert_eq!(tx.on_timer(TimerId::K), vec![TxAction::Terminated]);
    assert_eq!(tx.state(), State::Terminated);
}
