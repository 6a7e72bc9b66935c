use wavekat_sip::message::{parse, Request, Response, SipMessage};
use wavekat_sip::stack::transaction::server_invite::{ServerInvite, State};
use wavekat_sip::stack::transaction::{Reliability, TimerId, Timers, TxAction};

fn read_request(raw: &[u8]) -> Request {
    match parse(raw) {
        Some(SipMessage::Request(r)) => r,
        other => panic!("expected a request, got {other:?}"),
    }
}

fn read_response(raw: &[u8]) -> Response {
    match parse(raw) {
        Some(SipMessage::Response(r)) => r,
        other => panic!("expected a response, got {other:?}"),
    }
}

fn invite() -> Request {
    let raw = "INVITE sip:bob@example.com SIP/2.0\r\n\
         Via: SIP/2.0/UDP 10.0.0.2:5060;branch=z9hG4bK-sin\r\n\
         From: <sip:alice@example.com>;tag=alice\r\n\
         To: <sip:bob@example.com>\r\n\
         Call-ID: call-sin\r\n\
         CSeq: 1 INVITE\r\n\
         Content-Length: 0\r\n\r\n";
    read_request(raw.as_bytes())
}

fn ack() -> Request {
    let raw = "ACK sip:bob@example.com SIP/2.0\r\n\
         Via: SIP/2.0/UDP 10.0.0.2:5060;branch=z9hG4bK-sin\r\n\
         From: <sip:alice@example.com>;tag=alice\r\n\
         To: <sip:bob@example.com>;tag=bob\r\n\
         Call-ID: call-sin\r\n\
         CSeq: 1 ACK\r\n\
         Content-Length: 0\r\n\r\n";
    read_request(raw.as_bytes())
}

fn response(code: u16) -> Response {
    let raw = format!(
        "SIP/2.0 {code} X\r\n\
         Via: SIP/2.0/UDP 10.0.0.2:5060;branch=z9hG4bK-sin\r\n\
         From: <sip:alice@example.com>;tag=alice\r\n\
         To: <sip:bob@example.com>;tag=bob\r\n\
         Call-ID: call-sin\r\n\
         CSeq: 1 INVITE\r\n\
         Content-Length: 0\r\n\r\n"
    );
    read_response(raw.as_bytes())
}

#[test]
fn start_delivers_request_to_tu() {
    let (tx, actions) =
        ServerInvite::start(&invite(), Timers::default(), Reliability::Unreliable);
    assert_eq!(tx.state(), State::Proceeding);
    assert!(matches!(actions[0], TxAction::DeliverRequest(_)));
}

#[test]
fn provisional_is_sent_and_remembered() {
    let (mut tx, _) =
        ServerInvite::start(&invite(), Timers::default(), Reliability::Unreliable);
    let out = tx.send_response(response(180));
    assert_eq!(
        out,
        vec![TxAction::Send(SipMessage::Response(response(180)))]
    );
    // A retransmitted INVITE now replays the 180.
    let replay = tx.on_request(&invite());
    assert_eq!(
        replay,
        vec![TxAction::Send(SipMessage::Response(response(180)))]
    );
}

#[test]
fn two_xx_sends_and_terminates() {
    let (mut tx, _) =
        ServerInvite::start(&invite(), Timers::default(), Reliability::Unreliable);
    let out = tx.send_response(response(200));
    assert_eq!(tx.state(), State::Terminated);
    assert!(matches!(out[0], TxAction::Send(_)));
    assert_eq!(out[1], TxAction::Terminated);
}

#[test]
fn non_2xx_final_arms_g_and_h_on_udp() {
    let (mut tx, _) =
        ServerInvite::start(&invite(), Timers::default(), Reliability::Unreliable);
    let out = tx.send_response(response(486));
    assert_eq!(tx.state(), State::Completed);
    assert!(matches!(out[0], TxAction::Send(_)));
    assert!(out
        .iter()
        .any(|a| matches!(a, TxAction::StartTimer { id: TimerId::G, .. })));
    assert!(out
        .iter()
        .any(|a| matches!(a, TxAction::StartTimer { id: TimerId::H, .. })));
}

#[test]
fn non_2xx_final_skips_g_on_reliable() {
    let (mut tx, _) = ServerInvite::start(&invite(), Timers::default(), Reliability::Reliable);
    let out = tx.send_response(response(500));
    assert!(!out
        .iter()
        .any(|a| matches!(a, TxAction::StartTimer { id: TimerId::G, .. })));
    assert!(out
        .iter()
        .any(|a| matches!(a, TxAction::StartTimer { id: TimerId::H, .. })));
}

#[test]
fn timer_g_retransmits_final_and_doubles_capped_at_t2() {
    let timers = Timers::default();
    let (mut tx, _) = ServerInvite::start(&invite(), timers, Reliability::Unreliable);
    tx.send_response(response(486));
    let expected = [timers.t1.multiplied(2), timers.t1.multiplied(4), timers.t2, timers.t2];
    for want in expected {
        let out = tx.on_timer(TimerId::G);
        assert!(matches!(out[0], TxAction::Send(_)));
        match out[1] {
            TxAction::StartTimer {
                id: TimerId::G,
                after,
            } => assert_eq!(after, want),
            _ => panic!("expected Timer G reschedule"),
        }
    }
}

#[test]
fn ack_moves_completed_to_confirmed_and_arms_i() {
    let (mut tx, _) =
        ServerInvite::start(&invite(), Timers::default(), Reliability::Unreliable);
    tx.send_response(response(486));
    let out = tx.on_request(&ack());
    assert_eq!(tx.state(), State::Confirmed);
    assert!(out.contains(&TxAction::StopTimer(TimerId::G)));
    assert!(out.contains(&TxAction::StopTimer(TimerId::H)));
    assert!(matches!(
        out.last(),
        Some(TxAction::StartTimer { id: TimerId::I, .. })
    ));
    // Retransmitted ACK is absorbed.
    assert!(tx.on_request(&ack()).is_empty());
}

#[test]
fn ack_terminates_immediately_on_reliable() {
    let (mut tx, _) = ServerInvite::start(&invite(), Timers::default(), Reliability::Reliable);
    tx.send_response(response(486));
    let out = tx.on_request(&ack());
    assert_eq!(tx.state(), State::Terminated);
    assert!(out.contains(&TxAction::Terminated));
}

#[test]
fn timer_h_times_out_waiting_for_ack() {
    let (mut tx, _) =
        ServerInvite::start(&invite(), Timers::default(), Reliability::Unreliable);
    tx.send_response(response(486));
    let out = tx.on_timer(TimerId::H);
    assert_eq!(out, vec![TxAction::TimedOut, TxAction::Terminated]);
}

#[test]
fn timer_i_terminates_from_confirmed() {
    let (mut tx, _) =
        ServerInvite::start(&invite(), Timers::default(), Reliability::Unreliable);
    tx.send_response(response(486));
    tx.on_request(&ack());
    assert_eq!(tx.on_timer(TimerId::I), vec![TxAction::Terminated]);
    assert_eq!(tx.state(), State::Terminated);
}
