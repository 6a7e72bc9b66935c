use wavekat_sip::headers::{headers_to, headers_via};
use wavekat_sip::message::{
    headers_cseq, parse, HeaderKind, Method, Request, Response, SipMessage,
};
use wavekat_sip::stack::transaction::{
    branch_from, build_non_2xx_ack, gen_branch, gen_tag, tag_from, via_header, via_value,
    Reliability, Timers, TokenCounter, TransactionKey, MAGIC_COOKIE,
};
use wavekat_sip::time::Duration;

fn read_request(raw: &[u8]) -> Request {
    match parse(raw) {
        Some(SipMessage::Request(r)) => r,
        other => panic!("expected a request, got {other:?}"),
    }
}

fn read_response(raw: &[u8]) -> Response {
    match parse(raw) {
        Some(SipMessage::Response(r)) => r,
        other => panic!("expected a response, got {other:?}"),
    }
}
/// A minimal but well-formed request for tests, with a single Via, From,
/// To, Call-ID and CSeq.
fn request(method: Method, branch: &str, seq: u32) -> Request {
    let raw = format!(
        "{m} sip:bob@example.com SIP/2.0\r\n\
         Via: SIP/2.0/UDP 10.0.0.1:5060;branch={b}\r\n\
         From: <sip:alice@example.com>;tag=alice\r\n\
         To: <sip:bob@example.com>\r\n\
         Call-ID: call-abc\r\n\
         CSeq: {s} {m}\r\n\
         Content-Length: 0\r\n\r\n",
        m = method.name(),
        b = branch,
        s = seq,
    );
    read_request(raw.as_bytes())
}

fn response(status: u16, branch: &str, seq: u32, method: Method) -> Response {
    let raw = format!(
        "SIP/2.0 {code} Testing\r\n\
         Via: SIP/2.0/UDP 10.0.0.1:5060;branch={b}\r\n\
         From: <sip:alice@example.com>;tag=alice\r\n\
         To: <sip:bob@example.com>;tag=bob\r\n\
         Call-ID: call-abc\r\n\
         CSeq: {s} {m}\r\n\
         Content-Length: 0\r\n\r\n",
        code = status,
        b = branch,
        s = seq,
        m = method.name(),
    );
    read_response(raw.as_bytes())
}

#[test]
fn via_value_advertises_rport_and_keeps_branch_parseable() {
    let v = via_value("192.168.1.46:54991", "z9hG4bK-rp");
    // RFC 3581: the request carries a bare `rport` (no value).
    assert!(v.contains(";rport"), "Via must advertise rport: {v}");
    assert!(
        !v.contains("rport="),
        "request rport must be valueless: {v}"
    );
    assert!(v.contains("branch=z9hG4bK-rp"));
    assert!(v.contains("192.168.1.46:54991"));

    // The bare `rport` param must not break branch extraction —
    // transaction matching keys off the branch, so a request built with this
    // Via must still yield a key with the right branch.
    let raw = format!(
        "BYE sip:bob@example.com SIP/2.0\r\n\
         Via: {v}\r\n\
         From: <sip:alice@example.com>;tag=alice\r\n\
         To: <sip:bob@example.com>;tag=bob\r\n\
         Call-ID: call-abc\r\n\
         CSeq: 2 BYE\r\n\
         Content-Length: 0\r\n\r\n"
    );
    let req = read_request(raw.as_bytes());
    let key = TransactionKey::from_request(&req).expect("branch parses despite bare rport");
    assert_eq!(key.branch, "z9hG4bK-rp");
}

#[test]
fn gen_branch_carries_magic_cookie_and_is_unique() {
    let mut tokens = TokenCounter::new();
    let a = gen_branch(&mut tokens);
    let b = gen_branch(&mut tokens);
    assert!(a.starts_with(MAGIC_COOKIE));
    assert!(b.starts_with(MAGIC_COOKIE));
    assert_ne!(a, b);
}

#[test]
fn timeout_is_64_t1() {
    let t = Timers::default();
    assert_eq!(t.timeout(), Duration::from_millis(500).multiplied(64));
}

#[test]
fn soak_timers_collapse_on_reliable_transport() {
    let t = Timers::default();
    assert_eq!(t.d(Reliability::Reliable), Duration::from_secs(0));
    assert_eq!(t.i(Reliability::Reliable), Duration::from_secs(0));
    assert_eq!(t.j(Reliability::Reliable), Duration::from_secs(0));
    assert_eq!(t.k(Reliability::Reliable), Duration::from_secs(0));

    assert_eq!(t.d(Reliability::Unreliable), Duration::from_secs(32));
    assert_eq!(t.i(Reliability::Unreliable), t.t4);
    assert_eq!(t.j(Reliability::Unreliable), t.timeout());
    assert_eq!(t.k(Reliability::Unreliable), t.t4);
}

#[test]
fn request_and_response_share_a_key() {
    let req = request(Method::Invite, "z9hG4bK-1", 1);
    let resp = response(180, "z9hG4bK-1", 1, Method::Invite);
    assert_eq!(
        TransactionKey::from_request(&req),
        TransactionKey::from_response(&resp)
    );
}

#[test]
fn ack_folds_onto_invite_but_cancel_does_not() {
    let invite = request(Method::Invite, "z9hG4bK-1", 1);
    let ack = request(Method::Ack, "z9hG4bK-1", 1);
    let cancel = request(Method::Cancel, "z9hG4bK-1", 1);

    assert_eq!(
        TransactionKey::from_request(&invite),
        TransactionKey::from_request(&ack),
        "ACK must reach the INVITE server transaction"
    );
    assert_ne!(
        TransactionKey::from_request(&invite),
        TransactionKey::from_request(&cancel),
        "CANCEL forms its own transaction"
    );
}

#[test]
fn cancel_invite_target_matches_the_invite_key() {
    // RFC 3261 §9.1: a CANCEL carries the same top-`Via` branch as the
    // INVITE it cancels. `invite_target` maps a received CANCEL's key onto
    // that INVITE server transaction so the UAS can 487 it (§9.2). If this
    // ever drifts, a cancelled INVITE would never be terminated and the
    // call would ring forever.
    let invite = request(Method::Invite, "z9hG4bK-cxl", 1);
    let cancel = request(Method::Cancel, "z9hG4bK-cxl", 1);

    let invite_key = TransactionKey::from_request(&invite).unwrap();
    let cancel_key = TransactionKey::from_request(&cancel).unwrap();

    // The CANCEL is its own transaction (method kept distinct)...
    assert_ne!(cancel_key, invite_key);
    // ...but its target is exactly the INVITE's key.
    assert_eq!(cancel_key.invite_target(), invite_key);
    // Branch + sent-by carried over verbatim; only the method is folded.
    let target = cancel_key.invite_target();
    assert_eq!(target.branch, cancel_key.branch);
    assert_eq!(target.sent_by, cancel_key.sent_by);
    assert_eq!(target.method, Method::Invite);
}

#[test]
fn different_branches_yield_different_keys() {
    let a = request(Method::Bye, "z9hG4bK-aaa", 2);
    let b = request(Method::Bye, "z9hG4bK-bbb", 2);
    assert_ne!(
        TransactionKey::from_request(&a),
        TransactionKey::from_request(&b)
    );
}

#[test]
fn non_2xx_ack_copies_dialog_identity_and_echoes_remote_tag() {
    let invite = request(Method::Invite, "z9hG4bK-9", 7);
    let resp = response(486, "z9hG4bK-9", 7, Method::Invite);
    let ack = build_non_2xx_ack(&invite, &resp).expect("ack built");

    assert_eq!(ack.method, Method::Ack);
    assert_eq!(ack.uri, invite.uri);
    // Same branch as the INVITE: the ACK is part of the same transaction.
    assert_eq!(
        headers_via(&ack.headers).unwrap().branch,
        headers_via(&invite.headers).unwrap().branch
    );
    // CSeq number copied, method rewritten to ACK.
    let cseq = headers_cseq(&ack.headers).unwrap();
    assert_eq!(cseq.0, 7);
    assert_eq!(cseq.1, Method::Ack);
    // To tag taken from the response, not the (tagless) request To.
    assert_eq!(headers_to(&ack.headers).unwrap().tag, Some("bob".to_string()));
}

#[test]
fn tokens_from_one_counter_differ() {
    let mut tokens = TokenCounter::new();
    let tags: Vec<String> = (0..50).map(|_| gen_tag(&mut tokens)).collect();
    for i in 0..tags.len() {
        assert!(tags[i].starts_with("wk"));
        for j in 0..i {
            assert_ne!(tags[i], tags[j]);
        }
    }
    assert_eq!(branch_from(0x12, 0xabc), "z9hG4bK120000000000000abc");
    assert_ne!(branch_from(1, 0x1d), branch_from(0x11, 0xd));
    assert_ne!(tag_from(1, 0x1d), tag_from(0x11, 0xd));
    assert_eq!(tag_from(0x12, 0xabc), "wk120000000000000abc");
}

#[test]
fn via_headers_name_the_transport() {
    let header = via_header("TCP", "10.0.0.1:5060", "z9hG4bK-1");
    assert_eq!(header.kind, HeaderKind::Via);
    assert_eq!(header.value, "SIP/2.0/TCP 10.0.0.1:5060;rport;branch=z9hG4bK-1");
}

#[test]
fn huge_timers_do_not_fit() {
    assert!(Timers::default().fits());
    let huge = Duration { nanos: u128::MAX };
    assert!(!Timers { t1: huge, t2: huge, t4: huge }.fits());
}

#[test]
fn keys_hold_what_was_written_into_the_via() {
    for transport in ["UDP", "TCP", "TLS", "SCTP", "TLS-SCTP", "WS", "WSS"] {
        for sent_by in ["10.0.0.1:5060", "h", "host.example:65535", "sip", "sipx:1", "a!b%c:0"] {
            for branch in ["z9hG4bK-1", "", "z9.!%*_+`'~"] {
                let mut sent = request(Method::Bye, "z9hG4bK-x", 1);
                sent.headers[0] = via_header(transport, sent_by, branch);
                let key = TransactionKey::from_request(&sent).unwrap();
                assert_eq!(key.branch, branch);
                assert_eq!(key.sent_by, sent_by);
                assert_eq!(key.method, Method::Bye);
                let via = headers_via(&sent.headers).unwrap();
                assert_eq!(via.protocol, format!("SIP/2.0/{transport}"));
                assert_eq!(via.uri, sent_by);
                assert_eq!(via.params, vec![";rport".to_string(), format!(";branch={branch}")]);
            }
        }
    }
}
