use rsip::headers::{ToTypedHeader, UntypedHeader};
use rsip::services::DigestGenerator;
use wavekat_sip::headers::headers_via;
use wavekat_sip::message::{
    headers_cseq, parse, HeaderKind, Method, Request, Response, SipMessage,
};
use wavekat_sip::stack::auth::{
    build_authorization, build_retry, cnonce_from, extract_challenge, gen_cnonce, Credentials,
};
use wavekat_sip::stack::transaction::TokenCounter;

fn read_request(raw: &[u8]) -> Request {
    match parse(raw) {
        Some(SipMessage::Request(r)) => r,
        other => panic!("expected a request, got {other:?}"),
    }
}

fn read_response(raw: &[u8]) -> Response {
    match parse(raw) {
        Some(SipMessage::Response(r)) => r,
        other => panic!("expected a response, got {other:?}"),
    }
}

fn typed(value: &str) -> rsip::typed::Authorization {
    rsip::headers::Authorization::new(value).typed().unwrap()
}

fn register() -> Request {
    let raw = "REGISTER sip:example.com SIP/2.0\r\n\
         Via: SIP/2.0/UDP 10.0.0.1:5060;branch=z9hG4bK-orig\r\n\
         From: <sip:alice@example.com>;tag=alice\r\n\
         To: <sip:alice@example.com>\r\n\
         Call-ID: call-reg\r\n\
         CSeq: 1 REGISTER\r\n\
         Content-Length: 0\r\n\r\n";
    read_request(raw.as_bytes())
}

fn challenge_401(qop: &str, algorithm: &str) -> Response {
    let qop_param = if qop.is_empty() {
        String::new()
    } else {
        format!(", qop=\"{qop}\"")
    };
    let raw = format!(
        "SIP/2.0 401 Unauthorized\r\n\
         Via: SIP/2.0/UDP 10.0.0.1:5060;branch=z9hG4bK-orig\r\n\
         From: <sip:alice@example.com>;tag=alice\r\n\
         To: <sip:alice@example.com>;tag=srv\r\n\
         Call-ID: call-reg\r\n\
         CSeq: 1 REGISTER\r\n\
         WWW-Authenticate: Digest realm=\"example.com\", \
         nonce=\"abc123\", algorithm={algorithm}{qop_param}\r\n\
         Content-Length: 0\r\n\r\n"
    );
    read_response(raw.as_bytes())
}

fn creds() -> Credentials<'static> {
    Credentials {
        username: "alice",
        password: "secret",
    }
}

#[test]
fn retry_adds_authorization_and_freshens_transaction() {
    let retry = build_retry(
        &register(),
        &challenge_401("auth", "MD5"),
        creds(),
        &mut TokenCounter::new(),
    ).unwrap();

    // CSeq bumped, method preserved.
    let cseq = headers_cseq(&retry.headers).unwrap();
    assert_eq!(cseq.0, 2);
    assert_eq!(cseq.1, Method::Register);

    // Fresh branch (new transaction).
    let branch = headers_via(&retry.headers).unwrap().branch.unwrap();
    assert!(branch.starts_with("z9hG4bK"));
    assert_ne!(branch, "z9hG4bK-orig");

    // Authorization present, realm/nonce copied from the challenge.
    let auth = typed(retry.header(HeaderKind::Authorization).unwrap());
    assert_eq!(auth.realm, "example.com");
    assert_eq!(auth.nonce, "abc123");
    assert!(!auth.response.is_empty());
}

#[test]
fn computed_response_verifies_against_rsip() {
    // Self-consistency: the response we emit must be what rsip recomputes
    // from the same Authorization (this catches qop/cnonce/algorithm mixups).
    let (_, challenge) = extract_challenge(&challenge_401("auth", "SHA256")).unwrap();
    let uri = register().uri;
    let wire = build_authorization(&challenge, &creds(), Method::Register, &uri, "0a1b");
    let auth = typed(&wire);
    assert_eq!(auth.algorithm, Some(rsip::headers::auth::Algorithm::Sha256));
    let generator = DigestGenerator::from(&auth, "secret", &rsip::Method::Register);
    assert!(generator.verify(&auth.response));
}

#[test]
fn no_qop_still_authorizes() {
    let (_, challenge) = extract_challenge(&challenge_401("", "MD5")).unwrap();
    let uri = register().uri;
    let wire = build_authorization(&challenge, &creds(), Method::Register, &uri, "0a1b");
    let auth = typed(&wire);
    assert!(auth.qop.is_none());
    let generator = DigestGenerator::from(&auth, "secret", &rsip::Method::Register);
    assert!(generator.verify(&auth.response));
}

#[test]
fn authorization_header_serializes_with_expected_params() {
    // The on-the-wire form the server will parse.
    let (_, challenge) = extract_challenge(&challenge_401("auth", "SHA256")).unwrap();
    let uri = register().uri;
    let wire = build_authorization(&challenge, &creds(), Method::Register, &uri, "0a1b");
    assert!(wire.contains("Digest username=\"alice\""));
    assert!(wire.contains("realm=\"example.com\""));
    assert!(wire.contains("algorithm=SHA256"));
    assert!(wire.contains("qop=\"auth\""));
    assert!(wire.contains("cnonce="));
}

#[test]
fn proxy_challenge_uses_proxy_authorization() {
    let raw = "SIP/2.0 407 Proxy Authentication Required\r\n\
         Via: SIP/2.0/UDP 10.0.0.1:5060;branch=z9hG4bK-orig\r\n\
         From: <sip:alice@example.com>;tag=alice\r\n\
         To: <sip:alice@example.com>;tag=srv\r\n\
         Call-ID: call-reg\r\n\
         CSeq: 1 REGISTER\r\n\
         Proxy-Authenticate: Digest realm=\"proxy\", nonce=\"xyz\", qop=\"auth\"\r\n\
         Content-Length: 0\r\n\r\n";
    let response = read_response(raw.as_bytes());
    let retry = build_retry(&register(), &response, creds(), &mut TokenCounter::new()).unwrap();

    let has_proxy_auth = retry
        .headers
        .iter()
        .any(|h| h.kind == HeaderKind::ProxyAuthorization);
    assert!(has_proxy_auth);
    assert!(!retry
        .headers
        .iter()
        .any(|h| h.kind == HeaderKind::Authorization));
}

#[test]
fn non_challenge_response_yields_no_retry() {
    let raw = "SIP/2.0 200 OK\r\n\
         Via: SIP/2.0/UDP 10.0.0.1:5060;branch=z9hG4bK-orig\r\n\
         From: <sip:alice@example.com>;tag=alice\r\n\
         To: <sip:alice@example.com>;tag=srv\r\n\
         Call-ID: call-reg\r\n\
         CSeq: 1 REGISTER\r\n\
         Content-Length: 0\r\n\r\n";
    let response = read_response(raw.as_bytes());
    assert!(build_retry(&register(), &response, creds(), &mut TokenCounter::new()).is_none());
}

#[test]
fn cnonce_is_unique_per_call() {
    let mut tokens = TokenCounter::new();
    assert_ne!(gen_cnonce(&mut tokens), gen_cnonce(&mut tokens));
}

#[test]
fn digests_have_their_exact_values() {
    let (_, challenge) = extract_challenge(&challenge_401("", "MD5")).unwrap();
    let wire =
        build_authorization(&challenge, &creds(), Method::Register, "sip:example.com", "0a1b");
    assert_eq!(
        wire,
        "Digest username=\"alice\", realm=\"example.com\", nonce=\"abc123\", \
         uri=\"sip:example.com\", response=\"d1d211daa2e0d7f43de25792410f5057\", algorithm=MD5"
    );
    let (_, challenge) = extract_challenge(&challenge_401("auth", "MD5")).unwrap();
    let wire =
        build_authorization(&challenge, &creds(), Method::Register, "sip:example.com", "0a1b");
    assert!(wire.contains("response=\"b0a0489883962a0678af967c12d71b17\""), "{wire}");
    assert!(wire.ends_with("qop=\"auth\", nc=00000001, cnonce=\"0a1b\""), "{wire}");
}

#[test]
fn an_opaque_text_is_sent_back() {
    let raw = "SIP/2.0 401 Unauthorized\r\n\
         WWW-Authenticate: Digest realm=\"r\", nonce=\"n\", opaque=\"5ccc\"\r\n\
         Content-Length: 0\r\n\r\n";
    let (_, challenge) = extract_challenge(&read_response(raw.as_bytes())).unwrap();
    let wire = build_authorization(&challenge, &creds(), Method::Register, "sip:r", "unused");
    assert!(wire.contains("opaque=\"5ccc\""));
    assert!(wire.contains("algorithm=MD5"));
    assert!(!wire.contains("cnonce"));
}

#[test]
fn client_nonces_are_padded() {
    assert_eq!(cnonce_from(0x1f, 0xab), "1f00000000000000ab");
}
