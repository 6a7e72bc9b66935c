use wavekat_sip::dtmf_info::{
    build_info_body, classify, content_type_header, InfoOutcome, CONTENT_TYPE,
};
use wavekat_sip::message::{HeaderKind, Response, StatusCode, Version};
use wavekat_sip::rtp::dtmf::DtmfDigit;

#[test]
fn body_format_matches_application_dtmf_relay() {
    // The body is `Signal=<char>\nDuration=<ms>`. No CR,
    // no trailing newline. Verbatim wire bytes get checked here
    // because any deviation can quietly break a PBX's parser.
    let body = build_info_body(DtmfDigit::D5, 160);
    assert_eq!(body, "Signal=5\nDuration=160");
}

#[test]
fn body_uses_digit_canonical_char_for_star_pound() {
    assert_eq!(
        build_info_body(DtmfDigit::Star, 100),
        "Signal=*\nDuration=100"
    );
    assert_eq!(
        build_info_body(DtmfDigit::Pound, 100),
        "Signal=#\nDuration=100"
    );
}

#[test]
fn body_uppercases_letter_digits() {
    // RFC 4733 digit codes 12-15 correspond to the AUTOVON A/B/C/D
    // keys; `DtmfDigit::as_char` returns uppercase. The body must
    // carry that uppercase form so any remote that whitelists the
    // letters case-sensitively still accepts the press.
    assert_eq!(build_info_body(DtmfDigit::A, 160), "Signal=A\nDuration=160");
    assert_eq!(build_info_body(DtmfDigit::D, 160), "Signal=D\nDuration=160");
}

#[test]
fn content_type_header_is_application_dtmf_relay() {
    let h = content_type_header();
    assert_eq!(h.kind, HeaderKind::ContentType);
    let s = h.value;
    assert!(
        s.contains(CONTENT_TYPE),
        "header should contain {CONTENT_TYPE}, got {s:?}"
    );
}

#[test]
fn classify_2xx_response_is_accepted() {
    let resp = make_response(200);
    match classify(Some(resp)) {
        InfoOutcome::Accepted(code) => assert_eq!(code.code, 200),
        other => panic!("expected Accepted, got {other:?}"),
    }
}

#[test]
fn classify_415_response_is_unsupported_media() {
    let resp = make_response(415);
    assert!(matches!(
        classify(Some(resp)),
        InfoOutcome::UnsupportedMedia
    ));
}

#[test]
fn classify_500_response_is_other_failure() {
    let resp = make_response(500);
    match classify(Some(resp)) {
        InfoOutcome::OtherFailure(code) => assert_eq!(code.code, 500),
        other => panic!("expected OtherFailure, got {other:?}"),
    }
}

#[test]
fn classify_none_response_is_dialog_not_confirmed() {
    // The engine returns `None` when no final response arrives; treat
    // that as a distinct outcome so the consumer can refresh its UI
    // rather than retry.
    assert!(matches!(classify(None), InfoOutcome::DialogNotConfirmed));
}

#[test]
fn outcome_helpers() {
    let accepted = InfoOutcome::Accepted(StatusCode::from_code(200u16));
    assert!(accepted.is_accepted());
    assert!(!accepted.should_stop());

    let unsupported = InfoOutcome::UnsupportedMedia;
    assert!(!unsupported.is_accepted());
    assert!(unsupported.should_stop());

    let other = InfoOutcome::OtherFailure(StatusCode::from_code(500u16));
    assert!(!other.is_accepted());
    assert!(!other.should_stop());
}

/// A response of which only the status matters.
fn make_response(code: u16) -> Response {
    Response {
        status_code: StatusCode::from_code(code),
        version: Version::V2,
        headers: Vec::new(),
        body: Vec::new(),
    }
}
