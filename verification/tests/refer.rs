use wavekat_sip::headers::Uri;
use wavekat_sip::refer::{
    escape_uri_header_value, is_final_sipfrag, parse_sipfrag_status, refer_to_header,
    refer_to_with_replaces, DialogTriplet,
};

#[test]
fn refer_to_wraps_the_target_uri() {
    let uri = Uri::parse("sip:carol@example.com").unwrap();
    let header = refer_to_header(&uri);
    assert_eq!(header.name(), "Refer-To");
    assert_eq!(header.value, "<sip:carol@example.com>");
}

#[test]
fn refer_to_with_replaces_embeds_escaped_dialog() {
    let uri = Uri::parse("sip:bob@biloxi.example.com").unwrap();
    let replaces = DialogTriplet {
        call_id: "call-2@host".into(),
        local_tag: "ustag".into(),
        remote_tag: "bobtag".into(),
    };
    let header = refer_to_with_replaces(&uri, &replaces);
    assert_eq!(header.name(), "Refer-To");
    // The target's own tag (our remote_tag) is the to-tag; ours is from-tag.
    // Separators (`;`, `=`) and `@` are percent-escaped per RFC 3891 §4.
    assert_eq!(
        header.value,
        "<sip:bob@biloxi.example.com?Replaces=call-2%40host%3Bto-tag%3Dbobtag%3Bfrom-tag%3Dustag>"
    );
}

#[test]
fn escape_leaves_unreserved_untouched() {
    assert_eq!(escape_uri_header_value("aZ09-_.~"), "aZ09-_.~");
    assert_eq!(escape_uri_header_value("a;b=c@d"), "a%3Bb%3Dc%40d");
}

#[test]
fn parses_final_and_provisional_sipfrag() {
    assert_eq!(parse_sipfrag_status(b"SIP/2.0 100 Trying"), Some(100));
    assert_eq!(parse_sipfrag_status(b"SIP/2.0 200 OK"), Some(200));
    assert_eq!(
        parse_sipfrag_status(b"SIP/2.0 486 Busy Here\r\n"),
        Some(486)
    );
    // Leading/trailing whitespace and a trailing CRLF are tolerated.
    assert_eq!(
        parse_sipfrag_status(b"  SIP/2.0 180 Ringing \r\n"),
        Some(180)
    );
}

#[test]
fn rejects_non_status_bodies() {
    assert_eq!(parse_sipfrag_status(b""), None);
    assert_eq!(parse_sipfrag_status(b"INVITE sip:x@y SIP/2.0"), None);
    assert_eq!(parse_sipfrag_status(b"garbage"), None);
}

#[test]
fn finality_threshold_is_200() {
    assert!(!is_final_sipfrag(100));
    assert!(!is_final_sipfrag(180));
    assert!(is_final_sipfrag(200));
    assert!(is_final_sipfrag(486));
}

#[test]
fn escaped_text_holds_no_separator() {
    let escaped = escape_uri_header_value("a b?c&d=e;f@g%h\u{e9}");
    assert_eq!(escaped, "a%20b%3Fc%26d%3De%3Bf%40g%25h%C3%A9");
}
