use wavekat_sip::message::SipMessage;
use wavekat_sip::stack::framing::{content_length, Framer, FramingError, MAX_HEADER_BYTES};

/// A complete, well-formed REGISTER with an empty body.
fn register() -> Vec<u8> {
    b"REGISTER sip:example.com SIP/2.0\r\n\
Via: SIP/2.0/TCP 10.0.0.1:5060;branch=z9hG4bK-1\r\n\
From: <sip:alice@example.com>;tag=a\r\n\
To: <sip:alice@example.com>\r\n\
Call-ID: call-1\r\n\
CSeq: 1 REGISTER\r\n\
Content-Length: 0\r\n\r\n"
        .to_vec()
}

/// An INVITE whose 4-byte body is "abcd".
fn invite_with_body() -> Vec<u8> {
    b"INVITE sip:bob@example.com SIP/2.0\r\n\
Via: SIP/2.0/TCP 10.0.0.1:5060;branch=z9hG4bK-2\r\n\
From: <sip:alice@example.com>;tag=a\r\n\
To: <sip:bob@example.com>\r\n\
Call-ID: call-2\r\n\
CSeq: 1 INVITE\r\n\
Content-Length: 4\r\n\r\nabcd"
        .to_vec()
}

#[test]
fn empty_framer_yields_nothing() {
    let mut f = Framer::new();
    assert_eq!(f.next_message(), Ok(None));
}

#[test]
fn frames_one_whole_message() {
    let mut f = Framer::new();
    f.push(&register());
    assert!(f.next_message().expect("frames").is_some());
    assert_eq!(f.next_message(), Ok(None));
}

#[test]
fn frames_message_split_mid_header() {
    let raw = register();
    let (a, b) = raw.split_at(40);
    let mut f = Framer::new();
    f.push(a);
    assert_eq!(
        f.next_message(),
        Ok(None),
        "incomplete headers yield nothing"
    );
    f.push(b);
    assert!(f.next_message().expect("frames").is_some());
}

#[test]
fn frames_two_messages_from_one_read() {
    let mut both = register();
    both.extend_from_slice(&register());
    let mut f = Framer::new();
    f.push(&both);
    assert!(f.next_message().expect("first").is_some());
    assert!(f.next_message().expect("second").is_some());
    assert_eq!(f.next_message(), Ok(None));
}

#[test]
fn frames_body_split_across_reads() {
    let raw = invite_with_body();
    let cut = raw.len() - 2;
    let mut f = Framer::new();
    f.push(&raw[..cut]);
    assert_eq!(f.next_message(), Ok(None), "partial body yields nothing");
    f.push(&raw[cut..]);
    let msg = f.next_message().expect("frames").expect("message");
    match msg {
        SipMessage::Request(r) => assert_eq!(r.body, b"abcd"),
        SipMessage::Response(r) => panic!("expected a request, got {r:?}"),
    }
}

/// RFC 5626 §3.5.1: CRLFCRLF is the connection keepalive. Bare CRLFs
/// between messages must be skipped, not treated as a message.
#[test]
fn skips_bare_crlf_keepalive_between_messages() {
    let mut buf = b"\r\n\r\n".to_vec();
    buf.extend_from_slice(&register());
    let mut f = Framer::new();
    f.push(&buf);
    assert!(f.next_message().expect("frames past keepalive").is_some());
}

#[test]
fn keepalive_alone_is_not_a_message() {
    let mut f = Framer::new();
    f.push(b"\r\n\r\n");
    assert_eq!(f.next_message(), Ok(None));
}

/// RFC 3261 §20.14: on a stream transport, absent Content-Length is a
/// protocol error. Treating it as zero resynchronises the stream onto a
/// body and corrupts every message after it.
#[test]
fn missing_content_length_is_an_error() {
    let raw = b"REGISTER sip:example.com SIP/2.0\r\n\
Via: SIP/2.0/TCP 10.0.0.1:5060;branch=z9hG4bK-3\r\n\
CSeq: 1 REGISTER\r\n\r\n";
    let mut f = Framer::new();
    f.push(raw);
    assert_eq!(f.next_message(), Err(FramingError::MissingContentLength));
}

#[test]
fn oversized_header_block_is_an_error() {
    let mut f = Framer::new();
    f.push(b"REGISTER sip:example.com SIP/2.0\r\n");
    f.push(&vec![b'x'; MAX_HEADER_BYTES + 1]);
    assert_eq!(f.next_message(), Err(FramingError::HeadersTooLarge));
}

#[test]
fn content_length_is_case_insensitive() {
    let raw = b"REGISTER sip:example.com SIP/2.0\r\n\
Via: SIP/2.0/TCP 10.0.0.1:5060;branch=z9hG4bK-4\r\n\
From: <sip:alice@example.com>;tag=a\r\n\
To: <sip:alice@example.com>\r\n\
Call-ID: call-4\r\n\
CSeq: 1 REGISTER\r\n\
content-length: 0\r\n\r\n";
    let mut f = Framer::new();
    f.push(raw);
    assert!(f.next_message().expect("frames").is_some());
}

/// `l` is the compact form of Content-Length (RFC 3261 §20).
#[test]
fn compact_content_length_form_is_accepted() {
    let raw = b"REGISTER sip:example.com SIP/2.0\r\n\
Via: SIP/2.0/TCP 10.0.0.1:5060;branch=z9hG4bK-5\r\n\
From: <sip:alice@example.com>;tag=a\r\n\
To: <sip:alice@example.com>\r\n\
Call-ID: call-5\r\n\
CSeq: 1 REGISTER\r\n\
l: 0\r\n\r\n";
    let mut f = Framer::new();
    f.push(raw);
    assert!(f.next_message().expect("frames").is_some());
}

#[test]
fn unparseable_message_is_an_error() {
    let raw = b"NOT A SIP MESSAGE AT ALL\r\n\
Content-Length: 0\r\n\r\n";
    let mut f = Framer::new();
    f.push(raw);
    assert_eq!(f.next_message(), Err(FramingError::Malformed));
}

#[test]
fn every_split_of_a_stream_frames_the_same() {
    let mut stream = register();
    stream.extend_from_slice(b"\r\n\r\n");
    stream.extend_from_slice(&invite_with_body());
    stream.extend_from_slice(&register());
    let whole = Framer::new().on_read(&stream).messages;
    assert_eq!(whole.len(), 3);
    for cut in 0..stream.len() {
        let mut f = Framer::new();
        let mut got = f.on_read(&stream[..cut]).messages;
        let rest = f.on_read(&stream[cut..]);
        assert_eq!(rest.error, None);
        got.extend(rest.messages);
        assert_eq!(got, whole, "cut at {cut}");
    }
}

#[test]
fn messages_before_an_error_are_kept() {
    let mut stream = register();
    stream.extend_from_slice(b"NOT SIP\r\n\r\n");
    let outcome = Framer::new().on_read(&stream);
    assert_eq!(outcome.messages.len(), 1);
    assert_eq!(outcome.error, Some(FramingError::MissingContentLength));
}

#[test]
fn content_lengths_are_read_from_the_header_block() {
    assert_eq!(content_length(b"A: b\r\nContent-Length: 42\r\n"), Some(42));
    assert_eq!(content_length(b"A: b\r\nL : 7 \r\n"), Some(7));
    assert_eq!(content_length(b"A: b\r\n"), None);
    assert_eq!(content_length(b"Content-Length: many\r\n"), None);
}

#[test]
fn framing_errors_read_differently() {
    let texts = [
        FramingError::MissingContentLength.to_text(),
        FramingError::HeadersTooLarge.to_text(),
        FramingError::Malformed.to_text(),
    ];
    assert_ne!(texts[0], texts[1]);
    assert_ne!(texts[1], texts[2]);
    assert_ne!(texts[0], texts[2]);
}

/// The messages that come out of a stream in reads of `size` bytes, and the error at its end.
fn read_in_pieces(stream: &[u8], size: usize) -> (Vec<SipMessage>, Option<FramingError>) {
    let mut f = Framer::new();
    let mut messages = Vec::new();
    for piece in stream.chunks(size) {
        let outcome = f.on_read(piece);
        messages.extend(outcome.messages);
        if outcome.error.is_some() {
            return (messages, outcome.error);
        }
    }
    (messages, None)
}

#[test]
fn streams_give_the_same_messages_however_they_are_cut() {
    let mut good = b"\r\n".to_vec();
    good.extend_from_slice(&register());
    good.extend_from_slice(&invite_with_body());
    good.extend_from_slice(b"\r\n\r\n");
    good.extend_from_slice(&register());
    let ends: [(&[u8], Option<FramingError>); 4] = [
        (b"", None),
        (b"BYE sip:x SIP/2.0\r\nl: 9\r\n\r\nabc", None),
        (b"BYE sip:x SIP/2.0\r\n\r\nmore", Some(FramingError::MissingContentLength)),
        (b"no message\r\nl: 2\r\n\r\nabcd", Some(FramingError::Malformed)),
    ];
    for (end, error) in ends {
        let mut stream = good.clone();
        stream.extend_from_slice(end);
        let whole = read_in_pieces(&stream, stream.len());
        assert_eq!(whole.0.len(), 3);
        assert_eq!(whole.1, error);
        for size in [1, 2, 3, 7, 40, 100] {
            assert_eq!(read_in_pieces(&stream, size), whole);
        }
    }
}

#[test]
fn an_endless_header_block_is_refused_however_it_is_cut() {
    let stream = vec![b'x'; MAX_HEADER_BYTES + 10];
    for size in [1000, 65536, stream.len()] {
        let (messages, error) = read_in_pieces(&stream, size);
        assert!(messages.is_empty());
        assert_eq!(error, Some(FramingError::HeadersTooLarge));
    }
}
