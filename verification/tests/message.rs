use wavekat_sip::headers::{
    aor, bare_addr_text, contact_uri_text, headers_contact, headers_from, headers_to, headers_via,
    Uri,
};
use wavekat_sip::account::Transport;
use wavekat_sip::message::{
    cseq_header, header_value, headers_cseq, parse, parse_cseq, push_header, replace_header,
    serialize, Header, HeaderKind, Method, Request, Response, SipMessage, StatusCode, Version,
};
use wavekat_sip::net::{IpAddr, Ipv6Addr, SocketAddr, SocketAddrV6};

fn sample() -> Request {
    Request {
        method: Method::Message,
        uri: "sip:bob@example.com".to_string(),
        version: Version::V2,
        headers: vec![
            Header::new(HeaderKind::Via, "SIP/2.0/TLS host:5061;branch=z9hG4bK-1;rport"),
            Header::new(HeaderKind::From, "Bob <sip:bob@example.com>;tag=a"),
            Header::new(HeaderKind::To, "<sip:carol@example.com>"),
            Header::new(HeaderKind::Contact, "<sip:bob@10.0.0.1:5060>"),
            Header::other("X-Custom", "one"),
            cseq_header(9, Method::Message),
            Header::new(HeaderKind::ContentLength, "2"),
        ],
        body: b"hi".to_vec(),
    }
}

#[test]
fn messages_go_on_the_wire_line_by_line() {
    let bytes = serialize(&SipMessage::Request(sample()));
    let text = String::from_utf8(bytes.clone()).unwrap();
    assert!(text.starts_with("MESSAGE sip:bob@example.com SIP/2.0\r\nVia: SIP/2.0/TLS"));
    assert!(text.contains("\r\nX-Custom: one\r\nCSeq: 9 MESSAGE\r\n"));
    assert!(text.ends_with("\r\n\r\nhi"));
    assert_eq!(parse(&bytes), Some(SipMessage::Request(sample())));
}

#[test]
fn headers_are_read_by_kind() {
    let request = sample();
    assert_eq!(headers_cseq(&request.headers), Some((9, Method::Message)));
    let via = headers_via(&request.headers).unwrap();
    assert_eq!(via.branch, Some("z9hG4bK-1".to_string()));
    let from = headers_from(&request.headers).unwrap();
    assert_eq!(from.tag, Some("a".to_string()));
    assert_eq!(headers_to(&request.headers).unwrap().tag, None);
    assert_eq!(
        headers_contact(&request.headers),
        Some("sip:bob@10.0.0.1:5060".to_string())
    );
    assert_eq!(header_value(&request.headers, HeaderKind::CallId), None);
}

#[test]
fn replaced_headers_move_to_the_end() {
    let mut headers = sample().headers;
    replace_header(&mut headers, Header::new(HeaderKind::Via, "SIP/2.0/UDP x;branch=y"));
    assert_eq!(headers.iter().filter(|h| h.kind == HeaderKind::Via).count(), 1);
    assert_eq!(headers.last().unwrap().value, "SIP/2.0/UDP x;branch=y");
    push_header(&mut headers, Header::other("A", "b"));
    assert_eq!(headers.last().unwrap().name(), "A");
}

#[test]
fn sequence_headers_read_back() {
    let header = cseq_header(u32::MAX, Method::PRack);
    assert_eq!(header.value, "4294967295 PRACK");
    assert_eq!(parse_cseq(&header.value), Some((u32::MAX, Method::PRack)));
    assert_eq!(parse_cseq("x INVITE"), None);
    assert_eq!(parse_cseq("1 NOSUCH"), None);
}

#[test]
fn methods_have_names() {
    assert_eq!(Method::parse("INVITE"), Some(Method::Invite));
    assert_eq!(Method::parse("nosuch"), None);
    assert_eq!(Method::Register.name(), "REGISTER");
}

#[test]
fn status_codes_have_lines() {
    assert_eq!(StatusCode::from_code(486).line, "486 BusyHere");
    assert_eq!(StatusCode::from_code(200).code, 200);
}

#[test]
fn uris_name_host_and_transport() {
    let uri = Uri::parse("sip:bob@example.com:5070;transport=tcp").unwrap();
    assert_eq!(uri.text, "sip:bob@example.com:5070;transport=TCP");
    assert_eq!(uri.host_port, "example.com:5070");
    assert_eq!(uri.via_transport(), "TCP");
    assert_eq!(Uri::parse("sip:bob@example.com").unwrap().via_transport(), "UDP");
    assert_eq!(
        Uri::parse("sip:b@e;transport=tls").unwrap().via_transport(),
        "TLS"
    );
}

#[test]
fn addresses_are_written_out() {
    assert_eq!(aor("bob", "example.com"), "sip:bob@example.com");
    assert_eq!(bare_addr_text("sip:bob@example.com", Some("t")), "<sip:bob@example.com>;tag=t");
    assert_eq!(bare_addr_text("sip:bob@example.com", None), "<sip:bob@example.com>");
    let addr = SocketAddr::new(IpAddr::V6(Ipv6Addr(0, 0, 0, 0, 0, 0, 0, 1)), 5061);
    assert_eq!(contact_uri_text("bob", addr, Transport::Tls), "sip:bob@[::1]:5061;transport=tls");
    assert_eq!(contact_uri_text("bob", addr, Transport::Udp), "sip:bob@[::1]:5061");
    let scoped = SocketAddr::V6(SocketAddrV6 {
        ip: Ipv6Addr(0xfe80, 0, 0, 0, 0, 0, 0, 1),
        port: 5061,
        flowinfo: 0,
        scope_id: 2,
    });
    assert_eq!(contact_uri_text("bob", scoped, Transport::Udp), "sip:bob@[fe80::1%2]:5061");
}

#[test]
fn what_was_written_reads_back() {
    let methods = [
        Method::Ack, Method::Bye, Method::Cancel, Method::Info, Method::Invite, Method::Message,
        Method::Notify, Method::Options, Method::PRack, Method::Publish, Method::Refer,
        Method::Register, Method::Subscribe, Method::Update,
    ];
    let uris = [
        "sip:host", "sips:example.com", "sip:a.b@10.0.0.1:5070;transport=TCP;lr",
        "sip:user:pw@h.example;x=y",
    ];
    for method in methods {
        for uri in uris {
            let mut request = sample();
            request.method = method;
            request.uri = uri.to_string();
            request.body = "line\r\n\r\nend: \u{e9}".as_bytes().to_vec();
            let message = SipMessage::Request(request);
            assert_eq!(parse(&serialize(&message)), Some(message));
        }
    }
}

#[test]
fn headers_of_every_kind_read_back() {
    let kinds = [
        HeaderKind::Via, HeaderKind::From, HeaderKind::To, HeaderKind::CallId, HeaderKind::CSeq,
        HeaderKind::Contact, HeaderKind::MaxForwards, HeaderKind::ContentLength,
        HeaderKind::ContentType, HeaderKind::Expires, HeaderKind::Route, HeaderKind::RecordRoute,
        HeaderKind::Supported, HeaderKind::Require, HeaderKind::Warning,
        HeaderKind::WwwAuthenticate, HeaderKind::ProxyAuthenticate, HeaderKind::Authorization,
        HeaderKind::ProxyAuthorization,
    ];
    let names = [
        "Accept", "Accept-Encoding", "Accept-Language", "Alert-Info", "Allow",
        "Authentication-Info", "Call-Info", "Content-Disposition", "Content-Encoding",
        "Content-Language", "Date", "Error-Info", "Event", "In-Reply-To", "Mime-Version",
        "Min-Expires", "Organization", "Priority", "Proxy-Require", "Reply-To", "Retry-After",
        "Server", "Subject", "Timestamp", "Unsupported", "User-Agent", "Session-Expires",
        "Refer-To", "x-own.!%*_+`'~9",
    ];
    let values = ["", "v", "v ", "a: b;c=\"d, e\"", "\n", "x\r", "\u{e9}\u{4e2d}"];
    let mut headers = Vec::new();
    for value in values {
        for kind in kinds {
            headers.push(Header::new(kind, value));
        }
        for name in names {
            headers.push(Header::other(name, value));
        }
    }
    for body in ["", "b\r\n\r\n"] {
        let response = SipMessage::Response(Response {
            status_code: StatusCode::from_code(200),
            version: Version::V2,
            headers: headers.clone(),
            body: body.as_bytes().to_vec(),
        });
        assert_eq!(parse(&serialize(&response)), Some(response));
        headers.reverse();
    }
}

#[test]
fn responses_read_back() {
    for code in 100u16..1000 {
        for version in [Version::V1, Version::V2] {
            let response = SipMessage::Response(Response {
                status_code: StatusCode::from_code(code),
                version,
                headers: sample().headers,
                body: Vec::new(),
            });
            assert_eq!(parse(&serialize(&response)), Some(response));
        }
    }
    for line in ["299 ", "299 All  right "] {
        let response = SipMessage::Response(Response {
            status_code: StatusCode { code: 299, line: line.to_string() },
            version: Version::V2,
            headers: sample().headers,
            body: Vec::new(),
        });
        assert_eq!(parse(&serialize(&response)), Some(response));
    }
}

#[test]
fn challenges_are_spelled_in_capitals() {
    let mut request = sample();
    request.headers.push(Header::new(HeaderKind::WwwAuthenticate, "Digest realm=\"r\""));
    let text = String::from_utf8(serialize(&SipMessage::Request(request))).unwrap();
    assert!(text.contains("\r\nWWW-Authenticate: Digest realm=\"r\"\r\n"));
}

#[test]
fn name_addresses_read_back() {
    let uris = ["sip:bob@example.com", "sip:h", "sips:a:b@10.0.0.1:5061;lr", "http://x/y<z"];
    for display in ["", "Bob", "\"Bob B.\"", "\u{e9} ;tag=x"] {
        for uri in uris {
            assert_eq!(Uri::parse(uri).unwrap().text, uri);
            for tag in [None, Some("t"), Some(""), Some("a-.!%*_+`'~9")] {
                let bare = bare_addr_text(uri, tag);
                let value = if display.is_empty() { bare } else { format!("{display} {bare}") };
                let headers = vec![
                    Header::new(HeaderKind::From, &value),
                    Header::new(HeaderKind::To, &value),
                ];
                for addr in [headers_from(&headers).unwrap(), headers_to(&headers).unwrap()] {
                    assert_eq!(addr.display_name.as_deref().unwrap_or(""), display);
                    assert_eq!(addr.uri, uri);
                    assert_eq!(addr.tag.as_deref(), tag);
                    assert_eq!(addr.params.concat(), tag.map_or(String::new(), |t| format!(";tag={t}")));
                }
            }
            let contact = vec![Header::new(HeaderKind::Contact, &format!("<{uri}>"))];
            assert_eq!(headers_contact(&contact).unwrap(), uri);
        }
    }
}

#[test]
fn sip_uris_read_back() {
    let transports = [("", None, ""), (";transport=tcp", Some("TCP"), ";transport=TCP"),
        (";transport=tls", Some("TLS"), ";transport=TLS")];
    for user in ["", "bob@", "@", "b:c:d@", "a b;c@", "\u{e9}@"] {
        for host in ["h", "10.0.0.1", "sip.example.com", "sip", "sip:5060", "10.0.0.1:0", "h:65535"] {
            for (param, name, written) in transports {
                let uri = Uri::parse(&format!("sip:{user}{host}{param}")).unwrap();
                assert_eq!(uri.text, format!("sip:{user}{host}{written}"));
                assert_eq!(uri.host_port, host);
                assert_eq!(uri.transport.as_deref(), name);
            }
        }
    }
}
