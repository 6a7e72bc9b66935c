use wavekat_sip::account::{TlsPolicy, Transport};
use wavekat_sip::message::{parse, serialize, Request, Response, SipMessage};
use wavekat_sip::net::{IpAddr, Ipv4Addr, Ipv6Addr, SocketAddr, SocketAddrV6};
use wavekat_sip::stack::transaction::Reliability;
use wavekat_sip::stack::transport::{check_destination, Shape, TlsSetup, TransportSetup};

fn read_request(raw: &[u8]) -> Request {
    match parse(raw) {
        Some(SipMessage::Request(r)) => r,
        other => panic!("expected a request, got {other:?}"),
    }
}

fn read_response(raw: &[u8]) -> Response {
    match parse(raw) {
        Some(SipMessage::Response(r)) => r,
        other => panic!("expected a response, got {other:?}"),
    }
}

fn options() -> Request {
    let raw = "OPTIONS sip:bob@example.com SIP/2.0\r\n\
         Via: SIP/2.0/UDP 10.0.0.1:5060;branch=z9hG4bK-opt\r\n\
         From: <sip:alice@example.com>;tag=alice\r\n\
         To: <sip:bob@example.com>\r\n\
         Call-ID: call-opt\r\n\
         CSeq: 4 OPTIONS\r\n\
         Content-Length: 0\r\n\r\n";
    read_request(raw.as_bytes())
}

#[test]
fn parse_round_trips_serialize() {
    let msg: SipMessage = SipMessage::Request(options());
    let bytes = serialize(&msg);
    let back = parse(&bytes).expect("parses");
    assert_eq!(back, msg);
}

#[test]
fn transport_parse_rejects_garbage() {
    assert!(parse(b"not a sip message\r\n\r\n").is_none());
}

#[test]
fn transport_setup_from_transport_round_trips_udp_and_tcp() {
    let udp: TransportSetup = Transport::Udp.into();
    assert_eq!(udp.transport, Transport::Udp);
    assert!(udp.tls.is_none());

    let tcp: TransportSetup = Transport::Tcp.into();
    assert_eq!(tcp.transport, Transport::Tcp);
    assert!(tcp.tls.is_none());
}

#[test]
fn response_serializes_and_parses() {
    let raw = "SIP/2.0 200 OK\r\n\
         Via: SIP/2.0/UDP 10.0.0.1:5060;branch=z9hG4bK-opt\r\n\
         From: <sip:alice@example.com>;tag=alice\r\n\
         To: <sip:bob@example.com>;tag=bob\r\n\
         Call-ID: call-opt\r\n\
         CSeq: 4 OPTIONS\r\n\
         Content-Length: 0\r\n\r\n";
    let resp = read_response(raw.as_bytes());
    let msg: SipMessage = SipMessage::Response(resp);
    assert_eq!(parse(&serialize(&msg)).unwrap(), msg);
}

#[test]
fn each_transport_has_its_shape() {
    let udp: TransportSetup = Transport::Udp.into();
    assert_eq!(udp.shape(), Ok(Shape::Datagram));
    let tcp: TransportSetup = Transport::Tcp.into();
    assert_eq!(tcp.shape(), Ok(Shape::Stream));
    let bare: TransportSetup = Transport::Tls.into();
    assert!(bare.shape().is_err());
    let tls = TransportSetup {
        transport: Transport::Tls,
        tls: Some(TlsSetup {
            server_name: "sip.example.com".to_string(),
            policy: TlsPolicy::SystemRoots,
        }),
    };
    assert_eq!(tls.shape(), Ok(Shape::TlsStream));
}

#[test]
fn only_the_datagram_shape_is_unreliable() {
    assert!(!Shape::Datagram.reliability().is_reliable());
    assert!(Shape::Stream.reliability().is_reliable());
    assert!(Shape::TlsStream.reliability().is_reliable());
    assert_eq!(Reliability::from(Transport::Tls), Reliability::Reliable);
}

#[test]
fn a_stream_sends_to_its_peer_alone() {
    let peer = SocketAddr::new(IpAddr::V4(Ipv4Addr(10, 0, 0, 1)), 5060);
    let other = SocketAddr::new(peer.ip(), 5061);
    assert_eq!(check_destination(peer, peer), Ok(()));
    let error = check_destination(peer, other).unwrap_err();
    assert!(error.contains("10.0.0.1:5060") && error.contains("10.0.0.1:5061"), "{error}");
}

#[test]
fn a_stream_tells_scopes_apart() {
    let v6 = SocketAddrV6 {
        ip: Ipv6Addr(0xfe80, 0, 0, 0, 0, 0, 0, 1),
        port: 5060,
        flowinfo: 0,
        scope_id: 2,
    };
    let peer = SocketAddr::V6(v6);
    assert_eq!(check_destination(peer, peer), Ok(()));
    let elsewhere = SocketAddr::V6(SocketAddrV6 { scope_id: 3, ..v6 });
    assert_eq!(
        check_destination(peer, elsewhere).unwrap_err(),
        "stream transport is connected to [fe80::1%2]:5060, not [fe80::1%3]:5060"
    );
    assert!(check_destination(peer, SocketAddr::V6(SocketAddrV6 { flowinfo: 1, ..v6 })).is_err());
    assert!(check_destination(peer, SocketAddr::V6(SocketAddrV6 { port: 1, ..v6 })).is_err());
    let v4 = SocketAddr::new(IpAddr::V4(Ipv4Addr(10, 0, 0, 1)), 5060);
    assert!(check_destination(peer, v4).is_err());
}
