use wavekat_sip::net::{IpAddr, Ipv4Addr, Ipv6Addr, SocketAddr, SocketAddrV6};

#[test]
fn addresses_read_back() {
    for text in [
        "0.0.0.0",
        "255.255.255.255",
        "10.0.0.1",
        "::",
        "::1",
        "2001:db8::1",
        "1:2:3:4:5:6:7:8",
        "fe80::1:0:0:1",
        "::ffff:192.0.2.1",
    ] {
        let ip = IpAddr::parse(text).expect(text);
        assert_eq!(ip.to_text(), text);
    }
}

#[test]
fn texts_that_are_no_addresses_are_rejected() {
    for text in ["", "1.2.3", "1.2.3.256", "01.2.3.4", "1::2::3", "12345::", ":1", "g::", "1.2.3.4.5"] {
        assert_eq!(IpAddr::parse(text), None, "{text}");
    }
}

#[test]
fn longer_forms_are_shortened() {
    assert_eq!(
        IpAddr::parse("2001:0db8:0000:0000:0000:0000:0000:0001"),
        Some(IpAddr::V6(Ipv6Addr(0x2001, 0xdb8, 0, 0, 0, 0, 0, 1)))
    );
}

#[test]
fn socket_addresses_bracket_ipv6() {
    let v4 = SocketAddr::new(IpAddr::V4(Ipv4Addr(10, 0, 0, 1)), 5060);
    assert_eq!(v4.to_text(), "10.0.0.1:5060");
    let v6 = SocketAddr::new(IpAddr::V6(Ipv6Addr(0, 0, 0, 0, 0, 0, 0, 1)), 5060);
    assert_eq!(v6.to_text(), "[::1]:5060");
}

#[test]
fn socket_addresses_name_their_scope() {
    let ip = Ipv6Addr(0xfe80, 0, 0, 0, 0, 0, 0, 1);
    let scoped = SocketAddr::V6(SocketAddrV6 { ip, port: 5060, flowinfo: 9, scope_id: 2 });
    assert_eq!(scoped.to_text(), "[fe80::1%2]:5060");
    assert_eq!(scoped.ip(), IpAddr::V6(ip));
    assert_eq!(scoped.port(), 5060);
    let unscoped = SocketAddr::V6(SocketAddrV6 { ip, port: 5060, flowinfo: 9, scope_id: 0 });
    assert_eq!(unscoped.to_text(), "[fe80::1]:5060");
    let last = SocketAddr::V6(SocketAddrV6 { ip, port: 0, flowinfo: 0, scope_id: u32::MAX });
    assert_eq!(last.to_text(), "[fe80::1%4294967295]:0");
    assert_ne!(unscoped, SocketAddr::new(IpAddr::V6(ip), 5060));
}
