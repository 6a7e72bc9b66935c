use wavekat_sip::hold::{
    build_reoffer, hold_direction, next_session_version, rejection_detail, reoffer_answer,
    HoldHandle,
};
use wavekat_sip::message::{header_value, Header, HeaderKind, Response, StatusCode, Version};
use wavekat_sip::net::{IpAddr, Ipv4Addr, SocketAddr};
use wavekat_sip::sdp::{
    build_sdp_with, AudioCodec, CodecMenu, DtmfSpec, MediaDirection,
};

fn response(code: u16, body: Vec<u8>) -> Response {
    Response {
        status_code: StatusCode::from_code(code),
        version: Version::V2,
        headers: Vec::new(),
        body,
    }
}

fn addr() -> SocketAddr {
    SocketAddr::new(IpAddr::V4(Ipv4Addr(10, 0, 0, 7)), 40000)
}

fn dtmf() -> Option<DtmfSpec> {
    Some(DtmfSpec { payload_type: 101, clock_rate: 8000 })
}

fn answer() -> Vec<u8> {
    let menu = CodecMenu::Pinned { codec: AudioCodec::Pcmu, dtmf: dtmf() };
    build_sdp_with(
        IpAddr::V4(Ipv4Addr(203, 0, 113, 9)),
        8000,
        menu,
        MediaDirection::SendRecv,
        1,
    )
}

#[test]
fn a_hold_offers_sendonly_and_reads_the_answer() {
    let offer = build_reoffer(addr(), AudioCodec::Pcmu, dtmf(), MediaDirection::SendOnly, 1);
    let offered = String::from_utf8(offer.body).unwrap();
    assert!(offered.contains("a=sendonly\r\n"));
    assert!(offered.contains("m=audio 40000 RTP/AVP 0 101\r\n"));
    assert!(offered.contains("o=wavekat 0 1 IN IP4 10.0.0.7\r\n"));
    assert_eq!(
        header_value(&offer.headers, HeaderKind::ContentType),
        Some("application/sdp")
    );
    let media = reoffer_answer(Some(&response(200, answer()))).unwrap().expect("had SDP");
    assert_eq!(media.port, 8000);
}

#[test]
fn resume_offers_sendrecv() {
    let mut state = HoldHandle {
        local_rtp_addr: addr(),
        codec: AudioCodec::Pcmu,
        dtmf: dtmf(),
        session_version: 0,
    };
    let held = String::from_utf8(state.set_hold(true).body).unwrap();
    assert!(held.contains("a=sendonly\r\n"));
    assert!(held.contains("o=wavekat 0 1 IN IP4 10.0.0.7\r\n"));
    let offered = String::from_utf8(state.set_hold(false).body).unwrap();
    assert!(offered.contains("a=sendrecv\r\n"));
    assert!(offered.contains("o=wavekat 0 2 IN IP4 10.0.0.7\r\n"));
}

#[test]
fn empty_2xx_body_is_ok_none() {
    assert_eq!(reoffer_answer(Some(&response(200, Vec::new()))), Ok(None));
}

#[test]
fn non_2xx_is_error() {
    let err = reoffer_answer(Some(&response(488, Vec::new()))).unwrap_err();
    assert!(err.contains("488"));
}

#[test]
fn unconfirmed_dialog_is_error() {
    let err = reoffer_answer(None).unwrap_err();
    assert!(err.contains("no longer confirmed"));
}

#[test]
fn hold_direction_maps_held_to_sendonly() {
    assert_eq!(hold_direction(true), MediaDirection::SendOnly);
    assert_eq!(hold_direction(false), MediaDirection::SendRecv);
}

#[test]
fn rejection_detail_surfaces_warning_and_reason() {
    assert_eq!(rejection_detail(&Vec::new()), "");

    let mut headers = vec![Header::new(
        HeaderKind::Warning,
        "399 sbc \"Codec negotiation failed\"",
    )];
    assert_eq!(
        rejection_detail(&headers),
        " (Warning: 399 sbc \"Codec negotiation failed\")"
    );

    headers.push(Header::other("Reason", "SIP;cause=500;text=\"internal\""));
    assert_eq!(
        rejection_detail(&headers),
        " (Warning: 399 sbc \"Codec negotiation failed\"; Reason: SIP;cause=500;text=\"internal\")"
    );
}

#[test]
fn session_version_increases_across_reoffers() {
    let mut counter = 0u64;
    let versions: Vec<u64> = (0..4).map(|_| next_session_version(&mut counter)).collect();
    assert_eq!(versions, vec![1, 2, 3, 4]);
}
