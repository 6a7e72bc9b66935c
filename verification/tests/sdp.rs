use wavekat_sip::net::{IpAddr, Ipv4Addr, Ipv6Addr};
use wavekat_sip::sdp::{
    build_sdp_offer, build_sdp_with, parse_sdp, select_codec, select_dtmf, AudioCodec, CodecMenu,
    DtmfSpec, MediaDirection, DTMF_WIDEBAND_DEFAULT_PT, OPUS_DEFAULT_PT,
};

fn ip() -> IpAddr {
    IpAddr::V4(Ipv4Addr(10, 0, 0, 1))
}

#[test]
fn offer_contains_required_fields_opus_first() {
    let sdp = build_sdp_offer(ip(), 5004);
    let text = String::from_utf8(sdp).unwrap();

    assert!(text.contains("v=0\r\n"));
    assert!(text.contains("c=IN IP4 10.0.0.1\r\n"));
    // Opus leads the menu; G.711 follows for fallback; both DTMF
    // clocks are on the table.
    assert!(text.contains("m=audio 5004 RTP/AVP 111 0 8 101 110\r\n"));
    assert!(text.contains("a=rtpmap:111 opus/48000/2\r\n"));
    assert!(text.contains("a=fmtp:111 useinbandfec=1\r\n"));
    assert!(text.contains("a=rtpmap:0 PCMU/8000\r\n"));
    assert!(text.contains("a=rtpmap:8 PCMA/8000\r\n"));
    assert!(text.contains("a=rtpmap:101 telephone-event/8000\r\n"));
    assert!(text.contains("a=fmtp:101 0-15\r\n"));
    assert!(text.contains("a=rtpmap:110 telephone-event/48000\r\n"));
    assert!(text.contains("a=fmtp:110 0-15\r\n"));
    assert!(text.contains("a=sendrecv\r\n"));
    assert!(text.contains("o=wavekat 0 0 IN IP4 10.0.0.1\r\n"));
}

#[test]
fn build_sdp_with_sets_direction_and_version() {
    let menu = CodecMenu::Pinned {
        codec: AudioCodec::Pcmu,
        dtmf: Some(DtmfSpec {
            payload_type: 101,
            clock_rate: 8000,
        }),
    };

    let hold = String::from_utf8(build_sdp_with(
        ip(),
        5004,
        menu,
        MediaDirection::SendOnly,
        1,
    ))
    .unwrap();
    assert!(hold.contains("o=wavekat 0 1 IN IP4 10.0.0.1\r\n"));
    assert!(hold.contains("a=sendonly\r\n"));
    assert!(!hold.contains("a=sendrecv\r\n"));

    let resume = String::from_utf8(build_sdp_with(
        ip(),
        5004,
        menu,
        MediaDirection::SendRecv,
        2,
    ))
    .unwrap();
    assert!(resume.contains("o=wavekat 0 2 IN IP4 10.0.0.1\r\n"));
    assert!(resume.contains("a=sendrecv\r\n"));

    let inactive = String::from_utf8(build_sdp_with(
        ip(),
        5004,
        menu,
        MediaDirection::Inactive,
        3,
    ))
    .unwrap();
    assert!(inactive.contains("a=inactive\r\n"));
}

#[test]
fn pinned_g711_reoffer_contains_only_the_negotiated_codec() {
    // A hold re-INVITE after a PCMA call must not re-open the Opus
    // (or PCMU) negotiation.
    let menu = CodecMenu::Pinned {
        codec: AudioCodec::Pcma,
        dtmf: Some(DtmfSpec {
            payload_type: 101,
            clock_rate: 8000,
        }),
    };
    let text = String::from_utf8(build_sdp_with(
        ip(),
        5004,
        menu,
        MediaDirection::SendOnly,
        1,
    ))
    .unwrap();
    assert!(text.contains("m=audio 5004 RTP/AVP 8 101\r\n"));
    assert!(text.contains("a=rtpmap:8 PCMA/8000\r\n"));
    assert!(!text.contains("opus"));
    assert!(!text.contains("PCMU"));
}

#[test]
fn pinned_opus_reoffer_keeps_the_negotiated_pt_and_dtmf_clock() {
    // The peer negotiated Opus at *its* PT (96, not our default 111)
    // and telephone-event at the 48 kHz clock. Re-offers must echo
    // those exact numbers.
    let menu = CodecMenu::Pinned {
        codec: AudioCodec::Opus { payload_type: 96 },
        dtmf: Some(DtmfSpec {
            payload_type: 97,
            clock_rate: 48000,
        }),
    };
    let text = String::from_utf8(build_sdp_with(
        ip(),
        5004,
        menu,
        MediaDirection::SendOnly,
        1,
    ))
    .unwrap();
    assert!(text.contains("m=audio 5004 RTP/AVP 96 97\r\n"));
    assert!(text.contains("a=rtpmap:96 opus/48000/2\r\n"));
    assert!(text.contains("a=fmtp:96 useinbandfec=1\r\n"));
    assert!(text.contains("a=rtpmap:97 telephone-event/48000\r\n"));
    assert!(!text.contains("111"));
    assert!(!text.contains("PCMU"));
    assert!(!text.contains("PCMA"));
}

#[test]
fn pinned_without_dtmf_omits_telephone_event() {
    let menu = CodecMenu::Pinned {
        codec: AudioCodec::Pcmu,
        dtmf: None,
    };
    let text = String::from_utf8(build_sdp_with(
        ip(),
        5004,
        menu,
        MediaDirection::SendRecv,
        0,
    ))
    .unwrap();
    assert!(text.contains("m=audio 5004 RTP/AVP 0\r\n"));
    assert!(!text.contains("telephone-event"));
}

#[test]
fn parse_sdp_extracts_addr_port_and_codec() {
    let sdp = b"v=0\r\nc=IN IP4 192.168.1.100\r\nm=audio 20000 RTP/AVP 0\r\n";
    let media = parse_sdp(sdp).unwrap();
    assert_eq!(media.addr, IpAddr::V4(Ipv4Addr(192, 168, 1, 100)));
    assert_eq!(media.port, 20000);
    assert_eq!(media.payload_type, 0);
    assert_eq!(media.codec, Some(AudioCodec::Pcmu));
    assert_eq!(media.opus_payload_type, None);
    // No rtpmap for telephone-event → no DTMF advertised.
    assert_eq!(media.dtmf(), None);
}

#[test]
fn parse_sdp_extracts_first_codec_when_multiple() {
    let sdp = b"v=0\r\nc=IN IP4 10.0.0.1\r\nm=audio 5000 RTP/AVP 8 0 101\r\n\
                a=rtpmap:101 telephone-event/8000\r\n";
    let media = parse_sdp(sdp).unwrap();
    // First PT in the m= line is still the preferred audio codec — adding
    // telephone-event must not change which codec the consumer thinks the
    // remote wants for voice.
    assert_eq!(media.payload_type, 8); // PCMA is first/preferred
    assert_eq!(media.codec, Some(AudioCodec::Pcma));
    assert_eq!(
        media.dtmf(),
        Some(DtmfSpec {
            payload_type: 101,
            clock_rate: 8000
        })
    );
}

#[test]
fn parse_sdp_resolves_dynamic_opus_pt() {
    // Opus has no static PT — the peer picked 96, and only the
    // rtpmap says what 96 means.
    let sdp = b"v=0\r\nc=IN IP4 10.0.0.1\r\nm=audio 5000 RTP/AVP 96 0 101\r\n\
                a=rtpmap:96 opus/48000/2\r\n\
                a=rtpmap:0 PCMU/8000\r\n\
                a=rtpmap:101 telephone-event/8000\r\n";
    let media = parse_sdp(sdp).unwrap();
    assert_eq!(media.payload_type, 96);
    assert_eq!(media.codec, Some(AudioCodec::Opus { payload_type: 96 }));
    assert_eq!(media.opus_payload_type, Some(96));
}

#[test]
fn parse_sdp_finds_opus_even_when_not_first() {
    // Peer prefers PCMU but also offers Opus. `codec` reports their
    // preference; `opus_payload_type` is what lets our answer side
    // still pick Opus.
    let sdp = b"v=0\r\nc=IN IP4 10.0.0.1\r\nm=audio 5000 RTP/AVP 0 8 111\r\n\
                a=rtpmap:111 opus/48000/2\r\n";
    let media = parse_sdp(sdp).unwrap();
    assert_eq!(media.codec, Some(AudioCodec::Pcmu));
    assert_eq!(media.opus_payload_type, Some(111));
}

#[test]
fn parse_sdp_skips_unknown_dynamic_pt_to_next_known_codec() {
    // First PT is something we don't speak (G.729 at 18); the
    // resolved codec must be the next understood one, while the raw
    // first PT stays observable.
    let sdp = b"v=0\r\nc=IN IP4 10.0.0.1\r\nm=audio 5000 RTP/AVP 18 8 0\r\n\
                a=rtpmap:18 G729/8000\r\n";
    let media = parse_sdp(sdp).unwrap();
    assert_eq!(media.payload_type, 18);
    assert_eq!(media.codec, Some(AudioCodec::Pcma));
}

#[test]
fn parse_sdp_no_known_codec_yields_none() {
    let sdp = b"v=0\r\nc=IN IP4 10.0.0.1\r\nm=audio 5000 RTP/AVP 18\r\n\
                a=rtpmap:18 G729/8000\r\n";
    let media = parse_sdp(sdp).unwrap();
    assert_eq!(media.codec, None);
    assert_eq!(select_codec(&media), None);
}

#[test]
fn round_trip_build_offer_then_parse() {
    let ip = IpAddr::V4(Ipv4Addr(172, 16, 0, 5));
    let sdp = build_sdp_offer(ip, 8000);
    let media = parse_sdp(&sdp).unwrap();
    assert_eq!(media.addr, ip);
    assert_eq!(media.port, 8000);
    // Opus leads our own offer.
    assert_eq!(media.payload_type, OPUS_DEFAULT_PT);
    assert_eq!(
        media.codec,
        Some(AudioCodec::Opus {
            payload_type: OPUS_DEFAULT_PT
        })
    );
    // Both DTMF clocks parse back, and the Opus-matched pick is the
    // 48 kHz one.
    assert_eq!(media.dtmf_events.len(), 2);
    assert_eq!(
        media.dtmf(),
        Some(DtmfSpec {
            payload_type: DTMF_WIDEBAND_DEFAULT_PT,
            clock_rate: 48000
        })
    );
}

#[test]
fn round_trip_pinned_answer_then_parse() {
    // Build the answer shape a callee sends and confirm the caller
    // side parses the negotiated codec back out of it.
    let menu = CodecMenu::Pinned {
        codec: AudioCodec::Opus { payload_type: 111 },
        dtmf: Some(DtmfSpec {
            payload_type: 110,
            clock_rate: 48000,
        }),
    };
    let sdp = build_sdp_with(ip(), 8000, menu, MediaDirection::SendRecv, 0);
    let media = parse_sdp(&sdp).unwrap();
    assert_eq!(media.codec, Some(AudioCodec::Opus { payload_type: 111 }));
    assert_eq!(
        media.dtmf(),
        Some(DtmfSpec {
            payload_type: 110,
            clock_rate: 48000
        })
    );
}

#[test]
fn select_codec_prefers_opus_anywhere_in_the_offer() {
    // Peer's m= line prefers PCMU but lists Opus later — our policy
    // still picks Opus, at the peer's PT.
    let sdp = b"v=0\r\nc=IN IP4 10.0.0.1\r\nm=audio 5000 RTP/AVP 0 8 102\r\n\
                a=rtpmap:102 opus/48000/2\r\n";
    let media = parse_sdp(sdp).unwrap();
    assert_eq!(
        select_codec(&media),
        Some(AudioCodec::Opus { payload_type: 102 })
    );
}

#[test]
fn select_codec_falls_back_to_g711_without_opus() {
    let sdp = b"v=0\r\nc=IN IP4 10.0.0.1\r\nm=audio 5000 RTP/AVP 8 0\r\n";
    let media = parse_sdp(sdp).unwrap();
    // No Opus in the offer → the peer's first G.711, no Opus in the
    // answer.
    assert_eq!(select_codec(&media), Some(AudioCodec::Pcma));
}

#[test]
fn select_dtmf_matches_the_codec_clock() {
    let sdp = b"v=0\r\nc=IN IP4 10.0.0.1\r\nm=audio 5000 RTP/AVP 111 0 101 110\r\n\
                a=rtpmap:111 opus/48000/2\r\n\
                a=rtpmap:101 telephone-event/8000\r\n\
                a=rtpmap:110 telephone-event/48000\r\n";
    let media = parse_sdp(sdp).unwrap();
    // Opus selected → the 48 kHz event entry, even though the 8 kHz
    // one is listed first.
    assert_eq!(
        select_dtmf(&media, AudioCodec::Opus { payload_type: 111 }),
        Some(DtmfSpec {
            payload_type: 110,
            clock_rate: 48000
        })
    );
    // G.711 selected → the 8 kHz entry.
    assert_eq!(
        select_dtmf(&media, AudioCodec::Pcmu),
        Some(DtmfSpec {
            payload_type: 101,
            clock_rate: 8000
        })
    );
}

#[test]
fn select_dtmf_falls_back_to_any_clock() {
    // Peer paired Opus with only an 8 kHz telephone-event (common
    // with older stacks). Better to use it at its own clock than to
    // degrade to SIP INFO.
    let sdp = b"v=0\r\nc=IN IP4 10.0.0.1\r\nm=audio 5000 RTP/AVP 111 101\r\n\
                a=rtpmap:111 opus/48000/2\r\n\
                a=rtpmap:101 telephone-event/8000\r\n";
    let media = parse_sdp(sdp).unwrap();
    assert_eq!(
        select_dtmf(&media, AudioCodec::Opus { payload_type: 111 }),
        Some(DtmfSpec {
            payload_type: 101,
            clock_rate: 8000
        })
    );
}

#[test]
fn parse_sdp_accepts_telephone_event_at_48k() {
    // A peer that pairs Opus with telephone-event/48000 must not be reported as
    // "no DTMF" (which silently degrades to SIP INFO).
    let sdp = b"v=0\r\nc=IN IP4 10.0.0.1\r\nm=audio 5000 RTP/AVP 111 110\r\n\
                a=rtpmap:111 opus/48000/2\r\n\
                a=rtpmap:110 telephone-event/48000\r\n";
    let media = parse_sdp(sdp).unwrap();
    assert_eq!(
        media.dtmf(),
        Some(DtmfSpec {
            payload_type: 110,
            clock_rate: 48000
        })
    );
}

#[test]
fn parse_sdp_records_telephone_event_at_any_clock() {
    // RFC 4733 also defines other clocks (16000 for wideband
    // codecs). We record the advertised clock instead of rejecting
    // it — using the peer's entry at its own clock beats degrading
    // to SIP INFO.
    let sdp = b"v=0\r\nc=IN IP4 10.0.0.1\r\nm=audio 5000 RTP/AVP 0 101\r\n\
                a=rtpmap:0 PCMU/8000\r\n\
                a=rtpmap:101 telephone-event/16000\r\n";
    let media = parse_sdp(sdp).unwrap();
    assert_eq!(
        media.dtmf(),
        Some(DtmfSpec {
            payload_type: 101,
            clock_rate: 16000
        })
    );
}

#[test]
fn parse_sdp_picks_dtmf_pt_from_rtpmap_not_constant() {
    // Some remotes negotiate telephone-event on a different dynamic PT
    // (96-127). The parser must follow the rtpmap, not assume 101.
    let sdp = b"v=0\r\nc=IN IP4 10.0.0.1\r\nm=audio 5000 RTP/AVP 0 96\r\n\
                a=rtpmap:0 PCMU/8000\r\n\
                a=rtpmap:96 telephone-event/8000\r\n";
    let media = parse_sdp(sdp).unwrap();
    assert_eq!(
        media.dtmf(),
        Some(DtmfSpec {
            payload_type: 96,
            clock_rate: 8000
        })
    );
}

#[test]
fn parse_sdp_rejects_telephone_event_not_listed_on_m_line() {
    // rtpmap names PT 101 but the m=audio line doesn't include it →
    // not actually negotiated, must be ignored.
    let sdp = b"v=0\r\nc=IN IP4 10.0.0.1\r\nm=audio 5000 RTP/AVP 0\r\n\
                a=rtpmap:0 PCMU/8000\r\n\
                a=rtpmap:101 telephone-event/8000\r\n";
    let media = parse_sdp(sdp).unwrap();
    assert_eq!(media.dtmf(), None);
}

#[test]
fn parse_sdp_handles_mixed_case_telephone_event() {
    // Some stacks emit "Telephone-Event" or "TELEPHONE-EVENT". Case
    // matching at the rtpmap level shouldn't reject those.
    let sdp = b"v=0\r\nc=IN IP4 10.0.0.1\r\nm=audio 5000 RTP/AVP 0 101\r\n\
                a=rtpmap:0 PCMU/8000\r\n\
                a=rtpmap:101 Telephone-Event/8000\r\n";
    let media = parse_sdp(sdp).unwrap();
    assert_eq!(
        media.dtmf(),
        Some(DtmfSpec {
            payload_type: 101,
            clock_rate: 8000
        })
    );
}

#[test]
fn parse_sdp_handles_telephone_event_without_fmtp() {
    // `a=fmtp:101 0-15` is optional; many stacks omit it. Absence must
    // not gate negotiation.
    let sdp = b"v=0\r\nc=IN IP4 10.0.0.1\r\nm=audio 5000 RTP/AVP 0 101\r\n\
                a=rtpmap:0 PCMU/8000\r\n\
                a=rtpmap:101 telephone-event/8000\r\n";
    let media = parse_sdp(sdp).unwrap();
    assert!(media.dtmf().is_some());
}

#[test]
fn parse_sdp_g711_only_body_still_parses_as_before() {
    let sdp = b"v=0\r\n\
                o=wavekat 0 0 IN IP4 10.0.0.2\r\n\
                s=wavekat-sip\r\n\
                c=IN IP4 10.0.0.2\r\n\
                t=0 0\r\n\
                m=audio 5004 RTP/AVP 0 8 101\r\n\
                a=rtpmap:0 PCMU/8000\r\n\
                a=rtpmap:8 PCMA/8000\r\n\
                a=rtpmap:101 telephone-event/8000\r\n\
                a=fmtp:101 0-15\r\n\
                a=sendrecv\r\n";
    let media = parse_sdp(sdp).unwrap();
    assert_eq!(media.payload_type, 0);
    assert_eq!(media.codec, Some(AudioCodec::Pcmu));
    assert_eq!(media.opus_payload_type, None);
    assert_eq!(
        media.dtmf(),
        Some(DtmfSpec {
            payload_type: 101,
            clock_rate: 8000
        })
    );
}

#[test]
fn parse_sdp_missing_connection_line() {
    let sdp = b"v=0\r\nm=audio 20000 RTP/AVP 0\r\n";
    let err = parse_sdp(sdp).unwrap_err();
    assert!(err.contains("connection address"));
}

#[test]
fn parse_sdp_missing_media_line() {
    let sdp = b"v=0\r\nc=IN IP4 10.0.0.1\r\n";
    let err = parse_sdp(sdp).unwrap_err();
    assert!(err.contains("audio media"));
}

#[test]
fn parse_sdp_invalid_utf8() {
    let sdp = &[0xFF, 0xFE, 0xFD];
    let err = parse_sdp(sdp).unwrap_err();
    assert!(err.contains("UTF-8"));
}

#[test]
fn audio_codec_wire_identities() {
    assert_eq!(AudioCodec::Pcmu.payload_type(), 0);
    assert_eq!(AudioCodec::Pcma.payload_type(), 8);
    assert_eq!(AudioCodec::Opus { payload_type: 96 }.payload_type(), 96);
    assert_eq!(AudioCodec::Pcmu.rtp_clock_rate(), 8000);
    assert_eq!(AudioCodec::Pcma.rtp_clock_rate(), 8000);
    // RFC 7587 §4.1: the Opus RTP clock is 48 kHz no matter what.
    assert_eq!(
        AudioCodec::Opus { payload_type: 96 }.rtp_clock_rate(),
        48000
    );
}

#[test]
fn sdp_bodies_read_back_for_ipv6_peers() {
    let ip = IpAddr::V6(Ipv6Addr(0x2001, 0xdb8, 0, 0, 0, 0, 0, 1));
    let menu = CodecMenu::Pinned {
        codec: AudioCodec::Opus { payload_type: 96 },
        dtmf: None,
    };
    let sdp = build_sdp_with(ip, 4000, menu, MediaDirection::Inactive, u32::MAX);
    let text = String::from_utf8(sdp.clone()).unwrap();
    assert!(text.contains("o=wavekat 0 4294967295 IN IP4 2001:db8::1\r\n"));
    let media = parse_sdp(&sdp).unwrap();
    assert_eq!(media.addr, ip);
    assert_eq!(media.port, 4000);
    assert_eq!(select_codec(&media), Some(AudioCodec::Opus { payload_type: 96 }));
    assert_eq!(media.dtmf(), None);
}

#[test]
fn sdp_errors_quote_what_cannot_be_read() {
    let sdp = b"v=0\r\nc=IN IP4 nowhere\r\nm=audio 20000 RTP/AVP 0\r\n";
    assert!(parse_sdp(sdp).is_err());
    let sdp = b"v=0\r\nc=IN IP4 10.0.0.1\r\nm=audio x RTP/AVP 0\r\n";
    assert!(parse_sdp(sdp).is_err());
}

#[test]
fn g711_at_another_number_is_answered_at_that_number() {
    let body = b"v=0\r\nc=IN IP4 10.0.0.1\r\nm=audio 5000 RTP/AVP 96\r\na=rtpmap:96 PCMU/8000\r\n";
    let offer = parse_sdp(body).unwrap();
    let codec = select_codec(&offer).unwrap();
    assert_eq!(codec, AudioCodec::PcmuAt { payload_type: 96 });
    assert_eq!(codec.payload_type(), 96);
    assert_eq!(codec.rtp_clock_rate(), 8000);
    let menu = CodecMenu::Pinned { codec, dtmf: None };
    let ip = IpAddr::V4(Ipv4Addr(10, 0, 0, 2));
    let answer = build_sdp_with(ip, 6000, menu, MediaDirection::SendRecv, 0);
    let text = String::from_utf8(answer.clone()).unwrap();
    assert!(text.contains("m=audio 6000 RTP/AVP 96\r\na=rtpmap:96 PCMU/8000\r\na=sendrecv\r\n"));
    assert_eq!(parse_sdp(&answer).unwrap().codec, Some(codec));

    let body = b"v=0\r\nc=IN IP4 10.0.0.1\r\nm=audio 5000 RTP/AVP 0 97\r\n\
        a=rtpmap:0 PCMA/8000\r\na=rtpmap:97 PCMA/8000\r\n";
    assert_eq!(parse_sdp(body).unwrap().codec, Some(AudioCodec::PcmaAt { payload_type: 0 }));
    let body = b"v=0\r\nc=IN IP4 10.0.0.1\r\nm=audio 5000 RTP/AVP 8\r\na=rtpmap:8 PCMA/8000\r\n";
    assert_eq!(parse_sdp(body).unwrap().codec, Some(AudioCodec::Pcma));
}
