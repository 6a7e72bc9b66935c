use wavekat_sip::rtp::dtmf::{
    build_event_payload, build_rtp_dtmf_packet, BurstStep, DtmfBurst, DtmfBurstConfig, DtmfDigit,
};

#[test]
fn digit_from_char_round_trips() {
    for d in [
        DtmfDigit::D0,
        DtmfDigit::D1,
        DtmfDigit::D2,
        DtmfDigit::D3,
        DtmfDigit::D4,
        DtmfDigit::D5,
        DtmfDigit::D6,
        DtmfDigit::D7,
        DtmfDigit::D8,
        DtmfDigit::D9,
        DtmfDigit::Star,
        DtmfDigit::Pound,
        DtmfDigit::A,
        DtmfDigit::B,
        DtmfDigit::C,
        DtmfDigit::D,
    ] {
        assert_eq!(DtmfDigit::from_char(d.as_char()), Some(d), "digit {d:?}");
    }
}

#[test]
fn digit_event_codes_match_rfc_4733() {
    // Spot-check the spec assignments — these are wire-visible and a
    // typo would scramble every IVR's "you pressed 7" response.
    assert_eq!(DtmfDigit::D0.event_code(), 0);
    assert_eq!(DtmfDigit::D9.event_code(), 9);
    assert_eq!(DtmfDigit::Star.event_code(), 10);
    assert_eq!(DtmfDigit::Pound.event_code(), 11);
    assert_eq!(DtmfDigit::A.event_code(), 12);
    assert_eq!(DtmfDigit::D.event_code(), 15);
}

#[test]
fn digit_from_char_rejects_non_dtmf() {
    for c in [' ', 'e', 'E', '+', '-', '\n'] {
        assert_eq!(DtmfDigit::from_char(c), None, "should reject {c:?}");
    }
}

#[test]
fn digit_from_char_accepts_letters_case_insensitive() {
    assert_eq!(DtmfDigit::from_char('a'), Some(DtmfDigit::A));
    assert_eq!(DtmfDigit::from_char('A'), Some(DtmfDigit::A));
    assert_eq!(DtmfDigit::from_char('d'), Some(DtmfDigit::D));
    assert_eq!(DtmfDigit::from_char('D'), Some(DtmfDigit::D));
}

#[test]
fn event_payload_byte_layout() {
    // event=5, E=0, volume=10, duration=160 — typical first packet
    // of pressing "5".
    let p = build_event_payload(5, false, 10, 160);
    assert_eq!(p[0], 5);
    // 0x0A = 10; E and R both 0.
    assert_eq!(p[1], 0x0A);
    assert_eq!(p[2..4], 160u16.to_be_bytes());

    // E bit set on the last packet of a burst.
    let end = build_event_payload(5, true, 10, 1280);
    // E bit (0x80) plus volume 10.
    assert_eq!(end[1], 0x8A);
    assert_eq!(end[2..4], 1280u16.to_be_bytes());
}

#[test]
fn event_payload_clamps_volume_to_6_bits() {
    // A consumer passing volume=100 (out of the 0-63 range) must not
    // bleed into the E or R bits — the volume field is 6 bits.
    let p = build_event_payload(5, false, 0xFF, 160);
    // Top two bits must be zero (E=0, R=0); bottom six = volume.
    assert_eq!(p[1] & 0xC0, 0x00);
    assert_eq!(p[1] & 0x3F, 0x3F);
}

#[test]
fn rtp_dtmf_packet_header_shape() {
    // Single packet build: V=2, marker set, PT=101, seq/ts/ssrc as
    // given, event payload appended verbatim.
    let event = build_event_payload(5, false, 10, 160);
    let pkt = build_rtp_dtmf_packet(101, true, 1000, 12345, 0xCAFE_BABE, event);

    assert_eq!(pkt[0], 0x80); // V=2, P=0, X=0, CC=0
    assert_eq!(pkt[1], 0x80 | 101); // marker | PT 101
    assert_eq!(&pkt[2..4], &1000u16.to_be_bytes());
    assert_eq!(&pkt[4..8], &12345u32.to_be_bytes());
    assert_eq!(&pkt[8..12], &0xCAFE_BABEu32.to_be_bytes());
    assert_eq!(&pkt[12..16], &event);
}

/// Runs a burst to its end: the packets with the pauses before them, and where the stream stands.
fn run_burst(config: DtmfBurstConfig, digit: DtmfDigit) -> (Vec<(u32, Vec<u8>)>, u16, u32) {
    let mut burst = DtmfBurst::new(config, digit);
    let mut packets = Vec::new();
    loop {
        match burst.step() {
            BurstStep::Send { pause_ms, packet } => packets.push((pause_ms, packet.to_vec())),
            BurstStep::Done { next_seq, next_timestamp } => {
                return (packets, next_seq, next_timestamp);
            }
        }
    }
}

#[test]
fn burst_packet_count_and_durations() {
    let cfg = DtmfBurstConfig {
        payload_type: 101,
        ssrc: 0xDEAD_BEEF,
        initial_seq: 100,
        initial_timestamp: 5000,
        hold_duration_ms: 100,
        volume_dbm0: 10,
    };
    let (sent, next_seq, next_ts) = run_burst(cfg, DtmfDigit::D5);
    assert_eq!(sent.len(), 10);
    let mut packets: Vec<[u8; 4]> = Vec::new();
    let mut markers: Vec<bool> = Vec::new();
    let mut seqs: Vec<u16> = Vec::new();
    for (_, buf) in &sent {
        assert_eq!(buf.len(), 16, "DTMF packets are 12 + 4 bytes");
        markers.push(buf[1] & 0x80 != 0);
        seqs.push(u16::from_be_bytes([buf[2], buf[3]]));
        let mut payload = [0u8; 4];
        payload.copy_from_slice(&buf[12..16]);
        packets.push(payload);
    }

    assert_eq!(next_seq, 100 + 10);
    assert_eq!(next_ts, 5000 + 800);

    for (i, s) in seqs.iter().enumerate() {
        assert_eq!(*s, 100 + i as u16, "packet {i}");
    }

    assert!(markers[0], "marker on first packet");
    for (i, m) in markers.iter().enumerate().skip(1) {
        assert!(!m, "no marker on packet {i}");
    }

    for p in &packets {
        assert_eq!(p[0], 5);
    }

    for p in &packets[0..3] {
        assert_eq!(p[1] & 0x80, 0, "E bit clear on initial");
        assert_eq!(u16::from_be_bytes([p[2], p[3]]), 160);
    }

    let expected_durations = [320u16, 480, 640, 800];
    for (p, &dur) in packets[3..7].iter().zip(expected_durations.iter()) {
        assert_eq!(p[1] & 0x80, 0, "E bit clear on continuation");
        assert_eq!(u16::from_be_bytes([p[2], p[3]]), dur);
    }

    for p in &packets[7..10] {
        assert_eq!(p[1] & 0x80, 0x80, "E bit set on end packet");
        assert_eq!(u16::from_be_bytes([p[2], p[3]]), 800);
    }
}

#[test]
fn chained_bursts_keep_timestamp_monotonic() {
    let cfg1 = DtmfBurstConfig {
        payload_type: 101,
        ssrc: 0xCAFE_F00D,
        initial_seq: 0,
        initial_timestamp: 0,
        hold_duration_ms: 40,
        volume_dbm0: 10,
    };
    let (sent1, s1, t1) = run_burst(cfg1, DtmfDigit::D5);
    assert_eq!(s1, 7);
    assert_eq!(t1, 320);

    let cfg2 = DtmfBurstConfig {
        initial_seq: s1,
        initial_timestamp: t1,
        ..cfg1
    };
    let (sent2, s2, t2) = run_burst(cfg2, DtmfDigit::D7);
    assert_eq!(s2, 14);
    assert_eq!(t2, 640);
    assert_eq!(sent1.len() + sent2.len(), 14);
}

#[test]
fn the_hold_rounds_to_the_nearest_packet() {
    let cfg = DtmfBurstConfig {
        payload_type: 101,
        ssrc: 1,
        initial_seq: 0,
        initial_timestamp: 0,
        hold_duration_ms: 29,
        volume_dbm0: 10,
    };
    assert_eq!(run_burst(cfg, DtmfDigit::D1).2, 160);
    let cfg = DtmfBurstConfig { hold_duration_ms: 31, ..cfg };
    assert_eq!(run_burst(cfg, DtmfDigit::D1).2, 320);
    let cfg = DtmfBurstConfig { hold_duration_ms: 0, ..cfg };
    assert_eq!(run_burst(cfg, DtmfDigit::D1).2, 160);
}

#[test]
fn digits_have_codes_of_their_own() {
    for a in 0u8..16 {
        let digit = DtmfDigit::from_event_code(a).unwrap();
        assert_eq!(digit.event_code(), a);
        for b in 0..a {
            assert_ne!(DtmfDigit::from_event_code(b).unwrap().as_char(), digit.as_char());
        }
    }
    assert_eq!(DtmfDigit::from_event_code(16), None);
}
