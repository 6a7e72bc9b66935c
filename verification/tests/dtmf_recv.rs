use wavekat_sip::rtp::dtmf::{
    build_event_payload, build_rtp_dtmf_packet, BurstStep, DtmfBurst, DtmfBurstConfig, DtmfDigit,
};
use wavekat_sip::rtp::dtmf_recv::{
    parse_event_payload, timestamp_newer, DtmfEvent, DtmfReceiver,
};

const PT: u8 = 101;
const SSRC: u32 = 0xDEAD_BEEF;

#[test]
fn parse_round_trips_with_build() {
    for code in 0u8..16 {
        for end in [false, true] {
            let built = build_event_payload(code, end, 10, 800);
            let parsed = parse_event_payload(&built).expect("4 bytes parse");
            assert_eq!(parsed.event, code);
            assert_eq!(parsed.end, end);
            assert_eq!(parsed.volume, 10);
            assert_eq!(parsed.duration_ticks, 800);
        }
    }
}

#[test]
fn parse_extracts_volume_and_extreme_durations() {
    let p = parse_event_payload(&build_event_payload(11, true, 63, u16::MAX)).unwrap();
    assert_eq!(p.event, 11);
    assert!(p.end);
    assert_eq!(p.volume, 63);
    assert_eq!(p.duration_ticks, u16::MAX);

    let p = parse_event_payload(&build_event_payload(0, false, 0, 0)).unwrap();
    assert!(!p.end);
    assert_eq!(p.volume, 0);
    assert_eq!(p.duration_ticks, 0);
}

#[test]
fn dtmf_recv_parse_rejects_short_buffer() {
    assert_eq!(parse_event_payload(&[]), None);
    assert_eq!(parse_event_payload(&[5]), None);
    assert_eq!(parse_event_payload(&[5, 0x0A, 0x00]), None);
}

/// The packets of one burst (3 marker'd/redundant starts, growing
/// continuations, 3 redundant ends).
fn synth_burst(
    digit: DtmfDigit,
    ssrc: u32,
    start_seq: u16,
    timestamp: u32,
    total_ticks: u16,
) -> Vec<[u8; 16]> {
    let event = digit.event_code();
    let mut out = Vec::new();
    let mut seq = start_seq;
    let mut dur = 160u16;
    for i in 0..3 {
        let payload = build_event_payload(event, false, 10, dur);
        out.push(build_rtp_dtmf_packet(
            PT,
            i == 0,
            seq,
            timestamp,
            ssrc,
            payload,
        ));
        seq = seq.wrapping_add(1);
    }
    for _ in 1..total_ticks {
        dur += 160;
        let payload = build_event_payload(event, false, 10, dur);
        out.push(build_rtp_dtmf_packet(
            PT, false, seq, timestamp, ssrc, payload,
        ));
        seq = seq.wrapping_add(1);
    }
    for _ in 0..3 {
        let payload = build_event_payload(event, true, 10, dur);
        out.push(build_rtp_dtmf_packet(
            PT, false, seq, timestamp, ssrc, payload,
        ));
        seq = seq.wrapping_add(1);
    }
    out
}

/// Feed packets and collect every emitted event.
fn feed(rx: &mut DtmfReceiver, packets: &[[u8; 16]]) -> Vec<DtmfEvent> {
    packets.iter().filter_map(|p| rx.push(p)).collect()
}

#[test]
fn full_burst_emits_one_press_and_one_release() {
    // 5 ticks = 100 ms press: 3 + 4 + 3 = 10 packets in, 2 events out.
    let mut rx = DtmfReceiver::new(PT);
    let events = feed(&mut rx, &synth_burst(DtmfDigit::D5, SSRC, 100, 5000, 5));
    assert_eq!(
        events,
        vec![
            DtmfEvent::Pressed {
                digit: DtmfDigit::D5
            },
            DtmfEvent::Released {
                digit: DtmfDigit::D5,
                duration_ticks: 800,
            },
        ]
    );
}

#[test]
fn redundant_start_copies_do_not_repeat_the_press() {
    // Only the three redundant start packets — no continuations or
    // ends yet. Exactly one Pressed.
    let mut rx = DtmfReceiver::new(PT);
    let burst = synth_burst(DtmfDigit::Star, SSRC, 0, 0, 5);
    let events = feed(&mut rx, &burst[..3]);
    assert_eq!(
        events,
        vec![DtmfEvent::Pressed {
            digit: DtmfDigit::Star
        }]
    );
}

#[test]
fn lost_marker_packet_still_registers_the_press() {
    // Drop packet 0 (the only one carrying the marker bit); the
    // redundant copies carry the same (ssrc, ts, event) key.
    let mut rx = DtmfReceiver::new(PT);
    let burst = synth_burst(DtmfDigit::D7, SSRC, 100, 5000, 5);
    let events = feed(&mut rx, &burst[1..]);
    assert_eq!(events.len(), 2);
    assert_eq!(
        events[0],
        DtmfEvent::Pressed {
            digit: DtmfDigit::D7
        }
    );
}

#[test]
fn lost_end_packets_then_next_digit_emits_both_presses() {
    // All three end packets of the first burst are lost; the next
    // digit's start (chained timestamp) must still come through,
    // and the first press must not be re-emitted or "stuck".
    let mut rx = DtmfReceiver::new(PT);
    let mut burst1 = synth_burst(DtmfDigit::D1, SSRC, 0, 0, 5);
    burst1.truncate(burst1.len() - 3); // drop the E=1 trio
    let burst2 = synth_burst(DtmfDigit::D2, SSRC, 7, 800, 5);

    let mut events = feed(&mut rx, &burst1);
    events.extend(feed(&mut rx, &burst2));
    assert_eq!(
        events,
        vec![
            DtmfEvent::Pressed {
                digit: DtmfDigit::D1
            },
            DtmfEvent::Pressed {
                digit: DtmfDigit::D2
            },
            DtmfEvent::Released {
                digit: DtmfDigit::D2,
                duration_ticks: 800,
            },
        ]
    );
}

#[test]
fn interleaved_audio_packets_are_ignored() {
    let mut rx = DtmfReceiver::new(PT);
    let burst = synth_burst(DtmfDigit::Pound, SSRC, 0, 0, 2);

    // A PCMU (PT=0) audio packet on the same socket.
    let mut audio = vec![0u8; 12 + 160];
    audio[0] = 0x80;
    audio[1] = 0; // PT 0 = PCMU
    audio[8..12].copy_from_slice(&0xAAAA_AAAAu32.to_be_bytes());

    let mut events = Vec::new();
    for (i, pkt) in burst.iter().enumerate() {
        events.extend(rx.push(pkt));
        if i % 2 == 0 {
            assert_eq!(rx.push(&audio), None, "audio must not decode");
        }
    }
    assert_eq!(events.len(), 2, "one press + one release despite audio");
}

#[test]
fn wrong_payload_type_is_ignored() {
    // A well-formed telephone-event burst on PT 96 must not decode
    // when the negotiated PT is 101.
    let mut rx = DtmfReceiver::new(PT);
    let event = build_event_payload(5, false, 10, 160);
    let pkt = build_rtp_dtmf_packet(96, true, 0, 0, SSRC, event);
    assert_eq!(rx.push(&pkt), None);
}

#[test]
fn non_digit_event_codes_are_ignored() {
    // Event 16 = flash-hook: valid RFC 4733, not a DTMF digit.
    let mut rx = DtmfReceiver::new(PT);
    let event = build_event_payload(16, false, 10, 160);
    let pkt = build_rtp_dtmf_packet(PT, true, 0, 0, SSRC, event);
    assert_eq!(rx.push(&pkt), None);
}

#[test]
fn malformed_packets_are_ignored() {
    let mut rx = DtmfReceiver::new(PT);
    assert_eq!(rx.push(&[]), None);
    assert_eq!(rx.push(&[0u8; 11]), None, "short of an RTP header");
    // Valid header, truncated event payload (2 of 4 bytes).
    let full = build_rtp_dtmf_packet(PT, true, 0, 0, SSRC, [5, 0x0A, 0, 160]);
    assert_eq!(rx.push(&full[..14]), None);
}

#[test]
fn two_back_to_back_digits_emit_two_presses() {
    // "5" then "7" with chained seq/timestamp.
    let mut rx = DtmfReceiver::new(PT);
    let burst1 = synth_burst(DtmfDigit::D5, SSRC, 0, 0, 2); // 2 ticks → next ts 320
    let burst2 = synth_burst(DtmfDigit::D7, SSRC, 7, 320, 2);

    let mut events = feed(&mut rx, &burst1);
    events.extend(feed(&mut rx, &burst2));
    assert_eq!(
        events,
        vec![
            DtmfEvent::Pressed {
                digit: DtmfDigit::D5
            },
            DtmfEvent::Released {
                digit: DtmfDigit::D5,
                duration_ticks: 320,
            },
            DtmfEvent::Pressed {
                digit: DtmfDigit::D7
            },
            DtmfEvent::Released {
                digit: DtmfDigit::D7,
                duration_ticks: 320,
            },
        ]
    );
}

#[test]
fn out_of_order_straggler_from_previous_event_is_dropped() {
    let mut rx = DtmfReceiver::new(PT);
    let burst1 = synth_burst(DtmfDigit::D5, SSRC, 0, 0, 2);
    let burst2 = synth_burst(DtmfDigit::D7, SSRC, 7, 320, 2);

    assert_eq!(feed(&mut rx, &burst1).len(), 2);
    // Second digit starts...
    assert_eq!(
        rx.push(&burst2[0]),
        Some(DtmfEvent::Pressed {
            digit: DtmfDigit::D7
        })
    );
    // ...then a late duplicate end of the *first* digit arrives.
    let straggler = burst1.last().unwrap();
    assert_eq!(rx.push(straggler), None, "straggler must not re-press 5");
    // The second digit's own end still comes through.
    let events = feed(&mut rx, &burst2[1..]);
    assert_eq!(
        events,
        vec![DtmfEvent::Released {
            digit: DtmfDigit::D7,
            duration_ticks: 320,
        }]
    );
}

#[test]
fn ssrc_change_starts_a_fresh_stream() {
    // After a re-INVITE the remote may pick a new SSRC with an
    // unrelated (possibly "older") timestamp; that must not be
    // mistaken for a straggler.
    let mut rx = DtmfReceiver::new(PT);
    assert_eq!(
        feed(&mut rx, &synth_burst(DtmfDigit::D9, SSRC, 0, 90_000, 2)).len(),
        2
    );
    let events = feed(&mut rx, &synth_burst(DtmfDigit::D3, 0x1234_5678, 0, 100, 2));
    assert_eq!(
        events[0],
        DtmfEvent::Pressed {
            digit: DtmfDigit::D3
        }
    );
    assert_eq!(events.len(), 2);
}

#[test]
fn first_seen_end_packet_still_reports_the_press() {
    // Every start and continuation packet lost — only the end trio
    // arrives. The press is the actionable signal, so the first
    // end packet reports Pressed and a redundant copy completes it
    // with Released.
    let mut rx = DtmfReceiver::new(PT);
    let burst = synth_burst(DtmfDigit::D8, SSRC, 0, 0, 5);
    let ends = &burst[burst.len() - 3..];
    let events = feed(&mut rx, ends);
    assert_eq!(
        events,
        vec![
            DtmfEvent::Pressed {
                digit: DtmfDigit::D8
            },
            DtmfEvent::Released {
                digit: DtmfDigit::D8,
                duration_ticks: 800,
            },
        ]
    );
}

#[test]
fn timestamp_newer_handles_wraparound() {
    assert!(timestamp_newer(1, 0));
    assert!(!timestamp_newer(0, 1));
    assert!(!timestamp_newer(5, 5));
    // Wrap: 100 is newer than (u32::MAX - 100).
    assert!(timestamp_newer(100, u32::MAX - 100));
    assert!(!timestamp_newer(u32::MAX - 100, 100));
}

#[test]
fn round_trips_with_send_dtmf_burst_over_loopback() {
    let cfg = DtmfBurstConfig {
        payload_type: PT,
        ssrc: SSRC,
        initial_seq: 100,
        initial_timestamp: 5000,
        hold_duration_ms: 100,
        volume_dbm0: 10,
    };
    let mut burst = DtmfBurst::new(cfg, DtmfDigit::D5);
    let mut rx = DtmfReceiver::new(PT);
    let mut events = Vec::new();
    while let BurstStep::Send { packet, .. } = burst.step() {
        events.extend(rx.push(&packet));
    }
    assert_eq!(
        events,
        vec![
            DtmfEvent::Pressed {
                digit: DtmfDigit::D5
            },
            DtmfEvent::Released {
                digit: DtmfDigit::D5,
                duration_ticks: 800,
            },
        ]
    );
}

#[test]
fn packets_in_any_order_give_presses_that_move_forward() {
    let mut packets = Vec::new();
    let digits = [DtmfDigit::D1, DtmfDigit::D2, DtmfDigit::Star];
    for (i, digit) in digits.into_iter().enumerate() {
        let timestamp = 0xFFFF_FF00u32.wrapping_add(1000 * i as u32);
        packets.extend(synth_burst(digit, 9, 0, timestamp, 4));
    }
    let mut order: u64 = 1;
    for _ in 0..50 {
        let mut rx = DtmfReceiver::new(PT);
        let mut pressed: Vec<u32> = Vec::new();
        let mut open = None;
        for _ in 0..60 {
            order = order.wrapping_mul(6364136223846793005).wrapping_add(1442695040888963407);
            let packet = packets[(order >> 33) as usize % packets.len()];
            let stamp = u32::from_be_bytes([packet[4], packet[5], packet[6], packet[7]]);
            match rx.push(&packet) {
                Some(DtmfEvent::Pressed { digit }) => {
                    if let Some(last) = pressed.last() {
                        assert!(timestamp_newer(stamp, *last));
                    }
                    pressed.push(stamp);
                    open = Some(digit);
                }
                Some(DtmfEvent::Released { digit, .. }) => {
                    assert_eq!(open.take(), Some(digit));
                    assert_eq!(pressed.last(), Some(&stamp));
                }
                None => {}
            }
        }
    }
}
