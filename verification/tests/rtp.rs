use wavekat_sip::rtp::{
    payload_type_name, push_header, RtpCounter, RtpHeader, RtpReport, RtpSendConfig, RtpSender,
};

fn make_packet(version: u8, pt: u8, seq: u16, ts: u32, ssrc: u32) -> Vec<u8> {
    let mut buf = vec![0u8; 12];
    buf[0] = (version << 6) & 0xC0; // version, no padding/ext/csrc
    buf[1] = pt & 0x7F; // no marker, payload type
    buf[2..4].copy_from_slice(&seq.to_be_bytes());
    buf[4..8].copy_from_slice(&ts.to_be_bytes());
    buf[8..12].copy_from_slice(&ssrc.to_be_bytes());
    buf
}

#[test]
fn rtp_parse_minimum_header() {
    let buf = make_packet(2, 0, 1234, 5678, 0xDEADBEEF);
    let h = RtpHeader::parse(&buf).unwrap();
    assert_eq!(h.version, 2);
    assert_eq!(h.payload_type, 0);
    assert_eq!(h.sequence, 1234);
    assert_eq!(h.timestamp, 5678);
    assert_eq!(h.ssrc, 0xDEADBEEF);
    assert_eq!(h.csrc_count, 0);
    assert_eq!(h.header_len(), 12);
}

#[test]
fn rtp_parse_rejects_short_buffer() {
    let buf = vec![0u8; 11];
    assert!(RtpHeader::parse(&buf).is_none());
}

#[test]
fn rtp_parse_rejects_wrong_version() {
    let buf = make_packet(1, 0, 0, 0, 0);
    assert!(RtpHeader::parse(&buf).is_none());
}

#[test]
fn rtp_parse_extracts_marker_bit() {
    let mut buf = make_packet(2, 8, 0, 0, 0);
    buf[1] |= 0x80; // set marker
    let h = RtpHeader::parse(&buf).unwrap();
    assert!(h.marker);
    assert_eq!(h.payload_type, 8); // PCMA
}

#[test]
fn rtp_header_len_accounts_for_csrcs() {
    let mut buf = make_packet(2, 0, 0, 0, 0);
    // Set CSRC count to 3, then extend buffer so length check passes.
    buf[0] |= 0x03;
    buf.extend(std::iter::repeat_n(0u8, 12));
    let h = RtpHeader::parse(&buf).unwrap();
    assert_eq!(h.csrc_count, 3);
    assert_eq!(h.header_len(), 24);
}

#[test]
fn rtp_payload_type_names() {
    assert_eq!(payload_type_name(0), "PCMU");
    assert_eq!(payload_type_name(8), "PCMA");
    assert_eq!(payload_type_name(127), "unknown");
}

#[test]
fn mod_parse_minimum_header() {
    let buf = make_packet(2, 0, 1234, 5678, 0xDEADBEEF);
    let h = RtpHeader::parse(&buf).unwrap();
    assert_eq!(h.version, 2);
    assert_eq!(h.payload_type, 0);
    assert_eq!(h.sequence, 1234);
    assert_eq!(h.timestamp, 5678);
    assert_eq!(h.ssrc, 0xDEADBEEF);
    assert_eq!(h.csrc_count, 0);
    assert_eq!(h.header_len(), 12);
}

#[test]
fn mod_parse_rejects_short_buffer() {
    let buf = vec![0u8; 11];
    assert!(RtpHeader::parse(&buf).is_none());
}

#[test]
fn mod_parse_rejects_wrong_version() {
    let buf = make_packet(1, 0, 0, 0, 0);
    assert!(RtpHeader::parse(&buf).is_none());
}

#[test]
fn mod_parse_extracts_marker_bit() {
    let mut buf = make_packet(2, 8, 0, 0, 0);
    buf[1] |= 0x80; // set marker
    let h = RtpHeader::parse(&buf).unwrap();
    assert!(h.marker);
    assert_eq!(h.payload_type, 8); // PCMA
}

#[test]
fn mod_header_len_accounts_for_csrcs() {
    let mut buf = make_packet(2, 0, 0, 0, 0);
    // Set CSRC count to 3, then extend buffer so length check passes.
    buf[0] |= 0x03;
    buf.extend(std::iter::repeat_n(0u8, 12));
    let h = RtpHeader::parse(&buf).unwrap();
    assert_eq!(h.csrc_count, 3);
    assert_eq!(h.header_len(), 24);
}

#[test]
fn mod_payload_type_names() {
    assert_eq!(payload_type_name(0), "PCMU");
    assert_eq!(payload_type_name(8), "PCMA");
    assert_eq!(payload_type_name(127), "unknown");
}

#[test]
fn send_loop_packetizes_payloads_into_rtp() {
    let mut sender = RtpSender::new(RtpSendConfig {
        payload_type: 0,
        ssrc: 0xCAFEBABE,
        initial_seq: 1000,
        initial_timestamp: 5000,
        samples_per_frame: 160,
    });
    let payload: Vec<u8> = (0..160).map(|i| i as u8).collect();
    let packet = sender.packet(&payload);
    assert_eq!(packet.len(), 12 + 160);

    let header = RtpHeader::parse(&packet).expect("parses as RTP");
    assert_eq!(header.version, 2);
    assert_eq!(header.payload_type, 0);
    assert_eq!(header.sequence, 1000);
    assert_eq!(header.timestamp, 5000);
    assert_eq!(header.ssrc, 0xCAFEBABE);
    assert_eq!(header.csrc_count, 0);
    assert!(!header.marker);
    assert!(!header.padding);
    assert!(!header.extension);

    assert_eq!(&packet[12..], &payload[..]);
}

#[test]
fn send_loop_advances_seq_and_timestamp_per_packet() {
    let mut sender = RtpSender::new(RtpSendConfig {
        payload_type: 8,
        ssrc: 0xDEADBEEF,
        initial_seq: u16::MAX,
        initial_timestamp: 100,
        samples_per_frame: 160,
    });
    let mut headers = Vec::new();
    for i in 0..3u8 {
        headers.push(RtpHeader::parse(&sender.packet(&[i; 4])).unwrap());
    }

    assert_eq!(headers[0].sequence, u16::MAX);
    assert_eq!(headers[1].sequence, 0);
    assert_eq!(headers[2].sequence, 1);

    assert_eq!(headers[0].timestamp, 100);
    assert_eq!(headers[1].timestamp, 260);
    assert_eq!(headers[2].timestamp, 420);

    for h in &headers {
        assert_eq!(h.payload_type, 8);
        assert_eq!(h.ssrc, 0xDEADBEEF);
    }
}

#[test]
fn a_written_header_reads_back() {
    let mut out = Vec::new();
    push_header(&mut out, 111, true, 65_535, 0xFFFF_FFFE, 7);
    let h = RtpHeader::parse(&out).unwrap();
    assert_eq!(out.len(), 12);
    assert!(h.marker);
    assert_eq!(h.payload_type, 111);
    assert_eq!(h.sequence, 65_535);
    assert_eq!(h.timestamp, 0xFFFF_FFFE);
    assert_eq!(h.ssrc, 7);
}

#[test]
fn every_hundredth_packet_is_a_milestone() {
    let mut counter = RtpCounter::new();
    let mut packet = make_packet(2, 0, 5, 6, 7);
    packet.extend([1, 2, 3]);
    assert_eq!(counter.datagram(&[0; 4]), RtpReport::NotRtp);
    for i in 1..=200u64 {
        match counter.datagram(&packet) {
            RtpReport::Packet { header, payload_len, milestone } => {
                assert_eq!(header.ssrc, 7);
                assert_eq!(payload_len, 3);
                assert_eq!(milestone, i % 100 == 0);
            }
            RtpReport::NotRtp => panic!("an RTP packet was not recognised"),
        }
    }
    assert_eq!(counter.count, 200);
}

#[test]
fn a_packet_off_the_wire() {
    let packet = [
        0x80, 0x00, 0x04, 0xD2, // V=2, PT=0 (PCMU), seq=1234
        0x00, 0x00, 0x16, 0x2E, // timestamp
        0xDE, 0xAD, 0xBE, 0xEF, // SSRC
    ];
    let header = RtpHeader::parse(&packet).unwrap();
    assert_eq!(header.payload_type, 0);
    assert_eq!(header.sequence, 1234);
    assert_eq!(header.timestamp, 5678);
    assert_eq!(header.header_len(), 12);
}
