//! RTP header parsing, packetization of outgoing payloads, and RFC 4733 DTMF
//! (`telephone-event`) in both directions.
//!
//! The module stops at the wire: audio coding, jitter buffering and pacing belong to the
//! consumer.

pub mod dtmf;
pub mod dtmf_recv;

use vstd::prelude::*;

verus! {

/// A 16-bit number in network byte order.
pub open spec fn be16(n: u16) -> Seq<u8> {
    seq![(n / 256) as u8, (n % 256) as u8]
}

/// A 32-bit number in network byte order.
pub open spec fn be32(n: u32) -> Seq<u8> {
    seq![
        (n / 0x100_0000) as u8,
        (n / 0x1_0000 % 256) as u8,
        (n / 0x100 % 256) as u8,
        (n % 256) as u8,
    ]
}

/// The 16-bit number that two bytes in network byte order stand for.
pub open spec fn read16(b: Seq<u8>, i: int) -> u16 {
    (b[i] * 256 + b[i + 1]) as u16
}

/// The 32-bit number that four bytes in network byte order stand for.
pub open spec fn read32(b: Seq<u8>, i: int) -> u32 {
    (b[i] * 0x100_0000 + b[i + 1] * 0x1_0000 + b[i + 2] * 0x100 + b[i + 3]) as u32
}

/// The number `n` modulo 2 to the power of 16.
pub open spec fn wrap16(n: int) -> u16 {
    (n % 0x1_0000) as u16
}

/// The number `n` modulo 2 to the power of 32.
pub open spec fn wrap32(n: int) -> u32 {
    (n % 0x1_0000_0000) as u32
}

/// Parsed RTP packet header (RFC 3550, 12 bytes minimum).
#[derive(Debug, Clone, Copy, PartialEq, Eq, Structural)]
pub struct RtpHeader {
    pub version: u8,
    pub padding: bool,
    pub extension: bool,
    pub csrc_count: u8,
    pub marker: bool,
    pub payload_type: u8,
    pub sequence: u16,
    pub timestamp: u32,
    pub ssrc: u32,
}

/// The header that the packet `buf` starts with; `None` for fewer than twelve bytes or a
/// version other than 2.
pub open spec fn header_of(buf: Seq<u8>) -> Option<RtpHeader> {
    if buf.len() < 12 || buf[0] / 64 != 2 {
        None
    } else {
        Some(
            RtpHeader {
                version: 2,
                padding: buf[0] / 32 % 2 == 1,
                extension: buf[0] / 16 % 2 == 1,
                csrc_count: (buf[0] % 16) as u8,
                marker: buf[1] / 128 == 1,
                payload_type: (buf[1] % 128) as u8,
                sequence: read16(buf, 2),
                timestamp: read32(buf, 4),
                ssrc: read32(buf, 8),
            },
        )
    }
}

fn be_u16(buf: &[u8], i: usize) -> (res: u16)
    requires
        i + 2 <= buf@.len(),
    ensures
        res == read16(buf@, i as int),
{
    buf[i] as u16 * 256 + buf[i + 1] as u16
}

fn be_u32(buf: &[u8], i: usize) -> (res: u32)
    requires
        i + 4 <= buf@.len(),
    ensures
        res == read32(buf@, i as int),
{
    buf[i] as u32 * 0x100_0000 + buf[i + 1] as u32 * 0x1_0000 + buf[i + 2] as u32 * 0x100 + buf[i
        + 3] as u32
}

impl RtpHeader {
    /// Total header length in bytes.
    pub open spec fn length(self) -> nat {
        (12 + 4 * self.csrc_count) as nat
    }

    /// Parses an RTP header from a buffer. Returns `None` if the buffer is too short or the
    /// version field is not 2.
    pub fn parse(buf: &[u8]) -> (res: Option<Self>)
        ensures
            res == header_of(buf@),
    {
        if buf.len() < 12 {
            return None;
        }
        let version: u8 = buf[0] / 64;
        if version != 2 {
            return None;
        }
        Some(
            RtpHeader {
                version,
                padding: buf[0] / 32 % 2 == 1,
                extension: buf[0] / 16 % 2 == 1,
                csrc_count: buf[0] % 16,
                marker: buf[1] / 128 == 1,
                payload_type: buf[1] % 128,
                sequence: be_u16(buf, 2),
                timestamp: be_u32(buf, 4),
                ssrc: be_u32(buf, 8),
            },
        )
    }

    /// Total header length in bytes (12 + 4 * CSRC count).
    pub fn header_len(&self) -> (res: usize)
        ensures
            res == self.length(),
    {
        12 + 4 * self.csrc_count as usize
    }
}

/// The twelve header bytes of a packet without padding, extension or contributing sources.
pub open spec fn header_bytes(payload_type: u8, marker: bool, seq: u16, ts: u32, ssrc: u32) -> Seq<
    u8,
> {
    let second = (if marker {
        128int
    } else {
        0
    } + payload_type % 128) as u8;
    seq![128u8, second] + be16(seq) + be32(ts) + be32(ssrc)
}

/// Appends the twelve header bytes of a packet to `out`.
pub fn push_header(
    out: &mut Vec<u8>,
    payload_type: u8,
    marker: bool,
    seq: u16,
    timestamp: u32,
    ssrc: u32,
)
    ensures
        final(out)@ == old(out)@ + header_bytes(payload_type, marker, seq, timestamp, ssrc),
{
    out.push(128);
    out.push(if marker {
        128 + payload_type % 128
    } else {
        payload_type % 128
    });
    out.push((seq / 256) as u8);
    out.push((seq % 256) as u8);
    out.push((timestamp / 0x100_0000) as u8);
    out.push((timestamp / 0x1_0000 % 256) as u8);
    out.push((timestamp / 0x100 % 256) as u8);
    out.push((timestamp % 256) as u8);
    out.push((ssrc / 0x100_0000) as u8);
    out.push((ssrc / 0x1_0000 % 256) as u8);
    out.push((ssrc / 0x100 % 256) as u8);
    out.push((ssrc % 256) as u8);
    assert(out@ == old(out)@ + header_bytes(payload_type, marker, seq, timestamp, ssrc));
}

/// Parsing a packet that was built here gives back the payload type, marker, sequence number,
/// timestamp and source it was built with.
pub proof fn header_reads_back(
    payload_type: u8,
    marker: bool,
    seq: u16,
    ts: u32,
    ssrc: u32,
    payload: Seq<u8>,
)
    ensures
        header_of(header_bytes(payload_type, marker, seq, ts, ssrc) + payload) == Some(
            RtpHeader {
                version: 2,
                padding: false,
                extension: false,
                csrc_count: 0,
                marker,
                payload_type: (payload_type % 128) as u8,
                sequence: seq,
                timestamp: ts,
                ssrc,
            },
        ),
        (header_bytes(payload_type, marker, seq, ts, ssrc) + payload).skip(12) == payload,
{
    let h = header_bytes(payload_type, marker, seq, ts, ssrc);
    let b = h + payload;
    assert(h.len() == 12);
    assert(b[0] == 128u8);
    assert(read16(b, 2) == seq);
    assert(read32(b, 4) == ts);
    assert(read32(b, 8) == ssrc);
    assert(b.skip(12) == payload);
}

/// Human-friendly name of a static RTP payload type.
pub open spec fn static_name(pt: u8) -> Seq<char> {
    if pt == 0 {
        "PCMU"@
    } else if pt == 8 {
        "PCMA"@
    } else {
        "unknown"@
    }
}

/// Human-friendly name of a static RTP payload type.
pub fn payload_type_name(pt: u8) -> (res: &'static str)
    ensures
        res@ == static_name(pt),
{
    match pt {
        0 => "PCMU",
        8 => "PCMA",
        _ => "unknown",
    }
}

/// What one received datagram turned out to be.
#[derive(Debug, Clone, Copy, PartialEq, Eq, Structural)]
pub enum RtpReport {
    /// An RTP packet.
    Packet {
        /// Its header.
        header: RtpHeader,
        /// How many bytes follow the header.
        payload_len: usize,
        /// Whether the number of packets so far is a multiple of a hundred.
        milestone: bool,
    },
    /// Something that is not RTP.
    NotRtp,
}

/// Counts the RTP packets among the datagrams that arrive on a socket.
#[derive(Debug, Clone, Copy, PartialEq, Eq, Structural)]
pub struct RtpCounter {
    /// How many RTP packets have arrived.
    pub count: u64,
}

impl RtpCounter {
    /// A counter at zero.
    pub fn new() -> (res: Self)
        ensures
            res.count == 0,
    {
        RtpCounter { count: 0 }
    }

    /// Takes in one datagram.
    pub fn datagram(&mut self, buf: &[u8]) -> (res: RtpReport)
        requires
            old(self).count < u64::MAX,
        ensures
            match header_of(buf@) {
                Some(header) => {
                    &&& final(self).count == old(self).count + 1
                    &&& res == RtpReport::Packet {
                        header,
                        payload_len: if buf@.len() > header.length() {
                            (buf@.len() - header.length()) as usize
                        } else {
                            0
                        },
                        milestone: final(self).count % 100 == 0,
                    }
                },
                None => final(self).count == old(self).count && res == RtpReport::NotRtp,
            },
    {
        match RtpHeader::parse(buf) {
            Some(header) => {
                self.count = self.count + 1;
                let payload_len: usize = if buf.len() > header.header_len() {
                    buf.len() - header.header_len()
                } else {
                    0
                };
                RtpReport::Packet { header, payload_len, milestone: self.count % 100 == 0 }
            },
            None => RtpReport::NotRtp,
        }
    }
}

/// Initial RTP state of an outgoing stream. For a fresh call, pick a new `ssrc` and fresh
/// sequence number and timestamp.
#[derive(Debug, Clone, Copy)]
pub struct RtpSendConfig {
    /// Static RTP payload type: 0 for PCMU, 8 for PCMA.
    pub payload_type: u8,
    /// Synchronization source, one per call.
    pub ssrc: u32,
    /// Initial RTP sequence number.
    pub initial_seq: u16,
    /// Initial RTP timestamp, in the clock of the codec.
    pub initial_timestamp: u32,
    /// How far the timestamp moves per packet: 160 for 20 ms of G.711.
    pub samples_per_frame: u32,
}

/// The state of an outgoing stream: sequence number and timestamp of the next packet.
#[derive(Debug, Clone, Copy)]
pub struct RtpSender {
    /// What stays fixed over the stream.
    pub config: RtpSendConfig,
    /// Sequence number of the next packet.
    pub seq: u16,
    /// Timestamp of the next packet.
    pub timestamp: u32,
}

impl RtpSender {
    /// The state of the stream after `n` packets.
    pub open spec fn after(config: RtpSendConfig, n: nat) -> Self {
        RtpSender {
            config,
            seq: wrap16(config.initial_seq + n),
            timestamp: wrap32(config.initial_timestamp + n * config.samples_per_frame),
        }
    }

    /// A stream that has sent nothing yet.
    pub fn new(config: RtpSendConfig) -> (res: Self)
        ensures
            res == RtpSender::after(config, 0),
    {
        RtpSender { config, seq: config.initial_seq, timestamp: config.initial_timestamp }
    }

    /// The next packet, with `payload`. The sequence number moves on by one and the timestamp
    /// by `samples_per_frame`, both wrapping; the marker bit stays clear.
    pub fn packet(&mut self, payload: &[u8]) -> (res: Vec<u8>)
        ensures
            res@ == header_bytes(
                old(self).config.payload_type,
                false,
                old(self).seq,
                old(self).timestamp,
                old(self).config.ssrc,
            ) + payload@,
            final(self).config == old(self).config,
            final(self).seq == wrap16(old(self).seq + 1),
            final(self).timestamp == wrap32(
                old(self).timestamp + old(self).config.samples_per_frame,
            ),
    {
        let mut out: Vec<u8> = Vec::new();
        push_header(
            &mut out,
            self.config.payload_type,
            false,
            self.seq,
            self.timestamp,
            self.config.ssrc,
        );
        out.extend_from_slice(payload);
        self.seq = self.seq.wrapping_add(1);
        self.timestamp = self.timestamp.wrapping_add(self.config.samples_per_frame);
        assert(out@ == header_bytes(
            old(self).config.payload_type,
            false,
            old(self).seq,
            old(self).timestamp,
            old(self).config.ssrc,
        ) + payload@);
        out
    }
}

/// A stream that has sent `n` packets numbers the next one `n` after the first and stamps it
/// `n` frames later, both counted around the ends of their ranges.
pub proof fn sender_counts_packets(config: RtpSendConfig, n: nat)
    ensures
        RtpSender::after(config, n + 1).seq == wrap16(RtpSender::after(config, n).seq + 1),
        RtpSender::after(config, n + 1).timestamp == wrap32(
            RtpSender::after(config, n).timestamp + config.samples_per_frame,
        ),
{
    let a = config.initial_timestamp + n * config.samples_per_frame;
    assert((n + 1) * config.samples_per_frame == n * config.samples_per_frame
        + config.samples_per_frame) by (nonlinear_arith);
    assert((a + config.samples_per_frame) % 0x1_0000_0000 == (a % 0x1_0000_0000
        + config.samples_per_frame) % 0x1_0000_0000);
}

/// A packet has its numbers in network byte order, the most significant byte first, and its marker
/// in the top bit of the second byte, before the payload type.
pub proof fn header_is_in_network_order(payload_type: u8, marker: bool, seq: u16, ts: u32, ssrc: u32)
    ensures
        ({
            let h = header_bytes(payload_type, marker, seq, ts, ssrc);
            &&& h.len() == 12
            &&& h[0] == 128
            &&& h[1] >= 128 <==> marker
            &&& h[1] % 128 == payload_type % 128
            &&& h[2] * 256 + h[3] == seq
            &&& h[4] * 0x100_0000 + h[5] * 0x1_0000 + h[6] * 0x100 + h[7] == ts
            &&& h[8] * 0x100_0000 + h[9] * 0x1_0000 + h[10] * 0x100 + h[11] == ssrc
        }),
{
}

/// What a packet is read as: nothing below twelve bytes or at another version than 2; else the bits
/// of its first two bytes, and the numbers after them in network byte order. The header grows by
/// four bytes with each contributing source.
pub proof fn packets_are_read_bit_by_bit(buf: Seq<u8>)
    ensures
        header_of(buf) is Some <==> buf.len() >= 12 && 128 <= buf[0] < 192,
        header_of(buf) matches Some(h) ==> {
            &&& h.version == 2
            &&& h.padding <==> buf[0] / 32 % 2 == 1
            &&& h.extension <==> buf[0] / 16 % 2 == 1
            &&& h.csrc_count == buf[0] % 16
            &&& h.marker <==> buf[1] >= 128
            &&& h.payload_type == buf[1] % 128
            &&& h.sequence == buf[2] * 256 + buf[3]
            &&& h.timestamp == buf[4] * 0x100_0000 + buf[5] * 0x1_0000 + buf[6] * 0x100 + buf[7]
            &&& h.ssrc == buf[8] * 0x100_0000 + buf[9] * 0x1_0000 + buf[10] * 0x100 + buf[11]
            &&& h.length() == 12 + 4 * h.csrc_count
        },
{
}

/// The first packet of a stream has the number and stamp it starts at; both move by one packet each
/// time, around the ends of their ranges.
pub proof fn streams_start_where_they_are_told(config: RtpSendConfig)
    ensures
        RtpSender::after(config, 0).seq == config.initial_seq,
        RtpSender::after(config, 0).timestamp == config.initial_timestamp,
        config.initial_seq < u16::MAX ==> RtpSender::after(config, 1).seq == config.initial_seq + 1,
        config.initial_timestamp + config.samples_per_frame <= u32::MAX ==> RtpSender::after(
            config,
            1,
        ).timestamp == config.initial_timestamp + config.samples_per_frame,
        config.initial_seq == u16::MAX ==> RtpSender::after(config, 1).seq == 0,
{
}

} // verus!
