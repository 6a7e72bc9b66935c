//! RFC 4733 DTMF (`telephone-event`) packet construction.
//!
//! A press of a digit rides RTP as a burst of packets with a 4-byte event payload: three
//! copies of the start, the first with the marker bit; a continuation every 20 ms with a
//! growing duration; three copies of the end, with the `E` bit set. The copies guard against
//! the loss of a packet.
//!
//! Give DTMF its own SSRC, fresh per call: its sequence numbers and timestamps then need no
//! coordination with the audio stream.

use crate::rtp::{be16, header_bytes, push_header, wrap16, wrap32};
use vstd::prelude::*;

verus! {

/// Default volume (dBm0) of an event packet. The range is 0-63; higher is quieter.
pub const DEFAULT_VOLUME_DBM0: u8 = 10;

/// 20 ms at an 8 kHz clock.
pub const TICKS_PER_PACKET: u16 = 160;

/// Gap between continuation packets, in milliseconds.
pub const PACKET_INTERVAL_MS: u32 = 20;

/// Number of copies of the first and last packets of a burst.
pub const REDUNDANCY: u8 = 3;

/// A single DTMF digit, event codes 0-15.
#[derive(Debug, Clone, Copy, PartialEq, Eq, Hash, Structural)]
pub enum DtmfDigit {
    D0,
    D1,
    D2,
    D3,
    D4,
    D5,
    D6,
    D7,
    D8,
    D9,
    Star,
    Pound,
    A,
    B,
    C,
    D,
}

impl DtmfDigit {
    /// The event code of the digit.
    pub open spec fn code(self) -> u8 {
        match self {
            DtmfDigit::D0 => 0,
            DtmfDigit::D1 => 1,
            DtmfDigit::D2 => 2,
            DtmfDigit::D3 => 3,
            DtmfDigit::D4 => 4,
            DtmfDigit::D5 => 5,
            DtmfDigit::D6 => 6,
            DtmfDigit::D7 => 7,
            DtmfDigit::D8 => 8,
            DtmfDigit::D9 => 9,
            DtmfDigit::Star => 10,
            DtmfDigit::Pound => 11,
            DtmfDigit::A => 12,
            DtmfDigit::B => 13,
            DtmfDigit::C => 14,
            DtmfDigit::D => 15,
        }
    }

    /// The character of the digit, letters as capitals.
    pub open spec fn character(self) -> char {
        "0123456789*#ABCD"@[self.code() as int]
    }

    /// Parses a digit from one of `0`-`9`, `*`, `#`, or `A`-`D` in either case. Returns `None`
    /// for anything else.
    pub fn from_char(c: char) -> (res: Option<Self>)
        ensures
            match res {
                Some(d) => d.character() == c || (d.code() >= 12 && d.character() as u32 + 32
                    == c as u32),
                None => forall|d: DtmfDigit|
                    d.character() != c && (d.code() >= 12 ==> (#[trigger] d.character()) as u32 + 32
                        != c as u32),
            },
    {
        proof {
            reveal_strlit("0123456789*#ABCD");
        }
        match c {
            '0' => Some(DtmfDigit::D0),
            '1' => Some(DtmfDigit::D1),
            '2' => Some(DtmfDigit::D2),
            '3' => Some(DtmfDigit::D3),
            '4' => Some(DtmfDigit::D4),
            '5' => Some(DtmfDigit::D5),
            '6' => Some(DtmfDigit::D6),
            '7' => Some(DtmfDigit::D7),
            '8' => Some(DtmfDigit::D8),
            '9' => Some(DtmfDigit::D9),
            '*' => Some(DtmfDigit::Star),
            '#' => Some(DtmfDigit::Pound),
            'a' | 'A' => Some(DtmfDigit::A),
            'b' | 'B' => Some(DtmfDigit::B),
            'c' | 'C' => Some(DtmfDigit::C),
            'd' | 'D' => Some(DtmfDigit::D),
            _ => None,
        }
    }

    /// The canonical character for this digit, `A` to `D` as capitals.
    pub fn as_char(self) -> (res: char)
        ensures
            res == self.character(),
    {
        proof {
            reveal_strlit("0123456789*#ABCD");
        }
        match self {
            DtmfDigit::D0 => '0',
            DtmfDigit::D1 => '1',
            DtmfDigit::D2 => '2',
            DtmfDigit::D3 => '3',
            DtmfDigit::D4 => '4',
            DtmfDigit::D5 => '5',
            DtmfDigit::D6 => '6',
            DtmfDigit::D7 => '7',
            DtmfDigit::D8 => '8',
            DtmfDigit::D9 => '9',
            DtmfDigit::Star => '*',
            DtmfDigit::Pound => '#',
            DtmfDigit::A => 'A',
            DtmfDigit::B => 'B',
            DtmfDigit::C => 'C',
            DtmfDigit::D => 'D',
        }
    }

    /// The RFC 4733 event code (0-15) for this digit.
    pub fn event_code(self) -> (res: u8)
        ensures
            res == self.code(),
            res < 16,
    {
        match self {
            DtmfDigit::D0 => 0,
            DtmfDigit::D1 => 1,
            DtmfDigit::D2 => 2,
            DtmfDigit::D3 => 3,
            DtmfDigit::D4 => 4,
            DtmfDigit::D5 => 5,
            DtmfDigit::D6 => 6,
            DtmfDigit::D7 => 7,
            DtmfDigit::D8 => 8,
            DtmfDigit::D9 => 9,
            DtmfDigit::Star => 10,
            DtmfDigit::Pound => 11,
            DtmfDigit::A => 12,
            DtmfDigit::B => 13,
            DtmfDigit::C => 14,
            DtmfDigit::D => 15,
        }
    }

    /// The digit with the event code `code`.
    pub open spec fn of_code(code: u8) -> Option<Self> {
        match code {
            0 => Some(DtmfDigit::D0),
            1 => Some(DtmfDigit::D1),
            2 => Some(DtmfDigit::D2),
            3 => Some(DtmfDigit::D3),
            4 => Some(DtmfDigit::D4),
            5 => Some(DtmfDigit::D5),
            6 => Some(DtmfDigit::D6),
            7 => Some(DtmfDigit::D7),
            8 => Some(DtmfDigit::D8),
            9 => Some(DtmfDigit::D9),
            10 => Some(DtmfDigit::Star),
            11 => Some(DtmfDigit::Pound),
            12 => Some(DtmfDigit::A),
            13 => Some(DtmfDigit::B),
            14 => Some(DtmfDigit::C),
            15 => Some(DtmfDigit::D),
            _ => None,
        }
    }

    /// The digit with the event code `code`; `None` for the codes of other telephony events.
    pub fn from_event_code(code: u8) -> (res: Option<Self>)
        ensures
            res == DtmfDigit::of_code(code),
            match res {
                Some(d) => d.code() == code,
                None => code >= 16,
            },
    {
        match code {
            0 => Some(DtmfDigit::D0),
            1 => Some(DtmfDigit::D1),
            2 => Some(DtmfDigit::D2),
            3 => Some(DtmfDigit::D3),
            4 => Some(DtmfDigit::D4),
            5 => Some(DtmfDigit::D5),
            6 => Some(DtmfDigit::D6),
            7 => Some(DtmfDigit::D7),
            8 => Some(DtmfDigit::D8),
            9 => Some(DtmfDigit::D9),
            10 => Some(DtmfDigit::Star),
            11 => Some(DtmfDigit::Pound),
            12 => Some(DtmfDigit::A),
            13 => Some(DtmfDigit::B),
            14 => Some(DtmfDigit::C),
            15 => Some(DtmfDigit::D),
            _ => None,
        }
    }
}

/// Distinct digits have distinct event codes and distinct characters, so that either names the
/// digit.
pub proof fn digits_are_distinct(a: DtmfDigit, b: DtmfDigit)
    ensures
        a.code() == b.code() <==> a == b,
        a.character() == b.character() <==> a == b,
        DtmfDigit::of_code(a.code()) == Some(a),
{
    reveal_strlit("0123456789*#ABCD");
}

/// The 4-byte event payload: event code, end bit and volume, duration.
pub open spec fn event_payload(event: u8, end: bool, volume: u8, duration: u16) -> Seq<u8> {
    let second = (if end {
        128int
    } else {
        0
    } + volume % 64) as u8;
    seq![event, second] + be16(duration)
}

/// Builds the 4-byte RFC 4733 event payload: the event code; the end bit, a zero bit and the
/// low six bits of the volume; the duration so far in timestamp ticks.
pub fn build_event_payload(event: u8, end: bool, volume: u8, duration_ticks: u16) -> (res: [u8; 4])
    ensures
        res@ == event_payload(event, end, volume, duration_ticks),
{
    let second: u8 = if end {
        128 + volume % 64
    } else {
        volume % 64
    };
    let res: [u8; 4] = [event, second, (duration_ticks / 256) as u8, (duration_ticks % 256) as u8];
    assert(res@ == event_payload(event, end, volume, duration_ticks));
    res
}

/// Settings for a single DTMF burst, one press of one digit.
#[derive(Debug, Clone, Copy)]
pub struct DtmfBurstConfig {
    /// Negotiated `telephone-event` payload type, typically 101.
    pub payload_type: u8,
    /// SSRC of the DTMF stream.
    pub ssrc: u32,
    /// RTP sequence number of the first packet.
    pub initial_seq: u16,
    /// RTP timestamp of the start of the event, shared by all packets of the burst.
    pub initial_timestamp: u32,
    /// How long to hold the digit, in milliseconds, rounded to the nearest whole packet of
    /// 20 ms and at least one.
    pub hold_duration_ms: u32,
    /// Volume in dBm0 (0-63).
    pub volume_dbm0: u8,
}

/// Builds the full RTP packet: 12-byte header and 4-byte event payload.
pub fn build_rtp_dtmf_packet(
    payload_type: u8,
    marker: bool,
    seq: u16,
    timestamp: u32,
    ssrc: u32,
    event_payload: [u8; 4],
) -> (res: [u8; 16])
    ensures
        res@ == header_bytes(payload_type, marker, seq, timestamp, ssrc) + event_payload@,
{
    let mut h: Vec<u8> = Vec::new();
    push_header(&mut h, payload_type, marker, seq, timestamp, ssrc);
    let res: [u8; 16] = [
        h[0],
        h[1],
        h[2],
        h[3],
        h[4],
        h[5],
        h[6],
        h[7],
        h[8],
        h[9],
        h[10],
        h[11],
        event_payload[0],
        event_payload[1],
        event_payload[2],
        event_payload[3],
    ];
    assert(res@ == header_bytes(payload_type, marker, seq, timestamp, ssrc) + event_payload@);
    res
}

impl DtmfBurstConfig {
    /// How many packet intervals the digit is held: the nearest number, at least one.
    pub open spec fn intervals(self) -> nat {
        let n = (self.hold_duration_ms + 10) / 20;
        if n < 1 {
            1
        } else {
            n as nat
        }
    }

    /// How many packets the burst has.
    pub open spec fn packets(self) -> nat {
        self.intervals() + 5
    }

    /// The duration, in ticks, after `n` intervals; it stays at the end of its range.
    pub open spec fn ticks(n: int) -> u16 {
        if n * 160 > 65535 {
            65535
        } else {
            (n * 160) as u16
        }
    }

    /// The duration that packet `k` of the burst reports: one interval in the first three, one
    /// more in each continuation, the whole press in the last three.
    pub open spec fn duration(self, k: nat) -> u16 {
        if k < 3 {
            Self::ticks(1)
        } else if k < self.intervals() + 2 {
            Self::ticks(k - 1)
        } else {
            Self::ticks(self.intervals() as int)
        }
    }

    /// Whether packet `k` is one of the three end packets.
    pub open spec fn is_end(self, k: nat) -> bool {
        k >= self.intervals() + 2
    }

    /// Whether packet `k` is sent one interval after the packet before it, not right behind it.
    pub open spec fn is_paced(self, k: nat) -> bool {
        3 <= k < self.intervals() + 2
    }

    /// The volume on the wire: at most 63.
    pub open spec fn wire_volume(self) -> u8 {
        if self.volume_dbm0 > 63 {
            63
        } else {
            self.volume_dbm0
        }
    }

    /// Packet `k` of the burst for `digit`.
    pub open spec fn packet(self, digit: DtmfDigit, k: nat) -> Seq<u8> {
        header_bytes(
            self.payload_type,
            k == 0,
            wrap16(self.initial_seq + k),
            self.initial_timestamp,
            self.ssrc,
        ) + event_payload(digit.code(), self.is_end(k), self.wire_volume(), self.duration(k))
    }

    /// The sequence number and timestamp for the next burst on the same SSRC.
    pub open spec fn next(self) -> (u16, u32) {
        (
            wrap16(self.initial_seq + self.packets()),
            wrap32(self.initial_timestamp + Self::ticks(self.intervals() as int)),
        )
    }
}

/// What to do next in sending a burst.
#[derive(Debug, Clone, Copy, PartialEq, Eq)]
pub enum BurstStep {
    /// Wait for the given time, then send the packet.
    Send {
        /// Milliseconds to wait before the packet.
        pause_ms: u32,
        /// The packet.
        packet: [u8; 16],
    },
    /// The burst is complete.
    Done {
        /// Sequence number for the next burst.
        next_seq: u16,
        /// Timestamp for the next burst.
        next_timestamp: u32,
    },
}

/// A burst under way: one press of one digit.
#[derive(Debug, Clone, Copy)]
pub struct DtmfBurst {
    config: DtmfBurstConfig,
    digit: DtmfDigit,
    intervals: u32,
    sent: u32,
    seq: u16,
    duration: u16,
}

impl DtmfBurst {
    /// The settings of the burst.
    pub closed spec fn config(self) -> DtmfBurstConfig {
        self.config
    }

    /// The digit that is pressed.
    pub closed spec fn digit(self) -> DtmfDigit {
        self.digit
    }

    /// How many packets have been handed out.
    pub closed spec fn sent(self) -> nat {
        self.sent as nat
    }

    /// The state is one that a burst goes through.
    pub closed spec fn wf(self) -> bool {
        &&& self.intervals == self.config.intervals()
        &&& self.sent <= self.config.packets()
        &&& self.seq == wrap16(self.config.initial_seq + self.sent)
        &&& self.duration == if self.sent <= 3 {
            160
        } else {
            self.config.duration((self.sent - 1) as nat)
        }
    }

    /// A burst of which nothing has been sent.
    pub fn new(config: DtmfBurstConfig, digit: DtmfDigit) -> (res: Self)
        ensures
            res.wf(),
            res.config() == config,
            res.digit() == digit,
            res.sent() == 0,
    {
        let nearest: u64 = (config.hold_duration_ms as u64 + 10) / 20;
        assert(nearest == (config.hold_duration_ms + 10) / 20);
        let intervals: u32 = if nearest < 1 {
            1
        } else {
            nearest as u32
        };
        DtmfBurst {
            config,
            digit,
            intervals,
            sent: 0,
            seq: config.initial_seq,
            duration: TICKS_PER_PACKET,
        }
    }

    /// The next packet of the burst and how long to wait before it; after the last packet, the
    /// sequence number and timestamp for the next burst on the same SSRC.
    #[verifier::spinoff_prover]
    #[verifier::rlimit(60)]
    pub fn step(&mut self) -> (res: BurstStep)
        requires
            old(self).wf(),
        ensures
            final(self).wf(),
            final(self).config() == old(self).config(),
            final(self).digit() == old(self).digit(),
            ({
                let config = old(self).config();
                let k = old(self).sent();
                if k < config.packets() {
                    &&& final(self).sent() == k + 1
                    &&& res matches BurstStep::Send { pause_ms, packet } && packet@
                        == config.packet(old(self).digit(), k) && pause_ms == if config.is_paced(
                        k,
                    ) {
                        20u32
                    } else {
                        0u32
                    }
                } else {
                    &&& final(self).sent() == k
                    &&& res == BurstStep::Done {
                        next_seq: config.next().0,
                        next_timestamp: config.next().1,
                    }
                }
            }),
    {
        if self.sent >= self.intervals + 5 {
            let ticks: u16 = self.duration;
            return BurstStep::Done {
                next_seq: self.seq,
                next_timestamp: self.config.initial_timestamp.wrapping_add(ticks as u32),
            };
        }
        let paced = self.sent >= 3 && self.sent < self.intervals + 2;
        let mut pause_ms: u32 = 0;
        if paced {
            pause_ms = PACKET_INTERVAL_MS;
            self.duration = self.duration.saturating_add(TICKS_PER_PACKET);
        }
        let end = self.sent >= self.intervals + 2;
        let volume: u8 = if self.config.volume_dbm0 > 63 {
            63
        } else {
            self.config.volume_dbm0
        };
        assert(self.duration == self.config.duration(self.sent as nat));
        let payload = build_event_payload(self.digit.event_code(), end, volume, self.duration);
        let packet = build_rtp_dtmf_packet(
            self.config.payload_type,
            self.sent == 0,
            self.seq,
            self.config.initial_timestamp,
            self.config.ssrc,
            payload,
        );
        self.seq = self.seq.wrapping_add(1);
        self.sent = self.sent + 1;
        BurstStep::Send { pause_ms, packet }
    }
}

/// The timestamp for the next burst lies ahead of this burst by the duration that its end
/// packets report: at least one interval, and less than half the range of timestamps.
pub proof fn bursts_move_time_forward(config: DtmfBurstConfig)
    ensures
        config.next().1 == wrap32(
            config.initial_timestamp + config.duration((config.packets() - 1) as nat),
        ),
        160 <= config.duration((config.packets() - 1) as nat) <= 65535,
{
}

/// The characters of the digits stand for their event codes: the digits for 0 to 9, the star for 10,
/// the pound sign for 11, and the letters for 12 to 15.
pub proof fn digits_have_their_codes(d: DtmfDigit)
    ensures
        '0' as u32 <= d.character() as u32 <= '9' as u32 ==> d.code() == d.character() as u32
            - '0' as u32,
        d.character() == '*' <==> d.code() == 10,
        d.character() == '#' <==> d.code() == 11,
        'A' as u32 <= d.character() as u32 <= 'D' as u32 ==> d.code() == 12 + (d.character() as u32
            - 'A' as u32),
        d.code() < 10 ==> '0' as u32 <= d.character() as u32 <= '9' as u32,
        d.code() >= 12 ==> 'A' as u32 <= d.character() as u32 <= 'D' as u32,
{
    reveal_strlit("0123456789*#ABCD");
}

/// An event payload has the code, the end bit above the volume in six bits, and the duration in
/// network byte order.
pub proof fn payload_is_in_network_order(event: u8, end: bool, volume: u8, duration: u16)
    ensures
        ({
            let p = event_payload(event, end, volume, duration);
            &&& p.len() == 4
            &&& p[0] == event
            &&& p[1] >= 128 <==> end
            &&& p[1] % 128 == volume % 64
            &&& p[2] * 256 + p[3] == duration
        }),
{
}

/// The shape of a burst: every packet has the payload type, source and timestamp of the burst, the
/// next number, and the code of the digit; the first alone has the marker, the last three the end
/// bit.
pub proof fn burst_packets_tell_the_press(config: DtmfBurstConfig, digit: DtmfDigit, k: nat)
    requires
        k < config.packets(),
    ensures
        ({
            let p = config.packet(digit, k);
            &&& p.len() == 16
            &&& crate::rtp::header_of(p) matches Some(h) && h.marker == (k == 0) && h.sequence
                == wrap16(config.initial_seq + k) && h.timestamp == config.initial_timestamp
                && h.ssrc == config.ssrc && h.payload_type == config.payload_type % 128
            &&& p[12] == digit.code()
            &&& p[13] >= 128 <==> k + 3 >= config.packets()
            &&& p[13] % 128 == if config.volume_dbm0 > 63 {
                63
            } else {
                config.volume_dbm0
            }
            &&& p[14] * 256 + p[15] == config.duration(k)
        }),
{
    let h = header_bytes(
        config.payload_type,
        k == 0,
        wrap16(config.initial_seq + k),
        config.initial_timestamp,
        config.ssrc,
    );
    let e = event_payload(digit.code(), config.is_end(k), config.wire_volume(), config.duration(k));
    crate::rtp::header_reads_back(
        config.payload_type,
        k == 0,
        wrap16(config.initial_seq + k),
        config.initial_timestamp,
        config.ssrc,
        e,
    );
    assert(h.len() == 12);
    assert(config.packet(digit, k) == h + e);
}

/// The times of a burst: the digit is held for the nearest number of 20 ms intervals, at least one;
/// the first three packets report one interval, each further packet at most one more than the one
/// before, and the last three the whole press, as far as a duration can tell. Packets are a pause
/// apart exactly where the duration grows.
pub proof fn bursts_last_as_long_as_the_press(config: DtmfBurstConfig, k: nat)
    requires
        k < config.packets(),
    ensures
        config.hold_duration_ms < 10 ==> config.intervals() == 1,
        config.hold_duration_ms >= 10 ==> 20 * config.intervals() <= config.hold_duration_ms + 10
            < 20 * config.intervals() + 20,
        config.packets() == 3 + (config.intervals() - 1) + 3,
        k < 3 ==> config.duration(k) == 160,
        k + 3 >= config.packets() ==> config.duration(k) == if config.intervals() * 160 > 65535 {
            65535
        } else {
            config.intervals() * 160
        },
        3 <= k && k + 3 < config.packets() ==> config.is_paced(k) && (config.duration(k)
            == config.duration((k - 1) as nat) + 160 || config.duration(k) == 65535),
        k < 3 || k + 3 >= config.packets() ==> !config.is_paced(k),
        config.next().0 == wrap16(config.initial_seq + config.packets()),
{
}

} // verus!
