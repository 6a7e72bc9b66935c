//! RFC 4733 DTMF (`telephone-event`) reception: the inverse of [`crate::rtp::dtmf`].
//!
//! [`DtmfReceiver`] collapses the burst of packets of a press into at most one
//! [`DtmfEvent::Pressed`] and one [`DtmfEvent::Released`].

use crate::rtp::dtmf::{digits_are_distinct, event_payload, DtmfBurstConfig, DtmfDigit};
use crate::rtp::{header_of, header_reads_back, read16, wrap16, wrap32, RtpHeader};
use vstd::prelude::*;

verus! {

/// A parsed 4-byte RFC 4733 event payload.
#[derive(Debug, Clone, Copy, PartialEq, Eq, Structural)]
pub struct DtmfEventPayload {
    /// Event code. 0-15 are the DTMF digits; higher codes are other telephony events.
    pub event: u8,
    /// `E` (end) flag, set on the final packets of a burst.
    pub end: bool,
    /// Power in dBm0, 0-63.
    pub volume: u8,
    /// How long the event has been going so far, in ticks.
    pub duration_ticks: u16,
}

/// The event payload that `buf` starts with; `None` for fewer than four bytes.
pub open spec fn payload_of(buf: Seq<u8>) -> Option<DtmfEventPayload> {
    if buf.len() < 4 {
        None
    } else {
        Some(
            DtmfEventPayload {
                event: buf[0],
                end: buf[1] / 128 == 1,
                volume: (buf[1] % 64) as u8,
                duration_ticks: read16(buf, 2),
            },
        )
    }
}

/// Parses the 4-byte RFC 4733 event payload from `buf`. Returns `None` if `buf` is shorter
/// than 4 bytes; bytes after the first four are ignored.
pub fn parse_event_payload(buf: &[u8]) -> (res: Option<DtmfEventPayload>)
    ensures
        res == payload_of(buf@),
{
    if buf.len() < 4 {
        return None;
    }
    Some(
        DtmfEventPayload {
            event: buf[0],
            end: buf[1] / 128 == 1,
            volume: buf[1] % 64,
            duration_ticks: buf[2] as u16 * 256 + buf[3] as u16,
        },
    )
}

/// Parsing a built payload gives back what it was built from, the volume cut to six bits.
pub proof fn event_payload_reads_back(event: u8, end: bool, volume: u8, duration: u16)
    ensures
        payload_of(event_payload(event, end, volume, duration)) == Some(
            DtmfEventPayload {
                event,
                end,
                volume: (volume % 64) as u8,
                duration_ticks: duration,
            },
        ),
{
    let p = event_payload(event, end, volume, duration);
    assert(p.len() == 4);
    assert(read16(p, 2) == duration);
}

/// A decoded change in remote keypad state.
#[derive(Debug, Clone, Copy, PartialEq, Eq, Structural)]
pub enum DtmfEvent {
    /// A new digit press was observed, reported on the first packet of the burst to arrive.
    Pressed {
        /// The digit being pressed.
        digit: DtmfDigit,
    },
    /// The press ended, reported on the first end packet after the press.
    Released {
        /// The digit that was released.
        digit: DtmfDigit,
        /// Total press length in ticks.
        duration_ticks: u16,
    },
}

/// The event being tracked. All packets of one event share the timestamp of its start.
#[derive(Debug, Clone, Copy, PartialEq, Eq, Structural)]
pub struct ActiveEvent {
    /// Source of the event.
    pub ssrc: u32,
    /// Timestamp of its start.
    pub timestamp: u32,
    /// Event code.
    pub event: u8,
    /// Whether the release has been reported.
    pub released: bool,
}

/// Stateful decoder that collapses packet bursts into one [`DtmfEvent::Pressed`] and at most
/// one [`DtmfEvent::Released`] per digit press.
///
/// Construct one per call with the negotiated `telephone-event` payload type and feed every
/// datagram from the media socket through [`DtmfReceiver::push`].
#[derive(Debug, Clone, Copy, PartialEq, Eq, Structural)]
pub struct DtmfReceiver {
    payload_type: u8,
    active: Option<ActiveEvent>,
}

/// What a [`DtmfReceiver`] knows.
pub struct ReceiverState {
    /// The payload type it decodes.
    pub payload_type: u8,
    /// The event being tracked.
    pub active: Option<ActiveEvent>,
}

impl View for DtmfReceiver {
    type V = ReceiverState;

    closed spec fn view(&self) -> ReceiverState {
        ReceiverState { payload_type: self.payload_type, active: self.active }
    }
}

/// Whether timestamp `a` is newer than `b`: ahead of it, around the end of the range, by less
/// than half the range.
pub open spec fn is_newer(a: u32, b: u32) -> bool {
    0 < (a - b) % 0x1_0000_0000 < 0x8000_0000
}

/// The digit event that a packet carries, if it is one: a header, the payload after it, and
/// the digit.
pub open spec fn digit_packet(packet: Seq<u8>, payload_type: u8) -> Option<
    (RtpHeader, DtmfEventPayload, DtmfDigit),
> {
    match header_of(packet) {
        Some(h) => if h.payload_type != payload_type || h.length() > packet.len() {
            None
        } else {
            match payload_of(packet.skip(h.length() as int)) {
                Some(p) => match DtmfDigit::of_code(p.event) {
                    Some(d) => Some((h, p, d)),
                    None => None,
                },
                None => None,
            }
        },
        None => None,
    }
}

impl ReceiverState {
    /// The state after `packet`, and what it reports. The first packet of a new press is
    /// reported as pressed, its first end packet after that as released. Redundant copies,
    /// continuations, stragglers of an earlier event on the same source, and packets that are
    /// no digit events change nothing.
    pub open spec fn after(self, packet: Seq<u8>) -> (ReceiverState, Option<DtmfEvent>) {
        match digit_packet(packet, self.payload_type) {
            None => (self, None),
            Some((h, p, digit)) => {
                let fresh = (
                    ReceiverState {
                        active: Some(
                            ActiveEvent {
                                ssrc: h.ssrc,
                                timestamp: h.timestamp,
                                event: p.event,
                                released: false,
                            },
                        ),
                        ..self
                    },
                    Some(DtmfEvent::Pressed { digit }),
                );
                match self.active {
                    None => fresh,
                    Some(a) => if a.ssrc == h.ssrc && a.timestamp == h.timestamp && a.event
                        == p.event {
                        if p.end && !a.released {
                            (
                                ReceiverState {
                                    active: Some(ActiveEvent { released: true, ..a }),
                                    ..self
                                },
                                Some(
                                    DtmfEvent::Released { digit, duration_ticks: p.duration_ticks },
                                ),
                            )
                        } else {
                            (self, None)
                        }
                    } else if a.ssrc == h.ssrc && !is_newer(h.timestamp, a.timestamp) {
                        (self, None)
                    } else {
                        fresh
                    },
                }
            },
        }
    }
}

/// Whether the RTP timestamp `a` is newer than `b`, across the wrap of the clock.
pub fn timestamp_newer(a: u32, b: u32) -> (res: bool)
    ensures
        res == is_newer(a, b),
{
    let forward: u32 = a.wrapping_sub(b);
    assert(forward == (a - b) % 0x1_0000_0000);
    forward != 0 && forward < 0x8000_0000
}

impl DtmfReceiver {
    /// Creates a receiver for packets of the given RTP payload type.
    pub fn new(payload_type: u8) -> (res: Self)
        ensures
            res@ == (ReceiverState { payload_type, active: None }),
    {
        DtmfReceiver { payload_type, active: None }
    }

    /// Feeds one inbound RTP datagram, header and payload. Returns `Some` only on a change of
    /// the keypad.
    pub fn push(&mut self, packet: &[u8]) -> (res: Option<DtmfEvent>)
        ensures
            (final(self)@, res) == old(self)@.after(packet@),
    {
        let header = match RtpHeader::parse(packet) {
            Some(header) => header,
            None => return None,
        };
        if header.payload_type != self.payload_type {
            return None;
        }
        let from: usize = header.header_len();
        if from > packet.len() {
            return None;
        }
        let rest = vstd::slice::slice_subrange(packet, from, packet.len());
        assert(rest@ == packet@.skip(from as int));
        let payload = match parse_event_payload(rest) {
            Some(payload) => payload,
            None => return None,
        };
        let digit = match DtmfDigit::from_event_code(payload.event) {
            Some(digit) => digit,
            None => return None,
        };
        if let Some(active) = self.active {
            if active.ssrc == header.ssrc && active.timestamp == header.timestamp && active.event
                == payload.event {
                if payload.end && !active.released {
                    self.active = Some(
                        ActiveEvent {
                            ssrc: active.ssrc,
                            timestamp: active.timestamp,
                            event: active.event,
                            released: true,
                        },
                    );
                    return Some(
                        DtmfEvent::Released { digit, duration_ticks: payload.duration_ticks },
                    );
                }
                return None;
            }
            if active.ssrc == header.ssrc && !timestamp_newer(header.timestamp, active.timestamp) {
                return None;
            }
        }
        self.active = Some(
            ActiveEvent {
                ssrc: header.ssrc,
                timestamp: header.timestamp,
                event: payload.event,
                released: false,
            },
        );
        Some(DtmfEvent::Pressed { digit })
    }
}

/// Whether a receiver takes the burst of `config` for a new press: it decodes the payload type
/// and tracks nothing, another source, or an earlier event.
pub open spec fn awaits(state: ReceiverState, config: DtmfBurstConfig) -> bool {
    &&& state.payload_type == config.payload_type % 128
    &&& state.active matches Some(a) ==> a.ssrc != config.ssrc || is_newer(
        config.initial_timestamp,
        a.timestamp,
    )
}

/// The state of a receiver after the first `k` packets of a burst.
pub open spec fn burst_state(
    start: ReceiverState,
    config: DtmfBurstConfig,
    digit: DtmfDigit,
    k: nat,
) -> ReceiverState
    decreases k,
{
    if k == 0 {
        start
    } else {
        burst_state(start, config, digit, (k - 1) as nat).after(
            config.packet(digit, (k - 1) as nat),
        ).0
    }
}

/// What packet `k` of a burst is reported as.
pub open spec fn burst_report(
    start: ReceiverState,
    config: DtmfBurstConfig,
    digit: DtmfDigit,
    k: nat,
) -> Option<DtmfEvent> {
    burst_state(start, config, digit, k).after(config.packet(digit, k)).1
}

proof fn lemma_burst_packet(config: DtmfBurstConfig, digit: DtmfDigit, k: nat)
    ensures
        ({
            let (h, p, d) = digit_packet(
                config.packet(digit, k),
                (config.payload_type % 128) as u8,
            )->0;
            &&& digit_packet(config.packet(digit, k), (config.payload_type % 128) as u8) is Some
            &&& h.ssrc == config.ssrc
            &&& h.timestamp == config.initial_timestamp
            &&& p.event == digit.code()
            &&& p.end == config.is_end(k)
            &&& p.duration_ticks == config.duration(k)
            &&& d == digit
        }),
{
    let payload = event_payload(
        digit.code(),
        config.is_end(k),
        config.wire_volume(),
        config.duration(k),
    );
    header_reads_back(
        config.payload_type,
        k == 0,
        wrap16(config.initial_seq + k),
        config.initial_timestamp,
        config.ssrc,
        payload,
    );
    event_payload_reads_back(
        digit.code(),
        config.is_end(k),
        config.wire_volume(),
        config.duration(k),
    );
    digits_are_distinct(digit, digit);
}

proof fn lemma_burst_state(
    start: ReceiverState,
    config: DtmfBurstConfig,
    digit: DtmfDigit,
    k: nat,
)
    requires
        awaits(start, config),
        k > 0,
    ensures
        burst_state(start, config, digit, k) == (ReceiverState {
            active: Some(
                ActiveEvent {
                    ssrc: config.ssrc,
                    timestamp: config.initial_timestamp,
                    event: digit.code(),
                    released: config.is_end((k - 1) as nat),
                },
            ),
            ..start
        }),
    decreases k,
{
    lemma_burst_packet(config, digit, (k - 1) as nat);
    if k > 1 {
        lemma_burst_state(start, config, digit, (k - 1) as nat);
    } else {
        assert(burst_state(start, config, digit, 0) == start);
    }
}

/// A whole burst is decoded as exactly one press, on its first packet, and one release, on the
/// first of its end packets, with the duration of the press. No other packet of it is reported.
pub proof fn burst_decodes_to_one_press(
    start: ReceiverState,
    config: DtmfBurstConfig,
    digit: DtmfDigit,
    k: nat,
)
    requires
        awaits(start, config),
    ensures
        burst_report(start, config, digit, k) == if k == 0 {
            Some(DtmfEvent::Pressed { digit })
        } else if k == config.intervals() + 2 {
            Some(
                DtmfEvent::Released {
                    digit,
                    duration_ticks: DtmfBurstConfig::ticks(config.intervals() as int),
                },
            )
        } else {
            None
        },
{
    lemma_burst_packet(config, digit, k);
    if k > 0 {
        lemma_burst_state(start, config, digit, k);
    }
}

proof fn lemma_forward(a: u32, d: u16)
    ensures
        (wrap32(a + d) - a) % 0x1_0000_0000 == d,
{
    if a + d < 0x1_0000_0000 {
        assert(wrap32(a + d) == a + d);
    } else {
        assert(wrap32(a + d) == a + d - 0x1_0000_0000);
    }
}

/// After a burst, the burst that continues at its next timestamp on the same source is taken
/// for a new press, whatever its digit.
pub proof fn chained_bursts_are_separate_presses(
    start: ReceiverState,
    first: DtmfBurstConfig,
    digit: DtmfDigit,
    second: DtmfBurstConfig,
)
    requires
        awaits(start, first),
        second.payload_type % 128 == first.payload_type % 128,
        second.initial_timestamp == first.next().1,
    ensures
        awaits(burst_state(start, first, digit, first.packets()), second),
{
    lemma_burst_state(start, first, digit, first.packets());
    lemma_forward(first.initial_timestamp, DtmfBurstConfig::ticks(first.intervals() as int));
}

/// A press that was reported is not reported again, whatever copies of its packets arrive in
/// whatever order, and its release is reported at most once.
pub proof fn press_is_reported_once(state: ReceiverState, packet: Seq<u8>)
    requires
        digit_packet(packet, state.payload_type) matches Some((h, p, _)) && state.active matches Some(
            a,
        ) && a.ssrc == h.ssrc && a.timestamp == h.timestamp && a.event == p.event,
    ensures
        !(state.after(packet).1 matches Some(DtmfEvent::Pressed { .. })),
        state.active->0.released ==> state.after(packet) == (state, None::<DtmfEvent>),
        state.after(packet).1 is Some ==> state.after(packet).0.active == Some(
            ActiveEvent { released: true, ..state.active->0 },
        ),
{
}

/// A packet of another press that did not start later on the same source changes nothing.
pub proof fn stragglers_are_dropped(state: ReceiverState, packet: Seq<u8>)
    requires
        digit_packet(packet, state.payload_type) matches Some((h, p, _)) && state.active matches Some(
            a,
        ) && a.ssrc == h.ssrc && !is_newer(h.timestamp, a.timestamp) && !(a.timestamp
            == h.timestamp && a.event == p.event),
    ensures
        state.after(packet) == (state, None::<DtmfEvent>),
{
}

/// The state of a new receiver after these packets.
pub open spec fn received(payload_type: u8, packets: Seq<Seq<u8>>) -> ReceiverState
    decreases packets.len(),
{
    if packets.len() == 0 {
        ReceiverState { payload_type, active: None }
    } else {
        received(payload_type, packets.drop_last()).after(packets.last()).0
    }
}

/// What a new receiver reports at packet `k` of these packets.
pub open spec fn report_at(payload_type: u8, packets: Seq<Seq<u8>>, k: int) -> Option<DtmfEvent> {
    received(payload_type, packets.take(k)).after(packets[k]).1
}

/// Whether packet `k` is reported as a press.
pub open spec fn presses_at(payload_type: u8, packets: Seq<Seq<u8>>, k: int) -> bool {
    report_at(payload_type, packets, k) matches Some(DtmfEvent::Pressed { .. })
}

/// The timestamp of a digit packet.
pub open spec fn stamp(payload_type: u8, packet: Seq<u8>) -> u32 {
    let (h, _, _) = digit_packet(packet, payload_type)->0;
    h.timestamp
}

/// The source of a digit packet.
pub open spec fn source(payload_type: u8, packet: Seq<u8>) -> u32 {
    let (h, _, _) = digit_packet(packet, payload_type)->0;
    h.ssrc
}

/// How far timestamp `t` is ahead of `base`, around the end of the range.
pub open spec fn ahead(base: u32, t: u32) -> int {
    (t - base) % 0x1_0000_0000
}

/// Whether the digit packets are all of one source, and their timestamps span less than half the
/// range, from `base` on.
pub open spec fn one_source(
    payload_type: u8,
    packets: Seq<Seq<u8>>,
    ssrc: u32,
    base: u32,
) -> bool {
    forall|i: int|
        0 <= i < packets.len() ==> (digit_packet(#[trigger] packets[i], payload_type) matches Some(
            (h, _, _),
        ) ==> h.ssrc == ssrc && ahead(base, h.timestamp) < 0x8000_0000)
}

/// Whether packet `i` is the press that is tracked as `a` after the first `k` packets: no later one
/// was reported, and nothing at all if the release was not.
pub open spec fn is_latest(
    payload_type: u8,
    packets: Seq<Seq<u8>>,
    k: int,
    a: ActiveEvent,
    i: int,
) -> bool {
    &&& 0 <= i < k
    &&& digit_packet(packets[i], payload_type) matches Some((h, p, digit)) && h.ssrc == a.ssrc
        && h.timestamp == a.timestamp && p.event == a.event && report_at(payload_type, packets, i)
        == Some(DtmfEvent::Pressed { digit })
    &&& forall|j: int|
        i < j < k ==> !#[trigger] presses_at(payload_type, packets, j) && (!a.released
            ==> report_at(payload_type, packets, j) is None)
}

proof fn lemma_received(payload_type: u8, packets: Seq<Seq<u8>>, k: int)
    requires
        0 <= k < packets.len(),
    ensures
        received(payload_type, packets.take(k + 1)) == received(
            payload_type,
            packets.take(k),
        ).after(packets[k]).0,
        received(payload_type, packets.take(k)).payload_type == payload_type,
    decreases k,
{
    assert(packets.take(k + 1).drop_last() =~= packets.take(k));
    if k > 0 {
        lemma_received(payload_type, packets, k - 1);
    } else {
        assert(packets.take(0) =~= Seq::<Seq<u8>>::empty());
    }
}

proof fn lemma_latest(payload_type: u8, packets: Seq<Seq<u8>>, k: int)
    requires
        0 <= k <= packets.len(),
    ensures
        received(payload_type, packets.take(k)).payload_type == payload_type,
        match received(payload_type, packets.take(k)).active {
            None => forall|j: int| 0 <= j < k ==> !#[trigger] presses_at(payload_type, packets, j),
            Some(a) => exists|i: int| #[trigger] is_latest(payload_type, packets, k, a, i),
        },
    decreases k,
{
    if k == 0 {
        assert(packets.take(0) =~= Seq::<Seq<u8>>::empty());
    } else {
        let n = k - 1;
        lemma_latest(payload_type, packets, n);
        lemma_received(payload_type, packets, n);
        let before = received(payload_type, packets.take(n));
        let (after, report) = before.after(packets[n]);
        assert(report == report_at(payload_type, packets, n));
        if presses_at(payload_type, packets, n) {
            assert(is_latest(payload_type, packets, k, after.active->0, n));
        } else if before.active is Some {
            let a = before.active->0;
            let i = choose|i: int| #[trigger] is_latest(payload_type, packets, n, a, i);
            let b = after.active->0;
            assert(b.ssrc == a.ssrc && b.timestamp == a.timestamp && b.event == a.event);
            assert forall|j: int| i < j < k implies !#[trigger] presses_at(
                payload_type,
                packets,
                j,
            ) && (!b.released ==> report_at(payload_type, packets, j) is None) by {
                if j < n {
                    assert(!presses_at(payload_type, packets, j));
                }
            }
            assert(is_latest(payload_type, packets, k, b, i));
        } else {
            assert forall|j: int| 0 <= j < k implies !#[trigger] presses_at(
                payload_type,
                packets,
                j,
            ) by {
                if j < n {
                    assert(!presses_at(payload_type, packets, j));
                }
            }
        }
    }
}

/// Every release is that of the latest press before it: it has its digit, source and timestamp, and
/// nothing was reported in between, so that a press has at most one release. This holds of any
/// packets in any order.
pub proof fn release_follows_its_press(payload_type: u8, packets: Seq<Seq<u8>>, k: int) -> (i: int)
    requires
        0 <= k < packets.len(),
        report_at(payload_type, packets, k) matches Some(DtmfEvent::Released { .. }),
    ensures
        0 <= i < k,
        report_at(payload_type, packets, k) matches Some(DtmfEvent::Released { digit, .. })
            && report_at(payload_type, packets, i) == Some(DtmfEvent::Pressed { digit }),
        stamp(payload_type, packets[i]) == stamp(payload_type, packets[k]),
        source(payload_type, packets[i]) == source(payload_type, packets[k]),
        forall|j: int| i < j < k ==> #[trigger] report_at(payload_type, packets, j) is None,
{
    lemma_latest(payload_type, packets, k);
    let a = received(payload_type, packets.take(k)).active->0;
    let i = choose|i: int| #[trigger] is_latest(payload_type, packets, k, a, i);
    assert forall|j: int| i < j < k implies #[trigger] report_at(
        payload_type,
        packets,
        j,
    ) is None by {
        assert(!presses_at(payload_type, packets, j));
    }
    i
}

proof fn lemma_ahead(base: u32, a: u32, b: u32)
    requires
        ahead(base, a) < 0x8000_0000,
        ahead(base, b) < 0x8000_0000,
    ensures
        is_newer(a, b) <==> ahead(base, a) > ahead(base, b),
{
}

proof fn lemma_tracked(
    payload_type: u8,
    packets: Seq<Seq<u8>>,
    ssrc: u32,
    base: u32,
    i: int,
    k: int,
)
    requires
        one_source(payload_type, packets, ssrc, base),
        0 <= i < k <= packets.len(),
        presses_at(payload_type, packets, i),
    ensures
        received(payload_type, packets.take(k)).active matches Some(a) && a.ssrc == ssrc && ahead(
            base,
            a.timestamp,
        ) < 0x8000_0000 && ahead(base, a.timestamp) >= ahead(
            base,
            stamp(payload_type, packets[i]),
        ),
    decreases k,
{
    let n = k - 1;
    lemma_received(payload_type, packets, n);
    assert(digit_packet(packets[i], payload_type) is Some) by {
        lemma_received(payload_type, packets, i);
    }
    if i < n {
        lemma_tracked(payload_type, packets, ssrc, base, i, n);
        let a = received(payload_type, packets.take(n)).active->0;
        if digit_packet(packets[n], payload_type) is Some {
            lemma_ahead(base, stamp(payload_type, packets[n]), a.timestamp);
        }
    }
}

/// Presses on one source move forward: whatever packets arrive, in any order, with any loss and
/// repetition, each press that is reported started strictly later than those reported before, so
/// that no two come from the same timestamp. The timestamps must span less than half the range.
pub proof fn presses_move_forward(
    payload_type: u8,
    packets: Seq<Seq<u8>>,
    ssrc: u32,
    base: u32,
    i: int,
    j: int,
)
    requires
        one_source(payload_type, packets, ssrc, base),
        0 <= i < j < packets.len(),
        presses_at(payload_type, packets, i),
        presses_at(payload_type, packets, j),
    ensures
        is_newer(stamp(payload_type, packets[j]), stamp(payload_type, packets[i])),
        stamp(payload_type, packets[j]) != stamp(payload_type, packets[i]),
{
    lemma_tracked(payload_type, packets, ssrc, base, i, j);
    lemma_received(payload_type, packets, i);
    lemma_received(payload_type, packets, j);
    let a = received(payload_type, packets.take(j)).active->0;
    lemma_ahead(base, stamp(payload_type, packets[j]), a.timestamp);
    lemma_ahead(base, stamp(payload_type, packets[j]), stamp(payload_type, packets[i]));
}

/// Any packet of a press registers it: the marker packet may be lost.
pub proof fn any_start_packet_registers_the_press(
    start: ReceiverState,
    config: DtmfBurstConfig,
    digit: DtmfDigit,
    k: nat,
)
    requires
        awaits(start, config),
    ensures
        start.after(config.packet(digit, k)).1 == Some(DtmfEvent::Pressed { digit }),
{
    lemma_burst_packet(config, digit, k);
}

/// Of two timestamps one is the newer, around the end of their range too: that which the other
/// reaches by going forward less than half the range.
pub proof fn one_timestamp_is_newer(a: u32, step: u32)
    requires
        0 < step < 0x8000_0000,
    ensures
        is_newer(((a + step) % 0x1_0000_0000) as u32, a),
        !is_newer(a, ((a + step) % 0x1_0000_0000) as u32),
        !is_newer(a, a),
{
}

} // verus!
