//! SDP offer/answer for telephony audio: Opus (RFC 7587) preferred, G.711 as the fallback,
//! plus RFC 4733 `telephone-event` (DTMF) negotiation.
//!
//! Nothing here encodes or decodes audio. The module negotiates which codec, at which payload
//! type, with which DTMF clock, and reports the result as [`AudioCodec`] and [`DtmfSpec`].
//!
//! The initial offer ([`build_sdp_offer`]) carries the full menu. Answers and mid-call
//! re-offers are built with [`CodecMenu::Pinned`], so that the peer cannot switch codecs
//! under a live audio path.

use crate::net::IpAddr;
use crate::net::{ip_of, ip_text_reads_back, lemma_ip_is_a_word, parse_ip};
use crate::text::{
    chars_of, decimal, decode, find_space, has_prefix, is_digit, is_space, joined, lemma_decimal,
    lemma_find_is, lemma_find_space_is, lemma_is_prefix, lemma_joined_pieces, lemma_not_prefix,
    lemma_pieces_joined, lemma_trimmed, lemma_unsigned_decimal, lemma_words_joined, lines, lines_of,
    lowered, number_u16, number_u32, number_u8, parse_u16, parse_u32, parse_u8, pieces, pieces_of,
    position_space, push_decimal, same, starts_with, strip_cr, texts, to_lower, trim, trimmed,
    utf8_error, words, words_of,
};
use vstd::prelude::*;
use vstd::string::*;
use vstd::utf8::*;

verus! {

/// The usual dynamic RTP payload type for `telephone-event/8000`.
pub const DTMF_DEFAULT_PT: u8 = 101;

/// The dynamic payload type offered for `telephone-event/48000`, DTMF at the Opus clock.
pub const DTMF_WIDEBAND_DEFAULT_PT: u8 = 110;

/// The dynamic payload type offered for Opus. The peer may counter with any number; use the
/// negotiated value from [`parse_sdp`] on the wire.
pub const OPUS_DEFAULT_PT: u8 = 111;

/// RTP timestamp clock for Opus, pinned to 48 kHz by RFC 7587 whatever the encode rate.
pub const OPUS_RTP_CLOCK_RATE: u32 = 48_000;

/// RTP timestamp clock for G.711.
pub const G711_RTP_CLOCK_RATE: u32 = 8_000;

/// Media direction, used to put a call on hold and take it off again (RFC 3264).
#[derive(Debug, Clone, Copy, PartialEq, Eq, Structural)]
pub enum MediaDirection {
    /// Send and receive media, the normal state (`a=sendrecv`).
    SendRecv,
    /// Send only, which places the peer on hold (`a=sendonly`).
    SendOnly,
    /// Neither send nor receive, a full two-way hold (`a=inactive`).
    Inactive,
}

impl MediaDirection {
    /// The value of the `a=` line.
    pub open spec fn text(self) -> Seq<char> {
        match self {
            MediaDirection::SendRecv => "sendrecv"@,
            MediaDirection::SendOnly => "sendonly"@,
            MediaDirection::Inactive => "inactive"@,
        }
    }

    /// The value of the `a=` line, without the `a=` and the line ending.
    pub fn attribute(&self) -> (res: &'static str)
        ensures
            res@ == self.text(),
    {
        match self {
            MediaDirection::SendRecv => "sendrecv",
            MediaDirection::SendOnly => "sendonly",
            MediaDirection::Inactive => "inactive",
        }
    }
}

/// An audio codec that can be negotiated, with its identity on the wire.
#[derive(Debug, Clone, Copy, PartialEq, Eq, Structural)]
pub enum AudioCodec {
    /// G.711 μ-law, static RTP payload type 0.
    Pcmu,
    /// G.711 A-law, static RTP payload type 8.
    Pcma,
    /// G.711 μ-law at another payload type, which an SDP body mapped to it.
    PcmuAt {
        /// The negotiated payload type.
        payload_type: u8,
    },
    /// G.711 A-law at another payload type, which an SDP body mapped to it.
    PcmaAt {
        /// The negotiated payload type.
        payload_type: u8,
    },
    /// Opus at a dynamic payload type, which only means Opus in the context of the SDP body
    /// that mapped it.
    Opus {
        /// The negotiated dynamic payload type (96-127 in practice).
        payload_type: u8,
    },
}

impl AudioCodec {
    /// The RTP payload type number of the codec.
    pub open spec fn pt(self) -> u8 {
        match self {
            AudioCodec::Pcmu => 0,
            AudioCodec::Pcma => 8,
            AudioCodec::PcmuAt { payload_type } => payload_type,
            AudioCodec::PcmaAt { payload_type } => payload_type,
            AudioCodec::Opus { payload_type } => payload_type,
        }
    }

    /// The RTP timestamp clock of the codec.
    pub open spec fn clock(self) -> u32 {
        match self {
            AudioCodec::Opus { .. } => OPUS_RTP_CLOCK_RATE,
            _ => G711_RTP_CLOCK_RATE,
        }
    }

    /// The `a=rtpmap:` encoding (`<name>/<clock>[/<channels>]`).
    pub open spec fn encoding(self) -> Seq<char> {
        match self {
            AudioCodec::Pcmu | AudioCodec::PcmuAt { .. } => "PCMU/8000"@,
            AudioCodec::Pcma | AudioCodec::PcmaAt { .. } => "PCMA/8000"@,
            AudioCodec::Opus { .. } => "opus/48000/2"@,
        }
    }

    /// G.711 μ-law at the given payload type.
    pub open spec fn pcmu(payload_type: u8) -> Self {
        if payload_type == 0 {
            AudioCodec::Pcmu
        } else {
            AudioCodec::PcmuAt { payload_type }
        }
    }

    /// G.711 A-law at the given payload type.
    pub open spec fn pcma(payload_type: u8) -> Self {
        if payload_type == 8 {
            AudioCodec::Pcma
        } else {
            AudioCodec::PcmaAt { payload_type }
        }
    }

    /// The codec as an SDP body tells it: G.711 at its static payload type is the static one.
    pub open spec fn resolved(self) -> Self {
        match self {
            AudioCodec::PcmuAt { payload_type } => AudioCodec::pcmu(payload_type),
            AudioCodec::PcmaAt { payload_type } => AudioCodec::pcma(payload_type),
            _ => self,
        }
    }

    /// The RTP payload type number of the codec.
    pub fn payload_type(&self) -> (res: u8)
        ensures
            res == self.pt(),
    {
        match self {
            AudioCodec::Pcmu => 0,
            AudioCodec::Pcma => 8,
            AudioCodec::PcmuAt { payload_type } => *payload_type,
            AudioCodec::PcmaAt { payload_type } => *payload_type,
            AudioCodec::Opus { payload_type } => *payload_type,
        }
    }

    /// The RTP timestamp clock rate: 8 kHz for G.711, always 48 kHz for Opus.
    pub fn rtp_clock_rate(&self) -> (res: u32)
        ensures
            res == self.clock(),
    {
        match self {
            AudioCodec::Opus { .. } => OPUS_RTP_CLOCK_RATE,
            _ => G711_RTP_CLOCK_RATE,
        }
    }

    /// The `a=rtpmap:` encoding string.
    fn rtpmap_encoding(&self) -> (res: &'static str)
        ensures
            res@ == self.encoding(),
    {
        match self {
            AudioCodec::Pcmu | AudioCodec::PcmuAt { .. } => "PCMU/8000",
            AudioCodec::Pcma | AudioCodec::PcmaAt { .. } => "PCMA/8000",
            AudioCodec::Opus { .. } => "opus/48000/2",
        }
    }
}

/// One negotiated `telephone-event` entry: its payload type and clock.
#[derive(Debug, Clone, Copy, PartialEq, Eq, Structural)]
pub struct DtmfSpec {
    /// The negotiated dynamic payload type.
    pub payload_type: u8,
    /// The event clock rate (8000 classic, 48000 alongside Opus).
    pub clock_rate: u32,
}

/// Which audio codecs an SDP body advertises.
#[derive(Debug, Clone, Copy, PartialEq, Eq, Structural)]
pub enum CodecMenu {
    /// The full menu: Opus, then PCMU and PCMA, with `telephone-event` at both clocks. For
    /// initial offers only.
    Full,
    /// Exactly one codec, plus at most one `telephone-event` entry: the shape of every answer
    /// and every re-offer.
    Pinned {
        /// The negotiated audio codec, at its negotiated payload type.
        codec: AudioCodec,
        /// The negotiated `telephone-event` entry, if any.
        dtmf: Option<DtmfSpec>,
    },
}

impl CodecMenu {
    /// The payload types of the `m=audio` line.
    pub open spec fn payload_types(self) -> Seq<u8> {
        match self {
            CodecMenu::Full => seq![
                OPUS_DEFAULT_PT,
                0u8,
                8u8,
                DTMF_DEFAULT_PT,
                DTMF_WIDEBAND_DEFAULT_PT,
            ],
            CodecMenu::Pinned { codec, dtmf: None } => seq![codec.pt()],
            CodecMenu::Pinned { codec, dtmf: Some(d) } => seq![codec.pt(), d.payload_type],
        }
    }

    /// The attribute lines that describe the payload types.
    pub open spec fn attributes(self) -> Seq<Seq<char>> {
        match self {
            CodecMenu::Full => codec_lines(AudioCodec::Opus { payload_type: OPUS_DEFAULT_PT })
                + codec_lines(AudioCodec::Pcmu) + codec_lines(AudioCodec::Pcma) + event_lines(
                DtmfSpec { payload_type: DTMF_DEFAULT_PT, clock_rate: 8000 },
            ) + event_lines(
                DtmfSpec {
                    payload_type: DTMF_WIDEBAND_DEFAULT_PT,
                    clock_rate: OPUS_RTP_CLOCK_RATE,
                },
            ),
            CodecMenu::Pinned { codec, dtmf: None } => codec_lines(codec),
            CodecMenu::Pinned { codec, dtmf: Some(d) } => codec_lines(codec) + event_lines(d),
        }
    }
}

/// The line `a=rtpmap:<pt> <encoding>`.
pub open spec fn rtpmap_line(pt: u8, encoding: Seq<char>) -> Seq<char> {
    "a=rtpmap:"@ + decimal(pt as nat) + " "@ + encoding
}

/// The line `a=fmtp:<pt> <parameters>`.
pub open spec fn fmtp_line(pt: u8, parameters: Seq<char>) -> Seq<char> {
    "a=fmtp:"@ + decimal(pt as nat) + " "@ + parameters
}

/// The attribute lines of a codec: its rtpmap, and for Opus the in-band error correction.
pub open spec fn codec_lines(codec: AudioCodec) -> Seq<Seq<char>> {
    let map = rtpmap_line(codec.pt(), codec.encoding());
    match codec {
        AudioCodec::Opus { payload_type } => seq![map, fmtp_line(payload_type, "useinbandfec=1"@)],
        _ => seq![map],
    }
}

/// The attribute lines of a `telephone-event` entry.
pub open spec fn event_lines(d: DtmfSpec) -> Seq<Seq<char>> {
    seq![
        rtpmap_line(d.payload_type, "telephone-event/"@ + decimal(d.clock_rate as nat)),
        fmtp_line(d.payload_type, "0-15"@),
    ]
}

/// The numbers `n` in decimal notation.
pub open spec fn decimals(n: Seq<u8>) -> Seq<Seq<char>> {
    n.map_values(|x: u8| decimal(x as nat))
}

/// The lines of an SDP body.
pub open spec fn sdp_lines(
    ip: IpAddr,
    port: u16,
    menu: CodecMenu,
    direction: MediaDirection,
    version: u32,
) -> Seq<Seq<char>> {
    seq![
        "v=0"@,
        "o=wavekat 0 "@ + decimal(version as nat) + " IN IP4 "@ + ip.text(),
        "s=wavekat-sip"@,
        "c=IN IP4 "@ + ip.text(),
        "t=0 0"@,
        "m=audio "@ + decimal(port as nat) + " RTP/AVP "@ + joined(
            decimals(menu.payload_types()),
            ' ',
        ),
    ] + menu.attributes() + seq!["a="@ + direction.text()]
}

/// Lines as they go on the wire, each ended by a carriage return and a line feed.
pub open spec fn wire_lines(lines: Seq<Seq<char>>) -> Seq<char>
    decreases lines.len(),
{
    if lines.len() == 0 {
        Seq::empty()
    } else {
        wire_lines(lines.drop_last()) + lines.last() + "\r\n"@
    }
}

/// An SDP body as text.
pub open spec fn sdp_text(
    ip: IpAddr,
    port: u16,
    menu: CodecMenu,
    direction: MediaDirection,
    version: u32,
) -> Seq<char> {
    wire_lines(sdp_lines(ip, port, menu, direction, version))
}

/// Ends the line `line`, which `out` holds after the lines `done`.
fn end_line(out: &mut String, Ghost(done): Ghost<Seq<Seq<char>>>, Ghost(line): Ghost<Seq<char>>)
    requires
        old(out)@ == wire_lines(done) + line,
    ensures
        final(out)@ == wire_lines(done.push(line)),
{
    out.append("\r\n");
    assert(done.push(line).drop_last() == done);
}

fn push_rtpmap(out: &mut String, pt: u8, encoding: &str, Ghost(done): Ghost<Seq<Seq<char>>>)
    requires
        old(out)@ == wire_lines(done),
    ensures
        final(out)@ == wire_lines(done.push(rtpmap_line(pt, encoding@))),
{
    out.append("a=rtpmap:");
    push_decimal(out, pt as u64);
    out.append(" ");
    out.append(encoding);
    assert(out@ == wire_lines(done) + rtpmap_line(pt, encoding@));
    end_line(out, Ghost(done), Ghost(rtpmap_line(pt, encoding@)));
}

fn push_fmtp(out: &mut String, pt: u8, parameters: &str, Ghost(done): Ghost<Seq<Seq<char>>>)
    requires
        old(out)@ == wire_lines(done),
    ensures
        final(out)@ == wire_lines(done.push(fmtp_line(pt, parameters@))),
{
    out.append("a=fmtp:");
    push_decimal(out, pt as u64);
    out.append(" ");
    out.append(parameters);
    assert(out@ == wire_lines(done) + fmtp_line(pt, parameters@));
    end_line(out, Ghost(done), Ghost(fmtp_line(pt, parameters@)));
}

fn push_codec(out: &mut String, codec: AudioCodec, Ghost(done): Ghost<Seq<Seq<char>>>)
    requires
        old(out)@ == wire_lines(done),
    ensures
        final(out)@ == wire_lines(done + codec_lines(codec)),
{
    push_rtpmap(out, codec.payload_type(), codec.rtpmap_encoding(), Ghost(done));
    let ghost one = done.push(rtpmap_line(codec.pt(), codec.encoding()));
    if let AudioCodec::Opus { payload_type } = codec {
        push_fmtp(out, payload_type, "useinbandfec=1", Ghost(one));
        assert(one.push(fmtp_line(payload_type, "useinbandfec=1"@)) == done + codec_lines(codec));
    } else {
        assert(one == done + codec_lines(codec));
    }
}

fn push_event(out: &mut String, d: DtmfSpec, Ghost(done): Ghost<Seq<Seq<char>>>)
    requires
        old(out)@ == wire_lines(done),
    ensures
        final(out)@ == wire_lines(done + event_lines(d)),
{
    let mut encoding = String::from_str("telephone-event/");
    push_decimal(&mut encoding, d.clock_rate as u64);
    push_rtpmap(out, d.payload_type, encoding.as_str(), Ghost(done));
    let ghost one = done.push(rtpmap_line(d.payload_type, encoding@));
    push_fmtp(out, d.payload_type, "0-15", Ghost(one));
    assert(one.push(fmtp_line(d.payload_type, "0-15"@)) == done + event_lines(d));
}

/// Appends the payload types `pts`, separated by spaces.
fn push_payload_types(out: &mut String, pts: &[u8])
    ensures
        final(out)@ == old(out)@ + joined(decimals(pts@), ' '),
    decreases pts@.len(),
{
    if pts.len() == 0 {
        assert(old(out)@ + Seq::<char>::empty() == old(out)@);
        return;
    }
    push_decimal(out, pts[0] as u64);
    if pts.len() > 1 {
        out.push(' ');
        let rest = vstd::slice::slice_subrange(pts, 1, pts.len());
        push_payload_types(out, rest);
        assert(decimals(pts@).skip(1) == decimals(rest@));
        assert(out@ == old(out)@ + joined(decimals(pts@), ' '));
    }
}

impl CodecMenu {
    /// The payload types of the `m=audio` line.
    fn payload_type_list(&self) -> (res: Vec<u8>)
        ensures
            res@ == self.payload_types(),
    {
        let mut pts: Vec<u8> = Vec::new();
        match self {
            CodecMenu::Full => {
                pts.push(OPUS_DEFAULT_PT);
                pts.push(0);
                pts.push(8);
                pts.push(DTMF_DEFAULT_PT);
                pts.push(DTMF_WIDEBAND_DEFAULT_PT);
            },
            CodecMenu::Pinned { codec, dtmf } => {
                pts.push(codec.payload_type());
                if let Some(d) = dtmf {
                    pts.push(d.payload_type);
                }
            },
        }
        assert(pts@ == self.payload_types());
        pts
    }
}

/// Appends the attribute lines of `menu`.
fn push_attributes(out: &mut String, menu: CodecMenu, Ghost(done): Ghost<Seq<Seq<char>>>)
    requires
        old(out)@ == wire_lines(done),
    ensures
        final(out)@ == wire_lines(done + menu.attributes()),
{
    match menu {
        CodecMenu::Full => {
            let opus = AudioCodec::Opus { payload_type: OPUS_DEFAULT_PT };
            let narrow = DtmfSpec { payload_type: DTMF_DEFAULT_PT, clock_rate: 8000 };
            let wide = DtmfSpec {
                payload_type: DTMF_WIDEBAND_DEFAULT_PT,
                clock_rate: OPUS_RTP_CLOCK_RATE,
            };
            push_codec(out, opus, Ghost(done));
            let ghost a = done + codec_lines(opus);
            push_codec(out, AudioCodec::Pcmu, Ghost(a));
            let ghost b = a + codec_lines(AudioCodec::Pcmu);
            push_codec(out, AudioCodec::Pcma, Ghost(b));
            let ghost c = b + codec_lines(AudioCodec::Pcma);
            push_event(out, narrow, Ghost(c));
            let ghost d = c + event_lines(narrow);
            push_event(out, wide, Ghost(d));
            assert(d + event_lines(wide) == done + menu.attributes());
        },
        CodecMenu::Pinned { codec, dtmf } => {
            push_codec(out, codec, Ghost(done));
            if let Some(d) = dtmf {
                push_event(out, d, Ghost(done + codec_lines(codec)));
                assert(done + codec_lines(codec) + event_lines(d) == done + menu.attributes());
            }
        },
    }
}

/// Builds an SDP body with an explicit codec `menu`, media `direction`, and `o=` session
/// `version`. RFC 3264 wants every re-offer to raise the version.
pub fn build_sdp_with(
    local_ip: IpAddr,
    rtp_port: u16,
    menu: CodecMenu,
    direction: MediaDirection,
    version: u32,
) -> (res: Vec<u8>)
    ensures
        res@ == encode_utf8(sdp_text(local_ip, rtp_port, menu, direction, version)),
{
    let mut out = String::from_str("v=0");
    let ghost none = Seq::<Seq<char>>::empty();
    assert(out@ == wire_lines(none) + "v=0"@);
    end_line(&mut out, Ghost(none), Ghost("v=0"@));
    let ghost all = sdp_lines(local_ip, rtp_port, menu, direction, version);
    let ghost l1 = none.push("v=0"@);
    out.append("o=wavekat 0 ");
    push_decimal(&mut out, version as u64);
    out.append(" IN IP4 ");
    local_ip.push_text(&mut out);
    assert(out@ == wire_lines(l1) + all[1]);
    end_line(&mut out, Ghost(l1), Ghost(all[1]));
    let ghost l2 = l1.push(all[1]);
    out.append("s=wavekat-sip");
    end_line(&mut out, Ghost(l2), Ghost(all[2]));
    let ghost l3 = l2.push(all[2]);
    out.append("c=IN IP4 ");
    local_ip.push_text(&mut out);
    assert(out@ == wire_lines(l3) + all[3]);
    end_line(&mut out, Ghost(l3), Ghost(all[3]));
    let ghost l4 = l3.push(all[3]);
    out.append("t=0 0");
    end_line(&mut out, Ghost(l4), Ghost(all[4]));
    let ghost l5 = l4.push(all[4]);
    out.append("m=audio ");
    push_decimal(&mut out, rtp_port as u64);
    out.append(" RTP/AVP ");
    let pts = menu.payload_type_list();
    push_payload_types(&mut out, &pts);
    assert(out@ == wire_lines(l5) + all[5]);
    end_line(&mut out, Ghost(l5), Ghost(all[5]));
    let ghost l6 = l5.push(all[5]);
    push_attributes(&mut out, menu, Ghost(l6));
    let ghost l7 = l6 + menu.attributes();
    out.append("a=");
    out.append(direction.attribute());
    let ghost last = "a="@ + direction.text();
    assert(out@ == wire_lines(l7) + last);
    end_line(&mut out, Ghost(l7), Ghost(last));
    assert(l7.push(last) == all);
    out.as_str().as_bytes_vec()
}

/// Builds the initial SDP offer: the full menu, `a=sendrecv`, `o=` version 0. Answers and
/// re-offers use [`build_sdp_with`] and a pinned menu.
pub fn build_sdp_offer(local_ip: IpAddr, rtp_port: u16) -> (res: Vec<u8>)
    ensures
        res@ == encode_utf8(
            sdp_text(local_ip, rtp_port, CodecMenu::Full, MediaDirection::SendRecv, 0),
        ),
{
    build_sdp_with(local_ip, rtp_port, CodecMenu::Full, MediaDirection::SendRecv, 0)
}

/// Remote media info extracted from an SDP body.
#[derive(Debug, Clone, PartialEq, Eq)]
pub struct RemoteMedia {
    /// Remote IP from the `c=` line.
    pub addr: IpAddr,
    /// Remote RTP port from the `m=audio` line.
    pub port: u16,
    /// First RTP payload type from the `m=audio` line, raw. Act on `codec`, which resolves
    /// dynamic payload types.
    pub payload_type: u8,
    /// The codec of the first payload type on the `m=audio` line that resolves to a known one.
    /// In an answer this is the negotiated codec; in an offer only the peer's first preference.
    pub codec: Option<AudioCodec>,
    /// The payload type Opus rides on, if it appears anywhere in the menu.
    pub opus_payload_type: Option<u8>,
    /// Every `telephone-event` entry on the `m=audio` line, in offer order, with its clock.
    pub dtmf_events: Vec<DtmfSpec>,
}

/// What a [`RemoteMedia`] says.
pub struct MediaView {
    pub addr: IpAddr,
    pub port: u16,
    pub payload_type: u8,
    pub codec: Option<AudioCodec>,
    pub opus_payload_type: Option<u8>,
    pub dtmf_events: Seq<DtmfSpec>,
}

impl View for RemoteMedia {
    type V = MediaView;

    open spec fn view(&self) -> MediaView {
        MediaView {
            addr: self.addr,
            port: self.port,
            payload_type: self.payload_type,
            codec: self.codec,
            opus_payload_type: self.opus_payload_type,
            dtmf_events: self.dtmf_events@,
        }
    }
}

/// The first entry of `events` with the given clock, else the first entry.
pub open spec fn event_for_clock(events: Seq<DtmfSpec>, clock: u32) -> Option<DtmfSpec> {
    if exists|i: int| 0 <= i < events.len() && #[trigger] events[i].clock_rate == clock {
        let i = choose|i: int|
            0 <= i < events.len() && #[trigger] events[i].clock_rate == clock && forall|j: int|
                0 <= j < i ==> #[trigger] events[j].clock_rate != clock;
        Some(events[i])
    } else if events.len() > 0 {
        Some(events[0])
    } else {
        None
    }
}

impl MediaView {
    /// The codec to answer an offer with: Opus wherever it appears, else the first one known.
    pub open spec fn answer_codec(self) -> Option<AudioCodec> {
        match self.opus_payload_type {
            Some(payload_type) => Some(AudioCodec::Opus { payload_type }),
            None => self.codec,
        }
    }

    /// The `telephone-event` entry that goes with the codec of this side.
    pub open spec fn event(self) -> Option<DtmfSpec> {
        match self.codec {
            Some(codec) => event_for_clock(self.dtmf_events, codec.clock()),
            None => if self.dtmf_events.len() > 0 {
                Some(self.dtmf_events[0])
            } else {
                None
            },
        }
    }
}

/// Picks the audio codec for an answer: Opus wherever it appears in the offer, else the peer's
/// first G.711. `None` when the offer holds nothing known; the response to that is
/// `488 Not Acceptable Here`.
pub fn select_codec(offer: &RemoteMedia) -> (res: Option<AudioCodec>)
    ensures
        res == offer@.answer_codec(),
{
    match offer.opus_payload_type {
        Some(payload_type) => Some(AudioCodec::Opus { payload_type }),
        None => offer.codec,
    }
}

/// Picks the `telephone-event` entry to answer with, given the selected audio codec: the first
/// with the clock of the codec (RFC 4733), else the first offered.
pub fn select_dtmf(offer: &RemoteMedia, codec: AudioCodec) -> (res: Option<DtmfSpec>)
    ensures
        res == event_for_clock(offer.dtmf_events@, codec.clock()),
{
    let clock: u32 = codec.rtp_clock_rate();
    let mut i: usize = 0;
    while i < offer.dtmf_events.len()
        invariant
            i <= offer.dtmf_events@.len(),
            clock == codec.clock(),
            forall|j: int| 0 <= j < i ==> #[trigger] offer.dtmf_events@[j].clock_rate != clock,
        decreases offer.dtmf_events.len() - i,
    {
        let d = offer.dtmf_events[i];
        if d.clock_rate == clock {
            proof {
                let events = offer.dtmf_events@;
                assert(events[i as int].clock_rate == clock);
                let k = choose|k: int|
                    0 <= k < events.len() && #[trigger] events[k].clock_rate == clock && forall|
                        j: int,
                    |
                        0 <= j < k ==> #[trigger] events[j].clock_rate != clock;
                assert(k == i);
            }
            return Some(d);
        }
        i += 1;
    }
    if offer.dtmf_events.len() > 0 {
        Some(offer.dtmf_events[0])
    } else {
        None
    }
}

impl RemoteMedia {
    /// The `telephone-event` entry to use with the negotiated codec: the one whose clock
    /// matches, else the first offered. `None` if the remote advertised none; DTMF then goes
    /// by SIP INFO.
    pub fn dtmf(&self) -> (res: Option<DtmfSpec>)
        ensures
            res == self@.event(),
    {
        match self.codec {
            Some(codec) => select_dtmf(self, codec),
            None => if self.dtmf_events.len() > 0 {
                Some(self.dtmf_events[0])
            } else {
                None
            },
        }
    }
}

/// One `a=rtpmap:` line: payload type, encoding name in small letters, clock.
pub struct RtpMapView {
    pub payload_type: u8,
    pub name: Seq<char>,
    pub rate: u32,
}

/// One parsed `a=rtpmap:` line.
struct RtpMap {
    payload_type: u8,
    name: Vec<char>,
    rate: u32,
}

impl View for RtpMap {
    type V = RtpMapView;

    closed spec fn view(&self) -> RtpMapView {
        RtpMapView { payload_type: self.payload_type, name: self.name@, rate: self.rate }
    }
}

spec fn map_views(maps: Seq<RtpMap>) -> Seq<RtpMapView> {
    maps.map_values(|m: RtpMap| m@)
}

/// What the lines of an SDP body have said so far.
pub struct SdpFacts {
    pub addr: Option<IpAddr>,
    pub port: Option<u16>,
    pub payload_types: Seq<u8>,
    pub maps: Seq<RtpMapView>,
}

impl SdpFacts {
    /// Nothing said yet.
    pub open spec fn none() -> Self {
        SdpFacts { addr: None, port: None, payload_types: Seq::empty(), maps: Seq::empty() }
    }

    /// The facts after one more trimmed line. A `c=` line with a third word sets the address,
    /// an `m=audio` line the port and adds its payload types, an `a=rtpmap:` line adds a map.
    #[verifier::opaque]
    pub open spec fn with_line(self, line: Seq<char>) -> Self {
        let w = words_of(line);
        let connection = starts_with(line, "c=IN IP4 "@) || starts_with(line, "c=IN IP6 "@);
        let audio = starts_with(line, "m=audio "@);
        SdpFacts {
            addr: if connection && w.len() > 2 {
                ip_of(w[2])
            } else {
                self.addr
            },
            port: if audio && w.len() >= 2 {
                number_u16(w[1])
            } else {
                self.port
            },
            payload_types: if audio {
                self.payload_types + audio_numbers(w)
            } else {
                self.payload_types
            },
            maps: match rtpmap_of(line) {
                Some(m) => self.maps.push(m),
                None => self.maps,
            },
        }
    }
}

/// The numbers from 0 to 255 among the words `w`, in order.
pub open spec fn numbers(w: Seq<Seq<char>>) -> Seq<u8>
    decreases w.len(),
{
    if w.len() == 0 {
        Seq::empty()
    } else {
        match number_u8(w[0]) {
            Some(n) => seq![n] + numbers(w.skip(1)),
            None => numbers(w.skip(1)),
        }
    }
}

/// The payload types of an `m=audio` line: the numbers from its fourth word on.
pub open spec fn audio_numbers(w: Seq<Seq<char>>) -> Seq<u8> {
    if w.len() > 3 {
        numbers(w.skip(3))
    } else {
        Seq::empty()
    }
}

/// What an `a=rtpmap:<pt> <name>/<rate>[/..]` line says, if it is one.
pub open spec fn rtpmap_of(line: Seq<char>) -> Option<RtpMapView> {
    if starts_with(line, "a=rtpmap:"@) {
        let rest = line.skip("a=rtpmap:"@.len() as int);
        let n = find_space(rest) as int;
        let mapping = if n < rest.len() {
            rest.skip(n + 1)
        } else {
            Seq::empty()
        };
        let p = pieces_of(mapping, '/');
        let rate = if p.len() > 1 {
            number_u32(p[1])
        } else {
            None
        };
        match (number_u8(rest.take(n)), rate) {
            (Some(payload_type), Some(rate)) => Some(
                RtpMapView { payload_type, name: lowered(p[0]), rate },
            ),
            _ => None,
        }
    } else {
        None
    }
}

/// The facts that `lines` say, one after the other.
#[verifier::opaque]
pub open spec fn facts_of(lines: Seq<Seq<char>>) -> SdpFacts
    decreases lines.len(),
{
    if lines.len() == 0 {
        SdpFacts::none()
    } else {
        facts_of(lines.drop_last()).with_line(trimmed(lines.last()))
    }
}

/// The first map for the payload type `pt`.
pub open spec fn map_for(maps: Seq<RtpMapView>, pt: u8) -> Option<RtpMapView>
    decreases maps.len(),
{
    if maps.len() == 0 {
        None
    } else if maps[0].payload_type == pt {
        Some(maps[0])
    } else {
        map_for(maps.skip(1), pt)
    }
}

/// The codec that the payload type `pt` stands for, at that payload type. An rtpmap wins over the
/// static assignment; without one only 0 and 8 describe themselves.
pub open spec fn resolve(maps: Seq<RtpMapView>, pt: u8) -> Option<AudioCodec> {
    match map_for(maps, pt) {
        Some(m) => if m.name == "opus"@ && m.rate == OPUS_RTP_CLOCK_RATE {
            Some(AudioCodec::Opus { payload_type: pt })
        } else if m.name == "pcmu"@ && m.rate == G711_RTP_CLOCK_RATE {
            Some(AudioCodec::pcmu(pt))
        } else if m.name == "pcma"@ && m.rate == G711_RTP_CLOCK_RATE {
            Some(AudioCodec::pcma(pt))
        } else {
            None
        },
        None => if pt == 0 {
            Some(AudioCodec::Pcmu)
        } else if pt == 8 {
            Some(AudioCodec::Pcma)
        } else {
            None
        },
    }
}

/// The codec of the first payload type that stands for one.
pub open spec fn first_codec(maps: Seq<RtpMapView>, pts: Seq<u8>) -> Option<AudioCodec>
    decreases pts.len(),
{
    if pts.len() == 0 {
        None
    } else if resolve(maps, pts[0]) is Some {
        resolve(maps, pts[0])
    } else {
        first_codec(maps, pts.skip(1))
    }
}

/// The first payload type that stands for Opus.
pub open spec fn first_opus(maps: Seq<RtpMapView>, pts: Seq<u8>) -> Option<u8>
    decreases pts.len(),
{
    if pts.len() == 0 {
        None
    } else if resolve(maps, pts[0]) matches Some(AudioCodec::Opus { .. }) {
        Some(pts[0])
    } else {
        first_opus(maps, pts.skip(1))
    }
}

/// The `telephone-event` entries among the payload types, in order, with their clocks.
pub open spec fn events_of(maps: Seq<RtpMapView>, pts: Seq<u8>) -> Seq<DtmfSpec>
    decreases pts.len(),
{
    if pts.len() == 0 {
        Seq::empty()
    } else {
        let rest = events_of(maps, pts.skip(1));
        match map_for(maps, pts[0]) {
            Some(m) => if m.name == "telephone-event"@ {
                seq![DtmfSpec { payload_type: pts[0], clock_rate: m.rate }] + rest
            } else {
                rest
            },
            None => rest,
        }
    }
}

/// The remote media that an SDP body describes, or the message that says what is missing.
pub open spec fn media_of(body: Seq<char>) -> Result<MediaView, Seq<char>> {
    let f = facts_of(lines_of(body));
    if f.addr is None {
        Err("No connection address (c=) in SDP"@)
    } else if f.port is None {
        Err("No audio media line (m=audio) in SDP"@)
    } else if f.payload_types.len() == 0 {
        Err("No payload type in m=audio line"@)
    } else {
        Ok(
            MediaView {
                addr: f.addr->0,
                port: f.port->0,
                payload_type: f.payload_types[0],
                codec: first_codec(f.maps, f.payload_types),
                opus_payload_type: first_opus(f.maps, f.payload_types),
                dtmf_events: events_of(f.maps, f.payload_types),
            },
        )
    }
}

/// Reads an `a=rtpmap:` line.
fn parse_rtpmap(line: &[char]) -> (res: Option<RtpMap>)
    ensures
        match res {
            Some(m) => rtpmap_of(line@) == Some(m@),
            None => rtpmap_of(line@) is None,
        },
{
    proof {
        reveal_strlit("a=rtpmap:");
    }
    if !has_prefix(line, "a=rtpmap:") {
        return None;
    }
    let rest = vstd::slice::slice_subrange(line, 9, line.len());
    assert(rest@ == line@.skip("a=rtpmap:"@.len() as int));
    let n: usize = position_space(rest);
    let pt_str = vstd::slice::slice_subrange(rest, 0, n);
    assert(pt_str@ == rest@.take(n as int));
    let from: usize = if n < rest.len() {
        n + 1
    } else {
        n
    };
    let mapping = vstd::slice::slice_subrange(rest, from, rest.len());
    assert(mapping@ == if n < rest@.len() {
        rest@.skip(n + 1)
    } else {
        Seq::empty()
    });
    let p = pieces(mapping, '/');
    proof {
        lemma_joined_pieces(mapping@, '/');
        assert(forall|i: int| 0 <= i < p@.len() ==> texts(p@)[i] == p@[i]@);
    }
    if p.len() < 2 {
        return None;
    }
    match (parse_u8(pt_str), parse_u32(&p[1])) {
        (Some(payload_type), Some(rate)) => {
            let name = to_lower(&p[0]);
            Some(RtpMap { payload_type, name, rate })
        },
        _ => None,
    }
}

/// The first map for the payload type `pt`.
fn lookup(maps: &Vec<RtpMap>, pt: u8) -> (res: Option<&RtpMap>)
    ensures
        match res {
            Some(m) => map_for(map_views(maps@), pt) == Some(m@),
            None => map_for(map_views(maps@), pt) is None,
        },
{
    let mut i: usize = 0;
    let ghost all = map_views(maps@);
    assert(all.skip(0) == all);
    while i < maps.len()
        invariant
            i <= maps@.len(),
            all == map_views(maps@),
            map_for(all.skip(i as int), pt) == map_for(all, pt),
        decreases maps.len() - i,
    {
        assert(all.skip(i as int)[0] == maps@[i as int]@);
        assert(all.skip(i as int).skip(1) == all.skip(i as int + 1));
        if maps[i].payload_type == pt {
            return Some(&maps[i]);
        }
        i += 1;
    }
    None
}

/// The codec that the payload type `pt` stands for.
fn resolve_codec(maps: &Vec<RtpMap>, pt: u8) -> (res: Option<AudioCodec>)
    ensures
        res == resolve(map_views(maps@), pt),
{
    match lookup(maps, pt) {
        Some(m) => {
            if same(&m.name, &chars_of("opus")) && m.rate == OPUS_RTP_CLOCK_RATE {
                Some(AudioCodec::Opus { payload_type: pt })
            } else if same(&m.name, &chars_of("pcmu")) && m.rate == G711_RTP_CLOCK_RATE {
                Some(
                    if pt == 0 {
                        AudioCodec::Pcmu
                    } else {
                        AudioCodec::PcmuAt { payload_type: pt }
                    },
                )
            } else if same(&m.name, &chars_of("pcma")) && m.rate == G711_RTP_CLOCK_RATE {
                Some(
                    if pt == 8 {
                        AudioCodec::Pcma
                    } else {
                        AudioCodec::PcmaAt { payload_type: pt }
                    },
                )
            } else {
                None
            }
        },
        None => if pt == 0 {
            Some(AudioCodec::Pcmu)
        } else if pt == 8 {
            Some(AudioCodec::Pcma)
        } else {
            None
        },
    }
}

fn find_codec(maps: &Vec<RtpMap>, pts: &[u8]) -> (res: Option<AudioCodec>)
    ensures
        res == first_codec(map_views(maps@), pts@),
    decreases pts@.len(),
{
    if pts.len() == 0 {
        return None;
    }
    let first = resolve_codec(maps, pts[0]);
    if first.is_some() {
        return first;
    }
    let rest = vstd::slice::slice_subrange(pts, 1, pts.len());
    assert(rest@ == pts@.skip(1));
    find_codec(maps, rest)
}

fn find_opus(maps: &Vec<RtpMap>, pts: &[u8]) -> (res: Option<u8>)
    ensures
        res == first_opus(map_views(maps@), pts@),
    decreases pts@.len(),
{
    if pts.len() == 0 {
        return None;
    }
    if let Some(AudioCodec::Opus { .. }) = resolve_codec(maps, pts[0]) {
        return Some(pts[0]);
    }
    let rest = vstd::slice::slice_subrange(pts, 1, pts.len());
    assert(rest@ == pts@.skip(1));
    find_opus(maps, rest)
}

fn find_events(maps: &Vec<RtpMap>, pts: &Vec<u8>) -> (res: Vec<DtmfSpec>)
    ensures
        res@ == events_of(map_views(maps@), pts@),
{
    let mut out: Vec<DtmfSpec> = Vec::new();
    let mut i: usize = 0;
    let ghost all = map_views(maps@);
    assert(pts@.skip(0) == pts@);
    assert(out@ + events_of(all, pts@) == events_of(all, pts@));
    while i < pts.len()
        invariant
            i <= pts@.len(),
            all == map_views(maps@),
            out@ + events_of(all, pts@.skip(i as int)) == events_of(all, pts@),
        decreases pts.len() - i,
    {
        let pt: u8 = pts[i];
        let ghost before = out@;
        let ghost rest = events_of(all, pts@.skip(i as int + 1));
        assert(pts@.skip(i as int).skip(1) == pts@.skip(i as int + 1));
        assert(pts@.skip(i as int)[0] == pt);
        if let Some(m) = lookup(maps, pt) {
            if same(&m.name, &chars_of("telephone-event")) {
                let d = DtmfSpec { payload_type: pt, clock_rate: m.rate };
                out.push(d);
                assert(out@ + rest == before + (seq![d] + rest));
            }
        }
        i += 1;
    }
    assert(out@ + events_of(all, pts@.skip(i as int)) == out@);
    out
}

fn push_numbers(pts: &mut Vec<u8>, w: &[Vec<char>])
    ensures
        final(pts)@ == old(pts)@ + numbers(texts(w@)),
    decreases w@.len(),
{
    if w.len() == 0 {
        assert(old(pts)@ + Seq::<u8>::empty() == old(pts)@);
        return;
    }
    let ghost before = pts@;
    assert(texts(w@)[0] == w@[0]@);
    let rest = vstd::slice::slice_subrange(w, 1, w.len());
    assert(texts(w@).skip(1) == texts(rest@));
    if let Some(n) = parse_u8(&w[0]) {
        pts.push(n);
        push_numbers(pts, rest);
        assert(pts@ == before + (seq![n] + numbers(texts(rest@))));
    } else {
        push_numbers(pts, rest);
    }
}

/// What the lines of an SDP body have said so far.
struct Scan {
    addr: Option<IpAddr>,
    port: Option<u16>,
    payload_types: Vec<u8>,
    maps: Vec<RtpMap>,
}

impl Scan {
    spec fn facts(self) -> SdpFacts {
        SdpFacts {
            addr: self.addr,
            port: self.port,
            payload_types: self.payload_types@,
            maps: map_views(self.maps@),
        }
    }

    fn audio_line(&mut self, line: &[char], w: &Vec<Vec<char>>)
        ensures
            final(self).addr == old(self).addr,
            final(self).maps == old(self).maps,
            final(self).port == if starts_with(line@, "m=audio "@) && w@.len() >= 2 {
                number_u16(texts(w@)[1])
            } else {
                old(self).port
            },
            final(self).payload_types@ == if starts_with(line@, "m=audio "@) {
                old(self).payload_types@ + audio_numbers(texts(w@))
            } else {
                old(self).payload_types@
            },
    {
        if has_prefix(line, "m=audio ") {
            if w.len() >= 2 {
                assert(texts(w@)[1] == w@[1]@);
                self.port = parse_u16(&w[1]);
            }
            if w.len() > 3 {
                let rest = vstd::slice::slice_subrange(w, 3, w.len());
                assert(texts(rest@) == texts(w@).skip(3));
                push_numbers(&mut self.payload_types, rest);
            } else {
                assert(old(self).payload_types@ + Seq::<u8>::empty() == old(self).payload_types@);
            }
        }
    }

    fn line(&mut self, line: &[char])
        ensures
            final(self).facts() == old(self).facts().with_line(line@),
    {
        proof {
            reveal(SdpFacts::with_line);
        }
        let w = words(line);
        let ghost wt = texts(w@);
        assert(wt.len() == w@.len());
        if has_prefix(line, "c=IN IP4 ") || has_prefix(line, "c=IN IP6 ") {
            if w.len() > 2 {
                assert(wt[2] == w@[2]@);
                self.addr = parse_ip(&w[2]);
            }
        }
        self.audio_line(line, &w);
        if let Some(m) = parse_rtpmap(line) {
            let ghost before = map_views(self.maps@);
            self.maps.push(m);
            assert(map_views(self.maps@) == before.push(m@));
        }
    }
}

/// Reads the connection address, audio port, codec menu and `telephone-event` entries from
/// the text of an SDP body.
pub fn parse_sdp_text(sdp: &str) -> (res: Result<RemoteMedia, String>)
    ensures
        match res {
            Ok(media) => media_of(sdp@) == Ok::<MediaView, Seq<char>>(media@),
            Err(message) => media_of(sdp@) == Err::<MediaView, Seq<char>>(message@),
        },
{
    proof {
        reveal(facts_of);
    }
    let body = chars_of(sdp);
    let all = lines(&body);
    let mut scan = Scan { addr: None, port: None, payload_types: Vec::new(), maps: Vec::new() };
    let mut i: usize = 0;
    assert(scan.facts() == SdpFacts::none()) by {
        assert(map_views(scan.maps@) == Seq::<RtpMapView>::empty());
    }
    assert(texts(all@).take(0) == Seq::<Seq<char>>::empty());
    while i < all.len()
        invariant
            i <= all@.len(),
            texts(all@) == lines_of(sdp@),
            scan.facts() == facts_of(texts(all@).take(i as int)),
        decreases all.len() - i,
    {
        let line = trim(&all[i]);
        scan.line(line);
        proof {
            lemma_facts_push(texts(all@).take(i as int), all@[i as int]@);
            assert(texts(all@).take(i as int + 1) == texts(all@).take(i as int).push(
                all@[i as int]@,
            ));
        }
        i += 1;
    }
    assert(texts(all@).take(i as int) == texts(all@));
    let addr = match scan.addr {
        Some(addr) => addr,
        None => return Err(String::from_str("No connection address (c=) in SDP")),
    };
    let port = match scan.port {
        Some(port) => port,
        None => return Err(String::from_str("No audio media line (m=audio) in SDP")),
    };
    if scan.payload_types.len() == 0 {
        return Err(String::from_str("No payload type in m=audio line"));
    }
    let codec = find_codec(&scan.maps, &scan.payload_types);
    let opus_payload_type = find_opus(&scan.maps, &scan.payload_types);
    let dtmf_events = find_events(&scan.maps, &scan.payload_types);
    Ok(
        RemoteMedia {
            addr,
            port,
            payload_type: scan.payload_types[0],
            codec,
            opus_payload_type,
            dtmf_events,
        },
    )
}

/// The remote media that the bytes of an SDP body describe, or the message that says what is
/// wrong.
pub open spec fn sdp_media(bytes: Seq<u8>) -> Result<MediaView, Seq<char>> {
    if valid_utf8(bytes) {
        media_of(decode_utf8(bytes))
    } else {
        Err("SDP not UTF-8: "@ + utf8_error(bytes))
    }
}

/// Reads the connection address, audio port, codec menu and `telephone-event` entries from an
/// SDP body.
pub fn parse_sdp(sdp_bytes: &[u8]) -> (res: Result<RemoteMedia, String>)
    ensures
        match res {
            Ok(media) => sdp_media(sdp_bytes@) == Ok::<MediaView, Seq<char>>(media@),
            Err(message) => sdp_media(sdp_bytes@) == Err::<MediaView, Seq<char>>(message@),
        },
{
    match decode(sdp_bytes) {
        Ok(sdp) => parse_sdp_text(sdp),
        Err(e) => {
            let mut message = String::from_str("SDP not UTF-8: ");
            message.append(e.as_str());
            Err(message)
        },
    }
}

proof fn lemma_wire_lines_front(lines: Seq<Seq<char>>)
    requires
        lines.len() > 0,
    ensures
        wire_lines(lines) == lines[0] + "\r\n"@ + wire_lines(lines.skip(1)),
    decreases lines.len(),
{
    if lines.len() == 1 {
        assert(lines.drop_last() == Seq::<Seq<char>>::empty());
        assert(lines.skip(1) == Seq::<Seq<char>>::empty());
        assert(wire_lines(Seq::<Seq<char>>::empty()) == Seq::<char>::empty());
        assert(wire_lines(lines) == lines[0] + "\r\n"@ + wire_lines(lines.skip(1)));
    } else {
        lemma_wire_lines_front(lines.drop_last());
        assert(lines.drop_last().skip(1) == lines.skip(1).drop_last());
        assert(lines.skip(1).last() == lines.last());
        assert(wire_lines(lines) == lines[0] + "\r\n"@ + wire_lines(lines.skip(1)));
    }
}

/// Lines that hold no line feed come back from the wire as they were.
proof fn lemma_lines_of_wire(lines: Seq<Seq<char>>)
    requires
        forall|i: int, j: int|
            0 <= i < lines.len() && 0 <= j < lines[i].len() ==> #[trigger] lines[i][j] != '\n',
    ensures
        lines_of(wire_lines(lines)) == lines,
    decreases lines.len(),
{
    reveal_strlit("\r\n");
    if lines.len() > 0 {
        let s = wire_lines(lines);
        let n = lines[0].len() as int;
        let rest = lines.skip(1);
        lemma_wire_lines_front(lines);
        assert forall|i: int, j: int|
            0 <= i < rest.len() && 0 <= j < rest[i].len() implies #[trigger] rest[i][j] != '\n' by {
            assert(lines[i + 1][j] != '\n');
        }
        lemma_lines_of_wire(rest);
        assert forall|i: int| 0 <= i < n + 1 implies s[i] != '\n' by {
            if i < n {
                assert(lines[0][i] == s[i]);
            }
        }
        lemma_find_is(s, '\n', n + 1);
        assert(s.take(n + 1) == lines[0].push('\r'));
        assert(strip_cr(s.take(n + 1)) == lines[0]);
        assert(s.skip(n + 2) == wire_lines(rest));
        assert(seq![lines[0]] + rest == lines);
    } else {
        assert(lines == Seq::<Seq<char>>::empty());
    }
}

proof fn lemma_facts_push(lines: Seq<Seq<char>>, line: Seq<char>)
    ensures
        facts_of(lines.push(line)) == facts_of(lines).with_line(trimmed(line)),
{
    reveal(facts_of);
    assert(lines.push(line).drop_last() == lines);
}

/// Whether `line` begins like none of the lines that are read.
spec fn is_other_line(line: Seq<char>) -> bool {
    &&& line.len() >= 3
    &&& line[0] != 'c'
    &&& line[0] != 'm'
    &&& (line[0] == 'a' ==> line[2] != 'r')
    &&& !is_space(line[0])
    &&& !is_space(line.last())
}

proof fn lemma_other_line(f: SdpFacts, line: Seq<char>)
    requires
        is_other_line(line),
    ensures
        f.with_line(trimmed(line)) == f,
{
    reveal(SdpFacts::with_line);
    lemma_trimmed(line);
    reveal_strlit("c=IN IP4 ");
    reveal_strlit("c=IN IP6 ");
    reveal_strlit("m=audio ");
    reveal_strlit("a=rtpmap:");
    lemma_not_prefix(line, "c=IN IP4 "@, 0);
    lemma_not_prefix(line, "c=IN IP6 "@, 0);
    lemma_not_prefix(line, "m=audio "@, 0);
    lemma_not_prefix(line, "a=rtpmap:"@, if line[0] == 'a' {
        2
    } else {
        0
    });
}

/// The start of a connection line, for an address of version 6 or another.
spec fn connection_head(v6: bool) -> Seq<char> {
    if v6 {
        "c=IN IP6 "@
    } else {
        "c=IN IP4 "@
    }
}

proof fn lemma_connection_words(v6: bool, ip: IpAddr)
    ensures
        words_of(connection_head(v6) + ip.text()).len() == 3,
        words_of(connection_head(v6) + ip.text())[2] == ip.text(),
        trimmed(connection_head(v6) + ip.text()) == connection_head(v6) + ip.text(),
{
    let line = connection_head(v6) + ip.text();
    reveal_strlit("c=IN IP4 ");
    reveal_strlit("c=IN IP6 ");
    lemma_ip_is_a_word(ip);
    let a = seq!['c', '=', 'I', 'N'];
    let b = seq![
        'I',
        'P',
        if v6 {
            '6'
        } else {
            '4'
        },
    ];
    let p = seq![a, b, ip.text()];
    assert(line == joined(p, ' ')) by {
        reveal_with_fuel(joined, 3);
        assert(p.skip(1).skip(1) == seq![ip.text()]);
    }
    assert forall|i: int, j: int| 0 <= i < p.len() && 0 <= j < p[i].len() implies !is_space(
        #[trigger] p[i][j],
    ) by {
        if i == 2 {
            assert(!is_space(ip.text()[j]));
        }
    }
    lemma_words_joined(p);
    lemma_trimmed(line);
}

proof fn lemma_connection_line(f: SdpFacts, v6: bool, ip: IpAddr)
    ensures
        f.with_line(trimmed(connection_head(v6) + ip.text())) == (SdpFacts { addr: Some(ip), ..f }),
{
    reveal(SdpFacts::with_line);
    let line = connection_head(v6) + ip.text();
    lemma_connection_words(v6, ip);
    ip_text_reads_back(ip);
    lemma_is_prefix(connection_head(v6), ip.text());
    reveal_strlit("c=IN IP4 ");
    reveal_strlit("c=IN IP6 ");
    reveal_strlit("m=audio ");
    reveal_strlit("a=rtpmap:");
    lemma_not_prefix(line, "m=audio "@, 0);
    lemma_not_prefix(line, "a=rtpmap:"@, 0);
}

proof fn lemma_numbers_of_decimals(pts: Seq<u8>)
    ensures
        numbers(decimals(pts)) == pts,
    decreases pts.len(),
{
    if pts.len() > 0 {
        lemma_unsigned_decimal(pts[0] as nat, 255);
        lemma_numbers_of_decimals(pts.skip(1));
        assert(decimals(pts).skip(1) == decimals(pts.skip(1)));
        assert(seq![pts[0]] + pts.skip(1) == pts);
    } else {
        assert(pts == Seq::<u8>::empty());
    }
}

spec fn audio_line(port: u16, pts: Seq<u8>) -> Seq<char> {
    "m=audio "@ + decimal(port as nat) + " RTP/AVP "@ + joined(decimals(pts), ' ')
}

proof fn lemma_audio_words(port: u16, pts: Seq<u8>)
    requires
        pts.len() > 0,
    ensures
        words_of(audio_line(port, pts)).len() > 3,
        words_of(audio_line(port, pts))[1] == decimal(port as nat),
        words_of(audio_line(port, pts)).skip(3) == decimals(pts),
        trimmed(audio_line(port, pts)) == audio_line(port, pts),
{
    let line = audio_line(port, pts);
    reveal_strlit("m=audio ");
    reveal_strlit(" RTP/AVP ");
    lemma_decimal(port as nat);
    let a = seq!['m', '=', 'a', 'u', 'd', 'i', 'o'];
    let b = seq!['R', 'T', 'P', '/', 'A', 'V', 'P'];
    let d = decimals(pts);
    let p = seq![a, decimal(port as nat), b] + d;
    assert(p.skip(3) == d);
    assert(line == joined(p, ' ')) by {
        let p1 = p.skip(1);
        let p2 = p1.skip(1);
        assert(p2.skip(1) == d);
        assert(joined(p2, ' ') == b.push(' ') + joined(d, ' '));
        assert(joined(p1, ' ') == decimal(port as nat).push(' ') + joined(p2, ' '));
        assert(joined(p, ' ') == a.push(' ') + joined(p1, ' '));
        assert(line == joined(p, ' '));
    }
    assert forall|i: int| 0 <= i < p.len() implies (#[trigger] p[i]).len() > 0 by {
        if i >= 3 {
            lemma_decimal(pts[i - 3] as nat);
        }
    }
    assert forall|i: int, j: int| 0 <= i < p.len() && 0 <= j < p[i].len() implies !is_space(
        #[trigger] p[i][j],
    ) by {
        if i >= 3 {
            lemma_decimal(pts[i - 3] as nat);
            assert(is_digit(p[i][j]));
        } else if i == 1 {
            assert(is_digit(p[i][j]));
        }
    }
    lemma_words_joined(p);
    lemma_trimmed(line);
}

proof fn lemma_audio_line(f: SdpFacts, port: u16, pts: Seq<u8>)
    requires
        pts.len() > 0,
    ensures
        f.with_line(trimmed(audio_line(port, pts))) == (SdpFacts {
            port: Some(port),
            payload_types: f.payload_types + pts,
            ..f
        }),
{
    reveal(SdpFacts::with_line);
    let line = audio_line(port, pts);
    lemma_audio_words(port, pts);
    lemma_unsigned_decimal(port as nat, 65535);
    lemma_numbers_of_decimals(pts);
    let rest = decimal(port as nat) + " RTP/AVP "@ + joined(decimals(pts), ' ');
    assert(line == "m=audio "@ + rest);
    lemma_is_prefix("m=audio "@, rest);
    reveal_strlit("m=audio ");
    reveal_strlit("c=IN IP4 ");
    reveal_strlit("c=IN IP6 ");
    reveal_strlit("a=rtpmap:");
    lemma_not_prefix(line, "c=IN IP4 "@, 0);
    lemma_not_prefix(line, "c=IN IP6 "@, 0);
    lemma_not_prefix(line, "a=rtpmap:"@, 0);
}

/// An rtpmap line starts as such a line does, and as no other.
proof fn lemma_rtpmap_prefix(pt: u8, enc: Seq<char>)
    ensures
        ({
            let line = rtpmap_line(pt, enc);
            &&& starts_with(line, "a=rtpmap:"@)
            &&& !starts_with(line, "c=IN IP4 "@)
            &&& !starts_with(line, "c=IN IP6 "@)
            &&& !starts_with(line, "m=audio "@)
            &&& "a=rtpmap:"@.len() == 9
            &&& line.skip(9) == decimal(pt as nat) + " "@ + enc
            &&& line.len() > 9
            &&& !is_space(line[0])
        }),
{
    let line = rtpmap_line(pt, enc);
    let rest = decimal(pt as nat) + " "@ + enc;
    reveal_strlit("c=IN IP4 ");
    reveal_strlit("c=IN IP6 ");
    reveal_strlit("m=audio ");
    reveal_strlit("a=rtpmap:");
    reveal_strlit(" ");
    assert(line == "a=rtpmap:"@ + rest);
    lemma_is_prefix("a=rtpmap:"@, rest);
    lemma_not_prefix(line, "c=IN IP4 "@, 0);
    lemma_not_prefix(line, "c=IN IP6 "@, 0);
    lemma_not_prefix(line, "m=audio "@, 0);
    assert(line.skip(9) == rest);
}

/// Behind its prefix an rtpmap line parts into the payload type and the encoding.
proof fn lemma_rtpmap_parts(pt: u8, enc: Seq<char>)
    ensures
        ({
            let rest = decimal(pt as nat) + " "@ + enc;
            let n = decimal(pt as nat).len() as int;
            &&& find_space(rest) == n
            &&& n < rest.len()
            &&& rest.take(n) == decimal(pt as nat)
            &&& rest.skip(n + 1) == enc
        }),
{
    let rest = decimal(pt as nat) + " "@ + enc;
    let n = decimal(pt as nat).len() as int;
    reveal_strlit(" ");
    lemma_decimal(pt as nat);
    assert forall|i: int| 0 <= i < n implies !is_space(rest[i]) by {
        assert(is_digit(decimal(pt as nat)[i]));
    }
    lemma_find_space_is(rest, n);
    assert(rest.take(n) == decimal(pt as nat));
    assert(rest.skip(n + 1) == enc);
}

/// An rtpmap line that was built from `parts` reads back.
proof fn lemma_rtpmap_line(f: SdpFacts, pt: u8, parts: Seq<Seq<char>>, rate: u32)
    requires
        parts.len() >= 2,
        parts[1] == decimal(rate as nat),
        parts.last().len() > 0,
        forall|i: int, j: int|
            0 <= i < parts.len() && 0 <= j < parts[i].len() ==> #[trigger] parts[i][j] != '/'
                && !is_space(parts[i][j]),
    ensures
        f.with_line(trimmed(rtpmap_line(pt, joined(parts, '/')))) == (SdpFacts {
            maps: f.maps.push(RtpMapView { payload_type: pt, name: lowered(parts[0]), rate }),
            ..f
        }),
{
    reveal(SdpFacts::with_line);
    let enc = joined(parts, '/');
    let line = rtpmap_line(pt, enc);
    lemma_unsigned_decimal(pt as nat, 255);
    lemma_unsigned_decimal(rate as nat, 0xffff_ffff);
    lemma_pieces_joined(parts, '/');
    lemma_rtpmap_prefix(pt, enc);
    lemma_rtpmap_parts(pt, enc);
    assert(trimmed(line) == line) by {
        lemma_joined_last(parts, '/');
        assert(line.last() == enc.last());
        assert(parts[parts.len() - 1][parts.last().len() - 1] == enc.last());
        lemma_trimmed(line);
    }
}

proof fn lemma_joined_last(p: Seq<Seq<char>>, c: char)
    requires
        p.len() > 0,
        p.last().len() > 0,
    ensures
        joined(p, c).len() > 0,
        joined(p, c).last() == p.last().last(),
    decreases p.len(),
{
    if p.len() > 1 {
        lemma_joined_last(p.skip(1), c);
    }
}

proof fn lemma_fmtp_line(f: SdpFacts, pt: u8, parameters: Seq<char>)
    requires
        parameters.len() > 0,
        !is_space(parameters.last()),
    ensures
        f.with_line(trimmed(fmtp_line(pt, parameters))) == f,
{
    reveal_strlit("a=fmtp:");
    lemma_other_line(f, fmtp_line(pt, parameters));
}

/// The rtpmap that the codec is described by.
pub open spec fn codec_map(codec: AudioCodec) -> RtpMapView {
    RtpMapView {
        payload_type: codec.pt(),
        name: match codec {
            AudioCodec::Pcmu | AudioCodec::PcmuAt { .. } => "pcmu"@,
            AudioCodec::Pcma | AudioCodec::PcmaAt { .. } => "pcma"@,
            AudioCodec::Opus { .. } => "opus"@,
        },
        rate: codec.clock(),
    }
}

/// The rtpmap that a `telephone-event` entry is described by.
pub open spec fn event_map(d: DtmfSpec) -> RtpMapView {
    RtpMapView {
        payload_type: d.payload_type,
        name: "telephone-event"@,
        rate: d.clock_rate,
    }
}

spec fn encoding_parts(codec: AudioCodec) -> Seq<Seq<char>> {
    match codec {
        AudioCodec::Pcmu | AudioCodec::PcmuAt { .. } => seq!["PCMU"@, decimal(8000)],
        AudioCodec::Pcma | AudioCodec::PcmaAt { .. } => seq!["PCMA"@, decimal(8000)],
        AudioCodec::Opus { .. } => seq!["opus"@, decimal(48000), "2"@],
    }
}

proof fn lemma_encoding_parts(codec: AudioCodec)
    ensures
        codec.encoding() == joined(encoding_parts(codec), '/'),
        lowered(encoding_parts(codec)[0]) == codec_map(codec).name,
        encoding_parts(codec).last().len() > 0,
        forall|i: int, j: int|
            0 <= i < encoding_parts(codec).len() && 0 <= j < encoding_parts(codec)[i].len()
                ==> #[trigger] encoding_parts(codec)[i][j] != '/' && !is_space(
                encoding_parts(codec)[i][j],
            ),
{
    reveal_strlit("PCMU/8000");
    reveal_strlit("PCMA/8000");
    reveal_strlit("opus/48000/2");
    reveal_strlit("PCMU");
    reveal_strlit("PCMA");
    reveal_strlit("pcmu");
    reveal_strlit("pcma");
    reveal_strlit("opus");
    reveal_strlit("2");
    reveal_with_fuel(decimal, 6);
    reveal_with_fuel(joined, 4);
    let p = encoding_parts(codec);
    assert(decimal(8000) == seq!['8', '0', '0', '0']);
    assert(decimal(48000) == seq!['4', '8', '0', '0', '0']);
    match codec {
        AudioCodec::Opus { .. } => {
            assert(p.skip(1).skip(1) == seq!["2"@]);
        },
        _ => {
            assert(p.skip(1) == seq![decimal(8000)]);
        },
    }
    assert(codec.encoding() == joined(p, '/'));
    assert(lowered(p[0]) == codec_map(codec).name);
}

proof fn lemma_codec_lines(lines: Seq<Seq<char>>, codec: AudioCodec)
    ensures
        facts_of(lines + codec_lines(codec)) == (SdpFacts {
            maps: facts_of(lines).maps.push(codec_map(codec)),
            ..facts_of(lines)
        }),
{
    let map = rtpmap_line(codec.pt(), codec.encoding());
    let p = encoding_parts(codec);
    lemma_encoding_parts(codec);
    assert(p[1] == decimal(codec.clock() as nat));
    lemma_facts_push(lines, map);
    lemma_rtpmap_line(facts_of(lines), codec.pt(), p, codec.clock());
    if let AudioCodec::Opus { payload_type } = codec {
        let fmtp = fmtp_line(payload_type, "useinbandfec=1"@);
        lemma_facts_push(lines.push(map), fmtp);
        reveal_strlit("useinbandfec=1");
        lemma_fmtp_line(facts_of(lines.push(map)), payload_type, "useinbandfec=1"@);
        assert(lines.push(map).push(fmtp) == lines + codec_lines(codec));
    } else {
        assert(lines.push(map) == lines + codec_lines(codec));
    }
}

proof fn lemma_event_lines(lines: Seq<Seq<char>>, d: DtmfSpec)
    ensures
        facts_of(lines + event_lines(d)) == (SdpFacts {
            maps: facts_of(lines).maps.push(event_map(d)),
            ..facts_of(lines)
        }),
{
    let clock = decimal(d.clock_rate as nat);
    let enc = "telephone-event/"@ + clock;
    let p = seq!["telephone-event"@, clock];
    reveal_strlit("telephone-event/");
    reveal_strlit("telephone-event");
    lemma_decimal(d.clock_rate as nat);
    assert(p.skip(1) == seq![clock]);
    reveal_with_fuel(joined, 2);
    assert(enc == joined(p, '/'));
    assert(lowered(p[0]) == "telephone-event"@);
    assert forall|i: int, j: int| 0 <= i < p.len() && 0 <= j < p[i].len() implies #[trigger] p[i][j]
        != '/' && !is_space(p[i][j]) by {
        if i == 1 {
            assert(is_digit(clock[j]));
        }
    }
    let map = rtpmap_line(d.payload_type, enc);
    let fmtp = fmtp_line(d.payload_type, "0-15"@);
    lemma_facts_push(lines, map);
    lemma_rtpmap_line(facts_of(lines), d.payload_type, p, d.clock_rate);
    lemma_facts_push(lines.push(map), fmtp);
    reveal_strlit("0-15");
    lemma_fmtp_line(facts_of(lines.push(map)), d.payload_type, "0-15"@);
    assert(lines.push(map).push(fmtp) == lines + event_lines(d));
}

impl CodecMenu {
    /// The rtpmaps that the menu is described by.
    pub open spec fn maps(self) -> Seq<RtpMapView> {
        match self {
            CodecMenu::Full => seq![
                codec_map(AudioCodec::Opus { payload_type: OPUS_DEFAULT_PT }),
                codec_map(AudioCodec::Pcmu),
                codec_map(AudioCodec::Pcma),
                event_map(DtmfSpec { payload_type: DTMF_DEFAULT_PT, clock_rate: 8000 }),
                event_map(
                    DtmfSpec {
                        payload_type: DTMF_WIDEBAND_DEFAULT_PT,
                        clock_rate: OPUS_RTP_CLOCK_RATE,
                    },
                ),
            ],
            CodecMenu::Pinned { codec, dtmf: None } => seq![codec_map(codec)],
            CodecMenu::Pinned { codec, dtmf: Some(d) } => seq![codec_map(codec), event_map(d)],
        }
    }
}

proof fn lemma_attributes(lines: Seq<Seq<char>>, menu: CodecMenu)
    requires
        facts_of(lines).maps == Seq::<RtpMapView>::empty(),
    ensures
        facts_of(lines + menu.attributes()) == (SdpFacts { maps: menu.maps(), ..facts_of(lines) }),
{
    match menu {
        CodecMenu::Full => {
            let opus = AudioCodec::Opus { payload_type: OPUS_DEFAULT_PT };
            let narrow = DtmfSpec { payload_type: DTMF_DEFAULT_PT, clock_rate: 8000 };
            let wide = DtmfSpec {
                payload_type: DTMF_WIDEBAND_DEFAULT_PT,
                clock_rate: OPUS_RTP_CLOCK_RATE,
            };
            let a = lines + codec_lines(opus);
            let b = a + codec_lines(AudioCodec::Pcmu);
            let c = b + codec_lines(AudioCodec::Pcma);
            let d = c + event_lines(narrow);
            lemma_codec_lines(lines, opus);
            lemma_codec_lines(a, AudioCodec::Pcmu);
            lemma_codec_lines(b, AudioCodec::Pcma);
            lemma_event_lines(c, narrow);
            lemma_event_lines(d, wide);
            assert(d + event_lines(wide) == lines + menu.attributes());
            assert(facts_of(d + event_lines(wide)).maps == menu.maps());
        },
        CodecMenu::Pinned { codec, dtmf } => {
            lemma_codec_lines(lines, codec);
            if let Some(d) = dtmf {
                lemma_event_lines(lines + codec_lines(codec), d);
                assert(lines + codec_lines(codec) + event_lines(d) == lines + menu.attributes());
            }
            assert(facts_of(lines + menu.attributes()).maps == menu.maps());
        },
    }
}

/// What the lines of a body that was built here say.
proof fn lemma_facts_of_body(
    ip: IpAddr,
    port: u16,
    menu: CodecMenu,
    direction: MediaDirection,
    version: u32,
)
    ensures
        facts_of(sdp_lines(ip, port, menu, direction, version)) == (SdpFacts {
            addr: Some(ip),
            port: Some(port),
            payload_types: menu.payload_types(),
            maps: menu.maps(),
        }),
{
    let all = sdp_lines(ip, port, menu, direction, version);
    let none = Seq::<Seq<char>>::empty();
    assert(facts_of(none) == SdpFacts::none()) by {
        reveal(facts_of);
    }
    let l1 = none.push(all[0]);
    let l2 = l1.push(all[1]);
    let l3 = l2.push(all[2]);
    let l4 = l3.push(all[3]);
    let l5 = l4.push(all[4]);
    let l6 = l5.push(all[5]);
    let l7 = l6 + menu.attributes();
    let last = "a="@ + direction.text();
    lemma_facts_push(none, all[0]);
    lemma_facts_push(l1, all[1]);
    lemma_facts_push(l2, all[2]);
    lemma_facts_push(l3, all[3]);
    lemma_facts_push(l4, all[4]);
    lemma_facts_push(l5, all[5]);
    lemma_facts_push(l7, last);
    assert(l7.push(last) == all);
    assert(is_other_line(all[0])) by {
        reveal_strlit("v=0");
    }
    assert(is_other_line(all[1])) by {
        reveal_strlit("o=wavekat 0 ");
        lemma_ip_is_a_word(ip);
        assert(all[1].last() == ip.text().last());
    }
    assert(is_other_line(all[2])) by {
        reveal_strlit("s=wavekat-sip");
    }
    assert(is_other_line(all[4])) by {
        reveal_strlit("t=0 0");
    }
    assert(is_other_line(last)) by {
        reveal_strlit("a=");
        reveal_strlit("sendrecv");
        reveal_strlit("sendonly");
        reveal_strlit("inactive");
    }
    lemma_other_line(facts_of(none), all[0]);
    lemma_other_line(facts_of(l1), all[1]);
    lemma_other_line(facts_of(l2), all[2]);
    lemma_connection_line(facts_of(l3), false, ip);
    lemma_other_line(facts_of(l4), all[4]);
    lemma_audio_line(facts_of(l5), port, menu.payload_types());
    assert(Seq::<u8>::empty() + menu.payload_types() == menu.payload_types());
    lemma_attributes(l6, menu);
    lemma_other_line(facts_of(l7), last);
}

/// Whether `line` holds no line feed.
spec fn is_one_line(line: Seq<char>) -> bool {
    forall|i: int| 0 <= i < line.len() ==> #[trigger] line[i] != '\n'
}

proof fn lemma_one_line_concat(a: Seq<char>, b: Seq<char>)
    requires
        is_one_line(a),
        is_one_line(b),
    ensures
        is_one_line(a + b),
{
    let t = a + b;
    assert forall|i: int| 0 <= i < t.len() implies #[trigger] t[i] != '\n' by {
        if i < a.len() {
            assert(t[i] == a[i]);
        } else {
            assert(t[i] == b[i - a.len()]);
        }
    }
}

proof fn lemma_one_line_decimal(n: nat)
    ensures
        is_one_line(decimal(n)),
{
    lemma_decimal(n);
    assert forall|i: int| 0 <= i < decimal(n).len() implies #[trigger] decimal(n)[i] != '\n' by {
        assert(is_digit(decimal(n)[i]));
    }
}

proof fn lemma_one_line_decimals(pts: Seq<u8>)
    ensures
        is_one_line(joined(decimals(pts), ' ')),
    decreases pts.len(),
{
    if pts.len() > 0 {
        lemma_one_line_decimal(pts[0] as nat);
        if pts.len() > 1 {
            lemma_one_line_decimals(pts.skip(1));
            assert(decimals(pts).skip(1) == decimals(pts.skip(1)));
            let head = decimal(pts[0] as nat).push(' ');
            assert(is_one_line(head)) by {
                assert forall|i: int| 0 <= i < head.len() implies #[trigger] head[i] != '\n' by {
                    if i < decimal(pts[0] as nat).len() {
                        assert(head[i] == decimal(pts[0] as nat)[i]);
                    }
                }
            }
            lemma_one_line_concat(head, joined(decimals(pts.skip(1)), ' '));
        }
    }
}

proof fn lemma_one_line_map(pt: u8, encoding: Seq<char>)
    requires
        is_one_line(encoding),
    ensures
        is_one_line(rtpmap_line(pt, encoding)),
        is_one_line(fmtp_line(pt, encoding)),
{
    lemma_one_line_decimal(pt as nat);
    let d = decimal(pt as nat);
    reveal_strlit("a=rtpmap:");
    reveal_strlit("a=fmtp:");
    reveal_strlit(" ");
    lemma_one_line_concat("a=rtpmap:"@, d);
    lemma_one_line_concat("a=rtpmap:"@ + d, " "@);
    lemma_one_line_concat("a=rtpmap:"@ + d + " "@, encoding);
    lemma_one_line_concat("a=fmtp:"@, d);
    lemma_one_line_concat("a=fmtp:"@ + d, " "@);
    lemma_one_line_concat("a=fmtp:"@ + d + " "@, encoding);
}

spec fn are_lines(lines: Seq<Seq<char>>) -> bool {
    forall|i: int| 0 <= i < lines.len() ==> is_one_line(#[trigger] lines[i])
}

proof fn lemma_are_lines_concat(a: Seq<Seq<char>>, b: Seq<Seq<char>>)
    requires
        are_lines(a),
        are_lines(b),
    ensures
        are_lines(a + b),
{
    let t = a + b;
    assert forall|i: int| 0 <= i < t.len() implies is_one_line(#[trigger] t[i]) by {
        if i < a.len() {
            assert(t[i] == a[i]);
        } else {
            assert(t[i] == b[i - a.len()]);
        }
    }
}

proof fn lemma_are_lines_codec(codec: AudioCodec)
    ensures
        are_lines(codec_lines(codec)),
{
    reveal_strlit("PCMU/8000");
    reveal_strlit("PCMA/8000");
    reveal_strlit("opus/48000/2");
    reveal_strlit("useinbandfec=1");
    lemma_one_line_map(codec.pt(), codec.encoding());
    lemma_one_line_map(codec.pt(), "useinbandfec=1"@);
}

proof fn lemma_are_lines_event(d: DtmfSpec)
    ensures
        are_lines(event_lines(d)),
{
    reveal_strlit("telephone-event/");
    reveal_strlit("0-15");
    lemma_one_line_decimal(d.clock_rate as nat);
    lemma_one_line_concat("telephone-event/"@, decimal(d.clock_rate as nat));
    lemma_one_line_map(d.payload_type, "telephone-event/"@ + decimal(d.clock_rate as nat));
    lemma_one_line_map(d.payload_type, "0-15"@);
}

proof fn lemma_are_lines_menu(menu: CodecMenu)
    ensures
        are_lines(menu.attributes()),
{
    match menu {
        CodecMenu::Full => {
            let opus = AudioCodec::Opus { payload_type: OPUS_DEFAULT_PT };
            let narrow = DtmfSpec { payload_type: DTMF_DEFAULT_PT, clock_rate: 8000 };
            let wide = DtmfSpec {
                payload_type: DTMF_WIDEBAND_DEFAULT_PT,
                clock_rate: OPUS_RTP_CLOCK_RATE,
            };
            lemma_are_lines_codec(opus);
            lemma_are_lines_codec(AudioCodec::Pcmu);
            lemma_are_lines_codec(AudioCodec::Pcma);
            lemma_are_lines_event(narrow);
            lemma_are_lines_event(wide);
            let a = codec_lines(opus) + codec_lines(AudioCodec::Pcmu);
            let b = a + codec_lines(AudioCodec::Pcma);
            let c = b + event_lines(narrow);
            lemma_are_lines_concat(codec_lines(opus), codec_lines(AudioCodec::Pcmu));
            lemma_are_lines_concat(a, codec_lines(AudioCodec::Pcma));
            lemma_are_lines_concat(b, event_lines(narrow));
            lemma_are_lines_concat(c, event_lines(wide));
        },
        CodecMenu::Pinned { codec, dtmf } => {
            lemma_are_lines_codec(codec);
            if let Some(d) = dtmf {
                lemma_are_lines_event(d);
                lemma_are_lines_concat(codec_lines(codec), event_lines(d));
            }
        },
    }
}

proof fn lemma_are_lines_body(
    ip: IpAddr,
    port: u16,
    menu: CodecMenu,
    direction: MediaDirection,
    version: u32,
)
    ensures
        are_lines(sdp_lines(ip, port, menu, direction, version)),
{
    let all = sdp_lines(ip, port, menu, direction, version);
    reveal_strlit("v=0");
    reveal_strlit("o=wavekat 0 ");
    reveal_strlit(" IN IP4 ");
    reveal_strlit("s=wavekat-sip");
    reveal_strlit("c=IN IP4 ");
    reveal_strlit("t=0 0");
    reveal_strlit("m=audio ");
    reveal_strlit(" RTP/AVP ");
    reveal_strlit("a=");
    reveal_strlit("sendrecv");
    reveal_strlit("sendonly");
    reveal_strlit("inactive");
    let v = decimal(version as nat);
    let r = decimal(port as nat);
    lemma_one_line_decimal(version as nat);
    lemma_one_line_decimal(port as nat);
    lemma_one_line_decimals(menu.payload_types());
    lemma_ip_is_a_word(ip);
    assert(is_one_line(ip.text())) by {
        assert forall|i: int| 0 <= i < ip.text().len() implies #[trigger] ip.text()[i] != '\n' by {
            assert(!is_space(ip.text()[i]));
        }
    }
    lemma_one_line_concat("o=wavekat 0 "@, v);
    lemma_one_line_concat("o=wavekat 0 "@ + v, " IN IP4 "@);
    lemma_one_line_concat("o=wavekat 0 "@ + v + " IN IP4 "@, ip.text());
    lemma_one_line_concat("c=IN IP4 "@, ip.text());
    lemma_one_line_concat("m=audio "@, r);
    lemma_one_line_concat("m=audio "@ + r, " RTP/AVP "@);
    lemma_one_line_concat(
        "m=audio "@ + r + " RTP/AVP "@,
        joined(decimals(menu.payload_types()), ' '),
    );
    lemma_one_line_concat("a="@, direction.text());
    lemma_are_lines_menu(menu);
    let head = seq![all[0], all[1], all[2], all[3], all[4], all[5]];
    assert(are_lines(head));
    lemma_are_lines_concat(head, menu.attributes());
    let tail = seq!["a="@ + direction.text()];
    assert(are_lines(tail));
    lemma_are_lines_concat(head + menu.attributes(), tail);
    assert(all == head + menu.attributes() + tail);
}

/// The media that a body with the given menu describes.
pub open spec fn menu_media(ip: IpAddr, port: u16, menu: CodecMenu) -> MediaView {
    match menu {
        CodecMenu::Full => MediaView {
            addr: ip,
            port,
            payload_type: OPUS_DEFAULT_PT,
            codec: Some(AudioCodec::Opus { payload_type: OPUS_DEFAULT_PT }),
            opus_payload_type: Some(OPUS_DEFAULT_PT),
            dtmf_events: seq![
                DtmfSpec { payload_type: DTMF_DEFAULT_PT, clock_rate: G711_RTP_CLOCK_RATE },
                DtmfSpec {
                    payload_type: DTMF_WIDEBAND_DEFAULT_PT,
                    clock_rate: OPUS_RTP_CLOCK_RATE,
                },
            ],
        },
        CodecMenu::Pinned { codec, dtmf } => MediaView {
            addr: ip,
            port,
            payload_type: codec.pt(),
            codec: Some(codec.resolved()),
            opus_payload_type: match codec {
                AudioCodec::Opus { payload_type } => Some(payload_type),
                _ => None,
            },
            dtmf_events: match dtmf {
                Some(d) => seq![d],
                None => Seq::empty(),
            },
        },
    }
}

proof fn lemma_names_differ()
    ensures
        "opus"@ != "pcmu"@,
        "opus"@ != "pcma"@,
        "pcmu"@ != "pcma"@,
        "telephone-event"@ != "opus"@,
        "telephone-event"@ != "pcmu"@,
        "telephone-event"@ != "pcma"@,
{
    reveal_strlit("opus");
    reveal_strlit("pcmu");
    reveal_strlit("pcma");
    reveal_strlit("telephone-event");
    assert("opus"@[0] == 'o');
    assert("pcmu"@[0] == 'p' && "pcmu"@[3] == 'u');
    assert("pcma"@[0] == 'p' && "pcma"@[3] == 'a');
    assert("telephone-event"@[0] == 't');
}

proof fn lemma_full_menu()
    ensures
        first_codec(CodecMenu::Full.maps(), CodecMenu::Full.payload_types()) == Some(
            AudioCodec::Opus { payload_type: OPUS_DEFAULT_PT },
        ),
        first_opus(CodecMenu::Full.maps(), CodecMenu::Full.payload_types()) == Some(
            OPUS_DEFAULT_PT,
        ),
        events_of(CodecMenu::Full.maps(), CodecMenu::Full.payload_types()) == seq![
            DtmfSpec { payload_type: DTMF_DEFAULT_PT, clock_rate: G711_RTP_CLOCK_RATE },
            DtmfSpec { payload_type: DTMF_WIDEBAND_DEFAULT_PT, clock_rate: OPUS_RTP_CLOCK_RATE },
        ],
{
    lemma_names_differ();
    let m = CodecMenu::Full.maps();
    let p = CodecMenu::Full.payload_types();
    reveal_with_fuel(map_for, 6);
    let m1 = m.skip(1);
    let m2 = m1.skip(1);
    let m3 = m2.skip(1);
    let m4 = m3.skip(1);
    assert(map_for(m, 111) == Some(m[0]));
    assert(map_for(m, 0) == Some(m[1])) by {
        assert(m1[0] == m[1]);
    }
    assert(map_for(m, 8) == Some(m[2])) by {
        assert(m1[0] == m[1] && m2[0] == m[2]);
    }
    assert(map_for(m, 101) == Some(m[3])) by {
        assert(m1[0] == m[1] && m2[0] == m[2] && m3[0] == m[3]);
    }
    assert(map_for(m, 110) == Some(m[4])) by {
        assert(m1[0] == m[1] && m2[0] == m[2] && m3[0] == m[3] && m4[0] == m[4]);
    }
    let p1 = p.skip(1);
    let p2 = p1.skip(1);
    let p3 = p2.skip(1);
    let p4 = p3.skip(1);
    let e3 = DtmfSpec { payload_type: DTMF_DEFAULT_PT, clock_rate: G711_RTP_CLOCK_RATE };
    let e4 = DtmfSpec { payload_type: DTMF_WIDEBAND_DEFAULT_PT, clock_rate: OPUS_RTP_CLOCK_RATE };
    assert(p4.skip(1) == Seq::<u8>::empty());
    assert(events_of(m, p4.skip(1)) == Seq::<DtmfSpec>::empty());
    assert(events_of(m, p4) == seq![e4]);
    assert(events_of(m, p3) == seq![e3, e4]);
    assert(events_of(m, p2) == seq![e3, e4]);
    assert(events_of(m, p1) == seq![e3, e4]);
}

proof fn lemma_pinned_menu(codec: AudioCodec, dtmf: Option<DtmfSpec>)
    requires
        dtmf matches Some(d) ==> d.payload_type != codec.pt(),
    ensures
        ({
            let menu = CodecMenu::Pinned { codec, dtmf };
            let media = menu_media(IpAddr::V4(crate::net::Ipv4Addr(0, 0, 0, 0)), 0, menu);
            &&& first_codec(menu.maps(), menu.payload_types()) == media.codec
            &&& first_opus(menu.maps(), menu.payload_types()) == media.opus_payload_type
            &&& events_of(menu.maps(), menu.payload_types()) == media.dtmf_events
        }),
{
    lemma_names_differ();
    let menu = CodecMenu::Pinned { codec, dtmf };
    let m = menu.maps();
    let p = menu.payload_types();
    assert(map_for(m, codec.pt()) == Some(codec_map(codec)));
    assert(resolve(m, codec.pt()) == Some(codec.resolved()));
    if let Some(d) = dtmf {
        assert(m.skip(1) == seq![event_map(d)]);
        assert(map_for(m.skip(1), d.payload_type) == Some(event_map(d)));
        assert(map_for(m, d.payload_type) == Some(event_map(d)));
        assert(resolve(m, d.payload_type) is None);
        assert(p.skip(1) == seq![d.payload_type]);
        assert(p.skip(1).skip(1) == Seq::<u8>::empty());
        assert(events_of(m, p.skip(1).skip(1)) == Seq::<DtmfSpec>::empty());
        assert(events_of(m, p.skip(1)) == seq![d]);
        assert(first_opus(m, p.skip(1).skip(1)) is None);
        assert(first_opus(m, p.skip(1)) is None);
    } else {
        assert(p.skip(1) == Seq::<u8>::empty());
        assert(first_opus(m, p.skip(1)) is None);
        assert(events_of(m, p.skip(1)) == Seq::<DtmfSpec>::empty());
    }
}

/// Reading a body that was built here gives back the address, the port, the codec and the
/// `telephone-event` entries it was built with, whatever the direction and the version. A
/// pinned menu must not put its event entry on the payload type of its codec.
pub proof fn sdp_reads_back(
    ip: IpAddr,
    port: u16,
    menu: CodecMenu,
    direction: MediaDirection,
    version: u32,
)
    requires
        menu matches CodecMenu::Pinned { codec, dtmf: Some(d) } ==> d.payload_type != codec.pt(),
    ensures
        sdp_media(encode_utf8(sdp_text(ip, port, menu, direction, version))) == Ok::<
            MediaView,
            Seq<char>,
        >(menu_media(ip, port, menu)),
        offered_numbers(encode_utf8(sdp_text(ip, port, menu, direction, version)))
            == menu.payload_types(),
{
    let body = sdp_text(ip, port, menu, direction, version);
    encode_utf8_valid_utf8(body);
    encode_utf8_decode_utf8(body);
    let all = sdp_lines(ip, port, menu, direction, version);
    lemma_are_lines_body(ip, port, menu, direction, version);
    assert forall|i: int, j: int| 0 <= i < all.len() && 0 <= j < all[i].len() implies #[trigger] all[i][j]
        != '\n' by {
        assert(is_one_line(all[i]));
    }
    lemma_lines_of_wire(all);
    lemma_facts_of_body(ip, port, menu, direction, version);
    match menu {
        CodecMenu::Full => {
            lemma_full_menu();
        },
        CodecMenu::Pinned { codec, dtmf } => {
            lemma_pinned_menu(codec, dtmf);
        },
    }
}

/// A re-offer that is pinned to the negotiated codec leaves the peer nothing else to answer
/// with: the answer codec is the pinned codec, at its payload type.
pub proof fn pinned_offer_keeps_codec(ip: IpAddr, port: u16, codec: AudioCodec, dtmf: Option<DtmfSpec>)
    ensures
        menu_media(ip, port, CodecMenu::Pinned { codec, dtmf }).answer_codec() == Some(
            codec.resolved(),
        ),
        codec.resolved().pt() == codec.pt(),
        codec.resolved().encoding() == codec.encoding(),
        menu_media(ip, port, CodecMenu::Pinned { codec, dtmf }).event() == dtmf,
{
    if let Some(d) = dtmf {
        let events = seq![d];
        assert(events[0] == d);
    }
}

/// The payload types that an SDP body lists for audio.
pub open spec fn offered_numbers(body: Seq<u8>) -> Seq<u8> {
    facts_of(lines_of(decode_utf8(body))).payload_types
}

proof fn lemma_first_codec_number(maps: Seq<RtpMapView>, pts: Seq<u8>)
    ensures
        first_codec(maps, pts) matches Some(c) ==> pts.contains(c.pt()) && resolve(maps, c.pt())
            == Some(c) && c.resolved() == c,
        first_opus(maps, pts) matches Some(pt) ==> pts.contains(pt) && resolve(maps, pt) == Some(
            AudioCodec::Opus { payload_type: pt },
        ),
    decreases pts.len(),
{
    if pts.len() > 0 {
        let rest = pts.skip(1);
        lemma_first_codec_number(maps, rest);
        assert(pts[0] == pts.first());
        assert forall|x: u8| rest.contains(x) implies pts.contains(x) by {
            let i = choose|i: int| 0 <= i < rest.len() && rest[i] == x;
            assert(pts[i + 1] == x);
        }
    }
}

proof fn lemma_event_numbers(maps: Seq<RtpMapView>, pts: Seq<u8>, k: int)
    requires
        0 <= k < events_of(maps, pts).len(),
    ensures
        pts.contains(events_of(maps, pts)[k].payload_type),
        resolve(maps, events_of(maps, pts)[k].payload_type) is None,
    decreases pts.len(),
{
    lemma_names_differ();
    let rest = pts.skip(1);
    let tail = events_of(maps, rest);
    let all = events_of(maps, pts);
    let j = if all.len() > tail.len() {
        k - 1
    } else {
        k
    };
    if j < 0 {
        assert(all[0].payload_type == pts[0]);
    } else {
        assert(all[k] == tail[j]);
        lemma_event_numbers(maps, rest, j);
        let i = choose|i: int| 0 <= i < rest.len() && rest[i] == tail[j].payload_type;
        assert(pts[i + 1] == tail[j].payload_type);
    }
}

/// An answer stays within the offer: the codec that is selected has one of the payload types that
/// the offer listed, and so does the `telephone-event` entry, whichever codec it goes with. The two
/// have different payload types.
pub proof fn answers_stay_in_the_offer(body: Seq<u8>, codec: AudioCodec)
    requires
        sdp_media(body) is Ok,
    ensures
        ({
            let offer = sdp_media(body)->Ok_0;
            &&& offer.answer_codec() matches Some(c) ==> offered_numbers(body).contains(c.pt())
                && c.resolved() == c
            &&& event_for_clock(offer.dtmf_events, codec.clock()) matches Some(d)
                ==> offered_numbers(body).contains(d.payload_type) && (
            offer.answer_codec() matches Some(c) ==> c.pt() != d.payload_type)
        }),
{
    let offer = sdp_media(body)->Ok_0;
    let f = facts_of(lines_of(decode_utf8(body)));
    let events = offer.dtmf_events;
    let clock = codec.clock();
    lemma_first_codec_number(f.maps, f.payload_types);
    if exists|i: int| 0 <= i < events.len() && #[trigger] events[i].clock_rate == clock {
        lemma_first_event(events, clock);
        let i = choose|i: int|
            0 <= i < events.len() && #[trigger] events[i].clock_rate == clock && forall|j: int|
                0 <= j < i ==> #[trigger] events[j].clock_rate != clock;
        lemma_event_numbers(f.maps, f.payload_types, i);
    } else if events.len() > 0 {
        lemma_event_numbers(f.maps, f.payload_types, 0);
    }
}

proof fn lemma_first_event(events: Seq<DtmfSpec>, clock: u32)
    requires
        exists|i: int| 0 <= i < events.len() && #[trigger] events[i].clock_rate == clock,
    ensures
        exists|i: int|
            0 <= i < events.len() && #[trigger] events[i].clock_rate == clock && forall|j: int|
                0 <= j < i ==> #[trigger] events[j].clock_rate != clock,
    decreases events.len(),
{
    let n = choose|i: int| 0 <= i < events.len() && #[trigger] events[i].clock_rate == clock;
    if exists|j: int| 0 <= j < n && #[trigger] events[j].clock_rate == clock {
        let front = events.take(n);
        let j = choose|j: int| 0 <= j < n && #[trigger] events[j].clock_rate == clock;
        assert(front[j].clock_rate == clock);
        lemma_first_event(front, clock);
        let i = choose|i: int|
            0 <= i < front.len() && #[trigger] front[i].clock_rate == clock && forall|j: int|
                0 <= j < i ==> #[trigger] front[j].clock_rate != clock;
        assert(events[i].clock_rate == clock);
        assert forall|j: int| 0 <= j < i implies #[trigger] events[j].clock_rate != clock by {
            assert(front[j].clock_rate != clock);
        }
    } else {
        assert(events[n].clock_rate == clock);
    }
}

/// Opus is answered wherever an offer lists it, whatever the offer prefers.
pub proof fn opus_is_preferred(offer: MediaView, payload_type: u8)
    requires
        offer.opus_payload_type == Some(payload_type),
    ensures
        offer.answer_codec() == Some(AudioCodec::Opus { payload_type }),
{
}

/// The answer to the full initial offer is Opus, with events at the Opus clock.
pub proof fn full_offer_negotiates_opus(ip: IpAddr, port: u16)
    ensures
        menu_media(ip, port, CodecMenu::Full).answer_codec() == Some(
            AudioCodec::Opus { payload_type: OPUS_DEFAULT_PT },
        ),
        menu_media(ip, port, CodecMenu::Full).event() == Some(
            DtmfSpec { payload_type: DTMF_WIDEBAND_DEFAULT_PT, clock_rate: OPUS_RTP_CLOCK_RATE },
        ),
{
    let events = menu_media(ip, port, CodecMenu::Full).dtmf_events;
    assert(events[1].clock_rate == OPUS_RTP_CLOCK_RATE);
    assert(events[0].clock_rate != OPUS_RTP_CLOCK_RATE);
}

/// A line that does not start with `c=` leaves the address, and one that does not start with
/// `m=audio` the port and the payload types.
proof fn lemma_line_frame(f: SdpFacts, line: Seq<char>)
    ensures
        !starts_with(line, "c="@) ==> f.with_line(line).addr == f.addr,
        !starts_with(line, "m=audio"@) ==> f.with_line(line).port == f.port && f.with_line(
            line,
        ).payload_types == f.payload_types,
{
    reveal(SdpFacts::with_line);
    reveal_strlit("c=");
    reveal_strlit("c=IN IP4 ");
    reveal_strlit("c=IN IP6 ");
    reveal_strlit("m=audio");
    reveal_strlit("m=audio ");
    lemma_shorter_prefix(line, "c=IN IP4 "@, "c="@);
    lemma_shorter_prefix(line, "c=IN IP6 "@, "c="@);
    lemma_shorter_prefix(line, "m=audio "@, "m=audio"@);
}

proof fn lemma_shorter_prefix(s: Seq<char>, long: Seq<char>, short: Seq<char>)
    requires
        short.len() <= long.len(),
        forall|i: int| 0 <= i < short.len() ==> #[trigger] short[i] == long[i],
    ensures
        starts_with(s, long) ==> starts_with(s, short),
{
    if starts_with(s, long) {
        assert(s.subrange(0, short.len() as int) =~= short) by {
            assert forall|i: int| 0 <= i < short.len() implies s[i] == short[i] by {
                assert(s.subrange(0, long.len() as int)[i] == long[i]);
                assert(short[i] == long[i]);
            }
        }
    }
}

proof fn lemma_address_stays(l: Seq<Seq<char>>, c: int, k: int, ip: IpAddr)
    requires
        0 <= c < k <= l.len(),
        l[c] == "c=IN IP4 "@ + ip.text() || l[c] == "c=IN IP6 "@ + ip.text(),
        forall|j: int| c < j < l.len() ==> !starts_with(trimmed(#[trigger] l[j]), "c="@),
    ensures
        facts_of(l.take(k)).addr == Some(ip),
    decreases k,
{
    let front = l.take(k - 1);
    assert(l.take(k) =~= front.push(l[k - 1]));
    lemma_facts_push(front, l[k - 1]);
    if k == c + 1 {
        lemma_connection_line(facts_of(front), l[c] == "c=IN IP6 "@ + ip.text(), ip);
    } else {
        lemma_address_stays(l, c, k - 1, ip);
        lemma_line_frame(facts_of(front), trimmed(l[k - 1]));
    }
}

proof fn lemma_audio_stays(l: Seq<Seq<char>>, m: int, k: int, port: u16, pts: Seq<u8>)
    requires
        0 <= m < l.len(),
        0 <= k <= l.len(),
        pts.len() > 0,
        l[m] == audio_line(port, pts),
        forall|j: int|
            0 <= j < l.len() && j != m ==> !starts_with(trimmed(#[trigger] l[j]), "m=audio"@),
    ensures
        k > m ==> facts_of(l.take(k)).port == Some(port) && facts_of(l.take(k)).payload_types == pts,
        k <= m ==> facts_of(l.take(k)).payload_types == Seq::<u8>::empty(),
    decreases k,
{
    if k == 0 {
        reveal(facts_of);
    } else {
        let front = l.take(k - 1);
        assert(l.take(k) =~= front.push(l[k - 1]));
        lemma_facts_push(front, l[k - 1]);
        lemma_audio_stays(l, m, k - 1, port, pts);
        if k == m + 1 {
            lemma_audio_line(facts_of(front), port, pts);
            assert(Seq::<u8>::empty() + pts =~= pts);
        } else {
            lemma_line_frame(facts_of(front), trimmed(l[k - 1]));
        }
    }
}

/// The media of a body is where its last connection line says, at an address of either version and
/// whichever type of address the line names, at the port of its audio line, with the payload types
/// of that line.
pub proof fn media_is_where_the_body_says(
    body: Seq<char>,
    c: int,
    ip: IpAddr,
    m: int,
    port: u16,
    pts: Seq<u8>,
)
    requires
        0 <= c < lines_of(body).len(),
        lines_of(body)[c] == "c=IN IP4 "@ + ip.text() || lines_of(body)[c] == "c=IN IP6 "@
            + ip.text(),
        forall|j: int|
            c < j < lines_of(body).len() ==> !starts_with(trimmed(#[trigger] lines_of(body)[j]), "c="@),
        0 <= m < lines_of(body).len(),
        pts.len() > 0,
        lines_of(body)[m] == "m=audio "@ + decimal(port as nat) + " RTP/AVP "@ + joined(
            decimals(pts),
            ' ',
        ),
        forall|j: int|
            0 <= j < lines_of(body).len() && j != m ==> !starts_with(
                trimmed(#[trigger] lines_of(body)[j]),
                "m=audio"@,
            ),
    ensures
        media_of(body) matches Ok(media) && media.addr == ip && media.port == port
            && media.payload_type == pts[0],
        sdp_media(encode_utf8(body)) == media_of(body),
        offered_numbers(encode_utf8(body)) == pts,
{
    let l = lines_of(body);
    let n = l.len() as int;
    assert(l.take(n) =~= l);
    lemma_address_stays(l, c, n, ip);
    lemma_audio_stays(l, m, n, port, pts);
    encode_utf8_valid_utf8(body);
    encode_utf8_decode_utf8(body);
}

/// A connection line sets the address, whichever type of address it names, and nothing else.
pub proof fn connection_lines_set_the_address(f: SdpFacts, ip: IpAddr)
    ensures
        f.with_line(trimmed("c=IN IP4 "@ + ip.text())) == (SdpFacts { addr: Some(ip), ..f }),
        f.with_line(trimmed("c=IN IP6 "@ + ip.text())) == (SdpFacts { addr: Some(ip), ..f }),
{
    lemma_connection_line(f, false, ip);
    lemma_connection_line(f, true, ip);
}

/// An rtpmap line adds a map: the payload type, the encoding name in small letters, the clock, and
/// whatever else follows after a slash is left out.
pub proof fn rtpmap_lines_add_a_map(f: SdpFacts, pt: u8, name: Seq<char>, rate: u32, more: Seq<char>)
    requires
        more.len() > 0,
        forall|j: int| 0 <= j < name.len() ==> #[trigger] name[j] != '/' && !is_space(name[j]),
        forall|j: int| 0 <= j < more.len() ==> #[trigger] more[j] != '/' && !is_space(more[j]),
    ensures
        ({
            let head = "a=rtpmap:"@ + decimal(pt as nat) + " "@ + name + "/"@ + decimal(
                rate as nat,
            );
            let map = RtpMapView { payload_type: pt, name: lowered(name), rate };
            &&& f.with_line(trimmed(head)) == (SdpFacts { maps: f.maps.push(map), ..f })
            &&& f.with_line(trimmed(head + "/"@ + more)) == (SdpFacts {
                maps: f.maps.push(map),
                ..f
            })
        }),
{
    let clock = decimal(rate as nat);
    let two = seq![name, clock];
    let three = seq![name, clock, more];
    lemma_decimal(rate as nat);
    reveal_strlit("/");
    assert forall|i: int, j: int|
        0 <= i < three.len() && 0 <= j < three[i].len() implies #[trigger] three[i][j] != '/'
        && !is_space(three[i][j]) by {
        if i == 0 {
            assert(name[j] != '/');
        } else if i == 1 {
            assert(is_digit(clock[j]));
        } else {
            assert(more[j] != '/');
        }
    }
    assert forall|i: int, j: int|
        0 <= i < two.len() && 0 <= j < two[i].len() implies #[trigger] two[i][j] != '/' && !is_space(
        two[i][j],
    ) by {
        assert(three[i][j] != '/');
    }
    lemma_rtpmap_line(f, pt, two, rate);
    lemma_rtpmap_line(f, pt, three, rate);
    assert(two.skip(1) =~= seq![clock]);
    assert(three.skip(1) =~= seq![clock, more]);
    assert(seq![clock, more].skip(1) =~= seq![more]);
    reveal_with_fuel(joined, 3);
    assert(rtpmap_line(pt, joined(two, '/')) =~= "a=rtpmap:"@ + decimal(pt as nat) + " "@ + name
        + "/"@ + clock);
    assert(rtpmap_line(pt, joined(three, '/')) =~= "a=rtpmap:"@ + decimal(pt as nat) + " "@ + name
        + "/"@ + clock + "/"@ + more);
}

proof fn lemma_map_for(maps: Seq<RtpMapView>, pt: u8, i: int)
    requires
        0 <= i <= maps.len(),
        forall|j: int| 0 <= j < i ==> (#[trigger] maps[j]).payload_type != pt,
        i < maps.len() ==> maps[i].payload_type == pt,
    ensures
        map_for(maps, pt) == if i < maps.len() {
            Some(maps[i])
        } else {
            None
        },
    decreases i,
{
    if i > 0 {
        assert(maps[0].payload_type != pt);
        assert forall|j: int| 0 <= j < i - 1 implies (#[trigger] maps.skip(1)[j]).payload_type
            != pt by {
            assert(maps[j + 1].payload_type != pt);
        }
        lemma_map_for(maps.skip(1), pt, i - 1);
    }
}

/// A payload type stands for the codec that the first map for it names, at that payload type: Opus
/// at 48 kHz, G.711 at 8 kHz, and nothing else. A payload type without a map stands for G.711 if it
/// is 0 or 8.
pub proof fn payload_types_stand_for_codecs(maps: Seq<RtpMapView>, pt: u8, i: int)
    requires
        0 <= i <= maps.len(),
        forall|j: int| 0 <= j < i ==> (#[trigger] maps[j]).payload_type != pt,
        i < maps.len() ==> maps[i].payload_type == pt,
    ensures
        resolve(maps, pt) matches Some(codec) ==> codec.pt() == pt,
        i == maps.len() ==> resolve(maps, pt) == if pt == 0 {
            Some(AudioCodec::Pcmu)
        } else if pt == 8 {
            Some(AudioCodec::Pcma)
        } else {
            None
        },
        i < maps.len() ==> {
            let (name, rate) = (maps[i].name, maps[i].rate);
            &&& (name == "opus"@ && rate == 48000) <==> resolve(maps, pt) == Some(
                AudioCodec::Opus { payload_type: pt },
            )
            &&& (name == "pcmu"@ && rate == 8000) <==> (resolve(maps, pt) matches Some(c)
                && c.encoding() == "PCMU/8000"@)
            &&& (name == "pcma"@ && rate == 8000) <==> (resolve(maps, pt) matches Some(c)
                && c.encoding() == "PCMA/8000"@)
        },
{
    lemma_map_for(maps, pt, i);
    lemma_names_differ();
    reveal_strlit("PCMU/8000");
    reveal_strlit("PCMA/8000");
    reveal_strlit("opus/48000/2");
    assert("PCMU/8000"@[3] == 'U' && "PCMA/8000"@[3] == 'A' && "opus/48000/2"@[3] == 's');
}

/// The codec of a body is that of the first payload type that stands for one, the Opus number the
/// first that stands for Opus; each is missing only when no payload type stands for one.
pub proof fn first_codec_is_preferred(maps: Seq<RtpMapView>, pts: Seq<u8>)
    ensures
        match first_codec(maps, pts) {
            Some(codec) => exists|i: int|
                0 <= i < pts.len() && resolve(maps, #[trigger] pts[i]) == Some(codec) && forall|
                    j: int,
                |
                    0 <= j < i ==> resolve(maps, #[trigger] pts[j]) is None,
            None => forall|i: int| 0 <= i < pts.len() ==> resolve(maps, #[trigger] pts[i]) is None,
        },
        match first_opus(maps, pts) {
            Some(pt) => exists|i: int|
                0 <= i < pts.len() && #[trigger] pts[i] == pt && resolve(maps, pt) == Some(
                    AudioCodec::Opus { payload_type: pt },
                ) && forall|j: int|
                    0 <= j < i ==> !(resolve(maps, #[trigger] pts[j]) matches Some(
                        AudioCodec::Opus { .. },
                    )),
            None => forall|i: int|
                0 <= i < pts.len() ==> !(resolve(maps, #[trigger] pts[i]) matches Some(
                    AudioCodec::Opus { .. },
                )),
        },
    decreases pts.len(),
{
    if pts.len() > 0 {
        let rest = pts.skip(1);
        first_codec_is_preferred(maps, rest);
        assert forall|i: int| 0 < i < pts.len() implies #[trigger] pts[i] == rest[i - 1] by {}
        if resolve(maps, pts[0]) is None {
            if let Some(codec) = first_codec(maps, rest) {
                let i = choose|i: int|
                    0 <= i < rest.len() && resolve(maps, #[trigger] rest[i]) == Some(codec)
                        && forall|j: int| 0 <= j < i ==> resolve(maps, #[trigger] rest[j]) is None;
                assert(resolve(maps, pts[i + 1]) == Some(codec));
                assert forall|j: int| 0 <= j < i + 1 implies resolve(maps, #[trigger] pts[j]) is None by {
                    if j > 0 {
                        assert(resolve(maps, rest[j - 1]) is None);
                    }
                }
            } else {
                assert forall|i: int| 0 <= i < pts.len() implies resolve(
                    maps,
                    #[trigger] pts[i],
                ) is None by {
                    if i > 0 {
                        assert(resolve(maps, rest[i - 1]) is None);
                    }
                }
            }
        } else {
            assert(resolve(maps, pts[0]) == first_codec(maps, pts));
        }
        if !(resolve(maps, pts[0]) matches Some(AudioCodec::Opus { .. })) {
            if let Some(pt) = first_opus(maps, rest) {
                let i = choose|i: int|
                    0 <= i < rest.len() && #[trigger] rest[i] == pt && resolve(maps, pt) == Some(
                        AudioCodec::Opus { payload_type: pt },
                    ) && forall|j: int|
                        0 <= j < i ==> !(resolve(maps, #[trigger] rest[j]) matches Some(
                            AudioCodec::Opus { .. },
                        ));
                assert(pts[i + 1] == pt);
                assert forall|j: int| 0 <= j < i + 1 implies !(resolve(maps, #[trigger] pts[j])
                    matches Some(AudioCodec::Opus { .. })) by {
                    if j > 0 {
                        assert(!(resolve(maps, rest[j - 1]) matches Some(AudioCodec::Opus { .. })));
                    }
                }
            } else {
                assert forall|i: int| 0 <= i < pts.len() implies !(resolve(maps, #[trigger] pts[i])
                    matches Some(AudioCodec::Opus { .. })) by {
                    if i > 0 {
                        assert(!(resolve(maps, rest[i - 1]) matches Some(AudioCodec::Opus { .. })));
                    }
                }
            }
        } else {
            assert(pts[0] == first_opus(maps, pts)->0);
        }
    }
}

/// The event entries of two lists of payload types are those of the first and then those of the
/// second; a payload type has one if its map names `telephone-event`, with the clock of the map.
pub proof fn events_keep_the_order_of_the_body(maps: Seq<RtpMapView>, a: Seq<u8>, b: Seq<u8>, pt: u8, i: int)
    requires
        0 <= i < maps.len(),
        forall|j: int| 0 <= j < i ==> (#[trigger] maps[j]).payload_type != pt,
        maps[i].payload_type == pt,
    ensures
        events_of(maps, a + b) == events_of(maps, a) + events_of(maps, b),
        events_of(maps, seq![pt]) == if maps[i].name == "telephone-event"@ {
            seq![DtmfSpec { payload_type: pt, clock_rate: maps[i].rate }]
        } else {
            Seq::empty()
        },
    decreases a.len(),
{
    lemma_map_for(maps, pt, i);
    let none = seq![pt].skip(1);
    assert(none =~= Seq::<u8>::empty());
    assert(events_of(maps, none) =~= Seq::<DtmfSpec>::empty());
    assert(events_of(maps, seq![pt]) =~= if maps[i].name == "telephone-event"@ {
        seq![DtmfSpec { payload_type: pt, clock_rate: maps[i].rate }]
    } else {
        Seq::empty()
    });
    if a.len() == 0 {
        assert(a + b =~= b);
        assert(events_of(maps, a) =~= Seq::<DtmfSpec>::empty());
        assert(events_of(maps, a) + events_of(maps, b) =~= events_of(maps, b));
    } else {
        events_keep_the_order_of_the_body(maps, a.skip(1), b, pt, i);
        assert((a + b).skip(1) =~= a.skip(1) + b);
        assert((a + b)[0] == a[0]);
        assert(events_of(maps, a + b) =~= events_of(maps, a) + events_of(maps, b));
    }
}

/// The event entry that goes with a clock is the first one at that clock; when there is none, the
/// first of all; and there is one whenever any was offered.
pub proof fn events_go_with_the_clock(events: Seq<DtmfSpec>, clock: u32)
    ensures
        event_for_clock(events, clock) is None <==> events.len() == 0,
        event_for_clock(events, clock) matches Some(d) ==> exists|i: int|
            0 <= i < events.len() && #[trigger] events[i] == d && forall|j: int|
                0 <= j < i ==> #[trigger] events[j].clock_rate != clock,
        (exists|i: int| 0 <= i < events.len() && #[trigger] events[i].clock_rate == clock) ==> (
        event_for_clock(events, clock) matches Some(d) && d.clock_rate == clock),
        (forall|i: int| 0 <= i < events.len() ==> #[trigger] events[i].clock_rate != clock)
            && events.len() > 0 ==> event_for_clock(events, clock) == Some(events[0]),
{
    if exists|i: int| 0 <= i < events.len() && #[trigger] events[i].clock_rate == clock {
        lemma_first_event(events, clock);
        let i = choose|i: int|
            0 <= i < events.len() && #[trigger] events[i].clock_rate == clock && forall|j: int|
                0 <= j < i ==> #[trigger] events[j].clock_rate != clock;
        assert(event_for_clock(events, clock) == Some(events[i]));
        assert(events[i] == events[i]);
    } else if events.len() > 0 {
        assert(events[0] == events[0]);
    }
}

/// Each line of a body goes on the wire with a carriage return and a line feed behind it.
pub proof fn lines_end_with_a_line_break(lines: Seq<Seq<char>>, parts: Seq<Seq<char>>)
    requires
        parts.len() == lines.len(),
        forall|i: int| 0 <= i < lines.len() ==> #[trigger] parts[i] == lines[i] + "\r\n"@,
    ensures
        wire_lines(lines) == parts.flatten(),
    decreases lines.len(),
{
    if lines.len() == 0 {
        assert(parts.flatten() =~= Seq::<char>::empty());
    } else {
        let init = parts.drop_last();
        assert forall|i: int| 0 <= i < lines.drop_last().len() implies #[trigger] init[i]
            == lines.drop_last()[i] + "\r\n"@ by {
            assert(parts[i] == lines[i] + "\r\n"@);
        }
        lines_end_with_a_line_break(lines.drop_last(), init);
        init.lemma_flatten_push(parts.last());
        assert(init.push(parts.last()) =~= parts);
        assert(parts.last() == parts[lines.len() - 1]);
        assert(wire_lines(lines) =~= parts.flatten());
    }
}

/// A body that was built here names the address and the version in its origin line and the
/// direction in its last line.
pub proof fn body_names_version_and_direction(
    ip: IpAddr,
    port: u16,
    menu: CodecMenu,
    direction: MediaDirection,
    version: u32,
)
    ensures
        ({
            let l = lines_of(sdp_text(ip, port, menu, direction, version));
            &&& l.len() > 6
            &&& l[0] == "v=0"@
            &&& l[1] == "o=wavekat 0 "@ + decimal(version as nat) + " IN IP4 "@ + ip.text()
            &&& l[2] == "s=wavekat-sip"@
            &&& l[3] == "c=IN IP4 "@ + ip.text()
            &&& l[4] == "t=0 0"@
            &&& l.last() == match direction {
                MediaDirection::SendRecv => "a=sendrecv"@,
                MediaDirection::SendOnly => "a=sendonly"@,
                MediaDirection::Inactive => "a=inactive"@,
            }
        }),
{
    let all = sdp_lines(ip, port, menu, direction, version);
    lemma_are_lines_body(ip, port, menu, direction, version);
    assert forall|i: int, j: int| 0 <= i < all.len() && 0 <= j < all[i].len() implies #[trigger] all[i][j]
        != '\n' by {
        assert(is_one_line(all[i]));
    }
    lemma_lines_of_wire(all);
    reveal_strlit("a=");
    reveal_strlit("sendrecv");
    reveal_strlit("sendonly");
    reveal_strlit("inactive");
    reveal_strlit("a=sendrecv");
    reveal_strlit("a=sendonly");
    reveal_strlit("a=inactive");
    assert("a="@ + "sendrecv"@ =~= "a=sendrecv"@);
    assert("a="@ + "sendonly"@ =~= "a=sendonly"@);
    assert("a="@ + "inactive"@ =~= "a=inactive"@);
}

/// An offer of the full menu lists Opus first, then both forms of G.711, and events at both clocks;
/// a body with a pinned menu lists its codec and its event entry alone. Opus is offered with error
/// correction, and events with all sixteen codes.
pub proof fn menus_list_their_codecs(ip: IpAddr, port: u16, direction: MediaDirection, version: u32, menu: CodecMenu)
    ensures
        ({
            let l = lines_of(sdp_text(ip, port, menu, direction, version));
            &&& menu == CodecMenu::Full ==> offered_numbers(
                encode_utf8(sdp_text(ip, port, menu, direction, version)),
            ) == seq![111u8, 0u8, 8u8, 101u8, 110u8]
            &&& menu matches CodecMenu::Pinned { codec, dtmf } ==> {
                &&& offered_numbers(
                    encode_utf8(sdp_text(ip, port, menu, direction, version)),
                ) == match dtmf {
                    Some(d) => seq![codec.pt(), d.payload_type],
                    None => seq![codec.pt()],
                }
                &&& codec matches AudioCodec::Opus { payload_type } ==> l.contains(
                    "a=fmtp:"@ + decimal(payload_type as nat) + " "@ + "useinbandfec=1"@,
                )
                &&& dtmf matches Some(d) ==> l.contains(
                    "a=fmtp:"@ + decimal(d.payload_type as nat) + " "@ + "0-15"@,
                )
            }
        }),
{
    let body = sdp_text(ip, port, menu, direction, version);
    encode_utf8_valid_utf8(body);
    encode_utf8_decode_utf8(body);
    let all = sdp_lines(ip, port, menu, direction, version);
    lemma_are_lines_body(ip, port, menu, direction, version);
    assert forall|i: int, j: int| 0 <= i < all.len() && 0 <= j < all[i].len() implies #[trigger] all[i][j]
        != '\n' by {
        assert(is_one_line(all[i]));
    }
    lemma_lines_of_wire(all);
    lemma_facts_of_body(ip, port, menu, direction, version);
    if let CodecMenu::Pinned { codec, dtmf } = menu {
        let n = codec_lines(codec).len() as int;
        if let AudioCodec::Opus { payload_type } = codec {
            assert(all[7] == fmtp_line(payload_type, "useinbandfec=1"@));
        }
        if let Some(d) = dtmf {
            assert(all[6 + n + 1] == fmtp_line(d.payload_type, "0-15"@));
        }
    }
}

proof fn lemma_no_address(l: Seq<Seq<char>>, k: int)
    requires
        0 <= k <= l.len(),
        forall|j: int| 0 <= j < l.len() ==> !starts_with(trimmed(#[trigger] l[j]), "c="@),
    ensures
        facts_of(l.take(k)).addr is None,
    decreases k,
{
    reveal(facts_of);
    if k > 0 {
        let front = l.take(k - 1);
        assert(l.take(k) =~= front.push(l[k - 1]));
        lemma_facts_push(front, l[k - 1]);
        lemma_no_address(l, k - 1);
        lemma_line_frame(facts_of(front), trimmed(l[k - 1]));
    }
}

proof fn lemma_no_audio(l: Seq<Seq<char>>, k: int)
    requires
        0 <= k <= l.len(),
        forall|j: int| 0 <= j < l.len() ==> !starts_with(trimmed(#[trigger] l[j]), "m=audio"@),
    ensures
        facts_of(l.take(k)).port is None,
        facts_of(l.take(k)).payload_types.len() == 0,
    decreases k,
{
    reveal(facts_of);
    if k > 0 {
        let front = l.take(k - 1);
        assert(l.take(k) =~= front.push(l[k - 1]));
        lemma_facts_push(front, l[k - 1]);
        lemma_no_audio(l, k - 1);
        lemma_line_frame(facts_of(front), trimmed(l[k - 1]));
    }
}

/// What a body lacks is named: first the connection line, then the audio line.
pub proof fn missing_lines_are_named(body: Seq<char>, c: int, ip: IpAddr)
    ensures
        (forall|j: int|
            0 <= j < lines_of(body).len() ==> !starts_with(
                trimmed(#[trigger] lines_of(body)[j]),
                "c="@,
            )) ==> media_of(body) == Err::<MediaView, Seq<char>>(
            "No connection address (c=) in SDP"@,
        ),
        0 <= c < lines_of(body).len() && (lines_of(body)[c] == "c=IN IP4 "@ + ip.text() || lines_of(
            body,
        )[c] == "c=IN IP6 "@ + ip.text()) && (forall|j: int|
            c < j < lines_of(body).len() ==> !starts_with(
                trimmed(#[trigger] lines_of(body)[j]),
                "c="@,
            )) && (forall|j: int|
            0 <= j < lines_of(body).len() ==> !starts_with(
                trimmed(#[trigger] lines_of(body)[j]),
                "m=audio"@,
            )) ==> media_of(body) == Err::<MediaView, Seq<char>>(
            "No audio media line (m=audio) in SDP"@,
        ),
{
    let l = lines_of(body);
    let n = l.len() as int;
    assert(l.take(n) =~= l);
    if forall|j: int| 0 <= j < l.len() ==> !starts_with(trimmed(#[trigger] l[j]), "c="@) {
        lemma_no_address(l, n);
    }
    if forall|j: int| 0 <= j < l.len() ==> !starts_with(trimmed(#[trigger] l[j]), "m=audio"@) {
        lemma_no_audio(l, n);
    }
    if 0 <= c < n && (l[c] == "c=IN IP4 "@ + ip.text() || l[c] == "c=IN IP6 "@ + ip.text()) && (
    forall|j: int| c < j < l.len() ==> !starts_with(trimmed(#[trigger] l[j]), "c="@)) {
        lemma_address_stays(l, c, n, ip);
    }
}

/// An audio line sets the port and adds its payload types behind those of the lines before it. Words
/// that are no payload types are passed over.
pub proof fn audio_lines_add_their_numbers(
    f: SdpFacts,
    port: u16,
    pts: Seq<u8>,
    a: Seq<Seq<char>>,
    b: Seq<Seq<char>>,
    word: Seq<char>,
    pt: u8,
)
    requires
        pts.len() > 0,
        word.len() > 0 && !is_digit(word[0]) && word[0] != '+',
    ensures
        f.with_line(
            trimmed(
                "m=audio "@ + decimal(port as nat) + " RTP/AVP "@ + joined(decimals(pts), ' '),
            ),
        ) == (SdpFacts { port: Some(port), payload_types: f.payload_types + pts, ..f }),
        numbers(a + b) == numbers(a) + numbers(b),
        numbers(seq![word]) == Seq::<u8>::empty(),
        numbers(seq![decimal(pt as nat)]) == seq![pt],
{
    lemma_audio_line(f, port, pts);
    lemma_numbers_concat(a, b);
    let none = Seq::<Seq<char>>::empty();
    assert(numbers(none) == Seq::<u8>::empty());
    assert(seq![word].skip(1) =~= none);
    assert(number_u8(word) is None) by {
        crate::text::lemma_digit_run_is(word, 0);
    }
    lemma_unsigned_decimal(pt as nat, 255);
    assert(seq![decimal(pt as nat)].skip(1) =~= none);
    assert(numbers(seq![decimal(pt as nat)]) =~= seq![pt]);
}

proof fn lemma_numbers_concat(a: Seq<Seq<char>>, b: Seq<Seq<char>>)
    ensures
        numbers(a + b) == numbers(a) + numbers(b),
    decreases a.len(),
{
    if a.len() == 0 {
        assert(a + b =~= b);
        assert(numbers(a + b) =~= numbers(a) + numbers(b));
    } else {
        assert((a + b).skip(1) =~= a.skip(1) + b);
        lemma_numbers_concat(a.skip(1), b);
        assert(numbers(a + b) =~= numbers(a) + numbers(b));
    }
}

} // verus!
