//! Call hold and resume by re-INVITE (RFC 3264): the media is offered again in another direction,
//! with the negotiated codec and a higher session version.

use crate::message::{
    header_views, push_header, Header, HeaderKind, HeaderView, Response, ResponseView,
};
use crate::net::SocketAddr;
use crate::sdp::{
    build_sdp_with, parse_sdp, sdp_media, sdp_text, AudioCodec, CodecMenu, DtmfSpec, MediaDirection,
    MediaView, RemoteMedia,
};
use crate::text::{chars_of, lowered, same, to_lower};
use vstd::prelude::*;
use vstd::string::*;
use vstd::utf8::*;

verus! {

/// The media direction for a hold (`true`) or a resume (`false`).
pub fn hold_direction(held: bool) -> (res: MediaDirection)
    ensures
        res == if held {
            MediaDirection::SendOnly
        } else {
            MediaDirection::SendRecv
        },
{
    if held {
        MediaDirection::SendOnly
    } else {
        MediaDirection::SendRecv
    }
}

/// Raises the session version counter of a call, which holds the version used last (0 after the
/// initial offer), and gives the version for the next re-offer.
pub fn next_session_version(counter: &mut u64) -> (res: u64)
    requires
        *old(counter) < u64::MAX,
    ensures
        res == *old(counter) + 1,
        *final(counter) == res,
{
    *counter = *counter + 1;
    *counter
}

/// A re-offer: the headers and the body of the re-INVITE.
#[derive(Debug)]
pub struct Reoffer {
    /// The headers to add.
    pub headers: Vec<Header>,
    /// The SDP body.
    pub body: Vec<u8>,
}

/// Builds the re-offer of a call's media in `direction`. Address and port are those of the
/// original offer, and the codec is pinned to the negotiated one. `session_version` must be
/// higher with each re-offer of the dialog.
pub fn build_reoffer(
    local_rtp_addr: SocketAddr,
    codec: AudioCodec,
    dtmf: Option<DtmfSpec>,
    direction: MediaDirection,
    session_version: u32,
) -> (res: Reoffer)
    ensures
        header_views(res.headers@) == seq![
            HeaderView::known(HeaderKind::ContentType, "application/sdp"@),
        ],
        res.body@ == encode_utf8(
            sdp_text(
                local_rtp_addr.ip(),
                local_rtp_addr.port(),
                CodecMenu::Pinned { codec, dtmf },
                direction,
                session_version,
            ),
        ),
{
    let mut headers: Vec<Header> = Vec::new();
    push_header(&mut headers, Header::new(HeaderKind::ContentType, "application/sdp"));
    assert(header_views(headers@) =~= seq![
        HeaderView::known(HeaderKind::ContentType, "application/sdp"@),
    ]);
    let body = build_sdp_with(
        local_rtp_addr.ip(),
        local_rtp_addr.port(),
        CodecMenu::Pinned { codec, dtmf },
        direction,
        session_version,
    );
    Reoffer { headers, body }
}

/// Whether the header says why a request was refused: `Warning`, or `Reason`.
pub open spec fn is_detail(h: HeaderView) -> bool {
    h.kind == HeaderKind::Warning || (h.kind == HeaderKind::Other && lowered(h.label)
        == "reason"@)
}

/// The reason that a header gives, in words.
pub open spec fn detail_text(h: HeaderView) -> Seq<char> {
    if h.kind == HeaderKind::Warning {
        "Warning: "@ + h.value
    } else {
        "Reason: "@ + h.value
    }
}

/// The reasons that the headers give, in order, with semicolons between them.
pub open spec fn details(h: Seq<HeaderView>) -> Seq<char>
    decreases h.len(),
{
    if h.len() == 0 {
        Seq::empty()
    } else {
        let init = details(h.drop_last());
        if !is_detail(h.last()) {
            init
        } else if init.len() == 0 {
            detail_text(h.last())
        } else {
            init + "; "@ + detail_text(h.last())
        }
    }
}

/// The reasons that the headers give, in parentheses after a space; nothing without reasons.
pub open spec fn detail_suffix(h: Seq<HeaderView>) -> Seq<char> {
    if details(h).len() == 0 {
        Seq::empty()
    } else {
        " ("@ + details(h) + ")"@
    }
}

/// Says why a request was refused, from the `Warning` and `Reason` headers of the response: such
/// as ` (Warning: ..; Reason: ..)`, or nothing.
pub fn rejection_detail(headers: &Vec<Header>) -> (res: String)
    ensures
        res@ == detail_suffix(header_views(headers@)),
{
    let mut parts = String::new();
    let mut any = false;
    let ghost all = header_views(headers@);
    let mut i: usize = 0;
    proof {
        reveal_strlit("Warning: ");
        reveal_strlit("Reason: ");
    }
    assert(all.take(0) =~= Seq::<HeaderView>::empty());
    while i < headers.len()
        invariant
            i <= headers@.len(),
            all == header_views(headers@),
            parts@ == details(all.take(i as int)),
            any == (parts@.len() > 0),
            "Warning: "@.len() > 0,
            "Reason: "@.len() > 0,
        decreases headers.len() - i,
    {
        let h = &headers[i];
        let ghost before = parts@;
        let ghost next = all.take(i as int + 1);
        assert(next.drop_last() =~= all.take(i as int));
        assert(next.last() == h@);
        let warning = h.kind == HeaderKind::Warning;
        let reason = h.kind == HeaderKind::Other && same(
            &to_lower(&chars_of(h.label.as_str())),
            &chars_of("reason"),
        );
        if warning || reason {
            if any {
                parts.append("; ");
            }
            if warning {
                parts.append("Warning: ");
            } else {
                parts.append("Reason: ");
            }
            parts.append(h.value.as_str());
            if any {
                assert(parts@ =~= before + "; "@ + detail_text(h@));
            } else {
                assert(before =~= Seq::<char>::empty());
                assert(parts@ =~= detail_text(h@));
            }
            any = true;
        }
        i += 1;
    }
    assert(all.take(i as int) =~= all);
    let mut out = String::new();
    if any {
        out.append(" (");
        out.append(parts.as_str());
        out.append(")");
        assert(out@ =~= " ("@ + parts@ + ")"@);
    }
    out
}

/// What the answer to a re-offer means: no answer when the dialog is over; anything but 200 is a
/// refusal; an answer without body leaves the media as it is.
pub open spec fn reoffer_result(response: Option<ResponseView>) -> Result<
    Option<MediaView>,
    Seq<char>,
> {
    match response {
        None => Err("re-INVITE not sent: dialog is no longer confirmed"@),
        Some(r) => if r.status.code != 200 {
            Err(
                "re-INVITE for media change rejected: "@ + r.status.line + detail_suffix(r.headers),
            )
        } else if r.body.len() == 0 {
            Ok(None)
        } else {
            match sdp_media(r.body) {
                Ok(m) => Ok(Some(m)),
                Err(e) => Err(e),
            }
        },
    }
}

/// Reads the answer to a re-offer: `None` when the dialog was no longer confirmed.
pub fn reoffer_answer(response: Option<&Response>) -> (res: Result<Option<RemoteMedia>, String>)
    ensures
        ({
            let want = reoffer_result(
                match response {
                    Some(r) => Some(r@),
                    None => None,
                },
            );
            match res {
                Ok(Some(m)) => want == Ok::<Option<MediaView>, Seq<char>>(Some(m@)),
                Ok(None) => want == Ok::<Option<MediaView>, Seq<char>>(None),
                Err(e) => want == Err::<Option<MediaView>, Seq<char>>(e@),
            }
        }),
{
    let r = match response {
        Some(r) => r,
        None => return Err(
            String::from_str("re-INVITE not sent: dialog is no longer confirmed"),
        ),
    };
    if r.status_code.code != 200 {
        let mut message = String::from_str("re-INVITE for media change rejected: ");
        message.append(r.status_code.line.as_str());
        message.append(rejection_detail(&r.headers).as_str());
        return Err(message);
    }
    if r.body.len() == 0 {
        return Ok(None);
    }
    match parse_sdp(&r.body) {
        Ok(m) => Ok(Some(m)),
        Err(e) => Err(e),
    }
}

/// A hold handle: where the media of a call is received, what was negotiated, and the version of
/// its last offer.
#[derive(Debug)]
pub struct HoldHandle {
    /// Local RTP address.
    pub local_rtp_addr: SocketAddr,
    /// The negotiated codec.
    pub codec: AudioCodec,
    /// The negotiated `telephone-event` entry.
    pub dtmf: Option<DtmfSpec>,
    /// The version of the last offer.
    pub session_version: u64,
}

impl HoldHandle {
    /// Builds the re-offer that holds or resumes the call, with the next session version, for as
    /// long as that fits the version of an SDP body.
    pub fn set_hold(&mut self, held: bool) -> (res: Reoffer)
        requires
            old(self).session_version < u32::MAX,
        ensures
            final(self).session_version == old(self).session_version + 1,
            final(self).local_rtp_addr == old(self).local_rtp_addr,
            final(self).codec == old(self).codec,
            final(self).dtmf == old(self).dtmf,
            header_views(res.headers@) == seq![
                HeaderView::known(HeaderKind::ContentType, "application/sdp"@),
            ],
            res.body@ == encode_utf8(
                sdp_text(
                    old(self).local_rtp_addr.ip(),
                    old(self).local_rtp_addr.port(),
                    CodecMenu::Pinned { codec: old(self).codec, dtmf: old(self).dtmf },
                    if held {
                        MediaDirection::SendOnly
                    } else {
                        MediaDirection::SendRecv
                    },
                    final(self).session_version as u32,
                ),
            ),
    {
        let direction = hold_direction(held);
        let version: u64 = next_session_version(&mut self.session_version);
        build_reoffer(self.local_rtp_addr, self.codec, self.dtmf, direction, version as u32)
    }
}

/// What an answer to a re-offer means. Only a 200 accepts it: without a body the media stays as it
/// is, with one it is what the body says. Any other answer is an error that starts with the status
/// and tells the reasons.
pub proof fn only_a_200_accepts_a_reoffer(r: ResponseView)
    ensures
        reoffer_result(None) is Err,
        r.status.code != 200 ==> (reoffer_result(Some(r)) matches Err(e) && e
            == "re-INVITE for media change rejected: "@ + r.status.line + detail_suffix(r.headers)),
        r.status.code == 200 && r.body.len() == 0 ==> reoffer_result(Some(r)) == Ok::<
            Option<MediaView>,
            Seq<char>,
        >(None),
        r.status.code == 200 && r.body.len() > 0 ==> match sdp_media(r.body) {
            Ok(m) => reoffer_result(Some(r)) == Ok::<Option<MediaView>, Seq<char>>(Some(m)),
            Err(e) => reoffer_result(Some(r)) == Err::<Option<MediaView>, Seq<char>>(e),
        },
{
}

/// The reasons of two lists of headers are those of the first, a semicolon, and those of the second;
/// a `Warning` and a `Reason` header give one each, with its name, and other headers none.
pub proof fn reasons_keep_their_order(a: Seq<HeaderView>, b: Seq<HeaderView>, h: HeaderView)
    ensures
        details(a + b) == if details(a).len() == 0 {
            details(b)
        } else if details(b).len() == 0 {
            details(a)
        } else {
            details(a) + "; "@ + details(b)
        },
        details(seq![h]) == if h.kind == HeaderKind::Warning {
            "Warning: "@ + h.value
        } else if h.kind == HeaderKind::Other && lowered(h.label) == "reason"@ {
            "Reason: "@ + h.value
        } else {
            Seq::empty()
        },
        detail_suffix(a) == if details(a).len() == 0 {
            Seq::empty()
        } else {
            " ("@ + details(a) + ")"@
        },
    decreases b.len(),
{
    reveal_strlit("Warning: ");
    reveal_strlit("Reason: ");
    assert(seq![h].drop_last() =~= Seq::<HeaderView>::empty());
    assert(details(seq![h].drop_last()) =~= Seq::<char>::empty());
    if b.len() == 0 {
        assert(a + b =~= a);
        assert(details(b) =~= Seq::<char>::empty());
        if details(a).len() == 0 {
            assert(details(a) =~= Seq::<char>::empty());
        }
    } else {
        reasons_keep_their_order(a, b.drop_last(), h);
        assert((a + b).drop_last() =~= a + b.drop_last());
        assert((a + b).last() == b.last());
        assert(details(a + b) =~= if details(a).len() == 0 {
            details(b)
        } else if details(b).len() == 0 {
            details(a)
        } else {
            details(a) + "; "@ + details(b)
        });
    }
}

/// A re-offer that holds or resumes a call reads back at the address, port, codec and event entry of
/// the call, and names its direction and version.
pub proof fn reoffer_keeps_the_media(
    addr: SocketAddr,
    codec: AudioCodec,
    dtmf: Option<DtmfSpec>,
    held: bool,
    version: u32,
)
    requires
        dtmf matches Some(d) ==> d.payload_type != codec.pt(),
    ensures
        ({
            let direction = if held {
                MediaDirection::SendOnly
            } else {
                MediaDirection::SendRecv
            };
            let text = sdp_text(
                addr.ip(),
                addr.port(),
                CodecMenu::Pinned { codec, dtmf },
                direction,
                version,
            );
            let lines = crate::text::lines_of(text);
            &&& sdp_media(encode_utf8(text)) matches Ok(m) && m.addr == addr.ip() && m.port
                == addr.port() && m.codec == Some(codec.resolved()) && m.event() == dtmf
            &&& lines.last() == if held {
                "a=sendonly"@
            } else {
                "a=sendrecv"@
            }
            &&& lines[1] == "o=wavekat 0 "@ + crate::text::decimal(version as nat) + " IN IP4 "@
                + addr.ip().text()
        }),
{
    let direction = if held {
        MediaDirection::SendOnly
    } else {
        MediaDirection::SendRecv
    };
    let menu = CodecMenu::Pinned { codec, dtmf };
    crate::sdp::sdp_reads_back(addr.ip(), addr.port(), menu, direction, version);
    crate::sdp::pinned_offer_keeps_codec(addr.ip(), addr.port(), codec, dtmf);
    crate::sdp::body_names_version_and_direction(addr.ip(), addr.port(), menu, direction, version);
}

} // verus!
