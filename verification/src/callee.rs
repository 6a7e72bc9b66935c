//! Inbound calls: ring, accept with an SDP answer, or reject.

use crate::headers::{Uri, UriView};
use crate::message::{
    first_value, header_views, push_header, Header, HeaderKind, HeaderView, Request, RequestView,
    Response, ResponseView, StatusCode, status_of,
};
use crate::net::IpAddr;
use crate::sdp::{
    build_sdp_with, event_for_clock, offered_numbers, sdp_media, sdp_text, select_codec,
    select_dtmf, AudioCodec, CodecMenu, MediaDirection, MediaView, RemoteMedia,
};
use crate::session_timer::{
    negotiate_uas, require_timer_header, supported_timer_header, uas_timer, SessionTimer,
    UasSessionTimer,
};
use crate::stack::dialog::{uas_dialog, Dialog};
use crate::stack::response::{build_response, response_to, BodyView, ResponseBody};
use crate::text::{decimal, push_decimal};
use vstd::prelude::*;
use vstd::string::*;
use vstd::utf8::*;

verus! {

/// A new inbound INVITE that has not been answered yet.
#[derive(Debug)]
pub struct IncomingCall {
    /// The INVITE.
    pub request: Request,
    /// The tag of this side, the same in every response and in the dialog.
    pub local_tag: String,
    /// Where the caller expects media, from its offer.
    pub remote_media: RemoteMedia,
}

/// The headers that settle a session timer in a 2xx.
pub open spec fn timer_headers(uas: Option<UasSessionTimer>) -> Seq<HeaderView> {
    match uas {
        Some(u) => if u.require_timer {
            seq![
                HeaderView::known(HeaderKind::Supported, "timer"@),
                u.echo.header_view(),
                HeaderView::known(HeaderKind::Require, "timer"@),
            ]
        } else {
            seq![HeaderView::known(HeaderKind::Supported, "timer"@), u.echo.header_view()]
        },
        None => Seq::empty(),
    }
}

/// The SDP answer: the selected codec alone, with the matching `telephone-event` entry.
pub open spec fn sdp_answer(offer: MediaView, codec: AudioCodec, ip: IpAddr, port: u16) -> Seq<u8> {
    encode_utf8(
        sdp_text(
            ip,
            port,
            CodecMenu::Pinned { codec, dtmf: event_for_clock(offer.dtmf_events, codec.clock()) },
            MediaDirection::SendRecv,
            0,
        ),
    )
}

/// The 200 that accepts a call: the SDP answer, and the session timer that was asked for. `None`
/// when the INVITE has no readable `To`.
pub open spec fn accept_response(
    invite: RequestView,
    local_tag: Seq<char>,
    offer: MediaView,
    codec: AudioCodec,
    ip: IpAddr,
    port: u16,
    contact: Seq<char>,
) -> Option<ResponseView> {
    match response_to(
        invite,
        status_of(200),
        Some(local_tag),
        Some(contact),
        Some(
            BodyView {
                content_type: "application/sdp"@,
                bytes: sdp_answer(offer, codec, ip, port),
            },
        ),
    ) {
        Some(r) => Some(
            ResponseView { headers: r.headers + timer_headers(uas_timer(invite.headers)), ..r },
        ),
        None => None,
    }
}

/// The 488 that refuses an offer without a known codec.
pub open spec fn refuse_response(invite: RequestView, local_tag: Seq<char>) -> Option<ResponseView> {
    response_to(invite, status_of(488), Some(local_tag), None, None)
}

/// An accepted call.
#[derive(Debug)]
pub struct Accepted {
    /// The 200 to send.
    pub response: Response,
    /// The dialog, or `None` when the INVITE lacks a header that a dialog requires.
    pub dialog: Option<Dialog>,
    /// The session timer to run.
    pub timer: Option<SessionTimer>,
    /// The remote media, its codec set to the negotiated one.
    pub remote_media: RemoteMedia,
}

/// What is sent and reported for an offer that holds no known codec.
#[derive(Debug)]
pub struct Refusal {
    /// The 488 to send; `None` when it cannot be built.
    pub response: Option<Response>,
    /// The error to report.
    pub error: String,
}

/// What accepting a call comes to.
#[derive(Debug)]
pub enum AcceptStep {
    /// Send the 200.
    Answer(Accepted),
    /// The offer holds no known codec.
    Refuse(Refusal),
    /// The 200 cannot be built; report the error.
    Fail(String),
}

/// The error that is reported for an offer without a known codec.
pub open spec fn no_codec_text(payload_type: u8) -> Seq<char> {
    "no supported codec in the offer (first payload type "@ + decimal(payload_type as nat)
        + "); answered 488"@
}

impl Refusal {
    /// Whether this refuses `invite`: with the 488, and the error that names the first payload type
    /// of the offer; without a 488 the error says so.
    pub open spec fn refuses(
        self,
        invite: RequestView,
        local_tag: Seq<char>,
        payload_type: u8,
    ) -> bool {
        match self.response {
            Some(r) => {
                &&& refuse_response(invite, local_tag) == Some(r@)
                &&& self.error@ == no_codec_text(payload_type)
            },
            None => {
                &&& refuse_response(invite, local_tag) is None
                &&& self.error@ == "could not build 488 response"@
            },
        }
    }
}

fn push_timer_headers(headers: &mut Vec<Header>, uas: Option<UasSessionTimer>)
    ensures
        header_views(final(headers)@) == header_views(old(headers)@) + timer_headers(uas),
{
    if let Some(u) = uas {
        push_header(headers, supported_timer_header());
        push_header(headers, u.echo.header());
        if u.require_timer {
            push_header(headers, require_timer_header());
        }
    }
    assert(header_views(headers@) =~= header_views(old(headers)@) + timer_headers(uas));
}

impl IncomingCall {
    /// The 180 that tells the caller that the call rings; `None` when the INVITE has no readable
    /// `To`. Its tag is that of the final response.
    pub fn ring(&self) -> (res: Option<Response>)
        ensures
            match res {
                Some(r) => response_to(
                    self.request@,
                    status_of(180),
                    Some(self.local_tag@),
                    None,
                    None,
                ) == Some(r@),
                None => response_to(
                    self.request@,
                    status_of(180),
                    Some(self.local_tag@),
                    None,
                    None,
                ) is None,
            },
    {
        build_response(
            &self.request,
            StatusCode::from_code(180),
            Some(self.local_tag.as_str()),
            None,
            None,
        )
    }

    /// The `From` value of the INVITE, for display.
    pub fn caller(&self) -> (res: Option<String>)
        ensures
            crate::headers::opt_text(res) == first_value(self.request@.headers, HeaderKind::From),
    {
        match self.request.header(HeaderKind::From) {
            Some(v) => Some(String::from_str(v)),
            None => None,
        }
    }

    /// What is sent and reported in place of an answer when the offer holds no known codec; `None`
    /// when the call can be accepted. It takes no local media, so that none need be bound before.
    pub fn refusal(&self) -> (res: Option<Refusal>)
        ensures
            match res {
                Some(r) => self.remote_media@.answer_codec() is None && r.refuses(
                    self.request@,
                    self.local_tag@,
                    self.remote_media.payload_type,
                ),
                None => self.remote_media@.answer_codec() is Some,
            },
    {
        match select_codec(&self.remote_media) {
            Some(_) => None,
            None => Some(self.refuse()),
        }
    }

    fn refuse(&self) -> (res: Refusal)
        ensures
            res.refuses(self.request@, self.local_tag@, self.remote_media.payload_type),
    {
        match build_response(
            &self.request,
            StatusCode::from_code(488),
            Some(self.local_tag.as_str()),
            None,
            None,
        ) {
            Some(response) => {
                let mut error = String::from_str(
                    "no supported codec in the offer (first payload type ",
                );
                push_decimal(&mut error, self.remote_media.payload_type as u64);
                error.append("); answered 488");
                Refusal { response: Some(response), error }
            },
            None => Refusal {
                response: None,
                error: String::from_str("could not build 488 response"),
            },
        }
    }

    /// Accepts the call with media at the given local address: the answer holds the selected
    /// codec alone, Opus wherever the offer contains it, else the offer's first G.711. An offer
    /// without a known codec is answered 488.
    pub fn accept(self, local_ip: IpAddr, rtp_port: u16, contact: &Uri) -> (res: AcceptStep)
        ensures
            match self.remote_media@.answer_codec() {
                Some(codec) => {
                    let want = accept_response(
                        self.request@,
                        self.local_tag@,
                        self.remote_media@,
                        codec,
                        local_ip,
                        rtp_port,
                        contact@.text,
                    );
                    match res {
                        AcceptStep::Answer(a) => {
                            &&& want == Some(a.response@)
                            &&& a.remote_media@ == (MediaView {
                                codec: Some(codec),
                                ..self.remote_media@
                            })
                            &&& a.timer == match uas_timer(self.request@.headers) {
                                Some(u) => Some(u.timer),
                                None => None,
                            }
                            &&& match a.dialog {
                                Some(d) => uas_dialog(self.request@, self.local_tag@, contact@)
                                    == Some(d@),
                                None => uas_dialog(self.request@, self.local_tag@, contact@) is None,
                            }
                        },
                        AcceptStep::Refuse(_) => false,
                        AcceptStep::Fail(e) => want is None && e@ == "could not build 200 OK"@,
                    }
                },
                None => match res {
                    AcceptStep::Answer(_) => false,
                    AcceptStep::Refuse(r) => r.refuses(
                        self.request@,
                        self.local_tag@,
                        self.remote_media.payload_type,
                    ),
                    AcceptStep::Fail(_) => false,
                },
            },
    {
        let codec = match select_codec(&self.remote_media) {
            Some(codec) => codec,
            None => return AcceptStep::Refuse(self.refuse()),
        };
        let dtmf = select_dtmf(&self.remote_media, codec);
        let answer = build_sdp_with(
            local_ip,
            rtp_port,
            CodecMenu::Pinned { codec, dtmf },
            MediaDirection::SendRecv,
            0,
        );
        let uas = negotiate_uas(&self.request.headers);
        let ghost body = BodyView { content_type: "application/sdp"@, bytes: answer@ };
        let mut response = match build_response(
            &self.request,
            StatusCode::from_code(200),
            Some(self.local_tag.as_str()),
            Some(contact),
            Some(ResponseBody { content_type: "application/sdp", bytes: answer }),
        ) {
            Some(r) => r,
            None => return AcceptStep::Fail(String::from_str("could not build 200 OK")),
        };
        push_timer_headers(&mut response.headers, uas);
        assert(response@ =~= accept_response(
            self.request@,
            self.local_tag@,
            self.remote_media@,
            codec,
            local_ip,
            rtp_port,
            contact@.text,
        )->0);
        let dialog = Dialog::uas(&self.request, self.local_tag.clone(), contact.copy());
        let mut remote_media = self.remote_media;
        remote_media.codec = Some(codec);
        AcceptStep::Answer(
            Accepted {
                response,
                dialog,
                timer: match uas {
                    Some(u) => Some(u.timer),
                    None => None,
                },
                remote_media,
            },
        )
    }

    /// The response that rejects the call with a failure status; an error for a status that is
    /// none, and when the INVITE has no readable `To`.
    pub fn reject(&self, status: StatusCode) -> (res: Result<Response, String>)
        ensures
            ({
                let want = response_to(
                    self.request@,
                    status@,
                    Some(self.local_tag@),
                    None,
                    None,
                );
                match res {
                    Ok(r) => status@.code >= 300 && want == Some(r@),
                    Err(e) => if status@.code < 300 {
                        e@ == "reject() got a non-failure status "@ + status@.line
                    } else {
                        want is None && e@ == "could not build reject response"@
                    },
                }
            }),
    {
        if status.code < 300 {
            let mut message = String::from_str("reject() got a non-failure status ");
            message.append(status.line.as_str());
            return Err(message);
        }
        match build_response(
            &self.request,
            status,
            Some(self.local_tag.as_str()),
            None,
            None,
        ) {
            Some(r) => Ok(r),
            None => Err(String::from_str("could not build reject response")),
        }
    }
}

/// The answer to a call, read back by the caller, describes exactly the negotiated codec and its
/// events: the caller cannot be left with another choice. The events must not share the payload
/// type of the codec.
pub proof fn answer_pins_the_codec(offer: MediaView, codec: AudioCodec, ip: IpAddr, port: u16)
    requires
        event_for_clock(offer.dtmf_events, codec.clock()) matches Some(d) ==> d.payload_type
            != codec.pt(),
    ensures
        sdp_media(sdp_answer(offer, codec, ip, port)) matches Ok(media)
            && media.answer_codec() == Some(codec.resolved()) && media.codec == Some(
            codec.resolved(),
        ) && media.addr == ip && media.port == port && media.event() == event_for_clock(
            offer.dtmf_events,
            codec.clock(),
        ),
{
    let dtmf = event_for_clock(offer.dtmf_events, codec.clock());
    crate::sdp::sdp_reads_back(
        ip,
        port,
        CodecMenu::Pinned { codec, dtmf },
        MediaDirection::SendRecv,
        0,
    );
    crate::sdp::pinned_offer_keeps_codec(ip, port, codec, dtmf);
}

/// The answer to an offer that was read from a body echoes it: it lists only payload types that the
/// offer listed, and reading it gives the codec that was selected, at the number of the offer.
pub proof fn answer_echoes_the_offer(body: Seq<u8>, ip: IpAddr, port: u16)
    requires
        sdp_media(body) is Ok,
        sdp_media(body)->Ok_0.answer_codec() is Some,
    ensures
        ({
            let offer = sdp_media(body)->Ok_0;
            let codec = offer.answer_codec()->0;
            let answer = sdp_answer(offer, codec, ip, port);
            &&& offered_numbers(body).contains(codec.pt())
            &&& sdp_media(answer) matches Ok(media) && media.codec == Some(codec)
                && media.payload_type == codec.pt()
            &&& forall|i: int|
                0 <= i < offered_numbers(answer).len() ==> offered_numbers(body).contains(
                    #[trigger] offered_numbers(answer)[i],
                )
        }),
{
    let offer = sdp_media(body)->Ok_0;
    let codec = offer.answer_codec()->0;
    let dtmf = event_for_clock(offer.dtmf_events, codec.clock());
    crate::sdp::answers_stay_in_the_offer(body, codec);
    crate::sdp::sdp_reads_back(
        ip,
        port,
        CodecMenu::Pinned { codec, dtmf },
        MediaDirection::SendRecv,
        0,
    );
}

/// The tag of this side is the same in the 180, in the final response and in the dialog.
pub proof fn one_tag_for_the_whole_call(
    invite: RequestView,
    local_tag: Seq<char>,
    offer: MediaView,
    codec: AudioCodec,
    ip: IpAddr,
    port: u16,
    contact: UriView,
)
    requires
        crate::headers::message_to(invite.headers) matches Some(to) && to.tag is None,
        uas_dialog(invite, local_tag, contact) is Some,
    ensures
        ({
            let to = crate::headers::message_to(invite.headers)->0;
            let ringing = response_to(invite, status_of(180), Some(local_tag), None, None);
            let accepted = accept_response(invite, local_tag, offer, codec, ip, port, contact.text);
            &&& ringing is Some
            &&& accepted is Some
            &&& first_value(ringing->0.headers, HeaderKind::To) == Some(
                to.with_tag(local_tag).text(),
            )
            &&& first_value(accepted->0.headers, HeaderKind::To) == Some(
                to.with_tag(local_tag).text(),
            )
            &&& uas_dialog(invite, local_tag, contact)->0.local.tag == local_tag
        }),
{
    crate::stack::response::response_tags_the_callee(
        invite,
        status_of(180),
        Some(local_tag),
        None,
        None,
    );
    let body = Some(
        BodyView {
            content_type: "application/sdp"@,
            bytes: sdp_answer(offer, codec, ip, port),
        },
    );
    crate::stack::response::response_tags_the_callee(
        invite,
        status_of(200),
        Some(local_tag),
        Some(contact.text),
        body,
    );
    let r = response_to(invite, status_of(200), Some(local_tag), Some(contact.text), body)->0;
    lemma_first_value_append(
        r.headers,
        timer_headers(uas_timer(invite.headers)),
        HeaderKind::To,
    );
}

proof fn lemma_first_value_append(a: Seq<HeaderView>, b: Seq<HeaderView>, kind: HeaderKind)
    requires
        first_value(a, kind) is Some,
    ensures
        first_value(a + b, kind) == first_value(a, kind),
    decreases a.len(),
{
    if a.len() > 0 {
        assert((a + b)[0] == a[0]);
        assert((a + b).skip(1) =~= a.skip(1) + b);
        if a[0].kind != kind {
            lemma_first_value_append(a.skip(1), b, kind);
        }
    }
}

/// What the 200 that accepts a call carries: the tag of this side, its contact, the SDP answer with
/// its type and length, and the `Via`, `From`, `Call-ID` and `CSeq` of the INVITE.
pub proof fn accepted_call_is_answered_200(
    invite: RequestView,
    local_tag: Seq<char>,
    offer: MediaView,
    codec: AudioCodec,
    ip: IpAddr,
    port: u16,
    contact: Seq<char>,
)
    requires
        accept_response(invite, local_tag, offer, codec, ip, port, contact) is Some,
    ensures
        ({
            let r = accept_response(invite, local_tag, offer, codec, ip, port, contact)->0;
            let to = crate::headers::message_to(invite.headers)->0;
            let h = r.headers;
            &&& r.status.code == 200
            &&& r.body == sdp_answer(offer, codec, ip, port)
            &&& first_value(h, HeaderKind::ContentType) == Some("application/sdp"@)
            &&& first_value(h, HeaderKind::ContentLength) == Some(decimal(r.body.len()))
            &&& first_value(h, HeaderKind::Contact) == Some("<"@ + contact + ">"@)
            &&& first_value(h, HeaderKind::To) == Some(
                if to.tag is Some {
                    to.text()
                } else {
                    to.text() + ";tag="@ + local_tag
                },
            )
            &&& first_value(invite.headers, HeaderKind::Via) is Some ==> first_value(
                h,
                HeaderKind::Via,
            ) == first_value(invite.headers, HeaderKind::Via)
            &&& first_value(invite.headers, HeaderKind::From) is Some ==> first_value(
                h,
                HeaderKind::From,
            ) == first_value(invite.headers, HeaderKind::From)
            &&& first_value(invite.headers, HeaderKind::CallId) is Some ==> first_value(
                h,
                HeaderKind::CallId,
            ) == first_value(invite.headers, HeaderKind::CallId)
            &&& first_value(invite.headers, HeaderKind::CSeq) is Some ==> first_value(
                h,
                HeaderKind::CSeq,
            ) == first_value(invite.headers, HeaderKind::CSeq)
        }),
{
    let body = Some(
        BodyView {
            content_type: "application/sdp"@,
            bytes: sdp_answer(offer, codec, ip, port),
        },
    );
    crate::stack::response::response_answers_its_request(
        invite,
        status_of(200),
        Some(local_tag),
        Some(contact),
        body,
    );
    let r = response_to(invite, status_of(200), Some(local_tag), Some(contact), body)->0;
    let t = timer_headers(uas_timer(invite.headers));
    lemma_first_value_append(r.headers, t, HeaderKind::ContentType);
    lemma_first_value_append(r.headers, t, HeaderKind::ContentLength);
    lemma_first_value_append(r.headers, t, HeaderKind::Contact);
    lemma_first_value_append(r.headers, t, HeaderKind::To);
    if first_value(invite.headers, HeaderKind::Via) is Some {
        lemma_first_value_append(r.headers, t, HeaderKind::Via);
    }
    if first_value(invite.headers, HeaderKind::From) is Some {
        lemma_first_value_append(r.headers, t, HeaderKind::From);
    }
    if first_value(invite.headers, HeaderKind::CallId) is Some {
        lemma_first_value_append(r.headers, t, HeaderKind::CallId);
    }
    if first_value(invite.headers, HeaderKind::CSeq) is Some {
        lemma_first_value_append(r.headers, t, HeaderKind::CSeq);
    }
}

/// A session timer that the INVITE asked for is settled in the 200: it supports timers and echoes the
/// interval and refresher, and it requires timers exactly when the caller supports them.
pub proof fn accepted_call_settles_the_timer(
    invite: RequestView,
    local_tag: Seq<char>,
    offer: MediaView,
    codec: AudioCodec,
    ip: IpAddr,
    port: u16,
    contact: Seq<char>,
)
    requires
        accept_response(invite, local_tag, offer, codec, ip, port, contact) is Some,
    ensures
        ({
            let h = accept_response(invite, local_tag, offer, codec, ip, port, contact)->0.headers;
            match uas_timer(invite.headers) {
                Some(u) => {
                    &&& crate::session_timer::session_expires(h) == Some(u.echo)
                    &&& first_value(h, HeaderKind::Supported) == Some("timer"@)
                    &&& first_value(h, HeaderKind::Require) == if u.require_timer {
                        Some("timer"@)
                    } else {
                        None
                    }
                },
                None => first_value(h, HeaderKind::Supported) is None && first_value(
                    h,
                    HeaderKind::Require,
                ) is None,
            }
        }),
{
    let body = Some(
        BodyView {
            content_type: "application/sdp"@,
            bytes: sdp_answer(offer, codec, ip, port),
        },
    );
    let r = response_to(invite, status_of(200), Some(local_tag), Some(contact), body)->0;
    let uas = uas_timer(invite.headers);
    let t = timer_headers(uas);
    let h = r.headers + t;
    let n = r.headers.len() as int;
    crate::stack::response::lemma_response_kinds(
        invite,
        status_of(200),
        Some(local_tag),
        Some(contact),
        body,
    );
    assert forall|j: int| 0 <= j < n implies (#[trigger] h[j]).kind != HeaderKind::Other && h[j].kind
        != HeaderKind::Supported && h[j].kind != HeaderKind::Require by {
        assert(h[j] == r.headers[j]);
    }
    match uas {
        Some(u) => {
            assert(h[n].kind == HeaderKind::Supported);
            assert(h[n + 1] == u.echo.header_view());
            crate::message::lemma_first_value(h, HeaderKind::Supported, n);
            crate::session_timer::lemma_other_value(h, u.echo, n + 1);
            if u.require_timer {
                crate::message::lemma_first_value(h, HeaderKind::Require, n + 2);
            } else {
                crate::message::lemma_no_value(h, HeaderKind::Require);
            }
        },
        None => {
            crate::message::lemma_no_value(h, HeaderKind::Supported);
            crate::message::lemma_no_value(h, HeaderKind::Require);
        },
    }
}

/// An offer that cannot be answered is refused with a 488 without body, with the tag of this side.
pub proof fn unanswerable_offer_is_refused_488(invite: RequestView, local_tag: Seq<char>)
    requires
        refuse_response(invite, local_tag) is Some,
    ensures
        ({
            let r = refuse_response(invite, local_tag)->0;
            let to = crate::headers::message_to(invite.headers)->0;
            &&& r.status.code == 488
            &&& r.body.len() == 0
            &&& first_value(r.headers, HeaderKind::CallId) == first_value(
                invite.headers,
                HeaderKind::CallId,
            )
            &&& to.tag is None ==> first_value(r.headers, HeaderKind::To) == Some(
                to.text() + ";tag="@ + local_tag,
            )
        }),
{
    crate::stack::response::response_answers_its_request(
        invite,
        status_of(488),
        Some(local_tag),
        None,
        None,
    );
}

} // verus!
