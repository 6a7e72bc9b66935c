//! Outbound INVITE: the request, the outcomes, and the flow that leads to one (RFC 3261, 13).

use crate::headers::{bare_addr, bare_addr_text, top_via, via_text, Uri, UriView};
use crate::message::{
    copy_bytes, cseq_header, cseq_reads_back, cseq_text, first_value, header_views, headers_cseq,
    lemma_first_value, message_cseq, push_header, Header, HeaderKind, HeaderView, Method, Request,
    RequestView, Response, ResponseView, StatusCode, StatusView, Version,
};
use crate::net::SocketAddr;
use crate::session_timer::{
    session_expires, supported_timer_header, timer_supported, SessionExpires,
    DEFAULT_SESSION_EXPIRES_SECS,
};
use crate::stack::auth::{
    build_retry_with, challenge_in, cnonce_text, gen_cnonce, retry_of, Credentials,
};
use crate::stack::dialog::{uac_dialog, Dialog, DialogView};
use crate::stack::engine::{Event, EventView};
use crate::stack::transaction::{
    branch_text, gen_branch, requests_never_share_a_via, via_header, TokenCounter,
};
use crate::text::{decimal, decimal_text};
use vstd::prelude::*;
use vstd::string::*;

verus! {

/// Everything needed to place a call and answer a challenge.
#[derive(Debug, Clone)]
pub struct CallConfig {
    /// Request URI and `To`: the callee.
    pub target: Uri,
    /// `From`: the caller's address of record.
    pub from: Uri,
    /// The caller's contact.
    pub contact: Uri,
    /// The `From` tag.
    pub from_tag: String,
    /// The `Call-ID`.
    pub call_id: String,
    /// SDP offer (empty for a late offer).
    pub sdp: Vec<u8>,
    /// Username for the answer to a challenge.
    pub username: String,
    /// Password for the answer to a challenge.
    pub password: String,
}

/// The session timer that an INVITE asks for: the default interval, and whoever the callee picks
/// to refresh.
pub open spec fn requested_timer() -> SessionExpires {
    SessionExpires { interval_secs: DEFAULT_SESSION_EXPIRES_SECS, refresher: None }
}

impl CallConfig {
    /// The INVITE: `Via`, `Max-Forwards`, `From`, `To`, `Contact`, `Call-ID`, `CSeq`, the request
    /// for a session timer of the default interval, the content type if there is an offer,
    /// `Content-Length`, and the offer. The `Via` names the transport of the contact.
    pub open spec fn invite(self, cseq: u32, local: SocketAddr, branch: Seq<char>) -> RequestView {
        let head = seq![
            HeaderView::known(
                HeaderKind::Via,
                via_text(self.contact@.via_transport(), local.text(), branch),
            ),
            HeaderView::known(HeaderKind::MaxForwards, "70"@),
            HeaderView::known(HeaderKind::From, bare_addr(self.from@.text, Some(self.from_tag@))),
            HeaderView::known(HeaderKind::To, bare_addr(self.target@.text, None)),
            HeaderView::known(HeaderKind::Contact, bare_addr(self.contact@.text, None)),
            HeaderView::known(HeaderKind::CallId, self.call_id@),
            HeaderView::known(HeaderKind::CSeq, cseq_text(cseq, Method::Invite)),
            HeaderView::known(HeaderKind::Supported, "timer"@),
            requested_timer().header_view(),
        ];
        let content = if self.sdp@.len() > 0 {
            seq![HeaderView::known(HeaderKind::ContentType, "application/sdp"@)]
        } else {
            Seq::empty()
        };
        RequestView {
            method: Method::Invite,
            uri: self.target@.text,
            version: Version::V2,
            headers: head + content + seq![
                HeaderView::known(HeaderKind::ContentLength, decimal(self.sdp@.len())),
            ],
            body: self.sdp@,
        }
    }

    /// The credentials for the answer to a challenge.
    pub fn creds(&self) -> (res: Credentials<'_>)
        ensures
            res.username@ == self.username@,
            res.password@ == self.password@,
    {
        Credentials { username: self.username.as_str(), password: self.password.as_str() }
    }
}

/// Composes an INVITE with the given branch.
pub fn build_invite_with(cfg: &CallConfig, cseq: u32, local_addr: SocketAddr, branch: &str) -> (res:
    Request)
    ensures
        res@ == cfg.invite(cseq, local_addr, branch@),
{
    let mut headers: Vec<Header> = Vec::new();
    push_header(
        &mut headers,
        via_header(cfg.contact.via_transport(), local_addr.to_text().as_str(), branch),
    );
    push_header(&mut headers, Header::new(HeaderKind::MaxForwards, "70"));
    push_header(
        &mut headers,
        Header::new(
            HeaderKind::From,
            bare_addr_text(cfg.from.text.as_str(), Some(cfg.from_tag.as_str())).as_str(),
        ),
    );
    push_header(
        &mut headers,
        Header::new(HeaderKind::To, bare_addr_text(cfg.target.text.as_str(), None).as_str()),
    );
    push_header(
        &mut headers,
        Header::new(HeaderKind::Contact, bare_addr_text(cfg.contact.text.as_str(), None).as_str()),
    );
    push_header(&mut headers, Header::new(HeaderKind::CallId, cfg.call_id.as_str()));
    push_header(&mut headers, cseq_header(cseq, Method::Invite));
    push_header(&mut headers, supported_timer_header());
    let timer = SessionExpires {
        interval_secs: DEFAULT_SESSION_EXPIRES_SECS,
        refresher: None,
    };
    push_header(&mut headers, timer.header());
    if cfg.sdp.len() > 0 {
        push_header(&mut headers, Header::new(HeaderKind::ContentType, "application/sdp"));
    }
    push_header(
        &mut headers,
        Header::new(HeaderKind::ContentLength, decimal_text(cfg.sdp.len() as u64).as_str()),
    );
    assert(header_views(headers@) =~= cfg.invite(cseq, local_addr, branch@).headers);
    let res = Request {
        method: Method::Invite,
        uri: cfg.target.text.clone(),
        version: Version::V2,
        headers,
        body: copy_bytes(&cfg.sdp),
    };
    assert(res@ =~= cfg.invite(cseq, local_addr, branch@));
    res
}

/// Composes an INVITE that carries the SDP offer.
pub fn build_invite(
    cfg: &CallConfig,
    cseq: u32,
    local_addr: SocketAddr,
    tokens: &mut TokenCounter,
) -> (res: Request)
    ensures
        final(tokens).made() == old(tokens).made().wrapping_add(1),
        exists|seed: u64|
            res@ == cfg.invite(
                cseq,
                local_addr,
                #[trigger] branch_text(old(tokens).made(), seed),
            ),
{
    let branch = gen_branch(tokens);
    build_invite_with(cfg, cseq, local_addr, branch.as_str())
}

/// The sequence number of a request, or 1 when it cannot be read.
pub open spec fn request_seq(r: RequestView) -> u32 {
    match message_cseq(r.headers) {
        Some((seq, _)) => seq,
        None => 1,
    }
}

/// The sequence number of a request, or 1 when it cannot be read.
pub fn cseq_of(request: &Request) -> (res: u32)
    ensures
        res == request_seq(request@),
{
    match headers_cseq(&request.headers) {
        Some((seq, _)) => seq,
        None => 1,
    }
}

/// The result of placing a call.
#[derive(Debug)]
pub enum CallOutcome {
    /// The callee answered; the dialog is confirmed.
    Answered {
        /// The dialog.
        dialog: Box<Dialog>,
        /// The answer, with its SDP.
        response: Response,
    },
    /// The callee or a proxy refused with this final status.
    Rejected(StatusCode),
    /// Credentials were rejected.
    Unauthorized,
    /// No final response before the transaction timed out.
    TimedOut,
    /// The engine stopped before a result was reached.
    EngineStopped,
}

/// A call outcome as a view.
pub enum CallOutcomeView {
    Answered { dialog: DialogView, response: ResponseView },
    Rejected(StatusView),
    Unauthorized,
    TimedOut,
    EngineStopped,
}

impl View for CallOutcome {
    type V = CallOutcomeView;

    open spec fn view(&self) -> CallOutcomeView {
        match self {
            CallOutcome::Answered { dialog, response } => CallOutcomeView::Answered {
                dialog: dialog@,
                response: response@,
            },
            CallOutcome::Rejected(s) => CallOutcomeView::Rejected(s@),
            CallOutcome::Unauthorized => CallOutcomeView::Unauthorized,
            CallOutcome::TimedOut => CallOutcomeView::TimedOut,
            CallOutcome::EngineStopped => CallOutcomeView::EngineStopped,
        }
    }
}

/// What a call attempt does next.
#[derive(Debug)]
pub enum CallStep {
    /// Wait for the next event.
    Wait,
    /// Open a client transaction for this request, the answer to a challenge.
    Send(Request),
    /// Send this ACK outside of any transaction; the attempt is over.
    Acknowledge {
        /// The ACK.
        ack: Request,
        /// The outcome.
        outcome: CallOutcome,
    },
    /// The attempt is over.
    Done(CallOutcome),
}

/// What a call attempt does next, as a view.
pub enum CallStepView {
    Wait,
    Send(RequestView),
    Acknowledge { ack: RequestView, outcome: CallOutcomeView },
    Done(CallOutcomeView),
}

impl View for CallStep {
    type V = CallStepView;

    open spec fn view(&self) -> CallStepView {
        match self {
            CallStep::Wait => CallStepView::Wait,
            CallStep::Send(r) => CallStepView::Send(r@),
            CallStep::Acknowledge { ack, outcome } => CallStepView::Acknowledge {
                ack: ack@,
                outcome: outcome@,
            },
            CallStep::Done(o) => CallStepView::Done(o@),
        }
    }
}

/// What a call attempt does on a response. A provisional one is waited out. A 2xx that
/// establishes a dialog is acknowledged with the sequence number of the INVITE; one that does
/// not counts as a refusal. The first challenge is answered; another one, or one that cannot be
/// answered, is a refusal of the credentials.
pub open spec fn call_step(
    request: RequestView,
    challenged: bool,
    contact: UriView,
    username: Seq<char>,
    password: Seq<char>,
    response: ResponseView,
    branch: Seq<char>,
    cnonce: Seq<char>,
) -> CallStepView {
    let code = response.status.code;
    if code < 200 {
        CallStepView::Wait
    } else if code < 300 {
        match uac_dialog(request, response, contact) {
            Some(dialog) => CallStepView::Acknowledge {
                ack: dialog.request(Method::Ack, request_seq(request), branch),
                outcome: CallOutcomeView::Answered { dialog, response },
            },
            None => CallStepView::Done(CallOutcomeView::Rejected(response.status)),
        }
    } else if code == 401 || code == 407 {
        match retry_of(request, response, username, password, branch, cnonce) {
            Some(retry) if !challenged => CallStepView::Send(retry),
            _ => CallStepView::Done(CallOutcomeView::Unauthorized),
        }
    } else {
        CallStepView::Done(CallOutcomeView::Rejected(response.status))
    }
}

/// A call attempt under way: the INVITE that was sent last, and whether it answered a challenge.
#[derive(Debug)]
pub struct CallFlow {
    /// The INVITE that was sent last.
    pub request: Request,
    /// Whether a challenge has been answered.
    pub challenged: bool,
}

impl CallFlow {
    /// Whether there is a sequence number left for the answer to a challenge.
    pub open spec fn can_answer(self) -> bool {
        !self.challenged ==> (message_cseq(self.request@.headers) matches Some((seq, _)) ==> seq
            < u32::MAX)
    }

    /// An attempt whose first request is `request`.
    pub fn new(request: Request) -> (res: Self)
        ensures
            res.request@ == request@,
            !res.challenged,
    {
        CallFlow { request, challenged: false }
    }

    /// Takes in a response, with the branch and client nonce for the request it leads to.
    pub fn on_response_with(
        &mut self,
        cfg: &CallConfig,
        response: &Response,
        branch: &str,
        cnonce: &str,
    ) -> (res: CallStep)
        requires
            old(self).can_answer(),
        ensures
            res@ == call_step(
                old(self).request@,
                old(self).challenged,
                cfg.contact@,
                cfg.username@,
                cfg.password@,
                response@,
                branch@,
                cnonce@,
            ),
            match res {
                CallStep::Send(r) => final(self).challenged && final(self).request@ == r@,
                _ => final(self).challenged == old(self).challenged && final(self).request@ == old(self).request@,
            },
    {
        let code: u16 = response.status_code.code;
        if code < 200 {
            return CallStep::Wait;
        }
        if code < 300 {
            return match Dialog::uac(&self.request, response, cfg.contact.copy()) {
                Some(dialog) => {
                    let ack = dialog.ack_with_branch(cseq_of(&self.request), branch);
                    CallStep::Acknowledge {
                        ack,
                        outcome: CallOutcome::Answered {
                            dialog: Box::new(dialog),
                            response: response.copy(),
                        },
                    }
                },
                None => CallStep::Done(CallOutcome::Rejected(response.status_code.copy())),
            };
        }
        if code == 401 || code == 407 {
            if !self.challenged {
                if let Some(retry) = build_retry_with(
                    &self.request,
                    response,
                    cfg.creds(),
                    branch,
                    cnonce,
                ) {
                    self.request = retry.copy();
                    self.challenged = true;
                    return CallStep::Send(retry);
                }
            }
            return CallStep::Done(CallOutcome::Unauthorized);
        }
        CallStep::Done(CallOutcome::Rejected(response.status_code.copy()))
    }

    /// Takes in a response.
    pub fn on_response(
        &mut self,
        cfg: &CallConfig,
        response: &Response,
        tokens: &mut TokenCounter,
    ) -> (res: CallStep)
        requires
            old(self).can_answer(),
        ensures
            final(tokens).made() == old(tokens).made().wrapping_add(1).wrapping_add(1),
            exists|s1: u64, s2: u64|
                res@ == call_step(
                    old(self).request@,
                    old(self).challenged,
                    cfg.contact@,
                    cfg.username@,
                    cfg.password@,
                    response@,
                    #[trigger] branch_text(old(tokens).made(), s1),
                    #[trigger] cnonce_text(old(tokens).made().wrapping_add(1), s2),
                ),
            match res {
                CallStep::Send(r) => final(self).challenged && final(self).request@ == r@,
                _ => final(self).challenged == old(self).challenged && final(self).request@ == old(self).request@,
            },
    {
        let branch = gen_branch(tokens);
        let cnonce = gen_cnonce(tokens);
        self.on_response_with(cfg, response, branch.as_str(), cnonce.as_str())
    }

    /// Takes in an event of the engine, or `None` when the engine has stopped.
    pub fn on_event(
        &mut self,
        cfg: &CallConfig,
        event: Option<&Event>,
        tokens: &mut TokenCounter,
    ) -> (res: CallStep)
        requires
            old(self).can_answer(),
        ensures
            match event {
                None => res@ == CallStepView::Done(CallOutcomeView::EngineStopped),
                Some(e) => match e@ {
                    EventView::Response { response, .. } => exists|s1: u64, s2: u64|
                        res@ == call_step(
                            old(self).request@,
                            old(self).challenged,
                            cfg.contact@,
                            cfg.username@,
                            cfg.password@,
                            response,
                            #[trigger] branch_text(old(tokens).made(), s1),
                            #[trigger] cnonce_text(old(tokens).made().wrapping_add(1), s2),
                        ),
                    EventView::TimedOut { .. } => res@ == CallStepView::Done(
                        CallOutcomeView::TimedOut,
                    ),
                    _ => res@ == CallStepView::Wait,
                },
            },
            match res {
                CallStep::Send(r) => final(self).challenged && final(self).request@ == r@,
                _ => final(self).challenged == old(self).challenged && final(self).request@ == old(self).request@,
            },
    {
        match event {
            None => CallStep::Done(CallOutcome::EngineStopped),
            Some(Event::Response { response, .. }) => self.on_response(cfg, response, tokens),
            Some(Event::TimedOut { .. }) => CallStep::Done(CallOutcome::TimedOut),
            Some(_) => CallStep::Wait,
        }
    }
}

/// Whether a hangup succeeded, once an event decides it: a response does, by its class, a timeout
/// and the end of the engine mean that it did not; other events leave it open.
pub open spec fn hangup_result(event: Option<EventView>) -> Option<bool> {
    match event {
        None => Some(false),
        Some(EventView::Response { response, .. }) => Some(200 <= response.status.code < 300),
        Some(EventView::TimedOut { .. }) => Some(false),
        Some(_) => None,
    }
}

/// Whether a hangup succeeded, once an event decides it.
pub fn hangup_step(event: Option<&Event>) -> (res: Option<bool>)
    ensures
        res == hangup_result(
            match event {
                Some(e) => Some(e@),
                None => None,
            },
        ),
{
    match event {
        None => Some(false),
        Some(Event::Response { response, .. }) => {
            let code: u16 = response.status_code.code;
            Some(200 <= code && code < 300)
        },
        Some(Event::TimedOut { .. }) => Some(false),
        Some(_) => None,
    }
}

/// The ACK of an answered call carries the sequence number of the INVITE it answers, and goes
/// through the routes of the response in reverse.
pub proof fn answered_call_is_acknowledged(
    request: RequestView,
    challenged: bool,
    contact: UriView,
    username: Seq<char>,
    password: Seq<char>,
    response: ResponseView,
    branch: Seq<char>,
    cnonce: Seq<char>,
    ack: RequestView,
    outcome: CallOutcomeView,
)
    requires
        call_step(
            request,
            challenged,
            contact,
            username,
            password,
            response,
            branch,
            cnonce,
        ) == (CallStepView::Acknowledge { ack, outcome }),
    ensures
        message_cseq(ack.headers) == Some((request_seq(request), Method::Ack)),
        outcome matches CallOutcomeView::Answered { dialog, .. } && dialog.confirmed
            && dialog.route_set == crate::stack::dialog::recorded_routes(
            response.headers,
        ).reverse(),
{
    let dialog = uac_dialog(request, response, contact)->0;
    crate::stack::dialog::ack_reuses_the_sequence_number(dialog, request_seq(request), branch);
}

/// An INVITE carries the sequence number it is given.
pub proof fn invite_carries_its_sequence_number(
    cfg: CallConfig,
    cseq: u32,
    local: SocketAddr,
    branch: Seq<char>,
)
    ensures
        message_cseq(cfg.invite(cseq, local, branch).headers) == Some((cseq, Method::Invite)),
{
    let h = cfg.invite(cseq, local, branch).headers;
    lemma_first_value(h, HeaderKind::CSeq, 6);
    cseq_reads_back(cseq, Method::Invite);
}

/// No two INVITEs share a branch: those whose branches were made from different counts have
/// different `Via` values.
pub proof fn invites_never_share_a_branch(
    cfg1: CallConfig,
    cseq1: u32,
    local1: SocketAddr,
    n1: u64,
    s1: u64,
    cfg2: CallConfig,
    cseq2: u32,
    local2: SocketAddr,
    n2: u64,
    s2: u64,
)
    requires
        n1 != n2,
    ensures
        first_value(cfg1.invite(cseq1, local1, branch_text(n1, s1)).headers, HeaderKind::Via)
            != first_value(
            cfg2.invite(cseq2, local2, branch_text(n2, s2)).headers,
            HeaderKind::Via,
        ),
{
    lemma_first_value(
        cfg1.invite(cseq1, local1, branch_text(n1, s1)).headers,
        HeaderKind::Via,
        0,
    );
    lemma_first_value(
        cfg2.invite(cseq2, local2, branch_text(n2, s2)).headers,
        HeaderKind::Via,
        0,
    );
    requests_never_share_a_via(
        cfg1.contact@.via_transport(),
        local1.text(),
        n1,
        s1,
        cfg2.contact@.via_transport(),
        local2.text(),
        n2,
        s2,
    );
}

/// An INVITE advertises session timers and asks for the default interval, leaving the refresher to
/// the callee.
pub proof fn invite_asks_for_a_session_timer(
    cfg: CallConfig,
    cseq: u32,
    local: SocketAddr,
    branch: Seq<char>,
)
    ensures
        timer_supported(cfg.invite(cseq, local, branch).headers),
        session_expires(cfg.invite(cseq, local, branch).headers) == Some(requested_timer()),
{
    let h = cfg.invite(cseq, local, branch).headers;
    reveal_strlit("timer");
    let t = "timer"@;
    crate::text::lemma_find_is(t, ',', 5);
    assert(crate::text::pieces_of(t, ',') =~= seq![t]);
    crate::text::lemma_trimmed(t);
    assert(crate::text::lowered(t) =~= t);
    assert(crate::session_timer::names_timer(seq![t])) by {
        assert(seq![t][0] == t);
    }
    assert(crate::session_timer::advertises_timer(h[7]));
    crate::session_timer::session_expires_reads_back(requested_timer());
    crate::session_timer::lemma_other_value(h, requested_timer(), 8);
}

/// An INVITE goes from the caller to the callee: the request URI and the `To` are the target,
/// without a tag, the `From` is the address of record with the given tag. It carries the contact of
/// the caller, the `Call-ID`, seventy hops, and a `Via` with the local address and the given branch.
pub proof fn invite_names_caller_and_callee(
    cfg: CallConfig,
    cseq: u32,
    local: SocketAddr,
    branch: Seq<char>,
)
    ensures
        ({
            let r = cfg.invite(cseq, local, branch);
            let h = r.headers;
            &&& r.method == Method::Invite
            &&& r.version == Version::V2
            &&& r.uri == cfg.target@.text
            &&& first_value(h, HeaderKind::To) == Some("<"@ + cfg.target@.text + ">"@)
            &&& first_value(h, HeaderKind::From) == Some(
                "<"@ + cfg.from@.text + ">"@ + ";tag="@ + cfg.from_tag@,
            )
            &&& first_value(h, HeaderKind::Contact) == Some("<"@ + cfg.contact@.text + ">"@)
            &&& first_value(h, HeaderKind::CallId) == Some(cfg.call_id@)
            &&& first_value(h, HeaderKind::MaxForwards) == Some("70"@)
            &&& first_value(h, HeaderKind::Via) == Some(
                "SIP/2.0/"@ + cfg.contact@.via_transport() + " "@ + local.text() + ";rport;branch="@
                    + branch,
            )
        }),
{
    let h = cfg.invite(cseq, local, branch).headers;
    lemma_first_value(h, HeaderKind::Via, 0);
    lemma_first_value(h, HeaderKind::MaxForwards, 1);
    lemma_first_value(h, HeaderKind::From, 2);
    lemma_first_value(h, HeaderKind::To, 3);
    lemma_first_value(h, HeaderKind::Contact, 4);
    lemma_first_value(h, HeaderKind::CallId, 5);
}

/// An INVITE carries the offer as its body, with its length, and says that it is SDP; one without an
/// offer has an empty body and names no type.
pub proof fn invite_carries_the_offer(
    cfg: CallConfig,
    cseq: u32,
    local: SocketAddr,
    branch: Seq<char>,
)
    ensures
        ({
            let r = cfg.invite(cseq, local, branch);
            &&& r.body == cfg.sdp@
            &&& first_value(r.headers, HeaderKind::ContentLength) == Some(decimal(cfg.sdp@.len()))
            &&& first_value(r.headers, HeaderKind::ContentType) == if cfg.sdp@.len() > 0 {
                Some("application/sdp"@)
            } else {
                None
            }
        }),
{
    let h = cfg.invite(cseq, local, branch).headers;
    if cfg.sdp@.len() > 0 {
        lemma_first_value(h, HeaderKind::ContentType, 9);
        lemma_first_value(h, HeaderKind::ContentLength, 10);
    } else {
        crate::message::lemma_no_value(h, HeaderKind::ContentType);
        lemma_first_value(h, HeaderKind::ContentLength, 9);
    }
}

/// An INVITE asks for a session of half an hour.
pub proof fn invite_asks_for_half_an_hour(
    cfg: CallConfig,
    cseq: u32,
    local: SocketAddr,
    branch: Seq<char>,
)
    ensures
        session_expires(cfg.invite(cseq, local, branch).headers) == Some(
            SessionExpires { interval_secs: 1800, refresher: None },
        ),
{
    invite_asks_for_a_session_timer(cfg, cseq, local, branch);
}

/// What comes of each response to a call attempt. A provisional one is waited out, and only such a
/// one. A 2xx establishes the call, or counts as a refusal when it establishes no dialog. A
/// challenge is answered once; a second one means that the credentials were refused. Any other final
/// response is a refusal with its status.
pub proof fn responses_decide_the_call(
    request: RequestView,
    challenged: bool,
    contact: UriView,
    username: Seq<char>,
    password: Seq<char>,
    response: ResponseView,
    branch: Seq<char>,
    cnonce: Seq<char>,
)
    ensures
        ({
            let code = response.status.code;
            let step = call_step(
                request,
                challenged,
                contact,
                username,
                password,
                response,
                branch,
                cnonce,
            );
            &&& step is Wait <==> code < 200
            &&& 200 <= code < 300 ==> match step {
                CallStepView::Acknowledge {
                    ack,
                    outcome: CallOutcomeView::Answered { dialog, response: answer },
                } => answer == response && ack.method == Method::Ack && uac_dialog(
                    request,
                    response,
                    contact,
                ) == Some(dialog),
                CallStepView::Done(CallOutcomeView::Rejected(s)) => s == response.status
                    && uac_dialog(request, response, contact) is None,
                _ => false,
            }
            &&& code == 401 || code == 407 ==> match step {
                CallStepView::Send(r) => !challenged && r.method == request.method && r.uri
                    == request.uri && r.body == request.body,
                CallStepView::Done(CallOutcomeView::Unauthorized) => challenged || challenge_in(
                    response,
                ) is None || top_via(request.headers) is None || message_cseq(request.headers) is None,
                _ => false,
            }
            &&& code >= 300 && code != 401 && code != 407 ==> step == CallStepView::Done(
                CallOutcomeView::Rejected(response.status),
            )
        }),
{
}

/// The ACK of an answered call goes to the contact of the response, from the caller to the callee,
/// with the `Call-ID` and the number of the INVITE, and through the routes that the response
/// recorded, the last first.
pub proof fn acknowledgement_goes_to_the_callee(
    request: RequestView,
    challenged: bool,
    contact: UriView,
    username: Seq<char>,
    password: Seq<char>,
    response: ResponseView,
    branch: Seq<char>,
    cnonce: Seq<char>,
    ack: RequestView,
    outcome: CallOutcomeView,
    parts: Seq<Seq<Seq<char>>>,
)
    requires
        call_step(
            request,
            challenged,
            contact,
            username,
            password,
            response,
            branch,
            cnonce,
        ) == (CallStepView::Acknowledge { ack, outcome }),
        crate::stack::dialog::routes_by_header(response.headers, parts),
    ensures
        ack.method == Method::Ack,
        first_value(response.headers, HeaderKind::Contact) matches Some(v)
            && crate::headers::contact_uri_of(v) == Some(ack.uri),
        first_value(ack.headers, HeaderKind::CallId) == first_value(
            request.headers,
            HeaderKind::CallId,
        ),
        message_cseq(request.headers) matches Some((seq, _)) && message_cseq(ack.headers) == Some(
            (seq, Method::Ack),
        ),
        first_value(ack.headers, HeaderKind::Route) == if parts.flatten().len() > 0 {
            Some(crate::text::joined(parts.flatten().reverse(), ','))
        } else {
            None
        },
{
    let dialog = uac_dialog(request, response, contact)->0;
    let seq = request_seq(request);
    crate::stack::dialog::requests_carry_the_dialog(dialog, Method::Ack, seq, branch);
    crate::stack::dialog::caller_follows_the_recorded_routes_in_reverse(
        request,
        response,
        contact,
        parts,
        Method::Ack,
        seq,
        branch,
    );
}

/// A hangup succeeded when it was answered 2xx, failed when it was answered otherwise, timed out or
/// lost its engine, and is open for as long as none of these happened.
pub proof fn hangup_succeeds_on_a_2xx(key: crate::stack::transaction::KeyView, response: ResponseView)
    ensures
        hangup_result(Some(EventView::Response { key, response })) == Some(
            response.status.code / 100 == 2,
        ),
        hangup_result(Some(EventView::TimedOut { key })) == Some(false),
        hangup_result(None) == Some(false),
        hangup_result(Some(EventView::Terminated { key })) is None,
{
}

} // verus!
