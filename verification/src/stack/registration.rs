//! REGISTER: the request, the outcomes, and the flow that leads to one (RFC 3261, 10).

use crate::headers::{bare_addr, bare_addr_text, top_via, via_text, Uri, UriView};
use crate::message::{
    cseq_header, cseq_reads_back, cseq_text, first_value, lemma_first_value, message_cseq,
    push_header, Header, HeaderKind, HeaderView, Method, Request, RequestView, Response,
    ResponseView, StatusCode, StatusView, Version,
};
use crate::net::SocketAddr;
use crate::stack::auth::{
    build_retry_with, challenge_in, cnonce_text, gen_cnonce, retry_of, Credentials,
};
use crate::stack::transaction::{branch_text, gen_branch, via_header, TokenCounter};
use crate::text::{chars_of, decimal, decimal_text, number_u32, parse_u32};
use vstd::prelude::*;
use vstd::string::*;

verus! {

/// Everything needed to compose a REGISTER and answer a challenge.
#[derive(Debug, Clone)]
pub struct RegisterConfig {
    /// Request URI: the registrar domain.
    pub registrar_uri: Uri,
    /// Address of record: `From` and `To`.
    pub aor: Uri,
    /// Where calls are received.
    pub contact: Uri,
    /// Stable `From` tag.
    pub from_tag: String,
    /// Stable `Call-ID`.
    pub call_id: String,
    /// Requested lifetime in seconds.
    pub expires: u32,
    /// Username for the answer to a challenge.
    pub username: String,
    /// Password for the answer to a challenge.
    pub password: String,
}

/// A REGISTER: `Via`, `Max-Forwards`, `From`, `To`, `Contact`, `Call-ID`, `CSeq`, `Expires`,
/// `Content-Length`. The `Via` names the transport of the contact.
pub open spec fn register_request(
    registrar_uri: Seq<char>,
    aor: Seq<char>,
    contact: UriView,
    from_tag: Seq<char>,
    call_id: Seq<char>,
    expires: u32,
    cseq: u32,
    local: SocketAddr,
    branch: Seq<char>,
) -> RequestView {
    RequestView {
        method: Method::Register,
        uri: registrar_uri,
        version: Version::V2,
        headers: seq![
            HeaderView::known(
                HeaderKind::Via,
                via_text(contact.via_transport(), local.text(), branch),
            ),
            HeaderView::known(HeaderKind::MaxForwards, "70"@),
            HeaderView::known(HeaderKind::From, bare_addr(aor, Some(from_tag))),
            HeaderView::known(HeaderKind::To, bare_addr(aor, None)),
            HeaderView::known(HeaderKind::Contact, bare_addr(contact.text, None)),
            HeaderView::known(HeaderKind::CallId, call_id),
            HeaderView::known(HeaderKind::CSeq, cseq_text(cseq, Method::Register)),
            HeaderView::known(HeaderKind::Expires, decimal(expires as nat)),
            HeaderView::known(HeaderKind::ContentLength, "0"@),
        ],
        body: Seq::empty(),
    }
}

impl RegisterConfig {
    /// The REGISTER with the given sequence number, local address and branch.
    pub open spec fn request(self, cseq: u32, local: SocketAddr, branch: Seq<char>) -> RequestView {
        register_request(
            self.registrar_uri@.text,
            self.aor@.text,
            self.contact@,
            self.from_tag@,
            self.call_id@,
            self.expires,
            cseq,
            local,
            branch,
        )
    }

    /// The credentials for the answer to a challenge.
    pub fn creds(&self) -> (res: Credentials<'_>)
        ensures
            res.username@ == self.username@,
            res.password@ == self.password@,
    {
        Credentials { username: self.username.as_str(), password: self.password.as_str() }
    }
}

/// Builds a REGISTER with the given branch.
pub fn build_register_with(
    cfg: &RegisterConfig,
    cseq: u32,
    local_addr: SocketAddr,
    branch: &str,
) -> (res: Request)
    ensures
        res@ == cfg.request(cseq, local_addr, branch@),
{
    let mut headers: Vec<Header> = Vec::new();
    push_header(
        &mut headers,
        via_header(cfg.contact.via_transport(), local_addr.to_text().as_str(), branch),
    );
    push_header(&mut headers, Header::new(HeaderKind::MaxForwards, "70"));
    push_header(
        &mut headers,
        Header::new(
            HeaderKind::From,
            bare_addr_text(cfg.aor.text.as_str(), Some(cfg.from_tag.as_str())).as_str(),
        ),
    );
    push_header(
        &mut headers,
        Header::new(HeaderKind::To, bare_addr_text(cfg.aor.text.as_str(), None).as_str()),
    );
    push_header(
        &mut headers,
        Header::new(HeaderKind::Contact, bare_addr_text(cfg.contact.text.as_str(), None).as_str()),
    );
    push_header(&mut headers, Header::new(HeaderKind::CallId, cfg.call_id.as_str()));
    push_header(&mut headers, cseq_header(cseq, Method::Register));
    push_header(
        &mut headers,
        Header::new(HeaderKind::Expires, decimal_text(cfg.expires as u64).as_str()),
    );
    push_header(&mut headers, Header::new(HeaderKind::ContentLength, "0"));
    let res = Request {
        method: Method::Register,
        uri: cfg.registrar_uri.text.clone(),
        version: Version::V2,
        headers,
        body: Vec::new(),
    };
    assert(res@ =~= cfg.request(cseq, local_addr, branch@));
    res
}

/// Builds a REGISTER for the given local address and sequence number.
pub fn build_register(
    cfg: &RegisterConfig,
    cseq: u32,
    local_addr: SocketAddr,
    tokens: &mut TokenCounter,
) -> (res: Request)
    ensures
        final(tokens).made() == old(tokens).made().wrapping_add(1),
        exists|seed: u64|
            res@ == cfg.request(
                cseq,
                local_addr,
                #[trigger] branch_text(old(tokens).made(), seed),
            ),
{
    let branch = gen_branch(tokens);
    build_register_with(cfg, cseq, local_addr, branch.as_str())
}

/// The lifetime the server granted, from the `Expires` header of its response.
pub open spec fn granted(response: ResponseView) -> Option<u32> {
    match first_value(response.headers, HeaderKind::Expires) {
        Some(v) => number_u32(v),
        None => None,
    }
}

/// The lifetime the server granted, from the `Expires` header of its response.
pub fn granted_expires(response: &Response) -> (res: Option<u32>)
    ensures
        res == granted(response@),
{
    match response.header(HeaderKind::Expires) {
        Some(v) => parse_u32(&chars_of(v)),
        None => None,
    }
}

/// The result of a register attempt.
#[derive(Debug, Clone, PartialEq, Eq)]
pub enum RegisterOutcome {
    /// Registered; the server granted this lifetime in seconds.
    Registered {
        /// The lifetime.
        expires: u32,
    },
    /// Credentials rejected: a second challenge, or one that cannot be answered.
    Unauthorized,
    /// The server refused with another final response.
    Failed(StatusCode),
    /// No final response before the transaction timed out.
    TimedOut,
    /// The engine stopped before a result was reached.
    EngineStopped,
}

/// A register outcome, its status as a view.
pub enum RegisterOutcomeView {
    Registered { expires: u32 },
    Unauthorized,
    Failed(StatusView),
    TimedOut,
    EngineStopped,
}

impl View for RegisterOutcome {
    type V = RegisterOutcomeView;

    open spec fn view(&self) -> RegisterOutcomeView {
        match self {
            RegisterOutcome::Registered { expires } => RegisterOutcomeView::Registered {
                expires: *expires,
            },
            RegisterOutcome::Unauthorized => RegisterOutcomeView::Unauthorized,
            RegisterOutcome::Failed(s) => RegisterOutcomeView::Failed(s@),
            RegisterOutcome::TimedOut => RegisterOutcomeView::TimedOut,
            RegisterOutcome::EngineStopped => RegisterOutcomeView::EngineStopped,
        }
    }
}

/// What a register attempt does next.
#[derive(Debug)]
pub enum RegisterStep {
    /// Send this request, the answer to a challenge.
    Send(Request),
    /// The attempt is over.
    Done(RegisterOutcome),
}

/// What a register attempt does next, as a view.
pub enum RegisterStepView {
    Send(RequestView),
    Done(RegisterOutcomeView),
}

impl View for RegisterStep {
    type V = RegisterStepView;

    open spec fn view(&self) -> RegisterStepView {
        match self {
            RegisterStep::Send(r) => RegisterStepView::Send(r@),
            RegisterStep::Done(o) => RegisterStepView::Done(o@),
        }
    }
}

/// A register attempt under way: the request that was sent last, and whether it answered a
/// challenge.
#[derive(Debug)]
pub struct RegisterFlow {
    /// The request that was sent last.
    pub request: Request,
    /// Whether a challenge has been answered.
    pub challenged: bool,
}

/// What a register attempt does on a final response: a 2xx registers for the granted lifetime,
/// or the requested one when none is named; the first challenge is answered; another challenge,
/// or one that cannot be answered, is a refusal of the credentials; anything else is a failure.
pub open spec fn register_step(
    request: RequestView,
    challenged: bool,
    expires: u32,
    username: Seq<char>,
    password: Seq<char>,
    response: ResponseView,
    branch: Seq<char>,
    cnonce: Seq<char>,
) -> RegisterStepView {
    let code = response.status.code;
    if 200 <= code < 300 {
        RegisterStepView::Done(
            RegisterOutcomeView::Registered {
                expires: match granted(response) {
                    Some(e) => e,
                    None => expires,
                },
            },
        )
    } else if code == 401 || code == 407 {
        match retry_of(request, response, username, password, branch, cnonce) {
            Some(retry) if !challenged => RegisterStepView::Send(retry),
            _ => RegisterStepView::Done(RegisterOutcomeView::Unauthorized),
        }
    } else {
        RegisterStepView::Done(RegisterOutcomeView::Failed(response.status))
    }
}

impl RegisterFlow {
    /// Whether there is a sequence number left for the answer to a challenge.
    pub open spec fn can_answer(self) -> bool {
        !self.challenged ==> (message_cseq(self.request@.headers) matches Some((seq, _)) ==> seq
            < u32::MAX)
    }

    /// An attempt whose first request is `request`.
    pub fn new(request: Request) -> (res: Self)
        ensures
            res.request@ == request@,
            !res.challenged,
    {
        RegisterFlow { request, challenged: false }
    }

    /// Takes in a final response, with the branch and client nonce for a retry.
    pub fn on_final_with(
        &mut self,
        cfg: &RegisterConfig,
        response: &Response,
        branch: &str,
        cnonce: &str,
    ) -> (res: RegisterStep)
        requires
            old(self).can_answer(),
        ensures
            res@ == register_step(
                old(self).request@,
                old(self).challenged,
                cfg.expires,
                cfg.username@,
                cfg.password@,
                response@,
                branch@,
                cnonce@,
            ),
            match res {
                RegisterStep::Send(r) => final(self).challenged && final(self).request@ == r@,
                RegisterStep::Done(_) => final(self).challenged == old(self).challenged && final(self).request@ == old(self).request@,
            },
    {
        let code: u16 = response.status_code.code;
        if 200 <= code && code < 300 {
            let expires: u32 = match granted_expires(response) {
                Some(e) => e,
                None => cfg.expires,
            };
            return RegisterStep::Done(RegisterOutcome::Registered { expires });
        }
        if code == 401 || code == 407 {
            if !self.challenged {
                if let Some(retry) = build_retry_with(
                    &self.request,
                    response,
                    cfg.creds(),
                    branch,
                    cnonce,
                ) {
                    self.request = retry.copy();
                    self.challenged = true;
                    return RegisterStep::Send(retry);
                }
            }
            return RegisterStep::Done(RegisterOutcome::Unauthorized);
        }
        RegisterStep::Done(RegisterOutcome::Failed(response.status_code.copy()))
    }

    /// Takes in the final response of the request, or `None` when none arrived in time.
    pub fn on_final(
        &mut self,
        cfg: &RegisterConfig,
        response: Option<&Response>,
        tokens: &mut TokenCounter,
    ) -> (res: RegisterStep)
        requires
            old(self).can_answer(),
        ensures
            match response {
                Some(r) => exists|s1: u64, s2: u64|
                    res@ == register_step(
                        old(self).request@,
                        old(self).challenged,
                        cfg.expires,
                        cfg.username@,
                        cfg.password@,
                        r@,
                        #[trigger] branch_text(old(tokens).made(), s1),
                        #[trigger] cnonce_text(old(tokens).made().wrapping_add(1), s2),
                    ),
                None => res@ == RegisterStepView::Done(RegisterOutcomeView::TimedOut),
            },
            final(tokens).made() == match response {
                Some(_) => old(tokens).made().wrapping_add(1).wrapping_add(1),
                None => old(tokens).made(),
            },
            match res {
                RegisterStep::Send(r) => final(self).challenged && final(self).request@ == r@,
                _ => final(self).challenged == old(self).challenged && final(self).request@ == old(self).request@,
            },
    {
        match response {
            Some(r) => {
                let branch = gen_branch(tokens);
                let cnonce = gen_cnonce(tokens);
                self.on_final_with(cfg, r, branch.as_str(), cnonce.as_str())
            },
            None => RegisterStep::Done(RegisterOutcome::TimedOut),
        }
    }
}

/// A second challenge is never answered: the attempt ends.
pub proof fn one_challenge_is_answered(
    request: RequestView,
    expires: u32,
    username: Seq<char>,
    password: Seq<char>,
    response: ResponseView,
    branch: Seq<char>,
    cnonce: Seq<char>,
)
    ensures
        register_step(
            request,
            true,
            expires,
            username,
            password,
            response,
            branch,
            cnonce,
        ) is Done,
{
}

/// A REGISTER carries the sequence number it is given.
pub proof fn register_carries_its_sequence_number(
    cfg: RegisterConfig,
    cseq: u32,
    local: SocketAddr,
    branch: Seq<char>,
)
    ensures
        message_cseq(cfg.request(cseq, local, branch).headers) == Some((cseq, Method::Register)),
{
    let h = cfg.request(cseq, local, branch).headers;
    lemma_first_value(h, HeaderKind::CSeq, 6);
    cseq_reads_back(cseq, Method::Register);
}

/// A REGISTER binds the address of record to the contact: `To` and `From` name the address of
/// record, the latter with the given tag, and the contact and lifetime are the given ones. It goes
/// to the registrar, without a body.
pub proof fn register_binds_the_address_of_record(
    cfg: RegisterConfig,
    cseq: u32,
    local: SocketAddr,
    branch: Seq<char>,
)
    ensures
        ({
            let r = cfg.request(cseq, local, branch);
            let h = r.headers;
            &&& r.method == Method::Register
            &&& r.version == Version::V2
            &&& r.uri == cfg.registrar_uri@.text
            &&& r.body.len() == 0
            &&& first_value(h, HeaderKind::To) == Some("<"@ + cfg.aor@.text + ">"@)
            &&& first_value(h, HeaderKind::From) == Some(
                "<"@ + cfg.aor@.text + ">"@ + ";tag="@ + cfg.from_tag@,
            )
            &&& first_value(h, HeaderKind::Contact) == Some("<"@ + cfg.contact@.text + ">"@)
            &&& first_value(h, HeaderKind::Expires) == Some(decimal(cfg.expires as nat))
            &&& first_value(h, HeaderKind::CallId) == Some(cfg.call_id@)
            &&& first_value(h, HeaderKind::MaxForwards) == Some("70"@)
            &&& first_value(h, HeaderKind::ContentLength) == Some("0"@)
            &&& first_value(h, HeaderKind::Via) == Some(
                "SIP/2.0/"@ + cfg.contact@.via_transport() + " "@ + local.text() + ";rport;branch="@
                    + branch,
            )
        }),
{
    let h = cfg.request(cseq, local, branch).headers;
    lemma_first_value(h, HeaderKind::Via, 0);
    lemma_first_value(h, HeaderKind::MaxForwards, 1);
    lemma_first_value(h, HeaderKind::From, 2);
    lemma_first_value(h, HeaderKind::To, 3);
    lemma_first_value(h, HeaderKind::Contact, 4);
    lemma_first_value(h, HeaderKind::CallId, 5);
    lemma_first_value(h, HeaderKind::Expires, 7);
    lemma_first_value(h, HeaderKind::ContentLength, 8);
}

/// The lifetime of a registration is the one that the server names in its 2xx, whatever was asked
/// for; a 2xx that names none grants what was asked for.
pub proof fn granted_lifetime_wins(
    request: RequestView,
    challenged: bool,
    asked: u32,
    username: Seq<char>,
    password: Seq<char>,
    response: ResponseView,
    branch: Seq<char>,
    cnonce: Seq<char>,
    named: u32,
)
    requires
        200 <= response.status.code < 300,
    ensures
        ({
            let step = register_step(
                request,
                challenged,
                asked,
                username,
                password,
                response,
                branch,
                cnonce,
            );
            &&& first_value(response.headers, HeaderKind::Expires) == Some(decimal(named as nat))
                ==> step == RegisterStepView::Done(
                RegisterOutcomeView::Registered { expires: named },
            )
            &&& first_value(response.headers, HeaderKind::Expires) is None ==> step
                == RegisterStepView::Done(RegisterOutcomeView::Registered { expires: asked })
        }),
{
    crate::text::lemma_unsigned_decimal(named as nat, 0xffff_ffff);
}

/// What comes of each final response to a REGISTER: a 2xx registers, and nothing else does; a
/// challenge is answered once, with the same request, and a second one means that the credentials
/// were refused; any other response is a failure with its status.
pub proof fn responses_decide_the_registration(
    request: RequestView,
    challenged: bool,
    asked: u32,
    username: Seq<char>,
    password: Seq<char>,
    response: ResponseView,
    branch: Seq<char>,
    cnonce: Seq<char>,
)
    ensures
        ({
            let code = response.status.code;
            let step = register_step(
                request,
                challenged,
                asked,
                username,
                password,
                response,
                branch,
                cnonce,
            );
            &&& 200 <= code < 300 <==> (step is Done && step->Done_0 is Registered)
            &&& code == 401 || code == 407 ==> match step {
                RegisterStepView::Send(r) => !challenged && r.method == request.method && r.uri
                    == request.uri && r.body == request.body,
                RegisterStepView::Done(RegisterOutcomeView::Unauthorized) => challenged
                    || challenge_in(response) is None || top_via(request.headers) is None
                    || message_cseq(request.headers) is None,
                _ => false,
            }
            &&& !(200 <= code < 300) && code != 401 && code != 407 ==> step
                == RegisterStepView::Done(RegisterOutcomeView::Failed(response.status))
        }),
{
}

} // verus!
