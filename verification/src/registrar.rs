//! Registration of an account: its configuration, and the record of its attempts.

use crate::account::{text_or, SipAccount, Transport};
use crate::headers::{
    aor, aor_text, contact_text, contact_view, lemma_account_text, lemma_contact_text,
    plain_account, sip_settled, sip_text, uri_of, Uri,
};
use crate::net::SocketAddr;
use crate::stack::registration::{RegisterConfig, RegisterOutcome, RegisterOutcomeView};
use vstd::prelude::*;
use vstd::string::*;

verus! {

/// A snapshot of the status of a registration. Times are nanoseconds since the Unix epoch.
#[derive(Debug, Clone, PartialEq, Eq)]
pub struct RegistrarDiagnostics {
    pub server_uri: String,
    pub contact_uri: Option<String>,
    pub call_id: String,
    pub cseq: u32,
    pub configured_expires: u32,
    pub negotiated_expires: Option<u32>,
    pub last_status: Option<u16>,
    pub last_attempt_at: Option<u128>,
    pub last_success_at: Option<u128>,
    pub last_error: Option<String>,
    pub register_count: u64,
    pub failure_count: u64,
}

/// The record of the attempts to register.
#[derive(Debug)]
pub struct RegistrarState {
    cseq: u32,
    negotiated_expires: Option<u32>,
    last_status: Option<u16>,
    last_attempt_at: Option<u128>,
    last_success_at: Option<u128>,
    last_error: Option<String>,
    register_count: u64,
    failure_count: u64,
}

/// The record of the attempts to register, as a view.
#[verifier::ext_equal]
pub struct RegistrarView {
    /// The sequence number of the last attempt.
    pub cseq: u32,
    /// The lifetime that was granted last.
    pub negotiated_expires: Option<u32>,
    /// The status of the last final response.
    pub last_status: Option<u16>,
    /// When the last attempt began.
    pub last_attempt_at: Option<u128>,
    /// When an attempt succeeded last.
    pub last_success_at: Option<u128>,
    /// What went wrong in the last attempt.
    pub last_error: Option<Seq<char>>,
    /// How many attempts succeeded.
    pub register_count: u64,
    /// How many attempts failed.
    pub failure_count: u64,
}

impl View for RegistrarState {
    type V = RegistrarView;

    closed spec fn view(&self) -> RegistrarView {
        RegistrarView {
            cseq: self.cseq,
            negotiated_expires: self.negotiated_expires,
            last_status: self.last_status,
            last_attempt_at: self.last_attempt_at,
            last_success_at: self.last_success_at,
            last_error: crate::headers::opt_text(self.last_error),
            register_count: self.register_count,
            failure_count: self.failure_count,
        }
    }
}

impl RegistrarView {
    /// Whether the counters have room for another attempt.
    pub open spec fn has_room(self) -> bool {
        self.register_count < u64::MAX && self.failure_count < u64::MAX
    }

    /// The record after another attempt began at `now`.
    pub open spec fn begun(self, now: u128) -> RegistrarView {
        RegistrarView { cseq: (self.cseq + 1) as u32, last_attempt_at: Some(now), ..self }
    }

    /// The record after an attempt ended at `now`. A success clears the error; a refusal and a
    /// timeout count as failures; an attempt that was cut off leaves no trace.
    pub open spec fn after(self, outcome: RegisterOutcomeView, now: u128) -> RegistrarView {
        match outcome {
            RegisterOutcomeView::Registered { expires } => RegistrarView {
                negotiated_expires: Some(expires),
                last_status: Some(200),
                last_success_at: Some(now),
                last_error: None,
                register_count: (self.register_count + 1) as u64,
                ..self
            },
            RegisterOutcomeView::Unauthorized => RegistrarView {
                last_status: Some(401),
                last_error: Some("authentication failed"@),
                failure_count: (self.failure_count + 1) as u64,
                ..self
            },
            RegisterOutcomeView::Failed(status) => RegistrarView {
                last_status: Some(status.code),
                last_error: Some("server returned "@ + status.line),
                failure_count: (self.failure_count + 1) as u64,
                ..self
            },
            RegisterOutcomeView::TimedOut => RegistrarView {
                last_error: Some("timed out"@),
                failure_count: (self.failure_count + 1) as u64,
                ..self
            },
            RegisterOutcomeView::EngineStopped => self,
        }
    }
}

/// What an attempt to register comes to.
pub open spec fn register_result(outcome: RegisterOutcomeView) -> Result<(), Seq<char>> {
    match outcome {
        RegisterOutcomeView::Registered { .. } => Ok(()),
        RegisterOutcomeView::Unauthorized => Err(
            "registration rejected: authentication failed"@,
        ),
        RegisterOutcomeView::Failed(status) => Err("registration failed: "@ + status.line),
        RegisterOutcomeView::TimedOut => Err("registration timed out"@),
        RegisterOutcomeView::EngineStopped => Err("engine stopped"@),
    }
}

impl RegistrarState {
    /// No attempt yet.
    pub fn new() -> (res: Self)
        ensures
            res@ == (RegistrarView {
                cseq: 0,
                negotiated_expires: None,
                last_status: None,
                last_attempt_at: None,
                last_success_at: None,
                last_error: None,
                register_count: 0,
                failure_count: 0,
            }),
    {
        RegistrarState {
            cseq: 0,
            negotiated_expires: None,
            last_status: None,
            last_attempt_at: None,
            last_success_at: None,
            last_error: None,
            register_count: 0,
            failure_count: 0,
        }
    }

    /// Whether there is a sequence number left for another attempt and for the answer to a
    /// challenge, and room in the counters.
    pub fn can_begin(&self) -> (res: bool)
        ensures
            res == (self@.cseq < u32::MAX - 1 && self@.has_room()),
    {
        self.cseq < u32::MAX - 1 && self.register_count < u64::MAX && self.failure_count < u64::MAX
    }

    /// Begins an attempt at the time `now` and gives its sequence number.
    pub fn begin(&mut self, now: u128) -> (res: u32)
        requires
            old(self)@.cseq < u32::MAX,
        ensures
            res == old(self)@.cseq + 1,
            final(self)@ == old(self)@.begun(now),
    {
        self.cseq = self.cseq + 1;
        self.last_attempt_at = Some(now);
        self.cseq
    }

    /// Records how an attempt ended at the time `now`.
    pub fn finish(&mut self, outcome: RegisterOutcome, now: u128) -> (res: Result<(), String>)
        requires
            old(self)@.has_room(),
        ensures
            final(self)@ == old(self)@.after(outcome@, now),
            match res {
                Ok(_) => register_result(outcome@) == Ok::<(), Seq<char>>(()),
                Err(e) => register_result(outcome@) == Err::<(), Seq<char>>(e@),
            },
    {
        match outcome {
            RegisterOutcome::Registered { expires } => {
                self.negotiated_expires = Some(expires);
                self.last_status = Some(200);
                self.last_success_at = Some(now);
                self.last_error = None;
                self.register_count = self.register_count + 1;
                Ok(())
            },
            RegisterOutcome::Unauthorized => {
                self.last_status = Some(401);
                self.last_error = Some(String::from_str("authentication failed"));
                self.failure_count = self.failure_count + 1;
                Err(String::from_str("registration rejected: authentication failed"))
            },
            RegisterOutcome::Failed(status) => {
                self.last_status = Some(status.code);
                let mut error = String::from_str("server returned ");
                error.append(status.line.as_str());
                self.last_error = Some(error);
                self.failure_count = self.failure_count + 1;
                let mut message = String::from_str("registration failed: ");
                message.append(status.line.as_str());
                Err(message)
            },
            RegisterOutcome::TimedOut => {
                self.last_error = Some(String::from_str("timed out"));
                self.failure_count = self.failure_count + 1;
                Err(String::from_str("registration timed out"))
            },
            RegisterOutcome::EngineStopped => Err(String::from_str("engine stopped")),
        }
    }

    /// A snapshot of the record, with what stays fixed over the registration.
    pub fn diagnostics(
        &self,
        domain: &str,
        contact: &str,
        call_id: &str,
        configured_expires: u32,
    ) -> (res: RegistrarDiagnostics)
        ensures
            res.server_uri@ == "sip:"@ + domain@,
            crate::headers::opt_text(res.contact_uri) == Some(contact@),
            res.call_id@ == call_id@,
            res.configured_expires == configured_expires,
            (RegistrarView {
                cseq: res.cseq,
                negotiated_expires: res.negotiated_expires,
                last_status: res.last_status,
                last_attempt_at: res.last_attempt_at,
                last_success_at: res.last_success_at,
                last_error: crate::headers::opt_text(res.last_error),
                register_count: res.register_count,
                failure_count: res.failure_count,
            }) == self@,
    {
        let mut server_uri = String::from_str("sip:");
        server_uri.append(domain);
        RegistrarDiagnostics {
            server_uri,
            contact_uri: Some(String::from_str(contact)),
            call_id: String::from_str(call_id),
            cseq: self.cseq,
            configured_expires,
            negotiated_expires: self.negotiated_expires,
            last_status: self.last_status,
            last_attempt_at: self.last_attempt_at,
            last_success_at: self.last_success_at,
            last_error: crate::headers::copy_opt(&self.last_error),
            register_count: self.register_count,
            failure_count: self.failure_count,
        }
    }
}

/// Composes the register configuration of an account that receives calls at `contact`. `None`
/// when one of its URIs cannot be read; those of an account with a plain user name and domain, at
/// a contact that was written for it, can.
pub fn register_config(
    account: &SipAccount,
    contact: &str,
    from_tag: &str,
    call_id: &str,
    expires: u32,
) -> (res: Option<RegisterConfig>)
    ensures
        match res {
            Some(cfg) => {
                &&& uri_of("sip:"@ + account.domain@) == Some(cfg.registrar_uri@)
                &&& uri_of(aor_text(account.username@, account.domain@)) == Some(cfg.aor@)
                &&& uri_of(contact@) == Some(cfg.contact@)
                &&& cfg.from_tag@ == from_tag@
                &&& cfg.call_id@ == call_id@
                &&& cfg.expires == expires
                &&& cfg.username@ == text_or(account.auth_username, account.username)
                &&& cfg.password@ == account.password@
            },
            None => uri_of("sip:"@ + account.domain@) is None || uri_of(
                aor_text(account.username@, account.domain@),
            ) is None || uri_of(contact@) is None,
        },
        forall|user: Seq<char>, addr: SocketAddr, transport: Transport|
            plain_account(account.username@, account.domain@) && !user.contains('.')
                && !user.contains('@') && addr is V4 && contact@ == #[trigger] contact_text(
                user,
                addr,
                transport,
            ) ==> (res matches Some(cfg) && cfg.contact@ == contact_view(user, addr, transport)),
{
    proof {
        lemma_account_text(account.username@, account.domain@);
        assert forall|user: Seq<char>, addr: SocketAddr, transport: Transport|
            addr is V4 && contact@ == #[trigger] contact_text(
                user,
                addr,
                transport,
            ) implies contact@ == sip_text(
            Some(user),
            addr->V4_0.ip.text(),
            Some(addr.port()),
            transport,
        ) && sip_settled(None, addr->V4_0.ip.text()) by {
            lemma_contact_text(user, addr, transport);
        }
    }
    let mut registrar = String::from_str("sip:");
    registrar.append(account.domain.as_str());
    let record = aor(account.username.as_str(), account.domain.as_str());
    match (
        Uri::parse(registrar.as_str()),
        Uri::parse(record.as_str()),
        Uri::parse(contact),
    ) {
        (Some(registrar_uri), Some(aor), Some(contact)) => Some(
            RegisterConfig {
                registrar_uri,
                aor,
                contact,
                from_tag: String::from_str(from_tag),
                call_id: String::from_str(call_id),
                expires,
                username: String::from_str(account.auth_username()),
                password: account.password.clone(),
            },
        ),
        _ => None,
    }
}

/// Every attempt has a sequence number of its own, one higher than the one before, however that
/// attempt ended.
pub proof fn attempts_count_up(
    state: RegistrarView,
    first_at: u128,
    outcome: RegisterOutcomeView,
    ended_at: u128,
    second_at: u128,
)
    requires
        state.cseq < u32::MAX - 1,
    ensures
        state.begun(first_at).after(outcome, ended_at).begun(second_at).cseq == state.begun(
            first_at,
        ).cseq + 1,
{
}

/// Each attempt counts once: as a success when it registered, as a failure when it was refused or
/// timed out, and not at all when it was cut off. A success keeps the granted lifetime and its time
/// and clears the error; nothing else changes these two, and a failure leaves an error.
pub proof fn attempts_are_counted_once(
    state: RegistrarView,
    outcome: RegisterOutcomeView,
    now: u128,
)
    requires
        state.has_room(),
    ensures
        ({
            let next = state.after(outcome, now);
            let registered = outcome is Registered;
            let stopped = outcome is EngineStopped;
            &&& next.register_count == state.register_count + if registered {
                1int
            } else {
                0
            }
            &&& next.failure_count == state.failure_count + if registered || stopped {
                0int
            } else {
                1
            }
            &&& next.cseq == state.cseq
            &&& next.last_attempt_at == state.last_attempt_at
            &&& outcome matches RegisterOutcomeView::Registered { expires } ==> {
                &&& next.negotiated_expires == Some(expires)
                &&& next.last_success_at == Some(now)
                &&& next.last_status == Some(200u16)
                &&& next.last_error is None
            }
            &&& !registered ==> next.negotiated_expires == state.negotiated_expires
                && next.last_success_at == state.last_success_at
            &&& !registered && !stopped ==> next.last_error is Some
            &&& outcome matches RegisterOutcomeView::Failed(status) ==> next.last_status == Some(
                status.code,
            )
            &&& outcome is Unauthorized ==> next.last_status == Some(401u16)
            &&& stopped ==> next == state
            &&& register_result(outcome) is Ok <==> registered
            &&& outcome matches RegisterOutcomeView::Failed(status) ==> next.last_error == Some(
                "server returned "@ + status.line,
            ) && register_result(outcome) == Err::<(), Seq<char>>(
                "registration failed: "@ + status.line,
            )
            &&& outcome is Unauthorized ==> next.last_error == Some("authentication failed"@)
                && register_result(outcome) == Err::<(), Seq<char>>(
                "registration rejected: authentication failed"@,
            )
            &&& outcome is TimedOut ==> next.last_error == Some("timed out"@) && register_result(
                outcome,
            ) == Err::<(), Seq<char>>("registration timed out"@) && next.last_status
                == state.last_status
            &&& stopped ==> register_result(outcome) == Err::<(), Seq<char>>("engine stopped"@)
        }),
        state.cseq < u32::MAX ==> {
            let begun = state.begun(now);
            &&& begun.cseq == state.cseq + 1
            &&& begun.last_attempt_at == Some(now)
            &&& begun.register_count == state.register_count
            &&& begun.failure_count == state.failure_count
            &&& begun.negotiated_expires == state.negotiated_expires
            &&& begun.last_success_at == state.last_success_at
            &&& begun.last_error == state.last_error
            &&& begun.last_status == state.last_status
        },
{
}

} // verus!
