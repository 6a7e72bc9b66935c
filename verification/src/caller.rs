//! Outbound calls: the configuration of a call, and what its outcome means to the caller.

use crate::account::{text_or, SipAccount, Transport};
use crate::headers::{
    aor, aor_text, contact_text, contact_view, lemma_account_text, lemma_contact_text,
    plain_account, sip_settled, sip_text, uri_of, Uri,
};
use crate::net::SocketAddr;
use crate::sdp::{parse_sdp, sdp_media, MediaView, RemoteMedia};
use crate::session_timer::{negotiate_uac, uac_timer, SessionTimer};
use crate::stack::call::{CallConfig, CallOutcome, CallOutcomeView};
use crate::stack::dialog::{Dialog, DialogView};
use vstd::prelude::*;
use vstd::string::*;

verus! {

/// Composes the configuration of a call to `target` with the SDP offer. `None` when a URI of the
/// account cannot be read; those of an account with a plain user name and domain, at a contact
/// that was written for it, can.
pub fn call_config(
    account: &SipAccount,
    target: Uri,
    contact: &str,
    from_tag: &str,
    call_id: &str,
    offer: Vec<u8>,
) -> (res: Option<CallConfig>)
    ensures
        match res {
            Some(cfg) => {
                &&& cfg.target@ == target@
                &&& uri_of(aor_text(account.username@, account.domain@)) == Some(cfg.from@)
                &&& uri_of(contact@) == Some(cfg.contact@)
                &&& cfg.from_tag@ == from_tag@
                &&& cfg.call_id@ == call_id@
                &&& cfg.sdp@ == offer@
                &&& cfg.username@ == text_or(account.auth_username, account.username)
                &&& cfg.password@ == account.password@
            },
            None => uri_of(aor_text(account.username@, account.domain@)) is None || uri_of(
                contact@,
            ) is None,
        },
        forall|user: Seq<char>, addr: SocketAddr, transport: Transport|
            plain_account(account.username@, account.domain@) && !user.contains('.')
                && !user.contains('@') && addr is V4 && contact@ == #[trigger] contact_text(
                user,
                addr,
                transport,
            ) ==> (res matches Some(cfg) && cfg.contact@ == contact_view(user, addr, transport)),
{
    proof {
        lemma_account_text(account.username@, account.domain@);
        assert forall|user: Seq<char>, addr: SocketAddr, transport: Transport|
            addr is V4 && contact@ == #[trigger] contact_text(
                user,
                addr,
                transport,
            ) implies contact@ == sip_text(
            Some(user),
            addr->V4_0.ip.text(),
            Some(addr.port()),
            transport,
        ) && sip_settled(None, addr->V4_0.ip.text()) by {
            lemma_contact_text(user, addr, transport);
        }
    }
    let record = aor(account.username.as_str(), account.domain.as_str());
    match (Uri::parse(record.as_str()), Uri::parse(contact)) {
        (Some(from), Some(contact)) => Some(
            CallConfig {
                target,
                from,
                contact,
                from_tag: String::from_str(from_tag),
                call_id: String::from_str(call_id),
                sdp: offer,
                username: String::from_str(account.auth_username()),
                password: account.password.clone(),
            },
        ),
        _ => None,
    }
}

/// The `Call-ID` made from a tag.
pub open spec fn call_id_text(tag: Seq<char>) -> Seq<char> {
    tag + "@wavekat.com"@
}

/// The `Call-ID` made from a tag.
pub fn call_id_from(tag: &str) -> (res: String)
    ensures
        res@ == call_id_text(tag@),
{
    let mut out = String::from_str(tag);
    out.append("@wavekat.com");
    out
}

/// An answered call: the dialog, where the remote expects media, and the session timer.
#[derive(Debug)]
pub struct Established {
    /// The dialog.
    pub dialog: Box<Dialog>,
    /// The remote media.
    pub remote_media: RemoteMedia,
    /// The session timer to run.
    pub timer: Option<SessionTimer>,
}

/// What a call attempt comes to: an answer with readable SDP establishes the call; everything
/// else is an error in words.
pub open spec fn dial_result(outcome: CallOutcomeView) -> Result<
    (DialogView, MediaView, Option<SessionTimer>),
    Seq<char>,
> {
    match outcome {
        CallOutcomeView::Answered { dialog, response } => match sdp_media(response.body) {
            Ok(media) => Ok((dialog, media, uac_timer(response.headers))),
            Err(e) => Err(e),
        },
        CallOutcomeView::Rejected(status) => Err("call rejected: "@ + status.line),
        CallOutcomeView::Unauthorized => Err("call rejected: authentication failed"@),
        CallOutcomeView::TimedOut => Err("call timed out with no final response"@),
        CallOutcomeView::EngineStopped => Err("engine stopped"@),
    }
}

/// Says what a call attempt comes to.
pub fn dial_outcome(outcome: CallOutcome) -> (res: Result<Established, String>)
    ensures
        match res {
            Ok(call) => dial_result(outcome@) == Ok::<
                (DialogView, MediaView, Option<SessionTimer>),
                Seq<char>,
            >((call.dialog@, call.remote_media@, call.timer)),
            Err(e) => dial_result(outcome@) == Err::<
                (DialogView, MediaView, Option<SessionTimer>),
                Seq<char>,
            >(e@),
        },
{
    match outcome {
        CallOutcome::Answered { dialog, response } => match parse_sdp(&response.body) {
            Ok(remote_media) => {
                let timer = negotiate_uac(&response.headers);
                Ok(Established { dialog, remote_media, timer })
            },
            Err(e) => Err(e),
        },
        CallOutcome::Rejected(status) => {
            let mut message = String::from_str("call rejected: ");
            message.append(status.line.as_str());
            Err(message)
        },
        CallOutcome::Unauthorized => Err(String::from_str("call rejected: authentication failed")),
        CallOutcome::TimedOut => Err(String::from_str("call timed out with no final response")),
        CallOutcome::EngineStopped => Err(String::from_str("engine stopped")),
    }
}

/// Says what a hangup comes to: an error when the BYE was not acknowledged.
pub fn hangup_outcome(acknowledged: bool) -> (res: Result<(), String>)
    ensures
        match res {
            Ok(_) => acknowledged,
            Err(e) => !acknowledged && e@ == "BYE was not acknowledged"@,
        },
{
    if acknowledged {
        Ok(())
    } else {
        Err(String::from_str("BYE was not acknowledged"))
    }
}

/// A call is established exactly when it was answered with readable SDP; it then has the dialog of
/// the outcome, the media of the answer, and the session timer that the answer grants. A refusal is
/// told with its status.
pub proof fn answered_call_is_established(outcome: CallOutcomeView)
    ensures
        dial_result(outcome) is Ok <==> (outcome matches CallOutcomeView::Answered { response, .. }
            && sdp_media(response.body) is Ok),
        dial_result(outcome) matches Ok(call) ==> (outcome matches CallOutcomeView::Answered {
            dialog,
            response,
        } && call.0 == dialog && sdp_media(response.body) == Ok::<MediaView, Seq<char>>(call.1)
            && call.2 == uac_timer(response.headers)),
        outcome matches CallOutcomeView::Rejected(status) ==> dial_result(outcome) == Err::<
            (DialogView, MediaView, Option<SessionTimer>),
            Seq<char>,
        >("call rejected: "@ + status.line),
        dial_result(outcome) matches Err(e) ==> {
            &&& outcome is Unauthorized ==> e == "call rejected: authentication failed"@
            &&& outcome is TimedOut ==> e == "call timed out with no final response"@
            &&& outcome is EngineStopped ==> e == "engine stopped"@
        },
{
}

/// Calls with different tags have different `Call-ID`s.
pub proof fn call_ids_differ(tag1: Seq<char>, tag2: Seq<char>)
    requires
        tag1 != tag2,
    ensures
        call_id_text(tag1) != call_id_text(tag2),
        tag1.is_prefix_of(call_id_text(tag1)),
        "@wavekat.com"@.is_suffix_of(call_id_text(tag1)),
{
    if call_id_text(tag1) == call_id_text(tag2) {
        let n = "@wavekat.com"@.len();
        assert(call_id_text(tag1).len() == tag1.len() + n);
        assert(call_id_text(tag2).len() == tag2.len() + n);
        assert(call_id_text(tag1).take(tag1.len() as int) =~= tag1);
        assert(call_id_text(tag2).take(tag2.len() as int) =~= tag2);
    }
    assert(tag1.is_prefix_of(call_id_text(tag1)));
    assert("@wavekat.com"@.is_suffix_of(call_id_text(tag1)));
}

} // verus!
