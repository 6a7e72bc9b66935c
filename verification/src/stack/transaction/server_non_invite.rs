//! Server non-INVITE transaction (RFC 3261, 17.2.2): an inbound BYE, INFO, OPTIONS or CANCEL.
//! Relays the responses of the transaction user and repeats the last one for a repeated request.

use crate::message::{MessageView, Request, RequestView, Response, ResponseView, SipMessage};
use crate::stack::transaction::server_invite::{opt_response, resent};
use crate::stack::transaction::{
    action_views, ActionView, Reliability, TimerId, Timers, TxAction,
};
use vstd::prelude::*;

verus! {

/// State of a server non-INVITE transaction.
#[derive(Clone, Copy, Debug, PartialEq, Eq, Structural)]
pub enum State {
    /// Request received; no response yet.
    Trying,
    /// A provisional response was sent.
    Proceeding,
    /// A final response was sent; absorbing retransmissions.
    Completed,
    /// Done.
    Terminated,
}

/// A server non-INVITE transaction.
#[derive(Debug)]
pub struct ServerNonInvite {
    state: State,
    timers: Timers,
    rel: Reliability,
    last_response: Option<Response>,
}

/// What a server non-INVITE transaction knows.
#[verifier::ext_equal]
pub struct ServerNonInviteView {
    /// Its state.
    pub state: State,
    /// The base timers.
    pub timers: Timers,
    /// The reliability of the transport.
    pub rel: Reliability,
    /// The last response sent.
    pub last_response: Option<ResponseView>,
}

impl View for ServerNonInvite {
    type V = ServerNonInviteView;

    closed spec fn view(&self) -> ServerNonInviteView {
        ServerNonInviteView {
            state: self.state,
            timers: self.timers,
            rel: self.rel,
            last_response: opt_response(self.last_response),
        }
    }
}

impl ServerNonInviteView {
    /// A transaction that has just been started: it hands the request up.
    pub open spec fn started(request: RequestView, timers: Timers, rel: Reliability) -> (
        Self,
        Seq<ActionView>,
    ) {
        (
            ServerNonInviteView { state: State::Trying, timers, rel, last_response: None },
            seq![ActionView::DeliverRequest(request)],
        )
    }

    /// The transaction after the user sent a response, and what it asks for.
    pub open spec fn after_send(self, resp: ResponseView) -> (Self, Seq<ActionView>) {
        let send = ActionView::Send(MessageView::Response(resp));
        let next = ServerNonInviteView { last_response: Some(resp), ..self };
        if self.state == State::Completed || self.state == State::Terminated {
            (self, Seq::empty())
        } else if resp.status.code < 200 {
            (ServerNonInviteView { state: State::Proceeding, ..next }, seq![send])
        } else if self.rel == Reliability::Reliable {
            (
                ServerNonInviteView { state: State::Terminated, ..next },
                seq![send, ActionView::Terminated],
            )
        } else {
            (
                ServerNonInviteView { state: State::Completed, ..next },
                seq![
                    send,
                    ActionView::StartTimer { id: TimerId::J, after: self.timers.t1.times(64) },
                ],
            )
        }
    }

    /// What a repeated request asks for: the last response again, if one was sent.
    pub open spec fn on_repeat(self) -> Seq<ActionView> {
        if self.state == State::Proceeding || self.state == State::Completed {
            resent(self.last_response)
        } else {
            Seq::empty()
        }
    }

    /// The transaction after a timer fired, and what it asks for.
    pub open spec fn after_timer(self, id: TimerId) -> (Self, Seq<ActionView>) {
        if self.state == State::Completed && id == TimerId::J {
            (
                ServerNonInviteView { state: State::Terminated, ..self },
                seq![ActionView::Terminated],
            )
        } else {
            (self, Seq::empty())
        }
    }
}

impl ServerNonInvite {
    /// Begins the transaction with the received request.
    pub fn start(request: &Request, timers: Timers, rel: Reliability) -> (res: (
        Self,
        Vec<TxAction>,
    ))
        ensures
            (res.0@, action_views(res.1@)) == ServerNonInviteView::started(request@, timers, rel),
    {
        let mut actions: Vec<TxAction> = Vec::new();
        actions.push(TxAction::DeliverRequest(request.copy()));
        assert(action_views(actions@) =~= ServerNonInviteView::started(request@, timers, rel).1);
        (ServerNonInvite { state: State::Trying, timers, rel, last_response: None }, actions)
    }

    /// The state of the transaction.
    pub fn state(&self) -> (res: State)
        ensures
            res == self@.state,
    {
        self.state
    }

    /// Sends a response of the transaction user.
    pub fn send_response(&mut self, resp: Response) -> (res: Vec<TxAction>)
        requires
            old(self)@.timers.wf(),
        ensures
            (final(self)@, action_views(res@)) == old(self)@.after_send(resp@),
    {
        let mut actions: Vec<TxAction> = Vec::new();
        let ghost view = resp@;
        match self.state {
            State::Trying | State::Proceeding => {
                self.last_response = Some(resp.copy());
                let code: u16 = resp.status_code.code;
                actions.push(TxAction::Send(SipMessage::Response(resp)));
                if code < 200 {
                    self.state = State::Proceeding;
                } else if self.rel.is_reliable() {
                    self.state = State::Terminated;
                    actions.push(TxAction::Terminated);
                } else {
                    self.state = State::Completed;
                    actions.push(
                        TxAction::StartTimer { id: TimerId::J, after: self.timers.j(self.rel) },
                    );
                }
            },
            State::Completed | State::Terminated => {},
        }
        assert(action_views(actions@) =~= old(self)@.after_send(view).1);
        actions
    }

    /// Feeds a repeated request.
    pub fn on_request(&mut self, _req: &Request) -> (res: Vec<TxAction>)
        ensures
            final(self)@ == old(self)@,
            action_views(res@) == old(self)@.on_repeat(),
    {
        let mut actions: Vec<TxAction> = Vec::new();
        match self.state {
            State::Proceeding | State::Completed => {
                if let Some(resp) = &self.last_response {
                    actions.push(TxAction::Send(SipMessage::Response(resp.copy())));
                }
            },
            State::Trying | State::Terminated => {},
        }
        assert(action_views(actions@) =~= old(self)@.on_repeat());
        actions
    }

    /// Feeds a fired timer.
    pub fn on_timer(&mut self, id: TimerId) -> (res: Vec<TxAction>)
        ensures
            (final(self)@, action_views(res@)) == old(self)@.after_timer(id),
    {
        let mut actions: Vec<TxAction> = Vec::new();
        match (self.state, id) {
            (State::Completed, TimerId::J) => {
                self.state = State::Terminated;
                actions.push(TxAction::Terminated);
            },
            _ => {},
        }
        assert(action_views(actions@) =~= old(self)@.after_timer(id).1);
        actions
    }
}

/// A transaction that is over stays over and asks for nothing more.
pub proof fn server_non_invite_ends_for_good(t: ServerNonInviteView, resp: ResponseView, id: TimerId)
    requires
        t.state == State::Terminated,
    ensures
        t.after_send(resp) == (t, Seq::<ActionView>::empty()),
        t.on_repeat() == Seq::<ActionView>::empty(),
        t.after_timer(id) == (t, Seq::<ActionView>::empty()),
{
}

/// On an unreliable transport a repeated request is answered with the same final response.
pub proof fn repeated_request_gets_the_same_answer(t: ServerNonInviteView, resp: ResponseView)
    requires
        t.state == State::Trying || t.state == State::Proceeding,
        t.rel == Reliability::Unreliable,
    ensures
        t.after_send(resp).0.on_repeat() == seq![ActionView::Send(MessageView::Response(resp))],
{
}

/// A request is handed up once, and each response of the user goes out until a final one went, which
/// ends the exchange: at once on a reliable transport, and else after 64 times T1, in which the
/// response is repeated for each repetition of the request. Before any response a repetition is
/// ignored.
pub proof fn responses_answer_the_request(
    request: RequestView,
    timers: Timers,
    rel: Reliability,
    t: ServerNonInviteView,
    resp: ResponseView,
    late: ResponseView,
)
    requires
        t.state == State::Trying || t.state == State::Proceeding,
    ensures
        ServerNonInviteView::started(request, timers, rel).1 == seq![
            ActionView::DeliverRequest(request),
        ],
        ServerNonInviteView::started(request, timers, rel).0.on_repeat().len() == 0,
        ({
            let (next, actions) = t.after_send(resp);
            &&& actions[0] == ActionView::Send(MessageView::Response(resp))
            &&& resp.status.code < 200 ==> next.state == State::Proceeding && actions.len() == 1
                && next.on_repeat() == seq![ActionView::Send(MessageView::Response(resp))]
            &&& resp.status.code >= 200 ==> {
                &&& next.after_send(late) == (next, Seq::<ActionView>::empty())
                &&& t.rel == Reliability::Reliable ==> next.state == State::Terminated && actions
                    == seq![
                    ActionView::Send(MessageView::Response(resp)),
                    ActionView::Terminated,
                ]
                &&& t.rel == Reliability::Unreliable ==> {
                    let j = ActionView::StartTimer {
                        id: TimerId::J,
                        after: crate::time::Duration { nanos: (t.timers.t1.nanos * 64) as u128 },
                    };
                    &&& next.state == State::Completed
                    &&& actions == seq![ActionView::Send(MessageView::Response(resp)), j]
                    &&& next.after_timer(TimerId::J).1 == seq![ActionView::Terminated]
                }
            }
        }),
{
}

} // verus!
