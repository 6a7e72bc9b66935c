//! Server INVITE transaction (RFC 3261, 17.2.1): relays the responses of the transaction user,
//! retransmits a refusal, and absorbs its ACK. A 2xx is sent once and ends the transaction;
//! repeating it until the ACK arrives belongs to the dialog.

use crate::message::{
    MessageView, Method, Request, RequestView, Response, ResponseView, SipMessage,
};
use crate::stack::transaction::{
    action_views, ActionView, Reliability, TimerId, Timers, TxAction,
};
use crate::time::Duration;
use vstd::prelude::*;

verus! {

/// State of a server INVITE transaction.
#[derive(Clone, Copy, Debug, PartialEq, Eq, Structural)]
pub enum State {
    /// INVITE received; relaying provisional responses.
    Proceeding,
    /// A refusal was sent; retransmitting it and waiting for the ACK.
    Completed,
    /// The ACK arrived; absorbing its retransmissions.
    Confirmed,
    /// Done.
    Terminated,
}

/// A server INVITE transaction.
#[derive(Debug)]
pub struct ServerInvite {
    state: State,
    timers: Timers,
    rel: Reliability,
    last_provisional: Option<Response>,
    last_final: Option<Response>,
    timer_g: Duration,
}

/// What a server INVITE transaction knows.
#[verifier::ext_equal]
pub struct ServerInviteView {
    /// Its state.
    pub state: State,
    /// The base timers.
    pub timers: Timers,
    /// The reliability of the transport.
    pub rel: Reliability,
    /// The last provisional response sent.
    pub last_provisional: Option<ResponseView>,
    /// The refusal sent.
    pub last_final: Option<ResponseView>,
    /// The current interval of Timer G.
    pub timer_g: Duration,
}

/// An optional response as a view.
pub open spec fn opt_response(r: Option<Response>) -> Option<ResponseView> {
    match r {
        Some(x) => Some(x@),
        None => None,
    }
}

/// Sending the stored response again, if there is one.
pub open spec fn resent(stored: Option<ResponseView>) -> Seq<ActionView> {
    match stored {
        Some(r) => seq![ActionView::Send(MessageView::Response(r))],
        None => Seq::empty(),
    }
}

impl View for ServerInvite {
    type V = ServerInviteView;

    closed spec fn view(&self) -> ServerInviteView {
        ServerInviteView {
            state: self.state,
            timers: self.timers,
            rel: self.rel,
            last_provisional: opt_response(self.last_provisional),
            last_final: opt_response(self.last_final),
            timer_g: self.timer_g,
        }
    }
}

impl ServerInviteView {
    /// The interval of Timer G is T1, or at most T2.
    pub open spec fn wf(self) -> bool {
        &&& self.timers.wf()
        &&& self.timer_g == self.timers.t1 || self.timer_g.nanos <= self.timers.t2.nanos
    }

    /// A transaction that has just been started: it hands the INVITE up.
    pub open spec fn started(invite: RequestView, timers: Timers, rel: Reliability) -> (
        Self,
        Seq<ActionView>,
    ) {
        (
            ServerInviteView {
                state: State::Proceeding,
                timers,
                rel,
                last_provisional: None,
                last_final: None,
                timer_g: timers.t1,
            },
            seq![ActionView::DeliverRequest(invite)],
        )
    }

    /// The transaction after the user sent a response, and what it asks for.
    pub open spec fn after_send(self, resp: ResponseView) -> (Self, Seq<ActionView>) {
        let send = ActionView::Send(MessageView::Response(resp));
        let h = ActionView::StartTimer { id: TimerId::H, after: self.timers.t1.times(64) };
        if self.state != State::Proceeding {
            (self, Seq::empty())
        } else if resp.status.code < 200 {
            (ServerInviteView { last_provisional: Some(resp), ..self }, seq![send])
        } else if resp.status.code < 300 {
            (
                ServerInviteView { state: State::Terminated, ..self },
                seq![send, ActionView::Terminated],
            )
        } else {
            (
                ServerInviteView { state: State::Completed, last_final: Some(resp), ..self },
                if self.rel == Reliability::Reliable {
                    seq![send, h]
                } else {
                    seq![send, ActionView::StartTimer { id: TimerId::G, after: self.timers.t1 }, h]
                },
            )
        }
    }

    /// The transaction after a received request, and what it asks for: a repeated INVITE is
    /// answered with the last response again; the ACK ends the retransmissions.
    pub open spec fn after_request(self, method: Method) -> (Self, Seq<ActionView>) {
        if method == Method::Invite && self.state == State::Proceeding {
            (self, resent(self.last_provisional))
        } else if method == Method::Invite && self.state == State::Completed {
            (self, resent(self.last_final))
        } else if method == Method::Ack && self.state == State::Completed {
            if self.rel == Reliability::Reliable {
                (
                    ServerInviteView { state: State::Terminated, ..self },
                    seq![
                        ActionView::StopTimer(TimerId::G),
                        ActionView::StopTimer(TimerId::H),
                        ActionView::Terminated,
                    ],
                )
            } else {
                (
                    ServerInviteView { state: State::Confirmed, ..self },
                    seq![
                        ActionView::StopTimer(TimerId::G),
                        ActionView::StopTimer(TimerId::H),
                        ActionView::StartTimer { id: TimerId::I, after: self.timers.t4 },
                    ],
                )
            }
        } else {
            (self, Seq::empty())
        }
    }

    /// The transaction after a timer fired, and what it asks for. Timer G doubles up to T2.
    pub open spec fn after_timer(self, id: TimerId) -> (Self, Seq<ActionView>) {
        if self.state == State::Completed && id == TimerId::G {
            let after = self.timer_g.times(2).least(self.timers.t2);
            (
                ServerInviteView { timer_g: after, ..self },
                resent(self.last_final).push(ActionView::StartTimer { id: TimerId::G, after }),
            )
        } else if self.state == State::Completed && id == TimerId::H {
            (
                ServerInviteView { state: State::Terminated, ..self },
                seq![ActionView::TimedOut, ActionView::Terminated],
            )
        } else if self.state == State::Confirmed && id == TimerId::I {
            (
                ServerInviteView { state: State::Terminated, ..self },
                seq![ActionView::Terminated],
            )
        } else {
            (self, Seq::empty())
        }
    }
}

fn resend(stored: &Option<Response>) -> (res: Vec<TxAction>)
    ensures
        action_views(res@) == resent(opt_response(*stored)),
{
    let mut actions: Vec<TxAction> = Vec::new();
    if let Some(resp) = stored {
        actions.push(TxAction::Send(SipMessage::Response(resp.copy())));
    }
    assert(action_views(actions@) =~= resent(opt_response(*stored)));
    actions
}

impl ServerInvite {
    /// Begins the transaction with the received INVITE.
    pub fn start(invite: &Request, timers: Timers, rel: Reliability) -> (res: (Self, Vec<TxAction>))
        requires
            timers.wf(),
        ensures
            (res.0@, action_views(res.1@)) == ServerInviteView::started(invite@, timers, rel),
            res.0@.wf(),
    {
        let mut actions: Vec<TxAction> = Vec::new();
        actions.push(TxAction::DeliverRequest(invite.copy()));
        assert(action_views(actions@) =~= ServerInviteView::started(invite@, timers, rel).1);
        (
            ServerInvite {
                state: State::Proceeding,
                timers,
                rel,
                last_provisional: None,
                last_final: None,
                timer_g: timers.t1,
            },
            actions,
        )
    }

    /// The state of the transaction.
    pub fn state(&self) -> (res: State)
        ensures
            res == self@.state,
    {
        self.state
    }

    /// Sends a response of the transaction user.
    pub fn send_response(&mut self, resp: Response) -> (res: Vec<TxAction>)
        requires
            old(self)@.wf(),
        ensures
            (final(self)@, action_views(res@)) == old(self)@.after_send(resp@),
            final(self)@.wf(),
    {
        let mut actions: Vec<TxAction> = Vec::new();
        let ghost view = resp@;
        if self.state == State::Proceeding {
            let code: u16 = resp.status_code.code;
            if code < 200 {
                self.last_provisional = Some(resp.copy());
                actions.push(TxAction::Send(SipMessage::Response(resp)));
            } else if code < 300 {
                self.state = State::Terminated;
                actions.push(TxAction::Send(SipMessage::Response(resp)));
                actions.push(TxAction::Terminated);
            } else {
                self.last_final = Some(resp.copy());
                actions.push(TxAction::Send(SipMessage::Response(resp)));
                if !self.rel.is_reliable() {
                    actions.push(TxAction::StartTimer { id: TimerId::G, after: self.timers.t1 });
                }
                actions.push(
                    TxAction::StartTimer { id: TimerId::H, after: self.timers.timeout() },
                );
                self.state = State::Completed;
            }
        }
        assert(action_views(actions@) =~= old(self)@.after_send(view).1);
        actions
    }

    /// Feeds a request received for this transaction: a repeated INVITE, or the ACK.
    pub fn on_request(&mut self, req: &Request) -> (res: Vec<TxAction>)
        ensures
            (final(self)@, action_views(res@)) == old(self)@.after_request(req.method),
            old(self)@.wf() ==> final(self)@.wf(),
    {
        let mut actions: Vec<TxAction> = Vec::new();
        match (req.method, self.state) {
            (Method::Invite, State::Proceeding) => {
                actions = resend(&self.last_provisional);
            },
            (Method::Invite, State::Completed) => {
                actions = resend(&self.last_final);
            },
            (Method::Ack, State::Completed) => {
                actions.push(TxAction::StopTimer(TimerId::G));
                actions.push(TxAction::StopTimer(TimerId::H));
                if self.rel.is_reliable() {
                    self.state = State::Terminated;
                    actions.push(TxAction::Terminated);
                } else {
                    self.state = State::Confirmed;
                    actions.push(
                        TxAction::StartTimer { id: TimerId::I, after: self.timers.i(self.rel) },
                    );
                }
            },
            _ => {},
        }
        assert(action_views(actions@) =~= old(self)@.after_request(req.method).1);
        actions
    }

    /// Feeds a fired timer.
    pub fn on_timer(&mut self, id: TimerId) -> (res: Vec<TxAction>)
        requires
            old(self)@.wf(),
        ensures
            (final(self)@, action_views(res@)) == old(self)@.after_timer(id),
            final(self)@.wf(),
    {
        let mut actions: Vec<TxAction> = Vec::new();
        match (self.state, id) {
            (State::Completed, TimerId::G) => {
                self.timer_g = self.timer_g.multiplied(2).shorter(self.timers.t2);
                actions = resend(&self.last_final);
                let ghost before = action_views(actions@);
                actions.push(TxAction::StartTimer { id: TimerId::G, after: self.timer_g });
                assert(action_views(actions@) =~= before.push(
                    ActionView::StartTimer { id: TimerId::G, after: self.timer_g },
                ));
            },
            (State::Completed, TimerId::H) => {
                self.state = State::Terminated;
                actions.push(TxAction::TimedOut);
                actions.push(TxAction::Terminated);
            },
            (State::Confirmed, TimerId::I) => {
                self.state = State::Terminated;
                actions.push(TxAction::Terminated);
            },
            _ => {},
        }
        assert(action_views(actions@) =~= old(self)@.after_timer(id).1);
        actions
    }
}

/// A transaction that is over stays over and asks for nothing more.
pub proof fn server_invite_ends_for_good(
    t: ServerInviteView,
    resp: ResponseView,
    method: Method,
    id: TimerId,
)
    requires
        t.state == State::Terminated,
    ensures
        t.after_send(resp) == (t, Seq::<ActionView>::empty()),
        t.after_request(method) == (t, Seq::<ActionView>::empty()),
        t.after_timer(id) == (t, Seq::<ActionView>::empty()),
{
}

/// The interval of every retransmission of a refusal is at most T2.
pub proof fn timer_g_is_capped(t: ServerInviteView, after: Duration)
    requires
        t.after_timer(TimerId::G).1.contains(ActionView::StartTimer { id: TimerId::G, after }),
    ensures
        after.nanos <= t.timers.t2.nanos,
{
}

/// Once a final response has been sent, no other response of the user goes out: an INVITE is
/// answered once.
pub proof fn invite_is_answered_once(t: ServerInviteView, first: ResponseView, second: ResponseView)
    requires
        first.status.code >= 200,
        t.state == State::Proceeding,
    ensures
        t.after_send(first).0.after_send(second).1 == Seq::<ActionView>::empty(),
{
}

/// The ACK of a refusal stops its retransmission: afterwards neither a timer nor a repeated
/// INVITE sends it again.
pub proof fn ack_stops_the_refusal(t: ServerInviteView, id: TimerId, msg: MessageView)
    requires
        t.state == State::Completed,
    ensures
        !t.after_request(Method::Ack).0.after_timer(id).1.contains(ActionView::Send(msg)),
        !t.after_request(Method::Ack).0.after_request(Method::Invite).1.contains(
            ActionView::Send(msg),
        ),
{
}

/// An INVITE is handed up, and each response of the user goes out until a final one went. A 2xx ends
/// the transaction. A refusal is repeated on an unreliable transport, first after T1, and waits for
/// its ACK for 64 times T1.
pub proof fn responses_answer_the_invite(
    invite: RequestView,
    timers: Timers,
    rel: Reliability,
    t: ServerInviteView,
    resp: ResponseView,
)
    requires
        t.state == State::Proceeding,
    ensures
        ServerInviteView::started(invite, timers, rel).1 == seq![
            ActionView::DeliverRequest(invite),
        ],
        ServerInviteView::started(invite, timers, rel).0.state == State::Proceeding,
        ({
            let (next, actions) = t.after_send(resp);
            let code = resp.status.code;
            &&& actions[0] == ActionView::Send(MessageView::Response(resp))
            &&& code < 200 ==> next.state == State::Proceeding && actions.len() == 1
                && next.after_request(Method::Invite).1 == seq![
                ActionView::Send(MessageView::Response(resp)),
            ]
            &&& 200 <= code < 300 ==> next.state == State::Terminated && actions == seq![
                ActionView::Send(MessageView::Response(resp)),
                ActionView::Terminated,
            ]
            &&& code >= 300 ==> {
                &&& next.state == State::Completed
                &&& actions.contains(
                    ActionView::StartTimer { id: TimerId::G, after: t.timers.t1 },
                ) <==> t.rel == Reliability::Unreliable
                &&& actions.last() == (ActionView::StartTimer {
                    id: TimerId::H,
                    after: Duration { nanos: (t.timers.t1.nanos * 64) as u128 },
                })
                &&& next.after_request(Method::Invite).1 == seq![
                    ActionView::Send(MessageView::Response(resp)),
                ]
                &&& next.after_timer(TimerId::G).1[0] == ActionView::Send(
                    MessageView::Response(resp),
                )
                &&& next.after_timer(TimerId::H).1 == seq![
                    ActionView::TimedOut,
                    ActionView::Terminated,
                ]
            }
        }),
{
    let actions = t.after_send(resp).1;
    if resp.status.code >= 300 && t.rel == Reliability::Unreliable {
        assert(actions[1] == ActionView::StartTimer { id: TimerId::G, after: t.timers.t1 });
    }
}

/// The ACK of a refusal ends its repetition and the timeout; the transaction is then over on a
/// reliable transport, and else after T4. The interval of the repetition doubles up to T2.
pub proof fn ack_ends_the_wait(t: ServerInviteView)
    requires
        t.state == State::Completed,
    ensures
        ({
            let (next, actions) = t.after_request(Method::Ack);
            &&& actions[0] == ActionView::StopTimer(TimerId::G)
            &&& actions[1] == ActionView::StopTimer(TimerId::H)
            &&& t.rel == Reliability::Reliable ==> next.state == State::Terminated
                && actions.last() == ActionView::Terminated
            &&& t.rel == Reliability::Unreliable ==> next.state == State::Confirmed
                && actions.last() == (ActionView::StartTimer { id: TimerId::I, after: t.timers.t4 })
                && next.after_timer(TimerId::I).1 == seq![ActionView::Terminated]
                && next.after_timer(TimerId::H).1.len() == 0
        }),
        ({
            let next = t.after_timer(TimerId::G).0;
            &&& next.state == State::Completed
            &&& t.after_timer(TimerId::G).1.last() == (ActionView::StartTimer {
                id: TimerId::G,
                after: next.timer_g,
            })
            &&& t.timer_g.nanos * 2 <= t.timers.t2.nanos ==> next.timer_g.nanos == t.timer_g.nanos
                * 2
            &&& t.timers.t2.nanos < t.timer_g.nanos * 2 <= crate::time::MAX_NANOS ==> next.timer_g
                == t.timers.t2
        }),
{
}

} // verus!
