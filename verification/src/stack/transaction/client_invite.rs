//! Client INVITE transaction (RFC 3261, 17.1.1).
//!
//! The ACK for a refusal is built and sent inside this transaction. The ACK for a 2xx belongs to
//! the dialog, so on a 2xx this machine hands the response up and ends.

use crate::message::{MessageView, Request, RequestView, Response, ResponseView, SipMessage};
use crate::stack::transaction::{
    action_views, build_non_2xx_ack, refusal_ack, ActionView, Reliability, TimerId, Timers, TxAction,
};
use crate::time::{seconds, Duration, MAX_NANOS};
use vstd::prelude::*;

verus! {

/// State of a client INVITE transaction.
#[derive(Clone, Copy, Debug, PartialEq, Eq, Structural)]
pub enum State {
    /// INVITE sent, no response yet; retransmitting on Timer A.
    Calling,
    /// A provisional response arrived; waiting for the final one.
    Proceeding,
    /// A refusal arrived; absorbing its retransmissions.
    Completed,
    /// Done.
    Terminated,
}

/// A client INVITE transaction.
#[derive(Debug)]
pub struct ClientInvite {
    state: State,
    timers: Timers,
    rel: Reliability,
    invite: Request,
    timer_a: Duration,
}

/// What a client INVITE transaction knows.
#[verifier::ext_equal]
pub struct ClientInviteView {
    /// Its state.
    pub state: State,
    /// The base timers.
    pub timers: Timers,
    /// The reliability of the transport.
    pub rel: Reliability,
    /// The INVITE.
    pub invite: RequestView,
    /// The current interval of Timer A.
    pub timer_a: Duration,
}

impl View for ClientInvite {
    type V = ClientInviteView;

    closed spec fn view(&self) -> ClientInviteView {
        ClientInviteView {
            state: self.state,
            timers: self.timers,
            rel: self.rel,
            invite: self.invite@,
            timer_a: self.timer_a,
        }
    }
}

impl ClientInviteView {
    /// A transaction that has just been started, and what it asks for: send the INVITE, run
    /// Timer A on an unreliable transport, and Timer B.
    pub open spec fn started(invite: RequestView, timers: Timers, rel: Reliability) -> (
        Self,
        Seq<ActionView>,
    ) {
        let send = ActionView::Send(MessageView::Request(invite));
        let b = ActionView::StartTimer { id: TimerId::B, after: timers.t1.times(64) };
        (
            ClientInviteView { state: State::Calling, timers, rel, invite, timer_a: timers.t1 },
            if rel == Reliability::Reliable {
                seq![send, b]
            } else {
                seq![send, ActionView::StartTimer { id: TimerId::A, after: timers.t1 }, b]
            },
        )
    }

    /// The transaction after a response, and what it asks for.
    pub open spec fn after_response(self, resp: ResponseView) -> (Self, Seq<ActionView>) {
        let code = resp.status.code;
        let deliver = ActionView::DeliverResponse(resp);
        let ack = refusal_ack(self.invite, resp);
        let waiting = self.state == State::Calling || self.state == State::Proceeding;
        if waiting && code < 200 {
            (
                ClientInviteView { state: State::Proceeding, ..self },
                if self.state == State::Calling {
                    seq![
                        ActionView::StopTimer(TimerId::A),
                        ActionView::StopTimer(TimerId::B),
                        deliver,
                    ]
                } else {
                    seq![deliver]
                },
            )
        } else if waiting && code < 300 {
            (
                ClientInviteView { state: State::Terminated, ..self },
                seq![deliver, ActionView::Terminated],
            )
        } else if waiting && ack is Some {
            let send = ActionView::Send(MessageView::Request(ack->0));
            if self.rel == Reliability::Reliable {
                (
                    ClientInviteView { state: State::Terminated, ..self },
                    seq![send, deliver, ActionView::Terminated],
                )
            } else {
                (
                    ClientInviteView { state: State::Completed, ..self },
                    seq![
                        send,
                        deliver,
                        ActionView::StartTimer { id: TimerId::D, after: seconds(32) },
                    ],
                )
            }
        } else if self.state == State::Completed && code >= 300 && ack is Some {
            (self, seq![ActionView::Send(MessageView::Request(ack->0))])
        } else {
            (self, Seq::empty())
        }
    }

    /// Whether the interval of Timer A can be doubled if it must be.
    pub open spec fn may_fire(self, id: TimerId) -> bool {
        self.state == State::Calling && id == TimerId::A ==> self.timer_a.nanos * 2 <= MAX_NANOS
    }

    /// The transaction after a timer fired, and what it asks for. Timer A doubles with each
    /// retransmission.
    pub open spec fn after_timer(self, id: TimerId) -> (Self, Seq<ActionView>) {
        if self.state == State::Calling && id == TimerId::A {
            let after = self.timer_a.times(2);
            (
                ClientInviteView { timer_a: after, ..self },
                seq![
                    ActionView::Send(MessageView::Request(self.invite)),
                    ActionView::StartTimer { id: TimerId::A, after },
                ],
            )
        } else if self.state == State::Calling && id == TimerId::B {
            (
                ClientInviteView { state: State::Terminated, ..self },
                seq![ActionView::TimedOut, ActionView::Terminated],
            )
        } else if self.state == State::Completed && id == TimerId::D {
            (
                ClientInviteView { state: State::Terminated, ..self },
                seq![ActionView::Terminated],
            )
        } else {
            (self, Seq::empty())
        }
    }
}

impl ClientInvite {
    /// Begins the transaction.
    pub fn start(invite: Request, timers: Timers, rel: Reliability) -> (res: (Self, Vec<TxAction>))
        requires
            timers.wf(),
        ensures
            (res.0@, action_views(res.1@)) == ClientInviteView::started(invite@, timers, rel),
    {
        let mut actions: Vec<TxAction> = Vec::new();
        actions.push(TxAction::Send(SipMessage::Request(invite.copy())));
        if !rel.is_reliable() {
            actions.push(TxAction::StartTimer { id: TimerId::A, after: timers.t1 });
        }
        actions.push(TxAction::StartTimer { id: TimerId::B, after: timers.timeout() });
        assert(action_views(actions@) =~= ClientInviteView::started(invite@, timers, rel).1);
        (
            ClientInvite { state: State::Calling, timers, rel, invite, timer_a: timers.t1 },
            actions,
        )
    }

    /// The state of the transaction.
    pub fn state(&self) -> (res: State)
        ensures
            res == self@.state,
    {
        self.state
    }

    /// Whether Timer A can be doubled if it must be.
    pub fn can_fire(&self, id: TimerId) -> (res: bool)
        ensures
            res == self@.may_fire(id),
    {
        !(self.state == State::Calling && id == TimerId::A) || self.timer_a.nanos <= MAX_NANOS / 2
    }

    /// Feeds a response received for this transaction.
    pub fn on_response(&mut self, resp: &Response) -> (res: Vec<TxAction>)
        ensures
            (final(self)@, action_views(res@)) == old(self)@.after_response(resp@),
    {
        let code: u16 = resp.status_code.code;
        let mut actions: Vec<TxAction> = Vec::new();
        match self.state {
            State::Calling | State::Proceeding => {
                if code < 200 {
                    if self.state == State::Calling {
                        self.state = State::Proceeding;
                        actions.push(TxAction::StopTimer(TimerId::A));
                        actions.push(TxAction::StopTimer(TimerId::B));
                    }
                    actions.push(TxAction::DeliverResponse(resp.copy()));
                } else if code < 300 {
                    self.state = State::Terminated;
                    actions.push(TxAction::DeliverResponse(resp.copy()));
                    actions.push(TxAction::Terminated);
                } else if let Some(ack) = build_non_2xx_ack(&self.invite, resp) {
                    actions.push(TxAction::Send(SipMessage::Request(ack)));
                    actions.push(TxAction::DeliverResponse(resp.copy()));
                    if self.rel.is_reliable() {
                        self.state = State::Terminated;
                        actions.push(TxAction::Terminated);
                    } else {
                        self.state = State::Completed;
                        actions.push(
                            TxAction::StartTimer { id: TimerId::D, after: self.timers.d(self.rel) },
                        );
                    }
                }
            },
            State::Completed => {
                if code >= 300 {
                    if let Some(ack) = build_non_2xx_ack(&self.invite, resp) {
                        actions.push(TxAction::Send(SipMessage::Request(ack)));
                    }
                }
            },
            State::Terminated => {},
        }
        assert(action_views(actions@) =~= old(self)@.after_response(resp@).1);
        actions
    }

    /// Feeds a fired timer.
    pub fn on_timer(&mut self, id: TimerId) -> (res: Vec<TxAction>)
        requires
            old(self)@.may_fire(id),
        ensures
            (final(self)@, action_views(res@)) == old(self)@.after_timer(id),
    {
        let mut actions: Vec<TxAction> = Vec::new();
        match (self.state, id) {
            (State::Calling, TimerId::A) => {
                self.timer_a = self.timer_a.multiplied(2);
                actions.push(TxAction::Send(SipMessage::Request(self.invite.copy())));
                actions.push(TxAction::StartTimer { id: TimerId::A, after: self.timer_a });
            },
            (State::Calling, TimerId::B) => {
                self.state = State::Terminated;
                actions.push(TxAction::TimedOut);
                actions.push(TxAction::Terminated);
            },
            (State::Completed, TimerId::D) => {
                self.state = State::Terminated;
                actions.push(TxAction::Terminated);
            },
            _ => {},
        }
        assert(action_views(actions@) =~= old(self)@.after_timer(id).1);
        actions
    }
}

/// A transaction that is over stays over and asks for nothing more.
pub proof fn client_invite_ends_for_good(t: ClientInviteView, resp: ResponseView, id: TimerId)
    requires
        t.state == State::Terminated,
    ensures
        t.after_response(resp) == (t, Seq::<ActionView>::empty()),
        t.after_timer(id) == (t, Seq::<ActionView>::empty()),
{
}

/// A refusal is handed up once: its retransmissions are only acknowledged again.
pub proof fn refusal_is_delivered_once(t: ClientInviteView, first: ResponseView, again: ResponseView)
    requires
        t.state == State::Calling || t.state == State::Proceeding,
        first.status.code >= 300,
        refusal_ack(t.invite, first) is Some,
    ensures
        t.after_response(first).1.contains(ActionView::DeliverResponse(first)),
        !t.after_response(first).0.after_response(again).1.contains(
            ActionView::DeliverResponse(again),
        ),
{
    assert(t.after_response(first).1[1] == ActionView::DeliverResponse(first));
}

/// An INVITE goes out first of all. On an unreliable transport it goes out again after T1 and then
/// after twice as long each time, for as long as nothing came back; on a reliable one it does not.
/// After 64 times T1 without an answer the transaction times out.
pub proof fn unanswered_invite_is_repeated(
    invite: RequestView,
    timers: Timers,
    rel: Reliability,
    t: ClientInviteView,
)
    requires
        t.state == State::Calling,
    ensures
        ({
            let (start, actions) = ClientInviteView::started(invite, timers, rel);
            &&& start.state == State::Calling
            &&& start.invite == invite
            &&& actions[0] == ActionView::Send(MessageView::Request(invite))
            &&& actions.contains(
                ActionView::StartTimer { id: TimerId::A, after: timers.t1 },
            ) <==> rel == Reliability::Unreliable
            &&& actions.last() == (ActionView::StartTimer {
                id: TimerId::B,
                after: Duration { nanos: (timers.t1.nanos * 64) as u128 },
            })
        }),
        ({
            let (next, actions) = t.after_timer(TimerId::A);
            &&& next.state == State::Calling
            &&& next.invite == t.invite
            &&& actions == seq![
                ActionView::Send(MessageView::Request(t.invite)),
                ActionView::StartTimer { id: TimerId::A, after: next.timer_a },
            ]
            &&& next.timer_a.nanos == (t.timer_a.nanos * 2) as u128
        }),
        t.after_timer(TimerId::B).1 == seq![ActionView::TimedOut, ActionView::Terminated],
        t.after_timer(TimerId::B).0.state == State::Terminated,
{
    let actions = ClientInviteView::started(invite, timers, rel).1;
    if rel == Reliability::Unreliable {
        assert(actions[1] == ActionView::StartTimer { id: TimerId::A, after: timers.t1 });
    }
}

/// What comes of a response. Before a final one each is handed up: a provisional one ends the
/// repetition of the INVITE and the timeout, a 2xx ends the transaction and is not acknowledged
/// here. A refusal is acknowledged before it is handed up; it ends the transaction on a reliable
/// transport, and else its repetitions are acknowledged for 32 seconds.
pub proof fn responses_move_the_invite_on(t: ClientInviteView, resp: ResponseView, m: MessageView)
    requires
        t.state == State::Calling || t.state == State::Proceeding,
    ensures
        ({
            let (next, actions) = t.after_response(resp);
            let code = resp.status.code;
            &&& next.invite == t.invite
            &&& code < 200 ==> {
                &&& next.state == State::Proceeding
                &&& actions.last() == ActionView::DeliverResponse(resp)
                &&& !actions.contains(ActionView::Send(m))
                &&& t.state == State::Calling ==> actions.contains(
                    ActionView::StopTimer(TimerId::A),
                ) && actions.contains(ActionView::StopTimer(TimerId::B))
                &&& next.after_timer(TimerId::A).1.len() == 0
                &&& next.after_timer(TimerId::B).1.len() == 0
            }
            &&& 200 <= code < 300 ==> next.state == State::Terminated && actions == seq![
                ActionView::DeliverResponse(resp),
                ActionView::Terminated,
            ]
            &&& code >= 300 ==> match refusal_ack(t.invite, resp) {
                Some(ack) => {
                    &&& actions[0] == ActionView::Send(MessageView::Request(ack))
                    &&& actions[1] == ActionView::DeliverResponse(resp)
                    &&& t.rel == Reliability::Reliable ==> next.state == State::Terminated
                        && actions.last() == ActionView::Terminated
                    &&& t.rel == Reliability::Unreliable ==> next.state == State::Completed
                        && actions.last() == (ActionView::StartTimer {
                        id: TimerId::D,
                        after: seconds(32),
                    }) && next.after_timer(TimerId::D).1 == seq![ActionView::Terminated]
                },
                None => next == t && actions.len() == 0,
            }
        }),
{
    let actions = t.after_response(resp).1;
    if resp.status.code < 200 && t.state == State::Calling {
        assert(actions[0] == ActionView::StopTimer(TimerId::A));
        assert(actions[1] == ActionView::StopTimer(TimerId::B));
    }
}

/// The repetition of a refusal is acknowledged again and not handed up; nothing else is answered
/// once a refusal came.
pub proof fn repeated_refusals_are_acknowledged(t: ClientInviteView, resp: ResponseView)
    requires
        t.state == State::Completed,
    ensures
        t.after_response(resp).0 == t,
        resp.status.code < 300 ==> t.after_response(resp).1.len() == 0,
        resp.status.code >= 300 ==> match refusal_ack(t.invite, resp) {
            Some(ack) => t.after_response(resp).1 == seq![
                ActionView::Send(MessageView::Request(ack)),
            ],
            None => t.after_response(resp).1.len() == 0,
        },
{
}

} // verus!
