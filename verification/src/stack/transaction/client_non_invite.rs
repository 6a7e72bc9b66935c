//! Client non-INVITE transaction (RFC 3261, 17.1.2): REGISTER, BYE, CANCEL, INFO and OPTIONS.
//! There is no ACK, and a final response of any class ends the exchange.

use crate::message::{MessageView, Request, RequestView, Response, ResponseView, SipMessage};
use crate::stack::transaction::{
    action_views, ActionView, Reliability, TimerId, Timers, TxAction,
};
use crate::time::Duration;
use vstd::prelude::*;

verus! {

/// State of a client non-INVITE transaction.
#[derive(Clone, Copy, Debug, PartialEq, Eq, Structural)]
pub enum State {
    /// Request sent, nothing back yet; retransmitting on Timer E.
    Trying,
    /// A provisional response arrived; still retransmitting, every T2.
    Proceeding,
    /// A final response arrived; absorbing its retransmissions.
    Completed,
    /// Done.
    Terminated,
}

/// A client non-INVITE transaction.
#[derive(Debug)]
pub struct ClientNonInvite {
    state: State,
    timers: Timers,
    rel: Reliability,
    request: Request,
    timer_e: Duration,
}

/// What a client non-INVITE transaction knows.
#[verifier::ext_equal]
pub struct ClientNonInviteView {
    /// Its state.
    pub state: State,
    /// The base timers.
    pub timers: Timers,
    /// The reliability of the transport.
    pub rel: Reliability,
    /// The request.
    pub request: RequestView,
    /// The current interval of Timer E.
    pub timer_e: Duration,
}

impl View for ClientNonInvite {
    type V = ClientNonInviteView;

    closed spec fn view(&self) -> ClientNonInviteView {
        ClientNonInviteView {
            state: self.state,
            timers: self.timers,
            rel: self.rel,
            request: self.request@,
            timer_e: self.timer_e,
        }
    }
}

impl ClientNonInviteView {
    /// The interval of Timer E is T1, or at most T2.
    pub open spec fn wf(self) -> bool {
        &&& self.timers.wf()
        &&& self.timer_e == self.timers.t1 || self.timer_e.nanos <= self.timers.t2.nanos
    }

    /// A transaction that has just been started, and what it asks for: send the request, run
    /// Timer E on an unreliable transport, and Timer F.
    pub open spec fn started(request: RequestView, timers: Timers, rel: Reliability) -> (
        Self,
        Seq<ActionView>,
    ) {
        let send = ActionView::Send(MessageView::Request(request));
        let f = ActionView::StartTimer { id: TimerId::F, after: timers.t1.times(64) };
        (
            ClientNonInviteView { state: State::Trying, timers, rel, request, timer_e: timers.t1 },
            if rel == Reliability::Reliable {
                seq![send, f]
            } else {
                seq![send, ActionView::StartTimer { id: TimerId::E, after: timers.t1 }, f]
            },
        )
    }

    /// The transaction after a response, and what it asks for.
    pub open spec fn after_response(self, resp: ResponseView) -> (Self, Seq<ActionView>) {
        let deliver = ActionView::DeliverResponse(resp);
        if self.state == State::Completed || self.state == State::Terminated {
            (self, Seq::empty())
        } else if resp.status.code < 200 {
            (ClientNonInviteView { state: State::Proceeding, ..self }, seq![deliver])
        } else if self.rel == Reliability::Reliable {
            (
                ClientNonInviteView { state: State::Terminated, ..self },
                seq![deliver, ActionView::Terminated],
            )
        } else {
            (
                ClientNonInviteView { state: State::Completed, ..self },
                seq![
                    ActionView::StopTimer(TimerId::E),
                    ActionView::StopTimer(TimerId::F),
                    deliver,
                    ActionView::StartTimer { id: TimerId::K, after: self.timers.t4 },
                ],
            )
        }
    }

    /// The transaction after a timer fired, and what it asks for. Timer E doubles up to T2 in
    /// Trying and is T2 in Proceeding.
    pub open spec fn after_timer(self, id: TimerId) -> (Self, Seq<ActionView>) {
        let waiting = self.state == State::Trying || self.state == State::Proceeding;
        if waiting && id == TimerId::E {
            let after = if self.state == State::Trying {
                self.timer_e.times(2).least(self.timers.t2)
            } else {
                self.timers.t2
            };
            (
                ClientNonInviteView { timer_e: after, ..self },
                seq![
                    ActionView::Send(MessageView::Request(self.request)),
                    ActionView::StartTimer { id: TimerId::E, after },
                ],
            )
        } else if waiting && id == TimerId::F {
            (
                ClientNonInviteView { state: State::Terminated, ..self },
                seq![ActionView::TimedOut, ActionView::Terminated],
            )
        } else if self.state == State::Completed && id == TimerId::K {
            (
                ClientNonInviteView { state: State::Terminated, ..self },
                seq![ActionView::Terminated],
            )
        } else {
            (self, Seq::empty())
        }
    }
}

impl ClientNonInvite {
    /// Begins the transaction.
    pub fn start(request: Request, timers: Timers, rel: Reliability) -> (res: (Self, Vec<TxAction>))
        requires
            timers.wf(),
        ensures
            (res.0@, action_views(res.1@)) == ClientNonInviteView::started(request@, timers, rel),
            res.0@.wf(),
    {
        let mut actions: Vec<TxAction> = Vec::new();
        actions.push(TxAction::Send(SipMessage::Request(request.copy())));
        if !rel.is_reliable() {
            actions.push(TxAction::StartTimer { id: TimerId::E, after: timers.t1 });
        }
        actions.push(TxAction::StartTimer { id: TimerId::F, after: timers.timeout() });
        assert(action_views(actions@) =~= ClientNonInviteView::started(request@, timers, rel).1);
        (
            ClientNonInvite { state: State::Trying, timers, rel, request, timer_e: timers.t1 },
            actions,
        )
    }

    /// The state of the transaction.
    pub fn state(&self) -> (res: State)
        ensures
            res == self@.state,
    {
        self.state
    }

    /// Feeds a response received for this transaction.
    pub fn on_response(&mut self, resp: &Response) -> (res: Vec<TxAction>)
        ensures
            (final(self)@, action_views(res@)) == old(self)@.after_response(resp@),
            old(self)@.wf() ==> final(self)@.wf(),
    {
        let mut actions: Vec<TxAction> = Vec::new();
        match self.state {
            State::Trying | State::Proceeding => {
                if resp.status_code.code < 200 {
                    self.state = State::Proceeding;
                    actions.push(TxAction::DeliverResponse(resp.copy()));
                } else if self.rel.is_reliable() {
                    self.state = State::Terminated;
                    actions.push(TxAction::DeliverResponse(resp.copy()));
                    actions.push(TxAction::Terminated);
                } else {
                    self.state = State::Completed;
                    actions.push(TxAction::StopTimer(TimerId::E));
                    actions.push(TxAction::StopTimer(TimerId::F));
                    actions.push(TxAction::DeliverResponse(resp.copy()));
                    actions.push(
                        TxAction::StartTimer { id: TimerId::K, after: self.timers.k(self.rel) },
                    );
                }
            },
            State::Completed | State::Terminated => {},
        }
        assert(action_views(actions@) =~= old(self)@.after_response(resp@).1);
        actions
    }

    /// Feeds a fired timer.
    pub fn on_timer(&mut self, id: TimerId) -> (res: Vec<TxAction>)
        requires
            old(self)@.wf(),
        ensures
            (final(self)@, action_views(res@)) == old(self)@.after_timer(id),
            final(self)@.wf(),
    {
        let mut actions: Vec<TxAction> = Vec::new();
        match (self.state, id) {
            (State::Trying, TimerId::E) => {
                self.timer_e = self.timer_e.multiplied(2).shorter(self.timers.t2);
                actions.push(TxAction::Send(SipMessage::Request(self.request.copy())));
                actions.push(TxAction::StartTimer { id: TimerId::E, after: self.timer_e });
            },
            (State::Proceeding, TimerId::E) => {
                self.timer_e = self.timers.t2;
                actions.push(TxAction::Send(SipMessage::Request(self.request.copy())));
                actions.push(TxAction::StartTimer { id: TimerId::E, after: self.timer_e });
            },
            (State::Trying, TimerId::F) | (State::Proceeding, TimerId::F) => {
                self.state = State::Terminated;
                actions.push(TxAction::TimedOut);
                actions.push(TxAction::Terminated);
            },
            (State::Completed, TimerId::K) => {
                self.state = State::Terminated;
                actions.push(TxAction::Terminated);
            },
            _ => {},
        }
        assert(action_views(actions@) =~= old(self)@.after_timer(id).1);
        actions
    }
}

/// A transaction that is over stays over and asks for nothing more.
pub proof fn client_non_invite_ends_for_good(t: ClientNonInviteView, resp: ResponseView, id: TimerId)
    requires
        t.state == State::Terminated,
    ensures
        t.after_response(resp) == (t, Seq::<ActionView>::empty()),
        t.after_timer(id) == (t, Seq::<ActionView>::empty()),
{
}

/// The interval of every retransmission is at most T2.
pub proof fn timer_e_is_capped(t: ClientNonInviteView, after: Duration)
    requires
        t.after_timer(TimerId::E).1.contains(ActionView::StartTimer { id: TimerId::E, after }),
    ensures
        after.nanos <= t.timers.t2.nanos,
{
}

/// A request goes out first of all. On an unreliable transport it goes out again after T1, then
/// after twice as long each time, up to T2, and every T2 once a provisional response came; on a
/// reliable one it does not. After 64 times T1 without a final response the transaction times out.
pub proof fn unanswered_request_is_repeated(
    request: RequestView,
    timers: Timers,
    rel: Reliability,
    t: ClientNonInviteView,
)
    requires
        t.state == State::Trying || t.state == State::Proceeding,
    ensures
        ({
            let (start, actions) = ClientNonInviteView::started(request, timers, rel);
            &&& start.state == State::Trying
            &&& start.request == request
            &&& start.timer_e == timers.t1
            &&& actions[0] == ActionView::Send(MessageView::Request(request))
            &&& actions.contains(
                ActionView::StartTimer { id: TimerId::E, after: timers.t1 },
            ) <==> rel == Reliability::Unreliable
            &&& actions.last() == (ActionView::StartTimer {
                id: TimerId::F,
                after: Duration { nanos: (timers.t1.nanos * 64) as u128 },
            })
        }),
        ({
            let (next, actions) = t.after_timer(TimerId::E);
            &&& next.state == t.state
            &&& next.request == t.request
            &&& actions == seq![
                ActionView::Send(MessageView::Request(t.request)),
                ActionView::StartTimer { id: TimerId::E, after: next.timer_e },
            ]
            &&& t.state == State::Proceeding ==> next.timer_e == t.timers.t2
            &&& t.state == State::Trying && t.timer_e.nanos * 2 <= t.timers.t2.nanos
                ==> next.timer_e.nanos == t.timer_e.nanos * 2
            &&& t.state == State::Trying && t.timers.t2.nanos < t.timer_e.nanos * 2
                <= crate::time::MAX_NANOS ==> next.timer_e == t.timers.t2
        }),
        t.after_timer(TimerId::F).1 == seq![ActionView::TimedOut, ActionView::Terminated],
        t.after_timer(TimerId::F).0.state == State::Terminated,
{
    let actions = ClientNonInviteView::started(request, timers, rel).1;
    if rel == Reliability::Unreliable {
        assert(actions[1] == ActionView::StartTimer { id: TimerId::E, after: timers.t1 });
    }
}

/// Each response is handed up until a final one came. A final one of any class ends the exchange: at
/// once on a reliable transport, and else after T4, in which neither the request nor the response is
/// repeated upwards.
pub proof fn final_response_ends_the_exchange(
    t: ClientNonInviteView,
    resp: ResponseView,
    again: ResponseView,
)
    requires
        t.state == State::Trying || t.state == State::Proceeding,
    ensures
        ({
            let (next, actions) = t.after_response(resp);
            &&& actions.contains(ActionView::DeliverResponse(resp))
            &&& resp.status.code < 200 ==> next.state == State::Proceeding && actions == seq![
                ActionView::DeliverResponse(resp),
            ]
            &&& resp.status.code >= 200 ==> {
                &&& next.after_response(again) == (next, Seq::<ActionView>::empty())
                &&& next.after_timer(TimerId::E).1.len() == 0
                &&& next.after_timer(TimerId::F).1.len() == 0
                &&& t.rel == Reliability::Reliable ==> next.state == State::Terminated
                    && actions.last() == ActionView::Terminated
                &&& t.rel == Reliability::Unreliable ==> next.state == State::Completed
                    && actions.last() == (ActionView::StartTimer {
                    id: TimerId::K,
                    after: t.timers.t4,
                }) && actions.contains(ActionView::StopTimer(TimerId::E)) && actions.contains(
                    ActionView::StopTimer(TimerId::F),
                ) && next.after_timer(TimerId::K).1 == seq![ActionView::Terminated]
            }
        }),
{
    let actions = t.after_response(resp).1;
    if resp.status.code < 200 || t.rel == Reliability::Reliable {
        assert(actions[0] == ActionView::DeliverResponse(resp));
    } else {
        assert(actions[0] == ActionView::StopTimer(TimerId::E));
        assert(actions[1] == ActionView::StopTimer(TimerId::F));
        assert(actions[2] == ActionView::DeliverResponse(resp));
    }
}

} // verus!
