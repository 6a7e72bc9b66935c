//! Transaction engine: the table of live transactions, and what each event does to it.
//!
//! An event is an inbound message, a fired timer, or a command of the transaction user. Each
//! gives a list of [`Effect`]s for the owner of the socket and the clock: send a message, start
//! a sleeper, publish an [`Event`].
//!
//! Timers are told apart by generations: arming a timer raises its generation and starts a
//! sleeper tagged with it; a fired timer is ignored unless its generation is still current.

use crate::message::{
    MessageView, Method, Request, RequestView, Response, ResponseView, SipMessage,
};
use crate::net::SocketAddr;
use crate::stack::transaction::client_invite::{ClientInvite, ClientInviteView};
use crate::stack::transaction::client_non_invite::{ClientNonInvite, ClientNonInviteView};
use crate::stack::transaction::server_invite::{ServerInvite, ServerInviteView};
use crate::stack::transaction::server_non_invite::{ServerNonInvite, ServerNonInviteView};
use crate::stack::transaction::{
    action_views, request_key, response_key, ActionView, KeyView, Reliability, TimerId, Timers,
    Transaction, TransactionKey, TransactionView, TxAction,
};
use crate::table::Table;
use crate::time::Duration;
use vstd::prelude::*;

verus! {

/// A request from the transaction user to the engine.
#[derive(Debug)]
pub enum Command {
    /// Open a client transaction: send `request` to `peer`.
    StartClient {
        /// The request.
        request: Request,
        /// Where it goes.
        peer: SocketAddr,
    },
    /// Hand a server transaction the response to send.
    SendResponse {
        /// The transaction.
        key: TransactionKey,
        /// The response.
        response: Response,
    },
    /// Send a message that belongs to no transaction: the ACK for a 2xx.
    SendOutOfDialog {
        /// The message.
        message: SipMessage,
        /// Where it goes.
        peer: SocketAddr,
    },
}

/// Something the engine tells the transaction user.
#[derive(Debug, Clone, PartialEq, Eq)]
pub enum Event {
    /// A new inbound request opened a server transaction.
    IncomingRequest {
        /// The transaction.
        key: TransactionKey,
        /// The request.
        request: Request,
        /// Where it came from.
        peer: SocketAddr,
    },
    /// A response arrived for a client transaction.
    Response {
        /// The transaction.
        key: TransactionKey,
        /// The response.
        response: Response,
    },
    /// A request matched no transaction: the ACK for a 2xx.
    UnmatchedRequest {
        /// The request.
        request: Request,
        /// Where it came from.
        peer: SocketAddr,
    },
    /// A transaction timed out without a final response.
    TimedOut {
        /// The transaction.
        key: TransactionKey,
    },
    /// A transaction is over.
    Terminated {
        /// The transaction.
        key: TransactionKey,
    },
}

/// An event, its messages as views.
#[verifier::ext_equal]
pub enum EventView {
    IncomingRequest { key: KeyView, request: RequestView, peer: SocketAddr },
    Response { key: KeyView, response: ResponseView },
    UnmatchedRequest { request: RequestView, peer: SocketAddr },
    TimedOut { key: KeyView },
    Terminated { key: KeyView },
}

impl View for Event {
    type V = EventView;

    open spec fn view(&self) -> EventView {
        match self {
            Event::IncomingRequest { key, request, peer } => EventView::IncomingRequest {
                key: key@,
                request: request@,
                peer: *peer,
            },
            Event::Response { key, response } => EventView::Response {
                key: key@,
                response: response@,
            },
            Event::UnmatchedRequest { request, peer } => EventView::UnmatchedRequest {
                request: request@,
                peer: *peer,
            },
            Event::TimedOut { key } => EventView::TimedOut { key: key@ },
            Event::Terminated { key } => EventView::Terminated { key: key@ },
        }
    }
}

impl EventView {
    /// The transaction that the event is about.
    pub open spec fn key(self) -> Option<KeyView> {
        match self {
            EventView::IncomingRequest { key, .. } => Some(key),
            EventView::Response { key, .. } => Some(key),
            EventView::UnmatchedRequest { .. } => None,
            EventView::TimedOut { key } => Some(key),
            EventView::Terminated { key } => Some(key),
        }
    }
}

impl Event {
    /// The transaction that the event is about.
    pub fn key(&self) -> (res: Option<&TransactionKey>)
        ensures
            match res {
                Some(k) => self@.key() == Some(k@),
                None => self@.key() is None,
            },
    {
        match self {
            Event::IncomingRequest { key, .. } => Some(key),
            Event::Response { key, .. } => Some(key),
            Event::UnmatchedRequest { .. } => None,
            Event::TimedOut { key } => Some(key),
            Event::Terminated { key } => Some(key),
        }
    }
}

/// What the engine asks the owner of the socket and the clock to do.
#[derive(Debug, Clone, PartialEq, Eq)]
pub enum Effect {
    /// Put a message on the wire.
    Send {
        /// The message.
        message: SipMessage,
        /// Where it goes.
        peer: SocketAddr,
    },
    /// After the given time, report that the timer fired.
    Sleep {
        /// The transaction.
        key: TransactionKey,
        /// The timer.
        id: TimerId,
        /// The generation to report.
        generation: u64,
        /// The time.
        after: Duration,
    },
    /// Tell the transaction user.
    Publish(Event),
}

/// An effect, its messages as views.
#[verifier::ext_equal]
pub enum EffectView {
    Send { message: MessageView, peer: SocketAddr },
    Sleep { key: KeyView, id: TimerId, generation: u64, after: Duration },
    Publish(EventView),
}

impl View for Effect {
    type V = EffectView;

    open spec fn view(&self) -> EffectView {
        match self {
            Effect::Send { message, peer } => EffectView::Send { message: message@, peer: *peer },
            Effect::Sleep { key, id, generation, after } => EffectView::Sleep {
                key: key@,
                id: *id,
                generation: *generation,
                after: *after,
            },
            Effect::Publish(e) => EffectView::Publish(e@),
        }
    }
}

/// The effects as views.
pub open spec fn effect_views(e: Seq<Effect>) -> Seq<EffectView> {
    e.map_values(|x: Effect| x@)
}

/// A live transaction and what the engine keeps for it.
#[derive(Debug)]
pub struct Entry {
    tx: Transaction,
    peer: SocketAddr,
    timers: Table<TimerId, u64>,
}

/// What an [`Entry`] holds.
#[verifier::ext_equal]
pub struct EntryView {
    /// The transaction.
    pub tx: TransactionView,
    /// Where its messages go.
    pub peer: SocketAddr,
    /// The current generation of each timer that was ever armed.
    pub timers: Map<TimerId, u64>,
}

impl View for Entry {
    type V = EntryView;

    closed spec fn view(&self) -> EntryView {
        EntryView { tx: self.tx@, peer: self.peer, timers: self.timers@ }
    }
}

impl Entry {
    closed spec fn inv(&self) -> bool {
        self.timers.wf()
    }
}

/// The table of live transactions.
#[derive(Debug)]
pub struct Engine {
    reliability: Reliability,
    timers: Timers,
    txns: Table<TransactionKey, Entry>,
}

/// What an [`Engine`] holds.
#[verifier::ext_equal]
pub struct EngineView {
    /// The reliability of the transport.
    pub reliability: Reliability,
    /// The base timers.
    pub timers: Timers,
    /// The live transactions.
    pub txns: Map<KeyView, EntryView>,
}

impl View for Engine {
    type V = EngineView;

    closed spec fn view(&self) -> EngineView {
        EngineView {
            reliability: self.reliability,
            timers: self.timers,
            txns: self.txns@.map_values(|e: Entry| e@),
        }
    }
}

impl EngineView {
    /// The timers of every transaction are in range.
    pub open spec fn in_range(self) -> bool {
        &&& self.timers.wf()
        &&& forall|k: KeyView| #[trigger] self.txns.dom().contains(k) ==> self.txns[k].tx.wf()
    }

    /// The engine with the entry `e` for the transaction `key`.
    pub open spec fn with(self, key: KeyView, e: EntryView) -> Self {
        EngineView { txns: self.txns.insert(key, e), ..self }
    }

    /// The engine after one unit of work of the transaction `key`, and the effects. Work of a
    /// transaction that is gone is dropped, but for what is told to the user.
    pub open spec fn perform(self, key: KeyView, action: ActionView) -> (Self, Seq<EffectView>) {
        let live = self.txns.dom().contains(key);
        let e = self.txns[key];
        match action {
            ActionView::Send(message) => (
                self,
                if live {
                    seq![EffectView::Send { message, peer: e.peer }]
                } else {
                    Seq::empty()
                },
            ),
            ActionView::StartTimer { id, after } => if live {
                let generation = if e.timers.dom().contains(id) {
                    e.timers[id].wrapping_add(1)
                } else {
                    1u64
                };
                (
                    self.with(
                        key,
                        EntryView { timers: e.timers.insert(id, generation), ..e },
                    ),
                    seq![EffectView::Sleep { key, id, generation, after }],
                )
            } else {
                (self, Seq::empty())
            },
            ActionView::StopTimer(id) => (
                if live && e.timers.dom().contains(id) {
                    self.with(
                        key,
                        EntryView {
                            timers: e.timers.insert(id, e.timers[id].wrapping_add(1)),
                            ..e
                        },
                    )
                } else {
                    self
                },
                Seq::empty(),
            ),
            ActionView::DeliverResponse(response) => (
                self,
                seq![EffectView::Publish(EventView::Response { key, response })],
            ),
            ActionView::DeliverRequest(request) => (
                self,
                if live {
                    seq![
                        EffectView::Publish(
                            EventView::IncomingRequest { key, request, peer: e.peer },
                        ),
                    ]
                } else {
                    Seq::empty()
                },
            ),
            ActionView::TimedOut => (
                self,
                seq![EffectView::Publish(EventView::TimedOut { key })],
            ),
            ActionView::Terminated => (
                EngineView { txns: self.txns.remove(key), ..self },
                seq![EffectView::Publish(EventView::Terminated { key })],
            ),
        }
    }

    /// The engine after units of work of the transaction `key`, one after the other.
    pub open spec fn apply(self, key: KeyView, actions: Seq<ActionView>) -> (Self, Seq<EffectView>)
        decreases actions.len(),
    {
        if actions.len() == 0 {
            (self, Seq::empty())
        } else {
            let (s, e) = self.apply(key, actions.drop_last());
            let (t, f) = s.perform(key, actions.last());
            (t, e + f)
        }
    }

    /// The engine after the transaction `key` became `tx` and asked for `actions`.
    pub open spec fn step(self, key: KeyView, tx: TransactionView, actions: Seq<ActionView>) -> (
        Self,
        Seq<EffectView>,
    ) {
        self.with(key, EntryView { tx, ..self.txns[key] }).apply(key, actions)
    }

    /// The engine after a new transaction `key` with `peer` asked for `actions`.
    pub open spec fn open_tx(
        self,
        key: KeyView,
        tx: TransactionView,
        peer: SocketAddr,
        actions: Seq<ActionView>,
    ) -> (Self, Seq<EffectView>) {
        self.with(key, EntryView { tx, peer, timers: Map::empty() }).apply(key, actions)
    }

    /// The engine after an inbound response: its transaction reacts; without one it is dropped.
    pub open spec fn after_response(self, resp: ResponseView) -> (Self, Seq<EffectView>) {
        match response_key(resp) {
            Some(key) => if self.txns.dom().contains(key) {
                let (tx, actions) = self.txns[key].tx.after_response(resp);
                self.step(key, tx, actions)
            } else {
                (self, Seq::empty())
            },
            None => (self, Seq::empty()),
        }
    }

    /// The engine after an inbound request: its transaction reacts; without one, an ACK is
    /// handed up and any other request opens a server transaction.
    pub open spec fn after_request(self, req: RequestView, src: SocketAddr) -> (
        Self,
        Seq<EffectView>,
    ) {
        match request_key(req) {
            Some(key) => if self.txns.dom().contains(key) {
                let (tx, actions) = self.txns[key].tx.after_request(req.method);
                self.step(key, tx, actions)
            } else if req.method == Method::Ack {
                (
                    self,
                    seq![
                        EffectView::Publish(
                            EventView::UnmatchedRequest { request: req, peer: src },
                        ),
                    ],
                )
            } else if req.method == Method::Invite {
                let (t, actions) = ServerInviteView::started(req, self.timers, self.reliability);
                self.open_tx(key, TransactionView::ServerInvite(t), src, actions)
            } else {
                let (t, actions) = ServerNonInviteView::started(
                    req,
                    self.timers,
                    self.reliability,
                );
                self.open_tx(key, TransactionView::ServerNonInvite(t), src, actions)
            },
            None => (self, Seq::empty()),
        }
    }

    /// Whether a fired timer is still the current one.
    pub open spec fn is_current(self, key: KeyView, id: TimerId, generation: u64) -> bool {
        &&& self.txns.dom().contains(key)
        &&& self.txns[key].timers.dom().contains(id)
        &&& self.txns[key].timers[id] == generation
    }

    /// Whether the timer, if current, can fire without its interval growing out of range.
    pub open spec fn may_fire(self, key: KeyView, id: TimerId, generation: u64) -> bool {
        self.is_current(key, id, generation) ==> self.txns[key].tx.may_fire(id)
    }

    /// The engine after a timer fired. A timer that was stopped, armed again, or whose
    /// transaction is gone is ignored.
    pub open spec fn after_timer(self, key: KeyView, id: TimerId, generation: u64) -> (
        Self,
        Seq<EffectView>,
    ) {
        if self.is_current(key, id, generation) {
            let (tx, actions) = self.txns[key].tx.after_timer(id);
            self.step(key, tx, actions)
        } else {
            (self, Seq::empty())
        }
    }

    /// The engine after the user opened a client transaction.
    pub open spec fn after_start(self, request: RequestView, peer: SocketAddr) -> (
        Self,
        Seq<EffectView>,
    ) {
        match request_key(request) {
            Some(key) => if request.method == Method::Invite {
                let (t, actions) = ClientInviteView::started(
                    request,
                    self.timers,
                    self.reliability,
                );
                self.open_tx(key, TransactionView::ClientInvite(t), peer, actions)
            } else {
                let (t, actions) = ClientNonInviteView::started(
                    request,
                    self.timers,
                    self.reliability,
                );
                self.open_tx(key, TransactionView::ClientNonInvite(t), peer, actions)
            },
            None => (self, Seq::empty()),
        }
    }

    /// The engine after the user handed a server transaction a response.
    pub open spec fn after_send(self, key: KeyView, resp: ResponseView) -> (Self, Seq<EffectView>) {
        if self.txns.dom().contains(key) {
            let (tx, actions) = self.txns[key].tx.after_send(resp);
            self.step(key, tx, actions)
        } else {
            (self, Seq::empty())
        }
    }

    /// The engine after a command.
    pub open spec fn after_command(self, cmd: Command) -> (Self, Seq<EffectView>) {
        match cmd {
            Command::StartClient { request, peer } => self.after_start(request@, peer),
            Command::SendResponse { key, response } => self.after_send(key@, response@),
            Command::SendOutOfDialog { message, peer } => (
                self,
                seq![EffectView::Send { message: message@, peer }],
            ),
        }
    }
}

impl Engine {
    /// The table is well formed and the timers of every transaction are in range.
    pub closed spec fn wf(&self) -> bool {
        &&& self.txns.wf()
        &&& self@.in_range()
        &&& forall|k: KeyView| #[trigger] self.txns@.dom().contains(k) ==> self.txns@[k].inv()
    }

    /// An engine without transactions.
    pub fn new(timers: Timers, reliability: Reliability) -> (res: Self)
        requires
            timers.wf(),
        ensures
            res.wf(),
            res@ == (EngineView { reliability, timers, txns: Map::empty() }),
    {
        let res = Engine { reliability, timers, txns: Table::new() };
        assert(res@.txns =~= Map::<KeyView, EntryView>::empty());
        res
    }

    /// Puts an entry in the table.
    fn put(&mut self, key: TransactionKey, entry: Entry)
        requires
            old(self).wf(),
            entry.inv(),
            entry@.tx.wf(),
        ensures
            final(self).wf(),
            final(self)@ == old(self)@.with(key@, entry@),
    {
        self.txns.insert(key, entry);
        assert(self@.txns =~= old(self)@.txns.insert(key@, entry@));
    }

    /// Takes an entry out of the table.
    fn take(&mut self, key: &TransactionKey) -> (res: Option<Entry>)
        requires
            old(self).wf(),
        ensures
            final(self).wf(),
            final(self)@ == (EngineView { txns: old(self)@.txns.remove(key@), ..old(self)@ }),
            match res {
                Some(e) => old(self)@.txns.dom().contains(key@) && old(self)@.txns[key@] == e@
                    && e.inv() && e@.tx.wf(),
                None => !old(self)@.txns.dom().contains(key@),
            },
    {
        let res = self.txns.remove(key);
        assert(self@.txns =~= old(self)@.txns.remove(key@));
        assert(old(self)@.txns.dom() =~= old(self).txns@.dom());
        res
    }

    /// Where the messages of a transaction go.
    fn peer_of(&self, key: &TransactionKey) -> (res: Option<SocketAddr>)
        requires
            self.wf(),
        ensures
            match res {
                Some(p) => self@.txns.dom().contains(key@) && self@.txns[key@].peer == p,
                None => !self@.txns.dom().contains(key@),
            },
    {
        match self.txns.get(key) {
            Some(e) => Some(e.peer),
            None => None,
        }
    }

    /// Arms a timer and gives its generation.
    fn arm_timer(&mut self, key: &TransactionKey, id: TimerId) -> (res: Option<u64>)
        requires
            old(self).wf(),
        ensures
            final(self).wf(),
            forall|after: Duration|
                (#[trigger] old(self)@.perform(key@, ActionView::StartTimer { id, after })).0
                    == final(self)@,
            match res {
                Some(generation) => old(self)@.txns.dom().contains(key@) && forall|after: Duration|
                    (#[trigger] old(self)@.perform(key@, ActionView::StartTimer { id, after })).1
                        == seq![EffectView::Sleep { key: key@, id, generation, after }],
                None => !old(self)@.txns.dom().contains(key@),
            },
    {
        match self.take(key) {
            Some(mut entry) => {
                let ghost e = entry@;
                let generation: u64 = match entry.timers.get(&id) {
                    Some(g) => g.wrapping_add(1),
                    None => 1,
                };
                entry.timers.insert(id, generation);
                assert(entry@ =~= EntryView { timers: e.timers.insert(id, generation), ..e });
                self.put(key.copy(), entry);
                assert(self@.txns =~= old(self)@.txns.insert(key@, entry@));
                Some(generation)
            },
            None => {
                assert(self@.txns =~= old(self)@.txns);
                None
            },
        }
    }

    /// Stops a timer: any sleeper for it is out of date from now on.
    fn stop_timer(&mut self, key: &TransactionKey, id: TimerId)
        requires
            old(self).wf(),
        ensures
            final(self).wf(),
            final(self)@ == old(self)@.perform(key@, ActionView::StopTimer(id)).0,
    {
        match self.take(key) {
            Some(mut entry) => {
                let ghost e = entry@;
                let current: Option<u64> = match entry.timers.get(&id) {
                    Some(g) => Some(*g),
                    None => None,
                };
                if let Some(g) = current {
                    let next: u64 = g.wrapping_add(1);
                    entry.timers.insert(id, next);
                    assert(entry@ =~= EntryView { timers: e.timers.insert(id, next), ..e });
                }
                self.put(key.copy(), entry);
                assert(self@.txns =~= old(self)@.txns.insert(key@, entry@));
                if current.is_none() {
                    assert(self@.txns =~= old(self)@.txns);
                }
            },
            None => {
                assert(self@.txns =~= old(self)@.txns);
            },
        }
    }

    /// Performs one unit of work.
    fn perform(&mut self, key: &TransactionKey, action: TxAction, effects: &mut Vec<Effect>)
        requires
            old(self).wf(),
        ensures
            final(self).wf(),
            final(self)@ == old(self)@.perform(key@, action@).0,
            effect_views(final(effects)@) == effect_views(old(effects)@) + old(self)@.perform(
                key@,
                action@,
            ).1,
    {
        let ghost before = effect_views(effects@);
        let ghost all = before + old(self)@.perform(key@, action@).1;
        match action {
            TxAction::Send(message) => {
                if let Some(peer) = self.peer_of(key) {
                    effects.push(Effect::Send { message, peer });
                }
                assert(effect_views(effects@) =~= all);
            },
            TxAction::StartTimer { id, after } => {
                let armed = self.arm_timer(key, id);
                if let Some(generation) = armed {
                    effects.push(Effect::Sleep { key: key.copy(), id, generation, after });
                }
                assert(old(self)@.perform(key@, ActionView::StartTimer { id, after }).0 == self@);
                assert(effect_views(effects@) =~= all);
            },
            TxAction::StopTimer(id) => {
                self.stop_timer(key, id);
                assert(effect_views(effects@) =~= all);
            },
            TxAction::DeliverResponse(response) => {
                effects.push(Effect::Publish(Event::Response { key: key.copy(), response }));
                assert(effect_views(effects@) =~= all);
            },
            TxAction::DeliverRequest(request) => {
                if let Some(peer) = self.peer_of(key) {
                    effects.push(
                        Effect::Publish(Event::IncomingRequest { key: key.copy(), request, peer }),
                    );
                }
                assert(effect_views(effects@) =~= all);
            },
            TxAction::TimedOut => {
                effects.push(Effect::Publish(Event::TimedOut { key: key.copy() }));
                assert(effect_views(effects@) =~= all);
            },
            TxAction::Terminated => {
                let _ = self.take(key);
                effects.push(Effect::Publish(Event::Terminated { key: key.copy() }));
                assert(effect_views(effects@) =~= all);
            },
        }
    }

    /// Performs units of work one after the other.
    fn apply(&mut self, key: &TransactionKey, actions: Vec<TxAction>) -> (res: Vec<Effect>)
        requires
            old(self).wf(),
        ensures
            final(self).wf(),
            (final(self)@, effect_views(res@)) == old(self)@.apply(key@, action_views(actions@)),
    {
        let mut effects: Vec<Effect> = Vec::new();
        let ghost all = action_views(actions@);
        assert(effect_views(effects@) =~= Seq::<EffectView>::empty());
        for action in it: actions
            invariant
                it.seq() == actions@,
                all == action_views(actions@),
                self.wf(),
                (self@, effect_views(effects@)) == old(self)@.apply(key@, all.take(it.index())),
        {
            proof {
                let next = all.take(it.index() + 1);
                assert(next.drop_last() =~= all.take(it.index()));
                assert(next.last() == action@);
            }
            self.perform(key, action, &mut effects);
        }
        assert(all.take(all.len() as int) =~= all);
        effects
    }

    /// Takes in an inbound message.
    pub fn on_inbound(&mut self, msg: SipMessage, src: SocketAddr) -> (res: Vec<Effect>)
        requires
            old(self).wf(),
        ensures
            final(self).wf(),
            (final(self)@, effect_views(res@)) == match msg {
                SipMessage::Request(req) => old(self)@.after_request(req@, src),
                SipMessage::Response(resp) => old(self)@.after_response(resp@),
            },
    {
        match msg {
            SipMessage::Request(req) => self.on_request(req, src),
            SipMessage::Response(resp) => self.on_response(&resp),
        }
    }

    /// Takes in an inbound response.
    pub fn on_response(&mut self, resp: &Response) -> (res: Vec<Effect>)
        requires
            old(self).wf(),
        ensures
            final(self).wf(),
            (final(self)@, effect_views(res@)) == old(self)@.after_response(resp@),
    {
        let key = match TransactionKey::from_response(resp) {
            Some(key) => key,
            None => return no_effects(),
        };
        match self.take(&key) {
            Some(mut entry) => {
                let actions = entry.tx.on_response(resp);
                self.resume(key, entry, actions, Ghost(old(self)@))
            },
            None => {
                assert(self@.txns =~= old(self)@.txns);
                no_effects()
            },
        }
    }

    /// Puts a transaction back that has reacted to an event, and does what it asks for.
    fn resume(
        &mut self,
        key: TransactionKey,
        entry: Entry,
        actions: Vec<TxAction>,
        Ghost(before): Ghost<EngineView>,
    ) -> (res: Vec<Effect>)
        requires
            old(self).wf(),
            entry.inv(),
            entry@.tx.wf(),
            before.txns.dom().contains(key@),
            entry@ == (EntryView { tx: entry@.tx, ..before.txns[key@] }),
            old(self)@ == (EngineView { txns: before.txns.remove(key@), ..before }),
        ensures
            final(self).wf(),
            (final(self)@, effect_views(res@)) == before.step(
                key@,
                entry@.tx,
                action_views(actions@),
            ),
    {
        self.put(key.copy(), entry);
        assert(self@.txns =~= before.with(key@, entry@).txns);
        self.apply(&key, actions)
    }

    /// Takes in an inbound request.
    pub fn on_request(&mut self, req: Request, src: SocketAddr) -> (res: Vec<Effect>)
        requires
            old(self).wf(),
        ensures
            final(self).wf(),
            (final(self)@, effect_views(res@)) == old(self)@.after_request(req@, src),
    {
        let key = match TransactionKey::from_request(&req) {
            Some(key) => key,
            None => return no_effects(),
        };
        match self.take(&key) {
            Some(mut entry) => {
                let actions = entry.tx.on_request(&req);
                self.resume(key, entry, actions, Ghost(old(self)@))
            },
            None => {
                assert(self@.txns =~= old(self)@.txns);
                match req.method {
                    Method::Ack => {
                        let mut effects: Vec<Effect> = Vec::new();
                        let ghost view = req@;
                        effects.push(
                            Effect::Publish(Event::UnmatchedRequest { request: req, peer: src }),
                        );
                        assert(effect_views(effects@) =~= old(self)@.after_request(view, src).1);
                        effects
                    },
                    Method::Invite => {
                        let (t, actions) = ServerInvite::start(
                            &req,
                            self.timers,
                            self.reliability,
                        );
                        self.open_tx(key, Transaction::ServerInvite(t), src, actions)
                    },
                    _ => {
                        let (t, actions) = ServerNonInvite::start(
                            &req,
                            self.timers,
                            self.reliability,
                        );
                        self.open_tx(key, Transaction::ServerNonInvite(t), src, actions)
                    },
                }
            },
        }
    }

    /// Puts a new transaction in the table and does what it asks for.
    fn open_tx(
        &mut self,
        key: TransactionKey,
        tx: Transaction,
        peer: SocketAddr,
        actions: Vec<TxAction>,
    ) -> (res: Vec<Effect>)
        requires
            old(self).wf(),
            tx@.wf(),
        ensures
            final(self).wf(),
            (final(self)@, effect_views(res@)) == old(self)@.open_tx(
                key@,
                tx@,
                peer,
                action_views(actions@),
            ),
    {
        let entry = Entry { tx, peer, timers: Table::new() };
        self.put(key.copy(), entry);
        self.apply(&key, actions)
    }

    /// Whether the timer, if current, can fire without its interval growing out of range.
    pub fn can_fire(&self, key: &TransactionKey, id: TimerId, generation: u64) -> (res: bool)
        requires
            self.wf(),
        ensures
            res == self@.may_fire(key@, id, generation),
    {
        match self.txns.get(key) {
            Some(entry) => match entry.timers.get(&id) {
                Some(g) => *g != generation || entry.tx.can_fire(id),
                None => true,
            },
            None => true,
        }
    }

    /// Takes in a fired timer.
    pub fn on_timer_fire(&mut self, key: &TransactionKey, id: TimerId, generation: u64) -> (res: Vec<
        Effect,
    >)
        requires
            old(self).wf(),
            old(self)@.may_fire(key@, id, generation),
        ensures
            final(self).wf(),
            (final(self)@, effect_views(res@)) == old(self)@.after_timer(key@, id, generation),
    {
        let current = match self.txns.get(key) {
            Some(entry) => match entry.timers.get(&id) {
                Some(g) => *g == generation,
                None => false,
            },
            None => false,
        };
        if !current {
            return no_effects();
        }
        match self.take(key) {
            Some(mut entry) => {
                let actions = entry.tx.on_timer(id);
                self.resume(key.copy(), entry, actions, Ghost(old(self)@))
            },
            None => no_effects(),
        }
    }

    /// Takes in a command of the transaction user.
    pub fn on_command(&mut self, cmd: Command) -> (res: Vec<Effect>)
        requires
            old(self).wf(),
        ensures
            final(self).wf(),
            (final(self)@, effect_views(res@)) == old(self)@.after_command(cmd),
    {
        match cmd {
            Command::StartClient { request, peer } => {
                let key = match TransactionKey::from_request(&request) {
                    Some(key) => key,
                    None => return no_effects(),
                };
                if request.method == Method::Invite {
                    let (t, actions) = ClientInvite::start(request, self.timers, self.reliability);
                    self.open_tx(key, Transaction::ClientInvite(t), peer, actions)
                } else {
                    let (t, actions) = ClientNonInvite::start(
                        request,
                        self.timers,
                        self.reliability,
                    );
                    self.open_tx(key, Transaction::ClientNonInvite(t), peer, actions)
                }
            },
            Command::SendResponse { key, response } => match self.take(&key) {
                Some(mut entry) => {
                    let actions = entry.tx.send_response(response);
                    self.resume(key, entry, actions, Ghost(old(self)@))
                },
                None => {
                    assert(self@.txns =~= old(self)@.txns);
                    no_effects()
                },
            },
            Command::SendOutOfDialog { message, peer } => {
                let mut effects: Vec<Effect> = Vec::new();
                let ghost view = message@;
                effects.push(Effect::Send { message, peer });
                assert(effect_views(effects@) =~= seq![
                    EffectView::Send { message: view, peer },
                ]);
                effects
            },
        }
    }
}

fn no_effects() -> (res: Vec<Effect>)
    ensures
        effect_views(res@) == Seq::<EffectView>::empty(),
{
    let res: Vec<Effect> = Vec::new();
    assert(effect_views(res@) =~= Seq::<EffectView>::empty());
    res
}

/// A sleeper of a timer that has been armed again or stopped is out of date: when it fires,
/// nothing happens.
pub proof fn superseded_timers_are_ignored(
    engine: EngineView,
    key: KeyView,
    id: TimerId,
    generation: u64,
    after: Duration,
)
    requires
        engine.is_current(key, id, generation),
    ensures
        ({
            let armed = engine.perform(key, ActionView::StartTimer { id, after }).0;
            armed.after_timer(key, id, generation) == (armed, Seq::<EffectView>::empty())
        }),
        ({
            let stopped = engine.perform(key, ActionView::StopTimer(id)).0;
            stopped.after_timer(key, id, generation) == (stopped, Seq::<EffectView>::empty())
        }),
{
}

/// The sleeper that an armed timer starts is the current one.
pub proof fn armed_timer_is_current(
    engine: EngineView,
    key: KeyView,
    id: TimerId,
    after: Duration,
    generation: u64,
)
    requires
        engine.perform(key, ActionView::StartTimer { id, after }).1 == seq![
            EffectView::Sleep { key, id, generation, after },
        ],
    ensures
        engine.perform(key, ActionView::StartTimer { id, after }).0.is_current(key, id, generation),
{
    let effects = engine.perform(key, ActionView::StartTimer { id, after }).1;
    assert(effects.len() == 1);
    assert(effects[0] == EffectView::Sleep { key, id, generation, after });
}

proof fn lemma_apply_frame(
    engine: EngineView,
    key: KeyView,
    actions: Seq<ActionView>,
    other: KeyView,
)
    requires
        other != key,
    ensures
        engine.apply(key, actions).0.txns.dom().contains(other) == engine.txns.dom().contains(
            other,
        ),
        engine.txns.dom().contains(other) ==> engine.apply(key, actions).0.txns[other]
            == engine.txns[other],
    decreases actions.len(),
{
    if actions.len() > 0 {
        lemma_apply_frame(engine, key, actions.drop_last(), other);
    }
}

/// A message touches the transaction it belongs to and no other.
pub proof fn messages_leave_other_transactions_alone(
    engine: EngineView,
    req: RequestView,
    resp: ResponseView,
    src: SocketAddr,
    other: KeyView,
)
    requires
        engine.txns.dom().contains(other),
    ensures
        request_key(req) != Some(other) ==> engine.after_request(req, src).0.txns.dom().contains(
            other,
        ) && engine.after_request(req, src).0.txns[other] == engine.txns[other],
        response_key(resp) != Some(other) ==> engine.after_response(resp).0.txns.dom().contains(
            other,
        ) && engine.after_response(resp).0.txns[other] == engine.txns[other],
{
    if request_key(req) != Some(other) {
        if let Some(key) = request_key(req) {
            let (tx, actions) = engine.txns[key].tx.after_request(req.method);
            lemma_apply_frame(
                engine.with(key, EntryView { tx, ..engine.txns[key] }),
                key,
                actions,
                other,
            );
            let (t, a) = ServerInviteView::started(req, engine.timers, engine.reliability);
            lemma_apply_frame(
                engine.with(
                    key,
                    EntryView {
                        tx: TransactionView::ServerInvite(t),
                        peer: src,
                        timers: Map::empty(),
                    },
                ),
                key,
                a,
                other,
            );
            let (u, b) = ServerNonInviteView::started(req, engine.timers, engine.reliability);
            lemma_apply_frame(
                engine.with(
                    key,
                    EntryView {
                        tx: TransactionView::ServerNonInvite(u),
                        peer: src,
                        timers: Map::empty(),
                    },
                ),
                key,
                b,
                other,
            );
        }
    }
    if response_key(resp) != Some(other) {
        if let Some(key) = response_key(resp) {
            let (tx, actions) = engine.txns[key].tx.after_response(resp);
            lemma_apply_frame(
                engine.with(key, EntryView { tx, ..engine.txns[key] }),
                key,
                actions,
                other,
            );
        }
    }
}

/// A new INVITE is handed up, and while it is unanswered its retransmissions are not handed up
/// again.
pub proof fn invite_is_handed_up_once(engine: EngineView, req: RequestView, src: SocketAddr)
    requires
        req.method == Method::Invite,
        request_key(req) is Some,
        !engine.txns.dom().contains(request_key(req)->0),
    ensures
        engine.after_request(req, src).1 == seq![
            EffectView::Publish(
                EventView::IncomingRequest { key: request_key(req)->0, request: req, peer: src },
            ),
        ],
        engine.after_request(req, src).0.after_request(req, src).1 == Seq::<EffectView>::empty(),
{
    let key = request_key(req)->0;
    let (t, actions) = ServerInviteView::started(req, engine.timers, engine.reliability);
    let e = EntryView { tx: TransactionView::ServerInvite(t), peer: src, timers: Map::empty() };
    let opened = engine.with(key, e);
    assert(actions.drop_last() =~= Seq::<ActionView>::empty());
    assert(opened.apply(key, actions.drop_last()) == (opened, Seq::<EffectView>::empty()));
    assert(engine.after_request(req, src).1 =~= seq![
        EffectView::Publish(EventView::IncomingRequest { key, request: req, peer: src }),
    ]);
    assert(engine.after_request(req, src).0 == opened);
    let again = opened.txns[key].tx.after_request(req.method);
    assert(again.1 =~= Seq::<ActionView>::empty());
}

/// A transaction that timed out is reported as timed out and as over, and leaves the table.
pub proof fn timeout_ends_the_transaction(engine: EngineView, key: KeyView, generation: u64)
    requires
        engine.is_current(key, TimerId::B, generation),
        engine.txns[key].tx matches TransactionView::ClientInvite(t) && t.state
            == crate::stack::transaction::client_invite::State::Calling,
    ensures
        engine.after_timer(key, TimerId::B, generation).1 == seq![
            EffectView::Publish(EventView::TimedOut { key }),
            EffectView::Publish(EventView::Terminated { key }),
        ],
        !engine.after_timer(key, TimerId::B, generation).0.txns.dom().contains(key),
{
    let (tx, actions) = engine.txns[key].tx.after_timer(TimerId::B);
    let s = engine.with(key, EntryView { tx, ..engine.txns[key] });
    let one = actions.drop_last();
    assert(one =~= seq![ActionView::TimedOut]);
    assert(one.drop_last() =~= Seq::<ActionView>::empty());
    assert(s.apply(key, one.drop_last()) == (s, Seq::<EffectView>::empty()));
    assert(s.apply(key, one).1 =~= seq![EffectView::Publish(EventView::TimedOut { key })]);
    assert(s.apply(key, actions).1 =~= seq![
        EffectView::Publish(EventView::TimedOut { key }),
        EffectView::Publish(EventView::Terminated { key }),
    ]);
}

/// What the first unit of work comes to comes first.
proof fn lemma_apply_first(engine: EngineView, key: KeyView, actions: Seq<ActionView>)
    requires
        actions.len() > 0,
    ensures
        engine.perform(key, actions[0]).1.is_prefix_of(engine.apply(key, actions).1),
    decreases actions.len(),
{
    let first = engine.perform(key, actions[0]).1;
    let init = actions.drop_last();
    if init.len() == 0 {
        assert(engine.apply(key, init) == (engine, Seq::<EffectView>::empty()));
        assert(engine.apply(key, actions).1 =~= first);
    } else {
        assert(init[0] == actions[0]);
        lemma_apply_first(engine, key, init);
        let before = engine.apply(key, init).1;
        let all = engine.apply(key, actions).1;
        assert(all.subrange(0, first.len() as int) =~= before.subrange(0, first.len() as int));
    }
}

/// Work that does not end a transaction leaves it in the table, at its peer.
proof fn lemma_apply_keeps(engine: EngineView, key: KeyView, actions: Seq<ActionView>)
    requires
        engine.txns.dom().contains(key),
        forall|i: int| 0 <= i < actions.len() ==> !(#[trigger] actions[i] is Terminated),
    ensures
        engine.apply(key, actions).0.txns.dom().contains(key),
        engine.apply(key, actions).0.txns[key].peer == engine.txns[key].peer,
        engine.apply(key, actions).0.txns[key].tx == engine.txns[key].tx,
    decreases actions.len(),
{
    if actions.len() > 0 {
        let init = actions.drop_last();
        assert forall|i: int| 0 <= i < init.len() implies !(#[trigger] init[i] is Terminated) by {
            assert(init[i] == actions[i]);
        }
        lemma_apply_keeps(engine, key, init);
        assert(!(actions[actions.len() - 1] is Terminated));
    }
}

/// A response that is delivered is published.
proof fn lemma_apply_delivers(
    engine: EngineView,
    key: KeyView,
    actions: Seq<ActionView>,
    response: ResponseView,
)
    requires
        actions.contains(ActionView::DeliverResponse(response)),
    ensures
        engine.apply(key, actions).1.contains(
            EffectView::Publish(EventView::Response { key, response }),
        ),
    decreases actions.len(),
{
    let i = choose|i: int|
        0 <= i < actions.len() && actions[i] == ActionView::DeliverResponse(response);
    let event = EffectView::Publish(EventView::Response { key, response });
    let init = actions.drop_last();
    let before = engine.apply(key, init).1;
    let all = engine.apply(key, actions).1;
    if i < init.len() {
        assert(init[i] == actions[i]);
        lemma_apply_delivers(engine, key, init, response);
        let j = choose|j: int| 0 <= j < before.len() && before[j] == event;
        assert(all[j] == event);
    } else {
        assert(all[before.len() as int] == event);
    }
}

/// A request of the user goes to the peer that the user named, and first of all; its transaction is
/// then known under the key of the request, with that peer. A request without a key does nothing.
pub proof fn requests_go_where_they_are_told(
    engine: EngineView,
    request: RequestView,
    peer: SocketAddr,
)
    ensures
        request_key(request) is None ==> engine.after_start(request, peer) == (
            engine,
            Seq::<EffectView>::empty(),
        ),
        request_key(request) matches Some(key) ==> {
            let (next, effects) = engine.after_start(request, peer);
            &&& effects.len() > 0
            &&& effects[0] == (EffectView::Send { message: MessageView::Request(request), peer })
            &&& next.txns.dom().contains(key)
            &&& next.txns[key].peer == peer
            &&& match next.txns[key].tx {
                TransactionView::ClientInvite(t) => request.method == Method::Invite && t.invite
                    == request,
                TransactionView::ClientNonInvite(t) => request.method != Method::Invite && t.request
                    == request,
                _ => false,
            }
        },
{
    if let Some(key) = request_key(request) {
        if request.method == Method::Invite {
            let (t, actions) = ClientInviteView::started(
                request,
                engine.timers,
                engine.reliability,
            );
            let opened = engine.with(
                key,
                EntryView { tx: TransactionView::ClientInvite(t), peer, timers: Map::empty() },
            );
            lemma_apply_first(opened, key, actions);
            lemma_apply_keeps(opened, key, actions);
            let first = opened.perform(key, actions[0]).1;
            let effects = opened.apply(key, actions).1;
            assert(effects.subrange(0, first.len() as int)[0] == first[0]);
        } else {
            let (t, actions) = ClientNonInviteView::started(
                request,
                engine.timers,
                engine.reliability,
            );
            let opened = engine.with(
                key,
                EntryView { tx: TransactionView::ClientNonInvite(t), peer, timers: Map::empty() },
            );
            lemma_apply_first(opened, key, actions);
            lemma_apply_keeps(opened, key, actions);
            let first = opened.perform(key, actions[0]).1;
            let effects = opened.apply(key, actions).1;
            assert(effects.subrange(0, first.len() as int)[0] == first[0]);
        }
    }
}

/// A response of the user goes to where the request came from, first of all, as long as the request
/// waits for one. A response for a transaction that is not in the table does nothing.
pub proof fn responses_go_back_to_the_requester(
    engine: EngineView,
    key: KeyView,
    response: ResponseView,
)
    ensures
        !engine.txns.dom().contains(key) ==> engine.after_send(key, response) == (
            engine,
            Seq::<EffectView>::empty(),
        ),
        engine.txns.dom().contains(key) && (match engine.txns[key].tx {
            TransactionView::ServerInvite(t) => t.state
                == crate::stack::transaction::server_invite::State::Proceeding,
            TransactionView::ServerNonInvite(t) => t.state
                == crate::stack::transaction::server_non_invite::State::Trying || t.state
                == crate::stack::transaction::server_non_invite::State::Proceeding,
            _ => false,
        }) ==> engine.after_send(key, response).1.len() > 0 && engine.after_send(key, response).1[0]
            == (EffectView::Send {
            message: MessageView::Response(response),
            peer: engine.txns[key].peer,
        }),
{
    if engine.txns.dom().contains(key) {
        let (tx, actions) = engine.txns[key].tx.after_send(response);
        let next = engine.with(key, EntryView { tx, ..engine.txns[key] });
        if actions.len() > 0 {
            lemma_apply_first(next, key, actions);
            let first = next.perform(key, actions[0]).1;
            let effects = next.apply(key, actions).1;
            if first.len() > 0 {
                assert(effects.subrange(0, first.len() as int)[0] == first[0]);
            }
        }
    }
}

/// A response that belongs to a request which waits for one is told to the user, under the key of
/// that request; a refusal of an INVITE only when it can be acknowledged. A response that belongs to
/// none is dropped.
pub proof fn responses_reach_the_user(engine: EngineView, response: ResponseView)
    ensures
        (match response_key(response) {
            Some(key) => !engine.txns.dom().contains(key),
            None => true,
        }) ==> engine.after_response(response) == (engine, Seq::<EffectView>::empty()),
        response_key(response) matches Some(key) ==> (engine.txns.dom().contains(key) && (
        match engine.txns[key].tx {
            TransactionView::ClientInvite(t) => (t.state
                == crate::stack::transaction::client_invite::State::Calling || t.state
                == crate::stack::transaction::client_invite::State::Proceeding) && (
            response.status.code < 300 || crate::stack::transaction::refusal_ack(
                t.invite,
                response,
            ) is Some),
            TransactionView::ClientNonInvite(t) => t.state
                == crate::stack::transaction::client_non_invite::State::Trying || t.state
                == crate::stack::transaction::client_non_invite::State::Proceeding,
            _ => false,
        }) ==> engine.after_response(response).1.contains(
            EffectView::Publish(EventView::Response { key, response }),
        )),
{
    if let Some(key) = response_key(response) {
        if engine.txns.dom().contains(key) {
            let (tx, actions) = engine.txns[key].tx.after_response(response);
            let next = engine.with(key, EntryView { tx, ..engine.txns[key] });
            match engine.txns[key].tx {
                TransactionView::ClientInvite(t) => {
                    if t.state == crate::stack::transaction::client_invite::State::Calling
                        || t.state
                        == crate::stack::transaction::client_invite::State::Proceeding {
                        crate::stack::transaction::client_invite::responses_move_the_invite_on(
                            t,
                            response,
                            MessageView::Response(response),
                        );
                        if response.status.code < 200 {
                            assert(actions.last() == actions[actions.len() - 1]);
                        } else if response.status.code < 300 {
                            assert(actions[0] == ActionView::DeliverResponse(response));
                        } else if crate::stack::transaction::refusal_ack(
                            t.invite,
                            response,
                        ) is Some {
                            assert(actions[1] == ActionView::DeliverResponse(response));
                        }
                    }
                },
                TransactionView::ClientNonInvite(t) => {
                    if t.state == crate::stack::transaction::client_non_invite::State::Trying
                        || t.state
                        == crate::stack::transaction::client_non_invite::State::Proceeding {
                        crate::stack::transaction::client_non_invite::final_response_ends_the_exchange(
                            t,
                            response,
                            response,
                        );
                    }
                },
                _ => {},
            }
            if actions.contains(ActionView::DeliverResponse(response)) {
                lemma_apply_delivers(next, key, actions, response);
            }
        }
    }
}

/// A request that belongs to no transaction is told to the user with where it came from: an ACK
/// alone, for it answers a 2xx; any other opens a transaction whose responses go back there.
pub proof fn new_requests_are_handed_up(engine: EngineView, req: RequestView, src: SocketAddr)
    requires
        request_key(req) is Some,
        !engine.txns.dom().contains(request_key(req)->0),
    ensures
        req.method == Method::Ack ==> engine.after_request(req, src) == (
            engine,
            seq![EffectView::Publish(EventView::UnmatchedRequest { request: req, peer: src })],
        ),
        req.method != Method::Ack ==> {
            let key = request_key(req)->0;
            let (next, effects) = engine.after_request(req, src);
            &&& effects == seq![
                EffectView::Publish(EventView::IncomingRequest { key, request: req, peer: src }),
            ]
            &&& next.txns.dom().contains(key)
            &&& next.txns[key].peer == src
            &&& next.txns[key].tx is ServerInvite <==> req.method == Method::Invite
            &&& next.txns[key].tx is ServerNonInvite <==> req.method != Method::Invite
        },
{
    if req.method != Method::Ack {
        let key = request_key(req)->0;
        if req.method == Method::Invite {
            invite_is_handed_up_once(engine, req, src);
            let (t, actions) = ServerInviteView::started(req, engine.timers, engine.reliability);
            lemma_apply_keeps(
                engine.with(
                    key,
                    EntryView {
                        tx: TransactionView::ServerInvite(t),
                        peer: src,
                        timers: Map::empty(),
                    },
                ),
                key,
                actions,
            );
        } else {
            let (t, actions) = ServerNonInviteView::started(
                req,
                engine.timers,
                engine.reliability,
            );
            let opened = engine.with(
                key,
                EntryView {
                    tx: TransactionView::ServerNonInvite(t),
                    peer: src,
                    timers: Map::empty(),
                },
            );
            lemma_apply_keeps(opened, key, actions);
            assert(actions.drop_last() =~= Seq::<ActionView>::empty());
            assert(opened.apply(key, actions.drop_last()) == (opened, Seq::<EffectView>::empty()));
            assert(engine.after_request(req, src).1 =~= seq![
                EffectView::Publish(EventView::IncomingRequest { key, request: req, peer: src }),
            ]);
        }
    }
}

/// A message outside of transactions goes to the peer that the user named, and touches no
/// transaction.
pub proof fn acknowledgements_pass_through(
    engine: EngineView,
    message: SipMessage,
    peer: SocketAddr,
)
    ensures
        engine.after_command(Command::SendOutOfDialog { message, peer }) == (
            engine,
            seq![EffectView::Send { message: message@, peer }],
        ),
{
}

} // verus!
