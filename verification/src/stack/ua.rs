//! User agent: one engine, many concurrent flows. The router keeps which flow listens to which
//! transaction and says where each [`Event`] goes.

use crate::message::{
    push_header, Header, HeaderView, Request, RequestView, Response, ResponseView,
};
use crate::net::SocketAddr;
use crate::stack::engine::{Event, EventView};
use crate::stack::transaction::{request_key, KeyView, TransactionKey};
use crate::table::Table;
use vstd::prelude::*;

verus! {

/// A request that matched no client transaction: a new inbound request, or the ACK for a 2xx.
#[derive(Debug)]
pub struct Incoming {
    /// The transaction.
    pub key: TransactionKey,
    /// The request.
    pub request: Request,
    /// Where it came from.
    pub peer: SocketAddr,
}

/// An incoming request, as a view.
#[verifier::ext_equal]
pub struct IncomingView {
    pub key: KeyView,
    pub request: RequestView,
    pub peer: SocketAddr,
}

impl View for Incoming {
    type V = IncomingView;

    open spec fn view(&self) -> IncomingView {
        IncomingView { key: self.key@, request: self.request@, peer: self.peer }
    }
}

/// Where an event goes.
#[derive(Debug)]
pub enum RoutedEvent {
    /// To the stream of incoming requests.
    Incoming(Incoming),
    /// To the subscriber with this number.
    Subscriber {
        /// The subscriber.
        id: u64,
        /// The event.
        event: Event,
    },
    /// Nowhere.
    Dropped,
}

/// Where an event goes, as a view.
#[verifier::ext_equal]
pub enum RoutedView {
    Incoming(IncomingView),
    Subscriber { id: u64, event: EventView },
    Dropped,
}

impl View for RoutedEvent {
    type V = RoutedView;

    open spec fn view(&self) -> RoutedView {
        match self {
            RoutedEvent::Incoming(i) => RoutedView::Incoming(i@),
            RoutedEvent::Subscriber { id, event } => RoutedView::Subscriber {
                id: *id,
                event: event@,
            },
            RoutedEvent::Dropped => RoutedView::Dropped,
        }
    }
}

/// Which subscriber listens to which transaction.
#[derive(Debug)]
pub struct Router {
    subs: Table<TransactionKey, u64>,
}

impl View for Router {
    type V = Map<KeyView, u64>;

    closed spec fn view(&self) -> Map<KeyView, u64> {
        self.subs@
    }
}

/// Where an event goes, given the subscriptions. Requests go to the incoming stream, everything
/// else to the subscriber of its transaction.
pub open spec fn routed(subs: Map<KeyView, u64>, event: EventView) -> RoutedView {
    match event {
        EventView::IncomingRequest { key, request, peer } => RoutedView::Incoming(
            IncomingView { key, request, peer },
        ),
        EventView::UnmatchedRequest { request, peer } => match request_key(request) {
            Some(key) => RoutedView::Incoming(IncomingView { key, request, peer }),
            None => RoutedView::Dropped,
        },
        _ => match event.key() {
            Some(key) => if subs.dom().contains(key) {
                RoutedView::Subscriber { id: subs[key], event }
            } else {
                RoutedView::Dropped
            },
            None => RoutedView::Dropped,
        },
    }
}

/// The subscriptions after an event: the end of a transaction ends its subscription.
pub open spec fn subs_after(subs: Map<KeyView, u64>, event: EventView) -> Map<KeyView, u64> {
    match event {
        EventView::Terminated { key } => subs.remove(key),
        _ => subs,
    }
}

impl Router {
    /// No key is subscribed twice.
    pub closed spec fn wf(&self) -> bool {
        self.subs.wf()
    }

    /// A router without subscriptions.
    pub fn new() -> (res: Self)
        ensures
            res.wf(),
            res@ == Map::<KeyView, u64>::empty(),
    {
        Router { subs: Table::new() }
    }

    /// Subscribes `id` to the events of a transaction.
    pub fn subscribe(&mut self, key: TransactionKey, id: u64)
        requires
            old(self).wf(),
        ensures
            final(self).wf(),
            final(self)@ == old(self)@.insert(key@, id),
    {
        self.subs.insert(key, id);
    }

    /// Says where an event goes.
    pub fn route(&mut self, event: Event) -> (res: RoutedEvent)
        requires
            old(self).wf(),
        ensures
            final(self).wf(),
            res@ == routed(old(self)@, event@),
            final(self)@ == subs_after(old(self)@, event@),
    {
        match event {
            Event::IncomingRequest { key, request, peer } => RoutedEvent::Incoming(
                Incoming { key, request, peer },
            ),
            Event::UnmatchedRequest { request, peer } => match TransactionKey::from_request(
                &request,
            ) {
                Some(key) => RoutedEvent::Incoming(Incoming { key, request, peer }),
                None => RoutedEvent::Dropped,
            },
            other => {
                let found: Option<u64> = match other.key() {
                    Some(key) => match self.subs.get(key) {
                        Some(id) => Some(*id),
                        None => None,
                    },
                    None => None,
                };
                if let Event::Terminated { key } = &other {
                    let _ = self.subs.remove(key);
                }
                match found {
                    Some(id) => RoutedEvent::Subscriber { id, event: other },
                    None => RoutedEvent::Dropped,
                }
            },
        }
    }
}

/// What an event means for a flow that waits for a final response.
#[derive(Debug)]
pub enum AwaitStep {
    /// The final response.
    Final(Response),
    /// No final response will come.
    GaveUp,
    /// Keep waiting.
    Wait,
}

/// What an event means for a flow that waits, as a view.
pub enum AwaitView {
    Final(ResponseView),
    GaveUp,
    Wait,
}

impl View for AwaitStep {
    type V = AwaitView;

    open spec fn view(&self) -> AwaitView {
        match self {
            AwaitStep::Final(r) => AwaitView::Final(r@),
            AwaitStep::GaveUp => AwaitView::GaveUp,
            AwaitStep::Wait => AwaitView::Wait,
        }
    }
}

/// What an event, or the end of events, means for a flow that waits for a final response:
/// provisional responses and the end of the transaction are waited out.
pub open spec fn awaited(event: Option<EventView>) -> AwaitView {
    match event {
        None => AwaitView::GaveUp,
        Some(EventView::Response { response, .. }) => if response.status.code >= 200 {
            AwaitView::Final(response)
        } else {
            AwaitView::Wait
        },
        Some(EventView::TimedOut { .. }) => AwaitView::GaveUp,
        Some(_) => AwaitView::Wait,
    }
}

/// What an event, or the end of events, means for a flow that waits for a final response.
pub fn await_final(event: Option<Event>) -> (res: AwaitStep)
    ensures
        res@ == awaited(
            match event {
                Some(e) => Some(e@),
                None => None,
            },
        ),
{
    match event {
        None => AwaitStep::GaveUp,
        Some(Event::Response { response, .. }) => if response.status_code.code >= 200 {
            AwaitStep::Final(response)
        } else {
            AwaitStep::Wait
        },
        Some(Event::TimedOut { .. }) => AwaitStep::GaveUp,
        Some(_) => AwaitStep::Wait,
    }
}

/// Whether a hangup succeeded: its final response is a 2xx.
pub fn hangup_succeeded(response: Option<&Response>) -> (res: bool)
    ensures
        res == match response {
            Some(r) => 200 <= r@.status.code < 300,
            None => false,
        },
{
    match response {
        Some(r) => 200 <= r.status_code.code && r.status_code.code < 300,
        None => false,
    }
}

/// A request that names the product of the application, if there is one, as the last header.
pub open spec fn advertised(r: RequestView, product: Option<Seq<char>>) -> RequestView {
    match product {
        Some(p) => RequestView {
            headers: r.headers.push(HeaderView::other("User-Agent"@, p)),
            ..r
        },
        None => r,
    }
}

/// Names the product of the application in an outbound request, as its `User-Agent`; without a
/// product there is no such header.
pub fn advertise(request: Request, product: Option<&str>) -> (res: Request)
    ensures
        res@ == advertised(
            request@,
            match product {
                Some(p) => Some(p@),
                None => None,
            },
        ),
{
    let ghost start = request@;
    let mut out = request;
    if let Some(p) = product {
        push_header(&mut out.headers, Header::other("User-Agent", p));
        assert(out@ =~= advertised(start, Some(p@)));
    }
    out
}

/// A subscriber gets every event of its transaction, up to and with the end, and none after.
pub proof fn subscription_lasts_to_the_end(
    subs: Map<KeyView, u64>,
    key: KeyView,
    id: u64,
    response: ResponseView,
)
    requires
        subs.dom().contains(key),
        subs[key] == id,
    ensures
        routed(subs, EventView::Response { key, response }) == (RoutedView::Subscriber {
            id,
            event: EventView::Response { key, response },
        }),
        routed(subs, EventView::Terminated { key }) == (RoutedView::Subscriber {
            id,
            event: EventView::Terminated { key },
        }),
        routed(
            subs_after(subs, EventView::Terminated { key }),
            EventView::Response { key, response },
        ) == RoutedView::Dropped,
{
}

/// Requests go to the incoming stream, never to a subscriber; every other event goes to the
/// subscriber of its transaction, and to none when there is no subscription. Only the end of a
/// transaction ends its subscription, and no other.
pub proof fn events_go_to_their_subscriber(
    subs: Map<KeyView, u64>,
    event: EventView,
    key: KeyView,
    other: KeyView,
    id: u64,
)
    requires
        other != key,
    ensures
        event matches EventView::IncomingRequest { key: k, request, peer } ==> routed(subs, event)
            == RoutedView::Incoming(IncomingView { key: k, request, peer }),
        event matches EventView::UnmatchedRequest { request, peer } ==> match request_key(request) {
            Some(k) => routed(subs, event) == RoutedView::Incoming(
                IncomingView { key: k, request, peer },
            ),
            None => routed(subs, event) is Dropped,
        },
        (event is Response || event is TimedOut || event is Terminated) && event.key() == Some(key)
            && subs.contains_pair(key, id) ==> routed(subs, event) == (RoutedView::Subscriber {
            id,
            event,
        }),
        (event is Response || event is TimedOut || event is Terminated) && event.key() == Some(key)
            && !subs.dom().contains(key) ==> routed(subs, event) is Dropped,
        event == (EventView::Terminated { key }) ==> !subs_after(subs, event).dom().contains(key)
            && (subs.contains_pair(other, id) ==> subs_after(subs, event).contains_pair(other, id)),
        !(event is Terminated) ==> subs_after(subs, event) == subs,
{
}

/// A flow that waits for a final response takes the first one at or above 200, gives up on a timeout
/// and when events end, and waits on otherwise.
pub proof fn flows_wait_for_the_final_response(key: KeyView, response: ResponseView, event: EventView)
    ensures
        awaited(None) is GaveUp,
        awaited(Some(EventView::TimedOut { key })) is GaveUp,
        response.status.code >= 200 ==> awaited(Some(EventView::Response { key, response }))
            == AwaitView::Final(response),
        response.status.code < 200 ==> awaited(Some(EventView::Response { key, response })) is Wait,
        !(event is Response) && !(event is TimedOut) ==> awaited(Some(event)) is Wait,
{
}

/// Naming the product adds one header at the end and changes nothing else of a request; without a
/// product nothing changes.
pub proof fn advertising_adds_one_header(r: RequestView, product: Seq<char>)
    ensures
        advertised(r, None) == r,
        ({
            let a = advertised(r, Some(product));
            &&& a.headers.drop_last() == r.headers
            &&& a.headers.last().name() == "User-Agent"@
            &&& a.headers.last().value == product
            &&& a.method == r.method
            &&& a.uri == r.uri
            &&& a.version == r.version
            &&& a.body == r.body
        }),
{
    assert(advertised(r, Some(product)).headers.drop_last() =~= r.headers);
}

} // verus!
