//! Where an inbound request goes: to the stream of new calls, to the call that owns its dialog,
//! or to an automatic answer.

use crate::headers::{headers_to, message_to};
use crate::message::{Method, Request, RequestView, status_of, Response, StatusCode};
use crate::stack::dialog::{request_dialog, DialogId, DialogIdView};
use crate::stack::response::{build_response, response_to};
use crate::stack::transaction::{KeyView, TransactionKey};
use crate::table::Table;
use vstd::prelude::*;

verus! {

/// Where an inbound request goes.
#[derive(Debug)]
pub enum InboundRoute {
    /// A new call, to ring until it is answered or cancelled.
    NewCall,
    /// The ACK of a 2xx: nothing to do.
    Absorb,
    /// The call with this number, which handles the requests of its dialog.
    ToCall(u64),
    /// Answer 200 at once.
    AutoAnswer,
    /// The peer hung up: answer 200 at once and tell the call with this number.
    HungUp(u64),
    /// The caller gave up: answer 200 to the CANCEL and 487 to the INVITE, and tell the pending
    /// call with this number.
    Cancel {
        /// The pending call.
        id: u64,
        /// The transaction of the INVITE.
        invite: TransactionKey,
    },
}

/// Where an inbound request goes, as a view.
pub enum RouteView {
    NewCall,
    Absorb,
    ToCall(u64),
    AutoAnswer,
    HungUp(u64),
    Cancel { id: u64, invite: KeyView },
}

impl View for InboundRoute {
    type V = RouteView;

    open spec fn view(&self) -> RouteView {
        match self {
            InboundRoute::NewCall => RouteView::NewCall,
            InboundRoute::Absorb => RouteView::Absorb,
            InboundRoute::ToCall(id) => RouteView::ToCall(*id),
            InboundRoute::AutoAnswer => RouteView::AutoAnswer,
            InboundRoute::HungUp(id) => RouteView::HungUp(*id),
            InboundRoute::Cancel { id, invite } => RouteView::Cancel { id: *id, invite: invite@ },
        }
    }
}

/// Whether the `To` of a request carries a tag: the request is in a dialog.
pub open spec fn has_to_tag(r: RequestView) -> bool {
    message_to(r.headers) matches Some(to) && to.tag is Some
}

/// Whether requests of this method in a dialog are handed to the call that owns it.
pub open spec fn is_surfaced(method: Method) -> bool {
    method == Method::Invite || method == Method::Info || method == Method::Notify || method
        == Method::Refer
}

/// The established calls, those of them that handle the requests of their dialogs, and the calls
/// that still ring.
#[derive(Debug)]
pub struct Registry {
    calls: Table<DialogId, u64>,
    dialogs: Table<DialogId, u64>,
    pending: Table<TransactionKey, u64>,
}

/// What a [`Registry`] holds.
#[verifier::ext_equal]
pub struct RegistryView {
    /// The established call of a dialog.
    pub calls: Map<DialogIdView, u64>,
    /// The call that handles the requests of a dialog.
    pub dialogs: Map<DialogIdView, u64>,
    /// The calls that still ring, by their INVITE.
    pub pending: Map<KeyView, u64>,
}

impl View for Registry {
    type V = RegistryView;

    closed spec fn view(&self) -> RegistryView {
        RegistryView { calls: self.calls@, dialogs: self.dialogs@, pending: self.pending@ }
    }
}

/// The value of a key, if it has one.
pub open spec fn number_of<K>(map: Map<K, u64>, key: K) -> Option<u64> {
    if map.dom().contains(key) {
        Some(map[key])
    } else {
        None
    }
}

impl RegistryView {
    /// Where an inbound request goes. A new INVITE is a new call. The ACK of a 2xx is absorbed. A
    /// re-INVITE, INFO, NOTIFY or REFER goes to the call that handles its dialog. A CANCEL ends
    /// the call it targets while that still rings. Everything else is answered at once; of a BYE
    /// its call is told, too.
    pub open spec fn route(self, key: KeyView, request: RequestView) -> RouteView {
        let target = KeyView { method: Method::Invite, ..key };
        let dialog = request_dialog(request);
        if request.method == Method::Invite && !has_to_tag(request) {
            RouteView::NewCall
        } else if request.method == Method::Ack {
            RouteView::Absorb
        } else if request.method == Method::Cancel && self.pending.dom().contains(target) {
            RouteView::Cancel { id: self.pending[target], invite: target }
        } else if is_surfaced(request.method) && dialog is Some && self.dialogs.dom().contains(
            dialog->0,
        ) {
            RouteView::ToCall(self.dialogs[dialog->0])
        } else if request.method == Method::Bye && dialog is Some && self.calls.dom().contains(
            dialog->0,
        ) {
            RouteView::HungUp(self.calls[dialog->0])
        } else {
            RouteView::AutoAnswer
        }
    }
}

impl Registry {
    /// No dialog and no transaction occurs twice.
    pub closed spec fn wf(&self) -> bool {
        self.calls.wf() && self.dialogs.wf() && self.pending.wf()
    }

    /// An empty registry.
    pub fn new() -> (res: Self)
        ensures
            res.wf(),
            res@ == (RegistryView {
                calls: Map::empty(),
                dialogs: Map::empty(),
                pending: Map::empty(),
            }),
    {
        Registry { calls: Table::new(), dialogs: Table::new(), pending: Table::new() }
    }

    /// Records an established call, to be told when the peer hangs up. Gives the number that stood
    /// for the dialog before.
    pub fn register_call(&mut self, dialog: DialogId, id: u64) -> (res: Option<u64>)
        requires
            old(self).wf(),
        ensures
            final(self).wf(),
            final(self)@ == (RegistryView {
                calls: old(self)@.calls.insert(dialog@, id),
                ..old(self)@
            }),
            res == number_of(old(self)@.calls, dialog@),
    {
        let before = self.calls.remove(&dialog);
        self.calls.insert(dialog, id);
        assert(self@.calls =~= old(self)@.calls.insert(dialog@, id));
        before
    }

    /// Forgets a call that is over, and gives its number.
    pub fn unregister_call(&mut self, dialog: &DialogId) -> (res: Option<u64>)
        requires
            old(self).wf(),
        ensures
            final(self).wf(),
            final(self)@ == (RegistryView {
                calls: old(self)@.calls.remove(dialog@),
                ..old(self)@
            }),
            res == number_of(old(self)@.calls, dialog@),
    {
        self.calls.remove(dialog)
    }

    /// Lets the call `id` handle the requests of its dialog. Gives the number that stood for the
    /// dialog before.
    pub fn register_dialog(&mut self, dialog: DialogId, id: u64) -> (res: Option<u64>)
        requires
            old(self).wf(),
        ensures
            final(self).wf(),
            final(self)@ == (RegistryView {
                dialogs: old(self)@.dialogs.insert(dialog@, id),
                ..old(self)@
            }),
            res == number_of(old(self)@.dialogs, dialog@),
    {
        let before = self.dialogs.remove(&dialog);
        self.dialogs.insert(dialog, id);
        assert(self@.dialogs =~= old(self)@.dialogs.insert(dialog@, id));
        before
    }

    /// Lets the requests of a dialog be answered at once again, and gives the number of the call
    /// that handled them.
    pub fn unregister_dialog(&mut self, dialog: &DialogId) -> (res: Option<u64>)
        requires
            old(self).wf(),
        ensures
            final(self).wf(),
            final(self)@ == (RegistryView {
                dialogs: old(self)@.dialogs.remove(dialog@),
                ..old(self)@
            }),
            res == number_of(old(self)@.dialogs, dialog@),
    {
        self.dialogs.remove(dialog)
    }

    /// Records a call that rings. Gives the number that stood for its INVITE before.
    pub fn register_incoming(&mut self, key: TransactionKey, id: u64) -> (res: Option<u64>)
        requires
            old(self).wf(),
        ensures
            final(self).wf(),
            final(self)@ == (RegistryView {
                pending: old(self)@.pending.insert(key@, id),
                ..old(self)@
            }),
            res == number_of(old(self)@.pending, key@),
    {
        let before = self.pending.remove(&key);
        self.pending.insert(key, id);
        assert(self@.pending =~= old(self)@.pending.insert(key@, id));
        before
    }

    /// Forgets a call that was answered or rejected: it can no longer be cancelled. Gives its
    /// number.
    pub fn unregister_incoming(&mut self, key: &TransactionKey) -> (res: Option<u64>)
        requires
            old(self).wf(),
        ensures
            final(self).wf(),
            final(self)@ == (RegistryView {
                pending: old(self)@.pending.remove(key@),
                ..old(self)@
            }),
            res == number_of(old(self)@.pending, key@),
    {
        self.pending.remove(key)
    }

    /// Says where an inbound request goes.
    pub fn route_inbound(&self, key: &TransactionKey, request: &Request) -> (res: InboundRoute)
        requires
            self.wf(),
        ensures
            res@ == self@.route(key@, request@),
    {
        let tagged = match headers_to(&request.headers) {
            Some(to) => to.tag.is_some(),
            None => false,
        };
        match request.method {
            Method::Invite if !tagged => InboundRoute::NewCall,
            Method::Ack => InboundRoute::Absorb,
            Method::Cancel => {
                let invite = key.invite_target();
                match self.pending.get(&invite) {
                    Some(id) => InboundRoute::Cancel { id: *id, invite },
                    None => InboundRoute::AutoAnswer,
                }
            },
            Method::Invite | Method::Info | Method::Notify | Method::Refer => {
                match DialogId::from_request(request) {
                    Some(dialog) => match self.dialogs.get(&dialog) {
                        Some(id) => InboundRoute::ToCall(*id),
                        None => InboundRoute::AutoAnswer,
                    },
                    None => InboundRoute::AutoAnswer,
                }
            },
            Method::Bye => match DialogId::from_request(request) {
                Some(dialog) => match self.calls.get(&dialog) {
                    Some(id) => InboundRoute::HungUp(*id),
                    None => InboundRoute::AutoAnswer,
                },
                None => InboundRoute::AutoAnswer,
            },
            _ => InboundRoute::AutoAnswer,
        }
    }
}

/// The automatic answer 200 without body; `None` when the request has no readable `To`.
pub fn auto_answer_200(request: &Request, tag: &str) -> (res: Option<Response>)
    ensures
        match res {
            Some(r) => response_to(request@, status_of(200), Some(tag@), None, None) == Some(r@),
            None => response_to(request@, status_of(200), Some(tag@), None, None) is None,
        },
{
    build_response(request, StatusCode::from_code(200), Some(tag), None, None)
}

/// The answer 487 to an INVITE that was cancelled; `None` when it has no readable `To`.
pub fn cancelled_487(invite: &Request, tag: &str) -> (res: Option<Response>)
    ensures
        match res {
            Some(r) => response_to(invite@, status_of(487), Some(tag@), None, None) == Some(r@),
            None => response_to(invite@, status_of(487), Some(tag@), None, None) is None,
        },
{
    build_response(invite, StatusCode::from_code(487), Some(tag), None, None)
}

/// A BYE and an OPTIONS are answered at once, even when a call handles the requests of its dialog;
/// and the call of a BYE is told.
pub proof fn teardown_needs_no_consumer(registry: RegistryView, key: KeyView, request: RequestView)
    requires
        request.method == Method::Bye || request.method == Method::Options,
    ensures
        registry.route(key, request) == RouteView::AutoAnswer || registry.route(key, request) is HungUp,
        request.method == Method::Bye && request_dialog(request) is Some
            && registry.calls.dom().contains(request_dialog(request)->0) ==> registry.route(
            key,
            request,
        ) == RouteView::HungUp(registry.calls[request_dialog(request)->0]),
{
}

/// Once a call was answered or rejected, a CANCEL no longer ends it.
pub proof fn answered_call_cannot_be_cancelled(
    registry: RegistryView,
    invite: KeyView,
    cancel: KeyView,
    request: RequestView,
)
    requires
        request.method == Method::Cancel,
        (KeyView { method: Method::Invite, ..cancel }) == invite,
    ensures
        (RegistryView { pending: registry.pending.remove(invite), ..registry }).route(
            cancel,
            request,
        ) == RouteView::AutoAnswer,
{
}

/// Each inbound request finds its call. An INVITE without a tag in `To` is a new call, whatever is
/// registered. A re-INVITE, INFO, NOTIFY or REFER goes to the call that handles its dialog, and is
/// answered at once when none does. A BYE ends the call of its dialog. A CANCEL ends the call that
/// rings for the INVITE with its branch and sent-by. An ACK is absorbed. Nothing else goes to a call.
pub proof fn inbound_requests_find_their_call(
    registry: RegistryView,
    key: KeyView,
    request: RequestView,
    dialog: DialogIdView,
    id: u64,
)
    ensures
        ({
            let route = registry.route(key, request);
            let in_dialog = message_to(request.headers) matches Some(to) && to.tag is Some;
            let surfaced = request.method == Method::Info || request.method == Method::Notify
                || request.method == Method::Refer || (request.method == Method::Invite
                && in_dialog);
            let invite = KeyView {
                branch: key.branch,
                sent_by: key.sent_by,
                method: Method::Invite,
            };
            &&& route is NewCall <==> request.method == Method::Invite && !in_dialog
            &&& route is Absorb <==> request.method == Method::Ack
            &&& surfaced && request_dialog(request) == Some(dialog)
                && registry.dialogs.contains_pair(dialog, id) ==> route == RouteView::ToCall(id)
            &&& surfaced && request_dialog(request) == Some(dialog)
                && !registry.dialogs.dom().contains(dialog) ==> route == RouteView::AutoAnswer
            &&& route is ToCall ==> surfaced
            &&& request.method == Method::Bye && request_dialog(request) == Some(dialog)
                && registry.calls.contains_pair(dialog, id) ==> route == RouteView::HungUp(id)
            &&& route is HungUp ==> request.method == Method::Bye
            &&& request.method == Method::Cancel && registry.pending.contains_pair(invite, id)
                ==> route == (RouteView::Cancel { id, invite })
            &&& route is Cancel ==> request.method == Method::Cancel
        }),
{
}

/// A call that was recorded is found, one that was forgotten is not, and recording one call leaves
/// the others.
pub proof fn registered_calls_are_found(
    registry: RegistryView,
    key: KeyView,
    request: RequestView,
    dialog: DialogIdView,
    other: DialogIdView,
    id: u64,
)
    requires
        request_dialog(request) == Some(dialog),
        other != dialog,
    ensures
        ({
            let with_call = RegistryView { calls: registry.calls.insert(dialog, id), ..registry };
            let without = RegistryView { calls: registry.calls.remove(dialog), ..registry };
            let elsewhere = RegistryView { calls: registry.calls.insert(other, id), ..registry };
            &&& request.method == Method::Bye ==> with_call.route(key, request)
                == RouteView::HungUp(id)
            &&& request.method == Method::Bye ==> without.route(key, request)
                == RouteView::AutoAnswer
            &&& elsewhere.route(key, request) == registry.route(key, request)
        }),
        ({
            let with_call = RegistryView { dialogs: registry.dialogs.insert(dialog, id), ..registry
            };
            let without = RegistryView { dialogs: registry.dialogs.remove(dialog), ..registry };
            let elsewhere = RegistryView { dialogs: registry.dialogs.insert(other, id), ..registry };
            &&& request.method == Method::Info ==> with_call.route(key, request)
                == RouteView::ToCall(id)
            &&& request.method == Method::Info ==> without.route(key, request)
                == RouteView::AutoAnswer
            &&& elsewhere.route(key, request) == registry.route(key, request)
        }),
{
}

} // verus!
