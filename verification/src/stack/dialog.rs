//! Dialogs (RFC 3261, 12).
//!
//! A dialog is the relationship that an INVITE and its 2xx establish: the Call-ID, the tags, the
//! remote target, and the route set taken from `Record-Route`. The route set is taken once, when
//! the dialog is established, and goes into every request in the dialog. The remote target is
//! the request URI; the two are never mixed up. Loose routing is assumed.

use crate::headers::{
    addr_settled, concatenated, contact_uri_of, copy_opt, headers_contact, headers_from, headers_to,
    message_contact, message_from, message_to, opt_text, read_routes, routes_of, uri_reads_back, via_text, NameAddr,
    NameAddrView, Uri, UriView,
};
use crate::message::{
    cseq_header, cseq_reads_back, cseq_text, first_value, header_views, headers_cseq,
    lemma_first_kept, lemma_first_value, lemma_first_value_push, lemma_without_kind_keeps,
    message_cseq, push_header, replace_header, without_kind, Header, HeaderKind, HeaderView,
    Method, Request, RequestView, Response, ResponseView, Version,
};
use crate::stack::transaction::{branch_text, gen_branch, only_kind, via_header, TokenCounter};
use crate::table::TableKey;
use crate::text::{decimal, decimal_text, joined, same_str, strings};
use vstd::prelude::*;
use vstd::string::*;

verus! {

/// One end of a dialog: display name, URI and tag.
#[derive(Clone, Debug, PartialEq, Eq)]
struct Party {
    display_name: Option<String>,
    uri: String,
    tag: String,
}

/// One end of a dialog, its texts as characters.
pub struct PartyView {
    pub display_name: Option<Seq<char>>,
    pub uri: Seq<char>,
    pub tag: Seq<char>,
}

impl View for Party {
    type V = PartyView;

    closed spec fn view(&self) -> PartyView {
        PartyView {
            display_name: opt_text(self.display_name),
            uri: self.uri@,
            tag: self.tag@,
        }
    }
}

impl PartyView {
    /// The party as a name-address value with its tag.
    pub open spec fn addr(self) -> NameAddrView {
        NameAddrView {
            display_name: self.display_name,
            uri: self.uri,
            params: seq![";tag="@ + self.tag],
            tag: Some(self.tag),
        }
    }

    /// The party as text.
    pub open spec fn text(self) -> Seq<char> {
        self.addr().text()
    }

    /// Whether the party reads back from its text.
    pub open spec fn settled(self) -> bool {
        addr_settled(self.addr())
    }
}

/// Whether a message with these headers goes from one party to the other.
pub open spec fn between(h: Seq<HeaderView>, from: PartyView, to: PartyView) -> bool {
    first_value(h, HeaderKind::From) == Some(from.text()) && first_value(h, HeaderKind::To)
        == Some(to.text())
}

impl Party {
    fn to_text(&self) -> (res: String)
        ensures
            res@ == self@.text(),
    {
        let addr = NameAddr {
            display_name: copy_opt(&self.display_name),
            uri: self.uri.clone(),
            params: Vec::new(),
            tag: None,
        };
        let tagged = addr.with_tag(self.tag.as_str());
        assert(tagged@.params =~= seq![";tag="@ + self.tag@]);
        tagged.to_text()
    }
}

/// Identifies a dialog: Call-ID, local tag, remote tag.
#[derive(Clone, Debug, PartialEq, Eq)]
pub struct DialogId {
    /// The Call-ID.
    pub call_id: String,
    /// The tag of this side.
    pub local_tag: String,
    /// The tag of the peer.
    pub remote_tag: String,
}

/// A dialog identity, its texts as characters.
pub struct DialogIdView {
    pub call_id: Seq<char>,
    pub local_tag: Seq<char>,
    pub remote_tag: Seq<char>,
}

impl View for DialogId {
    type V = DialogIdView;

    open spec fn view(&self) -> DialogIdView {
        DialogIdView {
            call_id: self.call_id@,
            local_tag: self.local_tag@,
            remote_tag: self.remote_tag@,
        }
    }
}

/// The dialog an inbound request belongs to: this side's tag is in `To`, the peer's in `From`.
pub open spec fn request_dialog(r: RequestView) -> Option<DialogIdView> {
    match (
        message_to(r.headers),
        message_from(r.headers),
        first_value(r.headers, HeaderKind::CallId),
    ) {
        (Some(to), Some(from), Some(call_id)) => match (to.tag, from.tag) {
            (Some(local_tag), Some(remote_tag)) => Some(
                DialogIdView { call_id, local_tag, remote_tag },
            ),
            _ => None,
        },
        _ => None,
    }
}

impl DialogId {
    /// The dialog an inbound request belongs to. A request that the peer sent in a dialog belongs
    /// to that dialog: to the tags that were written into it.
    pub fn from_request(request: &Request) -> (res: Option<Self>)
        ensures
            match res {
                Some(id) => request_dialog(request@) == Some(id@),
                None => request_dialog(request@) is None,
            },
            forall|peer: PartyView, own: PartyView|
                peer.settled() && own.settled() && #[trigger] between(request@.headers, peer, own)
                    ==> match first_value(request@.headers, HeaderKind::CallId) {
                    Some(call_id) => res matches Some(id) && id@ == (DialogIdView {
                        call_id,
                        local_tag: own.tag,
                        remote_tag: peer.tag,
                    }),
                    None => res is None,
                },
    {
        match (
            headers_to(&request.headers),
            headers_from(&request.headers),
            request.header(HeaderKind::CallId),
        ) {
            (Some(to), Some(from), Some(call_id)) => match (to.tag, from.tag) {
                (Some(local_tag), Some(remote_tag)) => Some(
                    DialogId { call_id: String::from_str(call_id), local_tag, remote_tag },
                ),
                _ => None,
            },
            _ => None,
        }
    }
}

impl TableKey for DialogId {
    fn same_key(&self, other: &Self) -> (res: bool) {
        same_str(self.call_id.as_str(), other.call_id.as_str()) && same_str(
            self.local_tag.as_str(),
            other.local_tag.as_str(),
        ) && same_str(self.remote_tag.as_str(), other.remote_tag.as_str())
    }
}

/// A dialog, early or confirmed, and what is needed to send requests in it.
#[derive(Debug)]
pub struct Dialog {
    call_id: String,
    local: Party,
    remote: Party,
    local_contact: Uri,
    remote_target: String,
    route_set: Vec<String>,
    local_seq: u32,
    confirmed: bool,
}

/// What a [`Dialog`] knows.
#[verifier::ext_equal]
pub struct DialogView {
    /// The Call-ID.
    pub call_id: Seq<char>,
    /// This side, the `From` of requests sent.
    pub local: PartyView,
    /// The peer, the `To` of requests sent.
    pub remote: PartyView,
    /// This side's contact.
    pub local_contact: UriView,
    /// The peer's contact, the request URI of requests sent.
    pub remote_target: Seq<char>,
    /// The route set, in the order in which requests go through it.
    pub route_set: Seq<Seq<char>>,
    /// The sequence number of the last request sent.
    pub local_seq: u32,
    /// Whether a 2xx established the dialog.
    pub confirmed: bool,
}

impl View for Dialog {
    type V = DialogView;

    closed spec fn view(&self) -> DialogView {
        DialogView {
            call_id: self.call_id@,
            local: self.local@,
            remote: self.remote@,
            local_contact: self.local_contact@,
            remote_target: self.remote_target@,
            route_set: strings(self.route_set@),
            local_seq: self.local_seq,
            confirmed: self.confirmed,
        }
    }
}

/// The routes of all `Record-Route` headers in order; headers that cannot be read are left out.
pub open spec fn recorded_routes(h: Seq<HeaderView>) -> Seq<Seq<char>>
    decreases h.len(),
{
    if h.len() == 0 {
        Seq::empty()
    } else {
        let init = recorded_routes(h.drop_last());
        if h.last().kind == HeaderKind::RecordRoute && routes_of(h.last().value) is Some {
            init + routes_of(h.last().value)->0
        } else {
            init
        }
    }
}

/// The party that a name-address value with a tag stands for.
pub open spec fn party_of(a: NameAddrView, tag: Seq<char>) -> PartyView {
    PartyView { display_name: a.display_name, uri: a.uri, tag }
}

/// The dialog of the caller, from the INVITE it sent and the response that established it: the
/// routes of the response in reverse. `None` when a header or tag is missing.
pub open spec fn uac_dialog(invite: RequestView, response: ResponseView, contact: UriView) -> Option<
    DialogView,
> {
    match (
        message_from(invite.headers),
        message_to(response.headers),
        message_cseq(invite.headers),
        first_value(invite.headers, HeaderKind::CallId),
        message_contact(response.headers),
    ) {
        (Some(from), Some(to), Some((seq, _)), Some(call_id), Some(target)) => match (
            from.tag,
            to.tag,
        ) {
            (Some(local_tag), Some(remote_tag)) => Some(
                DialogView {
                    call_id,
                    local: party_of(from, local_tag),
                    remote: party_of(to, remote_tag),
                    local_contact: contact,
                    remote_target: target,
                    route_set: recorded_routes(response.headers).reverse(),
                    local_seq: seq,
                    confirmed: response.status.code >= 200,
                },
            ),
            _ => None,
        },
        _ => None,
    }
}

/// The dialog of the callee, from the INVITE it received and the tag of its answer: the routes
/// of the INVITE in order, and no request sent yet.
pub open spec fn uas_dialog(invite: RequestView, local_tag: Seq<char>, contact: UriView) -> Option<
    DialogView,
> {
    match (
        message_from(invite.headers),
        message_to(invite.headers),
        first_value(invite.headers, HeaderKind::CallId),
        message_contact(invite.headers),
    ) {
        (Some(from), Some(to), Some(call_id), Some(target)) => match from.tag {
            Some(remote_tag) => Some(
                DialogView {
                    call_id,
                    local: party_of(to, local_tag),
                    remote: party_of(from, remote_tag),
                    local_contact: contact,
                    remote_target: target,
                    route_set: recorded_routes(invite.headers),
                    local_seq: 0,
                    confirmed: true,
                },
            ),
            None => None,
        },
        _ => None,
    }
}

fn collect_routes(headers: &Vec<Header>) -> (res: Vec<String>)
    ensures
        strings(res@) == recorded_routes(header_views(headers@)),
{
    let mut routes: Vec<String> = Vec::new();
    let ghost all = header_views(headers@);
    let mut i: usize = 0;
    assert(all.take(0) =~= Seq::<HeaderView>::empty());
    assert(strings(routes@) =~= Seq::<Seq<char>>::empty());
    while i < headers.len()
        invariant
            i <= headers@.len(),
            all == header_views(headers@),
            strings(routes@) == recorded_routes(all.take(i as int)),
        decreases headers.len() - i,
    {
        let ghost next = all.take(i as int + 1);
        assert(next.drop_last() =~= all.take(i as int));
        assert(next.last() == headers@[i as int]@);
        if headers[i].kind == HeaderKind::RecordRoute {
            if let Some(mut more) = read_routes(headers[i].value.as_str()) {
                let ghost before = strings(routes@);
                let ghost added = strings(more@);
                routes.append(&mut more);
                assert(strings(routes@) =~= before + added);
            }
        }
        i += 1;
    }
    assert(all.take(i as int) =~= all);
    routes
}

fn reversed(v: &Vec<String>) -> (res: Vec<String>)
    ensures
        strings(res@) == strings(v@).reverse(),
{
    let mut out: Vec<String> = Vec::new();
    let mut i: usize = v.len();
    while i > 0
        invariant
            i <= v@.len(),
            strings(out@) == strings(v@).reverse().take(v@.len() - i),
        decreases i,
    {
        i -= 1;
        let ghost before = strings(out@);
        let c = v[i].clone();
        out.push(c);
        assert(strings(out@) =~= before.push(c@));
        assert(strings(out@) =~= strings(v@).reverse().take(v@.len() - i));
    }
    assert(strings(v@).reverse().take(v@.len() as int) =~= strings(v@).reverse());
    out
}

impl DialogView {
    /// The headers of a request in the dialog: `Via`, `Max-Forwards`, `From`, `To`, `Call-ID`,
    /// `CSeq`, the route set if there is one, `Contact`, `Content-Length`.
    pub open spec fn headers(self, method: Method, seq: u32, branch: Seq<char>) -> Seq<HeaderView> {
        let head = seq![
            HeaderView::known(
                HeaderKind::Via,
                via_text(self.local_contact.via_transport(), self.local_contact.host_port, branch),
            ),
            HeaderView::known(HeaderKind::MaxForwards, "70"@),
            HeaderView::known(HeaderKind::From, self.local.text()),
            HeaderView::known(HeaderKind::To, self.remote.text()),
            HeaderView::known(HeaderKind::CallId, self.call_id),
            HeaderView::known(HeaderKind::CSeq, cseq_text(seq, method)),
        ];
        let route = if self.route_set.len() > 0 {
            seq![HeaderView::known(HeaderKind::Route, joined(self.route_set, ','))]
        } else {
            Seq::empty()
        };
        let tail = seq![
            HeaderView::known(HeaderKind::Contact, "<"@ + self.local_contact.text + ">"@),
            HeaderView::known(HeaderKind::ContentLength, "0"@),
        ];
        head + route + tail
    }

    /// A request in the dialog, without body, to the remote target.
    pub open spec fn request(self, method: Method, seq: u32, branch: Seq<char>) -> RequestView {
        RequestView {
            method,
            uri: self.remote_target,
            version: Version::V2,
            headers: self.headers(method, seq, branch),
            body: Seq::empty(),
        }
    }

    /// The identity of the dialog.
    pub open spec fn id(self) -> DialogIdView {
        DialogIdView {
            call_id: self.call_id,
            local_tag: self.local.tag,
            remote_tag: self.remote.tag,
        }
    }

    /// The dialog after one more request.
    pub open spec fn after_request(self) -> Self {
        DialogView { local_seq: (self.local_seq + 1) as u32, ..self }
    }
}

/// Appends the texts with commas between neighbours.
fn push_route_set(out: &mut String, p: &[String])
    ensures
        final(out)@ == old(out)@ + joined(strings(p@), ','),
    decreases p@.len(),
{
    if p.len() == 0 {
        assert(old(out)@ + Seq::<char>::empty() =~= old(out)@);
        return;
    }
    out.append(p[0].as_str());
    if p.len() > 1 {
        out.push(',');
        let rest = vstd::slice::slice_subrange(p, 1, p.len());
        push_route_set(out, rest);
        assert(strings(p@).skip(1) =~= strings(rest@));
        assert(out@ =~= old(out)@ + joined(strings(p@), ','));
    }
}

impl Dialog {
    /// The caller's dialog, from the INVITE it sent and the response that established it. `None`
    /// if the response lacks the remote tag or the contact. The parties and the contact that were
    /// written into the response are those of the dialog.
    pub fn uac(invite: &Request, response: &Response, local_contact: Uri) -> (res: Option<Self>)
        ensures
            match res {
                Some(d) => uac_dialog(invite@, response@, local_contact@) == Some(d@),
                None => uac_dialog(invite@, response@, local_contact@) is None,
            },
            forall|own: PartyView, peer: PartyView|
                own.settled() && peer.settled() && first_value(invite@.headers, HeaderKind::From)
                    == Some(own.text()) && #[trigger] between(response@.headers, own, peer)
                    && res is Some ==> res->0@.local == own && res->0@.remote == peer,
            forall|uri: Seq<char>| #[trigger]
                uri_reads_back(uri) && first_value(response@.headers, HeaderKind::Contact) == Some(
                    "<"@ + uri + ">"@,
                ) && res is Some ==> res->0@.remote_target == uri,
    {
        match (
            headers_from(&invite.headers),
            headers_to(&response.headers),
            headers_cseq(&invite.headers),
            invite.header(HeaderKind::CallId),
            headers_contact(&response.headers),
        ) {
            (Some(from), Some(to), Some((seq, _)), Some(call_id), Some(remote_target)) => match (
                from.tag,
                to.tag,
            ) {
                (Some(local_tag), Some(remote_tag)) => {
                    let routes = collect_routes(&response.headers);
                    Some(
                        Dialog {
                            call_id: String::from_str(call_id),
                            local: Party {
                                display_name: from.display_name,
                                uri: from.uri,
                                tag: local_tag,
                            },
                            remote: Party {
                                display_name: to.display_name,
                                uri: to.uri,
                                tag: remote_tag,
                            },
                            local_contact,
                            remote_target,
                            route_set: reversed(&routes),
                            local_seq: seq,
                            confirmed: response.status_code.code >= 200,
                        },
                    )
                },
                _ => None,
            },
            _ => None,
        }
    }

    /// The callee's dialog, from the INVITE it received and the tag of its answer. The caller and
    /// the contact that were written into the INVITE are those of the dialog.
    pub fn uas(invite: &Request, local_tag: String, local_contact: Uri) -> (res: Option<Self>)
        ensures
            match res {
                Some(d) => uas_dialog(invite@, local_tag@, local_contact@) == Some(d@),
                None => uas_dialog(invite@, local_tag@, local_contact@) is None,
            },
            forall|peer: PartyView| #[trigger]
                peer.settled() && first_value(invite@.headers, HeaderKind::From) == Some(peer.text())
                    && res is Some ==> res->0@.remote == peer,
            forall|uri: Seq<char>| #[trigger]
                uri_reads_back(uri) && first_value(invite@.headers, HeaderKind::Contact) == Some(
                    "<"@ + uri + ">"@,
                ) && res is Some ==> res->0@.remote_target == uri,
    {
        match (
            headers_from(&invite.headers),
            headers_to(&invite.headers),
            invite.header(HeaderKind::CallId),
            headers_contact(&invite.headers),
        ) {
            (Some(from), Some(to), Some(call_id), Some(remote_target)) => match from.tag {
                Some(remote_tag) => Some(
                    Dialog {
                        call_id: String::from_str(call_id),
                        local: Party {
                            display_name: to.display_name,
                            uri: to.uri,
                            tag: local_tag,
                        },
                        remote: Party {
                            display_name: from.display_name,
                            uri: from.uri,
                            tag: remote_tag,
                        },
                        local_contact,
                        remote_target,
                        route_set: collect_routes(&invite.headers),
                        local_seq: 0,
                        confirmed: true,
                    },
                ),
                None => None,
            },
            _ => None,
        }
    }

    /// The identity of the dialog.
    pub fn id(&self) -> (res: DialogId)
        ensures
            res@ == self@.id(),
    {
        DialogId {
            call_id: self.call_id.clone(),
            local_tag: self.local.tag.clone(),
            remote_tag: self.remote.tag.clone(),
        }
    }

    /// Whether a 2xx established the dialog.
    pub fn is_confirmed(&self) -> (res: bool)
        ensures
            res == self@.confirmed,
    {
        self.confirmed
    }

    /// Confirms an early dialog when its 2xx arrives.
    pub fn confirm(&mut self)
        ensures
            final(self)@ == (DialogView { confirmed: true, ..old(self)@ }),
    {
        self.confirmed = true;
    }

    /// The peer's contact.
    pub fn remote_target(&self) -> (res: &str)
        ensures
            res@ == self@.remote_target,
    {
        self.remote_target.as_str()
    }

    /// Whether there is a sequence number left for another request.
    pub fn can_send(&self) -> (res: bool)
        ensures
            res == (self@.local_seq < u32::MAX),
    {
        self.local_seq < u32::MAX
    }

    fn build(&self, method: Method, seq: u32, branch: &str) -> (res: Request)
        ensures
            res@ == self@.request(method, seq, branch@),
    {
        let mut headers: Vec<Header> = Vec::new();
        push_header(
            &mut headers,
            via_header(
                self.local_contact.via_transport(),
                self.local_contact.host_port.as_str(),
                branch,
            ),
        );
        push_header(&mut headers, Header::new(HeaderKind::MaxForwards, "70"));
        push_header(
            &mut headers,
            Header::new(HeaderKind::From, self.local.to_text().as_str()),
        );
        push_header(&mut headers, Header::new(HeaderKind::To, self.remote.to_text().as_str()));
        push_header(&mut headers, Header::new(HeaderKind::CallId, self.call_id.as_str()));
        push_header(&mut headers, cseq_header(seq, method));
        if self.route_set.len() > 0 {
            let mut routes = String::new();
            push_route_set(&mut routes, &self.route_set);
            assert(routes@ =~= joined(strings(self.route_set@), ','));
            push_header(&mut headers, Header::new(HeaderKind::Route, routes.as_str()));
        }
        let mut contact = String::from_str("<");
        contact.append(self.local_contact.text.as_str());
        contact.append(">");
        push_header(&mut headers, Header::new(HeaderKind::Contact, contact.as_str()));
        push_header(&mut headers, Header::new(HeaderKind::ContentLength, "0"));
        assert(header_views(headers@) =~= self@.headers(method, seq, branch@));
        let res = Request {
            method,
            uri: self.remote_target.clone(),
            version: Version::V2,
            headers,
            body: Vec::new(),
        };
        assert(res@ =~= self@.request(method, seq, branch@));
        res
    }

    /// Builds the next request in the dialog with the given branch: the sequence number goes up
    /// by one, the request URI is the remote target, the route set goes along.
    pub fn request_with_branch(&mut self, method: Method, branch: &str) -> (res: Request)
        requires
            old(self)@.local_seq < u32::MAX,
        ensures
            final(self)@ == old(self)@.after_request(),
            res@ == old(self)@.request(method, (old(self)@.local_seq + 1) as u32, branch@),
    {
        self.local_seq = self.local_seq + 1;
        let res = self.build(method, self.local_seq, branch);
        assert(self@ =~= old(self)@.after_request());
        res
    }

    /// Builds the next request in the dialog (BYE, re-INVITE, INFO). The caller adds any body and
    /// content headers.
    pub fn new_request(&mut self, method: Method, tokens: &mut TokenCounter) -> (res: Request)
        requires
            old(self)@.local_seq < u32::MAX,
        ensures
            final(self)@ == old(self)@.after_request(),
            final(tokens).made() == old(tokens).made().wrapping_add(1),
            exists|seed: u64|
                res@ == old(self)@.request(
                    method,
                    (old(self)@.local_seq + 1) as u32,
                    #[trigger] branch_text(old(tokens).made(), seed),
                ),
    {
        let branch = gen_branch(tokens);
        self.request_with_branch(method, branch.as_str())
    }

    /// Builds the ACK for a 2xx with the given branch. It carries the sequence number of the
    /// INVITE and counts as no request of its own.
    pub fn ack_with_branch(&self, cseq: u32, branch: &str) -> (res: Request)
        ensures
            res@ == self@.request(Method::Ack, cseq, branch@),
    {
        self.build(Method::Ack, cseq, branch)
    }

    /// Builds the ACK for a 2xx.
    pub fn ack_2xx(&self, cseq: u32, tokens: &mut TokenCounter) -> (res: Request)
        ensures
            final(tokens).made() == old(tokens).made().wrapping_add(1),
            exists|seed: u64|
                res@ == self@.request(
                    Method::Ack,
                    cseq,
                    #[trigger] branch_text(old(tokens).made(), seed),
                ),
    {
        let branch = gen_branch(tokens);
        self.ack_with_branch(cseq, branch.as_str())
    }
}

/// Reads the sequence number with which a response to a request in a dialog has to be acknowledged:
/// that of the request, when it is an INVITE and the response a 2xx.
pub fn seq_to_acknowledge(request: &Request, response: &Response) -> (res: Option<u32>)
    ensures
        res == if request.method == Method::Invite && 200 <= response@.status.code < 300 {
            match message_cseq(request@.headers) {
                Some((seq, _)) => Some(seq),
                None => None,
            }
        } else {
            None
        },
{
    let code: u16 = response.status_code.code;
    if request.method == Method::Invite && 200 <= code && code < 300 {
        match headers_cseq(&request.headers) {
            Some((seq, _)) => Some(seq),
            None => None,
        }
    } else {
        None
    }
}

/// The headers of a request after more headers and a body were added: the length of the body
/// stands at the end.
pub open spec fn filled(r: RequestView, extra: Seq<HeaderView>, body: Seq<u8>) -> RequestView {
    RequestView {
        headers: without_kind(r.headers + extra, HeaderKind::ContentLength).push(
            HeaderView::known(HeaderKind::ContentLength, decimal(body.len())),
        ),
        body,
        ..r
    }
}

/// Adds headers and a body to a request.
pub fn fill_request(request: Request, extra: &Vec<Header>, body: Vec<u8>) -> (res: Request)
    ensures
        res@ == filled(request@, header_views(extra@), body@),
{
    let ghost start = request@;
    let mut out = request;
    let mut i: usize = 0;
    assert(header_views(extra@).take(0) =~= Seq::<HeaderView>::empty());
    assert(start.headers + Seq::<HeaderView>::empty() =~= start.headers);
    while i < extra.len()
        invariant
            i <= extra@.len(),
            header_views(out.headers@) == start.headers + header_views(extra@).take(i as int),
            out.method == start.method,
            out.uri@ == start.uri,
            out.version == start.version,
        decreases extra.len() - i,
    {
        push_header(&mut out.headers, extra[i].copy());
        i += 1;
        assert(header_views(out.headers@) =~= start.headers + header_views(extra@).take(i as int));
    }
    assert(header_views(extra@).take(i as int) =~= header_views(extra@));
    replace_header(
        &mut out.headers,
        Header::new(HeaderKind::ContentLength, decimal_text(body.len() as u64).as_str()),
    );
    out.body = body;
    assert(out@ =~= filled(start, header_views(extra@), body@));
    out
}

/// Every request in a dialog goes to the remote target and through the route set that was taken
/// when the dialog was established.
pub proof fn requests_follow_the_route_set(
    dialog: DialogView,
    method: Method,
    seq: u32,
    branch: Seq<char>,
)
    ensures
        dialog.request(method, seq, branch).uri == dialog.remote_target,
        first_value(dialog.request(method, seq, branch).headers, HeaderKind::Route)
            == if dialog.route_set.len() > 0 {
            Some(joined(dialog.route_set, ','))
        } else {
            None
        },
{
    let h = dialog.request(method, seq, branch).headers;
    if dialog.route_set.len() > 0 {
        lemma_first_value(h, HeaderKind::Route, 6);
    } else {
        crate::message::lemma_no_value(h, HeaderKind::Route);
    }
}

proof fn lemma_fill_keeps(
    r: RequestView,
    extra: Seq<HeaderView>,
    body: Seq<u8>,
    kind: HeaderKind,
)
    requires
        first_value(r.headers, kind) is Some,
        kind != HeaderKind::ContentLength,
    ensures
        first_value(filled(r, extra, body).headers, kind) == first_value(r.headers, kind),
{
    let length = HeaderView::known(HeaderKind::ContentLength, decimal(body.len()));
    lemma_first_kept(r.headers, extra, kind);
    lemma_without_kind_keeps(r.headers + extra, HeaderKind::ContentLength, kind);
    lemma_first_value_push(
        without_kind(r.headers + extra, HeaderKind::ContentLength),
        length,
        kind,
    );
}

/// Every request in a dialog, whatever headers and body are added to it, names both ends of the
/// dialog and its Call-ID, so that the peer finds the dialog by them.
pub proof fn requests_name_both_ends(
    dialog: DialogView,
    method: Method,
    seq: u32,
    branch: Seq<char>,
    extra: Seq<HeaderView>,
    body: Seq<u8>,
)
    ensures
        ({
            let bare = dialog.request(method, seq, branch);
            let full = filled(bare, extra, body);
            &&& between(bare.headers, dialog.local, dialog.remote)
            &&& between(full.headers, dialog.local, dialog.remote)
            &&& first_value(bare.headers, HeaderKind::CallId) == Some(dialog.call_id)
            &&& first_value(full.headers, HeaderKind::CallId) == Some(dialog.call_id)
        }),
{
    let h = dialog.request(method, seq, branch).headers;
    lemma_first_value(h, HeaderKind::From, 2);
    lemma_first_value(h, HeaderKind::To, 3);
    lemma_first_value(h, HeaderKind::CallId, 4);
    lemma_fill_keeps(dialog.request(method, seq, branch), extra, body, HeaderKind::From);
    lemma_fill_keeps(dialog.request(method, seq, branch), extra, body, HeaderKind::To);
    lemma_fill_keeps(dialog.request(method, seq, branch), extra, body, HeaderKind::CallId);
}

/// The requests of a dialog carry sequence numbers that go up by one, and their method.
pub proof fn requests_count_up(dialog: DialogView, method: Method, branch: Seq<char>)
    requires
        dialog.local_seq < u32::MAX,
    ensures
        message_cseq(
            dialog.request(method, dialog.after_request().local_seq, branch).headers,
        ) == Some(((dialog.local_seq + 1) as u32, method)),
        dialog.after_request().route_set == dialog.route_set,
        dialog.after_request().remote_target == dialog.remote_target,
        dialog.after_request().id() == dialog.id(),
{
    let seq = dialog.after_request().local_seq;
    let h = dialog.request(method, seq, branch).headers;
    lemma_first_value(h, HeaderKind::CSeq, 5);
    cseq_reads_back(seq, method);
}

/// The ACK of a 2xx carries the sequence number it is given and the method ACK.
pub proof fn ack_reuses_the_sequence_number(dialog: DialogView, cseq: u32, branch: Seq<char>)
    ensures
        message_cseq(dialog.request(Method::Ack, cseq, branch).headers) == Some(
            (cseq, Method::Ack),
        ),
{
    let h = dialog.request(Method::Ack, cseq, branch).headers;
    lemma_first_value(h, HeaderKind::CSeq, 5);
    cseq_reads_back(cseq, Method::Ack);
}

/// Whether `parts` holds the routes of each header in turn: those of a `Record-Route` that can be
/// read, and none of any other header.
pub open spec fn routes_by_header(h: Seq<HeaderView>, parts: Seq<Seq<Seq<char>>>) -> bool {
    &&& parts.len() == h.len()
    &&& forall|i: int|
        0 <= i < h.len() ==> #[trigger] parts[i] == if h[i].kind == HeaderKind::RecordRoute
            && routes_of(h[i].value) is Some {
            routes_of(h[i].value)->0
        } else {
            Seq::empty()
        }
}

proof fn lemma_recorded_routes(h: Seq<HeaderView>, parts: Seq<Seq<Seq<char>>>)
    requires
        routes_by_header(h, parts),
    ensures
        recorded_routes(h) == parts.flatten(),
    decreases h.len(),
{
    if h.len() == 0 {
        assert(parts.flatten() =~= Seq::<Seq<char>>::empty());
    } else {
        let init = parts.drop_last();
        assert forall|i: int| 0 <= i < h.drop_last().len() implies #[trigger] init[i]
            == if h.drop_last()[i].kind == HeaderKind::RecordRoute && routes_of(
            h.drop_last()[i].value,
        ) is Some {
            routes_of(h.drop_last()[i].value)->0
        } else {
            Seq::empty()
        } by {
            assert(init[i] == parts[i]);
            assert(h.drop_last()[i] == h[i]);
        }
        lemma_recorded_routes(h.drop_last(), init);
        init.lemma_flatten_push(parts.last());
        assert(init.push(parts.last()) =~= parts);
        assert(parts.last() == parts[h.len() - 1]);
        assert(recorded_routes(h) =~= parts.flatten());
    }
}

/// Every request of the callee goes through the routes of the `Record-Route` headers of the INVITE
/// in the order in which they stand there: those of the first header first, and in each header the
/// first route first. Without such routes it has no `Route`.
pub proof fn callee_follows_the_recorded_routes(
    invite: RequestView,
    local_tag: Seq<char>,
    contact: UriView,
    parts: Seq<Seq<Seq<char>>>,
    method: Method,
    seq: u32,
    branch: Seq<char>,
)
    requires
        uas_dialog(invite, local_tag, contact) is Some,
        routes_by_header(invite.headers, parts),
    ensures
        first_value(
            uas_dialog(invite, local_tag, contact)->0.request(method, seq, branch).headers,
            HeaderKind::Route,
        ) == if parts.flatten().len() > 0 {
            Some(joined(parts.flatten(), ','))
        } else {
            None
        },
{
    lemma_recorded_routes(invite.headers, parts);
    requests_follow_the_route_set(uas_dialog(invite, local_tag, contact)->0, method, seq, branch);
}

/// The first route of the first `Record-Route` of the INVITE comes first in every request of the
/// callee.
pub proof fn callee_goes_to_the_nearest_proxy_first(
    invite: RequestView,
    local_tag: Seq<char>,
    contact: UriView,
    n: int,
    method: Method,
    seq: u32,
    branch: Seq<char>,
)
    requires
        uas_dialog(invite, local_tag, contact) is Some,
        0 <= n < invite.headers.len(),
        invite.headers[n].kind == HeaderKind::RecordRoute,
        routes_of(invite.headers[n].value) matches Some(routes) && routes.len() > 0,
        forall|i: int| 0 <= i < n ==> (#[trigger] invite.headers[i]).kind != HeaderKind::RecordRoute,
    ensures
        ({
            let nearest = routes_of(invite.headers[n].value)->0[0];
            first_value(
                uas_dialog(invite, local_tag, contact)->0.request(method, seq, branch).headers,
                HeaderKind::Route,
            ) matches Some(value) && nearest.is_prefix_of(value)
        }),
{
    let h = invite.headers;
    let nearest = routes_of(h[n].value)->0[0];
    lemma_no_routes(h.take(n));
    lemma_recorded_concat(h.take(n), h.skip(n));
    assert(h.take(n) + h.skip(n) =~= h);
    lemma_recorded_concat(h.skip(n).take(1), h.skip(n).skip(1));
    assert(h.skip(n).take(1) + h.skip(n).skip(1) =~= h.skip(n));
    lemma_recorded_one(h.skip(n).take(1));
    let set = recorded_routes(h);
    assert(set[0] == nearest);
    requests_follow_the_route_set(uas_dialog(invite, local_tag, contact)->0, method, seq, branch);
    assert(nearest.is_prefix_of(joined(set, ',')));
}

proof fn lemma_no_routes(h: Seq<HeaderView>)
    requires
        forall|i: int| 0 <= i < h.len() ==> (#[trigger] h[i]).kind != HeaderKind::RecordRoute,
    ensures
        recorded_routes(h) == Seq::<Seq<char>>::empty(),
    decreases h.len(),
{
    if h.len() > 0 {
        assert(h.last() == h[h.len() - 1]);
        assert forall|i: int| 0 <= i < h.drop_last().len() implies (#[trigger] h.drop_last()[i]).kind
            != HeaderKind::RecordRoute by {
            assert(h.drop_last()[i] == h[i]);
        }
        lemma_no_routes(h.drop_last());
    }
}

proof fn lemma_recorded_one(h: Seq<HeaderView>)
    requires
        h.len() == 1,
    ensures
        recorded_routes(h) == if h[0].kind == HeaderKind::RecordRoute && routes_of(
            h[0].value,
        ) is Some {
            routes_of(h[0].value)->0
        } else {
            Seq::empty()
        },
{
    assert(recorded_routes(h.drop_last()) =~= Seq::<Seq<char>>::empty());
    assert(recorded_routes(h) =~= if h[0].kind == HeaderKind::RecordRoute && routes_of(
        h[0].value,
    ) is Some {
        routes_of(h[0].value)->0
    } else {
        Seq::empty()
    });
}

proof fn lemma_recorded_concat(a: Seq<HeaderView>, b: Seq<HeaderView>)
    ensures
        recorded_routes(a + b) == recorded_routes(a) + recorded_routes(b),
    decreases b.len(),
{
    if b.len() == 0 {
        assert(a + b =~= a);
        assert(recorded_routes(a) + recorded_routes(b) =~= recorded_routes(a));
    } else {
        lemma_recorded_concat(a, b.drop_last());
        assert((a + b).drop_last() =~= a + b.drop_last());
        assert((a + b).last() == b.last());
        assert(recorded_routes(a + b) =~= recorded_routes(a) + recorded_routes(b));
    }
}

proof fn lemma_only_records(h: Seq<HeaderView>)
    ensures
        recorded_routes(only_kind(h, HeaderKind::RecordRoute)) == recorded_routes(h),
    decreases h.len(),
{
    if h.len() > 0 {
        let rest = h.skip(1);
        lemma_only_records(rest);
        lemma_recorded_concat(h.take(1), rest);
        assert(h.take(1) + rest =~= h);
        if h[0].kind == HeaderKind::RecordRoute {
            lemma_recorded_concat(h.take(1), only_kind(rest, HeaderKind::RecordRoute));
            assert(h.take(1) =~= seq![h[0]]);
        } else {
            lemma_recorded_one(h.take(1));
            assert(recorded_routes(h) =~= recorded_routes(rest));
        }
    }
}

/// Caller and callee go through the same proxies the opposite way round: from the same
/// `Record-Route` headers, in the INVITE that the callee received and in the response that the
/// caller received, they take route sets that are each other's reverse.
pub proof fn both_ends_take_the_same_path(
    sent: RequestView,
    response: ResponseView,
    caller_contact: UriView,
    received: RequestView,
    local_tag: Seq<char>,
    callee_contact: UriView,
)
    requires
        uac_dialog(sent, response, caller_contact) is Some,
        uas_dialog(received, local_tag, callee_contact) is Some,
        only_kind(response.headers, HeaderKind::RecordRoute) == only_kind(
            received.headers,
            HeaderKind::RecordRoute,
        ),
    ensures
        ({
            let caller = uac_dialog(sent, response, caller_contact)->0;
            let callee = uas_dialog(received, local_tag, callee_contact)->0;
            &&& caller.route_set == callee.route_set.reverse()
            &&& callee.route_set == caller.route_set.reverse()
        }),
{
    lemma_only_records(response.headers);
    lemma_only_records(received.headers);
    let caller = uac_dialog(sent, response, caller_contact)->0;
    let callee = uas_dialog(received, local_tag, callee_contact)->0;
    assert(callee.route_set =~= caller.route_set.reverse());
}

/// Every request of the caller goes through the routes of the `Record-Route` headers of the
/// response in reverse: the last route of the last header first.
pub proof fn caller_follows_the_recorded_routes_in_reverse(
    invite: RequestView,
    response: ResponseView,
    contact: UriView,
    parts: Seq<Seq<Seq<char>>>,
    method: Method,
    seq: u32,
    branch: Seq<char>,
)
    requires
        uac_dialog(invite, response, contact) is Some,
        routes_by_header(response.headers, parts),
    ensures
        first_value(
            uac_dialog(invite, response, contact)->0.request(method, seq, branch).headers,
            HeaderKind::Route,
        ) == if parts.flatten().len() > 0 {
            Some(joined(parts.flatten().reverse(), ','))
        } else {
            None
        },
{
    lemma_recorded_routes(response.headers, parts);
    requests_follow_the_route_set(uac_dialog(invite, response, contact)->0, method, seq, branch);
}

proof fn lemma_party_text(p: PartyView)
    ensures
        p.text() == match p.display_name {
            Some(d) => d + " <"@ + p.uri + ">"@ + ";tag="@ + p.tag,
            None => "<"@ + p.uri + ">"@ + ";tag="@ + p.tag,
        },
{
    let params = p.addr().params;
    assert(params.drop_last() =~= Seq::<Seq<char>>::empty());
    assert(concatenated(params.drop_last()) =~= Seq::<char>::empty());
    assert(concatenated(params) =~= ";tag="@ + p.tag);
    assert(p.text() =~= match p.display_name {
        Some(d) => d + " <"@ + p.uri + ">"@ + ";tag="@ + p.tag,
        None => "<"@ + p.uri + ">"@ + ";tag="@ + p.tag,
    });
}

/// A name-address value with the given tag and no other parameter.
pub open spec fn tagged_text(a: NameAddrView, tag: Seq<char>) -> Seq<char> {
    match a.display_name {
        Some(d) => d + " <"@ + a.uri + ">"@ + ";tag="@ + tag,
        None => "<"@ + a.uri + ">"@ + ";tag="@ + tag,
    }
}

/// The requests of the callee go to the caller: to the contact of the INVITE, `To` its `From`, with
/// its `Call-ID`, `From` its `To` with the tag of the callee. The first of them has the number 1.
pub proof fn callee_requests_go_to_the_caller(
    invite: RequestView,
    local_tag: Seq<char>,
    contact: UriView,
    method: Method,
    branch: Seq<char>,
)
    requires
        uas_dialog(invite, local_tag, contact) is Some,
    ensures
        ({
            let d = uas_dialog(invite, local_tag, contact)->0;
            let r = d.request(method, (d.local_seq + 1) as u32, branch);
            let caller = message_from(invite.headers)->0;
            &&& r.method == method
            &&& first_value(invite.headers, HeaderKind::Contact) matches Some(v) && contact_uri_of(v)
                == Some(r.uri)
            &&& caller.tag matches Some(tag) && first_value(r.headers, HeaderKind::To) == Some(
                tagged_text(caller, tag),
            )
            &&& message_to(invite.headers) matches Some(callee) && first_value(
                r.headers,
                HeaderKind::From,
            ) == Some(tagged_text(callee, local_tag))
            &&& first_value(r.headers, HeaderKind::CallId) == first_value(
                invite.headers,
                HeaderKind::CallId,
            )
            &&& message_cseq(r.headers) == Some((1u32, method))
            &&& d.confirmed
        }),
{
    let d = uas_dialog(invite, local_tag, contact)->0;
    requests_carry_the_dialog(d, method, 1, branch);
    lemma_party_text(d.local);
    lemma_party_text(d.remote);
}

/// The requests of the caller go to the callee: to the contact of the response, `To` its `To`, with
/// the `Call-ID` and the `From` of the INVITE. The first of them has the number after that of the
/// INVITE. The dialog is confirmed when the response is final.
pub proof fn caller_requests_go_to_the_callee(
    invite: RequestView,
    response: ResponseView,
    contact: UriView,
    method: Method,
    branch: Seq<char>,
)
    requires
        uac_dialog(invite, response, contact) is Some,
        message_cseq(invite.headers) matches Some((seq, _)) && seq < u32::MAX,
    ensures
        ({
            let d = uac_dialog(invite, response, contact)->0;
            let r = d.request(method, (d.local_seq + 1) as u32, branch);
            let caller = message_from(invite.headers)->0;
            let callee = message_to(response.headers)->0;
            let (seq, _) = message_cseq(invite.headers)->0;
            &&& r.method == method
            &&& first_value(response.headers, HeaderKind::Contact) matches Some(v)
                && contact_uri_of(v) == Some(r.uri)
            &&& caller.tag matches Some(tag) && first_value(r.headers, HeaderKind::From) == Some(
                tagged_text(caller, tag),
            )
            &&& callee.tag matches Some(tag) && first_value(r.headers, HeaderKind::To) == Some(
                tagged_text(callee, tag),
            )
            &&& first_value(r.headers, HeaderKind::CallId) == first_value(
                invite.headers,
                HeaderKind::CallId,
            )
            &&& message_cseq(r.headers) == Some(((seq + 1) as u32, method))
            &&& d.confirmed <==> response.status.code >= 200
        }),
{
    let d = uac_dialog(invite, response, contact)->0;
    requests_carry_the_dialog(d, method, (d.local_seq + 1) as u32, branch);
    lemma_party_text(d.local);
    lemma_party_text(d.remote);
}

/// What every request in a dialog carries: both ends, the Call-ID, the given number and method, the
/// contact of this side, its `Via` with the given branch, seventy hops, and no body.
pub proof fn requests_carry_the_dialog(
    dialog: DialogView,
    method: Method,
    seq: u32,
    branch: Seq<char>,
)
    ensures
        ({
            let r = dialog.request(method, seq, branch);
            let h = r.headers;
            &&& r.method == method
            &&& r.uri == dialog.remote_target
            &&& r.version == Version::V2
            &&& r.body.len() == 0
            &&& first_value(h, HeaderKind::Via) == Some(
                "SIP/2.0/"@ + dialog.local_contact.via_transport() + " "@
                    + dialog.local_contact.host_port + ";rport;branch="@ + branch,
            )
            &&& first_value(h, HeaderKind::MaxForwards) == Some("70"@)
            &&& first_value(h, HeaderKind::From) == Some(dialog.local.text())
            &&& first_value(h, HeaderKind::To) == Some(dialog.remote.text())
            &&& first_value(h, HeaderKind::CallId) == Some(dialog.call_id)
            &&& message_cseq(h) == Some((seq, method))
            &&& first_value(h, HeaderKind::Contact) == Some(
                "<"@ + dialog.local_contact.text + ">"@,
            )
            &&& first_value(h, HeaderKind::ContentLength) == Some("0"@)
        }),
{
    let h = dialog.request(method, seq, branch).headers;
    let k: int = if dialog.route_set.len() > 0 {
        7
    } else {
        6
    };
    lemma_first_value(h, HeaderKind::Via, 0);
    lemma_first_value(h, HeaderKind::MaxForwards, 1);
    lemma_first_value(h, HeaderKind::From, 2);
    lemma_first_value(h, HeaderKind::To, 3);
    lemma_first_value(h, HeaderKind::CallId, 4);
    lemma_first_value(h, HeaderKind::CSeq, 5);
    lemma_first_value(h, HeaderKind::Contact, k);
    lemma_first_value(h, HeaderKind::ContentLength, k + 1);
    cseq_reads_back(seq, method);
}

/// A request that was filled carries the body and its length, and each header of the request and of
/// those added, the former before the latter; its start line stays.
pub proof fn filled_request_carries_its_body(
    r: RequestView,
    extra: Seq<HeaderView>,
    body: Seq<u8>,
    kind: HeaderKind,
)
    requires
        kind != HeaderKind::ContentLength,
    ensures
        ({
            let f = filled(r, extra, body);
            &&& f.method == r.method
            &&& f.uri == r.uri
            &&& f.version == r.version
            &&& f.body == body
            &&& first_value(f.headers, HeaderKind::ContentLength) == Some(decimal(body.len()))
            &&& first_value(f.headers, kind) == first_value(r.headers + extra, kind)
        }),
{
    let all = r.headers + extra;
    let kept = without_kind(all, HeaderKind::ContentLength);
    let length = HeaderView::known(HeaderKind::ContentLength, decimal(body.len()));
    crate::message::lemma_without_kind_gone(all, HeaderKind::ContentLength);
    lemma_first_value_push(kept, length, HeaderKind::ContentLength);
    lemma_without_kind_keeps(all, HeaderKind::ContentLength, kind);
    lemma_first_value_push(kept, length, kind);
}

/// A request of the peer belongs to the dialog whose own tag it has in `To` and whose remote tag it
/// has in `From`, under the same `Call-ID`; a request without either tag belongs to none. The callee
/// knows the dialog by its own tag and that of the `From` of the INVITE, the caller by the tag of its
/// `From` and that of the `To` of the response.
pub proof fn dialogs_are_found_by_their_tags(
    d: DialogView,
    r: RequestView,
    invite: RequestView,
    response: ResponseView,
    local_tag: Seq<char>,
    contact: UriView,
)
    ensures
        (message_to(r.headers) matches Some(to) && to.tag == Some(d.local.tag)) && (message_from(
            r.headers,
        ) matches Some(from) && from.tag == Some(d.remote.tag)) && first_value(
            r.headers,
            HeaderKind::CallId,
        ) == Some(d.call_id) ==> request_dialog(r) == Some(d.id()),
        (message_to(r.headers) matches Some(to) && to.tag is None) ==> request_dialog(r) is None,
        (message_from(r.headers) matches Some(from) && from.tag is None) ==> request_dialog(
            r,
        ) is None,
        uas_dialog(invite, local_tag, contact) matches Some(u) ==> {
            &&& u.id().local_tag == local_tag
            &&& message_from(invite.headers)->0.tag == Some(u.id().remote_tag)
            &&& first_value(invite.headers, HeaderKind::CallId) == Some(u.id().call_id)
        },
        uac_dialog(invite, response, contact) matches Some(u) ==> {
            &&& message_from(invite.headers)->0.tag == Some(u.id().local_tag)
            &&& message_to(response.headers)->0.tag == Some(u.id().remote_tag)
            &&& first_value(invite.headers, HeaderKind::CallId) == Some(u.id().call_id)
        },
{
}

} // verus!
