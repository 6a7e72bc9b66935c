//! RFC 3261 transaction layer.
//!
//! A SIP transaction is a short-lived state machine between the transaction user and the
//! transport. Each machine maps an input event (a received message, a fired timer, a response
//! that the user wants to send) to a list of [`TxAction`]s that the caller performs. No machine
//! touches a socket or a clock.

pub mod client_invite;
pub mod client_non_invite;
pub mod server_invite;
pub mod server_non_invite;

use self::client_invite::{ClientInvite, ClientInviteView};
use self::client_non_invite::{ClientNonInvite, ClientNonInviteView};
use self::server_invite::{ServerInvite, ServerInviteView};
use self::server_non_invite::{ServerNonInvite, ServerNonInviteView};
use crate::account::Transport;
use crate::headers::{headers_via, host_port_text, top_via, via_settled, via_text, ViaView};
use crate::message::{
    cseq_header, cseq_text, first_value, header_views, headers_cseq, message_cseq, push_header,
    Header, HeaderKind, HeaderView, MessageView, Method, Request, RequestView, Response,
    ResponseView, SipMessage,
};
use crate::table::TableKey;
use crate::text::{
    hex, hex16, lemma_hex, lemma_hex16, lemma_hex_pair, push_hex, push_hex16, same_str,
};
use crate::time::{millis, seconds, Duration, MAX_NANOS};
use std::collections::hash_map::RandomState;
use std::hash::BuildHasher;
use vstd::prelude::*;
use vstd::string::*;

verus! {

/// RFC 3261 magic cookie that prefixes every `branch` parameter made here.
pub const MAGIC_COOKIE: &'static str = "z9hG4bK";

/// Whether the transport delivers reliably (TCP, TLS) or may drop and reorder (UDP).
#[derive(Clone, Copy, Debug, PartialEq, Eq, Structural)]
pub enum Reliability {
    /// TCP or TLS: no retransmissions, soak timers fire immediately.
    Reliable,
    /// UDP: retransmissions, and a soak after the final response.
    Unreliable,
}

impl Reliability {
    /// Whether the transport delivers reliably.
    pub fn is_reliable(self) -> (res: bool)
        ensures
            res == (self == Reliability::Reliable),
    {
        matches!(self, Reliability::Reliable)
    }

    /// The reliability of a transport.
    pub open spec fn of(transport: Transport) -> Self {
        if transport == Transport::Udp {
            Reliability::Unreliable
        } else {
            Reliability::Reliable
        }
    }
}

impl From<Transport> for Reliability {
    fn from(transport: Transport) -> (res: Self) {
        match transport {
            Transport::Udp => Reliability::Unreliable,
            Transport::Tcp => Reliability::Reliable,
            Transport::Tls => Reliability::Reliable,
        }
    }
}

impl vstd::std_specs::convert::FromSpecImpl<Transport> for Reliability {
    open spec fn obeys_from_spec() -> bool {
        true
    }

    open spec fn from_spec(transport: Transport) -> Self {
        Reliability::of(transport)
    }
}

/// The base timer values from which every transaction timer is derived.
#[derive(Clone, Copy, Debug, PartialEq, Eq, Structural)]
pub struct Timers {
    /// Round-trip time estimate. Seeds the retransmit timers and, 64 times over, the timeouts.
    pub t1: Duration,
    /// Maximum retransmit interval.
    pub t2: Duration,
    /// Maximum time a message lingers in the network.
    pub t4: Duration,
}

impl Default for Timers {
    fn default() -> (res: Self)
        ensures
            res.t1 == millis(500),
            res.t2 == seconds(4),
            res.t4 == seconds(5),
            res.wf(),
    {
        Timers {
            t1: Duration::from_millis(500),
            t2: Duration::from_secs(4),
            t4: Duration::from_secs(5),
        }
    }
}

impl Timers {
    /// Whether every derived timer is a span of time.
    pub open spec fn wf(self) -> bool {
        &&& self.t1.nanos * 64 <= MAX_NANOS
        &&& self.t2.nanos * 2 <= MAX_NANOS
        &&& self.t4.wf()
    }

    /// The soak timer of the given length: nothing on a reliable transport.
    pub open spec fn soak(rel: Reliability, unreliable: Duration) -> Duration {
        if rel == Reliability::Reliable {
            Duration { nanos: 0 }
        } else {
            unreliable
        }
    }

    /// Whether every derived timer is a span of time.
    pub fn fits(&self) -> (res: bool)
        ensures
            res == self.wf(),
    {
        self.t1.nanos <= MAX_NANOS / 64 && self.t2.nanos <= MAX_NANOS / 2 && self.t4.nanos
            <= MAX_NANOS
    }

    /// Timers B, F and H, the overall transaction timeout: 64 times T1.
    pub fn timeout(&self) -> (res: Duration)
        requires
            self.wf(),
        ensures
            res == self.t1.times(64),
    {
        self.t1.multiplied(64)
    }

    /// Timer D, the wait of a client INVITE for repeated final responses: 32 seconds.
    pub fn d(&self, rel: Reliability) -> (res: Duration)
        ensures
            res == Timers::soak(rel, seconds(32)),
    {
        if rel.is_reliable() {
            Duration { nanos: 0 }
        } else {
            Duration::from_secs(32)
        }
    }

    /// Timer I, the wait of a server INVITE for repeated ACKs: T4.
    pub fn i(&self, rel: Reliability) -> (res: Duration)
        ensures
            res == Timers::soak(rel, self.t4),
    {
        if rel.is_reliable() {
            Duration { nanos: 0 }
        } else {
            self.t4
        }
    }

    /// Timer J, the wait of a server non-INVITE for repeated requests: 64 times T1.
    pub fn j(&self, rel: Reliability) -> (res: Duration)
        requires
            self.wf(),
        ensures
            res == Timers::soak(rel, self.t1.times(64)),
    {
        if rel.is_reliable() {
            Duration { nanos: 0 }
        } else {
            self.timeout()
        }
    }

    /// Timer K, the wait of a client non-INVITE for repeated final responses: T4.
    pub fn k(&self, rel: Reliability) -> (res: Duration)
        ensures
            res == Timers::soak(rel, self.t4),
    {
        if rel.is_reliable() {
            Duration { nanos: 0 }
        } else {
            self.t4
        }
    }
}

/// A transaction timer, by its letter in RFC 3261.
#[derive(Clone, Copy, Debug, PartialEq, Eq, Hash, Structural)]
pub enum TimerId {
    /// Client INVITE request retransmit (unreliable only).
    A,
    /// Client INVITE transaction timeout.
    B,
    /// Client INVITE Completed soak.
    D,
    /// Client non-INVITE request retransmit (unreliable only).
    E,
    /// Client non-INVITE transaction timeout.
    F,
    /// Server INVITE final-response retransmit (unreliable only).
    G,
    /// Server INVITE wait-for-ACK timeout.
    H,
    /// Server INVITE Confirmed soak.
    I,
    /// Server non-INVITE Completed soak.
    J,
    /// Client non-INVITE Completed soak.
    K,
}

/// One unit of work a transaction asks its caller to perform.
#[derive(Clone, Debug, PartialEq, Eq)]
pub enum TxAction {
    /// Put this message on the wire.
    Send(SipMessage),
    /// Arm a timer; if already running, reschedule it to fire `after` from now.
    StartTimer {
        /// The timer.
        id: TimerId,
        /// When it fires.
        after: Duration,
    },
    /// Cancel a running timer.
    StopTimer(TimerId),
    /// Deliver a received response up to the transaction user.
    DeliverResponse(Response),
    /// Deliver a received request up to the transaction user.
    DeliverRequest(Request),
    /// No final response arrived before the timeout timer fired.
    TimedOut,
    /// The transaction is over; the caller may drop it.
    Terminated,
}

/// A unit of work, its messages as views.
#[verifier::ext_equal]
pub enum ActionView {
    Send(MessageView),
    StartTimer { id: TimerId, after: Duration },
    StopTimer(TimerId),
    DeliverResponse(ResponseView),
    DeliverRequest(RequestView),
    TimedOut,
    Terminated,
}

impl View for TxAction {
    type V = ActionView;

    open spec fn view(&self) -> ActionView {
        match self {
            TxAction::Send(m) => ActionView::Send(m@),
            TxAction::StartTimer { id, after } => ActionView::StartTimer { id: *id, after: *after },
            TxAction::StopTimer(id) => ActionView::StopTimer(*id),
            TxAction::DeliverResponse(r) => ActionView::DeliverResponse(r@),
            TxAction::DeliverRequest(r) => ActionView::DeliverRequest(r@),
            TxAction::TimedOut => ActionView::TimedOut,
            TxAction::Terminated => ActionView::Terminated,
        }
    }
}

/// The units of work as views.
pub open spec fn action_views(a: Seq<TxAction>) -> Seq<ActionView> {
    a.map_values(|x: TxAction| x@)
}

/// Identifies the transaction a message belongs to: the branch and sent-by of the top `Via`,
/// and the method. ACK counts as INVITE, so that the ACK of a refusal reaches its INVITE.
#[derive(Clone, Debug, PartialEq, Eq)]
pub struct TransactionKey {
    /// The branch of the top `Via`.
    pub branch: String,
    /// Host and port of the top `Via`.
    pub sent_by: String,
    /// The method.
    pub method: Method,
}

/// A transaction key, its texts as characters.
pub struct KeyView {
    pub branch: Seq<char>,
    pub sent_by: Seq<char>,
    pub method: Method,
}

impl View for TransactionKey {
    type V = KeyView;

    open spec fn view(&self) -> KeyView {
        KeyView { branch: self.branch@, sent_by: self.sent_by@, method: self.method }
    }
}

/// The method by which transactions are matched: ACK counts as INVITE.
pub open spec fn normal(method: Method) -> Method {
    if method == Method::Ack {
        Method::Invite
    } else {
        method
    }
}

/// The key of a message with the given top `Via`.
pub open spec fn key_of(via: Option<ViaView>, method: Method) -> Option<KeyView> {
    match via {
        Some(v) => match v.branch {
            Some(branch) => Some(KeyView { branch, sent_by: v.sent_by, method: normal(method) }),
            None => None,
        },
        None => None,
    }
}

/// The key of a request.
pub open spec fn request_key(r: RequestView) -> Option<KeyView> {
    key_of(top_via(r.headers), r.method)
}

/// The key of a response; the method comes from its `CSeq`.
pub open spec fn response_key(r: ResponseView) -> Option<KeyView> {
    match message_cseq(r.headers) {
        Some((_, method)) => key_of(top_via(r.headers), method),
        None => None,
    }
}

fn normalize(method: Method) -> (res: Method)
    ensures
        res == normal(method),
{
    match method {
        Method::Ack => Method::Invite,
        other => other,
    }
}

impl TransactionKey {
    /// The key of an inbound or outbound request. The branch and sent-by that were written into
    /// its `Via` are those of the key.
    pub fn from_request(req: &Request) -> (res: Option<Self>)
        ensures
            match res {
                Some(k) => request_key(req@) == Some(k@),
                None => request_key(req@) is None,
            },
            forall|transport: Seq<char>, host: Seq<char>, port: Option<u16>, branch: Seq<char>|
                #[trigger] via_settled(transport, host, port, branch) && first_value(
                    req@.headers,
                    HeaderKind::Via,
                ) == Some(via_text(transport, host_port_text(host, port), branch)) ==> (res
                    matches Some(k) && k@ == (KeyView {
                    branch,
                    sent_by: host_port_text(host, port),
                    method: normal(req.method),
                })),
    {
        TransactionKey::build(&req.headers, req.method)
    }

    /// The key of a response.
    pub fn from_response(resp: &Response) -> (res: Option<Self>)
        ensures
            match res {
                Some(k) => response_key(resp@) == Some(k@),
                None => response_key(resp@) is None,
            },
    {
        match headers_cseq(&resp.headers) {
            Some((_, method)) => TransactionKey::build(&resp.headers, method),
            None => None,
        }
    }

    fn build(headers: &Vec<Header>, method: Method) -> (res: Option<Self>)
        ensures
            match res {
                Some(k) => key_of(top_via(header_views(headers@)), method) == Some(k@),
                None => key_of(top_via(header_views(headers@)), method) is None,
            },
            forall|transport: Seq<char>, host: Seq<char>, port: Option<u16>, branch: Seq<char>|
                #[trigger] via_settled(transport, host, port, branch) && first_value(
                    header_views(headers@),
                    HeaderKind::Via,
                ) == Some(via_text(transport, host_port_text(host, port), branch)) ==> (res
                    matches Some(k) && k@ == (KeyView {
                    branch,
                    sent_by: host_port_text(host, port),
                    method: normal(method),
                })),
    {
        match headers_via(headers) {
            Some(v) => match v.branch {
                Some(branch) => Some(
                    TransactionKey { branch, sent_by: v.sent_by, method: normalize(method) },
                ),
                None => None,
            },
            None => None,
        }
    }

    /// The key of the INVITE that a CANCEL with this key targets: the same branch and sent-by.
    pub fn invite_target(&self) -> (res: TransactionKey)
        ensures
            res@ == (KeyView { method: Method::Invite, ..self@ }),
    {
        TransactionKey {
            branch: self.branch.clone(),
            sent_by: self.sent_by.clone(),
            method: Method::Invite,
        }
    }

    /// A copy of the key.
    pub fn copy(&self) -> (res: Self)
        ensures
            res@ == self@,
    {
        TransactionKey {
            branch: self.branch.clone(),
            sent_by: self.sent_by.clone(),
            method: self.method,
        }
    }

    /// Whether two keys are the same.
    pub fn same(&self, other: &TransactionKey) -> (res: bool)
        ensures
            res == (self@ == other@),
    {
        self.method == other.method && same_str(self.branch.as_str(), other.branch.as_str())
            && same_str(self.sent_by.as_str(), other.sent_by.as_str())
    }
}

/// Calls `RandomState::new` of `std`: hash keys that are chosen at random, so nothing is claimed of
/// them.
#[verifier::external_body]
fn random_keys() -> (res: RandomState) {
    RandomState::new()
}

/// Calls `hash_one` of a `RandomState` of `std`. The keys are random, so nothing is claimed of the
/// number.
#[verifier::external_body]
fn hash_with(keys: &RandomState, n: u64) -> (res: u64) {
    keys.hash_one(n)
}

/// Counts the tokens that a process has made, so that no two of them are made from the same
/// number.
#[derive(Debug)]
pub struct TokenCounter {
    next: u64,
}

impl TokenCounter {
    /// How many tokens have been made, up to wrapping.
    pub closed spec fn made(self) -> u64 {
        self.next
    }

    /// A counter at zero.
    pub fn new() -> (res: Self)
        ensures
            res.made() == 0,
    {
        TokenCounter { next: 0 }
    }

    /// The number for the next token, and a number seeded at random.
    pub fn draw(&mut self) -> (res: (u64, u64))
        ensures
            res.0 == old(self).made(),
            final(self).made() == old(self).made().wrapping_add(1),
    {
        let n: u64 = self.next;
        self.next = n.wrapping_add(1);
        (n, hash_with(&random_keys(), n))
    }
}

/// The branch made from a count and a random number.
pub open spec fn branch_text(n: u64, seed: u64) -> Seq<char> {
    "z9hG4bK"@ + hex(n as nat) + hex16(seed)
}

/// The branch made from a count and a random number: the magic cookie and both in hexadecimal,
/// the random number in sixteen digits, so that the count can be told from it.
pub fn branch_from(n: u64, seed: u64) -> (res: String)
    ensures
        res@ == branch_text(n, seed),
{
    let mut out = String::from_str("z9hG4bK");
    push_hex(&mut out, n);
    push_hex16(&mut out, seed);
    out
}

/// Makes a `Via` branch that carries the magic cookie.
pub fn gen_branch(tokens: &mut TokenCounter) -> (res: String)
    ensures
        exists|seed: u64| res@ == branch_text(old(tokens).made(), seed),
        final(tokens).made() == old(tokens).made().wrapping_add(1),
{
    let (n, seed) = tokens.draw();
    let res = branch_from(n, seed);
    assert(res@ == branch_text(n, seed));
    res
}

/// The dialog tag made from a count and a random number.
pub open spec fn tag_text(n: u64, seed: u64) -> Seq<char> {
    "wk"@ + hex(n as nat) + hex16(seed)
}

/// The dialog tag made from a count and a random number.
pub fn tag_from(n: u64, seed: u64) -> (res: String)
    ensures
        res@ == tag_text(n, seed),
{
    let mut out = String::from_str("wk");
    push_hex(&mut out, n);
    push_hex16(&mut out, seed);
    out
}

/// Makes a dialog tag, a token like a branch but without the cookie.
pub fn gen_tag(tokens: &mut TokenCounter) -> (res: String)
    ensures
        exists|seed: u64| res@ == tag_text(old(tokens).made(), seed),
        final(tokens).made() == old(tokens).made().wrapping_add(1),
{
    let (n, seed) = tokens.draw();
    let res = tag_from(n, seed);
    assert(res@ == tag_text(n, seed));
    res
}

/// Branches made from different counts differ, whatever the random numbers; so do tags.
pub proof fn tokens_are_unique(n1: u64, s1: u64, n2: u64, s2: u64)
    requires
        n1 != n2,
    ensures
        branch_text(n1, s1) != branch_text(n2, s2),
        tag_text(n1, s1) != tag_text(n2, s2),
{
    let x = hex(n1 as nat) + hex16(s1);
    let y = hex(n2 as nat) + hex16(s2);
    if branch_text(n1, s1) == branch_text(n2, s2) {
        let k = "z9hG4bK"@.len() as int;
        assert(branch_text(n1, s1).skip(k) == x);
        assert(branch_text(n2, s2).skip(k) == y);
        lemma_hex_pair(n1, s1, n2, s2);
    }
    if tag_text(n1, s1) == tag_text(n2, s2) {
        let k = "wk"@.len() as int;
        assert(tag_text(n1, s1).skip(k) == x);
        assert(tag_text(n2, s2).skip(k) == y);
        lemma_hex_pair(n1, s1, n2, s2);
    }
}

proof fn lemma_branch_chars(n: u64, seed: u64)
    ensures
        forall|i: int| 0 <= i < branch_text(n, seed).len() ==> #[trigger] branch_text(n, seed)[i] != '=',
{
    let b = branch_text(n, seed);
    let head = hex(n as nat);
    lemma_hex(n as nat);
    lemma_hex16(seed);
    reveal_strlit("z9hG4bK");
    assert forall|i: int| 0 <= i < b.len() implies #[trigger] b[i] != '=' by {
        if 7 <= i < 7 + head.len() {
            assert(b[i] == head[i - 7]);
        } else if i >= 7 + head.len() {
            assert(b[i] == hex16(seed)[i - 7 - head.len()]);
        }
    }
}

/// Requests whose branches were made from different counts have different `Via` values, whatever
/// their transports and addresses: no two requests of a process share a branch.
pub proof fn requests_never_share_a_via(
    transport1: Seq<char>,
    sent_by1: Seq<char>,
    n1: u64,
    s1: u64,
    transport2: Seq<char>,
    sent_by2: Seq<char>,
    n2: u64,
    s2: u64,
)
    requires
        n1 != n2,
    ensures
        via_text(transport1, sent_by1, branch_text(n1, s1)) != via_text(
            transport2,
            sent_by2,
            branch_text(n2, s2),
        ),
{
    let b1 = branch_text(n1, s1);
    let b2 = branch_text(n2, s2);
    let v1 = via_text(transport1, sent_by1, b1);
    let v2 = via_text(transport2, sent_by2, b2);
    if v1 == v2 {
        tokens_are_unique(n1, s1, n2, s2);
        lemma_branch_chars(n1, s1);
        lemma_branch_chars(n2, s2);
        reveal_strlit(";rport;branch=");
        let p1 = v1.len() - b1.len();
        let p2 = v2.len() - b2.len();
        assert(v1[p1 - 1] == '=');
        assert(v2[p2 - 1] == '=');
        assert(v1.skip(p1) =~= b1);
        assert(v2.skip(p2) =~= b2);
        if p1 < p2 {
            assert(v1[p2 - 1] == b1[p2 - 1 - p1]);
        } else if p2 < p1 {
            assert(v2[p1 - 1] == b2[p1 - 1 - p2]);
        }
    }
}

/// Every branch made here starts with the magic cookie.
pub proof fn branches_carry_the_cookie(n: u64, seed: u64)
    ensures
        crate::text::starts_with(branch_text(n, seed), MAGIC_COOKIE@),
{
    assert(branch_text(n, seed) == "z9hG4bK"@ + (hex(n as nat) + hex16(seed)));
    crate::text::lemma_is_prefix("z9hG4bK"@, hex(n as nat) + hex16(seed));
}

/// Builds the `Via` value of a request over UDP, with a bare `rport` parameter: behind NAT, the
/// server then answers to where the request came from.
pub fn via_value(sent_by: &str, branch: &str) -> (res: String)
    ensures
        res@ == via_text("UDP"@, sent_by@, branch@),
{
    via_over("UDP", sent_by, branch)
}

fn via_over(transport: &str, sent_by: &str, branch: &str) -> (res: String)
    ensures
        res@ == via_text(transport@, sent_by@, branch@),
{
    let mut out = String::from_str("SIP/2.0/");
    out.append(transport);
    out.append(" ");
    out.append(sent_by);
    out.append(";rport;branch=");
    out.append(branch);
    out
}

/// The `Via` header of a request.
pub fn via_header(transport: &str, sent_by: &str, branch: &str) -> (res: Header)
    ensures
        res@ == HeaderView::known(HeaderKind::Via, via_text(transport@, sent_by@, branch@)),
{
    Header::new(HeaderKind::Via, via_over(transport, sent_by, branch).as_str())
}

/// The headers of the given kind.
pub open spec fn only_kind(h: Seq<HeaderView>, kind: HeaderKind) -> Seq<HeaderView>
    decreases h.len(),
{
    if h.len() == 0 {
        Seq::empty()
    } else if h[0].kind == kind {
        seq![h[0]] + only_kind(h.skip(1), kind)
    } else {
        only_kind(h.skip(1), kind)
    }
}

/// The ACK for a refusal, part of the client INVITE transaction: the `Via`, `From`, `Call-ID`,
/// URI, version, sequence number and routes of the INVITE, the `To` of the response, and no
/// body. `None` when either message lacks one of these headers.
pub open spec fn refusal_ack(invite: RequestView, response: ResponseView) -> Option<RequestView> {
    match (
        first_value(invite.headers, HeaderKind::Via),
        first_value(invite.headers, HeaderKind::From),
        first_value(response.headers, HeaderKind::To),
        first_value(invite.headers, HeaderKind::CallId),
        message_cseq(invite.headers),
    ) {
        (Some(via), Some(from), Some(to), Some(call_id), Some((seq, _))) => Some(
            RequestView {
                method: Method::Ack,
                uri: invite.uri,
                version: invite.version,
                headers: seq![
                    HeaderView::known(HeaderKind::Via, via),
                    HeaderView::known(HeaderKind::From, from),
                    HeaderView::known(HeaderKind::To, to),
                    HeaderView::known(HeaderKind::CallId, call_id),
                    HeaderView::known(HeaderKind::CSeq, cseq_text(seq, Method::Ack)),
                ] + only_kind(invite.headers, HeaderKind::Route) + seq![
                    HeaderView::known(HeaderKind::MaxForwards, "70"@),
                    HeaderView::known(HeaderKind::ContentLength, "0"@),
                ],
                body: Seq::empty(),
            },
        ),
        _ => None,
    }
}

/// Appends the headers of the given kind that `from` holds.
pub fn copy_kind(out: &mut Vec<Header>, from: &Vec<Header>, kind: HeaderKind)
    ensures
        header_views(final(out)@) == header_views(old(out)@) + only_kind(
            header_views(from@),
            kind,
        ),
{
    let ghost all = header_views(from@);
    let ghost start = header_views(out@);
    let mut i: usize = 0;
    assert(all.skip(0) =~= all);
    while i < from.len()
        invariant
            i <= from@.len(),
            all == header_views(from@),
            header_views(out@) + only_kind(all.skip(i as int), kind) == start + only_kind(all, kind),
        decreases from.len() - i,
    {
        let ghost before = header_views(out@);
        let ghost rest = all.skip(i as int);
        assert(rest[0] == from@[i as int]@);
        assert(rest.skip(1) =~= all.skip(i as int + 1));
        if from[i].kind == kind {
            push_header(out, from[i].copy());
            assert(header_views(out@) + only_kind(rest.skip(1), kind) =~= before + only_kind(
                rest,
                kind,
            ));
        }
        i += 1;
    }
    assert(header_views(out@) + only_kind(all.skip(i as int), kind) =~= header_views(out@));
}

/// Builds the ACK for a non-2xx final response.
pub fn build_non_2xx_ack(invite: &Request, response: &Response) -> (res: Option<Request>)
    ensures
        match res {
            Some(ack) => refusal_ack(invite@, response@) == Some(ack@),
            None => refusal_ack(invite@, response@) is None,
        },
{
    let via = match invite.header(HeaderKind::Via) {
        Some(v) => v,
        None => return None,
    };
    let from = match invite.header(HeaderKind::From) {
        Some(v) => v,
        None => return None,
    };
    let to = match response.header(HeaderKind::To) {
        Some(v) => v,
        None => return None,
    };
    let call_id = match invite.header(HeaderKind::CallId) {
        Some(v) => v,
        None => return None,
    };
    let seq: u32 = match headers_cseq(&invite.headers) {
        Some((seq, _)) => seq,
        None => return None,
    };
    let mut headers: Vec<Header> = Vec::new();
    push_header(&mut headers, Header::new(HeaderKind::Via, via));
    push_header(&mut headers, Header::new(HeaderKind::From, from));
    push_header(&mut headers, Header::new(HeaderKind::To, to));
    push_header(&mut headers, Header::new(HeaderKind::CallId, call_id));
    push_header(&mut headers, cseq_header(seq, Method::Ack));
    let ghost head = header_views(headers@);
    copy_kind(&mut headers, &invite.headers, HeaderKind::Route);
    push_header(&mut headers, Header::new(HeaderKind::MaxForwards, "70"));
    push_header(&mut headers, Header::new(HeaderKind::ContentLength, "0"));
    let ack = Request {
        method: Method::Ack,
        uri: invite.uri.clone(),
        version: invite.version,
        headers,
        body: Vec::new(),
    };
    assert(refusal_ack(invite@, response@) is Some);
    assert(ack@ =~= refusal_ack(invite@, response@)->0);
    Some(ack)
}

/// A live transaction of any kind.
#[derive(Debug)]
pub enum Transaction {
    /// An outgoing INVITE.
    ClientInvite(ClientInvite),
    /// Another outgoing request.
    ClientNonInvite(ClientNonInvite),
    /// An inbound INVITE.
    ServerInvite(ServerInvite),
    /// Another inbound request.
    ServerNonInvite(ServerNonInvite),
}

/// What a transaction knows.
#[verifier::ext_equal]
pub enum TransactionView {
    ClientInvite(ClientInviteView),
    ClientNonInvite(ClientNonInviteView),
    ServerInvite(ServerInviteView),
    ServerNonInvite(ServerNonInviteView),
}

impl View for Transaction {
    type V = TransactionView;

    open spec fn view(&self) -> TransactionView {
        match self {
            Transaction::ClientInvite(t) => TransactionView::ClientInvite(t@),
            Transaction::ClientNonInvite(t) => TransactionView::ClientNonInvite(t@),
            Transaction::ServerInvite(t) => TransactionView::ServerInvite(t@),
            Transaction::ServerNonInvite(t) => TransactionView::ServerNonInvite(t@),
        }
    }
}

impl TransactionView {
    /// The timers of the transaction are in range.
    pub open spec fn wf(self) -> bool {
        match self {
            TransactionView::ClientInvite(t) => true,
            TransactionView::ClientNonInvite(t) => t.wf(),
            TransactionView::ServerInvite(t) => t.wf(),
            TransactionView::ServerNonInvite(t) => t.timers.wf(),
        }
    }

    /// Whether the timer can fire without its interval growing out of range.
    pub open spec fn may_fire(self, id: TimerId) -> bool {
        match self {
            TransactionView::ClientInvite(t) => t.may_fire(id),
            _ => true,
        }
    }

    /// The transaction after a response. Only client transactions react.
    pub open spec fn after_response(self, resp: ResponseView) -> (Self, Seq<ActionView>) {
        match self {
            TransactionView::ClientInvite(t) => (
                TransactionView::ClientInvite(t.after_response(resp).0),
                t.after_response(resp).1,
            ),
            TransactionView::ClientNonInvite(t) => (
                TransactionView::ClientNonInvite(t.after_response(resp).0),
                t.after_response(resp).1,
            ),
            _ => (self, Seq::empty()),
        }
    }

    /// The transaction after a request. Only server transactions react.
    pub open spec fn after_request(self, method: Method) -> (Self, Seq<ActionView>) {
        match self {
            TransactionView::ServerInvite(t) => (
                TransactionView::ServerInvite(t.after_request(method).0),
                t.after_request(method).1,
            ),
            TransactionView::ServerNonInvite(t) => (self, t.on_repeat()),
            _ => (self, Seq::empty()),
        }
    }

    /// The transaction after a fired timer.
    pub open spec fn after_timer(self, id: TimerId) -> (Self, Seq<ActionView>) {
        match self {
            TransactionView::ClientInvite(t) => (
                TransactionView::ClientInvite(t.after_timer(id).0),
                t.after_timer(id).1,
            ),
            TransactionView::ClientNonInvite(t) => (
                TransactionView::ClientNonInvite(t.after_timer(id).0),
                t.after_timer(id).1,
            ),
            TransactionView::ServerInvite(t) => (
                TransactionView::ServerInvite(t.after_timer(id).0),
                t.after_timer(id).1,
            ),
            TransactionView::ServerNonInvite(t) => (
                TransactionView::ServerNonInvite(t.after_timer(id).0),
                t.after_timer(id).1,
            ),
        }
    }

    /// The transaction after the user sent a response. Only server transactions react.
    pub open spec fn after_send(self, resp: ResponseView) -> (Self, Seq<ActionView>) {
        match self {
            TransactionView::ServerInvite(t) => (
                TransactionView::ServerInvite(t.after_send(resp).0),
                t.after_send(resp).1,
            ),
            TransactionView::ServerNonInvite(t) => (
                TransactionView::ServerNonInvite(t.after_send(resp).0),
                t.after_send(resp).1,
            ),
            _ => (self, Seq::empty()),
        }
    }
}

impl Transaction {
    /// Feeds a received response. Only client transactions react.
    pub fn on_response(&mut self, resp: &Response) -> (res: Vec<TxAction>)
        ensures
            (final(self)@, action_views(res@)) == old(self)@.after_response(resp@),
            old(self)@.wf() ==> final(self)@.wf(),
    {
        match self {
            Transaction::ClientInvite(t) => t.on_response(resp),
            Transaction::ClientNonInvite(t) => t.on_response(resp),
            Transaction::ServerInvite(_) | Transaction::ServerNonInvite(_) => no_actions(),
        }
    }

    /// Feeds a received request: a retransmission, or the ACK of a refusal. Only server
    /// transactions react.
    pub fn on_request(&mut self, req: &Request) -> (res: Vec<TxAction>)
        ensures
            (final(self)@, action_views(res@)) == old(self)@.after_request(req.method),
            old(self)@.wf() ==> final(self)@.wf(),
    {
        match self {
            Transaction::ServerInvite(t) => t.on_request(req),
            Transaction::ServerNonInvite(t) => t.on_request(req),
            Transaction::ClientInvite(_) | Transaction::ClientNonInvite(_) => no_actions(),
        }
    }

    /// Feeds a fired timer.
    pub fn on_timer(&mut self, id: TimerId) -> (res: Vec<TxAction>)
        requires
            old(self)@.wf(),
            old(self)@.may_fire(id),
        ensures
            (final(self)@, action_views(res@)) == old(self)@.after_timer(id),
            final(self)@.wf(),
    {
        match self {
            Transaction::ClientInvite(t) => t.on_timer(id),
            Transaction::ClientNonInvite(t) => t.on_timer(id),
            Transaction::ServerInvite(t) => t.on_timer(id),
            Transaction::ServerNonInvite(t) => t.on_timer(id),
        }
    }

    /// Sends a response of the transaction user. Only server transactions react.
    pub fn send_response(&mut self, resp: Response) -> (res: Vec<TxAction>)
        requires
            old(self)@.wf(),
        ensures
            (final(self)@, action_views(res@)) == old(self)@.after_send(resp@),
            final(self)@.wf(),
    {
        match self {
            Transaction::ServerInvite(t) => t.send_response(resp),
            Transaction::ServerNonInvite(t) => t.send_response(resp),
            Transaction::ClientInvite(_) | Transaction::ClientNonInvite(_) => no_actions(),
        }
    }

    /// Whether the timer can fire without its interval growing out of range.
    pub fn can_fire(&self, id: TimerId) -> (res: bool)
        ensures
            res == self@.may_fire(id),
    {
        match self {
            Transaction::ClientInvite(t) => t.can_fire(id),
            _ => true,
        }
    }
}

fn no_actions() -> (res: Vec<TxAction>)
    ensures
        action_views(res@) == Seq::<ActionView>::empty(),
{
    let res: Vec<TxAction> = Vec::new();
    assert(action_views(res@) =~= Seq::<ActionView>::empty());
    res
}

impl TableKey for TransactionKey {
    fn same_key(&self, other: &Self) -> (res: bool) {
        self.same(other)
    }
}

impl View for TimerId {
    type V = TimerId;

    open spec fn view(&self) -> TimerId {
        *self
    }
}

impl TableKey for TimerId {
    fn same_key(&self, other: &Self) -> (res: bool) {
        *self == *other
    }
}

/// A response that echoes the top `Via` and `CSeq` of a request belongs to the request's
/// transaction, provided the `CSeq` names the method of the request.
pub proof fn response_matches_its_request(req: RequestView, resp: ResponseView)
    requires
        first_value(req.headers, HeaderKind::Via) == first_value(resp.headers, HeaderKind::Via),
        first_value(req.headers, HeaderKind::CSeq) == first_value(resp.headers, HeaderKind::CSeq),
        message_cseq(req.headers) matches Some((_, method)) && method == req.method,
    ensures
        response_key(resp) == request_key(req),
{
}

/// The ACK of a refusal belongs to the transaction of its INVITE.
pub proof fn refusal_ack_matches_its_invite(invite: RequestView, response: ResponseView)
    requires
        invite.method == Method::Invite,
        refusal_ack(invite, response) is Some,
    ensures
        request_key(refusal_ack(invite, response)->0) == request_key(invite),
{
    let ack = refusal_ack(invite, response)->0;
    assert(ack.headers[0].kind == HeaderKind::Via);
}

/// A CANCEL shares its branch with the INVITE it cancels and is a transaction of its own; the
/// INVITE is found from the key of the CANCEL.
pub proof fn cancel_targets_its_invite(invite: RequestView, cancel: RequestView)
    requires
        invite.method == Method::Invite,
        cancel.method == Method::Cancel,
        first_value(invite.headers, HeaderKind::Via) == first_value(
            cancel.headers,
            HeaderKind::Via,
        ),
        request_key(invite) is Some,
    ensures
        request_key(cancel) is Some,
        request_key(cancel) != request_key(invite),
        (KeyView { method: Method::Invite, ..request_key(cancel)->0 }) == request_key(invite)->0,
{
}

/// The ACK of a refusal goes where the INVITE went, with its `Via`, `From`, `Call-ID`, number and
/// routes, and to the `To` of the refusal, without a body.
pub proof fn refusal_ack_repeats_the_invite(invite: RequestView, response: ResponseView)
    requires
        refusal_ack(invite, response) is Some,
    ensures
        ({
            let ack = refusal_ack(invite, response)->0;
            let h = ack.headers;
            &&& ack.method == Method::Ack
            &&& ack.uri == invite.uri
            &&& ack.version == invite.version
            &&& ack.body.len() == 0
            &&& first_value(h, HeaderKind::Via) == first_value(invite.headers, HeaderKind::Via)
            &&& first_value(h, HeaderKind::From) == first_value(invite.headers, HeaderKind::From)
            &&& first_value(h, HeaderKind::CallId) == first_value(
                invite.headers,
                HeaderKind::CallId,
            )
            &&& first_value(h, HeaderKind::To) == first_value(response.headers, HeaderKind::To)
            &&& message_cseq(invite.headers) matches Some((seq, _)) && message_cseq(h) == Some(
                (seq, Method::Ack),
            )
            &&& only_kind(h, HeaderKind::Route) == only_kind(invite.headers, HeaderKind::Route)
            &&& first_value(h, HeaderKind::MaxForwards) == Some("70"@)
            &&& first_value(h, HeaderKind::ContentLength) == Some("0"@)
        }),
{
    let ack = refusal_ack(invite, response)->0;
    let h = ack.headers;
    let (seq, _) = message_cseq(invite.headers)->0;
    crate::message::lemma_first_value(h, HeaderKind::Via, 0);
    crate::message::lemma_first_value(h, HeaderKind::From, 1);
    crate::message::lemma_first_value(h, HeaderKind::To, 2);
    crate::message::lemma_first_value(h, HeaderKind::CallId, 3);
    crate::message::lemma_first_value(h, HeaderKind::CSeq, 4);
    crate::message::cseq_reads_back(seq, Method::Ack);
    let head = h.take(5);
    let routes = only_kind(invite.headers, HeaderKind::Route);
    let tail = h.skip(5 + routes.len() as int);
    assert(h =~= head + routes + tail);
    lemma_only_concat(head + routes, tail, HeaderKind::Route);
    lemma_only_concat(head, routes, HeaderKind::Route);
    lemma_only_none(head, HeaderKind::Route);
    lemma_only_none(tail, HeaderKind::Route);
    lemma_only_again(invite.headers, HeaderKind::Route);
    assert(only_kind(h, HeaderKind::Route) =~= routes);
    let n = 5 + routes.len() as int;
    lemma_only_kinds(invite.headers, HeaderKind::Route);
    assert forall|j: int| 5 <= j < n implies (#[trigger] h[j]).kind == HeaderKind::Route by {
        assert(h[j] == routes[j - 5]);
    }
    crate::message::lemma_first_value(h, HeaderKind::MaxForwards, n);
    crate::message::lemma_first_value(h, HeaderKind::ContentLength, n + 1);
}

proof fn lemma_only_kinds(h: Seq<HeaderView>, kind: HeaderKind)
    ensures
        forall|i: int|
            0 <= i < only_kind(h, kind).len() ==> (#[trigger] only_kind(h, kind)[i]).kind == kind,
    decreases h.len(),
{
    if h.len() > 0 {
        lemma_only_kinds(h.skip(1), kind);
        let rest = only_kind(h.skip(1), kind);
        if h[0].kind == kind {
            assert forall|i: int| 0 <= i < only_kind(h, kind).len() implies (#[trigger] only_kind(
                h,
                kind,
            )[i]).kind == kind by {
                if i > 0 {
                    assert(only_kind(h, kind)[i] == rest[i - 1]);
                }
            }
        }
    }
}

proof fn lemma_only_concat(a: Seq<HeaderView>, b: Seq<HeaderView>, kind: HeaderKind)
    ensures
        only_kind(a + b, kind) == only_kind(a, kind) + only_kind(b, kind),
    decreases a.len(),
{
    if a.len() == 0 {
        assert(a + b =~= b);
        assert(only_kind(a, kind) + only_kind(b, kind) =~= only_kind(b, kind));
    } else {
        lemma_only_concat(a.skip(1), b, kind);
        assert((a + b).skip(1) =~= a.skip(1) + b);
        assert((a + b)[0] == a[0]);
        assert(only_kind(a + b, kind) =~= only_kind(a, kind) + only_kind(b, kind));
    }
}

proof fn lemma_only_none(h: Seq<HeaderView>, kind: HeaderKind)
    requires
        forall|i: int| 0 <= i < h.len() ==> (#[trigger] h[i]).kind != kind,
    ensures
        only_kind(h, kind) == Seq::<HeaderView>::empty(),
    decreases h.len(),
{
    if h.len() > 0 {
        assert(h[0].kind != kind);
        assert forall|i: int| 0 <= i < h.skip(1).len() implies (#[trigger] h.skip(1)[i]).kind
            != kind by {
            assert(h[i + 1].kind != kind);
        }
        lemma_only_none(h.skip(1), kind);
    }
}

proof fn lemma_only_again(h: Seq<HeaderView>, kind: HeaderKind)
    ensures
        only_kind(only_kind(h, kind), kind) == only_kind(h, kind),
    decreases h.len(),
{
    if h.len() > 0 {
        lemma_only_again(h.skip(1), kind);
        if h[0].kind == kind {
            let all = only_kind(h, kind);
            assert(all.skip(1) =~= only_kind(h.skip(1), kind));
            assert(all[0] == h[0]);
        }
    }
}

/// The transaction of a message is told by the branch and the sent-by of its top `Via` and by its
/// method, that of its `CSeq` for a response; an ACK belongs to its INVITE. A message without such a
/// `Via` or branch belongs to none.
pub proof fn transactions_are_told_by_the_top_via(req: RequestView, resp: ResponseView)
    ensures
        request_key(req) is Some <==> (top_via(req.headers) matches Some(via) && via.branch is Some),
        request_key(req) matches Some(key) ==> {
            let via = top_via(req.headers)->0;
            &&& via.branch == Some(key.branch)
            &&& via.sent_by == key.sent_by
            &&& key.method == if req.method == Method::Ack {
                Method::Invite
            } else {
                req.method
            }
        },
        response_key(resp) is Some <==> (message_cseq(resp.headers) is Some && (top_via(resp.headers)
            matches Some(via) && via.branch is Some)),
        response_key(resp) matches Some(key) ==> {
            let via = top_via(resp.headers)->0;
            let (_, method) = message_cseq(resp.headers)->0;
            &&& via.branch == Some(key.branch)
            &&& via.sent_by == key.sent_by
            &&& key.method == if method == Method::Ack {
                Method::Invite
            } else {
                method
            }
        },
{
}

/// Only UDP is unreliable; a soak lasts as long as it was given there, and not at all elsewhere.
pub proof fn only_udp_soaks(transport: Transport, soak: Duration)
    ensures
        Timers::soak(Reliability::of(transport), soak).nanos == if transport == Transport::Udp {
            soak.nanos
        } else {
            0
        },
{
}

} // verus!
