//! SIP messages as plain values: methods, status codes, headers, requests and responses, and
//! their form on the wire. Reading bytes is left to `rsip`, whose result is taken over here.

use crate::headers::uri_of;
use crate::text::{
    chars_of, decimal, find, is_digit, is_space, lemma_decimal, lemma_find, lemma_find_is,
    lemma_unsigned_decimal, lowered, number_u32, position, push_decimal, same, starts_with,
    string_of, strings, to_lower, trim, trim_start, trimmed,
};
use rsip::headers::{ToTypedHeader, UntypedHeader};
use std::convert::TryFrom;
use vstd::prelude::*;
use vstd::string::*;
use vstd::utf8::*;

verus! {

/// A SIP request method.
#[derive(Debug, Clone, Copy, PartialEq, Eq, Structural)]
pub enum Method {
    Ack,
    Bye,
    Cancel,
    Info,
    Invite,
    Message,
    Notify,
    Options,
    PRack,
    Publish,
    Refer,
    Register,
    Subscribe,
    Update,
}

impl Method {
    /// The method in capitals, as it goes on the wire.
    pub open spec fn text(self) -> Seq<char> {
        match self {
            Method::Ack => "ACK"@,
            Method::Bye => "BYE"@,
            Method::Cancel => "CANCEL"@,
            Method::Info => "INFO"@,
            Method::Invite => "INVITE"@,
            Method::Message => "MESSAGE"@,
            Method::Notify => "NOTIFY"@,
            Method::Options => "OPTIONS"@,
            Method::PRack => "PRACK"@,
            Method::Publish => "PUBLISH"@,
            Method::Refer => "REFER"@,
            Method::Register => "REGISTER"@,
            Method::Subscribe => "SUBSCRIBE"@,
            Method::Update => "UPDATE"@,
        }
    }

    /// The method in capitals, as it goes on the wire.
    pub fn name(&self) -> (res: &'static str)
        ensures
            res@ == self.text(),
    {
        match self {
            Method::Ack => "ACK",
            Method::Bye => "BYE",
            Method::Cancel => "CANCEL",
            Method::Info => "INFO",
            Method::Invite => "INVITE",
            Method::Message => "MESSAGE",
            Method::Notify => "NOTIFY",
            Method::Options => "OPTIONS",
            Method::PRack => "PRACK",
            Method::Publish => "PUBLISH",
            Method::Refer => "REFER",
            Method::Register => "REGISTER",
            Method::Subscribe => "SUBSCRIBE",
            Method::Update => "UPDATE",
        }
    }

    /// The method that `s` names, whatever the case and the whitespace around it.
    pub open spec fn named(s: Seq<char>) -> Option<Method> {
        let t = lowered(trimmed(s));
        if t == "ack"@ {
            Some(Method::Ack)
        } else if t == "bye"@ {
            Some(Method::Bye)
        } else if t == "cancel"@ {
            Some(Method::Cancel)
        } else if t == "info"@ {
            Some(Method::Info)
        } else if t == "invite"@ {
            Some(Method::Invite)
        } else if t == "message"@ {
            Some(Method::Message)
        } else if t == "notify"@ {
            Some(Method::Notify)
        } else if t == "options"@ {
            Some(Method::Options)
        } else if t == "prack"@ {
            Some(Method::PRack)
        } else if t == "publish"@ {
            Some(Method::Publish)
        } else if t == "refer"@ {
            Some(Method::Refer)
        } else if t == "register"@ {
            Some(Method::Register)
        } else if t == "subscribe"@ {
            Some(Method::Subscribe)
        } else if t == "update"@ {
            Some(Method::Update)
        } else {
            None
        }
    }

    /// The method that `s` names, whatever the case and the whitespace around it.
    pub fn parse(s: &str) -> (res: Option<Method>)
        ensures
            res == Method::named(s@),
    {
        let c = chars_of(s);
        let t = to_lower(trim(&c));
        if same(&t, &chars_of("ack")) {
            Some(Method::Ack)
        } else if same(&t, &chars_of("bye")) {
            Some(Method::Bye)
        } else if same(&t, &chars_of("cancel")) {
            Some(Method::Cancel)
        } else if same(&t, &chars_of("info")) {
            Some(Method::Info)
        } else if same(&t, &chars_of("invite")) {
            Some(Method::Invite)
        } else if same(&t, &chars_of("message")) {
            Some(Method::Message)
        } else if same(&t, &chars_of("notify")) {
            Some(Method::Notify)
        } else if same(&t, &chars_of("options")) {
            Some(Method::Options)
        } else if same(&t, &chars_of("prack")) {
            Some(Method::PRack)
        } else if same(&t, &chars_of("publish")) {
            Some(Method::Publish)
        } else if same(&t, &chars_of("refer")) {
            Some(Method::Refer)
        } else if same(&t, &chars_of("register")) {
            Some(Method::Register)
        } else if same(&t, &chars_of("subscribe")) {
            Some(Method::Subscribe)
        } else if same(&t, &chars_of("update")) {
            Some(Method::Update)
        } else {
            None
        }
    }
}

/// A SIP protocol version.
#[derive(Debug, Clone, Copy, PartialEq, Eq, Structural)]
pub enum Version {
    /// SIP/1.0.
    V1,
    /// SIP/2.0.
    V2,
}

impl Version {
    /// The version as it goes on the wire.
    pub open spec fn text(self) -> Seq<char> {
        match self {
            Version::V1 => "SIP/1.0"@,
            Version::V2 => "SIP/2.0"@,
        }
    }

    /// The version as it goes on the wire.
    pub fn name(&self) -> (res: &'static str)
        ensures
            res@ == self.text(),
    {
        match self {
            Version::V1 => "SIP/1.0",
            Version::V2 => "SIP/2.0",
        }
    }
}

/// What `rsip::StatusCode::from` and its `Display` give for a code: the code and its reason.
pub uninterp spec fn status_text(code: u16) -> Seq<char>;

/// Calls `rsip::StatusCode::from` on `code` and writes the result out. The text depends on the
/// code alone.
#[verifier::external_body]
fn status_line(code: u16) -> (res: String)
    ensures
        res@ == status_text(code),
{
    rsip::StatusCode::from(code).to_string()
}

/// The status of a response: its code, and code and reason as text.
#[derive(Debug, Clone, PartialEq, Eq)]
pub struct StatusCode {
    /// The three-digit code.
    pub code: u16,
    /// Code and reason, as they go on the wire.
    pub line: String,
}

/// A status, its text as characters.
pub struct StatusView {
    pub code: u16,
    pub line: Seq<char>,
}

impl View for StatusCode {
    type V = StatusView;

    open spec fn view(&self) -> StatusView {
        StatusView { code: self.code, line: self.line@ }
    }
}

/// The status with the given code and its usual reason.
pub open spec fn status_of(code: u16) -> StatusView {
    StatusView { code, line: status_text(code) }
}

impl StatusCode {
    /// The status with the given code and its usual reason.
    pub fn from_code(code: u16) -> (res: Self)
        ensures
            res@ == status_of(code),
    {
        StatusCode { code, line: status_line(code) }
    }

    /// A copy of the status.
    pub fn copy(&self) -> (res: Self)
        ensures
            res@ == self@,
    {
        StatusCode { code: self.code, line: self.line.clone() }
    }
}

/// The headers that are told apart by name.
#[derive(Debug, Clone, Copy, PartialEq, Eq, Structural)]
pub enum HeaderKind {
    /// Path that a response takes back.
    Via,
    /// Initiator of the request.
    From,
    /// Recipient of the request.
    To,
    /// Identity of the call.
    CallId,
    /// Sequence number and method.
    CSeq,
    /// Where to reach the sender directly.
    Contact,
    /// Hops left.
    MaxForwards,
    /// Length of the body.
    ContentLength,
    /// Media type of the body.
    ContentType,
    /// Lifetime in seconds.
    Expires,
    /// Proxies that a request goes through.
    Route,
    /// Proxies that stay on the path.
    RecordRoute,
    /// Supported option tags.
    Supported,
    /// Required option tags.
    Require,
    /// Remark on a response.
    Warning,
    /// Challenge of a server.
    WwwAuthenticate,
    /// Challenge of a proxy.
    ProxyAuthenticate,
    /// Answer to a server's challenge.
    Authorization,
    /// Answer to a proxy's challenge.
    ProxyAuthorization,
    /// Any other header.
    Other,
}

impl HeaderKind {
    /// The name of the header; empty for other headers.
    pub open spec fn text(self) -> Seq<char> {
        match self {
            HeaderKind::Via => "Via"@,
            HeaderKind::From => "From"@,
            HeaderKind::To => "To"@,
            HeaderKind::CallId => "Call-ID"@,
            HeaderKind::CSeq => "CSeq"@,
            HeaderKind::Contact => "Contact"@,
            HeaderKind::MaxForwards => "Max-Forwards"@,
            HeaderKind::ContentLength => "Content-Length"@,
            HeaderKind::ContentType => "Content-Type"@,
            HeaderKind::Expires => "Expires"@,
            HeaderKind::Route => "Route"@,
            HeaderKind::RecordRoute => "Record-Route"@,
            HeaderKind::Supported => "Supported"@,
            HeaderKind::Require => "Require"@,
            HeaderKind::Warning => "Warning"@,
            HeaderKind::WwwAuthenticate => "WWW-Authenticate"@,
            HeaderKind::ProxyAuthenticate => "Proxy-Authenticate"@,
            HeaderKind::Authorization => "Authorization"@,
            HeaderKind::ProxyAuthorization => "Proxy-Authorization"@,
            HeaderKind::Other => ""@,
        }
    }

    /// The name of the header; empty for other headers.
    pub fn name(&self) -> (res: &'static str)
        ensures
            res@ == self.text(),
    {
        match self {
            HeaderKind::Via => "Via",
            HeaderKind::From => "From",
            HeaderKind::To => "To",
            HeaderKind::CallId => "Call-ID",
            HeaderKind::CSeq => "CSeq",
            HeaderKind::Contact => "Contact",
            HeaderKind::MaxForwards => "Max-Forwards",
            HeaderKind::ContentLength => "Content-Length",
            HeaderKind::ContentType => "Content-Type",
            HeaderKind::Expires => "Expires",
            HeaderKind::Route => "Route",
            HeaderKind::RecordRoute => "Record-Route",
            HeaderKind::Supported => "Supported",
            HeaderKind::Require => "Require",
            HeaderKind::Warning => "Warning",
            HeaderKind::WwwAuthenticate => "WWW-Authenticate",
            HeaderKind::ProxyAuthenticate => "Proxy-Authenticate",
            HeaderKind::Authorization => "Authorization",
            HeaderKind::ProxyAuthorization => "Proxy-Authorization",
            HeaderKind::Other => "",
        }
    }

    /// The kind of the header with the name `s`, whatever its case.
    pub open spec fn named(s: Seq<char>) -> HeaderKind {
        let t = lowered(s);
        if t == "via"@ {
            HeaderKind::Via
        } else if t == "from"@ {
            HeaderKind::From
        } else if t == "to"@ {
            HeaderKind::To
        } else if t == "call-id"@ {
            HeaderKind::CallId
        } else if t == "cseq"@ {
            HeaderKind::CSeq
        } else if t == "contact"@ {
            HeaderKind::Contact
        } else if t == "max-forwards"@ {
            HeaderKind::MaxForwards
        } else if t == "content-length"@ {
            HeaderKind::ContentLength
        } else if t == "content-type"@ {
            HeaderKind::ContentType
        } else if t == "expires"@ {
            HeaderKind::Expires
        } else if t == "route"@ {
            HeaderKind::Route
        } else if t == "record-route"@ {
            HeaderKind::RecordRoute
        } else if t == "supported"@ {
            HeaderKind::Supported
        } else if t == "require"@ {
            HeaderKind::Require
        } else if t == "warning"@ {
            HeaderKind::Warning
        } else if t == "www-authenticate"@ {
            HeaderKind::WwwAuthenticate
        } else if t == "proxy-authenticate"@ {
            HeaderKind::ProxyAuthenticate
        } else if t == "authorization"@ {
            HeaderKind::Authorization
        } else if t == "proxy-authorization"@ {
            HeaderKind::ProxyAuthorization
        } else {
            HeaderKind::Other
        }
    }

    /// The kind of the header with the name `s`, whatever its case.
    pub fn parse(s: &[char]) -> (res: HeaderKind)
        ensures
            res == HeaderKind::named(s@),
    {
        let t = to_lower(s);
        if same(&t, &chars_of("via")) {
            HeaderKind::Via
        } else if same(&t, &chars_of("from")) {
            HeaderKind::From
        } else if same(&t, &chars_of("to")) {
            HeaderKind::To
        } else if same(&t, &chars_of("call-id")) {
            HeaderKind::CallId
        } else if same(&t, &chars_of("cseq")) {
            HeaderKind::CSeq
        } else if same(&t, &chars_of("contact")) {
            HeaderKind::Contact
        } else if same(&t, &chars_of("max-forwards")) {
            HeaderKind::MaxForwards
        } else if same(&t, &chars_of("content-length")) {
            HeaderKind::ContentLength
        } else if same(&t, &chars_of("content-type")) {
            HeaderKind::ContentType
        } else if same(&t, &chars_of("expires")) {
            HeaderKind::Expires
        } else if same(&t, &chars_of("route")) {
            HeaderKind::Route
        } else if same(&t, &chars_of("record-route")) {
            HeaderKind::RecordRoute
        } else if same(&t, &chars_of("supported")) {
            HeaderKind::Supported
        } else if same(&t, &chars_of("require")) {
            HeaderKind::Require
        } else if same(&t, &chars_of("warning")) {
            HeaderKind::Warning
        } else if same(&t, &chars_of("www-authenticate")) {
            HeaderKind::WwwAuthenticate
        } else if same(&t, &chars_of("proxy-authenticate")) {
            HeaderKind::ProxyAuthenticate
        } else if same(&t, &chars_of("authorization")) {
            HeaderKind::Authorization
        } else if same(&t, &chars_of("proxy-authorization")) {
            HeaderKind::ProxyAuthorization
        } else {
            HeaderKind::Other
        }
    }
}

/// One header of a message.
#[derive(Debug, Clone, PartialEq, Eq)]
pub struct Header {
    /// Which header it is.
    pub kind: HeaderKind,
    /// The name of a header that is not told apart; empty for the others.
    pub label: String,
    /// The value, as it stands after the colon.
    pub value: String,
}

/// A header, its texts as characters.
pub struct HeaderView {
    pub kind: HeaderKind,
    pub label: Seq<char>,
    pub value: Seq<char>,
}

impl View for Header {
    type V = HeaderView;

    open spec fn view(&self) -> HeaderView {
        HeaderView { kind: self.kind, label: self.label@, value: self.value@ }
    }
}

impl HeaderView {
    /// A header that is told apart by name.
    pub open spec fn known(kind: HeaderKind, value: Seq<char>) -> Self {
        HeaderView { kind, label: Seq::empty(), value }
    }

    /// A header with a name of its own.
    pub open spec fn other(name: Seq<char>, value: Seq<char>) -> Self {
        HeaderView { kind: HeaderKind::Other, label: name, value }
    }

    /// The name of the header.
    pub open spec fn name(self) -> Seq<char> {
        if self.kind == HeaderKind::Other {
            self.label
        } else {
            self.kind.text()
        }
    }
}

/// The headers as views.
pub open spec fn header_views(h: Seq<Header>) -> Seq<HeaderView> {
    h.map_values(|x: Header| x@)
}

impl Header {
    /// A header that is told apart by name.
    pub fn new(kind: HeaderKind, value: &str) -> (res: Self)
        ensures
            res@ == HeaderView::known(kind, value@),
    {
        Header { kind, label: String::new(), value: String::from_str(value) }
    }

    /// A header with a name of its own.
    pub fn other(name: &str, value: &str) -> (res: Self)
        ensures
            res@ == HeaderView::other(name@, value@),
    {
        Header {
            kind: HeaderKind::Other,
            label: String::from_str(name),
            value: String::from_str(value),
        }
    }

    /// A copy of the header.
    pub fn copy(&self) -> (res: Self)
        ensures
            res@ == self@,
    {
        Header { kind: self.kind, label: self.label.clone(), value: self.value.clone() }
    }

    /// The name of the header.
    pub fn name(&self) -> (res: &str)
        ensures
            res@ == self@.name(),
    {
        if self.kind == HeaderKind::Other {
            self.label.as_str()
        } else {
            self.kind.name()
        }
    }
}

/// The value of the first header of the given kind.
pub open spec fn first_value(h: Seq<HeaderView>, kind: HeaderKind) -> Option<Seq<char>>
    decreases h.len(),
{
    if h.len() == 0 {
        None
    } else if h[0].kind == kind {
        Some(h[0].value)
    } else {
        first_value(h.skip(1), kind)
    }
}

/// The value of the first header of the given kind.
pub fn header_value(h: &Vec<Header>, kind: HeaderKind) -> (res: Option<&str>)
    ensures
        match res {
            Some(v) => first_value(header_views(h@), kind) == Some(v@),
            None => first_value(header_views(h@), kind) is None,
        },
{
    let ghost all = header_views(h@);
    let mut i: usize = 0;
    assert(all.skip(0) == all);
    while i < h.len()
        invariant
            i <= h@.len(),
            all == header_views(h@),
            first_value(all.skip(i as int), kind) == first_value(all, kind),
        decreases h.len() - i,
    {
        assert(all.skip(i as int)[0] == h@[i as int]@);
        assert(all.skip(i as int).skip(1) == all.skip(i as int + 1));
        if h[i].kind == kind {
            return Some(h[i].value.as_str());
        }
        i += 1;
    }
    None
}

/// A copy of the headers.
pub fn copy_headers(h: &Vec<Header>) -> (res: Vec<Header>)
    ensures
        header_views(res@) == header_views(h@),
{
    let mut out: Vec<Header> = Vec::new();
    let mut i: usize = 0;
    while i < h.len()
        invariant
            i <= h@.len(),
            header_views(out@) == header_views(h@).take(i as int),
        decreases h.len() - i,
    {
        let ghost before = header_views(out@);
        let c = h[i].copy();
        out.push(c);
        assert(header_views(out@) == before.push(c@));
        i += 1;
        assert(header_views(out@) == header_views(h@).take(i as int));
    }
    assert(header_views(h@).take(i as int) == header_views(h@));
    out
}

/// Appends one header.
pub fn push_header(h: &mut Vec<Header>, header: Header)
    ensures
        header_views(final(h)@) == header_views(old(h)@).push(header@),
{
    h.push(header);
    assert(header_views(h@) == header_views(old(h)@).push(header@));
}

/// The headers that are not of the given kind.
pub open spec fn without_kind(h: Seq<HeaderView>, kind: HeaderKind) -> Seq<HeaderView>
    decreases h.len(),
{
    if h.len() == 0 {
        Seq::empty()
    } else {
        let init = without_kind(h.drop_last(), kind);
        if h.last().kind == kind {
            init
        } else {
            init.push(h.last())
        }
    }
}

/// Puts `header` in place of all headers of its kind, at the end.
pub fn replace_header(h: &mut Vec<Header>, header: Header)
    ensures
        header_views(final(h)@) == without_kind(header_views(old(h)@), header.kind).push(header@),
{
    let mut out: Vec<Header> = Vec::new();
    let ghost all = header_views(h@);
    let mut i: usize = 0;
    assert(all.take(0) == Seq::<HeaderView>::empty());
    assert(header_views(out@) == Seq::<HeaderView>::empty());
    while i < h.len()
        invariant
            i <= h@.len(),
            h@ == old(h)@,
            all == header_views(h@),
            header_views(out@) == without_kind(all.take(i as int), header.kind),
        decreases h.len() - i,
    {
        assert(all.take(i as int + 1).drop_last() == all.take(i as int));
        assert(all.take(i as int + 1).last() == h@[i as int]@);
        if h[i].kind != header.kind {
            push_header(&mut out, h[i].copy());
        }
        i += 1;
    }
    assert(all.take(i as int) == all);
    push_header(&mut out, header);
    *h = out;
}

/// A SIP request.
#[derive(Debug, Clone, PartialEq, Eq)]
pub struct Request {
    /// The method.
    pub method: Method,
    /// The request URI.
    pub uri: String,
    /// The protocol version.
    pub version: Version,
    /// The headers, in order.
    pub headers: Vec<Header>,
    /// The body.
    pub body: Vec<u8>,
}

/// A request, its texts as characters.
#[verifier::ext_equal]
pub struct RequestView {
    pub method: Method,
    pub uri: Seq<char>,
    pub version: Version,
    pub headers: Seq<HeaderView>,
    pub body: Seq<u8>,
}

impl View for Request {
    type V = RequestView;

    open spec fn view(&self) -> RequestView {
        RequestView {
            method: self.method,
            uri: self.uri@,
            version: self.version,
            headers: header_views(self.headers@),
            body: self.body@,
        }
    }
}

/// A copy of the bytes.
pub fn copy_bytes(b: &[u8]) -> (res: Vec<u8>)
    ensures
        res@ == b@,
{
    let mut out: Vec<u8> = Vec::new();
    out.extend_from_slice(b);
    assert(out@ == b@);
    out
}

impl Request {
    /// A copy of the request.
    pub fn copy(&self) -> (res: Self)
        ensures
            res@ == self@,
    {
        Request {
            method: self.method,
            uri: self.uri.clone(),
            version: self.version,
            headers: copy_headers(&self.headers),
            body: copy_bytes(&self.body),
        }
    }

    /// The value of the first header of the given kind.
    pub fn header(&self, kind: HeaderKind) -> (res: Option<&str>)
        ensures
            match res {
                Some(v) => first_value(self@.headers, kind) == Some(v@),
                None => first_value(self@.headers, kind) is None,
            },
    {
        header_value(&self.headers, kind)
    }
}

/// A SIP response.
#[derive(Debug, Clone, PartialEq, Eq)]
pub struct Response {
    /// The status.
    pub status_code: StatusCode,
    /// The protocol version.
    pub version: Version,
    /// The headers, in order.
    pub headers: Vec<Header>,
    /// The body.
    pub body: Vec<u8>,
}

/// A response, its texts as characters.
#[verifier::ext_equal]
pub struct ResponseView {
    pub status: StatusView,
    pub version: Version,
    pub headers: Seq<HeaderView>,
    pub body: Seq<u8>,
}

impl View for Response {
    type V = ResponseView;

    open spec fn view(&self) -> ResponseView {
        ResponseView {
            status: self.status_code@,
            version: self.version,
            headers: header_views(self.headers@),
            body: self.body@,
        }
    }
}

impl Response {
    /// A copy of the response.
    pub fn copy(&self) -> (res: Self)
        ensures
            res@ == self@,
    {
        Response {
            status_code: self.status_code.copy(),
            version: self.version,
            headers: copy_headers(&self.headers),
            body: copy_bytes(&self.body),
        }
    }

    /// The value of the first header of the given kind.
    pub fn header(&self, kind: HeaderKind) -> (res: Option<&str>)
        ensures
            match res {
                Some(v) => first_value(self@.headers, kind) == Some(v@),
                None => first_value(self@.headers, kind) is None,
            },
    {
        header_value(&self.headers, kind)
    }
}

/// A SIP message.
#[derive(Debug, Clone, PartialEq, Eq)]
pub enum SipMessage {
    /// A request.
    Request(Request),
    /// A response.
    Response(Response),
}

/// A message, its texts as characters.
#[verifier::ext_equal]
pub enum MessageView {
    Request(RequestView),
    Response(ResponseView),
}

impl View for SipMessage {
    type V = MessageView;

    open spec fn view(&self) -> MessageView {
        match self {
            SipMessage::Request(r) => MessageView::Request(r@),
            SipMessage::Response(r) => MessageView::Response(r@),
        }
    }
}

/// The headers as they go on the wire, each line ended by a carriage return and a line feed.
pub open spec fn headers_text(h: Seq<HeaderView>) -> Seq<char>
    decreases h.len(),
{
    if h.len() == 0 {
        Seq::empty()
    } else {
        headers_text(h.drop_last()) + h.last().name() + ": "@ + h.last().value + "\r\n"@
    }
}

fn push_headers(out: &mut String, h: &Vec<Header>)
    ensures
        final(out)@ == old(out)@ + headers_text(header_views(h@)),
{
    let ghost all = header_views(h@);
    let mut i: usize = 0;
    assert(all.take(0) == Seq::<HeaderView>::empty());
    assert(old(out)@ + Seq::<char>::empty() == old(out)@);
    while i < h.len()
        invariant
            i <= h@.len(),
            all == header_views(h@),
            out@ == old(out)@ + headers_text(all.take(i as int)),
        decreases h.len() - i,
    {
        out.append(h[i].name());
        out.append(": ");
        out.append(h[i].value.as_str());
        out.append("\r\n");
        proof {
            let next = all.take(i as int + 1);
            assert(next.drop_last() == all.take(i as int));
            assert(next.last() == h@[i as int]@);
            assert(out@ == old(out)@ + headers_text(next));
        }
        i += 1;
    }
    assert(all.take(i as int) == all);
}

/// What `String::from_utf8_lossy` makes of bytes.
pub uninterp spec fn lossy_text(bytes: Seq<u8>) -> Seq<char>;

/// Calls `String::from_utf8_lossy`: the text that valid UTF-8 encodes, and for other bytes a
/// text with replacement characters that depends on the bytes alone.
#[verifier::external_body]
fn lossy(bytes: &[u8]) -> (res: String)
    ensures
        res@ == lossy_text(bytes@),
        valid_utf8(bytes@) ==> res@ == decode_utf8(bytes@),
{
    String::from_utf8_lossy(bytes).into_owned()
}

impl MessageView {
    /// The message as text on the wire: start line, headers, an empty line, and the body.
    pub open spec fn text(self) -> Seq<char> {
        match self {
            MessageView::Request(r) => r.method.text() + " "@ + r.uri + " "@ + r.version.text()
                + "\r\n"@ + headers_text(r.headers) + "\r\n"@ + lossy_text(r.body),
            MessageView::Response(r) => r.version.text() + " "@ + r.status.line + "\r\n"@
                + headers_text(r.headers) + "\r\n"@ + lossy_text(r.body),
        }
    }
}

/// Serializes a SIP message to its bytes on the wire. A body that is not UTF-8 is written with
/// replacement characters.
pub fn serialize(msg: &SipMessage) -> (res: Vec<u8>)
    ensures
        res@ == encode_utf8(msg@.text()),
{
    let mut out = String::new();
    match msg {
        SipMessage::Request(r) => {
            out.append(r.method.name());
            out.append(" ");
            out.append(r.uri.as_str());
            out.append(" ");
            out.append(r.version.name());
            out.append("\r\n");
            push_headers(&mut out, &r.headers);
            out.append("\r\n");
            out.append(lossy(&r.body).as_str());
        },
        SipMessage::Response(r) => {
            out.append(r.version.name());
            out.append(" ");
            out.append(r.status_code.line.as_str());
            out.append("\r\n");
            push_headers(&mut out, &r.headers);
            out.append("\r\n");
            out.append(lossy(&r.body).as_str());
        },
    }
    assert(out@ == msg@.text());
    out.as_str().as_bytes_vec()
}

impl SipMessage {
    /// A copy of the message.
    pub fn copy(&self) -> (res: Self)
        ensures
            res@ == self@,
    {
        match self {
            SipMessage::Request(r) => SipMessage::Request(r.copy()),
            SipMessage::Response(r) => SipMessage::Response(r.copy()),
        }
    }
}

/// A message as `rsip` reads it, every part written out as text.
#[derive(Debug, Clone, PartialEq, Eq)]
pub enum RawMessage {
    /// A request.
    Request {
        /// The method.
        method: String,
        /// The request URI.
        uri: String,
        /// Whether the version is SIP/2.0.
        v2: bool,
        /// Header lines, `Name: value`.
        headers: Vec<String>,
        /// The body.
        body: Vec<u8>,
    },
    /// A response.
    Response {
        /// The status code.
        code: u16,
        /// Status code and reason.
        line: String,
        /// Whether the version is SIP/2.0.
        v2: bool,
        /// Header lines, `Name: value`.
        headers: Vec<String>,
        /// The body.
        body: Vec<u8>,
    },
}

/// A message as `rsip` reads it, its texts as characters.
pub enum RawView {
    Request { method: Seq<char>, uri: Seq<char>, v2: bool, headers: Seq<Seq<char>>, body: Seq<u8> },
    Response { code: u16, line: Seq<char>, v2: bool, headers: Seq<Seq<char>>, body: Seq<u8> },
}

impl View for RawMessage {
    type V = RawView;

    open spec fn view(&self) -> RawView {
        match self {
            RawMessage::Request { method, uri, v2, headers, body } => RawView::Request {
                method: method@,
                uri: uri@,
                v2: *v2,
                headers: strings(headers@),
                body: body@,
            },
            RawMessage::Response { code, line, v2, headers, body } => RawView::Response {
                code: *code,
                line: line@,
                v2: *v2,
                headers: strings(headers@),
                body: body@,
            },
        }
    }
}

/// Whether `c` may stand in the name of a header.
pub open spec fn is_token(c: char) -> bool {
    ||| 'a' as u32 <= c as u32 <= 'z' as u32
    ||| 'A' as u32 <= c as u32 <= 'Z' as u32
    ||| is_digit(c)
    ||| c == '-' || c == '.' || c == '!' || c == '%' || c == '*'
    ||| c == '_' || c == '+' || c == '`' || c == '\'' || c == '~'
}

/// Whether `s` stays on one line.
pub open spec fn one_line(s: Seq<char>) -> bool {
    forall|i: int| 0 <= i && i + 1 < s.len() ==> !(#[trigger] s[i] == '\r' && s[i + 1] == '\n')
}

/// The names of the headers that are not told apart here but that `rsip` spells its own way.
pub open spec fn spelled_names() -> Seq<Seq<char>> {
    seq![
        "Accept"@, "Accept-Encoding"@, "Accept-Language"@, "Alert-Info"@, "Allow"@,
        "Authentication-Info"@, "Call-Info"@, "Content-Disposition"@, "Content-Encoding"@,
        "Content-Language"@, "Date"@, "Error-Info"@, "Event"@, "In-Reply-To"@, "Mime-Version"@,
        "Min-Expires"@, "Organization"@, "Priority"@, "Proxy-Require"@, "Reply-To"@,
        "Retry-After"@, "Server"@, "Subject"@, "Timestamp"@, "Unsupported"@, "User-Agent"@,
    ]
}

/// Whether a header stays as it is on its way over the wire: its value is one line that does not
/// start with a blank, and a name of its own is a token in its usual spelling.
pub open spec fn header_settled(h: HeaderView) -> bool {
    &&& one_line(h.value)
    &&& h.value.len() > 0 ==> h.value[0] != ' ' && h.value[0] != '\t'
    &&& if h.kind == HeaderKind::Other {
        &&& h.label.len() > 0
        &&& forall|i: int| 0 <= i < h.label.len() ==> is_token(#[trigger] h.label[i])
        &&& HeaderKind::named(h.label) == HeaderKind::Other
        &&& forall|i: int|
            0 <= i < spelled_names().len() && lowered(h.label) == lowered(
                #[trigger] spelled_names()[i],
            ) ==> h.label == spelled_names()[i]
    } else {
        h.label.len() == 0
    }
}

/// Whether a request URI stays as it is on its way over the wire: a `sip:` or `sips:` URI without
/// blanks that reads as itself.
pub open spec fn uri_settled(uri: Seq<char>) -> bool {
    &&& starts_with(uri, "sip:"@) || starts_with(uri, "sips:"@)
    &&& forall|i: int|
        0 <= i < uri.len() ==> #[trigger] uri[i] != ' ' && uri[i] != '\r' && uri[i] != '\n'
    &&& uri_of(uri) matches Some(u) && u.text == uri
}

/// Whether a status stays as it is on its way over the wire: three digits, and the usual reason;
/// a code without one may have any reason on one line.
pub open spec fn status_settled(status: StatusView) -> bool {
    let digits = decimal(status.code as nat) + " "@;
    &&& 100 <= status.code <= 999
    &&& status.line == status_text(status.code) || {
        &&& status_text(status.code) == digits + "Other"@
        &&& starts_with(status.line, digits)
        &&& one_line(status.line)
    }
}

/// Whether a message stays as it is on its way over the wire: so do its parts, it has a header,
/// and its body is text.
pub open spec fn settled(m: MessageView) -> bool {
    match m {
        MessageView::Request(r) => {
            &&& uri_settled(r.uri)
            &&& r.headers.len() > 0
            &&& forall|i: int| 0 <= i < r.headers.len() ==> header_settled(#[trigger] r.headers[i])
            &&& valid_utf8(r.body)
        },
        MessageView::Response(r) => {
            &&& status_settled(r.status)
            &&& r.headers.len() > 0
            &&& forall|i: int| 0 <= i < r.headers.len() ==> header_settled(#[trigger] r.headers[i])
            &&& valid_utf8(r.body)
        },
    }
}

/// The lines of the headers.
pub open spec fn header_lines(h: Seq<HeaderView>) -> Seq<Seq<char>> {
    h.map_values(|x: HeaderView| x.name() + ": "@ + x.value)
}

/// A message with its parts written out.
pub open spec fn written_out(m: MessageView) -> RawView {
    match m {
        MessageView::Request(r) => RawView::Request {
            method: r.method.text(),
            uri: r.uri,
            v2: r.version == Version::V2,
            headers: header_lines(r.headers),
            body: r.body,
        },
        MessageView::Response(r) => RawView::Response {
            code: r.status.code,
            line: r.status.line,
            v2: r.version == Version::V2,
            headers: header_lines(r.headers),
            body: r.body,
        },
    }
}

/// Whether `res` is what was written: where the bytes are the text of a message that stays as it
/// is on its way over the wire, the parts of that message.
spec fn read_faithfully(bytes: Seq<u8>, res: Option<RawMessage>) -> bool {
    forall|m: MessageView| #[trigger]
        settled(m) && bytes == encode_utf8(m.text()) ==> (res matches Some(r) && r@ == written_out(
            m,
        ))
}

/// What `rsip::SipMessage::try_from` reads from bytes; `None` where it fails.
pub uninterp spec fn raw_message(bytes: Seq<u8>) -> Option<RawView>;

/// Calls `rsip::SipMessage::try_from` and writes out the parts of the message. The result
/// depends on the bytes alone. A message whose parts stay as they are is read back from its text:
/// `rsip` takes a start line apart at its spaces, the headers up to the first empty line at their
/// line ends and first colons, blanks after a colon left out, and what follows is the body.
#[verifier::external_body]
fn read_message(bytes: &[u8]) -> (res: Option<RawMessage>)
    ensures
        match res {
            Some(m) => raw_message(bytes@) == Some(m@),
            None => raw_message(bytes@) is None,
        },
        read_faithfully(bytes@, res),
{
    let lines = |h: &rsip::Headers| h.iter().map(|x| x.to_string()).collect();
    match rsip::SipMessage::try_from(bytes) {
        Ok(rsip::SipMessage::Request(r)) => Some(RawMessage::Request {
            method: r.method.to_string(), uri: r.uri.to_string(),
            v2: r.version == rsip::Version::V2, headers: lines(&r.headers), body: r.body,
        }),
        Ok(rsip::SipMessage::Response(r)) => Some(RawMessage::Response {
            code: r.status_code.code(), line: r.status_code.to_string(),
            v2: r.version == rsip::Version::V2, headers: lines(&r.headers), body: r.body,
        }),
        Err(_) => None,
    }
}

/// The header that the line `Name: value` stands for; a line without a colon is all name. One
/// space after the colon belongs to neither.
pub open spec fn header_of(line: Seq<char>) -> HeaderView {
    let n = find(line, ':') as int;
    let name = line.take(n);
    let value = if n + 1 < line.len() && line[n + 1] == ' ' {
        line.skip(n + 2)
    } else if n < line.len() {
        line.skip(n + 1)
    } else {
        Seq::empty()
    };
    let kind = HeaderKind::named(name);
    if kind == HeaderKind::Other {
        HeaderView::other(name, value)
    } else {
        HeaderView::known(kind, value)
    }
}

fn header_from_line(text: &str) -> (res: Header)
    ensures
        res@ == header_of(text@),
{
    let line = chars_of(text);
    let n: usize = position(&line, ':');
    let name = vstd::slice::slice_subrange(&line, 0, n);
    assert(name@ == line@.take(n as int));
    let from: usize = if n == line.len() {
        n
    } else if line.len() - n > 1 && line[n + 1] == ' ' {
        n + 2
    } else {
        n + 1
    };
    let value = vstd::slice::slice_subrange(&line, from, line.len());
    proof {
        lemma_find(line@, ':');
        assert(value@ == line@.skip(from as int));
        if n == line@.len() {
            assert(value@ == Seq::<char>::empty());
        }
    }
    let kind = HeaderKind::parse(name);
    if kind == HeaderKind::Other {
        Header { kind, label: string_of(name), value: string_of(value) }
    } else {
        let label = String::new();
        assert(label@ == Seq::<char>::empty());
        Header { kind, label, value: string_of(value) }
    }
}

/// The headers that the lines stand for.
pub open spec fn headers_of(lines: Seq<Seq<char>>) -> Seq<HeaderView> {
    lines.map_values(|l: Seq<char>| header_of(l))
}

fn headers_from_lines(lines: &Vec<String>) -> (res: Vec<Header>)
    ensures
        header_views(res@) == headers_of(strings(lines@)),
{
    let mut out: Vec<Header> = Vec::new();
    let mut i: usize = 0;
    while i < lines.len()
        invariant
            i <= lines@.len(),
            header_views(out@) == headers_of(strings(lines@)).take(i as int),
        decreases lines.len() - i,
    {
        push_header(&mut out, header_from_line(lines[i].as_str()));
        i += 1;
        assert(header_views(out@) == headers_of(strings(lines@)).take(i as int));
    }
    assert(headers_of(strings(lines@)).take(i as int) == headers_of(strings(lines@)));
    out
}

/// The version that the flag of a raw message stands for.
pub open spec fn version_of(v2: bool) -> Version {
    if v2 {
        Version::V2
    } else {
        Version::V1
    }
}

/// The message that a raw message stands for; `None` when its method is unknown.
pub open spec fn message_of(raw: RawView) -> Option<MessageView> {
    match raw {
        RawView::Request { method, uri, v2, headers, body } => match Method::named(method) {
            Some(m) => Some(
                MessageView::Request(
                    RequestView {
                        method: m,
                        uri,
                        version: version_of(v2),
                        headers: headers_of(headers),
                        body,
                    },
                ),
            ),
            None => None,
        },
        RawView::Response { code, line, v2, headers, body } => Some(
            MessageView::Response(
                ResponseView {
                    status: StatusView { code, line },
                    version: version_of(v2),
                    headers: headers_of(headers),
                    body,
                },
            ),
        ),
    }
}

/// Turns a raw message into a message; `None` when its method is unknown.
pub fn assemble(raw: RawMessage) -> (res: Option<SipMessage>)
    ensures
        match res {
            Some(m) => message_of(raw@) == Some(m@),
            None => message_of(raw@) is None,
        },
{
    match raw {
        RawMessage::Request { method, uri, v2, headers, body } => match Method::parse(
            method.as_str(),
        ) {
            Some(m) => Some(
                SipMessage::Request(
                    Request {
                        method: m,
                        uri,
                        version: if v2 {
                            Version::V2
                        } else {
                            Version::V1
                        },
                        headers: headers_from_lines(&headers),
                        body,
                    },
                ),
            ),
            None => None,
        },
        RawMessage::Response { code, line, v2, headers, body } => Some(
            SipMessage::Response(
                Response {
                    status_code: StatusCode { code, line },
                    version: if v2 {
                        Version::V2
                    } else {
                        Version::V1
                    },
                    headers: headers_from_lines(&headers),
                    body,
                },
            ),
        ),
    }
}

/// The message that bytes from the wire stand for.
pub open spec fn parsed(bytes: Seq<u8>) -> Option<MessageView> {
    match raw_message(bytes) {
        Some(raw) => message_of(raw),
        None => None,
    }
}

proof fn lemma_kind_named(kind: HeaderKind)
    requires
        kind != HeaderKind::Other,
    ensures
        HeaderKind::named(kind.text()) == kind,
        forall|i: int| 0 <= i < kind.text().len() ==> #[trigger] kind.text()[i] != ':',
{
    reveal_strlit("Via");
    reveal_strlit("via");
    reveal_strlit("From");
    reveal_strlit("from");
    reveal_strlit("To");
    reveal_strlit("to");
    reveal_strlit("Call-ID");
    reveal_strlit("call-id");
    reveal_strlit("CSeq");
    reveal_strlit("cseq");
    reveal_strlit("Contact");
    reveal_strlit("contact");
    reveal_strlit("Max-Forwards");
    reveal_strlit("max-forwards");
    reveal_strlit("Content-Length");
    reveal_strlit("content-length");
    reveal_strlit("Content-Type");
    reveal_strlit("content-type");
    reveal_strlit("Expires");
    reveal_strlit("expires");
    reveal_strlit("Route");
    reveal_strlit("route");
    reveal_strlit("Record-Route");
    reveal_strlit("record-route");
    reveal_strlit("Supported");
    reveal_strlit("supported");
    reveal_strlit("Require");
    reveal_strlit("require");
    reveal_strlit("Warning");
    reveal_strlit("warning");
    reveal_strlit("WWW-Authenticate");
    reveal_strlit("www-authenticate");
    reveal_strlit("Proxy-Authenticate");
    reveal_strlit("proxy-authenticate");
    reveal_strlit("Authorization");
    reveal_strlit("authorization");
    reveal_strlit("Proxy-Authorization");
    reveal_strlit("proxy-authorization");
    let l = lowered(kind.text());
    assert("from"@[0] == 'f');
    assert("call-id"@[0] == 'c');
    assert("call-id"@[1] == 'a');
    assert("cseq"@[0] == 'c');
    assert("contact"@[0] == 'c');
    assert("contact"@[1] == 'o');
    assert("max-forwards"@[0] == 'm');
    assert("content-type"@[0] == 'c');
    assert("expires"@[0] == 'e');
    assert("record-route"@[0] == 'r');
    assert("require"@[0] == 'r');
    assert("warning"@[0] == 'w');
    match kind {
        HeaderKind::Via => {
            assert(l =~= "via"@);
        },
        HeaderKind::From => {
            assert(l =~= "from"@);
        },
        HeaderKind::To => {
            assert(l =~= "to"@);
        },
        HeaderKind::CallId => {
            assert(l =~= "call-id"@);
        },
        HeaderKind::CSeq => {
            assert(l =~= "cseq"@);
        },
        HeaderKind::Contact => {
            assert(l =~= "contact"@);
        },
        HeaderKind::MaxForwards => {
            assert(l =~= "max-forwards"@);
        },
        HeaderKind::ContentLength => {
            assert(l =~= "content-length"@);
        },
        HeaderKind::ContentType => {
            assert(l =~= "content-type"@);
        },
        HeaderKind::Expires => {
            assert(l =~= "expires"@);
        },
        HeaderKind::Route => {
            assert(l =~= "route"@);
        },
        HeaderKind::RecordRoute => {
            assert(l =~= "record-route"@);
        },
        HeaderKind::Supported => {
            assert(l =~= "supported"@);
        },
        HeaderKind::Require => {
            assert(l =~= "require"@);
        },
        HeaderKind::Warning => {
            assert(l =~= "warning"@);
        },
        HeaderKind::WwwAuthenticate => {
            assert(l =~= "www-authenticate"@);
        },
        HeaderKind::ProxyAuthenticate => {
            assert(l =~= "proxy-authenticate"@);
        },
        HeaderKind::Authorization => {
            assert(l =~= "authorization"@);
        },
        HeaderKind::ProxyAuthorization => {
            assert(l =~= "proxy-authorization"@);
        },
        HeaderKind::Other => {},
    }
}

proof fn lemma_header_of(h: HeaderView)
    requires
        header_settled(h),
    ensures
        header_of(h.name() + ": "@ + h.value) == h,
{
    let name = h.name();
    let line = name + ": "@ + h.value;
    reveal_strlit(": ");
    if h.kind != HeaderKind::Other {
        lemma_kind_named(h.kind);
        assert(h.label =~= Seq::<char>::empty());
    } else {
        assert forall|i: int| 0 <= i < name.len() implies #[trigger] name[i] != ':' by {
            assert(is_token(h.label[i]));
        }
    }
    assert forall|i: int| 0 <= i < name.len() implies #[trigger] line[i] != ':' by {
        assert(line[i] == name[i]);
    }
    assert(line[name.len() as int] == ':');
    assert(line[name.len() as int + 1] == ' ');
    lemma_find_is(line, ':', name.len() as int);
    assert(line.take(name.len() as int) =~= name);
    assert(line.skip(name.len() as int + 2) =~= h.value);
}

proof fn lemma_written_out(m: MessageView)
    requires
        settled(m),
    ensures
        message_of(written_out(m)) == Some(m),
{
    let h = match m {
        MessageView::Request(r) => r.headers,
        MessageView::Response(r) => r.headers,
    };
    assert(headers_of(header_lines(h)) =~= h) by {
        assert forall|i: int| 0 <= i < h.len() implies #[trigger] headers_of(header_lines(h))[i]
            == h[i] by {
            lemma_header_of(h[i]);
        }
    }
    if let MessageView::Request(r) = m {
        lemma_method_named(r.method);
    }
}

/// Parses a received buffer into a SIP message, or `None` if it is malformed. What was written
/// reads back: the text of a message that stays as it is on its way over the wire is parsed into
/// that message.
pub fn parse(bytes: &[u8]) -> (res: Option<SipMessage>)
    ensures
        match res {
            Some(m) => parsed(bytes@) == Some(m@),
            None => parsed(bytes@) is None,
        },
        forall|m: MessageView| #[trigger]
            settled(m) && bytes@ == encode_utf8(m.text()) ==> (res matches Some(r) && r@ == m),
{
    let raw = read_message(bytes);
    proof {
        assert forall|m: MessageView| #[trigger]
            settled(m) && bytes@ == encode_utf8(m.text()) implies parsed(bytes@) == Some(m) by {
            lemma_written_out(m);
        }
    }
    match raw {
        Some(raw) => assemble(raw),
        None => None,
    }
}

/// The sequence number and method that a `CSeq` value stands for: a number, a space, and the
/// name of a method.
pub open spec fn cseq_of(value: Seq<char>) -> Option<(u32, Method)> {
    let n = find(value, ' ') as int;
    if n >= value.len() {
        None
    } else {
        match (number_u32(value.take(n)), Method::named(value.skip(n))) {
            (Some(seq), Some(method)) => Some((seq, method)),
            _ => None,
        }
    }
}

/// Calls `typed` of `rsip::headers::CSeq`: the number up to the first space, and the method
/// after it, whatever its case; `None` where either is missing.
#[verifier::external_body]
fn read_cseq(value: &str) -> (res: Option<(u32, String)>)
    ensures
        match res {
            Some(p) => cseq_of(value@) matches Some(c) && c.0 == p.0 && Method::named(p.1@) == Some(
                c.1,
            ),
            None => cseq_of(value@) is None,
        },
{
    match rsip::headers::CSeq::new(value).typed() {
        Ok(c) => Some((c.seq, c.method.to_string())),
        Err(_) => None,
    }
}

/// The sequence number and method that a `CSeq` value stands for.
pub fn parse_cseq(value: &str) -> (res: Option<(u32, Method)>)
    ensures
        res == cseq_of(value@),
{
    match read_cseq(value) {
        Some((seq, name)) => match Method::parse(name.as_str()) {
            Some(method) => Some((seq, method)),
            None => None,
        },
        None => None,
    }
}

/// A `CSeq` value: the number, a space, and the method.
pub open spec fn cseq_text(seq: u32, method: Method) -> Seq<char> {
    decimal(seq as nat) + " "@ + method.text()
}

/// A `CSeq` header.
pub fn cseq_header(seq: u32, method: Method) -> (res: Header)
    ensures
        res@ == HeaderView::known(HeaderKind::CSeq, cseq_text(seq, method)),
{
    let mut v = String::new();
    push_decimal(&mut v, seq as u64);
    v.append(" ");
    v.append(method.name());
    assert(v@ == cseq_text(seq, method));
    Header::new(HeaderKind::CSeq, v.as_str())
}

/// The sequence number and method of a message with these headers.
pub open spec fn message_cseq(h: Seq<HeaderView>) -> Option<(u32, Method)> {
    match first_value(h, HeaderKind::CSeq) {
        Some(v) => cseq_of(v),
        None => None,
    }
}

/// The sequence number and method of a message with these headers.
pub fn headers_cseq(h: &Vec<Header>) -> (res: Option<(u32, Method)>)
    ensures
        res == message_cseq(header_views(h@)),
{
    match header_value(h, HeaderKind::CSeq) {
        Some(v) => parse_cseq(v),
        None => None,
    }
}

/// The first header of a kind is the one before which none of the kind stands.
pub proof fn lemma_first_value(h: Seq<HeaderView>, kind: HeaderKind, i: int)
    requires
        0 <= i < h.len(),
        h[i].kind == kind,
        forall|j: int| 0 <= j < i ==> (#[trigger] h[j]).kind != kind,
    ensures
        first_value(h, kind) == Some(h[i].value),
    decreases i,
{
    if i > 0 {
        assert(h[0].kind != kind);
        assert forall|j: int| 0 <= j < i - 1 implies (#[trigger] h.skip(1)[j]).kind != kind by {
            assert(h[j + 1].kind != kind);
        }
        lemma_first_value(h.skip(1), kind, i - 1);
    }
}

/// Taking out the headers of one kind keeps the first of another kind.
pub proof fn lemma_without_kind_keeps(h: Seq<HeaderView>, gone: HeaderKind, kind: HeaderKind)
    requires
        gone != kind,
    ensures
        first_value(without_kind(h, gone), kind) == first_value(h, kind),
    decreases h.len(),
{
    if h.len() > 0 {
        let init = h.drop_last();
        lemma_without_kind_keeps(init, gone, kind);
        lemma_first_value_push(init, h.last(), kind);
        assert(init.push(h.last()) =~= h);
        lemma_first_value_push(without_kind(init, gone), h.last(), kind);
    }
}

/// A header at the end is the first of its kind when there is none before it.
pub proof fn lemma_first_value_push(h: Seq<HeaderView>, x: HeaderView, kind: HeaderKind)
    ensures
        first_value(h.push(x), kind) == if first_value(h, kind) is Some {
            first_value(h, kind)
        } else if x.kind == kind {
            Some(x.value)
        } else {
            None
        },
    decreases h.len(),
{
    if h.len() > 0 {
        lemma_first_value_push(h.skip(1), x, kind);
        assert(h.push(x).skip(1) =~= h.skip(1).push(x));
    } else {
        assert(h.push(x).skip(1) =~= Seq::<HeaderView>::empty());
        assert(first_value(h.push(x).skip(1), kind) is None);
    }
}

/// Taking out the headers of a kind leaves none.
pub proof fn lemma_without_kind_gone(h: Seq<HeaderView>, kind: HeaderKind)
    ensures
        first_value(without_kind(h, kind), kind) is None,
    decreases h.len(),
{
    if h.len() > 0 {
        lemma_without_kind_gone(h.drop_last(), kind);
        lemma_first_value_push(without_kind(h.drop_last(), kind), h.last(), kind);
    }
}

/// Headers that are added at the end keep the first of a kind that is there.
pub proof fn lemma_first_kept(h: Seq<HeaderView>, extra: Seq<HeaderView>, kind: HeaderKind)
    requires
        first_value(h, kind) is Some,
    ensures
        first_value(h + extra, kind) == first_value(h, kind),
    decreases extra.len(),
{
    if extra.len() == 0 {
        assert(h + extra =~= h);
    } else {
        lemma_first_kept(h, extra.drop_last(), kind);
        lemma_first_value_push(h + extra.drop_last(), extra.last(), kind);
        assert(h + extra =~= (h + extra.drop_last()).push(extra.last()));
    }
}

/// There is no first header of a kind that does not occur.
pub proof fn lemma_no_value(h: Seq<HeaderView>, kind: HeaderKind)
    requires
        forall|j: int| 0 <= j < h.len() ==> (#[trigger] h[j]).kind != kind,
    ensures
        first_value(h, kind) is None,
    decreases h.len(),
{
    if h.len() > 0 {
        assert(h[0].kind != kind);
        assert forall|j: int| 0 <= j < h.skip(1).len() implies (#[trigger] h.skip(1)[j]).kind
            != kind by {
            assert(h[j + 1].kind != kind);
        }
        lemma_no_value(h.skip(1), kind);
    }
}

proof fn lemma_method_named(m: Method)
    ensures
        Method::named(m.text()) == Some(m),
        Method::named(" "@ + m.text()) == Some(m),
{
    reveal_strlit("ACK");
    reveal_strlit("ack");
    reveal_strlit("BYE");
    reveal_strlit("bye");
    reveal_strlit("CANCEL");
    reveal_strlit("cancel");
    reveal_strlit("INFO");
    reveal_strlit("info");
    reveal_strlit("INVITE");
    reveal_strlit("invite");
    reveal_strlit("MESSAGE");
    reveal_strlit("message");
    reveal_strlit("NOTIFY");
    reveal_strlit("notify");
    reveal_strlit("OPTIONS");
    reveal_strlit("options");
    reveal_strlit("PRACK");
    reveal_strlit("prack");
    reveal_strlit("PUBLISH");
    reveal_strlit("publish");
    reveal_strlit("REFER");
    reveal_strlit("refer");
    reveal_strlit("REGISTER");
    reveal_strlit("register");
    reveal_strlit("SUBSCRIBE");
    reveal_strlit("subscribe");
    reveal_strlit("UPDATE");
    reveal_strlit("update");
    reveal_strlit(" ");
    let t = m.text();
    let s = " "@ + t;
    assert(s.skip(1) =~= t);
    assert(!is_space(t[0]) && !is_space(t.last()));
    assert(trim_start(s.skip(1)) == t);
    assert(trimmed(s) == t);
    assert(trimmed(t) == t);
    let l = lowered(t);
    assert(l.len() == t.len());
    assert("ack"@[0] == 'a' && "ack"@[2] == 'k');
    assert("bye"@[0] == 'b' && "bye"@[2] == 'e');
    assert("cancel"@[0] == 'c' && "cancel"@[2] == 'n');
    assert("info"@[0] == 'i' && "info"@[2] == 'f');
    assert("invite"@[0] == 'i' && "invite"@[2] == 'v');
    assert("message"@[0] == 'm' && "message"@[2] == 's');
    assert("notify"@[0] == 'n' && "notify"@[2] == 't');
    assert("options"@[0] == 'o' && "options"@[2] == 't');
    assert("prack"@[0] == 'p' && "prack"@[2] == 'a');
    assert("publish"@[0] == 'p' && "publish"@[2] == 'b');
    assert("refer"@[0] == 'r' && "refer"@[2] == 'f');
    assert("register"@[0] == 'r' && "register"@[2] == 'g');
    assert("subscribe"@[0] == 's' && "subscribe"@[2] == 'b');
    assert("update"@[0] == 'u' && "update"@[2] == 'd');
    match m {
        Method::Ack => {
            assert(l =~= "ack"@);
        },
        Method::Bye => {
            assert(l =~= "bye"@);
        },
        Method::Cancel => {
            assert(l =~= "cancel"@);
        },
        Method::Info => {
            assert(l =~= "info"@);
        },
        Method::Invite => {
            assert(l =~= "invite"@);
        },
        Method::Message => {
            assert(l =~= "message"@);
        },
        Method::Notify => {
            assert(l =~= "notify"@);
        },
        Method::Options => {
            assert(l =~= "options"@);
        },
        Method::PRack => {
            assert(l =~= "prack"@);
        },
        Method::Publish => {
            assert(l =~= "publish"@);
        },
        Method::Refer => {
            assert(l =~= "refer"@);
        },
        Method::Register => {
            assert(l =~= "register"@);
        },
        Method::Subscribe => {
            assert(l =~= "subscribe"@);
        },
        Method::Update => {
            assert(l =~= "update"@);
        },
    }
}

/// Reading a `CSeq` value that was written here gives the number and the method back.
pub proof fn cseq_reads_back(seq: u32, method: Method)
    ensures
        cseq_of(cseq_text(seq, method)) == Some((seq, method)),
{
    let d = decimal(seq as nat);
    let v = cseq_text(seq, method);
    lemma_decimal(seq as nat);
    lemma_unsigned_decimal(seq as nat, 0xffff_ffff);
    lemma_method_named(method);
    reveal_strlit(" ");
    assert forall|i: int| 0 <= i < d.len() implies v[i] != ' ' by {
        assert(is_digit(d[i]));
    }
    assert(v[d.len() as int] == ' ');
    lemma_find_is(v, ' ', d.len() as int);
    assert(v.take(d.len() as int) =~= d);
    assert(v.skip(d.len() as int) =~= " "@ + method.text());
}

/// A method is known by its name in any case, with blanks around it or not.
pub proof fn methods_are_named_in_any_case(m: Method, s: Seq<char>)
    requires
        lowered(trimmed(s)) == lowered(m.text()),
    ensures
        Method::named(s) == Some(m),
{
    lemma_method_named(m);
    lemma_method_trimmed(m);
}

proof fn lemma_method_trimmed(m: Method)
    ensures
        trimmed(m.text()) == m.text(),
{
    reveal_strlit("ACK");
    reveal_strlit("BYE");
    reveal_strlit("CANCEL");
    reveal_strlit("INFO");
    reveal_strlit("INVITE");
    reveal_strlit("MESSAGE");
    reveal_strlit("NOTIFY");
    reveal_strlit("OPTIONS");
    reveal_strlit("PRACK");
    reveal_strlit("PUBLISH");
    reveal_strlit("REFER");
    reveal_strlit("REGISTER");
    reveal_strlit("SUBSCRIBE");
    reveal_strlit("UPDATE");
    let t = m.text();
    assert(t.len() > 0 && !is_space(t[0]) && !is_space(t.last()));
}

/// A header is known by its name in any case.
pub proof fn headers_are_named_in_any_case(kind: HeaderKind, s: Seq<char>)
    requires
        kind != HeaderKind::Other,
        lowered(s) == lowered(kind.text()),
    ensures
        HeaderKind::named(s) == kind,
{
    lemma_kind_named(kind);
}

/// A line of a message is the name of the header, a colon, and the value behind at most one blank.
pub proof fn header_lines_are_read_at_the_colon(name: Seq<char>, value: Seq<char>)
    requires
        !name.contains(':'),
    ensures
        header_of(name + ": "@ + value).name() == if HeaderKind::named(name) == HeaderKind::Other {
            name
        } else {
            HeaderKind::named(name).text()
        },
        header_of(name + ": "@ + value).kind == HeaderKind::named(name),
        header_of(name + ": "@ + value).value == value,
        value.len() > 0 && value[0] != ' ' ==> header_of(name + ":"@ + value).value == value,
{
    reveal_strlit(": ");
    reveal_strlit(":");
    let n = name.len() as int;
    let a = name + ": "@ + value;
    let b = name + ":"@ + value;
    assert forall|i: int| 0 <= i < n implies a[i] != ':' && b[i] != ':' by {
        assert(name.contains(name[i]));
        assert(a[i] == name[i] && b[i] == name[i]);
    }
    assert(a[n] == ':' && a[n + 1] == ' ' && b[n] == ':');
    lemma_find_is(a, ':', n);
    lemma_find_is(b, ':', n);
    assert(a.take(n) =~= name);
    assert(a.skip(n + 2) =~= value);
    assert(b.take(n) =~= name);
    assert(b.skip(n + 1) =~= value);
}

/// The headers of a message are written one to a line, in order, each line as its name, a colon, a
/// blank and its value.
pub proof fn headers_are_written_line_by_line(h: Seq<HeaderView>, parts: Seq<Seq<char>>)
    requires
        parts.len() == h.len(),
        forall|i: int|
            0 <= i < h.len() ==> #[trigger] parts[i] == h[i].name() + ": "@ + h[i].value + "\r\n"@,
    ensures
        headers_text(h) == parts.flatten(),
    decreases h.len(),
{
    if h.len() == 0 {
        assert(parts.flatten() =~= Seq::<char>::empty());
    } else {
        let init = parts.drop_last();
        let g = h.drop_last();
        assert forall|i: int| 0 <= i < g.len() implies #[trigger] init[i] == g[i].name() + ": "@
            + g[i].value + "\r\n"@ by {
            assert(parts[i] == h[i].name() + ": "@ + h[i].value + "\r\n"@);
        }
        headers_are_written_line_by_line(g, init);
        init.lemma_flatten_push(parts.last());
        assert(init.push(parts.last()) =~= parts);
        assert(parts.last() == parts[h.len() - 1]);
        assert(headers_text(h) =~= parts.flatten());
    }
}

/// Replacing a header drops all of its kind and keeps the others in order, with the new one last.
pub proof fn replaced_headers_keep_the_others(h: Seq<HeaderView>, x: HeaderView)
    ensures
        without_kind(h, x.kind).push(x) == h.filter(|y: HeaderView| y.kind != x.kind) + seq![x],
        first_value(without_kind(h, x.kind).push(x), x.kind) == Some(x.value),
{
    lemma_without_kind_filter(h, x.kind);
    assert(without_kind(h, x.kind).push(x) =~= h.filter(|y: HeaderView| y.kind != x.kind) + seq![
        x,
    ]);
    lemma_without_kind_gone(h, x.kind);
    lemma_first_value_push(without_kind(h, x.kind), x, x.kind);
}

proof fn lemma_without_kind_filter(h: Seq<HeaderView>, kind: HeaderKind)
    ensures
        without_kind(h, kind) == h.filter(|y: HeaderView| y.kind != kind),
    decreases h.len(),
{
    reveal(Seq::filter);
    let f = |y: HeaderView| y.kind != kind;
    if h.len() > 0 {
        lemma_without_kind_filter(h.drop_last(), kind);
        assert(without_kind(h, kind) =~= h.filter(f));
    } else {
        assert(without_kind(h, kind) =~= h.filter(f));
    }
}

/// A message starts with its first line: a request with its method, its URI and the version, a
/// response with the version and its status. Behind the headers an empty line and the body follow.
pub proof fn messages_start_with_their_first_line(r: RequestView, p: ResponseView)
    ensures
        r.version == Version::V2 ==> (r.method.text() + " "@ + r.uri + " SIP/2.0\r\n"@).is_prefix_of(
            MessageView::Request(r).text(),
        ),
        p.version == Version::V2 ==> ("SIP/2.0 "@ + p.status.line + "\r\n"@).is_prefix_of(
            MessageView::Response(p).text(),
        ),
        ("\r\n"@ + lossy_text(r.body)).is_suffix_of(MessageView::Request(r).text()),
        ("\r\n"@ + lossy_text(p.body)).is_suffix_of(MessageView::Response(p).text()),
{
    reveal_strlit("SIP/2.0");
    reveal_strlit("SIP/2.0 ");
    reveal_strlit(" SIP/2.0\r\n");
    reveal_strlit(" ");
    reveal_strlit("\r\n");
    assert("SIP/2.0 "@ =~= "SIP/2.0"@ + " "@);
    assert(" SIP/2.0\r\n"@ =~= " "@ + "SIP/2.0"@ + "\r\n"@);
    let t = MessageView::Request(r).text();
    let line = r.method.text() + " "@ + r.uri + " SIP/2.0\r\n"@;
    let rest = headers_text(r.headers) + "\r\n"@ + lossy_text(r.body);
    if r.version == Version::V2 {
        assert(t =~= line + rest);
        assert(line.is_prefix_of(line + rest));
    }
    let front = r.method.text() + " "@ + r.uri + " "@ + r.version.text() + "\r\n"@ + headers_text(
        r.headers,
    );
    let end = "\r\n"@ + lossy_text(r.body);
    assert(t =~= front + end);
    assert(end.is_suffix_of(front + end));
    let u = MessageView::Response(p).text();
    let line2 = "SIP/2.0 "@ + p.status.line + "\r\n"@;
    let rest2 = headers_text(p.headers) + "\r\n"@ + lossy_text(p.body);
    if p.version == Version::V2 {
        assert(u =~= line2 + rest2);
        assert(line2.is_prefix_of(line2 + rest2));
    }
    let front2 = p.version.text() + " "@ + p.status.line + "\r\n"@ + headers_text(p.headers);
    let end2 = "\r\n"@ + lossy_text(p.body);
    assert(u =~= front2 + end2);
    assert(end2.is_suffix_of(front2 + end2));
}

} // verus!
