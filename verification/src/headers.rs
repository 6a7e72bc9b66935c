//! The structured headers of SIP: `Via`, the name-address headers `From`, `To` and `Contact`,
//! `Record-Route`, and URIs. `rsip` takes their values apart; the parts are held here as plain
//! values and put together again.

use crate::account::Transport;
use crate::message::{
    first_value, header_value, header_views, is_token, Header, HeaderKind, HeaderView,
};
use crate::net::{lemma_v4_chars, SocketAddr};
use crate::text::{
    chars_of, decimal, has_prefix, is_digit, lowered, starts_with, strings, trimmed,
};
use rsip::headers::{ToTypedHeader, UntypedHeader};
use std::convert::TryFrom;
use vstd::prelude::*;
use vstd::string::*;

verus! {

/// The characters of an optional text.
pub open spec fn opt_text(s: Option<String>) -> Option<Seq<char>> {
    match s {
        Some(t) => Some(t@),
        None => None,
    }
}

/// A copy of an optional text.
pub fn copy_opt(s: &Option<String>) -> (res: Option<String>)
    ensures
        opt_text(res) == opt_text(*s),
{
    match s {
        Some(t) => Some(t.clone()),
        None => None,
    }
}

/// A copy of the texts.
pub fn copy_strings(v: &Vec<String>) -> (res: Vec<String>)
    ensures
        strings(res@) == strings(v@),
{
    let mut out: Vec<String> = Vec::new();
    let mut i: usize = 0;
    while i < v.len()
        invariant
            i <= v@.len(),
            strings(out@) == strings(v@).take(i as int),
        decreases v.len() - i,
    {
        let ghost before = strings(out@);
        let c = v[i].clone();
        out.push(c);
        assert(strings(out@) == before.push(c@));
        i += 1;
        assert(strings(out@) == strings(v@).take(i as int));
    }
    assert(strings(v@).take(i as int) == strings(v@));
    out
}

/// The texts one after the other.
pub open spec fn concatenated(p: Seq<Seq<char>>) -> Seq<char>
    decreases p.len(),
{
    if p.len() == 0 {
        Seq::empty()
    } else {
        concatenated(p.drop_last()) + p.last()
    }
}

/// Appends the texts one after the other.
pub fn push_all(out: &mut String, p: &Vec<String>)
    ensures
        final(out)@ == old(out)@ + concatenated(strings(p@)),
{
    let ghost all = strings(p@);
    let mut i: usize = 0;
    assert(all.take(0) == Seq::<Seq<char>>::empty());
    assert(old(out)@ + Seq::<char>::empty() == old(out)@);
    while i < p.len()
        invariant
            i <= p@.len(),
            all == strings(p@),
            out@ == old(out)@ + concatenated(all.take(i as int)),
        decreases p.len() - i,
    {
        out.append(p[i].as_str());
        proof {
            let next = all.take(i as int + 1);
            assert(next.drop_last() == all.take(i as int));
            assert(next.last() == p@[i as int]@);
            assert(out@ == old(out)@ + concatenated(next));
        }
        i += 1;
    }
    assert(all.take(i as int) == all);
}

/// The parts of a `Via` value.
#[derive(Debug, Clone, PartialEq, Eq)]
pub struct Via {
    /// Protocol, version and transport, such as `SIP/2.0/UDP`.
    pub protocol: String,
    /// The sent-by part as it stands.
    pub uri: String,
    /// Host and port of the sent-by part.
    pub sent_by: String,
    /// The parameters, each with its leading semicolon.
    pub params: Vec<String>,
    /// The value of the first `branch` parameter.
    pub branch: Option<String>,
}

/// The parts of a `Via` value as characters.
pub struct ViaView {
    pub protocol: Seq<char>,
    pub uri: Seq<char>,
    pub sent_by: Seq<char>,
    pub params: Seq<Seq<char>>,
    pub branch: Option<Seq<char>>,
}

impl View for Via {
    type V = ViaView;

    open spec fn view(&self) -> ViaView {
        ViaView {
            protocol: self.protocol@,
            uri: self.uri@,
            sent_by: self.sent_by@,
            params: strings(self.params@),
            branch: opt_text(self.branch),
        }
    }
}

/// The `Via` value of a request: a bare `rport` asks the server to fill in the port it sees
/// (RFC 3581).
pub open spec fn via_text(transport: Seq<char>, sent_by: Seq<char>, branch: Seq<char>) -> Seq<char> {
    "SIP/2.0/"@ + transport + " "@ + sent_by + ";rport;branch="@ + branch
}

/// The parts of the `Via` value of a request.
pub open spec fn plain_via(transport: Seq<char>, sent_by: Seq<char>, branch: Seq<char>) -> ViaView {
    ViaView {
        protocol: "SIP/2.0/"@ + transport,
        uri: sent_by,
        sent_by,
        params: seq![";rport"@, ";branch="@ + branch],
        branch: Some(branch),
    }
}

/// Whether all characters may stand in a token.
pub open spec fn is_tokens(s: Seq<char>) -> bool {
    forall|i: int| 0 <= i < s.len() ==> is_token(#[trigger] s[i])
}

/// A host with its port, if it has one.
pub open spec fn host_port_text(host: Seq<char>, port: Option<u16>) -> Seq<char> {
    match port {
        Some(p) => host + ":"@ + decimal(p as nat),
        None => host,
    }
}

/// Whether a `Via` value with these parts reads back: a known transport, a host that cannot be
/// taken for the scheme of a URI, and a branch without separators.
pub open spec fn via_settled(
    transport: Seq<char>,
    host: Seq<char>,
    port: Option<u16>,
    branch: Seq<char>,
) -> bool {
    &&& seq!["UDP"@, "TCP"@, "TLS"@, "SCTP"@, "TLS-SCTP"@, "WS"@, "WSS"@].contains(transport)
    &&& host.len() > 0
    &&& is_tokens(host)
    &&& port is Some ==> lowered(host) != "sip"@ && lowered(host) != "sips"@
    &&& is_tokens(branch)
}

/// Whether `read` is what was written, where the value is the `Via` value of a request.
pub open spec fn via_reads_back(value: Seq<char>, read: Option<ViaView>) -> bool {
    forall|transport: Seq<char>, host: Seq<char>, port: Option<u16>, branch: Seq<char>| #[trigger]
        via_settled(transport, host, port, branch) && value == via_text(
            transport,
            host_port_text(host, port),
            branch,
        ) ==> read == Some(plain_via(transport, host_port_text(host, port), branch))
}

/// The parts of an optional `Via`.
pub open spec fn opt_via(v: Option<Via>) -> Option<ViaView> {
    match v {
        Some(v) => Some(v@),
        None => None,
    }
}

/// What `typed` of `rsip::headers::Via` reads from a value; `None` where it fails.
pub uninterp spec fn via_of(value: Seq<char>) -> Option<ViaView>;

/// Calls `typed` of `rsip::headers::Via` and writes out the parts. The result depends on the
/// value alone. A value that is put together from a transport that `rsip` knows, a host of token
/// characters with or without port, and a branch of token characters is taken apart into these.
#[verifier::external_body]
pub(crate) fn read_via(value: &str) -> (res: Option<Via>)
    ensures
        opt_via(res) == via_of(value@),
        via_reads_back(value@, opt_via(res)),
{
    match rsip::headers::Via::new(value).typed() {
        Ok(v) => Some(Via {
            protocol: format!("{}/{}", v.version, v.transport),
            uri: v.uri.to_string(),
            sent_by: v.sent_by().host_with_port.to_string(),
            params: v.params.iter().map(|p| p.to_string()).collect(),
            branch: v.branch().map(|b| b.value().to_string()),
        }),
        Err(_) => None,
    }
}

/// The parts of a name-address value: `From`, `To` or `Contact`.
#[derive(Debug, Clone, PartialEq, Eq)]
pub struct NameAddr {
    /// The display name, as it stands.
    pub display_name: Option<String>,
    /// The URI.
    pub uri: String,
    /// The parameters after the URI, each with its leading semicolon.
    pub params: Vec<String>,
    /// The value of the first `tag` parameter.
    pub tag: Option<String>,
}

/// The parts of a name-address value as characters.
pub struct NameAddrView {
    pub display_name: Option<Seq<char>>,
    pub uri: Seq<char>,
    pub params: Seq<Seq<char>>,
    pub tag: Option<Seq<char>>,
}

impl View for NameAddr {
    type V = NameAddrView;

    open spec fn view(&self) -> NameAddrView {
        NameAddrView {
            display_name: opt_text(self.display_name),
            uri: self.uri@,
            params: strings(self.params@),
            tag: opt_text(self.tag),
        }
    }
}

/// Whether a URI in angle brackets reads back.
pub open spec fn uri_reads_back(uri: Seq<char>) -> bool {
    &&& !uri.contains('>')
    &&& uri_of(uri) matches Some(u) && u.text == uri
}

/// Whether a name-address value with these parts reads back: a display name that stands out from
/// the URI, a URI that reads as itself, and no parameter but a tag without separators.
pub open spec fn addr_settled(a: NameAddrView) -> bool {
    &&& a.display_name matches Some(d) ==> d.len() > 0 && trimmed(d) == d && !d.contains('<')
    &&& uri_reads_back(a.uri)
    &&& match a.tag {
        Some(t) => is_tokens(t) && a.params == seq![";tag="@ + t],
        None => a.params.len() == 0,
    }
}

/// Whether `read` is what was written, where the value is a name-address value.
pub open spec fn addr_reads_back(value: Seq<char>, read: Option<NameAddrView>) -> bool {
    forall|a: NameAddrView| #[trigger] addr_settled(a) && value == a.text() ==> read == Some(a)
}

/// The parts of an optional name-address value.
pub open spec fn opt_addr(a: Option<NameAddr>) -> Option<NameAddrView> {
    match a {
        Some(a) => Some(a@),
        None => None,
    }
}

/// What `typed` of `rsip::headers::From` reads from a value; `None` where it fails.
pub uninterp spec fn from_of(value: Seq<char>) -> Option<NameAddrView>;

/// Calls `typed` of `rsip::headers::From` and writes out the parts. The result depends on the
/// value alone. A value that is put together from a display name without `<` or outer blanks, if
/// any, a URI without `>` that reads as itself, and a tag of token characters, if any, is taken
/// apart into these.
#[verifier::external_body]
pub(crate) fn read_from(value: &str) -> (res: Option<NameAddr>)
    ensures
        opt_addr(res) == from_of(value@),
        addr_reads_back(value@, opt_addr(res)),
{
    match rsip::headers::From::new(value).typed() {
        Ok(a) => Some(NameAddr {
            tag: a.tag().map(|t| t.value().to_string()),
            params: a.params.iter().map(|p| p.to_string()).collect(),
            uri: a.uri.to_string(),
            display_name: a.display_name,
        }),
        Err(_) => None,
    }
}

/// What `typed` of `rsip::headers::To` reads from a value; `None` where it fails.
pub uninterp spec fn to_of(value: Seq<char>) -> Option<NameAddrView>;

/// Calls `typed` of `rsip::headers::To` and writes out the parts. The result depends on the
/// value alone. A value that is put together from such parts as those of a `From` value is taken
/// apart into these.
#[verifier::external_body]
pub(crate) fn read_to(value: &str) -> (res: Option<NameAddr>)
    ensures
        opt_addr(res) == to_of(value@),
        addr_reads_back(value@, opt_addr(res)),
{
    match rsip::headers::To::new(value).typed() {
        Ok(a) => Some(NameAddr {
            tag: a.tag().map(|t| t.value().to_string()),
            params: a.params.iter().map(|p| p.to_string()).collect(),
            uri: a.uri.to_string(),
            display_name: a.display_name,
        }),
        Err(_) => None,
    }
}

/// The URI that `typed` of `rsip::headers::Contact` reads from a value; `None` where it fails.
pub uninterp spec fn contact_uri_of(value: Seq<char>) -> Option<Seq<char>>;

/// Whether `read` is what was written, where the value is a URI in angle brackets.
pub open spec fn contact_reads_back(value: Seq<char>, read: Option<Seq<char>>) -> bool {
    forall|uri: Seq<char>| #[trigger]
        uri_reads_back(uri) && value == "<"@ + uri + ">"@ ==> read == Some(uri)
}

/// Calls `typed` of `rsip::headers::Contact` and writes out the URI. The result depends on the
/// value alone. From a URI in angle brackets it takes the URI, where that is without `>` and
/// reads as itself.
#[verifier::external_body]
pub(crate) fn read_contact_uri(value: &str) -> (res: Option<String>)
    ensures
        opt_text(res) == contact_uri_of(value@),
        contact_reads_back(value@, opt_text(res)),
{
    match rsip::headers::Contact::new(value).typed() {
        Ok(c) => Some(c.uri.to_string()),
        Err(_) => None,
    }
}

/// The routes that `typed` of `rsip::headers::RecordRoute` reads from a value, each as text;
/// `None` where it fails.
pub uninterp spec fn routes_of(value: Seq<char>) -> Option<Seq<Seq<char>>>;

/// Calls `typed` of `rsip::headers::RecordRoute` and writes out the routes. The result depends
/// on the value alone.
#[verifier::external_body]
pub(crate) fn read_routes(value: &str) -> (res: Option<Vec<String>>)
    ensures
        match res {
            Some(v) => routes_of(value@) == Some(strings(v@)),
            None => routes_of(value@) is None,
        },
{
    match rsip::headers::RecordRoute::new(value).typed() {
        Ok(r) => Some(r.uris().iter().map(|u| u.to_string()).collect()),
        Err(_) => None,
    }
}

/// A SIP URI: its text, and what is read from it.
#[derive(Debug, Clone, PartialEq, Eq)]
pub struct Uri {
    /// The URI as text.
    pub text: String,
    /// Host and port.
    pub host_port: String,
    /// The transport parameter in capitals, if there is one.
    pub transport: Option<String>,
}

/// A URI, its parts as characters.
pub struct UriView {
    pub text: Seq<char>,
    pub host_port: Seq<char>,
    pub transport: Option<Seq<char>>,
}

impl View for Uri {
    type V = UriView;

    open spec fn view(&self) -> UriView {
        UriView {
            text: self.text@,
            host_port: self.host_port@,
            transport: opt_text(self.transport),
        }
    }
}

/// A `sip:` URI: a user if there is one, a host with its port if it has one, and a transport
/// parameter but for UDP.
pub open spec fn sip_text(
    user: Option<Seq<char>>,
    host: Seq<char>,
    port: Option<u16>,
    transport: Transport,
) -> Seq<char> {
    "sip:"@ + match user {
        Some(u) => u + "@"@,
        None => ""@,
    } + host_port_text(host, port) + transport_param(transport)
}

/// A `sip:` URI, its parts; the transport is in capitals.
pub open spec fn sip_view(
    user: Option<Seq<char>>,
    host: Seq<char>,
    port: Option<u16>,
    transport: Transport,
) -> UriView {
    let name = match transport {
        Transport::Udp => None,
        Transport::Tcp => Some("TCP"@),
        Transport::Tls => Some("TLS"@),
    };
    UriView {
        text: "sip:"@ + match user {
            Some(u) => u + "@"@,
            None => ""@,
        } + host_port_text(host, port) + match name {
            Some(n) => ";transport="@ + n,
            None => ""@,
        },
        host_port: host_port_text(host, port),
        transport: name,
    }
}

/// Whether a `sip:` URI with these parts reads back: a user without `.` and `@`, and a host of
/// token characters.
pub open spec fn sip_settled(user: Option<Seq<char>>, host: Seq<char>) -> bool {
    &&& user matches Some(u) ==> !u.contains('.') && !u.contains('@')
    &&& host.len() > 0
    &&& is_tokens(host)
}

/// Whether `read` is what was written, where the text is a `sip:` URI.
pub open spec fn sip_reads_back(text: Seq<char>, read: Option<UriView>) -> bool {
    forall|user: Option<Seq<char>>, host: Seq<char>, port: Option<u16>, transport: Transport|
        sip_settled(user, host) && text == #[trigger] sip_text(user, host, port, transport)
            ==> read == Some(sip_view(user, host, port, transport))
}

/// The parts of an optional URI.
pub open spec fn opt_uri(u: Option<Uri>) -> Option<UriView> {
    match u {
        Some(u) => Some(u@),
        None => None,
    }
}

/// What `rsip::Uri::try_from` reads from a text; `None` where it fails.
pub uninterp spec fn uri_of(text: Seq<char>) -> Option<UriView>;

/// Calls `rsip::Uri::try_from` and writes out the URI, its host and port, and its transport
/// parameter. The result depends on the text alone. A `sip:` URI that is put together from a user
/// without `.` and `@`, if any, a host of token characters with or without port, and a transport
/// parameter, if any, is taken apart into these; the transport is written in capitals.
#[verifier::external_body]
fn read_uri(text: &str) -> (res: Option<Uri>)
    ensures
        opt_uri(res) == uri_of(text@),
        sip_reads_back(text@, opt_uri(res)),
{
    match rsip::Uri::try_from(text) {
        Ok(u) => Some(Uri {
            text: u.to_string(),
            host_port: u.host_with_port.to_string(),
            transport: u.transport().map(|t| t.to_string()),
        }),
        Err(_) => None,
    }
}

impl UriView {
    /// The transport that a `Via` for requests from this contact names: the transport
    /// parameter, or UDP.
    pub open spec fn via_transport(self) -> Seq<char> {
        match self.transport {
            Some(t) => t,
            None => "UDP"@,
        }
    }
}

impl Uri {
    /// Parses a URI. What was put together from such parts as [`sip_text`] takes reads back.
    pub fn parse(text: &str) -> (res: Option<Uri>)
        ensures
            match res {
                Some(u) => uri_of(text@) == Some(u@),
                None => uri_of(text@) is None,
            },
            sip_reads_back(text@, uri_of(text@)),
    {
        read_uri(text)
    }

    /// A copy of the URI.
    pub fn copy(&self) -> (res: Self)
        ensures
            res@ == self@,
    {
        Uri {
            text: self.text.clone(),
            host_port: self.host_port.clone(),
            transport: copy_opt(&self.transport),
        }
    }

    /// The transport that a `Via` for requests from this contact names.
    pub fn via_transport(&self) -> (res: &str)
        ensures
            res@ == self@.via_transport(),
    {
        match &self.transport {
            Some(t) => t.as_str(),
            None => "UDP",
        }
    }
}

/// The parameter of a contact URI that names the transport: none for UDP.
pub open spec fn transport_param(transport: Transport) -> Seq<char> {
    match transport {
        Transport::Udp => ""@,
        Transport::Tcp => ";transport=tcp"@,
        Transport::Tls => ";transport=tls"@,
    }
}

/// The text of the URI at which `user` is reached at `addr`: over TCP and TLS it names the
/// transport.
pub open spec fn contact_text(user: Seq<char>, addr: SocketAddr, transport: Transport) -> Seq<
    char,
> {
    "sip:"@ + user + "@"@ + addr.text() + transport_param(transport)
}

/// A contact at a version 4 address is a `sip:` URI of its parts, and so reads back.
pub proof fn lemma_contact_text(user: Seq<char>, addr: SocketAddr, transport: Transport)
    requires
        addr is V4,
    ensures
        contact_text(user, addr, transport) == sip_text(
            Some(user),
            addr->V4_0.ip.text(),
            Some(addr.port()),
            transport,
        ),
        host_port_text(addr->V4_0.ip.text(), Some(addr.port())) == addr.text(),
        addr->V4_0.ip.text().len() > 0,
        is_tokens(addr->V4_0.ip.text()),
{
    let host = addr->V4_0.ip.text();
    lemma_v4_chars(addr->V4_0.ip);
    assert forall|i: int| 0 <= i < host.len() implies is_token(#[trigger] host[i]) by {
        assert(is_digit(host[i]) || host[i] == '.');
    }
    assert(contact_text(user, addr, transport) =~= sip_text(
        Some(user),
        host,
        Some(addr.port()),
        transport,
    ));
}

/// The URI at which `user` is reached at `addr`, its parts.
pub open spec fn contact_view(user: Seq<char>, addr: SocketAddr, transport: Transport) -> UriView {
    sip_view(Some(user), addr->V4_0.ip.text(), Some(addr.port()), transport)
}

/// Requests name the transport that the account chose: a contact that was written for a transport
/// at a version 4 address makes their `Via` name it, and has the host and port of the address.
pub proof fn via_names_the_transport(user: Seq<char>, addr: SocketAddr, transport: Transport)
    requires
        addr is V4,
    ensures
        contact_view(user, addr, transport).via_transport() == match transport {
            Transport::Udp => "UDP"@,
            Transport::Tcp => "TCP"@,
            Transport::Tls => "TLS"@,
        },
        contact_view(user, addr, transport).host_port == addr.text(),
{
    lemma_contact_text(user, addr, transport);
}

/// The text of the URI at which `user` is reached at `addr`.
pub fn contact_uri_text(user: &str, addr: SocketAddr, transport: Transport) -> (res: String)
    ensures
        res@ == contact_text(user@, addr, transport),
{
    let mut out = String::from_str("sip:");
    out.append(user);
    out.append("@");
    out.append(addr.to_text().as_str());
    out.append(
        match transport {
            Transport::Udp => "",
            Transport::Tcp => ";transport=tcp",
            Transport::Tls => ";transport=tls",
        },
    );
    out
}

/// Whether the URIs of an account read back: a user name without `.` and `@`, and a domain of
/// token characters.
pub open spec fn plain_account(user: Seq<char>, domain: Seq<char>) -> bool {
    !user.contains('.') && !user.contains('@') && domain.len() > 0 && is_tokens(domain)
}

/// The address of record of such an account is a `sip:` URI of its parts, and so is that of its
/// domain.
pub proof fn lemma_account_text(user: Seq<char>, domain: Seq<char>)
    ensures
        aor_text(user, domain) == sip_text(Some(user), domain, None, Transport::Udp),
        "sip:"@ + domain == sip_text(None, domain, None, Transport::Udp),
{
    reveal_strlit("");
    assert(aor_text(user, domain) =~= sip_text(Some(user), domain, None, Transport::Udp));
    assert("sip:"@ + domain =~= sip_text(None, domain, None, Transport::Udp));
}

/// The text of an address of record.
pub open spec fn aor_text(user: Seq<char>, domain: Seq<char>) -> Seq<char> {
    "sip:"@ + user + "@"@ + domain
}

/// The text of an address of record.
pub fn aor(user: &str, domain: &str) -> (res: String)
    ensures
        res@ == aor_text(user@, domain@),
{
    let mut out = String::from_str("sip:");
    out.append(user);
    out.append("@");
    out.append(domain);
    out
}

impl NameAddrView {
    /// The value as text: the display name if there is one, the URI in angle brackets, and the
    /// parameters.
    pub open spec fn text(self) -> Seq<char> {
        match self.display_name {
            Some(d) => d + " <"@ + self.uri + ">"@ + concatenated(self.params),
            None => "<"@ + self.uri + ">"@ + concatenated(self.params),
        }
    }

    /// The value with one more `tag` parameter.
    pub open spec fn with_tag(self, tag: Seq<char>) -> Self {
        NameAddrView {
            params: self.params.push(";tag="@ + tag),
            tag: match self.tag {
                Some(t) => Some(t),
                None => Some(tag),
            },
            ..self
        }
    }
}

impl NameAddr {
    /// The value as text.
    pub fn to_text(&self) -> (res: String)
        ensures
            res@ == self@.text(),
    {
        let mut out = String::new();
        match &self.display_name {
            Some(d) => {
                out.append(d.as_str());
                out.append(" <");
            },
            None => {
                out.append("<");
            },
        }
        out.append(self.uri.as_str());
        out.append(">");
        push_all(&mut out, &self.params);
        assert(out@ == self@.text());
        out
    }

    /// A copy of the parts.
    pub fn copy(&self) -> (res: Self)
        ensures
            res@ == self@,
    {
        NameAddr {
            display_name: copy_opt(&self.display_name),
            uri: self.uri.clone(),
            params: copy_strings(&self.params),
            tag: copy_opt(&self.tag),
        }
    }

    /// The value with one more `tag` parameter.
    pub fn with_tag(self, tag: &str) -> (res: Self)
        ensures
            res@ == self@.with_tag(tag@),
    {
        let mut out = self;
        let mut p = String::from_str(";tag=");
        p.append(tag);
        let ghost before = strings(out.params@);
        out.params.push(p);
        assert(strings(out.params@) == before.push(p@));
        if out.tag.is_none() {
            out.tag = Some(String::from_str(tag));
        }
        out
    }
}

/// A name-address value without display name: the URI in angle brackets, and a tag if any.
pub open spec fn bare_addr(uri: Seq<char>, tag: Option<Seq<char>>) -> Seq<char> {
    match tag {
        Some(t) => "<"@ + uri + ">"@ + ";tag="@ + t,
        None => "<"@ + uri + ">"@,
    }
}

/// A name-address value without display name.
pub fn bare_addr_text(uri: &str, tag: Option<&str>) -> (res: String)
    ensures
        res@ == bare_addr(
            uri@,
            match tag {
                Some(t) => Some(t@),
                None => None,
            },
        ),
{
    let mut out = String::from_str("<");
    out.append(uri);
    out.append(">");
    if let Some(t) = tag {
        out.append(";tag=");
        out.append(t);
    }
    out
}

impl ViaView {
    /// The value as text.
    pub open spec fn text(self) -> Seq<char> {
        self.protocol + " "@ + self.uri + concatenated(self.params)
    }

    /// The value with `branch` in place of all `branch` parameters, at the end.
    pub open spec fn with_branch(self, branch: Seq<char>) -> Self {
        ViaView {
            params: without_branch(self.params).push(";branch="@ + branch),
            branch: Some(branch),
            ..self
        }
    }
}

/// The parameters that are no `branch` parameters.
pub open spec fn without_branch(p: Seq<Seq<char>>) -> Seq<Seq<char>>
    decreases p.len(),
{
    if p.len() == 0 {
        Seq::empty()
    } else {
        let init = without_branch(p.drop_last());
        if starts_with(p.last(), ";branch="@) {
            init
        } else {
            init.push(p.last())
        }
    }
}

impl Via {
    /// The value as text.
    pub fn to_text(&self) -> (res: String)
        ensures
            res@ == self@.text(),
    {
        let mut out = self.protocol.clone();
        out.append(" ");
        out.append(self.uri.as_str());
        push_all(&mut out, &self.params);
        out
    }

    /// The value with `branch` in place of all `branch` parameters.
    pub fn with_branch(self, branch: &str) -> (res: Self)
        ensures
            res@ == self@.with_branch(branch@),
    {
        let ghost all = strings(self.params@);
        let mut params: Vec<String> = Vec::new();
        let mut i: usize = 0;
        assert(all.take(0) == Seq::<Seq<char>>::empty());
        assert(strings(params@) == Seq::<Seq<char>>::empty());
        while i < self.params.len()
            invariant
                i <= self.params@.len(),
                all == strings(self.params@),
                strings(params@) == without_branch(all.take(i as int)),
            decreases self.params.len() - i,
        {
            assert(all.take(i as int + 1).drop_last() == all.take(i as int));
            assert(all.take(i as int + 1).last() == self.params@[i as int]@);
            if !has_prefix(&chars_of(self.params[i].as_str()), ";branch=") {
                let ghost before = strings(params@);
                let c = self.params[i].clone();
                params.push(c);
                assert(strings(params@) == before.push(c@));
            }
            i += 1;
        }
        assert(all.take(i as int) == all);
        let mut p = String::from_str(";branch=");
        p.append(branch);
        let ghost before = strings(params@);
        params.push(p);
        assert(strings(params@) == before.push(p@));
        Via {
            protocol: self.protocol,
            uri: self.uri,
            sent_by: self.sent_by,
            params,
            branch: Some(String::from_str(branch)),
        }
    }
}

/// The parts of the first `Via` of a message with these headers.
pub open spec fn top_via(h: Seq<HeaderView>) -> Option<ViaView> {
    match first_value(h, HeaderKind::Via) {
        Some(v) => via_of(v),
        None => None,
    }
}

/// The parts of the first `Via` of a message with these headers.
pub fn headers_via(h: &Vec<Header>) -> (res: Option<Via>)
    ensures
        match res {
            Some(v) => top_via(header_views(h@)) == Some(v@),
            None => top_via(header_views(h@)) is None,
        },
        first_value(header_views(h@), HeaderKind::Via) matches Some(v) ==> via_reads_back(
            v,
            via_of(v),
        ),
{
    match header_value(h, HeaderKind::Via) {
        Some(v) => read_via(v),
        None => None,
    }
}

/// The parts of the `From` of a message with these headers.
pub open spec fn message_from(h: Seq<HeaderView>) -> Option<NameAddrView> {
    match first_value(h, HeaderKind::From) {
        Some(v) => from_of(v),
        None => None,
    }
}

/// The parts of the `From` of a message with these headers.
pub fn headers_from(h: &Vec<Header>) -> (res: Option<NameAddr>)
    ensures
        match res {
            Some(a) => message_from(header_views(h@)) == Some(a@),
            None => message_from(header_views(h@)) is None,
        },
        first_value(header_views(h@), HeaderKind::From) matches Some(v) ==> addr_reads_back(
            v,
            from_of(v),
        ),
{
    match header_value(h, HeaderKind::From) {
        Some(v) => read_from(v),
        None => None,
    }
}

/// The parts of the `To` of a message with these headers.
pub open spec fn message_to(h: Seq<HeaderView>) -> Option<NameAddrView> {
    match first_value(h, HeaderKind::To) {
        Some(v) => to_of(v),
        None => None,
    }
}

/// The parts of the `To` of a message with these headers.
pub fn headers_to(h: &Vec<Header>) -> (res: Option<NameAddr>)
    ensures
        match res {
            Some(a) => message_to(header_views(h@)) == Some(a@),
            None => message_to(header_views(h@)) is None,
        },
        first_value(header_views(h@), HeaderKind::To) matches Some(v) ==> addr_reads_back(
            v,
            to_of(v),
        ),
{
    match header_value(h, HeaderKind::To) {
        Some(v) => read_to(v),
        None => None,
    }
}

/// The URI of the first `Contact` of a message with these headers.
pub open spec fn message_contact(h: Seq<HeaderView>) -> Option<Seq<char>> {
    match first_value(h, HeaderKind::Contact) {
        Some(v) => contact_uri_of(v),
        None => None,
    }
}

/// The URI of the first `Contact` of a message with these headers.
pub fn headers_contact(h: &Vec<Header>) -> (res: Option<String>)
    ensures
        opt_text(res) == message_contact(header_views(h@)),
        first_value(header_views(h@), HeaderKind::Contact) matches Some(v) ==> contact_reads_back(
            v,
            contact_uri_of(v),
        ),
{
    match header_value(h, HeaderKind::Contact) {
        Some(v) => read_contact_uri(v),
        None => None,
    }
}

/// Setting the branch of a `Via` keeps its other parameters in order and leaves one branch, the new
/// one, behind them.
pub proof fn branches_are_replaced(top: ViaView, branch: Seq<char>)
    ensures
        top.with_branch(branch).params == top.params.filter(
            |p: Seq<char>| !(";branch="@.is_prefix_of(p)),
        ).push(";branch="@ + branch),
        top.with_branch(branch).branch == Some(branch),
        top.with_branch(branch).protocol == top.protocol,
        top.with_branch(branch).sent_by == top.sent_by,
        top.with_branch(branch).uri == top.uri,
{
    lemma_without_branch(top.params);
}

proof fn lemma_without_branch(p: Seq<Seq<char>>)
    ensures
        without_branch(p) == p.filter(|q: Seq<char>| !(";branch="@.is_prefix_of(q))),
    decreases p.len(),
{
    reveal(Seq::filter);
    let f = |q: Seq<char>| !(";branch="@.is_prefix_of(q));
    if p.len() > 0 {
        lemma_without_branch(p.drop_last());
    }
    assert(without_branch(p) =~= p.filter(f));
}

proof fn lemma_concatenated(p: Seq<Seq<char>>)
    ensures
        concatenated(p) == p.flatten(),
    decreases p.len(),
{
    if p.len() == 0 {
        assert(p.flatten() =~= Seq::<char>::empty());
    } else {
        lemma_concatenated(p.drop_last());
        p.drop_last().lemma_flatten_push(p.last());
        assert(p.drop_last().push(p.last()) =~= p);
        assert(concatenated(p) =~= p.flatten());
    }
}

/// A tag is added behind all other parameters; a value that has one already keeps it as its tag.
pub proof fn tags_are_added_last(a: NameAddrView, tag: Seq<char>)
    ensures
        a.with_tag(tag).text() == a.text() + ";tag="@ + tag,
        a.with_tag(tag).uri == a.uri,
        a.tag is None ==> a.with_tag(tag).tag == Some(tag),
        a.tag is Some ==> a.with_tag(tag).tag == a.tag,
{
    let p = a.params.push(";tag="@ + tag);
    assert(p.drop_last() =~= a.params);
    assert(a.with_tag(tag).text() =~= a.text() + ";tag="@ + tag);
}

/// The values that are written here: a name-address has its URI in angle brackets, and then its
/// parameters in order; a `Via` has its protocol, the sender, and its parameters in order; a `Via` of
/// a request asks for the port and has the branch.
pub proof fn values_are_written_in_order(
    a: NameAddrView,
    top: ViaView,
    transport: Seq<char>,
    sent_by: Seq<char>,
    branch: Seq<char>,
)
    ensures
        a.display_name is None ==> a.text() == "<"@ + a.uri + ">"@ + a.params.flatten(),
        a.display_name matches Some(d) ==> a.text() == d + " <"@ + a.uri + ">"@
            + a.params.flatten(),
        top.text() == top.protocol + " "@ + top.uri + top.params.flatten(),
        via_text(transport, sent_by, branch) == "SIP/2.0/"@ + transport + " "@ + sent_by
            + seq![";rport"@, ";branch="@ + branch].flatten(),
        plain_via(transport, sent_by, branch).text() == via_text(transport, sent_by, branch),
{
    lemma_concatenated(a.params);
    lemma_concatenated(top.params);
    let p = seq![";rport"@, ";branch="@ + branch];
    lemma_concatenated(p);
    let one = p.drop_last();
    assert(one.len() == 1 && one.last() == ";rport"@);
    assert(one.drop_last().len() == 0);
    assert(concatenated(one.drop_last()) == Seq::<char>::empty());
    assert(concatenated(one) =~= ";rport"@);
    reveal_strlit(";rport");
    reveal_strlit(";branch=");
    reveal_strlit(";rport;branch=");
    assert(";rport;branch="@ =~= ";rport"@ + ";branch="@);
    assert(via_text(transport, sent_by, branch) =~= "SIP/2.0/"@ + transport + " "@ + sent_by
        + concatenated(p));
    assert(plain_via(transport, sent_by, branch).text() =~= via_text(transport, sent_by, branch));
}

/// A bare address is a name-address without display name whose one parameter, if it has any, is the
/// tag.
pub proof fn bare_addresses_have_a_tag_at_most(uri: Seq<char>, tag: Seq<char>)
    ensures
        bare_addr(uri, None) == (NameAddrView {
            display_name: None,
            uri,
            params: Seq::empty(),
            tag: None,
        }).text(),
        bare_addr(uri, Some(tag)) == (NameAddrView {
            display_name: None,
            uri,
            params: seq![";tag="@ + tag],
            tag: Some(tag),
        }).text(),
{
    let none = Seq::<Seq<char>>::empty();
    assert(concatenated(none) == Seq::<char>::empty());
    assert(bare_addr(uri, None) =~= "<"@ + uri + ">"@ + concatenated(none));
    let p = seq![";tag="@ + tag];
    assert(p.drop_last() =~= none);
    assert(bare_addr(uri, Some(tag)) =~= "<"@ + uri + ">"@ + concatenated(p));
}

/// The URIs of a user: at the domain, and at an address and port, where a transport other than UDP is
/// named.
pub proof fn users_are_reached_by_uri(
    user: Seq<char>,
    domain: Seq<char>,
    addr: SocketAddr,
)
    ensures
        aor_text(user, domain) == seq!["sip:"@, user, "@"@, domain].flatten(),
        contact_text(user, addr, Transport::Udp) == seq!["sip:"@, user, "@"@, addr.text()].flatten(),
        contact_text(user, addr, Transport::Tcp) == contact_text(user, addr, Transport::Udp)
            + ";transport=tcp"@,
        contact_text(user, addr, Transport::Tls) == contact_text(user, addr, Transport::Udp)
            + ";transport=tls"@,
{
    reveal_strlit("");
    reveal_with_fuel(concatenated, 5);
    let p = seq!["sip:"@, user, "@"@, domain];
    lemma_concatenated(p);
    lemma_four(p);
    let q = seq!["sip:"@, user, "@"@, addr.text()];
    lemma_concatenated(q);
    lemma_four(q);
    assert(contact_text(user, addr, Transport::Udp) =~= "sip:"@ + user + "@"@ + addr.text());
}

proof fn lemma_four(p: Seq<Seq<char>>)
    requires
        p.len() == 4,
    ensures
        concatenated(p) == p[0] + p[1] + p[2] + p[3],
{
    reveal_with_fuel(concatenated, 5);
    let a = p.drop_last();
    let b = a.drop_last();
    let c = b.drop_last();
    assert(a.last() == p[2] && b.last() == p[1] && c.last() == p[0]);
    assert(c.drop_last().len() == 0);
    assert(concatenated(p) =~= p[0] + p[1] + p[2] + p[3]);
}

} // verus!
