//! Transport: what has to be known to establish one, and the decisions around it. Parsing and
//! serializing messages is in [`crate::message`].

use crate::account::{TlsPolicy, Transport};
use crate::net::SocketAddr;
use crate::stack::transaction::Reliability;
use vstd::prelude::*;
use vstd::string::*;

verus! {

/// Largest datagram that is read.
pub const MAX_DATAGRAM: usize = 65_535;

/// Everything the transport needs in order to be established.
#[derive(Debug, Clone)]
pub struct TransportSetup {
    /// The transport protocol.
    pub transport: Transport,
    /// What TLS needs besides.
    pub tls: Option<TlsSetup>,
}

/// The part of a [`TransportSetup`] that only TLS needs.
#[derive(Debug, Clone)]
pub struct TlsSetup {
    /// The account's SIP domain (RFC 5922), never the target of an SRV record.
    pub server_name: String,
    /// How to verify the server's certificate.
    pub policy: TlsPolicy,
}

impl From<Transport> for TransportSetup {
    fn from(transport: Transport) -> (res: Self) {
        TransportSetup { transport, tls: None }
    }
}

impl vstd::std_specs::convert::FromSpecImpl<Transport> for TransportSetup {
    open spec fn obeys_from_spec() -> bool {
        true
    }

    open spec fn from_spec(transport: Transport) -> Self {
        TransportSetup { transport, tls: None }
    }
}

/// How a transport is established.
#[derive(Debug, Clone, Copy, PartialEq, Eq, Structural)]
pub enum Shape {
    /// Bind a UDP socket: one datagram per message.
    Datagram,
    /// Connect over TCP to the next hop: a framed byte stream.
    Stream,
    /// Connect over TCP and perform a TLS handshake.
    TlsStream,
}

impl Shape {
    /// Whether retransmission timers apply.
    pub fn reliability(&self) -> (res: Reliability)
        ensures
            res == if *self == Shape::Datagram {
                Reliability::Unreliable
            } else {
                Reliability::Reliable
            },
    {
        match self {
            Shape::Datagram => Reliability::Unreliable,
            Shape::Stream | Shape::TlsStream => Reliability::Reliable,
        }
    }
}

impl TransportSetup {
    /// How the transport is established; TLS needs its setup.
    pub open spec fn planned(self) -> Result<Shape, Seq<char>> {
        match self.transport {
            Transport::Udp => Ok(Shape::Datagram),
            Transport::Tcp => Ok(Shape::Stream),
            Transport::Tls => if self.tls is Some {
                Ok(Shape::TlsStream)
            } else {
                Err("TLS transport selected without a TLS setup"@)
            },
        }
    }

    /// How the transport is established.
    pub fn shape(&self) -> (res: Result<Shape, String>)
        ensures
            match res {
                Ok(s) => self.planned() == Ok::<Shape, Seq<char>>(s),
                Err(e) => self.planned() == Err::<Shape, Seq<char>>(e@),
            },
    {
        match self.transport {
            Transport::Udp => Ok(Shape::Datagram),
            Transport::Tcp => Ok(Shape::Stream),
            Transport::Tls => if self.tls.is_some() {
                Ok(Shape::TlsStream)
            } else {
                Err(String::from_str("TLS transport selected without a TLS setup"))
            },
        }
    }
}

/// Whether two addresses are the same, the flow information and scope of version 6 included.
pub fn same_addr(a: SocketAddr, b: SocketAddr) -> (res: bool)
    ensures
        res == (a == b),
{
    match (a, b) {
        (SocketAddr::V4(x), SocketAddr::V4(y)) => x.port == y.port && x.ip.0 == y.ip.0 && x.ip.1
            == y.ip.1 && x.ip.2 == y.ip.2 && x.ip.3 == y.ip.3,
        (SocketAddr::V6(x), SocketAddr::V6(y)) => x.port == y.port && x.flowinfo == y.flowinfo
            && x.scope_id == y.scope_id && x.ip.0 == y.ip.0 && x.ip.1 == y.ip.1 && x.ip.2 == y.ip.2
            && x.ip.3 == y.ip.3 && x.ip.4 == y.ip.4 && x.ip.5 == y.ip.5 && x.ip.6 == y.ip.6
            && x.ip.7 == y.ip.7,
        _ => false,
    }
}

/// Whether a stream transport may send to `dst`: it has exactly one peer.
pub fn check_destination(peer: SocketAddr, dst: SocketAddr) -> (res: Result<(), String>)
    ensures
        match res {
            Ok(_) => dst == peer,
            Err(e) => dst != peer && e@ == "stream transport is connected to "@ + peer.text()
                + ", not "@ + dst.text(),
        },
{
    if same_addr(peer, dst) {
        return Ok(());
    }
    let mut message = String::from_str("stream transport is connected to ");
    message.append(peer.to_text().as_str());
    message.append(", not ");
    message.append(dst.to_text().as_str());
    Err(message)
}

/// The shape of a transport agrees with its reliability: only UDP retransmits.
pub proof fn only_datagrams_are_unreliable(setup: TransportSetup)
    ensures
        setup.planned() matches Ok(shape) ==> (Reliability::of(setup.transport)
            == Reliability::Unreliable <==> shape == Shape::Datagram),
{
}

/// Only TLS can lack its setup, and then it is not established; each transport has its own shape.
pub proof fn tls_needs_its_setup(setup: TransportSetup)
    ensures
        setup.planned() is Err <==> setup.transport == Transport::Tls && setup.tls is None,
        setup.planned() matches Err(e) ==> e == "TLS transport selected without a TLS setup"@,
        setup.planned() matches Ok(shape) ==> {
            &&& shape == Shape::Datagram <==> setup.transport == Transport::Udp
            &&& shape == Shape::Stream <==> setup.transport == Transport::Tcp
            &&& shape == Shape::TlsStream <==> setup.transport == Transport::Tls
        },
{
}

} // verus!
