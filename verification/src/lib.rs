//! SIP signalling and RTP media building blocks for softphones, voice bots and recording bridges,
//! proved correct with Verus.
//!
//! The library decides and computes; it opens no socket and reads no clock. Flows that alternate
//! with the outside world are functions from state and event to next state and action:
//!
//! | Module            | Purpose                                                          |
//! |-------------------|------------------------------------------------------------------|
//! | [`account`]       | Accounts, transports, and how a certificate is trusted.          |
//! | [`resolve`]       | Locating the server: SRV records, their order, the fallback.     |
//! | [`registrar`]     | The record of attempts to register.                              |
//! | [`caller`]        | Outbound calls.                                                  |
//! | [`callee`]        | Inbound calls: ring, accept, reject.                             |
//! | [`endpoint`]      | Where an inbound request goes.                                   |
//! | [`inbound`]       | Requests inside a dialog, and their answers.                     |
//! | [`session_timer`] | Session timers (RFC 4028).                                       |
//! | [`hold`]          | Hold and resume.                                                 |
//! | [`refer`]         | Call transfer.                                                   |
//! | [`dtmf_info`]     | DTMF in INFO requests.                                           |
//! | [`sdp`]           | Offers and answers.                                              |
//! | [`rtp`]           | RTP packets, and DTMF in both directions (RFC 4733).             |
//! | [`tls_error`]     | What is told about a refused certificate.                        |
//! | [`stack`]         | The engine: transactions, dialogs, digests, framing.             |
//! | [`message`]       | SIP messages; [`headers`] reads the structured ones.             |

pub mod account;
pub mod callee;
pub mod caller;
pub mod dtmf_info;
pub mod endpoint;
pub mod headers;
pub mod hold;
pub mod inbound;
pub mod message;
pub mod net;
pub mod refer;
pub mod registrar;
pub mod resolve;
pub mod rtp;
pub mod sdp;
pub mod session_timer;
pub mod stack;
pub mod table;
pub mod text;
pub mod time;
pub mod tls_error;

pub use account::{SipAccount, TlsPolicy, Transport};
pub use callee::IncomingCall;
pub use dtmf_info::{build_info_body, content_type_header, InfoOutcome};
pub use inbound::InboundRequest;
pub use refer::{is_final_sipfrag, parse_sipfrag_status, refer_to_header};
pub use registrar::RegistrarDiagnostics;
pub use resolve::{order_candidates, SrvRecord};
pub use rtp::dtmf::{
    build_event_payload, build_rtp_dtmf_packet, DtmfBurstConfig, DtmfDigit, DEFAULT_VOLUME_DBM0,
};
pub use rtp::dtmf_recv::{parse_event_payload, DtmfEvent, DtmfEventPayload, DtmfReceiver};
pub use rtp::{RtpHeader, RtpSendConfig};
pub use sdp::{
    build_sdp_offer, build_sdp_with, parse_sdp, AudioCodec, CodecMenu, DtmfSpec, MediaDirection,
    RemoteMedia, DTMF_DEFAULT_PT,
};
pub use session_timer::{
    min_se_in, negotiate_uac, negotiate_uas, require_timer_header, session_expires_in,
    supported_timer_header, supports_timer, Refresher, SessionExpires, SessionTimer,
    SessionTimerOutcome, UasSessionTimer, DEFAULT_SESSION_EXPIRES_SECS, MIN_SESSION_EXPIRES_SECS,
};
pub use tls_error::{CertFailure, UntrustedCertificate};
