//! The SIP engine: transactions, dialogs, and the flows built on them. Every part is a function
//! from state and event to next state and actions; sockets and clocks stay outside.

pub mod auth;
pub mod call;
pub mod dialog;
pub mod engine;
pub mod framing;
pub mod registration;
pub mod response;
pub mod tls;
pub mod transaction;
pub mod transport;
pub mod ua;
