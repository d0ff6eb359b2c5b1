//! A minimal HTTP/TCP probe client library.
//!
//! The crate holds the connection-lifecycle and message-framing engine of a
//! small probe client: the state machine that governs a TCP socket's
//! connect/write/read/disconnect transitions, the serializer that turns a
//! structured request into wire bytes, the parser that turns wire bytes back
//! into a structured response, the parameter resolution that reconciles the
//! logical target with the actual connect target when a proxy is in use, and
//! the percent-encoding and Base64 codecs the engine relies on.
//!
//! Socket I/O itself lives outside the library: the transport here is a pure
//! state machine that decides what may happen next and how each outcome is
//! reported, so a thin shell around the library can drive a real socket.

pub mod base64;
pub mod common;
pub mod connection;
pub mod headers;
pub mod http;
pub mod scan;
pub mod text;
pub mod urlencode;
