//! Client-side session protocol for a local workflow backend.
//!
//! The backend is reached over a local socket carrying newline-delimited
//! JSON: one request object out, one response object in, per connection.
//! This crate holds the protocol logic itself — the wire codec, the
//! transport's decision steps, the session validation state machine, the
//! short-identifier resolver and the polling cursor — each with a proved
//! contract. The surrounding process (argument handling, the socket I/O,
//! printing) lives outside the crate and only feeds plain values in.

pub mod codec;
pub mod ipc;
pub mod json;
pub mod jsonnum;
pub mod jsonparse;
pub mod params;
pub mod resolver;
pub mod strutil;
pub mod text;
pub mod validate;
pub mod watch;
