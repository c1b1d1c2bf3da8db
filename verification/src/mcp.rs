//! The Model Context Protocol, at its stateless revision: wire format, client and server.
//!
//! A client is a cache over a stateless transport, and a server keeps nothing between requests. A
//! server is an untrusted party: its listings are sorted again, its freshness hints are capped, and
//! what its tools return is labelled.

pub mod agreement;
pub mod client;
pub mod codes;
pub mod meta_keys;
pub mod protocol;
pub mod server;
