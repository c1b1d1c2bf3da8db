//! Well-known keys of a request's metadata.

use vstd::prelude::*;

verus! {

/// Which revision the client speaks. Required on every request.
pub const PROTOCOL_VERSION: &'static str = "io.modelcontextprotocol/protocolVersion";

/// What the client can do. Required on every request.
pub const CLIENT_CAPABILITIES: &'static str = "io.modelcontextprotocol/clientCapabilities";

/// Who the client is.
pub const CLIENT_INFO: &'static str = "io.modelcontextprotocol/clientInfo";

/// Per-request log level. A server must not emit log notifications without it.
pub const LOG_LEVEL: &'static str = "io.modelcontextprotocol/logLevel";

/// W3C trace context, so an agent, its tools, and a remote server share one trace.
pub const TRACEPARENT: &'static str = "traceparent";

} // verus!
