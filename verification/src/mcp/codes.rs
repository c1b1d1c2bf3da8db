//! The JSON-RPC error codes that the server produces.

use vstd::prelude::*;

verus! {

/// The payload was not valid JSON-RPC.
pub const INVALID_REQUEST: i64 = -32600;

/// No such method. A client uses this to discover what revision it is talking to.
pub const METHOD_NOT_FOUND: i64 = -32601;

/// The parameters were wrong.
pub const INVALID_PARAMS: i64 = -32602;

/// Something went wrong inside the server.
pub const INTERNAL_ERROR: i64 = -32603;

} // verus!
