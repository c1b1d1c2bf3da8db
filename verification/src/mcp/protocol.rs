//! The wire format.
//!
//! Every request carries its own protocol version and client capabilities, so any request can land
//! on any server instance.

use vstd::prelude::*;

use crate::error::{copy_opt_json, opt_json};
use crate::json::{copy_all, json_views, json_with, no_fields, uint_view, Json, JsonView, Number, NumberView};
use crate::mcp::meta_keys;
use crate::text::{debug_quoted, dec, decimal, quote_debug, same_text, signed_dec, signed_decimal};

verus! {

/// The revision this client speaks natively.
pub const PROTOCOL_VERSION: &'static str = "2026-07-28";

/// The last revision with the old stateful handshake.
pub const LEGACY_PROTOCOL_VERSION: &'static str = "2025-11-25";

/// The version this client gives for itself.
pub const CLIENT_VERSION: &'static str = "0.1.2";

/// How a result should be treated.
#[derive(Debug, Clone, Copy, PartialEq, Eq, Structural)]
pub enum ResultType {
    /// An ordinary result.
    Complete,
    /// The server needs something before it can finish.
    InputRequired,
}

impl Default for ResultType {
    fn default() -> (r: Self)
        ensures
            r == ResultType::Complete,
    {
        ResultType::Complete
    }
}

/// Who may cache a list result.
#[derive(Debug, Clone, Copy, PartialEq, Eq, Structural)]
pub enum CacheScope {
    /// Any shared intermediary may cache it.
    Public,
    /// Only this client, for this principal.
    Private,
}

impl Default for CacheScope {
    fn default() -> (r: Self)
        ensures
            r == CacheScope::Private,
    {
        CacheScope::Private
    }
}

/// A cache scope on the wire.
pub open spec fn scope_name(scope: CacheScope) -> Seq<char> {
    match scope {
        CacheScope::Public => "public"@,
        CacheScope::Private => "private"@,
    }
}

impl CacheScope {
    /// How the scope is written.
    pub fn name(self) -> (r: &'static str)
        ensures
            r@ == scope_name(self),
    {
        match self {
            CacheScope::Public => "public",
            CacheScope::Private => "private",
        }
    }
}

/// A JSON-RPC request, with the metadata every stateless request must carry.
#[derive(Debug, PartialEq, Eq)]
pub struct Request {
    /// Always `"2.0"`.
    pub jsonrpc: String,
    /// Correlation id.
    pub id: u64,
    /// Which RPC.
    pub method: String,
    /// Arguments.
    pub params: Option<Json>,
    /// Per-request metadata.
    pub meta: Json,
}

/// What a request says.
#[verifier::ext_equal]
pub struct RequestView {
    pub jsonrpc: Seq<char>,
    pub id: u64,
    pub method: Seq<char>,
    pub params: Option<JsonView>,
    pub meta: JsonView,
}

impl View for Request {
    type V = RequestView;

    open spec fn view(&self) -> RequestView {
        RequestView {
            jsonrpc: self.jsonrpc@,
            id: self.id,
            method: self.method@,
            params: opt_json(self.params),
            meta: self.meta@,
        }
    }
}

impl Clone for Request {
    fn clone(&self) -> (r: Self)
        ensures
            r@ == self@,
    {
        Request {
            jsonrpc: self.jsonrpc.clone(),
            id: self.id,
            method: self.method.clone(),
            params: copy_opt_json(&self.params),
            meta: self.meta.copy(),
        }
    }
}

/// The metadata that every request carries: the revision, what the client can do, and who it is.
pub open spec fn client_meta(client: ClientView) -> JsonView {
    json_with(
        json_with(
            json_with(
                no_fields(),
                meta_keys::PROTOCOL_VERSION@,
                JsonView::Text(PROTOCOL_VERSION@),
            ),
            meta_keys::CLIENT_CAPABILITIES@,
            client.capabilities,
        ),
        meta_keys::CLIENT_INFO@,
        json_with(
            json_with(no_fields(), "name"@, JsonView::Text(client.name)),
            "version"@,
            JsonView::Text(client.version),
        ),
    )
}

/// A request for a method.
pub open spec fn request_view(
    id: u64,
    method: Seq<char>,
    params: Option<JsonView>,
    client: ClientView,
) -> RequestView {
    RequestView { jsonrpc: "2.0"@, id, method, params, meta: client_meta(client) }
}

/// The tool that a request's parameters name.
pub open spec fn named_tool(params: Option<JsonView>) -> Option<Seq<char>> {
    match params {
        Some(p) => p.get_str("name"@),
        None => None,
    }
}

/// The texts of a list of header pairs.
pub open spec fn header_texts(v: Seq<(String, String)>) -> Seq<(Seq<char>, Seq<char>)> {
    Seq::new(v.len(), |i: int| (v[i].0@, v[i].1@))
}

/// A request as it is sent.
pub open spec fn sent(r: RequestView) -> JsonView {
    let head = json_with(
        json_with(
            json_with(no_fields(), "jsonrpc"@, JsonView::Text(r.jsonrpc)),
            "id"@,
            uint_view(r.id),
        ),
        "method"@,
        JsonView::Text(r.method),
    );
    let body = match r.params {
        Some(p) => json_with(head, "params"@, p),
        None => head,
    };
    json_with(body, "_meta"@, r.meta)
}

impl Request {
    /// A request carrying the mandatory metadata.
    #[must_use]
    pub fn new(id: u64, method: &str, params: Option<Json>, client: &ClientInfo) -> (r: Self)
        ensures
            r@ == request_view(id, method@, opt_json(params), client@),
    {
        let who = Json::empty().with("name", Json::text(client.name.as_str())).with(
            "version",
            Json::text(client.version.as_str()),
        );
        let meta = Json::empty().with(
            meta_keys::PROTOCOL_VERSION,
            Json::text(PROTOCOL_VERSION),
        ).with(meta_keys::CLIENT_CAPABILITIES, client.capabilities.copy()).with(
            meta_keys::CLIENT_INFO,
            who,
        );
        Request { jsonrpc: "2.0".to_owned(), id, method: method.to_owned(), params, meta }
    }

    /// Attach a W3C trace parent, so the server's spans join this run's trace.
    #[must_use]
    pub fn with_trace(self, traceparent: &str) -> (r: Self)
        requires
            self@.meta is Object || self@.meta is Null,
        ensures
            r@ == (RequestView {
                meta: json_with(
                    self@.meta,
                    meta_keys::TRACEPARENT@,
                    JsonView::Text(traceparent@),
                ),
                ..self@
            }),
    {
        Request {
            jsonrpc: self.jsonrpc,
            id: self.id,
            method: self.method,
            params: self.params,
            meta: self.meta.with(meta_keys::TRACEPARENT, Json::text(traceparent)),
        }
    }

    /// The HTTP headers required on a POST, so that gateways can route and meter without parsing
    /// the body.
    #[must_use]
    pub fn headers(&self) -> (r: Vec<(String, String)>)
        ensures
            header_texts(r@) == (match named_tool(self@.params) {
                Some(name) => seq![("Mcp-Method"@, self@.method), ("Mcp-Name"@, name)],
                None => seq![("Mcp-Method"@, self@.method)],
            }),
    {
        let mut headers: Vec<(String, String)> = Vec::new();
        headers.push(("Mcp-Method".to_owned(), self.method.clone()));
        if let Some(p) = &self.params {
            if let Some(name) = p.get_str("name") {
                headers.push(("Mcp-Name".to_owned(), name.to_owned()));
                assert(header_texts(headers@) == seq![
                    ("Mcp-Method"@, self@.method),
                    ("Mcp-Name"@, name@),
                ]);
                return headers;
            }
        }
        assert(header_texts(headers@) == seq![("Mcp-Method"@, self@.method)]);
        headers
    }

    /// The request as it is sent.
    #[must_use]
    pub fn to_json(&self) -> (r: Json)
        ensures
            r@ == sent(self@),
    {
        let head = Json::empty().with("jsonrpc", Json::text(self.jsonrpc.as_str())).with(
            "id",
            Json::natural(self.id),
        ).with("method", Json::text(self.method.as_str()));
        let body = match &self.params {
            Some(p) => head.with("params", p.copy()),
            None => head,
        };
        body.with("_meta", self.meta.copy())
    }
}

/// Who the client is, sent on every request.
#[derive(Debug, PartialEq, Eq)]
pub struct ClientInfo {
    /// Client name.
    pub name: String,
    /// Client version.
    pub version: String,
    /// What it supports.
    pub capabilities: Json,
}

/// Who a client is.
#[verifier::ext_equal]
pub struct ClientView {
    pub name: Seq<char>,
    pub version: Seq<char>,
    pub capabilities: JsonView,
}

impl View for ClientInfo {
    type V = ClientView;

    open spec fn view(&self) -> ClientView {
        ClientView {
            name: self.name@,
            version: self.version@,
            capabilities: self.capabilities@,
        }
    }
}

impl Clone for ClientInfo {
    fn clone(&self) -> (r: Self)
        ensures
            r@ == self@,
    {
        ClientInfo {
            name: self.name.clone(),
            version: self.version.clone(),
            capabilities: self.capabilities.copy(),
        }
    }
}

/// This client. It claims no capability: those it could claim are deprecated, and claiming one
/// invites a server to use it.
pub open spec fn this_client() -> ClientView {
    ClientView { name: "frey"@, version: CLIENT_VERSION@, capabilities: no_fields() }
}

impl Default for ClientInfo {
    fn default() -> (r: Self)
        ensures
            r@ == this_client(),
    {
        ClientInfo {
            name: "frey".to_owned(),
            version: CLIENT_VERSION.to_owned(),
            capabilities: Json::empty(),
        }
    }
}

/// What a server said about itself.
#[derive(Debug, PartialEq, Eq)]
pub struct ServerIdentity {
    /// Server name, if it gave one.
    pub name: Option<String>,
    /// Which revision this client will use with it.
    pub protocol_version: String,
    /// Whether it implements the stateless revision.
    pub stateless: bool,
}

impl Clone for ServerIdentity {
    fn clone(&self) -> (r: Self)
        ensures
            r == *self,
    {
        ServerIdentity {
            name: match &self.name {
                Some(n) => Some(n.clone()),
                None => None,
            },
            protocol_version: self.protocol_version.clone(),
            stateless: self.stateless,
        }
    }
}

/// One tool, as a server describes it.
#[derive(Debug, PartialEq, Eq)]
pub struct McpTool {
    /// Its name on that server.
    pub name: String,
    /// What it does. Written by the server, which is an untrusted party.
    pub description: String,
    /// Argument schema.
    pub input_schema: Json,
    /// Result schema, when the server publishes one.
    pub output_schema: Option<Json>,
}

/// One tool, as a server describes it.
#[verifier::ext_equal]
pub struct McpToolView {
    pub name: Seq<char>,
    pub description: Seq<char>,
    pub input_schema: JsonView,
    pub output_schema: Option<JsonView>,
}

impl DeepView for McpTool {
    type V = McpToolView;

    open spec fn deep_view(&self) -> McpToolView {
        McpToolView {
            name: self.name@,
            description: self.description@,
            input_schema: self.input_schema@,
            output_schema: opt_json(self.output_schema),
        }
    }
}

impl Clone for McpTool {
    fn clone(&self) -> (r: Self)
        ensures
            r.deep_view() == self.deep_view(),
    {
        McpTool {
            name: self.name.clone(),
            description: self.description.clone(),
            input_schema: self.input_schema.copy(),
            output_schema: copy_opt_json(&self.output_schema),
        }
    }
}

/// A tool on the wire.
pub open spec fn tool_json(t: McpToolView) -> JsonView {
    let head = json_with(
        json_with(
            json_with(no_fields(), "name"@, JsonView::Text(t.name)),
            "description"@,
            JsonView::Text(t.description),
        ),
        "inputSchema"@,
        t.input_schema,
    );
    match t.output_schema {
        Some(s) => json_with(head, "outputSchema"@, s),
        None => head,
    }
}

impl McpTool {
    /// The tool as it is listed.
    #[must_use]
    pub fn to_json(&self) -> (r: Json)
        ensures
            r@ == tool_json(self.deep_view()),
    {
        let head = Json::empty().with("name", Json::text(self.name.as_str())).with(
            "description",
            Json::text(self.description.as_str()),
        ).with("inputSchema", self.input_schema.copy());
        match &self.output_schema {
            Some(s) => head.with("outputSchema", s.copy()),
            None => head,
        }
    }
}

/// The result of `tools/list`, with its caching hints.
#[derive(Debug, PartialEq, Eq)]
pub struct ToolsList {
    /// The tools.
    pub tools: Vec<McpTool>,
    /// How long the listing may be considered fresh.
    pub ttl_ms: Option<u64>,
    /// Who may cache it.
    pub cache_scope: CacheScope,
}

/// What a server wants before it can finish.
///
/// Rather than the server calling back, it returns this, and the client retries the original
/// request with answers attached.
#[derive(Debug, PartialEq, Eq)]
pub struct InputRequired {
    /// What is needed.
    pub input_requests: Vec<Json>,
    /// Opaque state the server needs back on the retry. The client must not interpret or modify it.
    pub request_state: Option<Json>,
}

/// What a server wants before it can finish.
#[verifier::ext_equal]
pub struct InputRequiredView {
    pub input_requests: Seq<JsonView>,
    pub request_state: Option<JsonView>,
}

impl View for InputRequired {
    type V = InputRequiredView;

    open spec fn view(&self) -> InputRequiredView {
        InputRequiredView {
            input_requests: json_views(self.input_requests@),
            request_state: opt_json(self.request_state),
        }
    }
}

/// A parsed response.
#[derive(Debug, PartialEq, Eq)]
#[non_exhaustive]
pub enum Reply {
    /// An ordinary result.
    Complete(Json),
    /// The server needs something first.
    InputRequired(InputRequired),
    /// The server reported an error.
    Failed {
        /// JSON-RPC error code.
        code: i64,
        /// What it said.
        message: String,
    },
}

/// A parsed response.
pub enum ReplyView {
    Complete(JsonView),
    InputRequired(InputRequiredView),
    Failed { code: i64, message: Seq<char> },
}

impl View for Reply {
    type V = ReplyView;

    open spec fn view(&self) -> ReplyView {
        match *self {
            Reply::Complete(j) => ReplyView::Complete(j@),
            Reply::InputRequired(i) => ReplyView::InputRequired(i@),
            Reply::Failed { code, message } => ReplyView::Failed { code, message: message@ },
        }
    }
}

/// A response could not be understood.
#[derive(Debug, PartialEq, Eq)]
#[non_exhaustive]
pub enum ProtocolError {
    /// The body was not a JSON-RPC response.
    Malformed(String),
    /// The server speaks a revision this client cannot.
    UnsupportedVersion {
        /// What the server reported.
        found: String,
    },
}

/// A protocol error in words.
pub open spec fn protocol_error_text(e: ProtocolError) -> Seq<char> {
    match e {
        ProtocolError::Malformed(why) => "not a JSON-RPC response: "@ + why@,
        ProtocolError::UnsupportedVersion { found } => "server speaks MCP `"@ + found@
            + "`, which this client does not support (it speaks `"@ + PROTOCOL_VERSION@
            + "` and can shim `"@ + LEGACY_PROTOCOL_VERSION@ + "`)"@,
    }
}

impl ProtocolError {
    /// The error in words.
    pub fn to_string(&self) -> (r: String)
        ensures
            r@ == protocol_error_text(*self),
    {
        match self {
            ProtocolError::Malformed(why) => {
                let mut out = "not a JSON-RPC response: ".to_owned();
                out.push_str(why.as_str());
                out
            },
            ProtocolError::UnsupportedVersion { found } => {
                let mut out = "server speaks MCP `".to_owned();
                out.push_str(found.as_str());
                out.push_str("`, which this client does not support (it speaks `");
                out.push_str(PROTOCOL_VERSION);
                out.push_str("` and can shim `");
                out.push_str(LEGACY_PROTOCOL_VERSION);
                out.push_str("`)");
                out
            },
        }
    }
}

/// What a value that is no list is, in words.
pub open spec fn found_instead(j: JsonView) -> Seq<char> {
    match j {
        JsonView::Null => "null"@,
        JsonView::Bool(b) => if b {
            "boolean `true`"@
        } else {
            "boolean `false`"@
        },
        JsonView::Number(NumberView::PosInt(n)) => "integer `"@ + dec(n as nat) + "`"@,
        JsonView::Number(NumberView::NegInt(n)) => "integer `"@ + signed_dec(n as int) + "`"@,
        JsonView::Number(NumberView::Float(s)) => "floating point `"@ + s + "`"@,
        JsonView::Text(s) => "string "@ + debug_quoted(s),
        JsonView::Array(_) => "sequence"@,
        JsonView::Object(_) => "map"@,
    }
}

fn ticked(what: &str, value: &str) -> (r: String)
    ensures
        r@ == what@ + value@ + "`"@,
{
    let mut out = what.to_owned();
    out.push_str(value);
    out.push_str("`");
    out
}

fn name_found(j: &Json) -> (r: String)
    ensures
        r@ == found_instead(j@),
{
    match j {
        Json::Null => "null".to_owned(),
        Json::Bool(b) => {
            if *b {
                "boolean `true`".to_owned()
            } else {
                "boolean `false`".to_owned()
            }
        },
        Json::Number(Number::PosInt(n)) => ticked("integer `", decimal(*n).as_str()),
        Json::Number(Number::NegInt(n)) => ticked("integer `", signed_decimal(*n).as_str()),
        Json::Number(Number::Float(s)) => ticked("floating point `", s.as_str()),
        Json::Text(s) => {
            let mut out = "string ".to_owned();
            out.push_str(quote_debug(s.as_str()).as_str());
            out
        },
        Json::Array(_) => "sequence".to_owned(),
        Json::Object(_) => "map".to_owned(),
    }
}

/// What a result that asks for input says, or what is wrong with it. Requests that are not there
/// count as none; state that is not there, or is `null`, counts as none.
pub open spec fn input_required_of(result: JsonView) -> Result<InputRequiredView, Seq<char>> {
    let state = match result.get("requestState"@) {
        Some(JsonView::Null) => None,
        other => other,
    };
    match result.get("inputRequests"@) {
        None => Ok(InputRequiredView { input_requests: Seq::empty(), request_state: state }),
        Some(JsonView::Array(items)) => Ok(
            InputRequiredView { input_requests: items, request_state: state },
        ),
        Some(other) => Err("invalid type: "@ + found_instead(other) + ", expected a sequence"@),
    }
}

/// What a response body says, or what is wrong with it. An error is reported whatever else the body
/// holds; a result without a type is complete.
pub open spec fn reply_of(body: JsonView) -> Result<ReplyView, Seq<char>> {
    match body.get("error"@) {
        Some(error) => Ok(
            ReplyView::Failed {
                code: match error.get("code"@) {
                    Some(c) => match c.as_i64() {
                        Some(n) => n,
                        None => 0,
                    },
                    None => 0,
                },
                message: match error.get_str("message"@) {
                    Some(m) => m,
                    None => "no message"@,
                },
            },
        ),
        None => match body.get("result"@) {
            None => Err("no `result` and no `error`"@),
            Some(result) => if result.get_str("resultType"@) == Some("input_required"@) {
                match input_required_of(result) {
                    Ok(i) => Ok(ReplyView::InputRequired(i)),
                    Err(why) => Err(why),
                }
            } else {
                Ok(ReplyView::Complete(result))
            },
        },
    }
}

fn read_input_required(result: &Json) -> (r: Result<InputRequired, String>)
    ensures
        match r {
            Ok(i) => input_required_of(result@) == Ok::<InputRequiredView, Seq<char>>(i@),
            Err(why) => input_required_of(result@) == Err::<InputRequiredView, Seq<char>>(why@),
        },
{
    let request_state = match result.get("requestState") {
        Some(s) => {
            if s.is_null() {
                None
            } else {
                Some(s.copy())
            }
        },
        None => None,
    };
    match result.get("inputRequests") {
        None => {
            let input_requests: Vec<Json> = Vec::new();
            assert(json_views(input_requests@) == Seq::<JsonView>::empty());
            Ok(InputRequired { input_requests, request_state })
        },
        Some(v) => match v.as_array() {
            Some(items) => Ok(InputRequired { input_requests: copy_all(items), request_state }),
            None => {
                let mut why = "invalid type: ".to_owned();
                why.push_str(name_found(v).as_str());
                why.push_str(", expected a sequence");
                Err(why)
            },
        },
    }
}

/// Parse a JSON-RPC response body.
pub fn parse_reply(body: &Json) -> (r: Result<Reply, ProtocolError>)
    ensures
        match r {
            Ok(reply) => reply_of(body@) == Ok::<ReplyView, Seq<char>>(reply@),
            Err(ProtocolError::Malformed(why)) => reply_of(body@) == Err::<ReplyView, Seq<char>>(
                why@,
            ),
            Err(_) => false,
        },
{
    if let Some(error) = body.get("error") {
        let code: i64 = match error.get("code") {
            Some(c) => match c.as_i64() {
                Some(n) => n,
                None => 0,
            },
            None => 0,
        };
        let message = match error.get_str("message") {
            Some(m) => m.to_owned(),
            None => "no message".to_owned(),
        };
        return Ok(Reply::Failed { code, message });
    }
    let result = match body.get("result") {
        Some(r) => r,
        None => {
            return Err(ProtocolError::Malformed("no `result` and no `error`".to_owned()));
        },
    };
    let asks = match result.get_str("resultType") {
        Some(t) => same_text(t, "input_required"),
        None => false,
    };
    if asks {
        match read_input_required(result) {
            Ok(i) => Ok(Reply::InputRequired(i)),
            Err(why) => Err(ProtocolError::Malformed(why)),
        }
    } else {
        Ok(Reply::Complete(result.copy()))
    }
}

/// Whether a JSON-RPC error code means that a server does not implement a method. Such an answer is
/// a negotiation signal rather than a failure.
#[must_use]
pub fn is_method_not_found(code: i64) -> (r: bool)
    ensures
        r == (code == -32601),
{
    code == -32601
}

} // verus!
