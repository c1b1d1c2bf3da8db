//! Being a server, at the stateless revision.
//!
//! There is no transport here and no tool: a server says what a message asks for, the driver has
//! the tools answer, and the server says what to send back. A request carries everything needed to
//! serve it, so nothing is kept between calls and any instance can answer any request.

use vstd::prelude::*;

use crate::capability::{CapabilityView, GrantSet};
use crate::error::{opt_text, InputRequest, InputRequestView, NeedsInput, NeedsInputView, Risk, ToolError, ToolErrorKind, ToolErrorView, ToolOutcome};
use crate::ids::{CallId, RunId, SessionId, ToolName};
use crate::item::Caller;
use crate::json::{copy_all, int_view, json_debug, json_views, json_with, no_fields, one_item, text_items, uint_view, Json, JsonView};
use crate::mcp::codes;
use crate::mcp::meta_keys;
use crate::mcp::protocol::{scope_name, tool_json, CacheScope, McpTool, McpToolView, PROTOCOL_VERSION};
use crate::order::{in_order, sort, sorted, sorting_orders_and_keeps};
use crate::run::{definition_at, find_definition};
use crate::taint::{Provenance, ProvenanceView};
use crate::text::{debug_quoted, quote_debug, same_text};
use crate::tool::{toolset_error_text, Invocation, Resume, StepCx, ToolContent, ToolCx, ToolValue, ToolsetError};
use crate::tool_def::{ToolDefinition, ToolDefinitionView};

verus! {

/// How this server describes itself.
#[derive(Debug, PartialEq, Eq)]
pub struct ServerInfo {
    /// Server name.
    pub name: String,
    /// Server version.
    pub version: String,
    /// Prose shown to a model alongside the tools.
    pub instructions: Option<String>,
}

/// A server, without its tools.
#[derive(Debug)]
pub struct Server {
    info: ServerInfo,
    ttl_ms: Option<u64>,
    cache_scope: CacheScope,
}

/// A server, without its tools.
#[verifier::ext_equal]
pub struct ServerView {
    pub name: Seq<char>,
    pub version: Seq<char>,
    pub instructions: Option<Seq<char>>,
    pub ttl_ms: Option<u64>,
    pub cache_scope: CacheScope,
}

impl View for Server {
    type V = ServerView;

    closed spec fn view(&self) -> ServerView {
        ServerView {
            name: self.info.name@,
            version: self.info.version@,
            instructions: opt_text(self.info.instructions),
            ttl_ms: self.ttl_ms,
            cache_scope: self.cache_scope,
        }
    }
}

/// Where an answer goes: the id of the request, and its trace parent.
#[derive(Debug)]
pub struct ReplyTo {
    /// The id of the request.
    pub id: Json,
    /// The trace parent of the request, echoed in the answer.
    pub trace: Option<String>,
}

/// Where an answer goes.
#[verifier::ext_equal]
pub struct ReplyToView {
    pub id: JsonView,
    pub trace: Option<Seq<char>>,
}

impl View for ReplyTo {
    type V = ReplyToView;

    open spec fn view(&self) -> ReplyToView {
        ReplyToView { id: self.id@, trace: opt_text(self.trace) }
    }
}

/// A tool call from a client.
#[derive(Debug)]
pub struct ToolRequest {
    /// Which tool.
    pub name: String,
    /// The arguments, unvalidated.
    pub arguments: Json,
    /// Answers to an earlier request for input, where the call is a retry.
    pub resume: Option<Resume>,
}

/// A tool call from a client.
#[verifier::ext_equal]
pub struct ToolRequestView {
    pub name: Seq<char>,
    pub arguments: JsonView,
    pub resume: Option<(JsonView, Seq<JsonView>)>,
}

/// The state and the answers of a retry.
pub open spec fn opt_resume(r: Option<Resume>) -> Option<(JsonView, Seq<JsonView>)> {
    match r {
        Some(r) => Some((r.state@, json_views(r.answers@))),
        None => None,
    }
}

impl View for ToolRequest {
    type V = ToolRequestView;

    open spec fn view(&self) -> ToolRequestView {
        ToolRequestView {
            name: self.name@,
            arguments: self.arguments@,
            resume: opt_resume(self.resume),
        }
    }
}

/// What a message asks of the driver.
#[derive(Debug)]
pub enum Received {
    /// Nothing: a notification is not answered.
    Silent,
    /// Send this.
    Answer(Json),
    /// Have the tools listed.
    List(ReplyTo),
    /// Have a tool called.
    Call(ReplyTo, ToolRequest),
}

/// What a message asks for.
pub enum ReceivedView {
    Silent,
    Answer(JsonView),
    List(ReplyToView),
    Call(ReplyToView, ToolRequestView),
}

impl View for Received {
    type V = ReceivedView;

    open spec fn view(&self) -> ReceivedView {
        match *self {
            Received::Silent => ReceivedView::Silent,
            Received::Answer(j) => ReceivedView::Answer(j@),
            Received::List(r) => ReceivedView::List(r@),
            Received::Call(r, c) => ReceivedView::Call(r@, c@),
        }
    }
}

/// A JSON-RPC error.
pub open spec fn error_reply(id: JsonView, code: i64, message: Seq<char>) -> JsonView {
    json_with(
        json_with(
            json_with(no_fields(), "jsonrpc"@, JsonView::Text("2.0"@)),
            "id"@,
            id,
        ),
        "error"@,
        json_with(
            json_with(no_fields(), "code"@, int_view(code)),
            "message"@,
            JsonView::Text(message),
        ),
    )
}

/// A result with the trace parent echoed in its metadata. Whatever else stands there stays: a trace
/// is diagnostic and never affects the answer.
pub open spec fn traced(value: JsonView, trace: Option<Seq<char>>) -> JsonView {
    match trace {
        Some(t) => json_with(
            value,
            "_meta"@,
            json_with(
                match value.get("_meta"@) {
                    Some(meta) => meta,
                    None => no_fields(),
                },
                meta_keys::TRACEPARENT@,
                JsonView::Text(t),
            ),
        ),
        None => value,
    }
}

/// A JSON-RPC result, with the trace parent echoed in it.
pub open spec fn result_reply(to: ReplyToView, value: JsonView) -> JsonView {
    json_with(
        json_with(
            json_with(no_fields(), "jsonrpc"@, JsonView::Text("2.0"@)),
            "id"@,
            to.id,
        ),
        "result"@,
        traced(value, to.trace),
    )
}

/// How a server describes itself to a client. There is no session id: a stateless server issues
/// none.
pub open spec fn self_description(s: ServerView) -> JsonView {
    let value = json_with(
        json_with(
            json_with(
                json_with(
                    no_fields(),
                    "protocolVersion"@,
                    JsonView::Text(PROTOCOL_VERSION@),
                ),
                "serverInfo"@,
                json_with(
                    json_with(no_fields(), "name"@, JsonView::Text(s.name)),
                    "version"@,
                    JsonView::Text(s.version),
                ),
            ),
            "stateless"@,
            JsonView::Bool(true),
        ),
        "capabilities"@,
        json_with(no_fields(), "tools"@, no_fields()),
    );
    match s.instructions {
        Some(i) => json_with(value, "instructions"@, JsonView::Text(i)),
        None => value,
    }
}

/// The parameters of a message.
pub open spec fn params_of(raw: JsonView) -> JsonView {
    match raw.get("params"@) {
        Some(p) => p,
        None => JsonView::Null,
    }
}

/// The trace parent of a message.
pub open spec fn trace_of(raw: JsonView) -> Option<Seq<char>> {
    match raw.get("_meta"@) {
        Some(m) => m.get_str(meta_keys::TRACEPARENT@),
        None => None,
    }
}

/// The answers that a call brings along, with the state that was handed out for it. Without answers
/// a call is a first attempt, whatever state it brings: an absent answer is not a yes.
pub open spec fn resume_of(params: JsonView) -> Option<(JsonView, Seq<JsonView>)> {
    match params.get("inputResponses"@) {
        Some(JsonView::Array(answers)) => Some(
            (
                match params.get("requestState"@) {
                    Some(s) => s,
                    None => JsonView::Null,
                },
                answers,
            ),
        ),
        _ => None,
    }
}

/// The call that some parameters ask for.
pub open spec fn call_of(params: JsonView, name: Seq<char>) -> ToolRequestView {
    ToolRequestView {
        name,
        arguments: match params.get("arguments"@) {
            Some(a) => a,
            None => no_fields(),
        },
        resume: resume_of(params),
    }
}

/// What a message asks for.
pub open spec fn received(s: ServerView, raw: JsonView) -> ReceivedView {
    match raw.get("id"@) {
        None => ReceivedView::Silent,
        Some(id) => {
            let to = ReplyToView { id, trace: trace_of(raw) };
            match raw.get_str("method"@) {
                None => ReceivedView::Answer(
                    error_reply(id, codes::INVALID_REQUEST, "request has no `method`"@),
                ),
                Some(method) => if method == "server/discover"@ || method == "initialize"@ {
                    ReceivedView::Answer(result_reply(to, self_description(s)))
                } else if method == "tools/list"@ {
                    ReceivedView::List(to)
                } else if method == "tools/call"@ {
                    match params_of(raw).get_str("name"@) {
                        None => ReceivedView::Answer(
                            error_reply(id, codes::INVALID_PARAMS, "`tools/call` needs a `name`"@),
                        ),
                        Some(name) => ReceivedView::Call(to, call_of(params_of(raw), name)),
                    }
                } else {
                    ReceivedView::Answer(
                        error_reply(
                            id,
                            codes::METHOD_NOT_FOUND,
                            "this server does not implement `"@ + method + "`"@,
                        ),
                    )
                },
            }
        },
    }
}

fn error(id: &Json, code: i64, message: &str) -> (r: Json)
    ensures
        r@ == error_reply(id@, code, message@),
{
    let why = Json::empty().with("code", Json::integer(code)).with("message", Json::text(message));
    Json::empty().with("jsonrpc", Json::text("2.0")).with("id", id.copy()).with("error", why)
}

fn success(to: &ReplyTo, value: Json) -> (r: Json)
    requires
        value@ is Object,
    ensures
        r@ == result_reply(to@, value@),
{
    let result = match &to.trace {
        Some(t) => {
            let meta = match value.get("_meta") {
                Some(m) => match m.as_object() {
                    Some(_) => m.copy(),
                    None => Json::empty(),
                },
                None => Json::empty(),
            };
            value.with("_meta", meta.with(meta_keys::TRACEPARENT, Json::text(t.as_str())))
        },
        None => value,
    };
    Json::empty().with("jsonrpc", Json::text("2.0")).with("id", to.id.copy()).with(
        "result",
        result,
    )
}

/// A tool as it is listed.
pub open spec fn listed_tool(d: ToolDefinitionView) -> McpToolView {
    McpToolView {
        name: d.name,
        description: d.description,
        input_schema: d.input_schema,
        output_schema: d.output_schema,
    }
}

/// A listing: the tools in order of their names, who may cache it, and for how long.
pub open spec fn listing(s: ServerView, defs: Seq<ToolDefinition>) -> JsonView {
    let tools = sorted(defs);
    let value = json_with(
        json_with(
            no_fields(),
            "tools"@,
            JsonView::Array(Seq::new(tools.len(), |i: int| tool_json(listed_tool(tools[i]@)))),
        ),
        "cacheScope"@,
        JsonView::Text(scope_name(s.cache_scope)),
    );
    match s.ttl_ms {
        Some(ttl) => json_with(value, "ttlMs"@, uint_view(ttl)),
        None => value,
    }
}

/// A piece of text as a content block.
pub open spec fn text_block(text: Seq<char>) -> JsonView {
    json_with(
        json_with(no_fields(), "type"@, JsonView::Text("text"@)),
        "text"@,
        JsonView::Text(text),
    )
}

/// A result with one piece of text.
pub open spec fn text_result(text: Seq<char>, is_error: bool) -> JsonView {
    json_with(
        json_with(no_fields(), "content"@, JsonView::Array(seq![text_block(text)])),
        "isError"@,
        JsonView::Bool(is_error),
    )
}

/// The kind of a tool failure on the wire.
pub open spec fn wire_kind(kind: ToolErrorKind) -> Seq<char> {
    match kind {
        ToolErrorKind::NotFound => "not_found"@,
        ToolErrorKind::InvalidArgs => "invalid_args"@,
        ToolErrorKind::Denied => "denied"@,
        ToolErrorKind::Conflict => "conflict"@,
        ToolErrorKind::Timeout => "timeout"@,
        ToolErrorKind::Transient => "transient"@,
        ToolErrorKind::Fatal => "fatal"@,
        ToolErrorKind::Cancelled => "cancelled"@,
    }
}

/// The kind of a tool failure on the wire.
pub fn kind_name(kind: ToolErrorKind) -> (r: &'static str)
    ensures
        r@ == wire_kind(kind),
{
    match kind {
        ToolErrorKind::NotFound => "not_found",
        ToolErrorKind::InvalidArgs => "invalid_args",
        ToolErrorKind::Denied => "denied",
        ToolErrorKind::Conflict => "conflict",
        ToolErrorKind::Timeout => "timeout",
        ToolErrorKind::Transient => "transient",
        ToolErrorKind::Fatal => "fatal",
        ToolErrorKind::Cancelled => "cancelled",
    }
}

/// A tool failure as a result that the model can read: what the model is told, and the kind.
pub open spec fn error_result(e: ToolErrorView) -> JsonView {
    json_with(
        text_result(e.model.text(), true),
        "_meta"@,
        json_with(
            no_fields(),
            "io.modelcontextprotocol/errorKind"@,
            JsonView::Text(wire_kind(e.kind)),
        ),
    )
}

fn text_answer(text: &str, is_error: bool) -> (r: Json)
    ensures
        r@ == text_result(text@, is_error),
        r@ is Object,
{
    let block = Json::empty().with("type", Json::text("text")).with("text", Json::text(text));
    Json::empty().with("content", one_item(block)).with("isError", Json::flag(is_error))
}

/// Render a tool failure as a result that the model can read, and not as a JSON-RPC error: a
/// protocol error is the client's problem and stops there.
pub fn tool_error(e: &ToolError) -> (r: Json)
    ensures
        r@ == error_result(e@),
        r@ is Object,
{
    let text = e.model().to_string();
    text_answer(text.as_str(), true).with(
        "_meta",
        Json::empty().with(
            "io.modelcontextprotocol/errorKind",
            Json::text(kind_name(e.kind())),
        ),
    )
}

/// A risk on the wire.
pub open spec fn risk_name(risk: Risk) -> Seq<char> {
    match risk {
        Risk::Low => "low"@,
        Risk::Medium => "medium"@,
        Risk::High => "high"@,
    }
}

/// A request for input on the wire. An approval shows the literal action.
pub open spec fn asked(request: InputRequestView) -> JsonView {
    match request {
        InputRequestView::Approval { literal, risk } => json_with(
            json_with(
                json_with(no_fields(), "kind"@, JsonView::Text("approval"@)),
                "literal"@,
                JsonView::Text(literal),
            ),
            "risk"@,
            JsonView::Text(risk_name(risk)),
        ),
        InputRequestView::Choice { prompt, options } => json_with(
            json_with(
                json_with(no_fields(), "kind"@, JsonView::Text("choice"@)),
                "prompt"@,
                JsonView::Text(prompt),
            ),
            "options"@,
            JsonView::Array(Seq::new(options.len(), |i: int| JsonView::Text(options[i]))),
        ),
        InputRequestView::Form { schema } => json_with(
            json_with(no_fields(), "kind"@, JsonView::Text("form"@)),
            "schema"@,
            schema,
        ),
        InputRequestView::Auth { resource } => json_with(
            json_with(no_fields(), "kind"@, JsonView::Text("auth"@)),
            "resource"@,
            JsonView::Text(resource),
        ),
        InputRequestView::FrontendTool { name, args } => json_with(
            json_with(no_fields(), "kind"@, JsonView::Text("other"@)),
            "detail"@,
            JsonView::Text(
                "FrontendTool { name: "@ + debug_quoted(name) + ", args: "@ + json_debug(args)
                    + " }"@,
            ),
        ),
    }
}

/// Project a request for input onto the wire.
pub fn input_request(request: &InputRequest) -> (r: Json)
    ensures
        r@ == asked(request@),
{
    match request {
        InputRequest::Approval { literal, risk } => Json::empty().with(
            "kind",
            Json::text("approval"),
        ).with("literal", Json::text(literal.as_str())).with(
            "risk",
            Json::text(
                match risk {
                    Risk::Low => "low",
                    Risk::Medium => "medium",
                    Risk::High => "high",
                },
            ),
        ),
        InputRequest::Choice { prompt, options } => Json::empty().with(
            "kind",
            Json::text("choice"),
        ).with("prompt", Json::text(prompt.as_str())).with("options", text_items(options)),
        InputRequest::Form { schema } => Json::empty().with("kind", Json::text("form")).with(
            "schema",
            schema.copy(),
        ),
        InputRequest::Auth { resource } => Json::empty().with("kind", Json::text("auth")).with(
            "resource",
            Json::text(resource.as_str()),
        ),
        InputRequest::FrontendTool { name, args } => {
            let mut detail = "FrontendTool { name: ".to_owned();
            detail.push_str(quote_debug(name.as_str()).as_str());
            detail.push_str(", args: ");
            detail.push_str(args.debug_text().as_str());
            detail.push_str(" }");
            Json::empty().with("kind", Json::text("other")).with(
                "detail",
                Json::text(detail.as_str()),
            )
        },
    }
}

/// A call that waits for input, as a result: what is needed, and the state to hand back.
pub open spec fn waiting_result(needs: NeedsInputView) -> JsonView {
    json_with(
        json_with(
            json_with(no_fields(), "resultType"@, JsonView::Text("input_required"@)),
            "inputRequests"@,
            JsonView::Array(Seq::new(needs.requests.len(), |i: int| asked(needs.requests[i]))),
        ),
        "requestState"@,
        json_with(no_fields(), "token"@, JsonView::Text(needs.token)),
    )
}

/// What came of a call, as a result.
pub open spec fn outcome_result(outcome: ToolOutcome<ToolValue>) -> JsonView {
    match outcome {
        ToolOutcome::Done(value) => {
            let content = value.inner()@;
            let result = text_result(content.text, false);
            match content.structured {
                Some(s) => json_with(result, "structuredContent"@, s),
                None => result,
            }
        },
        ToolOutcome::Failed(e) => error_result(e@),
        ToolOutcome::Denied(e) => error_result(e@),
        ToolOutcome::NeedsInput(needs) => waiting_result(needs@),
    }
}

fn waiting(needs: &NeedsInput) -> (r: Json)
    ensures
        r@ == waiting_result(needs@),
        r@ is Object,
{
    let mut requests: Vec<Json> = Vec::new();
    let mut i: usize = 0;
    while i < needs.requests.len()
        invariant
            i <= needs.requests@.len(),
            requests@.len() == i,
            forall|j: int| 0 <= j < i ==> (#[trigger] requests@[j])@ == asked(needs.requests@[j]@),
        decreases needs.requests@.len() - i,
    {
        requests.push(input_request(&needs.requests[i]));
        i = i + 1;
    }
    assert(json_views(requests@) == Seq::new(
        needs@.requests.len(),
        |i: int| asked(needs@.requests[i]),
    ));
    Json::empty().with("resultType", Json::text("input_required")).with(
        "inputRequests",
        Json::array(requests),
    ).with("requestState", Json::empty().with("token", Json::text(needs.token.as_str())))
}

fn read_resume(params: &Json) -> (r: Option<Resume>)
    ensures
        opt_resume(r) == resume_of(params@),
{
    let answers = match params.get("inputResponses") {
        Some(a) => a.as_array(),
        None => None,
    };
    match answers {
        Some(items) => Some(
            Resume {
                state: match params.get("requestState") {
                    Some(s) => s.copy(),
                    None => Json::Null,
                },
                answers: copy_all(items),
            },
        ),
        None => None,
    }
}

/// Whether a call goes ahead.
#[derive(Debug)]
pub enum Checked {
    /// It does not. Send this; the tool is not called.
    Refused(Json),
    /// It does.
    Run {
        /// The call.
        invocation: Invocation,
        /// What the tool may know.
        cx: ToolCx,
    },
}

/// Whether a call is the one that a request asks for. A server hands out no capability, and a retry
/// brings its answers along.
pub open spec fn call_for(
    s: ServerView,
    request: ToolRequestView,
    invocation: Invocation,
    cx: ToolCx,
) -> bool {
    &&& invocation.id@ == "mcp-call"@
    &&& invocation.name@ == request.name
    &&& invocation.args@ == request.arguments
    &&& invocation.caller == Caller::Direct
    &&& cx.run@ == "mcp"@
    &&& cx.session@ == "stateless"@
    &&& cx.grants@ == Seq::<CapabilityView>::empty()
    &&& cx.provenance@ == ProvenanceView::straight("mcp:"@ + (s.name + "/"@ + request.name))
    &&& opt_resume(cx.resume) == request.resume
}

impl Server {
    /// A server. A listing is fresh for five minutes, and private to the client that asked for it,
    /// unless the operator says otherwise.
    pub fn new(name: &str, version: &str) -> (r: Self)
        ensures
            r@ == (ServerView {
                name: name@,
                version: version@,
                instructions: None,
                ttl_ms: Some(300_000),
                cache_scope: CacheScope::Private,
            }),
    {
        Server {
            info: ServerInfo {
                name: name.to_owned(),
                version: version.to_owned(),
                instructions: None,
            },
            ttl_ms: Some(300_000),
            cache_scope: CacheScope::Private,
        }
    }

    /// Prose the client should show the model when these tools are visible.
    #[must_use]
    pub fn instructions(self, text: &str) -> (r: Self)
        ensures
            r@ == (ServerView { instructions: Some(text@), ..self@ }),
    {
        Server {
            info: ServerInfo {
                name: self.info.name,
                version: self.info.version,
                instructions: Some(text.to_owned()),
            },
            ttl_ms: self.ttl_ms,
            cache_scope: self.cache_scope,
        }
    }

    /// How long a client may treat a listing as fresh. `None` means not to cache it.
    #[must_use]
    pub fn ttl_ms(self, ttl: Option<u64>) -> (r: Self)
        ensures
            r@ == (ServerView { ttl_ms: ttl, ..self@ }),
    {
        Server { info: self.info, ttl_ms: ttl, cache_scope: self.cache_scope }
    }

    /// Who may cache a listing. Public authorises shared intermediaries to serve one principal's
    /// listing to another.
    #[must_use]
    pub fn cache_scope(self, scope: CacheScope) -> (r: Self)
        ensures
            r@ == (ServerView { cache_scope: scope, ..self@ }),
    {
        Server { info: self.info, ttl_ms: self.ttl_ms, cache_scope: scope }
    }

    fn discover(&self) -> (r: Json)
        ensures
            r@ == self_description(self@),
            r@ is Object,
    {
        let who = Json::empty().with("name", Json::text(self.info.name.as_str())).with(
            "version",
            Json::text(self.info.version.as_str()),
        );
        let value = Json::empty().with("protocolVersion", Json::text(PROTOCOL_VERSION)).with(
            "serverInfo",
            who,
        ).with("stateless", Json::flag(true)).with(
            "capabilities",
            Json::empty().with("tools", Json::empty()),
        );
        match &self.info.instructions {
            Some(i) => value.with("instructions", Json::text(i.as_str())),
            None => value,
        }
    }

    /// Handle one JSON-RPC message: what it asks for, or what to answer.
    ///
    /// A message without an id is a notification and is not answered. `initialize` belongs to an
    /// earlier revision and is answered like `server/discover`, for clients that send it first and
    /// give up on an error.
    pub fn handle(&self, raw: &Json) -> (r: Received)
        ensures
            r@ == received(self@, raw@),
    {
        let id = match raw.get("id") {
            Some(id) => id.copy(),
            None => {
                return Received::Silent;
            },
        };
        let method = match raw.get_str("method") {
            Some(m) => m,
            None => {
                return Received::Answer(
                    error(&id, codes::INVALID_REQUEST, "request has no `method`"),
                );
            },
        };
        let trace = match raw.get("_meta") {
            Some(m) => match m.get_str(meta_keys::TRACEPARENT) {
                Some(t) => Some(t.to_owned()),
                None => None,
            },
            None => None,
        };
        let to = ReplyTo { id, trace };
        if same_text(method, "server/discover") || same_text(method, "initialize") {
            return Received::Answer(success(&to, self.discover()));
        }
        if same_text(method, "tools/list") {
            return Received::List(to);
        }
        if same_text(method, "tools/call") {
            let params = match raw.get("params") {
                Some(p) => p.copy(),
                None => Json::Null,
            };
            return match params.get_str("name") {
                None => Received::Answer(
                    error(&to.id, codes::INVALID_PARAMS, "`tools/call` needs a `name`"),
                ),
                Some(name) => {
                    let arguments = match params.get("arguments") {
                        Some(a) => a.copy(),
                        None => Json::empty(),
                    };
                    Received::Call(
                        to,
                        ToolRequest {
                            name: name.to_owned(),
                            arguments,
                            resume: read_resume(&params),
                        },
                    )
                },
            };
        }
        let mut message = "this server does not implement `".to_owned();
        message.push_str(method);
        message.push_str("`");
        Received::Answer(error(&to.id, codes::METHOD_NOT_FOUND, message.as_str()))
    }

    /// What the tools are told when they are asked for their definitions. A stateless server has no
    /// idea what the caller's budget is, so it names no limit.
    pub fn step() -> (r: StepCx)
        ensures
            r.run@ == "mcp"@,
            r.session@ == "stateless"@,
            r.task@.len() == 0,
            r.tokens_available == u32::MAX,
    {
        StepCx {
            run: RunId::new("mcp"),
            session: SessionId::new("stateless"),
            task: String::new(),
            tokens_available: u32::MAX,
        }
    }

    /// The answer to a request for the tools, given their definitions. They are sorted before they
    /// go out, so that a client's prompt cache survives.
    pub fn list_tools(
        &self,
        to: &ReplyTo,
        definitions: Result<Vec<ToolDefinition>, ToolsetError>,
    ) -> (r: Json)
        ensures
            match definitions {
                Ok(defs) => r@ == result_reply(to@, listing(self@, defs@)),
                Err(e) => r@ == error_reply(to@.id, codes::INTERNAL_ERROR, toolset_error_text(e)),
            },
    {
        let defs = match definitions {
            Ok(d) => d,
            Err(e) => {
                return error(&to.id, codes::INTERNAL_ERROR, e.to_string().as_str());
            },
        };
        let ordered = sort(defs);
        let ghost all = ordered@;
        let mut tools: Vec<Json> = Vec::new();
        let mut i: usize = 0;
        while i < ordered.len()
            invariant
                i <= ordered@.len(),
                all == ordered@,
                tools@.len() == i,
                forall|j: int|
                    0 <= j < i ==> (#[trigger] tools@[j])@ == tool_json(listed_tool(all[j]@)),
            decreases ordered@.len() - i,
        {
            let d = &ordered[i];
            let tool = McpTool {
                name: d.name.as_str().to_owned(),
                description: d.description.clone(),
                input_schema: d.input_schema.as_value().copy(),
                output_schema: match &d.output_schema {
                    Some(s) => Some(s.as_value().copy()),
                    None => None,
                },
            };
            assert(tool.deep_view() =~= listed_tool(d@));
            tools.push(tool.to_json());
            i = i + 1;
        }
        assert(json_views(tools@) == Seq::new(
            all.len(),
            |i: int| tool_json(listed_tool(all[i]@)),
        ));
        let value = Json::empty().with("tools", Json::array(tools)).with(
            "cacheScope",
            Json::text(self.cache_scope.name()),
        );
        let value = match self.ttl_ms {
            Some(ttl) => value.with("ttlMs", Json::natural(ttl)),
            None => value,
        };
        success(to, value)
    }

    /// The definition to validate a call against: the first of the called name, where the tools
    /// could be consulted and have one.
    pub fn definition_of<'a>(
        definitions: &'a Result<Vec<ToolDefinition>, ToolsetError>,
        name: &str,
    ) -> (r: Option<&'a ToolDefinition>)
        ensures
            match definitions {
                Ok(defs) => match definition_at(defs.deep_view(), name@) {
                    Some(i) => r matches Some(d) && *d == defs@[i],
                    None => r is None,
                },
                Err(_) => r is None,
            },
    {
        match definitions {
            Ok(defs) => match find_definition(defs, name) {
                Some(i) => Some(&defs[i]),
                None => None,
            },
            Err(_) => None,
        }
    }

    /// Whether a call goes ahead, given what checking its arguments against the tool's schema found
    /// wrong with them. A call with invalid arguments is answered here, as a result that the model
    /// can read, and there is nothing to run. This is the only way to a call.
    pub fn checked(&self, to: &ReplyTo, request: ToolRequest, invalid: Option<ToolError>) -> (r:
        Checked)
        ensures
            match invalid {
                Some(e) => r matches Checked::Refused(answer) && answer@ == result_reply(
                    to@,
                    error_result(e@),
                ),
                None => r matches Checked::Run { invocation, cx } && call_for(
                    self@,
                    request@,
                    invocation,
                    cx,
                ),
            },
    {
        match invalid {
            Some(e) => Checked::Refused(success(to, tool_error(&e))),
            None => {
                let (invocation, cx) = self.invocation(request);
                Checked::Run { invocation, cx }
            },
        }
    }

    fn invocation(&self, request: ToolRequest) -> (r: (Invocation, ToolCx))
        ensures
            call_for(self@, request@, r.0, r.1),
    {
        let mut from = self.info.name.clone();
        from.push_str("/");
        from.push_str(request.name.as_str());
        let first = ToolCx::new(
            RunId::new("mcp"),
            SessionId::new("stateless"),
            GrantSet::empty(),
            Provenance::tagged("mcp:", from.as_str()),
        );
        let cx = match request.resume {
            Some(resume) => first.resuming(resume),
            None => first,
        };
        (
            Invocation {
                id: CallId::new("mcp-call"),
                name: ToolName::new(request.name.as_str()),
                args: request.arguments,
                caller: Caller::Direct,
            },
            cx,
        )
    }

    /// The answer to a call, given what came of it. A tool that fails says so in the result, and one
    /// that needs input says what it needs, so that the client can retry with answers attached.
    pub fn call_tool(to: &ReplyTo, outcome: &ToolOutcome<ToolValue>) -> (r: Json)
        ensures
            r@ == result_reply(to@, outcome_result(*outcome)),
    {
        let result = match outcome {
            ToolOutcome::Done(value) => {
                let content: &ToolContent = value.peek();
                let result = text_answer(content.text.as_str(), false);
                match &content.structured {
                    Some(s) => result.with("structuredContent", s.copy()),
                    None => result,
                }
            },
            ToolOutcome::Failed(e) => tool_error(e),
            ToolOutcome::Denied(e) => tool_error(e),
            ToolOutcome::NeedsInput(needs) => waiting(needs),
        };
        success(to, result)
    }
}

/// A listing names its tools in order, whatever order they were registered in.
pub proof fn listings_are_in_order(defs: Seq<ToolDefinition>)
    ensures
        in_order(sorted(defs)),
        sorted(defs).to_multiset() == defs.to_multiset(),
{
    sorting_orders_and_keeps(defs);
}

} // verus!
