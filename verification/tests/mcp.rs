use frey::error::{InputRequest, NeedsInput, Risk, ToolError, ToolErrorKind, ToolOutcome};
use frey::ids::ServerId;
use frey::json::{Json, Number};
use frey::mcp::client::{Catalog, CatalogCache, McpClient, McpError, TransportError, MAX_TTL_MS};
use frey::mcp::codes;
use frey::mcp::meta_keys;
use frey::mcp::protocol::{
    is_method_not_found, parse_reply, CacheScope, ClientInfo, McpTool, ProtocolError, Reply, Request, ToolsList,
    LEGACY_PROTOCOL_VERSION, PROTOCOL_VERSION,
};
use frey::mcp::server::{Checked, kind_name, Received, Server};
use frey::taint::{IntegrityLevel, Tainted};
use frey::tool::{Invocation, ToolContent, ToolCx, ToolValue, ToolsetError};
use frey::tool_def::{JsonSchema, ToolDefinition};

fn from_value(v: &serde_json::Value) -> Json {
    match v {
        serde_json::Value::Null => Json::Null,
        serde_json::Value::Bool(b) => Json::Bool(*b),
        serde_json::Value::Number(n) => match (n.as_u64(), n.as_i64()) {
            (Some(u), _) => Json::natural(u),
            (None, Some(i)) => Json::integer(i),
            _ => Json::Number(Number::Float(n.to_string())),
        },
        serde_json::Value::String(s) => Json::text(s),
        serde_json::Value::Array(a) => Json::array(a.iter().map(from_value).collect()),
        serde_json::Value::Object(o) => {
            o.iter().fold(Json::empty(), |all, (k, v)| all.with(k, from_value(v)))
        }
    }
}

/// A JSON document, read from its text.
fn json(text: &str) -> Json {
    from_value(&serde_json::from_str(text).unwrap())
}

/// What stands at a path of names in a document.
fn at<'a>(mut doc: &'a Json, path: &[&str]) -> &'a Json {
    for name in path {
        doc = doc.get(name).unwrap_or_else(|| panic!("no `{name}` in {doc:?}"));
    }
    doc
}

fn first(doc: &Json) -> &Json {
    &doc.as_array().unwrap()[0]
}

#[test]
fn every_request_carries_the_metadata_a_stateless_server_needs() {
    // There is no handshake, so a request that omits this is unanswerable.
    let request = Request::new(1, "tools/list", None, &ClientInfo::default());
    assert_eq!(request.meta.get_str(meta_keys::PROTOCOL_VERSION), Some("2026-07-28"));
    assert!(request.meta.get(meta_keys::CLIENT_CAPABILITIES).is_some());
    assert_eq!(request.meta.get(meta_keys::CLIENT_INFO).unwrap().get_str("name"), Some("frey"));
}

#[test]
fn deprecated_capabilities_are_not_advertised() {
    let capabilities = ClientInfo::default().capabilities;
    for deprecated in ["roots", "sampling", "logging"] {
        assert!(capabilities.get(deprecated).is_none(), "must not claim {deprecated}");
    }
}

#[test]
fn routing_headers_let_a_gateway_meter_without_parsing_the_body() {
    let request = Request::new(
        1,
        "tools/call",
        Some(json(r#"{"name": "fs_read", "arguments": {}}"#)),
        &ClientInfo::default(),
    );
    let headers = request.headers();
    assert!(headers.contains(&("Mcp-Method".into(), "tools/call".into())));
    assert!(headers.contains(&("Mcp-Name".into(), "fs_read".into())));
}

#[test]
fn a_trace_parent_joins_the_servers_spans_to_this_run() {
    let request = Request::new(1, "tools/list", None, &ClientInfo::default()).with_trace("00-abc-def-01");
    assert_eq!(request.meta.get_str(meta_keys::TRACEPARENT), Some("00-abc-def-01"));
}

#[test]
fn a_result_without_a_result_type_is_treated_as_complete() {
    let reply = parse_reply(&json(r#"{"result": {"tools": []}}"#)).unwrap();
    assert!(matches!(reply, Reply::Complete(_)));
}

#[test]
fn an_input_required_result_is_recognised_and_keeps_the_servers_sealed_state() {
    let reply = parse_reply(&json(
        r#"{
            "result": {
                "resultType": "input_required",
                "inputRequests": [{"kind": "confirm", "prompt": "delete?"}],
                "requestState": {"sealed": "opaque-hmac"}
            }
        }"#,
    ))
    .unwrap();

    let Reply::InputRequired(input) = reply else { panic!("expected input_required") };
    assert_eq!(input.input_requests.len(), 1);
    // The client must hand this back untouched; interpreting it would break the server's seal.
    assert_eq!(input.request_state.unwrap().get_str("sealed"), Some("opaque-hmac"));
}

#[test]
fn errors_are_parsed_rather_than_thrown_away() {
    let reply = parse_reply(&json(r#"{"error": {"code": -32601, "message": "no such method"}}"#)).unwrap();
    let Reply::Failed { code, message } = reply else { panic!("expected a failure") };
    assert!(is_method_not_found(code), "which is how discovery probing works");
    assert_eq!(message, "no such method");
}

#[test]
fn a_body_that_is_neither_result_nor_error_is_malformed() {
    assert!(matches!(parse_reply(&json(r#"{"jsonrpc": "2.0"}"#)), Err(ProtocolError::Malformed(_))));
}

/// Sends a request to a scripted server and reads the answer.
fn ask(client: &mut McpClient, method: &str, answer: &str) -> (Request, Result<Json, McpError>) {
    let request = client.request(method, None);
    let read = client.read(&json(answer));
    (request, read)
}

fn client(server: &str) -> McpClient {
    McpClient::new(ServerId::new(server))
}

#[test]
fn a_modern_server_is_recognised_from_server_discover() {
    let mut client = client("github");
    let (_, answer) = ask(&mut client, "server/discover", r#"{"result": {"serverInfo": {"name": "github"}}}"#);
    let identity = client.negotiate(answer).unwrap();

    assert!(identity.stateless);
    assert_eq!(identity.protocol_version, PROTOCOL_VERSION);
    assert_eq!(identity.name.as_deref(), Some("github"));
}

#[test]
fn an_older_server_is_negotiated_rather_than_failed() {
    // A method-not-found for `server/discover` is how an older server identifies itself. Treating it
    // as an error would make every existing server unusable.
    let mut client = client("legacy");
    let (_, answer) =
        ask(&mut client, "server/discover", r#"{"error": {"code": -32601, "message": "unknown method"}}"#);
    let identity = client.negotiate(answer).unwrap();

    assert!(!identity.stateless);
    assert_eq!(identity.protocol_version, LEGACY_PROTOCOL_VERSION);
}

#[test]
fn a_real_server_error_is_still_an_error() {
    let mut client = client("broken");
    let (_, answer) =
        ask(&mut client, "server/discover", r#"{"error": {"code": -32000, "message": "internal"}}"#);
    assert!(matches!(client.negotiate(answer), Err(McpError::Server { code: -32000, .. })));
}

#[test]
fn an_unreachable_server_is_an_error() {
    let gone = TransportError { server: ServerId::new("gh"), detail: "refused".into() };
    assert!(matches!(client("gh").negotiate(Err(McpError::Transport(gone))), Err(McpError::Transport(_))));
}

fn offered(name: &str, description: &str) -> McpTool {
    McpTool {
        name: name.into(),
        description: description.into(),
        input_schema: json(r#"{"type": "object"}"#),
        output_schema: None,
    }
}

fn listed(tools: Vec<McpTool>) -> ToolsList {
    ToolsList { tools, ttl_ms: None, cache_scope: CacheScope::default() }
}

#[test]
fn a_server_that_reorders_its_listing_cannot_churn_the_tool_block() {
    // Left alone this rewrites the prefix hash every turn and destroys the prompt cache silently.
    // The cost would land on the client, so the client defends itself.
    let catalog = client("gh").catalog(&listed(vec![offered("z_last", "last"), offered("a_first", "first")]));

    let names: Vec<&str> = catalog.tools.iter().map(|t| t.name.as_str()).collect();
    assert_eq!(names, ["gh_a_first", "gh_z_last"]);
}

#[test]
fn tools_are_namespaced_by_server_so_two_servers_cannot_collide() {
    let cat_a = client("github").catalog(&listed(vec![offered("search", "search things")]));
    let cat_b = client("slack").catalog(&listed(vec![offered("search", "search things")]));

    assert_eq!(cat_a.tools[0].name.as_str(), "github_search");
    assert_eq!(cat_b.tools[0].name.as_str(), "slack_search");
    assert_eq!(cat_a.tools[0].namespace(), Some("github".to_owned()));
}

#[test]
fn an_absurd_freshness_hint_is_capped() {
    // The hint comes from an untrusted party. A year-long ttl would pin a stale catalog.
    let list = ToolsList { tools: Vec::new(), ttl_ms: Some(31_536_000_000), cache_scope: CacheScope::Private };
    assert_eq!(client("gh").catalog(&list).ttl_ms, Some(MAX_TTL_MS));
}

#[test]
fn a_catalog_is_private_unless_the_server_says_otherwise() {
    let catalog = client("gh").catalog(&listed(Vec::new()));
    assert!(!catalog.is_shareable(), "sharing by default would leak one user's tools to another");
    let public = ToolsList { tools: Vec::new(), ttl_ms: None, cache_scope: CacheScope::Public };
    assert!(client("gh").catalog(&public).is_shareable());
}

#[test]
fn a_tool_result_is_untrusted_with_its_origin_recorded() {
    let mut client = client("files");
    let (_, answer) = ask(
        &mut client,
        "tools/call",
        r#"{"result": {"content": [{"type": "text", "text": "file body"}]}}"#,
    );
    let value = client.tool_result("read", &answer.unwrap());

    assert_eq!(value.peek(), "file body");
    assert_eq!(value.label().0, IntegrityLevel::Low);
    assert_eq!(value.provenance().origin.as_str(), "mcp:files/read");
}

#[test]
fn an_input_required_reply_surfaces_the_servers_sealed_state_for_the_retry() {
    let mut client = client("files");
    let (_, answer) = ask(
        &mut client,
        "tools/call",
        r#"{
            "result": {
                "resultType": "input_required",
                "inputRequests": [{"kind": "confirm"}],
                "requestState": {"sealed": "hmac"}
            }
        }"#,
    );

    let McpError::NeedsInput { required, .. } = answer.unwrap_err() else { panic!("expected NeedsInput") };
    assert_eq!(required.request_state.unwrap().get_str("sealed"), Some("hmac"));
}

#[test]
fn every_request_carries_routing_headers_and_metadata() {
    let mut client = client("gh");
    let (request, _) = ask(&mut client, "tools/list", r#"{"result": {"tools": []}}"#);
    assert_eq!(request.method, "tools/list");
    assert!(request.headers().iter().any(|(k, _)| k == "Mcp-Method"));
    assert_eq!(request.meta.get_str(meta_keys::PROTOCOL_VERSION), Some(PROTOCOL_VERSION));
    let (next, _) = ask(&mut client, "tools/list", r#"{"result": {"tools": []}}"#);
    assert_eq!(next.id, request.id + 1);
}

#[test]
fn the_combined_catalog_is_ordered_the_same_way_on_every_process() {
    // An order that depends on a per-process seed would make every restart pay to rebuild the prompt
    // cache.
    let mut cache = CatalogCache::new();
    for server in ["slack", "github"] {
        cache.insert(Catalog {
            server: ServerId::new(server),
            tools: vec![ToolDefinition::new(
                &format!("{server}_search"),
                "search this service for matching records",
                JsonSchema::empty_object(),
            )],
            ttl_ms: None,
            scope: CacheScope::Private,
        });
    }
    let names: Vec<String> = cache.all_tools().iter().map(|t| t.name.to_string()).collect();
    assert_eq!(names, ["github_search", "slack_search"]);
    assert_eq!(cache.len(), 2);
    assert!(cache.shareable().is_empty());
}

/// A set of tools as a server holds it.
trait Tools {
    fn definitions(&self) -> Result<Vec<ToolDefinition>, ToolsetError>;
    fn call(&self, invocation: Invocation, cx: &ToolCx) -> ToolOutcome<ToolValue>;
}

/// Two tools, registered in an order that is not their sorted order.
struct Notes;

impl Tools for Notes {
    fn definitions(&self) -> Result<Vec<ToolDefinition>, ToolsetError> {
        Ok(vec![
            ToolDefinition::new(
                "note_write",
                "Write a note to the store.",
                JsonSchema::new(json(
                    r#"{
                        "type": "object",
                        "properties": {"text": {"type": "string", "description": "The note body."}},
                        "required": ["text"]
                    }"#,
                ))
                .unwrap(),
            ),
            ToolDefinition::new("note_count", "Count the notes in the store.", JsonSchema::empty_object()),
        ])
    }

    fn call(&self, invocation: Invocation, cx: &ToolCx) -> ToolOutcome<ToolValue> {
        match invocation.name.as_str() {
            "note_count" => ToolOutcome::Done(Tainted::with_provenance(
                ToolContent::text("3"),
                cx.provenance.clone(),
            )),
            "note_write" => ToolOutcome::Failed(
                ToolError::new(ToolErrorKind::Denied, "the store is read-only today")
                    .guide("Try note_count instead; writing is disabled."),
            ),
            other => ToolOutcome::Failed(ToolError::new(
                ToolErrorKind::NotFound,
                &format!("no tool `{other}`"),
            )),
        }
    }
}

/// A tool that will not act until a human approves the literal action.
struct Gated;

impl Tools for Gated {
    fn definitions(&self) -> Result<Vec<ToolDefinition>, ToolsetError> {
        Ok(vec![ToolDefinition::new(
            "deploy",
            "Deploy a version to production.",
            JsonSchema::new(json(
                r#"{
                    "type": "object",
                    "properties": {"version": {"type": "string", "description": "Version to deploy."}},
                    "required": ["version"]
                }"#,
            ))
            .unwrap(),
        )])
    }

    fn call(&self, invocation: Invocation, cx: &ToolCx) -> ToolOutcome<ToolValue> {
        let version = invocation.args.get_str("version").unwrap_or("?");
        match &cx.resume {
            // First attempt: say what is needed and seal the state. Nothing is remembered here.
            None => ToolOutcome::NeedsInput(NeedsInput {
                token: "deploy-pending".into(),
                requests: vec![InputRequest::Approval {
                    literal: format!("deploy {version} to production"),
                    risk: Risk::High,
                }],
            }),
            Some(resume) => {
                let approved = resume.answers.first().and_then(Json::as_bool).unwrap_or(false);
                if approved {
                    ToolOutcome::Done(Tainted::with_provenance(
                        ToolContent::text(&format!("deployed {version}")),
                        cx.provenance.clone(),
                    ))
                } else {
                    ToolOutcome::Denied(ToolError::new(
                        ToolErrorKind::Denied,
                        "the operator declined the deployment",
                    ))
                }
            }
        }
    }
}

/// What is wrong with some arguments: one that is required is missing, or one that should be a
/// string is none.
fn mismatch(schema: &Json, arguments: &Json) -> Option<ToolError> {
    let invalid = |what: String| Some(ToolError::new(ToolErrorKind::InvalidArgs, &what));
    for name in schema.get("required").and_then(Json::as_array).into_iter().flatten() {
        let name = name.as_str().unwrap();
        if arguments.get(name).is_none() {
            return invalid(format!("`{name}` is missing"));
        }
    }
    for (name, property) in schema.get("properties").and_then(Json::as_object).into_iter().flatten() {
        let given = arguments.get(name);
        if property.get_str("type") == Some("string") && given.is_some_and(|v| v.as_str().is_none()) {
            return invalid(format!("`{name}` must be a string"));
        }
    }
    None
}

/// Answers a message as a server with these tools would.
fn answer(server: &Server, tools: &dyn Tools, raw: &Json) -> Option<Json> {
    match server.handle(raw) {
        Received::Silent => None,
        Received::Answer(a) => Some(a),
        Received::List(to) => Some(server.list_tools(&to, tools.definitions())),
        Received::Call(to, request) => {
            let definitions = tools.definitions();
            let invalid = Server::definition_of(&definitions, &request.name)
                .and_then(|d| mismatch(d.input_schema.as_value(), &request.arguments));
            match server.checked(&to, request, invalid) {
                Checked::Refused(answer) => Some(answer),
                Checked::Run { invocation, cx } => {
                    Some(Server::call_tool(&to, &tools.call(invocation, &cx)))
                }
            }
        }
    }
}

fn server() -> Server {
    Server::new("notes-server", "1.0.0")
}

fn request(id: u64, method: &str, params: Json) -> Json {
    Json::empty()
        .with("jsonrpc", Json::text("2.0"))
        .with("id", Json::natural(id))
        .with("method", Json::text(method))
        .with("params", params)
}

fn call(raw: &Json) -> Json {
    answer(&server(), &Notes, raw).expect("a request with an id gets an answer")
}

fn gated_call(params: Json) -> Json {
    answer(&Server::new("gated", "1.0.0"), &Gated, &request(1, "tools/call", params)).unwrap()
}

#[test]
fn a_tool_that_needs_input_can_be_resumed_by_a_retry() {
    let start = gated_call(json(r#"{"name": "deploy", "arguments": {"version": "4.2"}}"#));
    assert_eq!(at(&start, &["result", "resultType"]).as_str(), Some("input_required"));

    // The approval shows the literal action, never a paraphrase.
    let asked = first(at(&start, &["result", "inputRequests"]));
    assert_eq!(asked.get_str("kind"), Some("approval"));
    assert_eq!(asked.get_str("literal"), Some("deploy 4.2 to production"));
    assert_eq!(asked.get_str("risk"), Some("high"));

    let state = at(&start, &["result", "requestState"]).clone();
    let second = gated_call(
        json(r#"{"name": "deploy", "arguments": {"version": "4.2"}, "inputResponses": [true]}"#)
            .with("requestState", state),
    );
    assert_eq!(at(&second, &["result", "isError"]).as_bool(), Some(false));
    assert_eq!(first(at(&second, &["result", "content"])).get_str("text"), Some("deployed 4.2"));
}

#[test]
fn a_declined_approval_denies_the_call() {
    let denied = gated_call(json(
        r#"{
            "name": "deploy",
            "arguments": {"version": "4.2"},
            "requestState": {"token": "deploy-pending"},
            "inputResponses": [false]
        }"#,
    ));
    assert_eq!(at(&denied, &["result", "isError"]).as_bool(), Some(true));
    assert!(first(at(&denied, &["result", "content"])).get_str("text").unwrap().contains("declined"));
}

#[test]
fn a_retry_without_answers_asks_again_rather_than_assuming_approval() {
    let again = gated_call(json(
        r#"{
            "name": "deploy",
            "arguments": {"version": "4.2"},
            "requestState": {"token": "deploy-pending"}
        }"#,
    ));
    assert_eq!(at(&again, &["result", "resultType"]).as_str(), Some("input_required"));
}

#[test]
fn discover_advertises_the_stateless_revision() {
    let reply = call(&request(1, "server/discover", Json::Null));
    let result = at(&reply, &["result"]);
    assert_eq!(result.get_str("protocolVersion"), Some(PROTOCOL_VERSION));
    assert_eq!(result.get("stateless"), Some(&Json::flag(true)));
    assert_eq!(at(result, &["serverInfo", "name"]).as_str(), Some("notes-server"));
    assert!(result.get("sessionId").is_none(), "a stateless server issues no session id: {result:?}");
}

#[test]
fn tools_are_listed_in_a_stable_order() {
    let reply = call(&request(1, "tools/list", Json::Null));
    let names: Vec<&str> = at(&reply, &["result", "tools"])
        .as_array()
        .unwrap()
        .iter()
        .map(|t| t.get_str("name").unwrap())
        .collect();
    assert_eq!(names, vec!["note_count", "note_write"], "sorted, not registration order");
}

#[test]
fn a_listing_carries_the_freshness_hints_this_revision_added() {
    let reply = call(&request(1, "tools/list", Json::Null));
    assert_eq!(at(&reply, &["result", "ttlMs"]), &Json::natural(300_000));
    assert_eq!(at(&reply, &["result", "cacheScope"]).as_str(), Some("private"));
}

#[test]
fn cache_scope_is_private_until_the_operator_says_otherwise() {
    let public = Server::new("s", "1").cache_scope(CacheScope::Public);
    let reply = answer(&public, &Notes, &request(1, "tools/list", Json::Null)).unwrap();
    assert_eq!(at(&reply, &["result", "cacheScope"]).as_str(), Some("public"));
    let reply = call(&request(1, "tools/list", Json::Null));
    assert_eq!(at(&reply, &["result", "cacheScope"]).as_str(), Some("private"));
}

#[test]
fn a_successful_call_returns_content() {
    let reply = call(&request(1, "tools/call", json(r#"{"name": "note_count", "arguments": {}}"#)));
    assert_eq!(at(&reply, &["result", "isError"]).as_bool(), Some(false));
    assert_eq!(first(at(&reply, &["result", "content"])).get_str("text"), Some("3"));
}

#[test]
fn a_tool_failure_is_a_result_the_model_can_read_not_a_protocol_error() {
    let reply =
        call(&request(1, "tools/call", json(r#"{"name": "note_write", "arguments": {"text": "x"}}"#)));
    assert!(reply.get("error").is_none(), "not a JSON-RPC error: {reply:?}");
    assert_eq!(at(&reply, &["result", "isError"]).as_bool(), Some(true));

    let text = first(at(&reply, &["result", "content"])).get_str("text").unwrap();
    assert!(text.contains("read-only"), "the summary: {text}");
    assert!(text.contains("Try note_count instead"), "and the guidance: {text}");
}

#[test]
fn arguments_are_validated_before_the_tool_runs() {
    let reply =
        call(&request(1, "tools/call", json(r#"{"name": "note_write", "arguments": {"text": 42}}"#)));

    assert_eq!(at(&reply, &["result", "isError"]).as_bool(), Some(true));
    assert_eq!(
        at(&reply, &["result", "_meta", "io.modelcontextprotocol/errorKind"]).as_str(),
        Some("invalid_args")
    );
    let text = first(at(&reply, &["result", "content"])).get_str("text").unwrap();
    assert!(text.contains("`text` must be a string"), "{text}");
}

#[test]
fn a_missing_required_argument_never_reaches_the_tool() {
    let reply = call(&request(1, "tools/call", json(r#"{"name": "note_write", "arguments": {}}"#)));
    assert_eq!(at(&reply, &["result", "isError"]).as_bool(), Some(true));
    let text = first(at(&reply, &["result", "content"])).get_str("text").unwrap();
    assert!(text.contains("`text` is missing"), "{text}");
    assert!(
        !text.contains("read-only"),
        "the tool did not run, so its own message is absent: {text}"
    );
}

#[test]
fn the_verdict_on_the_arguments_decides_whether_a_call_is_handed_out() {
    let received = || {
        server().handle(&request(1, "tools/call", json(r#"{"name": "note_write", "arguments": {"text": "x"}}"#)))
    };
    let Received::Call(to, asked) = received() else { panic!("expected a call") };
    let known = Notes.definitions();
    assert!(Server::definition_of(&known, &asked.name).is_some());
    assert!(Server::definition_of(&known, "note_burn").is_none());
    let invalid = ToolError::new(ToolErrorKind::InvalidArgs, "`text` is odd");
    assert!(matches!(server().checked(&to, asked, Some(invalid)), Checked::Refused(_)));

    let Received::Call(to, asked) = received() else { panic!("expected a call") };
    let Checked::Run { invocation, cx } = server().checked(&to, asked, None) else {
        panic!("nothing is wrong with the arguments")
    };
    assert_eq!(invocation.name.as_str(), "note_write");
    assert_eq!(invocation.args, json(r#"{"text": "x"}"#));
    assert!(cx.grants.is_empty());
}

#[test]
fn an_unknown_method_is_method_not_found_so_a_client_can_negotiate() {
    let reply = call(&request(1, "resources/list", Json::Null));
    assert_eq!(at(&reply, &["error", "code"]), &Json::integer(codes::METHOD_NOT_FOUND));
}

#[test]
fn a_notification_gets_no_answer() {
    let notification = json(r#"{"jsonrpc": "2.0", "method": "notifications/progress"}"#);
    assert!(answer(&server(), &Notes, &notification).is_none());
}

#[test]
fn two_servers_answer_identically() {
    let one = answer(&server(), &Notes, &request(7, "tools/list", Json::Null));
    let fresh = Server::new("notes-server", "1.0.0");
    let two = answer(&fresh, &Notes, &request(7, "tools/list", Json::Null));
    assert_eq!(one, two, "any replica may serve any request");
}

#[test]
fn a_server_does_not_accumulate_state_across_calls() {
    let server = server();
    let once = answer(&server, &Notes, &request(1, "tools/list", Json::Null));
    let _ = answer(&server, &Notes, &request(2, "tools/call", json(r#"{"name": "note_count"}"#)));
    let twice = answer(&server, &Notes, &request(1, "tools/list", Json::Null));
    assert_eq!(once, twice);
}

#[test]
fn a_trace_parent_is_echoed_so_spans_join_up() {
    let raw = request(1, "tools/list", Json::Null)
        .with("_meta", Json::empty().with(meta_keys::TRACEPARENT, Json::text("00-abc-def-01")));
    let reply = call(&raw);
    assert_eq!(at(&reply, &["result", "_meta", meta_keys::TRACEPARENT]).as_str(), Some("00-abc-def-01"));
}

#[test]
fn a_trace_parent_leaves_the_kind_of_a_failure_alone() {
    let raw = request(1, "tools/call", json(r#"{"name": "note_write", "arguments": {"text": "x"}}"#))
        .with("_meta", Json::empty().with(meta_keys::TRACEPARENT, Json::text("00-abc-def-01")));
    let reply = call(&raw);
    assert_eq!(at(&reply, &["result", "_meta", meta_keys::TRACEPARENT]).as_str(), Some("00-abc-def-01"));
    assert_eq!(
        at(&reply, &["result", "_meta", "io.modelcontextprotocol/errorKind"]).as_str(),
        Some("denied")
    );
}

#[test]
fn a_legacy_client_that_sends_initialize_is_still_served() {
    let reply = call(&request(1, "initialize", json(r#"{"protocolVersion": "2025-11-25"}"#)));
    assert!(reply.get("error").is_none(), "{reply:?}");
    assert_eq!(at(&reply, &["result", "protocolVersion"]).as_str(), Some(PROTOCOL_VERSION));
}

#[test]
fn a_request_without_a_method_is_refused_rather_than_ignored() {
    let reply = call(&json(r#"{"jsonrpc": "2.0", "id": 1}"#));
    assert_eq!(at(&reply, &["error", "code"]), &Json::integer(codes::INVALID_REQUEST));
}

#[test]
fn freys_client_and_freys_server_agree_over_a_loopback() {
    let server = server();
    let mut client = client("notes-server");
    // What goes over the wire is the text of the document.
    let wire = |r: &Request| {
        let raw = json(&r.to_json().to_string());
        answer(&server, &Notes, &raw).expect("a request with an id gets an answer")
    };

    let discover = client.request("server/discover", None);
    let body = wire(&discover);
    let identity = client.negotiate(client.read(&body)).expect("negotiation succeeds");
    assert!(identity.stateless, "the client sees a stateless server");
    assert_eq!(identity.protocol_version, PROTOCOL_VERSION);

    let list = client.request("tools/list", None);
    let result = client.read(&wire(&list)).expect("the catalog arrives");
    let tools = result
        .get("tools")
        .unwrap()
        .as_array()
        .unwrap()
        .iter()
        .map(|t| McpTool {
            name: t.get_str("name").unwrap().into(),
            description: t.get_str("description").unwrap().into(),
            input_schema: t.get("inputSchema").unwrap().clone(),
            output_schema: None,
        })
        .collect();
    let scope =
        if result.get_str("cacheScope") == Some("public") { CacheScope::Public } else { CacheScope::Private };
    let catalog = client.catalog(&ToolsList { tools, ttl_ms: None, cache_scope: scope });
    let names: Vec<String> = catalog.tools.iter().map(|t| t.name.to_string()).collect();
    assert!(
        names.iter().any(|n| n.ends_with("note_count")),
        "the client sees the server's tools: {names:?}"
    );
    assert!(!catalog.is_shareable(), "a private listing is not shared between principals");
}

#[test]
fn a_toolset_that_is_down_is_an_internal_error() {
    let Received::List(to) = server().handle(&request(1, "tools/list", Json::Null)) else { panic!() };
    let down = ToolsetError::Unavailable { name: "notes".into(), detail: "gone".into() };
    let reply = server().list_tools(&to, Err(down));
    assert_eq!(at(&reply, &["error", "code"]), &Json::integer(codes::INTERNAL_ERROR));
}

#[test]
fn error_kinds_are_spelled_for_the_wire() {
    assert_eq!(kind_name(ToolErrorKind::InvalidArgs), "invalid_args");
    assert_eq!(kind_name(ToolErrorKind::NotFound), "not_found");
}

#[test]
fn requests_are_written_in_full() {
    let params = McpClient::call_params("read", json(r#"{"path": "a"}"#));
    let request = Request::new(3, "tools/call", Some(params), &ClientInfo::default());
    let text = request.to_json().to_string();
    assert!(text.starts_with(r#"{"_meta":{"io.modelcontextprotocol/clientCapabilities":"#), "{text}");
    assert!(text.contains(r#""params":{"arguments":{"path":"a"},"name":"read"}"#), "{text}");
}
