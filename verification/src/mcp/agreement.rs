//! The client and the server agree: what the one sends, the other reads.

use vstd::prelude::*;

use crate::error::{NeedsInputView, InputRequestView, Risk, ToolErrorKind, ToolOutcome};
use crate::json::{field, int_view, json_with, no_fields, uint_view, with_field, JsonView, a_field_that_is_set_reads_back, json_debug, json_views, Json};
use crate::mcp::client::{call_params, block_texts, mcp_error_text, read_as, result_text, McpError};
use crate::mcp::codes;
use crate::mcp::meta_keys;
use crate::mcp::protocol::{client_meta, reply_of, request_view, sent, ClientView, InputRequiredView, ReplyView, RequestView, tool_json, CacheScope, McpToolView, ProtocolError, PROTOCOL_VERSION, input_required_of, named_tool};
use crate::mcp::server::{asked, error_reply, params_of, received, result_reply, resume_of, self_description, trace_of, traced, waiting_result, ReceivedView, ReplyToView, ServerView, ToolRequestView, call_for, listed_tool, listing, listings_are_in_order, outcome_result, text_block, text_result, wire_kind};
use crate::ids::ServerId;
use crate::order::{sorted, sorting_orders_and_keeps};
use crate::text::{debug_quoted, group_mentions, mentions, signed_dec};
use crate::tool::{Invocation, ToolCx, ToolValue};
use crate::tool_def::{ToolDefinition, ToolDefinitionView};

verus! {

/// Setting a field changes that field and no other.
pub proof fn set_field_is_found(
    fields: Seq<(Seq<char>, JsonView)>,
    name: Seq<char>,
    value: JsonView,
    other: Seq<char>,
)
    ensures
        field(with_field(fields, name, value), other) == (if other == name {
            Some(value)
        } else {
            field(fields, other)
        }),
    decreases fields.len(),
{
    let out = with_field(fields, name, value);
    if fields.len() == 0 || crate::text::text_before(name, fields[0].0) {
        assert(out[0] == (name, value));
        assert(out.drop_first() == fields);
    } else if fields[0].0 == name {
        assert(out[0] == (name, value));
        assert(out.drop_first() == fields.drop_first());
    } else {
        assert(out[0] == fields[0]);
        assert(out.drop_first() == with_field(fields.drop_first(), name, value));
        set_field_is_found(fields.drop_first(), name, value, other);
    }
}

proof fn read_back(j: JsonView, name: Seq<char>, value: JsonView, other: Seq<char>)
    requires
        j is Object,
    ensures
        json_with(j, name, value) is Object,
        json_with(j, name, value).get(other) == (if other == name {
            Some(value)
        } else {
            j.get(other)
        }),
{
    set_field_is_found(j->Object_0, name, value, other);
}

proof fn replies_carry_an_id(to: ReplyToView, code: i64, message: Seq<char>, value: JsonView)
    ensures
        error_reply(to.id, code, message).get("id"@) == Some(to.id),
        result_reply(to, value).get("id"@) == Some(to.id),
{
    reveal_strlit("id");
    reveal_strlit("error");
    reveal_strlit("result");
    let why = json_with(
        json_with(no_fields(), "code"@, int_view(code)),
        "message"@,
        JsonView::Text(message),
    );
    let h = json_with(no_fields(), "jsonrpc"@, JsonView::Text("2.0"@));
    let g = json_with(h, "id"@, to.id);
    read_back(no_fields(), "jsonrpc"@, JsonView::Text("2.0"@), "id"@);
    read_back(h, "id"@, to.id, "id"@);
    read_back(g, "error"@, why, "id"@);
    read_back(g, "result"@, traced(value, to.trace), "id"@);
    assert("id"@.len() != "error"@.len());
    assert("id"@.len() != "result"@.len());
}

/// An answer carries the id of the message it answers: one that the server gives at once, and one
/// that it gives when the tools have been listed or called, be it a result or an error.
pub proof fn answers_carry_the_requests_id(
    s: ServerView,
    raw: JsonView,
    value: JsonView,
    code: i64,
    message: Seq<char>,
)
    ensures
        match received(s, raw) {
            ReceivedView::Silent => raw.get("id"@) is None,
            ReceivedView::Answer(answer) => raw.get("id"@) is Some && answer.get("id"@) == raw.get(
                "id"@,
            ),
            ReceivedView::List(to) => raw.get("id"@) == Some(to.id) && result_reply(to, value).get(
                "id"@,
            ) == raw.get("id"@) && error_reply(to.id, code, message).get("id"@) == raw.get("id"@),
            ReceivedView::Call(to, _) => raw.get("id"@) == Some(to.id) && result_reply(
                to,
                value,
            ).get("id"@) == raw.get("id"@),
        },
{
    if raw.get("id"@) is Some {
        let to = ReplyToView { id: raw.get("id"@)->0, trace: trace_of(raw) };
        replies_carry_an_id(to, code, message, value);
        replies_carry_an_id(to, codes::INVALID_REQUEST, "request has no `method`"@, self_description(s));
        replies_carry_an_id(to, codes::INVALID_PARAMS, "`tools/call` needs a `name`"@, value);
        if raw.get_str("method"@) is Some {
            replies_carry_an_id(
                to,
                codes::METHOD_NOT_FOUND,
                "this server does not implement `"@ + raw.get_str("method"@)->0 + "`"@,
                value,
            );
        }
    }
}

/// An error that a server reports reaches the client with its code and its message.
pub proof fn errors_are_understood(id: JsonView, code: i64, message: Seq<char>)
    ensures
        reply_of(error_reply(id, code, message)) == Ok::<ReplyView, Seq<char>>(
            ReplyView::Failed { code, message },
        ),
{
    reveal_strlit("jsonrpc");
    reveal_strlit("id");
    reveal_strlit("error");
    reveal_strlit("code");
    reveal_strlit("message");
    let why0 = json_with(no_fields(), "code"@, int_view(code));
    let why = json_with(why0, "message"@, JsonView::Text(message));
    read_back(no_fields(), "code"@, int_view(code), "code"@);
    read_back(why0, "message"@, JsonView::Text(message), "code"@);
    read_back(why0, "message"@, JsonView::Text(message), "message"@);
    assert("code"@.len() != "message"@.len());
    let h = json_with(no_fields(), "jsonrpc"@, JsonView::Text("2.0"@));
    let g = json_with(h, "id"@, id);
    read_back(no_fields(), "jsonrpc"@, JsonView::Text("2.0"@), "error"@);
    read_back(h, "id"@, id, "error"@);
    read_back(g, "error"@, why, "error"@);
}

/// A result that a server sends reaches the client as it is, with the trace parent echoed in it,
/// unless it asks for input.
pub proof fn results_are_understood(to: ReplyToView, value: JsonView)
    requires
        value is Object,
        value.get_str("resultType"@) != Some("input_required"@),
    ensures
        reply_of(result_reply(to, value)) matches Ok(ReplyView::Complete(r)) && forall|name: Seq<char>|
            name != "_meta"@ ==> #[trigger] r.get(name) == value.get(name),
        to.trace is None ==> reply_of(result_reply(to, value)) == Ok::<ReplyView, Seq<char>>(
            ReplyView::Complete(value),
        ),
{
    result_stands_in_reply(to, value);
    let carried = traced(value, to.trace);
    reveal_strlit("_meta");
    reveal_strlit("resultType");
    assert("_meta"@.len() != "resultType"@.len());
    if to.trace is Some {
        let echo = json_with(
            match value.get("_meta"@) {
                Some(meta) => meta,
                None => no_fields(),
            },
            meta_keys::TRACEPARENT@,
            JsonView::Text(to.trace->0),
        );
        assert forall|name: Seq<char>| name != "_meta"@ implies #[trigger] carried.get(name)
            == value.get(name) by {
            read_back(value, "_meta"@, echo, name);
        }
        assert(carried.get("resultType"@) == value.get("resultType"@));
    }
}

/// A trace parent is echoed in the metadata of an answer and changes nothing else of it: every field
/// stays, and so does everything else in the metadata, such as the kind of a tool's failure.
pub proof fn a_trace_never_affects_the_answer(value: JsonView, trace: Seq<char>, name: Seq<char>)
    requires
        value is Object,
    ensures
        ({
            let out = traced(value, Some(trace));
            &&& name != "_meta"@ ==> out.get(name) == value.get(name)
            &&& out.get("_meta"@) matches Some(meta) && meta.get(meta_keys::TRACEPARENT@) == Some(
                JsonView::Text(trace),
            ) && (name != meta_keys::TRACEPARENT@ ==> meta.get(name) == (match value.get("_meta"@) {
                Some(before) => before.get(name),
                None => None,
            }))
        }),
{
    let before = match value.get("_meta"@) {
        Some(meta) => meta,
        None => no_fields(),
    };
    let meta = json_with(before, meta_keys::TRACEPARENT@, JsonView::Text(trace));
    read_back(value, "_meta"@, meta, name);
    read_back(value, "_meta"@, meta, "_meta"@);
    let start = if before is Object {
        before
    } else {
        no_fields()
    };
    assert(meta == json_with(start, meta_keys::TRACEPARENT@, JsonView::Text(trace)));
    read_back(start, meta_keys::TRACEPARENT@, JsonView::Text(trace), name);
    read_back(
        start,
        meta_keys::TRACEPARENT@,
        JsonView::Text(trace),
        meta_keys::TRACEPARENT@,
    );
}

proof fn result_stands_in_reply(to: ReplyToView, value: JsonView)
    requires
        value is Object,
    ensures
        result_reply(to, value).get("error"@) is None,
        result_reply(to, value).get("result"@) == Some(traced(value, to.trace)),
{
    reveal_strlit("jsonrpc");
    reveal_strlit("id");
    reveal_strlit("error");
    reveal_strlit("result");
    let h = json_with(no_fields(), "jsonrpc"@, JsonView::Text("2.0"@));
    let g = json_with(h, "id"@, to.id);
    let r = traced(value, to.trace);
    read_back(no_fields(), "jsonrpc"@, JsonView::Text("2.0"@), "error"@);
    read_back(h, "id"@, to.id, "error"@);
    read_back(g, "result"@, r, "error"@);
    read_back(g, "result"@, r, "result"@);
    assert("error"@.len() != "result"@.len());
}

/// A call that waits for input reaches the client as what it asks for and the state to hand back,
/// and a retry that hands the state back with answers reaches the tool with both.
pub proof fn a_retry_carries_its_answers_back(
    to: ReplyToView,
    needs: NeedsInputView,
    params: JsonView,
    answers: Seq<JsonView>,
)
    requires
        params is Object,
    ensures
        ({
            let state = json_with(no_fields(), "token"@, JsonView::Text(needs.token));
            let retry = json_with(
                json_with(params, "requestState"@, state),
                "inputResponses"@,
                JsonView::Array(answers),
            );
            &&& reply_of(result_reply(to, waiting_result(needs))) == Ok::<ReplyView, Seq<char>>(
                ReplyView::InputRequired(
                    InputRequiredView {
                        input_requests: Seq::new(
                            needs.requests.len(),
                            |i: int| asked(needs.requests[i]),
                        ),
                        request_state: Some(state),
                    },
                ),
            )
            &&& resume_of(retry) == Some((state, answers))
            &&& retry.get("name"@) == params.get("name"@)
            &&& retry.get("arguments"@) == params.get("arguments"@)
        }),
{
    reveal_strlit("resultType");
    reveal_strlit("inputRequests");
    reveal_strlit("requestState");
    reveal_strlit("inputResponses");
    reveal_strlit("_meta");
    reveal_strlit("name");
    reveal_strlit("arguments");
    let state = json_with(no_fields(), "token"@, JsonView::Text(needs.token));
    let requests = JsonView::Array(
        Seq::new(needs.requests.len(), |i: int| asked(needs.requests[i])),
    );
    let value = waiting_result(needs);
    let a = json_with(no_fields(), "resultType"@, JsonView::Text("input_required"@));
    let b = json_with(a, "inputRequests"@, requests);
    assert("resultType"@.len() != "inputRequests"@.len());
    assert("resultType"@.len() != "requestState"@.len());
    assert("inputRequests"@.len() != "requestState"@.len());
    read_back(no_fields(), "resultType"@, JsonView::Text("input_required"@), "resultType"@);
    read_back(a, "inputRequests"@, requests, "resultType"@);
    read_back(a, "inputRequests"@, requests, "inputRequests"@);
    read_back(b, "requestState"@, state, "resultType"@);
    read_back(b, "requestState"@, state, "inputRequests"@);
    read_back(b, "requestState"@, state, "requestState"@);
    result_stands_in_reply(to, value);
    if to.trace is Some {
        let echo = json_with(
            match value.get("_meta"@) {
                Some(meta) => meta,
                None => no_fields(),
            },
            meta_keys::TRACEPARENT@,
            JsonView::Text(to.trace->0),
        );
        assert("_meta"@.len() != "resultType"@.len());
        assert("_meta"@.len() != "inputRequests"@.len());
        assert("_meta"@.len() != "requestState"@.len());
        read_back(value, "_meta"@, echo, "resultType"@);
        read_back(value, "_meta"@, echo, "inputRequests"@);
        read_back(value, "_meta"@, echo, "requestState"@);
    }
    assert("inputResponses"@.len() != "requestState"@.len());
    let p = json_with(params, "requestState"@, state);
    read_back(params, "requestState"@, state, "requestState"@);
    read_back(params, "requestState"@, state, "name"@);
    read_back(params, "requestState"@, state, "arguments"@);
    read_back(p, "inputResponses"@, JsonView::Array(answers), "inputResponses"@);
    read_back(p, "inputResponses"@, JsonView::Array(answers), "requestState"@);
    read_back(p, "inputResponses"@, JsonView::Array(answers), "name"@);
    read_back(p, "inputResponses"@, JsonView::Array(answers), "arguments"@);
    assert("name"@.len() != "requestState"@.len());
    assert("name"@.len() != "inputResponses"@.len());
    assert("arguments"@.len() != "requestState"@.len());
    assert("arguments"@.len() != "inputResponses"@.len());
}

proof fn parts_of_a_request(r: RequestView)
    ensures
        sent(r) is Object,
        sent(r).get("id"@) == Some(uint_view(r.id)),
        sent(r).get("method"@) == Some(JsonView::Text(r.method)),
        sent(r).get("_meta"@) == Some(r.meta),
        sent(r).get("params"@) == r.params,
{
    reveal_strlit("jsonrpc");
    reveal_strlit("id");
    reveal_strlit("method");
    reveal_strlit("params");
    reveal_strlit("_meta");
    let a = json_with(no_fields(), "jsonrpc"@, JsonView::Text(r.jsonrpc));
    let b = json_with(a, "id"@, uint_view(r.id));
    let c = json_with(b, "method"@, JsonView::Text(r.method));
    let d = match r.params {
        Some(p) => json_with(c, "params"@, p),
        None => c,
    };
    assert("params"@[0] == 'p');
    assert("method"@[0] == 'm');
    assert("id"@.len() != "method"@.len());
    assert("id"@.len() != "params"@.len());
    assert("id"@.len() != "_meta"@.len());
    assert("method"@.len() != "_meta"@.len());
    assert("params"@.len() != "_meta"@.len());
    assert("jsonrpc"@.len() != "params"@.len());
    read_back(no_fields(), "jsonrpc"@, JsonView::Text(r.jsonrpc), "params"@);
    read_back(a, "id"@, uint_view(r.id), "params"@);
    read_back(a, "id"@, uint_view(r.id), "id"@);
    read_back(b, "method"@, JsonView::Text(r.method), "id"@);
    read_back(b, "method"@, JsonView::Text(r.method), "method"@);
    read_back(b, "method"@, JsonView::Text(r.method), "params"@);
    if r.params is Some {
        read_back(c, "params"@, r.params->0, "id"@);
        read_back(c, "params"@, r.params->0, "method"@);
        read_back(c, "params"@, r.params->0, "params"@);
    }
    read_back(d, "_meta"@, r.meta, "id"@);
    read_back(d, "_meta"@, r.meta, "method"@);
    read_back(d, "_meta"@, r.meta, "params"@);
    read_back(d, "_meta"@, r.meta, "_meta"@);
}

proof fn no_trace_unless_attached(client: ClientView)
    ensures
        client_meta(client).get_str(meta_keys::TRACEPARENT@) is None,
{
    reveal_strlit("io.modelcontextprotocol/protocolVersion");
    reveal_strlit("io.modelcontextprotocol/clientCapabilities");
    reveal_strlit("io.modelcontextprotocol/clientInfo");
    reveal_strlit("traceparent");
    let who = json_with(
        json_with(no_fields(), "name"@, JsonView::Text(client.name)),
        "version"@,
        JsonView::Text(client.version),
    );
    let a = json_with(
        no_fields(),
        meta_keys::PROTOCOL_VERSION@,
        JsonView::Text(crate::mcp::protocol::PROTOCOL_VERSION@),
    );
    let b = json_with(a, meta_keys::CLIENT_CAPABILITIES@, client.capabilities);
    assert(meta_keys::TRACEPARENT@[0] == 't');
    assert(meta_keys::PROTOCOL_VERSION@[0] == 'i');
    assert(meta_keys::CLIENT_CAPABILITIES@[0] == 'i');
    assert(meta_keys::CLIENT_INFO@[0] == 'i');
    read_back(
        no_fields(),
        meta_keys::PROTOCOL_VERSION@,
        JsonView::Text(crate::mcp::protocol::PROTOCOL_VERSION@),
        meta_keys::TRACEPARENT@,
    );
    read_back(a, meta_keys::CLIENT_CAPABILITIES@, client.capabilities, meta_keys::TRACEPARENT@);
    read_back(b, meta_keys::CLIENT_INFO@, who, meta_keys::TRACEPARENT@);
}

/// What a client sends, a server receives: a request to list the tools, or to call one with its name
/// and its arguments, under the id that the client gave it.
pub proof fn requests_are_received(
    s: ServerView,
    id: u64,
    client: ClientView,
    name: Seq<char>,
    arguments: JsonView,
)
    ensures
        received(s, sent(request_view(id, "tools/list"@, None, client))) == ReceivedView::List(
            ReplyToView { id: uint_view(id), trace: None },
        ),
        received(
            s,
            sent(request_view(id, "tools/call"@, Some(call_params(name, arguments)), client)),
        ) == ReceivedView::Call(
            ReplyToView { id: uint_view(id), trace: None },
            ToolRequestView { name, arguments, resume: None },
        ),
{
    reveal_strlit("server/discover");
    reveal_strlit("initialize");
    reveal_strlit("tools/list");
    reveal_strlit("tools/call");
    reveal_strlit("name");
    reveal_strlit("arguments");
    reveal_strlit("inputResponses");
    assert("tools/list"@[6] == 'l');
    assert("tools/call"@[6] == 'c');
    assert("initialize"@[0] == 'i');
    assert("tools/list"@[0] == 't');
    assert("tools/call"@[0] == 't');
    assert("server/discover"@.len() != "tools/list"@.len());
    assert("server/discover"@.len() != "tools/call"@.len());
    let list = request_view(id, "tools/list"@, None, client);
    let params = call_params(name, arguments);
    let call = request_view(id, "tools/call"@, Some(params), client);
    parts_of_a_request(list);
    parts_of_a_request(call);
    no_trace_unless_attached(client);
    assert(trace_of(sent(list)) is None);
    assert(trace_of(sent(call)) is None);
    let a = json_with(no_fields(), "name"@, JsonView::Text(name));
    assert("name"@.len() != "arguments"@.len());
    assert("name"@.len() != "inputResponses"@.len());
    assert("arguments"@.len() != "inputResponses"@.len());
    read_back(no_fields(), "name"@, JsonView::Text(name), "name"@);
    read_back(no_fields(), "name"@, JsonView::Text(name), "inputResponses"@);
    read_back(a, "arguments"@, arguments, "name"@);
    read_back(a, "arguments"@, arguments, "arguments"@);
    read_back(a, "arguments"@, arguments, "inputResponses"@);
    assert(params_of(sent(call)) == params);
    assert(params.get_str("name"@) == Some(name));
    assert(resume_of(params) is None);
}

/// What stands under a name in the object under another.
pub open spec fn get_in(j: JsonView, outer: Seq<char>, inner: Seq<char>) -> Option<JsonView> {
    match j.get(outer) {
        Some(value) => value.get(inner),
        None => None,
    }
}

/// A request carries its id, its method and its parameters as they are, and says who asks, in which
/// revision and what they can do.
pub proof fn a_request_carries_its_parts(
    id: u64,
    method: Seq<char>,
    params: Option<JsonView>,
    client: ClientView,
)
    ensures
        ({
            let request = sent(request_view(id, method, params, client));
            &&& request.get_str("jsonrpc"@) == Some("2.0"@)
            &&& request.get("id"@) == Some(uint_view(id))
            &&& request.get_str("method"@) == Some(method)
            &&& request.get("params"@) == params
            &&& get_in(request, "_meta"@, "io.modelcontextprotocol/protocolVersion"@) == Some(
                JsonView::Text(PROTOCOL_VERSION@),
            )
            &&& get_in(request, "_meta"@, "io.modelcontextprotocol/clientCapabilities"@) == Some(
                client.capabilities,
            )
            &&& get_in(request, "_meta"@, "io.modelcontextprotocol/clientInfo"@) is Some
            &&& ({
                let who = get_in(request, "_meta"@, "io.modelcontextprotocol/clientInfo"@)->0;
                who.get_str("name"@) == Some(client.name) && who.get_str("version"@) == Some(
                    client.version,
                )
            })
        }),
{
    broadcast use a_field_that_is_set_reads_back;

    let r = request_view(id, method, params, client);
    parts_of_a_request(r);
    request_names_differ();
}

/// A tool reads back from the wire as it was: its name, its description and both its schemas.
pub proof fn tools_read_back(t: McpToolView)
    ensures
        tool_json(t).get_str("name"@) == Some(t.name),
        tool_json(t).get_str("description"@) == Some(t.description),
        tool_json(t).get("inputSchema"@) == Some(t.input_schema),
        tool_json(t).get("outputSchema"@) == t.output_schema,
{
    broadcast use a_field_that_is_set_reads_back;

    tool_names_differ();
}

/// Whether a list of tools on the wire holds a definition.
pub open spec fn lists(tools: Seq<JsonView>, d: ToolDefinitionView) -> bool {
    exists|k: int| 0 <= k < tools.len() && lists_at(tools, d, k)
}

/// Whether a tool on the wire is a definition: the same name, description and schemas.
pub open spec fn lists_at(tools: Seq<JsonView>, d: ToolDefinitionView, k: int) -> bool {
    &&& tools[k].get_str("name"@) == Some(d.name)
    &&& tools[k].get_str("description"@) == Some(d.description)
    &&& tools[k].get("inputSchema"@) == Some(d.input_schema)
    &&& tools[k].get("outputSchema"@) == d.output_schema
}

/// A listing holds every tool, and no more than there are. It says for whom it may be kept, and for
/// how long where that is limited.
pub proof fn a_listing_holds_every_tool(s: ServerView, defs: Seq<ToolDefinition>, i: int)
    ensures
        listing(s, defs).get("tools"@) matches Some(JsonView::Array(tools)) && tools.len()
            == defs.len() && (0 <= i < defs.len() ==> lists(tools, defs[i]@)),
        listing(s, defs).get_str("cacheScope"@) == Some(
            match s.cache_scope {
                CacheScope::Public => "public"@,
                CacheScope::Private => "private"@,
            },
        ),
        listing(s, defs).get("ttlMs"@) == match s.ttl_ms {
            Some(ttl) => Some(uint_view(ttl)),
            None => None,
        },
{
    broadcast use a_field_that_is_set_reads_back;

    listing_names_differ();
    listings_are_in_order(defs);
    sorting_orders_and_keeps(defs);
    let order = sorted(defs);
    let tools = Seq::new(order.len(), |i: int| tool_json(listed_tool(order[i]@)));
    assert(listing(s, defs).get("tools"@) == Some(JsonView::Array(tools)));
    if 0 <= i < defs.len() {
        broadcast use vstd::seq_lib::group_to_multiset_ensures;

        assert(defs.contains(defs[i]));
        assert(defs.to_multiset().count(defs[i]) > 0);
        assert(order.contains(defs[i]));
        let k = choose|k: int| 0 <= k < order.len() && order[k] == defs[i];
        tools_read_back(listed_tool(order[k]@));
        assert(lists_at(tools, defs[i]@, k));
    }
}

/// A server says who it is, which revision it speaks, that it keeps no state and that it has tools,
/// and passes on its instructions where it has any.
pub proof fn a_server_describes_itself(s: ServerView)
    ensures
        self_description(s).get_str("protocolVersion"@) == Some(PROTOCOL_VERSION@),
        self_description(s).get("serverInfo"@) matches Some(who) && who.get_str("name"@) == Some(
            s.name,
        ) && who.get_str("version"@) == Some(s.version),
        self_description(s).get("stateless"@) == Some(JsonView::Bool(true)),
        self_description(s).get("capabilities"@) matches Some(caps) && caps.get("tools"@) is Some,
        self_description(s).get("instructions"@) == match s.instructions {
            Some(text) => Some(JsonView::Text(text)),
            None => None,
        },
{
    broadcast use a_field_that_is_set_reads_back;

    description_names_differ();
}

/// What a server sends as text the client reads as that text, and whether it is an error is told.
pub proof fn text_results_read_back(text: Seq<char>, is_error: bool)
    ensures
        result_text(text_result(text, is_error)) == text,
        text_result(text, is_error).get("isError"@) == Some(JsonView::Bool(is_error)),
        text_block(text).get_str("type"@) == Some("text"@),
        text_block(text).get_str("text"@) == Some(text),
{
    broadcast use a_field_that_is_set_reads_back;

    result_names_differ();
    let blocks = seq![text_block(text)];
    assert(text_result(text, is_error).get("content"@) == Some(JsonView::Array(blocks)));
    assert(blocks.drop_last() == Seq::<JsonView>::empty());
    reveal_with_fuel(block_texts, 2);
    assert(block_texts(blocks) == seq![text]);
}

/// What came of a call reads back at the client. A value is its text and its structure, and no
/// error. A failure and a denial are errors, told as the model is to hear them, each with its kind.
/// A call that waits says so, with its token.
pub proof fn outcomes_read_back(outcome: ToolOutcome<ToolValue>)
    ensures
        match outcome {
            ToolOutcome::Done(value) => result_text(outcome_result(outcome)) == value.inner()@.text
                && outcome_result(outcome).get("structuredContent"@) == value.inner()@.structured
                && outcome_result(outcome).get("isError"@) == Some(JsonView::Bool(false)),
            ToolOutcome::Failed(e) => result_text(outcome_result(outcome)) == e@.model.text()
                && outcome_result(outcome).get("isError"@) == Some(JsonView::Bool(true))
                && get_in(
                outcome_result(outcome),
                "_meta"@,
                "io.modelcontextprotocol/errorKind"@,
            ) == Some(JsonView::Text(wire_kind(e@.kind))),
            ToolOutcome::Denied(e) => result_text(outcome_result(outcome)) == e@.model.text()
                && outcome_result(outcome).get("isError"@) == Some(JsonView::Bool(true))
                && get_in(
                outcome_result(outcome),
                "_meta"@,
                "io.modelcontextprotocol/errorKind"@,
            ) == Some(JsonView::Text(wire_kind(e@.kind))),
            ToolOutcome::NeedsInput(needs) => outcome_result(outcome).get_str("resultType"@) == Some(
                "input_required"@,
            ) && get_in(outcome_result(outcome), "requestState"@, "token"@) == Some(
                JsonView::Text(needs@.token),
            ),
        },
{
    broadcast use a_field_that_is_set_reads_back;

    result_names_differ();
    waiting_names_differ();
    match outcome {
        ToolOutcome::Done(value) => {
            text_results_read_back(value.inner()@.text, false);
        },
        ToolOutcome::Failed(e) => {
            text_results_read_back(e@.model.text(), true);
        },
        ToolOutcome::Denied(e) => {
            text_results_read_back(e@.model.text(), true);
        },
        ToolOutcome::NeedsInput(_) => {},
    }
}

/// The kinds of failure are told apart on the wire.
pub proof fn kinds_of_failure_are_told_apart(a: ToolErrorKind, b: ToolErrorKind)
    requires
        a != b,
    ensures
        wire_kind(a) != wire_kind(b),
{
    kind_names_differ();
}

/// What a tool asks for reads back as it was: what is to be approved and how risky it is, what to
/// choose among, which form to fill, and where to authorize.
pub proof fn what_is_asked_reads_back(request: InputRequestView)
    ensures
        match request {
            InputRequestView::Approval { literal, risk } => asked(request).get_str("kind"@) == Some(
                "approval"@,
            ) && asked(request).get_str("literal"@) == Some(literal) && asked(request).get_str(
                "risk"@,
            ) == Some(
                match risk {
                    Risk::Low => "low"@,
                    Risk::Medium => "medium"@,
                    Risk::High => "high"@,
                },
            ),
            InputRequestView::Choice { prompt, options } => asked(request).get_str("kind"@) == Some(
                "choice"@,
            ) && asked(request).get_str("prompt"@) == Some(prompt) && match asked(request).get(
                "options"@,
            ) {
                Some(JsonView::Array(all)) => all.len() == options.len() && forall|i: int|
                    0 <= i < options.len() ==> #[trigger] all[i] == JsonView::Text(options[i]),
                _ => false,
            },
            InputRequestView::Form { schema } => asked(request).get_str("kind"@) == Some("form"@)
                && asked(request).get("schema"@) == Some(schema),
            InputRequestView::Auth { resource } => asked(request).get_str("kind"@) == Some("auth"@)
                && asked(request).get_str("resource"@) == Some(resource),
            InputRequestView::FrontendTool { name, args } => asked(request).get_str("kind"@) == Some(
                "other"@,
            ) && match asked(request).get_str("detail"@) {
                Some(detail) => mentions(detail, debug_quoted(name)) && mentions(
                    detail,
                    json_debug(args),
                ),
                None => false,
            },
        },
{
    broadcast use a_field_that_is_set_reads_back;
    broadcast use group_mentions;

    asked_names_differ();
}

/// Whether a server answers with an error of a code.
pub open spec fn refused_with(r: ReceivedView, code: int) -> bool {
    r matches ReceivedView::Answer(answer) && get_in(answer, "error"@, "code"@) == Some(
        int_view(code as i64),
    )
}

/// A server does with a message what its method asks. One without an id is a notice, and gets no
/// answer. One without a method is no request, a call without a name has wrong parameters, and a
/// method that is not known is refused as such. A call is of the tool that is named, with the
/// arguments as they came in, or none where none did.
pub proof fn methods_decide_what_is_done(s: ServerView, raw: JsonView)
    ensures
        raw.get("id"@) is None <==> received(s, raw) is Silent,
        raw.get("id"@) is Some && raw.get_str("method"@) is None ==> refused_with(
            received(s, raw),
            -32600,
        ),
        raw.get("id"@) is Some ==> match raw.get_str("method"@) {
            None => true,
            Some(method) => if method == "server/discover"@ || method == "initialize"@ {
                received(s, raw) matches ReceivedView::Answer(answer) && answer.get("result"@)
                    matches Some(result) && result.get("serverInfo"@) == self_description(s).get(
                    "serverInfo"@,
                )
            } else if method == "tools/list"@ {
                received(s, raw) is List
            } else if method == "tools/call"@ {
                match raw.get("params"@) {
                    None => refused_with(received(s, raw), -32602),
                    Some(params) => match params.get_str("name"@) {
                        None => refused_with(received(s, raw), -32602),
                        Some(name) => received(s, raw) matches ReceivedView::Call(_, request)
                            && request.name == name && request.arguments == (match params.get(
                            "arguments"@,
                        ) {
                            Some(arguments) => arguments,
                            None => JsonView::Object(Seq::empty()),
                        }) && (request.resume is Some <==> params.get("inputResponses"@)
                            matches Some(JsonView::Array(_))) && (request.resume matches Some((
                            _,
                            answers,
                        )) ==> params.get("inputResponses"@) == Some(JsonView::Array(answers))),
                    },
                }
            } else {
                refused_with(received(s, raw), -32601)
            },
        },
{
    broadcast use a_field_that_is_set_reads_back;

    reply_names_differ();
    method_names_differ();
    if raw.get("id"@) is Some {
        let to = ReplyToView { id: raw.get("id"@)->0, trace: trace_of(raw) };
        let value = self_description(s);
        if to.trace is Some {
            a_trace_never_affects_the_answer(value, to.trace->0, "serverInfo"@);
        }
        assert(result_reply(to, value).get("result"@) == Some(traced(value, to.trace)));
    }
}

/// A call is made as it was asked for: of the tool that was named, with the arguments that came in,
/// with nothing granted to it, and with a story that names the server and the tool.
pub proof fn calls_are_made_as_asked(
    s: ServerView,
    request: ToolRequestView,
    invocation: Invocation,
    cx: ToolCx,
)
    requires
        call_for(s, request, invocation, cx),
    ensures
        invocation.name@ == request.name,
        invocation.args@ == request.arguments,
        cx.grants@.len() == 0,
        mentions(cx.provenance@.origin, s.name),
        mentions(cx.provenance@.origin, request.name),
        match (cx.resume, request.resume) {
            (Some(resume), Some((state, answers))) => resume.state@ == state && json_views(
                resume.answers@,
            ) == answers,
            (None, None) => true,
            _ => false,
        },
{
    broadcast use group_mentions;

}

/// The code of an error, where it has one that is a number.
pub open spec fn code_in(error: JsonView) -> Option<i64> {
    match error.get("code"@) {
        Some(code) => code.as_i64(),
        None => None,
    }
}

/// An error in a reply counts before a result, and keeps its code and its message. A reply with
/// neither is no reply.
pub proof fn an_error_in_a_reply_counts_first(body: JsonView)
    ensures
        body.get("error"@) is Some <==> reply_of(body) matches Ok(ReplyView::Failed { .. }),
        body.get("error"@) matches Some(error) ==> match reply_of(body) {
            Ok(ReplyView::Failed { code, message }) => (code_in(error) matches Some(n) ==> code
                == n) && (error.get_str("message"@) matches Some(m) ==> message == m),
            _ => false,
        },
        body.get("error"@) is None && body.get("result"@) is None ==> reply_of(body) is Err,
        reply_of(body) matches Ok(ReplyView::Complete(result)) ==> body.get("result"@) == Some(result)
            && result.get_str("resultType"@) != Some("input_required"@),
{
}

/// What a caller gets is what the server said: the result where it is complete, and otherwise an
/// error that names the server and keeps what it reported or asks for.
pub proof fn replies_reach_the_caller(server: ServerId, body: JsonView, r: Result<Json, McpError>)
    requires
        read_as(server, body, r),
    ensures
        r is Ok <==> reply_of(body) matches Ok(ReplyView::Complete(_)),
        r is Ok ==> body.get("result"@) == Some(r->Ok_0@) && body.get("error"@) is None,
        body.get("error"@) matches Some(error) ==> match r {
            Err(McpError::Server { server: s, code, message }) => s == server && (error.get_str(
                "message"@,
            ) matches Some(m) ==> message@ == m) && (code_in(error) matches Some(n) ==> code == n),
            _ => false,
        },
        r matches Err(McpError::NeedsInput { server: s, .. }) ==> s == server,
{
    an_error_in_a_reply_counts_first(body);
}

/// What went wrong with a server is told with the server's name and what it said.
pub proof fn server_errors_are_told(e: McpError)
    ensures
        match e {
            McpError::Transport(t) => mentions(mcp_error_text(e), t.server@) && mentions(
                mcp_error_text(e),
                t.detail@,
            ),
            McpError::Protocol(ProtocolError::Malformed(why)) => mentions(mcp_error_text(e), why@),
            McpError::Protocol(ProtocolError::UnsupportedVersion { found }) => mentions(
                mcp_error_text(e),
                found@,
            ) && mentions(mcp_error_text(e), PROTOCOL_VERSION@),
            McpError::Server { server, code, message } => mentions(mcp_error_text(e), server@)
                && mentions(mcp_error_text(e), signed_dec(code as int)) && mentions(
                mcp_error_text(e),
                message@,
            ),
            McpError::NeedsInput { server, .. } => mentions(mcp_error_text(e), server@),
        },
{
    broadcast use group_mentions;

}

proof fn request_names_differ()
    ensures
        "jsonrpc"@ != "id"@,
        "jsonrpc"@ != "method"@,
        "jsonrpc"@ != "params"@,
        "jsonrpc"@ != "_meta"@,
        "id"@ != "method"@,
        "id"@ != "params"@,
        "id"@ != "_meta"@,
        "method"@ != "params"@,
        "method"@ != "_meta"@,
        "params"@ != "_meta"@,
        "io.modelcontextprotocol/protocolVersion"@ != "io.modelcontextprotocol/clientCapabilities"@,
        "io.modelcontextprotocol/protocolVersion"@ != "io.modelcontextprotocol/clientInfo"@,
        "io.modelcontextprotocol/clientCapabilities"@ != "io.modelcontextprotocol/clientInfo"@,
        "name"@ != "version"@,
{
    reveal_strlit("jsonrpc");
    reveal_strlit("id");
    reveal_strlit("method");
    reveal_strlit("params");
    reveal_strlit("_meta");
    reveal_strlit("io.modelcontextprotocol/protocolVersion");
    reveal_strlit("io.modelcontextprotocol/clientCapabilities");
    reveal_strlit("io.modelcontextprotocol/clientInfo");
    reveal_strlit("name");
    reveal_strlit("version");
    assert("jsonrpc"@.len() != "id"@.len());
    assert("jsonrpc"@.len() != "method"@.len());
    assert("jsonrpc"@.len() != "params"@.len());
    assert("jsonrpc"@.len() != "_meta"@.len());
    assert("id"@.len() != "method"@.len());
    assert("id"@.len() != "params"@.len());
    assert("id"@.len() != "_meta"@.len());
    assert("method"@[0] != "params"@[0]);
    assert("method"@.len() != "_meta"@.len());
    assert("params"@.len() != "_meta"@.len());
    assert("io.modelcontextprotocol/protocolVersion"@.len() != "io.modelcontextprotocol/clientCapabilities"@.len());
    assert("io.modelcontextprotocol/protocolVersion"@.len() != "io.modelcontextprotocol/clientInfo"@.len());
    assert("io.modelcontextprotocol/clientCapabilities"@.len() != "io.modelcontextprotocol/clientInfo"@.len());
    assert("name"@.len() != "version"@.len());
}

proof fn tool_names_differ()
    ensures
        "name"@ != "description"@,
        "name"@ != "inputSchema"@,
        "name"@ != "outputSchema"@,
        "description"@ != "inputSchema"@,
        "description"@ != "outputSchema"@,
        "inputSchema"@ != "outputSchema"@,
{
    reveal_strlit("name");
    reveal_strlit("description");
    reveal_strlit("inputSchema");
    reveal_strlit("outputSchema");
    assert("name"@.len() != "description"@.len());
    assert("name"@.len() != "inputSchema"@.len());
    assert("name"@.len() != "outputSchema"@.len());
    assert("description"@[0] != "inputSchema"@[0]);
    assert("description"@.len() != "outputSchema"@.len());
    assert("inputSchema"@.len() != "outputSchema"@.len());
}

proof fn listing_names_differ()
    ensures
        "tools"@ != "cacheScope"@,
        "tools"@ != "ttlMs"@,
        "cacheScope"@ != "ttlMs"@,
{
    reveal_strlit("tools");
    reveal_strlit("cacheScope");
    reveal_strlit("ttlMs");
    assert("tools"@.len() != "cacheScope"@.len());
    assert("tools"@[1] != "ttlMs"@[1]);
    assert("cacheScope"@.len() != "ttlMs"@.len());
}

proof fn description_names_differ()
    ensures
        "protocolVersion"@ != "serverInfo"@,
        "protocolVersion"@ != "stateless"@,
        "protocolVersion"@ != "capabilities"@,
        "protocolVersion"@ != "instructions"@,
        "serverInfo"@ != "stateless"@,
        "serverInfo"@ != "capabilities"@,
        "serverInfo"@ != "instructions"@,
        "stateless"@ != "capabilities"@,
        "stateless"@ != "instructions"@,
        "capabilities"@ != "instructions"@,
        "name"@ != "version"@,
{
    reveal_strlit("protocolVersion");
    reveal_strlit("serverInfo");
    reveal_strlit("stateless");
    reveal_strlit("capabilities");
    reveal_strlit("instructions");
    reveal_strlit("name");
    reveal_strlit("version");
    assert("protocolVersion"@.len() != "serverInfo"@.len());
    assert("protocolVersion"@.len() != "stateless"@.len());
    assert("protocolVersion"@.len() != "capabilities"@.len());
    assert("protocolVersion"@.len() != "instructions"@.len());
    assert("serverInfo"@.len() != "stateless"@.len());
    assert("serverInfo"@.len() != "capabilities"@.len());
    assert("serverInfo"@.len() != "instructions"@.len());
    assert("stateless"@.len() != "capabilities"@.len());
    assert("stateless"@.len() != "instructions"@.len());
    assert("capabilities"@[0] != "instructions"@[0]);
    assert("name"@.len() != "version"@.len());
}

proof fn result_names_differ()
    ensures
        "content"@ != "isError"@,
        "content"@ != "structuredContent"@,
        "content"@ != "_meta"@,
        "isError"@ != "structuredContent"@,
        "isError"@ != "_meta"@,
        "structuredContent"@ != "_meta"@,
        "type"@ != "text"@,
{
    reveal_strlit("content");
    reveal_strlit("isError");
    reveal_strlit("structuredContent");
    reveal_strlit("_meta");
    reveal_strlit("type");
    reveal_strlit("text");
    assert("content"@[0] != "isError"@[0]);
    assert("content"@.len() != "structuredContent"@.len());
    assert("content"@.len() != "_meta"@.len());
    assert("isError"@.len() != "structuredContent"@.len());
    assert("isError"@.len() != "_meta"@.len());
    assert("structuredContent"@.len() != "_meta"@.len());
    assert("type"@[1] != "text"@[1]);
}

proof fn waiting_names_differ()
    ensures
        "resultType"@ != "inputRequests"@,
        "resultType"@ != "requestState"@,
        "inputRequests"@ != "requestState"@,
{
    reveal_strlit("resultType");
    reveal_strlit("inputRequests");
    reveal_strlit("requestState");
    assert("resultType"@.len() != "inputRequests"@.len());
    assert("resultType"@.len() != "requestState"@.len());
    assert("inputRequests"@.len() != "requestState"@.len());
}

proof fn kind_names_differ()
    ensures
        "not_found"@ != "invalid_args"@,
        "not_found"@ != "denied"@,
        "not_found"@ != "conflict"@,
        "not_found"@ != "timeout"@,
        "not_found"@ != "transient"@,
        "not_found"@ != "fatal"@,
        "not_found"@ != "cancelled"@,
        "invalid_args"@ != "denied"@,
        "invalid_args"@ != "conflict"@,
        "invalid_args"@ != "timeout"@,
        "invalid_args"@ != "transient"@,
        "invalid_args"@ != "fatal"@,
        "invalid_args"@ != "cancelled"@,
        "denied"@ != "conflict"@,
        "denied"@ != "timeout"@,
        "denied"@ != "transient"@,
        "denied"@ != "fatal"@,
        "denied"@ != "cancelled"@,
        "conflict"@ != "timeout"@,
        "conflict"@ != "transient"@,
        "conflict"@ != "fatal"@,
        "conflict"@ != "cancelled"@,
        "timeout"@ != "transient"@,
        "timeout"@ != "fatal"@,
        "timeout"@ != "cancelled"@,
        "transient"@ != "fatal"@,
        "transient"@ != "cancelled"@,
        "fatal"@ != "cancelled"@,
{
    reveal_strlit("not_found");
    reveal_strlit("invalid_args");
    reveal_strlit("denied");
    reveal_strlit("conflict");
    reveal_strlit("timeout");
    reveal_strlit("transient");
    reveal_strlit("fatal");
    reveal_strlit("cancelled");
    assert("not_found"@.len() != "invalid_args"@.len());
    assert("not_found"@.len() != "denied"@.len());
    assert("not_found"@.len() != "conflict"@.len());
    assert("not_found"@.len() != "timeout"@.len());
    assert("not_found"@[0] != "transient"@[0]);
    assert("not_found"@.len() != "fatal"@.len());
    assert("not_found"@[0] != "cancelled"@[0]);
    assert("invalid_args"@.len() != "denied"@.len());
    assert("invalid_args"@.len() != "conflict"@.len());
    assert("invalid_args"@.len() != "timeout"@.len());
    assert("invalid_args"@.len() != "transient"@.len());
    assert("invalid_args"@.len() != "fatal"@.len());
    assert("invalid_args"@.len() != "cancelled"@.len());
    assert("denied"@.len() != "conflict"@.len());
    assert("denied"@.len() != "timeout"@.len());
    assert("denied"@.len() != "transient"@.len());
    assert("denied"@.len() != "fatal"@.len());
    assert("denied"@.len() != "cancelled"@.len());
    assert("conflict"@.len() != "timeout"@.len());
    assert("conflict"@.len() != "transient"@.len());
    assert("conflict"@.len() != "fatal"@.len());
    assert("conflict"@.len() != "cancelled"@.len());
    assert("timeout"@.len() != "transient"@.len());
    assert("timeout"@.len() != "fatal"@.len());
    assert("timeout"@.len() != "cancelled"@.len());
    assert("transient"@.len() != "fatal"@.len());
    assert("transient"@[0] != "cancelled"@[0]);
    assert("fatal"@.len() != "cancelled"@.len());
}

proof fn asked_names_differ()
    ensures
        "kind"@ != "literal"@,
        "kind"@ != "risk"@,
        "kind"@ != "prompt"@,
        "kind"@ != "options"@,
        "kind"@ != "schema"@,
        "kind"@ != "resource"@,
        "kind"@ != "detail"@,
        "literal"@ != "risk"@,
        "prompt"@ != "options"@,
{
    reveal_strlit("kind");
    reveal_strlit("literal");
    reveal_strlit("risk");
    reveal_strlit("prompt");
    reveal_strlit("options");
    reveal_strlit("schema");
    reveal_strlit("resource");
    reveal_strlit("detail");
    assert("kind"@.len() != "literal"@.len());
    assert("kind"@[0] != "risk"@[0]);
    assert("kind"@.len() != "prompt"@.len());
    assert("kind"@.len() != "options"@.len());
    assert("kind"@.len() != "schema"@.len());
    assert("kind"@.len() != "resource"@.len());
    assert("kind"@.len() != "detail"@.len());
    assert("literal"@.len() != "risk"@.len());
    assert("prompt"@.len() != "options"@.len());
}

proof fn reply_names_differ()
    ensures
        "jsonrpc"@ != "id"@,
        "jsonrpc"@ != "error"@,
        "jsonrpc"@ != "result"@,
        "id"@ != "error"@,
        "id"@ != "result"@,
        "error"@ != "result"@,
        "code"@ != "message"@,
        "serverInfo"@ != "_meta"@,
{
    reveal_strlit("jsonrpc");
    reveal_strlit("id");
    reveal_strlit("error");
    reveal_strlit("result");
    reveal_strlit("code");
    reveal_strlit("message");
    reveal_strlit("serverInfo");
    reveal_strlit("_meta");
    assert("jsonrpc"@.len() != "id"@.len());
    assert("jsonrpc"@.len() != "error"@.len());
    assert("jsonrpc"@.len() != "result"@.len());
    assert("id"@.len() != "error"@.len());
    assert("id"@.len() != "result"@.len());
    assert("error"@.len() != "result"@.len());
    assert("code"@.len() != "message"@.len());
    assert("serverInfo"@.len() != "_meta"@.len());
}

proof fn method_names_differ()
    ensures
        "tools/list"@ != "tools/call"@,
        "tools/list"@ != "server/discover"@,
        "tools/list"@ != "initialize"@,
        "tools/call"@ != "server/discover"@,
        "tools/call"@ != "initialize"@,
        "server/discover"@ != "initialize"@,
{
    reveal_strlit("tools/list");
    reveal_strlit("tools/call");
    reveal_strlit("server/discover");
    reveal_strlit("initialize");
    assert("tools/list"@[6] != "tools/call"@[6]);
    assert("tools/list"@.len() != "server/discover"@.len());
    assert("tools/list"@[0] != "initialize"@[0]);
    assert("tools/call"@.len() != "server/discover"@.len());
    assert("tools/call"@[0] != "initialize"@[0]);
    assert("server/discover"@.len() != "initialize"@.len());
}

/// What a server asks for is taken as it came: every request in its order, and the state it wants
/// back, where a null state is none. Requests that are no list are refused.
pub proof fn requests_for_input_are_taken_as_they_came(result: JsonView)
    ensures
        match result.get("inputRequests"@) {
            None => input_required_of(result) matches Ok(needs) && needs.input_requests.len() == 0,
            Some(JsonView::Array(items)) => input_required_of(result) matches Ok(needs)
                && needs.input_requests == items,
            Some(_) => input_required_of(result) is Err,
        },
        input_required_of(result) matches Ok(needs) ==> needs.request_state == (match result.get(
            "requestState"@,
        ) {
            Some(JsonView::Null) => None,
            state => state,
        }),
{
}

/// The tool that a request is about is the one its parameters name.
pub proof fn requests_name_their_tool(params: JsonView, name: Seq<char>)
    requires
        params is Object,
    ensures
        named_tool(Some(json_with(params, "name"@, JsonView::Text(name)))) == Some(name),
        named_tool(None) is None,
{
    broadcast use a_field_that_is_set_reads_back;

}

} // verus!
