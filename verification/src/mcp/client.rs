//! Being a client: a cache over a stateless transport.
//!
//! The transport is the driver's: the client says what to send and reads what came back.

use vstd::prelude::*;

use crate::error::opt_json;
use crate::ids::ServerId;
use crate::json::{json_views, json_with, no_fields, render, Json, JsonView};
use crate::mcp::protocol::{is_method_not_found, parse_reply, protocol_error_text, reply_of, request_view, this_client, CacheScope, ClientInfo, ClientView, InputRequired, McpTool, McpToolView, ProtocolError, Reply, ReplyView, Request, ServerIdentity, ToolsList, LEGACY_PROTOCOL_VERSION, PROTOCOL_VERSION};
use crate::order::{in_order, sort, sorted, sorting_orders_and_keeps, Ranked};
use crate::taint::{Provenance, ProvenanceView, Tainted, Untrusted};
use crate::text::{ascending, ascending_lists_are_unique, comes_before, join, joined, same_text, signed_dec, signed_decimal, text_before, text_order_is_total, text_order_is_transitive, texts};
use crate::tool_def::{copy_definitions, empty_schema, plain_tool, CallerPolicy, JsonSchema, PresentationHint, ToolDefinition, ToolDefinitionView};

verus! {

/// The request could not be delivered.
#[derive(Debug, PartialEq, Eq)]
pub struct TransportError {
    /// Which server.
    pub server: ServerId,
    /// What went wrong.
    pub detail: String,
}

/// A transport error in words.
pub open spec fn transport_error_text(e: TransportError) -> Seq<char> {
    "transport failure talking to `"@ + e.server@ + "`: "@ + e.detail@
}

impl TransportError {
    /// The error in words.
    pub fn to_string(&self) -> (r: String)
        ensures
            r@ == transport_error_text(*self),
    {
        let mut out = "transport failure talking to `".to_owned();
        out.push_str(self.server.as_str());
        out.push_str("`: ");
        out.push_str(self.detail.as_str());
        out
    }
}

/// Something went wrong talking to a server.
#[derive(Debug, PartialEq, Eq)]
#[non_exhaustive]
pub enum McpError {
    /// The request could not be delivered.
    Transport(TransportError),
    /// The response could not be understood.
    Protocol(ProtocolError),
    /// The server reported an error.
    Server {
        /// Which server.
        server: ServerId,
        /// JSON-RPC code.
        code: i64,
        /// What it said.
        message: String,
    },
    /// The server needs something before it can answer.
    NeedsInput {
        /// Which server.
        server: ServerId,
        /// What it asked for, and the sealed state to hand back on the retry.
        required: Box<InputRequired>,
    },
}

/// A client error in words.
pub open spec fn mcp_error_text(e: McpError) -> Seq<char> {
    match e {
        McpError::Transport(t) => transport_error_text(t),
        McpError::Protocol(p) => protocol_error_text(p),
        McpError::Server { server, code, message } => "`"@ + server@ + "` reported error "@
            + signed_dec(code as int) + ": "@ + message@,
        McpError::NeedsInput { server, .. } => "`"@ + server@
            + "` needs input before it can complete this call"@,
    }
}

impl McpError {
    /// The error in words.
    pub fn to_string(&self) -> (r: String)
        ensures
            r@ == mcp_error_text(*self),
    {
        match self {
            McpError::Transport(t) => t.to_string(),
            McpError::Protocol(p) => p.to_string(),
            McpError::Server { server, code, message } => {
                let mut out = "`".to_owned();
                out.push_str(server.as_str());
                out.push_str("` reported error ");
                out.push_str(signed_decimal(*code).as_str());
                out.push_str(": ");
                out.push_str(message.as_str());
                out
            },
            McpError::NeedsInput { server, .. } => {
                let mut out = "`".to_owned();
                out.push_str(server.as_str());
                out.push_str("` needs input before it can complete this call");
                out
            },
        }
    }
}

/// A cached tool catalog.
#[derive(Debug, PartialEq, Eq)]
pub struct Catalog {
    /// Which server it came from.
    pub server: ServerId,
    /// The tools, in a deterministic order.
    pub tools: Vec<ToolDefinition>,
    /// How long the server said it stays fresh, after capping.
    pub ttl_ms: Option<u64>,
    /// Whether it may be shared across principals.
    pub scope: CacheScope,
}

/// A cached tool catalog.
#[verifier::ext_equal]
pub struct CatalogView {
    pub server: Seq<char>,
    pub tools: Seq<ToolDefinitionView>,
    pub ttl_ms: Option<u64>,
    pub scope: CacheScope,
}

impl View for Catalog {
    type V = CatalogView;

    open spec fn view(&self) -> CatalogView {
        CatalogView {
            server: self.server@,
            tools: self.tools.deep_view(),
            ttl_ms: self.ttl_ms,
            scope: self.scope,
        }
    }
}

impl DeepView for Catalog {
    type V = CatalogView;

    open spec fn deep_view(&self) -> CatalogView {
        self@
    }
}

impl Clone for Catalog {
    fn clone(&self) -> (r: Self)
        ensures
            r@ == self@,
    {
        Catalog {
            server: self.server.clone(),
            tools: copy_definitions(&self.tools),
            ttl_ms: self.ttl_ms,
            scope: self.scope,
        }
    }
}

impl Catalog {
    /// Whether this catalog may be shared with a different principal.
    #[must_use]
    pub fn is_shareable(&self) -> (r: bool)
        ensures
            r == (self@.scope == CacheScope::Public),
    {
        self.scope == CacheScope::Public
    }
}

/// No server's freshness hint is honoured beyond this: an hour, in milliseconds.
pub const MAX_TTL_MS: u64 = 3_600_000;

impl Ranked for ToolDefinition {
    open spec fn before(&self, other: &Self) -> bool {
        text_before(self@.name, other@.name)
    }

    proof fn order_laws(a: Self, b: Self, c: Self) {
        text_order_is_total(a@.name, b@.name);
        text_order_is_total(b@.name, c@.name);
        text_order_is_total(a@.name, c@.name);
        if text_before(a@.name, b@.name) && text_before(b@.name, c@.name) {
            text_order_is_transitive(a@.name, b@.name, c@.name);
        }
    }

    fn is_before(&self, other: &Self) -> (r: bool) {
        comes_before(self.name.as_str(), other.name.as_str())
    }
}

/// The definitions without those that repeat the name of the one before them.
pub open spec fn each_name_once(defs: Seq<ToolDefinition>) -> Seq<ToolDefinition>
    decreases defs.len(),
{
    if defs.len() == 0 {
        Seq::empty()
    } else {
        let kept = each_name_once(defs.drop_last());
        if kept.len() > 0 && kept.last()@.name == defs.last()@.name {
            kept
        } else {
            kept.push(defs.last())
        }
    }
}

/// The definitions in order of their names, each name once: the first of those that share one.
pub open spec fn tidied(defs: Seq<ToolDefinition>) -> Seq<ToolDefinition> {
    each_name_once(sorted(defs))
}

/// Put definitions in order of their names, each name once.
pub fn tidy(defs: Vec<ToolDefinition>) -> (r: Vec<ToolDefinition>)
    ensures
        r@ == tidied(defs@),
{
    let ordered = sort(defs);
    let ghost all = ordered@;
    let mut kept: Vec<ToolDefinition> = Vec::new();
    for def in it: ordered
        invariant
            it.seq() == all,
            it.index() <= all.len(),
            kept@ == each_name_once(all.take(it.index() as int)),
    {
        proof {
            let i = it.index() as int;
            assert(all.take(i + 1).drop_last() == all.take(i));
            assert(all.take(i + 1).last() == def);
        }
        let repeats = if kept.len() > 0 {
            same_text(kept[kept.len() - 1].name.as_str(), def.name.as_str())
        } else {
            false
        };
        if !repeats {
            kept.push(def);
        }
    }
    assert(all.take(all.len() as int) == all);
    kept
}

/// The names of some definitions.
pub open spec fn def_names(defs: Seq<ToolDefinition>) -> Seq<Seq<char>> {
    Seq::new(defs.len(), |i: int| defs[i]@.name)
}

proof fn once_is_ascending(defs: Seq<ToolDefinition>)
    requires
        in_order(defs),
    ensures
        ascending(def_names(each_name_once(defs))),
        defs.len() > 0 ==> each_name_once(defs).len() > 0 && each_name_once(defs).last()@.name
            == defs.last()@.name,
        forall|i: int|
            0 <= i < each_name_once(defs).len() ==> defs.contains(#[trigger] each_name_once(defs)[i]),
        forall|i: int|
            0 <= i < defs.len() ==> def_names(each_name_once(defs)).contains(
                (#[trigger] defs[i])@.name,
            ),
    decreases defs.len(),
{
    if defs.len() > 0 {
        let rest = defs.drop_last();
        assert(in_order(rest)) by {
            assert forall|i: int, j: int| 0 <= i < j < rest.len() implies !(
            #[trigger] rest[j]).before(#[trigger] &rest[i]) by {
                assert(rest[i] == defs[i]);
                assert(rest[j] == defs[j]);
            }
        }
        once_is_ascending(rest);
        let kept = each_name_once(rest);
        let all = each_name_once(defs);
        let last = defs.last();
        let grew = !(kept.len() > 0 && kept.last()@.name == last@.name);
        if grew && kept.len() > 0 {
            assert(!defs[defs.len() - 1].before(&defs[rest.len() - 1]));
            assert(rest.last() == defs[rest.len() - 1]);
            text_order_is_total(kept.last()@.name, last@.name);
            assert(text_before(kept.last()@.name, last@.name));
        }
        let names = def_names(all);
        let before = def_names(kept);
        assert forall|i: int, j: int| 0 <= i < j < names.len() implies text_before(
            #[trigger] names[i],
            #[trigger] names[j],
        ) by {
            if j < kept.len() {
                assert(before[i] == names[i]);
                assert(before[j] == names[j]);
            } else {
                if i < kept.len() - 1 {
                    assert(before[i] == names[i]);
                    assert(text_before(before[i], before[kept.len() - 1]));
                    text_order_is_transitive(names[i], kept.last()@.name, last@.name);
                }
            }
        }
        assert forall|i: int| 0 <= i < all.len() implies defs.contains(#[trigger] all[i]) by {
            if i < kept.len() {
                assert(all[i] == kept[i]);
                let k = choose|k: int| 0 <= k < rest.len() && rest[k] == kept[i];
                assert(defs[k] == all[i]);
            } else {
                assert(defs[defs.len() - 1] == all[i]);
            }
        }
        assert forall|i: int| 0 <= i < defs.len() implies names.contains(
            (#[trigger] defs[i])@.name,
        ) by {
            if i < rest.len() {
                assert(rest[i] == defs[i]);
                let k = choose|k: int| 0 <= k < before.len() && before[k] == rest[i]@.name;
                assert(names[k] == before[k]);
            } else {
                assert(names[all.len() - 1] == last@.name);
            }
        }
    }
}

/// A tidied listing names each tool once, in order, and names every tool that was listed. So the
/// order in which a server lists its tools does not matter: listings that name the same tools name
/// them in the same order.
pub proof fn listing_order_does_not_matter(a: Seq<ToolDefinition>, b: Seq<ToolDefinition>)
    requires
        forall|n: Seq<char>| #[trigger]
            def_names(a).contains(n) <==> #[trigger] def_names(b).contains(n),
    ensures
        ascending(def_names(tidied(a))),
        forall|n: Seq<char>|
            def_names(tidied(a)).contains(n) <==> #[trigger] def_names(a).contains(n),
        def_names(tidied(a)) == def_names(tidied(b)),
{
    tidied_names(a);
    tidied_names(b);
    let x = def_names(tidied(a));
    let y = def_names(tidied(b));
    assert forall|n: Seq<char>| x.contains(n) <==> #[trigger] y.contains(n) by {
        assert(def_names(a).contains(n) <==> def_names(b).contains(n));
    }
    ascending_lists_are_unique(x, y);
}

proof fn tidied_names(a: Seq<ToolDefinition>)
    ensures
        forall|i: int| 0 <= i < tidied(a).len() ==> a.contains(#[trigger] tidied(a)[i]),
        ascending(def_names(tidied(a))),
        forall|n: Seq<char>|
            def_names(tidied(a)).contains(n) <==> #[trigger] def_names(a).contains(n),
{
    sorting_orders_and_keeps(a);
    let s = sorted(a);
    once_is_ascending(s);
    let t = tidied(a);
    assert forall|i: int| 0 <= i < t.len() implies a.contains(#[trigger] t[i]) by {
        assert(s.contains(t[i]));
        assert(s.to_multiset().contains(t[i])) by {
            s.to_multiset_ensures();
        }
        a.to_multiset_ensures();
    }
    assert forall|n: Seq<char>| def_names(t).contains(n) <==> #[trigger] def_names(a).contains(
        n,
    ) by {
        if def_names(t).contains(n) {
            let i = choose|i: int| 0 <= i < def_names(t).len() && def_names(t)[i] == n;
            assert(a.contains(t[i]));
            let k = choose|k: int| 0 <= k < a.len() && a[k] == t[i];
            assert(def_names(a)[k] == n);
        }
        if def_names(a).contains(n) {
            let i = choose|i: int| 0 <= i < def_names(a).len() && def_names(a)[i] == n;
            assert(a.contains(a[i]));
            a.to_multiset_ensures();
            s.to_multiset_ensures();
            assert(a.to_multiset().count(a[i]) > 0);
            assert(s.to_multiset().count(a[i]) > 0);
            assert(s.contains(a[i]));
            let k = choose|k: int| 0 <= k < s.len() && s[k] == a[i];
            assert(def_names(t).contains(s[k]@.name));
        }
    }
}

/// A server's tool as a definition, with the server's name in front. A schema that is no object
/// counts as one that takes no arguments, and an output schema that is none counts as absent.
pub open spec fn definition_of(server: Seq<char>, tool: McpToolView) -> ToolDefinitionView {
    ToolDefinitionView {
        output_schema: match tool.output_schema {
            Some(s) => if s is Object {
                Some(s)
            } else {
                None
            },
            None => None,
        },
        ..plain_tool(
            server + "_"@ + tool.name,
            tool.description,
            if tool.input_schema is Object {
                tool.input_schema
            } else {
                empty_schema()
            },
        )
    }
}

/// Whether a definition speaks for a server's tool: under the server's name, with the tool's own
/// description, arguments and results. What is no schema is not taken for one. A server gets no
/// capability by listing a tool, and its tools are found rather than always shown.
pub open spec fn speaks_for(d: ToolDefinitionView, server: Seq<char>, tool: McpToolView) -> bool {
    &&& d.name == server + "_"@ + tool.name
    &&& d.description == tool.description
    &&& d.input_schema is Object
    &&& tool.input_schema is Object ==> d.input_schema == tool.input_schema
    &&& match tool.output_schema {
        Some(s) => if s is Object {
            d.output_schema == Some(s)
        } else {
            d.output_schema is None
        },
        None => d.output_schema is None,
    }
    &&& d.capabilities.len() == 0
    &&& d.caller == CallerPolicy::Direct
    &&& d.presentation == PresentationHint::Deferred
    &&& d.examples.len() == 0
}

/// Whether a definition speaks for one of a server's tools.
pub open spec fn stands_for_one(
    d: ToolDefinitionView,
    server: Seq<char>,
    tools: Seq<McpToolView>,
) -> bool {
    exists|i: int| 0 <= i < tools.len() && speaks_for(d, server, #[trigger] tools[i])
}

/// Whether one of some definitions has a name.
pub open spec fn names_one(defs: Seq<ToolDefinition>, name: Seq<char>) -> bool {
    exists|k: int| 0 <= k < defs.len() && (#[trigger] defs[k])@.name == name
}

/// Turn a server's tool into a definition, namespaced by server, so that two servers cannot collide
/// on a common name.
pub fn to_definition(server: &ServerId, tool: &McpTool) -> (r: ToolDefinition)
    ensures
        r@ == definition_of(server@, tool.deep_view()),
        speaks_for(r@, server@, tool.deep_view()),
{
    let schema = match JsonSchema::new(tool.input_schema.copy()) {
        Ok(s) => s,
        Err(_) => JsonSchema::empty_object(),
    };
    let mut name = server.as_str().to_owned();
    name.push_str("_");
    name.push_str(tool.name.as_str());
    let mut def = ToolDefinition::new(name.as_str(), tool.description.as_str(), schema);
    def.output_schema = match &tool.output_schema {
        Some(s) => match JsonSchema::new(s.copy()) {
            Ok(schema) => Some(schema),
            Err(_) => None,
        },
        None => None,
    };
    assert(def@ =~= definition_of(server@, tool.deep_view()));
    def
}

/// Whether some definitions are those of a server's tools, in listing order.
pub open spec fn defines(
    defs: Seq<ToolDefinition>,
    server: Seq<char>,
    tools: Seq<McpToolView>,
) -> bool {
    &&& defs.len() == tools.len()
    &&& forall|i: int|
        0 <= i < defs.len() ==> (#[trigger] defs[i])@ == definition_of(server, tools[i])
}

/// Some definitions, as they read.
pub open spec fn def_views(defs: Seq<ToolDefinition>) -> Seq<ToolDefinitionView> {
    Seq::new(defs.len(), |i: int| defs[i]@)
}

/// Whether no two different tools of a listing share a name.
pub open spec fn names_tell_apart(tools: Seq<McpToolView>) -> bool {
    forall|i: int, j: int|
        0 <= i < tools.len() && 0 <= j < tools.len() && (#[trigger] tools[i]).name == (
        #[trigger] tools[j]).name ==> tools[i] == tools[j]
}

proof fn names_are_told_apart(server: Seq<char>, a: Seq<char>, b: Seq<char>)
    requires
        server + "_"@ + a == server + "_"@ + b,
    ensures
        a == b,
{
    let n = (server + "_"@).len() as int;
    assert((server + "_"@ + a).skip(n) == a);
    assert((server + "_"@ + b).skip(n) == b);
}

/// A server that lists the same tools in another order gives the same catalog, definition for
/// definition, so it cannot churn the prompt.
pub proof fn a_reordered_listing_gives_the_same_catalog(
    server: Seq<char>,
    x: Seq<McpToolView>,
    y: Seq<McpToolView>,
    a: Seq<ToolDefinition>,
    b: Seq<ToolDefinition>,
)
    requires
        defines(a, server, x),
        defines(b, server, y),
        forall|t: McpToolView| #[trigger] x.contains(t) <==> #[trigger] y.contains(t),
        names_tell_apart(x),
    ensures
        def_views(tidied(a)) == def_views(tidied(b)),
{
    assert forall|n: Seq<char>| #[trigger] def_names(a).contains(n) <==> #[trigger] def_names(
        b,
    ).contains(n) by {
        if def_names(a).contains(n) {
            let i = choose|i: int| 0 <= i < def_names(a).len() && def_names(a)[i] == n;
            assert(a[i]@ == definition_of(server, x[i]));
            assert(x.contains(x[i]));
            assert(y.contains(x[i]));
            let j = choose|j: int| 0 <= j < y.len() && y[j] == x[i];
            assert(b[j]@ == definition_of(server, y[j]));
            assert(def_names(b)[j] == n);
        }
        if def_names(b).contains(n) {
            let i = choose|i: int| 0 <= i < def_names(b).len() && def_names(b)[i] == n;
            assert(b[i]@ == definition_of(server, y[i]));
            assert(y.contains(y[i]));
            assert(x.contains(y[i]));
            let j = choose|j: int| 0 <= j < x.len() && x[j] == y[i];
            assert(a[j]@ == definition_of(server, x[j]));
            assert(def_names(a)[j] == n);
        }
    }
    listing_order_does_not_matter(a, b);
    tidied_names(a);
    tidied_names(b);
    let t = tidied(a);
    let u = tidied(b);
    assert(t.len() == def_names(t).len() && u.len() == def_names(u).len());
    assert forall|i: int| 0 <= i < t.len() implies (#[trigger] def_views(t)[i]) == def_views(
        u,
    )[i] by {
        assert(def_names(t)[i] == def_names(u)[i]);
        assert(a.contains(t[i]));
        assert(b.contains(u[i]));
        let p = choose|p: int| 0 <= p < a.len() && a[p] == t[i];
        let q = choose|q: int| 0 <= q < b.len() && b[q] == u[i];
        assert(a[p]@ == definition_of(server, x[p]));
        assert(b[q]@ == definition_of(server, y[q]));
        names_are_told_apart(server, x[p].name, y[q].name);
        assert(y.contains(y[q]));
        assert(x.contains(y[q]));
        let m = choose|m: int| 0 <= m < x.len() && x[m] == y[q];
        assert(x[p] == x[m]);
    }
    assert(def_views(t) =~= def_views(u));
}

/// A catalog is the listing: each of its definitions speaks for a listed tool, and every listed tool
/// is there under its name.
pub proof fn a_catalog_holds_the_listed_tools(
    server: Seq<char>,
    tools: Seq<McpToolView>,
    defs: Seq<ToolDefinition>,
)
    requires
        defines(defs, server, tools),
    ensures
        forall|k: int|
            0 <= k < tidied(defs).len() ==> stands_for_one(
                (#[trigger] tidied(defs)[k])@,
                server,
                tools,
            ),
        forall|i: int|
            0 <= i < tools.len() ==> names_one(
                tidied(defs),
                server + "_"@ + (#[trigger] tools[i]).name,
            ),
{
    tidied_names(defs);
    let t = tidied(defs);
    assert forall|k: int| 0 <= k < t.len() implies stands_for_one(
        (#[trigger] t[k])@,
        server,
        tools,
    ) by {
        assert(defs.contains(t[k]));
        let i = choose|i: int| 0 <= i < defs.len() && defs[i] == t[k];
        assert(defs[i]@ == definition_of(server, tools[i]));
        assert(speaks_for(t[k]@, server, tools[i]));
    }
    assert forall|i: int| 0 <= i < tools.len() implies names_one(
        t,
        server + "_"@ + (#[trigger] tools[i]).name,
    ) by {
        assert(defs[i]@ == definition_of(server, tools[i]));
        assert(def_names(defs)[i] == server + "_"@ + tools[i].name);
        assert(def_names(defs).contains(def_names(defs)[i]));
        assert(def_names(t).contains(def_names(defs)[i]));
        let k = choose|k: int| 0 <= k < def_names(t).len() && def_names(t)[k] == def_names(defs)[i];
        assert(t[k]@.name == def_names(t)[k]);
    }
}

/// A server may shorten how long its listing is kept, and never beyond an hour.
pub proof fn freshness_is_capped(ttl: Option<u64>)
    ensures
        capped_ttl(ttl) is Some <==> ttl is Some,
        capped_ttl(ttl) matches Some(ms) ==> ms <= 3_600_000 && ms <= ttl->0,
        ttl matches Some(ms) && ms <= 3_600_000 ==> capped_ttl(ttl) == ttl,
        ttl matches Some(ms) && ms > 3_600_000 ==> capped_ttl(ttl) == Some(3_600_000u64),
{
}

/// A freshness hint, capped.
pub open spec fn capped_ttl(ttl: Option<u64>) -> Option<u64> {
    match ttl {
        Some(ms) => Some(
            if ms < MAX_TTL_MS {
                ms
            } else {
                MAX_TTL_MS
            },
        ),
        None => None,
    }
}

/// The parameters of a tool call.
pub open spec fn call_params(name: Seq<char>, arguments: JsonView) -> JsonView {
    json_with(
        json_with(no_fields(), "name"@, JsonView::Text(name)),
        "arguments"@,
        arguments,
    )
}

/// The texts among some content blocks.
pub open spec fn block_texts(blocks: Seq<JsonView>) -> Seq<Seq<char>>
    decreases blocks.len(),
{
    if blocks.len() == 0 {
        Seq::empty()
    } else {
        match blocks.last().get_str("text"@) {
            Some(t) => block_texts(blocks.drop_last()).push(t),
            None => block_texts(blocks.drop_last()),
        }
    }
}

/// What a tool result says: its text blocks, one to a line, or the whole result where it has no
/// content.
pub open spec fn result_text(result: JsonView) -> Seq<char> {
    match result.get("content"@) {
        Some(JsonView::Array(blocks)) => joined(block_texts(blocks), "\n"@),
        _ => render(result),
    }
}

/// What a client makes of a response body.
pub open spec fn read_as(server: ServerId, body: JsonView, r: Result<Json, McpError>) -> bool {
    match reply_of(body) {
        Err(why) => r matches Err(McpError::Protocol(ProtocolError::Malformed(w))) && w@ == why,
        Ok(ReplyView::Complete(result)) => r matches Ok(j) && j@ == result,
        Ok(ReplyView::Failed { code, message }) => r matches Err(
            McpError::Server { server: s, code: c, message: m },
        ) && s == server && c == code && m@ == message,
        Ok(ReplyView::InputRequired(needs)) => r matches Err(
            McpError::NeedsInput { server: s, required },
        ) && s == server && required@ == needs,
    }
}

/// A client for one server.
#[derive(Debug)]
pub struct McpClient {
    server: ServerId,
    client_info: ClientInfo,
    next_id: u64,
}

/// A client for one server.
#[verifier::ext_equal]
pub struct McpClientView {
    pub server: ServerId,
    pub client: ClientView,
    pub next_id: u64,
}

impl View for McpClient {
    type V = McpClientView;

    closed spec fn view(&self) -> McpClientView {
        McpClientView {
            server: self.server,
            client: self.client_info@,
            next_id: self.next_id,
        }
    }
}

impl McpClient {
    /// A client for `server`.
    pub fn new(server: ServerId) -> (r: Self)
        ensures
            r@ == (McpClientView { server, client: this_client(), next_id: 1 }),
    {
        McpClient { server, client_info: ClientInfo::default(), next_id: 1 }
    }

    /// The next request to send. Ids count up from one, and wrap.
    pub fn request(&mut self, method: &str, params: Option<Json>) -> (r: Request)
        ensures
            r@ == request_view(old(self)@.next_id, method@, opt_json(params), old(self)@.client),
            final(self)@ == (McpClientView {
                next_id: if old(self)@.next_id < u64::MAX {
                    (old(self)@.next_id + 1) as u64
                } else {
                    0
                },
                ..old(self)@
            }),
    {
        let request = Request::new(self.next_id, method, params, &self.client_info);
        self.next_id = if self.next_id < u64::MAX {
            self.next_id + 1
        } else {
            0
        };
        request
    }

    /// Read a response body: its result, or what went wrong.
    pub fn read(&self, body: &Json) -> (r: Result<Json, McpError>)
        ensures
            read_as(self@.server, body@, r),
    {
        match parse_reply(body) {
            Err(e) => Err(McpError::Protocol(e)),
            Ok(Reply::Complete(result)) => Ok(result),
            Ok(Reply::Failed { code, message }) => Err(
                McpError::Server { server: self.server.clone(), code, message },
            ),
            Ok(Reply::InputRequired(required)) => Err(
                McpError::NeedsInput { server: self.server.clone(), required: Box::new(required) },
            ),
        }
    }

    /// Work out which revision a server speaks, from its answer to `server/discover`.
    ///
    /// A server that predates the stateless revision answers that there is no such method, which is
    /// negotiation rather than failure.
    pub fn negotiate(&self, answer: Result<Json, McpError>) -> (r: Result<ServerIdentity, McpError>)
        ensures
            match answer {
                Ok(result) => {
                    &&& r matches Ok(id)
                    &&& id.stateless
                    &&& id.protocol_version@ == PROTOCOL_VERSION@
                    &&& match result@.get("serverInfo"@) {
                        Some(info) => match info.get_str("name"@) {
                            Some(n) => id.name matches Some(s) && s@ == n,
                            None => id.name is None,
                        },
                        None => id.name is None,
                    }
                },
                Err(e) => if e is Server && e->Server_code == -32601 {
                    r matches Ok(id) && !id.stateless && id.protocol_version@
                        == LEGACY_PROTOCOL_VERSION@ && id.name is None
                } else {
                    r == Err::<ServerIdentity, McpError>(e)
                },
            },
    {
        match answer {
            Ok(result) => {
                let name = match result.get("serverInfo") {
                    Some(info) => match info.get_str("name") {
                        Some(n) => Some(n.to_owned()),
                        None => None,
                    },
                    None => None,
                };
                Ok(
                    ServerIdentity {
                        name,
                        protocol_version: PROTOCOL_VERSION.to_owned(),
                        stateless: true,
                    },
                )
            },
            Err(e) => {
                let older = match &e {
                    McpError::Server { code, .. } => is_method_not_found(*code),
                    _ => false,
                };
                if older {
                    Ok(
                        ServerIdentity {
                            name: None,
                            protocol_version: LEGACY_PROTOCOL_VERSION.to_owned(),
                            stateless: false,
                        },
                    )
                } else {
                    Err(e)
                }
            },
        }
    }

    /// The catalog in a listing: every tool with the server's name in front, sorted again so that a
    /// server cannot churn the prompt cache, and with the freshness hint capped.
    pub fn catalog(&self, list: &ToolsList) -> (r: Catalog)
        ensures
            r.server == self@.server,
            r.ttl_ms == capped_ttl(list.ttl_ms),
            r.scope == list.cache_scope,
            exists|defs: Seq<ToolDefinition>| #[trigger]
                defines(defs, self@.server@, list.tools.deep_view()) && r.tools@ == tidied(defs),
            forall|k: int|
                0 <= k < r.tools@.len() ==> stands_for_one(
                    (#[trigger] r.tools@[k])@,
                    self@.server@,
                    list.tools.deep_view(),
                ),
            forall|i: int|
                0 <= i < list.tools@.len() ==> names_one(
                    r.tools@,
                    self@.server@ + "_"@ + (#[trigger] list.tools.deep_view()[i]).name,
                ),
    {
        let mut defs: Vec<ToolDefinition> = Vec::new();
        let mut i: usize = 0;
        while i < list.tools.len()
            invariant
                i <= list.tools@.len(),
                defs@.len() == i,
                forall|j: int|
                    0 <= j < i ==> (#[trigger] defs@[j])@ == definition_of(
                        self.server@,
                        list.tools@[j].deep_view(),
                    ),
            decreases list.tools@.len() - i,
        {
            defs.push(to_definition(&self.server, &list.tools[i]));
            i = i + 1;
        }
        assert(defines(defs@, self@.server@, list.tools.deep_view()));
        proof {
            a_catalog_holds_the_listed_tools(self@.server@, list.tools.deep_view(), defs@);
        }
        Catalog {
            server: self.server.clone(),
            tools: tidy(defs),
            ttl_ms: match list.ttl_ms {
                Some(ms) => Some(
                    if ms < MAX_TTL_MS {
                        ms
                    } else {
                        MAX_TTL_MS
                    },
                ),
                None => None,
            },
            scope: list.cache_scope,
        }
    }

    /// The parameters of a call of a tool.
    pub fn call_params(name: &str, arguments: Json) -> (r: Json)
        ensures
            r@ == call_params(name@, arguments@),
    {
        Json::empty().with("name", Json::text(name)).with("arguments", arguments)
    }

    /// What a tool returned, labelled with the server and the tool that it came from.
    pub fn tool_result(&self, name: &str, result: &Json) -> (r: Untrusted<String>)
        ensures
            r.inner()@ == result_text(result@),
            r.story() == ProvenanceView::straight("mcp:"@ + (self@.server@ + "/"@ + name@)),
    {
        let blocks = match result.get("content") {
            Some(c) => c.as_array(),
            None => None,
        };
        let text = match blocks {
            Some(items) => {
                let ghost all = json_views(items@);
                let mut parts: Vec<String> = Vec::new();
                let mut i: usize = 0;
                assert(texts(parts@) == block_texts(all.take(0)));
                while i < items.len()
                    invariant
                        i <= items@.len(),
                        all == json_views(items@),
                        texts(parts@) == block_texts(all.take(i as int)),
                    decreases items@.len() - i,
                {
                    assert(all.take(i + 1).drop_last() == all.take(i as int));
                    assert(all.take(i + 1).last() == items@[i as int]@);
                    if let Some(t) = items[i].get_str("text") {
                        let ghost before = parts@;
                        parts.push(t.to_owned());
                        assert(texts(parts@) == texts(before).push(t@));
                    }
                    i = i + 1;
                }
                assert(all.take(all.len() as int) == all);
                join(&parts, "\n")
            },
            None => result.to_string(),
        };
        let mut from = self.server.as_str().to_owned();
        from.push_str("/");
        from.push_str(name);
        Tainted::with_provenance(text, Provenance::tagged("mcp:", from.as_str()))
    }
}

/// Everything the agent knows from every server, cached.
#[derive(Debug)]
pub struct CatalogCache {
    entries: Vec<Catalog>,
}

impl View for CatalogCache {
    type V = Seq<CatalogView>;

    closed spec fn view(&self) -> Seq<CatalogView> {
        self.entries.deep_view()
    }
}

/// The servers of some catalogs.
pub open spec fn servers_of(entries: Seq<CatalogView>) -> Seq<Seq<char>> {
    Seq::new(entries.len(), |i: int| entries[i].server)
}

/// The catalogs with one more, or with another one for a server that is there, in order of their
/// servers.
pub open spec fn with_catalog(entries: Seq<CatalogView>, c: CatalogView) -> Seq<CatalogView>
    decreases entries.len(),
{
    if entries.len() == 0 || text_before(c.server, entries[0].server) {
        seq![c] + entries
    } else if entries[0].server == c.server {
        seq![c] + entries.drop_first()
    } else {
        seq![entries[0]] + with_catalog(entries.drop_first(), c)
    }
}

/// Every tool of some catalogs, catalog by catalog.
pub open spec fn tools_of(entries: Seq<CatalogView>) -> Seq<ToolDefinitionView>
    decreases entries.len(),
{
    if entries.len() == 0 {
        Seq::empty()
    } else {
        tools_of(entries.drop_last()) + entries.last().tools
    }
}

/// Those that may be shared.
pub open spec fn shared_among(entries: Seq<CatalogView>) -> Seq<CatalogView>
    decreases entries.len(),
{
    if entries.len() == 0 {
        Seq::empty()
    } else if entries.last().scope == CacheScope::Public {
        shared_among(entries.drop_last()).push(entries.last())
    } else {
        shared_among(entries.drop_last())
    }
}

impl Default for CatalogCache {
    fn default() -> (r: Self)
        ensures
            r@ == Seq::<CatalogView>::empty(),
    {
        let r = CatalogCache { entries: Vec::new() };
        assert(r@ == Seq::<CatalogView>::empty());
        r
    }
}

impl CatalogCache {
    /// An empty cache.
    #[must_use]
    pub fn new() -> (r: Self)
        ensures
            r@ == Seq::<CatalogView>::empty(),
    {
        CatalogCache::default()
    }

    /// Store a catalog.
    pub fn insert(&mut self, catalog: Catalog)
        ensures
            final(self)@ == with_catalog(old(self)@, catalog@),
    {
        let ghost all = self@;
        let ghost c = catalog@;
        let mut i: usize = 0;
        assert(all.skip(0) == all);
        while i < self.entries.len()
            invariant
                i <= self.entries@.len(),
                all == self.entries.deep_view(),
                all == old(self)@,
                c == catalog@,
                with_catalog(all, c) == all.take(i as int) + with_catalog(all.skip(i as int), c),
            decreases self.entries@.len() - i,
        {
            let ghost rest = all.skip(i as int);
            assert(rest[0] == self.entries@[i as int]@);
            assert(rest.drop_first() == all.skip(i + 1));
            if comes_before(catalog.server.as_str(), self.entries[i].server.as_str()) {
                self.entries.insert(i, catalog);
                assert(self.entries.deep_view() == all.take(i as int) + (seq![c] + rest));
                return;
            }
            if same_text(self.entries[i].server.as_str(), catalog.server.as_str()) {
                self.entries.set(i, catalog);
                assert(self.entries.deep_view() == all.take(i as int) + (seq![c]
                    + rest.drop_first()));
                return;
            }
            proof {
                assert(all.take(i as int) + (seq![rest[0]] + with_catalog(rest.drop_first(), c))
                    == all.take(i + 1) + with_catalog(all.skip(i + 1), c));
            }
            i = i + 1;
        }
        self.entries.push(catalog);
        proof {
            assert(all.skip(i as int).len() == 0);
            assert(seq![c] + all.skip(i as int) == seq![c]);
            assert(all.take(i as int) == all);
            assert(self.entries.deep_view() == all + seq![c]);
        }
    }

    /// Every tool from every server, in a deterministic order.
    #[must_use]
    pub fn all_tools(&self) -> (r: Vec<ToolDefinition>)
        ensures
            r.deep_view() == tools_of(self@),
    {
        let ghost all = self@;
        let mut out: Vec<ToolDefinition> = Vec::new();
        let mut i: usize = 0;
        assert(out.deep_view() == tools_of(all.take(0)));
        while i < self.entries.len()
            invariant
                i <= self.entries@.len(),
                all == self.entries.deep_view(),
                out.deep_view() == tools_of(all.take(i as int)),
            decreases self.entries@.len() - i,
        {
            assert(all.take(i + 1).drop_last() == all.take(i as int));
            assert(all.take(i + 1).last() == self.entries@[i as int]@);
            extend_tools(&mut out, &self.entries[i].tools);
            i = i + 1;
        }
        assert(all.take(all.len() as int) == all);
        out
    }

    /// How many servers are cached.
    #[must_use]
    pub fn len(&self) -> (r: usize)
        ensures
            r == self@.len(),
    {
        self.entries.len()
    }

    /// Whether nothing is cached.
    #[must_use]
    pub fn is_empty(&self) -> (r: bool)
        ensures
            r == (self@.len() == 0),
    {
        self.entries.len() == 0
    }

    /// The catalogs that may be shared with another principal.
    pub fn shareable(&self) -> (r: Vec<&Catalog>)
        ensures
            Seq::new(r@.len(), |i: int| r@[i]@) == shared_among(self@),
    {
        let ghost all = self@;
        let mut out: Vec<&Catalog> = Vec::new();
        let mut i: usize = 0;
        assert(Seq::new(out@.len(), |i: int| out@[i]@) == shared_among(all.take(0)));
        while i < self.entries.len()
            invariant
                i <= self.entries@.len(),
                all == self.entries.deep_view(),
                Seq::new(out@.len(), |i: int| out@[i]@) == shared_among(all.take(i as int)),
            decreases self.entries@.len() - i,
        {
            assert(all.take(i + 1).drop_last() == all.take(i as int));
            assert(all.take(i + 1).last() == self.entries@[i as int]@);
            let ghost before = Seq::new(out@.len(), |i: int| out@[i]@);
            if self.entries[i].is_shareable() {
                out.push(&self.entries[i]);
                assert(Seq::new(out@.len(), |i: int| out@[i]@) == before.push(all[i as int]));
            }
            i = i + 1;
        }
        assert(all.take(all.len() as int) == all);
        out
    }
}

fn extend_tools(out: &mut Vec<ToolDefinition>, more: &Vec<ToolDefinition>)
    ensures
        final(out).deep_view() == old(out).deep_view() + more.deep_view(),
{
    let ghost start = out.deep_view();
    let ghost all = more.deep_view();
    let mut i: usize = 0;
    assert(start + all.take(0) == start);
    while i < more.len()
        invariant
            i <= more@.len(),
            all == more.deep_view(),
            start == old(out).deep_view(),
            out.deep_view() == start + all.take(i as int),
        decreases more@.len() - i,
    {
        let ghost before = out.deep_view();
        out.push(more[i].clone());
        proof {
            assert(out.deep_view() == before.push(more@[i as int]@));
            assert(start + all.take(i + 1) == before.push(all[i as int]));
        }
        i = i + 1;
    }
    assert(all.take(all.len() as int) == all);
}

/// The servers of a cache ascend, each once, whatever is stored: so the tools come in the same order
/// in every process that knows the same catalogs.
pub proof fn servers_stay_in_order(entries: Seq<CatalogView>, c: CatalogView)
    requires
        ascending(servers_of(entries)),
    ensures
        ascending(servers_of(with_catalog(entries, c))),
        servers_of(with_catalog(entries, c)).contains(c.server),
        forall|s: Seq<char>|
            servers_of(with_catalog(entries, c)).contains(s) ==> s == c.server || #[trigger] servers_of(
                entries,
            ).contains(s),
    decreases entries.len(),
{
    let out = with_catalog(entries, c);
    let was = servers_of(entries);
    let now = servers_of(out);
    if entries.len() == 0 || text_before(c.server, entries[0].server) {
        assert(now[0] == c.server);
        assert forall|i: int, j: int| 0 <= i < j < now.len() implies text_before(
            #[trigger] now[i],
            #[trigger] now[j],
        ) by {
            assert(now[j] == was[j - 1]);
            if i == 0 {
                if j > 1 {
                    assert(text_before(was[0], was[j - 1]));
                    text_order_is_transitive(c.server, was[0], was[j - 1]);
                }
            } else {
                assert(now[i] == was[i - 1]);
            }
        }
        assert forall|s: Seq<char>| now.contains(s) implies s == c.server || #[trigger] was.contains(
            s,
        ) by {
            let k = choose|k: int| 0 <= k < now.len() && now[k] == s;
            if k > 0 {
                assert(was[k - 1] == s);
            }
        }
    } else if entries[0].server == c.server {
        assert(now =~= was);
        assert(now[0] == c.server);
    } else {
        let rest = entries.drop_first();
        let rest_was = servers_of(rest);
        assert forall|i: int, j: int| 0 <= i < j < rest_was.len() implies text_before(
            #[trigger] rest_was[i],
            #[trigger] rest_was[j],
        ) by {
            assert(rest_was[i] == was[i + 1]);
            assert(rest_was[j] == was[j + 1]);
        }
        servers_stay_in_order(rest, c);
        let tail = servers_of(with_catalog(rest, c));
        text_order_is_total(c.server, was[0]);
        assert forall|i: int, j: int| 0 <= i < j < now.len() implies text_before(
            #[trigger] now[i],
            #[trigger] now[j],
        ) by {
            assert(now[j] == tail[j - 1]);
            if i == 0 {
                assert(tail.contains(tail[j - 1]));
                if tail[j - 1] != c.server {
                    assert(rest_was.contains(tail[j - 1]));
                    let k = choose|k: int| 0 <= k < rest_was.len() && rest_was[k] == tail[j - 1];
                    assert(rest_was[k] == was[k + 1]);
                    assert(text_before(was[0], was[k + 1]));
                }
            } else {
                assert(now[i] == tail[i - 1]);
            }
        }
        let k = choose|k: int| 0 <= k < tail.len() && tail[k] == c.server;
        assert(now[k + 1] == c.server);
        assert forall|s: Seq<char>| now.contains(s) implies s == c.server || #[trigger] was.contains(
            s,
        ) by {
            let m = choose|m: int| 0 <= m < now.len() && now[m] == s;
            if m == 0 {
                assert(was[0] == s);
            } else {
                assert(tail[m - 1] == s);
                assert(tail.contains(s));
                if s != c.server {
                    assert(rest_was.contains(s));
                    let q = choose|q: int| 0 <= q < rest_was.len() && rest_was[q] == s;
                    assert(was[q + 1] == s);
                }
            }
        }
    }
}

/// Storing a catalog stores it and loses none of another server.
pub proof fn stored_catalogs_are_kept(entries: Seq<CatalogView>, c: CatalogView, other: CatalogView)
    ensures
        with_catalog(entries, c).contains(c),
        other.server != c.server ==> (with_catalog(entries, c).contains(other) <==> entries.contains(
            other,
        )),
    decreases entries.len(),
{
    let out = with_catalog(entries, c);
    if entries.len() == 0 || text_before(c.server, entries[0].server) {
        assert(out[0] == c);
        if entries.contains(other) {
            let k = choose|k: int| 0 <= k < entries.len() && entries[k] == other;
            assert(out[k + 1] == other);
        }
        if out.contains(other) && other.server != c.server {
            let k = choose|k: int| 0 <= k < out.len() && out[k] == other;
            assert(entries[k - 1] == other);
        }
    } else {
        let rest = entries.drop_first();
        let tail = if entries[0].server == c.server {
            rest
        } else {
            with_catalog(rest, c)
        };
        if entries[0].server == c.server {
            assert(out[0] == c);
        } else {
            stored_catalogs_are_kept(rest, c, other);
            let k = choose|k: int| 0 <= k < tail.len() && tail[k] == c;
            assert(out[k + 1] == c);
        }
        if other.server != c.server {
            if entries.contains(other) {
                let k = choose|k: int| 0 <= k < entries.len() && entries[k] == other;
                if k == 0 {
                    assert(out[0] == other);
                } else {
                    assert(rest[k - 1] == other);
                    assert(tail.contains(other));
                    let m = choose|m: int| 0 <= m < tail.len() && tail[m] == other;
                    assert(out[m + 1] == other);
                }
            }
            if out.contains(other) {
                let k = choose|k: int| 0 <= k < out.len() && out[k] == other;
                if k == 0 {
                    assert(entries[0] == other);
                } else {
                    assert(tail[k - 1] == other);
                    assert(rest.contains(other));
                    let m = choose|m: int| 0 <= m < rest.len() && rest[m] == other;
                    assert(entries[m + 1] == other);
                }
            }
        }
    }
}

/// The tools of a cache are the tools of its catalogs, all of them and no others.
pub proof fn all_tools_are_offered(entries: Seq<CatalogView>, tool: ToolDefinitionView)
    ensures
        tools_of(entries).contains(tool) <==> exists|i: int|
            0 <= i < entries.len() && (#[trigger] entries[i]).tools.contains(tool),
    decreases entries.len(),
{
    if entries.len() > 0 {
        let rest = entries.drop_last();
        let before = tools_of(rest);
        let last = entries.last().tools;
        let all = tools_of(entries);
        all_tools_are_offered(rest, tool);
        if all.contains(tool) {
            let k = choose|k: int| 0 <= k < all.len() && all[k] == tool;
            if k < before.len() {
                assert(before[k] == tool);
                let i = choose|i: int|
                    0 <= i < rest.len() && (#[trigger] rest[i]).tools.contains(tool);
                assert(entries[i] == rest[i]);
            } else {
                assert(last[k - before.len()] == tool);
                assert(entries[entries.len() - 1].tools.contains(tool));
            }
        }
        if exists|i: int| 0 <= i < entries.len() && (#[trigger] entries[i]).tools.contains(tool) {
            let i = choose|i: int|
                0 <= i < entries.len() && (#[trigger] entries[i]).tools.contains(tool);
            if i < rest.len() {
                assert(rest[i].tools.contains(tool));
                let k = choose|k: int| 0 <= k < before.len() && before[k] == tool;
                assert(all[k] == tool);
            } else {
                let k = choose|k: int| 0 <= k < last.len() && last[k] == tool;
                assert(all[before.len() + k] == tool);
            }
        }
    }
}

/// What may be shared with another principal is what its server called public, and nothing else.
pub proof fn only_public_catalogs_are_shared(entries: Seq<CatalogView>, c: CatalogView)
    ensures
        shared_among(entries).contains(c) <==> entries.contains(c) && c.scope == CacheScope::Public,
    decreases entries.len(),
{
    if entries.len() > 0 {
        let rest = entries.drop_last();
        let before = shared_among(rest);
        let all = shared_among(entries);
        only_public_catalogs_are_shared(rest, c);
        if all.contains(c) {
            let k = choose|k: int| 0 <= k < all.len() && all[k] == c;
            if k < before.len() {
                assert(before[k] == c);
                let i = choose|i: int| 0 <= i < rest.len() && rest[i] == c;
                assert(entries[i] == c);
            } else {
                assert(entries[entries.len() - 1] == c);
            }
        }
        if entries.contains(c) && c.scope == CacheScope::Public {
            let i = choose|i: int| 0 <= i < entries.len() && entries[i] == c;
            if i < rest.len() {
                assert(rest[i] == c);
                let k = choose|k: int| 0 <= k < before.len() && before[k] == c;
                assert(all[k] == c);
            } else {
                assert(all[before.len() as int] == c);
            }
        }
    }
}

/// A tool's result reads as its pieces of text, each on a line of its own: one more piece with a text
/// adds that text, one without adds nothing.
pub proof fn every_text_of_a_result_is_read(
    blocks: Seq<JsonView>,
    more: JsonView,
)
    ensures
        ({
            let before = block_texts(blocks);
            let after = block_texts(blocks.push(more));
            match more.get_str("text"@) {
                Some(t) => after == before.push(t) && (before.len() > 0 ==> joined(after, "\n"@)
                    == joined(before, "\n"@) + "\n"@ + t) && (before.len() == 0 ==> joined(
                    after,
                    "\n"@,
                ) == t),
                None => after == before,
            }
        }),
        block_texts(Seq::empty()).len() == 0,
{
    assert(blocks.push(more).drop_last() == blocks);
    let before = block_texts(blocks);
    if more.get_str("text"@) is Some {
        let t = more.get_str("text"@)->0;
        assert(before.push(t).drop_last() == before);
    }
}

/// The texts of a result are read as lines: one more text stands on a line of its own behind those
/// before it. A result without a list of content is read as the document it is.
pub proof fn results_are_read_line_by_line(
    less: JsonView,
    result: JsonView,
    blocks: Seq<JsonView>,
    more: JsonView,
    text: Seq<char>,
)
    requires
        less.get("content"@) == Some(JsonView::Array(blocks)),
        result.get("content"@) == Some(JsonView::Array(blocks.push(more))),
        more.get_str("text"@) == Some(text),
    ensures
        block_texts(blocks).len() > 0 ==> result_text(result) == result_text(less) + "\n"@ + text,
        block_texts(blocks).len() == 0 ==> result_text(result) == text,
        forall|other: JsonView|
            other.get("content"@) is None ==> #[trigger] result_text(other) == render(other),
{
    every_text_of_a_result_is_read(blocks, more);
}

} // verus!
