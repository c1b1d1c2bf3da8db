//! Model providers: requests, responses, where cache marks land, and how failures are classified.

use std::collections::BTreeMap;

use vstd::prelude::*;

use crate::error::{copy_opt, opt_text};
use crate::ids::{AgentId, CallId, ModelId, ProviderId, ToolName};
use crate::item::{copy_items, copy_turns, Item, ItemView, Turn, TurnView};
use crate::json::{field_views, Json, JsonView};
use crate::segment::{CacheMark, CacheTtl};
use crate::text::{mentions, pieces_are_mentioned, dec, push_decimal};
use crate::tool_def::{copy_definitions, ToolDefinition, ToolDefinitionView};
use crate::usage::Usage;

verus! {

/// How hard the model should think, where the provider exposes a control.
#[derive(Debug, Clone, Copy, PartialEq, Eq, Structural)]
pub enum Effort {
    /// Let the provider decide.
    Default,
    /// Prefer speed.
    Low,
    /// Prefer quality.
    High,
}

impl Default for Effort {
    fn default() -> (r: Self)
        ensures
            r == Effort::Default,
    {
        Effort::Default
    }
}

/// One request to a model.
#[derive(Debug)]
pub struct Request {
    /// Which model.
    pub model: ModelId,
    /// The conversation so far.
    pub turns: Vec<Turn>,
    /// Tools visible this step, already filtered and ordered by the context engine.
    pub tools: Vec<ToolDefinition>,
    /// Where the cache planner wants breakpoints. Advisory.
    pub marks: Vec<CacheMark>,
    /// Cap on generated tokens.
    pub max_output: u32,
    /// How hard to think.
    pub effort: Effort,
    /// A stable key for cache-affinity routing, where the provider has one.
    pub cache_key: Option<String>,
    /// Provider-specific passthrough.
    pub extra: Vec<(String, Json)>,
}

/// What a request asks for.
#[verifier::ext_equal]
pub struct RequestView {
    pub model: Seq<char>,
    pub turns: Seq<TurnView>,
    pub tools: Seq<ToolDefinitionView>,
    pub marks: Seq<CacheMark>,
    pub max_output: u32,
    pub effort: Effort,
    pub cache_key: Option<Seq<char>>,
    pub extra: Seq<(Seq<char>, JsonView)>,
}

impl View for Request {
    type V = RequestView;

    open spec fn view(&self) -> RequestView {
        RequestView {
            model: self.model@,
            turns: self.turns.deep_view(),
            tools: self.tools.deep_view(),
            marks: self.marks@,
            max_output: self.max_output,
            effort: self.effort,
            cache_key: opt_text(self.cache_key),
            extra: field_views(self.extra@),
        }
    }
}

/// A request that asks for nothing yet.
pub open spec fn blank_request() -> RequestView {
    RequestView {
        model: ""@,
        turns: Seq::empty(),
        tools: Seq::empty(),
        marks: Seq::empty(),
        max_output: 0,
        effort: Effort::Default,
        cache_key: None,
        extra: Seq::empty(),
    }
}

impl Default for Request {
    fn default() -> (r: Self)
        ensures
            r@ == blank_request(),
    {
        let r = Request {
            model: ModelId::default(),
            turns: Vec::new(),
            tools: Vec::new(),
            marks: Vec::new(),
            max_output: 0,
            effort: Effort::Default,
            cache_key: None,
            extra: Vec::new(),
        };
        assert(r@ =~= blank_request());
        r
    }
}

fn copy_marks(marks: &Vec<CacheMark>) -> (r: Vec<CacheMark>)
    ensures
        r@ == marks@,
{
    let mut out: Vec<CacheMark> = Vec::new();
    let mut i: usize = 0;
    while i < marks.len()
        invariant
            i <= marks@.len(),
            out@ == marks@.take(i as int),
        decreases marks@.len() - i,
    {
        out.push(marks[i]);
        assert(out@ == marks@.take(i + 1));
        i = i + 1;
    }
    assert(marks@.take(marks@.len() as int) == marks@);
    out
}

fn copy_extra(extra: &Vec<(String, Json)>) -> (r: Vec<(String, Json)>)
    ensures
        field_views(r@) == field_views(extra@),
{
    let mut out: Vec<(String, Json)> = Vec::new();
    let mut i: usize = 0;
    while i < extra.len()
        invariant
            i <= extra@.len(),
            out@.len() == i,
            forall|j: int|
                0 <= j < i ==> (#[trigger] out@[j]).0@ == extra@[j].0@ && out@[j].1@ == extra@[j].1@,
        decreases extra@.len() - i,
    {
        out.push((extra[i].0.clone(), extra[i].1.copy()));
        i = i + 1;
    }
    assert(field_views(out@) == field_views(extra@));
    out
}

impl Clone for Request {
    fn clone(&self) -> (r: Self)
        ensures
            r@ == self@,
    {
        Request {
            model: self.model.clone(),
            turns: copy_turns(&self.turns),
            tools: copy_definitions(&self.tools),
            marks: copy_marks(&self.marks),
            max_output: self.max_output,
            effort: self.effort,
            cache_key: copy_opt(&self.cache_key),
            extra: copy_extra(&self.extra),
        }
    }
}

impl Default for ModelId {
    fn default() -> (r: Self)
        ensures
            r@ == ""@,
    {
        ModelId::new("")
    }
}

/// Where a cache plan's marks land on the wire.
///
/// A mark names a segment, and a dialect has no segment list: it has tools and turns. The tool
/// block, when there is one, is segment 0; each turn is the segment after it, in order. A mark
/// naming a segment that does not exist is dropped.
#[derive(Debug, PartialEq, Eq)]
pub struct MarkPlacement {
    /// A breakpoint at the end of the tool block.
    pub tools: Option<CacheTtl>,
    /// Breakpoints at the end of a turn, by index into the request's turns.
    pub turns: BTreeMap<usize, CacheTtl>,
}

/// Where marks land.
#[verifier::ext_equal]
pub struct PlacementView {
    pub tools: Option<CacheTtl>,
    pub turns: Map<usize, CacheTtl>,
}

impl View for MarkPlacement {
    type V = PlacementView;

    open spec fn view(&self) -> PlacementView {
        PlacementView { tools: self.tools, turns: self.turns@ }
    }
}

/// Where marks land in a request with this many turns. Of two marks on one segment the later one
/// counts.
pub open spec fn placed_marks(marks: Seq<CacheMark>, has_tools: bool, turns: nat) -> PlacementView
    decreases marks.len(),
{
    if marks.len() == 0 {
        PlacementView { tools: None, turns: Map::empty() }
    } else {
        let before = placed_marks(marks.drop_last(), has_tools, turns);
        let mark = marks.last();
        let turn = if has_tools {
            mark.at.0 - 1
        } else {
            mark.at.0 as int
        };
        if has_tools && mark.at.0 == 0 {
            PlacementView { tools: Some(mark.ttl), ..before }
        } else if turn < turns {
            PlacementView { turns: before.turns.insert(turn as usize, mark.ttl), ..before }
        } else {
            before
        }
    }
}

impl Default for MarkPlacement {
    fn default() -> (r: Self)
        ensures
            r@ == (PlacementView { tools: None, turns: Map::empty() }),
    {
        MarkPlacement { tools: None, turns: BTreeMap::new() }
    }
}

impl MarkPlacement {
    /// How many marks actually landed somewhere.
    #[must_use]
    pub fn len(&self) -> (r: usize)
        requires
            self@.turns.len() < usize::MAX,
        ensures
            r == self@.turns.len() + (if self@.tools is Some {
                1int
            } else {
                0
            }),
    {
        if self.tools.is_some() {
            1 + self.turns.len()
        } else {
            self.turns.len()
        }
    }

    /// Whether nothing landed.
    #[must_use]
    pub fn is_empty(&self) -> (r: bool)
        ensures
            r == (self@.tools is None && self@.turns.len() == 0),
    {
        self.tools.is_none() && self.turns.len() == 0
    }
}

impl Request {
    /// Resolve this request's marks against its own tools and turns.
    #[must_use]
    pub fn mark_placement(&self) -> (r: MarkPlacement)
        ensures
            r@ == placed_marks(self@.marks, self@.tools.len() > 0, self@.turns.len()),
    {
        let has_tools = self.tools.len() > 0;
        let mut placement = MarkPlacement { tools: None, turns: BTreeMap::new() };
        let mut i: usize = 0;
        while i < self.marks.len()
            invariant
                i <= self.marks@.len(),
                has_tools == (self.tools@.len() > 0),
                placement@ == placed_marks(
                    self.marks@.take(i as int),
                    has_tools,
                    self.turns@.len(),
                ),
            decreases self.marks@.len() - i,
        {
            assert(self.marks@.take(i + 1).drop_last() == self.marks@.take(i as int));
            assert(self.marks@.take(i + 1).last() == self.marks@[i as int]);
            let mark = self.marks[i];
            let index: u32 = mark.at.0;
            if has_tools && index == 0 {
                placement.tools = Some(mark.ttl);
            } else {
                let turn: u32 = if has_tools {
                    index - 1
                } else {
                    index
                };
                if (turn as u64) < self.turns.len() as u64 {
                    placement.turns.insert(turn as usize, mark.ttl);
                }
            }
            i = i + 1;
        }
        assert(self.marks@.take(self.marks@.len() as int) == self.marks@);
        placement
    }
}

/// The mark that counts for a segment: the last one that names it.
pub open spec fn mark_on(marks: Seq<CacheMark>, segment: int) -> Option<CacheTtl>
    decreases marks.len(),
{
    if marks.len() == 0 {
        None
    } else if marks.last().at.0 == segment {
        Some(marks.last().ttl)
    } else {
        mark_on(marks.drop_last(), segment)
    }
}

/// The tool block, when there is one, is segment 0, and turn `n` is the segment after the ones
/// before it. Every mark on a segment that exists lands there, and no other mark lands anywhere.
pub proof fn marks_land_on_their_segments(marks: Seq<CacheMark>, has_tools: bool, turns: nat)
    requires
        turns <= usize::MAX,
    ensures
        ({
            let placed = placed_marks(marks, has_tools, turns);
            let first: int = if has_tools {
                1
            } else {
                0
            };
            &&& placed.tools == (if has_tools {
                mark_on(marks, 0)
            } else {
                None
            })
            &&& forall|t: usize| #[trigger]
                placed.turns.contains_key(t) <==> t < turns && mark_on(marks, t + first) is Some
            &&& forall|t: usize|
                placed.turns.contains_key(t) ==> mark_on(marks, t + first) == Some(
                    #[trigger] placed.turns[t],
                )
        }),
    decreases marks.len(),
{
    if marks.len() > 0 {
        marks_land_on_their_segments(marks.drop_last(), has_tools, turns);
        let before = placed_marks(marks.drop_last(), has_tools, turns);
        let placed = placed_marks(marks, has_tools, turns);
        let first: int = if has_tools {
            1
        } else {
            0
        };
        assert forall|t: usize| #[trigger] placed.turns.contains_key(t) <==> t < turns && mark_on(
            marks,
            t + first,
        ) is Some by {
            assert(before.turns.contains_key(t) <==> t < turns && mark_on(
                marks.drop_last(),
                t + first,
            ) is Some);
        }
        assert forall|t: usize| placed.turns.contains_key(t) implies mark_on(marks, t + first)
            == Some(#[trigger] placed.turns[t]) by {
            assert(before.turns.contains_key(t) <==> t < turns && mark_on(
                marks.drop_last(),
                t + first,
            ) is Some);
            if before.turns.contains_key(t) {
                assert(mark_on(marks.drop_last(), t + first) == Some(before.turns[t]));
            }
        }
    }
}

/// Why generation stopped.
#[derive(Debug, PartialEq, Eq)]
#[non_exhaustive]
pub enum StopReason {
    /// The model finished its turn.
    EndTurn,
    /// The model wants one or more tools run.
    ToolUse,
    /// The output cap was reached. Not an end of turn: the answer is truncated.
    MaxTokens,
    /// A stop sequence matched.
    StopSequence,
    /// The model declined.
    Refusal,
    /// Something the adapter did not recognise, kept rather than flattened to `EndTurn`.
    Other(String),
}

impl Clone for StopReason {
    fn clone(&self) -> (r: Self)
        ensures
            r == *self,
    {
        match self {
            StopReason::EndTurn => StopReason::EndTurn,
            StopReason::ToolUse => StopReason::ToolUse,
            StopReason::MaxTokens => StopReason::MaxTokens,
            StopReason::StopSequence => StopReason::StopSequence,
            StopReason::Refusal => StopReason::Refusal,
            StopReason::Other(s) => StopReason::Other(s.clone()),
        }
    }
}

impl StopReason {
    /// Whether the model is waiting on tool results.
    #[must_use]
    pub fn wants_tools(&self) -> (r: bool)
        ensures
            r == (self is ToolUse),
    {
        matches!(self, StopReason::ToolUse)
    }

    /// Whether the response is incomplete, so treating it as a final answer would be wrong.
    #[must_use]
    pub fn is_truncated(&self) -> (r: bool)
        ensures
            r == (self is MaxTokens),
    {
        matches!(self, StopReason::MaxTokens)
    }
}

/// One response from a model.
#[derive(Debug, PartialEq, Eq)]
pub struct Response {
    /// The items produced, among them anything preserved as opaque.
    pub items: Vec<Item>,
    /// What it consumed.
    pub usage: Usage,
    /// Why it stopped.
    pub stop: StopReason,
    /// Which model actually served the request. Routers substitute models.
    pub model: ModelId,
    /// Which provider actually served it.
    pub provider: ProviderId,
}

/// What a model responded.
#[verifier::ext_equal]
pub struct ResponseView {
    pub items: Seq<ItemView>,
    pub usage: Usage,
    pub stop: StopReason,
    pub model: Seq<char>,
    pub provider: Seq<char>,
}

impl View for Response {
    type V = ResponseView;

    open spec fn view(&self) -> ResponseView {
        ResponseView {
            items: self.items.deep_view(),
            usage: self.usage,
            stop: self.stop,
            model: self.model@,
            provider: self.provider@,
        }
    }
}

impl Clone for Response {
    fn clone(&self) -> (r: Self)
        ensures
            r@ == self@,
    {
        Response {
            items: copy_items(&self.items),
            usage: self.usage.clone(),
            stop: self.stop.clone(),
            model: self.model.clone(),
            provider: self.provider.clone(),
        }
    }
}

/// An incremental update while streaming.
#[derive(Debug, Clone, PartialEq, Eq)]
#[non_exhaustive]
pub enum StreamEvent {
    /// A chunk of assistant text.
    TextDelta(String),
    /// A chunk of reasoning.
    ReasoningDelta(String),
    /// A tool call has started; arguments may still be arriving.
    ToolCallStarted {
        /// Correlation id.
        id: CallId,
        /// Which tool.
        name: ToolName,
    },
    /// A chunk of a tool call's JSON arguments.
    ToolArgsDelta {
        /// Correlation id.
        id: CallId,
        /// Partial JSON.
        json: String,
    },
    /// A complete item, for kinds that do not stream incrementally.
    Item(Box<Item>),
    /// The response is complete.
    Done(Box<Response>),
}

/// Why a provider call failed.
#[derive(Debug, PartialEq, Eq)]
#[non_exhaustive]
pub enum ProviderError {
    /// Credentials are missing, wrong, or revoked. Never retried.
    Auth {
        /// Which provider.
        provider: ProviderId,
        /// What it said.
        detail: String,
    },
    /// Out of credit, over a spend cap, or payment required. Never retried.
    Billing {
        /// Which provider.
        provider: ProviderId,
        /// What it said.
        detail: String,
    },
    /// Rate limited. Retryable, ideally after `retry_after_ms`.
    RateLimit {
        /// Which provider.
        provider: ProviderId,
        /// How long the provider asked us to wait.
        retry_after_ms: Option<u64>,
    },
    /// The provider is overloaded. Retryable.
    Overloaded {
        /// Which provider.
        provider: ProviderId,
    },
    /// The provider rejected what it was sent. Not retryable: the same request will fail again.
    BadRequest {
        /// Which provider.
        provider: ProviderId,
        /// What it said.
        detail: String,
    },
    /// The response did not match the provider's documented shape.
    Protocol {
        /// Which provider.
        provider: ProviderId,
        /// What went wrong.
        detail: String,
    },
    /// Transport failure. Retryable.
    Network {
        /// Which provider.
        provider: ProviderId,
        /// What went wrong.
        detail: String,
    },
    /// The caller asked for something this provider cannot do, and degrading was not acceptable.
    Unsupported {
        /// Which provider.
        provider: ProviderId,
        /// What was wanted.
        capability: String,
    },
    /// The run was cancelled.
    Cancelled,
}

impl Clone for ProviderError {
    fn clone(&self) -> (r: Self)
        ensures
            r == *self,
    {
        match self {
            ProviderError::Auth { provider, detail } => ProviderError::Auth {
                provider: provider.clone(),
                detail: detail.clone(),
            },
            ProviderError::Billing { provider, detail } => ProviderError::Billing {
                provider: provider.clone(),
                detail: detail.clone(),
            },
            ProviderError::RateLimit { provider, retry_after_ms } => ProviderError::RateLimit {
                provider: provider.clone(),
                retry_after_ms: *retry_after_ms,
            },
            ProviderError::Overloaded { provider } => ProviderError::Overloaded {
                provider: provider.clone(),
            },
            ProviderError::BadRequest { provider, detail } => ProviderError::BadRequest {
                provider: provider.clone(),
                detail: detail.clone(),
            },
            ProviderError::Protocol { provider, detail } => ProviderError::Protocol {
                provider: provider.clone(),
                detail: detail.clone(),
            },
            ProviderError::Network { provider, detail } => ProviderError::Network {
                provider: provider.clone(),
                detail: detail.clone(),
            },
            ProviderError::Unsupported { provider, capability } => ProviderError::Unsupported {
                provider: provider.clone(),
                capability: capability.clone(),
            },
            ProviderError::Cancelled => ProviderError::Cancelled,
        }
    }
}

/// A provider error in words.
pub open spec fn provider_error_text(e: ProviderError) -> Seq<char> {
    match e {
        ProviderError::Auth { provider, detail } => "authentication failed for "@ + provider@
            + ": "@ + detail@,
        ProviderError::Billing { provider, detail } => "billing failure for "@ + provider@ + ": "@
            + detail@,
        ProviderError::RateLimit { provider, .. } => "rate limited by "@ + provider@,
        ProviderError::Overloaded { provider } => provider@ + " is overloaded"@,
        ProviderError::BadRequest { provider, detail } => provider@ + " rejected the request: "@
            + detail@,
        ProviderError::Protocol { provider, detail } => "could not parse a response from "@
            + provider@ + ": "@ + detail@,
        ProviderError::Network { provider, detail } => "network failure talking to "@ + provider@
            + ": "@ + detail@,
        ProviderError::Unsupported { provider, capability } => provider@ + " does not support "@
            + capability@,
        ProviderError::Cancelled => "cancelled"@,
    }
}

/// How an HTTP status is classified.
pub open spec fn classified(
    e: ProviderError,
    provider: ProviderId,
    status: u16,
    detail: Seq<char>,
) -> bool {
    if status == 401 || status == 403 {
        e matches ProviderError::Auth { provider: p, detail: d } && p == provider && d@ == detail
    } else if status == 402 {
        e matches ProviderError::Billing { provider: p, detail: d } && p == provider && d@ == detail
    } else if status == 429 {
        e == (ProviderError::RateLimit { provider, retry_after_ms: None })
    } else if status == 400 || status == 404 || status == 405 || status == 409 || status == 413
        || status == 422 {
        e matches ProviderError::BadRequest { provider: p, detail: d } && p == provider && d@
            == detail
    } else if 500 <= status <= 504 || status == 529 {
        e == (ProviderError::Overloaded { provider })
    } else {
        e matches ProviderError::Protocol { provider: p, detail: d } && p == provider && d@
            == "unexpected HTTP "@ + dec(status as nat) + ": "@ + detail
    }
}

impl ProviderError {
    /// Whether retrying the identical request could plausibly succeed.
    #[must_use]
    pub fn is_retryable(&self) -> (r: bool)
        ensures
            r == (self is RateLimit || self is Overloaded || self is Network),
    {
        matches!(
            self,
            ProviderError::RateLimit { .. }
                | ProviderError::Overloaded { .. }
                | ProviderError::Network { .. }
        )
    }

    /// Whether this failure should stop the run rather than be absorbed.
    #[must_use]
    pub fn is_fatal(&self) -> (r: bool)
        ensures
            r == (self is Auth || self is Billing),
    {
        matches!(self, ProviderError::Auth { .. } | ProviderError::Billing { .. })
    }

    /// Classify an HTTP status from a provider.
    #[must_use]
    pub fn from_status(provider: &ProviderId, status: u16, detail: &str) -> (r: Self)
        ensures
            classified(r, *provider, status, detail@),
    {
        let provider = provider.clone();
        match status {
            401 | 403 => ProviderError::Auth { provider, detail: detail.to_owned() },
            402 => ProviderError::Billing { provider, detail: detail.to_owned() },
            429 => ProviderError::RateLimit { provider, retry_after_ms: None },
            400 | 404 | 405 | 409 | 413 | 422 => ProviderError::BadRequest {
                provider,
                detail: detail.to_owned(),
            },
            500..=504 | 529 => ProviderError::Overloaded { provider },
            _ => {
                let mut said = "unexpected HTTP ".to_owned();
                push_decimal(&mut said, status as u64);
                said.push_str(": ");
                said.push_str(detail);
                ProviderError::Protocol { provider, detail: said }
            },
        }
    }

    /// The error in words.
    pub fn to_string(&self) -> (r: String)
        ensures
            r@ == provider_error_text(*self),
    {
        match self {
            ProviderError::Auth { provider, detail } => three(
                "authentication failed for ",
                provider,
                ": ",
                detail,
            ),
            ProviderError::Billing { provider, detail } => three(
                "billing failure for ",
                provider,
                ": ",
                detail,
            ),
            ProviderError::RateLimit { provider, .. } => {
                let mut out = "rate limited by ".to_owned();
                out.push_str(provider.as_str());
                out
            },
            ProviderError::Overloaded { provider } => {
                let mut out = provider.as_str().to_owned();
                out.push_str(" is overloaded");
                out
            },
            ProviderError::BadRequest { provider, detail } => {
                let mut out = provider.as_str().to_owned();
                out.push_str(" rejected the request: ");
                out.push_str(detail.as_str());
                out
            },
            ProviderError::Protocol { provider, detail } => three(
                "could not parse a response from ",
                provider,
                ": ",
                detail,
            ),
            ProviderError::Network { provider, detail } => three(
                "network failure talking to ",
                provider,
                ": ",
                detail,
            ),
            ProviderError::Unsupported { provider, capability } => {
                let mut out = provider.as_str().to_owned();
                out.push_str(" does not support ");
                out.push_str(capability.as_str());
                out
            },
            ProviderError::Cancelled => "cancelled".to_owned(),
        }
    }
}

fn three(lead: &str, provider: &ProviderId, sep: &str, detail: &String) -> (r: String)
    ensures
        r@ == lead@ + provider@ + sep@ + detail@,
{
    let mut out = lead.to_owned();
    out.push_str(provider.as_str());
    out.push_str(sep);
    out.push_str(detail.as_str());
    out
}

/// A failure that stops the run is never one that is retried.
pub proof fn fatal_failures_are_not_retried(e: ProviderError, provider: ProviderId, detail: Seq<char>)
    ensures
        !((e is Auth || e is Billing) && (e is RateLimit || e is Overloaded || e is Network)),
        classified(e, provider, 402, detail) ==> e is Billing,
        classified(e, provider, 401, detail) ==> e is Auth,
        classified(e, provider, 429, detail) ==> e is RateLimit,
{
}

/// A task handed to an external agent process.
#[derive(Debug, Clone)]
pub struct DelegatedTask {
    /// What to do.
    pub prompt: String,
    /// The directory the agent may work in.
    pub workspace: String,
    /// Tool names to allow, where the vendor supports restricting them.
    pub allowed_tools: Option<Vec<String>>,
    /// How long to wait before giving up.
    pub timeout_ms: u64,
}

/// Something an external agent reported.
#[derive(Debug, Clone, PartialEq, Eq)]
#[non_exhaustive]
pub enum AgentEvent {
    /// Text the agent produced.
    Text(String),
    /// The agent used a tool. Reported for display only.
    ToolUsed {
        /// The tool's name as the vendor spells it.
        name: String,
    },
    /// Usage the vendor reported, if any. Another agent's spend is never estimated.
    Usage(Box<Usage>),
    /// The agent finished.
    Finished {
        /// Whether it believes it succeeded.
        ok: bool,
    },
    /// The agent failed.
    Failed {
        /// What it said.
        detail: String,
    },
}

/// Delegation failed.
#[derive(Debug, Clone, PartialEq, Eq)]
#[non_exhaustive]
pub enum DelegationError {
    /// The vendor's binary could not be found or started.
    Unavailable {
        /// Which agent.
        agent: AgentId,
        /// Why.
        detail: String,
    },
    /// The agent exceeded its time limit.
    Timeout {
        /// Which agent.
        agent: AgentId,
    },
    /// The agent's output could not be parsed.
    Protocol {
        /// Which agent.
        agent: AgentId,
        /// Why.
        detail: String,
    },
    /// The run was cancelled.
    Cancelled,
}

/// A delegation error in words.
pub open spec fn delegation_error_text(e: DelegationError) -> Seq<char> {
    match e {
        DelegationError::Unavailable { agent, detail } => "could not start agent `"@ + agent@
            + "`: "@ + detail@,
        DelegationError::Timeout { agent } => "agent `"@ + agent@ + "` timed out"@,
        DelegationError::Protocol { agent, detail } => "could not parse output from agent `"@
            + agent@ + "`: "@ + detail@,
        DelegationError::Cancelled => "cancelled"@,
    }
}

impl DelegationError {
    /// The error in words.
    pub fn to_string(&self) -> (r: String)
        ensures
            r@ == delegation_error_text(*self),
    {
        match self {
            DelegationError::Unavailable { agent, detail } => {
                let mut out = "could not start agent `".to_owned();
                out.push_str(agent.as_str());
                out.push_str("`: ");
                out.push_str(detail.as_str());
                out
            },
            DelegationError::Timeout { agent } => {
                let mut out = "agent `".to_owned();
                out.push_str(agent.as_str());
                out.push_str("` timed out");
                out
            },
            DelegationError::Protocol { agent, detail } => {
                let mut out = "could not parse output from agent `".to_owned();
                out.push_str(agent.as_str());
                out.push_str("`: ");
                out.push_str(detail.as_str());
                out
            },
            DelegationError::Cancelled => "cancelled".to_owned(),
        }
    }
}

/// What a status means for a caller: 401 and 403 are about credentials, 402 about money, 429 about
/// pace. A request that a provider rejects would be rejected again, and a provider that is overloaded
/// may recover. Anything else is not understood. Whose failure it is is never lost, and neither is
/// what the provider said where it is meant to be read.
pub proof fn statuses_are_told_apart(
    e: ProviderError,
    provider: ProviderId,
    status: u16,
    detail: Seq<char>,
)
    requires
        classified(e, provider, status, detail),
    ensures
        e is Auth <==> status == 401 || status == 403,
        e is Billing <==> status == 402,
        e is RateLimit <==> status == 429,
        e is Overloaded <==> 500 <= status <= 504 || status == 529,
        e is BadRequest <==> status == 400 || status == 404 || status == 405 || status == 409 || status
            == 413 || status == 422,
        !(e is Network) && !(e is Unsupported) && !(e is Cancelled),
        match e {
            ProviderError::Auth { provider: p, detail: d } => p == provider && d@ == detail,
            ProviderError::Billing { provider: p, detail: d } => p == provider && d@ == detail,
            ProviderError::RateLimit { provider: p, .. } => p == provider,
            ProviderError::Overloaded { provider: p } => p == provider,
            ProviderError::BadRequest { provider: p, detail: d } => p == provider && d@ == detail,
            ProviderError::Protocol { provider: p, detail: d } => p == provider && mentions(
                d@,
                detail,
            ),
            _ => false,
        },
{
    let none = Seq::<char>::empty();
    pieces_are_mentioned("unexpected HTTP "@ + dec(status as nat) + ": "@, detail, none);
}

/// An error names the provider it came from, and what went wrong.
pub proof fn provider_errors_name_their_provider(e: ProviderError)
    ensures
        match e {
            ProviderError::Auth { provider, detail } => mentions(provider_error_text(e), provider@)
                && mentions(provider_error_text(e), detail@),
            ProviderError::Billing { provider, detail } => mentions(provider_error_text(e), provider@)
                && mentions(provider_error_text(e), detail@),
            ProviderError::RateLimit { provider, .. } => mentions(provider_error_text(e), provider@),
            ProviderError::Overloaded { provider } => mentions(provider_error_text(e), provider@),
            ProviderError::BadRequest { provider, detail } => mentions(
                provider_error_text(e),
                provider@,
            ) && mentions(provider_error_text(e), detail@),
            ProviderError::Protocol { provider, detail } => mentions(provider_error_text(e), provider@)
                && mentions(provider_error_text(e), detail@),
            ProviderError::Network { provider, detail } => mentions(provider_error_text(e), provider@)
                && mentions(provider_error_text(e), detail@),
            ProviderError::Unsupported { provider, capability } => mentions(
                provider_error_text(e),
                provider@,
            ) && mentions(provider_error_text(e), capability@),
            ProviderError::Cancelled => true,
        },
{
    match e {
        ProviderError::Auth { provider, detail } => {
            two_mentions("authentication failed for "@, provider@, ": "@, detail@);
        },
        ProviderError::Billing { provider, detail } => {
            two_mentions("billing failure for "@, provider@, ": "@, detail@);
        },
        ProviderError::RateLimit { provider, .. } => {
            pieces_are_mentioned("rate limited by "@, provider@, Seq::empty());
        },
        ProviderError::Overloaded { provider } => {
            pieces_are_mentioned(Seq::empty(), provider@, " is overloaded"@);
        },
        ProviderError::BadRequest { provider, detail } => {
            two_mentions(Seq::empty(), provider@, " rejected the request: "@, detail@);
            assert(Seq::<char>::empty() + provider@ + " rejected the request: "@ + detail@ =~= provider@
                + " rejected the request: "@ + detail@);
        },
        ProviderError::Protocol { provider, detail } => {
            two_mentions("could not parse a response from "@, provider@, ": "@, detail@);
        },
        ProviderError::Network { provider, detail } => {
            two_mentions("network failure talking to "@, provider@, ": "@, detail@);
        },
        ProviderError::Unsupported { provider, capability } => {
            two_mentions(Seq::empty(), provider@, " does not support "@, capability@);
            assert(Seq::<char>::empty() + provider@ + " does not support "@ + capability@ =~= provider@
                + " does not support "@ + capability@);
        },
        ProviderError::Cancelled => {},
    }
}

proof fn two_mentions(lead: Seq<char>, a: Seq<char>, between: Seq<char>, b: Seq<char>)
    ensures
        mentions(lead + a + between + b, a),
        mentions(lead + a + between + b, b),
{
    pieces_are_mentioned(lead, a, between + b);
    assert(lead + a + (between + b) =~= lead + a + between + b);
    pieces_are_mentioned(lead + a + between, b, Seq::empty());
}

/// A mark counts for the segment it names: the last that names it decides, and a segment that no
/// mark names has none.
pub proof fn the_last_mark_counts(marks: Seq<CacheMark>, more: CacheMark, segment: int)
    ensures
        mark_on(Seq::empty(), segment) is None,
        mark_on(marks.push(more), segment) == (if more.at.0 == segment {
            Some(more.ttl)
        } else {
            mark_on(marks, segment)
        }),
{
    assert(marks.push(more).drop_last() == marks);
}

} // verus!
