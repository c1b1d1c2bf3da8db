//! What a provider can actually do.
//!
//! Capabilities belong to a provider and a model together: the minimum cacheable prefix varies by
//! model within a single vendor.

use vstd::prelude::*;

use crate::segment::CacheTtl;

verus! {

/// Whether the provider can search a tool catalog server-side.
#[derive(Debug, Clone, Copy, PartialEq, Eq, Structural)]
#[non_exhaustive]
pub enum ToolSearchSupport {
    /// The provider searches deferred tools itself.
    Native {
        /// How many tools one search returns.
        max_results: u8,
        /// How many tools may be deferred in a single request.
        max_deferred: u32,
    },
    /// No server-side search.
    Absent,
}

impl Default for ToolSearchSupport {
    fn default() -> (r: Self)
        ensures
            r == ToolSearchSupport::Absent,
    {
        ToolSearchSupport::Absent
    }
}

impl ToolSearchSupport {
    /// Whether discovery should be delegated to the provider.
    #[must_use]
    pub fn is_native(self) -> (r: bool)
        ensures
            r == (self is Native),
    {
        matches!(self, ToolSearchSupport::Native { .. })
    }
}

fn has_ttl(ttls: &Vec<CacheTtl>, ttl: CacheTtl) -> (r: bool)
    ensures
        r == ttls@.contains(ttl),
{
    let mut i: usize = 0;
    while i < ttls.len()
        invariant
            i <= ttls@.len(),
            forall|j: int| 0 <= j < i ==> ttls@[j] != ttl,
        decreases ttls@.len() - i,
    {
        if ttls[i] == ttl {
            assert(ttls@[i as int] == ttl);
            return true;
        }
        i = i + 1;
    }
    false
}

/// How a provider caches prompt prefixes.
#[derive(Debug, PartialEq, Eq)]
#[non_exhaustive]
pub enum CacheSupport {
    /// The caller places breakpoints.
    Explicit {
        /// How many breakpoints one request may carry.
        max_breakpoints: u8,
        /// Which lifetimes are available.
        ttls: Vec<CacheTtl>,
        /// The shortest prefix that will actually be cached.
        min_prefix_tokens: u32,
    },
    /// The provider caches automatically above a threshold.
    Automatic {
        /// The threshold.
        min_prefix_tokens: u32,
        /// Whether the caller may switch to explicit breakpoints.
        explicit_available: bool,
    },
    /// No prompt caching.
    Absent,
}

impl CacheSupport {
    /// The minimum prefix that will be cached, if caching exists at all.
    pub open spec fn min_prefix(self) -> Option<u32> {
        match self {
            CacheSupport::Explicit { min_prefix_tokens, .. } => Some(min_prefix_tokens),
            CacheSupport::Automatic { min_prefix_tokens, .. } => Some(min_prefix_tokens),
            CacheSupport::Absent => None,
        }
    }

    /// How many breakpoints may be placed.
    pub open spec fn budget(self) -> u8 {
        match self {
            CacheSupport::Explicit { max_breakpoints, .. } => max_breakpoints,
            CacheSupport::Automatic { explicit_available, .. } => if explicit_available {
                1u8
            } else {
                0u8
            },
            CacheSupport::Absent => 0u8,
        }
    }

    /// Whether a lifetime is available.
    pub open spec fn offers(self, ttl: CacheTtl) -> bool {
        match self {
            CacheSupport::Explicit { ttls, .. } => ttls@.contains(ttl),
            CacheSupport::Automatic { .. } => ttl == CacheTtl::Short,
            CacheSupport::Absent => false,
        }
    }

    /// The minimum prefix that will be cached, if caching exists at all.
    #[must_use]
    pub fn min_prefix_tokens(&self) -> (r: Option<u32>)
        ensures
            r == self.min_prefix(),
    {
        match self {
            CacheSupport::Explicit { min_prefix_tokens, .. } => Some(*min_prefix_tokens),
            CacheSupport::Automatic { min_prefix_tokens, .. } => Some(*min_prefix_tokens),
            CacheSupport::Absent => None,
        }
    }

    /// How many breakpoints the planner may place.
    #[must_use]
    pub fn breakpoint_budget(&self) -> (r: u8)
        ensures
            r == self.budget(),
    {
        match self {
            CacheSupport::Explicit { max_breakpoints, .. } => *max_breakpoints,
            CacheSupport::Automatic { explicit_available, .. } => {
                if *explicit_available {
                    1
                } else {
                    0
                }
            },
            CacheSupport::Absent => 0,
        }
    }

    /// Whether a given lifetime is available.
    #[must_use]
    pub fn supports_ttl(&self, ttl: CacheTtl) -> (r: bool)
        ensures
            r == self.offers(ttl),
    {
        match self {
            CacheSupport::Explicit { ttls, .. } => has_ttl(ttls, ttl),
            CacheSupport::Automatic { .. } => ttl == CacheTtl::Short,
            CacheSupport::Absent => false,
        }
    }
}

/// What happens to the model's reasoning between turns.
#[derive(Debug, Clone, Copy, PartialEq, Eq, Structural)]
pub enum ReasoningSupport {
    /// The model does not expose reasoning.
    Absent,
    /// Reasoning is returned in the clear and may be replayed.
    Plain,
    /// Reasoning comes back encrypted and must be replayed verbatim.
    Encrypted,
}

impl Default for ReasoningSupport {
    fn default() -> (r: Self)
        ensures
            r == ReasoningSupport::Absent,
    {
        ReasoningSupport::Absent
    }
}

impl ReasoningSupport {
    /// Whether dropping a reasoning item would lose state the provider expects back.
    #[must_use]
    pub fn requires_round_trip(self) -> (r: bool)
        ensures
            r == (self == ReasoningSupport::Encrypted),
    {
        matches!(self, ReasoningSupport::Encrypted)
    }
}

/// Whether tool arguments are constrained to the schema.
#[derive(Debug, Clone, Copy, PartialEq, Eq, Structural)]
pub enum StrictSupport {
    /// Arguments are grammar-constrained and always match.
    Always,
    /// The provider tries, and silently falls back to unconstrained if the schema cannot be
    /// compiled.
    Attempted,
    /// No constraint at all.
    Absent,
}

impl Default for StrictSupport {
    fn default() -> (r: Self)
        ensures
            r == StrictSupport::Absent,
    {
        StrictSupport::Absent
    }
}

impl StrictSupport {
    /// Whether tool arguments must be validated here before dispatching.
    #[must_use]
    pub fn needs_client_validation(self) -> (r: bool)
        ensures
            r == (self != StrictSupport::Always),
    {
        !matches!(self, StrictSupport::Always)
    }
}

/// An input or output modality.
#[derive(Debug, Clone, Copy, PartialEq, Eq, PartialOrd, Ord, Hash, Structural)]
#[non_exhaustive]
pub enum Modality {
    /// Text.
    Text,
    /// Still images.
    Image,
    /// Audio.
    Audio,
    /// Documents such as PDFs.
    Document,
    /// Video.
    Video,
}

/// Everything the agent loop needs to know before it renders a request.
#[derive(Debug, PartialEq, Eq)]
pub struct ProviderCapabilities {
    /// Server-side tool search.
    pub tool_search: ToolSearchSupport,
    /// Whether the provider can call tools from inside its own code sandbox.
    pub programmatic_tool_calling: bool,
    /// Prompt caching.
    pub cache: CacheSupport,
    /// Reasoning round-tripping.
    pub reasoning: ReasoningSupport,
    /// Schema enforcement.
    pub strict_schema: StrictSupport,
    /// Whether several tool calls may be returned in one turn.
    pub parallel_tool_calls: bool,
    /// Accepted input modalities.
    pub input_modalities: Vec<Modality>,
    /// Produced output modalities.
    pub output_modalities: Vec<Modality>,
    /// Context window, in tokens.
    pub max_context: u32,
    /// Maximum tokens in one response.
    pub max_output: u32,
    /// Whether the provider reports what a call cost.
    pub reports_cost: bool,
}

/// What a provider says of its prompt cache.
pub enum CacheView {
    Explicit { max_breakpoints: u8, ttls: Seq<CacheTtl>, min_prefix_tokens: u32 },
    Automatic { min_prefix_tokens: u32, explicit_available: bool },
    Absent,
}

impl View for CacheSupport {
    type V = CacheView;

    open spec fn view(&self) -> CacheView {
        match *self {
            CacheSupport::Explicit { max_breakpoints, ttls, min_prefix_tokens } => CacheView::Explicit {
                max_breakpoints,
                ttls: ttls@,
                min_prefix_tokens,
            },
            CacheSupport::Automatic { min_prefix_tokens, explicit_available } => CacheView::Automatic {
                min_prefix_tokens,
                explicit_available,
            },
            CacheSupport::Absent => CacheView::Absent,
        }
    }
}

impl Clone for CacheSupport {
    fn clone(&self) -> (r: Self)
        ensures
            r@ == self@,
    {
        match self {
            CacheSupport::Explicit { max_breakpoints, ttls, min_prefix_tokens } => {
                let copy = CacheSupport::Explicit {
                    max_breakpoints: *max_breakpoints,
                    ttls: ttls.clone(),
                    min_prefix_tokens: *min_prefix_tokens,
                };
                assert(copy@->ttls == ttls@);
                copy
            },
            CacheSupport::Automatic { min_prefix_tokens, explicit_available } => CacheSupport::Automatic {
                min_prefix_tokens: *min_prefix_tokens,
                explicit_available: *explicit_available,
            },
            CacheSupport::Absent => CacheSupport::Absent,
        }
    }
}

impl Clone for ProviderCapabilities {
    fn clone(&self) -> (r: Self)
        ensures
            r@ == self@,
    {
        let r = ProviderCapabilities {
            tool_search: self.tool_search,
            programmatic_tool_calling: self.programmatic_tool_calling,
            cache: self.cache.clone(),
            reasoning: self.reasoning,
            strict_schema: self.strict_schema,
            parallel_tool_calls: self.parallel_tool_calls,
            input_modalities: self.input_modalities.clone(),
            output_modalities: self.output_modalities.clone(),
            max_context: self.max_context,
            max_output: self.max_output,
            reports_cost: self.reports_cost,
        };
        assert(r.input_modalities@ == self.input_modalities@);
        assert(r.output_modalities@ == self.output_modalities@);
        r
    }
}

/// What a provider says it can do.
#[verifier::ext_equal]
pub struct CapabilitiesView {
    pub tool_search: ToolSearchSupport,
    pub programmatic_tool_calling: bool,
    pub cache: CacheView,
    pub reasoning: ReasoningSupport,
    pub strict_schema: StrictSupport,
    pub parallel_tool_calls: bool,
    pub input_modalities: Seq<Modality>,
    pub output_modalities: Seq<Modality>,
    pub max_context: u32,
    pub max_output: u32,
    pub reports_cost: bool,
}

impl View for ProviderCapabilities {
    type V = CapabilitiesView;

    open spec fn view(&self) -> CapabilitiesView {
        CapabilitiesView {
            tool_search: self.tool_search,
            programmatic_tool_calling: self.programmatic_tool_calling,
            cache: self.cache@,
            reasoning: self.reasoning,
            strict_schema: self.strict_schema,
            parallel_tool_calls: self.parallel_tool_calls,
            input_modalities: self.input_modalities@,
            output_modalities: self.output_modalities@,
            max_context: self.max_context,
            max_output: self.max_output,
            reports_cost: self.reports_cost,
        }
    }
}

/// The pessimistic baseline: text only, no caching, no search, nothing clever.
pub open spec fn baseline(max_context: u32, max_output: u32) -> CapabilitiesView {
    CapabilitiesView {
        tool_search: ToolSearchSupport::Absent,
        programmatic_tool_calling: false,
        cache: CacheView::Absent,
        reasoning: ReasoningSupport::Absent,
        strict_schema: StrictSupport::Absent,
        parallel_tool_calls: false,
        input_modalities: seq![Modality::Text],
        output_modalities: seq![Modality::Text],
        max_context,
        max_output,
        reports_cost: false,
    }
}

/// What is left of `a` when `b` is taken away, and nothing when `b` is larger.
pub open spec fn minus(a: u32, b: u32) -> u32 {
    if a >= b {
        (a - b) as u32
    } else {
        0
    }
}

/// The smaller of two numbers.
pub open spec fn lesser(a: u32, b: u32) -> u32 {
    if a <= b {
        a
    } else {
        b
    }
}

impl ProviderCapabilities {
    /// A deliberately pessimistic baseline: text only, no caching, no search, nothing clever.
    #[must_use]
    pub fn minimal(max_context: u32, max_output: u32) -> (r: Self)
        ensures
            r@ == baseline(max_context, max_output),
    {
        ProviderCapabilities {
            tool_search: ToolSearchSupport::Absent,
            programmatic_tool_calling: false,
            cache: CacheSupport::Absent,
            reasoning: ReasoningSupport::Absent,
            strict_schema: StrictSupport::Absent,
            parallel_tool_calls: false,
            input_modalities: vec![Modality::Text],
            output_modalities: vec![Modality::Text],
            max_context,
            max_output,
            reports_cost: false,
        }
    }

    /// Whether an input modality is accepted.
    #[must_use]
    pub fn accepts(&self, modality: Modality) -> (r: bool)
        ensures
            r == self.input_modalities@.contains(modality),
    {
        let mut i: usize = 0;
        while i < self.input_modalities.len()
            invariant
                i <= self.input_modalities@.len(),
                forall|j: int| 0 <= j < i ==> self.input_modalities@[j] != modality,
            decreases self.input_modalities@.len() - i,
        {
            if self.input_modalities[i] == modality {
                assert(self.input_modalities@[i as int] == modality);
                return true;
            }
            i = i + 1;
        }
        false
    }

    /// How much room the prompt has, once the response reservation is set aside.
    #[must_use]
    pub fn prompt_budget(&self, reserve_output: u32) -> (r: u32)
        ensures
            r == minus(self.max_context, lesser(reserve_output, self.max_output)),
    {
        let reserve: u32 = if reserve_output <= self.max_output {
            reserve_output
        } else {
            self.max_output
        };
        if self.max_context >= reserve {
            self.max_context - reserve
        } else {
            0
        }
    }
}

/// What caching a provider supports is what it says: as many breakpoints, as short a prefix and the
/// lifetimes that it names where the caller places breakpoints, one short-lived breakpoint at most
/// where it caches by itself, and nothing where it does not cache.
pub proof fn caching_is_what_the_provider_says(cache: CacheSupport, ttl: CacheTtl)
    ensures
        match cache {
            CacheSupport::Explicit { max_breakpoints, ttls, min_prefix_tokens } => cache.budget()
                == max_breakpoints && cache.min_prefix() == Some(min_prefix_tokens) && (cache.offers(
                ttl,
            ) <==> exists|i: int| 0 <= i < ttls@.len() && #[trigger] ttls@[i] == ttl),
            CacheSupport::Automatic { min_prefix_tokens, explicit_available } => cache.budget() == (
            if explicit_available {
                1int
            } else {
                0
            }) && cache.min_prefix() == Some(min_prefix_tokens) && (cache.offers(ttl) <==> ttl
                == CacheTtl::Short),
            CacheSupport::Absent => cache.budget() == 0 && cache.min_prefix() is None
                && !cache.offers(ttl),
        },
{
}

/// What is left of an amount and what is taken of it make it up, and the lesser of two is one of
/// them and above neither.
pub proof fn what_is_left_and_taken_make_it_up(a: u32, b: u32)
    ensures
        minus(a, b) + lesser(a, b) == a,
        lesser(a, b) <= a && lesser(a, b) <= b && (lesser(a, b) == a || lesser(a, b) == b),
{
}

/// A baseline promises text in and text out, within the sizes given, and nothing else.
pub proof fn a_baseline_promises_text_only(max_context: u32, max_output: u32)
    ensures
        ({
            let caps = baseline(max_context, max_output);
            &&& caps.max_context == max_context
            &&& caps.max_output == max_output
            &&& caps.input_modalities == seq![Modality::Text]
            &&& caps.output_modalities == seq![Modality::Text]
            &&& caps.tool_search is Absent && caps.cache is Absent && caps.reasoning is Absent
            &&& caps.strict_schema is Absent && !caps.programmatic_tool_calling
            &&& !caps.parallel_tool_calls && !caps.reports_cost
        }),
{
}

} // verus!
