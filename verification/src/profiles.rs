//! Capability profiles for real providers, from the vendors' own documentation.

use vstd::prelude::*;

use crate::provider_caps::{
    baseline, CacheSupport, CacheView, CapabilitiesView, Modality, ProviderCapabilities,
    ReasoningSupport, StrictSupport, ToolSearchSupport,
};
use crate::segment::CacheTtl;

verus! {

/// When these figures were last checked against vendor documentation.
pub const CHECKED: &'static str = "2026-08-08";

/// What Anthropic models share: search, four breakpoints with both lifetimes, no reported cost.
pub open spec fn anthropic_profile(min_prefix_tokens: u32, max_context: u32, max_output: u32) -> CapabilitiesView {
    CapabilitiesView {
        tool_search: ToolSearchSupport::Native { max_results: 5, max_deferred: 10_000 },
        programmatic_tool_calling: true,
        cache: CacheView::Explicit {
            max_breakpoints: 4,
            ttls: seq![CacheTtl::Short, CacheTtl::Long],
            min_prefix_tokens,
        },
        reasoning: ReasoningSupport::Plain,
        strict_schema: StrictSupport::Always,
        parallel_tool_calls: true,
        input_modalities: seq![Modality::Text, Modality::Image, Modality::Document],
        output_modalities: seq![Modality::Text],
        max_context,
        max_output,
        reports_cost: false,
    }
}

/// An OpenAI Responses-API model.
pub open spec fn openai_profile() -> CapabilitiesView {
    CapabilitiesView {
        tool_search: ToolSearchSupport::Native { max_results: 5, max_deferred: 10_000 },
        programmatic_tool_calling: false,
        cache: CacheView::Automatic { min_prefix_tokens: 1_024, explicit_available: true },
        reasoning: ReasoningSupport::Encrypted,
        strict_schema: StrictSupport::Attempted,
        parallel_tool_calls: true,
        input_modalities: seq![Modality::Text, Modality::Image, Modality::Document],
        output_modalities: seq![Modality::Text],
        max_context: 400_000,
        max_output: 128_000,
        reports_cost: false,
    }
}

/// A model routed through OpenRouter, whose upstream caches as `cache` says.
pub open spec fn openrouter_profile(cache: CacheView) -> CapabilitiesView {
    CapabilitiesView {
        tool_search: ToolSearchSupport::Absent,
        programmatic_tool_calling: false,
        cache,
        reasoning: ReasoningSupport::Plain,
        strict_schema: StrictSupport::Absent,
        parallel_tool_calls: true,
        input_modalities: seq![Modality::Text],
        output_modalities: seq![Modality::Text],
        max_context: 128_000,
        max_output: 8_192,
        reports_cost: true,
    }
}

/// Automatic caching from 1,024 tokens, without breakpoints.
pub open spec fn openrouter_automatic_cache() -> CacheView {
    CacheView::Automatic { min_prefix_tokens: 1_024, explicit_available: false }
}

/// Four breakpoints with both lifetimes, from 1,024 tokens.
pub open spec fn openrouter_explicit_cache() -> CacheView {
    CacheView::Explicit {
        max_breakpoints: 4,
        ttls: seq![CacheTtl::Short, CacheTtl::Long],
        min_prefix_tokens: 1_024,
    }
}

/// The capabilities that Anthropic models share.
pub fn anthropic_base(min_prefix_tokens: u32, max_context: u32, max_output: u32) -> (r: ProviderCapabilities)
    ensures
        r@ == anthropic_profile(min_prefix_tokens, max_context, max_output),
{
    let r = ProviderCapabilities {
        tool_search: ToolSearchSupport::Native { max_results: 5, max_deferred: 10_000 },
        programmatic_tool_calling: true,
        cache: CacheSupport::Explicit {
            max_breakpoints: 4,
            ttls: vec![CacheTtl::Short, CacheTtl::Long],
            min_prefix_tokens,
        },
        reasoning: ReasoningSupport::Plain,
        strict_schema: StrictSupport::Always,
        parallel_tool_calls: true,
        input_modalities: vec![Modality::Text, Modality::Image, Modality::Document],
        output_modalities: vec![Modality::Text],
        max_context,
        max_output,
        reports_cost: false,
    };
    assert(r@.cache->ttls == seq![CacheTtl::Short, CacheTtl::Long]);
    r
}

/// Opus 5. Minimum cacheable prefix: 512 tokens.
#[must_use]
pub fn opus5() -> (r: ProviderCapabilities)
    ensures
        r@ == anthropic_profile(512, 200_000, 64_000),
{
    anthropic_base(512, 200_000, 64_000)
}

/// Haiku 4.5. Minimum cacheable prefix: 4,096 tokens, eight times that of Opus 5.
#[must_use]
pub fn haiku45() -> (r: ProviderCapabilities)
    ensures
        r@ == anthropic_profile(4_096, 200_000, 8_192),
{
    anthropic_base(4_096, 200_000, 8_192)
}

/// Sonnet 5. Minimum cacheable prefix: 1,024 tokens.
#[must_use]
pub fn sonnet5() -> (r: ProviderCapabilities)
    ensures
        r@ == anthropic_profile(1_024, 200_000, 64_000),
{
    anthropic_base(1_024, 200_000, 64_000)
}

/// An OpenAI Responses-API model: caching is automatic above 1,024 tokens, with an explicit mode
/// available, and reasoning comes back encrypted and must be replayed verbatim.
#[must_use]
pub fn openai() -> (r: ProviderCapabilities)
    ensures
        r@ == openai_profile(),
{
    ProviderCapabilities {
        tool_search: ToolSearchSupport::Native { max_results: 5, max_deferred: 10_000 },
        programmatic_tool_calling: false,
        cache: CacheSupport::Automatic { min_prefix_tokens: 1_024, explicit_available: true },
        reasoning: ReasoningSupport::Encrypted,
        strict_schema: StrictSupport::Attempted,
        parallel_tool_calls: true,
        input_modalities: vec![Modality::Text, Modality::Image, Modality::Document],
        output_modalities: vec![Modality::Text],
        max_context: 400_000,
        max_output: 128_000,
        reports_cost: false,
    }
}

/// A model routed through OpenRouter whose upstream caches automatically. OpenRouter reports cost.
#[must_use]
pub fn openrouter_automatic() -> (r: ProviderCapabilities)
    ensures
        r@ == openrouter_profile(openrouter_automatic_cache()),
{
    ProviderCapabilities {
        tool_search: ToolSearchSupport::Absent,
        programmatic_tool_calling: false,
        cache: CacheSupport::Automatic { min_prefix_tokens: 1_024, explicit_available: false },
        reasoning: ReasoningSupport::Plain,
        strict_schema: StrictSupport::Absent,
        parallel_tool_calls: true,
        input_modalities: vec![Modality::Text],
        output_modalities: vec![Modality::Text],
        max_context: 128_000,
        max_output: 8_192,
        reports_cost: true,
    }
}

/// A model routed through OpenRouter whose upstream needs explicit `cache_control` blocks.
#[must_use]
pub fn openrouter_explicit() -> (r: ProviderCapabilities)
    ensures
        r@ == openrouter_profile(openrouter_explicit_cache()),
{
    let mut r = openrouter_automatic();
    r.cache = CacheSupport::Explicit {
        max_breakpoints: 4,
        ttls: vec![CacheTtl::Short, CacheTtl::Long],
        min_prefix_tokens: 1_024,
    };
    assert(r@.cache->ttls == seq![CacheTtl::Short, CacheTtl::Long]);
    r
}

/// A self-hosted or older model with no prompt caching at all.
#[must_use]
pub fn no_cache() -> (r: ProviderCapabilities)
    ensures
        r@ == baseline(32_768, 4_096),
{
    ProviderCapabilities::minimal(32_768, 4_096)
}

/// What the profiles hold, by name.
pub open spec fn all_profiles() -> Seq<(Seq<char>, CapabilitiesView)> {
    seq![
        ("opus5"@, anthropic_profile(512, 200_000, 64_000)),
        ("sonnet5"@, anthropic_profile(1_024, 200_000, 64_000)),
        ("haiku45"@, anthropic_profile(4_096, 200_000, 8_192)),
        ("openai"@, openai_profile()),
        ("openrouter_automatic"@, openrouter_profile(openrouter_automatic_cache())),
        ("openrouter_explicit"@, openrouter_profile(openrouter_explicit_cache())),
        ("no_cache"@, baseline(32_768, 4_096)),
    ]
}

/// A list of named profiles, seen by name and content.
pub open spec fn profile_views(v: Seq<(&str, ProviderCapabilities)>) -> Seq<
    (Seq<char>, CapabilitiesView),
> {
    Seq::new(v.len(), |i: int| (v[i].0@, v[i].1@))
}

/// Every profile, for tests that must hold across all provider shapes.
#[must_use]
pub fn all() -> (r: Vec<(&'static str, ProviderCapabilities)>)
    ensures
        profile_views(r@) == all_profiles(),
{
    let r: Vec<(&'static str, ProviderCapabilities)> = vec![
        ("opus5", opus5()),
        ("sonnet5", sonnet5()),
        ("haiku45", haiku45()),
        ("openai", openai()),
        ("openrouter_automatic", openrouter_automatic()),
        ("openrouter_explicit", openrouter_explicit()),
        ("no_cache", no_cache()),
    ];
    assert(profile_views(r@) == all_profiles());
    r
}

/// What holds of every profile. Breakpoints that a caller places are four and come in both
/// lifetimes. Only what a router relays reports its cost, and searches no tools by itself. A profile
/// gives out less than it takes in, and caches from 512, 1024 or 4096 tokens where it caches.
pub proof fn profiles_are_alike(i: int)
    requires
        0 <= i < all_profiles().len(),
    ensures
        ({
            let (name, caps) = all_profiles()[i];
            let router = i == 4 || i == 5;
            &&& match caps.cache {
                CacheView::Explicit { max_breakpoints, ttls, .. } => max_breakpoints == 4
                    && ttls.contains(CacheTtl::Short) && ttls.contains(CacheTtl::Long),
                _ => true,
            }
            &&& caps.reports_cost <==> router
            &&& caps.tool_search is Native <==> i < 4
            &&& caps.max_output < caps.max_context
            &&& match caps.cache {
                CacheView::Explicit { min_prefix_tokens, .. } => min_prefix_tokens == (if i == 0 {
                    512int
                } else if i == 2 {
                    4_096
                } else {
                    1_024
                }),
                CacheView::Automatic { min_prefix_tokens, explicit_available } => min_prefix_tokens
                    == 1_024 && (explicit_available <==> i == 3),
                CacheView::Absent => i == 6,
            }
            &&& caps.input_modalities.contains(Modality::Text)
            &&& caps.output_modalities == seq![Modality::Text]
        }),
        all_profiles().len() == 7,
{
    let (name, caps) = all_profiles()[i];
    assert(seq![CacheTtl::Short, CacheTtl::Long][0] == CacheTtl::Short);
    assert(seq![CacheTtl::Short, CacheTtl::Long][1] == CacheTtl::Long);
    assert(caps.input_modalities[0] == Modality::Text);
}

} // verus!
