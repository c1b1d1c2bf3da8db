use frey::provider_caps::{
    CacheSupport, Modality, ProviderCapabilities, ReasoningSupport, StrictSupport, ToolSearchSupport,
};
use frey::segment::CacheTtl;


fn anthropic_opus5() -> ProviderCapabilities {
    ProviderCapabilities {
        tool_search: ToolSearchSupport::Native { max_results: 5, max_deferred: 10_000 },
        programmatic_tool_calling: true,
        cache: CacheSupport::Explicit {
            max_breakpoints: 4,
            ttls: vec![CacheTtl::Short, CacheTtl::Long],
            min_prefix_tokens: 512,
        },
        reasoning: ReasoningSupport::Plain,
        strict_schema: StrictSupport::Always,
        parallel_tool_calls: true,
        input_modalities: vec![Modality::Text, Modality::Image, Modality::Document],
        output_modalities: vec![Modality::Text],
        max_context: 200_000,
        max_output: 64_000,
        reports_cost: false,
    }
}

#[test]
fn the_default_is_pessimistic_so_absent_features_are_never_assumed() {
    let caps = ProviderCapabilities::minimal(8_192, 2_048);
    assert!(!caps.tool_search.is_native());
    assert!(!caps.programmatic_tool_calling);
    assert_eq!(caps.cache.breakpoint_budget(), 0);
    assert_eq!(caps.cache.min_prefix_tokens(), None);
    assert!(!caps.reports_cost, "an unspecified provider does not report cost");
    assert!(!caps.accepts(Modality::Image));
}

#[test]
fn minimum_cacheable_prefix_varies_by_model_within_one_vendor() {
    // Real numbers: Opus 5 caches from 512 tokens, Haiku 4.5 needs 4,096 — an eightfold
    // difference that decides whether caching does anything at all.
    let opus = anthropic_opus5();
    let haiku = ProviderCapabilities {
        cache: CacheSupport::Explicit {
            max_breakpoints: 4,
            ttls: vec![CacheTtl::Short, CacheTtl::Long],
            min_prefix_tokens: 4_096,
        },
        ..anthropic_opus5()
    };
    assert_eq!(opus.cache.min_prefix_tokens(), Some(512));
    assert_eq!(haiku.cache.min_prefix_tokens(), Some(4_096));
}

#[test]
fn automatic_caching_offers_one_breakpoint_at_most() {
    let auto = CacheSupport::Automatic { min_prefix_tokens: 1_024, explicit_available: true };
    assert_eq!(auto.breakpoint_budget(), 1);
    assert!(auto.supports_ttl(CacheTtl::Short));
    assert!(!auto.supports_ttl(CacheTtl::Long), "no long-lived entries without explicit mode");

    let fixed = CacheSupport::Automatic { min_prefix_tokens: 1_024, explicit_available: false };
    assert_eq!(fixed.breakpoint_budget(), 0);
}

#[test]
fn attempted_strict_mode_still_requires_client_validation() {
    // OpenAI's Responses API attempts strict mode and silently falls back when a schema cannot
    // be compiled, so "strict" is not a guarantee the client can rely on.
    assert!(StrictSupport::Attempted.needs_client_validation());
    assert!(StrictSupport::Absent.needs_client_validation());
    assert!(!StrictSupport::Always.needs_client_validation());
}

#[test]
fn encrypted_reasoning_is_flagged_as_needing_a_round_trip() {
    assert!(ReasoningSupport::Encrypted.requires_round_trip());
    assert!(!ReasoningSupport::Plain.requires_round_trip());
    assert!(!ReasoningSupport::Absent.requires_round_trip());
}

#[test]
fn prompt_budget_leaves_room_for_the_response() {
    let caps = anthropic_opus5();
    assert_eq!(caps.prompt_budget(8_000), 192_000);
    // Asking to reserve more than the model can output reserves what it can output.
    assert_eq!(caps.prompt_budget(1_000_000), 200_000 - 64_000);
}

