use frey::ids::{ModelId, ProviderId, SegmentId};
use frey::item::Turn;
use frey::provider::{ProviderError, Request, StopReason};
use frey::segment::{CacheMark, CacheTtl};
use frey::tool_def::{JsonSchema, ToolDefinition};


fn p() -> ProviderId {
    ProviderId::new("openrouter")
}

#[test]
fn credit_exhaustion_is_fatal_and_never_retried() {
    // The failure this classification exists for: HTTP 402 returns fast and looks transient, so
    // a naive retry loop turns an entire run into silent no-ops while still charging for it.
    let err = ProviderError::from_status(&p(), 402, "insufficient credits");
    assert!(matches!(err, ProviderError::Billing { .. }));
    assert!(err.is_fatal());
    assert!(!err.is_retryable());
}

#[test]
fn auth_failures_are_fatal_and_rate_limits_are_not() {
    for status in [401, 403] {
        let err = ProviderError::from_status(&p(), status, "nope");
        assert!(err.is_fatal(), "HTTP {status} must stop the run");
        assert!(!err.is_retryable());
    }
    let limited = ProviderError::from_status(&p(), 429, "slow down");
    assert!(!limited.is_fatal());
    assert!(limited.is_retryable());
}

#[test]
fn bad_requests_are_neither_fatal_nor_retryable() {
    // Retrying an identical malformed request just wastes money; stopping the whole run is
    // also wrong, because the agent can often fix its own arguments and continue.
    let err = ProviderError::from_status(&p(), 400, "unknown field `cache_control`");
    assert!(!err.is_fatal());
    assert!(!err.is_retryable());
}

#[test]
fn server_errors_are_retryable() {
    for status in [500, 502, 503, 529] {
        let err = ProviderError::from_status(&p(), status, "");
        assert!(err.is_retryable(), "HTTP {status} should be retried");
        assert!(!err.is_fatal());
    }
}

#[test]
fn unrecognised_statuses_are_reported_rather_than_guessed_at() {
    let err = ProviderError::from_status(&p(), 418, "teapot");
    assert!(matches!(err, ProviderError::Protocol { .. }));
    assert!(err.to_string().contains("418"), "the status must survive into the message");
}

#[test]
fn truncation_is_distinguishable_from_a_finished_turn() {
    assert!(StopReason::MaxTokens.is_truncated());
    assert!(!StopReason::EndTurn.is_truncated());
    assert!(StopReason::ToolUse.wants_tools());
    // An unknown reason is preserved rather than flattened into EndTurn, which would make a
    // truncated or refused answer look complete.
    let other = StopReason::Other("content_filter".into());
    assert!(!other.is_truncated() && !other.wants_tools());
}


#[test]
fn marks_are_placed_on_the_blocks_they_end() {
    let mark = |at: u32, ttl: CacheTtl| CacheMark { at: SegmentId(at), ttl };
    let mut request = Request {
        model: ModelId::new("m"),
        turns: vec![Turn::system("be careful"), Turn::user("hello")],
        tools: vec![ToolDefinition::new("fs_read", "Read a file", JsonSchema::empty_object())],
        marks: vec![mark(0, CacheTtl::Long), mark(2, CacheTtl::Short)],
        ..Request::default()
    };
    let placed = request.mark_placement();
    assert_eq!(placed.tools, Some(CacheTtl::Long));
    assert_eq!(placed.turns.get(&1), Some(&CacheTtl::Short));
    assert_eq!(placed.len(), 2);

    request.tools = Vec::new();
    let shifted = request.mark_placement();
    assert_eq!(shifted.tools, None);
    assert_eq!(shifted.turns.get(&0), Some(&CacheTtl::Long));
    request.marks = Vec::new();
    assert!(request.mark_placement().is_empty());
}
