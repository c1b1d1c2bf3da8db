use frey::profiles::{all, haiku45, no_cache, openai, openrouter_automatic, opus5, sonnet5};


#[test]
fn minimum_prefixes_differ_by_model_within_one_vendor() {
    assert_eq!(opus5().cache.min_prefix_tokens(), Some(512));
    assert_eq!(sonnet5().cache.min_prefix_tokens(), Some(1_024));
    assert_eq!(haiku45().cache.min_prefix_tokens(), Some(4_096));
}

#[test]
fn automatic_caching_offers_fewer_breakpoints_than_explicit() {
    assert_eq!(opus5().cache.breakpoint_budget(), 4);
    assert_eq!(openai().cache.breakpoint_budget(), 1);
    assert_eq!(openrouter_automatic().cache.breakpoint_budget(), 0);
    assert_eq!(no_cache().cache.breakpoint_budget(), 0);
}

#[test]
fn only_one_profile_reports_cost() {
    let reporting: Vec<&str> =
        all().iter().filter(|(_, c)| c.reports_cost).map(|(n, _)| *n).collect();
    assert_eq!(
        reporting,
        ["openrouter_automatic", "openrouter_explicit"],
        "everywhere else, a cost figure is an estimate and must be labelled as one"
    );
}

#[test]
fn openai_reasoning_must_be_round_tripped() {
    assert!(openai().reasoning.requires_round_trip());
    assert!(!opus5().reasoning.requires_round_trip());
}
