use frey::cache::{check_lookback, CachePlanner, PreviousPrompt, LOOKBACK_BLOCKS};
use frey::event::Warning;
use frey::hash::hash_text;
use frey::ids::SegmentId;
use frey::profiles;
use frey::provider_caps::{CacheSupport, ProviderCapabilities};
use frey::segment::{ttls_are_correctly_ordered, CacheTtl, Segment, SegmentKind, Stability};


fn seg(id: u32, kind: SegmentKind, stability: Stability, tokens: u32, body: &str) -> Segment {
    Segment {
        id: SegmentId(id),
        kind,
        stability,
        hash: hash_text(body),
        est_tokens: tokens,
        label: format!("{kind:?}:{id}"),
    }
}

/// A realistic prompt: a big stable tool block, a stable system prompt, and churning history.
fn typical() -> Vec<Segment> {
    vec![
        seg(0, SegmentKind::Tools, Stability::Static, 12_000, "tool definitions"),
        seg(1, SegmentKind::System, Stability::Static, 800, "you are a careful assistant"),
        seg(2, SegmentKind::History, Stability::Volatile, 400, "turn 1"),
    ]
}

#[test]
fn the_breakpoint_lands_at_the_end_of_the_stable_prefix() {
    let plan = CachePlanner::plan(&typical(), &PreviousPrompt::none(), &profiles::opus5());
    assert_eq!(plan.marks.len(), 1);
    assert_eq!(plan.marks[0].at, SegmentId(1), "after system, before history");
    assert_eq!(plan.cached_prefix_tokens, 12_800);
    assert!(plan.warnings.is_empty(), "{:?}", plan.warnings);
}

#[test]
fn a_clock_in_the_system_prompt_is_named_and_priced() {
    // The single most common way to destroy a prompt cache, and the one a developer is least
    // likely to notice: the provider reports no error, the bill just grows.
    let turn1 = typical();
    let previous = PreviousPrompt::from_segments(&turn1);

    let mut turn2 = typical();
    turn2[1].hash = hash_text("you are a careful assistant. The time is 14:32:06.");

    let plan = CachePlanner::plan(&turn2, &previous, &profiles::opus5());

    let churn = plan
        .warnings
        .iter()
        .find(|w| matches!(w, Warning::CacheChurn { .. }))
        .expect("churn must be reported");
    let Warning::CacheChurn { segment, tokens, advice } = churn else { unreachable!() };
    assert_eq!(segment.as_str(), "System:1");
    assert_eq!(*tokens, 800);
    assert!(advice.contains("clock"), "the advice must be actionable: {advice}");

    // And the plan must not put a breakpoint after the churning segment, which would rewrite
    // the whole prefix every turn.
    assert!(plan.marks.iter().all(|m| m.at != SegmentId(1)));
    assert_eq!(plan.marks[0].at, SegmentId(0), "the tool block is still worth caching");
}

#[test]
fn a_stable_prompt_produces_no_warnings_on_the_second_turn() {
    let turn1 = typical();
    let previous = PreviousPrompt::from_segments(&turn1);
    let plan = CachePlanner::plan(&typical(), &previous, &profiles::opus5());
    assert!(plan.warnings.is_empty(), "{:?}", plan.warnings);
}

#[test]
fn a_new_segment_is_not_churn() {
    // Growing a prompt is normal. Reporting it as churn would train developers to ignore the
    // warning, which is worse than not having it.
    let previous = PreviousPrompt::from_segments(&typical());
    let mut grown = typical();
    grown.push(seg(3, SegmentKind::Discovered, Stability::Static, 300, "a discovered tool"));

    let plan = CachePlanner::plan(&grown, &previous, &profiles::opus5());
    assert!(
        !plan.warnings.iter().any(|w| matches!(w, Warning::CacheChurn { .. })),
        "{:?}",
        plan.warnings
    );
}

#[test]
fn a_prefix_below_the_models_minimum_is_reported_rather_than_silently_wasted() {
    // Haiku 4.5 needs 4,096 tokens. A 500-token prefix is accepted by the API and simply not
    // cached, with no error anywhere.
    let small = vec![
        seg(0, SegmentKind::System, Stability::Static, 380, "short prompt"),
        seg(1, SegmentKind::History, Stability::Volatile, 100, "hi"),
    ];
    let plan = CachePlanner::plan(&small, &PreviousPrompt::none(), &profiles::haiku45());

    assert!(!plan.caches_anything());
    assert!(
        plan.warnings.contains(&Warning::BelowMinPrefix { have: 380, need: 4_096 }),
        "{:?}",
        plan.warnings
    );
}

#[test]
fn the_same_prefix_is_cacheable_on_a_model_with_a_lower_minimum() {
    // The same prompt, a different model: 380 tokens clears Opus 5's 512-token floor? No — it
    // does not, and the planner must say so per model rather than per vendor.
    let small = vec![
        seg(0, SegmentKind::System, Stability::Static, 600, "a longer system prompt"),
        seg(1, SegmentKind::History, Stability::Volatile, 100, "hi"),
    ];
    assert!(
        CachePlanner::plan(&small, &PreviousPrompt::none(), &profiles::opus5())
            .caches_anything()
    );
    assert!(
        !CachePlanner::plan(&small, &PreviousPrompt::none(), &profiles::haiku45())
            .caches_anything()
    );
}

#[test]
fn breakpoints_never_exceed_the_providers_budget() {
    // Four stable runs separated by volatile segments, on a provider allowing one breakpoint.
    let mut segments = Vec::new();
    for i in 0..4u32 {
        segments.push(seg(i * 2, SegmentKind::History, Stability::Static, 2_000, "stable"));
        segments.push(seg(i * 2 + 1, SegmentKind::History, Stability::Volatile, 50, "churn"));
    }
    // A one-breakpoint provider, built here: no profile has this budget.
    let one_breakpoint = ProviderCapabilities {
        cache: CacheSupport::Explicit {
            max_breakpoints: 1,
            ttls: vec![CacheTtl::Short],
            min_prefix_tokens: 1_024,
        },
        ..profiles::opus5()
    };
    let plan = CachePlanner::plan(&segments, &PreviousPrompt::none(), &one_breakpoint);
    assert_eq!(plan.marks.len(), 1, "the budget is one and the plan wanted four");
    assert_eq!(plan.marks[0].at, SegmentId(6), "the one covering the most tokens");
    assert!(plan.warnings.iter().any(|w| matches!(w, Warning::Degraded { .. })));
}

#[test]
fn marks_stay_in_prompt_order_after_being_pruned() {
    let mut segments = Vec::new();
    for i in 0..6u32 {
        segments.push(seg(i * 2, SegmentKind::History, Stability::Static, 1_000, "stable"));
        segments.push(seg(i * 2 + 1, SegmentKind::History, Stability::Volatile, 10, "churn"));
    }
    let plan = CachePlanner::plan(&segments, &PreviousPrompt::none(), &profiles::opus5());
    assert_eq!(plan.marks.len(), 4, "Anthropic allow four");

    let ids: Vec<u32> = plan.marks.iter().map(|m| m.at.index()).collect();
    let mut sorted = ids.clone();
    sorted.sort_unstable();
    assert_eq!(ids, sorted, "an out-of-order mark means nothing to any provider");
}

#[test]
fn long_lived_entries_precede_short_lived_ones() {
    let segments = vec![
        seg(0, SegmentKind::Tools, Stability::Static, 8_000, "tools"),
        seg(1, SegmentKind::History, Stability::Volatile, 50, "churn"),
        seg(2, SegmentKind::History, Stability::Static, 4_000, "settled history"),
        seg(3, SegmentKind::History, Stability::Volatile, 50, "churn"),
    ];
    let plan = CachePlanner::plan(&segments, &PreviousPrompt::none(), &profiles::opus5());
    assert!(ttls_are_correctly_ordered(&plan.marks), "{:?}", plan.marks);
    assert_eq!(plan.marks[0].ttl, CacheTtl::Long, "the tool block outlives the session");
    assert_eq!(plan.marks[1].ttl, CacheTtl::Short, "history does not");
}

#[test]
fn a_provider_without_caching_says_so_once_rather_than_pretending() {
    let plan = CachePlanner::plan(&typical(), &PreviousPrompt::none(), &profiles::no_cache());
    assert!(!plan.caches_anything());
    assert_eq!(plan.warnings.len(), 1);
    assert!(matches!(plan.warnings[0], Warning::Degraded { .. }));
}

#[test]
fn an_entirely_volatile_prompt_caches_nothing_and_explains_why() {
    let segments = vec![
        seg(0, SegmentKind::System, Stability::Volatile, 5_000, "a"),
        seg(1, SegmentKind::History, Stability::Volatile, 5_000, "b"),
    ];
    let plan = CachePlanner::plan(&segments, &PreviousPrompt::none(), &profiles::opus5());
    assert!(!plan.caches_anything());
    assert!(matches!(plan.warnings[0], Warning::Degraded { .. }));
}

#[test]
fn an_empty_prompt_is_not_an_error() {
    let plan = CachePlanner::plan(&[], &PreviousPrompt::none(), &profiles::opus5());
    assert!(!plan.caches_anything());
    assert!(plan.warnings.is_empty(), "nothing to warn about: {:?}", plan.warnings);
}

#[test]
fn a_turn_longer_than_the_providers_lookback_is_reported() {
    // A different failure from churn. The segment does not change; the distance to it grows past
    // what the provider searches, and the next request misses cache with no error anywhere.
    assert_eq!(check_lookback(5), None);
    assert_eq!(check_lookback(LOOKBACK_BLOCKS), None, "exactly at the limit still hits");

    let warning = check_lookback(31).expect("past the limit must be reported");
    let Warning::LookbackExceeded { blocks, limit } = warning else { panic!("wrong warning") };
    assert_eq!(blocks, 31);
    assert_eq!(limit, 20);
}

#[test]
fn churn_is_reported_on_a_provider_that_caches_automatically() {
    let turn1 = typical();
    let previous = PreviousPrompt::from_segments(&turn1);

    let mut turn2 = typical();
    turn2[1].hash = hash_text("you are a careful assistant. The time is 14:32:06.");

    let plan = CachePlanner::plan(&turn2, &previous, &profiles::openrouter_automatic());

    assert_eq!(plan.marks, vec![], "there is still nothing to place");
    assert!(plan.provider_caches_automatically);
    let Some(Warning::CacheChurn { segment, tokens, .. }) =
        plan.warnings.iter().find(|w| matches!(w, Warning::CacheChurn { .. }))
    else {
        panic!("churn must be reported without a breakpoint budget: {:?}", plan.warnings)
    };
    assert_eq!(segment.as_str(), "System:1");
    assert_eq!(*tokens, 800);
}

#[test]
fn a_prefix_below_an_automatic_providers_threshold_is_reported() {
    // Automatic caching is not free of the minimum: below the threshold the provider caches
    // nothing and says nothing, which is the same silent loss as on the explicit path.
    let small = vec![
        seg(0, SegmentKind::System, Stability::Static, 300, "short prompt"),
        seg(1, SegmentKind::History, Stability::Volatile, 100, "hi"),
    ];
    let plan =
        CachePlanner::plan(&small, &PreviousPrompt::none(), &profiles::openrouter_automatic());
    assert!(
        plan.warnings.contains(&Warning::BelowMinPrefix { have: 300, need: 1_024 }),
        "{:?}",
        plan.warnings
    );
}

#[test]
fn an_automatic_provider_above_the_threshold_is_quiet() {
    let plan = CachePlanner::plan(
        &typical(),
        &PreviousPrompt::none(),
        &profiles::openrouter_automatic(),
    );
    assert!(plan.warnings.is_empty(), "{:?}", plan.warnings);
    assert!(plan.is_cached(), "the provider caches it even though Frey placed nothing");
}

#[test]
fn a_stable_run_behind_a_volatile_segment_does_not_count_towards_an_automatic_prefix() {
    // The distinction that makes the automatic path different from the explicit one: a
    // provider matching the longest common prefix cannot skip a churning segment to reach the
    // stable content behind it, so 8,000 stable tokens sitting after a clock buy nothing.
    let segments = vec![
        seg(0, SegmentKind::System, Stability::Volatile, 50, "the time is 14:32:06"),
        seg(1, SegmentKind::History, Stability::Static, 8_000, "settled history"),
    ];
    let plan = CachePlanner::plan(
        &segments,
        &PreviousPrompt::none(),
        &profiles::openrouter_automatic(),
    );
    assert!(
        plan.warnings.iter().any(|w| matches!(w, Warning::Degraded { .. })),
        "nothing cacheable leads the prompt: {:?}",
        plan.warnings
    );
}

#[test]
fn churn_is_not_reported_when_the_provider_caches_nothing() {
    // The one shape where churn genuinely costs nothing extra. Reporting it would train the
    // reader to ignore the warning that matters elsewhere.
    let turn1 = typical();
    let previous = PreviousPrompt::from_segments(&turn1);
    let mut turn2 = typical();
    turn2[1].hash = hash_text("changed");

    let plan = CachePlanner::plan(&turn2, &previous, &profiles::no_cache());
    assert_eq!(plan.warnings.len(), 1);
    assert!(matches!(plan.warnings[0], Warning::Degraded { .. }));
}

#[test]
fn planning_is_pure() {
    let segments = typical();
    let previous = PreviousPrompt::from_segments(&segments);
    let caps = profiles::opus5();
    let a = CachePlanner::plan(&segments, &previous, &caps);
    let b = CachePlanner::plan(&segments, &previous, &caps);
    assert_eq!(a, b, "the same inputs must always produce the same plan");
}

/// A small generator of numbers, the same on every run.
struct Numbers(u64);

impl Numbers {
    fn below(&mut self, n: u64) -> u64 {
        self.0 = self.0.wrapping_mul(6_364_136_223_846_793_005).wrapping_add(1_442_695_040_888_963_407);
        (self.0 >> 33) % n
    }
}

/// A prompt of up to twenty segments, with token counts below every minimum prefix, between them,
/// and far above.
fn any_prompt(numbers: &mut Numbers) -> Vec<Segment> {
    let kinds = [
        SegmentKind::Tools,
        SegmentKind::System,
        SegmentKind::SkillIndex,
        SegmentKind::History,
        SegmentKind::Discovered,
    ];
    let stabilities = [Stability::Static, Stability::Slow, Stability::Volatile];
    (0..numbers.below(20) as u32)
        .map(|i| {
            let kind = kinds[numbers.below(5) as usize];
            let stability = stabilities[numbers.below(3) as usize];
            let tokens = numbers.below(8_000) as u32;
            seg(i, kind, stability, tokens, &format!("{}", numbers.below(100)))
        })
        .collect()
}

/// A previous turn built by perturbing some segments.
fn perturb(segments: &[Segment], mask: u64) -> PreviousPrompt {
    let perturbed: Vec<Segment> = segments
        .iter()
        .enumerate()
        .map(|(i, s)| {
            let mut s = s.clone();
            if (mask >> (i % 32)) & 1 == 1 {
                s.hash = hash_text(&format!("changed-{i}"));
            }
            s
        })
        .collect();
    PreviousPrompt::from_segments(&perturbed)
}

#[test]
fn provider_rules_hold_for_every_prompt_and_profile() {
    let mut numbers = Numbers(1);
    for _ in 0..256 {
        let segments = any_prompt(&mut numbers);
        let mask = numbers.below(1 << 31);
        let previous = perturb(&segments, mask);
        for (name, caps) in profiles::all() {
            let plan = CachePlanner::plan(&segments, &previous, &caps);
            assert!(plan.marks.len() <= caps.cache.breakpoint_budget() as usize, "{name}");
            assert!(ttls_are_correctly_ordered(&plan.marks), "{name}: {:?}", plan.marks);
            let ids: Vec<u32> = plan.marks.iter().map(|m| m.at.index()).collect();
            let mut sorted = ids.clone();
            sorted.sort_unstable();
            sorted.dedup();
            assert_eq!(ids, sorted, "{name}: marks must be ascending and unique");
            for mark in &plan.marks {
                let segment = segments
                    .iter()
                    .find(|s| s.id == mark.at)
                    .expect("a mark must name a segment in this prompt");
                assert!(segment.stability.is_cacheable(), "{name}");
                assert!(!previous.changed(segment), "{name}");
                if !caps.cache.supports_ttl(CacheTtl::Long) {
                    assert_eq!(mark.ttl, CacheTtl::Short, "{name}");
                }
            }
            if let (Some(min), true) = (caps.cache.min_prefix_tokens(), plan.caches_anything()) {
                assert!(plan.cached_prefix_tokens >= min, "{name}");
            }
        }
    }
}

#[test]
fn a_provider_without_caching_is_never_sent_a_breakpoint() {
    let mut numbers = Numbers(2);
    for _ in 0..256 {
        let segments = any_prompt(&mut numbers);
        let mask = numbers.below(1 << 31);
        let plan = CachePlanner::plan(&segments, &perturb(&segments, mask), &profiles::no_cache());
        assert!(plan.marks.is_empty());
    }
}

#[test]
fn planning_is_deterministic() {
    let mut numbers = Numbers(3);
    for _ in 0..64 {
        let segments = any_prompt(&mut numbers);
        let mask = numbers.below(1 << 31);
        let previous = perturb(&segments, mask);
        for (name, caps) in profiles::all() {
            let a = CachePlanner::plan(&segments, &previous, &caps);
            let b = CachePlanner::plan(&segments, &previous, &caps);
            assert_eq!(a, b, "{name}");
        }
    }
}

#[test]
fn caching_nothing_is_always_explained() {
    let mut numbers = Numbers(4);
    for _ in 0..256 {
        let segments = any_prompt(&mut numbers);
        let mask = numbers.below(1 << 31);
        if segments.is_empty() {
            continue;
        }
        let previous = perturb(&segments, mask);
        for (name, caps) in profiles::all() {
            let plan = CachePlanner::plan(&segments, &previous, &caps);
            if !plan.is_cached() {
                assert!(!plan.warnings.is_empty(), "{name}");
            }
        }
    }
}

#[test]
fn last_turns_hashes_are_kept_by_segment() {
    let previous = PreviousPrompt::from_segments(&typical());
    assert_eq!(previous.previous_hash(SegmentId(0)), Some(hash_text("tool definitions")));
    assert_eq!(previous.previous_hash(SegmentId(9)), None);
    assert!(!previous.is_empty());
    assert!(PreviousPrompt::none().is_empty());
}
