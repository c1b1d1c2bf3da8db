use frey::budget::{Budgeter, ContextBudget, EvictionReason, Floors};
use frey::event::Warning;
use frey::hash::hash_text;
use frey::ids::SegmentId;
use frey::profiles;
use frey::segment::{Segment, SegmentKind, Stability};


fn seg(id: u32, kind: SegmentKind, tokens: u32) -> Segment {
    Segment {
        id: SegmentId(id),
        kind,
        stability: Stability::Static,
        hash: hash_text(&format!("{id}")),
        est_tokens: tokens,
        label: format!("{kind:?}:{id}"),
    }
}

fn budget(window: u32) -> ContextBudget {
    ContextBudget {
        window,
        reserve_output: window / 10,
        reserve_headroom: 0,
        floors: Floors { recent_history: 2 },
    }
}

#[test]
fn a_prompt_that_fits_is_left_alone() {
    let segments = vec![seg(0, SegmentKind::Tools, 100), seg(1, SegmentKind::History, 100)];
    let plan = Budgeter::fit(&segments, &budget(10_000)).unwrap();
    assert_eq!(plan.keep.len(), 2);
    assert!(plan.evicted.is_empty());
    assert!(plan.warnings.is_empty(), "no decision means no noise");
}

#[test]
fn discovered_definitions_go_before_history_does() {
    let segments = vec![
        seg(0, SegmentKind::Tools, 400),
        seg(1, SegmentKind::History, 200),
        seg(2, SegmentKind::History, 200),
        seg(3, SegmentKind::Discovered, 300),
    ];
    // Ceiling is 900; the prompt is 1,100. Dropping the discovery alone is enough.
    let plan = Budgeter::fit(&segments, &budget(1_000)).unwrap();
    assert_eq!(plan.evicted.len(), 1);
    assert_eq!(plan.evicted[0].reason, EvictionReason::StaleDiscovery);
    assert_eq!(plan.evicted[0].id, SegmentId(3));
    assert!(plan.keep.iter().all(|s| s.kind != SegmentKind::Discovered));
}

#[test]
fn history_is_evicted_oldest_first_and_the_floor_holds() {
    let segments = vec![
        seg(0, SegmentKind::Tools, 300),
        seg(1, SegmentKind::History, 300),
        seg(2, SegmentKind::History, 300),
        seg(3, SegmentKind::History, 300),
        seg(4, SegmentKind::History, 300),
    ];
    // Ceiling 900, prompt 1,500: two history segments must go, and the floor of two protects
    // the most recent pair.
    let plan = Budgeter::fit(&segments, &budget(1_000)).unwrap();
    assert_eq!(plan.evicted.len(), 2);
    assert_eq!(
        plan.evicted.iter().map(|e| e.id).collect::<Vec<_>>(),
        vec![SegmentId(1), SegmentId(2)],
        "oldest first"
    );
    assert!(
        plan.keep.iter().any(|s| s.id == SegmentId(4)),
        "the most recent exchange survives, or the agent looks amnesiac"
    );
}

#[test]
fn eviction_is_never_silent() {
    let segments =
        vec![seg(0, SegmentKind::Discovered, 2_000), seg(1, SegmentKind::Tools, 100)];
    let plan = Budgeter::fit(&segments, &budget(1_000)).unwrap();
    let Warning::BudgetPressure { action, .. } = &plan.warnings[0] else {
        panic!("expected budget pressure, got {:?}", plan.warnings)
    };
    assert!(action.contains("Discovered:0"), "the warning must name what went: {action}");
    assert!(action.contains("2000"), "and what it saved");
}

#[test]
fn an_impossible_prompt_fails_with_numbers_rather_than_truncating() {
    // A tool block alone that exceeds the window. Truncating it would produce a model that
    // calls tools it can no longer see the definitions for.
    let segments = vec![seg(0, SegmentKind::Tools, 50_000)];
    let err = Budgeter::fit(&segments, &budget(1_000)).unwrap_err();
    assert_eq!(err.needed, 50_000);
    assert_eq!(err.available, 900);
    assert!(err.protected.contains("Tools:0"));
    assert!(err.to_string().contains("shrink the tool block"), "and how to fix it");
}

#[test]
fn the_budget_leaves_room_for_the_response_and_for_tool_results() {
    let caps = profiles::opus5();
    let budget = ContextBudget::from_capabilities(&caps);
    assert_eq!(budget.window, 200_000);
    assert_eq!(budget.reserve_output, 50_000, "capped at a quarter of the window");
    assert_eq!(budget.reserve_headroom, 20_000);
    assert_eq!(budget.prompt_ceiling(), 130_000);
}

#[test]
fn the_ceiling_is_never_exceeded_for_any_prompt_that_fits_at_all() {
    // A cheap stand-in for the property test: many shapes, one invariant.
    for tools in [0u32, 500, 5_000] {
        for history_count in 0..8u32 {
            let mut segments = vec![seg(0, SegmentKind::Tools, tools)];
            for i in 0..history_count {
                segments.push(seg(i + 1, SegmentKind::History, 400));
            }
            if let Ok(plan) = Budgeter::fit(&segments, &budget(10_000)) {
                assert!(
                    plan.tokens <= budget(10_000).prompt_ceiling(),
                    "tools={tools} history={history_count} produced {} tokens",
                    plan.tokens
                );
            }
        }
    }
}
