use frey::error::{NeedsInput, ToolError, ToolErrorKind};
use frey::event::{dedup_warnings, Event, EventKind, Warning};
use frey::ids::{CallId, RunId, SeqId, ToolName, TurnId};
use frey::json::Json;
use frey::usage::{Usage, UsageTotals};


fn all_kinds() -> Vec<EventKind> {
    vec![
        EventKind::RunStarted { run: RunId::new("r1") },
        EventKind::TurnStarted { turn: TurnId::first() },
        EventKind::TextDelta { text: "hi".into() },
        EventKind::ReasoningDelta { text: "hmm".into() },
        EventKind::ToolCallStarted {
            call: CallId::new("c1"),
            name: ToolName::new("fs_read"),
            args_preview: "{\"path\":\"a\"}".into(),
        },
        EventKind::ToolCallFinished { call: CallId::new("c1"), millis: 3, bytes_elided: 0 },
        EventKind::ToolCallFailed {
            call: CallId::new("c1"),
            error: ToolError::new(ToolErrorKind::NotFound, "gone"),
        },
        EventKind::Discovered { found: vec![ToolName::new("x")], via: "bm25".into() },
        EventKind::NeedsInput(NeedsInput { token: "t".into(), requests: Vec::new() }),
        EventKind::StateDelta { patch: Json::array(Vec::new()) },
        EventKind::UsageUpdated { usage: Usage::default() },
        EventKind::Warned { warning: Warning::BelowMinPrefix { have: 380, need: 512 } },
        EventKind::RunFinished { totals: UsageTotals::default(), cost: None },
    ]
}

#[test]
fn exactly_two_event_kinds_are_droppable() {
    let droppable: Vec<_> = all_kinds().into_iter().filter(EventKind::is_droppable).collect();
    assert_eq!(
        droppable.len(),
        2,
        "only presentation deltas may be dropped; a new droppable variant needs a deliberate \
         decision, not a default"
    );
    assert!(
        droppable.iter().all(|k| matches!(
            k,
            EventKind::TextDelta { .. } | EventKind::ReasoningDelta { .. }
        ))
    );
}

#[test]
fn semantic_and_droppable_partition_the_space() {
    for kind in all_kinds() {
        assert_ne!(kind.is_droppable(), kind.is_semantic(), "{kind:?}");
    }
}

#[test]
fn events_carry_their_position_in_the_tree_and_the_journal() {
    let e = Event::root(SeqId(7), EventKind::TextDelta { text: "x".into() });
    assert!(e.agent.is_root());
    assert_eq!(e.seq, SeqId(7));
    assert!(e.is_droppable());
}


#[test]
fn warnings_carry_enough_to_act_on() {
    let w = Warning::CacheChurn {
        segment: "system:prompts/system.md".into(),
        tokens: 12_400,
        advice: "a timestamp in the system prompt changes the prefix hash every turn".into(),
    };
    let rendered = w.to_string();
    assert!(rendered.contains("12400"), "a warning without a number is not actionable");
    assert!(rendered.contains("system.md"), "a warning must name the culprit");
}

#[test]
fn each_distinct_warning_is_reported_once() {
    let a = || Warning::BelowMinPrefix { have: 1, need: 2 };
    let b = || Warning::EventsDropped { count: 3 };
    assert_eq!(dedup_warnings(vec![a(), a(), b(), a()]), vec![a(), b()]);
    assert_eq!(dedup_warnings(vec![b(), a(), b(), a()]), vec![b(), a()]);
    assert_eq!(dedup_warnings(vec![]), vec![]);
}
