use frey::capability::{Capability, Grant, GrantSet, HostPattern, PathScope, ProgramScope, SessionPowers};
use frey::event::{Event, EventKind};
use frey::ids::{AgentId, AgentPath, CallId, RunId, SeqId, ToolName};
use frey::multi::{apply_backpressure, label_result, spawn, ContextSnapshot, Inheritance, Spawn, SpawnError};
use frey::taint::IntegrityLevel;


fn parent_grants() -> GrantSet {
    GrantSet::new(vec![
        Grant::operator(Capability::FsRead(PathScope::new(&["./"]).unwrap())),
        Grant::operator(Capability::Exec(ProgramScope::new(&["git", "cargo"]))),
    ])
}

fn request(id: &str, grants: GrantSet) -> Spawn {
    Spawn {
        id: AgentId::new(id),
        inheritance: Inheritance::Summary("do the thing".into()),
        grants,
    }
}

#[test]
fn a_child_may_narrow_its_parents_grants() {
    let narrower =
        GrantSet::new(vec![Grant::operator(Capability::Exec(ProgramScope::new(&["git"])))]);
    let child = spawn(
        &AgentPath::root(),
        &parent_grants(),
        SessionPowers::default(),
        request("builder", narrower),
    )
    .unwrap();
    assert_eq!(child.path.to_string(), "root/builder");
}

#[test]
fn a_child_may_not_widen_them() {
    // The structural defence against escalation down a pipeline. A compromised sub-agent can
    // misbehave within its grants and no further, however convincing its output.
    let wider = GrantSet::new(vec![Grant::operator(Capability::Exec(ProgramScope::new(&["curl"])))]);
    let err = spawn(
        &AgentPath::root(),
        &parent_grants(),
        SessionPowers::default(),
        request("sneaky", wider),
    )
    .unwrap_err();
    assert!(matches!(err, SpawnError::WidensGrants { .. }));
    assert!(err.to_string().contains("may only narrow"));
}

#[test]
fn untrusted_input_flows_downward_and_can_trip_the_rule_of_two() {
    // A parent that has read a fetched page cannot hand a child a clean slate by summarising:
    // the summary is derived from that page.
    let tainted_parent = SessionPowers::default().observed_untrusted_input();
    let dangerous = GrantSet::new(vec![
        Grant::operator(Capability::FsRead(PathScope::new(&["./"]).unwrap())),
        Grant::operator(Capability::NetEgress(HostPattern::new("api.test").unwrap())),
    ]);
    let parent = GrantSet::new(vec![
        Grant::operator(Capability::FsRead(PathScope::new(&["./"]).unwrap())),
        Grant::operator(Capability::NetEgress(HostPattern::new("api.test").unwrap())),
    ]);

    let err = spawn(
        &AgentPath::root(),
        &parent,
        tainted_parent,
        request("worker", dangerous.clone()),
    )
    .unwrap_err();
    assert!(matches!(err, SpawnError::RuleOfTwo { .. }));
    assert!(err.to_string().contains("Drop one power"));

    // The documented escape: a child that inherits nothing starts clean.
    let quarantined = Spawn {
        id: AgentId::new("quarantined"),
        inheritance: Inheritance::Nothing,
        grants: dangerous,
    };
    assert!(spawn(&AgentPath::root(), &parent, tainted_parent, quarantined).is_ok());
}

#[test]
fn a_snapshot_is_shared_rather_than_copied() {
    // Agents mostly want read-mostly context. Making them serialise it is the cost the actor
    // model charges for a guarantee they do not need.
    let snapshot = std::sync::Arc::new(ContextSnapshot { text: "a lot of context".into() });
    let child = spawn(
        &AgentPath::root(),
        &parent_grants(),
        SessionPowers::default(),
        Spawn {
            id: AgentId::new("reader"),
            inheritance: Inheritance::Snapshot(std::sync::Arc::clone(&snapshot)),
            grants: GrantSet::empty(),
        },
    )
    .unwrap();

    assert_eq!(std::sync::Arc::strong_count(&snapshot), 2, "shared, not deep-copied");
    assert!(matches!(child.inheritance, Inheritance::Snapshot(_)));
}

#[test]
fn a_childs_output_is_low_integrity_whoever_wrote_the_child() {
    let path = AgentPath::root().child(AgentId::new("researcher"));
    let result = label_result(&path, "the answer is 42".into());
    assert_eq!(result.label().0, IntegrityLevel::Low);
    assert_eq!(result.provenance().origin.as_str(), "agent:root/researcher");
}

#[test]
fn backpressure_drops_deltas_and_never_semantics() {
    let mut events = Vec::new();
    for i in 0..20u32 {
        events.push(Event::root(SeqId(i), EventKind::TextDelta { text: "x".into() }));
    }
    events.push(Event::root(
        SeqId(20),
        EventKind::ToolCallStarted {
            call: CallId::new("c1"),
            name: ToolName::new("fs_read"),
            args_preview: "{}".into(),
        },
    ));
    events.push(Event::root(SeqId(21), EventKind::RunStarted { run: RunId::new("r") }));

    let (kept, dropped) = apply_backpressure(events, 5);
    assert!(dropped > 0, "deltas must actually be dropped");
    assert_eq!(
        kept.iter().filter(|e| !e.is_droppable()).count(),
        2,
        "every semantic event survives, even past the soft capacity"
    );
}

#[test]
fn nothing_is_dropped_when_the_consumer_keeps_up() {
    let events = vec![Event::root(SeqId::first(), EventKind::TextDelta { text: "hello".into() })];
    let (kept, dropped) = apply_backpressure(events, 10);
    assert_eq!(kept.len(), 1);
    assert_eq!(dropped, 0);
}

#[test]
fn grant_monotonicity_holds_all_the_way_down_a_deep_tree() {
    // The property the whole module exists for, checked at depth rather than once. Each rung
    // narrows: full grants, then exec only, then nothing.
    let rungs = [
        parent_grants(),
        GrantSet::new(vec![Grant::operator(Capability::Exec(ProgramScope::new(&["git"])))]),
        GrantSet::empty(),
    ];

    let mut grants = parent_grants();
    let mut path = AgentPath::root();
    let mut powers = SessionPowers::default();

    for (depth, rung) in rungs.iter().enumerate() {
        let child =
            spawn(&path, &grants, powers, request(&format!("d{depth}"), rung.clone())).unwrap();
        assert!(child.grants.is_subset_of(&grants), "depth {depth} widened");
        path = child.path;
        grants = child.grants;
        powers = child.powers;
    }
    assert_eq!(path.depth(), 3);

    // And the invariant bites at the bottom: a descendant of an empty grant set can acquire
    // nothing, however deep in the tree it sits.
    let err = spawn(
        &path,
        &grants,
        powers,
        request(
            "regains",
            GrantSet::new(vec![Grant::operator(Capability::Exec(ProgramScope::new(&["git"])))]),
        ),
    )
    .unwrap_err();
    assert!(matches!(err, SpawnError::WidensGrants { .. }));
}
