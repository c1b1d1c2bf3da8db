use frey::agui::{project, project_stream, Frame};
use frey::error::{Diagnostic, InputRequest, NeedsInput, Risk, ToolError, ToolErrorKind};
use frey::event::{Event, EventKind};
use frey::ids::{AgentId, AgentPath, CallId, RunId, SeqId, ToolName, TurnId};
use frey::json::Json;
use frey::usage::UsageTotals;


#[test]
fn every_internal_event_either_projects_or_is_deliberately_silent() {
    // The projection is total by construction. A frontend that receives frames nothing consumes
    // is a frontend whose author stops reading the stream.
    let projected =
        project(&Event::root(SeqId::first(), EventKind::RunStarted { run: RunId::new("r1") }));
    assert!(projected.is_some());

    let internal = project(&Event::root(
        SeqId::first(),
        EventKind::TurnStarted { turn: TurnId::first() },
    ));
    assert!(internal.is_none(), "turn boundaries are bookkeeping, not UI");
}

#[test]
fn an_operator_diagnostic_never_reaches_the_frontend() {
    // A stack trace in a UI helps nobody, and it can leak a path or a hostname.
    let error = ToolError::new(ToolErrorKind::NotFound, "no such file")
        .diagnose(Diagnostic::new("ENOENT on /home/nate/secret-project/src/main.rs"));
    let frame = project(&Event::root(
        SeqId::first(),
        EventKind::ToolCallFailed { call: CallId::new("c1"), error },
    ))
    .unwrap();

    let rendered = frame.data.to_string();
    assert!(!rendered.contains("/home/nate"), "{rendered}");
    assert!(rendered.contains("no such file"));
}

#[test]
fn a_user_facing_message_is_preferred_when_there_is_one() {
    let error = ToolError::new(ToolErrorKind::Denied, "capability missing")
        .present("That action needs permission you have not granted.");
    let frame = project(&Event::root(
        SeqId::first(),
        EventKind::ToolCallFailed { call: CallId::new("c1"), error },
    ))
    .unwrap();
    assert!(frame.data.get_str("message").unwrap().contains("needs permission"));
}

#[test]
fn truncation_is_visible_to_a_user_rather_than_hidden() {
    let frame = project(&Event::root(
        SeqId::first(),
        EventKind::ToolCallFinished { call: CallId::new("c1"), millis: 12, bytes_elided: 4096 },
    ))
    .unwrap();
    assert_eq!(frame.data.get("bytesElided"), Some(&Json::natural(4096)));
}

#[test]
fn an_unreported_cost_is_absent_rather_than_zero() {
    // A zero in a UI reads as "this was free", which is a different claim from "nobody said".
    let frame = project(&Event::root(
        SeqId::first(),
        EventKind::RunFinished { totals: UsageTotals::default(), cost: None },
    ))
    .unwrap();
    assert_eq!(frame.data.get("cost"), Some(&Json::Null));
}

#[test]
fn an_interrupt_is_its_own_frame_type() {
    // The same concept as MCP's input_required and A2A's interrupted states, projected once.
    let frame = project(&Event::root(
        SeqId::first(),
        EventKind::NeedsInput(NeedsInput {
            token: "approve:c1".into(),
            requests: vec![InputRequest::Approval {
                literal: "git push --force".into(),
                risk: Risk::High,
            }],
        }),
    ))
    .unwrap();
    assert_eq!(frame.name, "INTERRUPT");
    assert_eq!(frame.data.get_str("token"), Some("approve:c1"));
}

#[test]
fn frames_render_as_server_sent_events() {
    let frame = Frame { name: "TEXT_MESSAGE_CONTENT", data: Json::empty().with("delta", Json::text("hi")) };
    let sse = frame.to_sse();
    assert!(sse.starts_with("event: TEXT_MESSAGE_CONTENT\n"));
    assert!(sse.ends_with("\n\n"), "a frame must terminate or the next one merges into it");
}

#[test]
fn backpressure_drops_deltas_and_keeps_semantics() {
    let mut events: Vec<Event> = (0..20)
        .map(|i| Event::root(SeqId(i), EventKind::TextDelta { text: "x".into() }))
        .collect();
    events.push(Event::root(
        SeqId(20),
        EventKind::ToolCallStarted {
            call: CallId::new("c1"),
            name: ToolName::new("fs_read"),
            args_preview: "{}".into(),
        },
    ));

    let (frames, dropped) = project_stream(&events, 5);
    assert!(dropped > 0);
    assert!(
        frames.iter().any(|f| f.name == "TOOL_CALL_START"),
        "a semantic frame must survive whatever the pressure"
    );
}

#[test]
fn the_agent_path_travels_with_every_frame_so_a_ui_can_nest() {
    let path =
        AgentPath::root().child(AgentId::new("researcher"));
    let event = Event {
        seq: SeqId::first(),
        agent: path,
        kind: EventKind::TextDelta { text: "hi".into() },
    };
    assert_eq!(project(&event).unwrap().data.get_str("agent"), Some("root/researcher"));
}
