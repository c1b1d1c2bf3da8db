use frey::event::{Event, EventKind};
use frey::ids::{ModelId, ProviderId, RunId, SeqId};
use frey::item::{Item, Role, Turn};
use frey::journal::{
    effect_of, fingerprint, frame_lines, record_lines, sort_record, Divergence, Effect, Journal, Record, Replay,
    ReplayError, Replaying,
};
use frey::json::Json;
use frey::provider::{Request, Response, StopReason};
use frey::provider_caps::ProviderCapabilities;
use frey::tool_def::{JsonSchema, ToolDefinition};
use frey::usage::Usage;


fn prompted(system: &str) -> Request {
    Request {
        model: ModelId::new("m"),
        turns: vec![Turn::system(system), Turn::user("go")],
        ..Request::default()
    }
}

#[test]
fn a_changed_system_prompt_is_a_divergence_and_not_a_match() {
    // A journal recorded against one persona must not replay against another that merely looks
    // alike.
    let recorded = fingerprint(&prompted("you are a careful assistant"));
    let asking = fingerprint(&prompted("you are a reckless assistant"));

    assert_eq!(
        recorded.turns, asking.turns,
        "the shape is identical"
    );
    assert_eq!(recorded.tools, asking.tools);
    assert_eq!(recorded.diverges_from(&asking), Divergence::Content);
}

#[test]
fn an_identical_request_does_not_diverge() {
    let a = fingerprint(&prompted("same"));
    assert_eq!(a.diverges_from(&fingerprint(&prompted("same"))), Divergence::Same);
}

#[test]
fn a_journal_written_before_content_hashing_reports_unknown_rather_than_a_match() {
    // The honest answer for such a recording: the prompts were not compared.
    let mut old = fingerprint(&prompted("anything"));
    old.content = None;
    assert_eq!(
        old.diverges_from(&fingerprint(&prompted("something else"))),
        Divergence::Unknown
    );
}

#[test]
fn a_recorded_run_replays_through_the_ordinary_agent_loop() {
    let mut journal = Journal::new(RunId::new("r"));
    let req = prompted("you are a careful assistant");
    journal.record(Effect::ModelResponse {
        request: fingerprint(&req),
        items: vec![Item::text("the recorded answer")],
        usage: Usage::default(),
        stop: StopReason::EndTurn,
    });

    let mut replaying = Replaying::new(
        journal,
        ProviderCapabilities::minimal(1_000, 100),
    );
    let response = replaying.complete(&req).expect("replays");
    assert_eq!(response.items, vec![Item::text("the recorded answer")]);
    assert_eq!(
        replaying.remaining(),
        0,
        "nothing left over means the whole run was reproduced"
    );
}

#[test]
fn a_divergence_is_fatal_rather_than_retried() {
    let mut journal = Journal::new(RunId::new("r"));
    journal.record(Effect::ModelResponse {
        request: fingerprint(&prompted("recorded")),
        items: vec![Item::text("x")],
        usage: Usage::default(),
        stop: StopReason::EndTurn,
    });
    let mut replaying = Replaying::new(
        journal,
        ProviderCapabilities::minimal(1_000, 100),
    );

    let error = replaying.complete(&prompted("different")).unwrap_err();
    assert!(
        error.to_string().contains("diverged"),
        "the error must say what happened, not just that something did: {error:?}"
    );
}


fn request(turns: usize, tools: &[&str]) -> Request {
    Request {
        model: ModelId::new("test-model"),
        turns: (0..turns).map(|i| Turn::user(&format!("turn {i}"))).collect(),
        tools: tools
            .iter()
            .map(|t| ToolDefinition::new(t, "A described tool", JsonSchema::empty_object()))
            .collect(),
        ..Request::default()
    }
}

fn response(text: &str) -> Response {
    Response {
        items: vec![Item::text(text)],
        usage: Usage::default(),
        stop: StopReason::EndTurn,
        model: ModelId::new("test-model"),
        provider: ProviderId::new("scripted"),
    }
}

fn recorded() -> Journal {
    let mut journal = Journal::new(RunId::new("r1"));
    journal.record(effect_of(&request(1, &["fs_read"]), &response("first")));
    journal.record(effect_of(&request(3, &["fs_read"]), &response("second")));
    journal
}

#[test]
fn a_replayed_run_reproduces_the_recording_exactly() {
    let mut replay = Replay::new(recorded());
    let (items, _, stop) =
        replay.next_response(&fingerprint(&request(1, &["fs_read"]))).unwrap();
    assert_eq!(items, vec![Item::text("first")]);
    assert_eq!(stop, StopReason::EndTurn);

    let (items, _, _) = replay.next_response(&fingerprint(&request(3, &["fs_read"]))).unwrap();
    assert_eq!(items, vec![Item::text("second")]);
    assert_eq!(replay.remaining(), 0);
}

fn with_a_tool_result() -> Journal {
    let mut journal = Journal::new(RunId::new("r1"));
    journal.record(effect_of(&request(1, &["fs_read"]), &response("first")));
    journal.record(Effect::ToolResult {
        tool: "fs_read".into(),
        content: "contents".into(),
        is_error: false,
    });
    journal.record(effect_of(&request(3, &["fs_read"]), &response("second")));
    journal
}

#[test]
fn a_replay_for_a_provider_passes_over_tool_results() {
    // The tools of a run under replay run for real, so their results are not asked of the record.
    let mut replaying =
        Replaying::new(with_a_tool_result(), ProviderCapabilities::minimal(1_000, 100));
    assert_eq!(replaying.remaining(), 2, "responses are counted, and nothing else");

    let first = replaying.complete(&request(1, &["fs_read"])).unwrap();
    assert_eq!(first.items, vec![Item::text("first")]);
    assert_eq!(first.provider.as_str(), "replay");
    assert_eq!(replaying.remaining(), 1);

    let other = replaying.complete(&request(3, &["shell"])).unwrap_err();
    assert!(other.to_string().contains("replay diverged at step seq-2: "), "{other:?}");
    assert_eq!(replaying.remaining(), 1, "a divergence consumes nothing");

    let second = replaying.complete(&request(3, &["fs_read"])).unwrap();
    assert_eq!(second.items, vec![Item::text("second")]);
    assert_eq!(replaying.remaining(), 0);

    let over = replaying.complete(&request(5, &["fs_read"])).unwrap_err();
    assert!(over.to_string().contains("the journal ended after 3 step(s)"), "{over:?}");
}

#[test]
fn a_replay_taken_step_by_step_stops_at_a_tool_result() {
    let mut replay = Replay::new(with_a_tool_result());
    replay.next_response(&fingerprint(&request(1, &["fs_read"]))).unwrap();
    let err = replay.next_response(&fingerprint(&request(3, &["fs_read"]))).unwrap_err();
    let ReplayError::Diverged { seq, recorded, actual } = &err else {
        panic!("expected divergence, got {err:?}")
    };
    assert_eq!(*seq, SeqId(1));
    assert!(recorded.contains("ToolResult"), "{recorded}");
    assert_eq!(actual, "a model call");
    assert_eq!(replay.remaining(), 2);
}

#[test]
fn a_changed_prompt_diverges_at_the_exact_step_rather_than_adapting() {
    // The property that makes replay trustworthy. Absorbing the difference would produce
    // confident results about a run that never happened.
    let mut replay = Replay::new(recorded());
    replay.next_response(&fingerprint(&request(1, &["fs_read"]))).unwrap();

    let err = replay
        .next_response(&fingerprint(&request(3, &["fs_read", "shell"])))
        .expect_err("an extra tool changes the request");
    let ReplayError::Diverged { seq, recorded, actual } = &err else {
        panic!("expected divergence, got {err:?}")
    };
    assert_eq!(*seq, SeqId(1), "the exact step");
    assert!(recorded.contains("fs_read"), "{recorded}");
    assert!(actual.contains("shell"), "{actual}");
}

#[test]
fn a_run_longer_than_its_recording_says_so() {
    let mut replay = Replay::new(recorded());
    replay.next_response(&fingerprint(&request(1, &["fs_read"]))).unwrap();
    replay.next_response(&fingerprint(&request(3, &["fs_read"]))).unwrap();

    let err = replay.next_response(&fingerprint(&request(5, &["fs_read"]))).unwrap_err();
    assert!(matches!(err, ReplayError::Exhausted { recorded: 2 }));
    assert!(err.to_string().contains("longer than the recording"));
}

#[test]
fn presentation_deltas_are_not_stored() {
    // Deltas are reconstructible from the final items and would otherwise dominate the file.
    let mut journal = Journal::new(RunId::new("r1"));
    journal.record_event(Event::root(SeqId::first(), EventKind::TextDelta { text: "a".into() }));
    journal
        .record_event(Event::root(SeqId(1), EventKind::RunStarted { run: RunId::new("r1") }));
    assert_eq!(journal.events.len(), 1);
    assert!(matches!(journal.events[0].kind, EventKind::RunStarted { .. }));
}

#[test]
fn effects_are_labelled_so_a_journal_reads_without_a_debugger() {
    let journal = recorded();
    assert_eq!(journal.entries[0].effect.label(), "model-response");
}

#[test]
fn sequence_numbers_are_dense_and_ordered() {
    let journal = recorded();
    let seqs: Vec<u32> = journal.entries.iter().map(|e| e.seq.index()).collect();
    assert_eq!(seqs, vec![0, 1], "replay indexes by position, so gaps would break it");
}

#[test]
fn a_turn_role_change_is_not_mistaken_for_the_same_request() {
    let mut replay = Replay::new(recorded());
    let mut different = request(1, &["fs_read"]);
    different.turns = vec![Turn::new(Role::System, vec![Item::text("turn 0")])];
    assert!(replay.next_response(&fingerprint(&different)).is_err());
}

#[test]
fn lines_are_framed_and_read_back() {
    let text = frame_lines(&vec!["{\"seq\":0}".to_owned()], &vec!["{\"a\":1}".to_owned()]);
    assert_eq!(record_lines(&text).len(), 2);
    assert_eq!(record_lines("a\n\n  \nb\r\n"), ["a", "b"]);
    let event = Json::empty().with("event", Json::text("e"));
    assert_eq!(sort_record(event), Record::Event(Json::text("e")));
    let entry = Json::empty().with("seq", Json::natural(0));
    assert_eq!(sort_record(entry.clone()), Record::Entry(entry));
}

#[test]
fn a_recorded_stream_is_refused() {
    assert_eq!(
        Replaying::refuse_stream().to_string(),
        "replay does not support streaming a recorded run"
    );
}

#[test]
fn a_step_that_is_no_model_call_diverges() {
    let mut journal = Journal::new(RunId::new("r"));
    journal.record(Effect::ToolResult { tool: "fs_read".into(), content: "a\"b".into(), is_error: false });
    let err = Replay::new(journal).next_response(&fingerprint(&prompted("x"))).unwrap_err();
    let ReplayError::Diverged { recorded, actual, .. } = err else { panic!("expected divergence") };
    assert_eq!(recorded, "ToolResult { tool: \"fs_read\", content: \"a\\\"b\", is_error: false }");
    assert_eq!(actual, "a model call");
}

#[test]
fn a_journal_adds_up_what_was_used() {
    let journal = recorded();
    assert_eq!(journal.totals().by_model.len(), 1);
    assert_eq!(journal.totals().unmetered_calls, 2);
    assert_eq!(journal.dropped(), 0);
    assert!(!journal.is_empty());
}
