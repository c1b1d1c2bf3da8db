use frey::error::{ToolError, ToolErrorKind, ToolOutcome};
use frey::event::Warning;
use frey::ids::{CallId, ModelId, ProviderId, ToolName};
use frey::item::{copy_items, copy_turns, Caller, Item, ToolCallItem, Turn};
use frey::journal::{Effect, Replaying};
use frey::json::Json;
use frey::prompt::{build_segments, estimate_tokens, try_segments};
use frey::provider::{ProviderError, Response, StopReason};
use frey::provider_caps::ProviderCapabilities;
use frey::run::{Agent, Answered, Asked, Calling, Considered, Permitted, RunError, RunOutput};
use frey::segment::{SegmentKind, Stability};
use frey::taint::Tainted;
use frey::tool::ToolContent;
use frey::tool_def::{JsonSchema, ToolDefinition};
use frey::usage::Usage;

enum Scripted {
    Reply(Response),
    Fail(ProviderError),
}

fn reply(items: Vec<Item>, stop: StopReason) -> Scripted {
    Scripted::Reply(Response {
        items,
        usage: Usage::default(),
        stop,
        model: ModelId::new("test-model"),
        provider: ProviderId::new("scripted"),
    })
}

fn text(text: &str) -> Scripted {
    reply(vec![Item::text(text)], StopReason::EndTurn)
}

fn calls(name: &str) -> Scripted {
    reply(vec![tool_call(name)], StopReason::ToolUse)
}

fn tool_call(name: &str) -> Item {
    Item::ToolCall(ToolCallItem {
        id: CallId::new("c1"),
        name: ToolName::new(name),
        args: Json::empty(),
        caller: Caller::Direct,
    })
}

fn tools(names: &[&str]) -> Vec<ToolDefinition> {
    names
        .iter()
        .map(|n| {
            ToolDefinition::new(
                n,
                "A tool described well enough to be found by a search",
                JsonSchema::empty_object(),
            )
        })
        .collect()
}

/// Runs an agent against a script. Every known tool answers "tool output".
fn drive(
    agent: &Agent,
    definitions: Vec<ToolDefinition>,
    task: &str,
    script: Vec<Scripted>,
) -> (Result<RunOutput, RunError>, Vec<Vec<Turn>>) {
    let mut script = script.into_iter();
    let mut saw: Vec<Vec<Turn>> = Vec::new();
    let mut run = agent.begin(task, ProviderCapabilities::minimal(100_000, 4_096), definitions);
    loop {
        let pending = match run.ask() {
            Asked::Ask(p) => p,
            Asked::Over(e) => return (Err(e), saw),
            Asked::Unmeasurable => panic!("the prompt cannot be measured"),
        };
        saw.push(copy_turns(&pending.request.turns));
        let response = match script.next().expect("the script is long enough") {
            Scripted::Reply(r) => r,
            Scripted::Fail(e) => return (Err(pending.fail(e)), saw),
        };
        assert!(pending.can_count(&response));
        let mut calling = match pending.answer(response) {
            Answered::Done(out) => return (Ok(out), saw),
            Answered::Tools(c) => c,
        };
        while !calling.is_complete() {
            let outcome = match calling.consider() {
                Considered::Missing(outcome) => outcome,
                Considered::Known { .. } => match calling.permitted(None) {
                    Permitted::Denied(outcome) => outcome,
                    Permitted::Call { cx, .. } => ToolOutcome::Done(Tainted::with_provenance(
                        ToolContent::text("tool output"),
                        cx.provenance,
                    )),
                },
            };
            calling = calling.returned(&outcome);
        }
        run = calling.close();
    }
}

#[test]
fn a_plain_question_takes_one_turn() {
    let agent = Agent::new("test-model");
    let (out, saw) = drive(&agent, tools(&[]), "what is 2+2?", vec![text("the answer")]);
    let out = out.unwrap();

    assert_eq!(out.text(), "the answer");
    assert_eq!(saw.len(), 1);
    assert_eq!(out.journal.len(), 1, "one recorded model response");
}

#[test]
fn a_tool_call_round_trips_and_is_journalled() {
    let agent = Agent::new("test-model");
    let (out, saw) =
        drive(&agent, tools(&["fs_read"]), "read a file", vec![calls("fs_read"), text("done")]);
    let out = out.unwrap();

    assert_eq!(out.text(), "done");
    assert_eq!(saw.len(), 2);
    assert_eq!(out.journal.len(), 3, "two model calls and one tool result");
    assert!(matches!(out.journal.entries[1].effect, Effect::ToolResult { .. }));
}

#[test]
fn a_run_with_tool_calls_replays_through_the_loop() {
    let agent = Agent::new("test-model").system("be careful");
    let script = vec![calls("fs_read"), calls("missing"), text("done")];
    let (out, saw) = drive(&agent, tools(&["fs_read"]), "read a file", script);
    let out = out.unwrap();
    assert_eq!(out.journal.len(), 5);

    let caps = ProviderCapabilities::minimal(100_000, 4_096);
    let mut replaying = Replaying::new(out.journal, caps);
    let mut again: Vec<Vec<Turn>> = Vec::new();
    let mut run =
        agent.begin("read a file", replaying.capabilities(), tools(&["fs_read"]));
    let done = loop {
        let Asked::Ask(pending) = run.ask() else { panic!("the prompt fits") };
        again.push(copy_turns(&pending.request.turns));
        let response = replaying.complete(&pending.request).expect("the record answers");
        let mut calling = match pending.answer(response) {
            Answered::Done(out) => break out,
            Answered::Tools(c) => c,
        };
        while !calling.is_complete() {
            let outcome = match calling.consider() {
                Considered::Missing(outcome) => outcome,
                Considered::Known { .. } => match calling.permitted(None) {
                    Permitted::Denied(outcome) => outcome,
                    Permitted::Call { cx, .. } => ToolOutcome::Done(Tainted::with_provenance(
                        ToolContent::text("tool output"),
                        cx.provenance,
                    )),
                },
            };
            calling = calling.returned(&outcome);
        }
        run = calling.close();
    };
    assert_eq!(done.text(), "done");
    assert_eq!(again, saw, "it asked the same all over");
    assert_eq!(replaying.remaining(), 0);
}

#[test]
fn a_warning_that_every_turn_gives_is_reported_once() {
    let agent = Agent::new("test-model");
    let long = || reply((0..21).map(|_| tool_call("fs_read")).collect(), StopReason::ToolUse);
    let (out, _) =
        drive(&agent, tools(&["fs_read"]), "go", vec![long(), long(), text("done")]);
    let warnings = out.unwrap().warnings;

    assert_eq!(warnings.len(), 2, "{warnings:?}");
    assert!(matches!(&warnings[0], Warning::Degraded { capability, .. } if capability == "prompt-cache"));
    assert_eq!(warnings[1], Warning::LookbackExceeded { blocks: 42, limit: 20 });
}

/// A run whose model has just called a tool.
fn one_call(name: &str) -> Calling {
    let caps = ProviderCapabilities::minimal(100_000, 4_096);
    let run = Agent::new("test-model").begin("go", caps, tools(&["fs_read"]));
    let Asked::Ask(pending) = run.ask() else { panic!("the prompt fits") };
    let Scripted::Reply(response) = calls(name) else { panic!("a reply") };
    match pending.answer(response) {
        Answered::Tools(calling) => calling,
        Answered::Done(_) => panic!("the model called a tool"),
    }
}

#[test]
fn a_call_that_policy_refuses_is_denied_and_not_made() {
    let calling = one_call("fs_read");
    let Considered::Known { definition, args, caller, grants } = calling.consider() else {
        panic!("the tool is there")
    };
    assert_eq!(definition.name.as_str(), "fs_read");
    assert_eq!(args, Json::empty());
    assert_eq!(caller, Caller::Direct);
    assert!(grants.is_empty());

    let refusal = ToolError::new(ToolErrorKind::Denied, "policy forbids it");
    let Permitted::Denied(outcome) = calling.permitted(Some(refusal)) else {
        panic!("nothing is handed out to run")
    };
    assert!(matches!(&outcome, ToolOutcome::Denied(_)));

    let run = calling.returned(&outcome).close();
    let Asked::Ask(pending) = run.ask() else { panic!("the prompt fits") };
    let told = pending.request.turns.last().unwrap().items.first().unwrap();
    assert!(matches!(told, Item::ToolResult(r) if r.is_error && r.content == "policy forbids it"));
}

#[test]
fn a_call_that_policy_permits_is_the_one_the_model_made() {
    let Permitted::Call { invocation, cx } = one_call("fs_read").permitted(None) else {
        panic!("policy says nothing against it")
    };
    assert_eq!(invocation.id, CallId::new("c1"));
    assert_eq!(invocation.name, ToolName::new("fs_read"));
    assert_eq!(invocation.args, Json::empty());
    assert!(cx.grants.is_empty());
    assert!(cx.resume.is_none());
}

#[test]
fn the_model_sees_the_tool_result_on_the_next_turn() {
    let agent = Agent::new("test-model");
    let (out, saw) =
        drive(&agent, tools(&["fs_read"]), "read a file", vec![calls("fs_read"), text("done")]);
    out.unwrap();

    let has_result = saw[1]
        .iter()
        .flat_map(|t| &t.items)
        .any(|i| matches!(i, Item::ToolResult(r) if r.content == "tool output"));
    assert!(has_result, "the loop must feed results back or the model repeats itself");
}

#[test]
fn calling_a_tool_that_does_not_exist_tells_the_model_what_to_do() {
    let agent = Agent::new("test-model");
    let (out, _) =
        drive(&agent, tools(&["fs_read"]), "go", vec![calls("does_not_exist"), text("recovered")]);
    let out = out.unwrap();

    assert_eq!(out.text(), "recovered");
    let Effect::ToolResult { content, is_error, .. } = &out.journal.entries[1].effect else {
        panic!("expected a tool result")
    };
    assert!(is_error);
    assert!(content.contains("search for one"), "a bare failure just loops: {content}");
}

#[test]
fn a_fatal_provider_failure_ends_the_run_rather_than_retrying() {
    // A run that degrades into silent no-ops while still being billed is worse than one that stops.
    let agent = Agent::new("test-model");
    let failure = Scripted::Fail(ProviderError::Billing {
        provider: ProviderId::new("scripted"),
        detail: "out of credit".into(),
    });
    let (out, _) = drive(&agent, tools(&[]), "go", vec![failure]);
    assert!(matches!(out.unwrap_err(), RunError::Provider(e) if e.is_fatal()));
}

#[test]
fn an_endless_loop_stops_with_advice_rather_than_running_forever() {
    let agent = Agent::new("test-model").max_turns(3);
    let (out, saw) =
        drive(&agent, tools(&["fs_read"]), "go", (0..4).map(|_| calls("fs_read")).collect());
    let err = out.unwrap_err();
    assert!(matches!(err, RunError::TurnLimit { limit: 3 }));
    assert!(err.to_string().contains("repeating the same failing tool call"));
    assert_eq!(saw.len(), 3);
}

#[test]
fn the_tool_block_is_the_first_segment_and_stays_stable() {
    let segments = build_segments(
        &tools(&["fs_read", "shell"]),
        &vec![Turn::system("be careful"), Turn::user("hello")],
    );
    assert_eq!(segments[0].kind, SegmentKind::Tools);
    assert_eq!(segments[0].stability, Stability::Static);
    assert_eq!(segments[1].kind, SegmentKind::System);
    assert_eq!(segments[2].stability, Stability::Volatile, "history churns by definition");
}

#[test]
fn a_stable_prompt_produces_no_cache_warnings_across_turns() {
    let agent = Agent::new("test-model").system("be careful");
    let (out, _) = drive(&agent, tools(&["fs_read"]), "go", vec![calls("fs_read"), text("done")]);
    let out = out.unwrap();

    assert!(
        !out.warnings.iter().any(|w| matches!(w, Warning::CacheChurn { .. })),
        "a stable tool block and system prompt must not report churn: {:?}",
        out.warnings
    );
}

#[test]
fn usage_is_tracked_per_model_and_cost_is_not_invented() {
    let agent = Agent::new("test-model");
    let (out, _) = drive(&agent, tools(&[]), "go", vec![text("done")]);
    let out = out.unwrap();

    assert_eq!(out.totals.by_model.len(), 1);
    assert_eq!(out.cost, None, "the scripted provider reports no cost, so neither do we");
    assert!(!out.totals.is_complete(), "and the ledger says it is incomplete");
}

#[test]
fn token_estimation_is_monotonic_even_though_it_is_crude() {
    assert!(estimate_tokens("a longer piece of text") > estimate_tokens("short"));
    assert_eq!(estimate_tokens(""), 0);
}

#[test]
fn an_estimate_is_a_quarter_of_the_length_rounded_up() {
    assert_eq!(estimate_tokens("abcd"), 1);
    assert_eq!(estimate_tokens("abcde"), 2);
}

#[test]
fn a_prompt_that_can_be_measured_is() {
    let turns = vec![Turn::system("be careful"), Turn::user("hello")];
    let built = build_segments(&tools(&["fs_read"]), &turns);
    let tried = try_segments(&tools(&["fs_read"]), &turns).unwrap();
    assert_eq!(built, tried);
}

#[test]
fn items_are_copied_whole() {
    let items = vec![Item::text("a"), tool_call("b")];
    assert_eq!(copy_items(&items), items);
}
