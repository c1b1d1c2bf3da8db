use frey::capability::{Capability, Grant, GrantSet, PathScope};
use frey::error::{ToolError, ToolErrorKind, ToolOutcome};
use frey::ids::{CallId, RunId, SessionId, ToolName};
use frey::item::Caller;
use frey::json::Json;
use frey::taint::{IntegrityLevel, Provenance, Untrusted};
use frey::tool::{Invocation, Resume, SearchError, SearchQuery, ToolContent, ToolCx, ToolValue, ToolsetError};

fn cx() -> ToolCx {
    ToolCx {
        run: RunId::new("r1"),
        session: SessionId::new("s1"),
        grants: GrantSet::new(vec![Grant::operator(Capability::FsRead(
            PathScope::new(&["./src"]).unwrap(),
        ))]),
        provenance: Provenance::new("tool:fs_read"),
        resume: None,
    }
}

fn echo(invocation: Invocation, cx: &ToolCx) -> ToolOutcome<ToolValue> {
    let wanted = Capability::FsRead(PathScope::new(&["./src"]).unwrap());
    if !cx.permits(&wanted) {
        return ToolOutcome::Denied(
            ToolError::new(ToolErrorKind::Denied, "reading ./src is not permitted")
                .guide("Ask the operator to widen fs:read, or work under a granted path."),
        );
    }
    ToolOutcome::Done(Untrusted::with_provenance(
        ToolContent::text(&invocation.args.to_string()),
        cx.provenance.clone(),
    ))
}

fn invocation() -> Invocation {
    Invocation {
        id: CallId::new("c1"),
        name: ToolName::new("fs_read"),
        args: Json::empty().with("path", Json::text("src/main.rs")),
        caller: Caller::Direct,
    }
}

#[test]
fn a_tool_result_is_untrusted_by_construction() {
    let outcome = echo(invocation(), &cx());
    let ToolOutcome::Done(value) = outcome else { panic!("expected success") };
    assert_eq!(value.label().0, IntegrityLevel::Low);
    assert_eq!(value.provenance().origin.as_str(), "tool:fs_read");
    assert_eq!(value.peek().text, "{\"path\":\"src/main.rs\"}");
}

#[test]
fn a_tool_without_its_capability_is_denied_and_told_why() {
    let bare = ToolCx { grants: GrantSet::empty(), ..cx() };
    let outcome = echo(invocation(), &bare);
    let ToolOutcome::Denied(err) = &outcome else { panic!("expected a denial") };
    assert_eq!(err.kind(), ToolErrorKind::Denied);
    assert!(
        err.model().guidance.as_deref().unwrap().contains("fs:read"),
        "a denial the model cannot act on just causes a retry loop"
    );
}

#[test]
fn search_queries_default_to_the_provider_native_result_limit() {
    // Five, so that emulated and delegated discovery give the model the same experience.
    assert_eq!(SearchQuery::new("weather").limit, 5);
}

#[test]
fn a_resumed_call_sees_what_was_answered() {
    let resumed = cx().resuming(Resume { state: Json::Null, answers: vec![Json::flag(true)] });
    assert_eq!(resumed.resume.unwrap().answers, vec![Json::flag(true)]);
}

#[test]
fn failures_say_what_failed() {
    assert_eq!(
        SearchError::InvalidQuery("too long".into()).to_string(),
        "invalid search query: too long"
    );
    let gone = ToolsetError::Unavailable { name: "github".into(), detail: "refused".into() };
    assert!(gone.to_string().contains("github") && gone.to_string().contains("refused"));
}

#[test]
fn content_may_be_structured_and_cut() {
    let content = ToolContent::text("3").with_structured(Json::natural(3)).elided(10);
    assert_eq!(content.structured, Some(Json::natural(3)));
    assert_eq!(content.bytes_elided, 10);
}
