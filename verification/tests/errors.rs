use frey::error::{Diagnostic, RetryDirective, ToolError, ToolErrorKind, ToolOutcome};
use frey::json::Json;


#[test]
fn the_success_path_does_not_pay_for_the_failure_path() {
    // A pointer plus the niche-optimised `Result` discriminant. If this grows, every tool in
    // the framework gets slower for no benefit.
    assert_eq!(std::mem::size_of::<ToolError>(), std::mem::size_of::<usize>());
    assert_eq!(std::mem::size_of::<Result<(), ToolError>>(), std::mem::size_of::<usize>());
}

#[test]
fn auth_and_billing_failures_are_never_retryable() {
    let e = ToolError::new(ToolErrorKind::Fatal, "402 from provider");
    assert_eq!(e.retry_directive(), RetryDirective::Never);
    assert!(!e.kind().is_retryable());
    assert!(e.kind().alerts_operator());
}

#[test]
fn transient_failures_default_to_a_budgeted_retry() {
    let e = ToolError::new(ToolErrorKind::Transient, "connection reset");
    assert_eq!(e.retry_directive(), RetryDirective::Immediate { budgeted: true });
}

#[test]
fn denial_reaches_the_model_and_alerts_the_operator() {
    let e =
        ToolError::new(ToolErrorKind::Denied, "writing outside the workspace is not permitted")
            .guide("Write under ./out instead, or ask the operator to widen fs:write.");
    assert!(e.kind().alerts_operator());
    let outcome: ToolOutcome<()> = ToolOutcome::Denied(e);
    let msg = outcome.model_message().expect("a denial tells the model why");
    assert!(msg.guidance.as_deref().unwrap().contains("./out"));
}

#[test]
fn operator_detail_never_appears_in_the_model_message() {
    let e = ToolError::new(ToolErrorKind::NotFound, "no file at src/main.rs")
        .guide("List the directory with `fs_list` first.")
        .suggest(&["fs_list"])
        .diagnose(
            Diagnostic::new("ENOENT from openat(2) on /home/nate/secret-project/src/main.rs")
                .field("errno", "2"),
        );

    let model_text = e.model().to_string();
    assert!(!model_text.contains("/home/nate"), "operator detail leaked: {model_text}");
    assert!(!model_text.contains("errno"), "operator detail leaked: {model_text}");
    assert!(model_text.contains("fs_list"));
    assert!(e.operator().detail.contains("/home/nate"));
}

#[test]
fn schema_violations_can_show_the_model_the_right_shape() {
    let e = ToolError::new(ToolErrorKind::InvalidArgs, "expected an array of strings, got a string")
        .schema_hint(Json::empty()
                .with("type", Json::text("array"))
                .with("items", Json::empty().with("type", Json::text("string"))));
    assert_eq!(e.kind(), ToolErrorKind::InvalidArgs);
    assert!(e.model().schema_hint.is_some());
}
