use frey::doctor::{
    check_cache_marks, check_cacheability, check_cost_reporting, check_discoverability, check_sandbox, Finding,
    Report, Severity,
};
use frey::json::Json;
use frey::profiles;
use frey::tool_def::{JsonSchema, ToolDefinition};


#[test]
fn a_dropped_breakpoint_is_an_error_and_an_absent_one_is_not() {
    let findings = check_cache_marks(&[
        ("broken", 4, 0, false),
        ("automatic", 0, 0, true),
        ("working", 4, 4, false),
    ]);
    assert_eq!(findings[0].severity, Severity::Error, "{:?}", findings[0]);
    assert_eq!(findings[1].severity, Severity::Info);
    assert_eq!(findings[2].severity, Severity::Info);
    assert!(findings[0].message.contains("discarded"), "{}", findings[0].message);
}


fn good_tool() -> ToolDefinition {
    ToolDefinition::new(
        "fs_read",
        "Read a file from the workspace and return its contents as text",
        JsonSchema::new(Json::empty().with("type", Json::text("object")).with(
            "properties",
            Json::empty().with(
                "path",
                Json::empty()
                    .with("type", Json::text("string"))
                    .with("description", Json::text("Path from the root.")),
            ),
        ))
        .unwrap(),
    )
}

#[test]
fn a_healthy_project_reports_nothing_to_fix() {
    let findings = check_discoverability(&[good_tool()]);
    assert!(findings.is_empty(), "{findings:?}");
}

#[test]
fn an_undocumented_parameter_is_reported_with_the_reason_it_matters() {
    let vague = ToolDefinition::new(
        "doit",
        "Does it",
        JsonSchema::new(Json::empty().with("type", Json::text("object")).with(
            "properties",
            Json::empty().with("x", Json::empty().with("type", Json::text("string"))),
        ))
        .unwrap(),
    );
    let findings = check_discoverability(&[vague]);
    assert_eq!(findings.len(), 1);
    assert!(findings[0].message.contains("undocumented"), "{}", findings[0].message);
    assert!(findings[0].fix.as_ref().unwrap().contains("argument descriptions"));
}

#[test]
fn a_prefix_below_the_minimum_is_caught_because_the_provider_will_not_say() {
    // Accepted, silently uncached, and the only symptom is the bill.
    let findings = check_cacheability(380, &profiles::haiku45());
    assert_eq!(findings[0].severity, Severity::Warn);
    assert!(findings[0].message.contains("4096"), "{}", findings[0].message);
    assert!(findings[0].message.contains("silently"), "say why it is invisible");
}

#[test]
fn a_sufficient_prefix_is_confirmed_rather_than_left_ambiguous() {
    let findings = check_cacheability(20_000, &profiles::opus5());
    assert_eq!(findings[0].severity, Severity::Info);
}

#[test]
fn a_model_that_cannot_cache_says_so_once() {
    let findings = check_cacheability(20_000, &profiles::no_cache());
    assert_eq!(findings[0].severity, Severity::Info);
    assert!(findings[0].message.contains("full price"));
}

#[test]
fn no_sandbox_is_an_error_rather_than_a_warning() {
    // Because tools that execute anything will refuse to run: that is a broken project, not a
    // suboptimal one.
    let findings = check_sandbox(false, "landlock unavailable, kernel 5.14");
    assert_eq!(findings[0].severity, Severity::Error);
    assert!(findings[0].fix.as_ref().unwrap().contains("allow_degraded_sandbox"));
}

#[test]
fn estimated_costs_are_flagged_as_estimates() {
    assert_eq!(check_cost_reporting(&profiles::opus5())[0].severity, Severity::Warn);
    assert_eq!(
        check_cost_reporting(&profiles::openrouter_automatic())[0].severity,
        Severity::Info
    );
}

#[test]
fn every_actionable_finding_carries_a_fix() {
    // A diagnostic without a fix is a complaint.
    let mut report = Report::default();
    report.findings.extend(check_sandbox(false, "none"));
    report.findings.extend(check_cacheability(10, &profiles::haiku45()));
    report.findings.extend(check_cost_reporting(&profiles::opus5()));

    for finding in &report.findings {
        if finding.severity != Severity::Info {
            assert!(finding.fix.is_some(), "{} has no fix", finding.check);
        }
    }
}

#[test]
fn the_report_sorts_the_worst_first() {
    let mut report = Report::default();
    report.findings.extend(check_cost_reporting(&profiles::opus5()));
    report.findings.extend(check_sandbox(false, "none"));
    report.sort();
    assert_eq!(report.findings[0].severity, Severity::Error);
    assert!(!report.is_healthy());
}

#[test]
fn the_json_shape_is_an_api_and_is_pinned() {
    // A coding agent parses this, so a field rename is a breaking change.
    let mut report = Report::default();
    report.findings.push(Finding::warn("a.b", "something", "do this"));

    let json = report.to_json();
    assert_eq!(json.get("healthy"), Some(&Json::flag(true)));
    let first = &json.get("findings").unwrap().as_array().unwrap()[0];
    assert_eq!(first.get_str("check"), Some("a.b"));
    assert_eq!(first.get_str("severity"), Some("warn"));
    assert_eq!(first.get_str("fix"), Some("do this"));

    // Info findings omit `fix` rather than sending null, so a consumer can branch on presence.
    let mut plain = Report::default();
    plain.findings.push(Finding::info("a.b", "fine"));
    let json = plain.to_json();
    assert!(json.get("findings").unwrap().as_array().unwrap()[0].get("fix").is_none());
}
