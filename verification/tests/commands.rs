use frey::commands::{
    doctor, emit, has_input, help, parse_args, profiles_json, profiles_table, report_text, tools, Command, Output,
};
use frey::doctor::{check_sandbox, Finding, Report, Severity};
use frey::json::Json;
use frey::profiles;
use frey::sandbox::Control;
use frey::tool_def::{JsonSchema, ToolDefinition};


#[test]
fn help_lists_every_command_the_parser_accepts() {
    // A command that exists but is undocumented might as well not exist.
    let text = help();
    for command in ["doctor", "profiles", "tools", "version", "help"] {
        assert!(text.contains(command), "`{command}` is missing from help");
    }
    assert!(text.contains("--json"));
}

#[test]
fn help_says_the_json_output_is_stable() {
    // Because a coding agent will parse it, and it needs to know it may.
    assert!(help().contains("stable API"));
}

#[test]
fn an_unhealthy_report_exits_non_zero() {
    // So `frey doctor` composes with CI and shell chaining rather than needing its output
    // parsed to find out whether it passed.
    let mut broken = Report::default();
    broken.findings.extend(check_sandbox(false, "none available"));
    assert!(!broken.is_healthy());

    let mut fine = Report::default();
    fine.findings.push(Finding::info("x", "fine"));
    assert!(fine.is_healthy());
}

#[test]
fn every_profile_appears_in_the_listing() {
    assert!(profiles::all().len() >= 6, "the table should cover every shape of provider");
    assert!(profiles::all().iter().any(|(_, c)| c.reports_cost));
    assert!(profiles::all().iter().any(|(_, c)| !c.reports_cost));
}

#[test]
fn arguments_name_a_command_and_a_form() {
    let args = |list: &[&str]| parse_args(&list.iter().map(|a| (*a).to_owned()).collect());
    assert_eq!(args(&[]), (Command::Help, false));
    assert_eq!(args(&["-h"]), (Command::Help, false));
    assert_eq!(args(&["--json", "doctor"]), (Command::Doctor, true));
    assert_eq!(args(&["profiles", "--json"]), (Command::Profiles, true));
    assert_eq!(args(&["tools"]), (Command::Tools, false));
    assert_eq!(args(&["--verbose", "version", "doctor"]), (Command::Version, false));
    assert_eq!(args(&["bogus"]), (Command::Unknown("bogus".into()), false));
}

#[test]
fn a_report_is_printed_line_by_line() {
    let mut report = Report::default();
    assert_eq!(report_text(&report), " info  nothing to report\n");
    report.findings.push(Finding::error("a.b", "broken", "mend it"));
    report.findings.push(Finding::info("c.d", "fine"));
    assert_eq!(report_text(&report), "error  a.b  broken\n       fix: mend it\n info  c.d  fine\n");
}

#[test]
fn a_host_is_diagnosed_the_worst_first() {
    let report = doctor(false, "no landlock", &[Control::MemoryLimit], &[("automatic", 0, 0, true)]);
    assert_eq!(report.findings.len(), 5);
    assert_eq!(report.findings[0].severity, Severity::Error);
    assert!(!report.is_healthy());
    assert!(report.findings.iter().any(|f| f.message == "controls actually available here: [MemoryLimit]"));
}

#[test]
fn a_catalog_without_problems_is_counted() {
    let good = ToolDefinition::new(
        "fs_read",
        "Read a file from the workspace and return its contents as text",
        JsonSchema::empty_object(),
    );
    let report = tools(&[good]);
    assert_eq!(report.findings, vec![Finding::info("tools.discoverability", "all 1 tools are well described")]);
    assert!(has_input("[]"));
    assert!(!has_input(" \n"));
}

#[test]
fn profiles_are_shown_in_both_forms() {
    let json = profiles_json();
    let rows = json.as_array().unwrap();
    assert_eq!(rows.len(), profiles::all().len());
    assert_eq!(rows[0].get_str("name"), Some(profiles::all()[0].0));
    let none = rows.iter().find(|r| r.get("cacheBreakpoints") == Some(&Json::natural(0))).unwrap();
    assert!(none.get("minCacheablePrefix").is_some());

    let table = profiles_table();
    let mut lines = table.lines();
    assert_eq!(
        lines.next(),
        Some("model                  min-prefix  breakpoints   search    cost")
    );
    let (name, caps) = &profiles::all()[0];
    let expected = format!(
        "{name:<22} {:>10} {:>12} {:>8} {:>7}",
        caps.cache.min_prefix_tokens().map_or_else(|| "-".to_owned(), |m| m.to_string()),
        caps.cache.breakpoint_budget(),
        if caps.tool_search.is_native() { "native" } else { "local" },
        if caps.reports_cost { "yes" } else { "est." },
    );
    assert_eq!(lines.next(), Some(expected.as_str()));
    assert!(table.ends_with("is an estimate.\n"));
}

#[test]
fn a_report_decides_how_the_command_ends() {
    let mut report = Report::default();
    report.findings.push(Finding::info("a.b", "fine"));
    assert_eq!(emit(&report, false), (Output::Text(" info  a.b  fine\n".into()), true));
    report.findings.push(Finding::error("c.d", "broken", "mend it"));
    let (output, healthy) = emit(&report, true);
    assert!(!healthy);
    assert_eq!(output, Output::Document(report.to_json()));
    assert_eq!(frey::commands::profiles(true), Output::Document(profiles_json()));
    assert_eq!(frey::commands::profiles(false), Output::Text(profiles_table()));
}
