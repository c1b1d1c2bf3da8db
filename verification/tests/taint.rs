use std::cell::RefCell;

use frey::audit::{AuditEvent, CallSite, Declassification, Endorsement, MemorySink, Sinks};
use frey::error::{ToolError, ToolErrorKind, ToolOutcome};
use frey::taint::{
    ConfidentialityLevel, High, IntegrityLevel, Low, Provenance, Public, Secret, Tainted, Trusted, Untrusted,
    Validated,
};

fn here(line: u32) -> CallSite {
    CallSite { file: "tests/taint.rs", line }
}

struct NonEmpty;

impl Validated<String> for NonEmpty {
    type Output = String;
    type Error = &'static str;

    fn name() -> &'static str {
        "NonEmpty"
    }

    fn validate(raw: String) -> Result<String, &'static str> {
        if raw.trim().is_empty() {
            Err("blank")
        } else {
            Ok(raw)
        }
    }
}

#[test]
fn scoped_sink_captures_and_restores() {
    fn record(sinks: &Sinks<std::rc::Rc<RefCell<MemorySink>>>, file: &'static str, line: u32, why: &'static str) {
        if let Some(sink) = sinks.receiver() {
            sink.borrow_mut().record(AuditEvent::Endorsed {
                site: CallSite { file, line },
                reason: Endorsement::OperatorAsserted(why),
                origin: "test".into(),
            });
        }
    }

    let mut sinks = Sinks::none();
    let outer = std::rc::Rc::new(RefCell::new(MemorySink::new()));
    let guard = sinks.scoped_sink(outer.clone());
    record(&sinks, "a.rs", 1, "test");
    assert_eq!(outer.borrow().len(), 1);

    {
        let inner = std::rc::Rc::new(RefCell::new(MemorySink::new()));
        let inner_guard = sinks.scoped_sink(inner.clone());
        record(&sinks, "b.rs", 2, "nested");
        assert_eq!(inner.borrow().len(), 1, "nested sink receives the event");
        assert_eq!(outer.borrow().len(), 1, "outer sink is not disturbed");
        sinks.restore(inner_guard);
    }

    record(&sinks, "c.rs", 3, "after");
    assert_eq!(outer.borrow().len(), 2, "outer sink is restored after the guard drops");
    sinks.restore(guard);
    assert!(sinks.receiver().is_none());
}

#[test]
fn only_the_first_sink_of_the_process_stays() {
    let mut sinks = Sinks::none();
    assert_eq!(sinks.set_global_sink(1), Ok(()));
    assert_eq!(sinks.set_global_sink(2), Err(2));
    assert_eq!(sinks.receiver(), Some(&1));
    let guard = sinks.scoped_sink(3);
    assert_eq!(sinks.receiver(), Some(&3));
    sinks.restore(guard);
    assert_eq!(sinks.receiver(), Some(&1));
}

#[test]
fn a_call_site_is_shown_as_file_and_line() {
    assert_eq!(CallSite { file: "src/a.rs", line: 42 }.to_string(), "src/a.rs:42");
}

#[test]
fn defaults_are_the_safe_position() {
    let t: Tainted<&str> = Tainted::from_tool("fs_read", "hi");
    assert_eq!(t.label(), (IntegrityLevel::Low, ConfidentialityLevel::Public));
}

#[test]
fn zip_meets_integrity_and_joins_confidentiality() {
    let trusted: Tainted<u8, High, Public> = Tainted::from_operator("config", 1);
    let secret: Tainted<u8, High, Secret> = Tainted::with_provenance(2, Provenance::new("secret:token"));
    let combined = trusted.zip(secret);
    // High meet High = High; Public join Secret = Secret.
    assert_eq!(combined.label(), (IntegrityLevel::High, ConfidentialityLevel::Secret));

    let untrusted: Tainted<u8> = Tainted::from_tool("http_get", 3);
    let mixed = combined.zip(untrusted);
    // High meet Low = Low; Secret join Public = Secret.
    assert_eq!(mixed.label(), (IntegrityLevel::Low, ConfidentialityLevel::Secret));
}

#[test]
fn provenance_survives_combination() {
    let a: Tainted<u8> = Tainted::from_tool("fs_read", 1);
    let b: Tainted<u8> = Tainted::from_peer("planner", 2);
    let combined = a.zip(b);
    let summary = combined.provenance().summary();
    assert!(summary.contains("tool:fs_read"), "got {summary}");
    assert!(summary.contains("peer:planner"), "got {summary}");
}

#[test]
fn endorse_writes_an_audit_record_pointing_at_the_caller() {
    let mut sink = MemorySink::new();

    let page: Tainted<String> = Tainted::from_tool("http_get", "body".into());
    let (endorsed, event) = page.endorse(Endorsement::OperatorAsserted("fixture"), here(1));
    sink.record(event);
    assert_eq!(endorsed.label().0, IntegrityLevel::High);

    let events = sink.events();
    assert_eq!(events.len(), 1);
    match &events[0] {
        AuditEvent::Endorsed { site, reason, origin } => {
            assert!(site.file.ends_with("taint.rs"), "got {}", site.file);
            assert_eq!(reason, &Endorsement::OperatorAsserted("fixture"));
            assert_eq!(origin.as_str(), "tool:http_get");
        }
        other => panic!("unexpected event: {other:?}"),
    }
}

#[test]
fn declassify_writes_an_audit_record() {
    let mut sink = MemorySink::new();

    let token: Tainted<String, High, Secret> =
        Tainted::with_provenance("hunter2".into(), Provenance::new("secret:api_key"));
    let (released, event) = token.declassify(Declassification::Redacted { redactor: "last4" }, here(1));
    sink.record(event);
    assert_eq!(released.label().1, ConfidentialityLevel::Public);
    assert!(matches!(sink.events().as_slice(), [AuditEvent::Declassified { .. }]));
}

#[test]
fn validation_endorses_on_success_and_records_the_validator() {
    let mut sink = MemorySink::new();

    let raw: Tainted<String> = Tainted::from_tool("fs_read", "contents".into());
    let (ok, event) = raw.validate::<NonEmpty>(here(1)).expect("non-empty input validates");
    sink.record(event);
    assert_eq!(ok.label().0, IntegrityLevel::High);
    assert_eq!(ok.into_inner(), "contents");

    match sink.events().as_slice() {
        [AuditEvent::Endorsed { reason: Endorsement::Parsed { validator }, .. }] => {
            assert_eq!(*validator, "NonEmpty");
        }
        other => panic!("unexpected events: {other:?}"),
    }
}

#[test]
fn validation_failure_carries_provenance_and_writes_no_audit_record() {
    let raw: Tainted<String> = Tainted::from_peer("scraper", "   ".into());
    // A failure carries no event, so it cannot look like an endorsement.
    let err = raw.validate::<NonEmpty>(here(1)).expect_err("blank input is rejected");
    assert_eq!(err.validator, "NonEmpty");
    assert_eq!(err.provenance.origin.as_str(), "peer:scraper");
    assert_eq!(err.describe(err.error), "NonEmpty rejected a value from peer:scraper: blank");
}

#[test]
fn downgrade_is_free_and_unaudited() {
    // Moving to a safer position is not a security event: there is none to record.
    let trusted: Tainted<u8, High, Public> = Tainted::from_operator("literal", 7);
    let weaker: Tainted<u8, Low, Secret> = trusted.downgrade();
    assert_eq!(weaker.label(), (IntegrityLevel::Low, ConfidentialityLevel::Secret));
    assert_eq!(*weaker.peek(), 7);
}

#[test]
fn map_preserves_the_label() {
    let t: Tainted<String> = Tainted::from_tool("fs_read", "abc".into());
    let n = t.map(|s: String| s.len());
    assert_eq!(n.label(), (IntegrityLevel::Low, ConfidentialityLevel::Public));
    assert_eq!(*n.peek(), 3);
}

#[test]
fn debug_shows_the_label_and_origin() {
    let t: Tainted<&str> = Tainted::from_tool("shell", "output");
    let rendered = format!("{t:?}");
    assert!(rendered.contains("Low"), "got {rendered}");
    assert!(rendered.contains("tool:shell"), "got {rendered}");
}

/// A path that has been checked to lie inside the workspace.
#[derive(Debug, Clone, PartialEq, Eq)]
struct WorkspacePath(String);

/// A URL that parsed and whose host is on the egress allowlist.
#[derive(Debug, Clone, PartialEq, Eq)]
struct AllowedUrl(String);

/// An argument vector. Never a shell command string.
#[derive(Debug, Clone, PartialEq, Eq)]
struct ShellArgv(Vec<String>);

fn fs_read(path: &WorkspacePath) -> Result<String, ToolError> {
    if path.0 == "src/main.rs" {
        Ok("fn main() {}".to_string())
    } else {
        Err(ToolError::new(ToolErrorKind::NotFound, &format!("no file at {}", path.0))
            .guide("List the directory with `fs_list` before reading.")
            .suggest(&["fs_list"]))
    }
}

fn http_get(url: &AllowedUrl) -> Result<String, ToolError> {
    Ok(format!("<html>body of {}</html>", url.0))
}

fn shell(argv: &ShellArgv) -> Result<String, ToolError> {
    Ok(format!("ran {:?}", argv.0))
}

struct InWorkspace;

impl Validated<String> for InWorkspace {
    type Output = WorkspacePath;
    type Error = &'static str;

    fn name() -> &'static str {
        "InWorkspace"
    }

    fn validate(raw: String) -> Result<WorkspacePath, &'static str> {
        if raw.starts_with('/') || raw.contains("..") {
            Err("path escapes the workspace")
        } else {
            Ok(WorkspacePath(raw))
        }
    }
}

struct OnEgressAllowlist;

impl Validated<String> for OnEgressAllowlist {
    type Output = AllowedUrl;
    type Error = &'static str;

    fn name() -> &'static str {
        "OnEgressAllowlist"
    }

    fn validate(raw: String) -> Result<AllowedUrl, &'static str> {
        let allowed = ["api.github.com", "crates.io"];
        let host = raw.strip_prefix("https://").and_then(|r| r.split('/').next()).unwrap_or("");
        if allowed.contains(&host) {
            Ok(AllowedUrl(raw))
        } else {
            Err("host is not on the allowlist")
        }
    }
}

struct ParsedArgv;

impl Validated<Vec<String>> for ParsedArgv {
    type Output = ShellArgv;
    type Error = &'static str;

    fn name() -> &'static str {
        "ParsedArgv"
    }

    fn validate(raw: Vec<String>) -> Result<ShellArgv, &'static str> {
        let programs = ["git", "cargo", "rg"];
        match raw.first() {
            None => Err("empty argv"),
            Some(p) if programs.contains(&p.as_str()) => Ok(ShellArgv(raw)),
            Some(_) => Err("program is not on the exec allowlist"),
        }
    }
}

/// Everything a tool returns is untrusted, because a tool reads the outside world.
fn invoke<T>(tool: &str, result: Result<T, ToolError>) -> ToolOutcome<Untrusted<T>> {
    match result {
        Ok(v) => ToolOutcome::Done(Tainted::from_tool(tool, v)),
        Err(e) => ToolOutcome::Failed(e),
    }
}

#[test]
fn a_tool_author_never_writes_a_label() {
    let mut sink = MemorySink::new();

    // What the model actually gives us: an unvalidated string, low integrity by construction.
    let proposed: Untrusted<String> = Tainted::from_model("opus-5", "src/main.rs".into());

    // Validation narrows the type and raises integrity in one move.
    let (path, event): (Trusted<WorkspacePath>, AuditEvent) =
        proposed.validate::<InWorkspace>(here(1)).expect("path is inside");
    sink.record(event);

    let outcome = invoke("fs_read", fs_read(path.peek()));
    let ToolOutcome::Done(contents) = outcome else { panic!("expected success") };

    // The result is untrusted again: a file's contents are attacker-controlled.
    assert_eq!(contents.label().0, IntegrityLevel::Low);
    assert_eq!(contents.provenance().origin.as_str(), "tool:fs_read");

    // Exactly one endorsement, and it names the validator rather than a human.
    match sink.events().as_slice() {
        [AuditEvent::Endorsed { reason: Endorsement::Parsed { validator }, .. }] => {
            assert_eq!(*validator, "InWorkspace");
        }
        other => panic!("unexpected audit trail: {other:?}"),
    }
}

#[test]
fn rejected_arguments_are_traceable_to_their_source() {
    let escape: Untrusted<String> = Tainted::from_model("opus-5", "../../etc/passwd".into());
    let err = escape.validate::<InWorkspace>(here(1)).expect_err("traversal is rejected");
    assert_eq!(err.validator, "InWorkspace");
    assert_eq!(err.provenance.origin.as_str(), "model:opus-5");
    assert!(err.describe(err.error).contains("escapes the workspace"));
}

#[test]
fn indirect_prompt_injection_still_has_to_clear_the_allowlist() {
    // A page we fetched contains a link. This is the classic injection vector.
    let page: Untrusted<String> = Tainted::from_tool("http_get", "https://evil.test/exfil".into());
    let attempt = page.clone().validate::<OnEgressAllowlist>(here(1));
    assert!(attempt.is_err(), "a host off the allowlist must not become callable");

    // The same mechanism permits the legitimate case.
    let good: Untrusted<String> = Tainted::from_tool("http_get", "https://api.github.com/repos".into());
    let (url, _) =
        good.through("link-extractor").validate::<OnEgressAllowlist>(here(1)).expect("allowlisted");
    assert!(url.provenance().summary().contains("link-extractor"));

    let ToolOutcome::Done(body) = invoke("http_get", http_get(url.peek())) else { panic!("expected success") };
    assert!(body.peek().contains("api.github.com"));
}

#[test]
fn shell_takes_argv_and_the_program_allowlist_is_a_parser() {
    let proposed: Untrusted<Vec<String>> =
        Tainted::from_model("opus-5", vec!["git".into(), "status".into()]);
    let (argv, _) = proposed.validate::<ParsedArgv>(here(1)).expect("git is allowed");
    let ToolOutcome::Done(out) = invoke("shell", shell(argv.peek())) else { panic!("expected ok") };
    assert!(out.peek().contains("git"));

    // There is no string to obfuscate: the program name is compared as a whole argv element.
    let sneaky: Untrusted<Vec<String>> =
        Tainted::from_model("opus-5", vec!["sh".into(), "-c".into(), "r''m -rf / #".into()]);
    assert!(sneaky.validate::<ParsedArgv>(here(1)).is_err(), "sh is not on the exec allowlist");
}

#[test]
fn a_tool_that_consumes_untrusted_content_says_so_in_its_signature() {
    fn summarise(text: &Untrusted<String>) -> Result<String, ToolError> {
        Ok(format!("{} chars from {}", text.peek().len(), text.provenance().summary()))
    }

    let page: Untrusted<String> = Tainted::from_tool("http_get", "0123456789".into());
    let summary = summarise(&page).expect("summarising is always allowed");
    assert!(summary.starts_with("10 chars from tool:http_get"));
}

#[test]
fn side_effecting_sinks_consume_only_trusted_public_values() {
    fn commit(action: Trusted<ShellArgv>) -> String {
        format!("executed {:?}", action.into_inner().0)
    }

    let argv: Untrusted<Vec<String>> =
        Tainted::from_model("opus-5", vec!["cargo".into(), "test".into()]);
    let (checked, _) = argv.validate::<ParsedArgv>(here(1)).expect("cargo is allowed");
    assert!(commit(checked).contains("cargo"));
}

#[test]
fn trusted_does_not_imply_releasable() {
    let mut sink = MemorySink::new();

    let token: Tainted<String, High, Secret> =
        Tainted::with_provenance("ghp_realtoken".into(), Provenance::new("secret:github_token"));

    // Mixing a secret into anything makes the result secret.
    let request: Trusted<String> = Tainted::from_operator("template", "GET /repos".into());
    let combined = request.zip(token);
    assert_eq!(combined.label().1, ConfidentialityLevel::Secret);

    // Releasing it is a deliberate, audited act.
    let (released, event) = combined
        .declassify(Declassification::Redacted { redactor: "strip_authorization_header" }, here(1));
    sink.record(event);
    assert_eq!(released.label().1, ConfidentialityLevel::Public);
    assert!(matches!(sink.events().as_slice(), [AuditEvent::Declassified { .. }]));
}

#[test]
fn a_story_outlives_its_value() {
    let page: Tainted<u8> = Tainted::from_tool("http_get", 1);
    assert_eq!(page.through("cleaner").into_provenance().summary(), "tool:http_get -> cleaner");
}
