use frey::capability::{HostPattern, PathScope, ProgramScope};
use frey::sandbox::{
    control_list, Availability, BackendId, Control, Degradation, EgressAttempt, EnforcedSet, ExecSpec, FsEffect,
    Limits, SandboxError, SandboxPolicy, SandboxReport,
};


fn policy() -> SandboxPolicy {
    SandboxPolicy {
        fs_read: PathScope::new(&["./"]).unwrap(),
        fs_write: PathScope::new(&["./out"]).unwrap(),
        egress: vec![HostPattern::new("api.github.com").unwrap()],
        programs: ProgramScope::new(&["git"]),
        limits: Limits::default(),
        copy_on_write: true,
    }
}

#[test]
fn an_empty_policy_grants_nothing() {
    let p = SandboxPolicy::default();
    assert!(p.fs_read.is_empty());
    assert!(p.fs_write.is_empty());
    assert!(p.egress.is_empty());
    assert!(p.programs.programs().is_empty());
}

#[test]
fn required_controls_follow_from_the_policy() {
    let required = policy().required_controls();
    assert!(required.contains(&Control::ProgramAllowlist), "exec was requested");
    assert!(required.contains(&Control::CopyOnWrite), "copy-on-write was requested");

    let no_exec = SandboxPolicy { programs: ProgramScope::default(), ..policy() };
    assert!(!no_exec.required_controls().contains(&Control::ProgramAllowlist));
}

#[test]
fn a_backend_that_cannot_enforce_the_policy_names_exactly_what_is_missing() {
    // What a Linux host without Landlock looks like: rlimits work, filesystem scoping does not.
    let enforced = EnforcedSet::new(&[
        Control::MemoryLimit,
        Control::WallClockLimit,
        Control::ProcessLimit,
    ]);
    let missing = enforced.missing_from(&policy().required_controls());

    assert!(missing.contains(&Control::FilesystemRead));
    assert!(missing.contains(&Control::NetworkEgress));

    let err = SandboxError::CannotEnforce {
        missing,
        detail: "landlock unavailable: kernel 5.14, ABI 0".into(),
    };
    let rendered = err.to_string();
    assert!(rendered.contains("FilesystemRead"), "the operator must learn what is missing");
    assert!(rendered.contains("refusing to run unconfined"));
    assert!(rendered.contains("allow_degraded_sandbox"), "and how to proceed deliberately");
}

#[test]
fn a_report_distinguishes_what_was_enforced_from_what_was_asked() {
    let report = SandboxReport {
        backend: BackendId::LinuxNamespaces,
        enforced: EnforcedSet::new(&[Control::FilesystemRead, Control::MemoryLimit]),
        degraded: vec![Degradation {
            control: Control::NetworkEgress,
            reason: "no Landlock TCP scoping below ABI 4".into(),
        }],
        fs_effects: vec![FsEffect::Created { path: "out/a.txt".into(), bytes: 12 }],
        egress_attempts: vec![
            EgressAttempt { host: "api.github.com".into(), allowed: true },
            EgressAttempt { host: "evil.test".into(), allowed: false },
        ],
        limits_hit: Vec::new(),
        exit_code: Some(0),
        output_bytes_elided: 0,
    };

    assert!(!report.is_fully_enforced(), "a degraded run must never look like a clean one");
    assert_eq!(report.denied_hosts(), ["evil.test"]);
}

#[test]
fn exec_specs_carry_argv_not_a_command_string() {
    let spec = ExecSpec::new(&["git", "status", "--porcelain"], "./");
    assert_eq!(spec.program(), Some("git"));
    assert!(spec.env.is_empty(), "the environment starts empty, not inherited");

    // The obfuscations that defeat regex denylists have nothing to work on: the program is
    // compared as a whole argv element.
    let sneaky = ExecSpec::new(&["sh", "-c", "r''m -rf /"], "./");
    assert_eq!(sneaky.program(), Some("sh"));
    assert!(!ProgramScope::new(&["git", "cargo"]).covers(sneaky.program().unwrap()));
}


#[test]
fn an_unusable_backend_enforces_nothing() {
    let none = Availability::unusable("stub");
    assert!(!none.usable);
    assert!(none.controls.controls().is_empty());
    assert_eq!(none.detail, "stub");
}

#[test]
fn controls_are_listed_by_name() {
    assert_eq!(control_list(&[Control::CpuLimit, Control::CopyOnWrite]), "[CpuLimit, CopyOnWrite]");
}
