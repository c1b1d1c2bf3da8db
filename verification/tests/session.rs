use frey::capability::{Authority, Capability, Grant, GrantSet, HostPattern, PathScope};
use frey::error::Risk;
use frey::ids::SessionId;
use frey::journal::Effect;
use frey::session::{validate, ApprovalPolicy, Session, Surface};


fn grants() -> GrantSet {
    GrantSet::new(vec![Grant::operator(Capability::FsRead(PathScope::new(&["./"]).unwrap()))])
}

#[test]
fn a_headless_surface_with_interactive_approvals_fails_before_it_runs() {
    // Otherwise it stops at the first gated action and waits for a human who is not there —
    // discovered at three in the morning rather than at build time.
    let err =
        validate(Surface::Headless, ApprovalPolicy::Interactive { at_or_above: Risk::Medium })
            .unwrap_err();
    assert!(err.to_string().contains("who is not there"));
    assert!(err.to_string().contains("deny_all"), "and it names the alternatives");
}

#[test]
fn a_headless_surface_with_a_non_interactive_policy_is_fine() {
    assert!(validate(Surface::Headless, ApprovalPolicy::AutoAllow).is_ok());
    assert!(validate(Surface::Headless, ApprovalPolicy::DenyAll).is_ok());
    assert!(validate(Surface::A2a, ApprovalPolicy::DenyAll).is_ok());
}

#[test]
fn an_interactive_surface_may_ask() {
    assert!(
        validate(Surface::Cli, ApprovalPolicy::Interactive { at_or_above: Risk::Medium })
            .is_ok()
    );
    assert!(
        validate(Surface::AgUi, ApprovalPolicy::Interactive { at_or_above: Risk::High })
            .is_ok()
    );
}

#[test]
fn a_fork_shares_the_recorded_prefix_rather_than_replaying_the_provider() {
    let mut original = Session::new(SessionId::new("s1"), grants());
    original.journal.record(Effect::ToolResult {
        tool: "fs_read".into(),
        content: "contents".into(),
        is_error: false,
    });

    let branch = original.fork(SessionId::new("s1-alt"));
    assert_eq!(branch.replayable_steps(), 1, "the shared prefix comes along");
    assert_eq!(branch.id, SessionId::new("s1-alt"));
}

#[test]
fn a_fork_remembers_who_authorised_what() {
    let given = GrantSet::new(vec![Grant {
        capability: Capability::FsRead(PathScope::new(&["./src"]).unwrap()),
        authority: Authority::HumanApproval { id: "a-1".into() },
    }]);
    let session = Session::new(SessionId::new("s1"), given);
    assert_eq!(session.fork(SessionId::new("s2")).grants, session.grants);
}

#[test]
fn powers_survive_a_fork_and_a_restart() {
    // A branch of a session that has seen untrusted input has still seen it, and so has the
    // same session tomorrow. Forgetting would silently restore powers the Rule of Two removed.
    let mut session = Session::new(SessionId::new("s1"), grants());
    assert!(!session.powers.untrusted_input);

    session.observed_untrusted_input();
    assert!(session.fork(SessionId::new("s2")).powers.untrusted_input);
}

#[test]
fn powers_are_derived_from_grants_at_creation() {
    let reaching = GrantSet::new(vec![
        Grant::operator(Capability::FsRead(PathScope::new(&["./"]).unwrap())),
        Grant::operator(Capability::NetEgress(HostPattern::new("api.test").unwrap())),
    ]);
    let session = Session::new(SessionId::new("s1"), reaching);
    assert!(session.powers.confidential_access);
    assert!(session.powers.mutating_egress);
    assert!(session.powers.check().is_ok(), "two powers is permitted");

    // And the third trips it.
    let mut tainted = session;
    tainted.observed_untrusted_input();
    assert!(tainted.powers.check().is_err());
}

#[test]
fn the_journal_is_the_session_rather_than_a_copy_of_it() {
    let session = Session::new(SessionId::new("s1"), grants());
    assert_eq!(session.replayable_steps(), 0);
    assert_eq!(session.journal.run.as_str(), "s1-run");
}
