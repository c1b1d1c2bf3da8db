use frey::capability::{
    covers_lexically, Budget, Capability, Grant, GrantSet, HostError, HostPattern, PathScope, ProgramScope,
    RuleOfTwoViolation, ScopeError, SessionPowers, ToolSelector,
};
use frey::ids::ServerId;


fn scope(prefixes: &[&str]) -> PathScope {
    PathScope::new(prefixes).expect("valid scope")
}

#[test]
fn path_scopes_reject_upward_traversal_at_construction() {
    assert!(matches!(PathScope::new(&["../etc"]), Err(ScopeError::ParentTraversal(_))));
    assert!(matches!(PathScope::new(&["src/../../etc"]), Err(ScopeError::ParentTraversal(_))));
    assert!(matches!(PathScope::new(&[""]), Err(ScopeError::Empty)));
}

#[test]
fn path_scopes_match_whole_components() {
    let s = scope(&["./src"]);
    assert!(s.covers("src/main.rs"));
    assert!(s.covers("src"));
    assert!(
        !s.covers("srcret/secrets.txt"),
        "prefix matching must respect component boundaries"
    );
    assert!(!s.covers("other/src/main.rs"));
}

#[test]
fn path_scope_subset_is_a_partial_order() {
    let root = scope(&["/"]);
    let all = scope(&["./"]);
    let src = scope(&["./src"]);
    let deep = scope(&["./src/bin"]);

    assert!(src.is_subset_of(&src), "reflexive");
    assert!(deep.is_subset_of(&src));
    assert!(src.is_subset_of(&all));
    assert!(deep.is_subset_of(&all), "transitive");
    assert!(!src.is_subset_of(&deep), "antisymmetric for distinct scopes");
    assert!(all.is_subset_of(&root));
}

#[test]
fn egress_hosts_must_be_concrete() {
    assert!(matches!(HostPattern::new("*.github.com"), Err(HostError::Wildcard(_))));
    assert!(matches!(HostPattern::new("https://api.github.com"), Err(HostError::NotBare(_))));
    assert!(matches!(HostPattern::new("api.github.com:443"), Err(HostError::NotBare(_))));
    assert!(matches!(HostPattern::new("api.github.com/repos"), Err(HostError::NotBare(_))));
    assert_eq!(HostPattern::new("API.GitHub.com").unwrap().as_str(), "api.github.com");
}

#[test]
fn writing_implies_reading_the_same_scope() {
    let write_all = Capability::FsWrite(scope(&["./"]));
    let read_src = Capability::FsRead(scope(&["./src"]));
    assert!(read_src.is_covered_by(&write_all));

    let write_src = Capability::FsWrite(scope(&["./src"]));
    let read_all = Capability::FsRead(scope(&["./"]));
    assert!(!write_src.is_covered_by(&read_all), "reading does not imply writing");
}

#[test]
fn grants_are_denied_by_default() {
    let none = GrantSet::empty();
    assert!(!none.permits(&Capability::FsRead(scope(&["./"]))));
    assert!(!none.permits(&Capability::Exec(ProgramScope::new(&["git"]))));
}

#[test]
fn child_grants_must_narrow_never_widen() {
    let parent = GrantSet::new(vec![
        Grant::operator(Capability::FsRead(scope(&["./"]))),
        Grant::operator(Capability::Exec(ProgramScope::new(&["git", "cargo", "rg"]))),
    ]);

    let narrower = GrantSet::new(vec![
        Grant::operator(Capability::FsRead(scope(&["./src"]))),
        Grant::operator(Capability::Exec(ProgramScope::new(&["git"]))),
    ]);
    assert!(narrower.is_subset_of(&parent));

    let sideways =
        GrantSet::new(vec![Grant::operator(Capability::Exec(ProgramScope::new(&["curl"])))]);
    assert!(
        !sideways.is_subset_of(&parent),
        "a child cannot acquire a program the parent lacks"
    );

    let wider = GrantSet::new(vec![Grant::operator(Capability::FsWrite(scope(&["./"])))]);
    assert!(!wider.is_subset_of(&parent), "a child cannot upgrade read to write");
}

#[test]
fn subset_is_reflexive_and_transitive() {
    let a = GrantSet::new(vec![Grant::operator(Capability::FsRead(scope(&["./src/bin"])))]);
    let b = GrantSet::new(vec![Grant::operator(Capability::FsRead(scope(&["./src"])))]);
    let c = GrantSet::new(vec![Grant::operator(Capability::FsRead(scope(&["./"])))]);

    assert!(a.is_subset_of(&a));
    assert!(a.is_subset_of(&b));
    assert!(b.is_subset_of(&c));
    assert!(a.is_subset_of(&c), "transitive");
}

#[test]
fn spend_budgets_narrow_downward() {
    let parent = GrantSet::new(vec![Grant::operator(Capability::Spend(Budget::units(10)))]);
    let child = GrantSet::new(vec![Grant::operator(Capability::Spend(Budget::units(1)))]);
    let greedy = GrantSet::new(vec![Grant::operator(Capability::Spend(Budget::units(100)))]);
    assert!(child.is_subset_of(&parent));
    assert!(!greedy.is_subset_of(&parent));
}

#[test]
fn mcp_selectors_narrow_from_all_to_named() {
    let server = ServerId::new("github");
    let parent = GrantSet::new(vec![Grant::operator(Capability::Mcp {
        server: server.clone(),
        tools: ToolSelector::All,
    })]);
    let child = GrantSet::new(vec![Grant::operator(Capability::Mcp {
        server: server.clone(),
        tools: ToolSelector::Named { names: vec!["list_issues".into()] },
    })]);
    assert!(child.is_subset_of(&parent));
    assert!(!parent.is_subset_of(&child));

    let other_server = GrantSet::new(vec![Grant::operator(Capability::Mcp {
        server: ServerId::new("slack"),
        tools: ToolSelector::All,
    })]);
    assert!(!other_server.is_subset_of(&parent));
}

#[test]
fn rule_of_two_rejects_exactly_the_all_three_case() {
    let two_of_three = [
        SessionPowers {
            untrusted_input: true,
            confidential_access: true,
            mutating_egress: false,
        },
        SessionPowers {
            untrusted_input: true,
            confidential_access: false,
            mutating_egress: true,
        },
        SessionPowers {
            untrusted_input: false,
            confidential_access: true,
            mutating_egress: true,
        },
    ];
    for powers in two_of_three {
        assert!(powers.check().is_ok(), "two powers is permitted: {powers:?}");
    }

    let all_three = SessionPowers {
        untrusted_input: true,
        confidential_access: true,
        mutating_egress: true,
    };
    assert_eq!(all_three.check(), Err(RuleOfTwoViolation));
    assert_eq!(all_three.count(), 3);
}

#[test]
fn reading_a_fetched_page_is_what_trips_the_rule() {
    // A perfectly ordinary agent: reads the repo, can run git, can call an API.
    let grants = GrantSet::new(vec![
        Grant::operator(Capability::FsRead(scope(&["./"]))),
        Grant::operator(Capability::NetEgress(HostPattern::new("api.github.com").unwrap())),
    ]);
    let powers = SessionPowers::from_grants(&grants);
    assert!(powers.check().is_ok(), "safe until it reads something an attacker wrote");

    let after_fetch = powers.observed_untrusted_input();
    assert_eq!(after_fetch.check(), Err(RuleOfTwoViolation));
}

#[test]
fn prefixes_cover_whole_components_only() {
    assert!(covers_lexically("src", "src/bin"));
    assert!(covers_lexically("/", "anything"));
    assert!(!covers_lexically("src", "srcret"));
}

#[test]
fn refusals_say_why() {
    assert!(PathScope::new(&["../etc"]).unwrap_err().to_string().contains("../etc"));
    assert!(HostPattern::new("*.github.com").unwrap_err().to_string().contains("*.github.com"));
    assert!(!RuleOfTwoViolation.to_string().is_empty());
}
