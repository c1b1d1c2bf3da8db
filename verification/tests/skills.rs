use frey::skills::{ladder_cost, parse_skill, Skill, SkillError, RECOMMENDED_BODY_TOKENS};
use frey::taint::IntegrityLevel;


/// A realistically sized skill. A two-line fixture would make the ladder look pointless: the
/// claim is that the index stays small next to a body of the size the format actually
/// recommends, so the fixture has to be that size for the test to mean anything.
const SKILL: &str = r#"---
name: Release Checklist
description: Use when cutting a release, to run the pre-flight checks in the right order
---

# Release Checklist

Run these in order. Each step assumes the previous one passed; if one fails, stop and fix it
rather than continuing, because a half-finished release is harder to undo than a delayed one.

## 1. Verify the working tree

Confirm the branch is the release branch and the tree is clean. Uncommitted changes at this point
almost always mean something was fixed locally and never pushed, and it will be missing from the
artefact.

## 2. Run the full suite

Run every tier, not just the fast ones. The integration tier is the one that catches platform
differences, and it is exactly the tier people skip when they are in a hurry to release.

## 3. Check the changelog

Every user-visible change since the last tag needs an entry. Read the commit log rather than
trusting memory. Entries should say what changed for a user, not what changed in the code.

## 4. Verify the version

The version in the manifest, the changelog heading, and the tag must agree. A mismatch here is
discovered by users rather than by tooling.

## 5. Build the artefacts

Build for every supported target. Check that each one runs, not merely that it compiled.

## 6. Tag and push

Tag with the version, push the tag, and watch the release pipeline to completion. Do not walk away
before it finishes: a failed publish leaves a tag pointing at something that was never released.
"#;

fn parse(text: &str, granted: &[&str], trusted: bool) -> Result<Skill, SkillError> {
    let granted: Vec<String> = granted.iter().map(|g| (*g).to_owned()).collect();
    parse_skill("skills/release/SKILL.md", text, &granted, trusted)
}

#[test]
fn the_index_rung_costs_far_less_than_the_body() {
    // The entire point of the ladder. If this ratio ever inverts, progressive disclosure has
    // stopped paying for itself.
    let skill = parse(SKILL, &[], true).unwrap();
    assert!(
        skill.entry.index_tokens() * 2 < skill.entry.body_tokens,
        "index {} vs body {}",
        skill.entry.index_tokens(),
        skill.entry.body_tokens
    );
}

#[test]
fn the_description_is_what_a_selector_matches_on() {
    let skill = parse(SKILL, &[], true).unwrap();
    assert!(skill.entry.searchable_text().contains("cutting a release"));
    assert_eq!(skill.entry.id.as_str(), "release-checklist");
}

#[test]
fn a_skill_from_outside_a_trusted_root_is_someone_elses_text() {
    // Whatever it says about itself. Supply-chain attacks on skill registries are published
    // literature, so provenance is recorded and integrity is not raised.
    let skill = parse(SKILL, &[], false).unwrap();
    assert!(!skill.entry.trusted);

    let instructions = skill.instructions();
    assert_eq!(instructions.label().0, IntegrityLevel::Low);
    assert_eq!(instructions.provenance().origin.as_str(), "skill:release-checklist");
}

#[test]
fn a_skill_cannot_grant_itself_capabilities() {
    let greedy = SKILL.replace(
        "description: Use when",
        "capabilities: [\"exec\", \"net:egress\"]\ndescription: Use when",
    );

    let err = parse(&greedy, &[], true).unwrap_err();
    let message = err.to_string();
    assert!(message.contains("exec"), "{message}");
    assert!(message.contains("cannot grant them to itself"), "{message}");

    // Granted at install time, it loads.
    assert!(parse(&greedy, &["exec", "net:egress"], true).is_ok());
}

#[test]
fn ungranted_capabilities_are_refused_at_load_rather_than_prompted_for_mid_run() {
    // A mid-run prompt is exactly where an injected instruction would like to be answered.
    let greedy = SKILL
        .replace("description: Use when", "capabilities: [\"exec\"]\ndescription: Use when");
    assert!(matches!(parse(&greedy, &[], true), Err(SkillError::UngrantedCapabilities { .. })));
}

#[test]
fn missing_front_matter_says_what_is_needed() {
    let err = parse("# Just a heading\n", &[], true).unwrap_err();
    assert!(err.to_string().contains("name and a description"));
}

#[test]
fn a_missing_field_names_itself() {
    let no_description = "---\nname: Thing\n---\nbody";
    let err = parse(no_description, &[], true).unwrap_err();
    assert!(matches!(err, SkillError::MissingField { field: "description", .. }));
}

#[test]
fn an_oversized_body_is_reported_rather_than_refused() {
    // A skill that costs as much as the conversation defeats the ladder, but refusing to load it
    // would be worse than telling the author.
    let mut long = String::from("---\nname: Long\ndescription: A very long skill\n---\n");
    long.push_str(&"x".repeat((RECOMMENDED_BODY_TOKENS as usize + 100) * 4));
    let skill = parse(&long, &[], true).unwrap();
    assert!(skill.is_oversized());
    assert!(!parse(SKILL, &[], true).unwrap().is_oversized());
}

#[test]
fn the_index_stays_small_as_the_catalog_grows() {
    // Twenty skills must not cost twenty bodies at startup. This is the claim the whole
    // mechanism makes, so it gets a test rather than a paragraph.
    let skills: Vec<Skill> = (0..20).map(|_| parse(SKILL, &[], true).unwrap()).collect();
    let cost = ladder_cost(&skills);
    assert!(
        cost.index_tokens * 2 < cost.all_bodies_tokens,
        "index {} vs bodies {}",
        cost.index_tokens,
        cost.all_bodies_tokens
    );
}
