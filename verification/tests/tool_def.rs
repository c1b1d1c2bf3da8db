use frey::capability::{Capability, PathScope};
use frey::json::Json;
use frey::tool_def::{CallerPolicy, CostHint, Discoverability, JsonSchema, ToolDefinition};


fn documented(kind: &str, description: &str) -> Json {
    Json::empty().with("type", Json::text(kind)).with("description", Json::text(description))
}

fn schema_with_docs() -> JsonSchema {
    JsonSchema::new(
        Json::empty()
            .with("type", Json::text("object"))
            .with(
                "properties",
                Json::empty()
                    .with("path", documented("string", "Path relative to the workspace root."))
                    .with("encoding", documented("string", "Text encoding, defaulting to utf-8.")),
            )
            .with("required", Json::array(vec![Json::text("path")])),
    )
    .unwrap()
}

#[test]
fn schemas_must_be_objects() {
    assert!(JsonSchema::new(Json::text("a string")).is_err());
    assert!(JsonSchema::new(Json::array(vec![Json::natural(1), Json::natural(2)])).is_err());
    assert!(JsonSchema::new(Json::empty()).is_ok());
}

#[test]
fn searchable_text_includes_argument_names_and_descriptions() {
    let def = ToolDefinition::new(
        "fs_read",
        "Read a file from the workspace and return its contents",
        schema_with_docs(),
    );
    let text = def.searchable_text();
    // Anthropic's tool search matches all four of these fields.
    assert!(text.contains("fs_read"), "name");
    assert!(text.contains("Read a file"), "description");
    assert!(text.contains("encoding"), "argument name");
    assert!(text.contains("utf-8"), "argument description");
}

#[test]
fn undocumented_parameters_are_reported_as_lost_search_surface() {
    let schema = JsonSchema::new(
        Json::empty().with("type", Json::text("object")).with(
            "properties",
            Json::empty()
                .with("path", documented("string", "Where to read from."))
                .with("mode", Json::empty().with("type", Json::text("string")))
                .with("limit", documented("integer", "")),
        ),
    )
    .unwrap();
    let mut undocumented = schema.undocumented_properties();
    undocumented.sort_unstable();
    assert_eq!(undocumented, ["limit", "mode"], "an empty description counts as missing");
}

#[test]
fn discoverability_flags_the_things_that_actually_hurt_retrieval() {
    let bad = ToolDefinition::new(
        "doit",
        "Does it",
        JsonSchema::new(Json::empty().with("type", Json::text("object")).with(
            "properties",
            Json::empty().with("x", Json::empty().with("type", Json::text("string"))),
        ))
        .unwrap(),
    );
    let report = bad.discoverability();
    assert!(!report.is_clean());
    assert!(report.problems.contains(&Discoverability::ThinDescription { words: 2 }));
    assert!(
        report
            .problems
            .contains(&Discoverability::UndocumentedParameters { names: vec!["x".into()] })
    );
    assert!(report.problems.contains(&Discoverability::NoNamespace));
}

#[test]
fn a_well_described_namespaced_tool_is_clean() {
    let good = ToolDefinition::new(
        "fs_read",
        "Read a file from the workspace and return its contents as text",
        schema_with_docs(),
    );
    assert!(good.discoverability().is_clean(), "{:?}", good.discoverability().problems);
    assert_eq!(good.namespace(), Some("fs".to_owned()));
}

#[test]
fn caller_policy_maps_to_allowed_callers() {
    assert!(CallerPolicy::Direct.allows_direct());
    assert!(!CallerPolicy::Direct.allows_code());
    assert!(CallerPolicy::CodeOnly.allows_code());
    assert!(!CallerPolicy::CodeOnly.allows_direct());
    assert!(CallerPolicy::Both.allows_direct() && CallerPolicy::Both.allows_code());
}

#[test]
fn approval_defaults_come_from_the_declaration_not_the_model() {
    let mut def =
        ToolDefinition::new("fs_read", "Read a file from the workspace", schema_with_docs());
    def.capabilities = vec![Capability::FsRead(PathScope::new(&["./"]).unwrap())];
    assert!(!def.needs_approval_by_default(), "reading is not gated by default");

    def.capabilities = vec![Capability::FsWrite(PathScope::new(&["./"]).unwrap())];
    assert!(def.needs_approval_by_default(), "writing is");

    let mut destructive =
        ToolDefinition::new("db_drop", "Drop a database table permanently", schema_with_docs());
    destructive.cost_hint = CostHint::Destructive;
    assert!(destructive.needs_approval_by_default(), "so is anything declared destructive");
}


#[test]
fn properties_are_named() {
    assert_eq!(schema_with_docs().property_names(), ["encoding", "path"]);
    assert!(JsonSchema::empty_object().property_names().is_empty());
}

#[test]
fn a_schema_that_is_no_object_says_what_it_is() {
    let err = JsonSchema::new(Json::array(Vec::new())).unwrap_err();
    assert!(err.to_string().contains("array"), "{}", err.to_string());
}
