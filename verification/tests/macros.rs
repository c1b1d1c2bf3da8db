use frey::macros::{doc_of, expand, parse_options, to_pascal, Attribute, Function, Param, Place, Written};

fn option(key: &str, value: &str) -> Written {
    Written::NameValue { key: Some(key.into()), value: Some(value.into()) }
}

fn list(key: &str, items: Result<Vec<Option<String>>, String>) -> Written {
    Written::List { key: Some(key.into()), items }
}

fn doc(text: &str) -> Attribute {
    Attribute { name: Some("doc".into()), value: Some(text.into()) }
}

fn plain(ident: &str, attrs: Vec<Attribute>) -> Param {
    Param::Plain { ident: ident.into(), attrs }
}

#[test]
fn snake_case_becomes_pascal_case() {
    assert_eq!(to_pascal("fs_read"), "FsRead");
    assert_eq!(to_pascal("get_weather_now"), "GetWeatherNow");
    assert_eq!(to_pascal("single"), "Single");
    assert_eq!(to_pascal("trailing_"), "Trailing");
}

#[test]
fn a_character_may_have_a_longer_upper_case() {
    assert_eq!(to_pascal("\u{df}a_\u{e9}"), "SSa\u{c9}");
    assert_eq!(to_pascal("__"), "");
}

#[test]
fn doc_comments_are_joined_and_trimmed() {
    let attrs = [doc(" First line."), doc(" Second line.")];
    assert_eq!(doc_of(&attrs).as_deref(), Some("First line. Second line."));
}

#[test]
fn an_absent_doc_comment_is_none_rather_than_an_empty_string() {
    let attrs = [Attribute { name: Some("inline".into()), value: None }];
    assert_eq!(doc_of(&attrs), None);
    assert_eq!(doc_of(&[doc("  ")]), None);
}

#[test]
fn a_missing_description_is_an_error_that_explains_why_it_matters() {
    let function =
        Function { ident: "undocumented".into(), attrs: Vec::new(), inputs: vec![plain("x", Vec::new())] };
    let err = expand(&[], &function).unwrap_err();
    let message = err.message;
    assert!(message.contains("description"), "{message}");
    assert!(message.contains("Tool search"), "the error must say why: {message}");
    assert_eq!(err.at, Place::Name);
}

#[test]
fn an_unknown_option_lists_the_valid_ones() {
    let err = parse_options(&[option("descriptoin", "typo")]).unwrap_err();
    assert!(err.message.contains("cost_hint"), "{}", err.message);
    assert_eq!(err.at, Place::Key(0));
}

#[test]
fn capabilities_are_collected_from_a_list() {
    let args = [
        list("capabilities", Ok(vec![Some("fs:read".into()), Some("net:egress".into())])),
        option("cost_hint", "destructive"),
    ];
    let options = parse_options(&args).unwrap();
    assert_eq!(options.capabilities, vec!["fs:read", "net:egress"]);
    assert_eq!(options.cost_hint.as_deref(), Some("destructive"));
}

#[test]
fn each_wrong_option_is_pointed_at() {
    let no_value = Written::NameValue { key: Some("caller".into()), value: None };
    let err = parse_options(&[option("caller", "both"), no_value]).unwrap_err();
    assert_eq!((err.at, err.message.as_str()), (Place::Value(1), "expected a string literal"));

    let gap = list("capabilities", Ok(vec![Some("fs:read".into()), None]));
    let err = parse_options(&[gap]).unwrap_err();
    assert_eq!((err.at, err.message.as_str()), (Place::Item(0, 1), "capabilities take string literals"));

    let err = parse_options(&[list("capabilities", Err("expected `,`".into()))]).unwrap_err();
    assert_eq!((err.at, err.message.as_str()), (Place::Whole(0), "expected `,`"));

    let neither = "expected `key = \"value\"` or `capabilities(\"..\")`";
    let err = parse_options(&[Written::Other]).unwrap_err();
    assert_eq!((err.at, err.message.as_str()), (Place::Whole(0), neither));

    let other = list("powers", Ok(vec![Some("fs:read".into())]));
    let err = parse_options(&[option("caller", "both"), other]).unwrap_err();
    assert_eq!((err.at, err.message.as_str()), (Place::Whole(1), neither));
}

#[test]
fn a_documented_function_is_expanded() {
    let function = Function {
        ident: "fs_read".into(),
        attrs: vec![doc(" Read a file.")],
        inputs: vec![plain("path", vec![doc(" Where.")]), plain("mode", Vec::new())],
    };
    let x = expand(&[option("caller", "both")], &function).unwrap();
    assert_eq!(x.args_struct, "FsReadArgs");
    assert_eq!(x.tool_struct, "FsReadTool");
    assert_eq!(x.tool_name, "fs_read");
    assert_eq!(x.description, "Read a file.");
    assert_eq!(x.fields[0].doc.as_deref(), Some("Where."));
    assert_eq!(x.fields[1].doc, None);
    assert_eq!((x.cost_hint.as_str(), x.caller.as_str(), x.presentation.as_str()), ("cheap", "both", "deferred"));
}

#[test]
fn only_plain_parameters_are_taken() {
    let with = |input: Param| Function {
        ident: "f".into(),
        attrs: vec![doc("d")],
        inputs: vec![plain("a", Vec::new()), input],
    };
    assert_eq!(expand(&[], &with(Param::Receiver)).unwrap_err().at, Place::Param(1));
    assert_eq!(expand(&[], &with(Param::Pattern)).unwrap_err().at, Place::Pattern(1));
}
