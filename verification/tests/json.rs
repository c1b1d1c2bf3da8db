use frey::json::{Json, Number};

#[test]
fn values_are_written_compactly_in_the_order_of_their_names() {
    let value = Json::empty()
        .with("b", Json::array(vec![Json::Null, Json::flag(true), Json::integer(-1)]))
        .with("a", Json::text("x\"y\\z\n\u{1}\u{e9}"))
        .with("c", Json::Number(Number::Float("1.5".into())));
    assert_eq!(value.to_string(), "{\"a\":\"x\\\"y\\\\z\\n\\u0001\u{e9}\",\"b\":[null,true,-1],\"c\":1.5}");
}

#[test]
fn every_escape_is_the_documented_one() {
    assert_eq!(
        Json::text("\u{8}\t\n\u{c}\r\u{1f}\u{7f}/").to_string(),
        "\"\\b\\t\\n\\f\\r\\u001f\u{7f}/\""
    );
}

#[test]
fn what_is_written_is_read_back_by_a_parser() {
    let value = Json::empty().with("k", Json::text("a\u{2028}\u{1F600}\\")).with("n", Json::natural(u64::MAX));
    let read: serde_json::Value = serde_json::from_str(&value.to_string()).unwrap();
    assert_eq!(read["k"], "a\u{2028}\u{1F600}\\");
    assert_eq!(read["n"], u64::MAX);
    assert_eq!(value.to_string(), read.to_string());
}

#[test]
fn a_field_is_set_once() {
    let value = Json::empty().with("a", Json::natural(1)).with("a", Json::natural(2));
    assert_eq!(value.as_object().unwrap().len(), 1);
    assert_eq!(value.get("a"), Some(&Json::natural(2)));
    assert_eq!(value.get("b"), None);
    assert_eq!(Json::integer(7), Json::natural(7));
}

#[test]
fn values_are_shown_for_debugging_as_a_parser_shows_them() {
    let text = "{\"a\":[1,-2,null,\"q\\\"\"],\"b\":{\"c\":false}}";
    let read: serde_json::Value = serde_json::from_str(text).unwrap();
    let value = Json::empty()
        .with(
            "a",
            Json::array(vec![Json::natural(1), Json::integer(-2), Json::Null, Json::text("q\"")]),
        )
        .with("b", Json::empty().with("c", Json::flag(false)));
    assert_eq!(value.to_string(), text);
    assert_eq!(value.debug_text(), format!("{read:?}"));
}
