use graph_node::json::JsonValue;

fn number(text: &str) -> JsonValue {
    JsonValue::Number(text.to_string())
}

#[test]
fn parses_every_kind_of_value() {
    let parsed = JsonValue::parse(b" {\"b\": [null, true, -1.5, \"x\\n\"], \"a\": {}} ").unwrap();
    let expected = JsonValue::Object(vec![
        ("a".to_string(), JsonValue::Object(vec![])),
        (
            "b".to_string(),
            JsonValue::Array(vec![
                JsonValue::Null,
                JsonValue::Bool(true),
                number("-1.5"),
                JsonValue::from("x\n"),
            ]),
        ),
    ]);
    assert_eq!(parsed, expected);
    assert_eq!(parsed.clone(), expected);
    assert_eq!(JsonValue::parse(b"5").unwrap(), number("5"));
}

#[test]
fn rejects_what_is_no_json() {
    assert!(JsonValue::parse(b"").is_err());
    assert!(JsonValue::parse(b"[1,]").is_err());
    assert!(JsonValue::parse(b"\xff").is_err());
}

#[test]
fn finds_members_by_name() {
    let object = JsonValue::parse(b"{\"a\": 1, \"b\": 2, \"a\": 3}").unwrap();
    assert_eq!(object.member("a"), Some(&number("3")));
    assert_eq!(object.member("b"), Some(&number("2")));
    assert_eq!(object.member("c"), None);
    assert_eq!(JsonValue::from("a").member("a"), None);

    let repeated = JsonValue::Object(vec![
        ("a".to_string(), number("1")),
        ("a".to_string(), number("2")),
    ]);
    assert_eq!(repeated.member("a"), Some(&number("2")));
    let members = repeated.to_members().unwrap();
    assert_eq!(members.pairs(), &vec![("a".to_string(), number("2"))]);
    assert!(JsonValue::Array(vec![]).to_members().is_none());
}

#[test]
fn different_values_are_not_equal() {
    assert_ne!(JsonValue::Null, JsonValue::Bool(false));
    assert_ne!(number("1"), JsonValue::from("1"));
    assert_ne!(
        JsonValue::Array(vec![JsonValue::Null]),
        JsonValue::Array(vec![JsonValue::Null, JsonValue::Null])
    );
    assert_ne!(
        JsonValue::Object(vec![("a".to_string(), JsonValue::Null)]),
        JsonValue::Object(vec![("b".to_string(), JsonValue::Null)])
    );
}
