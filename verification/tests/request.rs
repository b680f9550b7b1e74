use graph_node::graphql::is_parseable;
use graph_node::json::JsonValue;
use graph_node::query::{
    GraphQLServerError, Query, QueryError, QueryVariableValue, QueryVariables, Schema,
};
use graph_node::request::{complete, query_text, query_variables, GraphQLRequest};

const EXAMPLE_SCHEMA: &'static str = "type Query { users: [User!] }";

fn example_schema() -> Schema {
    Schema {
        name: "test".to_string(),
        id: "test".to_string(),
        document: graphql_parser::parse_schema(EXAMPLE_SCHEMA).unwrap(),
    }
}

fn decode(body: &'static str) -> Result<Query, GraphQLServerError> {
    GraphQLRequest::new(hyper::Chunk::from(body), example_schema()).poll()
}

fn client_message(body: &'static str) -> String {
    match decode(body) {
        Err(GraphQLServerError::ClientError(message)) => message,
        other => panic!("expected a client error, got {:?}", other),
    }
}

#[test]
fn rejects_invalid_json() {
    let mut request = GraphQLRequest::new(hyper::Chunk::from("!@#)%"), example_schema());
    request.poll().expect_err("Should reject invalid JSON");
}

#[test]
fn rejects_json_without_query_field() {
    let mut request = GraphQLRequest::new(hyper::Chunk::from("{}"), example_schema());
    request
        .poll()
        .expect_err("Should reject JSON without query field");
}

#[test]
fn rejects_json_with_non_string_query_field() {
    let mut request = GraphQLRequest::new(hyper::Chunk::from("{\"query\": 5}"), example_schema());
    request
        .poll()
        .expect_err("Should reject JSON with a non-string query field");
}

#[test]
fn rejects_broken_queries() {
    let mut request =
        GraphQLRequest::new(hyper::Chunk::from("{\"query\": \"foo\"}"), example_schema());
    request.poll().expect_err("Should reject broken queries");
}

#[test]
fn accepts_valid_queries() {
    let mut request = GraphQLRequest::new(
        hyper::Chunk::from("{\"query\": \"{ user { name } }\"}"),
        example_schema(),
    );
    let query = request.poll().expect("Should accept valid queries");
    assert_eq!(
        query.document,
        graphql_parser::parse_query("{ user { name } }").unwrap()
    );
}

#[test]
fn accepts_null_variables() {
    let mut request = GraphQLRequest::new(
        hyper::Chunk::from(
            "\
             {\
             \"query\": \"{ user { name } }\", \
             \"variables\": null \
             }",
        ),
        example_schema(),
    );
    let query = request.poll().expect("Should accept null variables");

    let expected_query = graphql_parser::parse_query("{ user { name } }").unwrap();
    assert_eq!(query.document, expected_query);
    assert_eq!(query.variables, None);
}

#[test]
fn rejects_non_map_variables() {
    let mut request = GraphQLRequest::new(
        hyper::Chunk::from(
            "\
             {\
             \"query\": \"{ user { name } }\", \
             \"variables\": 5 \
             }",
        ),
        example_schema(),
    );
    request.poll().expect_err("Should reject non-map variables");
}

#[test]
fn parses_variables() {
    let mut request = GraphQLRequest::new(
        hyper::Chunk::from(
            "\
             {\
             \"query\": \"{ user { name } }\", \
             \"variables\": { \"foo\": \"bar\" } \
             }",
        ),
        example_schema(),
    );
    let query = request.poll().expect("Should accept valid queries");

    let expected_query = graphql_parser::parse_query("{ user { name } }").unwrap();
    let mut expected_variables = QueryVariables::new();
    expected_variables.insert("foo".to_string(), QueryVariableValue::from("bar"));

    assert_eq!(query.document, expected_query);
    assert_eq!(query.variables, Some(expected_variables));
}

#[test]
fn tells_the_client_what_is_wrong() {
    assert_eq!(client_message("[]"), "Request data is not an object");
    assert_eq!(client_message("\"query\""), "Request data is not an object");
    assert_eq!(
        client_message("{\"variables\": {}}"),
        "The \"query\" field missing in request data"
    );
    assert_eq!(
        client_message("{\"query\": null}"),
        "The\"query\" field is not a string"
    );
    assert_eq!(
        client_message("{\"query\": \"{ a }\", \"variables\": [1]}"),
        "Invalid query variables provided"
    );
}

#[test]
fn passes_the_message_of_the_json_parser_on() {
    let expected = serde_json::from_slice::<serde_json::Value>(b"{\"query\"")
        .unwrap_err()
        .to_string();
    assert_eq!(client_message("{\"query\""), expected);
}

#[test]
fn reports_broken_queries_before_broken_variables() {
    match decode("{\"query\": \"foo\", \"variables\": 5}") {
        Err(GraphQLServerError::QueryError(QueryError::ParseError(error))) => {
            let expected = graphql_parser::parse_query("foo").unwrap_err();
            assert_eq!(error.to_string(), expected.to_string());
        }
        other => panic!("expected a query error, got {:?}", other),
    }
}

#[test]
fn ignores_other_fields_and_keeps_the_schema() {
    let query = decode("{\"operationName\": 7, \"query\": \"{ a }\", \"extensions\": {}}").unwrap();
    assert_eq!(query.document, graphql_parser::parse_query("{ a }").unwrap());
    assert_eq!(query.variables, None);
    assert_eq!(query.schema, example_schema());
}

#[test]
fn the_last_field_of_a_name_counts() {
    let query = decode("{\"query\": 5, \"query\": \"{ a }\"}").unwrap();
    assert_eq!(query.document, graphql_parser::parse_query("{ a }").unwrap());
}

#[test]
fn can_be_decoded_twice() {
    let mut request =
        GraphQLRequest::new(hyper::Chunk::from("{\"query\": \"{ a }\"}"), example_schema());
    let first = request.poll().unwrap();
    let second = request.poll().unwrap();
    assert_eq!(first.document, second.document);
    assert_eq!(first.schema, second.schema);
}

#[test]
fn does_not_hand_on_what_the_query_parser_cannot_get_through() {
    let text = "{ a(b: \"\"\"\n x\n\u{3000}\n\"\"\") }";
    assert!(!is_parseable(text));
    let body = format!("{{\"query\": {}}}", serde_json::Value::from(text));
    let mut request = GraphQLRequest::new(hyper::Chunk::from(body), example_schema());
    let held = request.try_poll().err().unwrap();
    assert_eq!(held.text, text);
    assert_eq!(held.json.member("query"), Some(&JsonValue::from(text)));
    assert_eq!(held.schema, example_schema());

    // A line with one byte of indentation, and one that starts with a space of two or three
    assert!(!is_parseable("{ a(b: \"\"\"\n\u{3000}x\n y\n\"\"\") }"));
    assert!(!is_parseable("{ a(b: \"\"\"\n\u{a0}x\r\n y\"\"\") }"));
    assert!(!is_parseable("{ a(b: \"\"\"\n \u{3000}x\n  y\n\"\"\") }"));
    assert!(!is_parseable("{ a(b: \"\\\"\", c: \"\"\"\n\u{3000}x\n y\\\"\"\"z\"\"\") }"));
}

#[test]
fn hands_on_what_the_query_parser_gets_through() {
    let texts = vec![
        // Indentation that ends between two characters
        "{ a(b: \"\"\"\n x\n\"\"\") }",
        "{ a(b: \"\"\"\n\u{3000}x\n\"\"\") }",
        "{ a(b: \"\"\"\n\u{3000}x\n\u{3000}\u{3000}y\n\u{3000}\"\"\") }",
        "{ a(b: \"\"\"\n\u{3000}x\n   y\n\"\"\") }",
        "{ a(b: \"\"\"\n\u{a0}x\n  y\n\"\"\") }",
        "{ a(b: \"\"\"\nx\n y\n\u{3000}z\n\"\"\") }",
        // No other line, or none that counts
        "{ a(b: \"\u{3000}\") }",
        "{ a(b: \"\"\"\u{3000}\n x\u{3000}y\n\"\"\") }",
        "{ a(b: \"\"\"\n\u{3000}x\n \n \"\"\") }",
        "{ a(b: \"\"\"\n\u{3000}\n \"\"\") }",
        // Two block strings, and quotes in comments and strings
        "{ a(b: \"\"\"\n\u{3000}x\n\"\"\", c: \"\"\"\n y\n\"\"\") }",
        "{ a # \"\"\"\n b(c: \"\"\"\n\u{3000}x\"\"\") }",
        "{ a(b: \"\\\"\", c: \"\"\"\n\u{3000}x\n   y\\\"\"\"z\"\"\") }",
    ];
    for text in texts {
        assert!(is_parseable(text));
        let body = format!("{{\"query\": {}}}", serde_json::Value::from(text));
        let mut request = GraphQLRequest::new(hyper::Chunk::from(body), example_schema());
        assert_eq!(
            request.poll().unwrap().document,
            graphql_parser::parse_query(text).unwrap()
        );
    }

    // No queries, but the parser says so
    for text in vec![
        "",
        "{ a(b: \"\"\"x\"\"\")\n\u{3000} }",
        "{\n\u{3000} a(b: \"\"\"x\"\"\") }",
        "{ a(b: \"\"\"\n\u{3000}x\n y",
        "{ a(b: \"x\n\"\"\"\n\u{3000}x\n y\"\"\"",
        // What is no token keeps the parser from the block string
        "? { a(b: \"\"\"\n\u{3000}x\n y\"\"\") }",
        "{ a.b(b: \"\"\"\n\u{3000}x\n y\"\"\") }",
        "{ a(b: 01, c: \"\"\"\n\u{3000}x\n y\"\"\") }",
        "{ a(b: -, c: \"\"\"\n\u{3000}x\n y\"\"\") }",
        "{ a(b: 1., c: \"\"\"\n\u{3000}x\n y\"\"\") }",
        "{ a(b: 1.2e, c: \"\"\"\n\u{3000}x\n y\"\"\") }",
        "{ a(b: 1x, c: \"\"\"\n\u{3000}x\n y\"\"\") }",
        "{ a(b: 1\"\"\"\n\u{3000}x\n y\"\"\") }",
    ] {
        assert!(is_parseable(text));
        assert!(graphql_parser::parse_query(text).is_err());
    }
}

#[test]
fn decodes_all_other_requests() {
    let mut request =
        GraphQLRequest::new(hyper::Chunk::from("{\"query\": \"{ a }\"}"), example_schema());
    assert!(request.try_poll().ok().unwrap().is_ok());
    let mut request = GraphQLRequest::new(hyper::Chunk::from("{"), example_schema());
    assert!(request.try_poll().ok().unwrap().is_err());
    let mut request = GraphQLRequest::new(hyper::Chunk::from("{}"), example_schema());
    assert!(request.try_poll().ok().unwrap().is_err());
}

#[test]
fn completes_requests_step_by_step() {
    let json = JsonValue::Object(vec![
        ("query".to_string(), JsonValue::from("{ a }")),
        (
            "variables".to_string(),
            JsonValue::Object(vec![("n".to_string(), JsonValue::Number("1".to_string()))]),
        ),
    ]);
    assert_eq!(query_text(&json).unwrap(), "{ a }");
    let variables = query_variables(&json).unwrap().unwrap();
    assert_eq!(
        variables.get(&"n".to_string()),
        Some(&JsonValue::Number("1".to_string()))
    );
    assert_eq!(variables.get(&"m".to_string()), None);

    let parsed = graphql_parser::parse_query("{ b }");
    let query = complete(&json, parsed, example_schema()).unwrap();
    assert_eq!(query.document, graphql_parser::parse_query("{ b }").unwrap());
    assert_eq!(query.variables, Some(variables));

    let broken = graphql_parser::parse_query("}");
    assert!(complete(&json, broken, example_schema()).is_err());
}

#[test]
fn variables_are_equal_in_any_order() {
    let mut first = QueryVariables::new();
    first.insert("a".to_string(), QueryVariableValue::from("1"));
    first.insert("b".to_string(), QueryVariableValue::from("2"));
    let mut second = QueryVariables::new();
    second.insert("b".to_string(), QueryVariableValue::from("0"));
    second.insert("a".to_string(), QueryVariableValue::from("1"));
    assert_ne!(first, second);
    second.insert("b".to_string(), QueryVariableValue::from("2"));
    assert_eq!(first, second);
    second.insert("c".to_string(), QueryVariableValue::from("3"));
    assert_ne!(first, second);
}

#[test]
fn completes_held_requests() {
    // The tokens make up no query, which the parser finds before it gets to the block string
    let text = "{ a(: \"\"\"\n\u{3000}x\n y\"\"\") }";
    let body = format!("{{\"query\": {}, \"variables\": 5}}", serde_json::Value::from(text));
    let mut request = GraphQLRequest::new(hyper::Chunk::from(body), example_schema());
    let held = request.try_poll().err().unwrap();
    let parsed = graphql_parser::parse_query(&held.text);
    let expected = parsed.as_ref().unwrap_err().to_string();
    match complete(&held.json, parsed, held.schema) {
        Err(GraphQLServerError::QueryError(QueryError::ParseError(error))) => {
            assert_eq!(error.to_string(), expected)
        }
        other => panic!("expected a query error, got {:?}", other),
    }
}

#[test]
fn takes_numbers_as_the_query_parser_does() {
    let numbers = vec![
        "0", "-0", "7", "-12", "1.5", "-0.0", "1e5", "1E-3", "2.5e+10", "1e10", "3e81",
    ];
    for number in numbers {
        let text = |rest: &str| format!("{{ a(b: {}, c: {}) }}", number, rest);
        assert!(graphql_parser::parse_query(&text("1")).is_ok());
        assert!(!is_parseable(&text("\"\"\"\n\u{3000}x\n y\"\"\"")));
    }
    let others = vec![
        "00", "-01", "--1", "+1", "1..5", "1.5.5", ".5", "1e", "1e0", "1e9", "1e1.5", "1ee5", "1-",
        "1_", "1\u{3000}", "1\u{feff}",
    ];
    for other in others {
        let text = |rest: &str| format!("{{ a(b: {}, c: {}) }}", other, rest);
        assert!(graphql_parser::parse_query(&text("1")).is_err());
        assert!(is_parseable(&text("\"\"\"\n\u{3000}x\n y\"\"\"")));
    }
}
