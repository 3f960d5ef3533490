use necrometer::json::value::Value;
use necrometer::json::{parse, serialize, try_parse};

#[test]
fn parse_and_serialize_repo() {
    let raw = r#"[{"name":"x","pushed_at":"2024-01-15T12:34:56Z","created_at":"2023-01-15T12:34:56Z","archived":false,"fork":false,"stargazers_count":42,"html_url":"https://example.com/x"}]"#;
    let v = parse(raw).unwrap();
    let arr = match v {
        Value::Array(a) => a,
        _ => panic!(),
    };
    assert_eq!(arr.len(), 1);
    assert_eq!(arr[0].get("name").unwrap().as_str(), Some("x"));
    assert_eq!(arr[0].get("stargazers_count").unwrap().as_i64(), Some(42));
    let s = serialize(&Value::Array(arr));
    assert!(s.contains("\"name\":\"x\""));
}

#[test]
fn rejects_trailing() {
    assert!(parse("{\"a\":1} garbage").is_err());
    assert!(parse("nope").is_err());
}

#[test]
fn serialize_then_parse_gives_the_value_back() {
    let v = Value::Object(vec![
        ("a\"b".to_string(), Value::Array(vec![Value::Num(-7), Value::Null, Value::Bool(true)])),
        ("t".to_string(), Value::Str("tab\there \u{1} é ☠".to_string())),
    ]);
    let text = serialize(&v);
    let back = parse(&text).unwrap();
    assert_eq!(serialize(&back), text);
    assert_eq!(back.get("t").unwrap().as_str(), Some("tab\there \u{1} é ☠"));
    assert_eq!(back.get("a\"b").unwrap().get("x").is_none(), true);
}

#[test]
fn first_member_wins_and_accessors() {
    let v = parse(" {\"k\": 1, \"k\": 2, \"n\": -5, \"b\": false} ").unwrap();
    assert_eq!(v.get("k").unwrap().as_i64(), Some(1));
    assert_eq!(v.get("n").unwrap().as_u64(), Some(0));
    assert_eq!(v.get("b").unwrap().as_bool(), Some(false));
    assert!(v.get("missing").is_none());
}

#[test]
fn truncated_object_is_refused_by_try_parse() {
    assert!(try_parse("{").is_none());
    assert!(try_parse("[1,2]").unwrap().is_ok());
}

#[test]
fn truncated_documents_are_errors() {
    for t in ["{", "{\"a\":1,", "[1,", "[", "{\"a\""] {
        match parse(t) {
            Err(e) => assert!(e.message().starts_with("json: "), "{t:?}"),
            Ok(_) => panic!("{t:?} parsed"),
        }
    }
    assert_eq!(parse("{").unwrap_err().message(), "json: unexpected end of input");
}
