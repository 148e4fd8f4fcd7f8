use anthropic_compat::interop::{from_serde, parse, parse_bytes, print, to_serde};
use anthropic_compat::json::{Json, JsonNumber, JsonObject};
use serde_json::Value;

const TEXT: &str = r#"{"z":[0,18446744073709551615,-1,-9223372036854775808,0.1,1e300,true,null],"a":{"b":"\"\\\n\u0000"},"":{}}"#;

#[test]
fn values_go_through_serde_unchanged() {
    let value: Value = serde_json::from_str(TEXT).unwrap();
    let json = from_serde(value.clone());
    assert_eq!(to_serde(&json), value);
    assert_eq!(to_serde(&json.clone()), value);
    assert_eq!(print(&json), value.to_string());
    assert_eq!(parse(&print(&json)).unwrap(), json);
    assert_eq!(parse_bytes(TEXT.as_bytes()).unwrap(), json);
}

#[test]
fn numbers() {
    assert_eq!(parse("7").unwrap(), Json::Number(JsonNumber::Unsigned(7)));
    assert_eq!(parse("7").unwrap().as_u64(), Some(7));
    for text in ["-7", "7.0", "7e0", "18446744073709551616"] {
        let number = parse(text).unwrap();
        assert!(number.is_number());
        assert_eq!(number.as_u64(), None);
    }
    match parse("-7").unwrap() {
        Json::Number(JsonNumber::Other(other)) => assert_eq!(other.as_i64(), Some(-7)),
        _ => panic!("no number"),
    }
    match parse("0.5").unwrap() {
        Json::Number(JsonNumber::Other(other)) => assert_eq!(other.as_i64(), None),
        _ => panic!("no number"),
    }
}

#[test]
fn errors_of_the_parser() {
    let expected = serde_json::from_str::<Value>("[1,").err().unwrap().to_string();
    assert_eq!(parse("[1,"), Err(expected));
    let expected = serde_json::from_slice::<Value>(b"\xff").err().unwrap().to_string();
    assert_eq!(parse_bytes(b"\xff"), Err(expected));
    let deep = format!("{}{}", "[".repeat(127), "]".repeat(127));
    assert_eq!(print(&parse(&deep).unwrap()), deep);
    let deeper = format!("{}{}", "[".repeat(128), "]".repeat(128));
    assert!(parse(&deeper).is_err());
}

#[test]
fn fields_of_objects() {
    let object = JsonObject::new()
        .with("b", Json::Null)
        .with("a", Json::text("x"))
        .with("b", Json::Bool(true))
        .with_some("c", None)
        .with_some("d", Some(Json::unsigned(1)));
    assert_eq!(object.get("b"), Some(&Json::Bool(true)));
    assert_eq!(object.get_str("a"), Some("x"));
    assert_eq!(object.get("c"), None);
    let keys: Vec<&str> = object.fields().iter().map(|field| field.0.as_str()).collect();
    assert_eq!(keys, ["b", "a", "d"]);
    // The last of several fields with one key counts.
    assert_eq!(print(&parse(r#"{"k":1,"l":2,"k":3}"#).unwrap()), r#"{"k":3,"l":2}"#);
}
