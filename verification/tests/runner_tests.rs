use qqrl::json::Json;
use qqrl::runner::{normalize_row, parse_rows_from_output, RunnerError};

fn from_value(v: &serde_json::Value) -> Json {
    match v {
        serde_json::Value::Null => Json::Null,
        serde_json::Value::Bool(b) => Json::Bool(*b),
        serde_json::Value::Number(n) => Json::Number(n.to_string()),
        serde_json::Value::String(s) => Json::Str(s.clone()),
        serde_json::Value::Array(a) => Json::Array(a.iter().map(from_value).collect()),
        serde_json::Value::Object(m) => Json::Object(m.iter().map(|(k, v)| (k.clone(), from_value(v))).collect()),
    }
}

fn parse(bytes: &[u8]) -> Json {
    let v: serde_json::Value = serde_json::from_slice(bytes).unwrap();
    from_value(&v)
}

fn str_at<'a>(j: &'a Json, k: &str) -> Option<&'a str> {
    match j.get(k) {
        Some(Json::Str(s)) => Some(s.as_str()),
        _ => None,
    }
}

#[test]
fn runner_parse_rows_happy_path() {
    let json = br#"{"columns":["account"],"row_count":1,"rows":[{"account":"Assets"}]}"#;
    let rows = parse_rows_from_output(parse(json)).unwrap();
    assert_eq!(rows.len(), 1);
    assert_eq!(str_at(&rows[0], "account"), Some("Assets"));
}

#[test]
fn parse_rows_missing_rows_field() {
    let json = br#"{"columns":[],"row_count":0}"#;
    let err = parse_rows_from_output(parse(json)).unwrap_err();
    assert!(matches!(err, RunnerError::MissingRows));
}

#[test]
fn parse_rows_normalizes_array_shaped_rows_into_objects() {
    let json = br#"{
        "columns": ["account", "balance"],
        "row_count": 1,
        "rows": [
            ["Assets:Bank:Checking", {"positions": [{"currency": "EUR", "number": "1369.80"}]}]
        ]
    }"#;
    let rows = parse_rows_from_output(parse(json)).unwrap();
    assert_eq!(rows.len(), 1);
    assert_eq!(str_at(&rows[0], "account"), Some("Assets:Bank:Checking"));
    let balance = rows[0].get("balance").unwrap();
    let positions = balance.get("positions").unwrap().as_array().unwrap();
    assert_eq!(str_at(&positions[0], "currency"), Some("EUR"));
}

#[test]
fn normalize_row_zips_as_far_as_both_go() {
    let cols = vec!["a".to_string(), "b".to_string(), "c".to_string()];
    let row = Json::Array(vec![Json::Bool(true), Json::Null]);
    match normalize_row(row, &cols) {
        Json::Object(m) => {
            assert_eq!(m.len(), 2);
            assert_eq!(m[0].0, "a");
            assert_eq!(m[1].0, "b");
        },
        other => panic!("unexpected {:?}", other),
    }
    let kept = normalize_row(Json::Str("x".to_string()), &cols);
    assert!(matches!(kept, Json::Str(s) if s == "x"));
}
