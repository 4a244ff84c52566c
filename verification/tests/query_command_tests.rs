use qqrl::commands::query::{
    columns_and_rows, find_query, list_cut_panics, list_query_text, list_table, parse_ledger_queries, query_name, running_query_notice,
    QueryEntry,
};
use qqrl::json::Json;

fn entry(name: &str, q: &str) -> QueryEntry {
    QueryEntry { name: name.to_string(), query_string: q.to_string() }
}

#[test]
fn test_parse_ledger_queries() {
    let ledger_content = r#"
; Sample ledger
2025-01-01 open Assets:Bank EUR

2025-09-02 query "holidays" "select * where payee ~ 'holiday' and account ~ 'expenses'"

2025-09-03 query "test" "SELECT * FROM transactions"
"#;
    let queries = parse_ledger_queries(ledger_content).unwrap();
    assert_eq!(queries.len(), 2);
    assert_eq!(queries[0].name, "holidays");
    assert!(queries[0].query_string.contains("payee ~ 'holiday'"));
    assert_eq!(queries[1].name, "test");
    assert!(queries[1].query_string.contains("SELECT * FROM transactions"));
}

#[test]
fn parse_ledger_queries_handles_crlf_comments_and_errors() {
    let content = "; query \"x\" \"y\"\r\n  2025-01-01 query  \"a b\" \"SELECT 1\"  \r\nplain line\r\n";
    let qs = parse_ledger_queries(content).unwrap();
    assert_eq!(qs.len(), 1);
    assert_eq!(qs[0].name, "a b");
    assert_eq!(qs[0].query_string, "SELECT 1");
    assert_eq!(
        parse_ledger_queries("2025 query name").unwrap_err(),
        "Invalid query directive: missing opening quote for name"
    );
    assert_eq!(
        parse_ledger_queries("2025 query \"name").unwrap_err(),
        "Invalid query directive: missing closing quote for name"
    );
    assert_eq!(
        parse_ledger_queries("2025 query \"name\" SELECT").unwrap_err(),
        "Invalid query directive: missing opening quote for query"
    );
    assert_eq!(
        parse_ledger_queries("2025 query \"name\" \"SELECT").unwrap_err(),
        "Invalid query directive: missing closing quote for query"
    );
    assert_eq!(parse_ledger_queries("").unwrap().len(), 0);
}

#[test]
fn test_find_query_exact_match() {
    let entries = vec![
        entry("holidays", "SELECT * WHERE payee ~ 'holiday'"),
        entry("test", "SELECT * FROM transactions"),
    ];
    let result = find_query(&entries, "holidays");
    assert!(result.is_ok());
    assert_eq!(result.unwrap().0, "SELECT * WHERE payee ~ 'holiday'");
}

#[test]
fn test_find_query_case_insensitive() {
    let entries = vec![entry("Holidays", "SELECT * WHERE payee ~ 'holiday'")];
    let result = find_query(&entries, "holidays");
    assert!(result.is_ok());
    assert_eq!(result.unwrap().1, "Holidays");
}

#[test]
fn test_find_query_partial_match() {
    let entries = vec![entry("my_long_query_name", "SELECT *")];
    let result = find_query(&entries, "query");
    assert!(result.is_ok());
    assert_eq!(result.unwrap().1, "my_long_query_name");
}

#[test]
fn find_query_prefers_exact_then_case_then_partial() {
    let entries = vec![entry("Sales-2025", "p"), entry("SALES", "c"), entry("sales", "e")];
    assert_eq!(find_query(&entries, "sales").unwrap(), ("e".to_string(), "sales".to_string()));
    assert_eq!(find_query(&entries, "Sales").unwrap(), ("c".to_string(), "SALES".to_string()));
    assert_eq!(find_query(&entries, "2025").unwrap(), ("p".to_string(), "Sales-2025".to_string()));
    assert_eq!(find_query(&entries, "SALES-20").unwrap(), ("p".to_string(), "Sales-2025".to_string()));
    assert_eq!(find_query(&entries, "nope").unwrap_err(), "Query 'nope' not found in the ledger file.");
}

#[test]
fn query_name_is_the_first_argument() {
    assert_eq!(query_name(&vec!["a".to_string(), "b".to_string()]).unwrap(), "a");
    assert_eq!(query_name(&vec![]).unwrap_err(), "Query name is required");
}

#[test]
fn columns_and_rows_of_a_result() {
    let payload = Json::Object(vec![
        ("columns".to_string(), Json::Array(vec![Json::Str("date".to_string()), Json::Number("1".to_string())])),
        ("rows".to_string(), Json::Array(vec![Json::Array(vec![Json::Str("2025-01-01".to_string())])])),
    ]);
    let (cols, rows) = columns_and_rows(payload).unwrap();
    assert_eq!(cols, vec!["date"]);
    assert_eq!(rows.len(), 1);
    let no_cols = Json::Object(vec![("rows".to_string(), Json::Array(vec![]))]);
    assert_eq!(columns_and_rows(no_cols).unwrap_err(), "invalid JSON schema from rledger: missing columns array");
    let no_rows = Json::Object(vec![("columns".to_string(), Json::Array(vec![]))]);
    assert_eq!(columns_and_rows(no_rows).unwrap_err(), "invalid JSON schema from rledger: missing rows array");
}

#[test]
fn list_shows_the_first_fifty_bytes() {
    let short = "SELECT * FROM transactions";
    assert_eq!(list_query_text(short), short);
    let long = "x".repeat(60);
    assert_eq!(list_query_text(&long), format!("{}...", "x".repeat(50)));
    let exact = "y".repeat(50);
    assert_eq!(list_query_text(&exact), exact);
    let wide = format!("{}é{}", "a".repeat(49), "b".repeat(10));
    assert!(list_cut_panics(&wide));
    let fits = format!("{}é{}", "a".repeat(48), "b".repeat(10));
    assert!(!list_cut_panics(&fits));
    assert_eq!(list_query_text(&fits), format!("{}é...", "a".repeat(48)));
    let t = list_table(&vec![entry("n", &long)]);
    assert_eq!(t.header, vec!["Name", "Query (first 50 chars)"]);
    assert_eq!(t.rows[0][1], format!("{}...", "x".repeat(50)));
}

#[test]
fn running_query_notice_only_for_another_name() {
    assert_eq!(running_query_notice("Holidays", "holidays"), None);
    assert_eq!(running_query_notice("holidays-2025", "holi"), Some("Running query: holidays-2025".to_string()));
}
