use qqrl::cli::CommonOptions;
use qqrl::commands::price::build_query;

fn default_opts() -> CommonOptions {
    CommonOptions::default()
}

#[test]
fn price_build_query_no_filters() {
    let q = build_query(&default_opts());
    assert_eq!(q, "SELECT date, currency, amount FROM #prices ORDER BY date, currency");
}

#[test]
fn build_query_single_commodity() {
    let opts = CommonOptions { account: vec!["EUR".to_string()], ..default_opts() };
    let q = build_query(&opts);
    assert!(q.contains("WHERE currency ~ 'EUR'"));
}

#[test]
fn build_query_commodity_lowercased_is_uppercased() {
    let opts = CommonOptions { account: vec!["eur".to_string()], ..default_opts() };
    let q = build_query(&opts);
    assert!(q.contains("currency ~ 'EUR'"));
    assert!(!q.contains("currency ~ 'eur'"));
}

#[test]
fn build_query_multiple_commodities_uses_or() {
    let opts = CommonOptions { account: vec!["EUR".to_string(), "USD".to_string()], ..default_opts() };
    let q = build_query(&opts);
    assert!(q.contains("(currency ~ 'EUR' OR currency ~ 'USD')"));
}

#[test]
fn price_build_query_date_filters() {
    let opts = CommonOptions {
        begin: Some("2025-01-01".to_string()),
        end: Some("2025-12-31".to_string()),
        ..default_opts()
    };
    let q = build_query(&opts);
    assert!(q.contains("date >= date(\"2025-01-01\")"));
    assert!(q.contains("date < date(\"2025-12-31\")"));
}

#[test]
fn build_query_custom_sort() {
    let opts = CommonOptions { sort: Some("-date".to_string()), ..default_opts() };
    let q = build_query(&opts);
    assert!(q.contains("ORDER BY date DESC"));
    assert!(!q.contains("ORDER BY date, currency"));
}

#[test]
fn price_build_query_limit() {
    let opts = CommonOptions { limit: Some(10), ..default_opts() };
    let q = build_query(&opts);
    assert!(q.ends_with("LIMIT 10"));
}

#[test]
fn price_build_query_amount_filter() {
    let opts = CommonOptions { amount: vec![">1.2".to_string()], ..default_opts() };
    let q = build_query(&opts);
    assert!(q.contains("amount.number > 1.2"));
}

#[test]
fn price_build_query_amount_filter_with_currency() {
    let opts = CommonOptions { amount: vec![">1.2EUR".to_string()], ..default_opts() };
    let q = build_query(&opts);
    assert!(q.contains("amount.number > 1.2 AND amount.currency = 'EUR'"));
}

#[test]
fn build_query_sort_friendly_names() {
    let opts = CommonOptions { sort: Some("symbol,-price".to_string()), ..default_opts() };
    let q = build_query(&opts);
    assert!(q.contains("ORDER BY currency ASC, amount DESC"));
}
