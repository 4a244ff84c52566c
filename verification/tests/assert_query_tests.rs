use qqrl::cli::CommonOptions;
use qqrl::commands::balance_assert::build_query;

fn default_opts() -> CommonOptions {
    CommonOptions::default()
}

#[test]
fn assert_build_query_no_filters() {
    let q = build_query(&default_opts());
    assert_eq!(q, "SELECT date, account, amount FROM #balances");
}

#[test]
fn build_query_account_filter() {
    let opts = CommonOptions { account: vec!["Assets:Bank".to_string()], ..default_opts() };
    let q = build_query(&opts);
    assert!(q.contains("WHERE account ~ 'Assets:Bank'"));
}

#[test]
fn build_query_account_exclusion() {
    let opts = CommonOptions { account: vec!["not".to_string(), "Assets:Cash".to_string()], ..default_opts() };
    let q = build_query(&opts);
    assert!(q.contains("NOT (account ~ 'Assets:Cash')"));
}

#[test]
fn assert_build_query_date_filters() {
    let opts = CommonOptions {
        begin: Some("2025-11-01".to_string()),
        end: Some("2025-12-01".to_string()),
        ..default_opts()
    };
    let q = build_query(&opts);
    assert!(q.contains("date >= date(\"2025-11-01\")"));
    assert!(q.contains("date < date(\"2025-12-01\")"));
}

#[test]
fn build_query_currency_filter_single() {
    let opts = CommonOptions { currency: vec!["EUR".to_string()], ..default_opts() };
    let q = build_query(&opts);
    assert!(q.contains("amount.currency = 'EUR'"));
}

#[test]
fn build_query_currency_filter_multiple() {
    let opts = CommonOptions { currency: vec!["EUR,USD".to_string()], ..default_opts() };
    let q = build_query(&opts);
    assert!(q.contains("amount.currency IN ('EUR', 'USD')"));
}

#[test]
fn assert_build_query_amount_filter() {
    let opts = CommonOptions { amount: vec![">500".to_string()], ..default_opts() };
    let q = build_query(&opts);
    assert!(q.contains("amount.number > 500"));
}

#[test]
fn assert_build_query_amount_filter_with_currency() {
    let opts = CommonOptions { amount: vec![">500EUR".to_string()], ..default_opts() };
    let q = build_query(&opts);
    assert!(q.contains("amount.number > 500 AND amount.currency = 'EUR'"));
}

#[test]
fn build_query_sorting() {
    let opts = CommonOptions { sort: Some("account".to_string()), ..default_opts() };
    let q = build_query(&opts);
    assert!(q.contains("ORDER BY account ASC"));
}

#[test]
fn build_query_sorting_desc() {
    let opts = CommonOptions { sort: Some("-date".to_string()), ..default_opts() };
    let q = build_query(&opts);
    assert!(q.contains("ORDER BY date DESC"));
}

#[test]
fn build_query_sort_balance_maps_to_amount() {
    let opts = CommonOptions { sort: Some("balance".to_string()), ..default_opts() };
    let q = build_query(&opts);
    assert!(q.contains("ORDER BY amount ASC"));
}

#[test]
fn assert_build_query_limit() {
    let opts = CommonOptions { limit: Some(2), ..default_opts() };
    let q = build_query(&opts);
    assert!(q.ends_with("LIMIT 2"));
}

#[test]
fn build_query_combined_filters() {
    let opts = CommonOptions {
        account: vec!["Assets:Bank".to_string()],
        amount: vec![">500".to_string()],
        currency: vec!["EUR".to_string()],
        ..default_opts()
    };
    let q = build_query(&opts);
    assert!(q.contains("account ~ 'Assets:Bank'"));
    assert!(q.contains("amount.number > 500"));
    assert!(q.contains("amount.currency = 'EUR'"));
}

#[test]
fn assert_build_query_exact_text_with_everything() {
    let opts = CommonOptions {
        account: vec!["Assets".to_string()],
        amount: vec!["<=10usd".to_string()],
        currency: vec!["eur, usd".to_string()],
        sort: Some("balance,-date".to_string()),
        limit: Some(5),
        ..default_opts()
    };
    let q = build_query(&opts);
    assert_eq!(
        q,
        "SELECT date, account, amount FROM #balances WHERE account ~ 'Assets' AND amount.number <= 10 AND amount.currency = 'USD' AND amount.currency IN ('EUR', 'USD') ORDER BY amount ASC, date DESC LIMIT 5"
    );
}
