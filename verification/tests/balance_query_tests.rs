use qqrl::cli::CommonOptions;
use qqrl::commands::balance::build_query;

fn opts() -> CommonOptions {
    CommonOptions {
        account: vec![],
        begin: None,
        end: None,
        date_range: None,
        amount: vec![],
        currency: vec![],
        exchange: None,
        sort: None,
        limit: None,
        total: false,
        no_pager: false,
        hierarchy: false,
        empty: false,
        depth: None,
        zero: false,
        ledger: None,
        list: false,
    }
}

#[test]
fn build_query_defaults() {
    let q = build_query(&opts());
    assert!(q.contains("SELECT account, units(sum(position)) as Balance"));
    assert!(q.contains("GROUP BY account"));
    assert!(q.contains("ORDER BY account ASC"));
    assert!(!q.contains("WHERE"));
}

#[test]
fn build_query_with_account_filter() {
    let o = CommonOptions { account: vec!["Assets".to_string()], ..opts() };
    let q = build_query(&o);
    assert!(q.contains("account ~ 'Assets'"));
    assert!(q.contains("WHERE"));
}

#[test]
fn build_query_with_date_range() {
    let o = CommonOptions { begin: Some("2025-01".to_string()), end: Some("2025-09".to_string()), ..opts() };
    let q = build_query(&o);
    assert!(q.contains("date >= date(\"2025-01-01\")"));
    assert!(q.contains("date < date(\"2025-09-01\")"));
}

#[test]
fn build_query_with_exchange_uses_sum_of_converted_positions() {
    let o = CommonOptions {
        account: vec!["Assets:Bank:Bank03581".to_string()],
        exchange: Some("EUR".to_string()),
        ..opts()
    };
    let q = build_query(&o);
    assert!(q.contains("sum(convert(position, 'EUR')) as Converted"));
    assert!(!q.contains("convert(sum(position), 'EUR')"));
}

#[test]
fn balance_build_query_with_exchange_lowercase_is_capitalized() {
    let o = CommonOptions { exchange: Some("eur".to_string()), ..opts() };
    let q = build_query(&o);
    assert!(q.contains("convert(position, 'EUR')"));
    assert!(!q.contains("convert(position, 'eur')"));
}

#[test]
fn balance_build_query_with_currency_lowercase_is_capitalized() {
    let o = CommonOptions { currency: vec!["eur".to_string()], ..opts() };
    let q = build_query(&o);
    assert!(q.contains("currency = 'EUR'"));
    assert!(!q.contains("currency = 'eur'"));

    let o = CommonOptions { currency: vec!["eur,usd".to_string()], ..opts() };
    let q = build_query(&o);
    assert!(q.contains("currency = 'EUR' OR currency = 'USD'"));
    assert!(!q.contains("currency = 'eur'"));
    assert!(!q.contains("currency = 'usd'"));
}

#[test]
fn build_query_sort_desc() {
    let o = CommonOptions { sort: Some("-account".to_string()), ..opts() };
    let q = build_query(&o);
    assert!(q.contains("ORDER BY account DESC"));
}

#[test]
fn balance_build_query_full_text() {
    let o = CommonOptions {
        account: vec!["Assets".to_string(), "not".to_string(), "Cash".to_string(), "@Shop".to_string()],
        date_range: Some("2025-03..2025-05".to_string()),
        currency: vec!["chf".to_string(), "eur".to_string()],
        exchange: Some("usd".to_string()),
        sort: Some("balance".to_string()),
        limit: Some(3),
        ..opts()
    };
    let q = build_query(&o);
    assert_eq!(
        q,
        "SELECT account, units(sum(position)) as Balance, sum(convert(position, 'USD')) as Converted WHERE description ~ 'Shop' AND account ~ 'Assets' AND NOT (account ~ 'Cash') AND date >= date(\"2025-03-01\") AND date < date(\"2025-05-01\") AND (currency = 'CHF' OR currency = 'EUR') GROUP BY account ORDER BY sum(position) ASC LIMIT 3"
    );
}
