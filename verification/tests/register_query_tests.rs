use qqrl::cli::CommonOptions;
use qqrl::commands::register::build_query;

fn opts() -> CommonOptions {
    CommonOptions::default()
}

#[test]
fn register_build_query_with_exchange_lowercase_is_capitalized() {
    let o = CommonOptions { exchange: Some("usd".to_string()), ..opts() };
    let q = build_query(&o);
    assert!(q.contains("convert(position, 'USD')"));
    assert!(!q.contains("convert(position, 'usd')"));
}

#[test]
fn register_build_query_with_currency_lowercase_is_capitalized() {
    let o = CommonOptions { currency: vec!["usd".to_string()], ..opts() };
    let q = build_query(&o);
    assert!(q.contains("currency = 'USD'"));
    assert!(!q.contains("currency = 'usd'"));

    let o = CommonOptions { currency: vec!["Eur,gbp".to_string()], ..opts() };
    let q = build_query(&o);
    assert!(q.contains("currency = 'EUR' OR currency = 'GBP'"));
    assert!(!q.contains("currency = 'Eur'"));
    assert!(!q.contains("currency = 'gbp'"));
}

#[test]
fn register_build_query_unsorted_unless_asked() {
    let q = build_query(&opts());
    assert_eq!(q, "SELECT date, account, payee, narration, position");
    let o = CommonOptions { sort: Some(" -date , account".to_string()), amount: vec!["<-5".to_string()], ..opts() };
    let q = build_query(&o);
    assert_eq!(q, "SELECT date, account, payee, narration, position WHERE number < -5 ORDER BY date DESC, account ASC");
}

#[test]
fn register_build_query_not_equal_amount_filter() {
    let o = CommonOptions { amount: vec!["!=0usd".to_string()], ..opts() };
    let q = build_query(&o);
    assert_eq!(q, "SELECT date, account, payee, narration, position WHERE number != 0 AND currency = 'USD'");
}
