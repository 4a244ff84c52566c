use qqrl::cli::{CommonOptions, LotsOptions};
use qqrl::commands::{balance, balance_assert, lots, price, register};

fn common() -> CommonOptions {
    CommonOptions {
        account: vec!["Assets".to_string()],
        begin: Some("2025-01".to_string()),
        end: Some("2025-09".to_string()),
        date_range: None,
        amount: vec![">5".to_string()],
        currency: vec!["eur".to_string()],
        exchange: None,
        sort: Some("-date".to_string()),
        limit: Some(7),
        total: false,
        no_pager: false,
        hierarchy: false,
        empty: false,
        depth: None,
        zero: false,
        ledger: None,
        list: false,
    }
}

fn lots_opts() -> LotsOptions {
    LotsOptions {
        account: vec!["Assets".to_string()],
        begin: Some("2025-01".to_string()),
        end: Some("2025-09".to_string()),
        date_range: None,
        amount: vec![">5".to_string()],
        currency: vec!["eur".to_string()],
        exchange: None,
        sort: None,
        limit: Some(7),
        no_pager: false,
        sort_by: None,
        average: false,
        active: true,
        show_all: false,
        closed: false,
        ledger: None,
    }
}

fn all_queries() -> Vec<String> {
    let c = common();
    vec![
        balance::build_query(&c),
        register::build_query(&c),
        balance_assert::build_query(&c),
        price::build_query(&c),
        lots::build_query(&lots_opts()),
    ]
}

#[test]
fn every_query_ends_with_its_limit() {
    for q in all_queries() {
        assert!(q.ends_with(" LIMIT 7"), "{q}");
        assert_eq!(q.matches("LIMIT").count(), 1, "{q}");
    }
}

#[test]
fn every_query_bounds_dates_with_an_exclusive_end() {
    for q in all_queries() {
        assert!(q.contains("date >= date(\"2025-01-01\")"), "{q}");
        assert!(q.contains("date < date(\"2025-09-01\")"), "{q}");
        assert!(!q.contains("date <="), "{q}");
    }
}

#[test]
fn exchange_spellings_that_upper_case_alike_give_the_same_query() {
    let mut lower = common();
    lower.currency = vec![];
    lower.exchange = Some("eur".to_string());
    let mut upper = common();
    upper.currency = vec![];
    upper.exchange = Some("EUR".to_string());
    assert_eq!(balance::build_query(&lower), balance::build_query(&upper));
    assert_eq!(register::build_query(&lower), register::build_query(&upper));
    let mut l1 = lots_opts();
    l1.currency = vec![];
    l1.exchange = Some("Eur".to_string());
    let mut l2 = lots_opts();
    l2.currency = vec![];
    l2.exchange = Some("EUR".to_string());
    assert_eq!(lots::build_query(&l1), lots::build_query(&l2));
    for q in [balance::build_query(&lower), register::build_query(&lower), lots::build_query(&l1)] {
        assert!(q.contains("'EUR'") && !q.contains("'eur'") && !q.contains("'Eur'"), "{q}");
    }
}
