use qqrl::cli::LotsOptions;
use qqrl::commands::lots::build_query;

fn opts() -> LotsOptions {
    LotsOptions {
        account: vec![],
        begin: None,
        end: None,
        date_range: None,
        amount: vec![],
        currency: vec![],
        exchange: None,
        sort: None,
        limit: None,
        no_pager: false,
        sort_by: None,
        average: false,
        active: true,
        show_all: false,
        closed: false,
        ledger: None,
    }
}

#[test]
fn build_query_default_active_lots() {
    let query = build_query(&opts());
    assert!(query.contains("cost_number IS NOT NULL"));
    assert!(query.contains("GROUP BY account, currency(units(position)), cost_number, cost_currency"));
    assert!(query.contains("HAVING SUM(number(units(position))) > 0"));
    assert!(query.contains("ORDER BY date ASC"));
}

#[test]
fn lots_build_query_average_sorted_by_price() {
    let o = LotsOptions { average: true, sort_by: Some("price".to_string()), exchange: Some("eur".to_string()), ..opts() };
    let q = build_query(&o);
    assert!(q.starts_with("SELECT MAX(date) as date, account, currency(units(position)) as symbol, SUM(units(position)) as quantity, SUM(cost_number * number(units(position))) / SUM(number(units(position))) as avg_price"));
    assert!(q.contains("value(SUM(position), 'EUR') as value"));
    assert!(!q.contains("'eur'"));
    assert!(q.contains(
        " GROUP BY account, currency(units(position)) HAVING SUM(number(units(position))) > 0 ORDER BY avg_price ASC"
    ));
}

#[test]
fn lots_build_query_all_lots_with_currencies() {
    let o = LotsOptions { show_all: true, currency: vec!["ABC, xyz".to_string()], sort: Some("-price".to_string()), limit: Some(2), ..opts() };
    let q = build_query(&o);
    assert_eq!(
        q,
        "SELECT date, account, currency(units(position)) as symbol, units(position) as quantity, cost_number as price, cost(position) as cost, value(position, cost_currency) as value WHERE currency IN ('ABC', 'xyz') AND cost_number IS NOT NULL ORDER BY price DESC LIMIT 2"
    );
}

#[test]
fn lots_build_query_closed_lots_keep_zero_net_groups() {
    let o = LotsOptions { active: false, closed: true, ..opts() };
    let q = build_query(&o);
    assert!(q.ends_with(
        " GROUP BY account, currency(units(position)), cost_number, cost_currency HAVING SUM(number(units(position))) = 0 ORDER BY date ASC"
    ));
    let all = LotsOptions { show_all: true, closed: true, ..opts() };
    assert!(!build_query(&all).contains("GROUP BY"));
}

#[test]
fn lots_build_query_upper_cases_the_exchange_currency() {
    let o = LotsOptions { show_all: true, exchange: Some("chf".to_string()), ..opts() };
    let q = build_query(&o);
    assert!(q.contains("value(position, 'CHF') as value"));
    assert!(!q.contains("'chf'"));
}
