use qqrl::cli::LotsOptions;
use qqrl::commands::lots::run;
use qqrl::json::Json;

fn s(x: &str) -> Json {
    Json::Str(x.to_string())
}

fn obj(members: Vec<(&str, Json)>) -> Json {
    Json::Object(members.into_iter().map(|(k, v)| (k.to_string(), v)).collect())
}

fn amount(c: &str, n: &str) -> Json {
    obj(vec![("currency", s(c)), ("number", s(n))])
}

fn opts(average: bool) -> LotsOptions {
    LotsOptions {
        account: vec![],
        begin: None,
        end: None,
        date_range: None,
        amount: vec![],
        currency: vec![],
        exchange: None,
        sort: None,
        limit: None,
        no_pager: false,
        sort_by: None,
        average,
        active: true,
        show_all: false,
        closed: false,
        ledger: None,
    }
}

#[test]
fn lots_run_shows_open_lots() {
    let rows = vec![obj(vec![
        ("date", s("2025-09-10")),
        ("account", s("Equity:Stocks")),
        ("symbol", s("ABC")),
        ("quantity", amount("ABC", "4")),
        ("price", s("1.3")),
        ("cost", amount("EUR", "5.2")),
        ("value", amount("EUR", "1234.567")),
    ])];
    let t = run(&opts(false), &rows).unwrap();
    assert_eq!(t.header, vec!["Date", "Account", "Symbol", "Quantity", "Price", "Cost"]);
    assert_eq!(t.rows[0], vec!["2025-09-10", "Equity:Stocks", "ABC", "4.00 ABC", "1.30 EUR", "5.20 EUR"]);
    let mut all = opts(false);
    all.show_all = true;
    let t = run(&all, &rows).unwrap();
    assert_eq!(t.header, vec!["Date", "Account", "Symbol", "Quantity", "Price", "Cost", "Value"]);
    assert_eq!(
        t.rows[0],
        vec!["2025-09-10", "Equity:Stocks", "ABC", "4.00 ABC", "1.30 EUR", "5.20 EUR", "1,234.57 EUR"]
    );
}

#[test]
fn lots_run_average_uses_average_columns() {
    let rows = vec![obj(vec![
        ("date", s("2025-09-10")),
        ("account", s("Equity:Stocks")),
        ("symbol", s("ABC")),
        ("quantity", obj(vec![("positions", Json::Array(vec![amount("ABC", "4")]))])),
        ("avg_price", s("1.30")),
        ("total_cost", amount("EUR", "5.20")),
        ("value", amount("USD", "7")),
    ])];
    let t = run(&opts(true), &rows).unwrap();
    assert_eq!(t.header, vec!["Date", "Account", "Symbol", "Quantity", "Average Price", "Total Cost", "Value"]);
    assert_eq!(t.rows[0][4], "1.30 EUR");
    assert_eq!(t.rows[0][6], "7.00 USD");
    assert_eq!(run(&opts(false), &rows).unwrap_err(), "missing price field");
}

#[test]
fn lots_run_average_skips_zero_net_holdings() {
    let holding = |account: &str, qty: &str, avg: Json| {
        obj(vec![
            ("date", s("2025-09-10")),
            ("account", s(account)),
            ("symbol", s("XYZ")),
            ("quantity", amount("XYZ", qty)),
            ("avg_price", avg),
            ("total_cost", amount("USD", "35")),
            ("value", amount("USD", "35")),
        ])
    };
    let rows = vec![holding("Alpha", "0", Json::Null), holding("Beta", "5", s("7"))];
    let t = run(&opts(true), &rows).unwrap();
    assert_eq!(t.rows.len(), 1);
    assert_eq!(t.rows[0][1], "Beta");
    assert_eq!(t.rows[0][4], "7.00 USD");
}
