use qqrl::cli::CommonOptions;
use qqrl::commands::{balance, balance_assert, lots, price, register};
use qqrl::decimal::Decimal;
use qqrl::json::Json;

fn s(x: &str) -> Json {
    Json::Str(x.to_string())
}

fn obj(members: Vec<(&str, Json)>) -> Json {
    Json::Object(members.into_iter().map(|(k, v)| (k.to_string(), v)).collect())
}

fn dec(x: &str) -> rust_decimal::Decimal {
    x.parse().unwrap()
}

fn rd(d: Decimal) -> rust_decimal::Decimal {
    rust_decimal::Decimal::from_i128_with_scale(d.mantissa, d.scale)
}

#[test]
fn assert_parse_rows_happy_path() {
    let json = vec![obj(vec![
        ("date", s("2025-11-07")),
        ("account", s("Assets:Bank:Checking")),
        ("amount", obj(vec![("number", s("595.47")), ("currency", s("EUR"))])),
    ])];
    let rows = balance_assert::parse_rows(&json).unwrap();
    assert_eq!(rows.len(), 1);
    assert_eq!(rows[0].date, "2025-11-07");
    assert_eq!(rows[0].account, "Assets:Bank:Checking");
    assert_eq!(rd(rows[0].balance_number), dec("595.47"));
    assert_eq!(rows[0].balance_currency, "EUR");
}

#[test]
fn assert_parse_rows_errors_name_the_missing_piece() {
    let no_date = vec![obj(vec![("account", s("A"))])];
    assert_eq!(balance_assert::parse_rows(&no_date).unwrap_err(), "missing date field");
    let no_account = vec![obj(vec![("date", s("2025-01-01"))])];
    assert_eq!(balance_assert::parse_rows(&no_account).unwrap_err(), "missing account field");
    let no_currency = vec![obj(vec![("date", s("d")), ("account", s("A")), ("amount", obj(vec![("number", s("1"))]))])];
    assert_eq!(balance_assert::parse_rows(&no_currency).unwrap_err(), "missing currency in amount");
    let no_number = vec![obj(vec![("date", s("d")), ("account", s("A")), ("amount", obj(vec![("currency", s("EUR"))]))])];
    assert_eq!(balance_assert::parse_rows(&no_number).unwrap_err(), "missing number in amount");
    let bad = vec![obj(vec![
        ("date", s("d")),
        ("account", s("A")),
        ("amount", obj(vec![("currency", s("EUR")), ("number", s("1.2.3"))])),
    ])];
    assert_eq!(balance_assert::parse_rows(&bad).unwrap_err(), "invalid decimal: 1.2.3");
}

#[test]
fn price_parse_rows_happy_path() {
    let json = vec![obj(vec![
        ("date", s("2025-03-15")),
        ("currency", s("EUR")),
        ("amount", obj(vec![("number", s("1.0523")), ("currency", s("USD"))])),
    ])];
    let rows = price::parse_rows(&json).unwrap();
    assert_eq!(rows.len(), 1);
    assert_eq!(rows[0].date, "2025-03-15");
    assert_eq!(rows[0].commodity, "EUR");
    assert_eq!(rows[0].price_currency, "USD");
    assert_eq!(rd(rows[0].price_number), dec("1.0523"));
}

#[test]
fn currency_filter_applied_client_side() {
    let json = vec![
        obj(vec![
            ("date", s("2025-01-01")),
            ("currency", s("AAPL")),
            ("amount", obj(vec![("number", s("150.00")), ("currency", s("USD"))])),
        ]),
        obj(vec![
            ("date", s("2025-01-01")),
            ("currency", s("AAPL")),
            ("amount", obj(vec![("number", s("138.50")), ("currency", s("EUR"))])),
        ]),
    ];
    let rows = price::parse_rows(&json).unwrap();
    let filter = vec!["USD".to_string()];
    let rows = price::filter_currencies(rows, &filter);
    assert_eq!(rows.len(), 1);
    assert_eq!(rows[0].price_currency, "USD");
}

#[test]
fn price_currency_filter_is_case_insensitive_and_keeps_all_without_currencies() {
    let json = vec![
        obj(vec![("date", s("d1")), ("currency", s("X")), ("amount", obj(vec![("number", s("1")), ("currency", s("USD"))]))]),
        obj(vec![("date", s("d2")), ("currency", s("X")), ("amount", obj(vec![("number", s("2")), ("currency", s("CHF"))]))]),
    ];
    let rows = price::parse_rows(&json).unwrap();
    let none: Vec<String> = vec![];
    assert_eq!(price::filter_currencies(rows, &none).len(), 2);
    let rows = price::parse_rows(&json).unwrap();
    let kept = price::filter_currencies(rows, &vec![" chf ,gbp".to_string()]);
    assert_eq!(kept.len(), 1);
    assert_eq!(kept[0].date, "d2");
}

#[test]
fn assert_run_filters_and_formats() {
    let json = vec![
        obj(vec![("date", s("d1")), ("account", s("A")), ("amount", obj(vec![("number", s("100.00")), ("currency", s("USD"))]))]),
        obj(vec![("date", s("d2")), ("account", s("B")), ("amount", obj(vec![("number", s("5.50")), ("currency", s("EUR"))]))]),
    ];
    let opts = CommonOptions { currency: vec!["usd".to_string()], ..CommonOptions::default() };
    let t = balance_assert::run(&opts, &json).unwrap();
    assert_eq!(t.header, vec!["Date", "Account", "Balance"]);
    assert_eq!(t.rows, vec![vec!["d1".to_string(), "A".to_string(), "100 USD".to_string()]]);
}

#[test]
fn register_parse_rows_happy_path() {
    let json = vec![obj(vec![
        ("date", s("2025-03-15")),
        ("account", s("Assets:Bank:Checking")),
        ("payee", s("Employer")),
        ("narration", s("Salary")),
        ("position", obj(vec![("cost", Json::Null), ("units", obj(vec![("currency", s("EUR")), ("number", s("1000"))]))])),
    ])];
    let rows = register::parse_rows(&json).unwrap();
    assert_eq!(rows.len(), 1);
    assert_eq!(rows[0].date, "2025-03-15");
    assert_eq!(rows[0].account, "Assets:Bank:Checking");
    assert_eq!(rows[0].payee, "Employer");
    assert_eq!(rows[0].narration, "Salary");
    assert_eq!(rows[0].currency, "EUR");
    assert_eq!(rd(rows[0].amount), dec("1000"));
}

#[test]
fn parse_rows_null_payee() {
    let json = vec![obj(vec![
        ("date", s("2025-01-01")),
        ("account", s("Assets:Bank:Checking")),
        ("payee", Json::Null),
        ("narration", s("Initial Balance")),
        ("position", obj(vec![("cost", Json::Null), ("units", obj(vec![("currency", s("EUR")), ("number", s("1000"))]))])),
    ])];
    let rows = register::parse_rows(&json).unwrap();
    assert_eq!(rows[0].payee, "");
}

#[test]
fn register_parse_rows_reads_converted_position() {
    let json = vec![obj(vec![
        ("date", s("2025-07-15")),
        ("account", s("Assets:Bank:Bank03581")),
        ("position", obj(vec![("units", obj(vec![("currency", s("CHF")), ("number", s("3000"))]))])),
        ("Converted", obj(vec![("currency", s("EUR")), ("number", s("3194.10"))])),
    ])];
    let rows = register::parse_rows(&json).unwrap();
    let c = rows[0].converted_amount.as_ref().unwrap();
    assert_eq!(c.currency, "EUR");
    assert_eq!(rd(c.amount), dec("3194.10"));
    let bad = vec![obj(vec![
        ("date", s("d")),
        ("account", s("A")),
        ("position", obj(vec![("units", obj(vec![("currency", s("CHF")), ("number", s("1"))]))])),
        ("Converted", obj(vec![("number", s("1"))])),
    ])];
    assert_eq!(register::parse_rows(&bad).unwrap_err(), "missing currency in converted position");
}

#[test]
fn balance_parse_rows_reads_inventories() {
    let pos = |c: &str, n: &str| obj(vec![("currency", s(c)), ("number", s(n))]);
    let json = vec![obj(vec![
        ("account", s("Assets:Bank:Checking")),
        ("Balance", obj(vec![("positions", Json::Array(vec![pos("EUR", "1369.80"), pos("USD", "7")]))])),
    ])];
    let rows = balance::parse_rows(&json).unwrap();
    assert_eq!(rows[0].account, "Assets:Bank:Checking");
    assert_eq!(rows[0].positions.len(), 2);
    assert_eq!(rows[0].positions[1].currency, "USD");
    assert_eq!(rd(rows[0].positions[0].amount), dec("1369.80"));
    assert!(rows[0].converted_positions.is_none());
    let missing = vec![obj(vec![("account", s("A"))])];
    assert_eq!(balance::parse_rows(&missing).unwrap_err(), "missing positions array in Balance");
    let bad_conv = vec![obj(vec![
        ("account", s("A")),
        ("Balance", obj(vec![("positions", Json::Array(vec![]))])),
        ("Converted", Json::Null),
    ])];
    assert_eq!(balance::parse_rows(&bad_conv).unwrap_err(), "missing positions array in Converted");
}

#[test]
fn lots_parse_rows_reads_amounts_and_inventory_quantities() {
    let amount = |c: &str, n: &str| obj(vec![("currency", s(c)), ("number", s(n))]);
    let json = vec![obj(vec![
        ("date", s("2025-09-10")),
        ("account", s("Equity:Stocks")),
        ("symbol", s("ABC")),
        ("quantity", obj(vec![("positions", Json::Array(vec![amount("ABC", "4")]))])),
        ("price", s("1.30")),
        ("cost", amount("EUR", "5.20")),
        ("value", amount("EUR", "5.60")),
    ])];
    let rows = lots::parse_rows(&json).unwrap();
    assert_eq!(rows[0].quantity.currency, "ABC");
    assert_eq!(rd(rows[0].quantity.amount), dec("4"));
    assert_eq!(rd(rows[0].price), dec("1.30"));
    assert_eq!(rows[0].cost.currency, "EUR");
    assert_eq!(rd(rows[0].value.amount), dec("5.60"));
}

#[test]
fn lots_parse_errors_follow_field_order() {
    let amount = |c: &str, n: &str| obj(vec![("currency", s(c)), ("number", s(n))]);
    let base = |q: Json, price: Json| {
        vec![obj(vec![
            ("date", s("d")),
            ("account", s("A")),
            ("symbol", s("S")),
            ("quantity", q),
            ("price", price),
            ("cost", amount("EUR", "1")),
            ("value", amount("EUR", "1")),
        ])]
    };
    assert_eq!(lots::parse_rows(&base(Json::Null, s("1"))).unwrap_err(), "missing positions array in quantity");
    assert_eq!(
        lots::parse_rows(&base(obj(vec![("positions", Json::Array(vec![]))]), s("1"))).unwrap_err(),
        "empty positions array in quantity"
    );
    assert_eq!(lots::parse_rows(&base(amount("X", "1"), Json::Null)).unwrap_err(), "missing price field");
    assert_eq!(lots::parse_rows(&base(amount("X", "1"), s("abc"))).unwrap_err(), "invalid decimal in price: abc");
    let no_symbol = vec![obj(vec![("date", s("d")), ("account", s("A"))])];
    assert_eq!(lots::parse_rows(&no_symbol).unwrap_err(), "missing symbol field");
    let avg = vec![obj(vec![
        ("date", s("d")),
        ("account", s("A")),
        ("symbol", s("S")),
        ("quantity", amount("S", "2")),
        ("avg_price", s("3")),
        ("total_cost", obj(vec![("number", s("6"))])),
        ("value", amount("EUR", "1")),
    ])];
    assert_eq!(lots::parse_average_rows(&avg).unwrap_err(), "missing currency in total_cost");
}
