use qqrl::commands::balance::Position;
use qqrl::commands::register::{format_running_totals, register_table, RegisterRow};
use qqrl::decimal::Decimal;

fn dec(x: &str) -> Decimal {
    let d: rust_decimal::Decimal = x.parse().unwrap();
    Decimal { mantissa: d.mantissa(), scale: d.scale() }
}

fn posting(date: &str, amount: &str, currency: &str, converted: Option<(&str, &str)>) -> RegisterRow {
    RegisterRow {
        date: date.to_string(),
        account: "Assets:Bank".to_string(),
        payee: "P".to_string(),
        narration: "N".to_string(),
        amount: dec(amount),
        currency: currency.to_string(),
        converted_amount: converted.map(|(n, c)| Position { currency: c.to_string(), amount: dec(n) }),
    }
}

#[test]
fn register_running_totals_accumulate_per_currency() {
    let rows = vec![
        posting("d1", "1000", "EUR", None),
        posting("d2", "-20", "EUR", None),
        posting("d3", "7", "USD", None),
    ];
    let t = register_table(&rows, true, &None).unwrap();
    assert_eq!(t.header, vec!["Date", "Account", "Payee", "Narration", "Amount", "Running Total"]);
    assert_eq!(t.rows[0], vec!["d1", "Assets:Bank", "P", "N", "1,000.00 EUR", "1,000.00 EUR"]);
    assert_eq!(t.rows[1][5], "980.00 EUR");
    assert_eq!(t.rows[2][5], "7.00 USD 980.00 EUR");
}

#[test]
fn register_without_total_has_no_total_columns() {
    let rows = vec![posting("d1", "5", "EUR", Some(("5.5", "USD"))), posting("d2", "1", "EUR", None)];
    let t = register_table(&rows, false, &Some("usd".to_string())).unwrap();
    assert_eq!(t.header, vec!["Date", "Account", "Payee", "Narration", "Amount", "Amount (USD)"]);
    assert_eq!(t.rows[0][5], "5.50 USD");
    assert_eq!(t.rows[1][5], "");
}

#[test]
fn register_converted_running_total() {
    let rows = vec![posting("d1", "3000", "CHF", Some(("3194.10", "EUR"))), posting("d2", "10", "CHF", Some(("10.5", "EUR")))];
    let t = register_table(&rows, true, &Some("eur".to_string())).unwrap();
    assert_eq!(
        t.header,
        vec!["Date", "Account", "Payee", "Narration", "Amount", "Running Total", "Amount (EUR)", "Total (EUR)"]
    );
    assert_eq!(t.rows[0][7], "3,194.10 EUR");
    assert_eq!(t.rows[1][5], "3,010.00 CHF");
    assert_eq!(t.rows[1][7], "3,204.60 EUR");
}

#[test]
fn register_overflow_is_an_error_even_without_total() {
    let max = "79228162514264337593543950335";
    let rows = vec![posting("d1", max, "EUR", None), posting("d2", max, "EUR", None)];
    assert!(register_table(&rows, false, &None).is_err());
}

#[test]
fn running_totals_are_sorted_as_text() {
    let totals = vec![
        Position { currency: "CHF".to_string(), amount: dec("5") },
        Position { currency: "EUR".to_string(), amount: dec("10") },
        Position { currency: "USD".to_string(), amount: dec("-2") },
    ];
    assert_eq!(format_running_totals(&totals), "-2.00 USD 10.00 EUR 5.00 CHF");
}
