use qqrl::commands::balance::format_amount;
use qqrl::commands::balance_assert::format_balance;
use qqrl::commands::price::format_price;
use qqrl::decimal::Decimal;
use qqrl::numfmt::{format_decimal, group_thousands_exec, with_separators_exec};

fn dec(x: &str) -> Decimal {
    let d: rust_decimal::Decimal = x.parse().unwrap();
    Decimal { mantissa: d.mantissa(), scale: d.scale() }
}

#[test]
fn format_amount_basic() {
    assert_eq!(format_amount(dec("1369.80"), "EUR"), "1,369.80 EUR");
    assert_eq!(format_amount(dec("20"), "EUR"), "20.00 EUR");
    assert_eq!(format_amount(dec("-1000"), "EUR"), "-1,000.00 EUR");
    assert_eq!(format_amount(dec("-7"), "USD"), "-7.00 USD");
    assert_eq!(format_amount(dec("1234567.89"), "CHF"), "1,234,567.89 CHF");
}

#[test]
fn format_amount_positive() {
    assert_eq!(format_amount(dec("20.00"), "EUR"), "20.00 EUR");
    assert_eq!(format_amount(dec("1000.00"), "EUR"), "1,000.00 EUR");
}

#[test]
fn format_amount_negative() {
    assert_eq!(format_amount(dec("-100.00"), "EUR"), "-100.00 EUR");
}

#[test]
fn format_amount_rounds_half_to_even() {
    assert_eq!(format_amount(dec("2.345"), "EUR"), "2.34 EUR");
    assert_eq!(format_amount(dec("2.355"), "EUR"), "2.36 EUR");
}

#[test]
fn format_decimal_groups_thousands() {
    assert_eq!(format_decimal(dec("999")), "999.00");
    assert_eq!(format_decimal(dec("1000")), "1,000.00");
    assert_eq!(format_decimal(dec("-123456.5")), "-123,456.50");
}

#[test]
fn separators_on_given_text() {
    assert_eq!(with_separators_exec("1234567.89"), "1,234,567.89");
    assert_eq!(with_separators_exec("-1000.00"), "-1,000.00");
    assert_eq!(with_separators_exec("12"), "12.");
    assert_eq!(with_separators_exec(""), ".");
    assert_eq!(group_thousands_exec(&vec!['1', '2', '3', '4']), "1,234");
    assert_eq!(group_thousands_exec(&vec![]), "");
}

#[test]
fn format_balance_strips_trailing_zeros() {
    assert_eq!(format_balance(dec("595.47"), "EUR"), "595.47 EUR");
    assert_eq!(format_balance(dec("100.00"), "USD"), "100 USD");
    assert_eq!(format_balance(dec("5775.09"), "EUR"), "5775.09 EUR");
}

#[test]
fn format_price_strips_trailing_zeros() {
    assert_eq!(format_price(dec("1.05000"), "USD"), "1.05 USD");
    assert_eq!(format_price(dec("150.00"), "USD"), "150 USD");
    assert_eq!(format_price(dec("1.0523"), "USD"), "1.0523 USD");
}
