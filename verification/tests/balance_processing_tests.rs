use qqrl::cli::CommonOptions;
use qqrl::commands::balance::{
    apply_amount_filters, apply_depth_collapse, apply_hierarchy, balance_table, compute_grand_total, process_rows,
    retain_nonzero, retain_shallow, BalanceError, BalanceRow, Position,
};
use qqrl::decimal::Decimal;
use qqrl::utils::UtilsError;

fn dec(x: &str) -> Decimal {
    let d: rust_decimal::Decimal = x.parse().unwrap();
    Decimal { mantissa: d.mantissa(), scale: d.scale() }
}

fn rd(d: Decimal) -> rust_decimal::Decimal {
    rust_decimal::Decimal::from_i128_with_scale(d.mantissa, d.scale)
}

fn pos(c: &str, n: &str) -> Position {
    Position { currency: c.to_string(), amount: dec(n) }
}

fn row(account: &str, positions: Vec<Position>) -> BalanceRow {
    BalanceRow { account: account.to_string(), positions, converted_positions: None }
}

#[test]
fn apply_hierarchy_aggregates_parents() {
    let rows = vec![
        row("Assets:Bank:Checking", vec![pos("EUR", "1000")]),
        row("Assets:Bank:Savings", vec![pos("EUR", "500")]),
    ];
    let result = apply_hierarchy(rows).unwrap();
    let accounts: Vec<&str> = result.iter().map(|r| r.account.as_str()).collect();
    assert!(accounts.contains(&"Assets"));
    assert!(accounts.contains(&"Assets:Bank"));
    assert!(accounts.contains(&"Assets:Bank:Checking"));
    assert!(accounts.contains(&"Assets:Bank:Savings"));
    let assets = result.iter().find(|r| r.account == "Assets").unwrap();
    assert_eq!(rd(assets.positions[0].amount), "1500".parse::<rust_decimal::Decimal>().unwrap());
    let bank = result.iter().find(|r| r.account == "Assets:Bank").unwrap();
    assert_eq!(rd(bank.positions[0].amount), "1500".parse::<rust_decimal::Decimal>().unwrap());
}

#[test]
fn apply_depth_collapse_works() {
    let rows = vec![
        row("Assets:Bank:Checking", vec![pos("EUR", "1000")]),
        row("Assets:Bank:Savings", vec![pos("EUR", "500")]),
        row("Expenses:Food", vec![pos("EUR", "100")]),
    ];
    let result = apply_depth_collapse(rows, 1).unwrap();
    assert_eq!(result.len(), 2);
    let assets = result.iter().find(|r| r.account == "Assets").unwrap();
    assert_eq!(rd(assets.positions[0].amount), "1500".parse::<rust_decimal::Decimal>().unwrap());
}

#[test]
fn hierarchy_orders_accounts_and_currencies_and_sums_converted() {
    let mut a = row("Expenses:Food", vec![pos("USD", "2"), pos("EUR", "1.5")]);
    a.converted_positions = Some(vec![pos("CHF", "3")]);
    let b = row("Assets:Cash", vec![pos("EUR", "10")]);
    let mut c = row("Expenses:Food:Bio", vec![pos("EUR", "0.25")]);
    c.converted_positions = Some(vec![pos("CHF", "0.5")]);
    let out = apply_hierarchy(vec![a, b, c]).unwrap();
    let accounts: Vec<&str> = out.iter().map(|r| r.account.as_str()).collect();
    assert_eq!(accounts, vec!["Assets", "Assets:Cash", "Expenses", "Expenses:Food", "Expenses:Food:Bio"]);
    let food = &out[3];
    assert_eq!(food.positions.iter().map(|p| p.currency.as_str()).collect::<Vec<_>>(), vec!["EUR", "USD"]);
    assert_eq!(rd(food.positions[0].amount).to_string(), "1.75");
    assert_eq!(rd(food.converted_positions.as_ref().unwrap()[0].amount).to_string(), "3.5");
    assert!(out[0].converted_positions.is_none());
    assert!(out[1].converted_positions.is_none());
}

#[test]
fn hierarchy_overflow_is_an_error() {
    let max = "79228162514264337593543950335";
    let rows = vec![row("A:B", vec![pos("EUR", max)]), row("A:C", vec![pos("EUR", max)])];
    assert!(apply_hierarchy(rows).is_err());
}

#[test]
fn depth_collapse_keeps_shallow_accounts_and_sums_converted() {
    let mut a = row("Assets:Bank:Checking", vec![pos("EUR", "1")]);
    a.converted_positions = Some(vec![pos("USD", "1.1")]);
    let mut b = row("Assets:Bank:Savings", vec![pos("EUR", "2")]);
    b.converted_positions = Some(vec![pos("USD", "2.2")]);
    let c = row("Income", vec![pos("EUR", "-3")]);
    let out = apply_depth_collapse(vec![a, b, c], 2).unwrap();
    assert_eq!(out.len(), 2);
    assert_eq!(out[0].account, "Assets:Bank");
    assert_eq!(rd(out[0].positions[0].amount).to_string(), "3");
    assert_eq!(rd(out[0].converted_positions.as_ref().unwrap()[0].amount).to_string(), "3.3");
    assert_eq!(out[1].account, "Income");
    assert!(out[1].converted_positions.is_none());
}

#[test]
fn grand_total_counts_top_level_rows_in_a_hierarchy() {
    let rows = vec![
        row("Assets", vec![pos("EUR", "15")]),
        row("Assets:Bank", vec![pos("EUR", "15")]),
        row("Expenses", vec![pos("EUR", "5"), pos("CHF", "1")]),
    ];
    let t = compute_grand_total(&rows, true, None).unwrap().unwrap();
    assert_eq!(t.positions.len(), 2);
    assert_eq!(t.positions[0].currency, "CHF");
    assert_eq!(rd(t.positions[1].amount).to_string(), "20");
    assert!(t.converted_positions.is_none());
    let flat = compute_grand_total(&rows, false, None).unwrap().unwrap();
    assert_eq!(rd(flat.positions[1].amount).to_string(), "35");
    let shallow = compute_grand_total(&rows, false, Some(1)).unwrap().unwrap();
    assert_eq!(rd(shallow.positions[1].amount).to_string(), "20");
    let empty: Vec<BalanceRow> = vec![];
    assert!(compute_grand_total(&empty, false, None).unwrap().is_none());
    let no_positions = vec![row("A", vec![])];
    assert!(compute_grand_total(&no_positions, false, None).unwrap().is_none());
}

#[test]
fn amount_filters_keep_rows_passing_all_filters() {
    let rows = vec![
        row("A", vec![pos("EUR", "150")]),
        row("B", vec![pos("EUR", "20")]),
        row("C", vec![pos("USD", "500"), pos("EUR", "1")]),
    ];
    let out = apply_amount_filters(rows, &vec![">100".to_string(), "<1000".to_string()]).unwrap();
    assert_eq!(out.iter().map(|r| r.account.as_str()).collect::<Vec<_>>(), vec!["A", "C"]);
    let rows = vec![row("A", vec![pos("EUR", "150")]), row("C", vec![pos("USD", "500")])];
    let out = apply_amount_filters(rows, &vec![">100eur".to_string()]).unwrap();
    assert_eq!(out.len(), 1);
    assert_eq!(out[0].account, "A");
    let rows = vec![row("Z", vec![pos("EUR", "0.00")]), row("N", vec![pos("EUR", "1")])];
    let out = apply_amount_filters(rows, &vec!["=0".to_string()]).unwrap();
    assert_eq!(out.len(), 1);
    assert_eq!(out[0].account, "Z");
    let rows = vec![row("A", vec![pos("EUR", "5")])];
    let out = apply_amount_filters(rows, &vec![">=5".to_string(), "<=5".to_string()]).unwrap();
    assert_eq!(out.len(), 1);
}

#[test]
fn amount_filter_not_equal_keeps_other_amounts() {
    let rows = vec![
        row("Z", vec![pos("USD", "0.00")]),
        row("N", vec![pos("USD", "3")]),
        row("E", vec![pos("EUR", "0")]),
    ];
    let out = apply_amount_filters(rows, &vec!["!=0USD".to_string()]).unwrap();
    assert_eq!(out.iter().map(|r| r.account.as_str()).collect::<Vec<_>>(), vec!["N"]);
}

#[test]
fn amount_filter_error_names_the_first_bad_argument() {
    let rows = vec![row("A", vec![pos("EUR", "1")])];
    let err = apply_amount_filters(rows, &vec![">1".to_string(), "abc".to_string(), "xyz".to_string()]).unwrap_err();
    assert_eq!(err, UtilsError::InvalidAmountFilter("abc".to_string()));
}

#[test]
fn depth_and_zero_retention() {
    let rows = vec![row("A", vec![pos("EUR", "0")]), row("A:B", vec![pos("EUR", "1")]), row("A:B:C", vec![])];
    let shallow = retain_shallow(rows, 2);
    assert_eq!(shallow.iter().map(|r| r.account.as_str()).collect::<Vec<_>>(), vec!["A", "A:B"]);
    let nonzero = retain_nonzero(shallow);
    assert_eq!(nonzero.len(), 1);
    assert_eq!(nonzero[0].account, "A:B");
}

#[test]
fn process_rows_runs_the_options_in_order() {
    let rows = vec![
        row("Assets:Bank:Checking", vec![pos("EUR", "1000")]),
        row("Assets:Bank:Savings", vec![pos("EUR", "500")]),
        row("Expenses:Food", vec![pos("EUR", "0")]),
    ];
    let opts = CommonOptions { hierarchy: true, depth: Some(2), zero: true, total: true, ..CommonOptions::default() };
    let rep = process_rows(&opts, rows).unwrap();
    let accounts: Vec<&str> = rep.rows.iter().map(|r| r.account.as_str()).collect();
    assert_eq!(accounts, vec!["Assets", "Assets:Bank"]);
    let total = rep.total.unwrap();
    assert_eq!(rd(total.positions[0].amount).to_string(), "1500");

    let bad = CommonOptions { amount: vec!["oops".to_string()], ..CommonOptions::default() };
    match process_rows(&bad, vec![]) {
        Err(BalanceError::Filter(UtilsError::InvalidAmountFilter(m))) => assert_eq!(m, "oops"),
        other => panic!("unexpected {:?}", other),
    }
}

#[test]
fn balance_table_with_exchange_and_total() {
    let mut a = row("Assets:Bank", vec![pos("EUR", "1369.8"), pos("USD", "-7")]);
    a.converted_positions = Some(vec![pos("CHF", "1234567.891")]);
    let b = row("Income", vec![pos("EUR", "-20")]);
    let opts = CommonOptions { total: true, exchange: Some("chf".to_string()), ..CommonOptions::default() };
    let rep = process_rows(&opts, vec![a, b]).unwrap();
    let t = balance_table(&rep, &opts.exchange);
    assert_eq!(t.header, vec!["Account", "Balance", "Total (CHF)"]);
    assert_eq!(t.rows[0], vec!["Assets:Bank", "1,369.80 EUR -7.00 USD", "1,234,567.89 CHF"]);
    assert_eq!(t.rows[1], vec!["Income", "-20.00 EUR", ""]);
    assert_eq!(t.rows[2], vec!["-------------------", "-------------------", "-------------------"]);
    assert_eq!(t.rows[3], vec!["Total", "1,349.80 EUR -7.00 USD", "1,234,567.89 CHF"]);
}
