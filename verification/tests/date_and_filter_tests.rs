use qqrl::date_parser::{parse_date, parse_date_range, DateParseError};
use qqrl::utils::{parse_account_params, parse_account_pattern, parse_amount_filter, UtilsError};

#[test]
fn parse_date_basic_formats() {
    assert_eq!(parse_date("2025").unwrap(), "2025-01-01");
    assert_eq!(parse_date("2025-08").unwrap(), "2025-08-01");
    assert_eq!(parse_date("2025-08-15").unwrap(), "2025-08-15");
}

#[test]
fn parse_date_range_shorthand() {
    assert_eq!(parse_date_range("2025").unwrap(), (Some("2025-01-01".to_string()), Some("2026-01-01".to_string())));
    assert_eq!(parse_date_range("2025-08").unwrap(), (Some("2025-08-01".to_string()), Some("2025-09-01".to_string())));
    assert_eq!(
        parse_date_range("2025-08-15").unwrap(),
        (Some("2025-08-15".to_string()), Some("2025-08-16".to_string()))
    );
}

#[test]
fn parse_date_range_interval_syntax() {
    assert_eq!(parse_date_range("2025-08..").unwrap(), (Some("2025-08-01".to_string()), None));
    assert_eq!(parse_date_range("..2025-09").unwrap(), (None, Some("2025-09-01".to_string())));
    assert_eq!(parse_date_range("2025..2026").unwrap(), (Some("2025-01-01".to_string()), Some("2026-01-01".to_string())));
}

#[test]
fn parse_date_rejects_other_shapes() {
    match parse_date("2025/01/01") {
        Err(DateParseError::InvalidDateFormat(s)) => assert_eq!(s, "2025/01/01"),
        other => panic!("unexpected {:?}", other),
    }
    assert_eq!(parse_date("12-2025").unwrap(), "0012-2025-01");
    assert!(parse_date("2025-1-2-3").is_err());
    assert_eq!(parse_date_range("2025-12").unwrap(), (Some("2025-12-01".to_string()), Some("2026-01-01".to_string())));
    assert_eq!(
        parse_date_range("2024-02-28..2024-03").unwrap(),
        (Some("2024-02-28".to_string()), Some("2024-03-01".to_string()))
    );
}

#[test]
fn parse_account_pattern_modes() {
    assert_eq!(parse_account_pattern("^Assets$"), "^Assets$");
    assert_eq!(parse_account_pattern("^Assets:Bank"), "^Assets:Bank");
    assert_eq!(parse_account_pattern("Bank$"), "Bank$");
    assert_eq!(parse_account_pattern("Assets:.*"), "Assets:.*");
}

#[test]
fn parse_account_pattern_escapes_anchored_text() {
    assert_eq!(parse_account_pattern("^A.B$"), "^A\\.B$");
    assert_eq!(parse_account_pattern("^(x)"), "^\\(x\\)");
    assert_eq!(parse_account_pattern("$"), "$");
}

#[test]
fn parse_account_params_not_and_payee() {
    let input = vec![
        "Assets".to_string(),
        "not".to_string(),
        "Liabilities".to_string(),
        "@amazon".to_string(),
        "Income".to_string(),
    ];
    let parsed = parse_account_params(&input);
    assert_eq!(parsed.account_regexes, vec!["Assets", "Income"]);
    assert_eq!(parsed.excluded_account_regexes, vec!["Liabilities"]);
    assert_eq!(parsed.where_clauses, vec!["description ~ 'amazon'"]);
}

#[test]
fn parse_amount_filter_variants() {
    let filter = parse_amount_filter(">=100.50eur").unwrap();
    assert_eq!(filter.operator, ">=");
    assert_eq!(
        rust_decimal::Decimal::from_i128_with_scale(filter.value.mantissa, filter.value.scale).to_string(),
        "100.50"
    );
    assert_eq!(filter.currency, Some("EUR".to_string()));

    let filter = parse_amount_filter("42").unwrap();
    assert_eq!(filter.operator, "=");
    assert_eq!(rust_decimal::Decimal::from_i128_with_scale(filter.value.mantissa, filter.value.scale).to_string(), "42");
    assert_eq!(filter.currency, None);
}

#[test]
fn parse_amount_filter_errors() {
    assert_eq!(parse_amount_filter("abc").unwrap_err(), UtilsError::InvalidAmountFilter("abc".to_string()));
    assert_eq!(
        parse_amount_filter("<").unwrap_err().message(),
        "Invalid amount filter format: <"
    );
    let f = parse_amount_filter("<-3.5USDX").unwrap();
    assert_eq!(f.operator, "<");
    assert_eq!(f.currency, Some("USD".to_string()));
}

#[test]
fn parse_amount_filter_currency_letters_fold_like_the_pattern() {
    let f = parse_amount_filter(">5ab\u{17F}").unwrap();
    assert_eq!(f.currency, Some("ABS".to_string()));
    let f = parse_amount_filter("=5a1").unwrap();
    assert_eq!(f.currency, None);
}

#[test]
fn parse_amount_filter_number_takes_every_decimal_digit() {
    // an Arabic-Indic digit belongs to the number, which then does not parse
    assert_eq!(
        parse_amount_filter("5\u{663}").unwrap_err(),
        UtilsError::InvalidAmountFilter("5\u{663}".to_string())
    );
    let f = parse_amount_filter("<7.\u{FF11}").unwrap_err();
    assert_eq!(f, UtilsError::InvalidAmountFilter("<7.\u{FF11}".to_string()));
}

#[test]
fn parse_amount_filter_not_equal() {
    let f = parse_amount_filter("!=0USD").unwrap();
    assert_eq!(f.operator, "!=");
    assert_eq!(f.value.mantissa, 0);
    assert_eq!(f.currency, Some("USD".to_string()));
    assert!(parse_amount_filter("!0").is_err());
}

#[test]
fn parse_account_params_places_each_pattern_once() {
    let args: Vec<String> = ["not", "A", "not", "B", "@C", "D"].iter().map(|s| s.to_string()).collect();
    let p = parse_account_params(&args);
    assert_eq!(p.account_regexes.len() + p.excluded_account_regexes.len() + p.where_clauses.len(), 4);
    assert_eq!(p.excluded_account_regexes, vec!["A", "B"]);
    assert_eq!(p.where_clauses, vec!["description ~ 'C'"]);
    assert_eq!(p.account_regexes, vec!["D"]);
}

#[test]
fn parse_account_pattern_escapes_as_the_regex_crate_does() {
    let samples = ["a.b", "x+y*z?", "(a|b)[c]{d}", "^$#&-~\\", "Assets:Bank", "ü.\u{3000}"];
    for s in samples {
        assert_eq!(parse_account_pattern(&format!("^{s}$")), format!("^{}$", regex::escape(s)));
        assert_eq!(parse_account_pattern(&format!("^{s}")), format!("^{}", regex::escape(s)));
    }
    for code in 0u32..0x3000 {
        if let Some(c) = char::from_u32(code).filter(|c| *c != '^') {
            let s = c.to_string();
            assert_eq!(parse_account_pattern(&format!("{s}$")), format!("{}$", regex::escape(&s)));
        }
    }
}

#[test]
fn parse_date_results_read_back_as_themselves() {
    for s in ["2025", "7-3", "+12-011", "2025-03-15", "a-b-c"] {
        let r = parse_date(s).unwrap();
        assert_eq!(parse_date(&r).unwrap(), r);
    }
    assert_eq!(parse_date("7-3").unwrap(), "0007-03-01");
}
