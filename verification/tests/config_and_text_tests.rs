use qqrl::config::{choose_ledger_file, rledger_bin, ConfigError, LedgerPath};
use qqrl::text::{sort_strings, str_less, trim_start_str};
use std::path::PathBuf;

#[test]
fn ledger_file_precedence() {
    let p = PathBuf::from("/tmp/x.bean");
    match choose_ledger_file(Some(p.clone()), Some("a".to_string()), Some("b".to_string())) {
        Ok(LedgerPath::Given(q)) => assert_eq!(q, p),
        other => panic!("unexpected {:?}", other),
    }
    match choose_ledger_file(None, Some("a".to_string()), Some("b".to_string())) {
        Ok(LedgerPath::Named(s)) => assert_eq!(s, "a"),
        other => panic!("unexpected {:?}", other),
    }
    match choose_ledger_file(None, None, Some("b".to_string())) {
        Ok(LedgerPath::Named(s)) => assert_eq!(s, "b"),
        other => panic!("unexpected {:?}", other),
    }
    assert!(matches!(choose_ledger_file(None, None, None), Err(ConfigError::MissingLedgerFile)));
}

#[test]
fn rledger_bin_defaults_to_rledger() {
    assert_eq!(rledger_bin(None), "rledger");
    assert_eq!(rledger_bin(Some("/opt/rledger".to_string())), "/opt/rledger");
}

#[test]
fn string_order_is_by_code_point() {
    assert!(str_less("Assets", "Assets:Bank"));
    assert!(str_less("Assets:Bank", "Expenses"));
    assert!(str_less("Z", "a"));
    assert!(!str_less("b", "a"));
    assert!(!str_less("a", "a"));
    let v = vec!["b".to_string(), "a".to_string(), "B".to_string(), "a".to_string()];
    assert_eq!(sort_strings(&v), vec!["B", "a", "a", "b"]);
}

#[test]
fn trimming_treats_exactly_unicode_whitespace_as_space() {
    for code in 0u32..=0x10FFFF {
        if let Some(c) = char::from_u32(code) {
            let text = format!("{c}x");
            assert_eq!(trim_start_str(&text), text.trim_start(), "character U+{code:04X}");
        }
    }
}
