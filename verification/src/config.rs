//! Where the ledger file and the `rledger` program are found.
use vstd::prelude::*;
use std::path::PathBuf;

verus! {

/// The configuration of a run: the ledger file and the `rledger` program.
#[derive(Debug)]
pub struct Config {
    pub ledger_file: PathBuf,
    pub rledger_bin: String,
}

/// Why no configuration could be made.
#[derive(Debug)]
pub enum ConfigError {
    /// Neither `--ledger`, `LEDGER_FILE` nor `BEANCOUNT_FILE` names a file.
    MissingLedgerFile,
    /// The ledger file does not exist.
    LedgerFileNotFound(PathBuf),
}

/// The ledger file to use, as given on the command line or as named by an
/// environment variable.
#[derive(Debug)]
pub enum LedgerPath {
    Given(PathBuf),
    Named(String),
}

/// Picks the ledger file: `--ledger` first, then `LEDGER_FILE`, then
/// `BEANCOUNT_FILE`; none of them is an error.
pub fn choose_ledger_file(
    ledger_override: Option<PathBuf>,
    ledger_env: Option<String>,
    beancount_env: Option<String>,
) -> (r: Result<LedgerPath, ConfigError>)
    ensures
        match ledger_override {
            Some(p) => r matches Ok(LedgerPath::Given(q)) && q == p,
            None => match ledger_env {
                Some(s) => r matches Ok(LedgerPath::Named(t)) && t@ == s@,
                None => match beancount_env {
                    Some(s) => r matches Ok(LedgerPath::Named(t)) && t@ == s@,
                    None => r matches Err(ConfigError::MissingLedgerFile),
                },
            },
        },
{
    match ledger_override {
        Some(p) => Ok(LedgerPath::Given(p)),
        None => match ledger_env {
            Some(s) => Ok(LedgerPath::Named(s)),
            None => match beancount_env {
                Some(s) => Ok(LedgerPath::Named(s)),
                None => Err(ConfigError::MissingLedgerFile),
            },
        },
    }
}

/// The `rledger` program: `RLEDGER_BIN` when set, else `rledger`.
pub fn rledger_bin(env: Option<String>) -> (r: String)
    ensures
        r@ == match env {
            Some(s) => s@,
            None => "rledger"@,
        },
{
    match env {
        Some(s) => s,
        None => String::from_str("rledger"),
    }
}

} // verus!
