//! The command line's shape: the subcommands and their options.
use vstd::prelude::*;
use std::path::PathBuf;

verus! {

/// A file-system path, carried through unchanged.
#[verifier::external_type_specification]
#[verifier::external_body]
pub struct ExPathBuf(PathBuf);

/// The parsed command line.
#[derive(Debug)]
pub struct Args {
    pub command: Command,
}

/// The subcommands.
#[derive(Debug)]
pub enum Command {
    /// Account balances
    Balance(CommonOptions),
    /// Transaction register
    Register(CommonOptions),
    /// Execute named queries from the ledger file
    Query(CommonOptions),
    /// Investment lots and cost basis
    Lots(LotsOptions),
    /// Balance assertions
    Assert(CommonOptions),
    /// Price history
    Price(CommonOptions),
}

/// Options shared by all commands except `lots`.
#[derive(Debug)]
pub struct CommonOptions {
    /// Account pattern(s) to filter ('Assets not Bank @Employer')
    pub account: Vec<String>,
    /// Start date (YYYY-MM-DD or date range format)
    pub begin: Option<String>,
    /// End date (YYYY-MM-DD or date range format)
    pub end: Option<String>,
    /// Date range (YYYY-MM..YYYY-MM or YYYY-MM-DD..YYYY-MM-DD)
    pub date_range: Option<String>,
    /// Amount filter(s), e.g. '>100EUR', '<=50USD'
    pub amount: Vec<String>,
    /// Currency filter(s), e.g. 'EUR' or 'EUR,USD'
    pub currency: Vec<String>,
    /// Exchange currency: convert all amounts to this currency
    pub exchange: Option<String>,
    /// Sort by field(s); prefix with '-' for descending
    pub sort: Option<String>,
    /// Limit number of results
    pub limit: Option<usize>,
    /// Show running total / summary
    pub total: bool,
    /// Disable pager output
    pub no_pager: bool,
    /// Show account hierarchy (balance command only)
    pub hierarchy: bool,
    /// Include empty accounts (balance command only)
    pub empty: bool,
    /// Limit account tree depth (balance command only)
    pub depth: Option<u32>,
    /// Exclude accounts with zero balance (balance command only)
    pub zero: bool,
    /// Ledger file path (overrides the LEDGER_FILE variable)
    pub ledger: Option<PathBuf>,
    /// List the saved queries (query command only)
    pub list: bool,
}

impl Default for CommonOptions {
    fn default() -> (o: Self)
        ensures
            o.account@.len() == 0,
            o.begin is None,
            o.end is None,
            o.date_range is None,
            o.amount@.len() == 0,
            o.currency@.len() == 0,
            o.exchange is None,
            o.sort is None,
            o.limit is None,
            !o.total,
            !o.no_pager,
            !o.hierarchy,
            !o.empty,
            o.depth is None,
            !o.zero,
            o.ledger is None,
            !o.list,
    {
        CommonOptions {
            account: Vec::new(),
            begin: None,
            end: None,
            date_range: None,
            amount: Vec::new(),
            currency: Vec::new(),
            exchange: None,
            sort: None,
            limit: None,
            total: false,
            no_pager: false,
            hierarchy: false,
            empty: false,
            depth: None,
            zero: false,
            ledger: None,
            list: false,
        }
    }
}

/// Options for the `lots` command.
#[derive(Debug)]
pub struct LotsOptions {
    /// Account pattern(s) to filter ('Assets not Bank @Employer')
    pub account: Vec<String>,
    /// Start date (YYYY-MM-DD or date range format)
    pub begin: Option<String>,
    /// End date (YYYY-MM-DD or date range format)
    pub end: Option<String>,
    /// Date range (YYYY-MM..YYYY-MM or YYYY-MM-DD..YYYY-MM-DD)
    pub date_range: Option<String>,
    /// Amount filter(s), e.g. '>100EUR', '<=50USD'
    pub amount: Vec<String>,
    /// Currency filter(s), e.g. 'EUR' or 'EUR,USD'
    pub currency: Vec<String>,
    /// Exchange currency: convert all amounts to this currency
    pub exchange: Option<String>,
    /// Sort by field(s); prefix with '-' for descending
    pub sort: Option<String>,
    /// Limit number of results
    pub limit: Option<usize>,
    /// Disable pager output
    pub no_pager: bool,
    /// Sort lots by date, price, or symbol
    pub sort_by: Option<String>,
    /// Show average cost for each symbol
    pub average: bool,
    /// Show only active/open lots
    pub active: bool,
    /// Show all lots, including sold ones
    pub show_all: bool,
    /// Show only closed/inactive lots
    pub closed: bool,
    /// Ledger file path (overrides the LEDGER_FILE variable)
    pub ledger: Option<PathBuf>,
}

} // verus!
