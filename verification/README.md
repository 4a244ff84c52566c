# qqrl

Quick Query for Rust Ledger: a command line that turns Ledger-style
arguments (`bal Assets -b 2025-01 --hierarchy`) into BQL, runs the query
with `rledger`, and prints the result as a table.

The library under `src/` is written in Verus and verified:

- `bql.rs`, `utils.rs`, `date_parser.rs` build the BQL clauses from the
  arguments (account patterns, dates and ranges, amount filters, currency
  lists, sorting, limits);
- `commands/` holds, per command, the query builder, the reading of the
  result rows, the processing of the balance rows (amount filters,
  hierarchy, depth, zero balances, grand total), the running totals of the
  register, the choice of a saved query, and the tables to print;
- `sums.rs` keeps sums per currency and per account in sorted lists;
- `decimal.rs`, `text.rs`, `numfmt.rs`, `json.rs`, `rows.rs`, `runner.rs`,
  `report.rs`, `config.rs` and `cli.rs` hold the values the commands work on.

`app/` is the program around it: argument parsing with clap, the
environment and the ledger file, running `rledger`, converting its JSON,
and printing with comfy-table.
