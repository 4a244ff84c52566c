//! The subcommands: query building, row reading and presentation logic.
pub mod balance_assert;
pub mod balance;
pub mod lots;
pub mod price;
pub mod register;
pub mod query;
pub mod query_laws;
