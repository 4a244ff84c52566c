pub mod bql;
pub mod cli;
pub mod commands;
pub mod config;
pub mod date_parser;
pub mod decimal;
pub mod json;
pub mod numfmt;
pub mod report;
pub mod rows;
pub mod runner;
pub mod sums;
pub mod text;
pub mod utils;
