//! A household ledger: income and expense entries with calendar dates,
//! persisted as one pretty-printed JSON document, summed into monthly
//! and yearly balances, and rendered as report rows.
//!
//! - `models`: entries, categories, dates and the error kinds.
//! - `validate`: the checks on the integer codes the shell reads.
//! - `register`: appending a new entry to the ledger.
//! - `persist`: the document format, with a serializer and parser that
//!   are proved to round-trip.
//! - `summarize`: the by-period (year and month) aggregation and its
//!   report rows.
//! - `statistics`: the by-year and cross-year by-month aggregations.
//! - `decimal`: decimal digit strings shared by the formatters and the
//!   document codec.

pub mod decimal;
pub mod models;
pub mod persist;
pub mod register;
pub mod statistics;
pub mod summarize;
pub mod validate;
