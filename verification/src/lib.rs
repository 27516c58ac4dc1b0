//! A small personal-ledger library: partial calendar dates, revenue/expense
//! entries with fixed-point amounts, flat-file stores with duplicate-id
//! checks and lazy write-back, and a hierarchical aggregation engine that
//! folds a filtered entry set into per-year / per-month / per-day and
//! per-category / per-epic summaries with percentage rollups.

pub mod command;
pub mod date;
pub mod decimal;
pub mod ext;
pub mod entry;
pub mod epic;
pub mod ids;
pub mod node;
pub mod number;
pub mod record;
pub mod shortstring;
pub mod store;
pub mod summary;
pub mod wallet;
