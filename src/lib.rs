//! A plain-text, double-entry style ledger: declared accounts, two-legged
//! transactions and commodity prices, with validation, filters, balance
//! aggregation, period grouping and re-pricing.
//!
//! Monetary values are fixed-point integers with six decimal places
//! (see [`amount`]); dates are calendar dates (see [`date`]).

pub mod accounts;
pub mod amount;
pub mod balances;
pub mod cli;
pub mod date;
pub mod document;
pub mod import;
pub mod ledger;
pub mod periods;
pub mod price;
pub mod reports;
pub mod text;
pub mod transaction;
pub mod utils;

pub use accounts::{Account, AccountType};
pub use cli::{Args, Commands};
pub use ledger::Ledger;
pub use date::Date;
pub use price::Price;
pub use transaction::Transaction;
