//! A double-entry bookkeeping ledger: a chart of accounts kept as a forest,
//! balanced transactions, and balances under normal-balance sign rules,
//! single, rolled up over a subtree, or up to a date.
//!
//! The store (`db`) keeps the three tables of the ledger in memory, each in
//! the order of its ids; the services work on it, and whoever keeps the rows
//! elsewhere hands them in and takes the new rows back.

pub mod account;
pub mod account_service;
pub mod date;
pub mod db;
pub mod errors;
pub mod money;
pub mod report_service;
pub mod rollup;
pub mod text;
pub mod transaction;
pub mod transaction_repository;
pub mod transaction_service;
pub mod tree;

pub use crate::account::{Account, AccountNode, AccountType};
pub use crate::account_service::AccountService;
pub use crate::errors::{CurrencyError, WalletError};
pub use crate::money::{Currency, Money};
pub use crate::report_service::ReportService;
pub use crate::transaction::{EntryType, Transaction, TransactionEntry, TransactionEntryInput, TransactionFilters};
pub use crate::transaction_service::TransactionService;
