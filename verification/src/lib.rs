//! A personal double-entry bookkeeping ledger.
//!
//! The crate stores accounts and transactions in an in-memory ledger store
//! and answers balance queries, both current and as of a given date. Every
//! transaction moves an amount from a source account to a destination
//! account; balances are always derived from the transaction history rather
//! than kept as running totals.

pub mod balance;
pub mod cli;
pub mod client;
pub mod import;
pub mod models;

pub use client::{Client, LedgerError};
pub use models::accounts::{Account, AccountId, AccountType, NewAccount};
pub use models::transactions::{NewTransaction, Transaction, TransactionId};
