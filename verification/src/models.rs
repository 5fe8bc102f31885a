//! The ledger's data model: calendar dates, accounts and transactions.

pub mod accounts;
pub mod date;
pub mod transactions;
