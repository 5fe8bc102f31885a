//! Transactions: an amount moved from a source account to a destination
//! account on a given date. The ledger is append-only: a transaction is
//! never edited or deleted once stored.

use vstd::prelude::*;

use crate::models::accounts::AccountId;
use crate::models::date::Date;

verus! {

/// Identity of a stored transaction, assigned by the ledger store on
/// creation.
#[derive(Clone, Copy, Debug, Hash, PartialEq, Eq, Structural)]
pub struct TransactionId(pub i32);

/// A stored transaction record.
#[derive(Debug)]
pub struct Transaction {
    pub id: TransactionId,
    pub name: String,
    pub source_account_id: AccountId,
    pub destination_account_id: AccountId,
    pub amount: i64,
    pub date: Date,
}

impl Clone for Transaction {
    /// Cloning a transaction yields an equal record.
    fn clone(&self) -> (res: Self)
        ensures
            res == *self,
    {
        Transaction {
            id: self.id,
            name: self.name.clone(),
            source_account_id: self.source_account_id,
            destination_account_id: self.destination_account_id,
            amount: self.amount,
            date: self.date,
        }
    }
}

/// The data needed to create a transaction; the store assigns the identity.
#[derive(Debug)]
pub struct NewTransaction<'a> {
    pub name: &'a str,
    pub source_account_id: AccountId,
    pub destination_account_id: AccountId,
    pub amount: i64,
    pub date: Date,
}

} // verus!
