//! Accounts: identity, type and starting balance.

use vstd::prelude::*;

use crate::client::LedgerError;

verus! {

/// Identity of a stored account, assigned by the ledger store on creation.
#[derive(Clone, Copy, Debug, Hash, PartialEq, Eq, Structural)]
pub struct AccountId(pub i32);

/// The closed set of account kinds.
#[derive(Clone, Copy, Debug, Hash, PartialEq, Eq, Structural)]
pub enum AccountType {
    Asset,
    Expense,
    Revenue,
}

impl AccountType {
    /// The stable integer code this variant is stored under.
    pub open spec fn spec_code(self) -> int {
        match self {
            AccountType::Asset => 0,
            AccountType::Expense => 1,
            AccountType::Revenue => 2,
        }
    }

    /// Encode the account type as its stable integer code.
    pub fn code(self) -> (c: i32)
        ensures
            c == self.spec_code(),
    {
        match self {
            AccountType::Asset => 0,
            AccountType::Expense => 1,
            AccountType::Revenue => 2,
        }
    }

    /// Decode a stored integer code; unknown codes are rejected rather than
    /// mapped to an arbitrary variant.
    pub fn try_from_code(value: i32) -> (r: Result<AccountType, LedgerError>)
        ensures
            match r {
                Ok(t) => t.spec_code() == value,
                Err(e) => {
                    &&& e == LedgerError::UnknownAccountTypeCode
                    &&& !(0 <= value <= 2)
                },
            },
    {
        match value {
            0 => Ok(AccountType::Asset),
            1 => Ok(AccountType::Expense),
            2 => Ok(AccountType::Revenue),
            _ => Err(LedgerError::UnknownAccountTypeCode),
        }
    }
}

/// A stored account record.
#[derive(Debug, Hash, PartialEq, Eq)]
pub struct Account {
    pub id: AccountId,
    pub name: String,
    pub account_type: AccountType,
    pub initial_balance: i64,
}

impl Clone for Account {
    /// Cloning an account yields an equal record.
    fn clone(&self) -> (res: Self)
        ensures
            res == *self,
    {
        Account {
            id: self.id,
            name: self.name.clone(),
            account_type: self.account_type,
            initial_balance: self.initial_balance,
        }
    }
}

/// The data needed to create an account; the store assigns the identity.
#[derive(Debug)]
pub struct NewAccount<'a> {
    pub name: &'a str,
    pub account_type: AccountType,
    pub initial_balance: i64,
}

} // verus!
