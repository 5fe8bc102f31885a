//! Importing a bookkeeping export into the ledger.
//!
//! An export is a list of records, each describing a transaction between
//! two named accounts, with amounts already converted to minor currency
//! units. The import walks the records oldest-first, looks each referenced
//! account up by name and creates it when missing, and replays every
//! record against the engine's write operations: an opening-balance record
//! resets the account's initial balance, every other record becomes a
//! transaction.

use vstd::prelude::*;

use crate::client::{
    account_named, has_account_id, has_account_named, insert_position, lemma_index_by_id,
    lemma_index_by_name, Client, LedgerError,
};
use crate::models::accounts::{Account, AccountType as RufmAccountType, NewAccount};
use crate::models::date::Date;
use crate::models::transactions::{NewTransaction, Transaction};

verus! {

/// The kinds of record an export distinguishes.
#[derive(Clone, Copy, Debug, PartialEq, Eq, Structural)]
pub enum TransactionType {
    Withdrawal,
    Deposit,
    Transfer,
    OpeningBalance,
}

/// The account kinds an export distinguishes; richer than the ledger's
/// own, so importing folds them.
#[derive(Clone, Copy, Debug, PartialEq, Eq, Structural)]
pub enum AccountType {
    Asset,
    Expense,
    Revenue,
    Loan,
    InitialBalance,
}

/// How an exported account kind folds into the ledger's closed set.
pub open spec fn imported_account_type(t: AccountType) -> RufmAccountType {
    match t {
        AccountType::Asset => RufmAccountType::Asset,
        AccountType::Expense => RufmAccountType::Expense,
        AccountType::Revenue => RufmAccountType::Revenue,
        AccountType::Loan => RufmAccountType::Asset,
        AccountType::InitialBalance => RufmAccountType::Asset,
    }
}

impl From<AccountType> for RufmAccountType {
    fn from(e: AccountType) -> (r: RufmAccountType) {
        match e {
            AccountType::Asset => RufmAccountType::Asset,
            AccountType::Expense => RufmAccountType::Expense,
            AccountType::Revenue => RufmAccountType::Revenue,
            AccountType::Loan => RufmAccountType::Asset,
            AccountType::InitialBalance => RufmAccountType::Asset,
        }
    }
}

impl vstd::std_specs::convert::FromSpecImpl<AccountType> for RufmAccountType {
    open spec fn obeys_from_spec() -> bool {
        true
    }

    open spec fn from_spec(e: AccountType) -> Self {
        imported_account_type(e)
    }
}

/// One record of an export, with the amount already in minor currency
/// units (negative for money leaving the source account's perspective,
/// as the export writes withdrawals).
#[derive(Debug)]
pub struct ImportRecord {
    pub transaction_type: TransactionType,
    pub amount: i64,
    pub description: String,
    pub date: Date,
    pub source_name: String,
    pub source_type: AccountType,
    pub destination_name: String,
    pub destination_type: AccountType,
}

/// Look an account up by name; create it, with the folded account type and
/// initial balance 0, when the name is unknown.
pub fn get_or_create_account(
    client: &mut Client,
    account_name: &str,
    account_type: &AccountType,
) -> (r: Result<Account, LedgerError>)
    requires
        old(client).wf(),
        !has_account_named(old(client).accounts_seq(), account_name@) ==> old(
            client,
        ).accounts_seq().len() < i32::MAX,
    ensures
        match r {
            Ok(a) => {
                &&& a.name@ == account_name@
                &&& if has_account_named(old(client).accounts_seq(), account_name@) {
                    &&& a == account_named(old(client).accounts_seq(), account_name@)
                    &&& *final(client) == *old(client)
                } else {
                    &&& a.id.0 == old(client).accounts_seq().len() + 1
                    &&& a.account_type == imported_account_type(*account_type)
                    &&& a.initial_balance == 0
                    &&& final(client).accounts_seq() == old(client).accounts_seq().push(a)
                    &&& final(client).transactions_seq() == old(client).transactions_seq()
                }
                &&& final(client).wf()
            },
            Err(_) => false,
        },
{
    match client.get_account_by_name(account_name) {
        Ok(a) => {
            proof {
                lemma_index_by_name(client.accounts_seq(), account_name@);
            }
            Ok(a)
        },
        Err(_) => client.create_account(
            &NewAccount {
                name: account_name,
                account_type: RufmAccountType::from(*account_type),
                initial_balance: 0,
            },
        ),
    }
}

/// Record one imported transaction: the export carries the amount from the
/// source account's perspective, so the stored amount is its negation.
pub fn create_transaction(
    client: &mut Client,
    amount: i64,
    description: &str,
    date: &Date,
    source_account: &Account,
    destination_account: &Account,
) -> (r: Result<Transaction, LedgerError>)
    requires
        old(client).wf(),
        old(client).transactions_seq().len() < i32::MAX,
        amount > i64::MIN,
    ensures
        match r {
            Ok(t) => {
                &&& has_account_id(old(client).accounts_seq(), source_account.id)
                &&& has_account_id(old(client).accounts_seq(), destination_account.id)
                &&& t.id.0 == old(client).transactions_seq().len() + 1
                &&& t.name@ == description@
                &&& t.source_account_id == source_account.id
                &&& t.destination_account_id == destination_account.id
                &&& t.amount == -amount
                &&& t.date == *date
                &&& final(client).transactions_seq() == old(client).transactions_seq().insert(
                    insert_position(old(client).transactions_seq(), *date),
                    t,
                )
                &&& final(client).transactions_seq().len() == old(
                    client,
                ).transactions_seq().len() + 1
                &&& final(client).accounts_seq() == old(client).accounts_seq()
                &&& final(client).wf()
            },
            Err(e) => {
                &&& e == LedgerError::ReferentialIntegrityViolation
                &&& !(has_account_id(old(client).accounts_seq(), source_account.id)
                    && has_account_id(old(client).accounts_seq(), destination_account.id))
                &&& *final(client) == *old(client)
            },
        },
{
    client.create_transaction(
        &NewTransaction {
            name: description,
            amount: -amount,
            source_account_id: source_account.id,
            destination_account_id: destination_account.id,
            date: *date,
        },
    )
}

/// Replay one transaction record: resolve or create both named accounts,
/// then record the transaction between them. Returns what was written, for
/// reporting: the transaction and the two account records.
pub fn handle_withdrawal(client: &mut Client, record: &ImportRecord) -> (r: Result<
    (Transaction, Account, Account),
    LedgerError,
>)
    requires
        old(client).wf(),
        old(client).accounts_seq().len() + 2 <= i32::MAX,
        old(client).transactions_seq().len() < i32::MAX,
        record.amount > i64::MIN,
    ensures
        match r {
            Ok((t, sa, da)) => {
                &&& sa.name@ == record.source_name@
                &&& da.name@ == record.destination_name@
                &&& ({
                    let accs0 = old(client).accounts_seq();
                    let accs1 = if has_account_named(accs0, record.source_name@) {
                        accs0
                    } else {
                        accs0.push(sa)
                    };
                    let accs2 = if has_account_named(accs1, record.destination_name@) {
                        accs1
                    } else {
                        accs1.push(da)
                    };
                    &&& if has_account_named(accs0, record.source_name@) {
                        sa == account_named(accs0, record.source_name@)
                    } else {
                        sa.id.0 == accs0.len() + 1 && sa.account_type == imported_account_type(
                            record.source_type,
                        ) && sa.initial_balance == 0
                    }
                    &&& if has_account_named(accs1, record.destination_name@) {
                        da == account_named(accs1, record.destination_name@)
                    } else {
                        da.id.0 == accs1.len() + 1 && da.account_type == imported_account_type(
                            record.destination_type,
                        ) && da.initial_balance == 0
                    }
                    &&& final(client).accounts_seq() == accs2
                })
                &&& final(client).accounts_seq().len() <= old(client).accounts_seq().len() + 2
                &&& t.id.0 == old(client).transactions_seq().len() + 1
                &&& t.name@ == record.description@
                &&& t.source_account_id == sa.id
                &&& t.destination_account_id == da.id
                &&& t.amount == -record.amount
                &&& t.date == record.date
                &&& final(client).transactions_seq() == old(client).transactions_seq().insert(
                    insert_position(old(client).transactions_seq(), record.date),
                    t,
                )
                &&& final(client).transactions_seq().len() == old(
                    client,
                ).transactions_seq().len() + 1
                &&& final(client).wf()
            },
            Err(_) => false,
        },
{
    let source_account = match get_or_create_account(
        client,
        record.source_name.as_str(),
        &record.source_type,
    ) {
        Ok(a) => a,
        Err(e) => {
            return Err(e);
        },
    };
    let destination_account = match get_or_create_account(
        client,
        record.destination_name.as_str(),
        &record.destination_type,
    ) {
        Ok(a) => a,
        Err(e) => {
            return Err(e);
        },
    };
    proof {
        let accs0 = old(client).accounts_seq();
        let accs = client.accounts_seq();
        let src_name = record.source_name@;
        let dst_name = record.destination_name@;
        let accs1 = if has_account_named(accs0, src_name) {
            accs0
        } else {
            accs0.push(source_account)
        };
        if has_account_named(accs0, src_name) {
            lemma_index_by_name(accs0, src_name);
            let i = crate::client::index_by_name(accs0, src_name);
            assert(accs[i] == source_account);
        } else {
            assert(accs[accs0.len() as int] == source_account);
        }
        lemma_index_by_id(accs, source_account.id);
        if has_account_named(accs1, dst_name) {
            lemma_index_by_name(accs1, dst_name);
            let i = crate::client::index_by_name(accs1, dst_name);
            assert(accs[i] == destination_account);
        } else {
            assert(accs[accs1.len() as int] == destination_account);
        }
        lemma_index_by_id(accs, destination_account.id);
    }
    let transaction = match create_transaction(
        client,
        record.amount,
        &record.description,
        &record.date,
        &source_account,
        &destination_account,
    ) {
        Ok(t) => t,
        Err(e) => {
            proof {
                assert(false);
            }
            return Err(e);
        },
    };
    Ok((transaction, source_account, destination_account))
}


/// Replay one opening-balance record: resolve or create the destination
/// account, then overwrite its initial balance with the record's amount
/// (negated, as the export writes the balancing leg). Returns the
/// refreshed account record.
pub fn handle_initial_balance(client: &mut Client, record: &ImportRecord) -> (r: Result<
    Account,
    LedgerError,
>)
    requires
        old(client).wf(),
        old(client).accounts_seq().len() < i32::MAX,
        record.amount > i64::MIN,
    ensures
        match r {
            Ok(a) => {
                let accs0 = old(client).accounts_seq();
                let dst_name = record.destination_name@;
                &&& a.name@ == dst_name
                &&& a.initial_balance == -record.amount
                &&& if has_account_named(accs0, dst_name) {
                    &&& a.id == account_named(accs0, dst_name).id
                    &&& a.account_type == account_named(accs0, dst_name).account_type
                    &&& final(client).accounts_seq() == accs0.update(
                        crate::client::index_by_id(accs0, a.id),
                        a,
                    )
                } else {
                    &&& a.id.0 == accs0.len() + 1
                    &&& a.account_type == imported_account_type(record.destination_type)
                    &&& final(client).accounts_seq() == accs0.push(a)
                }
                &&& final(client).accounts_seq().len() <= old(client).accounts_seq().len() + 1
                &&& final(client).transactions_seq() == old(client).transactions_seq()
                &&& final(client).wf()
            },
            Err(_) => false,
        },
{
    let account = match get_or_create_account(
        client,
        record.destination_name.as_str(),
        &record.destination_type,
    ) {
        Ok(a) => a,
        Err(e) => {
            return Err(e);
        },
    };
    proof {
        let accs0 = old(client).accounts_seq();
        let accs = client.accounts_seq();
        let dst_name = record.destination_name@;
        if has_account_named(accs0, dst_name) {
            lemma_index_by_name(accs0, dst_name);
            let i = crate::client::index_by_name(accs0, dst_name);
            assert(accs[i] == account);
            assert(accs[i].id.0 == i + 1);
        } else {
            assert(accs[accs0.len() as int] == account);
        }
        lemma_index_by_id(accs, account.id);
    }
    let updated = Account {
        id: account.id,
        name: account.name,
        account_type: account.account_type,
        initial_balance: -record.amount,
    };
    match client.update_account_initial_balance(&updated) {
        Ok(a) => {
            proof {
                let accs0 = old(client).accounts_seq();
                let dst_name = record.destination_name@;
                if !has_account_named(accs0, dst_name) {
                    let mid = accs0.push(updated);
                    assert(client.accounts_seq() =~= accs0.push(a));
                }
            }
            Ok(a)
        },
        Err(e) => {
            proof {
                assert(false);
            }
            Err(e)
        },
    }
}

/// Replay a whole export, oldest record first: opening-balance records
/// reset initial balances, every other record becomes a transaction, and
/// accounts named by a record are created on first sight. The store stays
/// well-formed; with the amounts within range and room for the new
/// identities, replaying cannot fail.
pub fn import_firefly_iii(client: &mut Client, records: &Vec<ImportRecord>) -> (r: Result<
    (),
    LedgerError,
>)
    requires
        old(client).wf(),
        old(client).accounts_seq().len() + 2 * records@.len() <= i32::MAX,
        old(client).transactions_seq().len() + records@.len() <= i32::MAX,
        forall|k: int| 0 <= k < records@.len() ==> (#[trigger] records@[k]).amount > i64::MIN,
    ensures
        r is Ok,
        final(client).wf(),
{
    let mut i: usize = records.len();
    while i > 0
        invariant
            i <= records@.len(),
            client.wf(),
            client.accounts_seq().len() + 2 * (i as int) <= i32::MAX,
            client.transactions_seq().len() + (i as int) <= i32::MAX,
            forall|k: int| 0 <= k < records@.len() ==> (#[trigger] records@[k]).amount > i64::MIN,
        decreases i,
    {
        i = i - 1;
        let record = &records[i];
        proof {
            assert(records@[i as int].amount > i64::MIN);
        }
        if record.transaction_type == TransactionType::OpeningBalance && record.source_type
            == AccountType::InitialBalance {
            match handle_initial_balance(client, record) {
                Ok(_) => {},
                Err(e) => {
                    return Err(e);
                },
            }
        } else {
            match handle_withdrawal(client, record) {
                Ok(_) => {},
                Err(e) => {
                    return Err(e);
                },
            }
        }
    }
    Ok(())
}

} // verus!
