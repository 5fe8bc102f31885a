//! The command surface over the accounting engine.
//!
//! Each command carries plain values parsed from the outside; running it
//! performs the store operations and returns a report of what to display,
//! so that rendering stays outside the engine.

use vstd::prelude::*;

use crate::balance::for_account;
use crate::client::{
    account_named, account_with_id, accounts_of_type, find_index_by_id, has_account_id,
    has_account_named, insert_position, lemma_accounts_of_type_elements, lemma_index_by_id,
    lemma_lookup_idempotent, Client, LedgerError,
};
use crate::models::accounts::{Account, AccountId, AccountType, NewAccount};
use crate::models::date::Date;
use crate::models::transactions::{NewTransaction, Transaction};

verus! {

/// An amount of money in minor currency units.
#[derive(Clone, Copy, Debug, PartialEq, Eq, Structural)]
pub struct Money(pub i64);

/// Arguments of the account-creation command.
#[derive(Debug)]
pub struct AccountsCreateOpt {
    pub name: String,
    pub initial_balance: Money,
}

/// Arguments of the account-listing command.
#[derive(Debug)]
pub struct AccountsListOpt;

/// Arguments of the account-display command.
#[derive(Debug)]
pub struct AccountsShowOpt {
    pub name: String,
}

/// The account commands.
#[derive(Debug)]
pub enum AccountsCommand {
    Create(AccountsCreateOpt),
    List,
    Show(AccountsShowOpt),
}

/// Arguments of the transaction-creation command.
#[derive(Debug)]
pub struct TransactionsCreateOpt {
    pub name: String,
    pub amount: Money,
    pub source_account: String,
    pub destination_account: String,
}

/// Arguments of the transaction-listing command.
#[derive(Debug)]
pub struct TransactionsListOpt;

/// The transaction commands.
#[derive(Debug)]
pub enum TransactionsCommand {
    Create(TransactionsCreateOpt),
    List,
}

/// The import commands.
#[derive(Debug)]
pub enum ImportCommand {
    FireflyIii { export_file: String },
}

/// The commands that run against the ledger store alone.
#[derive(Debug)]
pub enum Command {
    Accounts(AccountsCommand),
    Transactions(TransactionsCommand),
}

/// A transaction tagged with its direction relative to an account: a debit
/// moves value out of it, a credit in.
#[derive(Debug)]
pub struct AnnotatedTransaction {
    pub transaction: Transaction,
    pub is_debit: bool,
}

/// What an account command reports back for display.
#[derive(Debug)]
pub enum AccountsReport {
    /// The created account.
    Created(Account),
    /// Every asset account, each with its current balance.
    Listing(Vec<(Account, i64)>),
    /// One account, its current balance, and its transactions tagged with
    /// their direction.
    Shown(Account, i64, Vec<AnnotatedTransaction>),
}

/// What a transaction command reports back for display.
#[derive(Debug)]
pub enum TransactionsReport {
    /// The created transaction.
    Created(Transaction),
    /// The whole history, with one account record per distinct referenced
    /// account id, so rendering needs no further lookups.
    Listing(Vec<Transaction>, Vec<Account>),
}

/// What any command reports back for display.
#[derive(Debug)]
pub enum Report {
    Accounts(AccountsReport),
    Transactions(TransactionsReport),
}

/// What must hold of the store for an account command to run: room for a
/// new identity when creating, balances within range when listing or
/// showing.
pub open spec fn accounts_command_pre(accounts_command: AccountsCommand, client: Client) -> bool {
    match accounts_command {
        AccountsCommand::Create(_) => client.accounts_seq().len() < i32::MAX,
        AccountsCommand::List => forall|j: int|
            0 <= j < client.accounts_seq().len() && (#[trigger] client.accounts_seq()[j]).account_type
                == AccountType::Asset ==> i64::MIN <= client.balance_of(
                client.accounts_seq()[j].id,
            ) <= i64::MAX,
        AccountsCommand::Show(opt) => has_account_named(client.accounts_seq(), opt.name@)
            ==> i64::MIN <= client.balance_of(
            account_named(client.accounts_seq(), opt.name@).id,
        ) <= i64::MAX,
    }
}

/// What must hold of the store for a transaction command to run: room for
/// a new identity when creating.
pub open spec fn transactions_command_pre(
    transactions_command: TransactionsCommand,
    client: Client,
) -> bool {
    match transactions_command {
        TransactionsCommand::Create(_) => client.transactions_seq().len() < i32::MAX,
        TransactionsCommand::List => true,
    }
}

/// A command that can run against the ledger store alone.
pub trait Handler {
    /// What must hold of the store for this command to run.
    spec fn pre(&self, client: Client) -> bool;

    /// Run the command against the store, returning what to display.
    fn handle(self, client: &mut Client, today: Date) -> (r: Result<Report, LedgerError>)
        requires
            old(client).wf(),
            self.pre(*old(client)),
        ensures
            final(client).wf(),
    ;
}

impl Handler for Command {
    open spec fn pre(&self, client: Client) -> bool {
        match self {
            Command::Accounts(c) => accounts_command_pre(*c, client),
            Command::Transactions(c) => transactions_command_pre(*c, client),
        }
    }

    fn handle(self, client: &mut Client, today: Date) -> (r: Result<Report, LedgerError>) {
        match self {
            Command::Accounts(accounts_command) => {
                match handle_accounts_command(client, accounts_command) {
                    Ok(report) => Ok(Report::Accounts(report)),
                    Err(e) => Err(e),
                }
            },
            Command::Transactions(transactions_command) => {
                match handle_transactions_command(client, transactions_command, today) {
                    Ok(report) => Ok(Report::Transactions(report)),
                    Err(e) => Err(e),
                }
            },
        }
    }
}

/// Run an account command: create an asset account, list every asset
/// account with its balance, or show one account with its annotated
/// history.
pub fn handle_accounts_command(client: &mut Client, accounts_command: AccountsCommand) -> (r:
    Result<AccountsReport, LedgerError>)
    requires
        old(client).wf(),
        accounts_command_pre(accounts_command, *old(client)),
    ensures
        final(client).wf(),
        match accounts_command {
            AccountsCommand::Create(opt) => match r {
                Ok(AccountsReport::Created(a)) => {
                    &&& !has_account_named(old(client).accounts_seq(), opt.name@)
                    &&& a.id.0 == old(client).accounts_seq().len() + 1
                    &&& a.name@ == opt.name@
                    &&& a.account_type == AccountType::Asset
                    &&& a.initial_balance == opt.initial_balance.0
                    &&& final(client).accounts_seq() == old(client).accounts_seq().push(a)
                    &&& final(client).transactions_seq() == old(client).transactions_seq()
                },
                Ok(_) => false,
                Err(e) => {
                    &&& e == LedgerError::UniqueConstraintViolation
                    &&& has_account_named(old(client).accounts_seq(), opt.name@)
                    &&& *final(client) == *old(client)
                },
            },
            AccountsCommand::List => match r {
                Ok(AccountsReport::Listing(v)) => ({
                    let assets = accounts_of_type(old(client).accounts_seq(), AccountType::Asset);
                    &&& *final(client) == *old(client)
                    &&& v@.len() == assets.len()
                    &&& forall|i: int|
                        0 <= i < v@.len() ==> (#[trigger] v@[i]).0 == assets[i] && v@[i].1 == old(
                            client,
                        ).balance_of(assets[i].id)
                }),
                _ => false,
            },
            AccountsCommand::Show(opt) => match r {
                Ok(AccountsReport::Shown(a, b, v)) => ({
                    let ts = for_account(old(client).transactions_seq(), a.id);
                    &&& *final(client) == *old(client)
                    &&& has_account_named(old(client).accounts_seq(), opt.name@)
                    &&& a == account_named(old(client).accounts_seq(), opt.name@)
                    &&& b == old(client).balance_of(a.id)
                    &&& v@.len() == ts.len()
                    &&& forall|i: int|
                        0 <= i < v@.len() ==> (#[trigger] v@[i]).transaction == ts[i]
                            && v@[i].is_debit == (ts[i].source_account_id == a.id)
                }),
                Ok(_) => false,
                Err(e) => {
                    &&& e == LedgerError::NotFound
                    &&& !has_account_named(old(client).accounts_seq(), opt.name@)
                    &&& *final(client) == *old(client)
                },
            },
        },
{
    match accounts_command {
        AccountsCommand::Create(opt) => {
            match client.create_account(
                &NewAccount {
                    name: opt.name.as_str(),
                    account_type: AccountType::Asset,
                    initial_balance: opt.initial_balance.0,
                },
            ) {
                Ok(a) => Ok(AccountsReport::Created(a)),
                Err(e) => Err(e),
            }
        },
        AccountsCommand::List => Ok(AccountsReport::Listing(asset_listing(client))),
        AccountsCommand::Show(opt) => {
            match show_account(client, opt.name.as_str()) {
                Ok((a, b, v)) => Ok(AccountsReport::Shown(a, b, v)),
                Err(e) => Err(e),
            }
        },
    }
}

/// Every asset account with its current balance, in insertion order.
fn asset_listing(client: &Client) -> (out: Vec<(Account, i64)>)
    requires
        forall|j: int|
            0 <= j < client.accounts_seq().len() && (#[trigger] client.accounts_seq()[j]).account_type
                == AccountType::Asset ==> i64::MIN <= client.balance_of(
                client.accounts_seq()[j].id,
            ) <= i64::MAX,
    ensures
        ({
            let assets = accounts_of_type(client.accounts_seq(), AccountType::Asset);
            &&& out@.len() == assets.len()
            &&& forall|i: int|
                0 <= i < out@.len() ==> (#[trigger] out@[i]).0 == assets[i] && out@[i].1
                    == client.balance_of(assets[i].id)
        }),
{
    let accounts = match client.list_accounts_by_type(AccountType::Asset) {
        Ok(v) => v,
        Err(_) => {
            proof {
                assert(false);
            }
            return Vec::new();
        },
    };
    let mut out: Vec<(Account, i64)> = Vec::new();
    let mut i: usize = 0;
    while i < accounts.len()
        invariant
            0 <= i <= accounts@.len(),
            accounts@ == accounts_of_type(client.accounts_seq(), AccountType::Asset),
            forall|j: int|
                0 <= j < client.accounts_seq().len() && (
                #[trigger] client.accounts_seq()[j]).account_type == AccountType::Asset
                    ==> i64::MIN <= client.balance_of(client.accounts_seq()[j].id) <= i64::MAX,
            out@.len() == i,
            forall|j: int|
                0 <= j < i ==> (#[trigger] out@[j]).0 == accounts@[j] && out@[j].1
                    == client.balance_of(accounts@[j].id),
        decreases accounts@.len() - i,
    {
        let a = &accounts[i];
        proof {
            lemma_accounts_of_type_elements(client.accounts_seq(), AccountType::Asset);
            let j = choose|j: int|
                0 <= j < client.accounts_seq().len() && client.accounts_seq()[j] == accounts@[i as int];
            assert(client.accounts_seq()[j].account_type == AccountType::Asset);
            lemma_index_by_id(client.accounts_seq(), accounts@[i as int].id);
        }
        let b = match client.get_account_balance(&a.id) {
            Ok(b) => b,
            Err(_) => {
                proof {
                    assert(false);
                }
                return out;
            },
        };
        out.push((a.clone(), b));
        i = i + 1;
    }
    out
}

/// One account looked up by name, its current balance, and its
/// transactions tagged with their direction.
fn show_account(client: &Client, name: &str) -> (r: Result<
    (Account, i64, Vec<AnnotatedTransaction>),
    LedgerError,
>)
    requires
        client.wf(),
        has_account_named(client.accounts_seq(), name@) ==> i64::MIN <= client.balance_of(
            account_named(client.accounts_seq(), name@).id,
        ) <= i64::MAX,
    ensures
        match r {
            Ok((a, b, v)) => ({
                let ts = for_account(client.transactions_seq(), a.id);
                &&& has_account_named(client.accounts_seq(), name@)
                &&& a == account_named(client.accounts_seq(), name@)
                &&& b == client.balance_of(a.id)
                &&& v@.len() == ts.len()
                &&& forall|i: int|
                    0 <= i < v@.len() ==> (#[trigger] v@[i]).transaction == ts[i]
                        && v@[i].is_debit == (ts[i].source_account_id == a.id)
            }),
            Err(e) => {
                &&& e == LedgerError::NotFound
                &&& !has_account_named(client.accounts_seq(), name@)
            },
        },
{
    let account = match client.get_account_by_name(name) {
        Ok(a) => a,
        Err(e) => {
            return Err(e);
        },
    };
    proof {
        lemma_lookup_idempotent(*client, name@);
    }
    let balance = match client.get_account_balance(&account.id) {
        Ok(b) => b,
        Err(_) => {
            proof {
                assert(false);
            }
            return Err(LedgerError::NotFound);
        },
    };
    let transactions = match client.get_transactions_for_account(&account.id) {
        Ok(v) => v,
        Err(_) => {
            proof {
                assert(false);
            }
            return Err(LedgerError::NotFound);
        },
    };
    let mut out: Vec<AnnotatedTransaction> = Vec::new();
    let mut i: usize = 0;
    while i < transactions.len()
        invariant
            0 <= i <= transactions@.len(),
            transactions@ == for_account(client.transactions_seq(), account.id),
            out@.len() == i,
            forall|j: int|
                0 <= j < i ==> (#[trigger] out@[j]).transaction == transactions@[j]
                    && out@[j].is_debit == (transactions@[j].source_account_id == account.id),
        decreases transactions@.len() - i,
    {
        let t = &transactions[i];
        let is_debit = t.source_account_id == account.id;
        out.push(AnnotatedTransaction { transaction: t.clone(), is_debit });
        i = i + 1;
    }
    Ok((account, balance, out))
}


/// Run a transaction command: record a transaction between two accounts
/// resolved by name and dated `today`, or list the whole history together
/// with every referenced account record.
pub fn handle_transactions_command(
    client: &mut Client,
    transactions_command: TransactionsCommand,
    today: Date,
) -> (r: Result<TransactionsReport, LedgerError>)
    requires
        old(client).wf(),
        transactions_command_pre(transactions_command, *old(client)),
    ensures
        final(client).wf(),
        match transactions_command {
            TransactionsCommand::Create(opt) => match r {
                Ok(TransactionsReport::Created(t)) => ({
                    let accs = old(client).accounts_seq();
                    &&& has_account_named(accs, opt.source_account@)
                    &&& has_account_named(accs, opt.destination_account@)
                    &&& t.source_account_id == account_named(accs, opt.source_account@).id
                    &&& t.destination_account_id == account_named(
                        accs,
                        opt.destination_account@,
                    ).id
                    &&& t.name@ == opt.name@
                    &&& t.amount == opt.amount.0
                    &&& t.date == today
                    &&& t.id.0 == old(client).transactions_seq().len() + 1
                    &&& final(client).transactions_seq() == old(
                        client,
                    ).transactions_seq().insert(
                        insert_position(old(client).transactions_seq(), today),
                        t,
                    )
                    &&& final(client).accounts_seq() == accs
                }),
                Ok(_) => false,
                Err(e) => {
                    &&& e == LedgerError::NotFound
                    &&& !(has_account_named(old(client).accounts_seq(), opt.source_account@)
                        && has_account_named(
                        old(client).accounts_seq(),
                        opt.destination_account@,
                    ))
                    &&& *final(client) == *old(client)
                },
            },
            TransactionsCommand::List => match r {
                Ok(TransactionsReport::Listing(ts, accounts)) => {
                    &&& *final(client) == *old(client)
                    &&& ts@ == old(client).transactions_seq()
                    &&& forall|k: int|
                        0 <= k < ts@.len() ==> has_account_id(
                            accounts@,
                            (#[trigger] ts@[k]).source_account_id,
                        ) && has_account_id(accounts@, ts@[k].destination_account_id)
                    &&& forall|j: int|
                        0 <= j < accounts@.len() ==> has_account_id(
                            old(client).accounts_seq(),
                            (#[trigger] accounts@[j]).id,
                        ) && accounts@[j] == account_with_id(
                            old(client).accounts_seq(),
                            accounts@[j].id,
                        )
                    &&& forall|j1: int, j2: int|
                        0 <= j1 < j2 < accounts@.len() ==> (#[trigger] accounts@[j1]).id != (
                        #[trigger] accounts@[j2]).id
                },
                _ => false,
            },
        },
{
    match transactions_command {
        TransactionsCommand::Create(opt) => {
            let source_account = match client.get_account_by_name(opt.source_account.as_str()) {
                Ok(a) => a,
                Err(e) => {
                    return Err(e);
                },
            };
            let destination_account = match client.get_account_by_name(
                opt.destination_account.as_str(),
            ) {
                Ok(a) => a,
                Err(e) => {
                    return Err(e);
                },
            };
            proof {
                lemma_lookup_idempotent(*old(client), opt.source_account@);
                lemma_lookup_idempotent(*old(client), opt.destination_account@);
            }
            match client.create_transaction(
                &NewTransaction {
                    name: opt.name.as_str(),
                    amount: opt.amount.0,
                    source_account_id: source_account.id,
                    destination_account_id: destination_account.id,
                    date: today,
                },
            ) {
                Ok(t) => Ok(TransactionsReport::Created(t)),
                Err(_) => {
                    proof {
                        assert(false);
                    }
                    Err(LedgerError::NotFound)
                },
            }
        },
        TransactionsCommand::List => {
            let (ts, accounts) = transactions_listing(client);
            Ok(TransactionsReport::Listing(ts, accounts))
        },
    }
}

/// The whole history together with one account record per distinct
/// referenced account id, resolved once each.
fn transactions_listing(client: &Client) -> (r: (Vec<Transaction>, Vec<Account>))
    requires
        client.wf(),
    ensures
        ({
            let (ts, accounts) = r;
            &&& ts@ == client.transactions_seq()
            &&& forall|k: int|
                0 <= k < ts@.len() ==> has_account_id(
                    accounts@,
                    (#[trigger] ts@[k]).source_account_id,
                ) && has_account_id(accounts@, ts@[k].destination_account_id)
            &&& forall|j: int|
                0 <= j < accounts@.len() ==> has_account_id(
                    client.accounts_seq(),
                    (#[trigger] accounts@[j]).id,
                ) && accounts@[j] == account_with_id(client.accounts_seq(), accounts@[j].id)
            &&& forall|j1: int, j2: int|
                0 <= j1 < j2 < accounts@.len() ==> (#[trigger] accounts@[j1]).id != (
                #[trigger] accounts@[j2]).id
        }),
{
    let transactions = match client.list_transactions() {
        Ok(v) => v,
        Err(_) => {
            proof {
                assert(false);
            }
            return (Vec::new(), Vec::new());
        },
    };
    let mut accounts: Vec<Account> = Vec::new();
    let mut k: usize = 0;
    while k < transactions.len()
        invariant
            0 <= k <= transactions@.len(),
            client.wf(),
            transactions@ == client.transactions_seq(),
            forall|x: int|
                0 <= x < k ==> has_account_id(
                    accounts@,
                    (#[trigger] transactions@[x]).source_account_id,
                ) && has_account_id(accounts@, transactions@[x].destination_account_id),
            forall|j: int|
                0 <= j < accounts@.len() ==> has_account_id(
                    client.accounts_seq(),
                    (#[trigger] accounts@[j]).id,
                ) && accounts@[j] == account_with_id(client.accounts_seq(), accounts@[j].id),
            forall|j1: int, j2: int|
                0 <= j1 < j2 < accounts@.len() ==> (#[trigger] accounts@[j1]).id != (
                #[trigger] accounts@[j2]).id,
        decreases transactions@.len() - k,
    {
        let src = transactions[k].source_account_id;
        let dst = transactions[k].destination_account_id;
        proof {
            assert(client.transactions_seq()[k as int] == transactions@[k as int]);
        }
        let ghost accounts0 = accounts@;
        add_resolved_account(client, &mut accounts, &src);
        let ghost accounts1 = accounts@;
        add_resolved_account(client, &mut accounts, &dst);
        proof {
            let accounts2 = accounts@;
            let resolved_src = account_with_id(client.accounts_seq(), src);
            let resolved_dst = account_with_id(client.accounts_seq(), dst);
            lemma_index_by_id(client.accounts_seq(), src);
            lemma_index_by_id(client.accounts_seq(), dst);
            assert(forall|j: int| 0 <= j < accounts0.len() ==> #[trigger] accounts1[j] == accounts0[j]);
            assert(forall|j: int| 0 <= j < accounts1.len() ==> #[trigger] accounts2[j] == accounts1[j]);
            if !has_account_id(accounts0, src) {
                lemma_dedup_push(accounts0, resolved_src);
            }
            if !has_account_id(accounts1, dst) {
                lemma_dedup_push(accounts1, resolved_dst);
            }
            assert forall|x: int|
                0 <= x < k + 1 implies has_account_id(
                accounts2,
                (#[trigger] transactions@[x]).source_account_id,
            ) && has_account_id(accounts2, transactions@[x].destination_account_id) by {
                if x < k {
                    lemma_has_account_id_monotone(
                        accounts0,
                        accounts2,
                        transactions@[x].source_account_id,
                    );
                    lemma_has_account_id_monotone(
                        accounts0,
                        accounts2,
                        transactions@[x].destination_account_id,
                    );
                } else {
                    lemma_has_account_id_monotone(accounts1, accounts2, src);
                }
            }
            assert forall|j: int|
                0 <= j < accounts2.len() implies has_account_id(
                client.accounts_seq(),
                (#[trigger] accounts2[j]).id,
            ) && accounts2[j] == account_with_id(client.accounts_seq(), accounts2[j].id) by {
                if j < accounts0.len() {
                    assert(accounts2[j] == accounts0[j]);
                } else if j < accounts1.len() {
                    assert(accounts2[j] == accounts1[j]);
                    assert(accounts1[j] == resolved_src);
                } else {
                    assert(accounts2[j] == resolved_dst);
                }
            }
        }
        k = k + 1;
    }
    (transactions, accounts)
}

/// Resolve one referenced account id into the listing, unless a record for
/// it is already there.
fn add_resolved_account(client: &Client, accounts: &mut Vec<Account>, id: &AccountId)
    requires
        client.wf(),
        has_account_id(client.accounts_seq(), *id),
    ensures
        final(accounts)@ == if has_account_id(old(accounts)@, *id) {
            old(accounts)@
        } else {
            old(accounts)@.push(account_with_id(client.accounts_seq(), *id))
        },
        has_account_id(final(accounts)@, *id),
{
    proof {
        lemma_index_by_id(accounts@, *id);
    }
    match find_index_by_id(accounts, id) {
        Some(_) => {},
        None => {
            match client.get_account_by_id(id) {
                Ok(a) => {
                    proof {
                        lemma_index_by_id(client.accounts_seq(), *id);
                    }
                    accounts.push(a);
                    proof {
                        lemma_index_by_id(accounts@, *id);
                        assert(accounts@[accounts@.len() - 1].id == *id);
                    }
                },
                Err(_) => {
                    proof {
                        assert(false);
                    }
                },
            }
        },
    }
}


/// An account id found in a listing is still found after the listing grows
/// at the end.
proof fn lemma_has_account_id_monotone(olds: Seq<Account>, news: Seq<Account>, id: AccountId)
    requires
        olds.len() <= news.len(),
        forall|j: int| 0 <= j < olds.len() ==> #[trigger] news[j] == olds[j],
        has_account_id(olds, id),
    ensures
        has_account_id(news, id),
{
    lemma_index_by_id(olds, id);
    let idx = crate::client::index_by_id(olds, id);
    assert(news[idx] == olds[idx]);
    lemma_index_by_id(news, id);
}

/// Appending a record whose id is not yet in the listing keeps its ids
/// pairwise distinct.
proof fn lemma_dedup_push(olds: Seq<Account>, a: Account)
    requires
        forall|j1: int, j2: int|
            0 <= j1 < j2 < olds.len() ==> (#[trigger] olds[j1]).id != (#[trigger] olds[j2]).id,
        !has_account_id(olds, a.id),
    ensures
        forall|j1: int, j2: int|
            0 <= j1 < j2 < olds.push(a).len() ==> (#[trigger] olds.push(a)[j1]).id != (
            #[trigger] olds.push(a)[j2]).id,
{
    lemma_index_by_id(olds, a.id);
    assert forall|j1: int, j2: int|
        0 <= j1 < j2 < olds.push(a).len() implies (#[trigger] olds.push(a)[j1]).id != (
    #[trigger] olds.push(a)[j2]).id by {
        if j2 == olds.len() {
            assert(olds.push(a)[j1] == olds[j1]);
            assert(olds[j1].id != a.id);
        } else {
            assert(olds.push(a)[j1] == olds[j1]);
            assert(olds.push(a)[j2] == olds[j2]);
        }
    }
}

} // verus!
