//! The ledger store and the accounting engine over it.
//!
//! `Client` owns the durable record of accounts and transactions and
//! answers every engine operation: account and transaction creation,
//! lookups, ordered and filtered listings, and balance queries. The store
//! enforces the repository contract: account names are unique, account
//! identities are assigned in insertion order and never reused,
//! transactions may only reference existing accounts, and the transaction
//! history is kept ordered by date, most recent first.

use vstd::prelude::*;

use crate::balance::{
    for_account, for_account_on_or_before, on_or_before, touches, transactions_sum,
};
use crate::models::accounts::{Account, AccountId, AccountType, NewAccount};
use crate::models::date::Date;
use crate::models::transactions::{NewTransaction, Transaction, TransactionId};

verus! {

/// The error conditions an engine operation can surface.
#[derive(Clone, Copy, Debug, PartialEq, Eq, Structural)]
pub enum LedgerError {
    /// The requested account (by id or name) does not exist.
    NotFound,
    /// An account with the same name already exists.
    UniqueConstraintViolation,
    /// A transaction referenced an account id that does not exist.
    ReferentialIntegrityViolation,
    /// A stored account-type code is outside the known encoding table.
    UnknownAccountTypeCode,
}

/// The position of the first account with the given name, or the length of
/// the sequence when no account has it.
pub open spec fn index_by_name(accounts: Seq<Account>, name: Seq<char>) -> int
    decreases accounts.len(),
{
    if accounts.len() == 0 {
        0
    } else if accounts[0].name@ == name {
        0
    } else {
        1 + index_by_name(accounts.drop_first(), name)
    }
}

/// Some account has the given name.
pub open spec fn has_account_named(accounts: Seq<Account>, name: Seq<char>) -> bool {
    index_by_name(accounts, name) < accounts.len()
}

/// The first account with the given name.
pub open spec fn account_named(accounts: Seq<Account>, name: Seq<char>) -> Account
    recommends
        has_account_named(accounts, name),
{
    accounts[index_by_name(accounts, name)]
}

/// The position of the first account with the given id, or the length of
/// the sequence when no account has it.
pub open spec fn index_by_id(accounts: Seq<Account>, id: AccountId) -> int
    decreases accounts.len(),
{
    if accounts.len() == 0 {
        0
    } else if accounts[0].id == id {
        0
    } else {
        1 + index_by_id(accounts.drop_first(), id)
    }
}

/// Some account has the given id.
pub open spec fn has_account_id(accounts: Seq<Account>, id: AccountId) -> bool {
    index_by_id(accounts, id) < accounts.len()
}

/// The first account with the given id.
pub open spec fn account_with_id(accounts: Seq<Account>, id: AccountId) -> Account
    recommends
        has_account_id(accounts, id),
{
    accounts[index_by_id(accounts, id)]
}

/// What `index_by_name` finds: the first match, with nothing matching
/// before it, and no match at all when it runs off the end.
pub proof fn lemma_index_by_name(accounts: Seq<Account>, name: Seq<char>)
    ensures
        0 <= index_by_name(accounts, name) <= accounts.len(),
        index_by_name(accounts, name) < accounts.len() ==> {
            &&& accounts[index_by_name(accounts, name)].name@ == name
            &&& forall|j: int|
                0 <= j < index_by_name(accounts, name) ==> (#[trigger] accounts[j]).name@ != name
        },
        index_by_name(accounts, name) == accounts.len() ==> forall|j: int|
            0 <= j < accounts.len() ==> (#[trigger] accounts[j]).name@ != name,
        has_account_named(accounts, name) <==> exists|j: int|
            0 <= j < accounts.len() && (#[trigger] accounts[j]).name@ == name,
    decreases accounts.len(),
{
    if accounts.len() > 0 && accounts[0].name@ != name {
        let rest = accounts.drop_first();
        let idx = index_by_name(accounts, name);
        lemma_index_by_name(rest, name);
        assert(idx == 1 + index_by_name(rest, name));
        if idx < accounts.len() {
            assert(rest[idx - 1] == accounts[idx]);
            assert forall|j: int| 0 <= j < idx implies (#[trigger] accounts[j]).name@ != name by {
                if j >= 1 {
                    assert(rest[j - 1] == accounts[j]);
                }
            }
        } else {
            assert forall|j: int|
                0 <= j < accounts.len() implies (#[trigger] accounts[j]).name@ != name by {
                if j >= 1 {
                    assert(rest[j - 1] == accounts[j]);
                }
            }
        }
    }
}

/// What `index_by_id` finds: the first match, with nothing matching before
/// it, and no match at all when it runs off the end.
pub proof fn lemma_index_by_id(accounts: Seq<Account>, id: AccountId)
    ensures
        0 <= index_by_id(accounts, id) <= accounts.len(),
        index_by_id(accounts, id) < accounts.len() ==> {
            &&& accounts[index_by_id(accounts, id)].id == id
            &&& forall|j: int|
                0 <= j < index_by_id(accounts, id) ==> (#[trigger] accounts[j]).id != id
        },
        index_by_id(accounts, id) == accounts.len() ==> forall|j: int|
            0 <= j < accounts.len() ==> (#[trigger] accounts[j]).id != id,
        has_account_id(accounts, id) <==> exists|j: int|
            0 <= j < accounts.len() && (#[trigger] accounts[j]).id == id,
    decreases accounts.len(),
{
    if accounts.len() > 0 && accounts[0].id != id {
        let rest = accounts.drop_first();
        let idx = index_by_id(accounts, id);
        lemma_index_by_id(rest, id);
        assert(idx == 1 + index_by_id(rest, id));
        if idx < accounts.len() {
            assert(rest[idx - 1] == accounts[idx]);
            assert forall|j: int| 0 <= j < idx implies (#[trigger] accounts[j]).id != id by {
                if j >= 1 {
                    assert(rest[j - 1] == accounts[j]);
                }
            }
        } else {
            assert forall|j: int|
                0 <= j < accounts.len() implies (#[trigger] accounts[j]).id != id by {
                if j >= 1 {
                    assert(rest[j - 1] == accounts[j]);
                }
            }
        }
    }
}

/// The store's invariant on accounts: identities follow insertion order
/// (position `k` holds id `k + 1`, so ids are unique and never reused) and
/// names are unique.
pub open spec fn accounts_ok(accounts: Seq<Account>) -> bool {
    &&& forall|k: int| 0 <= k < accounts.len() ==> (#[trigger] accounts[k]).id.0 == k + 1
    &&& forall|k: int, l: int|
        0 <= k < l < accounts.len() ==> (#[trigger] accounts[k]).name@ != (
        #[trigger] accounts[l]).name@
}

/// The store's invariant on transactions: identities are the creation
/// order (each in `1..=len`, unique), the history is kept ordered by date,
/// most recent first, and every transaction references existing accounts.
pub open spec fn transactions_ok(transactions: Seq<Transaction>, accounts: Seq<Account>) -> bool {
    &&& forall|k: int|
        0 <= k < transactions.len() ==> 1 <= (#[trigger] transactions[k]).id.0
            <= transactions.len()
    &&& forall|k: int, l: int|
        0 <= k < l < transactions.len() ==> (#[trigger] transactions[k]).id != (
        #[trigger] transactions[l]).id
    &&& forall|k: int, l: int|
        0 <= k <= l < transactions.len() ==> (#[trigger] transactions[l]).date.spec_le(
            (#[trigger] transactions[k]).date,
        )
    &&& forall|k: int|
        0 <= k < transactions.len() ==> has_account_id(
            accounts,
            (#[trigger] transactions[k]).source_account_id,
        ) && has_account_id(accounts, transactions[k].destination_account_id)
}

/// The ledger store: the durable record of accounts and transactions,
/// with the accounting engine's operations over it.
pub struct Client {
    accounts: Vec<Account>,
    transactions: Vec<Transaction>,
}

impl Client {
    /// The stored accounts, in insertion order.
    pub closed spec fn accounts_seq(&self) -> Seq<Account> {
        self.accounts@
    }

    /// The stored transactions, ordered by date, most recent first.
    pub closed spec fn transactions_seq(&self) -> Seq<Transaction> {
        self.transactions@
    }

    /// The store's invariant.
    pub open spec fn wf(&self) -> bool {
        &&& accounts_ok(self.accounts_seq())
        &&& transactions_ok(self.transactions_seq(), self.accounts_seq())
    }

    /// The account's current balance: its initial balance plus the net
    /// contribution of the whole transaction history.
    pub open spec fn balance_of(&self, id: AccountId) -> int
        recommends
            has_account_id(self.accounts_seq(), id),
    {
        account_with_id(self.accounts_seq(), id).initial_balance + transactions_sum(
            self.transactions_seq(),
            id,
        )
    }

    /// The account's balance as of `date`: its initial balance plus the
    /// net contribution of the transactions dated on or before `date`.
    pub open spec fn balance_of_as_of(&self, id: AccountId, date: Date) -> int
        recommends
            has_account_id(self.accounts_seq(), id),
    {
        account_with_id(self.accounts_seq(), id).initial_balance + transactions_sum(
            on_or_before(self.transactions_seq(), date),
            id,
        )
    }

    /// Open an empty ledger store.
    pub fn new() -> (c: Client)
        ensures
            c.accounts_seq() == Seq::<Account>::empty(),
            c.transactions_seq() == Seq::<Transaction>::empty(),
            c.wf(),
    {
        let c = Client { accounts: Vec::new(), transactions: Vec::new() };
        proof {
            assert(c.accounts_seq() =~= Seq::<Account>::empty());
            assert(c.transactions_seq() =~= Seq::<Transaction>::empty());
        }
        c
    }

    /// Look an account up by name; `NotFound` exactly when no account has
    /// the name.
    pub fn get_account_by_name(&self, account_name: &str) -> (r: Result<Account, LedgerError>)
        ensures
            match r {
                Ok(a) => {
                    &&& has_account_named(self.accounts_seq(), account_name@)
                    &&& a == account_named(self.accounts_seq(), account_name@)
                },
                Err(e) => {
                    &&& e == LedgerError::NotFound
                    &&& !has_account_named(self.accounts_seq(), account_name@)
                },
            },
    {
        match find_index_by_name(&self.accounts, account_name) {
            Some(i) => Ok(self.accounts[i].clone()),
            None => Err(LedgerError::NotFound),
        }
    }

    /// Look an account up by id; `NotFound` exactly when no account has
    /// the id.
    pub fn get_account_by_id(&self, account_id: &AccountId) -> (r: Result<Account, LedgerError>)
        ensures
            match r {
                Ok(a) => {
                    &&& has_account_id(self.accounts_seq(), *account_id)
                    &&& a == account_with_id(self.accounts_seq(), *account_id)
                },
                Err(e) => {
                    &&& e == LedgerError::NotFound
                    &&& !has_account_id(self.accounts_seq(), *account_id)
                },
            },
    {
        match find_index_by_id(&self.accounts, account_id) {
            Some(i) => Ok(self.accounts[i].clone()),
            None => Err(LedgerError::NotFound),
        }
    }
    /// Create an account; the store assigns the next identity. Fails with
    /// `UniqueConstraintViolation`, leaving the store unchanged, exactly
    /// when an account with the same name already exists.
    pub fn create_account(&mut self, new_account: &NewAccount) -> (r: Result<Account, LedgerError>)
        requires
            old(self).wf(),
            old(self).accounts_seq().len() < i32::MAX,
        ensures
            match r {
                Ok(a) => {
                    &&& !has_account_named(old(self).accounts_seq(), new_account.name@)
                    &&& a.id.0 == old(self).accounts_seq().len() + 1
                    &&& a.name@ == new_account.name@
                    &&& a.account_type == new_account.account_type
                    &&& a.initial_balance == new_account.initial_balance
                    &&& final(self).accounts_seq() == old(self).accounts_seq().push(a)
                    &&& final(self).transactions_seq() == old(self).transactions_seq()
                    &&& final(self).wf()
                },
                Err(e) => {
                    &&& e == LedgerError::UniqueConstraintViolation
                    &&& has_account_named(old(self).accounts_seq(), new_account.name@)
                    &&& *final(self) == *old(self)
                },
            },
    {
        if let Some(_) = find_index_by_name(&self.accounts, new_account.name) {
            return Err(LedgerError::UniqueConstraintViolation);
        }
        let id = AccountId((self.accounts.len() + 1) as i32);
        let account = Account {
            id,
            name: new_account.name.to_owned(),
            account_type: new_account.account_type,
            initial_balance: new_account.initial_balance,
        };
        let result = account.clone();
        proof {
            lemma_index_by_name(old(self).accounts_seq(), new_account.name@);
        }
        self.accounts.push(account);
        proof {
            let olds = old(self).accounts_seq();
            let news = self.accounts_seq();
            assert(news =~= olds.push(result));
            lemma_has_account_id_preserved(olds, news, self.transactions_seq());
        }
        Ok(result)
    }

    /// Overwrite the stored initial balance for the account's identity and
    /// return the refreshed record; no transaction is touched. Fails with
    /// `NotFound`, leaving the store unchanged, exactly when the identity
    /// does not exist.
    pub fn update_account_initial_balance(&mut self, account: &Account) -> (r: Result<
        Account,
        LedgerError,
    >)
        requires
            old(self).wf(),
        ensures
            match r {
                Ok(a) => {
                    &&& has_account_id(old(self).accounts_seq(), account.id)
                    &&& a.id == account.id
                    &&& a.name@ == account_with_id(old(self).accounts_seq(), account.id).name@
                    &&& a.account_type == account_with_id(
                        old(self).accounts_seq(),
                        account.id,
                    ).account_type
                    &&& a.initial_balance == account.initial_balance
                    &&& final(self).accounts_seq() == old(self).accounts_seq().update(
                        index_by_id(old(self).accounts_seq(), account.id),
                        a,
                    )
                    &&& final(self).transactions_seq() == old(self).transactions_seq()
                    &&& final(self).wf()
                },
                Err(e) => {
                    &&& e == LedgerError::NotFound
                    &&& !has_account_id(old(self).accounts_seq(), account.id)
                    &&& *final(self) == *old(self)
                },
            },
    {
        match find_index_by_id(&self.accounts, &account.id) {
            None => Err(LedgerError::NotFound),
            Some(i) => {
                proof {
                    lemma_index_by_id(old(self).accounts_seq(), account.id);
                }
                let old_record = self.accounts[i].clone();
                let updated = Account {
                    id: old_record.id,
                    name: old_record.name,
                    account_type: old_record.account_type,
                    initial_balance: account.initial_balance,
                };
                let result = updated.clone();
                self.accounts.set(i, updated);
                proof {
                    let olds = old(self).accounts_seq();
                    let news = self.accounts_seq();
                    lemma_has_account_id_preserved(olds, news, self.transactions_seq());
                }
                Ok(result)
            },
        }
    }

    /// List every stored account, in insertion order.
    pub fn list_accounts(&self) -> (r: Result<Vec<Account>, LedgerError>)
        ensures
            match r {
                Ok(v) => v@ == self.accounts_seq(),
                Err(_) => false,
            },
    {
        let v = self.accounts.clone();
        proof {
            assert forall|i: int| 0 <= i < v@.len() implies v@[i] == self.accounts@[i] by {
                assert(vstd::pervasive::cloned::<Account>(self.accounts@[i], v@[i]));
            }
            assert(v@ =~= self.accounts@);
        }
        Ok(v)
    }

    /// List the stored accounts of the given type, in insertion order.
    pub fn list_accounts_by_type(&self, account_type: AccountType) -> (r: Result<
        Vec<Account>,
        LedgerError,
    >)
        ensures
            match r {
                Ok(v) => v@ == accounts_of_type(self.accounts_seq(), account_type),
                Err(_) => false,
            },
    {
        let mut v: Vec<Account> = Vec::new();
        let mut i: usize = 0;
        proof {
            assert(self.accounts@.take(0) =~= Seq::<Account>::empty());
        }
        while i < self.accounts.len()
            invariant
                0 <= i <= self.accounts@.len(),
                v@ == accounts_of_type(self.accounts@.take(i as int), account_type),
            decreases self.accounts@.len() - i,
        {
            if self.accounts[i].account_type == account_type {
                v.push(self.accounts[i].clone());
            }
            proof {
                assert(self.accounts@.take(i as int + 1).drop_last() =~= self.accounts@.take(
                    i as int,
                ));
                assert(self.accounts@.take(i as int + 1).last() == self.accounts@[i as int]);
            }
            i = i + 1;
        }
        proof {
            assert(self.accounts@.take(self.accounts@.len() as int) =~= self.accounts@);
        }
        Ok(v)
    }
}

/// Referential integrity is preserved by any change to the accounts that
/// keeps every existing identity at its position.
pub(crate) proof fn lemma_has_account_id_preserved(
    olds: Seq<Account>,
    news: Seq<Account>,
    transactions: Seq<Transaction>,
)
    requires
        olds.len() <= news.len(),
        forall|j: int| 0 <= j < olds.len() ==> (#[trigger] news[j]).id == olds[j].id,
        forall|k: int|
            0 <= k < transactions.len() ==> has_account_id(
                olds,
                (#[trigger] transactions[k]).source_account_id,
            ) && has_account_id(olds, transactions[k].destination_account_id),
    ensures
        forall|k: int|
            0 <= k < transactions.len() ==> has_account_id(
                news,
                (#[trigger] transactions[k]).source_account_id,
            ) && has_account_id(news, transactions[k].destination_account_id),
{
    assert forall|k: int|
        0 <= k < transactions.len() implies has_account_id(
        news,
        (#[trigger] transactions[k]).source_account_id,
    ) && has_account_id(news, transactions[k].destination_account_id) by {
        let src = transactions[k].source_account_id;
        let dst = transactions[k].destination_account_id;
        lemma_index_by_id(olds, src);
        lemma_index_by_id(news, src);
        let j1 = choose|j: int| 0 <= j < olds.len() && (#[trigger] olds[j]).id == src;
        assert(news[j1].id == src);
        lemma_index_by_id(olds, dst);
        lemma_index_by_id(news, dst);
        let j2 = choose|j: int| 0 <= j < olds.len() && (#[trigger] olds[j]).id == dst;
        assert(news[j2].id == dst);
    }
}

impl Client {
    /// Compute the account's current balance by the double-entry rule:
    /// initial balance plus credits minus debits over the whole history.
    /// Fails with `NotFound` exactly when the account does not exist.
    pub fn get_account_balance(&self, account_id: &AccountId) -> (r: Result<i64, LedgerError>)
        requires
            has_account_id(self.accounts_seq(), *account_id) ==> i64::MIN <= self.balance_of(
                *account_id,
            ) <= i64::MAX,
        ensures
            match r {
                Ok(b) => {
                    &&& has_account_id(self.accounts_seq(), *account_id)
                    &&& b == self.balance_of(*account_id)
                },
                Err(e) => {
                    &&& e == LedgerError::NotFound
                    &&& !has_account_id(self.accounts_seq(), *account_id)
                },
            },
    {
        match find_index_by_id(&self.accounts, account_id) {
            None => Err(LedgerError::NotFound),
            Some(i) => {
                let initial = self.accounts[i].initial_balance;
                let history_len = self.transactions.len();
                let sum = crate::balance::signed_sum_core(&self.transactions, account_id, None);
                proof {
                    crate::balance::lemma_scaled_bound_fits(history_len as int);
                }
                let total = initial as i128 + sum;
                Ok(total as i64)
            },
        }
    }

    /// Compute the account's balance as of `date`: the same rule, over the
    /// transactions dated on or before `date` (a transaction dated exactly
    /// `date` is included). Fails with `NotFound` exactly when the account
    /// does not exist.
    pub fn get_account_balance_as_of_date(&self, account_id: &AccountId, date: &Date) -> (r:
        Result<i64, LedgerError>)
        requires
            has_account_id(self.accounts_seq(), *account_id) ==> i64::MIN <= self.balance_of_as_of(
                *account_id,
                *date,
            ) <= i64::MAX,
        ensures
            match r {
                Ok(b) => {
                    &&& has_account_id(self.accounts_seq(), *account_id)
                    &&& b == self.balance_of_as_of(*account_id, *date)
                },
                Err(e) => {
                    &&& e == LedgerError::NotFound
                    &&& !has_account_id(self.accounts_seq(), *account_id)
                },
            },
    {
        match find_index_by_id(&self.accounts, account_id) {
            None => Err(LedgerError::NotFound),
            Some(i) => {
                let initial = self.accounts[i].initial_balance;
                let history_len = self.transactions.len();
                let sum = crate::balance::signed_sum_core(
                    &self.transactions,
                    account_id,
                    Some(date),
                );
                proof {
                    crate::balance::lemma_scaled_bound_fits(history_len as int);
                }
                let total = initial as i128 + sum;
                Ok(total as i64)
            },
        }
    }

    /// Create a transaction; the store assigns the next identity and files
    /// the record into the history at its date-ordered position. Fails with
    /// `ReferentialIntegrityViolation`, leaving the store unchanged,
    /// exactly when the source or the destination account id does not
    /// exist.
    #[verifier::rlimit(60)]
    pub fn create_transaction(&mut self, new_transaction: &NewTransaction) -> (r: Result<
        Transaction,
        LedgerError,
    >)
        requires
            old(self).wf(),
            old(self).transactions_seq().len() < i32::MAX,
        ensures
            match r {
                Ok(t) => {
                    &&& has_account_id(
                        old(self).accounts_seq(),
                        new_transaction.source_account_id,
                    )
                    &&& has_account_id(
                        old(self).accounts_seq(),
                        new_transaction.destination_account_id,
                    )
                    &&& t.id.0 == old(self).transactions_seq().len() + 1
                    &&& t.name@ == new_transaction.name@
                    &&& t.source_account_id == new_transaction.source_account_id
                    &&& t.destination_account_id == new_transaction.destination_account_id
                    &&& t.amount == new_transaction.amount
                    &&& t.date == new_transaction.date
                    &&& final(self).transactions_seq() == old(self).transactions_seq().insert(
                        insert_position(old(self).transactions_seq(), new_transaction.date),
                        t,
                    )
                    &&& final(self).transactions_seq().len() == old(
                        self,
                    ).transactions_seq().len() + 1
                    &&& final(self).accounts_seq() == old(self).accounts_seq()
                    &&& final(self).wf()
                },
                Err(e) => {
                    &&& e == LedgerError::ReferentialIntegrityViolation
                    &&& !(has_account_id(old(self).accounts_seq(), new_transaction.source_account_id)
                        && has_account_id(
                        old(self).accounts_seq(),
                        new_transaction.destination_account_id,
                    ))
                    &&& *final(self) == *old(self)
                },
            },
    {
        let src_found = find_index_by_id(&self.accounts, &new_transaction.source_account_id);
        let dst_found = find_index_by_id(&self.accounts, &new_transaction.destination_account_id);
        if src_found.is_none() || dst_found.is_none() {
            return Err(LedgerError::ReferentialIntegrityViolation);
        }
        let id = TransactionId((self.transactions.len() + 1) as i32);
        let t = Transaction {
            id,
            name: new_transaction.name.to_owned(),
            source_account_id: new_transaction.source_account_id,
            destination_account_id: new_transaction.destination_account_id,
            amount: new_transaction.amount,
            date: new_transaction.date,
        };
        let result = t.clone();
        let pos = find_insert_position(&self.transactions, &new_transaction.date);
        proof {
            lemma_insert_position(old(self).transactions_seq(), new_transaction.date);
        }
        self.transactions.insert(pos, t);
        proof {
            let ts = old(self).transactions_seq();
            let ts2 = self.transactions_seq();
            let p = pos as int;
            ts.insert_ensures(p, result);
            assert(ts2 == ts.insert(p, result));
            assert forall|k: int, l: int|
                0 <= k <= l < ts2.len() implies (#[trigger] ts2[l]).date.spec_le(
                (#[trigger] ts2[k]).date,
            ) by {
                let d = result.date;
                if k < p {
                    crate::models::date::lemma_date_order_total(ts[k].date, d);
                }
                if l < p {
                    crate::models::date::lemma_date_order_total(ts[l].date, d);
                }
                if k == p && l > p {
                    assert(ts2[l] == ts[l - 1]);
                    assert(ts[l - 1].date.spec_le(ts[p].date));
                    assert(ts[p].date.spec_lt(d));
                    crate::models::date::lemma_date_order_transitive(
                        ts[l - 1].date,
                        ts[p].date,
                        d,
                    );
                }
            }
        }
        Ok(result)
    }

    /// List the whole transaction history, ordered by date, most recent
    /// first.
    pub fn list_transactions(&self) -> (r: Result<Vec<Transaction>, LedgerError>)
        ensures
            match r {
                Ok(v) => v@ == self.transactions_seq(),
                Err(_) => false,
            },
    {
        let v = self.transactions.clone();
        proof {
            assert forall|i: int| 0 <= i < v@.len() implies v@[i] == self.transactions@[i] by {
                assert(vstd::pervasive::cloned::<Transaction>(self.transactions@[i], v@[i]));
            }
            assert(v@ =~= self.transactions@);
        }
        Ok(v)
    }

    /// List the transactions referencing the account as source or
    /// destination, ordered by date, most recent first. An unknown id
    /// yields the empty listing.
    pub fn get_transactions_for_account(&self, account_id: &AccountId) -> (r: Result<
        Vec<Transaction>,
        LedgerError,
    >)
        ensures
            match r {
                Ok(v) => v@ == for_account(self.transactions_seq(), *account_id),
                Err(_) => false,
            },
    {
        let mut v: Vec<Transaction> = Vec::new();
        let mut i: usize = 0;
        proof {
            assert(self.transactions@.take(0) =~= Seq::<Transaction>::empty());
        }
        while i < self.transactions.len()
            invariant
                0 <= i <= self.transactions@.len(),
                v@ == for_account(self.transactions@.take(i as int), *account_id),
            decreases self.transactions@.len() - i,
        {
            let t = &self.transactions[i];
            if t.source_account_id == *account_id || t.destination_account_id == *account_id {
                v.push(t.clone());
            }
            proof {
                let prev = self.transactions@.take(i as int);
                let tt = self.transactions@[i as int];
                assert(self.transactions@.take(i as int + 1) =~= prev.push(tt));
                crate::balance::lemma_restrictions_push(prev, tt, *account_id, tt.date);
            }
            i = i + 1;
        }
        proof {
            assert(self.transactions@.take(self.transactions@.len() as int)
                =~= self.transactions@);
        }
        Ok(v)
    }

    /// List the transactions referencing the account and dated on or
    /// before `date` (a transaction dated exactly `date` is included),
    /// ordered by date, most recent first.
    pub fn get_transactions_for_account_before_date_included(
        &self,
        account_id: &AccountId,
        date: &Date,
    ) -> (r: Result<Vec<Transaction>, LedgerError>)
        ensures
            match r {
                Ok(v) => v@ == for_account_on_or_before(
                    self.transactions_seq(),
                    *account_id,
                    *date,
                ),
                Err(_) => false,
            },
    {
        let mut v: Vec<Transaction> = Vec::new();
        let mut i: usize = 0;
        proof {
            assert(self.transactions@.take(0) =~= Seq::<Transaction>::empty());
        }
        while i < self.transactions.len()
            invariant
                0 <= i <= self.transactions@.len(),
                v@ == for_account_on_or_before(
                    self.transactions@.take(i as int),
                    *account_id,
                    *date,
                ),
            decreases self.transactions@.len() - i,
        {
            let t = &self.transactions[i];
            if (t.source_account_id == *account_id || t.destination_account_id == *account_id)
                && t.date.le(date) {
                v.push(t.clone());
            }
            proof {
                let prev = self.transactions@.take(i as int);
                let tt = self.transactions@[i as int];
                assert(self.transactions@.take(i as int + 1) =~= prev.push(tt));
                crate::balance::lemma_restrictions_push(prev, tt, *account_id, *date);
            }
            i = i + 1;
        }
        proof {
            assert(self.transactions@.take(self.transactions@.len() as int)
                =~= self.transactions@);
        }
        Ok(v)
    }
}

/// The position at which a transaction dated `date` is filed into the
/// date-descending history: after every stored transaction dated on or
/// after `date`, before the first one dated strictly earlier.
pub open spec fn insert_position(ts: Seq<Transaction>, date: Date) -> int
    decreases ts.len(),
{
    if ts.len() == 0 {
        0
    } else if ts[0].date.spec_lt(date) {
        0
    } else {
        1 + insert_position(ts.drop_first(), date)
    }
}

/// What `insert_position` finds: nothing before it is dated strictly
/// earlier than `date`, and the entry at it (if any) is.
pub proof fn lemma_insert_position(ts: Seq<Transaction>, date: Date)
    ensures
        0 <= insert_position(ts, date) <= ts.len(),
        forall|j: int|
            0 <= j < insert_position(ts, date) ==> !(#[trigger] ts[j]).date.spec_lt(date),
        insert_position(ts, date) < ts.len() ==> ts[insert_position(ts, date)].date.spec_lt(date),
    decreases ts.len(),
{
    if ts.len() > 0 && !ts[0].date.spec_lt(date) {
        let rest = ts.drop_first();
        let idx = insert_position(ts, date);
        lemma_insert_position(rest, date);
        assert(idx == 1 + insert_position(rest, date));
        if idx < ts.len() {
            assert(rest[idx - 1] == ts[idx]);
        }
        assert forall|j: int| 0 <= j < idx implies !(#[trigger] ts[j]).date.spec_lt(date) by {
            if j >= 1 {
                assert(rest[j - 1] == ts[j]);
            }
        }
    }
}

/// Position at which a transaction dated `date` is filed into the stored
/// history.
fn find_insert_position(transactions: &Vec<Transaction>, date: &Date) -> (r: usize)
    ensures
        r == insert_position(transactions@, *date),
        r <= transactions@.len(),
{
    let mut i: usize = 0;
    while i < transactions.len()
        invariant
            0 <= i <= transactions@.len(),
            forall|j: int| 0 <= j < i ==> !(#[trigger] transactions@[j]).date.spec_lt(*date),
        decreases transactions@.len() - i,
    {
        if transactions[i].date.lt(date) {
            proof {
                lemma_insert_position(transactions@, *date);
                let idx = insert_position(transactions@, *date);
                if idx < i as int {
                    assert(!transactions@[idx].date.spec_lt(*date));
                } else if idx > i as int {
                    assert(!transactions@[i as int].date.spec_lt(*date));
                }
            }
            return i;
        }
        i = i + 1;
    }
    proof {
        lemma_insert_position(transactions@, *date);
    }
    i
}

/// The accounts of the given type, keeping their order.
pub open spec fn accounts_of_type(accounts: Seq<Account>, account_type: AccountType) -> Seq<
    Account,
>
    decreases accounts.len(),
{
    if accounts.len() == 0 {
        accounts
    } else {
        let rest = accounts_of_type(accounts.drop_last(), account_type);
        if accounts.last().account_type == account_type {
            rest.push(accounts.last())
        } else {
            rest
        }
    }
}

/// Every account in a by-type listing has that type and appears in the
/// store.
pub(crate) proof fn lemma_accounts_of_type_elements(accounts: Seq<Account>, account_type: AccountType)
    ensures
        forall|i: int|
            0 <= i < accounts_of_type(accounts, account_type).len() ==> (
            #[trigger] accounts_of_type(accounts, account_type)[i]).account_type == account_type
                && accounts.contains(accounts_of_type(accounts, account_type)[i]),
    decreases accounts.len(),
{
    if accounts.len() > 0 {
        lemma_accounts_of_type_elements(accounts.drop_last(), account_type);
        let rest = accounts_of_type(accounts.drop_last(), account_type);
        assert forall|i: int|
            0 <= i < accounts_of_type(accounts, account_type).len() implies (
        #[trigger] accounts_of_type(accounts, account_type)[i]).account_type == account_type
            && accounts.contains(accounts_of_type(accounts, account_type)[i]) by {
            if i < rest.len() {
                assert(accounts_of_type(accounts, account_type)[i] == rest[i]);
                let j = choose|j: int|
                    0 <= j < accounts.drop_last().len() && accounts.drop_last()[j] == rest[i];
                assert(accounts[j] == rest[i]);
            } else {
                assert(accounts_of_type(accounts, account_type)[i] == accounts.last());
                assert(accounts[accounts.len() - 1] == accounts.last());
            }
        }
    }
}

/// Position of the first stored account with the given name, if any.
fn find_index_by_name(accounts: &Vec<Account>, name: &str) -> (r: Option<usize>)
    ensures
        match r {
            Some(i) => i == index_by_name(accounts@, name@) && i < accounts@.len(),
            None => !has_account_named(accounts@, name@),
        },
{
    let key: String = name.to_owned();
    let mut i: usize = 0;
    while i < accounts.len()
        invariant
            0 <= i <= accounts@.len(),
            key@ == name@,
            forall|j: int| 0 <= j < i ==> (#[trigger] accounts@[j]).name@ != name@,
        decreases accounts@.len() - i,
    {
        if accounts[i].name == key {
            proof {
                lemma_index_by_name(accounts@, name@);
                let idx = index_by_name(accounts@, name@);
                if idx < i as int {
                    assert(accounts@[idx].name@ == name@);
                } else if idx > i as int {
                    assert(accounts@[i as int].name@ != name@);
                }
            }
            return Some(i);
        }
        i = i + 1;
    }
    proof {
        lemma_index_by_name(accounts@, name@);
    }
    None
}

/// Position of the first stored account with the given id, if any.
pub(crate) fn find_index_by_id(accounts: &Vec<Account>, id: &AccountId) -> (r: Option<usize>)
    ensures
        match r {
            Some(i) => i == index_by_id(accounts@, *id) && i < accounts@.len(),
            None => !has_account_id(accounts@, *id),
        },
{
    let mut i: usize = 0;
    while i < accounts.len()
        invariant
            0 <= i <= accounts@.len(),
            forall|j: int| 0 <= j < i ==> (#[trigger] accounts@[j]).id != *id,
        decreases accounts@.len() - i,
    {
        if accounts[i].id == *id {
            proof {
                lemma_index_by_id(accounts@, *id);
            }
            return Some(i);
        }
        i = i + 1;
    }
    proof {
        lemma_index_by_id(accounts@, *id);
    }
    None
}


/// Conservation of value (law): recording a transaction of amount `a`
/// from account X to a different account Y — filed anywhere into the
/// history, as `create_transaction` does, with all other transactions
/// fixed — raises Y's balance by exactly `a`, lowers X's by exactly `a`,
/// and leaves every other account's balance unchanged.
pub proof fn lemma_create_transaction_conservation(
    c1: Client,
    c2: Client,
    t: Transaction,
    pos: int,
)
    requires
        0 <= pos <= c1.transactions_seq().len(),
        c2.transactions_seq() == c1.transactions_seq().insert(pos, t),
        c2.accounts_seq() == c1.accounts_seq(),
        t.source_account_id != t.destination_account_id,
    ensures
        c2.balance_of(t.destination_account_id) == c1.balance_of(t.destination_account_id)
            + t.amount,
        c2.balance_of(t.source_account_id) == c1.balance_of(t.source_account_id) - t.amount,
        forall|id: AccountId|
            id != t.source_account_id && id != t.destination_account_id
                ==> #[trigger] c2.balance_of(id) == c1.balance_of(id),
{
    crate::balance::lemma_transaction_conservation(c1.transactions_seq(), t, pos);
}

/// Zero-balance invariant (law): an account freshly created with initial
/// balance 0 — its identity is new, so no stored transaction references
/// it — has balance 0.
pub proof fn lemma_fresh_account_zero_balance(c1: Client, c2: Client, a: Account)
    requires
        c1.wf(),
        c2.accounts_seq() == c1.accounts_seq().push(a),
        c2.transactions_seq() == c1.transactions_seq(),
        a.id.0 == c1.accounts_seq().len() + 1,
        a.initial_balance == 0,
    ensures
        c2.balance_of(a.id) == 0,
{
    let olds = c1.accounts_seq();
    let news = c2.accounts_seq();
    let ts = c1.transactions_seq();
    assert forall|k: int| 0 <= k < ts.len() implies !touches(
        #[trigger] ts[k],
        a.id,
    ) by {
        let src = ts[k].source_account_id;
        let dst = ts[k].destination_account_id;
        lemma_index_by_id(olds, src);
        lemma_index_by_id(olds, dst);
        assert(src.0 <= olds.len());
        assert(dst.0 <= olds.len());
    }
    crate::balance::lemma_untouched_transactions_sum_zero(ts, a.id);
    assert forall|j: int| 0 <= j < olds.len() implies (#[trigger] news[j]).id != a.id by {
        assert(news[j] == olds[j]);
    }
    lemma_index_by_id(news, a.id);
    assert(news[olds.len() as int] == a);
    let idx = index_by_id(news, a.id);
    if idx < olds.len() as int {
        assert(news[idx].id == a.id);
    }
    assert(account_with_id(news, a.id) == a);
}

/// As-of monotonicity (law): two as-of balance queries agree whenever no
/// transaction at all is dated after the first date and on or before the
/// second.
pub proof fn lemma_as_of_balance_monotonic(c: Client, id: AccountId, d1: Date, d2: Date)
    requires
        d1.spec_le(d2),
        forall|k: int|
            0 <= k < c.transactions_seq().len() ==> !(d1.spec_lt(
                (#[trigger] c.transactions_seq()[k]).date,
            ) && c.transactions_seq()[k].date.spec_le(d2)),
    ensures
        c.balance_of_as_of(id, d1) == c.balance_of_as_of(id, d2),
{
    crate::balance::lemma_on_or_before_unchanged(c.transactions_seq(), d1, d2);
}

/// Pre-history balance (law): as of a date strictly before every
/// transaction referencing the account, the balance is the initial
/// balance alone.
pub proof fn lemma_balance_before_history(c: Client, id: AccountId, d: Date)
    requires
        forall|k: int|
            0 <= k < c.transactions_seq().len() ==> touches(
                #[trigger] c.transactions_seq()[k],
                id,
            ) ==> d.spec_lt(c.transactions_seq()[k].date),
    ensures
        c.balance_of_as_of(id, d) == account_with_id(c.accounts_seq(), id).initial_balance,
{
    crate::balance::lemma_sum_before_history_zero(c.transactions_seq(), id, d);
}

/// Idempotent lookup (law): in a well-formed store, looking the record
/// found by name up again by its id yields the identical record.
pub proof fn lemma_lookup_idempotent(c: Client, name: Seq<char>)
    requires
        c.wf(),
        has_account_named(c.accounts_seq(), name),
    ensures
        has_account_id(c.accounts_seq(), account_named(c.accounts_seq(), name).id),
        account_with_id(c.accounts_seq(), account_named(c.accounts_seq(), name).id)
            == account_named(c.accounts_seq(), name),
{
    let s = c.accounts_seq();
    lemma_index_by_name(s, name);
    let i = index_by_name(s, name);
    let a = s[i];
    lemma_index_by_id(s, a.id);
    let j = index_by_id(s, a.id);
    if j < s.len() {
        assert(s[j].id.0 == j + 1);
        assert(s[i].id.0 == i + 1);
    } else {
        assert(s[i].id == a.id);
    }
}

} // verus!
