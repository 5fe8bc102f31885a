//! The double-entry balance computation.
//!
//! Every transaction debits its source account and credits its destination
//! account by the same amount. An account's balance is its initial balance
//! plus the sum of credits minus the sum of debits over the transaction
//! history; an as-of balance restricts the history to transactions dated on
//! or before the given day. These definitions, and the laws proved about
//! them, are the heart of the ledger.

use vstd::prelude::*;

use crate::models::accounts::AccountId;
use crate::models::date::Date;
use crate::models::transactions::Transaction;

verus! {

/// `t` credits `id`: the amount is moved into the account.
pub open spec fn is_credit(t: Transaction, id: AccountId) -> bool {
    t.destination_account_id == id
}

/// `t` debits `id`: the amount is moved out of the account.
pub open spec fn is_debit(t: Transaction, id: AccountId) -> bool {
    t.source_account_id == id
}

/// `t` references `id` as source or destination.
pub open spec fn touches(t: Transaction, id: AccountId) -> bool {
    is_credit(t, id) || is_debit(t, id)
}

/// Sum of the amounts of all transactions crediting `id`.
pub open spec fn credit_sum(ts: Seq<Transaction>, id: AccountId) -> int
    decreases ts.len(),
{
    if ts.len() == 0 {
        0
    } else {
        credit_sum(ts.drop_last(), id) + if is_credit(ts.last(), id) {
            ts.last().amount as int
        } else {
            0
        }
    }
}

/// Sum of the amounts of all transactions debiting `id`.
pub open spec fn debit_sum(ts: Seq<Transaction>, id: AccountId) -> int
    decreases ts.len(),
{
    if ts.len() == 0 {
        0
    } else {
        debit_sum(ts.drop_last(), id) + if is_debit(ts.last(), id) {
            ts.last().amount as int
        } else {
            0
        }
    }
}

/// The net amount the transaction history contributes to `id`'s balance:
/// credits minus debits.
pub open spec fn transactions_sum(ts: Seq<Transaction>, id: AccountId) -> int {
    credit_sum(ts, id) - debit_sum(ts, id)
}

/// Sum of the amounts of all transactions in the sequence, regardless of
/// account.
pub open spec fn amount_sum(ts: Seq<Transaction>) -> int
    decreases ts.len(),
{
    if ts.len() == 0 {
        0
    } else {
        amount_sum(ts.drop_last()) + ts.last().amount as int
    }
}

/// The transactions dated on or before `date`, keeping their order.
pub open spec fn on_or_before(ts: Seq<Transaction>, date: Date) -> Seq<Transaction>
    decreases ts.len(),
{
    if ts.len() == 0 {
        ts
    } else {
        let rest = on_or_before(ts.drop_last(), date);
        if ts.last().date.spec_le(date) {
            rest.push(ts.last())
        } else {
            rest
        }
    }
}

/// The transactions referencing `id` as source or destination, keeping
/// their order.
pub open spec fn for_account(ts: Seq<Transaction>, id: AccountId) -> Seq<Transaction>
    decreases ts.len(),
{
    if ts.len() == 0 {
        ts
    } else {
        let rest = for_account(ts.drop_last(), id);
        if touches(ts.last(), id) {
            rest.push(ts.last())
        } else {
            rest
        }
    }
}

/// The transactions referencing `id` and dated on or before `date`, keeping
/// their order.
pub open spec fn for_account_on_or_before(ts: Seq<Transaction>, id: AccountId, date: Date) -> Seq<
    Transaction,
>
    decreases ts.len(),
{
    if ts.len() == 0 {
        ts
    } else {
        let rest = for_account_on_or_before(ts.drop_last(), id, date);
        if touches(ts.last(), id) && ts.last().date.spec_le(date) {
            rest.push(ts.last())
        } else {
            rest
        }
    }
}

/// Every i64 amount lies strictly within this magnitude bound.
pub open spec fn amount_bound() -> int {
    0x8000_0000_0000_0000
}

/// Appending a transaction extends each sum by that transaction's
/// contribution.
pub(crate) proof fn lemma_sums_push(ts: Seq<Transaction>, t: Transaction, id: AccountId)
    ensures
        credit_sum(ts.push(t), id) == credit_sum(ts, id) + if is_credit(t, id) {
            t.amount as int
        } else {
            0
        },
        debit_sum(ts.push(t), id) == debit_sum(ts, id) + if is_debit(t, id) {
            t.amount as int
        } else {
            0
        },
        amount_sum(ts.push(t)) == amount_sum(ts) + t.amount,
{
    assert(ts.push(t).drop_last() =~= ts);
    assert(ts.push(t).last() == t);
}

/// Appending a transaction extends each restriction of the history by that
/// transaction exactly when it satisfies the restriction.
pub(crate) proof fn lemma_restrictions_push(ts: Seq<Transaction>, t: Transaction, id: AccountId, date: Date)
    ensures
        on_or_before(ts.push(t), date) == if t.date.spec_le(date) {
            on_or_before(ts, date).push(t)
        } else {
            on_or_before(ts, date)
        },
        for_account(ts.push(t), id) == if touches(t, id) {
            for_account(ts, id).push(t)
        } else {
            for_account(ts, id)
        },
        for_account_on_or_before(ts.push(t), id, date) == if touches(t, id)
            && t.date.spec_le(date) {
            for_account_on_or_before(ts, id, date).push(t)
        } else {
            for_account_on_or_before(ts, id, date)
        },
{
    assert(ts.push(t).drop_last() =~= ts);
    assert(ts.push(t).last() == t);
}

/// Inserting a transaction anywhere in the history changes each sum by that
/// transaction's contribution, no matter the position.
pub(crate) proof fn lemma_sums_insert(ts: Seq<Transaction>, t: Transaction, pos: int, id: AccountId)
    requires
        0 <= pos <= ts.len(),
    ensures
        credit_sum(ts.insert(pos, t), id) == credit_sum(ts, id) + if is_credit(t, id) {
            t.amount as int
        } else {
            0
        },
        debit_sum(ts.insert(pos, t), id) == debit_sum(ts, id) + if is_debit(t, id) {
            t.amount as int
        } else {
            0
        },
    decreases ts.len(),
{
    let s2 = ts.insert(pos, t);
    if pos == ts.len() {
        assert(s2 =~= ts.push(t));
        lemma_sums_push(ts, t, id);
    } else {
        assert(s2.last() == ts.last());
        assert(s2.drop_last() =~= ts.drop_last().insert(pos, t));
        lemma_sums_insert(ts.drop_last(), t, pos, id);
    }
}

/// Conservation of value: recording a transaction of amount `a` from
/// account X to a different account Y raises Y's net contribution by
/// exactly `a`, lowers X's by exactly `a`, and leaves every other
/// account's contribution unchanged — wherever in the history the
/// transaction is inserted.
pub proof fn lemma_transaction_conservation(ts: Seq<Transaction>, t: Transaction, pos: int)
    requires
        0 <= pos <= ts.len(),
        t.source_account_id != t.destination_account_id,
    ensures
        transactions_sum(ts.insert(pos, t), t.destination_account_id) == transactions_sum(
            ts,
            t.destination_account_id,
        ) + t.amount,
        transactions_sum(ts.insert(pos, t), t.source_account_id) == transactions_sum(
            ts,
            t.source_account_id,
        ) - t.amount,
        forall|id: AccountId|
            id != t.source_account_id && id != t.destination_account_id
                ==> #[trigger] transactions_sum(ts.insert(pos, t), id) == transactions_sum(ts, id),
{
    lemma_sums_insert(ts, t, pos, t.destination_account_id);
    lemma_sums_insert(ts, t, pos, t.source_account_id);
    assert forall|id: AccountId|
        id != t.source_account_id && id != t.destination_account_id
            implies #[trigger] transactions_sum(ts.insert(pos, t), id) == transactions_sum(
        ts,
        id,
    ) by {
        lemma_sums_insert(ts, t, pos, id);
    }
}

/// A history in which no transaction references the account contributes
/// nothing to its balance.
pub proof fn lemma_untouched_transactions_sum_zero(ts: Seq<Transaction>, id: AccountId)
    requires
        forall|k: int| 0 <= k < ts.len() ==> !touches(#[trigger] ts[k], id),
    ensures
        transactions_sum(ts, id) == 0,
    decreases ts.len(),
{
    if ts.len() > 0 {
        assert(forall|k: int|
            0 <= k < ts.drop_last().len() ==> !touches(#[trigger] ts.drop_last()[k], id));
        lemma_untouched_transactions_sum_zero(ts.drop_last(), id);
        assert(ts.last() == ts[ts.len() - 1]);
    }
}

/// As-of histories are the same for two dates when no transaction at all is
/// dated after the first and on or before the second.
pub proof fn lemma_on_or_before_unchanged(ts: Seq<Transaction>, d1: Date, d2: Date)
    requires
        d1.spec_le(d2),
        forall|k: int|
            0 <= k < ts.len() ==> !(d1.spec_lt(#[trigger] ts[k].date) && ts[k].date.spec_le(d2)),
    ensures
        on_or_before(ts, d1) == on_or_before(ts, d2),
    decreases ts.len(),
{
    if ts.len() > 0 {
        assert(forall|k: int|
            0 <= k < ts.drop_last().len() ==> !(d1.spec_lt(#[trigger] ts.drop_last()[k].date)
                && ts.drop_last()[k].date.spec_le(d2)));
        lemma_on_or_before_unchanged(ts.drop_last(), d1, d2);
        let t = ts.last();
        assert(t == ts[ts.len() - 1]);
        crate::models::date::lemma_date_order_total(d1, t.date);
        if t.date.spec_le(d1) {
            crate::models::date::lemma_date_order_transitive(t.date, d1, d2);
        }
    }
}

/// A history of at most `usize::MAX` transactions scaled by the amount
/// bound stays clear of the `i128` range.
pub(crate) proof fn lemma_scaled_bound_fits(n: int)
    requires
        0 <= n <= usize::MAX as int,
    ensures
        n * amount_bound() <= 0x7fff_ffff_ffff_ffff_8000_0000_0000_0000,
{
    vstd::arithmetic::mul::lemma_mul_inequality(n, usize::MAX as int, amount_bound());
    assert(usize::MAX as int <= 0xffff_ffff_ffff_ffff);
    vstd::arithmetic::mul::lemma_mul_inequality(
        usize::MAX as int,
        0xffff_ffff_ffff_ffff,
        amount_bound(),
    );
    assert(0xffff_ffff_ffff_ffff * 0x8000_0000_0000_0000
        == 0x7fff_ffff_ffff_ffff_8000_0000_0000_0000) by (nonlinear_arith);
}

/// Before any of an account's transactions, the history contributes nothing
/// to its as-of balance: the as-of balance is the initial balance alone.
pub proof fn lemma_sum_before_history_zero(ts: Seq<Transaction>, id: AccountId, d: Date)
    requires
        forall|k: int|
            0 <= k < ts.len() ==> touches(#[trigger] ts[k], id) ==> d.spec_lt(ts[k].date),
    ensures
        transactions_sum(on_or_before(ts, d), id) == 0,
    decreases ts.len(),
{
    if ts.len() > 0 {
        assert(forall|k: int|
            0 <= k < ts.drop_last().len() ==> touches(#[trigger] ts.drop_last()[k], id)
                ==> d.spec_lt(ts.drop_last()[k].date));
        lemma_sum_before_history_zero(ts.drop_last(), id, d);
        let t = ts.last();
        assert(t == ts[ts.len() - 1]);
        crate::models::date::lemma_date_order_total(d, t.date);
        if t.date.spec_le(d) {
            assert(!touches(t, id));
            lemma_sums_push(on_or_before(ts.drop_last(), d).push(t).drop_last(), t, id);
            assert(on_or_before(ts.drop_last(), d).push(t).drop_last() =~= on_or_before(
                ts.drop_last(),
                d,
            ));
            lemma_sums_push(on_or_before(ts.drop_last(), d), t, id);
        }
    }
}


/// One pass over the history: the net contribution to `account_id`'s
/// balance of the transactions admitted by `cutoff` (all of them, or those
/// dated on or before the cutoff). The `i128` accumulator cannot overflow.
pub(crate) fn signed_sum_core(
    transactions: &Vec<Transaction>,
    account_id: &AccountId,
    cutoff: Option<&Date>,
) -> (s: i128)
    ensures
        s == match cutoff {
            Some(d) => transactions_sum(on_or_before(transactions@, *d), *account_id),
            None => transactions_sum(transactions@, *account_id),
        },
        -((transactions@.len() as int) * amount_bound()) <= s <= (transactions@.len() as int)
            * amount_bound(),
{
    let mut acc: i128 = 0;
    let mut i: usize = 0;
    while i < transactions.len()
        invariant
            0 <= i <= transactions@.len(),
            acc == match cutoff {
                Some(d) => transactions_sum(
                    on_or_before(transactions@.take(i as int), *d),
                    *account_id,
                ),
                None => transactions_sum(transactions@.take(i as int), *account_id),
            },
            -((i as int) * amount_bound()) <= acc <= (i as int) * amount_bound(),
        decreases transactions@.len() - i,
    {
        let t = &transactions[i];
        let included = match cutoff {
            Some(d) => t.date.le(d),
            None => true,
        };
        proof {
            assert((i as int) * amount_bound() + amount_bound() == (i as int + 1)
                * amount_bound()) by (nonlinear_arith);
            lemma_scaled_bound_fits(i as int + 1);
        }
        if included {
            let credit = t.destination_account_id == *account_id;
            let debit = t.source_account_id == *account_id;
            let c: i128 = if credit && debit {
                0
            } else if credit {
                t.amount as i128
            } else if debit {
                -(t.amount as i128)
            } else {
                0
            };
            acc = acc + c;
        }
        proof {
            let prev = transactions@.take(i as int);
            let tt = transactions@[i as int];
            assert(transactions@.take(i as int + 1) =~= prev.push(tt));
            match cutoff {
                Some(d) => {
                    lemma_restrictions_push(prev, tt, *account_id, *d);
                    if tt.date.spec_le(*d) {
                        lemma_sums_push(on_or_before(prev, *d), tt, *account_id);
                    }
                },
                None => {
                    lemma_sums_push(prev, tt, *account_id);
                },
            }
        }
        i = i + 1;
    }
    proof {
        assert(transactions@.take(transactions@.len() as int) =~= transactions@);
    }
    acc
}

/// Sum the amounts of the given transactions, regardless of account.
pub fn get_transactions_amount_sum(transactions: Vec<Transaction>) -> (s: i64)
    requires
        i64::MIN <= amount_sum(transactions@) <= i64::MAX,
    ensures
        s == amount_sum(transactions@),
{
    let mut acc: i128 = 0;
    let mut i: usize = 0;
    while i < transactions.len()
        invariant
            0 <= i <= transactions@.len(),
            acc == amount_sum(transactions@.take(i as int)),
            -((i as int) * amount_bound()) <= acc <= (i as int) * amount_bound(),
        decreases transactions@.len() - i,
    {
        proof {
            assert((i as int) * amount_bound() + amount_bound() == (i as int + 1)
                * amount_bound()) by (nonlinear_arith);
            lemma_scaled_bound_fits(i as int + 1);
            let prev = transactions@.take(i as int);
            let tt = transactions@[i as int];
            assert(transactions@.take(i as int + 1) =~= prev.push(tt));
            lemma_sums_push(prev, tt, AccountId(0));
        }
        acc = acc + transactions[i].amount as i128;
        i = i + 1;
    }
    proof {
        assert(transactions@.take(transactions@.len() as int) =~= transactions@);
    }
    acc as i64
}

/// The net contribution of the given transactions to `account_id`'s
/// balance: the sum of the amounts crediting the account minus the sum of
/// the amounts debiting it.
pub fn get_account_balance_from_transactions(
    transactions: Vec<Transaction>,
    account_id: &AccountId,
) -> (s: i64)
    requires
        i64::MIN <= transactions_sum(transactions@, *account_id) <= i64::MAX,
    ensures
        s == transactions_sum(transactions@, *account_id),
{
    let s = signed_sum_core(&transactions, account_id, None);
    s as i64
}

} // verus!
