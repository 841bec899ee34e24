use vstd::prelude::*;

use crate::date::Date;
use crate::db::Database;
use crate::errors::{ValidationError, WalletError};
use crate::money::{str_equal, Money};
use crate::transaction::{EntryType, InputView, Transaction, TransactionEntryInput, TransactionFilters};
use crate::db::opt_date;
use crate::transaction_repository::{hydrated, listing_ok, page, posted, TransactionRepository};

verus! {

/// The sum of the amounts of the inputs on side `side`.
pub open spec fn input_total(es: Seq<TransactionEntryInput>, side: EntryType) -> int
    decreases es.len(),
{
    if es.len() == 0 {
        0
    } else {
        input_total(es.drop_last(), side) + (if es.last().entry_type == side {
            es.last().amount@.amount
        } else {
            0
        })
    }
}

/// The first rule of double entry that the proposed postings break, if any.
pub open spec fn balance_violation(es: Seq<TransactionEntryInput>) -> Option<ValidationError> {
    let d = input_total(es, EntryType::Debit);
    let c = input_total(es, EntryType::Credit);
    if es.len() < 2 {
        Some(ValidationError::TooFewEntries)
    } else if exists|i: int| 0 <= i < es.len() && (#[trigger] es[i]).amount@.amount <= 0 {
        Some(ValidationError::NonPositiveAmount)
    } else if exists|i: int| 0 <= i < es.len() && (#[trigger] es[i]).amount@.currency.code != es[0].amount@.currency.code {
        Some(ValidationError::MixedCurrencies)
    } else if d > i64::MAX || c > i64::MAX {
        Some(ValidationError::TotalOverflow)
    } else if d != c {
        Some(ValidationError::Unbalanced { debits: d as i64, credits: c as i64 })
    } else {
        None
    }
}

/// Orchestrates the recording and reading of transactions.
pub struct TransactionService {
    repository: TransactionRepository,
}

impl TransactionService {
    pub fn new() -> (r: TransactionService) {
        TransactionService { repository: TransactionRepository::new() }
    }

    /// Checks proposed postings against the rules of double entry: at least
    /// two of them, each positive, all in one currency, debits equal to credits.
    pub fn validate_transaction_balance(entries: &[TransactionEntryInput]) -> (r: Result<(), WalletError>)
        ensures
            balance_violation(entries@) is None <==> r is Ok,
            balance_violation(entries@) matches Some(v) ==> r == Err::<(), WalletError>(WalletError::ValidationError(v)),
            r is Ok ==> input_total(entries@, EntryType::Debit) == input_total(entries@, EntryType::Credit),
    {
        let ghost es = entries@;
        let n = entries.len();
        if n < 2 {
            return Err(WalletError::ValidationError(ValidationError::TooFewEntries));
        }
        let mut i: usize = 0;
        while i < n
            invariant
                n == es.len(),
                n >= 2,
                es == entries@,
                i <= n,
                forall|j: int| 0 <= j < i ==> (#[trigger] es[j]).amount@.amount > 0,
            decreases n - i,
        {
            if entries[i].amount.amount_minor() <= 0 {
                assert(es[i as int].amount@.amount <= 0);
                return Err(WalletError::ValidationError(ValidationError::NonPositiveAmount));
            }
            i = i + 1;
        }
        let first = entries[0].amount.currency().code();
        let mut i: usize = 0;
        while i < n
            invariant
                n == es.len(),
                n >= 2,
                es == entries@,
                i <= n,
                first@ == es[0].amount@.currency.code,
                forall|j: int| 0 <= j < n ==> (#[trigger] es[j]).amount@.amount > 0,
                forall|j: int| 0 <= j < i ==> (#[trigger] es[j]).amount@.currency.code == es[0].amount@.currency.code,
            decreases n - i,
        {
            if !str_equal(entries[i].amount.currency().code(), first) {
                assert(es[i as int].amount@.currency.code != es[0].amount@.currency.code);
                return Err(WalletError::ValidationError(ValidationError::MixedCurrencies));
            }
            i = i + 1;
        }
        let mut debits: i128 = 0;
        let mut credits: i128 = 0;
        let mut i: usize = 0;
        while i < n
            invariant
                n == es.len(),
                n >= 2,
                es == entries@,
                i <= n,
                forall|j: int| 0 <= j < n ==> (#[trigger] es[j]).amount@.amount > 0,
                forall|j: int| 0 <= j < n ==> (#[trigger] es[j]).amount@.currency.code == es[0].amount@.currency.code,
                0 <= debits <= i * (i64::MAX as int),
                0 <= credits <= i * (i64::MAX as int),
                debits == input_total(es.take(i as int), EntryType::Debit),
                credits == input_total(es.take(i as int), EntryType::Credit),
            decreases n - i,
        {
            proof {
                assert(es.take(i + 1).drop_last() =~= es.take(i as int));
                assert((i + 1) * (i64::MAX as int) == i * (i64::MAX as int) + i64::MAX) by (nonlinear_arith);
                assert((i + 1) * (i64::MAX as int) <= 0x1_0000_0000_0000_0000 * (i64::MAX as int)) by (nonlinear_arith)
                    requires
                        i + 1 <= 0x1_0000_0000_0000_0000,
                ;
            }
            let a = entries[i].amount.amount_minor() as i128;
            match entries[i].entry_type {
                EntryType::Debit => {
                    debits = debits + a;
                },
                EntryType::Credit => {
                    credits = credits + a;
                },
            }
            i = i + 1;
        }
        proof {
            assert(es.take(n as int) =~= es);
        }
        if debits > i64::MAX as i128 || credits > i64::MAX as i128 {
            return Err(WalletError::ValidationError(ValidationError::TotalOverflow));
        }
        if debits != credits {
            return Err(
                WalletError::ValidationError(ValidationError::Unbalanced { debits: debits as i64, credits: credits as i64 }),
            );
        }
        Ok(())
    }

    /// Validates the proposed postings and stores them with their header as
    /// one unit: on any failure nothing is stored.
    pub fn create_transaction(
        &self,
        db: &mut Database,
        description: String,
        transaction_date: Date,
        entries: Vec<TransactionEntryInput>,
    ) -> (r: Result<Transaction, WalletError>)
        requires
            old(db).wf(),
        ensures
            final(db).wf(),
            r is Err ==> *final(db) == *old(db),
            balance_violation(entries@) matches Some(v) ==> r == Err::<Transaction, WalletError>(WalletError::ValidationError(v)),
            balance_violation(entries@) is None ==> TransactionService::recorded(
                old(db),
                final(db),
                description@,
                transaction_date,
                entries@.map_values(|e: TransactionEntryInput| e@),
                r,
            ),
    {
        match TransactionService::validate_transaction_balance(entries.as_slice()) {
            Err(e) => {
                return Err(e);
            },
            Ok(()) => {},
        }
        proof {
            assert forall|j: int| 0 <= j < entries@.len() implies (#[trigger] entries@[j]).amount@.amount > 0 by {
                if entries@[j].amount@.amount <= 0 {
                    assert(balance_violation(entries@) is Some);
                }
            }
        }
        let ghost vs = entries@.map_values(|e: TransactionEntryInput| e@);
        let ghost es0 = entries@;
        let r = self.repository.create_transaction(db, description, transaction_date, entries);
        proof {
            assert(vs.len() == es0.len());
            assert(forall|j: int| 0 <= j < vs.len() ==> #[trigger] vs[j] == es0[j]@);
            assert((forall|j: int| 0 <= j < vs.len() ==> old(db).contains_account(#[trigger] vs[j].account_id)) <==> (forall|j: int|
                0 <= j < es0.len() ==> old(db).contains_account(#[trigger] es0[j].account_id))) by {
                if forall|j: int| 0 <= j < vs.len() ==> old(db).contains_account(#[trigger] vs[j].account_id) {
                    assert forall|j: int| 0 <= j < es0.len() implies old(db).contains_account(#[trigger] es0[j].account_id) by {
                        assert(vs[j] == es0[j]@);
                        assert(old(db).contains_account(vs[j].account_id));
                    }
                }
            }
        }
        r
    }

    /// The outcome of storing valid postings `es`: stored as one unit where the
    /// store has room and every account exists; otherwise nothing stored.
    pub open spec fn recorded(
        before: &Database,
        after: &Database,
        description: Seq<char>,
        date: Date,
        es: Seq<InputView>,
        r: Result<Transaction, WalletError>,
    ) -> bool {
        &&& (TransactionRepository::fits(before, es.len() as int) && (forall|j: int| 0 <= j < es.len() ==> before.contains_account(#[trigger] es[j].account_id)))
            <==> r is Ok
        &&& r is Ok ==> {
            let tid = before.transactions@.len() + 1;
            let m = before.entries@.len();
            &&& after.accounts@ == before.accounts@
            &&& after.transactions@.drop_last() == before.transactions@
            &&& after.transactions@.len() == tid
            &&& after.transactions@.last()@.description == description
            &&& after.transactions@.last()@.transaction_date == date@
            &&& after.entries@.len() == m + es.len()
            &&& after.entries@.take(m as int) == before.entries@
            &&& forall|j: int| 0 <= j < es.len() ==> (#[trigger] after.entries@[m + j])@ == posted(es[j], m + j + 1, tid as int)
            &&& r->Ok_0.id == Some(tid as i64)
            &&& r->Ok_0.entries@.len() == es.len()
            &&& forall|j: int| 0 <= j < es.len() ==> (#[trigger] r->Ok_0.entries@[j])@ == posted(es[j], m + j + 1, tid as int)
        }
    }

    pub fn get_transaction(&self, db: &Database, id: i64) -> (r: Result<Transaction, WalletError>)
        requires
            db.wf(),
        ensures
            1 <= id <= db.transactions@.len() ==> (r matches Ok(t) && hydrated(db, id, t)),
            !(1 <= id <= db.transactions@.len()) ==> r == Err::<Transaction, WalletError>(
                WalletError::NotFoundError(crate::errors::NotFound::Transaction(id)),
            ),
    {
        self.repository.get_transaction(db, id)
    }

    /// The transactions that pass `filters`, later dates first.
    pub fn get_transactions(&self, db: &Database, filters: TransactionFilters) -> (r: Vec<Transaction>)
        requires
            db.wf(),
        ensures
            exists|all: Seq<i64>| {
                &&& listing_ok(db, all, filters.account_id, opt_date(filters.from_date), opt_date(filters.to_date))
                &&& r@.len() == page(all, filters.limit, filters.offset).len()
                &&& forall|j: int| 0 <= j < r@.len() ==> hydrated(db, page(all, filters.limit, filters.offset)[j], #[trigger] r@[j])
            },
    {
        self.repository.get_transactions(
            db,
            filters.account_id,
            filters.from_date,
            filters.to_date,
            filters.limit,
            filters.offset,
        )
    }

    /// Moves `amount` from `from_account_id` (credited) to `to_account_id`
    /// (debited) as a transaction of two postings.
    pub fn create_simple_transaction(
        &self,
        db: &mut Database,
        description: String,
        date: Date,
        amount: Money,
        from_account_id: i64,
        to_account_id: i64,
    ) -> (r: Result<Transaction, WalletError>)
        requires
            old(db).wf(),
        ensures
            final(db).wf(),
            r is Err ==> *final(db) == *old(db),
            amount@.amount <= 0 ==> r == Err::<Transaction, WalletError>(WalletError::ValidationError(ValidationError::NonPositiveAmount)),
            amount@.amount > 0 ==> TransactionService::recorded(
                old(db),
                final(db),
                description@,
                date,
                TransactionService::simple_entries(amount@, from_account_id, to_account_id),
                r,
            ),
    {
        let second = amount.copied();
        let mut entries: Vec<TransactionEntryInput> = Vec::new();
        entries.push(TransactionEntryInput { account_id: from_account_id, amount, entry_type: EntryType::Credit, description: None });
        entries.push(TransactionEntryInput { account_id: to_account_id, amount: second, entry_type: EntryType::Debit, description: None });
        proof {
            let es = entries@;
            assert(es.drop_last().drop_last() =~= Seq::<TransactionEntryInput>::empty());
            assert(es[1].amount@.currency.code == es[0].amount@.currency.code);
            if amount@.amount > 0 {
                let s1 = es.drop_last();
                assert(s1.len() == 1 && s1.last() == es[0]);
                assert(input_total(s1.drop_last(), EntryType::Debit) == 0);
                assert(input_total(s1.drop_last(), EntryType::Credit) == 0);
                assert(input_total(s1, EntryType::Debit) == 0);
                assert(input_total(s1, EntryType::Credit) == amount@.amount);
                assert(input_total(es, EntryType::Debit) == amount@.amount);
                assert(input_total(es, EntryType::Credit) == amount@.amount);
                assert(forall|i: int| 0 <= i < es.len() ==> (#[trigger] es[i]).amount@.amount > 0);
                assert(forall|i: int| 0 <= i < es.len() ==> (#[trigger] es[i]).amount@.currency.code == es[0].amount@.currency.code);
                assert(es.len() == 2);
                assert(!(exists|i: int| 0 <= i < es.len() && (#[trigger] es[i]).amount@.amount <= 0));
                assert(!(exists|i: int| 0 <= i < es.len() && (#[trigger] es[i]).amount@.currency.code != es[0].amount@.currency.code));
                assert(balance_violation(es) is None);
            } else {
                assert(es[0].amount@.amount <= 0);
            }
            assert(es.map_values(|e: TransactionEntryInput| e@) =~= TransactionService::simple_entries(amount@, from_account_id, to_account_id));
        }
        self.create_transaction(db, description, date, entries)
    }

    /// The two postings of a simple transfer: a credit, then a debit.
    pub open spec fn simple_entries(amount: crate::money::MoneyView, from: i64, to: i64) -> Seq<InputView> {
        seq![
            InputView { account_id: from, amount, entry_type: EntryType::Credit, description: None },
            InputView { account_id: to, amount, entry_type: EntryType::Debit, description: None },
        ]
    }
}

} // verus!
