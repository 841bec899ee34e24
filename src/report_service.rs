use vstd::prelude::*;

use chrono::Datelike;

use crate::account::{signed_balance, AccountType};
use crate::account_service::AccountService;
use crate::date::{day_before, valid_ymd, Date, DateView};
use crate::db::Database;
use crate::errors::{StorageFault, ValidationError, WalletError};
use crate::money::{eur_view, utf8_len, Currency, Money, MoneyView};
use crate::transaction::{Transaction, TransactionFilters};
use crate::transaction_repository::{hydrated, listing_ok, page};
use crate::transaction_service::TransactionService;

verus! {

/// A total in euros, with the accounts left out of it and why.
#[derive(Debug)]
pub struct BalanceReport {
    pub total: Money,
    pub failures: Vec<(i64, WalletError)>,
}

/// Whether account `id` is a root account of type `t`.
pub open spec fn is_root_of(db: &Database, t: AccountType, id: i64) -> bool {
    &&& db.contains_account(id)
    &&& db.account(id).parent_id is None
    &&& db.account(id).account_type == t
}

/// The balance of the postings on `ids` before `before` under the sign rule
/// of `t`, where it can be computed.
pub open spec fn balance_value(db: &Database, t: AccountType, ids: Seq<i64>, before: Option<DateView>) -> Option<int> {
    match db.grouped_sums(ids, before) {
        None => Some(0),
        Some((d, c, code)) => if d <= i64::MAX && c <= i64::MAX && utf8_len(code) == 3 {
            Some(signed_balance(t, d, c))
        } else {
            None
        },
    }
}

pub open spec fn fits_i64(x: int) -> bool {
    i64::MIN <= x <= i64::MAX
}

/// Adds `b` to the running total `acc`, or records `id` as left out where
/// `b` is missing or the total would not fit.
pub open spec fn fold_step(acc: (int, Seq<i64>), id: i64, b: Option<int>) -> (int, Seq<i64>) {
    match b {
        Some(v) => if fits_i64(acc.0 + v) {
            (acc.0 + v, acc.1)
        } else {
            (acc.0, acc.1.push(id))
        },
        None => (acc.0, acc.1.push(id)),
    }
}

/// The total of the roll-up balances of the root accounts of type `t` among
/// the first `n` accounts, and the roots left out.
pub open spec fn rollup_upto(db: &Database, t: AccountType, n: int) -> (int, Seq<i64>)
    decreases n,
{
    if n <= 0 {
        (0, Seq::empty())
    } else if is_root_of(db, t, n as i64) {
        fold_step(rollup_upto(db, t, n - 1), n as i64, balance_value(db, t, db.subtree_ids(n as i64), None))
    } else {
        rollup_upto(db, t, n - 1)
    }
}

/// The activity of account `id` between `from` and `to`: its balance before
/// `to` less its balance before `from`, the latter taken as zero where it
/// cannot be computed.
pub open spec fn window_value(db: &Database, t: AccountType, id: i64, from: DateView, to: DateView) -> Option<int> {
    match balance_value(db, t, seq![id], Some(to)) {
        None => None,
        Some(e) => {
            let s = match balance_value(db, t, seq![id], Some(from)) {
                Some(v) => v,
                None => 0,
            };
            if fits_i64(e - s) {
                Some(e - s)
            } else {
                None
            }
        },
    }
}

/// The total of the activity between `from` and `to` of the root accounts of
/// type `t` among the first `n` accounts, and the roots left out.
pub open spec fn window_upto(db: &Database, t: AccountType, from: DateView, to: DateView, n: int) -> (int, Seq<i64>)
    decreases n,
{
    if n <= 0 {
        (0, Seq::empty())
    } else if is_root_of(db, t, n as i64) {
        fold_step(window_upto(db, t, from, to, n - 1), n as i64, window_value(db, t, n as i64, from, to))
    } else {
        window_upto(db, t, from, to, n - 1)
    }
}

proof fn lemma_rollup_fits(db: &Database, t: AccountType, n: int)
    ensures
        fits_i64(rollup_upto(db, t, n).0),
    decreases n,
{
    if n > 0 {
        lemma_rollup_fits(db, t, n - 1);
    }
}

/// `r` reports total `total` in euros and leaves out exactly `left_out`.
pub open spec fn reports(r: BalanceReport, total: int, left_out: Seq<i64>) -> bool {
    &&& r.total@ == (MoneyView { amount: total as i64, currency: eur_view() })
    &&& r.failures@.len() == left_out.len()
    &&& forall|j: int| 0 <= j < left_out.len() ==> (#[trigger] r.failures@[j]).0 == left_out[j]
}

/// The first day of the month after `year`-`month`.
pub open spec fn next_month_start(year: int, month: int) -> DateView {
    if month == 12 {
        DateView { year: year + 1, month: 1, day: 1 }
    } else {
        DateView { year, month: month + 1, day: 1 }
    }
}

/// Whether `year`-`month` has a first day and a day after its last one.
pub open spec fn month_known(year: int, month: int) -> bool {
    let n = next_month_start(year, month);
    valid_ymd(year, month, 1) && valid_ymd(n.year, n.month, n.day)
}

/// The first and last days of `year`-`month`.
pub open spec fn month_bounds(year: int, month: int) -> (DateView, DateView) {
    (DateView { year, month, day: 1 }, day_before(next_month_start(year, month)).unwrap())
}

/// Relies on `chrono::Local::now`: the current year and month, of which
/// only the range of the month is promised.
#[verifier::external_body]
fn local_year_month() -> (r: (i32, u32))
    ensures
        1 <= r.1 <= 12,
{
    let now = chrono::Local::now();
    (now.year(), now.month())
}

/// The first and last days of `year`-`month`.
fn month_range(year: i32, month: u32) -> (r: Result<(Date, Date), WalletError>)
    ensures
        month_known(year as int, month as int) ==> (r matches Ok((s, e)) && (s@, e@) == month_bounds(year as int, month as int)),
        !month_known(year as int, month as int) ==> r == Err::<(Date, Date), WalletError>(
            WalletError::ValidationError(ValidationError::InvalidDate),
        ),
{
    let start = match Date::from_ymd_opt(year, month, 1) {
        Some(d) => d,
        None => {
            return Err(WalletError::ValidationError(ValidationError::InvalidDate));
        },
    };
    let next = if month == 12 {
        Date::from_ymd_opt(year + 1, 1, 1)
    } else {
        Date::from_ymd_opt(year, month + 1, 1)
    };
    let next = match next {
        Some(d) => d,
        None => {
            return Err(WalletError::ValidationError(ValidationError::InvalidDate));
        },
    };
    match next.pred_opt() {
        Some(end) => Ok((start, end)),
        None => Err(WalletError::ValidationError(ValidationError::InvalidDate)),
    }
}

/// Cross-cutting totals and listings, built from the account and
/// transaction services.
pub struct ReportService {
    account_service: AccountService,
    transaction_service: TransactionService,
}

impl ReportService {
    pub fn new() -> (r: ReportService) {
        ReportService { account_service: AccountService::new(), transaction_service: TransactionService::new() }
    }

    /// The sum of the roll-up balances of the root accounts of type
    /// `account_type`; a root whose balance fails is left out of the total
    /// and listed with its error.
    pub fn get_total_by_account_type(&self, db: &Database, account_type: AccountType) -> (r: BalanceReport)
        requires
            db.wf(),
        ensures
            reports(
                r,
                rollup_upto(db, account_type, db.accounts@.len() as int).0,
                rollup_upto(db, account_type, db.accounts@.len() as int).1,
            ),
    {
        let n = db.accounts.len();
        let mut total: i64 = 0;
        let mut failures: Vec<(i64, WalletError)> = Vec::new();
        let mut k: usize = 0;
        while k < n
            invariant
                db.wf(),
                n == db.accounts@.len(),
                k <= n,
                total == rollup_upto(db, account_type, k as int).0,
                failures@.len() == rollup_upto(db, account_type, k as int).1.len(),
                forall|j: int| 0 <= j < failures@.len() ==> (#[trigger] failures@[j]).0 == rollup_upto(db, account_type, k as int).1[j],
            decreases n - k,
        {
            let id = k as i64 + 1;
            let a = &db.accounts[k];
            if a.parent_id.is_none() && a.account_type == account_type {
                assert(is_root_of(db, account_type, id));
                let b = self.account_service.calculate_balance_with_children(db, id);
                match b {
                    Ok(m) => {
                        let v = m.amount_minor();
                        if (v > 0 && total > i64::MAX - v) || (v < 0 && total < i64::MIN - v) {
                            failures.push((id, WalletError::StorageError(StorageFault::SumOverflow)));
                        } else {
                            total = total + v;
                        }
                    },
                    Err(e) => {
                        failures.push((id, e));
                    },
                }
            }
            k = k + 1;
        }
        BalanceReport { total: Money::from_minor_units(total, Currency::eur()), failures }
    }

    /// The total of the root asset accounts.
    pub fn get_total_assets(&self, db: &Database) -> (r: BalanceReport)
        requires
            db.wf(),
        ensures
            reports(
                r,
                rollup_upto(db, AccountType::Asset, db.accounts@.len() as int).0,
                rollup_upto(db, AccountType::Asset, db.accounts@.len() as int).1,
            ),
    {
        self.get_total_by_account_type(db, AccountType::Asset)
    }

    /// The total of the root liability accounts.
    pub fn get_total_liabilities(&self, db: &Database) -> (r: BalanceReport)
        requires
            db.wf(),
        ensures
            reports(
                r,
                rollup_upto(db, AccountType::Liability, db.accounts@.len() as int).0,
                rollup_upto(db, AccountType::Liability, db.accounts@.len() as int).1,
            ),
    {
        self.get_total_by_account_type(db, AccountType::Liability)
    }

    /// Total assets less total liabilities, with the roots left out of either.
    pub fn get_net_worth(&self, db: &Database) -> (r: Result<BalanceReport, WalletError>)
        requires
            db.wf(),
        ensures
            ({
                let a = rollup_upto(db, AccountType::Asset, db.accounts@.len() as int);
                let l = rollup_upto(db, AccountType::Liability, db.accounts@.len() as int);
                &&& fits_i64(a.0 - l.0) ==> (r matches Ok(rep) && reports(rep, a.0 - l.0, a.1 + l.1))
                &&& !fits_i64(a.0 - l.0) ==> r == Err::<BalanceReport, WalletError>(WalletError::StorageError(StorageFault::SumOverflow))
            }),
    {
        let assets = self.get_total_assets(db);
        let liabilities = self.get_total_liabilities(db);
        proof {
            lemma_rollup_fits(db, AccountType::Asset, db.accounts@.len() as int);
            lemma_rollup_fits(db, AccountType::Liability, db.accounts@.len() as int);
        }
        let a = assets.total.amount_minor();
        let l = liabilities.total.amount_minor();
        if (l < 0 && a > i64::MAX + l) || (l > 0 && a < i64::MIN + l) {
            return Err(WalletError::StorageError(StorageFault::SumOverflow));
        }
        let mut failures = assets.failures;
        let ghost fa = failures@;
        let mut rest = liabilities.failures;
        let ghost fl = rest@;
        failures.append(&mut rest);
        let currency = assets.total.currency().copied();
        let rep = BalanceReport { total: Money::from_minor_units(a - l, currency), failures };
        proof {
            let ta = rollup_upto(db, AccountType::Asset, db.accounts@.len() as int);
            let tl = rollup_upto(db, AccountType::Liability, db.accounts@.len() as int);
            assert forall|j: int| 0 <= j < (ta.1 + tl.1).len() implies (#[trigger] rep.failures@[j]).0 == (ta.1 + tl.1)[j] by {
                if j < fa.len() {
                    assert(rep.failures@[j] == fa[j]);
                } else {
                    assert(rep.failures@[j] == fl[j - fa.len()]);
                }
            }
        }
        Ok(rep)
    }

    /// The activity in `year`-`month` of the root accounts of type
    /// `account_type`: for each, its balance before the month's last day less
    /// its balance before the day before the month's first day.
    pub fn get_monthly_total_by_account_type(
        &self,
        db: &Database,
        account_type: AccountType,
        year: i32,
        month: u32,
    ) -> (r: Result<BalanceReport, WalletError>)
        requires
            db.wf(),
        ensures
            !month_known(year as int, month as int) ==> r == Err::<BalanceReport, WalletError>(
                WalletError::ValidationError(ValidationError::InvalidDate),
            ),
            month_known(year as int, month as int) ==> ({
                let (s, e) = month_bounds(year as int, month as int);
                let from = match day_before(s) {
                    Some(p) => p,
                    None => s,
                };
                let w = window_upto(db, account_type, from, e, db.accounts@.len() as int);
                r matches Ok(rep) && reports(rep, w.0, w.1)
            }),
    {
        let (start, end) = match month_range(year, month) {
            Ok(b) => b,
            Err(e) => {
                return Err(e);
            },
        };
        let from = match start.pred_opt() {
            Some(p) => p,
            None => start,
        };
        let ghost fv = from@;
        let n = db.accounts.len();
        let mut total: i64 = 0;
        let mut failures: Vec<(i64, WalletError)> = Vec::new();
        let mut k: usize = 0;
        while k < n
            invariant
                db.wf(),
                n == db.accounts@.len(),
                k <= n,
                fv == from@,
                total == window_upto(db, account_type, fv, end@, k as int).0,
                failures@.len() == window_upto(db, account_type, fv, end@, k as int).1.len(),
                forall|j: int| 0 <= j < failures@.len() ==> (#[trigger] failures@[j]).0 == window_upto(db, account_type, fv, end@, k as int).1[j],
            decreases n - k,
        {
            let id = k as i64 + 1;
            let a = &db.accounts[k];
            if a.parent_id.is_none() && a.account_type == account_type {
                assert(is_root_of(db, account_type, id));
                match self.account_service.calculate_account_balance(db, id, Some(end)) {
                    Ok(b) => {
                        let before = match self.account_service.calculate_account_balance(db, id, Some(from)) {
                            Ok(s) => s.amount_minor(),
                            Err(_) => 0,
                        };
                        let e = b.amount_minor();
                        if (before < 0 && e > i64::MAX + before) || (before > 0 && e < i64::MIN + before) {
                            failures.push((id, WalletError::StorageError(StorageFault::SumOverflow)));
                        } else {
                            let v = e - before;
                            if (v > 0 && total > i64::MAX - v) || (v < 0 && total < i64::MIN - v) {
                                failures.push((id, WalletError::StorageError(StorageFault::SumOverflow)));
                            } else {
                                total = total + v;
                            }
                        }
                    },
                    Err(e) => {
                        failures.push((id, e));
                    },
                }
            }
            k = k + 1;
        }
        Ok(BalanceReport { total: Money::from_minor_units(total, Currency::eur()), failures })
    }

    /// `r` is the monthly report of `account_type` for `year`-`month`.
    pub open spec fn monthly_result(db: &Database, account_type: AccountType, year: int, month: int, r: Result<BalanceReport, WalletError>) -> bool {
        &&& !month_known(year, month) ==> r == Err::<BalanceReport, WalletError>(WalletError::ValidationError(ValidationError::InvalidDate))
        &&& month_known(year, month) ==> ({
            let (s, e) = month_bounds(year, month);
            let from = match day_before(s) {
                Some(p) => p,
                None => s,
            };
            let w = window_upto(db, account_type, from, e, db.accounts@.len() as int);
            r matches Ok(rep) && reports(rep, w.0, w.1)
        })
    }

    /// The income of `year`-`month`.
    pub fn get_monthly_income(&self, db: &Database, year: i32, month: u32) -> (r: Result<BalanceReport, WalletError>)
        requires
            db.wf(),
        ensures
            ReportService::monthly_result(db, AccountType::Income, year as int, month as int, r),
    {
        self.get_monthly_total_by_account_type(db, AccountType::Income, year, month)
    }

    /// The expenses of `year`-`month`.
    pub fn get_monthly_expenses(&self, db: &Database, year: i32, month: u32) -> (r: Result<BalanceReport, WalletError>)
        requires
            db.wf(),
        ensures
            ReportService::monthly_result(db, AccountType::Expense, year as int, month as int, r),
    {
        self.get_monthly_total_by_account_type(db, AccountType::Expense, year, month)
    }

    /// The income of the current month of the local calendar.
    pub fn get_current_month_income(&self, db: &Database) -> (r: Result<BalanceReport, WalletError>)
        requires
            db.wf(),
        ensures
            exists|y: i32, m: u32| 1 <= m <= 12 && ReportService::monthly_result(db, AccountType::Income, y as int, m as int, r),
    {
        let (y, m) = local_year_month();
        self.get_monthly_income(db, y, m)
    }

    /// The expenses of the current month of the local calendar.
    pub fn get_current_month_expenses(&self, db: &Database) -> (r: Result<BalanceReport, WalletError>)
        requires
            db.wf(),
        ensures
            exists|y: i32, m: u32| 1 <= m <= 12 && ReportService::monthly_result(db, AccountType::Expense, y as int, m as int, r),
    {
        let (y, m) = local_year_month();
        self.get_monthly_expenses(db, y, m)
    }

    /// The latest `limit` transactions, later dates first.
    pub fn get_recent_transactions(&self, db: &Database, limit: u32) -> (r: Vec<Transaction>)
        requires
            db.wf(),
        ensures
            exists|all: Seq<i64>| {
                &&& listing_ok(db, all, None, None, None)
                &&& r@.len() == page(all, Some(limit), None).len()
                &&& forall|j: int| 0 <= j < r@.len() ==> hydrated(db, page(all, Some(limit), None)[j], #[trigger] r@[j])
            },
    {
        let filters = TransactionFilters { account_id: None, from_date: None, to_date: None, limit: Some(limit), offset: None };
        self.transaction_service.get_transactions(db, filters)
    }

    /// The transactions dated within `year`-`month`, later dates first.
    pub fn get_monthly_transactions(&self, db: &Database, year: i32, month: u32) -> (r: Result<Vec<Transaction>, WalletError>)
        requires
            db.wf(),
        ensures
            !month_known(year as int, month as int) ==> r == Err::<Vec<Transaction>, WalletError>(
                WalletError::ValidationError(ValidationError::InvalidDate),
            ),
            month_known(year as int, month as int) ==> ({
                let (s, e) = month_bounds(year as int, month as int);
                &&& r is Ok
                &&& exists|all: Seq<i64>| {
                    &&& listing_ok(db, all, None, Some(s), Some(e))
                    &&& r->Ok_0@.len() == all.len()
                    &&& forall|j: int| 0 <= j < all.len() ==> hydrated(db, all[j], #[trigger] r->Ok_0@[j])
                }
            }),
    {
        let (start, end) = match month_range(year, month) {
            Ok(b) => b,
            Err(e) => {
                return Err(e);
            },
        };
        let filters = TransactionFilters { account_id: None, from_date: Some(start), to_date: Some(end), limit: None, offset: None };
        let txs = self.transaction_service.get_transactions(db, filters);
        proof {
            let all = choose|all: Seq<i64>| {
                &&& listing_ok(db, all, None, Some(start@), Some(end@))
                &&& txs@.len() == page(all, None, None).len()
                &&& forall|j: int| 0 <= j < txs@.len() ==> hydrated(db, page(all, None, None)[j], #[trigger] txs@[j])
            };
            assert(page(all, None, None) =~= all);
            let (s, e) = month_bounds(year as int, month as int);
            assert(s == start@ && e == end@);
            assert(forall|j: int| 0 <= j < all.len() ==> hydrated(db, all[j], #[trigger] txs@[j]));
            assert(exists|all: Seq<i64>| {
                &&& listing_ok(db, all, None, Some(s), Some(e))
                &&& txs@.len() == all.len()
                &&& forall|j: int| 0 <= j < all.len() ==> hydrated(db, all[j], #[trigger] txs@[j])
            });
        }
        Ok(txs)
    }
}

} // verus!
