use vstd::prelude::*;

use crate::account::{apply_normal_balance, signed_balance, Account, AccountType, AccountView};
use crate::date::{Date, DateView};
use crate::db::{now_micros, opt_date, AccountRepository, Database};
use crate::errors::{NotFound, StorageFault, ValidationError, WalletError};
use crate::money::{balance_currency_view, eur_view, utf8_len, Currency, Money, MoneyView};
use crate::account::AccountNode;
use crate::tree::{levels_fit, nodes_sorted};

verus! {

/// The longest chain of ancestors, counted from an account's parent up to
/// its root, that an account may have.
pub const MAX_HIERARCHY_DEPTH: u64 = 5;

/// The text left of `s` when leading and trailing whitespace is removed, as
/// `str::trim` returns it.
pub uninterp spec fn trim_of(s: Seq<char>) -> Seq<char>;

/// Relies on `str::trim`: the result depends on the characters alone.
#[verifier::external_body]
fn trim_text(s: &str) -> (r: &str)
    ensures
        r@ == trim_of(s@),
{
    s.trim()
}

/// The number of accounts from `id` up to its root, `id` included.
pub open spec fn chain_len(db: &Database, id: i64) -> nat
    decreases id,
{
    if !db.contains_account(id) {
        0
    } else {
        match db.account(id).parent_id {
            Some(p) => if 1 <= p < id {
                1 + chain_len(db, p)
            } else {
                1
            },
            None => 1,
        }
    }
}

/// `r` is the balance of an account of type `t` over the postings on `ids`
/// dated strictly before `before`: zero euros where there is none.
pub open spec fn balance_result(
    db: &Database,
    t: AccountType,
    ids: Seq<i64>,
    before: Option<DateView>,
    r: Result<Money, WalletError>,
) -> bool {
    match db.grouped_sums(ids, before) {
        None => r matches Ok(m) && m@ == (MoneyView { amount: 0, currency: eur_view() }),
        Some((d, c, code)) => if d > i64::MAX || c > i64::MAX {
            r == Err::<Money, WalletError>(WalletError::StorageError(StorageFault::SumOverflow))
        } else {
            balance_money(t, d, c, code, r)
        },
    }
}

/// `r` is the balance of type `t` for debits `d` and credits `c` in `code`.
pub open spec fn balance_money(t: AccountType, d: int, c: int, code: Seq<char>, r: Result<Money, WalletError>) -> bool {
    if utf8_len(code) != 3 {
        r matches Err(WalletError::CurrencyError(_))
    } else {
        r matches Ok(m) && m@.amount == signed_balance(t, d, c) && m@.currency == balance_currency_view(code)
    }
}

/// Whether a balance of `t` over the postings on `ids` can be computed.
pub open spec fn balance_succeeds(db: &Database, ids: Seq<i64>, before: Option<DateView>) -> bool {
    match db.grouped_sums(ids, before) {
        None => true,
        Some((d, c, code)) => d <= i64::MAX && c <= i64::MAX && utf8_len(code) == 3,
    }
}

/// The ids of `ids` whose own balance can be computed, in order.
pub open spec fn balance_successes(db: &Database, ids: Seq<i64>) -> Seq<i64>
    decreases ids.len(),
{
    if ids.len() == 0 {
        Seq::empty()
    } else if db.contains_account(ids.last()) && balance_succeeds(db, seq![ids.last()], None) {
        balance_successes(db, ids.drop_last()).push(ids.last())
    } else {
        balance_successes(db, ids.drop_last())
    }
}

/// The error that makes account `x` unusable for postings, if any.
pub open spec fn account_problem(db: &Database, x: i64) -> Option<ValidationError> {
    if !db.contains_account(x) {
        Some(ValidationError::AccountMissing(x))
    } else if !db.account(x).is_active {
        Some(ValidationError::AccountInactive(x))
    } else {
        None
    }
}

/// Whether account `id` has an active direct child.
pub open spec fn has_active_child(db: &Database, id: i64) -> bool {
    exists|x: i64| #[trigger] db.is_active_child(id, x)
}

/// The account that `create_account` stores: active, without a description.
pub open spec fn new_account_view(id: int, name: Seq<char>, t: AccountType, parent: i64, currency: crate::money::CurrencyView, a: AccountView) -> bool {
    &&& a.id == Some(id as i64)
    &&& a.name == name
    &&& a.account_type == t
    &&& a.parent_id == Some(parent)
    &&& a.currency == currency
    &&& a.description is None
    &&& a.is_active
}

/// The result of a balance computed from the grouped sums of the store.
fn money_from_sums(t: AccountType, sums: Result<Option<(i64, i64, String)>, WalletError>) -> (r: Result<Money, WalletError>)
    requires
        sums matches Ok(Some((d, c, _))) ==> d >= 0 && c >= 0,
    ensures
        sums matches Ok(None) ==> (r matches Ok(m) && m@ == (MoneyView { amount: 0, currency: eur_view() })),
        sums is Err ==> r is Err && r->Err_0 == sums->Err_0,
        sums matches Ok(Some((d, c, code))) ==> balance_money(t, d as int, c as int, code@, r),
{
    match sums {
        Err(e) => Err(e),
        Ok(None) => Ok(Money::zero(Currency::eur())),
        Ok(Some((d, c, code))) => {
            let currency = Currency::new(code.as_str(), 2, "\u{20ac}");
            match currency {
                Err(e) => Err(e),
                Ok(currency) => Ok(Money::from_minor_units(apply_normal_balance(t, d, c), currency)),
            }
        },
    }
}

proof fn lemma_sums_nonneg(
    db: &Database,
    es: Seq<crate::transaction::TransactionEntry>,
    ids: Seq<i64>,
    before: Option<DateView>,
    code: Seq<char>,
    side: crate::transaction::EntryType,
)
    requires
        forall|k: int| 0 <= k < es.len() ==> (#[trigger] es[k])@.amount.amount > 0,
    ensures
        db.side_total(es, ids, before, code, side) >= 0,
    decreases es.len(),
{
    if es.len() > 0 {
        lemma_sums_nonneg(db, es.drop_last(), ids, before, code, side);
    }
}

proof fn lemma_grouped_sums_nonneg(db: &Database, ids: Seq<i64>, before: Option<DateView>)
    requires
        db.wf(),
    ensures
        db.grouped_sums(ids, before) matches Some((d, c, _)) ==> d >= 0 && c >= 0,
{
    assert forall|k: int| 0 <= k < db.entries@.len() implies (#[trigger] db.entries@[k])@.amount.amount > 0 by {
        assert(db.entry_ok(db.entries@[k], k));
    }
    if let Some((d, c, code)) = db.grouped_sums(ids, before) {
        lemma_sums_nonneg(db, db.entries@, ids, before, code, crate::transaction::EntryType::Debit);
        lemma_sums_nonneg(db, db.entries@, ids, before, code, crate::transaction::EntryType::Credit);
    }
}

/// Business rules over accounts, and their balances.
pub struct AccountService {
    repository: AccountRepository,
}

impl AccountService {
    pub fn new() -> (r: AccountService) {
        AccountService { repository: AccountRepository::new() }
    }

    /// Fails unless `parent_id` exists and its chain of ancestors, itself
    /// included, is at most `MAX_HIERARCHY_DEPTH` long.
    pub fn validate_hierarchy_depth(&self, db: &Database, parent_id: i64) -> (r: Result<(), WalletError>)
        requires
            db.wf(),
        ensures
            !db.contains_account(parent_id) ==> r == Err::<(), WalletError>(WalletError::NotFoundError(NotFound::Account(parent_id))),
            db.contains_account(parent_id) && chain_len(db, parent_id) > MAX_HIERARCHY_DEPTH ==> r == Err::<(), WalletError>(
                WalletError::ValidationError(ValidationError::HierarchyTooDeep),
            ),
            db.contains_account(parent_id) && chain_len(db, parent_id) <= MAX_HIERARCHY_DEPTH ==> r is Ok,
    {
        let first = self.repository.get_by_id(db, parent_id);
        if let Err(e) = first {
            return Err(e);
        }
        let mut current = parent_id;
        let mut depth: u64 = 1;
        loop
            invariant
                db.wf(),
                db.contains_account(current),
                db.contains_account(parent_id),
                depth + chain_len(db, current) == chain_len(db, parent_id) + 1,
                1 <= depth <= MAX_HIERARCHY_DEPTH,
            decreases current,
        {
            let n = db.accounts.len();
            assert(current - 1 < n);
            let idx = (current - 1) as usize;
            let parent = db.accounts[idx].parent_id;
            assert(db.accounts@[idx as int].parent_id == parent);
            match parent {
                None => {
                    return Ok(());
                },
                Some(next) => {
                    assert(1 <= next < current);
                    assert(chain_len(db, current) == 1 + chain_len(db, next));
                    assert(chain_len(db, next) >= 1);
                    if depth + 1 > MAX_HIERARCHY_DEPTH {
                        return Err(WalletError::ValidationError(ValidationError::HierarchyTooDeep));
                    }
                    depth = depth + 1;
                    current = next;
                },
            }
        }
    }

    /// Creates an active account named `name`, already trimmed, under
    /// `parent_id`, which must exist, have the same type and leave the new
    /// account within the allowed depth.
    pub fn create_account_trimmed(
        &self,
        db: &mut Database,
        name: &str,
        account_type: AccountType,
        parent_id: Option<i64>,
        currency: Currency,
    ) -> (r: Result<Account, WalletError>)
        requires
            old(db).wf(),
        ensures
            final(db).wf(),
            r is Err ==> *final(db) == *old(db),
            final(db).transactions@ == old(db).transactions@,
            final(db).entries@ == old(db).entries@,
            parent_id is None ==> r == Err::<Account, WalletError>(WalletError::ValidationError(ValidationError::ParentRequired)),
            parent_id is Some ==> {
                let p = parent_id.unwrap();
                &&& !old(db).contains_account(p) ==> r == Err::<Account, WalletError>(WalletError::NotFoundError(NotFound::Account(p)))
                &&& old(db).contains_account(p) && old(db).account(p).account_type != account_type ==> r == Err::<Account, WalletError>(
                    WalletError::ValidationError(ValidationError::ParentTypeMismatch),
                )
                &&& old(db).contains_account(p) && old(db).account(p).account_type == account_type && chain_len(old(db), p)
                    > MAX_HIERARCHY_DEPTH ==> r == Err::<Account, WalletError>(WalletError::ValidationError(ValidationError::HierarchyTooDeep))
                &&& old(db).contains_account(p) && old(db).account(p).account_type == account_type && chain_len(old(db), p)
                    <= MAX_HIERARCHY_DEPTH && name@.len() == 0 ==> r == Err::<Account, WalletError>(
                    WalletError::ValidationError(ValidationError::EmptyName),
                )
                &&& old(db).contains_account(p) && old(db).account(p).account_type == account_type && chain_len(old(db), p)
                    <= MAX_HIERARCHY_DEPTH && name@.len() > 0 ==> {
                    &&& old(db).accounts@.len() + 1 >= i64::MAX ==> r == Err::<Account, WalletError>(WalletError::StorageError(StorageFault::IdSpaceExhausted))
                    &&& old(db).accounts@.len() + 1 < i64::MAX ==> {
                        &&& r is Ok
                        &&& final(db).accounts@.drop_last() == old(db).accounts@
                        &&& final(db).accounts@.len() == old(db).accounts@.len() + 1
                        &&& final(db).accounts@.last()@ == r->Ok_0@
                        &&& new_account_view((old(db).accounts@.len() + 1) as int, name@, account_type, p, currency@, r->Ok_0@)
                    }
                }
            },
    {
        let p = match parent_id {
            Some(p) => p,
            None => {
                return Err(WalletError::ValidationError(ValidationError::ParentRequired));
            },
        };
        let parent = match self.repository.get_by_id(db, p) {
            Ok(a) => a,
            Err(e) => {
                return Err(e);
            },
        };
        if parent.account_type != account_type {
            return Err(WalletError::ValidationError(ValidationError::ParentTypeMismatch));
        }
        match self.validate_hierarchy_depth(db, p) {
            Err(e) => {
                return Err(e);
            },
            Ok(()) => {},
        }
        if name.is_empty() {
            return Err(WalletError::ValidationError(ValidationError::EmptyName));
        }
        let now = now_micros();
        let account = Account {
            id: None,
            name: name.to_owned(),
            account_type,
            parent_id: Some(p),
            currency,
            description: None,
            is_active: true,
            created_at: now,
            updated_at: now,
        };
        self.repository.create(db, &account)
    }

    /// Creates an active account under `parent_id`; the name is stored trimmed.
    pub fn create_account(
        &self,
        db: &mut Database,
        name: String,
        account_type: AccountType,
        parent_id: Option<i64>,
        currency: Currency,
    ) -> (r: Result<Account, WalletError>)
        requires
            old(db).wf(),
        ensures
            final(db).wf(),
            r is Err ==> *final(db) == *old(db),
            parent_id is None ==> r == Err::<Account, WalletError>(WalletError::ValidationError(ValidationError::ParentRequired)),
            parent_id is Some ==> {
                let p = parent_id.unwrap();
                &&& !old(db).contains_account(p) ==> r == Err::<Account, WalletError>(WalletError::NotFoundError(NotFound::Account(p)))
                &&& old(db).contains_account(p) && old(db).account(p).account_type != account_type ==> r == Err::<Account, WalletError>(
                    WalletError::ValidationError(ValidationError::ParentTypeMismatch),
                )
                &&& old(db).contains_account(p) && old(db).account(p).account_type == account_type && chain_len(old(db), p)
                    > MAX_HIERARCHY_DEPTH ==> r == Err::<Account, WalletError>(WalletError::ValidationError(ValidationError::HierarchyTooDeep))
                &&& old(db).contains_account(p) && old(db).account(p).account_type == account_type && chain_len(old(db), p)
                    <= MAX_HIERARCHY_DEPTH && trim_of(name@).len() == 0 ==> r == Err::<Account, WalletError>(
                    WalletError::ValidationError(ValidationError::EmptyName),
                )
                &&& old(db).contains_account(p) && old(db).account(p).account_type == account_type && chain_len(old(db), p)
                    <= MAX_HIERARCHY_DEPTH && trim_of(name@).len() > 0 && old(db).accounts@.len() + 1 < i64::MAX ==> {
                    &&& r is Ok
                    &&& final(db).accounts@.drop_last() == old(db).accounts@
                    &&& final(db).accounts@.last()@ == r->Ok_0@
                    &&& new_account_view((old(db).accounts@.len() + 1) as int, trim_of(name@), account_type, p, currency@, r->Ok_0@)
                }
            },
    {
        let trimmed = trim_text(name.as_str());
        self.create_account_trimmed(db, trimmed, account_type, parent_id, currency)
    }

    /// The balance of account `account_id` over its own postings.
    pub fn calculate_balance(&self, db: &Database, account_id: i64) -> (r: Result<Money, WalletError>)
        requires
            db.wf(),
        ensures
            !db.contains_account(account_id) ==> r == Err::<Money, WalletError>(WalletError::NotFoundError(NotFound::Account(account_id))),
            db.contains_account(account_id) ==> balance_result(db, db.account(account_id).account_type, seq![account_id], None, r),
    {
        let account = match self.repository.get_by_id(db, account_id) {
            Ok(a) => a,
            Err(e) => {
                return Err(e);
            },
        };
        let sums = self.repository.get_account_transaction_sums(db, account_id);
        proof {
            lemma_grouped_sums_nonneg(db, seq![account_id], None);
        }
        money_from_sums(account.account_type, sums)
    }

    /// The balance of account `account_id` together with every active
    /// account below it, under the sign rule of `account_id`'s type.
    pub fn calculate_balance_with_children(&self, db: &Database, account_id: i64) -> (r: Result<Money, WalletError>)
        requires
            db.wf(),
        ensures
            !db.contains_account(account_id) ==> r == Err::<Money, WalletError>(WalletError::NotFoundError(NotFound::Account(account_id))),
            db.contains_account(account_id) ==> balance_result(
                db,
                db.account(account_id).account_type,
                db.subtree_ids(account_id),
                None,
                r,
            ),
    {
        let account = match self.repository.get_by_id(db, account_id) {
            Ok(a) => a,
            Err(e) => {
                return Err(e);
            },
        };
        let ids = self.repository.get_descendant_account_ids(db, account_id);
        let sums = self.repository.get_multiple_accounts_transaction_sums(db, &ids);
        proof {
            lemma_grouped_sums_nonneg(db, ids@, None);
        }
        money_from_sums(account.account_type, sums)
    }

    /// The balance of account `account_id` over its postings dated strictly
    /// before `as_of_date`, or over all of them where no date is given.
    pub fn calculate_account_balance(&self, db: &Database, account_id: i64, as_of_date: Option<Date>) -> (r: Result<Money, WalletError>)
        requires
            db.wf(),
        ensures
            !db.contains_account(account_id) ==> r == Err::<Money, WalletError>(WalletError::NotFoundError(NotFound::Account(account_id))),
            db.contains_account(account_id) ==> balance_result(
                db,
                db.account(account_id).account_type,
                seq![account_id],
                opt_date(as_of_date),
                r,
            ),
    {
        let account = match self.repository.get_by_id(db, account_id) {
            Ok(a) => a,
            Err(e) => {
                return Err(e);
            },
        };
        let sums = match as_of_date {
            Some(date) => self.repository.get_account_transaction_sums_before_date(db, account_id, date),
            None => self.repository.get_account_transaction_sums(db, account_id),
        };
        proof {
            lemma_grouped_sums_nonneg(db, seq![account_id], opt_date(as_of_date));
        }
        money_from_sums(account.account_type, sums)
    }

    /// The balances of those of `account_ids` whose balance can be computed,
    /// in order; the others are left out.
    pub fn get_account_balances(&self, db: &Database, account_ids: &[i64]) -> (r: Vec<(i64, Money)>)
        requires
            db.wf(),
        ensures
            r@.len() == balance_successes(db, account_ids@).len(),
            forall|j: int| 0 <= j < r@.len() ==> {
                let x = balance_successes(db, account_ids@)[j];
                &&& (#[trigger] r@[j]).0 == x
                &&& balance_result(db, db.account(x).account_type, seq![x], None, Ok(r@[j].1))
            },
    {
        let ghost ids = account_ids@;
        let mut out: Vec<(i64, Money)> = Vec::new();
        let mut i: usize = 0;
        while i < account_ids.len()
            invariant
                db.wf(),
                ids == account_ids@,
                i <= ids.len(),
                out@.len() == balance_successes(db, ids.take(i as int)).len(),
                forall|j: int| 0 <= j < out@.len() ==> {
                    let x = balance_successes(db, ids.take(i as int))[j];
                    &&& (#[trigger] out@[j]).0 == x
                    &&& balance_result(db, db.account(x).account_type, seq![x], None, Ok(out@[j].1))
                },
            decreases ids.len() - i,
        {
            proof {
                assert(ids.take(i + 1).drop_last() =~= ids.take(i as int));
            }
            let x = account_ids[i];
            let b = self.calculate_balance(db, x);
            match b {
                Ok(m) => {
                    out.push((x, m));
                },
                Err(_) => {},
            }
            i = i + 1;
        }
        proof {
            assert(ids.take(ids.len() as int) =~= ids);
        }
        out
    }

    /// Fails on the first of `account_ids` that does not exist or is inactive.
    pub fn validate_accounts(&self, db: &Database, account_ids: &[i64]) -> (r: Result<(), WalletError>)
        requires
            db.wf(),
        ensures
            (forall|i: int| 0 <= i < account_ids@.len() ==> account_problem(db, #[trigger] account_ids@[i]) is None) <==> r is Ok,
            r is Err ==> exists|i: int| {
                &&& 0 <= i < account_ids@.len()
                &&& (forall|j: int| 0 <= j < i ==> account_problem(db, #[trigger] account_ids@[j]) is None)
                &&& account_problem(db, #[trigger] account_ids@[i]) is Some
                &&& r == Err::<(), WalletError>(WalletError::ValidationError(account_problem(db, account_ids@[i]).unwrap()))
            },
    {
        let mut i: usize = 0;
        while i < account_ids.len()
            invariant
                db.wf(),
                i <= account_ids@.len(),
                forall|j: int| 0 <= j < i ==> account_problem(db, #[trigger] account_ids@[j]) is None,
            decreases account_ids@.len() - i,
        {
            let x = account_ids[i];
            match self.repository.get_by_id(db, x) {
                Ok(a) => {
                    if !a.is_active {
                        return Err(WalletError::ValidationError(ValidationError::AccountInactive(x)));
                    }
                },
                Err(_) => {
                    return Err(WalletError::ValidationError(ValidationError::AccountMissing(x)));
                },
            }
            i = i + 1;
        }
        Ok(())
    }

    /// Every account, newest first.
    pub fn get_accounts(&self, db: &Database) -> (r: Vec<Account>)
        requires
            db.wf(),
        ensures
            r@.len() == db.accounts@.len(),
            forall|j: int| 0 <= j < r@.len() ==> (#[trigger] r@[j])@ == db.accounts@[r@.len() - 1 - j]@,
    {
        self.repository.get_all(db)
    }

    /// Every active account reached from an active root through active
    /// accounts, with its level and path, ordered by type rank and path.
    pub fn get_account_tree(&self, db: &Database) -> (r: Result<Vec<AccountNode>, WalletError>)
        requires
            db.wf(),
        ensures
            levels_fit(db) <==> r is Ok,
            r is Err ==> r == Err::<Vec<AccountNode>, WalletError>(WalletError::StorageError(StorageFault::LevelOverflow)),
            r is Ok ==> {
                let ns = r->Ok_0@;
                &&& nodes_sorted(ns)
                &&& forall|j: int| 0 <= j < ns.len() ==> db.node_of((#[trigger] ns[j]).account.id.unwrap(), ns[j])
                &&& forall|x: i64| #[trigger] db.in_active_tree(x) ==> exists|j: int| 0 <= j < ns.len() && (#[trigger] ns[j]).account.id == Some(x)
                &&& forall|i: int, j: int| 0 <= i < j < ns.len() ==> (#[trigger] ns[i]).account.id != (#[trigger] ns[j]).account.id
            },
    {
        self.repository.get_account_tree(db)
    }

    pub fn get_account(&self, db: &Database, id: i64) -> (r: Result<Account, WalletError>)
        requires
            db.wf(),
        ensures
            db.contains_account(id) ==> (r matches Ok(a) && a@ == db.account(id)),
            !db.contains_account(id) ==> r == Err::<Account, WalletError>(WalletError::NotFoundError(NotFound::Account(id))),
    {
        self.repository.get_by_id(db, id)
    }

    /// The active direct children of `parent_id`, ordered by name.
    pub fn get_children(&self, db: &Database, parent_id: i64) -> (r: Vec<Account>)
        requires
            db.wf(),
        ensures
            Database::sorted_by_name(r@),
            forall|j: int| 0 <= j < r@.len() ==> db.child_row(parent_id, #[trigger] r@[j], db.accounts@.len() as int),
            forall|x: i64| #[trigger] db.is_active_child(parent_id, x) ==> exists|j: int| 0 <= j < r@.len() && (#[trigger] r@[j]).id == Some(x),
            forall|i: int, j: int| 0 <= i < j < r@.len() ==> (#[trigger] r@[i]).id != (#[trigger] r@[j]).id,
    {
        self.repository.get_children(db, parent_id)
    }

    /// Makes account `id` inactive, which only an account without active
    /// children may become.
    pub fn deactivate_account(&self, db: &mut Database, id: i64) -> (r: Result<(), WalletError>)
        requires
            old(db).wf(),
        ensures
            final(db).wf(),
            r is Err ==> *final(db) == *old(db),
            !old(db).contains_account(id) ==> r == Err::<(), WalletError>(WalletError::NotFoundError(NotFound::Account(id))),
            old(db).contains_account(id) && has_active_child(old(db), id) ==> (r matches Err(
                WalletError::ValidationError(ValidationError::ActiveChildren { account_id, count }),
            ) && account_id == id && count >= 1),
            old(db).contains_account(id) && !has_active_child(old(db), id) ==> {
                &&& r is Ok
                &&& !final(db).account(id).is_active
                &&& AccountRepository::deactivated(old(db).account(id), final(db).account(id))
                &&& final(db).accounts@.len() == old(db).accounts@.len()
                &&& forall|x: i64| x != id && #[trigger] old(db).contains_account(x) ==> final(db).account(x) == old(db).account(x)
            },
    {
        match self.repository.get_by_id(db, id) {
            Err(e) => {
                return Err(e);
            },
            Ok(_) => {},
        }
        let children = self.get_children(db, id);
        if children.len() > 0 {
            proof {
                assert(db.child_row(id, children@[0], db.accounts@.len() as int));
                assert(db.is_active_child(id, children@[0].id.unwrap()));
            }
            return Err(
                WalletError::ValidationError(ValidationError::ActiveChildren { account_id: id, count: children.len() as u64 }),
            );
        }
        proof {
            if has_active_child(db, id) {
                let x = choose|x: i64| #[trigger] db.is_active_child(id, x);
                assert(exists|j: int| 0 <= j < children@.len() && (#[trigger] children@[j]).id == Some(x));
            }
        }
        self.repository.deactivate(db, id)
    }

    /// Stores the name and description of `account`, after checking its
    /// parent as `create_account` does and that it is not its own parent.
    pub fn update_account(&self, db: &mut Database, account: &Account) -> (r: Result<Account, WalletError>)
        requires
            old(db).wf(),
        ensures
            final(db).wf(),
            r is Err ==> *final(db) == *old(db),
            r is Ok <==> AccountService::update_allowed(old(db), account@),
            r is Err ==> r == AccountService::update_outcome(old(db), account@, r),
            r is Ok ==> {
                let id = account.id.unwrap();
                &&& r->Ok_0@ == final(db).account(id)
                &&& AccountRepository::renamed(old(db).account(id), account@, final(db).account(id))
                &&& final(db).accounts@.len() == old(db).accounts@.len()
                &&& forall|x: i64| x != id && #[trigger] old(db).contains_account(x) ==> final(db).account(x) == old(db).account(x)
            },
    {
        let id = match account.id {
            Some(id) => id,
            None => 0,
        };
        match self.repository.get_by_id(db, id) {
            Err(e) => {
                return Err(e);
            },
            Ok(_) => {},
        }
        if let Some(p) = account.parent_id {
            let parent = match self.repository.get_by_id(db, p) {
                Ok(a) => a,
                Err(e) => {
                    return Err(e);
                },
            };
            if parent.account_type != account.account_type {
                return Err(WalletError::ValidationError(ValidationError::ParentTypeMismatch));
            }
            match self.validate_hierarchy_depth(db, p) {
                Err(e) => {
                    return Err(e);
                },
                Ok(()) => {},
            }
        }
        if let Some(p) = account.parent_id {
            if p == id {
                return Err(WalletError::ValidationError(ValidationError::SelfParent));
            }
        }
        self.repository.update(db, account)
    }

    /// The first rule that an update of `a` breaks, if any.
    pub open spec fn update_problem(db: &Database, a: AccountView) -> Option<WalletError> {
        let id = match a.id {
            Some(id) => id,
            None => 0,
        };
        if !db.contains_account(id) {
            Some(WalletError::NotFoundError(NotFound::Account(id)))
        } else if a.parent_id is Some && !db.contains_account(a.parent_id.unwrap()) {
            Some(WalletError::NotFoundError(NotFound::Account(a.parent_id.unwrap())))
        } else if a.parent_id is Some && db.account(a.parent_id.unwrap()).account_type != a.account_type {
            Some(WalletError::ValidationError(ValidationError::ParentTypeMismatch))
        } else if a.parent_id is Some && chain_len(db, a.parent_id.unwrap()) > MAX_HIERARCHY_DEPTH {
            Some(WalletError::ValidationError(ValidationError::HierarchyTooDeep))
        } else if a.parent_id == Some(id) {
            Some(WalletError::ValidationError(ValidationError::SelfParent))
        } else {
            None
        }
    }

    pub open spec fn update_allowed(db: &Database, a: AccountView) -> bool {
        AccountService::update_problem(db, a) is None
    }

    pub open spec fn update_outcome(db: &Database, a: AccountView, r: Result<Account, WalletError>) -> Result<Account, WalletError> {
        match AccountService::update_problem(db, a) {
            Some(e) => Err(e),
            None => r,
        }
    }
}

} // verus!
