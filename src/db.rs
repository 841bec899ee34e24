use vstd::prelude::*;

use crate::account::{copy_opt_text, Account, AccountView, AccountType, Timestamp};
use crate::money::{eur_view, Currency};
use crate::date::{day_key, Date, DateView};
use crate::errors::{NotFound, StorageFault, ValidationError, WalletError};
use crate::money::str_equal;
use crate::text::{lemma_lex_less_irreflexive, lemma_lex_less_transitive, lex_less, sort_key, str_less};
use crate::transaction::{EntryType, TransactionEntry, TransactionRecord};

verus! {

/// Relies on `chrono::Utc::now`: the current time, of which nothing is promised.
#[verifier::external_body]
pub(crate) fn now_micros() -> (r: Timestamp) {
    chrono::Utc::now().timestamp_micros()
}

/// The rows of the ledger: accounts, transaction headers and their postings,
/// each table in the order of its ids.
#[derive(Debug)]
pub struct Database {
    pub accounts: Vec<Account>,
    pub transactions: Vec<TransactionRecord>,
    pub entries: Vec<TransactionEntry>,
}

pub open spec fn opt_date(d: Option<Date>) -> Option<DateView> {
    match d {
        Some(x) => Some(x@),
        None => None,
    }
}

impl Database {
    /// Ids are positions counted from one; a parent is older than its
    /// children; every posting belongs to a stored transaction and is positive.
    pub open spec fn wf(&self) -> bool {
        &&& self.accounts@.len() < i64::MAX
        &&& self.transactions@.len() < i64::MAX
        &&& self.entries@.len() < i64::MAX
        &&& forall|i: int| 0 <= i < self.accounts@.len() ==> #[trigger] self.accounts@[i].id == Some((i + 1) as i64)
        &&& forall|i: int| 0 <= i < self.accounts@.len() ==> match #[trigger] self.accounts@[i].parent_id {
            Some(p) => 1 <= p <= i,
            None => true,
        }
        &&& forall|i: int| 0 <= i < self.transactions@.len() ==> #[trigger] self.transactions@[i].id == i + 1
        &&& forall|k: int| 0 <= k < self.entries@.len() ==> self.entry_ok(#[trigger] self.entries@[k], k)
    }

    pub open spec fn entry_ok(&self, e: TransactionEntry, k: int) -> bool {
        &&& e.id == Some((k + 1) as i64)
        &&& 1 <= e.transaction_id <= self.transactions@.len()
        &&& e@.amount.amount > 0
    }

    pub open spec fn contains_account(&self, id: i64) -> bool {
        1 <= id <= self.accounts@.len()
    }

    pub open spec fn account(&self, id: i64) -> AccountView {
        self.accounts@[id - 1]@
    }

    pub open spec fn date_of(&self, transaction_id: i64) -> DateView {
        self.transactions@[transaction_id - 1].transaction_date@
    }

    /// Whether posting `e` is on one of `ids` and, where `before` is given,
    /// dated strictly before it.
    pub open spec fn selected(&self, e: TransactionEntry, ids: Seq<i64>, before: Option<DateView>) -> bool {
        &&& ids.contains(e.account_id)
        &&& match before {
            Some(b) => day_key(self.date_of(e.transaction_id)) < day_key(b),
            None => true,
        }
    }

    /// The currency code of the first selected posting of `es`.
    pub open spec fn first_code(&self, es: Seq<TransactionEntry>, ids: Seq<i64>, before: Option<DateView>) -> Option<Seq<char>>
        decreases es.len(),
    {
        if es.len() == 0 {
            None
        } else {
            match self.first_code(es.drop_last(), ids, before) {
                Some(c) => Some(c),
                None => if self.selected(es.last(), ids, before) {
                    Some(es.last()@.amount.currency.code)
                } else {
                    None
                },
            }
        }
    }

    /// The sum of the selected postings of `es` on side `side` in currency `code`.
    pub open spec fn side_total(
        &self,
        es: Seq<TransactionEntry>,
        ids: Seq<i64>,
        before: Option<DateView>,
        code: Seq<char>,
        side: EntryType,
    ) -> int
        decreases es.len(),
    {
        if es.len() == 0 {
            0
        } else {
            self.side_total(es.drop_last(), ids, before, code, side) + (if self.selected(es.last(), ids, before)
                && es.last()@.amount.currency.code == code && es.last().entry_type == side {
                es.last()@.amount.amount
            } else {
                0
            })
        }
    }

    /// Debit and credit totals of the selected postings, grouped by the
    /// currency of the first of them; `None` where none is selected.
    pub open spec fn grouped_sums(&self, ids: Seq<i64>, before: Option<DateView>) -> Option<(int, int, Seq<char>)> {
        match self.first_code(self.entries@, ids, before) {
            None => None,
            Some(c) => Some(
                (
                    self.side_total(self.entries@, ids, before, c, EntryType::Debit),
                    self.side_total(self.entries@, ids, before, c, EntryType::Credit),
                    c,
                ),
            ),
        }
    }

    /// Whether account `id` is `root` or an active account whose parent is in
    /// the subtree of `root`.
    pub open spec fn in_subtree(&self, root: i64, id: i64) -> bool
        decreases id,
    {
        if id == root {
            true
        } else if !(1 <= id <= self.accounts@.len()) {
            false
        } else {
            let a = self.accounts@[id - 1];
            a.is_active && match a.parent_id {
                Some(p) => 1 <= p < id && self.in_subtree(root, p),
                None => false,
            }
        }
    }

    /// The ids up to `n` of the subtree of `root`, in ascending order.
    pub open spec fn subtree_upto(&self, root: i64, n: int) -> Seq<i64>
        decreases n,
    {
        if n <= 0 {
            Seq::empty()
        } else if self.in_subtree(root, n as i64) {
            self.subtree_upto(root, n - 1).push(n as i64)
        } else {
            self.subtree_upto(root, n - 1)
        }
    }

    /// The ids of the accounts of the subtree of `root`, in ascending order.
    pub open spec fn subtree_ids(&self, root: i64) -> Seq<i64> {
        self.subtree_upto(root, self.accounts@.len() as int)
    }

    /// Whether account `id` is an active direct child of `parent`.
    pub open spec fn is_active_child(&self, parent: i64, id: i64) -> bool {
        &&& self.contains_account(id)
        &&& self.account(id).is_active
        &&& self.account(id).parent_id == Some(parent)
    }

    /// `a` is a stored active child of `parent` with an id of at most `bound`.
    pub open spec fn child_row(&self, parent: i64, a: Account, bound: int) -> bool {
        &&& a.id is Some
        &&& self.is_active_child(parent, a.id.unwrap())
        &&& a.id.unwrap() <= bound
        &&& a@ == self.account(a.id.unwrap())
    }

    /// `accounts` sorted by name, byte by byte.
    pub open spec fn sorted_by_name(accounts: Seq<Account>) -> bool {
        forall|i: int, j: int|
            0 <= i < j < accounts.len() ==> !lex_less(
                sort_key(#[trigger] accounts[j].name@),
                sort_key(#[trigger] accounts[i].name@),
            )
    }

    /// `a` is root account `id`, named `name`, of type `t`, in euros.
    pub open spec fn seeded_root(a: AccountView, id: i64, name: Seq<char>, t: AccountType) -> bool {
        &&& a.id == Some(id)
        &&& a.name == name
        &&& a.account_type == t
        &&& a.parent_id is None
        &&& a.currency == eur_view()
        &&& a.description is None
        &&& a.is_active
    }

    fn push_root(&mut self, name: &str, t: AccountType, now: Timestamp)
        requires
            old(self).wf(),
            old(self).accounts@.len() < 5,
        ensures
            final(self).wf(),
            final(self).transactions@ == old(self).transactions@,
            final(self).entries@ == old(self).entries@,
            final(self).accounts@.drop_last() == old(self).accounts@,
            final(self).accounts@.len() == old(self).accounts@.len() + 1,
            Database::seeded_root(final(self).accounts@.last()@, (old(self).accounts@.len() + 1) as i64, name@, t),
    {
        let id = self.accounts.len() as i64 + 1;
        self.accounts.push(
            Account {
                id: Some(id),
                name: name.to_owned(),
                account_type: t,
                parent_id: None,
                currency: Currency::eur(),
                description: None,
                is_active: true,
                created_at: now,
                updated_at: now,
            },
        );
        proof {
            assert(self.accounts@.drop_last() =~= old(self).accounts@);
        }
    }

    /// Brings an empty ledger to its initial state: the five root accounts
    /// Assets, Liabilities, Equity, Income and Expenses. A ledger that holds
    /// accounts already is left as it is.
    pub fn migrate(&mut self)
        requires
            old(self).wf(),
        ensures
            final(self).wf(),
            old(self).accounts@.len() > 0 ==> *final(self) == *old(self),
            old(self).accounts@.len() == 0 ==> {
                &&& final(self).transactions@ == old(self).transactions@
                &&& final(self).entries@ == old(self).entries@
                &&& final(self).accounts@.len() == 5
                &&& Database::seeded_root(final(self).account(1), 1, "Assets"@, AccountType::Asset)
                &&& Database::seeded_root(final(self).account(2), 2, "Liabilities"@, AccountType::Liability)
                &&& Database::seeded_root(final(self).account(3), 3, "Equity"@, AccountType::Equity)
                &&& Database::seeded_root(final(self).account(4), 4, "Income"@, AccountType::Income)
                &&& Database::seeded_root(final(self).account(5), 5, "Expenses"@, AccountType::Expense)
            },
    {
        if self.accounts.len() > 0 {
            return;
        }
        let now = now_micros();
        self.push_root("Assets", AccountType::Asset, now);
        let ghost a1 = self.accounts@;
        self.push_root("Liabilities", AccountType::Liability, now);
        let ghost a2 = self.accounts@;
        self.push_root("Equity", AccountType::Equity, now);
        let ghost a3 = self.accounts@;
        self.push_root("Income", AccountType::Income, now);
        let ghost a4 = self.accounts@;
        self.push_root("Expenses", AccountType::Expense, now);
        proof {
            assert(a4 == self.accounts@.drop_last());
            assert(a3 == a4.drop_last());
            assert(a2 == a3.drop_last());
            assert(a1 == a2.drop_last());
            assert(self.accounts@[0] == a1[0]);
            assert(self.accounts@[1] == a2[1]);
            assert(self.accounts@[2] == a3[2]);
            assert(self.accounts@[3] == a4[3]);
        }
    }

    /// Whether the rows meet the store's invariant, as rows read back from
    /// elsewhere must before the ledger works on them.
    pub fn is_well_formed(&self) -> (r: bool)
        ensures
            r == self.wf(),
    {
        let na = self.accounts.len();
        let nt = self.transactions.len();
        let ne = self.entries.len();
        if na as u64 >= i64::MAX as u64 || nt as u64 >= i64::MAX as u64 || ne as u64 >= i64::MAX as u64 {
            return false;
        }
        let mut i: usize = 0;
        while i < na
            invariant
                na == self.accounts@.len() < i64::MAX,
                i <= na,
                forall|j: int| 0 <= j < i ==> #[trigger] self.accounts@[j].id == Some((j + 1) as i64),
                forall|j: int| 0 <= j < i ==> match #[trigger] self.accounts@[j].parent_id {
                    Some(p) => 1 <= p <= j,
                    None => true,
                },
            decreases na - i,
        {
            let a = &self.accounts[i];
            if a.id != Some(i as i64 + 1) {
                assert(self.accounts@[i as int].id == a.id);
                return false;
            }
            if let Some(p) = a.parent_id {
                if p < 1 || p > i as i64 {
                    assert(self.accounts@[i as int].parent_id == a.parent_id);
                    return false;
                }
            }
            i = i + 1;
        }
        let mut i: usize = 0;
        while i < nt
            invariant
                nt == self.transactions@.len() < i64::MAX,
                i <= nt,
                forall|j: int| 0 <= j < i ==> #[trigger] self.transactions@[j].id == j + 1,
            decreases nt - i,
        {
            if self.transactions[i].id != i as i64 + 1 {
                return false;
            }
            i = i + 1;
        }
        let mut k: usize = 0;
        while k < ne
            invariant
                ne == self.entries@.len() < i64::MAX,
                nt == self.transactions@.len(),
                k <= ne,
                forall|j: int| 0 <= j < k ==> self.entry_ok(#[trigger] self.entries@[j], j),
            decreases ne - k,
        {
            let e = &self.entries[k];
            if e.id != Some(k as i64 + 1) || e.transaction_id < 1 || e.transaction_id as u64 > nt as u64
                || e.amount.amount_minor() <= 0 {
                assert(!self.entry_ok(self.entries@[k as int], k as int));
                return false;
            }
            k = k + 1;
        }
        true
    }

    /// An empty ledger.
    pub fn new() -> (r: Database)
        ensures
            r.wf(),
            r.accounts@.len() == 0,
            r.transactions@.len() == 0,
            r.entries@.len() == 0,
    {
        Database { accounts: Vec::new(), transactions: Vec::new(), entries: Vec::new() }
    }
}

/// Whether `x` is one of `ids`.
pub fn ids_contain(ids: &Vec<i64>, x: i64) -> (r: bool)
    ensures
        r == ids@.contains(x),
{
    let mut i: usize = 0;
    while i < ids.len()
        invariant
            i <= ids@.len(),
            forall|j: int| 0 <= j < i ==> ids@[j] != x,
        decreases ids@.len() - i,
    {
        if ids[i] == x {
            return true;
        }
        i = i + 1;
    }
    false
}

proof fn lemma_side_total_monotone(
    db: &Database,
    es: Seq<TransactionEntry>,
    ids: Seq<i64>,
    before: Option<DateView>,
    code: Seq<char>,
    side: EntryType,
    i: int,
    j: int,
)
    requires
        0 <= i <= j <= es.len(),
        forall|k: int| 0 <= k < es.len() ==> (#[trigger] es[k])@.amount.amount > 0,
    ensures
        db.side_total(es.take(i), ids, before, code, side) <= db.side_total(es.take(j), ids, before, code, side),
    decreases j - i,
{
    if i < j {
        lemma_side_total_monotone(db, es, ids, before, code, side, i, j - 1);
        assert(es.take(j).drop_last() =~= es.take(j - 1));
    }
}

/// Grouped sums as the store reports them: `None` where no posting is selected.
pub open spec fn sums_result_ok(r: Result<Option<(i64, i64, String)>, WalletError>, g: Option<(int, int, Seq<char>)>) -> bool {
    match g {
        None => r matches Ok(None),
        Some((d, c, code)) => if d <= i64::MAX && c <= i64::MAX {
            r matches Ok(Some((x, y, s))) && x == d && y == c && s@ == code
        } else {
            r == Err::<Option<(i64, i64, String)>, WalletError>(WalletError::StorageError(StorageFault::SumOverflow))
        },
    }
}

impl Database {
    fn is_selected(&self, k: usize, ids: &Vec<i64>, before: Option<Date>) -> (r: bool)
        requires
            self.wf(),
            k < self.entries@.len(),
        ensures
            r == self.selected(self.entries@[k as int], ids@, opt_date(before)),
    {
        let e = &self.entries[k];
        assert(self.entry_ok(self.entries@[k as int], k as int));
        if !ids_contain(ids, e.account_id) {
            return false;
        }
        let tid = e.transaction_id;
        assert(1 <= tid <= self.transactions@.len());
        match before {
            Some(b) => {
                let tl = self.transactions.len();
                assert(tid - 1 < tl);
                let idx = (tid - 1) as usize;
                let t = &self.transactions[idx];
                assert(self.date_of(tid) == t.transaction_date@);
                t.transaction_date.is_before(&b)
            },
            None => true,
        }
    }

    /// Debit and credit totals of the postings on `ids`, dated strictly before
    /// `before` where it is given, in the currency of the first of them.
    pub fn posting_sums(&self, ids: &Vec<i64>, before: Option<Date>) -> (r: Result<Option<(i64, i64, String)>, WalletError>)
        requires
            self.wf(),
        ensures
            sums_result_ok(r, self.grouped_sums(ids@, opt_date(before))),
    {
        let ghost es = self.entries@;
        let ghost bv = opt_date(before);
        let n = self.entries.len();
        let mut k: usize = 0;
        while k < n
            invariant
                self.wf(),
                n == es.len(),
                es == self.entries@,
                bv == opt_date(before),
                k <= n,
                self.first_code(es.take(k as int), ids@, bv) is None,
            ensures
                k <= n,
                self.first_code(es.take(k as int), ids@, bv) is None,
                k < n ==> self.selected(es[k as int], ids@, bv),
            decreases n - k,
        {
            if self.is_selected(k, ids, before) {
                break;
            }
            proof {
                assert(es.take(k + 1).drop_last() =~= es.take(k as int));
            }
            k = k + 1;
        }
        if k == n {
            proof {
                assert(es.take(n as int) =~= es);
            }
            return Ok(None);
        }
        let code = self.entries[k].amount.currency().code().to_owned();
        proof {
            assert(es.take(k + 1).drop_last() =~= es.take(k as int));
            let c = es[k as int]@.amount.currency.code;
            assert(self.first_code(es.take(k + 1), ids@, bv) == Some(c));
            assert forall|j: int| k + 1 <= j <= n implies self.first_code(es.take(j), ids@, bv) == Some(c) by {
                lemma_first_code_stays(self, es, ids@, bv, k + 1, j);
            }
            assert(es.take(n as int) =~= es);
        }
        let mut debits: i64 = 0;
        let mut credits: i64 = 0;
        let mut i: usize = 0;
        while i < n
            invariant
                self.wf(),
                n == es.len(),
                es == self.entries@,
                bv == opt_date(before),
                i <= n,
                0 <= debits,
                0 <= credits,
                debits == self.side_total(es.take(i as int), ids@, bv, code@, EntryType::Debit),
                credits == self.side_total(es.take(i as int), ids@, bv, code@, EntryType::Credit),
                self.first_code(es, ids@, bv) == Some(code@),
            decreases n - i,
        {
            proof {
                assert(es.take(i + 1).drop_last() =~= es.take(i as int));
                assert(self.entry_ok(es[i as int], i as int));
            }
            if self.is_selected(i, ids, before) && str_equal(self.entries[i].amount.currency().code(), code.as_str()) {
                let a = self.entries[i].amount.amount_minor();
                if self.entries[i].entry_type == EntryType::Debit {
                    if a > i64::MAX - debits {
                        proof {
                            assert forall|q: int| 0 <= q < es.len() implies (#[trigger] es[q])@.amount.amount > 0 by {
                                assert(self.entry_ok(es[q], q));
                            }
                            lemma_side_total_monotone(self, es, ids@, bv, code@, EntryType::Debit, i + 1, n as int);
                            assert(es.take(n as int) =~= es);
                        }
                        return Err(WalletError::StorageError(StorageFault::SumOverflow));
                    }
                    debits = debits + a;
                } else {
                    if a > i64::MAX - credits {
                        proof {
                            assert forall|q: int| 0 <= q < es.len() implies (#[trigger] es[q])@.amount.amount > 0 by {
                                assert(self.entry_ok(es[q], q));
                            }
                            lemma_side_total_monotone(self, es, ids@, bv, code@, EntryType::Credit, i + 1, n as int);
                            assert(es.take(n as int) =~= es);
                        }
                        return Err(WalletError::StorageError(StorageFault::SumOverflow));
                    }
                    credits = credits + a;
                }
            }
            i = i + 1;
        }
        proof {
            assert(es.take(n as int) =~= es);
        }
        Ok(Some((debits, credits, code)))
    }
}

proof fn lemma_first_code_stays(
    db: &Database,
    es: Seq<TransactionEntry>,
    ids: Seq<i64>,
    before: Option<DateView>,
    i: int,
    j: int,
)
    requires
        0 <= i <= j <= es.len(),
        db.first_code(es.take(i), ids, before) is Some,
    ensures
        db.first_code(es.take(j), ids, before) == db.first_code(es.take(i), ids, before),
    decreases j - i,
{
    if i < j {
        lemma_first_code_stays(db, es, ids, before, i, j - 1);
        assert(es.take(j).drop_last() =~= es.take(j - 1));
    }
}

proof fn lemma_name_insert_sorted(before: Seq<Account>, pos: int, c: Account)
    requires
        0 <= pos <= before.len(),
        Database::sorted_by_name(before),
        forall|i: int| 0 <= i < pos ==> !lex_less(sort_key(c.name@), sort_key(#[trigger] before[i].name@)),
        pos < before.len() ==> lex_less(sort_key(c.name@), sort_key(before[pos].name@)),
    ensures
        Database::sorted_by_name(before.insert(pos, c)),
{
    let after = before.insert(pos, c);
    assert forall|i: int, j: int| 0 <= i < j < after.len() implies !lex_less(
        sort_key(#[trigger] after[j].name@),
        sort_key(#[trigger] after[i].name@),
    ) by {
        if j == pos {
            assert(after[i] == before[i]);
        } else if i == pos {
            let e = before[j - 1];
            assert(after[j] == e);
            if lex_less(sort_key(e.name@), sort_key(c.name@)) {
                lemma_lex_less_transitive(sort_key(e.name@), sort_key(c.name@), sort_key(before[pos].name@));
                if j - 1 == pos {
                    lemma_lex_less_irreflexive(sort_key(e.name@));
                } else {
                    assert(!lex_less(sort_key(before[j - 1].name@), sort_key(before[pos].name@)));
                }
            }
        } else if i < pos && j > pos {
            assert(after[i] == before[i]);
            assert(after[j] == before[j - 1]);
        } else if j < pos {
            assert(after[i] == before[i]);
            assert(after[j] == before[j]);
        } else {
            assert(after[i] == before[i - 1]);
            assert(after[j] == before[j - 1]);
        }
    }
}

proof fn lemma_child_insert(db: &Database, parent: i64, before: Seq<Account>, pos: int, c: Account, k: int)
    requires
        0 <= pos <= before.len(),
        0 <= k < i64::MAX,
        c.id == Some((k + 1) as i64),
        db.is_active_child(parent, (k + 1) as i64),
        c@ == db.account((k + 1) as i64),
        forall|j: int| 0 <= j < before.len() ==> db.child_row(parent, #[trigger] before[j], k),
        forall|x: i64| #[trigger] db.is_active_child(parent, x) && x <= k ==> exists|j: int| 0 <= j < before.len() && (#[trigger] before[j]).id == Some(x),
        forall|i: int, j: int| 0 <= i < j < before.len() ==> (#[trigger] before[i]).id != (#[trigger] before[j]).id,
    ensures
        forall|j: int| 0 <= j < before.insert(pos, c).len() ==> db.child_row(parent, #[trigger] before.insert(pos, c)[j], k + 1),
        forall|x: i64| #[trigger] db.is_active_child(parent, x) && x <= k + 1 ==> exists|j: int| 0 <= j < before.insert(pos, c).len() && (#[trigger] before.insert(pos, c)[j]).id == Some(x),
        forall|i: int, j: int| 0 <= i < j < before.insert(pos, c).len() ==> (#[trigger] before.insert(pos, c)[i]).id != (#[trigger] before.insert(pos, c)[j]).id,
{
    let after = before.insert(pos, c);
    assert forall|j: int| 0 <= j < after.len() implies db.child_row(parent, #[trigger] after[j], k + 1) by {
        if j < pos {
            assert(after[j] == before[j]);
        } else if j > pos {
            assert(after[j] == before[j - 1]);
        }
    }
    assert forall|x: i64| #[trigger] db.is_active_child(parent, x) && x <= k + 1 implies exists|j: int| 0 <= j < after.len() && (#[trigger] after[j]).id == Some(x) by {
        if x == k + 1 {
            assert(after[pos].id == Some(x));
        } else {
            let j = choose|j: int| 0 <= j < before.len() && (#[trigger] before[j]).id == Some(x);
            if j < pos {
                assert(after[j] == before[j]);
            } else {
                assert(after[j + 1] == before[j]);
            }
        }
    }
    assert forall|i: int, j: int| 0 <= i < j < after.len() implies (#[trigger] after[i]).id != (#[trigger] after[j]).id by {
        if i == pos {
            assert(after[j] == before[j - 1]);
        } else if j == pos {
            assert(after[i] == before[i]);
        } else if j < pos {
            assert(after[i] == before[i]);
            assert(after[j] == before[j]);
        } else if i < pos {
            assert(after[i] == before[i]);
            assert(after[j] == before[j - 1]);
        } else {
            assert(after[i] == before[i - 1]);
            assert(after[j] == before[j - 1]);
        }
    }
}

/// The store's queries and writes on accounts.
pub struct AccountRepository {}

impl AccountRepository {
    pub fn new() -> (r: AccountRepository) {
        AccountRepository {  }
    }

    pub fn get_by_id(&self, db: &Database, id: i64) -> (r: Result<Account, WalletError>)
        requires
            db.wf(),
        ensures
            db.contains_account(id) ==> (r matches Ok(a) && a@ == db.account(id)),
            !db.contains_account(id) ==> r == Err::<Account, WalletError>(
                WalletError::NotFoundError(NotFound::Account(id)),
            ),
    {
        if id < 1 || id as u64 > db.accounts.len() as u64 {
            return Err(WalletError::NotFoundError(NotFound::Account(id)));
        }
        Ok(db.accounts[(id - 1) as usize].copied())
    }

    /// Stores `account` under the next id, with timestamps of now. A parent
    /// that does not exist is refused, as the store's foreign key would.
    pub fn create(&self, db: &mut Database, account: &Account) -> (r: Result<Account, WalletError>)
        requires
            old(db).wf(),
        ensures
            final(db).wf(),
            final(db).transactions@ == old(db).transactions@,
            final(db).entries@ == old(db).entries@,
            r is Err ==> *final(db) == *old(db),
            old(db).accounts@.len() + 1 >= i64::MAX ==> r == Err::<Account, WalletError>(
                WalletError::StorageError(StorageFault::IdSpaceExhausted),
            ),
            old(db).accounts@.len() + 1 < i64::MAX ==> match account.parent_id {
                Some(p) if !old(db).contains_account(p) => r == Err::<Account, WalletError>(
                    WalletError::NotFoundError(NotFound::Account(p)),
                ),
                _ => {
                    &&& r matches Ok(a)
                    &&& final(db).accounts@.len() == old(db).accounts@.len() + 1
                    &&& final(db).accounts@.drop_last() == old(db).accounts@
                    &&& final(db).accounts@.last()@ == r->Ok_0@
                    &&& AccountRepository::stored_as(account@, r->Ok_0@, (old(db).accounts@.len() + 1) as int)
                },
            },
    {
        let n = db.accounts.len();
        if n as u64 + 1 >= i64::MAX as u64 {
            return Err(WalletError::StorageError(StorageFault::IdSpaceExhausted));
        }
        if let Some(p) = account.parent_id {
            if p < 1 || p as u64 > n as u64 {
                return Err(WalletError::NotFoundError(NotFound::Account(p)));
            }
        }
        let now = now_micros();
        let id = n as i64 + 1;
        let stored = Account {
            id: Some(id),
            name: account.name.clone(),
            account_type: account.account_type,
            parent_id: account.parent_id,
            currency: account.currency.copied(),
            description: copy_opt_text(&account.description),
            is_active: account.is_active,
            created_at: now,
            updated_at: now,
        };
        let out = stored.copied();
        db.accounts.push(stored);
        proof {
            assert(db.accounts@.drop_last() =~= old(db).accounts@);
        }
        Ok(out)
    }

    /// Every account, newest first.
    pub fn get_all(&self, db: &Database) -> (r: Vec<Account>)
        requires
            db.wf(),
        ensures
            r@.len() == db.accounts@.len(),
            forall|j: int| 0 <= j < r@.len() ==> (#[trigger] r@[j])@ == db.accounts@[r@.len() - 1 - j]@,
    {
        let n = db.accounts.len();
        let mut out: Vec<Account> = Vec::new();
        let mut k: usize = n;
        while k > 0
            invariant
                k <= n == db.accounts@.len(),
                out@.len() == n - k,
                forall|j: int| 0 <= j < out@.len() ==> (#[trigger] out@[j])@ == db.accounts@[n - 1 - j]@,
            decreases k,
        {
            k = k - 1;
            out.push(db.accounts[k].copied());
        }
        out
    }

    /// Debit and credit totals of the postings on `account_id`.
    pub fn get_account_transaction_sums(&self, db: &Database, account_id: i64) -> (r: Result<Option<(i64, i64, String)>, WalletError>)
        requires
            db.wf(),
        ensures
            sums_result_ok(r, db.grouped_sums(seq![account_id], None)),
    {
        let ids = vec![account_id];
        assert(ids@ =~= seq![account_id]);
        db.posting_sums(&ids, None)
    }

    /// Debit and credit totals of the postings on `account_id` dated strictly
    /// before `before_date`.
    pub fn get_account_transaction_sums_before_date(
        &self,
        db: &Database,
        account_id: i64,
        before_date: Date,
    ) -> (r: Result<Option<(i64, i64, String)>, WalletError>)
        requires
            db.wf(),
        ensures
            sums_result_ok(r, db.grouped_sums(seq![account_id], Some(before_date@))),
    {
        let ids = vec![account_id];
        assert(ids@ =~= seq![account_id]);
        db.posting_sums(&ids, Some(before_date))
    }

    /// Debit and credit totals of the postings on any of `account_ids`.
    pub fn get_multiple_accounts_transaction_sums(&self, db: &Database, account_ids: &Vec<i64>) -> (r: Result<Option<(i64, i64, String)>, WalletError>)
        requires
            db.wf(),
        ensures
            sums_result_ok(r, db.grouped_sums(account_ids@, None)),
    {
        db.posting_sums(account_ids, None)
    }

    /// `root` and every account below it reached through active accounts,
    /// in ascending order of id; empty where `root` does not exist.
    pub fn get_descendant_account_ids(&self, db: &Database, root: i64) -> (r: Vec<i64>)
        requires
            db.wf(),
        ensures
            db.contains_account(root) ==> r@ == db.subtree_ids(root),
            !db.contains_account(root) ==> r@.len() == 0,
    {
        let n = db.accounts.len();
        if root < 1 || root as u64 > n as u64 {
            return Vec::new();
        }
        let mut flags: Vec<bool> = Vec::new();
        let mut out: Vec<i64> = Vec::new();
        let mut k: usize = 0;
        while k < n
            invariant
                db.wf(),
                n == db.accounts@.len(),
                k <= n,
                flags@.len() == k,
                forall|j: int| 0 <= j < k ==> flags@[j] == db.in_subtree(root, (j + 1) as i64),
                out@ == db.subtree_upto(root, k as int),
            decreases n - k,
        {
            let id = k as i64 + 1;
            let a = &db.accounts[k];
            assert(db.accounts@[k as int].parent_id == a.parent_id);
            let inside = if id == root {
                true
            } else if !a.is_active {
                false
            } else {
                match a.parent_id {
                    Some(p) => flags[(p - 1) as usize],
                    None => false,
                }
            };
            flags.push(inside);
            if inside {
                out.push(id);
            }
            k = k + 1;
        }
        out
    }

    /// The active direct children of `parent_id`, ordered by name.
    #[verifier::rlimit(40)]
    pub fn get_children(&self, db: &Database, parent_id: i64) -> (r: Vec<Account>)
        requires
            db.wf(),
        ensures
            Database::sorted_by_name(r@),
            forall|j: int| 0 <= j < r@.len() ==> db.child_row(parent_id, #[trigger] r@[j], db.accounts@.len() as int),
            forall|x: i64| #[trigger] db.is_active_child(parent_id, x) ==> exists|j: int| 0 <= j < r@.len() && (#[trigger] r@[j]).id == Some(x),
            forall|i: int, j: int| 0 <= i < j < r@.len() ==> (#[trigger] r@[i]).id != (#[trigger] r@[j]).id,
    {
        let n = db.accounts.len();
        let mut out: Vec<Account> = Vec::new();
        let mut k: usize = 0;
        while k < n
            invariant
                db.wf(),
                n == db.accounts@.len(),
                k <= n,
                Database::sorted_by_name(out@),
                forall|j: int| 0 <= j < out@.len() ==> db.child_row(parent_id, #[trigger] out@[j], k as int),
                forall|x: i64| #[trigger] db.is_active_child(parent_id, x) && x <= k ==> exists|j: int| 0 <= j < out@.len() && (#[trigger] out@[j]).id == Some(x),
                forall|i: int, j: int| 0 <= i < j < out@.len() ==> (#[trigger] out@[i]).id != (#[trigger] out@[j]).id,
            decreases n - k,
        {
            let a = &db.accounts[k];
            let id = k as i64 + 1;
            if a.is_active && a.parent_id == Some(parent_id) {
                assert(db.is_active_child(parent_id, id));
                let mut pos: usize = 0;
                while pos < out.len() && !str_less(a.name.as_str(), out[pos].name.as_str())
                    invariant
                        pos <= out@.len(),
                        forall|i: int| 0 <= i < pos ==> !lex_less(sort_key(a.name@), sort_key(#[trigger] out@[i].name@)),
                    decreases out@.len() - pos,
                {
                    pos = pos + 1;
                }
                let ghost before = out@;
                let c = a.copied();
                assert(c.name@ == a.name@);
                out.insert(pos, c);
                proof {
                    assert(out@ == before.insert(pos as int, c));
                    if pos < before.len() {
                        assert(lex_less(sort_key(c.name@), sort_key(before[pos as int].name@)));
                    }
                    lemma_name_insert_sorted(before, pos as int, c);
                    lemma_child_insert(db, parent_id, before, pos as int, c, k as int);
                }
            }
            k = k + 1;
        }
        out
    }

    /// Marks account `id` inactive; nothing changes where it does not exist.
    pub fn deactivate(&self, db: &mut Database, id: i64) -> (r: Result<(), WalletError>)
        requires
            old(db).wf(),
        ensures
            r is Ok,
            final(db).wf(),
            final(db).transactions@ == old(db).transactions@,
            final(db).entries@ == old(db).entries@,
            final(db).accounts@.len() == old(db).accounts@.len(),
            forall|x: i64| x != id && #[trigger] old(db).contains_account(x) ==> final(db).account(x) == old(db).account(x),
            old(db).contains_account(id) ==> AccountRepository::deactivated(old(db).account(id), final(db).account(id)),
    {
        let n = db.accounts.len();
        if id < 1 || id as u64 > n as u64 {
            return Ok(());
        }
        let idx = (id - 1) as usize;
        let mut a = db.accounts[idx].copied();
        a.is_active = false;
        a.updated_at = now_micros();
        db.accounts.set(idx, a);
        proof {
            assert forall|i: int| 0 <= i < db.accounts@.len() implies #[trigger] db.accounts@[i].id == Some((i + 1) as i64) by {
                if i != idx {
                    assert(db.accounts@[i] == old(db).accounts@[i]);
                }
            }
            assert forall|i: int| 0 <= i < db.accounts@.len() implies match #[trigger] db.accounts@[i].parent_id {
                Some(p) => 1 <= p <= i,
                None => true,
            } by {
                if i != idx {
                    assert(db.accounts@[i] == old(db).accounts@[i]);
                }
            }
        }
        Ok(())
    }

    /// `after` is `before` made inactive, all else kept but the time of update.
    pub open spec fn deactivated(before: AccountView, after: AccountView) -> bool {
        after == AccountView { is_active: false, updated_at: after.updated_at, ..before }
    }

    /// `after` is `before` with the name and description of `given`.
    pub open spec fn renamed(before: AccountView, given: AccountView, after: AccountView) -> bool {
        after == AccountView { name: given.name, description: given.description, updated_at: after.updated_at, ..before }
    }

    /// Stores the name and description of `account` on the stored account of
    /// the same id, and returns the stored account.
    pub fn update(&self, db: &mut Database, account: &Account) -> (r: Result<Account, WalletError>)
        requires
            old(db).wf(),
        ensures
            final(db).wf(),
            final(db).transactions@ == old(db).transactions@,
            final(db).entries@ == old(db).entries@,
            final(db).accounts@.len() == old(db).accounts@.len(),
            r is Err ==> *final(db) == *old(db),
            account.id is None ==> r == Err::<Account, WalletError>(
                WalletError::ValidationError(ValidationError::MissingAccountId),
            ),
            account.id is Some && !old(db).contains_account(account.id.unwrap()) ==> r == Err::<Account, WalletError>(
                WalletError::NotFoundError(NotFound::Account(account.id.unwrap())),
            ),
            account.id is Some && old(db).contains_account(account.id.unwrap()) ==> {
                let id = account.id.unwrap();
                &&& r matches Ok(a)
                &&& r->Ok_0@ == final(db).account(id)
                &&& AccountRepository::renamed(old(db).account(id), account@, final(db).account(id))
                &&& forall|x: i64| x != id && #[trigger] old(db).contains_account(x) ==> final(db).account(x) == old(db).account(x)
            },
    {
        let id = match account.id {
            Some(id) => id,
            None => {
                return Err(WalletError::ValidationError(ValidationError::MissingAccountId));
            },
        };
        let n = db.accounts.len();
        if id < 1 || id as u64 > n as u64 {
            return Err(WalletError::NotFoundError(NotFound::Account(id)));
        }
        let idx = (id - 1) as usize;
        let mut a = db.accounts[idx].copied();
        a.name = account.name.clone();
        a.description = copy_opt_text(&account.description);
        a.updated_at = now_micros();
        let out = a.copied();
        db.accounts.set(idx, a);
        proof {
            assert forall|i: int| 0 <= i < db.accounts@.len() implies #[trigger] db.accounts@[i].id == Some((i + 1) as i64) by {
                if i != idx {
                    assert(db.accounts@[i] == old(db).accounts@[i]);
                }
            }
            assert forall|i: int| 0 <= i < db.accounts@.len() implies match #[trigger] db.accounts@[i].parent_id {
                Some(p) => 1 <= p <= i,
                None => true,
            } by {
                if i != idx {
                    assert(db.accounts@[i] == old(db).accounts@[i]);
                }
            }
        }
        Ok(out)
    }

    /// `stored` is `given` as stored under `id`.
    pub open spec fn stored_as(given: AccountView, stored: AccountView, id: int) -> bool {
        &&& stored.id == Some(id as i64)
        &&& stored.name == given.name
        &&& stored.account_type == given.account_type
        &&& stored.parent_id == given.parent_id
        &&& stored.currency == given.currency
        &&& stored.description == given.description
        &&& stored.is_active == given.is_active
    }
}

} // verus!
