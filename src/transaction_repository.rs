use vstd::prelude::*;

use crate::account::copy_opt_text;
use crate::date::{day_key, Date, DateView};
use crate::db::{now_micros, opt_date, Database};
use crate::errors::{NotFound, StorageFault, WalletError};
use crate::transaction::{EntryView, InputView, Transaction, TransactionEntry, TransactionEntryInput, TransactionRecord};

verus! {

/// The postings of `es` that belong to transaction `tid`, in order.
pub open spec fn entries_of(es: Seq<TransactionEntry>, tid: i64) -> Seq<TransactionEntry>
    decreases es.len(),
{
    if es.len() == 0 {
        Seq::empty()
    } else if es.last().transaction_id == tid {
        entries_of(es.drop_last(), tid).push(es.last())
    } else {
        entries_of(es.drop_last(), tid)
    }
}

/// `t` is the stored transaction `tid` with all of its postings.
pub open spec fn hydrated(db: &Database, tid: i64, t: Transaction) -> bool {
    let h = db.transactions@[tid - 1];
    let es = entries_of(db.entries@, tid);
    &&& t.id == Some(tid)
    &&& t.description@ == h.description@
    &&& t.transaction_date@ == h.transaction_date@
    &&& t.created_at == h.created_at
    &&& t.entries@.len() == es.len()
    &&& forall|j: int| 0 <= j < es.len() ==> (#[trigger] t.entries@[j])@ == es[j]@
}

/// The posting that input `e` becomes as posting `id` of transaction `tid`.
pub open spec fn posted(e: InputView, id: int, tid: int) -> EntryView {
    EntryView {
        id: Some(id as i64),
        transaction_id: tid as i64,
        account_id: e.account_id,
        amount: e.amount,
        entry_type: e.entry_type,
        description: e.description,
    }
}

/// Whether transaction `tid` passes the account and date filters.
pub open spec fn passes(db: &Database, tid: i64, account_id: Option<i64>, from: Option<DateView>, to: Option<DateView>) -> bool {
    let d = day_key(db.date_of(tid));
    &&& match account_id {
        Some(a) => exists|k: int| 0 <= k < db.entries@.len() && (#[trigger] db.entries@[k]).transaction_id == tid && db.entries@[k].account_id == a,
        None => true,
    }
    &&& match from {
        Some(f) => day_key(f) <= d,
        None => true,
    }
    &&& match to {
        Some(t) => d <= day_key(t),
        None => true,
    }
}

/// The place of transaction `tid` in listings: later dates first, then
/// higher ids first.
pub open spec fn listing_rank(db: &Database, tid: i64) -> int {
    day_key(db.date_of(tid)) * 0x1_0000_0000_0000_0000 + tid
}

/// The store's queries and writes on transactions.
pub struct TransactionRepository {}

impl TransactionRepository {
    pub fn new() -> (r: TransactionRepository) {
        TransactionRepository {  }
    }

    /// Stores a transaction and its postings as one unit: either all rows are
    /// written or, on any failure, none is.
    pub fn create_transaction(
        &self,
        db: &mut Database,
        description: String,
        transaction_date: Date,
        entries: Vec<TransactionEntryInput>,
    ) -> (r: Result<Transaction, WalletError>)
        requires
            old(db).wf(),
            forall|j: int| 0 <= j < entries@.len() ==> (#[trigger] entries@[j]).amount@.amount > 0,
        ensures
            final(db).wf(),
            r is Err ==> *final(db) == *old(db),
            TransactionRepository::fits(old(db), entries@.len() as int) && (forall|j: int| 0 <= j < entries@.len() ==> old(db).contains_account(#[trigger] entries@[j].account_id))
                <==> r is Ok,
            !TransactionRepository::fits(old(db), entries@.len() as int) ==> r == Err::<Transaction, WalletError>(
                WalletError::StorageError(StorageFault::IdSpaceExhausted),
            ),
            r is Ok ==> {
                let tid = old(db).transactions@.len() + 1;
                let m = old(db).entries@.len();
                &&& final(db).accounts@ == old(db).accounts@
                &&& final(db).transactions@.drop_last() == old(db).transactions@
                &&& final(db).transactions@.len() == tid
                &&& final(db).transactions@.last()@.description == description@
                &&& final(db).transactions@.last()@.transaction_date == transaction_date@
                &&& final(db).entries@.len() == m + entries@.len()
                &&& final(db).entries@.take(m as int) == old(db).entries@
                &&& forall|j: int| 0 <= j < entries@.len() ==> (#[trigger] final(db).entries@[m + j])@ == posted(entries@[j]@, m + j + 1, tid as int)
                &&& r->Ok_0.id == Some(tid as i64)
                &&& r->Ok_0.entries@.len() == entries@.len()
                &&& forall|j: int| 0 <= j < entries@.len() ==> (#[trigger] r->Ok_0.entries@[j])@ == posted(entries@[j]@, m + j + 1, tid as int)
            },
    {
        let n = db.transactions.len();
        let m = db.entries.len();
        if n as u64 + 1 >= i64::MAX as u64 || entries.len() as u64 >= i64::MAX as u64 - 1 - m as u64 {
            return Err(WalletError::StorageError(StorageFault::IdSpaceExhausted));
        }
        let tid = n as i64 + 1;
        let now = now_micros();
        let mut staged: Vec<TransactionEntry> = Vec::new();
        let mut out: Vec<TransactionEntry> = Vec::new();
        let mut j: usize = 0;
        while j < entries.len()
            invariant
                db == old(db),
                old(db).wf(),
                n == old(db).transactions@.len(),
                m == old(db).entries@.len(),
                tid == n + 1,
                m + entries@.len() + 1 < i64::MAX,
                TransactionRepository::fits(old(db), entries@.len() as int),
                forall|q: int| 0 <= q < entries@.len() ==> (#[trigger] entries@[q]).amount@.amount > 0,
                j <= entries@.len(),
                staged@.len() == j,
                out@.len() == j,
                forall|q: int| 0 <= q < j ==> old(db).contains_account(#[trigger] entries@[q].account_id),
                forall|q: int| 0 <= q < j ==> (#[trigger] staged@[q])@ == posted(entries@[q]@, m + q + 1, tid as int),
                forall|q: int| 0 <= q < j ==> (#[trigger] out@[q])@ == posted(entries@[q]@, m + q + 1, tid as int),
            decreases entries@.len() - j,
        {
            let e = &entries[j];
            if e.account_id < 1 || e.account_id as u64 > db.accounts.len() as u64 {
                return Err(WalletError::NotFoundError(NotFound::Account(e.account_id)));
            }
            let id = m as i64 + j as i64 + 1;
            let row = TransactionEntry {
                id: Some(id),
                transaction_id: tid,
                account_id: e.account_id,
                amount: e.amount.copied(),
                entry_type: e.entry_type,
                description: copy_opt_text(&e.description),
                created_at: now,
            };
            let copy = TransactionEntry {
                id: Some(id),
                transaction_id: tid,
                account_id: e.account_id,
                amount: e.amount.copied(),
                entry_type: e.entry_type,
                description: copy_opt_text(&e.description),
                created_at: now,
            };
            staged.push(row);
            out.push(copy);
            j = j + 1;
        }
        let header = TransactionRecord {
            id: tid,
            description: description.clone(),
            reference: None,
            transaction_date,
            created_at: now,
            tags: None,
            notes: None,
        };
        db.transactions.push(header);
        let ghost staged_all = staged@;
        db.entries.append(&mut staged);
        proof {
            assert(db.transactions@.drop_last() =~= old(db).transactions@);
            assert(db.entries@ == old(db).entries@ + staged_all);
            assert(db.entries@.take(m as int) =~= old(db).entries@);
            assert forall|k: int| 0 <= k < db.entries@.len() implies db.entry_ok(#[trigger] db.entries@[k], k) by {
                if k < m {
                    assert(db.entries@[k] == old(db).entries@[k]);
                    assert(old(db).entry_ok(old(db).entries@[k], k));
                } else {
                    assert(db.entries@[k] == staged_all[k - m]);
                    assert(staged_all[k - m]@ == posted(entries@[k - m]@, k + 1, tid as int));
                }
            }
            assert forall|jj: int| 0 <= jj < entries@.len() implies (#[trigger] db.entries@[m + jj])@ == posted(entries@[jj]@, m + jj + 1, tid as int) by {
                assert(db.entries@[m + jj] == staged_all[jj]);
            }
            assert forall|i: int| 0 <= i < db.transactions@.len() implies #[trigger] db.transactions@[i].id == i + 1 by {
                if i < n {
                    assert(db.transactions@[i] == old(db).transactions@[i]);
                }
            }
        }
        Ok(Transaction {
            id: Some(tid),
            description,
            reference: None,
            transaction_date,
            created_at: now,
            tags: None,
            notes: None,
            entries: out,
        })
    }

    /// Whether the store has ids left for one more transaction with `count` postings.
    pub open spec fn fits(db: &Database, count: int) -> bool {
        db.transactions@.len() + 1 < i64::MAX && db.entries@.len() + count + 1 < i64::MAX
    }

    /// The postings of transaction `transaction_id`, in order of id.
    pub fn get_entries_for_transaction(&self, db: &Database, transaction_id: i64) -> (r: Vec<TransactionEntry>)
        ensures
            r@.len() == entries_of(db.entries@, transaction_id).len(),
            forall|j: int| 0 <= j < r@.len() ==> (#[trigger] r@[j])@ == entries_of(db.entries@, transaction_id)[j]@,
    {
        let ghost es = db.entries@;
        let mut out: Vec<TransactionEntry> = Vec::new();
        let mut k: usize = 0;
        while k < db.entries.len()
            invariant
                es == db.entries@,
                k <= es.len(),
                out@.len() == entries_of(es.take(k as int), transaction_id).len(),
                forall|j: int| 0 <= j < out@.len() ==> (#[trigger] out@[j])@ == entries_of(es.take(k as int), transaction_id)[j]@,
            decreases es.len() - k,
        {
            proof {
                assert(es.take(k + 1).drop_last() =~= es.take(k as int));
            }
            if db.entries[k].transaction_id == transaction_id {
                out.push(db.entries[k].copied());
            }
            k = k + 1;
        }
        proof {
            assert(es.take(es.len() as int) =~= es);
        }
        out
    }

    /// Transaction `id` with all of its postings.
    pub fn get_transaction(&self, db: &Database, id: i64) -> (r: Result<Transaction, WalletError>)
        requires
            db.wf(),
        ensures
            1 <= id <= db.transactions@.len() ==> (r matches Ok(t) && hydrated(db, id, t)),
            !(1 <= id <= db.transactions@.len()) ==> r == Err::<Transaction, WalletError>(
                WalletError::NotFoundError(NotFound::Transaction(id)),
            ),
    {
        if id < 1 || id as u64 > db.transactions.len() as u64 {
            return Err(WalletError::NotFoundError(NotFound::Transaction(id)));
        }
        let h = &db.transactions[(id - 1) as usize];
        let entries = self.get_entries_for_transaction(db, id);
        Ok(Transaction {
            id: Some(id),
            description: h.description.clone(),
            reference: copy_opt_text(&h.reference),
            transaction_date: h.transaction_date,
            created_at: h.created_at,
            tags: copy_opt_text(&h.tags),
            notes: copy_opt_text(&h.notes),
            entries,
        })
    }

    /// Whether transaction `tid` has a posting on account `a`.
    fn has_posting_on(&self, db: &Database, tid: i64, a: i64) -> (r: bool)
        ensures
            r == exists|k: int| 0 <= k < db.entries@.len() && (#[trigger] db.entries@[k]).transaction_id == tid && db.entries@[k].account_id == a,
    {
        let mut k: usize = 0;
        while k < db.entries.len()
            invariant
                k <= db.entries@.len(),
                forall|q: int| 0 <= q < k ==> !((#[trigger] db.entries@[q]).transaction_id == tid && db.entries@[q].account_id == a),
            decreases db.entries@.len() - k,
        {
            if db.entries[k].transaction_id == tid && db.entries[k].account_id == a {
                return true;
            }
            k = k + 1;
        }
        false
    }

    /// The ids of the transactions that pass the filters, later dates first
    /// and, within a date, higher ids first.
    #[verifier::rlimit(40)]
    fn matching_ids(&self, db: &Database, account_id: Option<i64>, from_date: Option<Date>, to_date: Option<Date>) -> (r: Vec<i64>)
        requires
            db.wf(),
        ensures
            listing_ok(db, r@, account_id, opt_date(from_date), opt_date(to_date)),
    {
        let n = db.transactions.len();
        let ghost fv = opt_date(from_date);
        let ghost tv = opt_date(to_date);
        let mut out: Vec<i64> = Vec::new();
        let mut t: usize = 0;
        while t < n
            invariant
                db.wf(),
                n == db.transactions@.len(),
                fv == opt_date(from_date),
                tv == opt_date(to_date),
                t <= n,
                forall|x: i64| out@.contains(x) <==> (1 <= x <= t && passes(db, x, account_id, fv, tv)),
                forall|i: int, j: int| 0 <= i < j < out@.len() ==> listing_rank(db, #[trigger] out@[i]) > listing_rank(db, #[trigger] out@[j]),
                forall|i: int| 0 <= i < out@.len() ==> 1 <= #[trigger] out@[i] <= t,
            decreases n - t,
        {
            let tid = t as i64 + 1;
            let d = db.transactions[t].transaction_date;
            assert(db.date_of(tid) == d@);
            let ok_account = match account_id {
                Some(a) => self.has_posting_on(db, tid, a),
                None => true,
            };
            let ok_from = match from_date {
                Some(f) => !d.is_before(&f),
                None => true,
            };
            let ok_to = match to_date {
                Some(e) => !e.is_before(&d),
                None => true,
            };
            if ok_account && ok_from && ok_to {
                assert(passes(db, tid, account_id, fv, tv));
                let mut pos: usize = 0;
                while pos < out.len() && d.is_before(&db.transactions[(out[pos] - 1) as usize].transaction_date)
                    invariant
                        db.wf(),
                        n == db.transactions@.len(),
                        t < n,
                        tid == t + 1,
                        d@ == db.date_of(tid),
                        pos <= out@.len(),
                        forall|i: int| 0 <= i < out@.len() ==> 1 <= #[trigger] out@[i] <= t,
                        forall|i: int| 0 <= i < pos ==> listing_rank(db, #[trigger] out@[i]) > listing_rank(db, tid),
                    decreases out@.len() - pos,
                {
                    let o = out[pos];
                    assert(1 <= o <= t);
                    assert(db.date_of(o) == db.transactions@[o - 1].transaction_date@);
                    pos = pos + 1;
                }
                proof {
                    if pos < out@.len() {
                        let o = out@[pos as int];
                        assert(1 <= o <= t);
                        assert(db.date_of(o) == db.transactions@[o - 1].transaction_date@);
                        assert(listing_rank(db, o) < listing_rank(db, tid));
                    }
                }
                let ghost before = out@;
                out.insert(pos, tid);
                proof {
                    lemma_listing_insert(db, before, pos as int, tid, t as int, account_id, fv, tv);
                }
            } else {
                proof {
                    assert(!passes(db, tid, account_id, fv, tv));
                }
            }
            t = t + 1;
        }
        out
    }

    /// The transactions that pass the filters, later dates first and, within
    /// a date, higher ids first; `offset` of them skipped and at most `limit`
    /// returned.
    pub fn get_transactions(
        &self,
        db: &Database,
        account_id: Option<i64>,
        from_date: Option<Date>,
        to_date: Option<Date>,
        limit: Option<u32>,
        offset: Option<u32>,
    ) -> (r: Vec<Transaction>)
        requires
            db.wf(),
        ensures
            exists|all: Seq<i64>| {
                &&& listing_ok(db, all, account_id, opt_date(from_date), opt_date(to_date))
                &&& r@.len() == page(all, limit, offset).len()
                &&& forall|j: int| 0 <= j < r@.len() ==> hydrated(db, page(all, limit, offset)[j], #[trigger] r@[j])
            },
    {
        let all = self.matching_ids(db, account_id, from_date, to_date);
        let start: usize = match offset {
            Some(o) => if (o as usize) < all.len() { o as usize } else { all.len() },
            None => 0,
        };
        let end: usize = match limit {
            Some(l) => if (l as usize) < all.len() - start { start + l as usize } else { all.len() },
            None => all.len(),
        };
        let ghost pg = page(all@, limit, offset);
        assert(pg =~= all@.subrange(start as int, end as int));
        let mut out: Vec<Transaction> = Vec::new();
        let mut i: usize = start;
        while i < end
            invariant
                db.wf(),
                start <= i <= end <= all@.len(),
                pg == all@.subrange(start as int, end as int),
                listing_ok(db, all@, account_id, opt_date(from_date), opt_date(to_date)),
                out@.len() == i - start,
                forall|j: int| 0 <= j < out@.len() ==> hydrated(db, pg[j], #[trigger] out@[j]),
            decreases end - i,
        {
            let tid = all[i];
            assert(all@.contains(tid));
            let t = self.get_transaction(db, tid);
            match t {
                Ok(t) => {
                    out.push(t);
                },
                Err(_) => {
                    assert(false);
                },
            }
            i = i + 1;
        }
        out
    }
}

proof fn lemma_listing_insert(
    db: &Database,
    before: Seq<i64>,
    pos: int,
    tid: i64,
    t: int,
    account_id: Option<i64>,
    fv: Option<DateView>,
    tv: Option<DateView>,
)
    requires
        0 <= pos <= before.len(),
        0 <= t,
        tid == t + 1,
        passes(db, tid, account_id, fv, tv),
        forall|x: i64| before.contains(x) <==> (1 <= x <= t && passes(db, x, account_id, fv, tv)),
        forall|i: int, j: int| 0 <= i < j < before.len() ==> listing_rank(db, #[trigger] before[i]) > listing_rank(db, #[trigger] before[j]),
        forall|i: int| 0 <= i < before.len() ==> 1 <= #[trigger] before[i] <= t,
        forall|i: int| 0 <= i < pos ==> listing_rank(db, #[trigger] before[i]) > listing_rank(db, tid),
        pos < before.len() ==> listing_rank(db, before[pos]) < listing_rank(db, tid),
    ensures
        forall|x: i64| before.insert(pos, tid).contains(x) <==> (1 <= x <= t + 1 && passes(db, x, account_id, fv, tv)),
        forall|i: int, j: int| 0 <= i < j < before.insert(pos, tid).len() ==> listing_rank(db, #[trigger] before.insert(pos, tid)[i]) > listing_rank(
            db,
            #[trigger] before.insert(pos, tid)[j],
        ),
        forall|i: int| 0 <= i < before.insert(pos, tid).len() ==> 1 <= #[trigger] before.insert(pos, tid)[i] <= t + 1,
{
    let out = before.insert(pos, tid);
    assert(out[pos] == tid);
    assert(out.len() == before.len() + 1);
    assert forall|x: i64| out.contains(x) <==> (1 <= x <= t + 1 && passes(db, x, account_id, fv, tv)) by {
        if out.contains(x) {
            let j = choose|j: int| 0 <= j < out.len() && out[j] == x;
            if j < pos {
                assert(before[j] == x);
                assert(before.contains(x));
            } else if j > pos {
                assert(before[j - 1] == x);
                assert(before.contains(x));
            } else {
                assert(x == tid);
                assert(1 <= x <= t + 1 && passes(db, x, account_id, fv, tv));
            }
        }
        if 1 <= x <= t && passes(db, x, account_id, fv, tv) {
            assert(before.contains(x));
            let j = choose|j: int| 0 <= j < before.len() && before[j] == x;
            if j < pos {
                assert(out[j] == x);
            } else {
                assert(out[j + 1] == x);
            }
        }
        if x == t + 1 {
            assert(x == tid);
            assert(out[pos] == x);
            assert(out.contains(x));
        }
    }
    assert forall|i: int, j: int| 0 <= i < j < out.len() implies listing_rank(db, #[trigger] out[i]) > listing_rank(db, #[trigger] out[j]) by {
        if j == pos {
            assert(out[i] == before[i]);
        } else if i == pos {
            assert(out[j] == before[j - 1]);
            if j - 1 > pos {
                assert(listing_rank(db, before[pos]) > listing_rank(db, before[j - 1]));
            }
        } else if j < pos {
            assert(out[i] == before[i]);
            assert(out[j] == before[j]);
        } else if i < pos {
            assert(out[i] == before[i]);
            assert(out[j] == before[j - 1]);
        } else {
            assert(out[i] == before[i - 1]);
            assert(out[j] == before[j - 1]);
        }
    }
    assert forall|i: int| 0 <= i < out.len() implies 1 <= #[trigger] out[i] <= t + 1 by {
        if i < pos {
            assert(out[i] == before[i]);
        } else if i > pos {
            assert(out[i] == before[i - 1]);
        }
    }
}

/// `ids` holds exactly the transactions that pass the filters, in listing order.
pub open spec fn listing_ok(db: &Database, ids: Seq<i64>, account_id: Option<i64>, from: Option<DateView>, to: Option<DateView>) -> bool {
    &&& forall|x: i64| ids.contains(x) <==> (1 <= x <= db.transactions@.len() && passes(db, x, account_id, from, to))
    &&& forall|i: int, j: int| 0 <= i < j < ids.len() ==> listing_rank(db, #[trigger] ids[i]) > listing_rank(db, #[trigger] ids[j])
}

/// The part of `all` that a page with `limit` and `offset` shows.
pub open spec fn page(all: Seq<i64>, limit: Option<u32>, offset: Option<u32>) -> Seq<i64> {
    let start = match offset {
        Some(o) => if o < all.len() { o as int } else { all.len() as int },
        None => 0,
    };
    let rest = all.skip(start);
    match limit {
        Some(l) => if l < rest.len() { rest.take(l as int) } else { rest },
        None => rest,
    }
}


} // verus!
