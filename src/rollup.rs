use vstd::prelude::*;

use crate::account::{signed_balance, AccountType};
use crate::db::Database;
use crate::transaction::{EntryType, TransactionEntry};

verus! {

/// The balance that the balance functions report for the postings on `ids`
/// under the sign rule of `t`, before any bound on its size: zero where there
/// is no posting.
pub open spec fn ledger_balance(db: &Database, t: AccountType, ids: Seq<i64>) -> int {
    match db.grouped_sums(ids, None) {
        None => 0,
        Some((d, c, _)) => signed_balance(t, d, c),
    }
}

/// A balance that a balance function reports is the ledger balance of the
/// postings it covers.
pub proof fn lemma_reported_balance(
    db: &Database,
    t: AccountType,
    ids: Seq<i64>,
    r: Result<crate::money::Money, crate::errors::WalletError>,
)
    requires
        crate::account_service::balance_result(db, t, ids, None, r),
        r is Ok,
    ensures
        r->Ok_0@.amount == ledger_balance(db, t, ids),
{
}

/// The sum of the own balances of the accounts `ids`, each under the sign
/// rule of its own type.
pub open spec fn sum_of_own_balances(db: &Database, ids: Seq<i64>) -> int
    decreases ids.len(),
{
    if ids.len() == 0 {
        0
    } else {
        sum_of_own_balances(db, ids.drop_last()) + ledger_balance(
            db,
            db.account(ids.last()).account_type,
            seq![ids.last()],
        )
    }
}

/// Whether every posting on one of `ids` is in currency `code`.
pub open spec fn postings_in(db: &Database, ids: Seq<i64>, code: Seq<char>) -> bool {
    forall|k: int|
        0 <= k < db.entries@.len() && ids.contains(#[trigger] db.entries@[k].account_id) ==> db.entries@[k]@.amount.currency.code
            == code
}

proof fn lemma_first_code_is_a_posting_code(db: &Database, es: Seq<TransactionEntry>, ids: Seq<i64>, code: Seq<char>)
    requires
        forall|k: int| 0 <= k < es.len() && ids.contains(#[trigger] es[k].account_id) ==> es[k]@.amount.currency.code == code,
    ensures
        db.first_code(es, ids, None) is None || db.first_code(es, ids, None) == Some(code),
        db.first_code(es, ids, None) is None ==> db.side_total(es, ids, None, code, EntryType::Debit) == 0
            && db.side_total(es, ids, None, code, EntryType::Credit) == 0,
    decreases es.len(),
{
    if es.len() > 0 {
        let ed = es.drop_last();
        assert forall|k: int| 0 <= k < ed.len() && ids.contains(#[trigger] ed[k].account_id) implies ed[k]@.amount.currency.code == code by {
            assert(ed[k] == es[k]);
        }
        lemma_first_code_is_a_posting_code(db, ed, ids, code);
        assert(es.last() == es[es.len() - 1]);
    }
}

/// The balance over `ids` in terms of the side totals in `code`.
proof fn lemma_balance_in_code(db: &Database, t: AccountType, ids: Seq<i64>, code: Seq<char>)
    requires
        postings_in(db, ids, code),
    ensures
        ledger_balance(db, t, ids) == signed_balance(
            t,
            db.side_total(db.entries@, ids, None, code, EntryType::Debit),
            db.side_total(db.entries@, ids, None, code, EntryType::Credit),
        ),
{
    lemma_first_code_is_a_posting_code(db, db.entries@, ids, code);
}

/// The side total over `ids` with `x` added is the total over `ids` plus
/// the total over `x` alone.
proof fn lemma_side_total_split(
    db: &Database,
    es: Seq<TransactionEntry>,
    ids: Seq<i64>,
    x: i64,
    code: Seq<char>,
    side: EntryType,
)
    requires
        !ids.contains(x),
    ensures
        db.side_total(es, ids.push(x), None, code, side) == db.side_total(es, ids, None, code, side) + db.side_total(
            es,
            seq![x],
            None,
            code,
            side,
        ),
    decreases es.len(),
{
    if es.len() > 0 {
        lemma_side_total_split(db, es.drop_last(), ids, x, code, side);
        let a = es.last().account_id;
        assert(ids.push(x).contains(a) <==> ids.contains(a) || a == x) by {
            if ids.push(x).contains(a) {
                let j = choose|j: int| 0 <= j < ids.push(x).len() && ids.push(x)[j] == a;
                if j < ids.len() {
                    assert(ids[j] == a);
                }
            }
            if ids.contains(a) {
                let j = choose|j: int| 0 <= j < ids.len() && ids[j] == a;
                assert(ids.push(x)[j] == a);
            }
            if a == x {
                assert(ids.push(x)[ids.len() as int] == a);
            }
        }
        assert(seq![x].contains(a) <==> a == x) by {
            if a == x {
                assert(seq![x][0] == a);
            }
        }
    }
}

proof fn lemma_sum_of_own_balances(db: &Database, t: AccountType, ids: Seq<i64>, code: Seq<char>)
    requires
        postings_in(db, ids, code),
        forall|i: int, j: int| 0 <= i < j < ids.len() ==> ids[i] != ids[j],
        forall|j: int| 0 <= j < ids.len() ==> db.account(#[trigger] ids[j]).account_type == t,
    ensures
        sum_of_own_balances(db, ids) == ledger_balance(db, t, ids),
    decreases ids.len(),
{
    if ids.len() == 0 {
        assert(db.first_code(db.entries@, ids, None) is None) by {
            lemma_no_ids_no_code(db, db.entries@, ids);
        }
    } else {
        let rest = ids.drop_last();
        let x = ids.last();
        assert(rest.push(x) =~= ids);
        assert forall|k: int| 0 <= k < db.entries@.len() && rest.contains(#[trigger] db.entries@[k].account_id) implies db.entries@[k]@.amount.currency.code
            == code by {
            let j = choose|j: int| 0 <= j < rest.len() && rest[j] == db.entries@[k].account_id;
            assert(ids[j] == rest[j]);
        }
        assert forall|k: int| 0 <= k < db.entries@.len() && seq![x].contains(#[trigger] db.entries@[k].account_id) implies db.entries@[k]@.amount.currency.code
            == code by {
            assert(seq![x][0] == x);
            assert(ids[ids.len() - 1] == x);
        }
        assert(!rest.contains(x)) by {
            if rest.contains(x) {
                let j = choose|j: int| 0 <= j < rest.len() && rest[j] == x;
                assert(ids[j] == ids[ids.len() - 1]);
            }
        }
        assert(db.account(x).account_type == t) by {
            assert(ids[ids.len() - 1] == x);
        }
        lemma_sum_of_own_balances(db, t, rest, code);
        lemma_balance_in_code(db, t, rest, code);
        lemma_balance_in_code(db, t, seq![x], code);
        lemma_balance_in_code(db, t, ids, code);
        lemma_side_total_split(db, db.entries@, rest, x, code, EntryType::Debit);
        lemma_side_total_split(db, db.entries@, rest, x, code, EntryType::Credit);
    }
}

proof fn lemma_no_ids_no_code(db: &Database, es: Seq<TransactionEntry>, ids: Seq<i64>)
    requires
        ids.len() == 0,
    ensures
        db.first_code(es, ids, None) is None,
    decreases es.len(),
{
    if es.len() > 0 {
        lemma_no_ids_no_code(db, es.drop_last(), ids);
    }
}

proof fn lemma_subtree_upto_ascending(db: &Database, root: i64, n: int)
    requires
        n < i64::MAX,
    ensures
        forall|i: int, j: int| 0 <= i < j < db.subtree_upto(root, n).len() ==> db.subtree_upto(root, n)[i] < db.subtree_upto(root, n)[j],
        forall|i: int| 0 <= i < db.subtree_upto(root, n).len() ==> 1 <= #[trigger] db.subtree_upto(root, n)[i] <= n,
    decreases n,
{
    if n > 0 {
        lemma_subtree_upto_ascending(db, root, n - 1);
        let prev = db.subtree_upto(root, n - 1);
        if db.in_subtree(root, n as i64) {
            let cur = prev.push(n as i64);
            assert(db.subtree_upto(root, n) == cur);
            assert forall|i: int, j: int| 0 <= i < j < cur.len() implies cur[i] < cur[j] by {
                if j == prev.len() {
                    assert(prev[i] <= n - 1);
                } else {
                    assert(cur[i] == prev[i] && cur[j] == prev[j]);
                }
            }
            assert forall|i: int| 0 <= i < cur.len() implies 1 <= #[trigger] cur[i] <= n by {
                if i < prev.len() {
                    assert(cur[i] == prev[i]);
                }
            }
        }
    }
}

/// The balance of an account together with its subtree equals the sum of
/// the own balances of the account and of every active account below it,
/// where all of them share its type and all their postings one currency.
pub proof fn lemma_rollup_is_sum_of_balances(db: &Database, root: i64, code: Seq<char>)
    requires
        db.wf(),
        db.contains_account(root),
        forall|j: int| 0 <= j < db.subtree_ids(root).len() ==> db.account(#[trigger] db.subtree_ids(root)[j]).account_type
            == db.account(root).account_type,
        postings_in(db, db.subtree_ids(root), code),
    ensures
        ledger_balance(db, db.account(root).account_type, db.subtree_ids(root)) == sum_of_own_balances(db, db.subtree_ids(root)),
{
    let s = db.subtree_ids(root);
    lemma_subtree_upto_ascending(db, root, db.accounts@.len() as int);
    assert forall|i: int, j: int| 0 <= i < j < s.len() implies s[i] != s[j] by {
        assert(s[i] < s[j]);
    }
    lemma_sum_of_own_balances(db, db.account(root).account_type, s, code);
}

} // verus!
