use vstd::prelude::*;

use vstd::string::StringExecFns;

use crate::account::{spec_rank, AccountNode};
use crate::db::{AccountRepository, Database};
use crate::errors::{StorageFault, WalletError};
use crate::text::{lemma_lex_less_irreflexive, lemma_lex_less_transitive, lex_less, sort_key, str_less};

verus! {

impl Database {
    /// Whether account `id` is active and reached from an active root
    /// through active accounts only.
    pub open spec fn in_active_tree(&self, id: i64) -> bool
        decreases id,
    {
        if !self.contains_account(id) {
            false
        } else {
            let a = self.accounts@[id - 1];
            a.is_active && match a.parent_id {
                None => true,
                Some(p) => 1 <= p < id && self.in_active_tree(p),
            }
        }
    }

    /// The number of ancestors of account `id`.
    pub open spec fn tree_level(&self, id: i64) -> int
        decreases id,
    {
        if !self.contains_account(id) {
            0
        } else {
            match self.accounts@[id - 1].parent_id {
                Some(p) => if 1 <= p < id {
                    self.tree_level(p) + 1
                } else {
                    0
                },
                None => 0,
            }
        }
    }

    /// The names from the root of account `id` down to it, joined by " > ".
    pub open spec fn tree_path(&self, id: i64) -> Seq<char>
        decreases id,
    {
        if !self.contains_account(id) {
            Seq::empty()
        } else {
            let a = self.accounts@[id - 1];
            match a.parent_id {
                Some(p) => if 1 <= p < id {
                    self.tree_path(p) + " > "@ + a.name@
                } else {
                    a.name@
                },
                None => a.name@,
            }
        }
    }

    /// `n` is the node of account `id` in the tree.
    pub open spec fn node_of(&self, id: i64, n: AccountNode) -> bool {
        &&& self.in_active_tree(id)
        &&& n.account.id == Some(id)
        &&& n.account@ == self.account(id)
        &&& n.level as int == self.tree_level(id)
        &&& n.path@ == self.tree_path(id)
    }
}

/// Whether node `a` is listed before node `b`: by the rank of the account
/// type, then by path, byte by byte.
pub open spec fn node_less(a: AccountNode, b: AccountNode) -> bool {
    spec_rank(a.account.account_type) < spec_rank(b.account.account_type) || (spec_rank(a.account.account_type) == spec_rank(
        b.account.account_type,
    ) && lex_less(sort_key(a.path@), sort_key(b.path@)))
}

pub open spec fn nodes_sorted(ns: Seq<AccountNode>) -> bool {
    forall|i: int, j: int| 0 <= i < j < ns.len() ==> !node_less(#[trigger] ns[j], #[trigger] ns[i])
}

proof fn lemma_node_less_transitive(a: AccountNode, b: AccountNode, c: AccountNode)
    requires
        node_less(a, b),
        node_less(b, c),
    ensures
        node_less(a, c),
{
    if spec_rank(a.account.account_type) == spec_rank(b.account.account_type) && spec_rank(b.account.account_type) == spec_rank(
        c.account.account_type,
    ) {
        lemma_lex_less_transitive(sort_key(a.path@), sort_key(b.path@), sort_key(c.path@));
    }
}

fn node_before(a: &AccountNode, b: &AccountNode) -> (r: bool)
    ensures
        r == node_less(*a, *b),
{
    let ra = a.account.account_type.rank();
    let rb = b.account.account_type.rank();
    ra < rb || (ra == rb && str_less(a.path.as_str(), b.path.as_str()))
}

/// Puts `node` into the sorted `nodes` after every node not listed after it.
fn insert_node(nodes: &mut Vec<AccountNode>, node: AccountNode)
    requires
        nodes_sorted(old(nodes)@),
    ensures
        nodes_sorted(final(nodes)@),
        exists|pos: int| 0 <= pos <= old(nodes)@.len() && final(nodes)@ == old(nodes)@.insert(pos, node),
{
    let mut pos: usize = 0;
    while pos < nodes.len() && !node_before(&node, &nodes[pos])
        invariant
            pos <= nodes@.len(),
            forall|i: int| 0 <= i < pos ==> !node_less(node, #[trigger] nodes@[i]),
        decreases nodes@.len() - pos,
    {
        pos = pos + 1;
    }
    let ghost before = nodes@;
    let ghost n = node;
    nodes.insert(pos, node);
    proof {
        assert(nodes@ == before.insert(pos as int, n));
        assert forall|i: int, j: int| 0 <= i < j < nodes@.len() implies !node_less(#[trigger] nodes@[j], #[trigger] nodes@[i]) by {
            if j == pos {
                assert(nodes@[i] == before[i]);
            } else if i == pos {
                let e = before[j - 1];
                assert(nodes@[j] == e);
                if node_less(e, n) {
                    assert(node_less(n, before[pos as int]));
                    lemma_node_less_transitive(e, n, before[pos as int]);
                    if j - 1 == pos {
                        lemma_lex_less_irreflexive(sort_key(e.path@));
                    } else {
                        assert(!node_less(before[j - 1], before[pos as int]));
                    }
                }
            } else if i < pos && j > pos {
                assert(nodes@[i] == before[i]);
                assert(nodes@[j] == before[j - 1]);
            } else if j < pos {
                assert(nodes@[i] == before[i]);
                assert(nodes@[j] == before[j]);
            } else {
                assert(nodes@[i] == before[i - 1]);
                assert(nodes@[j] == before[j - 1]);
            }
        }
    }
}

/// `flags`, `levels` and `paths` tell, for each account in order of id,
/// whether it is in the tree and, where it is, its level and path.
pub open spec fn tree_rows_ok(db: &Database, flags: Seq<bool>, levels: Seq<i32>, paths: Seq<String>) -> bool {
    let n = db.accounts@.len();
    &&& flags.len() == n
    &&& levels.len() == n
    &&& paths.len() == n
    &&& forall|j: int| 0 <= j < n ==> (#[trigger] flags[j]) == db.in_active_tree((j + 1) as i64)
    &&& forall|j: int| 0 <= j < n && flags[j] ==> (#[trigger] levels[j]) as int == db.tree_level((j + 1) as i64)
    &&& forall|j: int| 0 <= j < n && flags[j] ==> (#[trigger] paths[j])@ == db.tree_path((j + 1) as i64)
}

/// `ns` holds the node of each account of the tree with an id of at most
/// `k`, once each, and nothing else.
pub open spec fn tree_nodes_upto(db: &Database, ns: Seq<AccountNode>, k: int) -> bool {
    &&& forall|j: int| 0 <= j < ns.len() ==> db.node_of((#[trigger] ns[j]).account.id.unwrap(), ns[j])
    &&& forall|j: int| 0 <= j < ns.len() ==> (#[trigger] ns[j]).account.id.unwrap() <= k
    &&& forall|x: i64| #[trigger] db.in_active_tree(x) && x <= k ==> exists|j: int| 0 <= j < ns.len() && (#[trigger] ns[j]).account.id == Some(x)
    &&& forall|i: int, j: int| 0 <= i < j < ns.len() ==> (#[trigger] ns[i]).account.id != (#[trigger] ns[j]).account.id
}

proof fn lemma_tree_insert(db: &Database, before: Seq<AccountNode>, after: Seq<AccountNode>, pos: int, node: AccountNode, k: int)
    requires
        0 <= pos <= before.len(),
        after == before.insert(pos, node),
        db.node_of((k + 1) as i64, node),
        0 <= k < i64::MAX,
        tree_nodes_upto(db, before, k),
    ensures
        tree_nodes_upto(db, after, k + 1),
{
    assert forall|j: int| 0 <= j < after.len() implies db.node_of((#[trigger] after[j]).account.id.unwrap(), after[j])
        && after[j].account.id.unwrap() <= k + 1 by {
        if j < pos {
            assert(after[j] == before[j]);
        } else if j > pos {
            assert(after[j] == before[j - 1]);
        }
    }
    assert forall|x: i64| #[trigger] db.in_active_tree(x) && x <= k + 1 implies exists|j: int| 0 <= j < after.len() && (#[trigger] after[j]).account.id == Some(x) by {
        if x == k + 1 {
            assert(after[pos].account.id == Some(x));
        } else {
            let j = choose|j: int| 0 <= j < before.len() && (#[trigger] before[j]).account.id == Some(x);
            if j < pos {
                assert(after[j] == before[j]);
            } else {
                assert(after[j + 1] == before[j]);
            }
        }
    }
    assert forall|i: int, j: int| 0 <= i < j < after.len() implies (#[trigger] after[i]).account.id != (#[trigger] after[j]).account.id by {
        if i == pos {
            assert(after[j] == before[j - 1]);
        } else if j == pos {
            assert(after[i] == before[i]);
        } else if j < pos {
            assert(after[i] == before[i]);
            assert(after[j] == before[j]);
        } else if i < pos {
            assert(after[i] == before[i]);
            assert(after[j] == before[j - 1]);
        } else {
            assert(after[i] == before[i - 1]);
            assert(after[j] == before[j - 1]);
        }
    }
}

/// Whether every account of the tree has a level that fits in an `i32`.
pub open spec fn levels_fit(db: &Database) -> bool {
    forall|x: i64| #[trigger] db.in_active_tree(x) ==> db.tree_level(x) <= i32::MAX
}

impl AccountRepository {
    /// For each account, in order of id: whether it is in the tree and, where
    /// it is, its level and path.
    fn tree_rows(&self, db: &Database) -> (r: Result<(Vec<bool>, Vec<i32>, Vec<String>), WalletError>)
        requires
            db.wf(),
        ensures
            levels_fit(db) <==> r is Ok,
            r is Err ==> r == Err::<(Vec<bool>, Vec<i32>, Vec<String>), WalletError>(WalletError::StorageError(StorageFault::LevelOverflow)),
            r matches Ok((flags, levels, paths)) ==> tree_rows_ok(db, flags@, levels@, paths@),
    {
        let n = db.accounts.len();
        let mut flags: Vec<bool> = Vec::new();
        let mut levels: Vec<i32> = Vec::new();
        let mut paths: Vec<String> = Vec::new();
        let mut k: usize = 0;
        while k < n
            invariant
                db.wf(),
                n == db.accounts@.len(),
                k <= n,
                flags@.len() == k,
                levels@.len() == k,
                paths@.len() == k,
                forall|j: int| 0 <= j < k ==> (#[trigger] flags@[j]) == db.in_active_tree((j + 1) as i64),
                forall|j: int| 0 <= j < k && flags@[j] ==> (#[trigger] levels@[j]) as int == db.tree_level((j + 1) as i64),
                forall|j: int| 0 <= j < k && flags@[j] ==> (#[trigger] paths@[j])@ == db.tree_path((j + 1) as i64),
                forall|j: int| 0 <= j < k && flags@[j] ==> db.tree_level((j + 1) as i64) <= i32::MAX,
            decreases n - k,
        {
            let a = &db.accounts[k];
            let id = k as i64 + 1;
            assert(db.accounts@[k as int].parent_id == a.parent_id);
            if !a.is_active {
                flags.push(false);
                levels.push(0);
                paths.push(String::new());
            } else {
                match a.parent_id {
                    None => {
                        flags.push(true);
                        levels.push(0);
                        paths.push(a.name.clone());
                    },
                    Some(p) => {
                        let pi = (p - 1) as usize;
                        if flags[pi] {
                            let pl = levels[pi];
                            if pl == i32::MAX {
                                proof {
                                    assert(db.in_active_tree(id));
                                    assert(db.tree_level(id) == db.tree_level(p) + 1);
                                }
                                return Err(WalletError::StorageError(StorageFault::LevelOverflow));
                            }
                            let mut s = paths[pi].clone();
                            s.append(" > ");
                            s.append(a.name.as_str());
                            flags.push(true);
                            levels.push(pl + 1);
                            paths.push(s);
                        } else {
                            flags.push(false);
                            levels.push(0);
                            paths.push(String::new());
                        }
                    },
                }
            }
            k = k + 1;
        }
        proof {
            assert forall|x: i64| #[trigger] db.in_active_tree(x) implies db.tree_level(x) <= i32::MAX by {
                assert(flags@[x - 1]);
            }
        }
        Ok((flags, levels, paths))
    }

    /// Every active account reached from an active root through active
    /// accounts, with its level and path, ordered by type rank and path.
    #[verifier::rlimit(60)]
    pub fn get_account_tree(&self, db: &Database) -> (r: Result<Vec<AccountNode>, WalletError>)
        requires
            db.wf(),
        ensures
            levels_fit(db) <==> r is Ok,
            r is Err ==> r == Err::<Vec<AccountNode>, WalletError>(WalletError::StorageError(StorageFault::LevelOverflow)),
            r is Ok ==> {
                let ns = r->Ok_0@;
                &&& nodes_sorted(ns)
                &&& forall|j: int| 0 <= j < ns.len() ==> db.node_of((#[trigger] ns[j]).account.id.unwrap(), ns[j])
                &&& forall|x: i64| #[trigger] db.in_active_tree(x) ==> exists|j: int| 0 <= j < ns.len() && (#[trigger] ns[j]).account.id == Some(x)
                &&& forall|i: int, j: int| 0 <= i < j < ns.len() ==> (#[trigger] ns[i]).account.id != (#[trigger] ns[j]).account.id
            },
    {
        let n = db.accounts.len();
        let (flags, levels, paths) = match self.tree_rows(db) {
            Ok(rows) => rows,
            Err(e) => {
                return Err(e);
            },
        };
        let mut out: Vec<AccountNode> = Vec::new();
        let mut k: usize = 0;
        while k < n
            invariant
                db.wf(),
                n == db.accounts@.len(),
                k <= n,
                tree_rows_ok(db, flags@, levels@, paths@),
                nodes_sorted(out@),
                tree_nodes_upto(db, out@, k as int),
            decreases n - k,
        {
            if flags[k] {
                let id = k as i64 + 1;
                let node = AccountNode { account: db.accounts[k].copied(), level: levels[k], path: paths[k].clone() };
                assert(db.node_of(id, node));
                let ghost before = out@;
                insert_node(&mut out, node);
                proof {
                    let pos = choose|pos: int| 0 <= pos <= before.len() && out@ == before.insert(pos, node);
                    lemma_tree_insert(db, before, out@, pos, node, k as int);
                }
            } else {
                proof {
                    assert(!db.in_active_tree((k + 1) as i64));
                }
            }
            k = k + 1;
        }
        proof {
            assert forall|x: i64| #[trigger] db.in_active_tree(x) implies exists|j: int| 0 <= j < out@.len() && (#[trigger] out@[j]).account.id == Some(x) by {
                assert(db.in_active_tree(x) && x <= n);
            }
        }
        Ok(out)
    }
}

} // verus!
