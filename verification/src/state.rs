//! Accounts and the account state: a map from account id to account, with
//! a one-level transaction (begin, commit, roll back), the sparse Merkle
//! root over the account digests, and per-account proofs against it.

use std::collections::HashMap;
use vstd::prelude::*;
use vstd::std_specs::iter::IteratorSpec;
use vstd::bytes::{spec_u64_to_le_bytes, u64_to_le_bytes};
use crate::keccak::{Digest, keccak256};
use crate::smt::{
    represents, sorted_by_key, key_space, tree_root, proof_spec, hashes_view, subtree_root,
    tree_root_of, tree_proof_of, verify_spec, zero_hash, lemma_proof_verifies,
    lemma_proof_ignores_own_leaf,
};

verus! {

broadcast use vstd::std_specs::hash::group_hash_axioms;

/// An account: its nonce, its balance, the digest of its code and the root
/// of its storage.
#[derive(Clone, Copy, Debug, PartialEq, Eq)]
pub struct Account {
    pub nonce: u64,
    pub balance: u64,
    pub code_hash: Digest,
    pub storage_root: Digest,
}

/// The bytes an account is hashed from: the balance and the nonce as
/// little-endian 64-bit words, then the code digest and the storage root.
pub open spec fn account_preimage_spec(acc: Account) -> Seq<u8> {
    spec_u64_to_le_bytes(acc.balance) + spec_u64_to_le_bytes(acc.nonce) + acc.code_hash@
        + acc.storage_root@
}

/// The digest of an account: its leaf in the state tree.
pub open spec fn account_leaf(acc: Account) -> Seq<u8> {
    keccak256(account_preimage_spec(acc))
}

/// The leaves of the state tree: each account id mapped to the account's
/// digest.
pub open spec fn leaf_map(accounts: Map<u64, Account>) -> Map<u64, Seq<u8>> {
    accounts.map_values(|acc: Account| account_leaf(acc))
}

/// The root of the state tree over `accounts`.
pub open spec fn state_root_spec(accounts: Map<u64, Account>) -> Seq<u8> {
    tree_root(leaf_map(accounts))
}

/// The leaf of `id` in the state tree: the account's digest, or 32 zero
/// bytes where there is no such account.
pub open spec fn account_leaf_of(accounts: Map<u64, Account>, id: u64) -> Seq<u8> {
    subtree_root(leaf_map(accounts), 0, id as int)
}

fn append_bytes(bytes: &mut Vec<u8>, more: &[u8])
    ensures
        final(bytes)@ == old(bytes)@ + more@,
{
    for i in 0..more.len()
        invariant
            bytes@ == old(bytes)@ + more@.subrange(0, i as int),
    {
        bytes.push(more[i]);
        assert(more@.subrange(0, i + 1) == more@.subrange(0, i as int).push(more@[i as int]));
    }
    assert(more@.subrange(0, more@.len() as int) == more@);
}

/// The bytes that `hash_account` hashes.
pub fn account_preimage(acc: &Account) -> (bytes: Vec<u8>)
    ensures
        bytes@ == account_preimage_spec(*acc),
{
    let mut bytes: Vec<u8> = Vec::new();
    let balance = u64_to_le_bytes(acc.balance);
    append_bytes(&mut bytes, balance.as_slice());
    let nonce = u64_to_le_bytes(acc.nonce);
    append_bytes(&mut bytes, nonce.as_slice());
    append_bytes(&mut bytes, acc.code_hash.as_slice());
    append_bytes(&mut bytes, acc.storage_root.as_slice());
    bytes
}

/// The Keccak-256 digest of an account.
pub fn hash_account(acc: &Account) -> (h: Digest)
    ensures
        h@ == account_leaf(*acc),
{
    let bytes = account_preimage(acc);
    crate::keccak::keccak256_hash(bytes.as_slice())
}

/// No two entries share a key.
pub open spec fn distinct_keys(s: Seq<(u64, Digest)>) -> bool {
    forall|i: int, j: int| 0 <= i < j < s.len() ==> s[i].0 != s[j].0
}

/// Sorts entries with distinct keys by key.
fn sort_leaves(v: Vec<(u64, Digest)>) -> (r: Vec<(u64, Digest)>)
    requires
        distinct_keys(v@),
    ensures
        sorted_by_key(r@),
        forall|x: (u64, Digest)| r@.contains(x) <==> v@.contains(x),
{
    let mut r: Vec<(u64, Digest)> = Vec::new();
    for i in 0..v.len()
        invariant
            distinct_keys(v@),
            sorted_by_key(r@),
            forall|x: (u64, Digest)| r@.contains(x) <==> v@.subrange(0, i as int).contains(x),
    {
        let e = v[i];
        let pos = crate::smt::lower_bound_keys(r.as_slice(), e.0);
        proof {
            assert forall|j: int| 0 <= j < r@.len() implies #[trigger] r@[j].0 != e.0 by {
                assert(r@.contains(r@[j]));
                let k = choose|k: int| 0 <= k < i && v@.subrange(0, i as int)[k] == r@[j];
                assert(v@[k] == r@[j]);
            }
        }
        let ghost before = r@;
        r.insert(pos, e);
        proof {
            assert(r@ == before.insert(pos as int, e));
            assert forall|a: int, b: int| 0 <= a < b < r@.len() implies r@[a].0 < r@[b].0 by {
                if a < pos && b < pos {
                    assert(r@[a] == before[a] && r@[b] == before[b]);
                } else if a < pos && b == pos {
                    assert(r@[a] == before[a]);
                } else if a < pos {
                    assert(r@[a] == before[a] && r@[b] == before[b - 1]);
                } else if a == pos {
                    assert(r@[b] == before[b - 1]);
                } else {
                    assert(r@[a] == before[a - 1] && r@[b] == before[b - 1]);
                }
            }
            let vi = v@.subrange(0, i + 1);
            assert(vi == v@.subrange(0, i as int).push(e));
            assert forall|x: (u64, Digest)| r@.contains(x) <==> vi.contains(x) by {
                if r@.contains(x) {
                    let j = choose|j: int| 0 <= j < r@.len() && r@[j] == x;
                    if j < pos {
                        assert(before[j] == x);
                        assert(before.contains(x));
                    } else if j > pos {
                        assert(before[j - 1] == x);
                        assert(before.contains(x));
                    }
                    if x != e {
                        assert(v@.subrange(0, i as int).contains(x));
                        let k = choose|k: int| 0 <= k < i && v@.subrange(0, i as int)[k] == x;
                        assert(vi[k] == x);
                    } else {
                        assert(vi[i as int] == x);
                    }
                }
                if vi.contains(x) {
                    let k = choose|k: int| 0 <= k < vi.len() && vi[k] == x;
                    if k == i {
                        assert(r@[pos as int] == x);
                    } else {
                        assert(v@.subrange(0, i as int)[k] == x);
                        assert(before.contains(x));
                        let j = choose|j: int| 0 <= j < before.len() && before[j] == x;
                        if j < pos {
                            assert(r@[j] == x);
                        } else {
                            assert(r@[j + 1] == x);
                        }
                    }
                }
            }
        }
    }
    assert(v@.subrange(0, v@.len() as int) == v@);
    r
}

/// The account state: accounts by id, the path the state is kept at, and
/// the accounts as they were when the open transaction began, if one is
/// open.
pub struct State {
    accounts: HashMap<u64, Account>,
    path: String,
    backup: Option<HashMap<u64, Account>>,
}

/// What a `State` holds, as plain values.
pub struct StateView {
    pub accounts: Map<u64, Account>,
    pub path: Seq<char>,
    pub backup: Option<Map<u64, Account>>,
}

impl View for State {
    type V = StateView;

    closed spec fn view(&self) -> StateView {
        StateView {
            accounts: self.accounts@,
            path: self.path@,
            backup: match self.backup {
                Some(b) => Some(b@),
                None => None,
            },
        }
    }
}

impl State {
    /// An empty state kept at `path`, with no transaction open.
    pub fn new(path: &str) -> (s: State)
        ensures
            s@.accounts == Map::<u64, Account>::empty(),
            s@.path == path@,
            s@.backup is None,
    {
        State { accounts: HashMap::new(), path: path.to_owned(), backup: None }
    }

    /// A state kept at `path` that holds `accounts`, with no transaction
    /// open.
    pub fn from_accounts(path: &str, accounts: HashMap<u64, Account>) -> (s: State)
        ensures
            s@.accounts == accounts@,
            s@.path == path@,
            s@.backup is None,
    {
        State { accounts, path: path.to_owned(), backup: None }
    }

    /// The accounts.
    pub fn accounts(&self) -> (a: &HashMap<u64, Account>)
        ensures
            a@ == self@.accounts,
    {
        &self.accounts
    }

    /// The path the state is kept at.
    pub fn path(&self) -> (p: &str)
        ensures
            p@ == self@.path,
    {
        self.path.as_str()
    }

    /// The tree leaves, one per account, sorted by account id.
    fn sorted_leaves(&self) -> (leaves: Vec<(u64, Digest)>)
        ensures
            sorted_by_key(leaves@),
            represents(leaves@, leaf_map(self@.accounts), 0, key_space()),
    {
        let ghost m = self.accounts@;
        let ghost seq = vstd::std_specs::hash::spec_hash_map_iter(&self.accounts).remaining();
        let mut unsorted: Vec<(u64, Digest)> = Vec::new();
        for (id, acc) in it: self.accounts.iter()
            invariant
                unsorted@.len() == it.index(),
                it.seq() == seq,
                forall|j: int|
                    0 <= j < it.index() ==> #[trigger] unsorted@[j].0 == *seq[j].0,
                forall|j: int|
                    0 <= j < it.index() ==> #[trigger] unsorted@[j].1@ == account_leaf(*seq[j].1),
        {
            let h = hash_account(acc);
            unsorted.push((*id, h));
        }
        proof {
            assert(unsorted@.len() == seq.len());
            assert forall|i: int, j: int| 0 <= i < j < unsorted@.len() implies unsorted@[i].0
                != unsorted@[j].0 by {
                if unsorted@[i].0 == unsorted@[j].0 {
                    assert(m.contains_key(*seq[i].0) && m[*seq[i].0] == *seq[i].1);
                    assert(m.contains_key(*seq[j].0) && m[*seq[j].0] == *seq[j].1);
                    assert(seq[i] == seq[j]);
                    assert(seq.no_duplicates());
                }
            }
        }
        let leaves = sort_leaves(unsorted);
        proof {
            let lm = leaf_map(m);
            assert forall|i: int| 0 <= i < leaves@.len() implies 0 <= #[trigger] leaves@[i].0 < key_space()
                && lm.contains_key(leaves@[i].0) && lm[leaves@[i].0] == leaves@[i].1@ by {
                assert(leaves@.contains(leaves@[i]));
                let j = choose|j: int| 0 <= j < unsorted@.len() && unsorted@[j] == leaves@[i];
                assert(m.contains_key(*seq[j].0) && m[*seq[j].0] == *seq[j].1);
            }
            assert forall|k: u64| 0 <= k < key_space() && #[trigger] lm.contains_key(k) implies exists|i: int|
                0 <= i < leaves@.len() && #[trigger] leaves@[i].0 == k by {
                assert(seq.contains((&k, &m[k])));
                let j = choose|j: int| 0 <= j < seq.len() && seq[j] == (&k, &m[k]);
                assert(unsorted@.contains(unsorted@[j]));
                assert(leaves@.contains(unsorted@[j]));
                let i = choose|i: int| 0 <= i < leaves@.len() && leaves@[i] == unsorted@[j];
                assert(leaves@[i].0 == k);
            }
        }
        leaves
    }
}

impl State {
    /// The root of the state tree.
    pub fn root(&self) -> (r: Digest)
        ensures
            r@ == state_root_spec(self@.accounts),
    {
        let leaves = self.sorted_leaves();
        tree_root_of(leaves.as_slice(), Ghost(leaf_map(self@.accounts)))
    }

    /// The 64 siblings on the path from account `id` to the root, nearest
    /// the root first: a proof of the account's digest, or of its absence
    /// where there is no such account.
    pub fn get_account_proof(&self, id: u64) -> (proof: Vec<Digest>)
        ensures
            hashes_view(proof@) == proof_spec(leaf_map(self@.accounts), id),
            proof@.len() == 64,
    {
        let leaves = self.sorted_leaves();
        tree_proof_of(leaves.as_slice(), id, Ghost(leaf_map(self@.accounts)))
    }
}

/// The account under `id`, if there is one.
pub open spec fn get_spec(accounts: Map<u64, Account>, id: u64) -> Option<Account> {
    if accounts.contains_key(id) {
        Some(accounts[id])
    } else {
        None
    }
}

/// The state after `set_account(id, acc)`.
pub open spec fn set_spec(s: StateView, id: u64, acc: Account) -> StateView {
    StateView { accounts: s.accounts.insert(id, acc), ..s }
}

/// The state after `begin_transaction`: the accounts are kept aside.
pub open spec fn begin_spec(s: StateView) -> StateView {
    StateView { backup: Some(s.accounts), ..s }
}

/// The state after `commit`: the kept copy is dropped.
pub open spec fn commit_spec(s: StateView) -> StateView {
    StateView { backup: None, ..s }
}

/// The state after `rollback`: the kept copy, if any, replaces the accounts.
pub open spec fn rollback_spec(s: StateView) -> StateView {
    match s.backup {
        Some(b) => StateView { accounts: b, backup: None, ..s },
        None => s,
    }
}

/// The state after `set_account` for each write in turn.
pub open spec fn set_all_spec(s: StateView, writes: Seq<(u64, Account)>) -> StateView
    decreases writes.len(),
{
    if writes.len() == 0 {
        s
    } else {
        let last = writes.last();
        set_spec(set_all_spec(s, writes.drop_last()), last.0, last.1)
    }
}

/// An account store with a one-level transaction.
pub trait StateBackend {
    /// The accounts by id.
    spec fn accounts_spec(&self) -> Map<u64, Account>;

    /// The accounts as the open transaction found them, if one is open.
    spec fn backup_spec(&self) -> Option<Map<u64, Account>>;

    /// The account under `id`, if there is one.
    fn get_account(&self, id: u64) -> (r: Option<Account>)
        ensures
            r == get_spec(self.accounts_spec(), id),
    ;

    /// Stores `account` under `id`, replacing any account there.
    fn set_account(&mut self, id: u64, account: Account)
        ensures
            final(self).accounts_spec() == old(self).accounts_spec().insert(id, account),
            final(self).backup_spec() == old(self).backup_spec(),
    ;

    /// The root of the state tree.
    fn root(&self) -> (r: Digest)
        ensures
            r@ == state_root_spec(self.accounts_spec()),
    ;

    /// Opens a transaction: keeps the current accounts aside.
    fn begin_transaction(&mut self)
        ensures
            final(self).accounts_spec() == old(self).accounts_spec(),
            final(self).backup_spec() == Some(old(self).accounts_spec()),
    ;

    /// Ends the open transaction, keeping its writes.
    fn commit(&mut self)
        ensures
            final(self).accounts_spec() == old(self).accounts_spec(),
            final(self).backup_spec() is None,
    ;

    /// Ends the open transaction, undoing its writes; without an open
    /// transaction the accounts stay as they are.
    fn rollback(&mut self)
        ensures
            final(self).accounts_spec() == (match old(self).backup_spec() {
                Some(b) => b,
                None => old(self).accounts_spec(),
            }),
            final(self).backup_spec() is None,
    ;
}

impl StateBackend for State {
    open spec fn accounts_spec(&self) -> Map<u64, Account> {
        self@.accounts
    }

    open spec fn backup_spec(&self) -> Option<Map<u64, Account>> {
        self@.backup
    }

    fn get_account(&self, id: u64) -> (r: Option<Account>) {
        match self.accounts.get(&id) {
            Some(acc) => Some(*acc),
            None => None,
        }
    }

    fn set_account(&mut self, id: u64, account: Account)
        ensures
            final(self)@ == set_spec(old(self)@, id, account),
    {
        self.accounts.insert(id, account);
    }

    fn root(&self) -> (r: Digest) {
        State::root(self)
    }

    fn begin_transaction(&mut self)
        ensures
            final(self)@ == begin_spec(old(self)@),
    {
        self.backup = Some(self.accounts.clone());
    }

    fn commit(&mut self)
        ensures
            final(self)@ == commit_spec(old(self)@),
    {
        self.backup = None;
    }

    fn rollback(&mut self)
        ensures
            final(self)@ == rollback_spec(old(self)@),
    {
        if let Some(backup) = self.backup.take() {
            self.accounts = backup;
        }
    }
}

/// A read after a write gives back what was written, and writes to other
/// ids leave an account as it was.
pub proof fn lemma_get_after_set(s: StateView, id: u64, acc: Account, other: u64)
    ensures
        get_spec(set_spec(s, id, acc).accounts, id) == Some(acc),
        other != id ==> get_spec(set_spec(s, id, acc).accounts, other) == get_spec(s.accounts, other),
{
}

/// Rolling back a transaction undoes every write made in it.
pub proof fn lemma_rollback_undoes_writes(s: StateView, writes: Seq<(u64, Account)>)
    ensures
        rollback_spec(set_all_spec(begin_spec(s), writes)).accounts == s.accounts,
        rollback_spec(set_all_spec(begin_spec(s), writes)).backup is None,
{
    lemma_writes_keep_backup(begin_spec(s), writes);
}

/// Committing a transaction keeps every write made in it.
pub proof fn lemma_commit_keeps_writes(s: StateView, writes: Seq<(u64, Account)>)
    ensures
        commit_spec(set_all_spec(begin_spec(s), writes)).accounts == set_all_spec(s, writes).accounts,
        commit_spec(set_all_spec(begin_spec(s), writes)).backup is None,
    decreases writes.len(),
{
    if writes.len() > 0 {
        lemma_commit_keeps_writes(s, writes.drop_last());
    }
}

proof fn lemma_writes_keep_backup(s: StateView, writes: Seq<(u64, Account)>)
    ensures
        set_all_spec(s, writes).backup == s.backup,
    decreases writes.len(),
{
    if writes.len() > 0 {
        lemma_writes_keep_backup(s, writes.drop_last());
    }
}

/// The root depends on the accounts alone, not on the order in which they
/// were written: writing two different ids in either order gives the same
/// root.
pub proof fn lemma_root_independent_of_write_order(
    accounts: Map<u64, Account>,
    id1: u64,
    acc1: Account,
    id2: u64,
    acc2: Account,
)
    requires
        id1 != id2,
    ensures
        state_root_spec(accounts.insert(id1, acc1).insert(id2, acc2)) == state_root_spec(
            accounts.insert(id2, acc2).insert(id1, acc1),
        ),
{
    assert(accounts.insert(id1, acc1).insert(id2, acc2) =~= accounts.insert(id2, acc2).insert(
        id1,
        acc1,
    ));
}

/// Every account proof verifies: for any accounts and any id, the proof
/// that `get_account_proof` gives verifies against the root that `root`
/// gives, with the account's digest as the leaf where the account exists
/// and 32 zero bytes where it does not.
pub proof fn lemma_account_proof_verifies(accounts: Map<u64, Account>, id: u64)
    ensures
        verify_spec(
            state_root_spec(accounts),
            id,
            account_leaf_of(accounts, id),
            proof_spec(leaf_map(accounts), id),
        ),
        accounts.contains_key(id) ==> account_leaf_of(accounts, id) == account_leaf(accounts[id]),
        !accounts.contains_key(id) ==> account_leaf_of(accounts, id) == zero_hash(),
{
    lemma_proof_verifies(leaf_map(accounts), id);
}

/// Writing an account leaves its proof as it was: the siblings on an
/// account's path cover every id but its own, so `get_account_proof(id)`
/// gives the same siblings before and after `set_account(id, acc)`.
pub proof fn lemma_proof_unchanged_by_own_write(accounts: Map<u64, Account>, id: u64, acc: Account)
    ensures
        proof_spec(leaf_map(accounts.insert(id, acc)), id) == proof_spec(leaf_map(accounts), id),
{
    let m1 = leaf_map(accounts.insert(id, acc));
    let m2 = leaf_map(accounts);
    assert forall|k: u64| k != id implies (#[trigger] m1.contains_key(k) == m2.contains_key(k) && (
    m1.contains_key(k) ==> m1[k] == m2[k])) by {
        assert(accounts.insert(id, acc).contains_key(k) == accounts.contains_key(k));
    }
    lemma_proof_ignores_own_leaf(m1, m2, id);
}

} // verus!
