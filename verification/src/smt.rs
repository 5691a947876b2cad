//! The 64-depth sparse Merkle tree over 64-bit keys: its root, inclusion
//! and non-membership proofs, and their verification.
//!
//! A subtree of height `d` covers the keys `prefix .. prefix + 2^d`; a leaf
//! is the digest stored under its key, or 32 zero bytes where no key is
//! stored; an inner node is `keccak256(left ++ right)`.

use vstd::prelude::*;
use vstd::arithmetic::power2::*;
use vstd::arithmetic::div_mod::*;
use vstd::arithmetic::mul::*;
use crate::keccak::{Digest, keccak256, hash_pair, hash_eq};

verus! {

/// `2^64`, the number of keys.
pub open spec fn key_space() -> int {
    0x10000000000000000
}

/// 32 zero bytes: the leaf of an absent key.
pub open spec fn zero_hash() -> Seq<u8> {
    Seq::new(32, |i: int| 0u8)
}

/// The root of a subtree of height `depth` that holds no key.
pub open spec fn empty_hash_spec(depth: nat) -> Seq<u8>
    decreases depth,
{
    if depth == 0 {
        zero_hash()
    } else {
        keccak256(empty_hash_spec((depth - 1) as nat) + empty_hash_spec((depth - 1) as nat))
    }
}

/// The root of the subtree of height `depth` over the keys
/// `prefix .. prefix + 2^depth`, where `leaves` maps each stored key to
/// its leaf digest.
pub open spec fn subtree_root(leaves: Map<u64, Seq<u8>>, depth: nat, prefix: int) -> Seq<u8>
    decreases depth,
{
    if depth == 0 {
        if leaves.contains_key(prefix as u64) {
            leaves[prefix as u64]
        } else {
            zero_hash()
        }
    } else {
        keccak256(
            subtree_root(leaves, (depth - 1) as nat, prefix) + subtree_root(
                leaves,
                (depth - 1) as nat,
                prefix + pow2((depth - 1) as nat),
            ),
        )
    }
}

/// The root of the whole tree.
pub open spec fn tree_root(leaves: Map<u64, Seq<u8>>) -> Seq<u8> {
    subtree_root(leaves, 64, 0)
}

/// The first key of the height-`d` subtree that holds `key`.
pub open spec fn prefix_at(key: u64, d: nat) -> int {
    (key as int / pow2(d) as int) * pow2(d) as int
}

/// Bit `d` of `key` (0 or 1): on which side of its height-`d + 1` subtree
/// the key lies.
pub open spec fn bit_of(key: u64, d: nat) -> int {
    (key as int / pow2(d) as int) % 2
}

/// The first key of the sibling of the height-`d` subtree that holds `key`.
pub open spec fn sibling_prefix(key: u64, d: nat) -> int {
    if bit_of(key, d) == 1 {
        prefix_at(key, d + 1)
    } else {
        prefix_at(key, d + 1) + pow2(d)
    }
}

/// The siblings on the path from `key` to the root, the one nearest the
/// root first: entry `63 - d` is the sibling of height `d`.
pub open spec fn proof_spec(leaves: Map<u64, Seq<u8>>, key: u64) -> Seq<Seq<u8>> {
    Seq::new(64, |i: int| subtree_root(leaves, (63 - i) as nat, sibling_prefix(key, (63 - i) as nat)))
}

/// The digest reached from `leaf` after combining it with the first `n`
/// siblings, nearest the leaf first.
pub open spec fn proof_fold(key: u64, leaf: Seq<u8>, proof: Seq<Seq<u8>>, n: nat) -> Seq<u8>
    decreases n,
{
    if n == 0 {
        leaf
    } else {
        let cur = proof_fold(key, leaf, proof, (n - 1) as nat);
        let sibling = proof[63 - (n - 1)];
        if bit_of(key, (n - 1) as nat) == 1 {
            keccak256(sibling + cur)
        } else {
            keccak256(cur + sibling)
        }
    }
}

/// Whether `proof` shows that `leaf` is the leaf under `key` in the tree
/// with root `root`: it has 64 siblings and folding them from the leaf
/// reaches the root.
pub open spec fn verify_spec(root: Seq<u8>, key: u64, leaf: Seq<u8>, proof: Seq<Seq<u8>>) -> bool {
    proof.len() == 64 && proof_fold(key, leaf, proof, 64) == root
}

/// The digests of a sequence of hashes.
pub open spec fn hashes_view(hs: Seq<Digest>) -> Seq<Seq<u8>> {
    hs.map_values(|h: Digest| h@)
}

/// Keys strictly increase along the sequence.
pub open spec fn sorted_by_key(s: Seq<(u64, Digest)>) -> bool {
    forall|i: int, j: int| 0 <= i < j < s.len() ==> s[i].0 < s[j].0
}

/// `s` lists exactly the entries of `leaves` whose keys lie in `lo .. hi`.
pub open spec fn represents(s: Seq<(u64, Digest)>, leaves: Map<u64, Seq<u8>>, lo: int, hi: int) -> bool {
    &&& forall|i: int|
        0 <= i < s.len() ==> lo <= #[trigger] s[i].0 < hi && leaves.contains_key(s[i].0)
            && leaves[s[i].0] == s[i].1@
    &&& forall|k: u64|
        lo <= k < hi && #[trigger] leaves.contains_key(k) ==> exists|i: int|
            0 <= i < s.len() && #[trigger] s[i].0 == k
}

/// `t[d]` is the empty-subtree root of height `d`, for `d` up to 64.
pub open spec fn empty_table(t: Seq<Digest>) -> bool {
    t.len() == 65 && forall|d: int| 0 <= d <= 64 ==> #[trigger] t[d]@ == empty_hash_spec(d as nat)
}

proof fn lemma_pow2_64()
    ensures
        pow2(64) == key_space(),
        pow2(63) == 0x8000000000000000,
{
    lemma2_to64_rest();
}

/// A subtree that holds no key has the empty root of its height.
pub proof fn lemma_empty_subtree(leaves: Map<u64, Seq<u8>>, depth: nat, prefix: int)
    requires
        0 <= prefix,
        prefix + pow2(depth) <= key_space(),
        forall|k: u64| prefix <= k < prefix + pow2(depth) ==> !#[trigger] leaves.contains_key(k),
    ensures
        subtree_root(leaves, depth, prefix) == empty_hash_spec(depth),
    decreases depth,
{
    if depth == 0 {
        lemma2_to64();
        assert(zero_hash() =~= zero_hash());
        let k = prefix as u64;
        assert(prefix <= k < prefix + pow2(0));
    } else {
        let h = pow2((depth - 1) as nat);
        lemma_pow2_unfold(depth);
        lemma_pow2_pos((depth - 1) as nat);
        lemma_empty_subtree(leaves, (depth - 1) as nat, prefix);
        lemma_empty_subtree(leaves, (depth - 1) as nat, prefix + h);
    }
}

/// The start of the height-`d` subtree of `key` is that of its
/// height-`d + 1` subtree, plus `2^d` where bit `d` of the key is set.
pub proof fn lemma_prefix_split(key: u64, d: nat)
    ensures
        bit_of(key, d) == 1 ==> prefix_at(key, d) == prefix_at(key, d + 1) + pow2(d),
        bit_of(key, d) == 0 ==> prefix_at(key, d) == prefix_at(key, d + 1),
        bit_of(key, d) == 0 || bit_of(key, d) == 1,
{
    let t = key as int;
    let p = pow2(d) as int;
    lemma_pow2_pos(d);
    lemma_pow2_unfold(d + 1);
    assert(pow2(d + 1) == 2 * p);
    let q = t / p;
    lemma_div_denominator(t, p, 2);
    assert(t / (p * 2) == q / 2);
    assert(t / (pow2(d + 1) as int) == q / 2) by {
        assert(pow2(d + 1) as int == p * 2);
    }
    lemma_fundamental_div_mod(q, 2);
    assert(q == 2 * (q / 2) + q % 2);
    assert(q * p == (q / 2) * (2 * p) + (q % 2) * p) by (nonlinear_arith)
        requires
            q == 2 * (q / 2) + q % 2,
    ;
}

/// A key lies in its own height-`d` subtree.
pub proof fn lemma_prefix_range(key: u64, d: nat)
    ensures
        0 <= prefix_at(key, d) <= key < prefix_at(key, d) + pow2(d),
{
    let t = key as int;
    let p = pow2(d) as int;
    lemma_pow2_pos(d);
    lemma_fundamental_div_mod(t, p);
    lemma_mod_bound(t, p);
    lemma_div_pos_is_pos(t, p);
    lemma_mul_nonnegative(t / p, p);
    assert(t == p * (t / p) + t % p);
    assert((t / p) * p == p * (t / p)) by (nonlinear_arith);
}

/// Every key lies in the one subtree of height 64, and alone in its
/// subtree of height 0.
pub proof fn lemma_prefix_ends(key: u64)
    ensures
        prefix_at(key, 64) == 0,
        prefix_at(key, 0) == key,
{
    lemma_pow2_64();
    lemma2_to64();
    assert(key as int / pow2(64) as int == 0) by {
        lemma_basic_div(key as int, pow2(64) as int);
    }
}

/// The bit test the code performs, `key & (1 << d) != 0`, is bit `d`.
pub proof fn lemma_bit_test(key: u64, d: u64)
    requires
        d < 64,
    ensures
        ((key & (1u64 << d)) != 0) == (bit_of(key, d as nat) == 1),
{
    assert(((key & (1u64 << d)) != 0) == (((key >> d) & 1) == 1)) by (bit_vector)
        requires
            d < 64,
    ;
    let s = key >> d;
    assert((s & 1) == s % 2) by (bit_vector);
    vstd::bits::lemma_u64_shr_is_div(key, d);
}

proof fn lemma_shl_one(d: u64)
    requires
        d < 64,
    ensures
        (1u64 << d) == pow2(d as nat),
{
    vstd::bits::lemma_u64_pow2_no_overflow(d as nat);
    vstd::bits::lemma_u64_shl_is_mul(1u64, d);
}

/// The roots of the empty subtrees of heights 0 to 64.
fn empty_hashes() -> (t: Vec<Digest>)
    ensures
        empty_table(t@),
{
    let mut t: Vec<Digest> = Vec::new();
    let zero: Digest = [0u8; 32];
    assert(zero@ =~= zero_hash());
    t.push(zero);
    for d in 1..65
        invariant
            t@.len() == d,
            forall|i: int| 0 <= i < d ==> #[trigger] t@[i]@ == empty_hash_spec(i as nat),
    {
        let prev = t[d - 1];
        let next = hash_pair(&prev, &prev);
        t.push(next);
    }
    t
}

/// The root of an empty subtree of height `depth`.
pub fn get_empty_hash(depth: usize) -> (h: Digest)
    requires
        depth <= 64,
    ensures
        h@ == empty_hash_spec(depth as nat),
{
    let mut cur: Digest = [0u8; 32];
    assert(cur@ =~= zero_hash());
    for d in 0..depth
        invariant
            cur@ == empty_hash_spec(d as nat),
    {
        cur = hash_pair(&cur, &cur);
    }
    cur
}

/// The number of leading entries whose key is below `key`, where the
/// entries are sorted; on unsorted entries some index up to their number.
pub(crate) fn lower_bound_keys(leaves: &[(u64, Digest)], key: u64) -> (idx: usize)
    ensures
        idx <= leaves@.len(),
        sorted_by_key(leaves@) ==> forall|i: int| 0 <= i < idx ==> #[trigger] leaves@[i].0 < key,
        sorted_by_key(leaves@) ==> forall|i: int|
            idx <= i < leaves@.len() ==> #[trigger] leaves@[i].0 >= key,
{
    let mut lo: usize = 0;
    let mut hi: usize = leaves.len();
    while lo < hi
        invariant
            lo <= hi <= leaves@.len(),
            sorted_by_key(leaves@) ==> forall|i: int| 0 <= i < lo ==> #[trigger] leaves@[i].0 < key,
            sorted_by_key(leaves@) ==> forall|i: int|
                hi <= i < leaves@.len() ==> #[trigger] leaves@[i].0 >= key,
        decreases hi - lo,
    {
        let mid = lo + (hi - lo) / 2;
        if leaves[mid].0 < key {
            lo = mid + 1;
        } else {
            hi = mid;
        }
    }
    lo
}

proof fn lemma_split_represents(
    s: Seq<(u64, Digest)>,
    leaves: Map<u64, Seq<u8>>,
    lo: int,
    mid: int,
    hi: int,
    idx: int,
)
    requires
        sorted_by_key(s),
        represents(s, leaves, lo, hi),
        lo <= mid <= hi,
        0 <= idx <= s.len(),
        forall|i: int| 0 <= i < idx ==> #[trigger] s[i].0 < mid,
        forall|i: int| idx <= i < s.len() ==> #[trigger] s[i].0 >= mid,
    ensures
        represents(s.subrange(0, idx), leaves, lo, mid),
        represents(s.subrange(idx, s.len() as int), leaves, mid, hi),
        sorted_by_key(s.subrange(0, idx)),
        sorted_by_key(s.subrange(idx, s.len() as int)),
{
    let l = s.subrange(0, idx);
    let r = s.subrange(idx, s.len() as int);
    assert forall|k: u64| lo <= k < mid && #[trigger] leaves.contains_key(k) implies exists|i: int|
        0 <= i < l.len() && #[trigger] l[i].0 == k by {
        let i = choose|i: int| 0 <= i < s.len() && #[trigger] s[i].0 == k;
        assert(i < idx);
        assert(l[i].0 == k);
    }
    assert forall|k: u64| mid <= k < hi && #[trigger] leaves.contains_key(k) implies exists|i: int|
        0 <= i < r.len() && #[trigger] r[i].0 == k by {
        let i = choose|i: int| 0 <= i < s.len() && #[trigger] s[i].0 == k;
        assert(i >= idx);
        assert(r[i - idx].0 == k);
    }
    assert forall|i: int| 0 <= i < l.len() implies lo <= #[trigger] l[i].0 < mid && leaves.contains_key(
        l[i].0,
    ) && leaves[l[i].0] == l[i].1@ by {
        assert(l[i] == s[i]);
    }
    assert forall|i: int| 0 <= i < r.len() implies mid <= #[trigger] r[i].0 < hi
        && leaves.contains_key(r[i].0) && leaves[r[i].0] == r[i].1@ by {
        assert(r[i] == s[i + idx]);
    }
}

/// A subtree of height `depth` may start at `prefix`: the prefix is a
/// multiple of `2^depth` and the subtree ends within the key space.
pub open spec fn aligned_subtree(prefix: int, depth: nat) -> bool {
    &&& 0 <= prefix
    &&& prefix % pow2(depth) as int == 0
    &&& prefix + pow2(depth) <= key_space()
}

/// `leaves` are the sorted entries of `m` that lie in the subtree of
/// height `depth` starting at `prefix`.
pub open spec fn holds_subtree(
    leaves: Seq<(u64, Digest)>,
    m: Map<u64, Seq<u8>>,
    depth: nat,
    prefix: int,
) -> bool {
    &&& aligned_subtree(prefix, depth)
    &&& sorted_by_key(leaves)
    &&& represents(leaves, m, prefix, prefix + pow2(depth))
}

/// The first key of the height-`d` subtree on the path to `key` inside the
/// subtree of height `depth` starting at `prefix`: the path follows bits
/// `depth - 1` down to `d` of the key.
pub open spec fn path_prefix(prefix: int, depth: nat, key: u64, d: nat) -> int {
    prefix + ((key as int % pow2(depth) as int) / pow2(d) as int) * pow2(d) as int
}

/// The first key of the sibling of the height-`d` subtree on the path to
/// `key` inside the subtree of height `depth` starting at `prefix`.
pub open spec fn path_sibling(prefix: int, depth: nat, key: u64, d: nat) -> int {
    if bit_of(key, d) == 1 {
        path_prefix(prefix, depth, key, d + 1)
    } else {
        path_prefix(prefix, depth, key, d + 1) + pow2(d)
    }
}

/// The halves of an aligned subtree are aligned, and the upper half
/// starts at `prefix | 2^(depth - 1)`, which is `prefix + 2^(depth - 1)`.
proof fn lemma_aligned_halves(prefix: u64, k: u64)
    requires
        k < 64,
        aligned_subtree(prefix as int, (k + 1) as nat),
    ensures
        (prefix | (1u64 << k)) == prefix + pow2(k as nat),
        aligned_subtree(prefix as int, k as nat),
        aligned_subtree(prefix + pow2(k as nat), k as nat),
{
    let a = pow2(k as nat) as int;
    let p = prefix as int;
    lemma_pow2_pos(k as nat);
    lemma_pow2_unfold((k + 1) as nat);
    assert(pow2((k + 1) as nat) as int == a * 2);
    lemma_mod_breakdown(p, a, 2);
    lemma_mod_mod(p, a, 2);
    assert(p % a == 0);
    lemma_mod_bound(p / a, 2);
    assert(a * ((p / a) % 2) == 0);
    assert((p / a) % 2 == 0) by (nonlinear_arith)
        requires
            a * ((p / a) % 2) == 0,
            a > 0,
    ;
    lemma_bit_test(prefix, k);
    lemma_shl_one(k);
    let mask: u64 = 1u64 << k;
    assert((prefix & mask) == 0);
    assert((prefix | mask) == prefix + mask) by (bit_vector)
        requires
            (prefix & mask) == 0,
    ;
    lemma_mod_add_multiples_vanish(p, a);
}

/// One level down the path: the path inside the child subtree on the key's
/// side is the path inside the parent.
proof fn lemma_path_prefix_step(prefix: int, k: nat, key: u64, j: nat)
    requires
        j <= k,
    ensures
        bit_of(key, k) == 1 ==> path_prefix(prefix + pow2(k), k, key, j) == path_prefix(
            prefix,
            k + 1,
            key,
            j,
        ),
        bit_of(key, k) == 0 ==> path_prefix(prefix, k, key, j) == path_prefix(prefix, k + 1, key, j),
        path_prefix(prefix, k + 1, key, k + 1) == prefix,
{
    let x = key as int;
    let a = pow2(k) as int;
    let c = pow2(j) as int;
    let e = pow2((k - j) as nat) as int;
    let r = x % a;
    let b = bit_of(key, k);
    lemma_pow2_pos(k);
    lemma_pow2_pos(j);
    lemma_pow2_pos((k - j) as nat);
    lemma_pow2_unfold(k + 1);
    assert(pow2(k + 1) as int == a * 2);
    lemma_pow2_adds((k - j) as nat, j);
    assert(((k - j) as nat) + j == k);
    assert(e * c == a);
    lemma_mod_breakdown(x, a, 2);
    assert(x % pow2(k + 1) as int == a * b + r);
    lemma_mod_bound(x, a);
    lemma_mod_bound(x / a, 2);
    lemma_mod_bound(x, pow2(k + 1) as int);
    lemma_basic_div(x % pow2(k + 1) as int, pow2(k + 1) as int);
    lemma_prefix_split(key, k);
    if b == 1 {
        lemma_hoist_over_denominator(r, e, c as nat);
        assert((r + e * c) / c == r / c + e);
        assert(((r / c) + e) * c == (r / c) * c + a) by (nonlinear_arith)
            requires
                e * c == a,
        ;
        assert(a * b + r == r + e * c);
    } else {
        assert(a * b + r == r);
    }
}

/// The root of the subtree of height `depth` starting at `prefix`, given
/// the leaves that lie in it.
fn compute_subtree_root(
    leaves: &[(u64, Digest)],
    depth: usize,
    prefix: u64,
    empty: &Vec<Digest>,
    Ghost(m): Ghost<Map<u64, Seq<u8>>>,
) -> (root: Digest)
    requires
        depth <= 64,
        empty_table(empty@),
    ensures
        leaves@.len() == 0 ==> root@ == empty_hash_spec(depth as nat),
        leaves@.len() > 0 && depth == 0 ==> root == leaves@[0].1,
        holds_subtree(leaves@, m, depth as nat, prefix as int) ==> root@ == subtree_root(
            m,
            depth as nat,
            prefix as int,
        ),
    decreases depth,
{
    if leaves.len() == 0 {
        proof {
            if holds_subtree(leaves@, m, depth as nat, prefix as int) {
                lemma_empty_subtree(m, depth as nat, prefix as int);
            }
        }
        return empty[depth];
    }
    if depth == 0 {
        proof {
            lemma2_to64();
            if holds_subtree(leaves@, m, depth as nat, prefix as int) {
                assert(leaves@[0].0 == prefix);
            }
        }
        return leaves[0].1;
    }
    let k: u64 = (depth - 1) as u64;
    proof {
        lemma_shl_one(k);
        lemma_pow2_unfold(depth as nat);
        lemma_pow2_pos(k as nat);
    }
    let bit_mask: u64 = 1u64 << k;
    let mid: u64 = prefix | bit_mask;
    let partition_idx = lower_bound_keys(leaves, mid);
    let left_leaves = &leaves[0..partition_idx];
    let right_leaves = &leaves[partition_idx..leaves.len()];
    proof {
        if holds_subtree(leaves@, m, depth as nat, prefix as int) {
            assert((k + 1) as nat == depth as nat);
            lemma_aligned_halves(prefix, k);
            lemma_split_represents(
                leaves@,
                m,
                prefix as int,
                mid as int,
                prefix + pow2(depth as nat),
                partition_idx as int,
            );
            assert(left_leaves@ == leaves@.subrange(0, partition_idx as int));
            assert(right_leaves@ == leaves@.subrange(partition_idx as int, leaves@.len() as int));
        }
    }
    let left_root = compute_subtree_root(left_leaves, depth - 1, prefix, empty, Ghost(m));
    let right_root = compute_subtree_root(right_leaves, depth - 1, mid, empty, Ghost(m));
    hash_pair(&left_root, &right_root)
}

/// Pushes onto `proof` the siblings on the path to `target_key` down
/// through the subtree of height `depth` starting at `prefix`, the one
/// nearest the root first: at each level the path takes the side that the
/// key's bit for that level names.
fn compute_subtree_proof(
    leaves: &[(u64, Digest)],
    depth: usize,
    prefix: u64,
    target_key: u64,
    proof: &mut Vec<Digest>,
    empty: &Vec<Digest>,
    Ghost(m): Ghost<Map<u64, Seq<u8>>>,
)
    requires
        depth <= 64,
        empty_table(empty@),
    ensures
        final(proof)@.len() == old(proof)@.len() + depth,
        final(proof)@.subrange(0, old(proof)@.len() as int) == old(proof)@,
        leaves@.len() == 0 ==> forall|d: int|
            0 <= d < depth ==> (#[trigger] final(proof)@[old(proof)@.len() + depth - 1 - d])@
                == empty_hash_spec(d as nat),
        holds_subtree(leaves@, m, depth as nat, prefix as int) ==> forall|d: int|
            0 <= d < depth ==> (#[trigger] final(proof)@[old(proof)@.len() + depth - 1 - d])@
                == subtree_root(m, d as nat, path_sibling(prefix as int, depth as nat, target_key, d as nat)),
    decreases depth,
{
    if depth == 0 {
        proof {
            assert(proof@.subrange(0, proof@.len() as int) =~= proof@);
        }
        return;
    }
    let k: u64 = (depth - 1) as u64;
    proof {
        lemma_shl_one(k);
        lemma_pow2_unfold(depth as nat);
        lemma_pow2_pos(k as nat);
        lemma_bit_test(target_key, k);
        lemma_prefix_split(target_key, k as nat);
    }
    let bit_mask: u64 = 1u64 << k;
    let target_bit = (target_key & bit_mask) != 0;
    let mid: u64 = prefix | bit_mask;
    let partition_idx = lower_bound_keys(leaves, mid);
    let left_leaves = &leaves[0..partition_idx];
    let right_leaves = &leaves[partition_idx..leaves.len()];
    let ghost holds = holds_subtree(leaves@, m, depth as nat, prefix as int);
    proof {
        assert((k + 1) as nat == depth as nat);
        if holds {
            lemma_aligned_halves(prefix, k);
            lemma_split_represents(
                leaves@,
                m,
                prefix as int,
                mid as int,
                prefix + pow2(depth as nat),
                partition_idx as int,
            );
            assert(left_leaves@ == leaves@.subrange(0, partition_idx as int));
            assert(right_leaves@ == leaves@.subrange(partition_idx as int, leaves@.len() as int));
        }
    }
    let ghost before = proof@;
    if target_bit {
        let sibling_hash = compute_subtree_root(left_leaves, depth - 1, prefix, empty, Ghost(m));
        proof.push(sibling_hash);
        compute_subtree_proof(right_leaves, depth - 1, mid, target_key, proof, empty, Ghost(m));
    } else {
        let sibling_hash = compute_subtree_root(right_leaves, depth - 1, mid, empty, Ghost(m));
        proof.push(sibling_hash);
        compute_subtree_proof(left_leaves, depth - 1, prefix, target_key, proof, empty, Ghost(m));
    }
    proof {
        let n: int = before.len() as int;
        assert forall|i: int| 0 <= i < n implies proof@[i] == before[i] by {
            assert(proof@.subrange(0, n + 1)[i] == proof@[i]);
            assert(before.push(proof@[n])[i] == before[i]);
        }
        assert(proof@.subrange(0, n) =~= before);
        assert(proof@[n] == proof@.subrange(0, n + 1)[n]);
        assert(proof@[n] == proof@[n + depth - 1 - k]);
        if holds {
            assert forall|d: int| 0 <= d < depth implies (#[trigger] proof@[n + depth - 1 - d])@
                == subtree_root(m, d as nat, path_sibling(prefix as int, depth as nat, target_key, d as nat)) by {
                if d < k {
                    lemma_path_prefix_step(prefix as int, k as nat, target_key, (d + 1) as nat);
                } else {
                    lemma_path_prefix_step(prefix as int, k as nat, target_key, k as nat);
                }
            }
        }
    }
}

/// Whether `proof` shows that `account_hash` is the leaf under `id` in the
/// tree with root `root`: it must hold 64 siblings, the one nearest the
/// root first, and hashing the leaf up with them must reach the root.
pub fn verify_account_proof(root: Digest, id: u64, account_hash: Digest, proof: &[Digest]) -> (valid: bool)
    ensures
        valid == verify_spec(root@, id, account_hash@, hashes_view(proof@)),
{
    if proof.len() != 64 {
        return false;
    }
    let ghost pv = hashes_view(proof@);
    let mut current = account_hash;
    for depth in 0..64
        invariant
            proof@.len() == 64,
            pv == hashes_view(proof@),
            current@ == proof_fold(id, account_hash@, pv, depth as nat),
    {
        proof {
            lemma_bit_test(id, depth as u64);
        }
        let bit_mask: u64 = 1u64 << (depth as u64);
        let target_bit = (id & bit_mask) != 0;
        let sibling = proof[63 - depth];
        assert(sibling@ == pv[63 - depth]);
        if target_bit {
            current = hash_pair(&sibling, &current);
        } else {
            current = hash_pair(&current, &sibling);
        }
    }
    hash_eq(&current, &root)
}

/// Folding the siblings that `proof_spec` lists up from the leaf of `key`
/// reaches, after `n` levels, the root of the key's subtree of height `n`.
pub proof fn lemma_fold_reaches_subtree(leaves: Map<u64, Seq<u8>>, key: u64, n: nat)
    requires
        n <= 64,
    ensures
        proof_fold(key, subtree_root(leaves, 0, key as int), proof_spec(leaves, key), n)
            == subtree_root(leaves, n, prefix_at(key, n)),
    decreases n,
{
    if n == 0 {
        lemma_prefix_ends(key);
    } else {
        let d = (n - 1) as nat;
        lemma_fold_reaches_subtree(leaves, key, d);
        lemma_prefix_split(key, d);
        let p = prefix_at(key, n);
        let h = pow2(d) as int;
        assert(d + 1 == n);
        assert(prefix_at(key, d + 1) == p);
        assert(proof_spec(leaves, key)[63 - d] == subtree_root(leaves, d, sibling_prefix(key, d)));
        if bit_of(key, d) == 1 {
            assert(prefix_at(key, d) == p + h);
            assert(sibling_prefix(key, d) == p);
        } else {
            assert(prefix_at(key, d) == p);
            assert(sibling_prefix(key, d) == p + h);
        }
    }
}

/// Completeness of the proofs: for every tree and every key, the siblings
/// that `proof_spec` lists verify the key's leaf (its digest, or 32 zero
/// bytes where the key is absent) against the tree's root.
pub proof fn lemma_proof_verifies(leaves: Map<u64, Seq<u8>>, key: u64)
    ensures
        verify_spec(tree_root(leaves), key, subtree_root(leaves, 0, key as int), proof_spec(leaves, key)),
{
    lemma_fold_reaches_subtree(leaves, key, 64);
    lemma_prefix_ends(key);
}

/// A subtree's root depends only on the leaves of the keys inside it: two
/// maps that agree on the keys `prefix .. prefix + 2^depth` give the same
/// root there.
pub proof fn lemma_subtree_root_local(
    m1: Map<u64, Seq<u8>>,
    m2: Map<u64, Seq<u8>>,
    depth: nat,
    prefix: int,
)
    requires
        0 <= prefix,
        prefix + pow2(depth) <= key_space(),
        forall|k: u64|
            prefix <= k < prefix + pow2(depth) ==> (#[trigger] m1.contains_key(k) == m2.contains_key(k)
                && (m1.contains_key(k) ==> m1[k] == m2[k])),
    ensures
        subtree_root(m1, depth, prefix) == subtree_root(m2, depth, prefix),
    decreases depth,
{
    if depth == 0 {
        lemma2_to64();
        let k = prefix as u64;
        assert(prefix <= k < prefix + pow2(0));
        assert(m1.contains_key(k) == m2.contains_key(k));
    } else {
        let h = pow2((depth - 1) as nat);
        lemma_pow2_unfold(depth);
        lemma_pow2_pos((depth - 1) as nat);
        lemma_subtree_root_local(m1, m2, (depth - 1) as nat, prefix);
        lemma_subtree_root_local(m1, m2, (depth - 1) as nat, prefix + h);
    }
}

/// The sibling of height `d` on the path of `key` does not hold the key.
proof fn lemma_sibling_excludes_key(key: u64, d: nat)
    requires
        d < 64,
    ensures
        0 <= sibling_prefix(key, d),
        sibling_prefix(key, d) + pow2(d) <= key_space(),
        !(sibling_prefix(key, d) <= key < sibling_prefix(key, d) + pow2(d)),
{
    lemma_prefix_split(key, d);
    lemma_prefix_range(key, d);
    lemma_prefix_range(key, d + 1);
    lemma_pow2_unfold(d + 1);
    lemma_pow2_pos(d);
    lemma_pow2_64();
    let p1 = prefix_at(key, d + 1);
    assert(p1 <= key < p1 + pow2(d + 1));
    assert(p1 % pow2(d + 1) as int == 0) by {
        lemma_mod_multiples_basic(key as int / pow2(d + 1) as int, pow2(d + 1) as int);
    }
    assert(p1 + pow2(d + 1) <= key_space()) by {
        lemma_pow2_adds((64 - (d + 1)) as nat, d + 1);
        assert(((64 - (d + 1)) as nat) + (d + 1) == 64);
        let q = key as int / pow2(d + 1) as int;
        let c = pow2(d + 1) as int;
        let e = pow2((64 - (d + 1)) as nat) as int;
        assert(e * c == key_space());
        assert(q * c <= key < key_space());
        assert(q < e) by (nonlinear_arith)
            requires
                q * c < e * c,
                c > 0,
        ;
        assert((q + 1) * c <= e * c) by (nonlinear_arith)
            requires
                q + 1 <= e,
                c > 0,
        ;
        assert((q + 1) * c == q * c + c) by (nonlinear_arith);
        assert(p1 == q * c);
    }
}

/// A proof does not depend on the leaf it proves: two maps that agree on
/// every key but `key` give the same siblings for `key`.
pub proof fn lemma_proof_ignores_own_leaf(m1: Map<u64, Seq<u8>>, m2: Map<u64, Seq<u8>>, key: u64)
    requires
        forall|k: u64|
            k != key ==> (#[trigger] m1.contains_key(k) == m2.contains_key(k) && (m1.contains_key(k)
                ==> m1[k] == m2[k])),
    ensures
        proof_spec(m1, key) == proof_spec(m2, key),
{
    assert forall|i: int| 0 <= i < 64 implies #[trigger] proof_spec(m1, key)[i] == proof_spec(m2, key)[i] by {
        let d = (63 - i) as nat;
        lemma_sibling_excludes_key(key, d);
        lemma_subtree_root_local(m1, m2, d, sibling_prefix(key, d));
    }
    assert(proof_spec(m1, key) =~= proof_spec(m2, key));
}

/// Folding any leaf up the proof of `key` gives the root of the tree with
/// that leaf placed under `key`.
pub proof fn lemma_fold_places_leaf(leaves: Map<u64, Seq<u8>>, key: u64, leaf: Seq<u8>)
    ensures
        proof_fold(key, leaf, proof_spec(leaves, key), 64) == tree_root(leaves.insert(key, leaf)),
{
    let m2 = leaves.insert(key, leaf);
    lemma_fold_reaches_subtree(m2, key, 64);
    lemma_prefix_ends(key);
    lemma2_to64();
    assert(subtree_root(m2, 0, key as int) == leaf);
    lemma_proof_ignores_own_leaf(m2, leaves, key);
}

/// What a verification against the tree's own proof decides: a leaf
/// verifies for `key` exactly when placing it under `key` leaves the
/// tree's root as it is. In general a leaf verifies only when hashing it
/// up the 64 siblings under `key` reaches the root.
pub proof fn lemma_verify_is_root_check(
    leaves: Map<u64, Seq<u8>>,
    key: u64,
    leaf: Seq<u8>,
    root: Seq<u8>,
    proof: Seq<Seq<u8>>,
)
    ensures
        verify_spec(tree_root(leaves), key, leaf, proof_spec(leaves, key)) <==> tree_root(
            leaves.insert(key, leaf),
        ) == tree_root(leaves),
        verify_spec(root, key, leaf, proof) ==> proof.len() == 64 && proof_fold(key, leaf, proof, 64)
            == root,
{
    lemma_fold_places_leaf(leaves, key, leaf);
}

/// The root of the whole tree, given its leaves sorted by key.
pub(crate) fn tree_root_of(leaves: &[(u64, Digest)], Ghost(m): Ghost<Map<u64, Seq<u8>>>) -> (root: Digest)
    requires
        sorted_by_key(leaves@),
        represents(leaves@, m, 0, key_space()),
    ensures
        root@ == tree_root(m),
{
    proof {
        lemma_pow2_64();
    }
    let empty = empty_hashes();
    compute_subtree_root(leaves, 64, 0, &empty, Ghost(m))
}

/// The siblings on the path from `key` to the root, nearest the root
/// first, given the tree's leaves sorted by key.
pub(crate) fn tree_proof_of(
    leaves: &[(u64, Digest)],
    key: u64,
    Ghost(m): Ghost<Map<u64, Seq<u8>>>,
) -> (proof: Vec<Digest>)
    requires
        sorted_by_key(leaves@),
        represents(leaves@, m, 0, key_space()),
    ensures
        hashes_view(proof@) == proof_spec(m, key),
        proof@.len() == 64,
{
    proof {
        lemma_pow2_64();
        lemma_prefix_ends(key);
    }
    let empty = empty_hashes();
    let mut proof: Vec<Digest> = Vec::new();
    compute_subtree_proof(leaves, 64, 0, key, &mut proof, &empty, Ghost(m));
    assert(hashes_view(proof@) =~= proof_spec(m, key)) by {
        assert forall|i: int| 0 <= i < 64 implies #[trigger] hashes_view(proof@)[i] == proof_spec(m, key)[i] by {
            let d = 63 - i;
            assert(proof@[0 + 64 - 1 - d] == proof@[i]);
        }
    }
    proof
}

} // verus!
