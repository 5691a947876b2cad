//! Arithmetic over the Goldilocks field (p = 2^64 - 2^32 + 1): the
//! multiplicative inverse by Fermat exponentiation and the 4-round
//! Poseidon hash used by the VM's `Poseidon` and `VerifyMerkle` opcodes.

use vstd::prelude::*;
use vstd::arithmetic::power::*;
use vstd::arithmetic::div_mod::*;

verus! {

/// The Goldilocks prime.
pub const GOLDILOCKS_P: u64 = 18446744069414584321;

/// `v^(p-2) mod p`, the inverse of `v` in the field when `v` is not a
/// multiple of `p`; 0 for `v == 0`.
pub open spec fn inverse_spec(v: u64) -> int {
    if v == 0 {
        0
    } else {
        pow(v as int, (GOLDILOCKS_P - 2) as nat) % (GOLDILOCKS_P as int)
    }
}

/// One step of square-and-multiply keeps `res * base^e (mod p)`.
proof fn lemma_square_multiply_step(res: int, base: int, e: nat, p: int)
    requires
        p > 0,
    ensures
        ((if e % 2 == 1 { res * base % p } else { res }) * pow(base * base % p, e / 2)) % p == (res
            * pow(base, e)) % p,
{
    let q: nat = e / 2;
    let r: nat = e % 2;
    assert(e == 2 * q + r);
    lemma_pow_adds(base, 2 * q, r);
    lemma_pow_multiplies(base, 2, q);
    lemma_square_is_pow2(base);
    lemma_pow_mod_noop(base * base, q, p);
    let bb = base * base;
    let y = pow(bb % p, q);
    assert(pow(base, 2 * q) == pow(bb, q));
    if r == 1 {
        lemma_pow1(base);
        let x = res * base;
        lemma_mul_mod_noop_left(x, y, p);
        lemma_mul_mod_noop_right(x, y, p);
        lemma_mul_mod_noop_right(x, pow(bb, q), p);
        assert(pow(base, e) == pow(bb, q) * base);
        assert(x * pow(bb, q) == res * pow(base, e)) by (nonlinear_arith)
            requires
                x == res * base,
                pow(base, e) == pow(bb, q) * base,
        ;
    } else {
        lemma_pow0(base);
        assert(pow(base, e) == pow(bb, q));
        lemma_mul_mod_noop_right(res, y, p);
        lemma_mul_mod_noop_right(res, pow(bb, q), p);
    }
}

/// The inverse of `val` in the Goldilocks field, computed as
/// `val^(p-2) mod p` by square-and-multiply; 0 maps to 0.
pub fn field_inverse_goldilocks(val: u64) -> (r: u64)
    ensures
        r == inverse_spec(val),
        r < GOLDILOCKS_P,
{
    if val == 0 {
        return 0;
    }
    let p: u128 = GOLDILOCKS_P as u128;
    let mut exp: u64 = GOLDILOCKS_P - 2;
    let mut base: u128 = val as u128;
    let mut res: u128 = 1u128;
    let ghost target: int = pow(val as int, (GOLDILOCKS_P - 2) as nat) % (p as int);
    proof {
        lemma_pow1(val as int);
        lemma_pow0(val as int);
    }
    while exp > 0
        invariant
            p == GOLDILOCKS_P,
            res < p,
            base <= u64::MAX,
            (res * pow(base as int, exp as nat)) % (p as int) == target,
            target == pow(val as int, (GOLDILOCKS_P - 2) as nat) % (p as int),
        decreases exp,
    {
        proof {
            lemma_square_multiply_step(res as int, base as int, exp as nat, p as int);
        }
        let ghost e = exp;
        assert(exp & 1 == exp % 2) by (bit_vector);
        if exp & 1 == 1 {
            assert(res * base <= u128::MAX) by (nonlinear_arith)
                requires
                    res < p,
                    base <= u64::MAX,
                    p == GOLDILOCKS_P,
            ;
            res = (res * base) % p;
        }
        assert(base * base <= u128::MAX) by (nonlinear_arith)
            requires
                base <= u64::MAX,
        ;
        base = (base * base) % p;
        assert(exp >> 1 == exp / 2) by (bit_vector);
        exp = exp >> 1;
        assert(exp == e / 2);
    }
    proof {
        lemma_pow0(base as int);
    }
    res as u64
}

/// First row of the circulant MDS matrix.
pub open spec fn mds_first_row() -> Seq<int> {
    seq![7, 1, 3, 8, 8, 3, 4, 9]
}

/// Entry `(i, j)` of the circulant MDS matrix.
pub open spec fn mds_entry(i: int, j: int) -> int {
    mds_first_row()[(j - i + 8) % 8]
}

/// The round constants of the four rounds (width 8).
pub open spec fn round_constants() -> Seq<Seq<int>> {
    seq![
        seq![0xdd5743e7f2a5a5d9, 0xcb3a864e58ada44b, 0xffa2449ed32f8cdc, 0x42025f65d6bd13ee, 0x7889175e25506323, 0x34b98bb03d24b737, 0xbdcc535ecc4faa2a, 0x5b20ad869fc0d033],
        seq![0xf1dda5b9259dfcb4, 0x27515210be112d59, 0x4227d1718c766c3f, 0x26d333161a5bd794, 0x49b938957bf4b026, 0x4a56b5938b213669, 0x1120426b48c8353d, 0x6b323c3f10a56cad],
        seq![0xce57d6245ddca6b2, 0xb1fc8d402bba1eb1, 0xb5c5096ca959bd04, 0x6db55cd306d31f7f, 0xc49d293a81cb9641, 0x1ce55a4fe979719f, 0xa92e60a9d178a4d1, 0x002cc64973bcfd8c],
        seq![0xcea721cce82fb11b, 0xe5b55eb8098ece81, 0x4e30525c6f1ddd66, 0x43c6702827070987, 0xaca68430a7b5762a, 0x3674238634df9c93, 0x88cee1c825e33433, 0xde99ae8d74b57176],
    ]
}

/// Adds round `r`'s constants to the state, modulo p.
pub open spec fn add_round_constants(s: Seq<int>, r: int) -> Seq<int> {
    Seq::new(8, |i: int| (s[i] + round_constants()[r][i]) % (GOLDILOCKS_P as int))
}

/// The S-box `x^7 mod p`.
pub open spec fn sbox(x: int) -> int {
    pow(x, 7) % (GOLDILOCKS_P as int)
}

/// The S-box applied to every state element.
pub open spec fn sbox_layer(s: Seq<int>) -> Seq<int> {
    Seq::new(8, |i: int| sbox(s[i]))
}

/// `sum_{j < n} M[i][j] * s[j]`.
pub open spec fn mds_dot(s: Seq<int>, i: int, n: nat) -> int
    decreases n,
{
    if n == 0 {
        0
    } else {
        mds_dot(s, i, (n - 1) as nat) + mds_entry(i, n - 1) * s[n - 1]
    }
}

/// The MDS matrix applied to the state, modulo p.
pub open spec fn mds_layer(s: Seq<int>) -> Seq<int> {
    Seq::new(8, |i: int| mds_dot(s, i, 8) % (GOLDILOCKS_P as int))
}

/// One full round: constants, S-box, MDS.
pub open spec fn poseidon_round(s: Seq<int>, r: int) -> Seq<int> {
    mds_layer(sbox_layer(add_round_constants(s, r)))
}

/// The state after the first `n` rounds.
pub open spec fn poseidon_rounds(s: Seq<int>, n: nat) -> Seq<int>
    decreases n,
{
    if n == 0 {
        s
    } else {
        poseidon_round(poseidon_rounds(s, (n - 1) as nat), n - 1)
    }
}

/// The Poseidon hash of `(a, b)`: four rounds over the state
/// `[a, b, 0, 0, 0, 0, 0, 0]`, then its first element.
pub open spec fn poseidon4_spec(a: u64, b: u64) -> int {
    poseidon_rounds(seq![a as int, b as int, 0, 0, 0, 0, 0, 0], 4)[0]
}

fn mds_entry_exec(i: usize, j: usize) -> (m: u64)
    requires
        i < 8,
        j < 8,
    ensures
        m == mds_entry(i as int, j as int),
        m <= 9,
{
    let row: [u64; 8] = [7, 1, 3, 8, 8, 3, 4, 9];
    let k = (j + 8 - i) % 8;
    assert(row@ == seq![7u64, 1, 3, 8, 8, 3, 4, 9]);
    row[k]
}

fn round_constant_row(r: usize) -> (row: [u64; 8])
    requires
        r < 4,
    ensures
        forall|i: int| 0 <= i < 8 ==> #[trigger] row@[i] == round_constants()[r as int][i],
{
    let row: [u64; 8] = match r {
        0 => [0xdd5743e7f2a5a5d9, 0xcb3a864e58ada44b, 0xffa2449ed32f8cdc, 0x42025f65d6bd13ee, 0x7889175e25506323, 0x34b98bb03d24b737, 0xbdcc535ecc4faa2a, 0x5b20ad869fc0d033],
        1 => [0xf1dda5b9259dfcb4, 0x27515210be112d59, 0x4227d1718c766c3f, 0x26d333161a5bd794, 0x49b938957bf4b026, 0x4a56b5938b213669, 0x1120426b48c8353d, 0x6b323c3f10a56cad],
        2 => [0xce57d6245ddca6b2, 0xb1fc8d402bba1eb1, 0xb5c5096ca959bd04, 0x6db55cd306d31f7f, 0xc49d293a81cb9641, 0x1ce55a4fe979719f, 0xa92e60a9d178a4d1, 0x002cc64973bcfd8c],
        _ => [0xcea721cce82fb11b, 0xe5b55eb8098ece81, 0x4e30525c6f1ddd66, 0x43c6702827070987, 0xaca68430a7b5762a, 0x3674238634df9c93, 0x88cee1c825e33433, 0xde99ae8d74b57176],
    };
    row
}

proof fn lemma_sbox_steps(x: int, x2: int, x4: int, t: int, y: int)
    requires
        0 <= x < GOLDILOCKS_P,
        x2 == (x * x) % (GOLDILOCKS_P as int),
        x4 == (x2 * x2) % (GOLDILOCKS_P as int),
        t == (x4 * x2) % (GOLDILOCKS_P as int),
        y == (t * x) % (GOLDILOCKS_P as int),
    ensures
        y == sbox(x),
{
    let p = GOLDILOCKS_P as int;
    lemma_square_is_pow2(x);
    lemma_pow_adds(x, 2, 2);
    lemma_pow_adds(x, 4, 2);
    lemma_pow_adds(x, 6, 1);
    lemma_pow1(x);
    lemma_mul_mod_noop(pow(x, 2), pow(x, 2), p);
    lemma_mul_mod_noop(pow(x, 4), pow(x, 2), p);
    lemma_mul_mod_noop_left(pow(x, 6), x, p);
    lemma_small_mod(x as nat, p as nat);
}

/// Adds the round constants to the state (first step of a round).
fn add_round_constants_exec(s: &mut [u64; 8], r: usize)
    requires
        r < 4,
    ensures
        forall|i: int| 0 <= i < 8 ==> #[trigger] final(s)@[i] as int == add_round_constants(
            old(s)@.map_values(|v: u64| v as int),
            r as int,
        )[i],
        forall|i: int| 0 <= i < 8 ==> #[trigger] final(s)@[i] < GOLDILOCKS_P,
{
    let ghost s0 = old(s)@.map_values(|v: u64| v as int);
    let rc = round_constant_row(r);
    let p: u128 = GOLDILOCKS_P as u128;
    for i in 0..8
        invariant
            p == GOLDILOCKS_P,
            s0 == old(s)@.map_values(|v: u64| v as int),
            forall|k: int| 0 <= k < 8 ==> #[trigger] rc@[k] == round_constants()[r as int][k],
            forall|k: int| 0 <= k < i ==> #[trigger] s@[k] as int == add_round_constants(s0, r as int)[k],
            forall|k: int| 0 <= k < i ==> #[trigger] s@[k] < GOLDILOCKS_P,
            forall|k: int| i <= k < 8 ==> #[trigger] s@[k] == old(s)@[k],
    {
        let v = ((s[i] as u128 + rc[i] as u128) % p) as u64;
        s[i] = v;
    }
}

/// The S-box layer.
fn sbox_layer_exec(s: &[u64; 8]) -> (out: [u64; 8])
    requires
        forall|i: int| 0 <= i < 8 ==> #[trigger] s@[i] < GOLDILOCKS_P,
    ensures
        forall|i: int| 0 <= i < 8 ==> #[trigger] out@[i] as int == sbox_layer(
            s@.map_values(|v: u64| v as int),
        )[i],
        forall|i: int| 0 <= i < 8 ==> #[trigger] out@[i] < GOLDILOCKS_P,
{
    let p: u128 = GOLDILOCKS_P as u128;
    let mut out: [u64; 8] = [0; 8];
    for i in 0..8
        invariant
            p == GOLDILOCKS_P,
            forall|k: int| 0 <= k < 8 ==> #[trigger] s@[k] < GOLDILOCKS_P,
            forall|k: int| 0 <= k < i ==> #[trigger] out@[k] as int == sbox(s@[k] as int),
            forall|k: int| 0 <= k < i ==> #[trigger] out@[k] < GOLDILOCKS_P,
    {
        let x = s[i] as u128;
        assert(x * x <= u128::MAX) by (nonlinear_arith) requires x < GOLDILOCKS_P;
        let x2 = (x * x) % p;
        assert(x2 * x2 <= u128::MAX) by (nonlinear_arith) requires x2 < GOLDILOCKS_P;
        let x4 = (x2 * x2) % p;
        assert(x4 * x2 <= u128::MAX) by (nonlinear_arith) requires x4 < GOLDILOCKS_P, x2 < GOLDILOCKS_P;
        let t = (x4 * x2) % p;
        assert(t * x <= u128::MAX) by (nonlinear_arith) requires t < GOLDILOCKS_P, x < GOLDILOCKS_P;
        let y = (t * x) % p;
        proof {
            lemma_sbox_steps(x as int, x2 as int, x4 as int, t as int, y as int);
        }
        out[i] = y as u64;
    }
    out
}

/// The MDS layer.
fn mds_layer_exec(s: &[u64; 8]) -> (out: [u64; 8])
    requires
        forall|i: int| 0 <= i < 8 ==> #[trigger] s@[i] < GOLDILOCKS_P,
    ensures
        forall|i: int| 0 <= i < 8 ==> #[trigger] out@[i] as int == mds_layer(
            s@.map_values(|v: u64| v as int),
        )[i],
{
    let ghost si = s@.map_values(|v: u64| v as int);
    let p: u128 = GOLDILOCKS_P as u128;
    let mut out: [u64; 8] = [0; 8];
    for i in 0..8
        invariant
            p == GOLDILOCKS_P,
            si == s@.map_values(|v: u64| v as int),
            forall|k: int| 0 <= k < 8 ==> #[trigger] s@[k] < GOLDILOCKS_P,
            forall|k: int| 0 <= k < i ==> #[trigger] out@[k] as int == mds_layer(si)[k],
    {
        let mut sum: u128 = 0;
        for j in 0..8
            invariant
                p == GOLDILOCKS_P,
                0 <= i < 8,
                si == s@.map_values(|v: u64| v as int),
                forall|k: int| 0 <= k < 8 ==> #[trigger] s@[k] < GOLDILOCKS_P,
                sum < p,
                sum as int == mds_dot(si, i as int, j as nat) % (p as int),
        {
            let m = mds_entry_exec(i, j) as u128;
            let x = s[j] as u128;
            assert(m * x <= 9 * (GOLDILOCKS_P as int)) by (nonlinear_arith)
                requires m <= 9, x < GOLDILOCKS_P;
            let ghost prev = mds_dot(si, i as int, j as nat);
            proof {
                lemma_add_mod_noop(prev, (m * x) as int, p as int);
                lemma_mod_twice(prev, p as int);
                lemma_small_mod(sum as nat, p as nat);
            }
            sum = (sum + m * x) % p;
            proof {
                lemma_add_mod_noop(prev, (m * x) as int, p as int);
                assert(mds_dot(si, i as int, (j + 1) as nat) == prev + m * x);
                lemma_mod_mod_plus(prev, (m * x) as int, p as int);
            }
        }
        out[i] = sum as u64;
    }
    out
}

proof fn lemma_mod_mod_plus(a: int, b: int, p: int)
    requires
        p > 0,
    ensures
        ((a % p) + b) % p == (a + b) % p,
{
    lemma_add_mod_noop(a, b, p);
    lemma_add_mod_noop(a % p, b, p);
    lemma_mod_twice(a, p);
}

/// 4-round Poseidon hash over the Goldilocks field (alpha = 7, width 8,
/// full rounds only), as used by the VM and its prover.
pub fn poseidon4_hash(a: u64, b: u64) -> (h: u64)
    ensures
        h == poseidon4_spec(a, b),
{
    let ghost init = seq![a as int, b as int, 0, 0, 0, 0, 0, 0];
    let mut s: [u64; 8] = [a, b, 0, 0, 0, 0, 0, 0];
    assert(s@.map_values(|v: u64| v as int) =~= init);
    for r in 0..4
        invariant
            s@.map_values(|v: u64| v as int) =~= poseidon_rounds(init, r as nat),
    {
        let ghost before = s@.map_values(|v: u64| v as int);
        add_round_constants_exec(&mut s, r);
        let ghost added = s@.map_values(|v: u64| v as int);
        assert(added =~= add_round_constants(before, r as int));
        let sb = sbox_layer_exec(&s);
        assert(sb@.map_values(|v: u64| v as int) =~= sbox_layer(added));
        let next = mds_layer_exec(&sb);
        assert(next@.map_values(|v: u64| v as int) =~= mds_layer(sbox_layer(added)));
        s = next;
        assert(poseidon_rounds(init, (r + 1) as nat) == poseidon_round(poseidon_rounds(init, r as nat), r as int));
    }
    s[0]
}

} // verus!
