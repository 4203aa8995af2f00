//! The Goldilocks prime field GF(p), p = 2^64 - 2^32 + 1.
//!
//! Elements are canonical `u64` values (always `< P`). Every operation is
//! specified against mathematical integer arithmetic modulo `P`.

use vstd::arithmetic::div_mod::{
    lemma_add_mod_noop, lemma_mod_add_multiples_vanish, lemma_mod_twice,
    lemma_mul_mod_noop_general, lemma_mul_mod_noop_left, lemma_mul_mod_noop_right,
    lemma_small_mod,
};
use vstd::arithmetic::mul::lemma_mul_is_associative;
use vstd::arithmetic::power::{lemma_pow_adds, lemma_pow_multiplies, lemma_pow_mod_noop, pow};
use vstd::arithmetic::power2::{lemma_pow2_unfold, pow2};
use vstd::prelude::*;

verus! {

/// The Goldilocks prime, 2^64 - 2^32 + 1.
pub const P: u64 = 0xFFFF_FFFF_0000_0001;

/// Sum in GF(p).
pub open spec fn gadd(a: int, b: int) -> int {
    (a + b) % (P as int)
}

/// Difference in GF(p).
pub open spec fn gsub(a: int, b: int) -> int {
    (a - b) % (P as int)
}

/// Opposite in GF(p).
pub open spec fn gneg(a: int) -> int {
    (0 - a) % (P as int)
}

/// Product in GF(p).
pub open spec fn gmul(a: int, b: int) -> int {
    (a * b) % (P as int)
}

/// Power in GF(p).
pub open spec fn gpow(a: int, e: nat) -> int {
    pow(a, e) % (P as int)
}

/// The value computed for the inverse of a field element: Fermat
/// exponentiation a^(p-2), which maps zero to zero.
pub open spec fn ginv(a: int) -> int {
    gpow(a, (P - 2) as nat)
}

/// Products in GF(p) do not depend on the order of the factors.
pub proof fn lemma_gmul_comm(a: int, b: int)
    ensures
        gmul(a, b) == gmul(b, a),
{
}

/// Products in GF(p) do not depend on grouping.
pub proof fn lemma_gmul_assoc(a: int, b: int, c: int)
    ensures
        gmul(gmul(a, b), c) == gmul(a, gmul(b, c)),
{
    lemma_mul_mod_noop_left(a * b, c, P as int);
    lemma_mul_mod_noop_right(a, b * c, P as int);
    lemma_mul_is_associative(a, b, c);
}

/// A factor may be reduced modulo p before a product without changing it.
pub proof fn lemma_gmul_noop(a: int, b: int)
    ensures
        gmul(a % (P as int), b) == gmul(a, b),
        gmul(a, b % (P as int)) == gmul(a, b),
{
    lemma_mul_mod_noop_left(a, b, P as int);
    lemma_mul_mod_noop_right(a, b, P as int);
}

/// A summand may be reduced modulo p before a sum without changing it.
pub proof fn lemma_gadd_noop(a: int, b: int)
    ensures
        gadd(a % (P as int), b) == gadd(a, b),
        gadd(a, b % (P as int)) == gadd(a, b),
{
    lemma_add_mod_noop(a, b, P as int);
    lemma_mod_twice(a, P as int);
    lemma_mod_twice(b, P as int);
    lemma_add_mod_noop(a % (P as int), b, P as int);
    lemma_add_mod_noop(a, b % (P as int), P as int);
}

/// Powers with added exponents multiply.
pub proof fn lemma_gpow_adds(a: int, e1: nat, e2: nat)
    ensures
        gpow(a, e1 + e2) == gmul(gpow(a, e1), gpow(a, e2)),
{
    lemma_pow_adds(a, e1, e2);
    lemma_mul_mod_noop_general(pow(a, e1), pow(a, e2), P as int);
}

/// A power of a reduced base equals the power of the base.
pub proof fn lemma_gpow_noop(a: int, e: nat)
    ensures
        gpow(a % (P as int), e) == gpow(a, e),
{
    lemma_pow_mod_noop(a, e, P as int);
}

/// Unfolding a positive power by one factor.
pub proof fn lemma_gpow_unfold(b: int, e: nat)
    requires
        e > 0,
    ensures
        gpow(b, e) == gmul(b, gpow(b, (e - 1) as nat)),
{
    reveal(pow);
    assert(pow(b, e) == b * pow(b, (e - 1) as nat));
    lemma_gmul_noop(b, pow(b, (e - 1) as nat));
}

/// Squaring the base halves the exponent.
proof fn lemma_gpow_base_square(b: int, m: nat)
    ensures
        gpow((b * b) % (P as int), m) == gpow(b, 2 * m),
{
    lemma_gpow_noop(b * b, m);
    reveal(pow);
    assert(pow(b, 1) == b * pow(b, 0));
    assert(pow(b, 2) == b * pow(b, 1));
    assert(pow(b, 2) == b * b);
    lemma_pow_multiplies(b, 2, m);
    assert(pow(pow(b, 2), m) == pow(b * b, m));
}

/// Sum in GF(p), on canonical elements.
pub fn fp_add(a: u64, b: u64) -> (r: u64)
    requires
        a < P,
        b < P,
    ensures
        r < P,
        r as int == gadd(a as int, b as int),
{
    let s: u128 = a as u128 + b as u128;
    let r: u64 = if s >= P as u128 {
        (s - P as u128) as u64
    } else {
        s as u64
    };
    proof {
        if a + b >= P {
            lemma_mod_add_multiples_vanish(a + b - P, P as int);
            lemma_small_mod((a + b - P) as nat, P as nat);
        } else {
            lemma_small_mod((a + b) as nat, P as nat);
        }
    }
    r
}

/// Difference in GF(p), on canonical elements.
pub fn fp_sub(a: u64, b: u64) -> (r: u64)
    requires
        a < P,
        b < P,
    ensures
        r < P,
        r as int == gsub(a as int, b as int),
{
    let r: u64 = if a >= b {
        a - b
    } else {
        a + (P - b)
    };
    proof {
        if a >= b {
            lemma_small_mod((a - b) as nat, P as nat);
        } else {
            lemma_mod_add_multiples_vanish(a - b, P as int);
            lemma_small_mod((a + P - b) as nat, P as nat);
        }
    }
    r
}

/// Opposite in GF(p), on canonical elements.
pub fn fp_neg(a: u64) -> (r: u64)
    requires
        a < P,
    ensures
        r < P,
        r as int == gneg(a as int),
{
    let r: u64 = if a == 0 {
        0
    } else {
        P - a
    };
    proof {
        if a == 0 {
            lemma_small_mod(0, P as nat);
        } else {
            lemma_mod_add_multiples_vanish(0 - a, P as int);
            lemma_small_mod((P - a) as nat, P as nat);
        }
    }
    r
}

/// Product in GF(p), on canonical elements.
pub fn fp_mul(a: u64, b: u64) -> (r: u64)
    requires
        a < P,
        b < P,
    ensures
        r < P,
        r as int == gmul(a as int, b as int),
{
    proof {
        vstd::arithmetic::mul::lemma_mul_upper_bound(a as int, P as int - 1, b as int, P as int - 1);
        assert((P as int - 1) * (P as int - 1) < 0x1_0000_0000_0000_0000_0000_0000_0000_0000int)
            by (nonlinear_arith);
    }
    let prod: u128 = a as u128 * b as u128;
    let r: u128 = prod % (P as u128);
    r as u64
}

/// Power in GF(p) by square-and-multiply, on a canonical base.
pub fn fp_pow(x: u64, e: u64) -> (r: u64)
    requires
        x < P,
    ensures
        r < P,
        r as int == gpow(x as int, e as nat),
{
    let mut result: u64 = 1;
    let mut base: u64 = x;
    let mut k: u64 = e;
    proof {
        lemma_gmul_noop(1, pow(x as int, e as nat));
        lemma_mul_mod_noop_left(1, pow(x as int, e as nat), P as int);
        assert(1 * pow(x as int, e as nat) == pow(x as int, e as nat));
    }
    while k > 0
        invariant
            base < P,
            result < P,
            gmul(result as int, gpow(base as int, k as nat)) == gpow(x as int, e as nat),
        decreases k,
    {
        let ghost or: int = result as int;
        let ghost ob: int = base as int;
        let ghost ok: nat = k as nat;
        assert(k & 1 == k % 2) by (bit_vector);
        assert(k >> 1 == k / 2) by (bit_vector);
        if k & 1 == 1 {
            result = fp_mul(result, base);
        }
        base = fp_mul(base, base);
        k = k >> 1;
        proof {
            let m: nat = k as nat;
            lemma_gpow_base_square(ob, m);
            assert(gpow(base as int, m) == gpow(ob, 2 * m));
            if ok % 2 == 1 {
                assert(ok == 2 * m + 1);
                lemma_gpow_unfold(ob, (2 * m + 1) as nat);
                // result == gmul(or, ob); goal follows by associativity
                let x2m: int = gpow(ob, 2 * m);
                lemma_gmul_assoc(or, ob, x2m);
                lemma_gmul_noop(or * ob, x2m);
                assert(gmul(result as int, gpow(base as int, m)) == gmul(gmul(or, ob), x2m));
                assert(gmul(or, gmul(ob, x2m)) == gmul(or, gpow(ob, ok)));
            } else {
                assert(ok == 2 * m);
            }
        }
    }
    proof {
        vstd::arithmetic::power::lemma_pow0(base as int);
        assert(gpow(base as int, 0) == 1int % (P as int));
        lemma_small_mod(1, P as nat);
        lemma_mul_mod_noop_right(result as int, 1, P as int);
        assert(result as int * 1 == result as int);
        lemma_small_mod(result as nat, P as nat);
    }
    result
}

/// `k` successive squarings: raises to the power 2^k.
pub fn fp_pow2k(x: u64, k: u64) -> (r: u64)
    requires
        x < P,
    ensures
        r < P,
        r as int == gpow(x as int, pow2(k as nat)),
{
    let mut acc: u64 = x;
    let mut i: u64 = 0;
    proof {
        assert(pow2(0) == 1) by {
            vstd::arithmetic::power2::lemma2_to64();
        }
        vstd::arithmetic::power::lemma_pow1(x as int);
        lemma_small_mod(x as nat, P as nat);
    }
    while i < k
        invariant
            acc < P,
            i <= k,
            acc as int == gpow(x as int, pow2(i as nat)),
        decreases k - i,
    {
        let ghost oi: nat = i as nat;
        acc = fp_mul(acc, acc);
        i = i + 1;
        proof {
            lemma_gpow_adds(x as int, pow2(oi), pow2(oi));
            lemma_pow2_unfold((oi + 1) as nat);
            assert(pow2((oi + 1) as nat) == 2 * pow2(oi));
        }
    }
    acc
}

/// The inverse of a nonzero element by Fermat exponentiation; zero maps to
/// zero. The result is pinned to the exponentiation `a^(p-2)`.
pub fn fp_inverse_or_zero(a: u64) -> (r: u64)
    requires
        a < P,
    ensures
        r < P,
        r as int == ginv(a as int),
{
    fp_pow(a, 0xFFFF_FFFE_FFFF_FFFF)
}

/// Entry t of the table driving the base-field square root: the generator
/// of the 2^32-torsion, g = 7^(2^32 - 1), squared t times.
pub open spec fn sqrt_gt(t: nat) -> int
    decreases t,
{
    if t == 0 {
        gpow(7, 0xFFFFFFFF)
    } else {
        gmul(sqrt_gt((t - 1) as nat), sqrt_gt((t - 1) as nat))
    }
}

/// The state of the base-field square root after k of its 31 adjustment
/// steps: the running root u = x^2^31 and the running trace v = x^(2^32-1),
/// each multiplied by a table entry whenever the trace's remaining power
/// lands on -1.
pub open spec fn sqrt_state(x: int, k: nat) -> (int, int)
    decreases k,
{
    if k == 0 {
        (gpow(x, 0x80000000), gpow(x, 0xFFFFFFFF))
    } else {
        let (u, v) = sqrt_state(x, (k - 1) as nat);
        let i = 32 - k;
        let w = gpow(v, pow2((i - 1) as nat));
        if w == P - 1 {
            (gmul(sqrt_gt((31 - i) as nat), u), gmul(sqrt_gt((32 - i) as nat), v))
        } else {
            (u, v)
        }
    }
}

/// The candidate the base-field square root produces for x: the running
/// root after all 31 steps, with 0 for 0.
pub open spec fn sqrt_cand(x: int) -> int {
    if x == 0 {
        0
    } else {
        sqrt_state(x, 31).0
    }
}

/// Square root in GF(p) by the Tonelli-Shanks procedure for
/// p - 1 = 2^32 * (2^32 - 1). The result is exact: the call succeeds with
/// the pinned candidate `sqrt_cand` precisely when that candidate squares
/// back to x, which holds for 0 and for every nonzero square.
pub fn fp_sqrt(x: u64) -> (r: Option<u64>)
    requires
        x < P,
    ensures
        r is Some <==> gmul(sqrt_cand(x as int), sqrt_cand(x as int)) == x as int,
        match r {
            Some(s) => s < P && gmul(s as int, s as int) == x as int && s as int == sqrt_cand(
                x as int,
            ),
            None => x != 0,
        },
{
    if x == 0 {
        proof {
            lemma_small_mod(0, P as nat);
            assert(0int * 0int == 0int);
            assert(gmul(0, 0) == 0int % (P as int));
        }
        return Some(0);
    }
    // g generates the 2^32-torsion subgroup: g = 7^(2^32 - 1).
    let g: u64 = fp_pow(7, 0xFFFF_FFFF);
    let mut gs: Vec<u64> = Vec::new();
    let mut gp: u64 = g;
    while gs.len() < 32
        invariant
            gs.len() <= 32,
            gp < P,
            gp as int == sqrt_gt(gs.len() as nat),
            forall|t: int| 0 <= t < gs.len() ==> gs[t] < P,
            forall|t: int| 0 <= t < gs.len() ==> #[trigger] gs[t] as int == sqrt_gt(t as nat),
        decreases 32 - gs.len(),
    {
        gs.push(gp);
        gp = fp_mul(gp, gp);
    }
    let mut u: u64 = fp_pow(x, 0x8000_0000);
    let mut v: u64 = fp_pow(x, 0xFFFF_FFFF);
    let mut i: u64 = 31;
    while i >= 1
        invariant
            0 <= i <= 31,
            u < P,
            v < P,
            x != 0,
            u as int == sqrt_state(x as int, (31 - i) as nat).0,
            v as int == sqrt_state(x as int, (31 - i) as nat).1,
            gs.len() == 32,
            forall|t: int| 0 <= t < 32 ==> gs[t] < P,
            forall|t: int| 0 <= t < 32 ==> #[trigger] gs[t] as int == sqrt_gt(t as nat),
        decreases i,
    {
        let w: u64 = fp_pow2k(v, i - 1);
        if w == P - 1 {
            u = fp_mul(gs[(31 - i) as usize], u);
            v = fp_mul(gs[(32 - i) as usize], v);
        }
        proof {
            assert(u as int == sqrt_state(x as int, (32 - i) as nat).0 && v as int == sqrt_state(
                x as int,
                (32 - i) as nat,
            ).1);
        }
        i = i - 1;
    }
    proof {
        assert(u as int == sqrt_cand(x as int));
    }
    if fp_mul(u, u) == x {
        Some(u)
    } else {
        None
    }
}

} // verus!
