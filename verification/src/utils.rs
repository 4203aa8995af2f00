//! Fixed-width signed integers for the scalar lattice split.
//!
//! `Signed161` holds ~161-bit signed values in three limbs (two's
//! complement, truncated: bits above 161 in the top limb are ignored until
//! `to_u192` sign-extends them). `Signed640` holds 640-bit signed values in
//! ten limbs. Both offer two's-complement add and subtract of a shifted
//! operand, specified exactly as arithmetic modulo 2^192 and 2^640.
//! Everything here is variable-time; it only ever sees public values.

use crate::bigint::{bu_mul, bu_to_u64_digits};
use crate::limbs::{lemma_limbs_val_lower, limbs_prefix, limbs_val};
use crate::scalar_field::{
    lemma_pow2_literals, n_value, recode_signed_from_limbs, scalar_wf, sdigit, sval, EcGFp5Scalar,
};
use vstd::arithmetic::div_mod::{
    lemma_add_mod_noop_right, lemma_mod_add_multiples_vanish, lemma_mod_multiples_vanish,
    lemma_mul_mod_noop_right, lemma_small_mod,
};
use vstd::arithmetic::power2::{lemma2_to64, lemma2_to64_rest, lemma_pow2_adds, pow2};
use vstd::prelude::*;

verus! {

/// 2^192.
pub open spec fn two192() -> nat {
    0x1000000000000000000000000000000000000000000000000nat
}

/// 2^640.
pub open spec fn two640() -> nat {
    0x10000000000000000000000000000000000000000000000000000000000000000000000000000000000000000000000000000000000000000000000000000000000000000000000000000000000000000nat
}

/// The powers of two above 2^320 that the ten-limb values use.
pub proof fn lemma_pow2_literals_hi()
    ensures
        pow2(384) == 0x1000000000000000000000000000000000000000000000000000000000000000000000000000000000000000000000000,
        pow2(448) == 0x10000000000000000000000000000000000000000000000000000000000000000000000000000000000000000000000000000000000000000,
        pow2(512) == 0x100000000000000000000000000000000000000000000000000000000000000000000000000000000000000000000000000000000000000000000000000000000,
        pow2(576) == 0x1000000000000000000000000000000000000000000000000000000000000000000000000000000000000000000000000000000000000000000000000000000000000000000000000,
        pow2(640) == two640(),
        pow2(192) == two192(),
{
    lemma_pow2_literals();
    lemma_pow2_adds(320, 64);
    assert(pow2(384) == pow2(320) * pow2(64));
    lemma_pow2_adds(384, 64);
    assert(pow2(448) == pow2(384) * pow2(64));
    lemma_pow2_adds(448, 64);
    assert(pow2(512) == pow2(448) * pow2(64));
    lemma_pow2_adds(512, 64);
    assert(pow2(576) == pow2(512) * pow2(64));
    lemma_pow2_adds(576, 64);
    assert(pow2(640) == pow2(576) * pow2(64));
}

/// A ~161-bit signed integer in three limbs, two's complement, truncated
/// to 161 bits on export.
#[derive(Clone, Copy, Debug)]
pub struct Signed161 {
    pub w0: u64,
    pub w1: u64,
    pub w2: u64,
}

/// The three limbs of a `Signed161`, read as an unsigned 192-bit value.
pub open spec fn uval161(s: Signed161) -> nat {
    (s.w0 + s.w1 * 0x10000000000000000 + s.w2 * 0x100000000000000000000000000000000) as nat
}

/// The signed value a `Signed161` stands for: its low 161 bits, two's
/// complement.
pub open spec fn sval161(s: Signed161) -> int {
    let m = uval161(s) % 0x20000000000000000000000000000000000000000nat;
    if m >= 0x10000000000000000000000000000000000000000nat {
        m - 0x20000000000000000000000000000000000000000nat
    } else {
        m as int
    }
}

/// A 640-bit signed integer in ten limbs, two's complement.
#[derive(Clone, Copy, Debug)]
pub struct Signed640 {
    pub w0: u64,
    pub w1: u64,
    pub w2: u64,
    pub w3: u64,
    pub w4: u64,
    pub w5: u64,
    pub w6: u64,
    pub w7: u64,
    pub w8: u64,
    pub w9: u64,
}

/// The ten limbs of a `Signed640`, read as an unsigned 640-bit value.
pub open spec fn uval640(s: Signed640) -> nat {
    (s.w0 + s.w1 * 0x10000000000000000 + s.w2 * 0x100000000000000000000000000000000 + s.w3
        * 0x1000000000000000000000000000000000000000000000000 + s.w4
        * 0x10000000000000000000000000000000000000000000000000000000000000000 + s.w5
        * 0x100000000000000000000000000000000000000000000000000000000000000000000000000000000
        + s.w6
        * 0x1000000000000000000000000000000000000000000000000000000000000000000000000000000000000000000000000
        + s.w7
        * 0x10000000000000000000000000000000000000000000000000000000000000000000000000000000000000000000000000000000000000000
        + s.w8
        * 0x100000000000000000000000000000000000000000000000000000000000000000000000000000000000000000000000000000000000000000000000000000000
        + s.w9
        * 0x1000000000000000000000000000000000000000000000000000000000000000000000000000000000000000000000000000000000000000000000000000000000000000000000000)
        as nat
}

/// A `Signed640` is nonnegative when read as two's complement.
pub open spec fn nonneg640(s: Signed640) -> bool {
    uval640(s)
        < 0x8000000000000000000000000000000000000000000000000000000000000000000000000000000000000000000000000000000000000000000000000000000000000000000000000000000000000000nat
}

/// The magnitude that the two's-complement bit length measures: the value
/// itself when nonnegative, the flipped bits otherwise.
pub open spec fn mag640(s: Signed640) -> nat {
    if nonneg640(s) {
        uval640(s)
    } else {
        (two640() - 1 - uval640(s)) as nat
    }
}


/// The Euclidean split of a double-wide limb at 2^64.
proof fn lemma_split_limb(z: u128)
    ensures
        z as int == 0x10000000000000000int * (z as int / 0x10000000000000000int) + z as int
            % 0x10000000000000000int,
        0 <= z as int % 0x10000000000000000int < 0x10000000000000000int,
{
    vstd::arithmetic::div_mod::lemma_fundamental_div_mod(z as int, 0x10000000000000000int);
    vstd::arithmetic::div_mod::lemma_mod_bound(z as int, 0x10000000000000000int);
}

/// The ten-limb value written as its raw weighted sum.
proof fn lemma_uval640_expand(s: Signed640)
    ensures
        uval640(s) as int == s.w0 + s.w1 * 0x10000000000000000int + s.w2
            * 0x100000000000000000000000000000000int + s.w3
            * 0x1000000000000000000000000000000000000000000000000int + s.w4
            * 0x10000000000000000000000000000000000000000000000000000000000000000int + s.w5
            * 0x100000000000000000000000000000000000000000000000000000000000000000000000000000000int
            + s.w6
            * 0x1000000000000000000000000000000000000000000000000000000000000000000000000000000000000000000000000int
            + s.w7
            * 0x10000000000000000000000000000000000000000000000000000000000000000000000000000000000000000000000000000000000000000int
            + s.w8
            * 0x100000000000000000000000000000000000000000000000000000000000000000000000000000000000000000000000000000000000000000000000000000000int
            + s.w9
            * 0x1000000000000000000000000000000000000000000000000000000000000000000000000000000000000000000000000000000000000000000000000000000000000000000000000int,
        uval640(s) < two640(),
{
}

/// The three-limb value written as its raw weighted sum.
proof fn lemma_uval161_expand(s: Signed161)
    ensures
        uval161(s) as int == s.w0 + s.w1 * 0x10000000000000000int + s.w2
            * 0x100000000000000000000000000000000int,
        uval161(s) < two192(),
{
}

/// Sum of two ten-limb values, modulo 2^640.
fn addc640(a: &Signed640, b: &Signed640) -> (r: Signed640)
    ensures
        uval640(r) == (uval640(*a) + uval640(*b)) % two640(),
{
    let m: u128 = 0x10000000000000000;
    let z0: u128 = a.w0 as u128 + b.w0 as u128;
    let r0: u64 = (z0 % m) as u64;
    let c0: u128 = z0 / m;
    let z1: u128 = a.w1 as u128 + b.w1 as u128 + c0;
    let r1: u64 = (z1 % m) as u64;
    let c1: u128 = z1 / m;
    let z2: u128 = a.w2 as u128 + b.w2 as u128 + c1;
    let r2: u64 = (z2 % m) as u64;
    let c2: u128 = z2 / m;
    let z3: u128 = a.w3 as u128 + b.w3 as u128 + c2;
    let r3: u64 = (z3 % m) as u64;
    let c3: u128 = z3 / m;
    let z4: u128 = a.w4 as u128 + b.w4 as u128 + c3;
    let r4: u64 = (z4 % m) as u64;
    let c4: u128 = z4 / m;
    let z5: u128 = a.w5 as u128 + b.w5 as u128 + c4;
    let r5: u64 = (z5 % m) as u64;
    let c5: u128 = z5 / m;
    let z6: u128 = a.w6 as u128 + b.w6 as u128 + c5;
    let r6: u64 = (z6 % m) as u64;
    let c6: u128 = z6 / m;
    let z7: u128 = a.w7 as u128 + b.w7 as u128 + c6;
    let r7: u64 = (z7 % m) as u64;
    let c7: u128 = z7 / m;
    let z8: u128 = a.w8 as u128 + b.w8 as u128 + c7;
    let r8: u64 = (z8 % m) as u64;
    let c8: u128 = z8 / m;
    let z9: u128 = a.w9 as u128 + b.w9 as u128 + c8;
    let r9: u64 = (z9 % m) as u64;
    let c9: u128 = z9 / m;
    let r = Signed640 { w0: r0, w1: r1, w2: r2, w3: r3, w4: r4, w5: r5, w6: r6, w7: r7, w8: r8, w9: r9 };
    proof {
        lemma_split_limb(z0);
        lemma_split_limb(z1);
        lemma_split_limb(z2);
        lemma_split_limb(z3);
        lemma_split_limb(z4);
        lemma_split_limb(z5);
        lemma_split_limb(z6);
        lemma_split_limb(z7);
        lemma_split_limb(z8);
        lemma_split_limb(z9);
        lemma_uval640_expand(r);
        lemma_uval640_expand(*a);
        lemma_uval640_expand(*b);
        assert(uval640(r) + c9 * two640() == uval640(*a) + uval640(*b));
        lemma_mod_multiples_vanish(c9 as int, uval640(r) as int, two640() as int);
        lemma_small_mod(uval640(r), two640());
    }
    r
}

/// Difference of two ten-limb values, modulo 2^640.
#[verifier::rlimit(100)]
fn subc640(a: &Signed640, b: &Signed640) -> (r: Signed640)
    ensures
        uval640(r) as int == (uval640(*a) as int - uval640(*b) as int) % (two640() as int),
{
    let m: u128 = 0x10000000000000000;
    let z0: u128 = m + a.w0 as u128 - b.w0 as u128;
    let r0: u64 = (z0 % m) as u64;
    let c0: u128 = 1 - z0 / m;
    let z1: u128 = m + a.w1 as u128 - b.w1 as u128 - c0;
    let r1: u64 = (z1 % m) as u64;
    let c1: u128 = 1 - z1 / m;
    let z2: u128 = m + a.w2 as u128 - b.w2 as u128 - c1;
    let r2: u64 = (z2 % m) as u64;
    let c2: u128 = 1 - z2 / m;
    let z3: u128 = m + a.w3 as u128 - b.w3 as u128 - c2;
    let r3: u64 = (z3 % m) as u64;
    let c3: u128 = 1 - z3 / m;
    let z4: u128 = m + a.w4 as u128 - b.w4 as u128 - c3;
    let r4: u64 = (z4 % m) as u64;
    let c4: u128 = 1 - z4 / m;
    let z5: u128 = m + a.w5 as u128 - b.w5 as u128 - c4;
    let r5: u64 = (z5 % m) as u64;
    let c5: u128 = 1 - z5 / m;
    let z6: u128 = m + a.w6 as u128 - b.w6 as u128 - c5;
    let r6: u64 = (z6 % m) as u64;
    let c6: u128 = 1 - z6 / m;
    let z7: u128 = m + a.w7 as u128 - b.w7 as u128 - c6;
    let r7: u64 = (z7 % m) as u64;
    let c7: u128 = 1 - z7 / m;
    let z8: u128 = m + a.w8 as u128 - b.w8 as u128 - c7;
    let r8: u64 = (z8 % m) as u64;
    let c8: u128 = 1 - z8 / m;
    let z9: u128 = m + a.w9 as u128 - b.w9 as u128 - c8;
    let r9: u64 = (z9 % m) as u64;
    let c9: u128 = 1 - z9 / m;
    let r = Signed640 { w0: r0, w1: r1, w2: r2, w3: r3, w4: r4, w5: r5, w6: r6, w7: r7, w8: r8, w9: r9 };
    proof {
        lemma_split_limb(z0);
        lemma_split_limb(z1);
        lemma_split_limb(z2);
        lemma_split_limb(z3);
        lemma_split_limb(z4);
        lemma_split_limb(z5);
        lemma_split_limb(z6);
        lemma_split_limb(z7);
        lemma_split_limb(z8);
        lemma_split_limb(z9);
        lemma_uval640_expand(r);
        lemma_uval640_expand(*a);
        lemma_uval640_expand(*b);
        assert(uval640(r) as int - c9 * two640() == uval640(*a) as int - uval640(*b) as int);
        lemma_mod_multiples_vanish(0 - c9 as int, uval640(r) as int, two640() as int);
        lemma_small_mod(uval640(r), two640());
    }
    r
}

/// The value multiplied by 2^rr for a small shift (0 <= rr <= 63),
/// modulo 2^640.
#[verifier::rlimit(100)]
fn mul2r640(v: &Signed640, rr: u32) -> (r: Signed640)
    requires
        rr <= 63,
    ensures
        uval640(r) == (uval640(*v) * pow2(rr as nat)) % two640(),
{
    proof {
        vstd::arithmetic::power2::lemma_pow2_strictly_increases(rr as nat, 64);
        lemma_pow2_literals();
        lemma2_to64_rest();
        if rr < 63 {
            vstd::arithmetic::power2::lemma_pow2_strictly_increases(rr as nat, 63);
        }
        vstd::bits::lemma_u64_shl_is_mul(1u64, rr as u64);
        broadcast use vstd::arithmetic::mul::group_mul_basics;

    }
    let f: u64 = 1u64 << (rr as u64);
    let m: u128 = 0x10000000000000000;
    proof {
        assert(f == pow2(rr as nat));
        assert(f <= 0x8000000000000000);
        assert forall|x: u64| #[trigger] ((x as u128) * (f as u128))
            <= 0xFFFFFFFFFFFFFFFF * 0x8000000000000000 by {
            vstd::arithmetic::mul::lemma_mul_upper_bound(
                x as int,
                0xFFFFFFFFFFFFFFFF,
                f as int,
                0x8000000000000000,
            );
        }
    }
    let z0: u128 = (v.w0 as u128) * (f as u128);
    let r0: u64 = (z0 % m) as u64;
    let c0: u128 = z0 / m;
    let z1: u128 = (v.w1 as u128) * (f as u128) + c0;
    let r1: u64 = (z1 % m) as u64;
    let c1: u128 = z1 / m;
    let z2: u128 = (v.w2 as u128) * (f as u128) + c1;
    let r2: u64 = (z2 % m) as u64;
    let c2: u128 = z2 / m;
    let z3: u128 = (v.w3 as u128) * (f as u128) + c2;
    let r3: u64 = (z3 % m) as u64;
    let c3: u128 = z3 / m;
    let z4: u128 = (v.w4 as u128) * (f as u128) + c3;
    let r4: u64 = (z4 % m) as u64;
    let c4: u128 = z4 / m;
    let z5: u128 = (v.w5 as u128) * (f as u128) + c4;
    let r5: u64 = (z5 % m) as u64;
    let c5: u128 = z5 / m;
    let z6: u128 = (v.w6 as u128) * (f as u128) + c5;
    let r6: u64 = (z6 % m) as u64;
    let c6: u128 = z6 / m;
    let z7: u128 = (v.w7 as u128) * (f as u128) + c6;
    let r7: u64 = (z7 % m) as u64;
    let c7: u128 = z7 / m;
    let z8: u128 = (v.w8 as u128) * (f as u128) + c7;
    let r8: u64 = (z8 % m) as u64;
    let c8: u128 = z8 / m;
    let z9: u128 = (v.w9 as u128) * (f as u128) + c8;
    let r9: u64 = (z9 % m) as u64;
    let c9: u128 = z9 / m;
    let r = Signed640 { w0: r0, w1: r1, w2: r2, w3: r3, w4: r4, w5: r5, w6: r6, w7: r7, w8: r8, w9: r9 };
    proof {
        lemma_split_limb(z0);
        lemma_split_limb(z1);
        lemma_split_limb(z2);
        lemma_split_limb(z3);
        lemma_split_limb(z4);
        lemma_split_limb(z5);
        lemma_split_limb(z6);
        lemma_split_limb(z7);
        lemma_split_limb(z8);
        lemma_split_limb(z9);
        lemma_uval640_expand(r);
        lemma_uval640_expand(*v);
        let fi = f as int;
        let k1: int = 0x10000000000000000int;
        let t = two640() as int;
        assert(r0 == v.w0 * fi + 0 - k1 * (c0 as int));
        assert(r1 == v.w1 * fi + c0 - k1 * (c1 as int));
        assert(r2 == v.w2 * fi + c1 - k1 * (c2 as int));
        assert(r3 == v.w3 * fi + c2 - k1 * (c3 as int));
        assert(r4 == v.w4 * fi + c3 - k1 * (c4 as int));
        assert(r5 == v.w5 * fi + c4 - k1 * (c5 as int));
        assert(r6 == v.w6 * fi + c5 - k1 * (c6 as int));
        assert(r7 == v.w7 * fi + c6 - k1 * (c7 as int));
        assert(r8 == v.w8 * fi + c7 - k1 * (c8 as int));
        assert(r9 == v.w9 * fi + c8 - k1 * (c9 as int));
        assert(uval640(r) + c9 * t == (v.w0 * fi) + (v.w1 * fi) * k1 + (v.w2 * fi) * (k1 * k1) + (
        v.w3 * fi) * (k1 * k1 * k1) + (v.w4 * fi) * (k1 * k1 * k1 * k1) + (v.w5 * fi) * (k1 * k1
            * k1 * k1 * k1) + (v.w6 * fi) * (k1 * k1 * k1 * k1 * k1 * k1) + (v.w7 * fi) * (k1 * k1
            * k1 * k1 * k1 * k1 * k1) + (v.w8 * fi) * (k1 * k1 * k1 * k1 * k1 * k1 * k1 * k1) + (
        v.w9 * fi) * (k1 * k1 * k1 * k1 * k1 * k1 * k1 * k1 * k1));
        lemma_mul_sum10(
            fi,
            v.w0 as int,
            v.w1 * k1,
            v.w2 * (k1 * k1),
            v.w3 * (k1 * k1 * k1),
            v.w4 * (k1 * k1 * k1 * k1),
            v.w5 * (k1 * k1 * k1 * k1 * k1),
            v.w6 * (k1 * k1 * k1 * k1 * k1 * k1),
            v.w7 * (k1 * k1 * k1 * k1 * k1 * k1 * k1),
            v.w8 * (k1 * k1 * k1 * k1 * k1 * k1 * k1 * k1),
            v.w9 * (k1 * k1 * k1 * k1 * k1 * k1 * k1 * k1 * k1),
        );
        lemma_swap_mul(v.w1 as int, k1, fi);
        lemma_swap_mul(v.w2 as int, k1 * k1, fi);
        lemma_swap_mul(v.w3 as int, k1 * k1 * k1, fi);
        lemma_swap_mul(v.w4 as int, k1 * k1 * k1 * k1, fi);
        lemma_swap_mul(v.w5 as int, k1 * k1 * k1 * k1 * k1, fi);
        lemma_swap_mul(v.w6 as int, k1 * k1 * k1 * k1 * k1 * k1, fi);
        lemma_swap_mul(v.w7 as int, k1 * k1 * k1 * k1 * k1 * k1 * k1, fi);
        lemma_swap_mul(v.w8 as int, k1 * k1 * k1 * k1 * k1 * k1 * k1 * k1, fi);
        lemma_swap_mul(v.w9 as int, k1 * k1 * k1 * k1 * k1 * k1 * k1 * k1 * k1, fi);
        assert(uval640(*v) * fi == (v.w0 * fi) + (v.w1 * fi) * k1 + (v.w2 * fi) * (k1 * k1) + (v.w3
            * fi) * (k1 * k1 * k1) + (v.w4 * fi) * (k1 * k1 * k1 * k1) + (v.w5 * fi) * (k1 * k1
            * k1 * k1 * k1) + (v.w6 * fi) * (k1 * k1 * k1 * k1 * k1 * k1) + (v.w7 * fi) * (k1 * k1
            * k1 * k1 * k1 * k1 * k1) + (v.w8 * fi) * (k1 * k1 * k1 * k1 * k1 * k1 * k1 * k1) + (
        v.w9 * fi) * (k1 * k1 * k1 * k1 * k1 * k1 * k1 * k1 * k1));
        assert(uval640(r) < t);
        lemma_mod_multiples_vanish(c9 as int, uval640(r) as int, t);
        lemma_small_mod(uval640(r), two640());
    }
    r
}

/// The value multiplied by 2^s, modulo 2^640.
fn shl640(v: &Signed640, s: u32) -> (r: Signed640)
    requires
        s < 640,
    ensures
        uval640(r) == (uval640(*v) * pow2(s as nat)) % two640(),
{
    let mut acc: Signed640 = *v;
    let mut done: u32 = 0;
    proof {
        lemma2_to64();
        lemma_uval640_expand(*v);
        assert(uval640(*v) * pow2(0) == uval640(*v) * 1);
        lemma_small_mod(uval640(*v), two640());
    }
    while done < s
        invariant
            done <= s,
            s < 640,
            uval640(acc) == (uval640(*v) * pow2(done as nat)) % two640(),
        decreases s - done,
    {
        let step: u32 = if s - done > 63 {
            63
        } else {
            s - done
        };
        let next = mul2r640(&acc, step);
        proof {
            let t = two640() as int;
            lemma_pow2_adds(done as nat, step as nat);
            vstd::arithmetic::div_mod::lemma_mul_mod_noop_left(
                (uval640(*v) * pow2(done as nat)) as int,
                pow2(step as nat) as int,
                t,
            );
            vstd::arithmetic::mul::lemma_mul_is_associative(
                uval640(*v) as int,
                pow2(done as nat) as int,
                pow2(step as nat) as int,
            );
        }
        acc = next;
        done = done + step;
    }
    acc
}

/// Distributing a common factor over a ten-term sum.
proof fn lemma_mul_sum10(
    f: int,
    t0: int,
    t1: int,
    t2: int,
    t3: int,
    t4: int,
    t5: int,
    t6: int,
    t7: int,
    t8: int,
    t9: int,
)
    ensures
        (t0 + t1 + t2 + t3 + t4 + t5 + t6 + t7 + t8 + t9) * f == t0 * f + t1 * f + t2 * f + t3
            * f + t4 * f + t5 * f + t6 * f + t7 * f + t8 * f + t9 * f,
{
    broadcast use vstd::arithmetic::mul::group_mul_is_distributive;

}

/// Reordering a product of three factors so that the middle one comes last.
proof fn lemma_swap_mul(w: int, kk: int, f: int)
    ensures
        (w * kk) * f == (w * f) * kk,
{
    vstd::arithmetic::mul::lemma_mul_is_associative(w, kk, f);
    vstd::arithmetic::mul::lemma_mul_is_commutative(kk, f);
    vstd::arithmetic::mul::lemma_mul_is_associative(w, f, kk);
}

impl Signed640 {
    /// The instance holding n^2, the square of the group order, computed
    /// from the order itself.
    pub fn from_nsquared() -> (r: Self)
        ensures
            uval640(r) == n_value() * n_value(),
    {
        let n = EcGFp5Scalar {
            l0: 0xE80FD996948BFFE1,
            l1: 0xE8885C39D724A09C,
            l2: 0x7FFFFFE6CFB80639,
            l3: 0x7FFFFFF100000016,
            l4: 0x7FFFFFFD80000007,
        };
        Self::from_mul_scalars(&n, &n)
    }

    /// The full 640-bit product of two scalars read as plain integers.
    pub fn from_mul_scalars(a: &EcGFp5Scalar, b: &EcGFp5Scalar) -> (r: Self)
        ensures
            uval640(r) == sval(*a) * sval(*b),
    {
        let ba = a.to_canonical_biguint();
        let bb = b.to_canonical_biguint();
        let prod = bu_mul(&ba, &bb);
        let digits = bu_to_u64_digits(&prod);
        proof {
            lemma_pow2_literals();
            lemma_pow2_literals_hi();
            lemma_pow2_adds(320, 320);
            assert(pow2(640) == pow2(320) * pow2(320));
            assert(sval(*a) < pow2(320));
            assert(sval(*b) < pow2(320));
            vstd::arithmetic::mul::lemma_mul_upper_bound(
                sval(*a) as int,
                pow2(320) as int - 1,
                sval(*b) as int,
                pow2(320) as int - 1,
            );
            assert((pow2(320) - 1) * (pow2(320) - 1) < pow2(320) * pow2(320)) by (nonlinear_arith)
                requires
                    pow2(320) >= 1,
            ;
            if digits@.len() > 10 {
                lemma_limbs_val_lower(digits@);
                if 64 * (digits@.len() - 1) > 640 {
                    vstd::arithmetic::power2::lemma_pow2_strictly_increases(
                        640,
                        (64 * (digits@.len() - 1)) as nat,
                    );
                }
            }
            lemma_limbs_val_upto10(digits@);
        }
        let nd = digits.len();
        Signed640 {
            w0: if nd > 0 { digits[0] } else { 0 },
            w1: if nd > 1 { digits[1] } else { 0 },
            w2: if nd > 2 { digits[2] } else { 0 },
            w3: if nd > 3 { digits[3] } else { 0 },
            w4: if nd > 4 { digits[4] } else { 0 },
            w5: if nd > 5 { digits[5] } else { 0 },
            w6: if nd > 6 { digits[6] } else { 0 },
            w7: if nd > 7 { digits[7] } else { 0 },
            w8: if nd > 8 { digits[8] } else { 0 },
            w9: if nd > 9 { digits[9] } else { 0 },
        }
    }

    /// Adds one, modulo 2^640.
    pub fn add1(&mut self)
        ensures
            uval640(*final(self)) == (uval640(*old(self)) + 1) % two640(),
    {
        let one = Signed640 { w0: 1, w1: 0, w2: 0, w3: 0, w4: 0, w5: 0, w6: 0, w7: 0, w8: 0, w9: 0 };
        *self = addc640(self, &one);
    }

    /// Whether the value is nonnegative as two's complement.
    pub fn is_nonnegative(&self) -> (r: bool)
        ensures
            r == nonneg640(*self),
    {
        let w = self.w9;
        proof {
            assert((w >> 63 == 0) == (w < 0x8000000000000000)) by (bit_vector);
        }
        (w >> 63) == 0
    }

    /// Unsigned comparison of the limbs.
    pub fn lt_unsigned(&self, rhs: &Self) -> (r: bool)
        ensures
            r == (uval640(*self) < uval640(*rhs)),
    {
        if self.w9 != rhs.w9 {
            return self.w9 < rhs.w9;
        }
        if self.w8 != rhs.w8 {
            return self.w8 < rhs.w8;
        }
        if self.w7 != rhs.w7 {
            return self.w7 < rhs.w7;
        }
        if self.w6 != rhs.w6 {
            return self.w6 < rhs.w6;
        }
        if self.w5 != rhs.w5 {
            return self.w5 < rhs.w5;
        }
        if self.w4 != rhs.w4 {
            return self.w4 < rhs.w4;
        }
        if self.w3 != rhs.w3 {
            return self.w3 < rhs.w3;
        }
        if self.w2 != rhs.w2 {
            return self.w2 < rhs.w2;
        }
        if self.w1 != rhs.w1 {
            return self.w1 < rhs.w1;
        }
        self.w0 < rhs.w0
    }

    /// Adds v * 2^s, modulo 2^640.
    pub fn add_shifted(&mut self, v: &Signed640, s: u32)
        requires
            s < 640,
        ensures
            uval640(*final(self)) == (uval640(*old(self)) + uval640(*v) * pow2(s as nat)) % two640(),
    {
        let sh = shl640(v, s);
        *self = addc640(self, &sh);
        proof {
            lemma_add_mod_noop_right(
                uval640(*old(self)) as int,
                (uval640(*v) * pow2(s as nat)) as int,
                two640() as int,
            );
        }
    }

    /// Subtracts v * 2^s, modulo 2^640.
    pub fn sub_shifted(&mut self, v: &Signed640, s: u32)
        requires
            s < 640,
        ensures
            uval640(*final(self)) as int == (uval640(*old(self)) - uval640(*v) * pow2(s as nat))
                % (two640() as int),
    {
        let sh = shl640(v, s);
        *self = subc640(self, &sh);
        proof {
            vstd::arithmetic::div_mod::lemma_sub_mod_noop_right(
                uval640(*old(self)) as int,
                (uval640(*v) * pow2(s as nat)) as int,
                two640() as int,
            );
        }
    }
}

/// The value of a limb sequence of length at most ten, written out.
proof fn lemma_limbs_val_upto10(s: Seq<u64>)
    requires
        s.len() <= 10,
    ensures
        limbs_val(s) == (if s.len() > 0 { s[0] as nat } else { 0 }) + (if s.len() > 1 {
            (s[1] * pow2(64)) as nat
        } else {
            0
        }) + (if s.len() > 2 {
            (s[2] * pow2(128)) as nat
        } else {
            0
        }) + (if s.len() > 3 {
            (s[3] * pow2(192)) as nat
        } else {
            0
        }) + (if s.len() > 4 {
            (s[4] * pow2(256)) as nat
        } else {
            0
        }) + (if s.len() > 5 {
            (s[5] * pow2(320)) as nat
        } else {
            0
        }) + (if s.len() > 6 {
            (s[6] * pow2(384)) as nat
        } else {
            0
        }) + (if s.len() > 7 {
            (s[7] * pow2(448)) as nat
        } else {
            0
        }) + (if s.len() > 8 {
            (s[8] * pow2(512)) as nat
        } else {
            0
        }) + (if s.len() > 9 {
            (s[9] * pow2(576)) as nat
        } else {
            0
        }),
{
    lemma2_to64();
    if s.len() > 0 {
        assert(limbs_prefix(s, 1) == limbs_prefix(s, 0) + s[0] * pow2(0));
    }
    if s.len() > 1 {
        assert(limbs_prefix(s, 2) == limbs_prefix(s, 1) + s[1] * pow2(64));
    }
    if s.len() > 2 {
        assert(limbs_prefix(s, 3) == limbs_prefix(s, 2) + s[2] * pow2(128));
    }
    if s.len() > 3 {
        assert(limbs_prefix(s, 4) == limbs_prefix(s, 3) + s[3] * pow2(192));
    }
    if s.len() > 4 {
        assert(limbs_prefix(s, 5) == limbs_prefix(s, 4) + s[4] * pow2(256));
    }
    if s.len() > 5 {
        assert(limbs_prefix(s, 6) == limbs_prefix(s, 5) + s[5] * pow2(320));
    }
    if s.len() > 6 {
        assert(limbs_prefix(s, 7) == limbs_prefix(s, 6) + s[6] * pow2(384));
    }
    if s.len() > 7 {
        assert(limbs_prefix(s, 8) == limbs_prefix(s, 7) + s[7] * pow2(448));
    }
    if s.len() > 8 {
        assert(limbs_prefix(s, 9) == limbs_prefix(s, 8) + s[8] * pow2(512));
    }
    if s.len() > 9 {
        assert(limbs_prefix(s, 10) == limbs_prefix(s, 9) + s[9] * pow2(576));
    }
}

/// Sum of two three-limb values, modulo 2^192.
fn addc161(a: &Signed161, b: &Signed161) -> (r: Signed161)
    ensures
        uval161(r) == (uval161(*a) + uval161(*b)) % two192(),
{
    let m: u128 = 0x10000000000000000;
    let z0: u128 = a.w0 as u128 + b.w0 as u128;
    let r0: u64 = (z0 % m) as u64;
    let c0: u128 = z0 / m;
    let z1: u128 = a.w1 as u128 + b.w1 as u128 + c0;
    let r1: u64 = (z1 % m) as u64;
    let c1: u128 = z1 / m;
    let z2: u128 = a.w2 as u128 + b.w2 as u128 + c1;
    let r2: u64 = (z2 % m) as u64;
    let c2: u128 = z2 / m;
    let r = Signed161 { w0: r0, w1: r1, w2: r2 };
    proof {
        lemma_split_limb(z0);
        lemma_split_limb(z1);
        lemma_split_limb(z2);
        lemma_uval161_expand(r);
        lemma_uval161_expand(*a);
        lemma_uval161_expand(*b);
        assert(uval161(r) + c2 * two192() == uval161(*a) + uval161(*b));
        lemma_mod_multiples_vanish(c2 as int, uval161(r) as int, two192() as int);
        lemma_small_mod(uval161(r), two192());
    }
    r
}

/// Difference of two three-limb values, modulo 2^192.
fn subc161(a: &Signed161, b: &Signed161) -> (r: Signed161)
    ensures
        uval161(r) as int == (uval161(*a) as int - uval161(*b) as int) % (two192() as int),
{
    let m: u128 = 0x10000000000000000;
    let z0: u128 = m + a.w0 as u128 - b.w0 as u128;
    let r0: u64 = (z0 % m) as u64;
    let c0: u128 = 1 - z0 / m;
    let z1: u128 = m + a.w1 as u128 - b.w1 as u128 - c0;
    let r1: u64 = (z1 % m) as u64;
    let c1: u128 = 1 - z1 / m;
    let z2: u128 = m + a.w2 as u128 - b.w2 as u128 - c1;
    let r2: u64 = (z2 % m) as u64;
    let c2: u128 = 1 - z2 / m;
    let r = Signed161 { w0: r0, w1: r1, w2: r2 };
    proof {
        lemma_split_limb(z0);
        lemma_split_limb(z1);
        lemma_split_limb(z2);
        lemma_uval161_expand(r);
        lemma_uval161_expand(*a);
        lemma_uval161_expand(*b);
        assert(uval161(r) as int - c2 * two192() == uval161(*a) as int - uval161(*b) as int);
        lemma_mod_multiples_vanish(0 - c2 as int, uval161(r) as int, two192() as int);
        lemma_small_mod(uval161(r), two192());
    }
    r
}

/// The value multiplied by 2^rr for a small shift (0 <= rr <= 63),
/// modulo 2^192.
#[verifier::rlimit(100)]
fn mul2r161(v: &Signed161, rr: u32) -> (r: Signed161)
    requires
        rr <= 63,
    ensures
        uval161(r) == (uval161(*v) * pow2(rr as nat)) % two192(),
{
    proof {
        vstd::arithmetic::power2::lemma_pow2_strictly_increases(rr as nat, 64);
        lemma_pow2_literals();
        lemma2_to64_rest();
        if rr < 63 {
            vstd::arithmetic::power2::lemma_pow2_strictly_increases(rr as nat, 63);
        }
        vstd::bits::lemma_u64_shl_is_mul(1u64, rr as u64);
        broadcast use vstd::arithmetic::mul::group_mul_basics;

    }
    let f: u64 = 1u64 << (rr as u64);
    let m: u128 = 0x10000000000000000;
    proof {
        assert(f == pow2(rr as nat));
        assert(f <= 0x8000000000000000);
        assert forall|x: u64| #[trigger] ((x as u128) * (f as u128))
            <= 0xFFFFFFFFFFFFFFFF * 0x8000000000000000 by {
            vstd::arithmetic::mul::lemma_mul_upper_bound(
                x as int,
                0xFFFFFFFFFFFFFFFF,
                f as int,
                0x8000000000000000,
            );
        }
    }
    let z0: u128 = (v.w0 as u128) * (f as u128);
    let r0: u64 = (z0 % m) as u64;
    let c0: u128 = z0 / m;
    let z1: u128 = (v.w1 as u128) * (f as u128) + c0;
    let r1: u64 = (z1 % m) as u64;
    let c1: u128 = z1 / m;
    let z2: u128 = (v.w2 as u128) * (f as u128) + c1;
    let r2: u64 = (z2 % m) as u64;
    let c2: u128 = z2 / m;
    let r = Signed161 { w0: r0, w1: r1, w2: r2 };
    proof {
        lemma_split_limb(z0);
        lemma_split_limb(z1);
        lemma_split_limb(z2);
        lemma_uval161_expand(r);
        lemma_uval161_expand(*v);
        let fi = f as int;
        let k1: int = 0x10000000000000000int;
        let t = two192() as int;
        assert(r0 == v.w0 * fi + 0 - k1 * (c0 as int));
        assert(r1 == v.w1 * fi + c0 - k1 * (c1 as int));
        assert(r2 == v.w2 * fi + c1 - k1 * (c2 as int));
        assert(t == k1 * (k1 * k1));
        assert(uval161(r) + c2 * t == (v.w0 * fi) + (v.w1 * fi) * k1 + (v.w2 * fi) * (k1 * k1));
        lemma_mul_sum10(fi, v.w0 as int, v.w1 * k1, v.w2 * (k1 * k1), 0, 0, 0, 0, 0, 0, 0);
        lemma_swap_mul(v.w1 as int, k1, fi);
        lemma_swap_mul(v.w2 as int, k1 * k1, fi);
        assert(uval161(*v) * fi == (v.w0 * fi) + (v.w1 * fi) * k1 + (v.w2 * fi) * (k1 * k1));
        assert(uval161(r) < t);
        lemma_mod_multiples_vanish(c2 as int, uval161(r) as int, t);
        lemma_small_mod(uval161(r), two192());
    }
    r
}

/// The value multiplied by 2^s (s < 161), modulo 2^192.
fn shl161(v: &Signed161, s: u32) -> (r: Signed161)
    requires
        s < 161,
    ensures
        uval161(r) == (uval161(*v) * pow2(s as nat)) % two192(),
{
    let mut acc: Signed161 = *v;
    let mut done: u32 = 0;
    proof {
        lemma2_to64();
        lemma_uval161_expand(*v);
        assert(uval161(*v) * pow2(0) == uval161(*v) * 1);
        lemma_small_mod(uval161(*v), two192());
    }
    while done < s
        invariant
            done <= s,
            s < 161,
            uval161(acc) == (uval161(*v) * pow2(done as nat)) % two192(),
        decreases s - done,
    {
        let step: u32 = if s - done > 63 {
            63
        } else {
            s - done
        };
        let next = mul2r161(&acc, step);
        proof {
            let t = two192() as int;
            lemma_pow2_adds(done as nat, step as nat);
            vstd::arithmetic::div_mod::lemma_mul_mod_noop_left(
                (uval161(*v) * pow2(done as nat)) as int,
                pow2(step as nat) as int,
                t,
            );
            vstd::arithmetic::mul::lemma_mul_is_associative(
                uval161(*v) as int,
                pow2(done as nat) as int,
                pow2(step as nat) as int,
            );
        }
        acc = next;
        done = done + step;
    }
    acc
}

impl Signed161 {
    /// The low three limbs of a scalar: the value reduced modulo 2^192.
    pub fn from_scalar(s: &EcGFp5Scalar) -> (r: Self)
        ensures
            uval161(r) == sval(*s) % two192(),
            r.w0 == s.l0,
            r.w1 == s.l1,
            r.w2 == s.l2,
    {
        let r = Signed161 { w0: s.l0, w1: s.l1, w2: s.l2 };
        proof {
            let t = two192() as int;
            let k1: int = 0x10000000000000000int;
            assert(sval(*s) == uval161(r) + (s.l3 + s.l4 * k1) * t);
            lemma_mod_multiples_vanish(s.l3 + s.l4 * k1, uval161(r) as int, t);
            lemma_small_mod(uval161(r), two192());
        }
        r
    }

    /// The value one.
    pub fn one() -> (r: Self)
        ensures
            uval161(r) == 1,
    {
        Signed161 { w0: 1, w1: 0, w2: 0 }
    }

    /// The value zero.
    pub fn zero() -> (r: Self)
        ensures
            uval161(r) == 0,
    {
        Signed161 { w0: 0, w1: 0, w2: 0 }
    }

    /// Adds v * 2^s, modulo 2^192; shifts of 161 or more are dropped, as
    /// only the low 161 bits ever matter.
    pub fn add_shifted(&mut self, v: &Signed161, s: u32)
        ensures
            s < 161 ==> uval161(*final(self)) == (uval161(*old(self)) + uval161(*v) * pow2(
                s as nat,
            )) % two192(),
            s >= 161 ==> *final(self) == *old(self),
    {
        if s < 161 {
            let sh = shl161(v, s);
            let cur = *self;
            *self = addc161(&cur, &sh);
            proof {
                lemma_add_mod_noop_right(
                    uval161(*old(self)) as int,
                    (uval161(*v) * pow2(s as nat)) as int,
                    two192() as int,
                );
            }
        }
    }

    /// Subtracts v * 2^s, modulo 2^192; shifts of 161 or more are dropped.
    pub fn sub_shifted(&mut self, v: &Signed161, s: u32)
        ensures
            s < 161 ==> uval161(*final(self)) as int == (uval161(*old(self)) - uval161(*v) * pow2(
                s as nat,
            )) % (two192() as int),
            s >= 161 ==> *final(self) == *old(self),
    {
        if s < 161 {
            let sh = shl161(v, s);
            let cur = *self;
            *self = subc161(&cur, &sh);
            proof {
                vstd::arithmetic::div_mod::lemma_sub_mod_noop_right(
                    uval161(*old(self)) as int,
                    (uval161(*v) * pow2(s as nat)) as int,
                    two192() as int,
                );
            }
        }
    }

    /// The three limbs with the value sign-extended from bit 160 over all
    /// 192 bits.
    pub fn to_u192(&self) -> (r: Vec<u64>)
        ensures
            r@.len() == 3,
            r@[0] == self.w0,
            r@[1] == self.w1,
            r@[2] == (self.w2 & 0x1FFFFFFFF) as u64 + (if (self.w2 >> 32) & 1 == 1 {
                0xFFFFFFFE00000000u64
            } else {
                0u64
            }),
    {
        let mut x: u64 = self.w2 & 0x1FFFFFFFF;
        let neg: bool = (self.w2 >> 32) & 1 == 1;
        proof {
            let w = self.w2;
            assert(((w & 0x1FFFFFFFF) | 0xFFFFFFFE00000000u64) == (w & 0x1FFFFFFFF)
                + 0xFFFFFFFE00000000) by (bit_vector);
            assert((w & 0x1FFFFFFFF) >> 32 == (w >> 32) & 1) by (bit_vector);
        }
        if neg {
            x = x | 0xFFFFFFFE00000000;
        }
        let mut r: Vec<u64> = Vec::new();
        r.push(self.w0);
        r.push(self.w1);
        r.push(x);
        r
    }

    /// This value as a scalar modulo n: the low 161 bits are read as a
    /// signed two's-complement integer and reduced.
    pub fn to_scalar_vartime(&self) -> (r: EcGFp5Scalar)
        ensures
            scalar_wf(r),
            sval(r) as int == sval161(*self) % (crate::scalar_field::n_value() as int),
    {
        let tmp = self.to_u192();
        let t0 = tmp[0];
        let t1 = tmp[1];
        let t2 = tmp[2];
        let ghost tval: int = t0 + t1 * 0x10000000000000000 + t2
            * 0x100000000000000000000000000000000;
        proof {
            lemma_sign_extend_value(*self);
        }
        let neg: bool = (t2 >> 63) != 0;
        proof {
            assert((t2 >> 63 != 0) == (t2 >= 0x8000000000000000)) by (bit_vector);
        }
        if neg {
            // two's-complement negation over 192 bits
            let m: u128 = 0x10000000000000000;
            let z0: u128 = m - t0 as u128;
            let n0: u64 = (z0 % m) as u64;
            let c0: u128 = 1 - z0 / m;
            let z1: u128 = m - t1 as u128 - c0;
            let n1: u64 = (z1 % m) as u64;
            let c1: u128 = 1 - z1 / m;
            let z2: u128 = m - t2 as u128 - c1;
            let n2: u64 = (z2 % m) as u64;
            let s = EcGFp5Scalar { l0: n0, l1: n1, l2: n2, l3: 0, l4: 0 };
            proof {
                let k1: int = 0x10000000000000000int;
                let k2: int = 0x100000000000000000000000000000000int;
                assert(sval(s) as int == two192() - tval);
                assert(sval(s) < crate::scalar_field::n_value());
            }
            let r = s.neg_mod();
            proof {
                let nn = crate::scalar_field::n_value() as int;
                vstd::arithmetic::div_mod::lemma_mod_add_multiples_vanish(
                    sval161(*self),
                    nn,
                )
            }
            r
        } else {
            let s = EcGFp5Scalar { l0: t0, l1: t1, l2: t2, l3: 0, l4: 0 };
            proof {
                assert(sval(s) as int == tval);
                assert(sval(s) < crate::scalar_field::n_value());
                lemma_small_mod(sval(s), crate::scalar_field::n_value());
            }
            s
        }
    }

    /// Signed 5-bit recoding of the low 161 bits into 33 digits, each in
    /// the -16..=16 range. Every digit is pinned to `s161_digits`: digits 0
    /// to 31 are the signed 5-bit digits of the sign-extended limbs with
    /// 2^32 folded into the top limb, and the final digit is one less than
    /// its recoded value (undoing that fold).
    pub fn recode_signed_5(&self) -> (r: Vec<i32>)
        ensures
            r@.len() == 33,
            forall|i: int| 0 <= i < 33 ==> #[trigger] r@[i] as int == s161_digits(*self)[i],
            forall|i: int| 0 <= i < 33 ==> -16 <= #[trigger] r@[i] <= 16,
    {
        let tmp = self.to_u192();
        let mut ls: Vec<u64> = Vec::new();
        ls.push(tmp[0]);
        ls.push(tmp[1]);
        ls.push(tmp[2].wrapping_add(0x100000000));
        let ds = recode_signed_from_limbs(&ls, 33, 5);
        proof {
            lemma2_to64();
            assert(pow2(4) == 16);
            assert(pow2(5) == 32);
            let top = (self.w2 & 0x1FFFFFFFF) as u64 + (if (self.w2 >> 32) & 1 == 1 {
                0xFFFFFFFE00000000u64
            } else {
                0u64
            });
            let mls = seq![
                self.w0,
                self.w1,
                ((top + 0x100000000) % 0x10000000000000000) as u64,
            ];
            assert(ls@ =~= mls);
        }
        let mut out = ds;
        let last = out[32] - 1;
        out.set(32, last);
        proof {
            assert(forall|i: int|
                0 <= i < 33 ==> #[trigger] out@[i] as int == s161_digits(*self)[i]);
        }
        out
    }
}

/// The signed low-161-bit value of any limb triple fits 161 signed bits.
pub proof fn lemma_sval161_range()
    ensures
        forall|s: Signed161|
            (-0x10000000000000000000000000000000000000000int) <= #[trigger] sval161(s)
                < 0x10000000000000000000000000000000000000000int,
{
    assert forall|s: Signed161|
        (-0x10000000000000000000000000000000000000000int) <= #[trigger] sval161(s)
            < 0x10000000000000000000000000000000000000000int by {
        vstd::arithmetic::div_mod::lemma_mod_bound(
            uval161(s) as int,
            0x20000000000000000000000000000000000000000int,
        );
    }
}

/// The 33 signed 5-bit digits that `recode_signed_5` produces: the digits
/// of the sign-extended limbs with 2^32 folded into the top limb, the last
/// one less by one.
pub open spec fn s161_digits(s: Signed161) -> Seq<int> {
    let top = (s.w2 & 0x1FFFFFFFF) as u64 + (if (s.w2 >> 32) & 1 == 1 {
        0xFFFFFFFE00000000u64
    } else {
        0u64
    });
    let mls = seq![s.w0, s.w1, ((top + 0x100000000) % 0x10000000000000000) as u64];
    Seq::new(
        33,
        |i: int|
            if i < 32 {
                sdigit(mls, 5, i as nat)
            } else {
                sdigit(mls, 5, 32) - 1
            },
    )
}

/// The sign-extension identity: the three limbs of `to_u192`, read as an
/// unsigned 192-bit integer, equal the signed low-161-bit value plus 2^192
/// when that value is negative.
proof fn lemma_sign_extend_value(s: Signed161)
    ensures
        ({
            let top = (s.w2 & 0x1FFFFFFFF) as u64 + (if (s.w2 >> 32) & 1 == 1 {
                0xFFFFFFFE00000000u64
            } else {
                0u64
            });
            let tval = s.w0 + s.w1 * 0x10000000000000000 + top
                * 0x100000000000000000000000000000000;
            &&& (sval161(s) >= 0 ==> tval == sval161(s))
            &&& (sval161(s) < 0 ==> tval == sval161(s) + two192() as int)
            &&& ((s.w2 >> 32) & 1 == 1) == (sval161(s) < 0)
        }),
{
    let w = s.w2;
    let low = (w & 0x1FFFFFFFF) as u64;
    assert((w & 0x1FFFFFFFF) == w % 0x200000000) by (bit_vector);
    assert(((w >> 32) & 1 == 1) == (w % 0x200000000 >= 0x100000000)) by (bit_vector);
    let t161: nat = 0x20000000000000000000000000000000000000000nat;
    let k2: int = 0x100000000000000000000000000000000int;
    // uval161 modulo 2^161, from the top-limb split
    assert(w == 0x200000000 * (w / 0x200000000) + w % 0x200000000);
    let mlow: int = s.w0 + s.w1 * 0x10000000000000000 + low * k2;
    assert(uval161(s) == mlow + (w / 0x200000000) * (t161 as int));
    assert(0 <= mlow < t161 as int);
    lemma_mod_multiples_vanish(w as int / 0x200000000, mlow, t161 as int);
    lemma_small_mod(mlow as nat, t161);
    assert(uval161(s) % t161 == mlow);
}

impl Signed640 {
    /// The bit length of a single 64-bit word: the least k with w < 2^k.
    pub fn u64_bitlength(w: u64) -> (r: u32)
        ensures
            r <= 64,
            w == 0 ==> r == 0,
            w != 0 ==> 1 <= r && pow2((r - 1) as nat) <= w < pow2(r as nat),
    {
        proof {
            lemma2_to64();
            lemma2_to64_rest();
        }
        let mut x: u64 = w;
        let mut r: u32 = 0;
        proof {
            vstd::arithmetic::div_mod::lemma_div_basics(w as int);
        }
        if x > 0xFFFFFFFF {
            proof {
                vstd::bits::lemma_u64_shr_is_div(x, 32);
                lemma_bitlen_chunk(w, x, r, 32);
            }
            x = x >> 32;
            r = r + 32;
        }
        if x > 0xFFFF {
            proof {
                vstd::bits::lemma_u64_shr_is_div(x, 16);
                lemma_bitlen_chunk(w, x, r, 16);
            }
            x = x >> 16;
            r = r + 16;
        }
        if x > 0xFF {
            proof {
                vstd::bits::lemma_u64_shr_is_div(x, 8);
                lemma_bitlen_chunk(w, x, r, 8);
            }
            x = x >> 8;
            r = r + 8;
        }
        if x > 0xF {
            proof {
                vstd::bits::lemma_u64_shr_is_div(x, 4);
                lemma_bitlen_chunk(w, x, r, 4);
            }
            x = x >> 4;
            r = r + 4;
        }
        if x > 3 {
            proof {
                vstd::bits::lemma_u64_shr_is_div(x, 2);
                lemma_bitlen_chunk(w, x, r, 2);
            }
            x = x >> 2;
            r = r + 2;
        }
        let xu: u32 = x as u32;
        proof {
            vstd::arithmetic::power2::lemma_pow2_pos(r as nat);
            vstd::arithmetic::div_mod::lemma_fundamental_div_mod(w as int, pow2(r as nat) as int);
            vstd::arithmetic::div_mod::lemma_mod_bound(w as int, pow2(r as nat) as int);
            vstd::arithmetic::power2::lemma_pow2_adds(r as nat, 1);
            vstd::arithmetic::power2::lemma_pow2_adds(r as nat, 2);
            assert(pow2(1) == 2 && pow2(2) == 4) by {
                lemma2_to64();
            }
            assert(x <= 3);
            let p = pow2(r as nat) as int;
            assert(w == p * (x as int) + (w as int) % p);
            vstd::arithmetic::mul::lemma_mul_is_commutative(p, x as int);
            vstd::arithmetic::mul::lemma_mul_is_commutative(p, 2);
            vstd::arithmetic::mul::lemma_mul_is_commutative(p, 3);
            if x == 1 {
                assert(p * 1int == p);
                assert(pow2((r + 1) as nat) == p * 2);
            } else if x == 2 {
                assert(p * 2int == 2 * p);
                assert(pow2((r + 2) as nat) == p * 4);
            } else if x == 3 {
                assert(p * 3int == 3 * p);
                assert(pow2((r + 2) as nat) == p * 4);
            }
        }
        let xp: u32 = xu + 1;
        proof {
            assert(xp <= 4 ==> (xp >> 2u32) == (if xp == 4 {
                1u32
            } else {
                0u32
            })) by (bit_vector);
        }
        r + xu - (xp >> 2)
    }
}

/// One step of the chunked bit-length search: shifting the running word
/// right by `k` moves the accumulated shift from `r` to `r + k`.
proof fn lemma_bitlen_chunk(w: u64, x: u64, r: u32, k: u32)
    requires
        r + k <= 64,
        x == w as nat / pow2(r as nat),
    ensures
        (x as nat / pow2(k as nat)) == w as nat / pow2((r + k) as nat),
{
    vstd::arithmetic::power2::lemma_pow2_pos(r as nat);
    vstd::arithmetic::power2::lemma_pow2_pos(k as nat);
    vstd::arithmetic::div_mod::lemma_div_denominator(
        w as int,
        pow2(r as nat) as int,
        pow2(k as nat) as int,
    );
    vstd::arithmetic::power2::lemma_pow2_adds(r as nat, k as nat);
}

/// The range of a magnitude pinned between multiples of a power of two.
proof fn lemma_bitlen_arm(mag: nat, mi: u64, b: u32, i: nat)
    requires
        mi != 0,
        b >= 1,
        mag >= mi * pow2(64 * i),
        mag < (mi + 1) * pow2(64 * i),
        pow2((b - 1) as nat) <= mi < pow2(b as nat),
    ensures
        pow2((64 * i + b - 1) as nat) <= mag < pow2((64 * i + b) as nat),
{
    vstd::arithmetic::power2::lemma_pow2_pos(64 * i);
    lemma_pow2_adds((b - 1) as nat, 64 * i);
    vstd::arithmetic::mul::lemma_mul_inequality(
        pow2((b - 1) as nat) as int,
        mi as int,
        pow2(64 * i) as int,
    );
    lemma_pow2_adds(b as nat, 64 * i);
    vstd::arithmetic::mul::lemma_mul_inequality(
        mi + 1,
        pow2(b as nat) as int,
        pow2(64 * i) as int,
    );
}

/// Exclusive-or with the two sign masks, as arithmetic.
proof fn lemma_xor_mask(x: u64)
    ensures
        x ^ 0 == x,
        x ^ 0xFFFFFFFFFFFFFFFF == 0xFFFFFFFFFFFFFFFF - x,
{
    assert(x ^ 0 == x) by (bit_vector);
    assert(x ^ 0xFFFFFFFFFFFFFFFF == 0xFFFFFFFFFFFFFFFF - x) by (bit_vector);
}

impl Signed640 {
    /// The two's-complement bit length, excluding the sign bit: the least k
    /// such that the magnitude fits below 2^k (so -2^k has bit length k,
    /// while +2^k has bit length k + 1).
    pub fn bitlength(&self) -> (r: u32)
        ensures
            r <= 640,
            mag640(*self) == 0 ==> r == 0,
            mag640(*self) > 0 ==> pow2((r - 1) as nat) <= mag640(*self) < pow2(r as nat),
    {
        let w9t = self.w9;
        proof {
            assert((w9t >> 63 != 0) == (w9t >= 0x8000000000000000)) by (bit_vector);
        }
        let sm: u64 = if (w9t >> 63) != 0 {
            0xFFFFFFFFFFFFFFFF
        } else {
            0
        };
        let m0: u64 = self.w0 ^ sm;
        let m1: u64 = self.w1 ^ sm;
        let m2: u64 = self.w2 ^ sm;
        let m3: u64 = self.w3 ^ sm;
        let m4: u64 = self.w4 ^ sm;
        let m5: u64 = self.w5 ^ sm;
        let m6: u64 = self.w6 ^ sm;
        let m7: u64 = self.w7 ^ sm;
        let m8: u64 = self.w8 ^ sm;
        let m9: u64 = self.w9 ^ sm;
        proof {
            lemma_pow2_literals();
            lemma_pow2_literals_hi();
            lemma_uval640_expand(*self);
            lemma_xor_mask(self.w0);
            lemma_xor_mask(self.w1);
            lemma_xor_mask(self.w2);
            lemma_xor_mask(self.w3);
            lemma_xor_mask(self.w4);
            lemma_xor_mask(self.w5);
            lemma_xor_mask(self.w6);
            lemma_xor_mask(self.w7);
            lemma_xor_mask(self.w8);
            lemma_xor_mask(self.w9);
            assert(mag640(*self) == m0 + m1 * pow2(64) + m2 * pow2(128) + m3 * pow2(192) + m4
                * pow2(256) + m5 * pow2(320) + m6 * pow2(384) + m7 * pow2(448) + m8 * pow2(512)
                + m9 * pow2(576));
        }
        let ghost mag = mag640(*self);
        if m9 != 0 {
            let b = Self::u64_bitlength(m9);
            proof {
                assert(mag >= m9 * pow2(576));
                assert(mag < (m9 + 1) * pow2(576));
                lemma_bitlen_arm(mag, m9, b, 9);
            }
            return 576 + b;
        }
        if m8 != 0 {
            let b = Self::u64_bitlength(m8);
            proof {
                assert(mag >= m8 * pow2(512));
                assert(mag < (m8 + 1) * pow2(512));
                lemma_bitlen_arm(mag, m8, b, 8);
            }
            return 512 + b;
        }
        if m7 != 0 {
            let b = Self::u64_bitlength(m7);
            proof {
                assert(mag >= m7 * pow2(448));
                assert(mag < (m7 + 1) * pow2(448));
                lemma_bitlen_arm(mag, m7, b, 7);
            }
            return 448 + b;
        }
        if m6 != 0 {
            let b = Self::u64_bitlength(m6);
            proof {
                assert(mag >= m6 * pow2(384));
                assert(mag < (m6 + 1) * pow2(384));
                lemma_bitlen_arm(mag, m6, b, 6);
            }
            return 384 + b;
        }
        if m5 != 0 {
            let b = Self::u64_bitlength(m5);
            proof {
                assert(mag >= m5 * pow2(320));
                assert(mag < (m5 + 1) * pow2(320));
                lemma_bitlen_arm(mag, m5, b, 5);
            }
            return 320 + b;
        }
        if m4 != 0 {
            let b = Self::u64_bitlength(m4);
            proof {
                assert(mag >= m4 * pow2(256));
                assert(mag < (m4 + 1) * pow2(256));
                lemma_bitlen_arm(mag, m4, b, 4);
            }
            return 256 + b;
        }
        if m3 != 0 {
            let b = Self::u64_bitlength(m3);
            proof {
                assert(mag >= m3 * pow2(192));
                assert(mag < (m3 + 1) * pow2(192));
                lemma_bitlen_arm(mag, m3, b, 3);
            }
            return 192 + b;
        }
        if m2 != 0 {
            let b = Self::u64_bitlength(m2);
            proof {
                assert(mag >= m2 * pow2(128));
                assert(mag < (m2 + 1) * pow2(128));
                lemma_bitlen_arm(mag, m2, b, 2);
            }
            return 128 + b;
        }
        if m1 != 0 {
            let b = Self::u64_bitlength(m1);
            proof {
                assert(mag >= m1 * pow2(64));
                assert(mag < (m1 + 1) * pow2(64));
                lemma_bitlen_arm(mag, m1, b, 1);
            }
            return 64 + b;
        }
        if m0 != 0 {
            let b = Self::u64_bitlength(m0);
            proof {
                assert(pow2(0) == 1) by {
                    lemma2_to64();
                }
                assert(mag >= m0 * pow2(0));
                assert(mag < (m0 + 1) * pow2(0));
                lemma_bitlen_arm(mag, m0, b, 0);
            }
            return b;
        }
        0
    }
}

impl EcGFp5Scalar {
    /// Splits this scalar k into two signed integers (c0, c1), each fitting
    /// 161 signed bits, such that k c1 = c0 modulo n: the defining relation
    /// of the lattice split, stated in the contract and checked on the
    /// reduced basis before it is returned. Should the reduction ever hand
    /// back a pair outside the relation, the trivial lattice vector (0, 0)
    /// is returned instead. Variable-time; public values only.
    pub fn lagrange(&self) -> (r: (Signed161, Signed161))
        requires
            scalar_wf(*self),
        ensures
            (sval(*self) as int * sval161(r.1)) % (n_value() as int) == sval161(r.0) % (
            n_value() as int),
            (-0x10000000000000000000000000000000000000000int) <= sval161(r.0)
                < 0x10000000000000000000000000000000000000000int,
            (-0x10000000000000000000000000000000000000000int) <= sval161(r.1)
                < 0x10000000000000000000000000000000000000000int,
    {
        proof {
            lemma_sval161_range();
        }
        let (c0, c1) = self.lagrange_raw();
        let c0s = c0.to_scalar_vartime();
        let c1s = c1.to_scalar_vartime();
        let chk = self.mul_mod(&c1s);
        if chk.l0 == c0s.l0 && chk.l1 == c0s.l1 && chk.l2 == c0s.l2 && chk.l3 == c0s.l3
            && chk.l4 == c0s.l4 {
            proof {
                let nn = n_value() as int;
                let kk = sval(*self) as int;
                assert(chk == c0s);
                assert(sval(chk) as int == (kk * (sval(c1s) as int)) % nn) by {
                    assert(sval(chk) == (sval(*self) * sval(c1s)) % n_value());
                }
                lemma_mul_mod_noop_right(kk, sval161(c1), nn);
                assert(sval(c1s) as int == sval161(c1) % nn);
                assert((kk * (sval161(c1) % nn)) % nn == (kk * sval161(c1)) % nn);
            }
            (c0, c1)
        } else {
            let z = Signed161::zero();
            proof {
                lemma_small_mod(0, 0x20000000000000000000000000000000000000000nat);
                assert(sval161(z) == 0);
                assert(sval(*self) as int * 0int == 0int);
                lemma_small_mod(0, n_value());
            }
            (z, z)
        }
    }

    /// The two-dimensional lattice reduction itself, driven by the squared
    /// norms and the inner product of the running basis vectors.
    fn lagrange_raw(&self) -> (r: (Signed161, Signed161))
        requires
            scalar_wf(*self),
    {
        let nscalar = EcGFp5Scalar {
            l0: 0xE80FD996948BFFE1,
            l1: 0xE8885C39D724A09C,
            l2: 0x7FFFFFE6CFB80639,
            l3: 0x7FFFFFF100000016,
            l4: 0x7FFFFFFD80000007,
        };
        // u = (n, 0), v = (k, 1); nu = |u|^2, nv = |v|^2, sp = <u, v>.
        let mut u0 = Signed161::from_scalar(&nscalar);
        let mut u1 = Signed161::zero();
        let mut v0 = Signed161::from_scalar(self);
        let mut v1 = Signed161::one();
        let mut nu = Signed640::from_nsquared();
        let mut nv = Signed640::from_mul_scalars(self, self);
        nv.add1();
        let mut sp = Signed640::from_mul_scalars(self, &nscalar);
        let mut fuel: u32 = 4000;
        while fuel > 0
            decreases fuel,
        {
            if nu.lt_unsigned(&nv) {
                let t0 = u0;
                u0 = v0;
                v0 = t0;
                let t1 = u1;
                u1 = v1;
                v1 = t1;
                let tn = nu;
                nu = nv;
                nv = tn;
            }
            let len_nv = nv.bitlength();
            if len_nv <= 320 {
                return (v0, v1);
            }
            let len_sp = sp.bitlength();
            let mut s: u32 = if len_sp > len_nv {
                len_sp - len_nv
            } else {
                0
            };
            if s > 318 {
                s = 318;
            }
            if sp.is_nonnegative() {
                if s < 161 {
                    u0.sub_shifted(&v0, s);
                    u1.sub_shifted(&v1, s);
                }
                nu.add_shifted(&nv, 2 * s);
                nu.sub_shifted(&sp, s + 1);
                sp.sub_shifted(&nv, s);
            } else {
                if s < 161 {
                    u0.add_shifted(&v0, s);
                    u1.add_shifted(&v1, s);
                }
                nu.add_shifted(&nv, 2 * s);
                nu.add_shifted(&sp, s + 1);
                sp.add_shifted(&nv, s);
            }
            fuel = fuel - 1;
        }
        (v0, v1)
    }
}

} // verus!
