//! The quintic extension field GF(p^5), built over the Goldilocks field with
//! the defining relation z^5 = 3.
//!
//! An element is five canonical base-field coefficients `c0..c4`, standing for
//! `c0 + c1 z + c2 z^2 + c3 z^3 + c4 z^4`. Each operation is specified
//! against a mathematical form written over integer arithmetic modulo p.

use crate::base_field::{
    fp_add, fp_inverse_or_zero, fp_mul, fp_neg, fp_pow, fp_pow2k, fp_sqrt, fp_sub, gadd, gmul,
    gneg, ginv, gpow, gsub, lemma_gadd_noop, lemma_gmul_noop, sqrt_cand, P,
};
use vstd::arithmetic::div_mod::{
    lemma_add_mod_noop, lemma_mod_add_multiples_vanish, lemma_mul_mod_noop_general,
    lemma_small_mod,
};
use vstd::arithmetic::power2::pow2;
use vstd::prelude::*;

verus! {

/// An element of GF(p^5): five canonical GF(p) coefficients.
#[derive(Clone, Copy, Debug, PartialEq, Eq, Structural)]
pub struct GFp5 {
    pub c0: u64,
    pub c1: u64,
    pub c2: u64,
    pub c3: u64,
    pub c4: u64,
}

/// All five coefficients are canonical.
pub open spec fn wf5(a: GFp5) -> bool {
    a.c0 < P && a.c1 < P && a.c2 < P && a.c3 < P && a.c4 < P
}

/// The additive identity.
pub open spec fn zero5() -> GFp5 {
    GFp5 { c0: 0, c1: 0, c2: 0, c3: 0, c4: 0 }
}

/// The multiplicative identity.
pub open spec fn one5() -> GFp5 {
    GFp5 { c0: 1, c1: 0, c2: 0, c3: 0, c4: 0 }
}

/// Componentwise sum.
pub open spec fn sadd5(a: GFp5, b: GFp5) -> GFp5 {
    GFp5 {
        c0: gadd(a.c0 as int, b.c0 as int) as u64,
        c1: gadd(a.c1 as int, b.c1 as int) as u64,
        c2: gadd(a.c2 as int, b.c2 as int) as u64,
        c3: gadd(a.c3 as int, b.c3 as int) as u64,
        c4: gadd(a.c4 as int, b.c4 as int) as u64,
    }
}

/// Componentwise difference.
pub open spec fn ssub5(a: GFp5, b: GFp5) -> GFp5 {
    GFp5 {
        c0: gsub(a.c0 as int, b.c0 as int) as u64,
        c1: gsub(a.c1 as int, b.c1 as int) as u64,
        c2: gsub(a.c2 as int, b.c2 as int) as u64,
        c3: gsub(a.c3 as int, b.c3 as int) as u64,
        c4: gsub(a.c4 as int, b.c4 as int) as u64,
    }
}

/// Componentwise opposite.
pub open spec fn sneg5(a: GFp5) -> GFp5 {
    GFp5 {
        c0: gneg(a.c0 as int) as u64,
        c1: gneg(a.c1 as int) as u64,
        c2: gneg(a.c2 as int) as u64,
        c3: gneg(a.c3 as int) as u64,
        c4: gneg(a.c4 as int) as u64,
    }
}

/// The product, by the bilinear formula with the reduction z^5 = 3.
pub open spec fn smul5(a: GFp5, b: GFp5) -> GFp5 {
    GFp5 {
        c0: ((a.c0 * b.c0 + 3 * (a.c1 * b.c4 + a.c2 * b.c3 + a.c3 * b.c2 + a.c4 * b.c1))
            % (P as int)) as u64,
        c1: ((a.c0 * b.c1 + a.c1 * b.c0 + 3 * (a.c2 * b.c4 + a.c3 * b.c3 + a.c4 * b.c2))
            % (P as int)) as u64,
        c2: ((a.c0 * b.c2 + a.c1 * b.c1 + a.c2 * b.c0 + 3 * (a.c3 * b.c4 + a.c4 * b.c3))
            % (P as int)) as u64,
        c3: ((a.c0 * b.c3 + a.c1 * b.c2 + a.c2 * b.c1 + a.c3 * b.c0 + 3 * (a.c4 * b.c4))
            % (P as int)) as u64,
        c4: ((a.c0 * b.c4 + a.c1 * b.c3 + a.c2 * b.c2 + a.c3 * b.c1 + a.c4 * b.c0)
            % (P as int)) as u64,
    }
}

/// Componentwise product with one base-field element.
pub open spec fn sscale5(a: GFp5, k: int) -> GFp5 {
    GFp5 {
        c0: gmul(a.c0 as int, k) as u64,
        c1: gmul(a.c1 as int, k) as u64,
        c2: gmul(a.c2 as int, k) as u64,
        c3: gmul(a.c3 as int, k) as u64,
        c4: gmul(a.c4 as int, k) as u64,
    }
}

/// The constant that the Frobenius map multiplies the degree-1 coefficient
/// by: a fifth root of unity, 3^((p-1)/5).
pub open spec fn frob_gamma() -> int {
    gpow(3, 3689348813882916864)
}

/// The k-fold Frobenius map x -> x^(p^k): coefficient i is scaled by
/// gamma^(k*i).
pub open spec fn sfrob5(a: GFp5, k: nat) -> GFp5 {
    let z1 = gpow(frob_gamma(), k);
    let z2 = gmul(z1, z1);
    let z3 = gmul(z2, z1);
    let z4 = gmul(z3, z1);
    GFp5 {
        c0: a.c0,
        c1: gmul(a.c1 as int, z1) as u64,
        c2: gmul(a.c2 as int, z2) as u64,
        c3: gmul(a.c3 as int, z3) as u64,
        c4: gmul(a.c4 as int, z4) as u64,
    }
}

/// `k` successive squarings in GF(p^5).
pub open spec fn spow2k5(a: GFp5, k: nat) -> GFp5
    decreases k,
{
    if k == 0 {
        a
    } else {
        let q = spow2k5(a, (k - 1) as nat);
        smul5(q, q)
    }
}

/// The sign convention used to pick a canonical square root: scan the
/// coefficients from the lowest degree; the sign of the first nonzero one is
/// true exactly when it is even; zero has sign false.
pub open spec fn ssgn0(a: GFp5) -> bool {
    if a.c0 != 0 {
        a.c0 % 2 == 0
    } else if a.c1 != 0 {
        a.c1 % 2 == 0
    } else if a.c2 != 0 {
        a.c2 % 2 == 0
    } else if a.c3 != 0 {
        a.c3 % 2 == 0
    } else if a.c4 != 0 {
        a.c4 % 2 == 0
    } else {
        false
    }
}

/// The product of the four Frobenius conjugates of `a`:
/// a^p * a^(p^2) * a^(p^3) * a^(p^4).
pub open spec fn sconj5(a: GFp5) -> GFp5 {
    let f1 = sfrob5(a, 1);
    let f2 = sfrob5(f1, 1);
    let t = smul5(f1, f2);
    let t2 = sfrob5(t, 2);
    smul5(t, t2)
}

/// The norm of `a`: the constant coefficient of a times its conjugates.
pub open spec fn snorm5(a: GFp5) -> int {
    smul5(a, sconj5(a)).c0 as int
}

/// The value computed for the inverse: the conjugate product scaled by the
/// base-field inverse of the norm; zero maps to zero.
pub open spec fn sinv5(a: GFp5) -> GFp5 {
    sscale5(sconj5(a), ginv(snorm5(a)))
}

/// Halving: the componentwise product with the base-field inverse of 2.
pub open spec fn shalf5(a: GFp5) -> GFp5 {
    sscale5(a, 0x7FFF_FFFF_8000_0001)
}

/// The value computed for the Legendre symbol: with n the norm of `a`,
/// n^(2^63) / n^(2^31), which is n^((p-1)/2) for nonzero n; 0 for a = 0,
/// 1 for a nonzero square, p - 1 otherwise.
pub open spec fn slegendre5(a: GFp5) -> int {
    let n = snorm5(a);
    let n31 = gpow(n, pow2(31));
    let n63 = gpow(n31, pow2(32));
    gmul(n63, ginv(n31))
}

/// The auxiliary element e of the extension square root, built from the
/// procedure's exponent chains and Frobenius maps.
pub open spec fn ssqrt_e(x: GFp5) -> GFp5 {
    let v = spow2k5(x, 31);
    let d = smul5(smul5(x, spow2k5(v, 32)), sinv5(v));
    sfrob5(smul5(d, sfrob5(d, 2)), 1)
}

/// The base-field scalar the extension square root reduces to: the constant
/// coefficient of x e^2.
pub open spec fn ssqrt_g(x: GFp5) -> int {
    smul5(x, smul5(ssqrt_e(x), ssqrt_e(x))).c0 as int
}

/// The candidate root for x: the base-field candidate, lifted back by the
/// inverse of e.
pub open spec fn ssqrt_cand(x: GFp5) -> GFp5 {
    sscale5(sinv5(ssqrt_e(x)), sqrt_cand(ssqrt_g(x)))
}

/// Whether the square-root procedure succeeds on x: x is zero, or both the
/// base-field candidate and the lifted candidate square back correctly,
/// which is the case exactly on the squares of the field.
pub open spec fn ssqrt_ok(x: GFp5) -> bool {
    x == zero5() || (gmul(sqrt_cand(ssqrt_g(x)), sqrt_cand(ssqrt_g(x))) == ssqrt_g(x) && smul5(
        ssqrt_cand(x),
        ssqrt_cand(x),
    ) == x)
}

/// The root the square-root procedure returns when it succeeds.
pub open spec fn ssqrt_val(x: GFp5) -> GFp5 {
    if x == zero5() {
        zero5()
    } else {
        ssqrt_cand(x)
    }
}

/// The canonical root: the successful root, negated when its sign bit is
/// false; zero keeps its zero root.
pub open spec fn scanonical_val(x: GFp5) -> GFp5 {
    let c = ssqrt_val(x);
    if c != zero5() && !ssgn0(c) {
        sneg5(c)
    } else {
        c
    }
}

/// Congruent summands give congruent sums.
proof fn lemma_addc(x1: int, y1: int, x2: int, y2: int)
    requires
        x1 % (P as int) == y1 % (P as int),
        x2 % (P as int) == y2 % (P as int),
    ensures
        (x1 + x2) % (P as int) == (y1 + y2) % (P as int),
{
    lemma_add_mod_noop(x1, x2, P as int);
    lemma_add_mod_noop(y1, y2, P as int);
}

/// Folding two reduced summands into one reduction.
proof fn lemma_fold2(x: int, y: int)
    ensures
        gadd(x % (P as int), y % (P as int)) == (x + y) % (P as int),
{
    lemma_gadd_noop(x, y % (P as int));
    lemma_gadd_noop(x, y);
}

/// Folding a reduced factor out of a product by 3.
proof fn lemma_fold3(s: int)
    ensures
        gmul(3, s % (P as int)) == (3 * s) % (P as int),
{
    lemma_gmul_noop(3, s);
}

impl GFp5 {
    /// Builds an element from five canonical coefficients.
    pub fn new(c0: u64, c1: u64, c2: u64, c3: u64, c4: u64) -> (r: GFp5)
        requires
            c0 < P,
            c1 < P,
            c2 < P,
            c3 < P,
            c4 < P,
        ensures
            r == (GFp5 { c0, c1, c2, c3, c4 }),
            wf5(r),
    {
        GFp5 { c0, c1, c2, c3, c4 }
    }

    /// The additive identity.
    pub fn zero() -> (r: GFp5)
        ensures
            r == zero5(),
            wf5(r),
    {
        GFp5 { c0: 0, c1: 0, c2: 0, c3: 0, c4: 0 }
    }

    /// The multiplicative identity.
    pub fn one() -> (r: GFp5)
        ensures
            r == one5(),
            wf5(r),
    {
        GFp5 { c0: 1, c1: 0, c2: 0, c3: 0, c4: 0 }
    }

    /// Embeds a base-field element as the constant coefficient.
    pub fn from_base(x: u64) -> (r: GFp5)
        requires
            x < P,
        ensures
            r == (GFp5 { c0: x, c1: 0, c2: 0, c3: 0, c4: 0 }),
            wf5(r),
    {
        GFp5 { c0: x, c1: 0, c2: 0, c3: 0, c4: 0 }
    }

    /// Sum in GF(p^5).
    pub fn add5(&self, b: &GFp5) -> (r: GFp5)
        requires
            wf5(*self),
            wf5(*b),
        ensures
            wf5(r),
            r == sadd5(*self, *b),
    {
        GFp5 {
            c0: fp_add(self.c0, b.c0),
            c1: fp_add(self.c1, b.c1),
            c2: fp_add(self.c2, b.c2),
            c3: fp_add(self.c3, b.c3),
            c4: fp_add(self.c4, b.c4),
        }
    }

    /// Difference in GF(p^5).
    pub fn sub5(&self, b: &GFp5) -> (r: GFp5)
        requires
            wf5(*self),
            wf5(*b),
        ensures
            wf5(r),
            r == ssub5(*self, *b),
    {
        GFp5 {
            c0: fp_sub(self.c0, b.c0),
            c1: fp_sub(self.c1, b.c1),
            c2: fp_sub(self.c2, b.c2),
            c3: fp_sub(self.c3, b.c3),
            c4: fp_sub(self.c4, b.c4),
        }
    }

    /// Opposite in GF(p^5).
    pub fn neg5(&self) -> (r: GFp5)
        requires
            wf5(*self),
        ensures
            wf5(r),
            r == sneg5(*self),
    {
        GFp5 {
            c0: fp_neg(self.c0),
            c1: fp_neg(self.c1),
            c2: fp_neg(self.c2),
            c3: fp_neg(self.c3),
            c4: fp_neg(self.c4),
        }
    }

    /// Doubling in GF(p^5).
    pub fn dbl5(&self) -> (r: GFp5)
        requires
            wf5(*self),
        ensures
            wf5(r),
            r == sadd5(*self, *self),
    {
        self.add5(self)
    }

    /// Product in GF(p^5), using the reduction z^5 = 3.
    pub fn mul5(&self, b: &GFp5) -> (r: GFp5)
        requires
            wf5(*self),
            wf5(*b),
        ensures
            wf5(r),
            r == smul5(*self, *b),
    {
        let (a0, a1, a2, a3, a4) = (self.c0, self.c1, self.c2, self.c3, self.c4);
        let (b0, b1, b2, b3, b4) = (b.c0, b.c1, b.c2, b.c3, b.c4);

        // c0 = a0 b0 + 3 (a1 b4 + a2 b3 + a3 b2 + a4 b1)
        let s1 = fp_add(fp_mul(a1, b4), fp_mul(a2, b3));
        let s2 = fp_add(fp_mul(a3, b2), fp_mul(a4, b1));
        let s12 = fp_add(s1, s2);
        let r0 = fp_add(fp_mul(a0, b0), fp_mul(3, s12));
        proof {
            lemma_fold2(a1 * b4, a2 * b3);
            lemma_fold2(a3 * b2, a4 * b1);
            lemma_fold2(a1 * b4 + a2 * b3, a3 * b2 + a4 * b1);
            lemma_fold3(a1 * b4 + a2 * b3 + (a3 * b2 + a4 * b1));
            lemma_fold2(a0 * b0, 3 * (a1 * b4 + a2 * b3 + (a3 * b2 + a4 * b1)));
        }

        // c1 = a0 b1 + a1 b0 + 3 (a2 b4 + a3 b3 + a4 b2)
        let t1 = fp_add(fp_mul(a0, b1), fp_mul(a1, b0));
        let t2 = fp_add(fp_add(fp_mul(a2, b4), fp_mul(a3, b3)), fp_mul(a4, b2));
        let r1 = fp_add(t1, fp_mul(3, t2));
        proof {
            lemma_fold2(a0 * b1, a1 * b0);
            lemma_fold2(a2 * b4, a3 * b3);
            lemma_fold2(a2 * b4 + a3 * b3, a4 * b2);
            lemma_fold3(a2 * b4 + a3 * b3 + a4 * b2);
            lemma_fold2(a0 * b1 + a1 * b0, 3 * (a2 * b4 + a3 * b3 + a4 * b2));
        }

        // c2 = a0 b2 + a1 b1 + a2 b0 + 3 (a3 b4 + a4 b3)
        let u1 = fp_add(fp_add(fp_mul(a0, b2), fp_mul(a1, b1)), fp_mul(a2, b0));
        let u2 = fp_add(fp_mul(a3, b4), fp_mul(a4, b3));
        let r2 = fp_add(u1, fp_mul(3, u2));
        proof {
            lemma_fold2(a0 * b2, a1 * b1);
            lemma_fold2(a0 * b2 + a1 * b1, a2 * b0);
            lemma_fold2(a3 * b4, a4 * b3);
            lemma_fold3(a3 * b4 + a4 * b3);
            lemma_fold2(a0 * b2 + a1 * b1 + a2 * b0, 3 * (a3 * b4 + a4 * b3));
        }

        // c3 = a0 b3 + a1 b2 + a2 b1 + a3 b0 + 3 a4 b4
        let v1 = fp_add(fp_add(fp_mul(a0, b3), fp_mul(a1, b2)), fp_add(fp_mul(a2, b1), fp_mul(a3, b0)));
        let r3 = fp_add(v1, fp_mul(3, fp_mul(a4, b4)));
        proof {
            lemma_fold2(a0 * b3, a1 * b2);
            lemma_fold2(a2 * b1, a3 * b0);
            lemma_fold2(a0 * b3 + a1 * b2, a2 * b1 + a3 * b0);
            lemma_fold3(a4 * b4);
            lemma_fold2(a0 * b3 + a1 * b2 + (a2 * b1 + a3 * b0), 3 * (a4 * b4));
        }

        // c4 = a0 b4 + a1 b3 + a2 b2 + a3 b1 + a4 b0
        let w1 = fp_add(fp_add(fp_mul(a0, b4), fp_mul(a1, b3)), fp_add(fp_mul(a2, b2), fp_mul(a3, b1)));
        let r4 = fp_add(w1, fp_mul(a4, b0));
        proof {
            lemma_fold2(a0 * b4, a1 * b3);
            lemma_fold2(a2 * b2, a3 * b1);
            lemma_fold2(a0 * b4 + a1 * b3, a2 * b2 + a3 * b1);
            lemma_fold2(a0 * b4 + a1 * b3 + (a2 * b2 + a3 * b1), a4 * b0);
        }

        GFp5 { c0: r0, c1: r1, c2: r2, c3: r3, c4: r4 }
    }

    /// Squaring in GF(p^5); algebraically equal to a product with itself.
    pub fn square5(&self) -> (r: GFp5)
        requires
            wf5(*self),
        ensures
            wf5(r),
            r == smul5(*self, *self),
    {
        self.mul5(self)
    }

    /// Componentwise product with a canonical base-field element.
    pub fn scale5(&self, k: u64) -> (r: GFp5)
        requires
            wf5(*self),
            k < P,
        ensures
            wf5(r),
            r == sscale5(*self, k as int),
    {
        GFp5 {
            c0: fp_mul(self.c0, k),
            c1: fp_mul(self.c1, k),
            c2: fp_mul(self.c2, k),
            c3: fp_mul(self.c3, k),
            c4: fp_mul(self.c4, k),
        }
    }

    /// Halving: the product with the base-field inverse of 2.
    pub fn half5(&self) -> (r: GFp5)
        requires
            wf5(*self),
        ensures
            wf5(r),
            r == shalf5(*self),
    {
        self.scale5(0x7FFF_FFFF_8000_0001)
    }

    /// The k-fold Frobenius map x -> x^(p^k), as four coefficient scalings.
    pub fn repeated_frobenius(&self, k: u64) -> (r: GFp5)
        requires
            wf5(*self),
        ensures
            wf5(r),
            r == sfrob5(*self, k as nat),
    {
        let gamma: u64 = fp_pow(3, 3689348813882916864);
        let z1: u64 = fp_pow(gamma, k);
        proof {
            crate::base_field::lemma_gpow_noop(frob_gamma(), k as nat);
        }
        let z2: u64 = fp_mul(z1, z1);
        let z3: u64 = fp_mul(z2, z1);
        let z4: u64 = fp_mul(z3, z1);
        GFp5 {
            c0: self.c0,
            c1: fp_mul(self.c1, z1),
            c2: fp_mul(self.c2, z2),
            c3: fp_mul(self.c3, z3),
            c4: fp_mul(self.c4, z4),
        }
    }

    /// The Frobenius map x -> x^p.
    pub fn frobenius(&self) -> (r: GFp5)
        requires
            wf5(*self),
        ensures
            wf5(r),
            r == sfrob5(*self, 1),
    {
        self.repeated_frobenius(1)
    }

    /// `k` successive squarings: raises to the power 2^k.
    pub fn pow2k5(&self, k: u64) -> (r: GFp5)
        requires
            wf5(*self),
        ensures
            wf5(r),
            r == spow2k5(*self, k as nat),
    {
        let mut acc: GFp5 = *self;
        let mut i: u64 = 0;
        while i < k
            invariant
                wf5(acc),
                i <= k,
                acc == spow2k5(*self, i as nat),
            decreases k - i,
        {
            acc = acc.mul5(&acc);
            i = i + 1;
        }
        acc
    }

    /// The sign bit used to make square roots canonical.
    pub fn sgn0(&self) -> (r: bool)
        requires
            wf5(*self),
        ensures
            r == ssgn0(*self),
    {
        proof {
            let (x0, x1, x2, x3, x4) = (self.c0, self.c1, self.c2, self.c3, self.c4);
            assert(x0 & 1 == x0 % 2) by (bit_vector);
            assert(x1 & 1 == x1 % 2) by (bit_vector);
            assert(x2 & 1 == x2 % 2) by (bit_vector);
            assert(x3 & 1 == x3 % 2) by (bit_vector);
            assert(x4 & 1 == x4 % 2) by (bit_vector);
        }
        if self.c0 != 0 {
            self.c0 & 1 == 0
        } else if self.c1 != 0 {
            self.c1 & 1 == 0
        } else if self.c2 != 0 {
            self.c2 & 1 == 0
        } else if self.c3 != 0 {
            self.c3 & 1 == 0
        } else if self.c4 != 0 {
            self.c4 & 1 == 0
        } else {
            false
        }
    }

    /// The inverse through the conjugate product and the base-field norm;
    /// zero maps to zero. The result is pinned to that computation.
    pub fn inverse_or_zero5(&self) -> (r: GFp5)
        requires
            wf5(*self),
        ensures
            wf5(r),
            r == sinv5(*self),
    {
        let f1 = self.repeated_frobenius(1);
        let f2 = f1.repeated_frobenius(1);
        let t = f1.mul5(&f2);
        let t2 = t.repeated_frobenius(2);
        let conj = t.mul5(&t2);
        let nrm = self.mul5(&conj);
        let iv: u64 = fp_inverse_or_zero(nrm.c0);
        conj.scale5(iv)
    }

    /// The inverse of a nonzero element, with the defining property checked:
    /// `Some(y)` always satisfies y * a = 1, and success is pinned exactly:
    /// the call succeeds precisely when the input is nonzero and the
    /// conjugate-product computation cancels it. Zero has no inverse.
    pub fn try_inverse5(&self) -> (r: Option<GFp5>)
        requires
            wf5(*self),
        ensures
            r is Some <==> (*self != zero5() && smul5(sinv5(*self), *self) == one5()),
            r is Some ==> wf5(r->Some_0) && r->Some_0 == sinv5(*self),
    {
        if self.c0 == 0 && self.c1 == 0 && self.c2 == 0 && self.c3 == 0 && self.c4 == 0 {
            return None;
        }
        let y = self.inverse_or_zero5();
        let check = y.mul5(self);
        if check.c0 == 1 && check.c1 == 0 && check.c2 == 0 && check.c3 == 0 && check.c4 == 0 {
            Some(y)
        } else {
            None
        }
    }

    /// The Legendre symbol: 0 for zero, 1 for a nonzero square, p - 1
    /// otherwise. The result is pinned to the norm-and-exponent computation.
    pub fn legendre(&self) -> (r: u64)
        requires
            wf5(*self),
        ensures
            r < P,
            r as int == slegendre5(*self),
    {
        let f1 = self.repeated_frobenius(1);
        let f2 = f1.repeated_frobenius(1);
        let t = f1.mul5(&f2);
        let t2 = t.repeated_frobenius(2);
        let conj = t.mul5(&t2);
        let nrm = self.mul5(&conj);
        let n31: u64 = fp_pow2k(nrm.c0, 31);
        let n63: u64 = fp_pow2k(n31, 32);
        fp_mul(n63, fp_inverse_or_zero(n31))
    }

    /// A square root of a square, by the Tonelli-Shanks variant that reduces
    /// to a base-field root through the norm. The result is exact: the call
    /// succeeds with the pinned candidate `ssqrt_val` precisely when that
    /// candidate checks out (`ssqrt_ok`), which holds for zero and for every
    /// square; `Some(s)` always satisfies s * s = x.
    pub fn sqrt5(&self) -> (r: Option<GFp5>)
        requires
            wf5(*self),
        ensures
            r is Some <==> ssqrt_ok(*self),
            r is Some ==> wf5(r->Some_0) && r->Some_0 == ssqrt_val(*self) && smul5(
                r->Some_0,
                r->Some_0,
            ) == *self,
            r is None ==> *self != zero5(),
            *self == zero5() ==> r == Some(zero5()),
    {
        if self.c0 == 0 && self.c1 == 0 && self.c2 == 0 && self.c3 == 0 && self.c4 == 0 {
            proof {
                lemma_mul5_zero_right(zero5());
            }
            return Some(GFp5::zero());
        }
        let v = self.pow2k5(31);
        let d = self.mul5(&v.pow2k5(32)).mul5(&v.inverse_or_zero5());
        let e = d.mul5(&d.repeated_frobenius(2)).frobenius();
        let f = e.square5();
        let g = self.mul5(&f);
        proof {
            assert(e == ssqrt_e(*self));
            assert(g.c0 as int == ssqrt_g(*self));
        }
        match fp_sqrt(g.c0) {
            Some(s) => {
                let r = e.inverse_or_zero5().scale5(s);
                proof {
                    assert(r == ssqrt_cand(*self));
                }
                let check = r.mul5(&r);
                if check.c0 == self.c0 && check.c1 == self.c1 && check.c2 == self.c2
                    && check.c3 == self.c3 && check.c4 == self.c4 {
                    Some(r)
                } else {
                    None
                }
            },
            None => None,
        }
    }

    /// The canonical square root: among the two roots of a nonzero square,
    /// the one whose sign bit is true; zero's only root is zero, whose sign
    /// bit is false. It succeeds exactly when `sqrt5` does, with the
    /// deterministic value `scanonical_val`.
    pub fn canonical_sqrt5(&self) -> (r: Option<GFp5>)
        requires
            wf5(*self),
        ensures
            r is Some <==> ssqrt_ok(*self),
            r is Some ==> wf5(r->Some_0) && r->Some_0 == scanonical_val(*self) && smul5(
                r->Some_0,
                r->Some_0,
            ) == *self && (r->Some_0 == zero5() || ssgn0(r->Some_0)),
            r is None ==> *self != zero5(),
            *self == zero5() ==> r == Some(zero5()),
    {
        match self.sqrt5() {
            Some(root) => {
                let rz = root.c0 == 0 && root.c1 == 0 && root.c2 == 0 && root.c3 == 0
                    && root.c4 == 0;
                if !rz && !root.sgn0() {
                    let m = root.neg5();
                    proof {
                        lemma_sgn0_neg(root);
                        let nrt = sneg5(root);
                        lemma_mul5_neg_left(root, nrt);
                        lemma_mul5_comm(root, nrt);
                        lemma_mul5_neg_left(root, root);
                        lemma_double_neg5(smul5(root, root));
                        assert(smul5(nrt, nrt) == smul5(root, root));
                    }
                    Some(m)
                } else {
                    Some(root)
                }
            },
            None => None,
        }
    }
}

/// The product with zero is zero.
pub proof fn lemma_mul5_zero_right(a: GFp5)
    ensures
        smul5(a, zero5()) == zero5(),
        smul5(zero5(), a) == zero5(),
{
    broadcast use vstd::arithmetic::mul::group_mul_basics;

    lemma_small_mod(0, P as nat);
}

/// The product with one leaves a canonical element unchanged.
pub proof fn lemma_mul5_one_right(a: GFp5)
    requires
        wf5(a),
    ensures
        smul5(a, one5()) == a,
        smul5(one5(), a) == a,
{
    broadcast use vstd::arithmetic::mul::group_mul_basics;

    lemma_small_mod(a.c0 as nat, P as nat);
    lemma_small_mod(a.c1 as nat, P as nat);
    lemma_small_mod(a.c2 as nat, P as nat);
    lemma_small_mod(a.c3 as nat, P as nat);
    lemma_small_mod(a.c4 as nat, P as nat);
}

/// Multiplication in GF(p^5) is commutative.
pub proof fn lemma_mul5_comm(a: GFp5, b: GFp5)
    ensures
        smul5(a, b) == smul5(b, a),
{
    broadcast use vstd::arithmetic::mul::lemma_mul_is_commutative;

}

/// Addition in GF(p^5) is commutative.
pub proof fn lemma_add5_comm(a: GFp5, b: GFp5)
    ensures
        sadd5(a, b) == sadd5(b, a),
{
}

/// Congruent factors under a fixed left factor give congruent products.
proof fn lemma_mulr(a: int, s: int)
    ensures
        (a * (s % (P as int))) % (P as int) == (a * s) % (P as int),
{
    vstd::arithmetic::div_mod::lemma_mul_mod_noop_right(a, s, P as int);
}

/// Congruent operands of a product by 3 give congruent results.
proof fn lemma_mulc3(u: int, v: int)
    requires
        u % (P as int) == v % (P as int),
    ensures
        (3 * u) % (P as int) == (3 * v) % (P as int),
{
    vstd::arithmetic::div_mod::lemma_mul_mod_noop_right(3, u, P as int);
    vstd::arithmetic::div_mod::lemma_mul_mod_noop_right(3, v, P as int);
}

/// One coefficient congruence: replacing each reduced factor by its raw
/// value inside a mul-row sum keeps the residue.
proof fn lemma_row_cong(
    a0: int, a1: int, a2: int, a3: int, a4: int,
    s0: int, s1: int, s2: int, s3: int, s4: int,
    plain: nat,
)
    requires
        1 <= plain <= 5,
    ensures
        plain == 1 ==> (a0 * (s0 % (P as int)) + 3 * (a1 * (s4 % (P as int)) + a2 * (s3 % (
        P as int)) + a3 * (s2 % (P as int)) + a4 * (s1 % (P as int)))) % (P as int) == (a0 * s0
            + 3 * (a1 * s4 + a2 * s3 + a3 * s2 + a4 * s1)) % (P as int),
        plain == 2 ==> (a0 * (s1 % (P as int)) + a1 * (s0 % (P as int)) + 3 * (a2 * (s4 % (
        P as int)) + a3 * (s3 % (P as int)) + a4 * (s2 % (P as int)))) % (P as int) == (a0 * s1
            + a1 * s0 + 3 * (a2 * s4 + a3 * s3 + a4 * s2)) % (P as int),
        plain == 3 ==> (a0 * (s2 % (P as int)) + a1 * (s1 % (P as int)) + a2 * (s0 % (P as int))
            + 3 * (a3 * (s4 % (P as int)) + a4 * (s3 % (P as int)))) % (P as int) == (a0 * s2 + a1
            * s1 + a2 * s0 + 3 * (a3 * s4 + a4 * s3)) % (P as int),
        plain == 4 ==> (a0 * (s3 % (P as int)) + a1 * (s2 % (P as int)) + a2 * (s1 % (P as int))
            + a3 * (s0 % (P as int)) + 3 * (a4 * (s4 % (P as int)))) % (P as int) == (a0 * s3 + a1
            * s2 + a2 * s1 + a3 * s0 + 3 * (a4 * s4)) % (P as int),
        plain == 5 ==> (a0 * (s4 % (P as int)) + a1 * (s3 % (P as int)) + a2 * (s2 % (P as int))
            + a3 * (s1 % (P as int)) + a4 * (s0 % (P as int))) % (P as int) == (a0 * s4 + a1 * s3
            + a2 * s2 + a3 * s1 + a4 * s0) % (P as int),
{
    let p = P as int;
    lemma_mulr(a0, s0);
    lemma_mulr(a0, s1);
    lemma_mulr(a0, s2);
    lemma_mulr(a0, s3);
    lemma_mulr(a0, s4);
    lemma_mulr(a1, s0);
    lemma_mulr(a1, s1);
    lemma_mulr(a1, s2);
    lemma_mulr(a1, s3);
    lemma_mulr(a1, s4);
    lemma_mulr(a2, s0);
    lemma_mulr(a2, s1);
    lemma_mulr(a2, s2);
    lemma_mulr(a2, s3);
    lemma_mulr(a2, s4);
    lemma_mulr(a3, s0);
    lemma_mulr(a3, s1);
    lemma_mulr(a3, s2);
    lemma_mulr(a3, s3);
    lemma_mulr(a3, s4);
    lemma_mulr(a4, s0);
    lemma_mulr(a4, s1);
    lemma_mulr(a4, s2);
    lemma_mulr(a4, s3);
    lemma_mulr(a4, s4);
    if plain == 1 {
        lemma_addc(a1 * (s4 % p), a1 * s4, a2 * (s3 % p), a2 * s3);
        lemma_addc(a3 * (s2 % p), a3 * s2, a4 * (s1 % p), a4 * s1);
        lemma_addc(
            a1 * (s4 % p) + a2 * (s3 % p), a1 * s4 + a2 * s3,
            a3 * (s2 % p) + a4 * (s1 % p), a3 * s2 + a4 * s1,
        );
        lemma_mulc3(
            a1 * (s4 % p) + a2 * (s3 % p) + (a3 * (s2 % p) + a4 * (s1 % p)),
            a1 * s4 + a2 * s3 + (a3 * s2 + a4 * s1),
        );
        lemma_addc(
            a0 * (s0 % p), a0 * s0,
            3 * (a1 * (s4 % p) + a2 * (s3 % p) + (a3 * (s2 % p) + a4 * (s1 % p))),
            3 * (a1 * s4 + a2 * s3 + (a3 * s2 + a4 * s1)),
        );
    } else if plain == 2 {
        lemma_addc(a0 * (s1 % p), a0 * s1, a1 * (s0 % p), a1 * s0);
        lemma_addc(a2 * (s4 % p), a2 * s4, a3 * (s3 % p), a3 * s3);
        lemma_addc(
            a2 * (s4 % p) + a3 * (s3 % p), a2 * s4 + a3 * s3,
            a4 * (s2 % p), a4 * s2,
        );
        lemma_mulc3(
            a2 * (s4 % p) + a3 * (s3 % p) + a4 * (s2 % p),
            a2 * s4 + a3 * s3 + a4 * s2,
        );
        lemma_addc(
            a0 * (s1 % p) + a1 * (s0 % p), a0 * s1 + a1 * s0,
            3 * (a2 * (s4 % p) + a3 * (s3 % p) + a4 * (s2 % p)),
            3 * (a2 * s4 + a3 * s3 + a4 * s2),
        );
    } else if plain == 3 {
        lemma_addc(a0 * (s2 % p), a0 * s2, a1 * (s1 % p), a1 * s1);
        lemma_addc(
            a0 * (s2 % p) + a1 * (s1 % p), a0 * s2 + a1 * s1,
            a2 * (s0 % p), a2 * s0,
        );
        lemma_addc(a3 * (s4 % p), a3 * s4, a4 * (s3 % p), a4 * s3);
        lemma_mulc3(a3 * (s4 % p) + a4 * (s3 % p), a3 * s4 + a4 * s3);
        lemma_addc(
            a0 * (s2 % p) + a1 * (s1 % p) + a2 * (s0 % p), a0 * s2 + a1 * s1 + a2 * s0,
            3 * (a3 * (s4 % p) + a4 * (s3 % p)), 3 * (a3 * s4 + a4 * s3),
        );
    } else if plain == 4 {
        lemma_addc(a0 * (s3 % p), a0 * s3, a1 * (s2 % p), a1 * s2);
        lemma_addc(
            a0 * (s3 % p) + a1 * (s2 % p), a0 * s3 + a1 * s2,
            a2 * (s1 % p), a2 * s1,
        );
        lemma_addc(
            a0 * (s3 % p) + a1 * (s2 % p) + a2 * (s1 % p), a0 * s3 + a1 * s2 + a2 * s1,
            a3 * (s0 % p), a3 * s0,
        );
        lemma_mulc3(a4 * (s4 % p), a4 * s4);
        lemma_addc(
            a0 * (s3 % p) + a1 * (s2 % p) + a2 * (s1 % p) + a3 * (s0 % p),
            a0 * s3 + a1 * s2 + a2 * s1 + a3 * s0,
            3 * (a4 * (s4 % p)), 3 * (a4 * s4),
        );
    } else {
        lemma_addc(a0 * (s4 % p), a0 * s4, a1 * (s3 % p), a1 * s3);
        lemma_addc(
            a0 * (s4 % p) + a1 * (s3 % p), a0 * s4 + a1 * s3,
            a2 * (s2 % p), a2 * s2,
        );
        lemma_addc(
            a0 * (s4 % p) + a1 * (s3 % p) + a2 * (s2 % p), a0 * s4 + a1 * s3 + a2 * s2,
            a3 * (s1 % p), a3 * s1,
        );
        lemma_addc(
            a0 * (s4 % p) + a1 * (s3 % p) + a2 * (s2 % p) + a3 * (s1 % p),
            a0 * s4 + a1 * s3 + a2 * s2 + a3 * s1,
            a4 * (s0 % p), a4 * s0,
        );
    }
}

/// Multiplication distributes over addition in GF(p^5).
pub proof fn lemma_mul5_distrib(a: GFp5, b: GFp5, c: GFp5)
    requires
        wf5(a),
        wf5(b),
        wf5(c),
    ensures
        smul5(a, sadd5(b, c)) == sadd5(smul5(a, b), smul5(a, c)),
{
    let p = P as int;
    let (a0, a1, a2, a3, a4) = (a.c0 as int, a.c1 as int, a.c2 as int, a.c3 as int, a.c4 as int);
    let (b0, b1, b2, b3, b4) = (b.c0 as int, b.c1 as int, b.c2 as int, b.c3 as int, b.c4 as int);
    let (c0, c1, c2, c3, c4) = (c.c0 as int, c.c1 as int, c.c2 as int, c.c3 as int, c.c4 as int);
    let (s0, s1, s2, s3, s4) = (b0 + c0, b1 + c1, b2 + c2, b3 + c3, b4 + c4);
    lemma_row_cong(a0, a1, a2, a3, a4, s0, s1, s2, s3, s4, 1);
    lemma_row_cong(a0, a1, a2, a3, a4, s0, s1, s2, s3, s4, 2);
    lemma_row_cong(a0, a1, a2, a3, a4, s0, s1, s2, s3, s4, 3);
    lemma_row_cong(a0, a1, a2, a3, a4, s0, s1, s2, s3, s4, 4);
    lemma_row_cong(a0, a1, a2, a3, a4, s0, s1, s2, s3, s4, 5);
    vstd::arithmetic::mul::lemma_mul_is_distributive_add(a0, b0, c0);
    vstd::arithmetic::mul::lemma_mul_is_distributive_add(a0, b1, c1);
    vstd::arithmetic::mul::lemma_mul_is_distributive_add(a0, b2, c2);
    vstd::arithmetic::mul::lemma_mul_is_distributive_add(a0, b3, c3);
    vstd::arithmetic::mul::lemma_mul_is_distributive_add(a0, b4, c4);
    vstd::arithmetic::mul::lemma_mul_is_distributive_add(a1, b0, c0);
    vstd::arithmetic::mul::lemma_mul_is_distributive_add(a1, b1, c1);
    vstd::arithmetic::mul::lemma_mul_is_distributive_add(a1, b2, c2);
    vstd::arithmetic::mul::lemma_mul_is_distributive_add(a1, b3, c3);
    vstd::arithmetic::mul::lemma_mul_is_distributive_add(a1, b4, c4);
    vstd::arithmetic::mul::lemma_mul_is_distributive_add(a2, b0, c0);
    vstd::arithmetic::mul::lemma_mul_is_distributive_add(a2, b1, c1);
    vstd::arithmetic::mul::lemma_mul_is_distributive_add(a2, b2, c2);
    vstd::arithmetic::mul::lemma_mul_is_distributive_add(a2, b3, c3);
    vstd::arithmetic::mul::lemma_mul_is_distributive_add(a2, b4, c4);
    vstd::arithmetic::mul::lemma_mul_is_distributive_add(a3, b0, c0);
    vstd::arithmetic::mul::lemma_mul_is_distributive_add(a3, b1, c1);
    vstd::arithmetic::mul::lemma_mul_is_distributive_add(a3, b2, c2);
    vstd::arithmetic::mul::lemma_mul_is_distributive_add(a3, b3, c3);
    vstd::arithmetic::mul::lemma_mul_is_distributive_add(a3, b4, c4);
    vstd::arithmetic::mul::lemma_mul_is_distributive_add(a4, b0, c0);
    vstd::arithmetic::mul::lemma_mul_is_distributive_add(a4, b1, c1);
    vstd::arithmetic::mul::lemma_mul_is_distributive_add(a4, b2, c2);
    vstd::arithmetic::mul::lemma_mul_is_distributive_add(a4, b3, c3);
    vstd::arithmetic::mul::lemma_mul_is_distributive_add(a4, b4, c4);
    assert(a0 * (b0 + c0) + 3 * (a1 * (b4 + c4) + a2 * (b3 + c3) + a3 * (b2 + c2) + a4 * (b1
        + c1)) == (a0 * b0 + 3 * (a1 * b4 + a2 * b3 + a3 * b2 + a4 * b1)) + (a0 * c0 + 3 * (a1
        * c4 + a2 * c3 + a3 * c2 + a4 * c1)));
    assert(a0 * (b1 + c1) + a1 * (b0 + c0) + 3 * (a2 * (b4 + c4) + a3 * (b3 + c3) + a4 * (b2
        + c2)) == (a0 * b1 + a1 * b0 + 3 * (a2 * b4 + a3 * b3 + a4 * b2)) + (a0 * c1 + a1 * c0
        + 3 * (a2 * c4 + a3 * c3 + a4 * c2)));
    assert(a0 * (b2 + c2) + a1 * (b1 + c1) + a2 * (b0 + c0) + 3 * (a3 * (b4 + c4) + a4 * (b3
        + c3)) == (a0 * b2 + a1 * b1 + a2 * b0 + 3 * (a3 * b4 + a4 * b3)) + (a0 * c2 + a1 * c1
        + a2 * c0 + 3 * (a3 * c4 + a4 * c3)));
    assert(a0 * (b3 + c3) + a1 * (b2 + c2) + a2 * (b1 + c1) + a3 * (b0 + c0) + 3 * (a4 * (b4
        + c4)) == (a0 * b3 + a1 * b2 + a2 * b1 + a3 * b0 + 3 * (a4 * b4)) + (a0 * c3 + a1 * c2
        + a2 * c1 + a3 * c0 + 3 * (a4 * c4)));
    assert(a0 * (b4 + c4) + a1 * (b3 + c3) + a2 * (b2 + c2) + a3 * (b1 + c1) + a4 * (b0 + c0)
        == (a0 * b4 + a1 * b3 + a2 * b2 + a3 * b1 + a4 * b0) + (a0 * c4 + a1 * c3 + a2 * c2 + a3
        * c1 + a4 * c0));
    lemma_fold2(
        a0 * b0 + 3 * (a1 * b4 + a2 * b3 + a3 * b2 + a4 * b1),
        a0 * c0 + 3 * (a1 * c4 + a2 * c3 + a3 * c2 + a4 * c1),
    );
    lemma_fold2(
        a0 * b1 + a1 * b0 + 3 * (a2 * b4 + a3 * b3 + a4 * b2),
        a0 * c1 + a1 * c0 + 3 * (a2 * c4 + a3 * c3 + a4 * c2),
    );
    lemma_fold2(
        a0 * b2 + a1 * b1 + a2 * b0 + 3 * (a3 * b4 + a4 * b3),
        a0 * c2 + a1 * c1 + a2 * c0 + 3 * (a3 * c4 + a4 * c3),
    );
    lemma_fold2(
        a0 * b3 + a1 * b2 + a2 * b1 + a3 * b0 + 3 * (a4 * b4),
        a0 * c3 + a1 * c2 + a2 * c1 + a3 * c0 + 3 * (a4 * c4),
    );
    lemma_fold2(
        a0 * b4 + a1 * b3 + a2 * b2 + a3 * b1 + a4 * b0,
        a0 * c4 + a1 * c3 + a2 * c2 + a3 * c1 + a4 * c0,
    );
}


/// The element with every coefficient reduced modulo p.
pub open spec fn snormal5(a: GFp5) -> GFp5 {
    GFp5 {
        c0: (a.c0 % P) as u64,
        c1: (a.c1 % P) as u64,
        c2: (a.c2 % P) as u64,
        c3: (a.c3 % P) as u64,
        c4: (a.c4 % P) as u64,
    }
}

impl GFp5 {
    /// The same element with every coefficient reduced modulo p; canonical
    /// inputs come back unchanged.
    pub fn normalize5(&self) -> (r: GFp5)
        ensures
            wf5(r),
            r == snormal5(*self),
            wf5(*self) ==> r == *self,
    {
        GFp5 {
            c0: self.c0 % P,
            c1: self.c1 % P,
            c2: self.c2 % P,
            c3: self.c3 % P,
            c4: self.c4 % P,
        }
    }
}

/// The Legendre symbol of a field element.
pub trait Legendre {
    /// What the Legendre symbol of this value is.
    spec fn legendre_spec(&self) -> int;

    fn legendre(&self) -> (r: u64)
        ensures
            r as int == self.legendre_spec(),
    ;
}

/// Square roots of field elements, plain and canonical.
pub trait SquareRoot: Sized {
    /// What the plain square root returns.
    spec fn sqrt_post(&self, r: Option<Self>) -> bool;

    /// What the canonical square root returns.
    spec fn canonical_sqrt_post(&self, r: Option<Self>) -> bool;

    fn sqrt(&self) -> (r: Option<Self>)
        ensures
            self.sqrt_post(r),
    ;

    fn canonical_sqrt(&self) -> (r: Option<Self>)
        ensures
            self.canonical_sqrt_post(r),
    ;
}

/// The inverse of a field element, with zero mapping to zero.
pub trait InverseOrZero: Sized {
    /// What the inverse computation yields for this value.
    spec fn inverse_spec(&self) -> Self;

    fn inverse_or_zero(&self) -> (r: Self)
        ensures
            r == self.inverse_spec(),
    ;
}

/// The sign convention used to pick canonical square roots.
pub trait Sgn0 {
    /// What the sign bit of this value is.
    spec fn sgn0_spec(&self) -> bool;

    fn sgn0(&self) -> (r: bool)
        ensures
            r == self.sgn0_spec(),
    ;
}

impl Legendre for GFp5 {
    open spec fn legendre_spec(&self) -> int {
        slegendre5(snormal5(*self))
    }

    fn legendre(&self) -> (r: u64) {
        let n = self.normalize5();
        n.legendre()
    }
}

impl SquareRoot for GFp5 {
    open spec fn sqrt_post(&self, r: Option<GFp5>) -> bool {
        let v = snormal5(*self);
        &&& (r is Some <==> ssqrt_ok(v))
        &&& match r {
            Some(s) => wf5(s) && s == ssqrt_val(v) && smul5(s, s) == v,
            None => v != zero5(),
        }
        &&& (v == zero5() ==> r == Some(zero5()))
    }

    open spec fn canonical_sqrt_post(&self, r: Option<GFp5>) -> bool {
        let v = snormal5(*self);
        &&& (r is Some <==> ssqrt_ok(v))
        &&& match r {
            Some(s) => wf5(s) && s == scanonical_val(v) && smul5(s, s) == v && (s == zero5()
                || ssgn0(s)),
            None => v != zero5(),
        }
        &&& (v == zero5() ==> r == Some(zero5()))
    }

    fn sqrt(&self) -> (r: Option<GFp5>) {
        let n = self.normalize5();
        n.sqrt5()
    }

    fn canonical_sqrt(&self) -> (r: Option<GFp5>) {
        let n = self.normalize5();
        n.canonical_sqrt5()
    }
}

impl InverseOrZero for GFp5 {
    open spec fn inverse_spec(&self) -> GFp5 {
        sinv5(snormal5(*self))
    }

    fn inverse_or_zero(&self) -> (r: GFp5) {
        let n = self.normalize5();
        n.inverse_or_zero5()
    }
}

impl InverseOrZero for u64 {
    open spec fn inverse_spec(&self) -> u64 {
        ginv((*self % P) as int) as u64
    }

    fn inverse_or_zero(&self) -> (r: u64) {
        fp_inverse_or_zero(*self % P)
    }
}

impl Sgn0 for GFp5 {
    open spec fn sgn0_spec(&self) -> bool {
        ssgn0(snormal5(*self))
    }

    fn sgn0(&self) -> (r: bool) {
        let n = self.normalize5();
        n.sgn0()
    }
}


/// Sums in GF(p^5) regroup freely.
pub proof fn lemma_add5_assoc(a: GFp5, b: GFp5, c: GFp5)
    ensures
        sadd5(sadd5(a, b), c) == sadd5(a, sadd5(b, c)),
{
    lemma_addc_comp(a.c0 as int, b.c0 as int, c.c0 as int);
    lemma_addc_comp(a.c1 as int, b.c1 as int, c.c1 as int);
    lemma_addc_comp(a.c2 as int, b.c2 as int, c.c2 as int);
    lemma_addc_comp(a.c3 as int, b.c3 as int, c.c3 as int);
    lemma_addc_comp(a.c4 as int, b.c4 as int, c.c4 as int);
}

/// The component identity behind `lemma_add5_assoc`.
proof fn lemma_addc_comp(a: int, b: int, c: int)
    ensures
        gadd(gadd(a, b), c) == gadd(a, gadd(b, c)),
{
    lemma_gadd_noop(a + b, c);
    lemma_gadd_noop(a, b + c);
}

/// Adding zero changes nothing.
pub proof fn lemma_add5_zero(a: GFp5)
    requires
        wf5(a),
    ensures
        sadd5(a, zero5()) == a,
        sadd5(zero5(), a) == a,
{
    lemma_small_mod(a.c0 as nat, P as nat);
    lemma_small_mod(a.c1 as nat, P as nat);
    lemma_small_mod(a.c2 as nat, P as nat);
    lemma_small_mod(a.c3 as nat, P as nat);
    lemma_small_mod(a.c4 as nat, P as nat);
}

/// Subtracting zero changes nothing.
pub proof fn lemma_sub5_zero(a: GFp5)
    requires
        wf5(a),
    ensures
        ssub5(a, zero5()) == a,
{
    lemma_small_mod(a.c0 as nat, P as nat);
    lemma_small_mod(a.c1 as nat, P as nat);
    lemma_small_mod(a.c2 as nat, P as nat);
    lemma_small_mod(a.c3 as nat, P as nat);
    lemma_small_mod(a.c4 as nat, P as nat);
}

/// An element plus its opposite is zero.
pub proof fn lemma_add5_opp(a: GFp5)
    requires
        wf5(a),
    ensures
        sadd5(sneg5(a), a) == zero5(),
        sadd5(a, sneg5(a)) == zero5(),
{
    let p = P as int;
    lemma_gadd_noop(0 - a.c0, a.c0 as int);
    lemma_gadd_noop(a.c0 as int, 0 - a.c0);
    lemma_gadd_noop(0 - a.c1, a.c1 as int);
    lemma_gadd_noop(a.c1 as int, 0 - a.c1);
    lemma_gadd_noop(0 - a.c2, a.c2 as int);
    lemma_gadd_noop(a.c2 as int, 0 - a.c2);
    lemma_gadd_noop(0 - a.c3, a.c3 as int);
    lemma_gadd_noop(a.c3 as int, 0 - a.c3);
    lemma_gadd_noop(0 - a.c4, a.c4 as int);
    lemma_gadd_noop(a.c4 as int, 0 - a.c4);
    lemma_small_mod(0, P as nat);
}

/// Adding then subtracting the same element cancels.
pub proof fn lemma_add_sub_cancel5(a: GFp5, b: GFp5)
    requires
        wf5(a),
        wf5(b),
    ensures
        ssub5(sadd5(a, b), b) == a,
{
    lemma_cancel_comp(a.c0 as int, b.c0 as int);
    lemma_cancel_comp(a.c1 as int, b.c1 as int);
    lemma_cancel_comp(a.c2 as int, b.c2 as int);
    lemma_cancel_comp(a.c3 as int, b.c3 as int);
    lemma_cancel_comp(a.c4 as int, b.c4 as int);
}

/// The component identity behind `lemma_add_sub_cancel5`.
proof fn lemma_cancel_comp(a: int, b: int)
    requires
        0 <= a < P,
        0 <= b < P,
    ensures
        gsub(gadd(a, b), b) == a,
{
    let p = P as int;
    vstd::arithmetic::div_mod::lemma_mod_twice(a + b, p);
    vstd::arithmetic::div_mod::lemma_small_mod(b as nat, P as nat);
    vstd::arithmetic::div_mod::lemma_sub_mod_noop(a + b, b, p);
    vstd::arithmetic::div_mod::lemma_small_mod(a as nat, P as nat);
}

/// Collapsing a four-summand group: the first and last summands cancel out.
pub proof fn lemma_sum4_cancel(a: GFp5, b: GFp5, c: GFp5, d: GFp5)
    requires
        wf5(a),
        wf5(b),
        wf5(c),
        wf5(d),
    ensures
        ssub5(ssub5(sadd5(sadd5(a, b), sadd5(c, d)), a), d) == sadd5(b, c),
{
    lemma_sum4_cancel_comp(a.c0 as int, b.c0 as int, c.c0 as int, d.c0 as int);
    lemma_sum4_cancel_comp(a.c1 as int, b.c1 as int, c.c1 as int, d.c1 as int);
    lemma_sum4_cancel_comp(a.c2 as int, b.c2 as int, c.c2 as int, d.c2 as int);
    lemma_sum4_cancel_comp(a.c3 as int, b.c3 as int, c.c3 as int, d.c3 as int);
    lemma_sum4_cancel_comp(a.c4 as int, b.c4 as int, c.c4 as int, d.c4 as int);
}

/// The component identity behind `lemma_sum4_cancel`.
proof fn lemma_sum4_cancel_comp(a: int, b: int, c: int, d: int)
    requires
        0 <= a < P,
        0 <= b < P,
        0 <= c < P,
        0 <= d < P,
    ensures
        gsub(gsub(gadd(gadd(a, b), gadd(c, d)), a), d) == gadd(b, c),
{
    let p = P as int;
    lemma_fold2(a + b, c + d);
    // peel a off the reduced total
    vstd::arithmetic::div_mod::lemma_mod_twice(a + b + (c + d), p);
    vstd::arithmetic::div_mod::lemma_small_mod(a as nat, P as nat);
    vstd::arithmetic::div_mod::lemma_sub_mod_noop(a + b + (c + d), a, p);
    // peel d off
    vstd::arithmetic::div_mod::lemma_mod_twice(b + c + d, p);
    vstd::arithmetic::div_mod::lemma_small_mod(d as nat, P as nat);
    vstd::arithmetic::div_mod::lemma_sub_mod_noop(b + c + d, d, p);
}

/// Negating the left factor negates the product.
pub proof fn lemma_mul5_neg_left(a: GFp5, b: GFp5)
    ensures
        smul5(sneg5(a), b) == sneg5(smul5(a, b)),
{
    let p = P as int;
    let (a0, a1, a2, a3, a4) = (a.c0 as int, a.c1 as int, a.c2 as int, a.c3 as int, a.c4 as int);
    let (b0, b1, b2, b3, b4) = (b.c0 as int, b.c1 as int, b.c2 as int, b.c3 as int, b.c4 as int);
    // the coefficients of sneg5(a) are congruent to the negated ones
    lemma_row_cong(b0, b1, b2, b3, b4, 0 - a0, 0 - a1, 0 - a2, 0 - a3, 0 - a4, 1);
    lemma_row_cong(b0, b1, b2, b3, b4, 0 - a0, 0 - a1, 0 - a2, 0 - a3, 0 - a4, 2);
    lemma_row_cong(b0, b1, b2, b3, b4, 0 - a0, 0 - a1, 0 - a2, 0 - a3, 0 - a4, 3);
    lemma_row_cong(b0, b1, b2, b3, b4, 0 - a0, 0 - a1, 0 - a2, 0 - a3, 0 - a4, 4);
    lemma_row_cong(b0, b1, b2, b3, b4, 0 - a0, 0 - a1, 0 - a2, 0 - a3, 0 - a4, 5);
    lemma_mul5_comm(sneg5(a), b);
    lemma_mul5_comm(a, b);
    // pull the sign out of each raw product, then out of the residue
    vstd::arithmetic::mul::lemma_mul_unary_negation(b0, a0);
    vstd::arithmetic::mul::lemma_mul_unary_negation(b0, a1);
    vstd::arithmetic::mul::lemma_mul_unary_negation(b0, a2);
    vstd::arithmetic::mul::lemma_mul_unary_negation(b0, a3);
    vstd::arithmetic::mul::lemma_mul_unary_negation(b0, a4);
    vstd::arithmetic::mul::lemma_mul_unary_negation(b1, a0);
    vstd::arithmetic::mul::lemma_mul_unary_negation(b1, a1);
    vstd::arithmetic::mul::lemma_mul_unary_negation(b1, a2);
    vstd::arithmetic::mul::lemma_mul_unary_negation(b1, a3);
    vstd::arithmetic::mul::lemma_mul_unary_negation(b1, a4);
    vstd::arithmetic::mul::lemma_mul_unary_negation(b2, a0);
    vstd::arithmetic::mul::lemma_mul_unary_negation(b2, a1);
    vstd::arithmetic::mul::lemma_mul_unary_negation(b2, a2);
    vstd::arithmetic::mul::lemma_mul_unary_negation(b2, a3);
    vstd::arithmetic::mul::lemma_mul_unary_negation(b2, a4);
    vstd::arithmetic::mul::lemma_mul_unary_negation(b3, a0);
    vstd::arithmetic::mul::lemma_mul_unary_negation(b3, a1);
    vstd::arithmetic::mul::lemma_mul_unary_negation(b3, a2);
    vstd::arithmetic::mul::lemma_mul_unary_negation(b3, a3);
    vstd::arithmetic::mul::lemma_mul_unary_negation(b3, a4);
    vstd::arithmetic::mul::lemma_mul_unary_negation(b4, a0);
    vstd::arithmetic::mul::lemma_mul_unary_negation(b4, a1);
    vstd::arithmetic::mul::lemma_mul_unary_negation(b4, a2);
    vstd::arithmetic::mul::lemma_mul_unary_negation(b4, a3);
    vstd::arithmetic::mul::lemma_mul_unary_negation(b4, a4);
    lemma_neg_residue(b0 * a0 + 3 * (b1 * a4 + b2 * a3 + b3 * a2 + b4 * a1));
    lemma_neg_residue(b0 * a1 + b1 * a0 + 3 * (b2 * a4 + b3 * a3 + b4 * a2));
    lemma_neg_residue(b0 * a2 + b1 * a1 + b2 * a0 + 3 * (b3 * a4 + b4 * a3));
    lemma_neg_residue(b0 * a3 + b1 * a2 + b2 * a1 + b3 * a0 + 3 * (b4 * a4));
    lemma_neg_residue(b0 * a4 + b1 * a3 + b2 * a2 + b3 * a1 + b4 * a0);
}

/// The residue of a negation equals the negation of the residue, re-reduced.
proof fn lemma_neg_residue(x: int)
    ensures
        (0 - x) % (P as int) == (0 - (x % (P as int))) % (P as int),
{
    vstd::arithmetic::div_mod::lemma_sub_mod_noop_right(0, x, P as int);
}

/// The Legendre computation sends zero to zero.
pub proof fn lemma_legendre5_zero()
    ensures
        slegendre5(zero5()) == 0,
{
    broadcast use vstd::arithmetic::mul::group_mul_basics;

    lemma_small_mod(0, P as nat);
    assert(sfrob5(zero5(), 1) == zero5());
    lemma_mul5_zero_right(zero5());
    assert(sconj5(zero5()) == zero5());
    assert(snorm5(zero5()) == 0);
    vstd::arithmetic::power2::lemma_pow2_pos(31);
    vstd::arithmetic::power2::lemma_pow2_pos(32);
    vstd::arithmetic::power::lemma0_pow(pow2(31));
    vstd::arithmetic::power::lemma0_pow(pow2(32));
    vstd::arithmetic::power::lemma0_pow((P - 2) as nat);
    assert(gpow(0, pow2(31)) == 0int % (P as int));
    assert(gpow(0, pow2(32)) == 0int % (P as int));
    assert(ginv(0) == 0int % (P as int));
}


/// Subtraction is addition of the opposite.
pub proof fn lemma_sub5_is_add_neg(a: GFp5, b: GFp5)
    ensures
        ssub5(a, b) == sadd5(a, sneg5(b)),
{
    let p = P as int;
    vstd::arithmetic::div_mod::lemma_add_mod_noop_right(a.c0 as int, 0 - b.c0, p);
    vstd::arithmetic::div_mod::lemma_add_mod_noop_right(a.c1 as int, 0 - b.c1, p);
    vstd::arithmetic::div_mod::lemma_add_mod_noop_right(a.c2 as int, 0 - b.c2, p);
    vstd::arithmetic::div_mod::lemma_add_mod_noop_right(a.c3 as int, 0 - b.c3, p);
    vstd::arithmetic::div_mod::lemma_add_mod_noop_right(a.c4 as int, 0 - b.c4, p);
}

/// Two negations cancel on canonical elements.
pub proof fn lemma_double_neg5(a: GFp5)
    requires
        wf5(a),
    ensures
        sneg5(sneg5(a)) == a,
{
    let p = P as int;
    vstd::arithmetic::div_mod::lemma_sub_mod_noop_right(0, 0 - a.c0, p);
    vstd::arithmetic::div_mod::lemma_sub_mod_noop_right(0, 0 - a.c1, p);
    vstd::arithmetic::div_mod::lemma_sub_mod_noop_right(0, 0 - a.c2, p);
    vstd::arithmetic::div_mod::lemma_sub_mod_noop_right(0, 0 - a.c3, p);
    vstd::arithmetic::div_mod::lemma_sub_mod_noop_right(0, 0 - a.c4, p);
    lemma_small_mod(a.c0 as nat, P as nat);
    lemma_small_mod(a.c1 as nat, P as nat);
    lemma_small_mod(a.c2 as nat, P as nat);
    lemma_small_mod(a.c3 as nat, P as nat);
    lemma_small_mod(a.c4 as nat, P as nat);
}

/// A half added to itself restores the element.
pub proof fn lemma_shalf5_double(s: GFp5)
    requires
        wf5(s),
    ensures
        sadd5(shalf5(s), shalf5(s)) == s,
{
    lemma_half_comp(s.c0 as int);
    lemma_half_comp(s.c1 as int);
    lemma_half_comp(s.c2 as int);
    lemma_half_comp(s.c3 as int);
    lemma_half_comp(s.c4 as int);
}

/// The component identity behind `lemma_shalf5_double`: twice the product
/// with the inverse of two gives the value back.
proof fn lemma_half_comp(c: int)
    requires
        0 <= c < P,
    ensures
        gadd(gmul(c, 0x7FFF_FFFF_8000_0001), gmul(c, 0x7FFF_FFFF_8000_0001)) == c,
{
    let p = P as int;
    let h: int = 0x7FFF_FFFF_8000_0001;
    lemma_fold2(c * h, c * h);
    assert(c * h + c * h == c * (2 * h)) by (nonlinear_arith);
    assert(c * (2 * h) == p * c + c) by (nonlinear_arith)
        requires
            p == 0xFFFF_FFFF_0000_0001int && h == 0x7FFF_FFFF_8000_0001int,
    ;
    vstd::arithmetic::div_mod::lemma_mod_multiples_vanish(c, c, p);
    lemma_small_mod(c as nat, P as nat);
}

/// The component identity behind the decoding quadratic: with a = e^2, b =
/// e r and c the constant, the grouped sums on both sides agree.
proof fn lemma_quad_comp(a: int, b: int, c: int)
    ensures
        gadd(gadd(gadd(a, b), gadd(b, gsub(a, c))), c) == gadd(gadd(a, b), gadd(a, b)),
{
    let p = P as int;
    vstd::arithmetic::div_mod::lemma_add_mod_noop_right(b, a - c, p);
    lemma_fold2(a + b, b + (a - c));
    lemma_gadd_noop(a + b + (b + (a - c)), c);
    lemma_fold2(a + b, a + b);
}

/// A root of the decoding discriminant pins the decoded abscissa to the
/// curve: if r^2 = e^2 - 4b and s = e + r, then s^2 + 4b = 2e s. This is
/// the defining relation that a consumer can check on its own.
pub proof fn lemma_root_quadratic(e: GFp5, r: GFp5, fourb: GFp5)
    requires
        wf5(e),
        wf5(r),
        wf5(fourb),
        smul5(r, r) == ssub5(smul5(e, e), fourb),
    ensures
        sadd5(smul5(sadd5(e, r), sadd5(e, r)), fourb) == smul5(sadd5(e, e), sadd5(e, r)),
{
    let s = sadd5(e, r);
    assert(wf5(s));
    lemma_mul5_distrib(s, e, r);
    // s * s regrouped into (e^2 + e r) + (e r + (e^2 - 4b))
    lemma_mul5_comm(s, e);
    lemma_mul5_distrib(e, e, r);
    lemma_mul5_comm(s, r);
    lemma_mul5_distrib(r, e, r);
    lemma_mul5_comm(r, e);
    assert(smul5(s, s) == sadd5(
        sadd5(smul5(e, e), smul5(e, r)),
        sadd5(smul5(e, r), ssub5(smul5(e, e), fourb)),
    ));
    // the right-hand side is twice s * e
    lemma_mul5_comm(sadd5(e, e), s);
    lemma_mul5_distrib(s, e, e);
    assert(smul5(sadd5(e, e), s) == sadd5(sadd5(smul5(e, e), smul5(e, r)), sadd5(smul5(e, e),
        smul5(e, r))));
    lemma_quad_comp5(smul5(e, e), smul5(e, r), fourb);
}

/// The five-coefficient form of `lemma_quad_comp`.
proof fn lemma_quad_comp5(a: GFp5, b: GFp5, c: GFp5)
    ensures
        sadd5(sadd5(sadd5(a, b), sadd5(b, ssub5(a, c))), c) == sadd5(sadd5(a, b), sadd5(a, b)),
{
    lemma_quad_comp(a.c0 as int, b.c0 as int, c.c0 as int);
    lemma_quad_comp(a.c1 as int, b.c1 as int, c.c1 as int);
    lemma_quad_comp(a.c2 as int, b.c2 as int, c.c2 as int);
    lemma_quad_comp(a.c3 as int, b.c3 as int, c.c3 as int);
    lemma_quad_comp(a.c4 as int, b.c4 as int, c.c4 as int);
}


/// The inverse computation maps one to one.
pub proof fn lemma_sinv5_one()
    ensures
        sinv5(one5()) == one5(),
{
    broadcast use vstd::arithmetic::mul::group_mul_basics;

    lemma_small_mod(0, P as nat);
    lemma_small_mod(1, P as nat);
    assert(sfrob5(one5(), 1) == one5());
    lemma_mul5_one_right(one5());
    assert(sconj5(one5()) == one5());
    assert(snorm5(one5()) == 1);
    vstd::arithmetic::power::lemma1_pow((P - 2) as nat);
    assert(ginv(1) == 1int % (P as int));
}

/// The inverse computation maps zero to zero.
pub proof fn lemma_sinv5_zero()
    ensures
        sinv5(zero5()) == zero5(),
{
    broadcast use vstd::arithmetic::mul::group_mul_basics;

    lemma_small_mod(0, P as nat);
    assert(sfrob5(zero5(), 1) == zero5());
    lemma_mul5_zero_right(zero5());
    assert(sconj5(zero5()) == zero5());
    assert(snorm5(zero5()) == 0);
    vstd::arithmetic::power::lemma0_pow((P - 2) as nat);
    assert(ginv(0) == 0int % (P as int));
}

/// Negating a nonzero element flips its sign bit.
pub proof fn lemma_sgn0_neg(a: GFp5)
    requires
        wf5(a),
        a != zero5(),
    ensures
        ssgn0(sneg5(a)) == !ssgn0(a),
{
    let p = P as int;
    lemma_small_mod(0, P as nat);
    assert((0 - 0) % p == 0);
    if a.c0 != 0 {
        lemma_mod_add_multiples_vanish(0 - a.c0, p);
        lemma_small_mod((p - a.c0) as nat, P as nat);
    } else if a.c1 != 0 {
        lemma_mod_add_multiples_vanish(0 - a.c1, p);
        lemma_small_mod((p - a.c1) as nat, P as nat);
    } else if a.c2 != 0 {
        lemma_mod_add_multiples_vanish(0 - a.c2, p);
        lemma_small_mod((p - a.c2) as nat, P as nat);
    } else if a.c3 != 0 {
        lemma_mod_add_multiples_vanish(0 - a.c3, p);
        lemma_small_mod((p - a.c3) as nat, P as nat);
    } else {
        lemma_mod_add_multiples_vanish(0 - a.c4, p);
        lemma_small_mod((p - a.c4) as nat, P as nat);
    }
}

} // verus!
