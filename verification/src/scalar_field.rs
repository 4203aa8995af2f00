//! The scalar field of the EcGFp5 curve: integers modulo the ~319-bit prime
//! group order n.
//!
//! A scalar is five 64-bit limbs, little-endian, kept reduced modulo n.
//! Arithmetic delegates to big-integer operations behind the wrappers in
//! `bigint`; the signed-digit recoding used by scalar multiplication works
//! on the limbs directly.

use crate::bigint::{
    biguint_value, bu_add, bu_from_bytes_le, bu_from_u64, bu_lt, bu_modpow, bu_mul, bu_rem,
    bu_sub, bu_to_u64_digits,
};
use crate::limbs::{bytes_val, lemma_limbs_val_lower, limbs_prefix, limbs_val};
use num::bigint::BigUint;
use vstd::arithmetic::div_mod::{
    lemma_mod_add_multiples_vanish, lemma_mod_bound, lemma_small_mod,
};
use vstd::arithmetic::power2::{lemma2_to64, lemma2_to64_rest, lemma_pow2_adds, pow2};
use vstd::prelude::*;

verus! {

/// A scalar: an integer modulo the group order n, as five 64-bit limbs.
#[derive(Clone, Copy, Debug, PartialEq, Eq, Structural)]
pub struct EcGFp5Scalar {
    pub l0: u64,
    pub l1: u64,
    pub l2: u64,
    pub l3: u64,
    pub l4: u64,
}

/// The integer a scalar's limbs stand for.
pub open spec fn sval(s: EcGFp5Scalar) -> nat {
    (s.l0 + s.l1 * 0x10000000000000000 + s.l2 * 0x100000000000000000000000000000000 + s.l3
        * 0x1000000000000000000000000000000000000000000000000 + s.l4
        * 0x10000000000000000000000000000000000000000000000000000000000000000) as nat
}

/// The group order n of the EcGFp5 curve.
pub open spec fn n_value() -> nat {
    (0xE80FD996948BFFE1 + 0xE8885C39D724A09C * 0x10000000000000000 + 0x7FFFFFE6CFB80639
        * 0x100000000000000000000000000000000 + 0x7FFFFFF100000016
        * 0x1000000000000000000000000000000000000000000000000 + 0x7FFFFFFD80000007
        * 0x10000000000000000000000000000000000000000000000000000000000000000) as nat
}

/// A scalar is reduced: its value is below n.
pub open spec fn scalar_wf(s: EcGFp5Scalar) -> bool {
    sval(s) < n_value()
}

/// The powers of two up to 2^320, as literals.
pub proof fn lemma_pow2_literals()
    ensures
        pow2(64) == 0x10000000000000000,
        pow2(128) == 0x100000000000000000000000000000000,
        pow2(192) == 0x1000000000000000000000000000000000000000000000000,
        pow2(256) == 0x10000000000000000000000000000000000000000000000000000000000000000,
        pow2(320)
            == 0x100000000000000000000000000000000000000000000000000000000000000000000000000000000,
{
    lemma2_to64();
    lemma2_to64_rest();
    lemma_pow2_adds(64, 64);
    lemma_pow2_adds(128, 64);
    lemma_pow2_adds(192, 64);
    lemma_pow2_adds(256, 64);
}

/// The value of a limb sequence of length at most five, written out.
proof fn lemma_limbs_val_upto5(s: Seq<u64>)
    requires
        s.len() <= 5,
    ensures
        limbs_val(s) == (if s.len() > 0 { s[0] as nat } else { 0 }) + (if s.len() > 1 {
            (s[1] * 0x10000000000000000) as nat
        } else {
            0
        }) + (if s.len() > 2 {
            (s[2] * 0x100000000000000000000000000000000) as nat
        } else {
            0
        }) + (if s.len() > 3 {
            (s[3] * 0x1000000000000000000000000000000000000000000000000) as nat
        } else {
            0
        }) + (if s.len() > 4 {
            (s[4] * 0x10000000000000000000000000000000000000000000000000000000000000000) as nat
        } else {
            0
        }),
{
    lemma_pow2_literals();
    assert(limbs_prefix(s, 0) == 0);
    if s.len() > 0 {
        assert(limbs_prefix(s, 1) == limbs_prefix(s, 0) + s[0] * pow2(0));
        assert(pow2(0) == 1) by { lemma2_to64(); }
    }
    if s.len() > 1 {
        assert(limbs_prefix(s, 2) == limbs_prefix(s, 1) + s[1] * pow2(64));
    }
    if s.len() > 2 {
        assert(limbs_prefix(s, 3) == limbs_prefix(s, 2) + s[2] * pow2(128));
    }
    if s.len() > 3 {
        assert(limbs_prefix(s, 4) == limbs_prefix(s, 3) + s[3] * pow2(192));
    }
    if s.len() > 4 {
        assert(limbs_prefix(s, 5) == limbs_prefix(s, 4) + s[4] * pow2(256));
    }
}

impl EcGFp5Scalar {
    /// The zero scalar.
    pub fn zero() -> (r: Self)
        ensures
            sval(r) == 0,
            scalar_wf(r),
    {
        EcGFp5Scalar { l0: 0, l1: 0, l2: 0, l3: 0, l4: 0 }
    }

    /// The scalar one.
    pub fn one() -> (r: Self)
        ensures
            sval(r) == 1,
            scalar_wf(r),
    {
        EcGFp5Scalar { l0: 1, l1: 0, l2: 0, l3: 0, l4: 0 }
    }

    /// A small scalar from one canonical 64-bit integer.
    pub fn from_canonical_u64(x: u64) -> (r: Self)
        ensures
            sval(r) == x,
            scalar_wf(r),
    {
        EcGFp5Scalar { l0: x, l1: 0, l2: 0, l3: 0, l4: 0 }
    }

    /// The group order n, as a big integer.
    pub fn order() -> (r: BigUint)
        ensures
            biguint_value(r) == n_value(),
    {
        let n = EcGFp5Scalar {
            l0: 0xE80FD996948BFFE1,
            l1: 0xE8885C39D724A09C,
            l2: 0x7FFFFFE6CFB80639,
            l3: 0x7FFFFFF100000016,
            l4: 0x7FFFFFFD80000007,
        };
        n.to_canonical_biguint()
    }

    /// This scalar's value as a big integer.
    pub fn to_canonical_biguint(&self) -> (r: BigUint)
        ensures
            biguint_value(r) == sval(*self),
    {
        let base = bu_add(&bu_from_u64(0xFFFFFFFFFFFFFFFF), &bu_from_u64(1));
        proof {
            assert(biguint_value(base) == 0x10000000000000000);
        }
        let mut b = bu_from_u64(self.l4);
        b = bu_add(&bu_mul(&b, &base), &bu_from_u64(self.l3));
        b = bu_add(&bu_mul(&b, &base), &bu_from_u64(self.l2));
        b = bu_add(&bu_mul(&b, &base), &bu_from_u64(self.l1));
        b = bu_add(&bu_mul(&b, &base), &bu_from_u64(self.l0));
        b
    }

    /// A scalar from a reduced big integer.
    fn from_reduced_biguint(b: &BigUint) -> (r: Self)
        requires
            biguint_value(*b) < n_value(),
        ensures
            sval(r) == biguint_value(*b),
            scalar_wf(r),
    {
        let digits = bu_to_u64_digits(b);
        proof {
            lemma_pow2_literals();
            if digits@.len() > 5 {
                lemma_limbs_val_lower(digits@);
                vstd::arithmetic::power2::lemma_pow2_strictly_increases(
                    320,
                    (64 * (digits@.len() - 1)) as nat,
                );
            }
            lemma_limbs_val_upto5(digits@);
        }
        let n = digits.len();
        let r = EcGFp5Scalar {
            l0: if n > 0 { digits[0] } else { 0 },
            l1: if n > 1 { digits[1] } else { 0 },
            l2: if n > 2 { digits[2] } else { 0 },
            l3: if n > 3 { digits[3] } else { 0 },
            l4: if n > 4 { digits[4] } else { 0 },
        };
        r
    }

    /// Whether this scalar is zero.
    pub fn is_zero(&self) -> (r: bool)
        ensures
            r == (sval(*self) == 0),
    {
        self.l0 == 0 && self.l1 == 0 && self.l2 == 0 && self.l3 == 0 && self.l4 == 0
    }

    /// Sum modulo n.
    pub fn add_mod(&self, rhs: &Self) -> (r: Self)
        ensures
            sval(r) == (sval(*self) + sval(*rhs)) % n_value(),
            scalar_wf(r),
    {
        let a = self.to_canonical_biguint();
        let b = rhs.to_canonical_biguint();
        let m = Self::order();
        let s = bu_add(&a, &b);
        let red = bu_rem(&s, &m);
        Self::from_reduced_biguint(&red)
    }

    /// Opposite modulo n.
    pub fn neg_mod(&self) -> (r: Self)
        requires
            scalar_wf(*self),
        ensures
            sval(r) as int == (0 - sval(*self) as int) % (n_value() as int),
            scalar_wf(r),
    {
        if self.is_zero() {
            proof {
                lemma_small_mod(0, n_value());
            }
            Self::zero()
        } else {
            let a = self.to_canonical_biguint();
            let m = Self::order();
            let d = bu_sub(&m, &a);
            proof {
                lemma_mod_add_multiples_vanish(0 - sval(*self) as int, n_value() as int);
                lemma_small_mod((n_value() - sval(*self)) as nat, n_value());
            }
            Self::from_reduced_biguint(&d)
        }
    }

    /// Difference modulo n.
    pub fn sub_mod(&self, rhs: &Self) -> (r: Self)
        requires
            scalar_wf(*rhs),
        ensures
            sval(r) as int == (sval(*self) as int - sval(*rhs) as int) % (n_value() as int),
            scalar_wf(r),
    {
        let nb = rhs.neg_mod();
        let r = self.add_mod(&nb);
        proof {
            let nn = n_value() as int;
            let a = sval(*self) as int;
            let b = sval(*rhs) as int;
            vstd::arithmetic::div_mod::lemma_add_mod_noop_right(a, 0 - b, nn);
            assert((a + (0 - b) % nn) % nn == (a + (0 - b)) % nn);
        }
        r
    }

    /// Product modulo n.
    pub fn mul_mod(&self, rhs: &Self) -> (r: Self)
        ensures
            sval(r) == (sval(*self) * sval(*rhs)) % n_value(),
            scalar_wf(r),
    {
        let a = self.to_canonical_biguint();
        let b = rhs.to_canonical_biguint();
        let m = Self::order();
        let s = bu_mul(&a, &b);
        let red = bu_rem(&s, &m);
        Self::from_reduced_biguint(&red)
    }

    /// The inverse of a nonzero scalar, with the defining property checked:
    /// `Some(y)` always satisfies y * self = 1 modulo n, the returned value
    /// is pinned to the Fermat power self^(n - 2) modulo n, and success is
    /// pinned exactly: the call succeeds precisely when the input is
    /// nonzero and that power cancels it. Zero has no inverse.
    pub fn try_inverse(&self) -> (r: Option<Self>)
        requires
            scalar_wf(*self),
        ensures
            ({
                let nn = n_value() as int;
                let iv = vstd::arithmetic::power::pow(
                    sval(*self) as int,
                    (n_value() - 2) as nat,
                ) % nn;
                &&& (r is Some <==> (sval(*self) != 0 && (iv * sval(*self) as int) % nn == 1))
                &&& (r is Some ==> scalar_wf(r->Some_0) && sval(r->Some_0) as int == iv && (sval(
                    r->Some_0,
                ) * sval(*self)) % n_value() == 1)
            }),
    {
        if self.is_zero() {
            return None;
        }
        let a = self.to_canonical_biguint();
        let m = Self::order();
        let two = bu_from_u64(2);
        let e = bu_sub(&m, &two);
        let y = bu_modpow(&a, &e, &m);
        proof {
            let nn = n_value() as int;
            let pw = vstd::arithmetic::power::pow(sval(*self) as int, (n_value() - 2) as nat);
            vstd::arithmetic::power::lemma_pow_positive(sval(*self) as int, (n_value() - 2) as nat);
            vstd::arithmetic::div_mod::lemma_mod_bound(pw, nn);
        }
        let result = Self::from_reduced_biguint(&y);
        let check = result.mul_mod(self);
        if check.l0 == 1 && check.l1 == 0 && check.l2 == 0 && check.l3 == 0 && check.l4 == 0 {
            proof {
                assert(sval(check) == 1);
            }
            Some(result)
        } else {
            proof {
                assert(sval(check) != 1);
            }
            None
        }
    }

    /// A scalar from a little-endian byte string of any length, reduced
    /// modulo n.
    pub fn from_noncanonical_bytes(b: &[u8]) -> (r: Self)
        ensures
            sval(r) == bytes_val(b@) % n_value(),
            scalar_wf(r),
    {
        let v = bu_from_bytes_le(b);
        let m = Self::order();
        let red = bu_rem(&v, &m);
        Self::from_reduced_biguint(&red)
    }

    /// A scalar from exactly 40 little-endian bytes, with a flag telling
    /// whether the bytes were already canonical: all ones when the value was
    /// below n, zero otherwise.
    pub fn try_from_noncanonical_bytes(b: &[u8]) -> (r: (Self, u64))
        requires
            b@.len() == 40,
        ensures
            sval(r.0) == bytes_val(b@) % n_value(),
            scalar_wf(r.0),
            r.1 == (if bytes_val(b@) < n_value() {
                0xFFFFFFFFFFFFFFFFu64
            } else {
                0u64
            }),
    {
        let v = bu_from_bytes_le(b);
        let m = Self::order();
        let canonical = bu_lt(&v, &m);
        let red = bu_rem(&v, &m);
        let s = Self::from_reduced_biguint(&red);
        (s, if canonical { 0xFFFFFFFFFFFFFFFF } else { 0 })
    }
}

/// The bits of one signed digit: bits [w i, w i + w) of the limb sequence.
pub open spec fn sdigit_bits(ls: Seq<u64>, w: nat, i: nat) -> u64 {
    let pos = w * i;
    let j = pos / 64;
    let off = pos % 64;
    let lo = if j < ls.len() {
        ls[j as int] >> (off as u64)
    } else {
        0u64
    };
    let hi = if off + w > 64 && j + 1 < ls.len() {
        ls[j + 1 as int] << ((64 - off) as u64)
    } else {
        0u64
    };
    (lo | hi) & (((1u64 << (w as u64)) - 1) as u64)
}

/// The carry into digit i of the signed recoding.
pub open spec fn scarry(ls: Seq<u64>, w: nat, i: nat) -> nat
    decreases i,
{
    if i == 0 {
        0
    } else if sdigit_bits(ls, w, (i - 1) as nat) + scarry(ls, w, (i - 1) as nat) > pow2(
        (w - 1) as nat,
    ) {
        1
    } else {
        0
    }
}

/// Digit i of the signed recoding: in the symmetric range around zero, with
/// the carry folded in.
pub open spec fn sdigit(ls: Seq<u64>, w: nat, i: nat) -> int {
    let b = sdigit_bits(ls, w, i) + scarry(ls, w, i);
    if b > pow2((w - 1) as nat) {
        b - pow2(w)
    } else {
        b as int
    }
}

/// Signed-digit recoding of a limb sequence: `count` digits of `window`
/// bits each, every digit in the symmetric range, with a borrow carried
/// into the next digit whenever a digit would exceed the positive half.
pub fn recode_signed_from_limbs(ls: &Vec<u64>, count: usize, window: u32) -> (r: Vec<i32>)
    requires
        2 <= window <= 16,
        count <= 4096,
    ensures
        r@.len() == count,
        forall|i: int|
            0 <= i < count ==> r@[i] == sdigit(ls@, window as nat, i as nat),
        forall|i: int|
            0 <= i < count ==> -(pow2((window - 1) as nat) as int) < #[trigger] r@[i] <= pow2(
                (window - 1) as nat,
            ) as int,
{
    let w = window as u64;
    proof {
        broadcast use vstd::arithmetic::mul::group_mul_basics;

        lemma2_to64();
        lemma2_to64_rest();
        vstd::arithmetic::power2::lemma_pow2_strictly_increases((w - 1) as nat, 64);
        vstd::arithmetic::power2::lemma_pow2_strictly_increases(w as nat, 64);
        vstd::bits::lemma_u64_shl_is_mul(1u64, (w - 1) as u64);
        vstd::bits::lemma_u64_shl_is_mul(1u64, w);
        vstd::arithmetic::power2::lemma_pow2_unfold(window as nat);
        if window < 16 {
            vstd::arithmetic::power2::lemma_pow2_strictly_increases(window as nat, 16);
        }
    }
    let hw: u64 = 1u64 << (w - 1);
    let fw: u64 = 1u64 << w;
    let mask: u64 = fw - 1;
    let mut out: Vec<i32> = Vec::new();
    let mut cc: u64 = 0;
    let mut i: usize = 0;
    while i < count
        invariant
            2 <= window <= 16,
            w == window as u64,
            hw == pow2((window - 1) as nat),
            fw == pow2(window as nat),
            fw == 2 * hw,
            fw == 1u64 << w,
            hw == 1u64 << (w - 1),
            fw <= 65536,
            mask == fw - 1,
            out@.len() == i,
            i <= count,
            count <= 4096,
            cc == scarry(ls@, window as nat, i as nat),
            forall|k: int|
                0 <= k < i ==> out@[k] == sdigit(ls@, window as nat, k as nat),
            forall|k: int|
                0 <= k < i ==> -(hw as int) < #[trigger] out@[k] <= hw as int,
        decreases count - i,
    {
        proof {
            vstd::arithmetic::mul::lemma_mul_upper_bound(w as int, 16, i as int, 4095);
        }
        let pos: u64 = w * (i as u64);
        let j: usize = (pos / 64) as usize;
        let off: u64 = pos % 64;
        let lo: u64 = if j < ls.len() {
            ls[j] >> off
        } else {
            0
        };
        let hi: u64 = if off + w > 64 && j + 1 < ls.len() {
            ls[j + 1] << (64 - off)
        } else {
            0
        };
        let bits: u64 = (lo | hi) & mask;
        proof {
            let sw: nat = window as nat;
            let spos: nat = sw * (i as nat);
            vstd::arithmetic::power2::lemma_pow2_pos(window as nat);
            assert(1u64 << (sw as u64) == fw);
            assert(bits == sdigit_bits(ls@, window as nat, i as nat));
            assert(bits <= mask) by (bit_vector)
                requires
                    bits == (lo | hi) & mask,
            ;
        }
        let b: u64 = bits + cc;
        if b > hw {
            out.push((b as i32) - (fw as i32));
            cc = 1;
        } else {
            out.push(b as i32);
            cc = 0;
        }
        i = i + 1;
    }
    out
}

impl EcGFp5Scalar {
    /// The five limbs, least significant first.
    pub fn to_limbs(&self) -> (r: Vec<u64>)
        ensures
            r@ =~= seq![self.l0, self.l1, self.l2, self.l3, self.l4],
    {
        let mut v: Vec<u64> = Vec::new();
        v.push(self.l0);
        v.push(self.l1);
        v.push(self.l2);
        v.push(self.l3);
        v.push(self.l4);
        v
    }

    /// Signed-digit recoding of this scalar.
    pub fn recode_signed(&self, count: usize, window: u32) -> (r: Vec<i32>)
        requires
            2 <= window <= 16,
            count <= 4096,
        ensures
            r@.len() == count,
            forall|i: int|
                0 <= i < count ==> r@[i] == sdigit(
                    seq![self.l0, self.l1, self.l2, self.l3, self.l4],
                    window as nat,
                    i as nat,
                ),
            forall|i: int|
                0 <= i < count ==> -(pow2((window - 1) as nat) as int) < #[trigger] r@[i] <= pow2(
                    (window - 1) as nat,
                ) as int,
    {
        let ls = self.to_limbs();
        recode_signed_from_limbs(&ls, count, window)
    }
}

} // verus!
