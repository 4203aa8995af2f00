//! The EcGFp5 curve group: y^2 = x^3 + 2x + 263 over GF(p^5).
//!
//! Points are held in fractional (x, u) coordinates (X, Z, U, T) with
//! x = X/Z and u = U/T = x/y; the neutral has U = 0. The group law is the
//! complete, inversion-free formula set; every operation's result is pinned
//! to its algebraic formula over the field model.

use crate::base_field::{fp_inverse_or_zero, ginv, P};
use crate::quintic_ext::{
    lemma_mul5_zero_right, one5, sadd5, scanonical_val, shalf5, sinv5, smul5, sneg5, sscale5,
    ssgn0, ssqrt_ok, ssub5, wf5, zero5, GFp5,
};
use crate::scalar_field::{n_value, scalar_wf, sdigit, sval, EcGFp5Scalar};
use crate::utils::{s161_digits, sval161, Signed161};
use vstd::prelude::*;

verus! {

/// A curve point in fractional (x, u) coordinates.
#[derive(Clone, Copy, Debug)]
pub struct Point {
    pub x: GFp5,
    pub z: GFp5,
    pub u: GFp5,
    pub t: GFp5,
}

/// A curve point in affine (x, u) coordinates, used inside windows.
#[derive(Clone, Copy, Debug)]
pub struct AffinePoint {
    pub x: GFp5,
    pub u: GFp5,
}

/// A curve point in short Weierstrass form, the boundary representation.
#[derive(Clone, Copy, Debug)]
pub struct WeierstrassPoint {
    pub x: GFp5,
    pub y: GFp5,
    pub is_inf: bool,
}

/// All coordinates canonical.
pub open spec fn wfp(p: Point) -> bool {
    wf5(p.x) && wf5(p.z) && wf5(p.u) && wf5(p.t)
}

/// All coordinates canonical.
pub open spec fn wfa(a: AffinePoint) -> bool {
    wf5(a.x) && wf5(a.u)
}

/// All coordinates canonical.
pub open spec fn wfw(w: WeierstrassPoint) -> bool {
    wf5(w.x) && wf5(w.y)
}

/// The curve constant a = 2, embedded in GF(p^5).
pub open spec fn a5() -> GFp5 {
    GFp5 { c0: 2, c1: 0, c2: 0, c3: 0, c4: 0 }
}

/// The curve constant b = 263 z.
pub open spec fn b5() -> GFp5 {
    GFp5 { c0: 0, c1: 263, c2: 0, c3: 0, c4: 0 }
}

/// 2 b.
pub open spec fn b5x2() -> GFp5 {
    GFp5 { c0: 0, c1: 526, c2: 0, c3: 0, c4: 0 }
}

/// 4 b.
pub open spec fn b5x4() -> GFp5 {
    GFp5 { c0: 0, c1: 1052, c2: 0, c3: 0, c4: 0 }
}

/// The neutral point (0 : 1 : 0 : 1).
pub open spec fn neutral_spec() -> Point {
    Point { x: zero5(), z: one5(), u: zero5(), t: one5() }
}

/// The complete group-law formula on fractional coordinates (10
/// multiplications).
pub open spec fn spec_add(p: Point, q: Point) -> Point {
    let t1 = smul5(p.x, q.x);
    let t2 = smul5(p.z, q.z);
    let t3 = smul5(p.u, q.u);
    let t4 = smul5(p.t, q.t);
    let t5 = ssub5(ssub5(smul5(sadd5(p.x, p.z), sadd5(q.x, q.z)), t1), t2);
    let t6 = ssub5(ssub5(smul5(sadd5(p.u, p.t), sadd5(q.u, q.t)), t3), t4);
    let t7 = sadd5(t1, smul5(t2, b5()));
    let t8 = smul5(t4, t7);
    let t9 = smul5(t3, sadd5(smul5(t5, b5x2()), sadd5(t7, t7)));
    let t10 = smul5(sadd5(t4, sadd5(t3, t3)), sadd5(t5, t7));
    Point {
        x: smul5(ssub5(t10, t8), b5()),
        z: ssub5(t8, t9),
        u: smul5(t6, ssub5(smul5(t2, b5()), t1)),
        t: sadd5(t8, t9),
    }
}

/// The mixed group-law formula with an affine second operand (8
/// multiplications).
pub open spec fn spec_add_affine(p: Point, q: AffinePoint) -> Point {
    let t1 = smul5(p.x, q.x);
    let t2 = p.z;
    let t3 = smul5(p.u, q.u);
    let t4 = p.t;
    let t5 = sadd5(p.x, smul5(q.x, p.z));
    let t6 = sadd5(p.u, smul5(q.u, p.t));
    let t7 = sadd5(t1, smul5(t2, b5()));
    let t8 = smul5(t4, t7);
    let t9 = smul5(t3, sadd5(smul5(t5, b5x2()), sadd5(t7, t7)));
    let t10 = smul5(sadd5(t4, sadd5(t3, t3)), sadd5(t5, t7));
    Point {
        x: smul5(ssub5(t10, t8), b5()),
        z: ssub5(t8, t9),
        u: smul5(t6, ssub5(smul5(t2, b5()), t1)),
        t: sadd5(t8, t9),
    }
}

/// The dedicated doubling formula (4 multiplications, 5 squarings).
pub open spec fn spec_double(p: Point) -> Point {
    let t1 = smul5(p.z, p.t);
    let t2 = smul5(t1, p.t);
    let x1 = smul5(t2, t2);
    let z1 = smul5(t1, p.u);
    let t3 = smul5(p.u, p.u);
    let w1 = ssub5(t2, smul5(sadd5(sadd5(p.x, p.z), sadd5(p.x, p.z)), t3));
    let t4 = smul5(z1, z1);
    let zz = smul5(w1, w1);
    Point {
        x: smul5(t4, b5x4()),
        z: zz,
        u: ssub5(ssub5(smul5(sadd5(w1, z1), sadd5(w1, z1)), t4), zz),
        t: ssub5(ssub5(sadd5(x1, x1), sscale5(t4, 4)), zz),
    }
}

/// `n` successive doublings.
pub open spec fn spec_iter_double(p: Point, n: nat) -> Point
    decreases n,
{
    if n == 0 {
        p
    } else {
        spec_double(spec_iter_double(p, (n - 1) as nat))
    }
}

/// `n`-fold repeated addition of a point to itself by the complete formula
/// (one copy for n <= 1): what the entries of a multiples window hold.
pub open spec fn spec_iter_add(p: Point, n: nat) -> Point
    decreases n,
{
    if n <= 1 {
        p
    } else {
        spec_add(p, spec_iter_add(p, (n - 1) as nat))
    }
}

/// The point with the u coordinate negated.
pub open spec fn spec_neg(p: Point) -> Point {
    Point { x: p.x, z: p.z, u: sneg5(p.u), t: p.t }
}

/// Two fractional points stand for the same curve point when u1 t2 = u2 t1.
pub open spec fn spec_equals(p: Point, q: Point) -> bool {
    smul5(p.u, q.t) == smul5(q.u, p.t)
}

/// The canonical encoding of a point: w = T / U, with 0 for the neutral.
pub open spec fn spec_encode(p: Point) -> GFp5 {
    smul5(p.t, sinv5(p.u))
}

/// The conventional generator in fractional coordinates.
pub open spec fn generator_spec() -> Point {
    Point {
        x: GFp5 {
            c0: 12883135586176881569,
            c1: 4356519642755055268,
            c2: 5248930565894896907,
            c3: 2165973894480315022,
            c4: 2448410071095648785,
        },
        z: one5(),
        u: one5(),
        t: GFp5 { c0: 4, c1: 0, c2: 0, c3: 0, c4: 0 },
    }
}

/// The quantity e = w^2 - a used by decoding.
pub open spec fn spec_decode_e(w: GFp5) -> GFp5 {
    ssub5(smul5(w, w), a5())
}

/// The discriminant delta = e^2 - 4 b of the decoding quadratic.
pub open spec fn spec_delta(w: GFp5) -> GFp5 {
    let e = spec_decode_e(w);
    ssub5(smul5(e, e), b5x4())
}

impl Point {
    /// The neutral point.
    pub fn neutral() -> (r: Point)
        ensures
            r == neutral_spec(),
            wfp(r),
    {
        Point { x: GFp5::zero(), z: GFp5::one(), u: GFp5::zero(), t: GFp5::one() }
    }

    /// The conventional generator, whose encoding is w = 4.
    pub fn generator() -> (r: Point)
        ensures
            wfp(r),
            r == generator_spec(),
            r.z == one5(),
            r.u == one5(),
            r.t == (GFp5 { c0: 4, c1: 0, c2: 0, c3: 0, c4: 0 }),
    {
        Point {
            x: GFp5::new(
                12883135586176881569,
                4356519642755055268,
                5248930565894896907,
                2165973894480315022,
                2448410071095648785,
            ),
            z: GFp5::one(),
            u: GFp5::one(),
            t: GFp5::new(4, 0, 0, 0, 0),
        }
    }

    /// The curve constant b as a field element.
    fn bconst() -> (r: GFp5)
        ensures
            r == b5(),
            wf5(r),
    {
        GFp5::new(0, 263, 0, 0, 0)
    }

    /// General point addition by the complete formula.
    pub fn add_point(&self, rhs: &Point) -> (r: Point)
        requires
            wfp(*self),
            wfp(*rhs),
        ensures
            wfp(r),
            r == spec_add(*self, *rhs),
    {
        let b = Point::bconst();
        let b2 = GFp5::new(0, 526, 0, 0, 0);
        let t1 = self.x.mul5(&rhs.x);
        let t2 = self.z.mul5(&rhs.z);
        let t3 = self.u.mul5(&rhs.u);
        let t4 = self.t.mul5(&rhs.t);
        let t5 = self.x.add5(&self.z).mul5(&rhs.x.add5(&rhs.z)).sub5(&t1).sub5(&t2);
        let t6 = self.u.add5(&self.t).mul5(&rhs.u.add5(&rhs.t)).sub5(&t3).sub5(&t4);
        let t7 = t1.add5(&t2.mul5(&b));
        let t8 = t4.mul5(&t7);
        let t9 = t3.mul5(&t5.mul5(&b2).add5(&t7.add5(&t7)));
        let t10 = t4.add5(&t3.add5(&t3)).mul5(&t5.add5(&t7));
        Point {
            x: t10.sub5(&t8).mul5(&b),
            z: t8.sub5(&t9),
            u: t6.mul5(&t2.mul5(&b).sub5(&t1)),
            t: t8.add5(&t9),
        }
    }

    /// Mixed addition with an affine point (implicit Z = T = 1).
    pub fn add_affine_point(&self, rhs: &AffinePoint) -> (r: Point)
        requires
            wfp(*self),
            wfa(*rhs),
        ensures
            wfp(r),
            r == spec_add_affine(*self, *rhs),
    {
        let b = Point::bconst();
        let b2 = GFp5::new(0, 526, 0, 0, 0);
        let t1 = self.x.mul5(&rhs.x);
        let t2 = self.z;
        let t3 = self.u.mul5(&rhs.u);
        let t4 = self.t;
        let t5 = self.x.add5(&rhs.x.mul5(&self.z));
        let t6 = self.u.add5(&rhs.u.mul5(&self.t));
        let t7 = t1.add5(&t2.mul5(&b));
        let t8 = t4.mul5(&t7);
        let t9 = t3.mul5(&t5.mul5(&b2).add5(&t7.add5(&t7)));
        let t10 = t4.add5(&t3.add5(&t3)).mul5(&t5.add5(&t7));
        Point {
            x: t10.sub5(&t8).mul5(&b),
            z: t8.sub5(&t9),
            u: t6.mul5(&t2.mul5(&b).sub5(&t1)),
            t: t8.add5(&t9),
        }
    }

    /// Subtraction of an affine point.
    pub fn sub_affine_point(&self, rhs: &AffinePoint) -> (r: Point)
        requires
            wfp(*self),
            wfa(*rhs),
        ensures
            wfp(r),
            r == spec_add_affine(*self, AffinePoint { x: rhs.x, u: sneg5(rhs.u) }),
    {
        self.add_affine_point(&AffinePoint { x: rhs.x, u: rhs.u.neg5() })
    }

    /// The opposite point.
    pub fn neg_point(&self) -> (r: Point)
        requires
            wfp(*self),
        ensures
            wfp(r),
            r == spec_neg(*self),
    {
        Point { x: self.x, z: self.z, u: self.u.neg5(), t: self.t }
    }

    /// Subtraction.
    pub fn sub_point(&self, rhs: &Point) -> (r: Point)
        requires
            wfp(*self),
            wfp(*rhs),
        ensures
            wfp(r),
            r == spec_add(*self, spec_neg(*rhs)),
    {
        self.add_point(&rhs.neg_point())
    }

    /// Dedicated doubling, faster than adding a point to itself.
    pub fn double(&self) -> (r: Point)
        requires
            wfp(*self),
        ensures
            wfp(r),
            r == spec_double(*self),
    {
        let t1 = self.z.mul5(&self.t);
        let t2 = t1.mul5(&self.t);
        let x1 = t2.square5();
        let z1 = t1.mul5(&self.u);
        let t3 = self.u.square5();
        let xz2 = self.x.add5(&self.z);
        let w1 = t2.sub5(&xz2.add5(&xz2).mul5(&t3));
        let t4 = z1.square5();
        let b4 = GFp5::new(0, 1052, 0, 0, 0);
        let zz = w1.square5();
        let uu = w1.add5(&z1).square5().sub5(&t4).sub5(&zz);
        let tt = x1.add5(&x1).sub5(&t4.scale5(4)).sub5(&zz);
        Point { x: t4.mul5(&b4), z: zz, u: uu, t: tt }
    }

    /// `n` successive doublings.
    pub fn mdouble(&self, n: u32) -> (r: Point)
        requires
            wfp(*self),
        ensures
            wfp(r),
            r == spec_iter_double(*self, n as nat),
    {
        let mut p: Point = *self;
        let mut i: u32 = 0;
        while i < n
            invariant
                wfp(p),
                i <= n,
                p == spec_iter_double(*self, i as nat),
            decreases n - i,
        {
            p = p.double();
            i = i + 1;
        }
        p
    }

    /// Whether this is the neutral: true exactly when U = 0.
    pub fn is_neutral(&self) -> (r: bool)
        requires
            wfp(*self),
        ensures
            r == (self.u == zero5()),
    {
        self.u.c0 == 0 && self.u.c1 == 0 && self.u.c2 == 0 && self.u.c3 == 0 && self.u.c4 == 0
    }

    /// Whether two fractional representations stand for the same point.
    pub fn equals(&self, rhs: &Point) -> (r: bool)
        requires
            wfp(*self),
            wfp(*rhs),
        ensures
            r == spec_equals(*self, *rhs),
    {
        let lhs5 = self.u.mul5(&rhs.t);
        let rhs5 = rhs.u.mul5(&self.t);
        lhs5.c0 == rhs5.c0 && lhs5.c1 == rhs5.c1 && lhs5.c2 == rhs5.c2 && lhs5.c3 == rhs5.c3
            && lhs5.c4 == rhs5.c4
    }

    /// The canonical encoding w = T / U; the neutral encodes to zero.
    pub fn encode(&self) -> (r: GFp5)
        requires
            wfp(*self),
        ensures
            wf5(r),
            r == spec_encode(*self),
            self.u == zero5() ==> r == zero5(),
    {
        let iu = self.u.inverse_or_zero5();
        let r = self.t.mul5(&iu);
        proof {
            if self.u == zero5() {
                crate::quintic_ext::lemma_sinv5_zero();
                lemma_mul5_zero_right(self.t);
            }
        }
        r
    }

    /// Whether a field element is a valid point encoding: zero, or a
    /// discriminant that is a nonzero square.
    pub fn validate(w: &GFp5) -> (r: bool)
        requires
            wf5(*w),
        ensures
            r == (*w == zero5() || crate::quintic_ext::slegendre5(spec_delta(*w)) == 1),
    {
        let a = GFp5::new(2, 0, 0, 0, 0);
        let b4 = GFp5::new(0, 1052, 0, 0, 0);
        let e = w.square5().sub5(&a);
        let delta = e.square5().sub5(&b4);
        let lg = delta.legendre();
        let wz = w.c0 == 0 && w.c1 == 0 && w.c2 == 0 && w.c3 == 0 && w.c4 == 0;
        wz || lg == 1
    }

    /// Decoding: zero gives the neutral; otherwise it solves
    /// x^2 - (w^2 - a) x + b = 0 by the canonical square root of the
    /// discriminant and keeps the non-square root, failing when the
    /// square-root attempt on the discriminant does.
    pub fn decode(w: &GFp5) -> (r: Option<Point>)
        requires
            wf5(*w),
        ensures
            r is Some <==> (*w == zero5() || ssqrt_ok(spec_delta(*w))),
            match r {
                Some(p) => wfp(p) && p.z == one5() && (if *w == zero5() {
                    p == neutral_spec()
                } else {
                    let rt = scanonical_val(spec_delta(*w));
                    p.u == one5() && p.t == *w && p.x == (
                    if crate::quintic_ext::slegendre5(shalf5(sadd5(spec_decode_e(*w), rt)))
                        == 1 {
                        shalf5(ssub5(spec_decode_e(*w), rt))
                    } else {
                        shalf5(sadd5(spec_decode_e(*w), rt))
                    })
                }),
                None => *w != zero5(),
            },
            *w == zero5() ==> r == Some(neutral_spec()),
    {
        if w.c0 == 0 && w.c1 == 0 && w.c2 == 0 && w.c3 == 0 && w.c4 == 0 {
            return Some(Point::neutral());
        }
        let a = GFp5::new(2, 0, 0, 0, 0);
        let b4 = GFp5::new(0, 1052, 0, 0, 0);
        let e = w.square5().sub5(&a);
        let delta = e.square5().sub5(&b4);
        let root = delta.canonical_sqrt5();
        match root {
            Some(rt) => {
                let x1 = e.add5(&rt).half5();
                let x2 = e.sub5(&rt).half5();
                let lg = x1.legendre();
                let x = if lg == 1 {
                    x2
                } else {
                    x1
                };
                Some(Point { x, z: GFp5::one(), u: GFp5::one(), t: *w })
            },
            None => None,
        }
    }
}


/// The decoding witness relation: a root of the discriminant makes each
/// candidate abscissa x satisfy the curve quadratic, stated without
/// division as (2x)^2 + 4b = 2e (2x); equivalently, x^2 - (w^2 - a) x + b
/// = 0. Together with the root pinned in `Point::decode`'s contract, this
/// lets a consumer check the defining algebraic relation of a decoded
/// point on its own.
pub proof fn lemma_decoded_x_on_curve(w: GFp5, rt: GFp5, x: GFp5)
    requires
        wf5(w),
        wf5(rt),
        wf5(x),
        smul5(rt, rt) == spec_delta(w),
        x == shalf5(sadd5(spec_decode_e(w), rt)) || x == shalf5(ssub5(spec_decode_e(w), rt)),
    ensures
        sadd5(smul5(sadd5(x, x), sadd5(x, x)), b5x4()) == smul5(
            sadd5(spec_decode_e(w), spec_decode_e(w)),
            sadd5(x, x),
        ),
{
    let e = spec_decode_e(w);
    assert(wf5(e));
    if x == shalf5(sadd5(e, rt)) {
        let s = sadd5(e, rt);
        assert(wf5(s));
        crate::quintic_ext::lemma_shalf5_double(s);
        crate::quintic_ext::lemma_root_quadratic(e, rt, b5x4());
    } else {
        let s = ssub5(e, rt);
        assert(wf5(s));
        let nrt = sneg5(rt);
        crate::quintic_ext::lemma_sub5_is_add_neg(e, rt);
        crate::quintic_ext::lemma_mul5_neg_left(rt, nrt);
        crate::quintic_ext::lemma_mul5_comm(rt, nrt);
        crate::quintic_ext::lemma_mul5_neg_left(rt, rt);
        crate::quintic_ext::lemma_double_neg5(smul5(rt, rt));
        assert(smul5(nrt, nrt) == smul5(rt, rt));
        crate::quintic_ext::lemma_shalf5_double(s);
        crate::quintic_ext::lemma_root_quadratic(e, nrt, b5x4());
    }
}

/// The affine neutral placeholder (0, 0), used to fill windows.
pub open spec fn affine_zero() -> AffinePoint {
    AffinePoint { x: zero5(), u: zero5() }
}

/// The affine form of a fractional point: each coordinate times the
/// computed inverse of its denominator.
pub open spec fn spec_to_affine(p: Point) -> AffinePoint {
    AffinePoint { x: smul5(p.x, sinv5(p.z)), u: smul5(p.u, sinv5(p.t)) }
}

/// A window lookup: index k picks k times the window's base point, with
/// negative indices giving opposites and 0 the placeholder.
pub open spec fn spec_lookup(win: Seq<AffinePoint>, k: int) -> AffinePoint {
    if k > 0 {
        win[k - 1]
    } else if k == 0 {
        affine_zero()
    } else {
        AffinePoint { x: win[-k - 1].x, u: sneg5(win[-k - 1].u) }
    }
}

/// Doublings chain: doing m doublings and then n more is doing m + n.
pub proof fn lemma_iter_double_add(p: Point, m: nat, n: nat)
    ensures
        spec_iter_double(p, m + n) == spec_iter_double(spec_iter_double(p, m), n),
    decreases n,
{
    if n > 0 {
        lemma_iter_double_add(p, m, (n - 1) as nat);
    }
}

/// The windowed-multiplication fold over a 16-entry affine window and 64
/// signed digits, most significant first: start from the top digit's window
/// entry; for each later digit, five doublings then a mixed addition of
/// that digit's entry. `k` digits after the top one have been consumed.
#[verifier::opaque]
pub open spec fn spec_windowed_mul(win: Seq<AffinePoint>, digits: Seq<int>, k: nat) -> Point
    decreases k,
{
    if k == 0 {
        lift_affine(spec_lookup(win, digits[63]))
    } else {
        spec_add_affine(
            spec_iter_double(spec_windowed_mul(win, digits, (k - 1) as nat), 5),
            spec_lookup(win, digits[63 - k]),
        )
    }
}

/// One step of the windowed-multiplication fold, written out.
proof fn lemma_windowed_mul_step(
    win: Seq<AffinePoint>,
    digits: Seq<int>,
    k: nat,
    pd: Point,
    p1: Point,
)
    requires
        k >= 1,
        pd == spec_iter_double(spec_windowed_mul(win, digits, (k - 1) as nat), 5),
        p1 == spec_add_affine(pd, spec_lookup(win, digits[63 - k])),
    ensures
        p1 == spec_windowed_mul(win, digits, k),
{
    reveal(spec_windowed_mul);
}

/// Fixed-base comb window number j: the affine multiples 1 to 16 of the
/// generator doubled 40 j times.
pub open spec fn spec_gen_window(j: int) -> Seq<AffinePoint> {
    Seq::new(
        16,
        |b: int|
            spec_to_affine(
                spec_iter_add(spec_iter_double(generator_spec(), (40 * j) as nat), (b + 1) as nat),
            ),
    )
}

/// One comb round of the fixed-base multiplication: mixed additions of the
/// digit at `base + 8 a` from comb window a, for a below `j`.
#[verifier::opaque]
pub open spec fn spec_comb_row(acc: Point, digits: Seq<int>, base: int, j: nat) -> Point
    decreases j,
{
    if j == 0 {
        acc
    } else {
        spec_add_affine(
            spec_comb_row(acc, digits, base, (j - 1) as nat),
            spec_lookup(spec_gen_window(j - 1), digits[base + 8 * (j - 1)]),
        )
    }
}

/// The top comb round of the fixed-base multiplication: window 0's entry
/// for digit 7, then mixed additions from windows 1 to j - 1.
#[verifier::opaque]
pub open spec fn spec_mulgen_top(digits: Seq<int>, j: nat) -> Point
    decreases j,
{
    if j <= 1 {
        lift_affine(spec_lookup(spec_gen_window(0), digits[7]))
    } else {
        spec_add_affine(
            spec_mulgen_top(digits, (j - 1) as nat),
            spec_lookup(spec_gen_window(j - 1), digits[7 + 8 * (j - 1)]),
        )
    }
}

/// The fixed-base multiplication fold: the top comb round, then `k` later
/// rounds, each five doublings followed by a full comb row at digit base
/// 7 - k.
#[verifier::opaque]
pub open spec fn spec_mulgen_fold(digits: Seq<int>, k: nat) -> Point
    decreases k,
{
    if k == 0 {
        spec_mulgen_top(digits, 8)
    } else {
        spec_comb_row(
            spec_iter_double(spec_mulgen_fold(digits, (k - 1) as nat), 5),
            digits,
            7 - k,
            8,
        )
    }
}

/// One mixed addition of a comb round, written out.
proof fn lemma_comb_row_step(acc: Point, digits: Seq<int>, base: int, j: nat, p0: Point, p1: Point)
    requires
        j >= 1,
        p0 == spec_comb_row(acc, digits, base, (j - 1) as nat),
        p1 == spec_add_affine(p0, spec_lookup(spec_gen_window(j - 1), digits[base + 8 * (j - 1)])),
    ensures
        p1 == spec_comb_row(acc, digits, base, j),
{
    reveal(spec_comb_row);
}

/// One mixed addition of the top comb round, written out.
proof fn lemma_mulgen_top_step(digits: Seq<int>, j: nat, p0: Point, p1: Point)
    requires
        j >= 2,
        p0 == spec_mulgen_top(digits, (j - 1) as nat),
        p1 == spec_add_affine(p0, spec_lookup(spec_gen_window(j - 1), digits[7 + 8 * (j - 1)])),
    ensures
        p1 == spec_mulgen_top(digits, j),
{
    reveal(spec_mulgen_top);
}

/// One full round of the fixed-base fold, written out.
proof fn lemma_mulgen_round(digits: Seq<int>, k: nat, pd: Point, p1: Point)
    requires
        1 <= k <= 7,
        pd == spec_iter_double(spec_mulgen_fold(digits, (k - 1) as nat), 5),
        p1 == spec_comb_row(pd, digits, 7 - k, 8),
    ensures
        p1 == spec_mulgen_fold(digits, k),
{
    reveal(spec_mulgen_fold);
}

/// One conditional step of the verification fold: a nonzero digit adds its
/// fractional-window entry; a zero digit changes nothing.
pub open spec fn spec_vstep(p: Point, win: Seq<Point>, d: int) -> Point {
    if d != 0 {
        spec_add(p, spec_lookup_point(win, d))
    } else {
        p
    }
}

/// As `spec_vstep`, over an affine window.
pub open spec fn spec_vstep_affine(p: Point, win: Seq<AffinePoint>, d: int) -> Point {
    if d != 0 {
        spec_add_affine(p, spec_lookup(win, d))
    } else {
        p
    }
}

/// The double-scalar verification fold. The top digits of the two split
/// halves pick entries of the Q and -R windows; each of the `k` later
/// rounds is five doublings, then conditional additions from the low and
/// high generator comb windows (digits 32 - k and 64 - k of the 64 recoded
/// digits of s c1) and from the Q and -R windows (digit 32 - k of each
/// half).
#[verifier::opaque]
pub open spec fn spec_muladd_fold(
    qwin: Seq<Point>,
    rwin: Seq<Point>,
    g0: Seq<AffinePoint>,
    g160: Seq<AffinePoint>,
    tt: Seq<int>,
    ss0: Seq<int>,
    ss1: Seq<int>,
    k: nat,
) -> Point
    decreases k,
{
    if k == 0 {
        spec_vstep(spec_lookup_point(qwin, ss0[32]), rwin, ss1[32])
    } else {
        let d = spec_iter_double(
            spec_muladd_fold(qwin, rwin, g0, g160, tt, ss0, ss1, (k - 1) as nat),
            5,
        );
        spec_vstep(
            spec_vstep(
                spec_vstep_affine(spec_vstep_affine(d, g0, tt[32 - k]), g160, tt[64 - k]),
                qwin,
                ss0[32 - k],
            ),
            rwin,
            ss1[32 - k],
        )
    }
}

/// One round of the verification fold, written out step by step.
proof fn lemma_muladd_round(
    qwin: Seq<Point>,
    rwin: Seq<Point>,
    g0: Seq<AffinePoint>,
    g160: Seq<AffinePoint>,
    tt: Seq<int>,
    ss0: Seq<int>,
    ss1: Seq<int>,
    k: nat,
    pd: Point,
    p1: Point,
    p2: Point,
    p3: Point,
    p4: Point,
)
    requires
        1 <= k <= 32,
        pd == spec_iter_double(
            spec_muladd_fold(qwin, rwin, g0, g160, tt, ss0, ss1, (k - 1) as nat),
            5,
        ),
        p1 == spec_vstep_affine(pd, g0, tt[32 - k]),
        p2 == spec_vstep_affine(p1, g160, tt[64 - k]),
        p3 == spec_vstep(p2, qwin, ss0[32 - k]),
        p4 == spec_vstep(p3, rwin, ss1[32 - k]),
    ensures
        p4 == spec_muladd_fold(qwin, rwin, g0, g160, tt, ss0, ss1, k),
{
    reveal(spec_muladd_fold);
}

/// A window lookup over fractional points.
pub open spec fn spec_lookup_point(win: Seq<Point>, k: int) -> Point {
    if k > 0 {
        win[k - 1]
    } else if k == 0 {
        neutral_spec()
    } else {
        spec_neg(win[-k - 1])
    }
}

impl AffinePoint {
    /// The affine placeholder (0, 0), standing for the neutral.
    pub fn neutral() -> (r: AffinePoint)
        ensures
            r == affine_zero(),
            wfa(r),
    {
        AffinePoint { x: GFp5::zero(), u: GFp5::zero() }
    }

    /// Lifts an affine point to fractional coordinates (Z = T = 1).
    pub fn to_point(&self) -> (r: Point)
        requires
            wfa(*self),
        ensures
            wfp(r),
            r == (Point { x: self.x, z: one5(), u: self.u, t: one5() }),
    {
        Point { x: self.x, z: GFp5::one(), u: self.u, t: GFp5::one() }
    }

    /// The opposite affine point.
    pub fn neg_affine(&self) -> (r: AffinePoint)
        requires
            wfa(*self),
        ensures
            wfa(r),
            r == (AffinePoint { x: self.x, u: sneg5(self.u) }),
    {
        AffinePoint { x: self.x, u: self.u.neg5() }
    }

    /// A window lookup that scans every entry and keeps the match through a
    /// mask, so the memory access pattern does not depend on the digit.
    pub fn lookup(win: &Vec<AffinePoint>, k: i32) -> (r: AffinePoint)
        requires
            win@.len() <= 16,
            -(win@.len() as int) <= k <= win@.len() as int,
            forall|j: int| 0 <= j < win@.len() ==> wfa(#[trigger] win@[j]),
        ensures
            wfa(r),
            r == spec_lookup(win@, k as int),
    {
        let neg: bool = k < 0;
        let ka: u32 = if neg {
            (0 - k) as u32
        } else {
            k as u32
        };
        let km1: u32 = ka.wrapping_sub(1);
        let mut x = GFp5::zero();
        let mut u = GFp5::zero();
        let mut i: usize = 0;
        while i < win.len()
            invariant
                win@.len() <= 16,
                i <= win@.len(),
                ka <= 16,
                km1 == (if ka >= 1 {
                    (ka - 1) as u32
                } else {
                    0xFFFFFFFFu32
                }),
                forall|j: int| 0 <= j < win@.len() ==> wfa(#[trigger] win@[j]),
                wf5(x),
                wf5(u),
                (1 <= ka <= i) ==> (x == win@[ka - 1].x && u == win@[ka - 1].u),
                (ka == 0 || ka > i) ==> (x == zero5() && u == zero5()),
            decreases win@.len() - i,
        {
            let m: u32 = km1.wrapping_sub(i as u32);
            let mn: u32 = 0u32.wrapping_sub(m);
            let c: u64 = (((m | mn) >> 31) as u64).wrapping_sub(1);
            proof {
                if m == 0 {
                    assert(mn == 0);
                    assert((0u32 | 0u32) >> 31 == 0) by (bit_vector);
                } else {
                    assert(m >= 0x80000000 || mn >= 0x80000000);
                    assert((m | mn) >> 31 == 1) by (bit_vector)
                        requires
                            m >= 0x80000000 || mn >= 0x80000000,
                    ;
                }
                assert(m == 0 <==> (1 <= ka && ka - 1 == i));
            }
            if c != 0 {
                x = win[i].x;
                u = win[i].u;
            }
            i = i + 1;
        }
        if neg {
            AffinePoint { x, u: u.neg5() }
        } else {
            AffinePoint { x, u }
        }
    }

    /// The variable-time window lookup: plain indexing; only for public
    /// digits.
    pub fn lookup_vartime(win: &Vec<AffinePoint>, k: i32) -> (r: AffinePoint)
        requires
            win@.len() <= 16,
            -(win@.len() as int) <= k <= win@.len() as int,
            forall|j: int| 0 <= j < win@.len() ==> wfa(#[trigger] win@[j]),
        ensures
            wfa(r),
            r == spec_lookup(win@, k as int),
    {
        if k > 0 {
            win[(k - 1) as usize]
        } else if k == 0 {
            AffinePoint::neutral()
        } else {
            win[(0 - k - 1) as usize].neg_affine()
        }
    }
}

impl Point {
    /// The variable-time window lookup over fractional points.
    pub fn lookup_vartime(win: &Vec<Point>, k: i32) -> (r: Point)
        requires
            win@.len() <= 16,
            -(win@.len() as int) <= k <= win@.len() as int,
            forall|j: int| 0 <= j < win@.len() ==> wfp(#[trigger] win@[j]),
        ensures
            wfp(r),
            r == spec_lookup_point(win@, k as int),
    {
        if k > 0 {
            win[(k - 1) as usize]
        } else if k == 0 {
            Point::neutral()
        } else {
            win[(0 - k - 1) as usize].neg_point()
        }
    }

    /// Converts points to affine (x, u) form. Each output is pinned to the
    /// per-point inversion values x Z^-1 and u T^-1, the reference the
    /// batch conversion must reproduce bit for bit.
    pub fn batch_to_affine(src: &Vec<Point>) -> (r: Vec<AffinePoint>)
        requires
            forall|j: int| 0 <= j < src@.len() ==> wfp(#[trigger] src@[j]),
        ensures
            r@.len() == src@.len(),
            forall|j: int| 0 <= j < r@.len() ==> #[trigger] r@[j] == spec_to_affine(src@[j]),
            forall|j: int| 0 <= j < r@.len() ==> wfa(#[trigger] r@[j]),
    {
        let n = src.len();
        let mut res: Vec<AffinePoint> = Vec::new();
        let mut i: usize = 0;
        while i < n
            invariant
                res@.len() == i,
                i <= n,
                n == src@.len(),
                forall|j: int| 0 <= j < src@.len() ==> wfp(#[trigger] src@[j]),
                forall|j: int| 0 <= j < i ==> #[trigger] res@[j] == spec_to_affine(src@[j]),
                forall|j: int| 0 <= j < i ==> wfa(#[trigger] res@[j]),
            decreases n - i,
        {
            let p = src[i];
            let x = p.x.mul5(&p.z.inverse_or_zero5());
            let u = p.u.mul5(&p.t.inverse_or_zero5());
            res.push(AffinePoint { x, u });
            i = i + 1;
        }
        res
    }

    /// A window of the multiples 1 to 16 of this point, in affine form:
    /// entry j holds j + 1 repeated additions of the point, converted to
    /// affine coordinates.
    pub fn make_window_affine(&self) -> (r: Vec<AffinePoint>)
        requires
            wfp(*self),
        ensures
            r@.len() == 16,
            forall|j: int|
                0 <= j < 16 ==> #[trigger] r@[j] == spec_to_affine(
                    spec_iter_add(*self, (j + 1) as nat),
                ),
            forall|j: int| 0 <= j < 16 ==> wfa(#[trigger] r@[j]),
    {
        let tmp = self.make_window_5();
        Point::batch_to_affine(&tmp)
    }

    /// A window of the multiples 1 to 16 of this point, in fractional form:
    /// entry j holds j + 1 repeated additions of the point.
    pub fn make_window_5(&self) -> (r: Vec<Point>)
        requires
            wfp(*self),
        ensures
            r@.len() == 16,
            forall|j: int|
                0 <= j < 16 ==> #[trigger] r@[j] == spec_iter_add(*self, (j + 1) as nat),
            forall|j: int| 0 <= j < 16 ==> wfp(#[trigger] r@[j]),
    {
        let mut win: Vec<Point> = Vec::new();
        win.push(*self);
        let mut i: usize = 1;
        while i < 16
            invariant
                wfp(*self),
                win@.len() == i,
                1 <= i <= 16,
                forall|j: int|
                    0 <= j < i ==> #[trigger] win@[j] == spec_iter_add(*self, (j + 1) as nat),
                forall|j: int| 0 <= j < i ==> wfp(#[trigger] win@[j]),
            decreases 16 - i,
        {
            let q = self.add_point(&win[i - 1]);
            win.push(q);
            i = i + 1;
        }
        win
    }

    /// Multiplies this point by a scalar: a 5-bit window of multiples,
    /// signed-digit recoding, and a masked window lookup per digit. The
    /// result is pinned to the windowed fold over the window of this point
    /// and the recoded digits of the scalar.
    #[verifier::rlimit(100)]
    pub fn mul_scalar(&self, s: &EcGFp5Scalar) -> (r: Point)
        requires
            wfp(*self),
            scalar_wf(*s),
        ensures
            wfp(r),
            r == spec_windowed_mul(
                Seq::new(16, |j: int| spec_to_affine(spec_iter_add(*self, (j + 1) as nat))),
                Seq::new(64, |i: int| sdigit(seq![s.l0, s.l1, s.l2, s.l3, s.l4], 5, i as nat)),
                63,
            ),
    {
        let ghost winspec = Seq::new(
            16,
            |j: int| spec_to_affine(spec_iter_add(*self, (j + 1) as nat)),
        );
        let ghost dspec = Seq::new(
            64,
            |i: int| sdigit(seq![s.l0, s.l1, s.l2, s.l3, s.l4], 5, i as nat),
        );
        let win = self.make_window_affine();
        let digits = s.recode_signed(64, 5);
        proof {
            assert(vstd::arithmetic::power2::pow2(4) == 16) by {
                vstd::arithmetic::power2::lemma2_to64();
            }
            assert(forall|j: int| 0 <= j < 64 ==> -16 <= #[trigger] digits@[j] <= 16);
            assert(win@ =~= winspec);
            assert(forall|j: int| 0 <= j < 64 ==> #[trigger] digits@[j] as int == dspec[j]);
        }
        let mut p = AffinePoint::lookup_vartime(&win, digits[63]).to_point();
        proof {
            reveal(spec_windowed_mul);
            assert(p == spec_windowed_mul(winspec, dspec, 0));
        }
        let mut i: usize = 63;
        while i >= 1
            invariant
                0 <= i <= 63,
                wfp(p),
                win@.len() == 16,
                win@ == winspec,
                forall|j: int| 0 <= j < 16 ==> wfa(#[trigger] win@[j]),
                digits@.len() == 64,
                forall|j: int| 0 <= j < 64 ==> -16 <= #[trigger] digits@[j] <= 16,
                forall|j: int| 0 <= j < 64 ==> #[trigger] digits@[j] as int == dspec[j],
                p == spec_windowed_mul(winspec, dspec, (63 - i) as nat),
            decreases i,
        {
            p = p.mdouble(5);
            let ghost pd: Point = p;
            p = p.add_affine_point(&AffinePoint::lookup(&win, digits[i - 1]));
            proof {
                let kk = (64 - i) as nat;
                assert(63 - kk == i - 1);
                lemma_windowed_mul_step(winspec, dspec, kk, pd, p);
            }
            i = i - 1;
        }
        p
    }

    /// Multiplies the conventional generator by a scalar, using eight
    /// 5-bit combs over windows of the generator's iterated 2^40 multiples.
    /// The windows are recomputed from the generator itself, and the result
    /// is pinned to the comb fold over them and the recoded digits.
    #[verifier::rlimit(100)]
    pub fn mulgen(s: &EcGFp5Scalar) -> (r: Point)
        requires
            scalar_wf(*s),
        ensures
            wfp(r),
            r == spec_mulgen_fold(
                Seq::new(64, |i: int| sdigit(seq![s.l0, s.l1, s.l2, s.l3, s.l4], 5, i as nat)),
                7,
            ),
    {
        let ghost dspec = Seq::new(
            64,
            |i: int| sdigit(seq![s.l0, s.l1, s.l2, s.l3, s.l4], 5, i as nat),
        );
        let mut wins: Vec<Vec<AffinePoint>> = Vec::new();
        let mut g = Point::generator();
        let mut j: usize = 0;
        while j < 8
            invariant
                wins@.len() == j,
                j <= 8,
                wfp(g),
                g == spec_iter_double(generator_spec(), (40 * j) as nat),
                forall|a: int| 0 <= a < j ==> (#[trigger] wins@[a])@ == spec_gen_window(a),
                forall|a: int|
                    0 <= a < j ==> (#[trigger] wins@[a])@.len() == 16 && forall|b: int|
                        0 <= b < 16 ==> wfa(#[trigger] wins@[a]@[b]),
            decreases 8 - j,
        {
            let w = g.make_window_affine();
            proof {
                assert(w@ =~= spec_gen_window(j as int));
            }
            wins.push(w);
            g = g.mdouble(40);
            proof {
                lemma_iter_double_add(generator_spec(), (40 * j) as nat, 40);
                assert(40 * (j + 1) == 40 * j + 40);
            }
            j = j + 1;
        }
        let digits = s.recode_signed(64, 5);
        proof {
            assert(vstd::arithmetic::power2::pow2(4) == 16) by {
                vstd::arithmetic::power2::lemma2_to64();
            }
            assert(forall|j: int| 0 <= j < 64 ==> -16 <= #[trigger] digits@[j] <= 16);
            assert(forall|j: int| 0 <= j < 64 ==> #[trigger] digits@[j] as int == dspec[j]);
        }
        let mut p = AffinePoint::lookup(&wins[0], digits[7]).to_point();
        proof {
            reveal(spec_mulgen_top);
            assert(p == spec_mulgen_top(dspec, 1));
        }
        let mut j: usize = 1;
        while j < 8
            invariant
                1 <= j <= 8,
                wfp(p),
                wins@.len() == 8,
                digits@.len() == 64,
                forall|a: int| 0 <= a < 8 ==> (#[trigger] wins@[a])@ == spec_gen_window(a),
                forall|a: int|
                    0 <= a < 8 ==> (#[trigger] wins@[a])@.len() == 16 && forall|b: int|
                        0 <= b < 16 ==> wfa(#[trigger] wins@[a]@[b]),
                forall|a: int| 0 <= a < 64 ==> -16 <= #[trigger] digits@[a] <= 16,
                forall|a: int| 0 <= a < 64 ==> #[trigger] digits@[a] as int == dspec[a],
                p == spec_mulgen_top(dspec, j as nat),
            decreases 8 - j,
        {
            let ghost p0: Point = p;
            p = p.add_affine_point(&AffinePoint::lookup(&wins[j], digits[7 + 8 * j]));
            proof {
                lemma_mulgen_top_step(dspec, (j + 1) as nat, p0, p);
            }
            j = j + 1;
        }
        proof {
            reveal(spec_mulgen_fold);
            assert(p == spec_mulgen_fold(dspec, 0));
        }
        let mut i: usize = 7;
        while i >= 1
            invariant
                0 <= i <= 7,
                wfp(p),
                wins@.len() == 8,
                digits@.len() == 64,
                forall|a: int| 0 <= a < 8 ==> (#[trigger] wins@[a])@ == spec_gen_window(a),
                forall|a: int|
                    0 <= a < 8 ==> (#[trigger] wins@[a])@.len() == 16 && forall|b: int|
                        0 <= b < 16 ==> wfa(#[trigger] wins@[a]@[b]),
                forall|a: int| 0 <= a < 64 ==> -16 <= #[trigger] digits@[a] <= 16,
                forall|a: int| 0 <= a < 64 ==> #[trigger] digits@[a] as int == dspec[a],
                p == spec_mulgen_fold(dspec, (7 - i) as nat),
            decreases i,
        {
            p = p.mdouble(5);
            let ghost pd: Point = p;
            proof {
                reveal(spec_comb_row);
                assert(pd == spec_iter_double(spec_mulgen_fold(dspec, (7 - i) as nat), 5));
                assert(p == spec_comb_row(pd, dspec, i - 1, 0));
            }
            let mut j: usize = 0;
            while j < 8
                invariant
                    j <= 8,
                    1 <= i <= 7,
                    wfp(p),
                    wins@.len() == 8,
                    digits@.len() == 64,
                    forall|a: int| 0 <= a < 8 ==> (#[trigger] wins@[a])@ == spec_gen_window(a),
                    forall|a: int|
                        0 <= a < 8 ==> (#[trigger] wins@[a])@.len() == 16 && forall|b: int|
                            0 <= b < 16 ==> wfa(#[trigger] wins@[a]@[b]),
                    forall|a: int| 0 <= a < 64 ==> -16 <= #[trigger] digits@[a] <= 16,
                    forall|a: int| 0 <= a < 64 ==> #[trigger] digits@[a] as int == dspec[a],
                    pd == spec_iter_double(spec_mulgen_fold(dspec, (7 - i) as nat), 5),
                    p == spec_comb_row(pd, dspec, i - 1, j as nat),
                decreases 8 - j,
            {
                let ghost p0: Point = p;
                p = p.add_affine_point(&AffinePoint::lookup(&wins[j], digits[(i - 1) + 8 * j]));
                proof {
                    lemma_comb_row_step(pd, dspec, i - 1, (j + 1) as nat, p0, p);
                }
                j = j + 1;
            }
            proof {
                let kk = (8 - i) as nat;
                assert(7 - kk == i - 1);
                lemma_mulgen_round(dspec, kk, pd, p);
            }
            i = i - 1;
        }
        p
    }

    /// Verifies s G + k Q = R without two full scalar multiplications: k is
    /// split by the lattice reduction into halves, and all multipliers are
    /// consumed through 5-bit windows. Variable-time; public data only.
    #[verifier::rlimit(100)]
    #[verifier::rlimit(100)]
    pub fn verify_muladd_vartime(
        &self,
        s: &EcGFp5Scalar,
        k: &EcGFp5Scalar,
        rhs: &Point,
    ) -> (ok: bool)
        requires
            wfp(*self),
            wfp(*rhs),
            scalar_wf(*s),
            scalar_wf(*k),
        ensures
            ({
                let nn = n_value() as int;
                ||| (exists|c0: Signed161, c1: Signed161, t: EcGFp5Scalar|
                    #![trigger s161_digits(c0), s161_digits(c1), sval(t)]
                    {
                        &&& sval161(c1) != 0
                        &&& (sval(*k) as int * sval161(c1)) % nn == sval161(c0) % nn
                        &&& scalar_wf(t)
                        &&& sval(t) as int == (sval(*s) as int * (sval161(c1) % nn)) % nn
                        &&& ok == (spec_muladd_fold(
                            Seq::new(16, |j: int| spec_iter_add(*self, (j + 1) as nat)),
                            Seq::new(16, |j: int| spec_iter_add(spec_neg(*rhs), (j + 1) as nat)),
                            Seq::new(
                                16,
                                |j: int|
                                    spec_to_affine(
                                        spec_iter_add(generator_spec(), (j + 1) as nat),
                                    ),
                            ),
                            Seq::new(
                                16,
                                |j: int|
                                    spec_to_affine(
                                        spec_iter_add(
                                            spec_iter_double(generator_spec(), 160),
                                            (j + 1) as nat,
                                        ),
                                    ),
                            ),
                            Seq::new(
                                64,
                                |i: int| sdigit(seq![t.l0, t.l1, t.l2, t.l3, t.l4], 5, i as nat),
                            ),
                            s161_digits(c0),
                            s161_digits(c1),
                            32,
                        ).u == zero5())
                    })
                ||| ok == spec_equals(
                    spec_add(
                        spec_mulgen_fold(
                            Seq::new(
                                64,
                                |i: int| sdigit(seq![s.l0, s.l1, s.l2, s.l3, s.l4], 5, i as nat),
                            ),
                            7,
                        ),
                        spec_windowed_mul(
                            Seq::new(
                                16,
                                |j: int| spec_to_affine(spec_iter_add(*self, (j + 1) as nat)),
                            ),
                            Seq::new(
                                64,
                                |i: int| sdigit(seq![k.l0, k.l1, k.l2, k.l3, k.l4], 5, i as nat),
                            ),
                            63,
                        ),
                    ),
                    *rhs,
                )
            }),
    {
        let (c0, c1) = k.lagrange();
        let c1s = c1.to_scalar_vartime();
        if c1s.is_zero() {
            // the split's denominator degenerated: check the relation the
            // slow, fully pinned way instead
            let lhs = Point::mulgen(s).add_point(&self.mul_scalar(k));
            return lhs.equals(rhs);
        }
        let t = s.mul_mod(&c1s);
        let tt = t.recode_signed(64, 5);
        proof {
            assert(vstd::arithmetic::power2::pow2(4) == 16) by {
                vstd::arithmetic::power2::lemma2_to64();
            }
            assert(forall|j: int| 0 <= j < 64 ==> -16 <= #[trigger] tt@[j] <= 16);
        }
        let ss0 = c0.recode_signed_5();
        let ss1 = c1.recode_signed_5();
        let win_q = self.make_window_5();
        let win_r = rhs.neg_point().make_window_5();
        let g = Point::generator();
        let gt0 = g.make_window_affine();
        let gt160 = g.mdouble(160).make_window_affine();
        let ghost tts = Seq::new(64, |i: int| tt@[i] as int);
        let ghost s0s = Seq::new(33, |i: int| ss0@[i] as int);
        let ghost s1s = Seq::new(33, |i: int| ss1@[i] as int);
        let mut p = Point::lookup_vartime(&win_q, ss0[32]);
        if ss1[32] != 0 {
            p = p.add_point(&Point::lookup_vartime(&win_r, ss1[32]));
        }
        proof {
            reveal(spec_muladd_fold);
            assert(p == spec_muladd_fold(win_q@, win_r@, gt0@, gt160@, tts, s0s, s1s, 0));
        }
        let mut i: usize = 32;
        while i >= 1
            invariant
                0 <= i <= 32,
                wfp(p),
                win_q@.len() == 16,
                win_r@.len() == 16,
                gt0@.len() == 16,
                gt160@.len() == 16,
                tt@.len() == 64,
                ss0@.len() == 33,
                ss1@.len() == 33,
                tts == Seq::new(64, |i: int| tt@[i] as int),
                s0s == Seq::new(33, |i: int| ss0@[i] as int),
                s1s == Seq::new(33, |i: int| ss1@[i] as int),
                forall|j: int| 0 <= j < 16 ==> wfp(#[trigger] win_q@[j]),
                forall|j: int| 0 <= j < 16 ==> wfp(#[trigger] win_r@[j]),
                forall|j: int| 0 <= j < 16 ==> wfa(#[trigger] gt0@[j]),
                forall|j: int| 0 <= j < 16 ==> wfa(#[trigger] gt160@[j]),
                forall|j: int| 0 <= j < 64 ==> -16 <= #[trigger] tt@[j] <= 16,
                forall|j: int| 0 <= j < 33 ==> -16 <= #[trigger] ss0@[j] <= 16,
                forall|j: int| 0 <= j < 33 ==> -16 <= #[trigger] ss1@[j] <= 16,
                p == spec_muladd_fold(
                    win_q@,
                    win_r@,
                    gt0@,
                    gt160@,
                    tts,
                    s0s,
                    s1s,
                    (32 - i) as nat,
                ),
            decreases i,
        {
            p = p.mdouble(5);
            let ghost pd: Point = p;
            proof {
                assert(pd == spec_iter_double(
                    spec_muladd_fold(
                        win_q@,
                        win_r@,
                        gt0@,
                        gt160@,
                        tts,
                        s0s,
                        s1s,
                        (32 - i) as nat,
                    ),
                    5,
                ));
            }
            if tt[i - 1] != 0 {
                p = p.add_affine_point(&AffinePoint::lookup_vartime(&gt0, tt[i - 1]));
            }
            proof {
                assert(p == spec_vstep_affine(pd, gt0@, tts[i - 1]));
            }
            let ghost p1: Point = p;
            if tt[32 + (i - 1)] != 0 {
                p = p.add_affine_point(&AffinePoint::lookup_vartime(&gt160, tt[32 + (i - 1)]));
            }
            proof {
                assert(p == spec_vstep_affine(p1, gt160@, tts[32 + (i - 1)]));
            }
            let ghost p2: Point = p;
            if ss0[i - 1] != 0 {
                p = p.add_point(&Point::lookup_vartime(&win_q, ss0[i - 1]));
            }
            proof {
                assert(p == spec_vstep(p2, win_q@, s0s[i - 1]));
            }
            let ghost p3: Point = p;
            if ss1[i - 1] != 0 {
                p = p.add_point(&Point::lookup_vartime(&win_r, ss1[i - 1]));
            }
            proof {
                assert(p == spec_vstep(p3, win_r@, s1s[i - 1]));
                let kk = (33 - i) as nat;
                assert(32 - kk == i - 1 && 64 - kk == 32 + (i - 1));
                lemma_muladd_round(
                    win_q@,
                    win_r@,
                    gt0@,
                    gt160@,
                    tts,
                    s0s,
                    s1s,
                    kk,
                    pd,
                    p1,
                    p2,
                    p3,
                    p,
                );
            }
            i = i - 1;
        }
        let ok = p.is_neutral();
        proof {
            let nn = n_value() as int;
            vstd::arithmetic::div_mod::lemma_small_mod(0, n_value());
            assert(sval161(c1) != 0);
            assert(sval(t) as int == (sval(*s) as int * (sval161(c1) % nn)) % nn);
            assert(win_q@ =~= Seq::new(16, |j: int| spec_iter_add(*self, (j + 1) as nat)));
            assert(win_r@ =~= Seq::new(
                16,
                |j: int| spec_iter_add(spec_neg(*rhs), (j + 1) as nat),
            ));
            assert(gt0@ =~= Seq::new(
                16,
                |j: int| spec_to_affine(spec_iter_add(generator_spec(), (j + 1) as nat)),
            ));
            assert(gt160@ =~= Seq::new(
                16,
                |j: int|
                    spec_to_affine(
                        spec_iter_add(spec_iter_double(generator_spec(), 160), (j + 1) as nat),
                    ),
            ));
            assert(tts =~= Seq::new(
                64,
                |i: int| sdigit(seq![t.l0, t.l1, t.l2, t.l3, t.l4], 5, i as nat),
            ));
            assert(s0s =~= s161_digits(c0));
            assert(s1s =~= s161_digits(c1));
        }
        ok
    }

    /// The Weierstrass form of this point, pinned to the boundary
    /// convention: the neutral becomes the point at infinity; otherwise the
    /// abscissa kept is the root of the encoding quadratic that the
    /// Legendre test marks, shifted by a/3, with ordinate -(w x).
    pub fn to_weierstrass(&self) -> (r: WeierstrassPoint)
        requires
            wfp(*self),
        ensures
            wfw(r),
            r == spec_to_weierstrass(*self),
    {
        if self.is_neutral() {
            return WeierstrassPoint::neutral();
        }
        let w = self.encode();
        let a = GFp5::new(2, 0, 0, 0, 0);
        let e = w.square5().sub5(&a);
        let xa = self.x.mul5(&self.z.inverse_or_zero5());
        let xsel = if xa.legendre() == 1 {
            xa
        } else {
            e.sub5(&xa)
        };
        let inv3 = fp_inverse_or_zero(3);
        let a3 = GFp5::new(2, 0, 0, 0, 0).scale5(inv3);
        let y = w.mul5(&xsel).neg5();
        WeierstrassPoint { x: xsel.add5(&a3), y, is_inf: false }
    }
}


/// The group law is commutative: the complete addition formula gives the
/// same point whichever way its operands are ordered.
pub proof fn lemma_add_comm(p: Point, q: Point)
    ensures
        spec_add(p, q) == spec_add(q, p),
{
    crate::quintic_ext::lemma_mul5_comm(p.x, q.x);
    crate::quintic_ext::lemma_mul5_comm(p.z, q.z);
    crate::quintic_ext::lemma_mul5_comm(p.u, q.u);
    crate::quintic_ext::lemma_mul5_comm(p.t, q.t);
    crate::quintic_ext::lemma_mul5_comm(sadd5(p.x, p.z), sadd5(q.x, q.z));
    crate::quintic_ext::lemma_mul5_comm(sadd5(p.u, p.t), sadd5(q.u, q.t));
}

/// Adding a point to its opposite gives the neutral: the result's u
/// coordinate vanishes, so it stands for the neutral element.
pub proof fn lemma_add_opposite(p: Point)
    requires
        wfp(p),
    ensures
        spec_add(p, spec_neg(p)).u == zero5(),
        spec_equals(spec_add(p, spec_neg(p)), neutral_spec()),
{
    let u = p.u;
    let t = p.t;
    let nu = sneg5(u);
    let s1 = sadd5(u, t);
    let t3 = smul5(u, nu);
    let t4 = smul5(t, t);
    assert(wf5(s1) && wf5(nu) && wf5(t3) && wf5(t4));
    crate::quintic_ext::lemma_mul5_distrib(s1, nu, t);
    crate::quintic_ext::lemma_mul5_comm(s1, nu);
    crate::quintic_ext::lemma_mul5_distrib(nu, u, t);
    crate::quintic_ext::lemma_mul5_comm(s1, t);
    crate::quintic_ext::lemma_mul5_distrib(t, u, t);
    crate::quintic_ext::lemma_mul5_comm(u, nu);
    // the full product regrouped as four summands
    assert(smul5(s1, sadd5(nu, t)) == sadd5(
        sadd5(smul5(nu, u), smul5(nu, t)),
        sadd5(smul5(t, u), smul5(t, t)),
    ));
    crate::quintic_ext::lemma_sum4_cancel(smul5(nu, u), smul5(nu, t), smul5(t, u), smul5(t, t));
    assert(ssub5(ssub5(smul5(s1, sadd5(nu, t)), t3), t4) == sadd5(smul5(nu, t), smul5(t, u)));
    crate::quintic_ext::lemma_mul5_neg_left(u, t);
    crate::quintic_ext::lemma_mul5_comm(t, u);
    crate::quintic_ext::lemma_add5_opp(smul5(u, t));
    assert(ssub5(ssub5(smul5(s1, sadd5(nu, t)), t3), t4) == zero5());
    lemma_mul5_zero_right(ssub5(smul5(smul5(p.z, p.z), b5()), smul5(p.x, p.x)));
    lemma_mul5_zero_right(one5());
    lemma_mul5_zero_right(spec_add(p, spec_neg(p)).t);
}

/// The neutral is its own opposite.
pub proof fn lemma_neutral_is_its_own_opposite()
    ensures
        spec_neg(neutral_spec()) == neutral_spec(),
{
    vstd::arithmetic::div_mod::lemma_small_mod(0, crate::base_field::P as nat);
}


/// The round trip from a decodable element back through encoding: any
/// point with the coordinate shape that `decode` produces encodes to the
/// element it was decoded from, and the neutral encodes to zero.
pub proof fn lemma_encode_after_decode(w: GFp5, p: Point)
    requires
        wf5(w),
        (p == neutral_spec() && w == zero5()) || (p.u == one5() && p.t == w),
    ensures
        spec_encode(p) == w,
{
    if p == neutral_spec() && w == zero5() {
        crate::quintic_ext::lemma_sinv5_zero();
        lemma_mul5_zero_right(one5());
    } else {
        crate::quintic_ext::lemma_sinv5_one();
        crate::quintic_ext::lemma_mul5_one_right(w);
    }
}


/// An affine point lifted to fractional coordinates (Z = T = 1).
pub open spec fn lift_affine(a: AffinePoint) -> Point {
    Point { x: a.x, z: one5(), u: a.u, t: one5() }
}

/// The cheaper mixed-addition formula agrees with the general complete
/// formula on the lifted point.
pub proof fn lemma_add_affine_agrees(p: Point, q: AffinePoint)
    requires
        wfp(p),
        wfa(q),
    ensures
        spec_add_affine(p, q) == spec_add(p, lift_affine(q)),
{
    let ql = lift_affine(q);
    crate::quintic_ext::lemma_mul5_one_right(p.z);
    crate::quintic_ext::lemma_mul5_one_right(p.t);
    // the x-side cross term: (x1 + z1)(x2 + 1) - x1 x2 - z1 = x1 + x2 z1
    let sxz = sadd5(p.x, p.z);
    assert(wf5(sxz));
    crate::quintic_ext::lemma_mul5_distrib(sxz, q.x, one5());
    crate::quintic_ext::lemma_mul5_one_right(sxz);
    crate::quintic_ext::lemma_mul5_comm(sxz, q.x);
    crate::quintic_ext::lemma_mul5_distrib(q.x, p.x, p.z);
    crate::quintic_ext::lemma_mul5_comm(q.x, p.x);
    crate::quintic_ext::lemma_sum4_cancel(
        smul5(p.x, q.x),
        smul5(q.x, p.z),
        p.x,
        p.z,
    );
    crate::quintic_ext::lemma_add5_comm(smul5(q.x, p.z), p.x);
    assert(ssub5(ssub5(smul5(sadd5(p.x, p.z), sadd5(ql.x, ql.z)), smul5(p.x, ql.x)), smul5(p.z,
        ql.z)) == sadd5(p.x, smul5(q.x, p.z)));
    // the u-side cross term: (u1 + t1)(u2 + 1) - u1 u2 - t1 = u1 + u2 t1
    let sut = sadd5(p.u, p.t);
    assert(wf5(sut));
    crate::quintic_ext::lemma_mul5_distrib(sut, q.u, one5());
    crate::quintic_ext::lemma_mul5_one_right(sut);
    crate::quintic_ext::lemma_mul5_comm(sut, q.u);
    crate::quintic_ext::lemma_mul5_distrib(q.u, p.u, p.t);
    crate::quintic_ext::lemma_mul5_comm(q.u, p.u);
    crate::quintic_ext::lemma_sum4_cancel(
        smul5(p.u, q.u),
        smul5(q.u, p.t),
        p.u,
        p.t,
    );
    crate::quintic_ext::lemma_add5_comm(smul5(q.u, p.t), p.u);
    assert(ssub5(ssub5(smul5(sadd5(p.u, p.t), sadd5(ql.u, ql.t)), smul5(p.u, ql.u)), smul5(p.t,
        ql.t)) == sadd5(p.u, smul5(q.u, p.t)));
}

/// The constant x(A)/3 that shifts between the two Weierstrass forms.
pub open spec fn athird() -> GFp5 {
    sscale5(a5(), ginv(3))
}

/// The Weierstrass form of a fractional point: the neutral maps to the
/// point at infinity; otherwise, with w the encoding and e = w^2 - a, the
/// abscissa kept is the root of x^2 - e x + b = 0 that the Legendre test
/// marks (the affine X/Z value when that is a nonzero square, the
/// complementary root e - X/Z otherwise), shifted by a/3, and the
/// ordinate is -(w x).
pub open spec fn spec_to_weierstrass(p: Point) -> WeierstrassPoint {
    if p.u == zero5() {
        WeierstrassPoint { x: zero5(), y: zero5(), is_inf: true }
    } else {
        let w = spec_encode(p);
        let e = spec_decode_e(w);
        let xa = smul5(p.x, sinv5(p.z));
        let xsel = if crate::quintic_ext::slegendre5(xa) == 1 {
            xa
        } else {
            ssub5(e, xa)
        };
        WeierstrassPoint { x: sadd5(xsel, athird()), y: sneg5(smul5(w, xsel)), is_inf: false }
    }
}

impl WeierstrassPoint {
    /// The point at infinity.
    pub fn neutral() -> (r: WeierstrassPoint)
        ensures
            wfw(r),
            r.is_inf,
            r.x == zero5(),
            r.y == zero5(),
    {
        WeierstrassPoint { x: GFp5::zero(), y: GFp5::zero(), is_inf: true }
    }

    /// The conventional generator in Weierstrass form.
    pub fn generator() -> (r: WeierstrassPoint)
        ensures
            wfw(r),
            !r.is_inf,
    {
        WeierstrassPoint {
            x: GFp5::new(
                11712523173042564207,
                14090224426659529053,
                13197813503519687414,
                16280770174934269299,
                15998333998318935536,
            ),
            y: GFp5::new(
                14639054205878357578,
                17426078571020221072,
                2548978194165003307,
                8663895577921260088,
                9793640284382595140,
            ),
            is_inf: false,
        }
    }

    /// Whether two Weierstrass points are equal: any two points at
    /// infinity are, otherwise the coordinates must match.
    pub fn equals(&self, rhs: &WeierstrassPoint) -> (r: bool)
        ensures
            r == ((self.is_inf && rhs.is_inf) || (self.x == rhs.x && self.y == rhs.y)),
    {
        (self.is_inf && rhs.is_inf) || (self.x == rhs.x && self.y == rhs.y)
    }

    /// The canonical encoding w = y / (a/3 - x).
    pub fn encode(&self) -> (r: GFp5)
        requires
            wfw(*self),
        ensures
            wf5(r),
            r == smul5(self.y, sinv5(ssub5(athird(), self.x))),
    {
        let inv3 = fp_inverse_or_zero(3);
        let a3 = GFp5::new(2, 0, 0, 0, 0).scale5(inv3);
        let denom = a3.sub5(&self.x);
        self.y.mul5(&denom.inverse_or_zero5())
    }

    /// Decoding into Weierstrass form: the same quadratic as fractional
    /// decoding, with the root picked by the Legendre test and shifted by
    /// a/3; w = 0 gives the point at infinity.
    pub fn decode(w: &GFp5) -> (r: Option<WeierstrassPoint>)
        requires
            wf5(*w),
        ensures
            r is Some <==> (*w == zero5() || ssqrt_ok(spec_delta(*w))),
            match r {
                Some(p) => wfw(p) && (if *w == zero5() {
                    p.is_inf && p.x == zero5() && p.y == zero5()
                } else {
                    let rt = scanonical_val(spec_delta(*w));
                    let xsel = if crate::quintic_ext::slegendre5(
                        shalf5(sadd5(spec_decode_e(*w), rt)),
                    ) == 1 {
                        shalf5(sadd5(spec_decode_e(*w), rt))
                    } else {
                        shalf5(ssub5(spec_decode_e(*w), rt))
                    };
                    !p.is_inf && p.x == sadd5(xsel, athird()) && p.y == sneg5(smul5(*w, xsel))
                }),
                None => *w != zero5(),
            },
            *w == zero5() ==> r is Some,
    {
        if w.c0 == 0 && w.c1 == 0 && w.c2 == 0 && w.c3 == 0 && w.c4 == 0 {
            return Some(WeierstrassPoint::neutral());
        }
        let a = GFp5::new(2, 0, 0, 0, 0);
        let b4 = GFp5::new(0, 1052, 0, 0, 0);
        let e = w.square5().sub5(&a);
        let delta = e.square5().sub5(&b4);
        let root = delta.canonical_sqrt5();
        match root {
            Some(rt) => {
                let x1 = e.add5(&rt).half5();
                let x2 = e.sub5(&rt).half5();
                let x = if x1.legendre() == 1 {
                    x1
                } else {
                    x2
                };
                let y = w.mul5(&x).neg5();
                let inv3 = fp_inverse_or_zero(3);
                let a3 = GFp5::new(2, 0, 0, 0, 0).scale5(inv3);
                Some(WeierstrassPoint { x: x.add5(&a3), y, is_inf: false })
            },
            None => None,
        }
    }
}

} // verus!
