//! Field-level behavior: Legendre symbols, square roots, sign convention,
//! and the field laws on random elements.

use ecgfp5::base_field::P;
use ecgfp5::quintic_ext::GFp5;
use rand::Rng;

fn rand_fe(rng: &mut impl Rng) -> GFp5 {
    GFp5::new(
        rng.gen_range(0..P),
        rng.gen_range(0..P),
        rng.gen_range(0..P),
        rng.gen_range(0..P),
        rng.gen_range(0..P),
    )
}

fn random_non_square(rng: &mut impl Rng) -> GFp5 {
    loop {
        let attempt = rand_fe(rng);
        if attempt.sqrt5().is_none() {
            return attempt;
        }
    }
}

#[test]
fn test_legendre() {
    // test zero
    assert_eq!(0, GFp5::zero().legendre());

    let mut rng = rand::thread_rng();

    // test non-squares
    for _ in 0..32 {
        let x = random_non_square(&mut rng);
        let legendre_sym = x.legendre();
        assert_eq!(legendre_sym, P - 1);
    }

    // test squares
    for _ in 0..32 {
        let x = rand_fe(&mut rng);
        let square = x.mul5(&x);
        let legendre_sym = square.legendre();
        assert_eq!(legendre_sym, 1);
    }

    // test zero square
    let x = GFp5::zero();
    let square = x.mul5(&x);
    let legendre_sym = square.legendre();
    assert_eq!(legendre_sym, 0);
}

#[test]
fn test_sqrt_quintic_ext_outside_circuit() {
    let mut rng = rand::thread_rng();

    for _ in 0..30 {
        let x = rand_fe(&mut rng);
        let square = x.mul5(&x);
        let sqrt = square.sqrt5().unwrap();

        assert_eq!(sqrt.mul5(&sqrt), square);
    }
}

#[test]
fn test_canonical_sqrt_quintic_ext_outside_circuit() {
    let mut rng = rand::thread_rng();

    for _ in 0..30 {
        let x = rand_fe(&mut rng);
        let square = x.mul5(&x);
        let sqrt = square.canonical_sqrt5().unwrap();

        assert_eq!(sqrt.mul5(&sqrt), square);
        assert!(sqrt.sgn0())
    }
}

#[test]
fn field_mul_commutes() {
    let mut rng = rand::thread_rng();
    for _ in 0..20 {
        let a = rand_fe(&mut rng);
        let b = rand_fe(&mut rng);
        assert_eq!(a.mul5(&b), b.mul5(&a));
    }
}

#[test]
fn field_mul_distributes() {
    let mut rng = rand::thread_rng();
    for _ in 0..20 {
        let a = rand_fe(&mut rng);
        let b = rand_fe(&mut rng);
        let c = rand_fe(&mut rng);
        assert_eq!(a.mul5(&b.add5(&c)), a.mul5(&b).add5(&a.mul5(&c)));
    }
}

#[test]
fn field_inverse_cancels() {
    let mut rng = rand::thread_rng();
    for _ in 0..20 {
        let mut a = rand_fe(&mut rng);
        if a == GFp5::zero() {
            a = GFp5::one();
        }
        let inv = a.try_inverse5().unwrap();
        assert_eq!(inv.mul5(&a), GFp5::one());
    }
    assert!(GFp5::zero().try_inverse5().is_none());
}

#[test]
fn field_frobenius_is_multiplicative() {
    let mut rng = rand::thread_rng();
    for _ in 0..10 {
        let a = rand_fe(&mut rng);
        let b = rand_fe(&mut rng);
        let lhs = a.mul5(&b).frobenius();
        let rhs = a.frobenius().mul5(&b.frobenius());
        assert_eq!(lhs, rhs);
        // five applications of the Frobenius map are the identity
        let mut c = a;
        for _ in 0..5 {
            c = c.frobenius();
        }
        assert_eq!(c, a);
    }
}

#[test]
fn sqrt_of_non_residue_fails() {
    let mut rng = rand::thread_rng();
    let n = random_non_square(&mut rng);
    assert!(n.sqrt5().is_none());
    assert!(n.canonical_sqrt5().is_none());
}
