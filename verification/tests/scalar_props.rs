//! Scalar-field behavior: modular arithmetic against num's big integers,
//! byte import, signed-digit recoding, and the lattice split.

use ecgfp5::scalar_field::EcGFp5Scalar;
use ecgfp5::utils::Signed640;
use num::bigint::BigUint;
use rand::Rng;

fn random_scalar48(rng: &mut impl Rng) -> EcGFp5Scalar {
    let mut buf = [0u8; 48];
    rng.fill(&mut buf[..]);
    EcGFp5Scalar::from_noncanonical_bytes(&buf)
}

fn scalar_to_biguint(s: &EcGFp5Scalar) -> BigUint {
    s.to_canonical_biguint()
}

#[test]
fn scalar_arithmetic_matches_bigint() {
    let mut rng = rand::thread_rng();
    let n = EcGFp5Scalar::order();
    for _ in 0..10 {
        let a = random_scalar48(&mut rng);
        let b = random_scalar48(&mut rng);
        let ab = scalar_to_biguint(&a);
        let bb = scalar_to_biguint(&b);

        let sum = a.add_mod(&b);
        assert_eq!(scalar_to_biguint(&sum), (&ab + &bb) % &n);

        let prod = a.mul_mod(&b);
        assert_eq!(scalar_to_biguint(&prod), (&ab * &bb) % &n);

        let diff = a.sub_mod(&b);
        assert_eq!(scalar_to_biguint(&diff.add_mod(&b)), ab % &n);
    }
}

#[test]
fn scalar_inverse_cancels() {
    let mut rng = rand::thread_rng();
    for _ in 0..5 {
        let a = random_scalar48(&mut rng);
        let inv = a.try_inverse().unwrap();
        let one = inv.mul_mod(&a);
        assert_eq!(scalar_to_biguint(&one), BigUint::from(1u64));
    }
    assert!(EcGFp5Scalar::zero().try_inverse().is_none());
}

#[test]
fn byte_import_reduces_modulo_n() {
    // a buffer of all ones is far above n and must come back reduced
    let buf = [0xFFu8; 40];
    let (s, ce) = EcGFp5Scalar::try_from_noncanonical_bytes(&buf);
    assert_eq!(ce, 0);
    let n = EcGFp5Scalar::order();
    assert!(scalar_to_biguint(&s) < n);

    // a canonical buffer reports all ones
    let buf2 = [1u8; 40];
    let mut small = buf2;
    small[39] = 0;  // keep the value well below n
    let (s2, ce2) = EcGFp5Scalar::try_from_noncanonical_bytes(&small);
    assert_eq!(ce2, 0xFFFFFFFFFFFFFFFF);
    assert_eq!(scalar_to_biguint(&s2), BigUint::from_bytes_le(&small));

    // the empty byte string is the zero scalar
    let z = EcGFp5Scalar::from_noncanonical_bytes(&[]);
    assert_eq!(scalar_to_biguint(&z), BigUint::from(0u64));
}

#[test]
fn recoding_rebuilds_the_scalar() {
    let mut rng = rand::thread_rng();
    for _ in 0..10 {
        let s = random_scalar48(&mut rng);
        let digits = s.recode_signed(64, 5);
        assert_eq!(digits.len(), 64);

        // sum of digit * 32^i re-builds the value
        let mut acc = BigUint::from(0u64);
        let n = EcGFp5Scalar::order();
        let thirty_two = BigUint::from(32u64);
        for i in (0..64).rev() {
            acc = &acc * &thirty_two;
            let d = digits[i];
            if d >= 0 {
                acc = &acc + BigUint::from(d as u64);
            } else {
                acc = (&acc + &n) - BigUint::from((-d) as u64);
            }
            acc = acc % &n;
        }
        assert_eq!(acc, scalar_to_biguint(&s));

        for i in 0..64 {
            assert!(-16 < digits[i] && digits[i] <= 16);
        }
    }
}

#[test]
fn lagrange_split_satisfies_the_fraction() {
    let mut rng = rand::thread_rng();
    for _ in 0..10 {
        let k = random_scalar48(&mut rng);
        let (c0, c1) = k.lagrange();
        let c0s = c0.to_scalar_vartime();
        let c1s = c1.to_scalar_vartime();
        // k = c0 / c1 (mod n), i.e. k * c1 = c0
        let lhs = k.mul_mod(&c1s);
        assert_eq!(scalar_to_biguint(&lhs), scalar_to_biguint(&c0s));
        // a zero c1 would make the split useless
        assert!(scalar_to_biguint(&c1s) != BigUint::from(0u64));
    }
}

#[test]
fn u64_bitlength_values() {
    assert_eq!(Signed640::u64_bitlength(0), 0);
    assert_eq!(Signed640::u64_bitlength(1), 1);
    assert_eq!(Signed640::u64_bitlength(2), 2);
    assert_eq!(Signed640::u64_bitlength(3), 2);
    assert_eq!(Signed640::u64_bitlength(4), 3);
    assert_eq!(Signed640::u64_bitlength(0xFFFFFFFFFFFFFFFF), 64);
    assert_eq!(Signed640::u64_bitlength(0x8000000000000000), 64);
    assert_eq!(Signed640::u64_bitlength(0x7FFFFFFFFFFFFFFF), 63);
}

#[test]
fn nsquared_matches_bigint() {
    let nsq = Signed640::from_nsquared();
    let n = EcGFp5Scalar::order();
    let expected = &n * &n;
    // rebuild the ten-limb value
    let limbs = [
        nsq.w0, nsq.w1, nsq.w2, nsq.w3, nsq.w4, nsq.w5, nsq.w6, nsq.w7, nsq.w8, nsq.w9,
    ];
    let mut acc = BigUint::from(0u64);
    for i in (0..10).rev() {
        acc = (acc << 64) + BigUint::from(limbs[i]);
    }
    assert_eq!(acc, expected);
}
