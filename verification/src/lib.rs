//! Arithmetic for the EcGFp5 elliptic curve: the degree-5 extension of the
//! 64-bit Goldilocks prime field, the curve group law in fractional (x, u)
//! coordinates, and the scalar field modulo the curve order.

use vstd::prelude::*;

pub mod base_field;
pub mod bigint;
pub mod curve;
pub mod gates;
pub mod limbs;
pub mod quintic_ext;
pub mod scalar_field;
pub mod utils;

verus! {

} // verus!
