//! Wire layouts for the two arithmetic-circuit gates that evaluate GF(p^5)
//! products: each operation occupies a fixed block of wires, five per field
//! element.

use vstd::prelude::*;

verus! {

/// A gate computing `output = c0 x y + c1 z` over GF(p^5): each operation
/// uses four elements of five wires each.
#[derive(Clone, Copy, Debug)]
pub struct ArithmeticGFp5Gate {
    pub num_ops: usize,
}

/// A gate computing `output = c0 x y` over GF(p^5): each operation uses
/// three elements of five wires each.
#[derive(Clone, Copy, Debug)]
pub struct MulGFp5Gate {
    pub num_ops: usize,
}

impl ArithmeticGFp5Gate {
    /// The wires of operation i's first multiplicand.
    pub fn wires_ith_multiplicand_0(i: usize) -> (r: (usize, usize))
        requires
            20 * i + 20 <= usize::MAX,
        ensures
            r.0 == 20 * i,
            r.1 == 20 * i + 5,
    {
        (20 * i, 20 * i + 5)
    }

    /// The wires of operation i's second multiplicand.
    pub fn wires_ith_multiplicand_1(i: usize) -> (r: (usize, usize))
        requires
            20 * i + 20 <= usize::MAX,
        ensures
            r.0 == 20 * i + 5,
            r.1 == 20 * i + 10,
    {
        (20 * i + 5, 20 * i + 10)
    }

    /// The wires of operation i's addend.
    pub fn wires_ith_addend(i: usize) -> (r: (usize, usize))
        requires
            20 * i + 20 <= usize::MAX,
        ensures
            r.0 == 20 * i + 10,
            r.1 == 20 * i + 15,
    {
        (20 * i + 10, 20 * i + 15)
    }

    /// The wires of operation i's output.
    pub fn wires_ith_output(i: usize) -> (r: (usize, usize))
        requires
            20 * i + 20 <= usize::MAX,
        ensures
            r.0 == 20 * i + 15,
            r.1 == 20 * i + 20,
    {
        (20 * i + 15, 20 * i + 20)
    }
}

impl MulGFp5Gate {
    /// The wires of operation i's first multiplicand.
    pub fn wires_ith_multiplicand_0(i: usize) -> (r: (usize, usize))
        requires
            15 * i + 15 <= usize::MAX,
        ensures
            r.0 == 15 * i,
            r.1 == 15 * i + 5,
    {
        (15 * i, 15 * i + 5)
    }

    /// The wires of operation i's second multiplicand.
    pub fn wires_ith_multiplicand_1(i: usize) -> (r: (usize, usize))
        requires
            15 * i + 15 <= usize::MAX,
        ensures
            r.0 == 15 * i + 5,
            r.1 == 15 * i + 10,
    {
        (15 * i + 5, 15 * i + 10)
    }

    /// The wires of operation i's output.
    pub fn wires_ith_output(i: usize) -> (r: (usize, usize))
        requires
            15 * i + 15 <= usize::MAX,
        ensures
            r.0 == 15 * i + 10,
            r.1 == 15 * i + 15,
    {
        (15 * i + 10, 15 * i + 15)
    }
}

} // verus!
