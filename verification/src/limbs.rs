//! Little-endian digit values: the natural number that a sequence of 64-bit
//! limbs or of bytes stands for, with the small lemmas the conversions need.

use vstd::arithmetic::power2::{lemma_pow2_adds, lemma_pow2_pos, pow2};
use vstd::prelude::*;

verus! {

/// The value of the first `i` limbs of `s`, little-endian base 2^64.
pub open spec fn limbs_prefix(s: Seq<u64>, i: nat) -> nat
    decreases i,
{
    if i == 0 {
        0
    } else {
        (limbs_prefix(s, (i - 1) as nat) + s[i - 1] * pow2(64 * (i - 1) as nat)) as nat
    }
}

/// The value of a limb sequence, little-endian base 2^64.
pub open spec fn limbs_val(s: Seq<u64>) -> nat {
    limbs_prefix(s, s.len())
}

/// The value of the first `i` bytes of `s`, little-endian base 256.
pub open spec fn bytes_prefix(s: Seq<u8>, i: nat) -> nat
    decreases i,
{
    if i == 0 {
        0
    } else {
        (bytes_prefix(s, (i - 1) as nat) + s[i - 1] * pow2(8 * (i - 1) as nat)) as nat
    }
}

/// The value of a byte string, little-endian base 256.
pub open spec fn bytes_val(s: Seq<u8>) -> nat {
    bytes_prefix(s, s.len())
}

/// A limb sequence whose last limb is nonzero has a value of at least
/// 2^(64 (len - 1)).
pub proof fn lemma_limbs_val_lower(s: Seq<u64>)
    requires
        s.len() > 0,
        s[s.len() - 1] != 0,
    ensures
        limbs_val(s) >= pow2(64 * (s.len() - 1) as nat),
{
    let j = (s.len() - 1) as nat;
    lemma_pow2_pos(64 * j);
    assert(s[s.len() - 1] * pow2(64 * j) >= 1 * pow2(64 * j)) by {
        vstd::arithmetic::mul::lemma_mul_inequality(
            1,
            s[s.len() - 1] as int,
            pow2(64 * j) as int,
        );
        vstd::arithmetic::mul::lemma_mul_is_commutative(s[s.len() - 1] as int, pow2(64 * j) as int);
        vstd::arithmetic::mul::lemma_mul_is_commutative(1, pow2(64 * j) as int);
    }
}

} // verus!
