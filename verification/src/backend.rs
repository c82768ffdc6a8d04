//! The arithmetic backend: the operations that a vendor may replace with its
//! own implementation, each with the result every backend must give.
use vstd::prelude::*;
use vstd::arithmetic::power::pow;
use crate::spec::{modulus, max_value, val4, wrap};
use crate::limbs::{mul_overflowing, div_rem_limbs, pow_limbs};

verus! {

/// A U256 arithmetic backend.
///
/// Every method has a default implementation, verified against its contract;
/// a vendor overrides only the operations it wants to accelerate, and an
/// override must give the same results. Values cross the boundary as
/// `[u64; 4]` in little-endian limb order.
pub trait Uint256Ops: Send + Sync + core::fmt::Debug {
    /// Wrapping multiplication with overflow flag: `(product mod 2^256, product >= 2^256)`.
    fn overflowing_mul(&self, a: [u64; 4], b: [u64; 4]) -> (r: ([u64; 4], bool))
        ensures
            val4(r.0) == wrap(val4(a) * val4(b) as int),
            r.1 == (val4(a) * val4(b) >= modulus()),
    {
        mul_overflowing(a, b)
    }

    /// Wrapping division; the divisor must be nonzero.
    fn wrapping_div(&self, a: [u64; 4], b: [u64; 4]) -> (r: [u64; 4])
        requires
            val4(b) != 0,
        ensures
            val4(r) == val4(a) / val4(b),
    {
        let (q, _r) = div_rem_limbs(a, b);
        q
    }

    /// Wrapping remainder; the divisor must be nonzero.
    fn wrapping_rem(&self, a: [u64; 4], b: [u64; 4]) -> (r: [u64; 4])
        requires
            val4(b) != 0,
        ensures
            val4(r) == val4(a) % val4(b),
    {
        let (_q, r) = div_rem_limbs(a, b);
        r
    }

    /// Saturating multiplication: the product, or `2^256 - 1` when it does not fit.
    fn saturating_mul(&self, a: [u64; 4], b: [u64; 4]) -> (r: [u64; 4])
        ensures
            val4(r) == if val4(a) * val4(b) < modulus() { val4(a) * val4(b) } else { max_value() },
    {
        let (lo, over) = mul_overflowing(a, b);
        if over {
            [u64::MAX, u64::MAX, u64::MAX, u64::MAX]
        } else {
            proof { vstd::arithmetic::div_mod::lemma_small_mod(val4(a) * val4(b), modulus()); }
            lo
        }
    }

    /// Checked multiplication: `None` exactly when the product does not fit.
    fn checked_mul(&self, a: [u64; 4], b: [u64; 4]) -> (r: Option<[u64; 4]>)
        ensures
            r is Some <==> val4(a) * val4(b) < modulus(),
            r matches Some(v) ==> val4(v) == val4(a) * val4(b),
    {
        let (lo, over) = mul_overflowing(a, b);
        if over {
            None
        } else {
            proof { vstd::arithmetic::div_mod::lemma_small_mod(val4(a) * val4(b), modulus()); }
            Some(lo)
        }
    }

    /// Checked division: `None` exactly when the divisor is zero.
    fn checked_div(&self, a: [u64; 4], b: [u64; 4]) -> (r: Option<[u64; 4]>)
        ensures
            r is None <==> val4(b) == 0,
            r matches Some(v) ==> val4(v) == val4(a) / val4(b),
    {
        if b[0] == 0 && b[1] == 0 && b[2] == 0 && b[3] == 0 {
            None
        } else {
            let (q, _r) = div_rem_limbs(a, b);
            Some(q)
        }
    }

    /// Integer division; the divisor must be nonzero.
    fn div(&self, a: [u64; 4], b: [u64; 4]) -> (r: [u64; 4])
        requires
            val4(b) != 0,
        ensures
            val4(r) == val4(a) / val4(b),
    {
        let (q, _r) = div_rem_limbs(a, b);
        q
    }

    /// Integer remainder; the divisor must be nonzero.
    fn rem(&self, a: [u64; 4], b: [u64; 4]) -> (r: [u64; 4])
        requires
            val4(b) != 0,
        ensures
            val4(r) == val4(a) % val4(b),
    {
        let (_q, r) = div_rem_limbs(a, b);
        r
    }

    /// Exponentiation `base ^ exp`, wrapping modulo 2^256.
    fn pow(&self, base: [u64; 4], exp: [u64; 4]) -> (r: [u64; 4])
        ensures
            val4(r) == wrap(pow(val4(base) as int, val4(exp))),
    {
        pow_limbs(base, exp)
    }
}

/// The default backend: every operation is the verified default implementation.
#[derive(Debug)]
pub struct DefaultUint256Ops;

impl Uint256Ops for DefaultUint256Ops {}

} // verus!
