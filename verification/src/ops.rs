//! Operator overloads: arithmetic wraps modulo 2^256, bitwise operators work
//! limb by limb, and shifts by a `usize` multiply or divide by a power of two.
use vstd::prelude::*;
use vstd::arithmetic::power2::pow2;
use crate::spec::{max_value, wrap, bit_of};
use crate::limbs::{not_limbs, shl_limbs, shr_limbs};
use crate::uint::U256;
use vstd::std_specs::ops::{AddSpec, SubSpec, MulSpec};

verus! {

impl core::ops::Add for U256 {
    type Output = Self;

    fn add(self, rhs: Self) -> (r: Self) {
        let r = self.wrapping_add(rhs);
        proof { U256::lemma_from_view(r); }
        r
    }
}

impl vstd::std_specs::ops::AddSpecImpl for U256 {
    open spec fn obeys_add_spec() -> bool {
        true
    }

    open spec fn add_req(self, rhs: U256) -> bool {
        true
    }

    open spec fn add_spec(self, rhs: U256) -> U256 {
        U256::from_nat(wrap((self@ + rhs@) as int))
    }
}

impl core::ops::Sub for U256 {
    type Output = Self;

    fn sub(self, rhs: Self) -> (r: Self) {
        let r = self.wrapping_sub(rhs);
        proof { U256::lemma_from_view(r); }
        r
    }
}

impl vstd::std_specs::ops::SubSpecImpl for U256 {
    open spec fn obeys_sub_spec() -> bool {
        true
    }

    open spec fn sub_req(self, rhs: U256) -> bool {
        true
    }

    open spec fn sub_spec(self, rhs: U256) -> U256 {
        U256::from_nat(wrap(self@ - rhs@))
    }
}

impl core::ops::Mul for U256 {
    type Output = Self;

    /// Computed by `DefaultUint256Ops`: a backend installed at run time is not consulted here.
    fn mul(self, rhs: Self) -> (r: Self) {
        let (r, _overflow) = self.overflowing_mul(rhs);
        proof { U256::lemma_from_view(r); }
        r
    }
}

impl vstd::std_specs::ops::MulSpecImpl for U256 {
    open spec fn obeys_mul_spec() -> bool {
        true
    }

    open spec fn mul_req(self, rhs: U256) -> bool {
        true
    }

    open spec fn mul_spec(self, rhs: U256) -> U256 {
        U256::from_nat(wrap(self@ * rhs@ as int))
    }
}

impl core::ops::Div for U256 {
    type Output = Self;

    /// Computed by `DefaultUint256Ops`: a backend installed at run time is not consulted here.
    fn div(self, rhs: Self) -> (r: Self) {
        let r = self.wrapping_div(rhs);
        proof { U256::lemma_from_view(r); }
        r
    }
}

impl vstd::std_specs::ops::DivSpecImpl for U256 {
    open spec fn obeys_div_spec() -> bool {
        true
    }

    open spec fn div_req(self, rhs: U256) -> bool {
        rhs@ != 0
    }

    open spec fn div_spec(self, rhs: U256) -> U256 {
        U256::from_nat(self@ / rhs@)
    }
}

impl core::ops::Rem for U256 {
    type Output = Self;

    /// Computed by `DefaultUint256Ops`: a backend installed at run time is not consulted here.
    fn rem(self, rhs: Self) -> (r: Self) {
        let r = self.wrapping_rem(rhs);
        proof { U256::lemma_from_view(r); }
        r
    }
}

impl vstd::std_specs::ops::RemSpecImpl for U256 {
    open spec fn obeys_rem_spec() -> bool {
        true
    }

    open spec fn rem_req(self, rhs: U256) -> bool {
        rhs@ != 0
    }

    open spec fn rem_spec(self, rhs: U256) -> U256 {
        U256::from_nat(self@ % rhs@)
    }
}

impl core::ops::Not for U256 {
    type Output = Self;

    fn not(self) -> (r: Self) {
        let r = U256::from_limbs(not_limbs(*self.as_limbs()));
        proof { U256::lemma_from_view(r); }
        r
    }
}

impl vstd::std_specs::ops::NotSpecImpl for U256 {
    open spec fn obeys_not_spec() -> bool {
        true
    }

    open spec fn not_req(self) -> bool {
        true
    }

    open spec fn not_spec(self) -> U256 {
        U256::from_nat((max_value() - self@) as nat)
    }
}

/// Limb-wise AND of two values.
pub open spec fn and_limbs(a: [u64; 4], b: [u64; 4]) -> [u64; 4] {
    [a[0] & b[0], a[1] & b[1], a[2] & b[2], a[3] & b[3]]
}

/// Limb-wise OR of two values.
pub open spec fn or_limbs(a: [u64; 4], b: [u64; 4]) -> [u64; 4] {
    [a[0] | b[0], a[1] | b[1], a[2] | b[2], a[3] | b[3]]
}

/// Limb-wise XOR of two values.
pub open spec fn xor_limbs(a: [u64; 4], b: [u64; 4]) -> [u64; 4] {
    [a[0] ^ b[0], a[1] ^ b[1], a[2] ^ b[2], a[3] ^ b[3]]
}

impl core::ops::BitAnd for U256 {
    type Output = Self;

    fn bitand(self, rhs: Self) -> (r: Self)
        ensures
            forall|i: nat| i < 256 ==> #[trigger] bit_of(r@, i) == (bit_of(self@, i) && bit_of(rhs@, i)),
    {
        let a = self.as_limbs();
        let b = rhs.as_limbs();
        let r = U256::from_limbs([a[0] & b[0], a[1] & b[1], a[2] & b[2], a[3] & b[3]]);
        proof {
            U256::lemma_limbs(r);
            assert forall|i: nat| i < 256 implies #[trigger] bit_of(r@, i) == (bit_of(self@, i) && bit_of(rhs@, i)) by {
                crate::laws::lemma_and_limbs_bits(*a, *b, i);
            }
        }
        r
    }
}

impl vstd::std_specs::ops::BitAndSpecImpl for U256 {
    open spec fn obeys_bitand_spec() -> bool {
        true
    }

    open spec fn bitand_req(self, rhs: U256) -> bool {
        true
    }

    open spec fn bitand_spec(self, rhs: U256) -> U256 {
        U256::with_limbs(and_limbs(self.limbs(), rhs.limbs()))
    }
}

impl core::ops::BitOr for U256 {
    type Output = Self;

    fn bitor(self, rhs: Self) -> (r: Self)
        ensures
            forall|i: nat| i < 256 ==> #[trigger] bit_of(r@, i) == (bit_of(self@, i) || bit_of(rhs@, i)),
    {
        let a = self.as_limbs();
        let b = rhs.as_limbs();
        let r = U256::from_limbs([a[0] | b[0], a[1] | b[1], a[2] | b[2], a[3] | b[3]]);
        proof {
            U256::lemma_limbs(r);
            assert forall|i: nat| i < 256 implies #[trigger] bit_of(r@, i) == (bit_of(self@, i) || bit_of(rhs@, i)) by {
                crate::laws::lemma_or_limbs_bits(*a, *b, i);
            }
        }
        r
    }
}

impl vstd::std_specs::ops::BitOrSpecImpl for U256 {
    open spec fn obeys_bitor_spec() -> bool {
        true
    }

    open spec fn bitor_req(self, rhs: U256) -> bool {
        true
    }

    open spec fn bitor_spec(self, rhs: U256) -> U256 {
        U256::with_limbs(or_limbs(self.limbs(), rhs.limbs()))
    }
}

impl core::ops::BitXor for U256 {
    type Output = Self;

    fn bitxor(self, rhs: Self) -> (r: Self)
        ensures
            forall|i: nat| i < 256 ==> #[trigger] bit_of(r@, i) == (bit_of(self@, i) != bit_of(rhs@, i)),
    {
        let a = self.as_limbs();
        let b = rhs.as_limbs();
        let r = U256::from_limbs([a[0] ^ b[0], a[1] ^ b[1], a[2] ^ b[2], a[3] ^ b[3]]);
        proof {
            U256::lemma_limbs(r);
            assert forall|i: nat| i < 256 implies #[trigger] bit_of(r@, i) == (bit_of(self@, i) != bit_of(rhs@, i)) by {
                crate::laws::lemma_xor_limbs_bits(*a, *b, i);
            }
        }
        r
    }
}

impl vstd::std_specs::ops::BitXorSpecImpl for U256 {
    open spec fn obeys_bitxor_spec() -> bool {
        true
    }

    open spec fn bitxor_req(self, rhs: U256) -> bool {
        true
    }

    open spec fn bitxor_spec(self, rhs: U256) -> U256 {
        U256::with_limbs(xor_limbs(self.limbs(), rhs.limbs()))
    }
}

impl core::ops::Shl<usize> for U256 {
    type Output = Self;

    fn shl(self, rhs: usize) -> (r: Self) {
        let r = U256::from_limbs(shl_limbs(*self.as_limbs(), rhs));
        proof { U256::lemma_from_view(r); }
        r
    }
}

impl vstd::std_specs::ops::ShlSpecImpl<usize> for U256 {
    open spec fn obeys_shl_spec() -> bool {
        true
    }

    open spec fn shl_req(self, rhs: usize) -> bool {
        true
    }

    open spec fn shl_spec(self, rhs: usize) -> U256 {
        U256::from_nat(wrap(self@ * pow2(rhs as nat) as int))
    }
}

impl core::ops::Shr<usize> for U256 {
    type Output = Self;

    fn shr(self, rhs: usize) -> (r: Self) {
        let r = U256::from_limbs(shr_limbs(*self.as_limbs(), rhs));
        proof { U256::lemma_from_view(r); }
        r
    }
}

impl vstd::std_specs::ops::ShrSpecImpl<usize> for U256 {
    open spec fn obeys_shr_spec() -> bool {
        true
    }

    open spec fn shr_req(self, rhs: usize) -> bool {
        true
    }

    open spec fn shr_spec(self, rhs: usize) -> U256 {
        U256::from_nat(self@ / pow2(rhs as nat))
    }
}


impl core::ops::AddAssign for U256 {
    fn add_assign(&mut self, rhs: Self)
        ensures
            final(self)@ == wrap((old(self)@ + rhs@) as int),
    {
        *self = self.wrapping_add(rhs);
    }
}


impl core::ops::DivAssign for U256 {
    /// Computed by `DefaultUint256Ops`: a backend installed at run time is not consulted here.
    fn div_assign(&mut self, rhs: Self)
        requires
            rhs@ != 0,
        ensures
            final(self)@ == old(self)@ / rhs@,
    {
        *self = self.wrapping_div(rhs);
    }
}


impl core::ops::SubAssign for U256 {
    fn sub_assign(&mut self, rhs: Self)
        ensures
            final(self)@ == wrap(old(self)@ - rhs@),
    {
        *self = self.wrapping_sub(rhs);
    }
}

impl core::ops::MulAssign for U256 {
    /// Computed by `DefaultUint256Ops`: a backend installed at run time is not consulted here.
    fn mul_assign(&mut self, rhs: Self)
        ensures
            final(self)@ == wrap(old(self)@ * rhs@ as int),
    {
        let r = *self * rhs;
        proof { U256::lemma_from_nat(wrap(self@ * rhs@ as int)); }
        *self = r;
    }
}

impl core::ops::RemAssign for U256 {
    /// Computed by `DefaultUint256Ops`: a backend installed at run time is not consulted here.
    fn rem_assign(&mut self, rhs: Self)
        requires
            rhs@ != 0,
        ensures
            final(self)@ == old(self)@ % rhs@,
    {
        *self = self.wrapping_rem(rhs);
    }
}

impl core::ops::BitAndAssign for U256 {
    fn bitand_assign(&mut self, rhs: Self)
        ensures
            final(self).limbs() == and_limbs(old(self).limbs(), rhs.limbs()),
            forall|i: nat| i < 256 ==> #[trigger] bit_of(final(self)@, i) == (bit_of(old(self)@, i) && bit_of(rhs@, i)),
    {
        let r = *self & rhs;
        proof { U256::lemma_with_limbs(and_limbs(self.limbs(), rhs.limbs())); }
        *self = r;
    }
}

impl core::ops::BitOrAssign for U256 {
    fn bitor_assign(&mut self, rhs: Self)
        ensures
            final(self).limbs() == or_limbs(old(self).limbs(), rhs.limbs()),
            forall|i: nat| i < 256 ==> #[trigger] bit_of(final(self)@, i) == (bit_of(old(self)@, i) || bit_of(rhs@, i)),
    {
        let r = *self | rhs;
        proof { U256::lemma_with_limbs(or_limbs(self.limbs(), rhs.limbs())); }
        *self = r;
    }
}

impl core::ops::BitXorAssign for U256 {
    fn bitxor_assign(&mut self, rhs: Self)
        ensures
            final(self).limbs() == xor_limbs(old(self).limbs(), rhs.limbs()),
            forall|i: nat| i < 256 ==> #[trigger] bit_of(final(self)@, i) == (bit_of(old(self)@, i) != bit_of(rhs@, i)),
    {
        let r = *self ^ rhs;
        proof { U256::lemma_with_limbs(xor_limbs(self.limbs(), rhs.limbs())); }
        *self = r;
    }
}

impl core::ops::ShlAssign<usize> for U256 {
    fn shl_assign(&mut self, rhs: usize)
        ensures
            final(self)@ == wrap(old(self)@ * pow2(rhs as nat) as int),
    {
        let r = *self << rhs;
        proof { U256::lemma_from_nat(wrap(self@ * pow2(rhs as nat) as int)); }
        *self = r;
    }
}

impl core::ops::ShrAssign<usize> for U256 {
    fn shr_assign(&mut self, rhs: usize)
        ensures
            final(self)@ == old(self)@ / pow2(rhs as nat),
    {
        let r = *self >> rhs;
        proof {
            vstd::arithmetic::power2::lemma_pow2_pos(rhs as nat);
            vstd::arithmetic::div_mod::lemma_div_is_ordered_by_denominator(self@ as int, 1, pow2(rhs as nat) as int);
            vstd::arithmetic::div_mod::lemma_div_basics(self@ as int);
            U256::lemma_from_nat(self@ / pow2(rhs as nat));
        }
        *self = r;
    }
}


/// The arithmetic operators wrap: `a + b`, `a - b` and `a * b` denote the exact
/// result reduced modulo 2^256, as `wrapping_add`, `wrapping_sub` and `wrapping_mul` do.
pub proof fn law_operators_wrap(a: U256, b: U256)
    ensures
        a.add_spec(b)@ == wrap((a@ + b@) as int),
        a.sub_spec(b)@ == wrap(a@ - b@),
        a.mul_spec(b)@ == wrap(a@ * b@ as int),
{
    U256::lemma_from_nat(wrap((a@ + b@) as int));
    U256::lemma_from_nat(wrap(a@ - b@));
    U256::lemma_from_nat(wrap(a@ * b@ as int));
}

} // verus!
