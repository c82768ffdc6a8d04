//! The 256-bit unsigned integer type and its methods.
use vstd::prelude::*;
use vstd::arithmetic::power::pow;
use vstd::arithmetic::power2::pow2;
use crate::spec::{modulus, max_value, val4, wrap, nat_to_limbs, lemma_val4_injective, lemma_limbs_of_val, lemma_val_of_limbs};
use crate::limbs::{
    add_limbs, sub_limbs, mul_low, shr_limbs, bit_len_limbs, low_bit, add_mod_limbs,
    mul_mod_limbs, arithmetic_shr_limbs, signed_val, is_bit_length,
};
use crate::bytes::{nat_to_be_bytes, be_value, le_byte, byte_at, to_be_bytes_limbs, from_be_bytes_limbs};
use crate::backend::{Uint256Ops, DefaultUint256Ops};

verus! {

/// 256-bit unsigned integer.
///
/// Stored as four `u64` limbs in little-endian word order (`limbs[0]` is the
/// least-significant word). Its view is the natural number it denotes.
/// The derived `Debug` prints the limbs; `to_string` gives the decimal form.
#[derive(Clone, Copy, Hash, Debug)]
pub struct U256([u64; 4]);

impl View for U256 {
    type V = nat;

    open spec fn view(&self) -> nat {
        val4(self.limbs())
    }
}

impl U256 {
    /// The limbs, least significant first.
    pub closed spec fn limbs(self) -> [u64; 4] {
        self.0
    }

    /// The value with the given limbs.
    pub closed spec fn with_limbs(limbs: [u64; 4]) -> U256 {
        U256(limbs)
    }

    /// The value denoting `n` modulo 2^256.
    pub open spec fn from_nat(n: nat) -> U256 {
        U256::with_limbs(nat_to_limbs(n))
    }

    /// A value is rebuilt from its own limbs.
    pub broadcast proof fn lemma_limbs(x: U256)
        ensures
            #[trigger] U256::with_limbs(x.limbs()) == x,
    {
    }

    /// The limbs of a value built from limbs are those limbs.
    pub broadcast proof fn lemma_with_limbs(l: [u64; 4])
        ensures
            #[trigger] U256::with_limbs(l).limbs() == l,
    {
    }

    /// Every value lies below 2^256.
    pub broadcast proof fn lemma_bound(x: U256)
        ensures
            #[trigger] x@ < modulus(),
    {
    }

    /// Two values are equal exactly when the numbers they denote are.
    pub proof fn lemma_view_injective(x: U256, y: U256)
        ensures
            (x@ == y@) == (x == y),
    {
        if x@ == y@ {
            lemma_val4_injective(x.0, y.0);
        }
    }

    /// Building from a number below 2^256 gives a value denoting that number.
    pub proof fn lemma_from_nat(n: nat)
        requires
            n < modulus(),
        ensures
            U256::from_nat(n)@ == n,
    {
        lemma_val_of_limbs(n);
    }

    /// Every value is built from the number it denotes.
    pub proof fn lemma_from_view(x: U256)
        ensures
            U256::from_nat(x@) == x,
    {
        lemma_limbs_of_val(x.0);
    }
}


impl U256 {
    /// Number of bits in this integer type.
    pub const BITS: usize = 256;

    /// Additive identity.
    pub fn zero() -> (r: U256)
        ensures
            r@ == 0,
    {
        U256([0, 0, 0, 0])
    }

    /// Multiplicative identity.
    pub fn one() -> (r: U256)
        ensures
            r@ == 1,
    {
        U256([1, 0, 0, 0])
    }

    /// Maximum value (all bits set): 2^256 - 1.
    pub fn max_value() -> (r: U256)
        ensures
            r@ == max_value(),
    {
        U256([u64::MAX, u64::MAX, u64::MAX, u64::MAX])
    }

    /// Construct from four `u64` limbs in little-endian word order
    /// (`limbs[0]` = least significant).
    pub fn from_limbs(limbs: [u64; 4]) -> (r: Self)
        ensures
            r.limbs() == limbs,
            r@ == val4(limbs),
    {
        U256(limbs)
    }

    /// Reference to the internal limbs in little-endian word order.
    pub fn as_limbs(&self) -> (r: &[u64; 4])
        ensures
            *r == self.limbs(),
    {
        &self.0
    }

    /// Mutable reference to the internal limbs. Every limb pattern is a valid
    /// value, so writing through it cannot break an invariant.
    pub fn as_limbs_mut(&mut self) -> (r: &mut [u64; 4])
        ensures
            *r == old(self).limbs(),
            final(self).limbs() == *final(r),
    {
        &mut self.0
    }
}


/// `s` with its leading zero bytes removed.
pub open spec fn trim_leading_zeros(s: Seq<u8>) -> Seq<u8>
    decreases s.len(),
{
    if s.len() > 0 && s[0] == 0 {
        trim_leading_zeros(s.drop_first())
    } else {
        s
    }
}

impl U256 {
    /// Construct from a 32-byte big-endian array.
    pub fn from_be_bytes(bytes: [u8; 32]) -> (r: Self)
        ensures
            r@ == be_value(bytes@),
    {
        U256(from_be_bytes_limbs(bytes))
    }

    /// Construct from a big-endian byte slice, which must be exactly 32 bytes long.
    pub fn from_be_slice(bytes: &[u8]) -> (r: Self)
        requires
            bytes@.len() == 32,
        ensures
            r@ == be_value(bytes@),
    {
        let mut arr: [u8; 32] = [0u8; 32];
        let mut i: usize = 0;
        while i < 32
            invariant
                i <= 32,
                bytes@.len() == 32,
                forall|k: int| 0 <= k < i ==> arr@[k] == bytes@[k],
            decreases 32 - i,
        {
            arr[i] = bytes[i];
            i = i + 1;
        }
        assert(arr@ =~= bytes@);
        U256(from_be_bytes_limbs(arr))
    }

    /// Construct from a big-endian byte slice, returning `None` if the length
    /// is not exactly 32.
    pub fn try_from_be_slice(bytes: &[u8]) -> (r: Option<Self>)
        ensures
            r is Some <==> bytes@.len() == 32,
            r matches Some(v) ==> v@ == be_value(bytes@),
    {
        if bytes.len() == 32 {
            Some(Self::from_be_slice(bytes))
        } else {
            None
        }
    }

    /// Convert to a 32-byte big-endian array.
    pub fn to_be_bytes(&self) -> (r: [u8; 32])
        ensures
            r@ == nat_to_be_bytes(self@),
    {
        to_be_bytes_limbs(self.0)
    }

    /// Convert to a big-endian byte vector (32 bytes).
    pub fn to_be_bytes_vec(&self) -> (r: Vec<u8>)
        ensures
            r@ == nat_to_be_bytes(self@),
    {
        let bytes = self.to_be_bytes();
        let mut v: Vec<u8> = Vec::new();
        let mut i: usize = 0;
        while i < 32
            invariant
                i <= 32,
                bytes@.len() == 32,
                v@ == bytes@.subrange(0, i as int),
            decreases 32 - i,
        {
            v.push(bytes[i]);
            i = i + 1;
            assert(v@ =~= bytes@.subrange(0, i as int));
        }
        assert(bytes@.subrange(0, 32) =~= bytes@);
        v
    }

    /// Convert to a big-endian byte vector with leading zero bytes stripped.
    pub fn to_be_bytes_trimmed_vec(&self) -> (r: Vec<u8>)
        ensures
            r@ == trim_leading_zeros(nat_to_be_bytes(self@)),
            r@.len() == 0 || r@[0] != 0,
            be_value(r@) == self@,
    {
        let bytes = self.to_be_bytes();
        let ghost e = bytes@;
        let mut start: usize = 0;
        assert(e.subrange(0, 32) =~= e);
        while start < 32 && bytes[start] == 0
            invariant
                start <= 32,
                e == bytes@,
                e.len() == 32,
                trim_leading_zeros(e) == trim_leading_zeros(e.subrange(start as int, 32)),
            decreases 32 - start,
        {
            assert(e.subrange(start as int, 32).drop_first() =~= e.subrange(start + 1, 32));
            start = start + 1;
        }
        let mut v: Vec<u8> = Vec::new();
        let mut i: usize = start;
        while i < 32
            invariant
                start <= i <= 32,
                e == bytes@,
                e.len() == 32,
                v@ == e.subrange(start as int, i as int),
            decreases 32 - i,
        {
            v.push(bytes[i]);
            i = i + 1;
            assert(v@ =~= e.subrange(start as int, i as int));
        }
        proof {
            crate::laws::law_trim_leading_zeros(nat_to_be_bytes(self@));
            crate::laws::law_trimmed_bytes_keep_value(*self);
        }
        v
    }
}

impl U256 {
    /// Wrapping (modular) addition.
    pub fn wrapping_add(self, rhs: Self) -> (r: Self)
        ensures
            r@ == wrap((self@ + rhs@) as int),
    {
        let (s, c) = add_limbs(self.0, rhs.0);
        proof { lemma_wrap_sum((self@ + rhs@) as int, val4(s), c); }
        U256(s)
    }

    /// Wrapping (modular) subtraction.
    pub fn wrapping_sub(self, rhs: Self) -> (r: Self)
        ensures
            r@ == wrap(self@ - rhs@),
    {
        let (d, b) = sub_limbs(self.0, rhs.0);
        proof { lemma_wrap_diff(self@ - rhs@, val4(d), b); }
        U256(d)
    }

    /// Saturating addition: the sum, or `2^256 - 1` when it does not fit.
    pub fn saturating_add(self, rhs: Self) -> (r: Self)
        ensures
            r@ == if self@ + rhs@ < modulus() { self@ + rhs@ } else { max_value() },
    {
        let (s, c) = add_limbs(self.0, rhs.0);
        if c {
            Self::max_value()
        } else {
            U256(s)
        }
    }

    /// Saturating subtraction: the difference, or zero when `rhs` is larger.
    pub fn saturating_sub(self, rhs: Self) -> (r: Self)
        ensures
            r@ == if self@ >= rhs@ { (self@ - rhs@) as nat } else { 0 },
    {
        let (d, b) = sub_limbs(self.0, rhs.0);
        if b {
            Self::zero()
        } else {
            U256(d)
        }
    }

    /// Checked addition. Returns `None` on overflow.
    pub fn checked_add(self, rhs: Self) -> (r: Option<Self>)
        ensures
            r is Some <==> self@ + rhs@ < modulus(),
            r matches Some(v) ==> v@ == self@ + rhs@,
    {
        let (s, c) = add_limbs(self.0, rhs.0);
        if c {
            None
        } else {
            Some(U256(s))
        }
    }

    /// Checked subtraction. Returns `None` on underflow.
    pub fn checked_sub(self, rhs: Self) -> (r: Option<Self>)
        ensures
            r is Some <==> self@ >= rhs@,
            r matches Some(v) ==> v@ == self@ - rhs@,
    {
        let (d, b) = sub_limbs(self.0, rhs.0);
        if b {
            None
        } else {
            Some(U256(d))
        }
    }

    /// Overflowing addition: the wrapped sum and whether the sum reached 2^256.
    pub fn overflowing_add(self, rhs: Self) -> (r: (Self, bool))
        ensures
            r.0@ == wrap((self@ + rhs@) as int),
            r.1 == (self@ + rhs@ >= modulus()),
    {
        let (s, c) = add_limbs(self.0, rhs.0);
        proof { lemma_wrap_sum((self@ + rhs@) as int, val4(s), c); }
        (U256(s), c)
    }

    /// Overflowing subtraction: the wrapped difference and whether `rhs` was larger.
    pub fn overflowing_sub(self, rhs: Self) -> (r: (Self, bool))
        ensures
            r.0@ == wrap(self@ - rhs@),
            r.1 == (self@ < rhs@),
    {
        let (d, b) = sub_limbs(self.0, rhs.0);
        proof { lemma_wrap_diff(self@ - rhs@, val4(d), b); }
        (U256(d), b)
    }
}

impl U256 {
    /// Wrapping multiplication.
    pub fn wrapping_mul(self, rhs: Self) -> (r: Self)
        ensures
            r@ == wrap(self@ * rhs@ as int),
    {
        U256(mul_low(self.0, rhs.0))
    }

    /// Wrapping division. The divisor must be nonzero.
    /// Computed by `DefaultUint256Ops`: a backend installed at run time is not consulted here.
    pub fn wrapping_div(self, rhs: Self) -> (r: Self)
        requires
            rhs@ != 0,
        ensures
            r@ == self@ / rhs@,
    {
        U256(DefaultUint256Ops.wrapping_div(self.0, rhs.0))
    }

    /// Wrapping remainder. The divisor must be nonzero.
    /// Computed by `DefaultUint256Ops`: a backend installed at run time is not consulted here.
    pub fn wrapping_rem(self, rhs: Self) -> (r: Self)
        requires
            rhs@ != 0,
        ensures
            r@ == self@ % rhs@,
    {
        U256(DefaultUint256Ops.wrapping_rem(self.0, rhs.0))
    }

    /// Wrapping (two's-complement) negation.
    pub fn wrapping_neg(self) -> (r: Self)
        ensures
            r@ == wrap(-(self@ as int)),
    {
        Self::zero().wrapping_sub(self)
    }

    /// Saturating multiplication: the product, or `2^256 - 1` when it does not fit.
    /// Computed by `DefaultUint256Ops`: a backend installed at run time is not consulted here.
    pub fn saturating_mul(self, rhs: Self) -> (r: Self)
        ensures
            r@ == if self@ * rhs@ < modulus() { self@ * rhs@ } else { max_value() },
    {
        U256(DefaultUint256Ops.saturating_mul(self.0, rhs.0))
    }

    /// Checked multiplication. Returns `None` on overflow.
    /// Computed by `DefaultUint256Ops`: a backend installed at run time is not consulted here.
    pub fn checked_mul(self, rhs: Self) -> (r: Option<Self>)
        ensures
            r is Some <==> self@ * rhs@ < modulus(),
            r matches Some(v) ==> v@ == self@ * rhs@,
    {
        match DefaultUint256Ops.checked_mul(self.0, rhs.0) {
            Some(l) => Some(U256(l)),
            None => None,
        }
    }

    /// Checked division. Returns `None` if `rhs` is zero.
    /// Computed by `DefaultUint256Ops`: a backend installed at run time is not consulted here.
    pub fn checked_div(self, rhs: Self) -> (r: Option<Self>)
        ensures
            r is None <==> rhs@ == 0,
            r matches Some(v) ==> v@ == self@ / rhs@,
    {
        match DefaultUint256Ops.checked_div(self.0, rhs.0) {
            Some(l) => Some(U256(l)),
            None => None,
        }
    }

    /// Overflowing multiplication: the wrapped product and whether the product reached 2^256.
    /// Computed by `DefaultUint256Ops`: a backend installed at run time is not consulted here.
    pub fn overflowing_mul(self, rhs: Self) -> (r: (Self, bool))
        ensures
            r.0@ == wrap(self@ * rhs@ as int),
            r.1 == (self@ * rhs@ >= modulus()),
    {
        let (v, o) = DefaultUint256Ops.overflowing_mul(self.0, rhs.0);
        (U256(v), o)
    }

    /// Exponentiation `self ^ exp`, wrapping modulo 2^256.
    /// Computed by `DefaultUint256Ops`: a backend installed at run time is not consulted here.
    pub fn pow(self, exp: Self) -> (r: Self)
        ensures
            r@ == wrap(pow(self@ as int, exp@)),
    {
        U256(DefaultUint256Ops.pow(self.0, exp.0))
    }

    /// Modular addition `(self + rhs) % modulus`, computed without overflow;
    /// zero when the modulus is zero.
    pub fn add_mod(self, rhs: Self, modulus: Self) -> (r: Self)
        ensures
            r@ == if modulus@ == 0 { 0 } else { (self@ + rhs@) % modulus@ },
    {
        U256(add_mod_limbs(self.0, rhs.0, modulus.0))
    }

    /// Modular multiplication `(self * rhs) % modulus`, computed without overflow;
    /// zero when the modulus is zero.
    pub fn mul_mod(self, rhs: Self, modulus: Self) -> (r: Self)
        ensures
            r@ == if modulus@ == 0 { 0 } else { (self@ * rhs@) % modulus@ },
    {
        U256(mul_mod_limbs(self.0, rhs.0, modulus.0))
    }

    /// Arithmetic (signed) right shift by `shift < 256` bits: the two's-complement
    /// value divided by 2^shift, rounding toward negative infinity.
    pub fn arithmetic_shr(self, shift: usize) -> (r: Self)
        requires
            shift < 256,
        ensures
            r@ == wrap(signed_val(self@) / pow2(shift as nat) as int),
    {
        U256(arithmetic_shr_limbs(self.0, shift))
    }
}

impl U256 {
    /// Returns `true` if the value is zero.
    pub fn is_zero(&self) -> (r: bool)
        ensures
            r == (self@ == 0),
    {
        self.0[0] == 0 && self.0[1] == 0 && self.0[2] == 0 && self.0[3] == 0
    }

    /// Zero check, limb by limb.
    pub fn const_is_zero(&self) -> (r: bool)
        ensures
            r == (self@ == 0),
    {
        self.0[0] == 0 && self.0[1] == 0 && self.0[2] == 0 && self.0[3] == 0
    }

    /// Equality check, limb by limb.
    pub fn const_eq(&self, other: &Self) -> (r: bool)
        ensures
            r == (self@ == other@),
    {
        proof {
            if self@ == other@ {
                lemma_val4_injective(self.0, other.0);
            }
        }
        self.0[0] == other.0[0] && self.0[1] == other.0[1] && self.0[2] == other.0[2] && self.0[3] == other.0[3]
    }

    /// Returns the bit at `index` (0 = least significant); `false` past bit 255.
    pub fn bit(&self, index: usize) -> (r: bool)
        ensures
            r == ((self@ / pow2(index as nat)) % 2 == 1),
    {
        low_bit(shr_limbs(self.0, index))
    }

    /// Returns the byte at `index` (0 = least significant byte, little-endian).
    /// The index must be below 32.
    pub fn byte(&self, index: usize) -> (r: u8)
        requires
            index < 32,
        ensures
            r == le_byte(self@, index as nat),
    {
        byte_at(self.0, index)
    }

    /// Number of leading zero bits.
    pub fn leading_zeros(&self) -> (r: usize)
        ensures
            r <= 256,
            is_bit_length(self@, (256 - r) as nat),
    {
        256 - bit_len_limbs(self.0)
    }

    /// Number of bits needed to represent this value (bit length). Returns 0 for zero.
    pub fn bit_len(&self) -> (r: usize)
        ensures
            r <= 256,
            is_bit_length(self@, r as nat),
    {
        bit_len_limbs(self.0)
    }
}

impl Default for U256 {
    fn default() -> (r: Self)
        ensures
            r@ == 0,
    {
        U256::zero()
    }
}

proof fn lemma_wrap_sum(sum: int, v: nat, c: bool)
    requires
        v + (if c { modulus() } else { 0 }) == sum,
        v < modulus(),
    ensures
        v == wrap(sum),
        c == (sum >= modulus()),
{
    vstd::arithmetic::div_mod::lemma_fundamental_div_mod_converse(sum, modulus() as int, if c { 1 } else { 0 }, v as int);
}

proof fn lemma_wrap_diff(diff: int, v: nat, b: bool)
    requires
        v == diff + (if b { modulus() } else { 0 }),
        v < modulus(),
    ensures
        v == wrap(diff),
{
    vstd::arithmetic::div_mod::lemma_fundamental_div_mod_converse(diff, modulus() as int, if b { -1 } else { 0 }, v as int);
}

} // verus!
