//! Conversions between 256-bit values and Rust's primitive integers.
use vstd::prelude::*;
use crate::spec::{modulus, wrap};
use crate::limbs::lemma_split_u128;
use crate::uint::U256;

verus! {

impl From<u8> for U256 {
    fn from(v: u8) -> (r: Self) {
        let r = U256::from_limbs([v as u64, 0, 0, 0]);
        proof {  U256::lemma_from_view(r); }
        r
    }
}

impl vstd::std_specs::convert::FromSpecImpl<u8> for U256 {
    open spec fn obeys_from_spec() -> bool {
        true
    }

    open spec fn from_spec(v: u8) -> U256 {
        U256::from_nat(v as nat)
    }
}

impl From<u16> for U256 {
    fn from(v: u16) -> (r: Self) {
        let r = U256::from_limbs([v as u64, 0, 0, 0]);
        proof {  U256::lemma_from_view(r); }
        r
    }
}

impl vstd::std_specs::convert::FromSpecImpl<u16> for U256 {
    open spec fn obeys_from_spec() -> bool {
        true
    }

    open spec fn from_spec(v: u16) -> U256 {
        U256::from_nat(v as nat)
    }
}

impl From<u32> for U256 {
    fn from(v: u32) -> (r: Self) {
        let r = U256::from_limbs([v as u64, 0, 0, 0]);
        proof {  U256::lemma_from_view(r); }
        r
    }
}

impl vstd::std_specs::convert::FromSpecImpl<u32> for U256 {
    open spec fn obeys_from_spec() -> bool {
        true
    }

    open spec fn from_spec(v: u32) -> U256 {
        U256::from_nat(v as nat)
    }
}

impl From<u64> for U256 {
    fn from(v: u64) -> (r: Self) {
        let r = U256::from_limbs([v, 0, 0, 0]);
        proof {  U256::lemma_from_view(r); }
        r
    }
}

impl vstd::std_specs::convert::FromSpecImpl<u64> for U256 {
    open spec fn obeys_from_spec() -> bool {
        true
    }

    open spec fn from_spec(v: u64) -> U256 {
        U256::from_nat(v as nat)
    }
}

impl From<u128> for U256 {
    fn from(v: u128) -> (r: Self) {
        let r = U256::from_limbs([v as u64, (v >> 64) as u64, 0, 0]);
        proof { lemma_split_u128(v); U256::lemma_from_view(r); }
        r
    }
}

impl vstd::std_specs::convert::FromSpecImpl<u128> for U256 {
    open spec fn obeys_from_spec() -> bool {
        true
    }

    open spec fn from_spec(v: u128) -> U256 {
        U256::from_nat(v as nat)
    }
}

impl From<usize> for U256 {
    fn from(v: usize) -> (r: Self) {
        let r = U256::from_limbs([v as u64, 0, 0, 0]);
        proof {  U256::lemma_from_view(r); }
        r
    }
}

impl vstd::std_specs::convert::FromSpecImpl<usize> for U256 {
    open spec fn obeys_from_spec() -> bool {
        true
    }

    open spec fn from_spec(v: usize) -> U256 {
        U256::from_nat(v as nat)
    }
}

impl From<bool> for U256 {
    fn from(v: bool) -> (r: Self) {
        let r = U256::from_limbs([if v { 1 } else { 0 }, 0, 0, 0]);
        proof { U256::lemma_from_view(r); }
        r
    }
}

impl vstd::std_specs::convert::FromSpecImpl<bool> for U256 {
    open spec fn obeys_from_spec() -> bool {
        true
    }

    open spec fn from_spec(v: bool) -> U256 {
        U256::from_nat(if v { 1 } else { 0 })
    }
}

proof fn lemma_negative_wrap(v: int, c: int, r: nat)
    requires
        v < 0,
        c == -1 - v,
        c < modulus(),
        r == wrap(modulus() - 1 - c),
    ensures
        r == wrap(v),
{
    vstd::arithmetic::div_mod::lemma_small_mod((modulus() + v) as nat, modulus());
    vstd::arithmetic::div_mod::lemma_fundamental_div_mod_converse(v, modulus() as int, -1, modulus() + v);
}

impl From<i8> for U256 {
    /// Two's-complement sign extension: a negative `v` becomes `2^256 + v`.
    fn from(v: i8) -> (r: Self) {
        if v >= 0 {
            let r = U256::from(v as u8);
            proof {
                vstd::arithmetic::div_mod::lemma_small_mod(v as nat, modulus());
            }
            r
        } else {
            let c: u8 = !(v as u8);
            proof {
                assert(v < 0 ==> !(v as u8) == ((-1 - v) as u8)) by (bit_vector);
            }
            let cv = U256::from(c);
            proof {
                U256::lemma_from_nat(c as nat);
            }
            let r = U256::max_value().wrapping_sub(cv);
            proof {
                lemma_negative_wrap(v as int, c as int, r@);
                U256::lemma_from_view(r);
            }
            r
        }
    }
}

impl vstd::std_specs::convert::FromSpecImpl<i8> for U256 {
    open spec fn obeys_from_spec() -> bool {
        true
    }

    open spec fn from_spec(v: i8) -> U256 {
        U256::from_nat(wrap(v as int))
    }
}

impl From<i16> for U256 {
    /// Two's-complement sign extension: a negative `v` becomes `2^256 + v`.
    fn from(v: i16) -> (r: Self) {
        if v >= 0 {
            let r = U256::from(v as u16);
            proof {
                vstd::arithmetic::div_mod::lemma_small_mod(v as nat, modulus());
            }
            r
        } else {
            let c: u16 = !(v as u16);
            proof {
                assert(v < 0 ==> !(v as u16) == ((-1 - v) as u16)) by (bit_vector);
            }
            let cv = U256::from(c);
            proof {
                U256::lemma_from_nat(c as nat);
            }
            let r = U256::max_value().wrapping_sub(cv);
            proof {
                lemma_negative_wrap(v as int, c as int, r@);
                U256::lemma_from_view(r);
            }
            r
        }
    }
}

impl vstd::std_specs::convert::FromSpecImpl<i16> for U256 {
    open spec fn obeys_from_spec() -> bool {
        true
    }

    open spec fn from_spec(v: i16) -> U256 {
        U256::from_nat(wrap(v as int))
    }
}

impl From<i32> for U256 {
    /// Two's-complement sign extension: a negative `v` becomes `2^256 + v`.
    fn from(v: i32) -> (r: Self) {
        if v >= 0 {
            let r = U256::from(v as u32);
            proof {
                vstd::arithmetic::div_mod::lemma_small_mod(v as nat, modulus());
            }
            r
        } else {
            let c: u32 = !(v as u32);
            proof {
                assert(v < 0 ==> !(v as u32) == ((-1 - v) as u32)) by (bit_vector);
            }
            let cv = U256::from(c);
            proof {
                U256::lemma_from_nat(c as nat);
            }
            let r = U256::max_value().wrapping_sub(cv);
            proof {
                lemma_negative_wrap(v as int, c as int, r@);
                U256::lemma_from_view(r);
            }
            r
        }
    }
}

impl vstd::std_specs::convert::FromSpecImpl<i32> for U256 {
    open spec fn obeys_from_spec() -> bool {
        true
    }

    open spec fn from_spec(v: i32) -> U256 {
        U256::from_nat(wrap(v as int))
    }
}

impl From<i64> for U256 {
    /// Two's-complement sign extension: a negative `v` becomes `2^256 + v`.
    fn from(v: i64) -> (r: Self) {
        if v >= 0 {
            let r = U256::from(v as u64);
            proof {
                vstd::arithmetic::div_mod::lemma_small_mod(v as nat, modulus());
            }
            r
        } else {
            let c: u64 = !(v as u64);
            proof {
                assert(v < 0 ==> !(v as u64) == ((-1 - v) as u64)) by (bit_vector);
            }
            let cv = U256::from(c);
            proof {
                U256::lemma_from_nat(c as nat);
            }
            let r = U256::max_value().wrapping_sub(cv);
            proof {
                lemma_negative_wrap(v as int, c as int, r@);
                U256::lemma_from_view(r);
            }
            r
        }
    }
}

impl vstd::std_specs::convert::FromSpecImpl<i64> for U256 {
    open spec fn obeys_from_spec() -> bool {
        true
    }

    open spec fn from_spec(v: i64) -> U256 {
        U256::from_nat(wrap(v as int))
    }
}


impl TryFrom<U256> for u64 {
    type Error = &'static str;

    fn try_from(v: U256) -> (r: Result<Self, Self::Error>) {
        let l = v.as_limbs();
        if l[1] != 0 || l[2] != 0 || l[3] != 0 {
            Err("U256 value too large for u64")
        } else {
            Ok(l[0])
        }
    }
}

impl vstd::std_specs::convert::TryFromSpecImpl<U256> for u64 {
    open spec fn obeys_try_from_spec() -> bool {
        true
    }

    open spec fn try_from_spec(v: U256) -> Result<Self, Self::Error> {
        if v@ <= u64::MAX {
            Ok(v@ as u64)
        } else {
            Err("U256 value too large for u64")
        }
    }
}


impl TryFrom<U256> for u128 {
    type Error = &'static str;

    fn try_from(v: U256) -> (r: Result<Self, Self::Error>) {
        let l = v.as_limbs();
        if l[2] != 0 || l[3] != 0 {
            Err("U256 value too large for u128")
        } else {
            let lo: u64 = l[0];
            let hi: u64 = l[1];
            proof {
                assert((lo as u128) | ((hi as u128) << 64u128) == (lo as u128) + (hi as u128) * 0x1_0000_0000_0000_0000u128) by (bit_vector);
            }
            Ok(lo as u128 | ((hi as u128) << 64))
        }
    }
}

impl vstd::std_specs::convert::TryFromSpecImpl<U256> for u128 {
    open spec fn obeys_try_from_spec() -> bool {
        true
    }

    open spec fn try_from_spec(v: U256) -> Result<Self, Self::Error> {
        if v@ <= u128::MAX {
            Ok(v@ as u128)
        } else {
            Err("U256 value too large for u128")
        }
    }
}

impl TryFrom<U256> for usize {
    type Error = &'static str;

    fn try_from(v: U256) -> (r: Result<Self, Self::Error>) {
        let lo: u64 = match u64::try_from(v) {
            Ok(x) => x,
            Err(e) => return Err(e),
        };
        match usize::try_from(lo) {
            Ok(x) => Ok(x),
            Err(_) => Err("U256 value too large for usize"),
        }
    }
}

impl vstd::std_specs::convert::TryFromSpecImpl<U256> for usize {
    open spec fn obeys_try_from_spec() -> bool {
        true
    }

    open spec fn try_from_spec(v: U256) -> Result<Self, Self::Error> {
        if v@ <= usize::MAX {
            Ok(v@ as usize)
        } else if v@ <= u64::MAX {
            Err("U256 value too large for usize")
        } else {
            Err("U256 value too large for u64")
        }
    }
}

} // verus!
