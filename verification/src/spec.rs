//! The mathematical model: a limb array denotes a natural number below 2^256.
use vstd::prelude::*;
use vstd::arithmetic::power2::{pow2, lemma2_to64, lemma_pow2_adds};

verus! {

/// 2^64, the weight of the second limb.
#[verifier::inline]
pub open spec fn b1() -> nat {
    0x1_0000_0000_0000_0000nat
}

/// 2^128, the weight of the third limb.
#[verifier::inline]
pub open spec fn b2() -> nat {
    0x1_0000_0000_0000_0000_0000_0000_0000_0000nat
}

/// 2^192, the weight of the fourth limb.
#[verifier::inline]
pub open spec fn b3() -> nat {
    0x1_0000_0000_0000_0000_0000_0000_0000_0000_0000_0000_0000_0000nat
}

/// 2^256: every value lies below it, and wrapping arithmetic works modulo it.
#[verifier::inline]
pub open spec fn modulus() -> nat {
    0x1_0000_0000_0000_0000_0000_0000_0000_0000_0000_0000_0000_0000_0000_0000_0000_0000nat
}

/// The number denoted by four limbs in little-endian word order.
pub open spec fn val4(l: [u64; 4]) -> nat {
    (l[0] + l[1] * b1() + l[2] * b2() + l[3] * b3()) as nat
}

/// The largest value, 2^256 - 1.
#[verifier::inline]
pub open spec fn max_value() -> nat {
    (modulus() - 1) as nat
}

/// The limb weights are the powers of two that their names say.
pub proof fn lemma_pow2_limb_weights()
    ensures
        pow2(64) == b1(),
        pow2(128) == b2(),
        pow2(192) == b3(),
        pow2(256) == modulus(),
{
    lemma2_to64();
    lemma_pow2_adds(64, 64);
    lemma_pow2_adds(128, 64);
    lemma_pow2_adds(128, 128);
    assert(b2() * b2() == modulus());
}

/// An integer reduced modulo 2^256 into the range of 256-bit values.
pub open spec fn wrap(x: int) -> nat {
    (x % (modulus() as int)) as nat
}

/// The four limbs, least significant first, that denote `n` (taken modulo 2^256).
pub open spec fn nat_to_limbs(n: nat) -> [u64; 4] {
    [
        (n % b1()) as u64,
        ((n / b1()) % b1()) as u64,
        ((n / b2()) % b1()) as u64,
        ((n / b3()) % b1()) as u64,
    ]
}

/// Limbs are determined by the value they denote.
pub proof fn lemma_limbs_of_val(l: [u64; 4])
    ensures
        nat_to_limbs(val4(l)) == l,
{
    let v = val4(l) as int;
    vstd::arithmetic::div_mod::lemma_fundamental_div_mod_converse(v, b1() as int, l[1] + l[2] * b1() + l[3] * b2(), l[0] as int);
    vstd::arithmetic::div_mod::lemma_fundamental_div_mod_converse(v, b2() as int, l[2] + l[3] * b1(), l[0] + l[1] * b1());
    vstd::arithmetic::div_mod::lemma_fundamental_div_mod_converse(v, b3() as int, l[3] as int, l[0] + l[1] * b1() + l[2] * b2());
    vstd::arithmetic::div_mod::lemma_fundamental_div_mod_converse(l[1] + l[2] * b1() + l[3] * b2(), b1() as int, l[2] + l[3] * b1(), l[1] as int);
    vstd::arithmetic::div_mod::lemma_fundamental_div_mod_converse(l[2] + l[3] * b1(), b1() as int, l[3] as int, l[2] as int);
    vstd::arithmetic::div_mod::lemma_small_mod(l[3] as nat, b1());
    let r = nat_to_limbs(val4(l));
    assert(r[0] == l[0] && r[1] == l[1] && r[2] == l[2] && r[3] == l[3]);
    assert(r =~= l);
}

/// Two limb arrays with the same value are the same array.
pub proof fn lemma_val4_injective(a: [u64; 4], b: [u64; 4])
    requires
        val4(a) == val4(b),
    ensures
        a == b,
{
    lemma_limbs_of_val(a);
    lemma_limbs_of_val(b);
}

/// The limbs of a value below 2^256 denote that value.
pub proof fn lemma_val_of_limbs(n: nat)
    requires
        n < modulus(),
    ensures
        val4(nat_to_limbs(n)) == n,
{
    let n0 = n % b1();
    let q0 = n / b1();
    let n1 = q0 % b1();
    let q1 = q0 / b1();
    let n2 = q1 % b1();
    let q2 = q1 / b1();
    vstd::arithmetic::div_mod::lemma_fundamental_div_mod(n as int, b1() as int);
    vstd::arithmetic::div_mod::lemma_fundamental_div_mod(q0 as int, b1() as int);
    vstd::arithmetic::div_mod::lemma_fundamental_div_mod(q1 as int, b1() as int);
    vstd::arithmetic::div_mod::lemma_div_denominator(n as int, b1() as int, b1() as int);
    vstd::arithmetic::div_mod::lemma_div_denominator(n as int, b2() as int, b1() as int);
    assert(n / b2() == q1);
    assert(n / b3() == q2);
    vstd::arithmetic::div_mod::lemma_mod_bound(n as int, b1() as int);
    vstd::arithmetic::div_mod::lemma_mod_bound(q0 as int, b1() as int);
    vstd::arithmetic::div_mod::lemma_mod_bound(q1 as int, b1() as int);
    assert(q2 < b1()) by {
        vstd::arithmetic::div_mod::lemma_fundamental_div_mod(n as int, b3() as int);
        vstd::arithmetic::div_mod::lemma_mod_bound(n as int, b3() as int);
    }
    vstd::arithmetic::div_mod::lemma_small_mod(q2, b1());
}


/// Bit `i` of `n` (0 = least significant) is set.
pub open spec fn bit_of(n: nat, i: nat) -> bool {
    (n / pow2(i)) % 2 == 1
}

} // verus!
