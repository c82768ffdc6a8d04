use revm_uint::backend::{DefaultUint256Ops, Uint256Ops};
use revm_uint::uint::U256;

fn u(v: u64) -> U256 {
    U256::from_limbs([v, 0, 0, 0])
}

fn max() -> U256 {
    U256::max_value()
}

#[test]
fn constants_have_their_values() {
    assert_eq!(U256::BITS, 256);
    assert_eq!(*U256::zero().as_limbs(), [0, 0, 0, 0]);
    assert_eq!(*U256::one().as_limbs(), [1, 0, 0, 0]);
    assert_eq!(*max().as_limbs(), [u64::MAX; 4]);
    assert_eq!(U256::default(), U256::zero());
}

#[test]
fn from_limbs_and_as_limbs_roundtrip() {
    let limbs = [1u64, 2, 3, 4];
    assert_eq!(*U256::from_limbs(limbs).as_limbs(), limbs);
}

#[test]
fn wrapping_add_carries_across_limbs() {
    let a = U256::from_limbs([u64::MAX, u64::MAX, 0, 0]);
    assert_eq!(a.wrapping_add(U256::one()), U256::from_limbs([0, 0, 1, 0]));
    assert_eq!(max().wrapping_add(U256::one()), U256::zero());
    assert_eq!(max().wrapping_add(max()), U256::from_limbs([u64::MAX - 1, u64::MAX, u64::MAX, u64::MAX]));
}

#[test]
fn wrapping_sub_borrows_across_limbs() {
    let a = U256::from_limbs([0, 0, 1, 0]);
    assert_eq!(a.wrapping_sub(U256::one()), U256::from_limbs([u64::MAX, u64::MAX, 0, 0]));
    assert_eq!(U256::zero().wrapping_sub(U256::one()), max());
}

#[test]
fn add_then_sub_gives_back_the_value() {
    let a = U256::from_limbs([5, 6, 7, 8]);
    let b = U256::from_limbs([u64::MAX, 1, u64::MAX, u64::MAX]);
    assert_eq!(a.wrapping_add(b).wrapping_sub(b), a);
    assert_eq!(a.wrapping_sub(b).wrapping_add(b), a);
}

#[test]
fn saturating_add_and_sub_clamp() {
    assert_eq!(max().saturating_add(U256::one()), max());
    assert_eq!(u(2).saturating_add(u(3)), u(5));
    assert_eq!(u(2).saturating_sub(u(3)), U256::zero());
    assert_eq!(u(5).saturating_sub(u(3)), u(2));
}

#[test]
fn checked_add_and_sub_report_overflow() {
    assert_eq!(max().checked_add(U256::one()), None);
    assert_eq!(u(2).checked_add(u(3)), Some(u(5)));
    assert_eq!(u(2).checked_sub(u(3)), None);
    assert_eq!(u(5).checked_sub(u(5)), Some(U256::zero()));
}

#[test]
fn overflowing_add_and_sub_flag() {
    assert_eq!(max().overflowing_add(u(2)), (U256::one(), true));
    assert_eq!(u(2).overflowing_add(u(2)), (u(4), false));
    assert_eq!(U256::zero().overflowing_sub(U256::one()), (max(), true));
    assert_eq!(u(3).overflowing_sub(u(1)), (u(2), false));
}

#[test]
fn wrapping_mul_keeps_the_low_half() {
    let two64 = U256::from_limbs([0, 1, 0, 0]);
    assert_eq!(two64.wrapping_mul(two64), U256::from_limbs([0, 0, 1, 0]));
    let two192 = U256::from_limbs([0, 0, 0, 1]);
    assert_eq!(two192.wrapping_mul(two64), U256::zero());
    assert_eq!(max().wrapping_mul(max()), U256::one());
    assert_eq!(u(u64::MAX).wrapping_mul(u(u64::MAX)), U256::from_limbs([1, u64::MAX - 1, 0, 0]));
}

#[test]
fn overflowing_and_checked_and_saturating_mul() {
    let two128 = U256::from_limbs([0, 0, 1, 0]);
    assert_eq!(two128.overflowing_mul(two128), (U256::zero(), true));
    assert_eq!(two128.checked_mul(two128), None);
    assert_eq!(two128.saturating_mul(two128), max());
    assert_eq!(u(6).overflowing_mul(u(7)), (u(42), false));
    assert_eq!(u(6).checked_mul(u(7)), Some(u(42)));
    assert_eq!(u(6).saturating_mul(u(7)), u(42));
}

#[test]
fn division_and_remainder() {
    assert_eq!(u(100).wrapping_div(u(7)), u(14));
    assert_eq!(u(100).wrapping_rem(u(7)), u(2));
    let big = U256::from_limbs([0, 0, 0, 1]);
    assert_eq!(big.wrapping_div(U256::from_limbs([0, 1, 0, 0])), U256::from_limbs([0, 0, 1, 0]));
    assert_eq!(max().wrapping_div(max()), U256::one());
    assert_eq!(max().wrapping_rem(u(10)), u(5));
    assert_eq!(u(3).wrapping_div(u(5)), U256::zero());
    assert_eq!(u(3).checked_div(U256::zero()), None);
    assert_eq!(u(42).checked_div(u(6)), Some(u(7)));
}

#[test]
fn quotient_and_remainder_rebuild_the_dividend() {
    let a = U256::from_limbs([0x1234_5678_9abc_def0, 0x0fed_cba9_8765_4321, 77, 0xdead_beef]);
    let b = U256::from_limbs([0xffff_0000_ffff, 3, 0, 0]);
    let q = a.wrapping_div(b);
    let r = a.wrapping_rem(b);
    assert!(r < b);
    assert_eq!(q.wrapping_mul(b).wrapping_add(r), a);
}

#[test]
fn wrapping_neg_is_the_additive_inverse() {
    assert_eq!(U256::one().wrapping_neg(), max());
    assert_eq!(U256::zero().wrapping_neg(), U256::zero());
    let a = U256::from_limbs([9, 8, 7, 6]);
    assert_eq!(a.wrapping_add(a.wrapping_neg()), U256::zero());
}

#[test]
fn pow_wraps() {
    assert_eq!(u(2).pow(u(10)), u(1024));
    assert_eq!(u(3).pow(U256::zero()), U256::one());
    assert_eq!(U256::zero().pow(U256::zero()), U256::one());
    assert_eq!(u(2).pow(u(255)), U256::from_limbs([0, 0, 0, 1 << 63]));
    assert_eq!(u(2).pow(u(256)), U256::zero());
    assert_eq!(u(10).pow(u(20)), U256::from_limbs([0x6bc7_5e2d_6310_0000, 5, 0, 0]));
    let a = U256::from_limbs([3, 1, 4, 1]);
    assert_eq!(a.pow(u(6)), a.pow(u(5)).wrapping_mul(a));
}

#[test]
fn add_mod_does_not_lose_the_carry() {
    assert_eq!(u(5).add_mod(u(6), u(7)), u(4));
    assert_eq!(max().add_mod(max(), u(10)), u(0));
    assert_eq!(max().add_mod(U256::one(), max()), U256::one());
    assert_eq!(u(5).add_mod(u(6), U256::zero()), U256::zero());
}

#[test]
fn mul_mod_does_not_lose_the_high_half() {
    assert_eq!(u(5).mul_mod(u(6), u(7)), u(2));
    assert_eq!(max().mul_mod(max(), u(1000)), u(225));
    assert_eq!(max().mul_mod(u(2), max()), U256::zero());
    assert_eq!(u(5).mul_mod(u(6), U256::zero()), U256::zero());
}

#[test]
fn arithmetic_shr_extends_the_sign() {
    assert_eq!(u(16).arithmetic_shr(2), u(4));
    assert_eq!(max().arithmetic_shr(10), max());
    let min = U256::from_limbs([0, 0, 0, 1 << 63]);
    assert_eq!(min.arithmetic_shr(255), max());
    assert_eq!(min.arithmetic_shr(1), U256::from_limbs([0, 0, 0, 0xc000_0000_0000_0000]));
    let minus_seven = U256::from(-7i64);
    assert_eq!(minus_seven.arithmetic_shr(1), U256::from(-4i64));
    assert_eq!(u(7).arithmetic_shr(0), u(7));
}

#[test]
fn default_backend_matches_the_methods() {
    let ops = DefaultUint256Ops;
    let a = [0x1234u64, 5, 6, 7];
    let b = [17u64, 0, 0, 0];
    assert_eq!(ops.wrapping_div(a, b), *U256::from_limbs(a).wrapping_div(U256::from_limbs(b)).as_limbs());
    assert_eq!(ops.div(a, b), ops.wrapping_div(a, b));
    assert_eq!(ops.rem(a, b), ops.wrapping_rem(a, b));
    assert_eq!(ops.checked_div(a, [0; 4]), None);
    assert_eq!(ops.checked_mul(a, a), None);
    assert_eq!(ops.saturating_mul(a, a), [u64::MAX; 4]);
    assert_eq!(ops.overflowing_mul(b, b), ([289, 0, 0, 0], false));
    assert_eq!(ops.pow([2, 0, 0, 0], [64, 0, 0, 0]), [0, 1, 0, 0]);
}
