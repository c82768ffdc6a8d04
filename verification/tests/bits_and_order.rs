use core::cmp::Ordering;
use revm_uint::uint::U256;

fn u(v: u64) -> U256 {
    U256::from_limbs([v, 0, 0, 0])
}

#[test]
fn zero_checks_and_limbwise_equality() {
    assert!(U256::zero().is_zero());
    assert!(U256::zero().const_is_zero());
    assert!(!u(1).is_zero());
    assert!(!U256::from_limbs([0, 0, 0, 1]).const_is_zero());
    assert!(u(5).const_eq(&u(5)));
    assert!(!u(5).const_eq(&U256::from_limbs([5, 0, 1, 0])));
    assert_eq!(u(5), u(5));
    assert_ne!(u(5), U256::from_limbs([5, 1, 0, 0]));
}

#[test]
fn ordering_follows_the_most_significant_limb() {
    let small_high = U256::from_limbs([u64::MAX, u64::MAX, u64::MAX, 0]);
    let big_high = U256::from_limbs([0, 0, 0, 1]);
    assert_eq!(small_high.cmp(&big_high), Ordering::Less);
    assert_eq!(big_high.cmp(&small_high), Ordering::Greater);
    assert_eq!(big_high.cmp(&big_high), Ordering::Equal);
    assert!(small_high < big_high);
    assert!(big_high >= small_high);
    assert_eq!(u(1).partial_cmp(&u(2)), Some(Ordering::Less));
}

#[test]
fn bits_and_bytes() {
    let x = U256::from_limbs([0x1234_5678_90ab_cdef, 0, 0, 1 << 63]);
    assert!(x.bit(0));
    assert!(!x.bit(4));
    assert!(x.bit(255));
    assert!(!x.bit(254));
    assert!(!x.bit(256));
    assert!(!x.bit(10_000));
    assert_eq!(x.byte(0), 0xef);
    assert_eq!(x.byte(1), 0xcd);
    assert_eq!(x.byte(7), 0x12);
    assert_eq!(x.byte(8), 0);
    assert_eq!(x.byte(31), 0x80);
}

#[test]
fn bit_length_and_leading_zeros() {
    assert_eq!(U256::zero().bit_len(), 0);
    assert_eq!(U256::zero().leading_zeros(), 256);
    assert_eq!(u(1).bit_len(), 1);
    assert_eq!(u(255).bit_len(), 8);
    assert_eq!(u(256).bit_len(), 9);
    assert_eq!(U256::from_limbs([0, 1, 0, 0]).bit_len(), 65);
    assert_eq!(U256::max_value().bit_len(), 256);
    assert_eq!(U256::max_value().leading_zeros(), 0);
    let x = U256::from_limbs([0, 0, 12345, 0]);
    assert_eq!(x.bit_len() + x.leading_zeros(), 256);
}

#[test]
fn bitwise_operators_work_per_limb() {
    let a = U256::from_limbs([0xff00, 0xf0f0, 1, 0]);
    let b = U256::from_limbs([0x0ff0, 0x0ff0, 3, u64::MAX]);
    assert_eq!(a & b, U256::from_limbs([0x0f00, 0x00f0, 1, 0]));
    assert_eq!(a | b, U256::from_limbs([0xfff0, 0xfff0, 3, u64::MAX]));
    assert_eq!(a ^ b, U256::from_limbs([0xf0f0, 0xff00, 2, u64::MAX]));
    assert_eq!((a ^ b) ^ b, a);
    assert_eq!(!U256::zero(), U256::max_value());
    assert_eq!(!a, U256::max_value() - a);
}

#[test]
fn shifts_multiply_and_divide_by_powers_of_two() {
    assert_eq!(u(1) << 255, U256::from_limbs([0, 0, 0, 1 << 63]));
    assert_eq!(u(1) << 256, U256::zero());
    assert_eq!(u(3) << 64, U256::from_limbs([0, 3, 0, 0]));
    assert_eq!(u(3) << 63, U256::from_limbs([1 << 63, 1, 0, 0]));
    assert_eq!(U256::max_value() >> 255, u(1));
    assert_eq!(U256::max_value() >> 256, U256::zero());
    assert_eq!(U256::from_limbs([0, 3, 0, 0]) >> 65, u(1));
    let x = U256::from_limbs([0xabcd, 0x1234, 0x77, 0]);
    assert_eq!((x << 70) >> 70, x);
}

#[test]
fn operators_wrap_like_the_methods() {
    let a = U256::from_limbs([1, 2, 3, u64::MAX]);
    let b = U256::from_limbs([u64::MAX, 7, 0, 9]);
    assert_eq!(a + b, a.wrapping_add(b));
    assert_eq!(a - b, a.wrapping_sub(b));
    assert_eq!(a * b, a.wrapping_mul(b));
    assert_eq!(a / b, a.wrapping_div(b));
    assert_eq!(a % b, a.wrapping_rem(b));
}

#[test]
fn assign_operators_update_in_place() {
    let mut x = u(10);
    x += u(5);
    assert_eq!(x, u(15));
    x -= u(20);
    assert_eq!(x, U256::zero().wrapping_sub(u(5)));
    x = u(6);
    x *= u(7);
    assert_eq!(x, u(42));
    x /= u(5);
    assert_eq!(x, u(8));
    x %= u(5);
    assert_eq!(x, u(3));
    x <<= 4;
    assert_eq!(x, u(48));
    x >>= 3;
    assert_eq!(x, u(6));
    x &= u(4);
    assert_eq!(x, u(4));
    x |= u(1);
    assert_eq!(x, u(5));
    x ^= u(5);
    assert_eq!(x, U256::zero());
}
