use core::cmp::Ordering;
use revm_uint::U256;

fn sample() -> Vec<U256> {
    vec![
        U256::zero(),
        U256::one(),
        U256::from_limbs([u64::MAX, 0, 0, 0]),
        U256::from_limbs([0, 1, 0, 0]),
        U256::from_limbs([0x0123_4567_89ab_cdef, 0xfedc_ba98_7654_3210, 42, 1 << 63]),
        U256::from_limbs([7, 7, 7, 7]),
        U256::max_value(),
    ]
}

#[test]
fn law_add_sub_inverse_on_samples() {
    for a in sample() {
        for b in sample() {
            assert_eq!(a.wrapping_add(b).wrapping_sub(b), a);
            assert_eq!(a.wrapping_sub(b).wrapping_add(b), a);
            assert_eq!(a.wrapping_add(a.wrapping_neg()), U256::zero());
        }
    }
}

#[test]
fn law_div_rem_on_samples() {
    for a in sample() {
        for b in sample() {
            if !b.is_zero() {
                let q = a.wrapping_div(b);
                let r = a.wrapping_rem(b);
                assert!(r < b);
                assert_eq!(q.wrapping_mul(b).wrapping_add(r), a);
            }
        }
    }
}

#[test]
fn law_bytes_roundtrip_on_samples() {
    for a in sample() {
        let bytes = a.to_be_bytes();
        assert_eq!(U256::from_be_bytes(bytes), a);
        assert_eq!(U256::from_be_bytes(bytes).to_be_bytes(), bytes);
        let trimmed = a.to_be_bytes_trimmed_vec();
        let mut padded = vec![0u8; 32 - trimmed.len()];
        padded.extend_from_slice(&trimmed);
        assert_eq!(U256::from_be_slice(&padded), a);
    }
}

#[test]
fn law_cmp_is_a_total_order_on_samples() {
    for a in sample() {
        for b in sample() {
            assert_eq!(a.cmp(&b) == Ordering::Less, b.cmp(&a) == Ordering::Greater);
            assert_eq!(a.cmp(&b) == Ordering::Equal, a == b);
            for c in sample() {
                if a < b && b < c {
                    assert!(a < c);
                }
            }
        }
    }
}

#[test]
fn law_shl_then_shr_on_samples() {
    let x = U256::from_limbs([0xdead_beef, 0x1234, 0, 0]);
    for s in [0usize, 1, 63, 64, 100, 127, 128] {
        assert_eq!((x << s) >> s, x);
    }
}

#[test]
fn law_pow_succ_and_zero_on_samples() {
    for a in sample() {
        assert_eq!(a.pow(U256::zero()), U256::one());
        for e in [0u64, 1, 2, 5, 31] {
            let e1 = U256::from(e + 1);
            assert_eq!(a.pow(e1), a.pow(U256::from(e)).wrapping_mul(a));
        }
    }
}

#[test]
fn law_arithmetic_shr_on_samples() {
    let positive = U256::from_limbs([0, 0, 0, 0x7fff_ffff_ffff_ffff]);
    for s in [0usize, 1, 64, 200, 255] {
        assert_eq!(positive.arithmetic_shr(s), positive >> s);
    }
    for a in sample() {
        if a.bit(255) {
            assert_eq!(a.arithmetic_shr(255), U256::max_value());
        }
    }
}

#[test]
fn law_sign_extension_on_samples() {
    for v in [-1i64, -2, -1000, i64::MIN + 1] {
        assert_eq!(U256::from(v), U256::from(-v).wrapping_neg());
    }
    assert_eq!(U256::from(-3i8), U256::max_value().wrapping_sub(U256::from(2u8)));
}

#[test]
fn as_limbs_mut_writes_through() {
    let mut x = U256::zero();
    x.as_limbs_mut()[3] = 1;
    assert_eq!(x, U256::one() << 192);
}
