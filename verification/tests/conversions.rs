use revm_uint::uint::U256;

fn u(v: u64) -> U256 {
    U256::from_limbs([v, 0, 0, 0])
}

#[test]
fn be_bytes_roundtrip() {
    let x = U256::from_limbs([0x0102_0304_0506_0708, 0x090a_0b0c_0d0e_0f10, 0x1112_1314_1516_1718, 0x191a_1b1c_1d1e_1f20]);
    let bytes = x.to_be_bytes();
    let expected: [u8; 32] = [
        0x19, 0x1a, 0x1b, 0x1c, 0x1d, 0x1e, 0x1f, 0x20, 0x11, 0x12, 0x13, 0x14, 0x15, 0x16, 0x17, 0x18,
        0x09, 0x0a, 0x0b, 0x0c, 0x0d, 0x0e, 0x0f, 0x10, 0x01, 0x02, 0x03, 0x04, 0x05, 0x06, 0x07, 0x08,
    ];
    assert_eq!(bytes, expected);
    assert_eq!(U256::from_be_bytes(bytes), x);
    assert_eq!(x.to_be_bytes_vec(), expected.to_vec());
}

#[test]
fn from_be_bytes_reads_big_endian() {
    let mut bytes = [0u8; 32];
    bytes[31] = 1;
    bytes[30] = 2;
    assert_eq!(U256::from_be_bytes(bytes), u(0x0201));
    bytes[0] = 0x80;
    assert_eq!(U256::from_be_bytes(bytes), U256::from_limbs([0x0201, 0, 0, 0x8000_0000_0000_0000]));
    assert_eq!(U256::from_be_bytes(bytes).to_be_bytes(), bytes);
}

#[test]
fn be_slice_requires_exactly_32_bytes() {
    let bytes = [7u8; 32];
    assert_eq!(U256::from_be_slice(&bytes), U256::from_be_bytes(bytes));
    assert_eq!(U256::try_from_be_slice(&bytes), Some(U256::from_be_bytes(bytes)));
    assert_eq!(U256::try_from_be_slice(&bytes[..31]), None);
    assert_eq!(U256::try_from_be_slice(&[0u8; 33]), None);
    assert_eq!(U256::try_from_be_slice(&[]), None);
}

#[test]
fn trimmed_bytes_drop_leading_zeros() {
    assert_eq!(u(0x1234).to_be_bytes_trimmed_vec(), vec![0x12, 0x34]);
    assert_eq!(U256::zero().to_be_bytes_trimmed_vec(), Vec::<u8>::new());
    assert_eq!(U256::max_value().to_be_bytes_trimmed_vec(), vec![0xff; 32]);
    assert_eq!(U256::from_limbs([0, 0, 0, 1]).to_be_bytes_trimmed_vec().len(), 25);
}

#[test]
fn from_unsigned_primitives() {
    assert_eq!(U256::from(7u8), u(7));
    assert_eq!(U256::from(700u16), u(700));
    assert_eq!(U256::from(70_000u32), u(70_000));
    assert_eq!(U256::from(u64::MAX), u(u64::MAX));
    assert_eq!(U256::from(u128::MAX), U256::from_limbs([u64::MAX, u64::MAX, 0, 0]));
    assert_eq!(U256::from(12usize), u(12));
    assert_eq!(U256::from(true), U256::one());
    assert_eq!(U256::from(false), U256::zero());
}

#[test]
fn from_signed_sign_extends() {
    assert_eq!(U256::from(-1i8), U256::max_value());
    assert_eq!(U256::from(-1i16), U256::max_value());
    assert_eq!(U256::from(-1i32), U256::max_value());
    assert_eq!(U256::from(-1i64), U256::max_value());
    assert_eq!(U256::from(5i32), u(5));
    assert_eq!(U256::from(i64::MIN), U256::from_limbs([1 << 63, u64::MAX, u64::MAX, u64::MAX]));
    assert_eq!(U256::from(i8::MIN), U256::from(128u8).wrapping_neg());
    assert_eq!(U256::from(-42i64), U256::from(42i64).wrapping_neg());
}

#[test]
fn try_from_narrows() {
    assert_eq!(u64::try_from(u(99)), Ok(99));
    assert_eq!(u64::try_from(U256::from_limbs([0, 1, 0, 0])), Err("U256 value too large for u64"));
    assert_eq!(u128::try_from(U256::from_limbs([1, 2, 0, 0])), Ok(1u128 | (2u128 << 64)));
    assert_eq!(u128::try_from(U256::from_limbs([0, 0, 1, 0])), Err("U256 value too large for u128"));
    assert_eq!(usize::try_from(u(5)), Ok(5usize));
    assert_eq!(usize::try_from(U256::from_limbs([0, 0, 0, 1])), Err("U256 value too large for u64"));
    assert_eq!(u64::try_from(U256::from(123_456u64)), Ok(123_456));
}

#[test]
fn parse_decimal_and_prefixed() {
    assert_eq!("1234".parse::<U256>().unwrap(), u(1234));
    assert_eq!(U256::from_str("0x10").unwrap(), u(16));
    assert_eq!(U256::from_str("0b101").unwrap(), u(5));
    assert_eq!(U256::from_str("0o17").unwrap(), u(15));
    assert_eq!(
        U256::from_str("115792089237316195423570985008687907853269984665640564039457584007913129639935").unwrap(),
        U256::max_value()
    );
    assert!(U256::from_str("12a").is_err());
    assert!(U256::from_str("115792089237316195423570985008687907853269984665640564039457584007913129639936").is_err());
}

#[test]
fn decimal_rendering() {
    assert_eq!(U256::zero().to_string(), "0");
    assert_eq!(u(7).to_string(), "7");
    assert_eq!(u(1234567890).to_string(), "1234567890");
    assert_eq!(
        U256::max_value().to_string(),
        "115792089237316195423570985008687907853269984665640564039457584007913129639935"
    );
    let x = U256::from_limbs([3, 2, 1, 0]);
    assert_eq!(U256::from_str(&x.to_string()).unwrap(), x);
}

#[test]
fn hexadecimal_rendering() {
    assert_eq!(U256::zero().to_lower_hex_string(), "0");
    assert_eq!(u(255).to_lower_hex_string(), "ff");
    assert_eq!(u(255).to_upper_hex_string(), "FF");
    assert_eq!(U256::from_limbs([0, 1, 0, 0]).to_lower_hex_string(), "10000000000000000");
    assert_eq!(U256::max_value().to_upper_hex_string(), "F".repeat(64));
    let x = U256::from_limbs([0xdead_beef, 0xabc, 0, 0]);
    let s = format!("0x{}", x.to_lower_hex_string());
    assert_eq!(U256::from_str(&s).unwrap(), x);
}

#[test]
fn parse_follows_the_numeral_rules() {
    assert_eq!(U256::from_str("").unwrap(), U256::zero());
    assert_eq!(U256::from_str("0x").unwrap(), U256::zero());
    assert_eq!(U256::from_str("1_000").unwrap(), u(1000));
    assert_eq!(U256::from_str("0XfF").unwrap(), u(255));
    assert_eq!(U256::from_str("0B1_1").unwrap(), u(3));
    assert_eq!(U256::from_str("0O777").unwrap(), u(511));
    assert_eq!(U256::from_str("007").unwrap(), u(7));
    assert!(U256::from_str("0x1g").is_err());
    assert!(U256::from_str("0b2").is_err());
    assert!(U256::from_str("-1").is_err());
    assert!(U256::from_str(" 1").is_err());
    assert!(U256::from_str("\u{e9}").is_err());
    assert!(U256::from_str(&format!("0x1{}", "0".repeat(64))).is_err());
    assert_eq!(U256::from_str(&format!("0x0{}", "f".repeat(64))).unwrap(), U256::max_value());
    assert!(U256::from_str(&format!("0o2{}", "0".repeat(85))).is_err());
    assert_eq!(U256::from_str(&format!("0o1{}", "7".repeat(85))).unwrap(), U256::max_value());
}
