//! Properties that relate several operations of the library, proved over the
//! value model that their contracts use.
use vstd::prelude::*;
use vstd::arithmetic::power::pow;
use vstd::arithmetic::power2::pow2;
use vstd::arithmetic::div_mod::{lemma_fundamental_div_mod, lemma_fundamental_div_mod_converse, lemma_small_mod, lemma_mod_bound, lemma_div_denominator};
use crate::spec::{modulus, max_value, wrap, lemma_pow2_limb_weights};
use crate::limbs::{is_bit_length, signed_val};
use crate::bytes::{be_value, nat_to_be_bytes, lemma_be_value_of_encoding, lemma_encoding_of_be_value};
use crate::uint::{U256, trim_leading_zeros};
use crate::ops::xor_limbs;
use crate::spec::{val4, b1, b2, b3, bit_of};
use vstd::std_specs::ops::{BitAndSpec, BitOrSpec, BitXorSpec};

verus! {

proof fn lemma_wrap_small(x: int)
    requires
        0 <= x < modulus(),
    ensures
        wrap(x) == x,
{
    lemma_small_mod(x as nat, modulus());
}

proof fn lemma_wrap_shift(x: int, k: int)
    ensures
        wrap(x + k * modulus()) == wrap(x),
{
    vstd::arithmetic::div_mod::lemma_mod_multiples_vanish(k, x, modulus() as int);
    assert(k * modulus() + x == x + k * modulus());
    assert(modulus() * k == k * modulus()) by (nonlinear_arith);
}

/// Subtracting what was added gives back the original value: `(a + b) - b == a`.
pub proof fn law_add_then_sub(a: U256, b: U256)
    ensures
        wrap(wrap((a@ + b@) as int) - b@) == a@,
{
    let s = (a@ + b@) as int;
    lemma_fundamental_div_mod(s, modulus() as int);
    lemma_mod_bound(s, modulus() as int);
    let q = s / modulus() as int;
    assert(wrap(s) - b@ == a@ + (-q) * modulus()) by (nonlinear_arith)
        requires s == modulus() * q + wrap(s), s == a@ + b@;
    lemma_wrap_shift(a@ as int, -q);
    lemma_wrap_small(a@ as int);
}

/// Adding what was subtracted gives back the original value: `(a - b) + b == a`.
pub proof fn law_sub_then_add(a: U256, b: U256)
    ensures
        wrap((wrap(a@ - b@) + b@) as int) == a@,
{
    let d = a@ - b@;
    lemma_fundamental_div_mod(d, modulus() as int);
    lemma_mod_bound(d, modulus() as int);
    let q = d / modulus() as int;
    assert(wrap(d) + b@ == a@ + (-q) * modulus()) by (nonlinear_arith)
        requires d == modulus() * q + wrap(d), d == a@ - b@;
    lemma_wrap_shift(a@ as int, -q);
    lemma_wrap_small(a@ as int);
}

/// A value plus its wrapping negation is zero.
pub proof fn law_neg_is_additive_inverse(a: U256)
    ensures
        wrap((a@ + wrap(-(a@ as int))) as int) == 0,
{
    let n = -(a@ as int);
    lemma_fundamental_div_mod(n, modulus() as int);
    lemma_mod_bound(n, modulus() as int);
    let q = n / modulus() as int;
    assert(a@ + wrap(n) == 0 + (-q) * modulus()) by (nonlinear_arith)
        requires n == modulus() * q + wrap(n), n == -(a@ as int);
    lemma_wrap_shift(0, -q);
    lemma_wrap_small(0);
}

/// Quotient and remainder rebuild the dividend with wrapping multiplication and
/// addition, and the remainder is below the divisor.
pub proof fn law_div_rem_rebuild(a: U256, b: U256)
    requires
        b@ != 0,
    ensures
        wrap((wrap((a@ / b@) * b@ as int) + a@ % b@) as int) == a@,
        a@ % b@ < b@,
{
    let q = a@ / b@;
    let r = a@ % b@;
    lemma_fundamental_div_mod(a@ as int, b@ as int);
    lemma_mod_bound(a@ as int, b@ as int);
    assert(q * b@ <= a@) by (nonlinear_arith)
        requires a@ == b@ * q + r, r >= 0;
    lemma_wrap_small((q * b@) as int);
    assert(q * b@ + r == a@) by (nonlinear_arith)
        requires a@ == b@ * q + r;
    lemma_wrap_small(a@ as int);
}

/// Encoding a value as 32 big-endian bytes and reading it back gives the value.
pub proof fn law_be_bytes_roundtrip(a: U256)
    ensures
        be_value(nat_to_be_bytes(a@)) == a@,
{
    lemma_be_value_of_encoding(a@);
}

/// Reading 32 big-endian bytes and encoding the value gives back the bytes.
pub proof fn law_be_bytes_roundtrip_bytes(s: Seq<u8>)
    requires
        s.len() == 32,
    ensures
        nat_to_be_bytes(be_value(s)) == s,
{
    lemma_encoding_of_be_value(s);
}

pub(crate) proof fn lemma_trim_keeps_value(s: Seq<u8>)
    ensures
        be_value(trim_leading_zeros(s)) == be_value(s),
    decreases s.len(),
{
    if s.len() > 0 && s[0] == 0 {
        lemma_trim_keeps_value(s.drop_first());
        lemma_be_value_drop_zero(s);
    }
}

proof fn lemma_be_prefix_drop_zero(s: Seq<u8>, k: nat)
    requires
        s.len() > 0,
        s[0] == 0,
        1 <= k <= s.len(),
    ensures
        crate::bytes::be_prefix(s.drop_first(), (k - 1) as nat) == crate::bytes::be_prefix(s, k),
    decreases k,
{
    let t = s.drop_first();
    if k > 1 {
        let j = (k - 1) as nat;
        lemma_be_prefix_drop_zero(s, j);
        assert(t[j - 1] == s[k - 1]);
        assert(crate::bytes::be_prefix(t, j) == crate::bytes::be_prefix(t, (j - 1) as nat) * 256 + t[j - 1] as nat);
        assert(crate::bytes::be_prefix(s, k) == crate::bytes::be_prefix(s, j) * 256 + s[k - 1] as nat);
    } else {
        assert(crate::bytes::be_prefix(s, 1) == crate::bytes::be_prefix(s, 0) * 256 + s[0] as nat);
    }
}

proof fn lemma_be_value_drop_zero(s: Seq<u8>)
    requires
        s.len() > 0,
        s[0] == 0,
    ensures
        be_value(s.drop_first()) == be_value(s),
{
    lemma_be_prefix_drop_zero(s, s.len());
}

/// Stripping leading zero bytes does not change the number the bytes write.
pub proof fn law_trimmed_bytes_keep_value(a: U256)
    ensures
        be_value(trim_leading_zeros(nat_to_be_bytes(a@))) == a@,
{
    lemma_trim_keeps_value(nat_to_be_bytes(a@));
    lemma_be_value_of_encoding(a@);
}

/// The bit length of a number is unique, so `bit_len` is determined, and
/// `leading_zeros` is `256 - bit_len`.
pub proof fn law_bit_length_unique(v: nat, n: nat, m: nat)
    requires
        is_bit_length(v, n),
        is_bit_length(v, m),
    ensures
        n == m,
{
    if n < m && n < (m - 1) as nat {
        vstd::arithmetic::power2::lemma_pow2_strictly_increases(n, (m - 1) as nat);
    } else if m < n && m < (n - 1) as nat {
        vstd::arithmetic::power2::lemma_pow2_strictly_increases(m, (n - 1) as nat);
    }
}

/// Shifting left and then right by the same amount gives back the value when
/// nothing was shifted out.
pub proof fn law_shl_then_shr(a: U256, s: nat)
    requires
        a@ * pow2(s) < modulus(),
    ensures
        wrap(a@ * pow2(s) as int) / pow2(s) == a@,
{
    lemma_wrap_small((a@ * pow2(s)) as int);
    vstd::arithmetic::power2::lemma_pow2_pos(s);
    vstd::arithmetic::div_mod::lemma_div_multiples_vanish(a@ as int, pow2(s) as int);
    assert(a@ * pow2(s) == pow2(s) * a@) by (nonlinear_arith);
}

/// XOR with the same value twice gives back the original limbs.
pub proof fn law_xor_self_inverse(a: U256, b: U256)
    ensures
        xor_limbs(xor_limbs(a.limbs(), b.limbs()), b.limbs()) == a.limbs(),
{
    let (x, y) = (a.limbs(), b.limbs());
    let (x0, x1, x2, x3, y0, y1, y2, y3) = (x[0], x[1], x[2], x[3], y[0], y[1], y[2], y[3]);
    assert((x0 ^ y0) ^ y0 == x0) by (bit_vector);
    assert((x1 ^ y1) ^ y1 == x1) by (bit_vector);
    assert((x2 ^ y2) ^ y2 == x2) by (bit_vector);
    assert((x3 ^ y3) ^ y3 == x3) by (bit_vector);
    assert(xor_limbs(x, y)[0] == x0 ^ y0);
    assert(xor_limbs(xor_limbs(x, y), y) =~= x);
}

/// Any value to the power zero is one.
pub proof fn law_pow_zero(a: U256)
    ensures
        wrap(pow(a@ as int, 0)) == 1,
{
    vstd::arithmetic::power::lemma_pow0(a@ as int);
    lemma_pow2_limb_weights();
    lemma_wrap_small(1);
}

/// Raising to `e + 1` is raising to `e` and multiplying once more, all modulo 2^256.
pub proof fn law_pow_succ(a: U256, e: nat)
    ensures
        wrap(pow(a@ as int, e + 1)) == wrap(wrap(pow(a@ as int, e)) * a@ as int),
{
    vstd::arithmetic::power::lemma_pow_adds(a@ as int, e, 1);
    vstd::arithmetic::power::lemma_pow1(a@ as int);
    vstd::arithmetic::div_mod::lemma_mul_mod_noop_left(pow(a@ as int, e), a@ as int, modulus() as int);
}

/// On values whose top bit is clear, the arithmetic right shift is the plain one.
pub proof fn law_arithmetic_shr_nonnegative(a: U256, s: nat)
    requires
        a@ < modulus() / 2,
    ensures
        wrap(signed_val(a@) / pow2(s) as int) == a@ / pow2(s),
{
    vstd::arithmetic::power2::lemma_pow2_pos(s);
    vstd::arithmetic::div_mod::lemma_div_is_ordered_by_denominator(a@ as int, 1, pow2(s) as int);
    vstd::arithmetic::div_mod::lemma_div_basics(a@ as int);
    lemma_wrap_small((a@ / pow2(s)) as int);
}

/// Shifting a value whose top bit is set arithmetically by 255 gives all ones.
pub proof fn law_arithmetic_shr_negative_fills(a: U256)
    requires
        a@ >= modulus() / 2,
    ensures
        wrap(signed_val(a@) / pow2(255) as int) == max_value(),
{
    U256::lemma_bound(a);
    lemma_pow2_limb_weights();
    vstd::arithmetic::power2::lemma_pow2_adds(255, 1);
    vstd::arithmetic::power2::lemma2_to64();
    let x = signed_val(a@);
    assert(-(pow2(255) as int) <= x < 0);
    lemma_fundamental_div_mod_converse(x, pow2(255) as int, -1, x + pow2(255));
    lemma_fundamental_div_mod_converse(-1, modulus() as int, -1, modulus() - 1);
}

/// A negative `v` converts to `2^256 + v`, which is the wrapping negation of `-v`.
pub proof fn law_sign_extension(v: int)
    requires
        -(modulus() as int) < v < 0,
    ensures
        wrap(v) == modulus() + v,
        wrap(v) == wrap(-(wrap(-v) as int)),
{
    lemma_fundamental_div_mod_converse(v, modulus() as int, -1, modulus() + v);
    lemma_wrap_small(-v);
}


/// The number above the first `k` limbs: `val4(l) / 2^(64k)`.
proof fn lemma_val4_upper(l: [u64; 4], k: nat)
    requires
        k < 4,
    ensures
        k == 0 ==> val4(l) / pow2(64 * k) == l[0] + b1() * (l[1] + l[2] * b1() + l[3] * b2()),
        k == 1 ==> val4(l) / pow2(64 * k) == l[1] + b1() * (l[2] + l[3] * b1()),
        k == 2 ==> val4(l) / pow2(64 * k) == l[2] + b1() * l[3],
        k == 3 ==> val4(l) / pow2(64 * k) == l[3] as int,
{
    lemma_pow2_limb_weights();
    vstd::arithmetic::power2::lemma2_to64();
    let v = val4(l) as int;
    if k == 0 {
        assert(pow2(0) == 1);
        lemma_fundamental_div_mod_converse(v, 1, v, 0);
    } else if k == 1 {
        assert(pow2(64 * k) == b1());
        lemma_fundamental_div_mod_converse(v, b1() as int, l[1] + b1() * (l[2] + l[3] * b1()), l[0] as int);
    } else if k == 2 {
        assert(pow2(64 * k) == b2());
        lemma_fundamental_div_mod_converse(v, b2() as int, l[2] + b1() * l[3], l[0] + l[1] * b1());
    } else {
        assert(pow2(64 * k) == b3());
        lemma_fundamental_div_mod_converse(v, b3() as int, l[3] as int, l[0] + l[1] * b1() + l[2] * b2());
    }
}

/// Bit `i` of the value of a limb array is bit `i % 64` of limb `i / 64`.
proof fn lemma_bit_of_val4(l: [u64; 4], i: nat)
    requires
        i < 256,
    ensures
        bit_of(val4(l), i) == bit_of(l[(i / 64) as int] as nat, i % 64),
{
    let k = i / 64;
    let s = i % 64;
    let x = l[k as int] as int;
    lemma_val4_upper(l, k);
    let y = (val4(l) / pow2(64 * k)) as int;
    let h = y / b1() as int;
    // y == x + 2^64 * h with x the limb
    assert(y == x + b1() * h && h >= 0) by {
        lemma_fundamental_div_mod_converse(y, b1() as int, h, x);
    }
    vstd::arithmetic::power2::lemma_pow2_pos(64 * k);
    vstd::arithmetic::power2::lemma_pow2_pos(s);
    vstd::arithmetic::power2::lemma_pow2_pos((63 - s) as nat);
    vstd::arithmetic::power2::lemma_pow2_adds(64 * k, s);
    assert(64 * k + s == i);
    lemma_div_denominator(val4(l) as int, pow2(64 * k) as int, pow2(s) as int);
    // y / 2^s == x / 2^s + 2^(63 - s) * 2 * h
    let d = pow2(s) as int;
    let c = pow2((63 - s) as nat) as int;
    lemma_pow2_limb_weights();
    vstd::arithmetic::power2::lemma2_to64();
    vstd::arithmetic::power2::lemma_pow2_adds(s, (63 - s) as nat);
    vstd::arithmetic::power2::lemma_pow2_adds(63, 1);
    assert(d * c * 2 == b1()) by {
        assert(s + (63 - s) as nat == 63);
        assert(pow2(63) * pow2(1) == pow2(64));
    }
    lemma_fundamental_div_mod(x, d);
    lemma_mod_bound(x, d);
    let q = x / d;
    assert(y == d * (q + 2 * (c * h)) + x % d) by (nonlinear_arith)
        requires y == x + b1() * h, x == d * q + x % d, d * c * 2 == b1();
    lemma_fundamental_div_mod_converse(y, d, q + 2 * (c * h), x % d);
    vstd::arithmetic::div_mod::lemma_mod_multiples_vanish(c * h, q, 2);
}

/// Bit `s` of a limb, read by shifting and masking.
proof fn lemma_limb_bit(x: u64, s: u64)
    requires
        s < 64,
    ensures
        bit_of(x as nat, s as nat) == ((x >> s) & 1 == 1),
{
    vstd::bits::lemma_u64_shr_is_div(x, s);
    let z = x >> s;
    assert(z & 1 == z % 2) by (bit_vector);
}

/// Bit `i` of the limb-wise AND of two limb arrays combines bit `i` of each.
pub proof fn lemma_and_limbs_bits(p: [u64; 4], q: [u64; 4], i: nat)
    requires
        i < 256,
    ensures
        bit_of(val4(crate::ops::and_limbs(p, q)), i) == (bit_of(val4(p), i) && bit_of(val4(q), i)),
{
    let (x, y) = (p[(i / 64) as int], q[(i / 64) as int]);
    let s = (i % 64) as u64;
    lemma_bit_of_val4(p, i);
    lemma_bit_of_val4(q, i);
    lemma_bit_of_val4(crate::ops::and_limbs(p, q), i);
    lemma_limb_bit(x, s);
    lemma_limb_bit(y, s);
    lemma_limb_bit(x & y, s);
    assert((((x & y) >> s) & 1 == 1) == (((x >> s) & 1 == 1) && ((y >> s) & 1 == 1))) by (bit_vector)
        requires s < 64;
}

/// Every bit of `a & b` is set exactly when that bit is set in both `a` and `b`.
pub proof fn law_bitand_bits(a: U256, b: U256, i: nat)
    requires
        i < 256,
    ensures
        bit_of(a.bitand_spec(b)@, i) == (bit_of(a@, i) && bit_of(b@, i)),
{
    U256::lemma_with_limbs(crate::ops::and_limbs(a.limbs(), b.limbs()));
    lemma_and_limbs_bits(a.limbs(), b.limbs(), i);
}

/// Bit `i` of the limb-wise OR of two limb arrays combines bit `i` of each.
pub proof fn lemma_or_limbs_bits(p: [u64; 4], q: [u64; 4], i: nat)
    requires
        i < 256,
    ensures
        bit_of(val4(crate::ops::or_limbs(p, q)), i) == (bit_of(val4(p), i) || bit_of(val4(q), i)),
{
    let (x, y) = (p[(i / 64) as int], q[(i / 64) as int]);
    let s = (i % 64) as u64;
    lemma_bit_of_val4(p, i);
    lemma_bit_of_val4(q, i);
    lemma_bit_of_val4(crate::ops::or_limbs(p, q), i);
    lemma_limb_bit(x, s);
    lemma_limb_bit(y, s);
    lemma_limb_bit(x | y, s);
    assert((((x | y) >> s) & 1 == 1) == (((x >> s) & 1 == 1) || ((y >> s) & 1 == 1))) by (bit_vector)
        requires s < 64;
}

/// Every bit of `a | b` is set exactly when that bit is set in `a` or in `b`.
pub proof fn law_bitor_bits(a: U256, b: U256, i: nat)
    requires
        i < 256,
    ensures
        bit_of(a.bitor_spec(b)@, i) == (bit_of(a@, i) || bit_of(b@, i)),
{
    U256::lemma_with_limbs(crate::ops::or_limbs(a.limbs(), b.limbs()));
    lemma_or_limbs_bits(a.limbs(), b.limbs(), i);
}

/// Bit `i` of the limb-wise XOR of two limb arrays combines bit `i` of each.
pub proof fn lemma_xor_limbs_bits(p: [u64; 4], q: [u64; 4], i: nat)
    requires
        i < 256,
    ensures
        bit_of(val4(crate::ops::xor_limbs(p, q)), i) == (bit_of(val4(p), i) != bit_of(val4(q), i)),
{
    let (x, y) = (p[(i / 64) as int], q[(i / 64) as int]);
    let s = (i % 64) as u64;
    lemma_bit_of_val4(p, i);
    lemma_bit_of_val4(q, i);
    lemma_bit_of_val4(crate::ops::xor_limbs(p, q), i);
    lemma_limb_bit(x, s);
    lemma_limb_bit(y, s);
    lemma_limb_bit(x ^ y, s);
    assert((((x ^ y) >> s) & 1 == 1) == (((x >> s) & 1 == 1) != ((y >> s) & 1 == 1))) by (bit_vector)
        requires s < 64;
}

/// Every bit of `a ^ b` is set exactly when that bit differs between `a` and `b`.
pub proof fn law_bitxor_bits(a: U256, b: U256, i: nat)
    requires
        i < 256,
    ensures
        bit_of(a.bitxor_spec(b)@, i) == (bit_of(a@, i) != bit_of(b@, i)),
{
    U256::lemma_with_limbs(crate::ops::xor_limbs(a.limbs(), b.limbs()));
    lemma_xor_limbs_bits(a.limbs(), b.limbs(), i);
}


/// Trimming leading zero bytes keeps a suffix: every byte dropped is zero, and
/// what is left is empty or starts with a nonzero byte.
pub proof fn law_trim_leading_zeros(s: Seq<u8>)
    ensures
        trim_leading_zeros(s).len() <= s.len(),
        trim_leading_zeros(s) == s.skip(s.len() - trim_leading_zeros(s).len()),
        forall|j: int| 0 <= j < s.len() - trim_leading_zeros(s).len() ==> s[j] == 0,
        trim_leading_zeros(s).len() == 0 || trim_leading_zeros(s)[0] != 0,
    decreases s.len(),
{
    if s.len() > 0 && s[0] == 0 {
        let t = s.drop_first();
        law_trim_leading_zeros(t);
        let r = trim_leading_zeros(t);
        assert(t.skip(t.len() - r.len()) =~= s.skip(s.len() - r.len()));
        assert forall|j: int| 0 <= j < s.len() - r.len() implies s[j] == 0 by {
            if j > 0 {
                assert(s[j] == t[j - 1]);
            }
        }
    } else {
        assert(s.skip(0) =~= s);
    }
}

} // verus!
