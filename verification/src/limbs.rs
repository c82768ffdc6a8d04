//! Arithmetic on raw limb arrays, each operation proved against `val4`.
use vstd::prelude::*;
use vstd::arithmetic::power2::{pow2, lemma_pow2_adds, lemma_pow2_pos, lemma_pow2_strictly_increases};
use vstd::arithmetic::div_mod::{lemma_fundamental_div_mod_converse, lemma_fundamental_div_mod, lemma_div_denominator, lemma_mul_mod_noop_left, lemma_div_multiples_vanish, lemma_mod_multiples_basic, lemma_basic_div, lemma_small_mod, lemma_div_is_ordered, lemma_div_by_self, lemma_mul_mod_noop, lemma_add_mod_noop};
use vstd::arithmetic::mul::{lemma_mul_is_associative};
use vstd::arithmetic::power::{pow, lemma_pow0, lemma_pow1, lemma_pow_adds};
use vstd::bits::{lemma_u64_shl_is_mul, lemma_u64_pow2_no_overflow, lemma_u64_shr_is_div};
use crate::spec::{b1, b2, b3, modulus, val4, lemma_pow2_limb_weights};

verus! {

pub proof fn lemma_split_u128(s: u128)
    ensures
        s == (s as u64) + (s >> 64u128) * b1(),
        (s >> 64u128) < b1(),
{
    assert(s == ((s as u64) as u128) + (s >> 64u128) * 0x1_0000_0000_0000_0000u128
        && (s >> 64u128) < 0x1_0000_0000_0000_0000u128) by (bit_vector);
}

/// Adds two limb arrays; the flag is the carry out of the top limb.
pub fn add_limbs(a: [u64; 4], b: [u64; 4]) -> (res: ([u64; 4], bool))
    ensures
        val4(res.0) + (if res.1 { modulus() } else { 0 }) == val4(a) + val4(b),
{
    let s0: u128 = a[0] as u128 + b[0] as u128;
    proof { lemma_split_u128(s0); }
    let s1: u128 = a[1] as u128 + b[1] as u128 + (s0 >> 64);
    proof { lemma_split_u128(s1); }
    let s2: u128 = a[2] as u128 + b[2] as u128 + (s1 >> 64);
    proof { lemma_split_u128(s2); }
    let s3: u128 = a[3] as u128 + b[3] as u128 + (s2 >> 64);
    proof { lemma_split_u128(s3); }
    let r: [u64; 4] = [s0 as u64, s1 as u64, s2 as u64, s3 as u64];
    (r, (s3 >> 64) != 0)
}


/// Subtracts `b` from `a`; the flag is the borrow out of the top limb.
pub fn sub_limbs(a: [u64; 4], b: [u64; 4]) -> (res: ([u64; 4], bool))
    ensures
        val4(res.0) == val4(a) - val4(b) + (if res.1 { modulus() } else { 0 }),
        res.1 == (val4(a) < val4(b)),
{
    // Each step computes a[i] + 2^64 - b[i] - borrow, which is never negative.
    let t0: u128 = a[0] as u128 + 0x1_0000_0000_0000_0000u128 - b[0] as u128;
    proof { lemma_split_u128(t0); }
    let t1: u128 = a[1] as u128 + 0x1_0000_0000_0000_0000u128 - b[1] as u128 - (1 - (t0 >> 64));
    proof { lemma_split_u128(t1); }
    let t2: u128 = a[2] as u128 + 0x1_0000_0000_0000_0000u128 - b[2] as u128 - (1 - (t1 >> 64));
    proof { lemma_split_u128(t2); }
    let t3: u128 = a[3] as u128 + 0x1_0000_0000_0000_0000u128 - b[3] as u128 - (1 - (t2 >> 64));
    proof { lemma_split_u128(t3); }
    let r: [u64; 4] = [t0 as u64, t1 as u64, t2 as u64, t3 as u64];
    (r, (t3 >> 64) == 0)
}

/// One multiply-accumulate step: `acc + x * y + carry` split into a low and a high limb.
pub fn mac(acc: u64, x: u64, y: u64, carry: u64) -> (res: (u64, u64))
    ensures
        res.0 + res.1 * b1() == acc + x * y + carry,
{
    proof {
        vstd::arithmetic::mul::lemma_mul_upper_bound(
            x as int,
            0xffff_ffff_ffff_ffff,
            y as int,
            0xffff_ffff_ffff_ffff,
        );
    }
    let t: u128 = acc as u128 + (x as u128) * (y as u128) + carry as u128;
    proof { lemma_split_u128(t); }
    (t as u64, (t >> 64) as u64)
}

proof fn lemma_distribute4(x: int, b0: int, b1v: int, b2v: int, b3v: int)
    by (nonlinear_arith)
    ensures
        x * (b0 + b1v * b1() + b2v * b2() + b3v * b3()) == x * b0 + (x * b1v) * b1() + (x * b2v) * b2() + (x * b3v) * b3(),
{
}

/// Adds `x * b` to `acc`; the result is five limbs: four returned in place and the top one beside.
pub fn mul_add_row(x: u64, b: [u64; 4], acc: [u64; 4]) -> (res: ([u64; 4], u64))
    ensures
        val4(res.0) + res.1 * modulus() == val4(acc) + x * val4(b),
{
    let (r0, c0) = mac(acc[0], x, b[0], 0);
    let (r1, c1) = mac(acc[1], x, b[1], c0);
    let (r2, c2) = mac(acc[2], x, b[2], c1);
    let (r3, c3) = mac(acc[3], x, b[3], c2);
    proof { lemma_distribute4(x as int, b[0] as int, b[1] as int, b[2] as int, b[3] as int); }
    ([r0, r1, r2, r3], c3)
}

/// The number denoted by eight limbs: the low half and the high half of a product.
pub open spec fn val8(lo: [u64; 4], hi: [u64; 4]) -> nat {
    val4(lo) + val4(hi) * modulus()
}

proof fn lemma_distribute_rows(a0: int, a1: int, a2: int, a3: int, v: int)
    by (nonlinear_arith)
    ensures
        (a0 + a1 * b1() + a2 * b2() + a3 * b3()) * v == a0 * v + (a1 * v) * b1() + (a2 * v) * b2() + (a3 * v) * b3(),
{
}

/// The full 512-bit product of two limb arrays, as a low and a high half.
pub fn mul_wide(a: [u64; 4], b: [u64; 4]) -> (res: ([u64; 4], [u64; 4]))
    ensures
        val8(res.0, res.1) == val4(a) * val4(b),
{
    let (p0, h0) = mul_add_row(a[0], b, [0, 0, 0, 0]);
    let (p1, h1) = mul_add_row(a[1], b, [p0[1], p0[2], p0[3], h0]);
    let (p2, h2) = mul_add_row(a[2], b, [p1[1], p1[2], p1[3], h1]);
    let (p3, h3) = mul_add_row(a[3], b, [p2[1], p2[2], p2[3], h2]);
    proof {
        lemma_distribute_rows(a[0] as int, a[1] as int, a[2] as int, a[3] as int, val4(b) as int);
    }
    ([p0[0], p1[0], p2[0], p3[0]], [p3[1], p3[2], p3[3], h3])
}


/// Multiplies by 2^(64k), keeping the value modulo 2^256.
pub fn shl_words(a: [u64; 4], k: usize) -> (r: [u64; 4])
    requires
        k < 4,
    ensures
        val4(r) == (val4(a) * pow2(64 * k as nat)) % modulus(),
{
    proof { lemma_pow2_limb_weights(); vstd::arithmetic::power2::lemma2_to64(); }
    if k == 0 {
        assert(pow2(64 * k as nat) == 1);
        proof { lemma_fundamental_div_mod_converse(val4(a) as int, modulus() as int, 0, val4(a) as int); }
        a
    } else if k == 1 {
        let r: [u64; 4] = [0, a[0], a[1], a[2]];
        assert(pow2(64 * k as nat) == b1());
        proof { lemma_fundamental_div_mod_converse((val4(a) * b1()) as int, modulus() as int, a[3] as int, val4(r) as int); }
        r
    } else if k == 2 {
        let r: [u64; 4] = [0, 0, a[0], a[1]];
        assert(pow2(64 * k as nat) == b2());
        proof { lemma_fundamental_div_mod_converse((val4(a) * b2()) as int, modulus() as int, a[2] + a[3] * b1(), val4(r) as int); }
        r
    } else {
        let r: [u64; 4] = [0, 0, 0, a[0]];
        assert(pow2(64 * k as nat) == b3());
        proof { lemma_fundamental_div_mod_converse((val4(a) * b3()) as int, modulus() as int, a[1] + a[2] * b1() + a[3] * b2(), val4(r) as int); }
        r
    }
}

/// Divides by 2^(64k), rounding down.
pub fn shr_words(a: [u64; 4], k: usize) -> (r: [u64; 4])
    requires
        k < 4,
    ensures
        val4(r) == val4(a) / pow2(64 * k as nat),
{
    proof { lemma_pow2_limb_weights(); vstd::arithmetic::power2::lemma2_to64(); }
    if k == 0 {
        proof { lemma_fundamental_div_mod_converse(val4(a) as int, 1, val4(a) as int, 0); }
        a
    } else if k == 1 {
        let r: [u64; 4] = [a[1], a[2], a[3], 0];
        proof { lemma_fundamental_div_mod_converse(val4(a) as int, b1() as int, val4(r) as int, a[0] as int); }
        r
    } else if k == 2 {
        let r: [u64; 4] = [a[2], a[3], 0, 0];
        proof { lemma_fundamental_div_mod_converse(val4(a) as int, b2() as int, val4(r) as int, a[0] + a[1] * b1()); }
        r
    } else {
        let r: [u64; 4] = [a[3], 0, 0, 0];
        proof { lemma_fundamental_div_mod_converse(val4(a) as int, b3() as int, val4(r) as int, a[0] + a[1] * b1() + a[2] * b2()); }
        r
    }
}

/// 2^s as a limb, for s < 64.
fn pow2_limb(s: u64) -> (m: u64)
    requires
        s < 64,
    ensures
        m == pow2(s as nat),
{
    proof {
        lemma_u64_pow2_no_overflow(s as nat);
        lemma_u64_shl_is_mul(1, s);
    }
    1u64 << s
}

/// Multiplies by 2^s for s < 64, keeping the value modulo 2^256.
pub fn shl_bits(a: [u64; 4], s: u64) -> (r: [u64; 4])
    requires
        s < 64,
    ensures
        val4(r) == (val4(a) * pow2(s as nat)) % modulus(),
{
    let m = pow2_limb(s);
    let (p, h) = mul_add_row(m, a, [0, 0, 0, 0]);
    proof {
        assert(val4(p) + h * modulus() == val4(a) * m) by (nonlinear_arith)
            requires val4(p) + h * modulus() == val4([0u64, 0u64, 0u64, 0u64]) + m * val4(a), val4([0u64, 0u64, 0u64, 0u64]) == 0;
        lemma_fundamental_div_mod_converse((val4(a) * m) as int, modulus() as int, h as int, val4(p) as int);
    }
    p
}

/// Divides by 2^s for 0 < s < 64, rounding down.
pub fn shr_bits(a: [u64; 4], s: u64) -> (r: [u64; 4])
    requires
        0 < s < 64,
    ensures
        val4(r) == val4(a) / pow2(s as nat),
{
    // Multiplying by 2^(64 - s) and dropping the lowest limb divides by 2^s.
    let m = pow2_limb(64 - s);
    let (p, h) = mul_add_row(m, a, [0, 0, 0, 0]);
    let r: [u64; 4] = [p[1], p[2], p[3], h];
    proof {
        let v = val4(a) as int;
        let c = pow2((64 - s) as nat) as int;
        let d = pow2(s as nat) as int;
        lemma_pow2_limb_weights();
        lemma_pow2_adds(s as nat, (64 - s) as nat);
        lemma_pow2_pos(s as nat);
        lemma_pow2_pos((64 - s) as nat);
        assert(val4(p) + h * modulus() == v * c) by (nonlinear_arith)
            requires val4(p) + h * modulus() == val4([0u64, 0u64, 0u64, 0u64]) + m * val4(a), val4([0u64, 0u64, 0u64, 0u64]) == 0, m == c, v == val4(a);
        assert(v * c == val4(r) * b1() + p[0]);
        lemma_fundamental_div_mod_converse(v * c, b1() as int, val4(r) as int, p[0] as int);
        // (v * c) / (c * d) == (v * c / c) / d == v / d
        lemma_div_denominator(v * c, c, d);
        lemma_mul_is_associative(v, c, 1);
        lemma_div_multiples_vanish(v, c);
        assert(c * d == b1());
        assert(v * c == c * v) by (nonlinear_arith);
    }
    r
}


/// Multiplies by 2^s, keeping the value modulo 2^256 (zero once s reaches 256).
pub fn shl_limbs(a: [u64; 4], s: usize) -> (r: [u64; 4])
    ensures
        val4(r) == (val4(a) * pow2(s as nat)) % modulus(),
{
    proof { lemma_pow2_limb_weights(); }
    if s >= 256 {
        proof {
            let p = pow2((s - 256) as nat);
            lemma_pow2_adds(256, (s - 256) as nat);
            lemma_mul_is_associative(val4(a) as int, modulus() as int, p as int);
            assert(val4(a) * (modulus() * p) == (val4(a) * p) * modulus()) by (nonlinear_arith);
            lemma_mod_multiples_basic((val4(a) * p) as int, modulus() as int);
            assert(val4([0u64, 0u64, 0u64, 0u64]) == 0);
        }
        [0, 0, 0, 0]
    } else {
        let k: usize = s / 64;
        let b: u64 = (s % 64) as u64;
        let t = shl_words(a, k);
        let r = shl_bits(t, b);
        proof {
            let x = val4(a) * pow2(64 * k as nat);
            lemma_mul_mod_noop_left(x as int, pow2(b as nat) as int, modulus() as int);
            lemma_pow2_adds(64 * k as nat, b as nat);
            lemma_mul_is_associative(val4(a) as int, pow2(64 * k as nat) as int, pow2(b as nat) as int);
        }
        r
    }
}

/// Divides by 2^s, rounding down (zero once s reaches 256).
pub fn shr_limbs(a: [u64; 4], s: usize) -> (r: [u64; 4])
    ensures
        val4(r) == val4(a) / pow2(s as nat),
{
    proof { lemma_pow2_limb_weights(); }
    if s >= 256 {
        proof {
            if s > 256 {
                lemma_pow2_strictly_increases(256, s as nat);
            }
            lemma_basic_div(val4(a) as int, pow2(s as nat) as int);
            assert(val4([0u64, 0u64, 0u64, 0u64]) == 0);
        }
        [0, 0, 0, 0]
    } else {
        let k: usize = s / 64;
        let b: u64 = (s % 64) as u64;
        let t = shr_words(a, k);
        proof {
            lemma_pow2_adds(64 * k as nat, b as nat);
            lemma_pow2_pos(64 * k as nat);
            lemma_pow2_pos(b as nat);
            lemma_div_denominator(val4(a) as int, pow2(64 * k as nat) as int, pow2(b as nat) as int);
        }
        if b == 0 {
            proof { vstd::arithmetic::power2::lemma2_to64(); }
            t
        } else {
            shr_bits(t, b)
        }
    }
}

/// For a positive divisor, a quotient is zero exactly when the dividend is smaller.
pub proof fn lemma_div_zero_iff(x: nat, d: nat)
    requires
        d > 0,
    ensures
        (x / d == 0) == (x < d),
{
    if x < d {
        lemma_basic_div(x as int, d as int);
    } else {
        lemma_div_is_ordered(d as int, x as int, d as int);
        lemma_div_by_self(d as int);
    }
}

/// `n` is the number of bits needed to write `v`: the least `n` with `v < 2^n`.
pub open spec fn is_bit_length(v: nat, n: nat) -> bool {
    &&& v < pow2(n)
    &&& (n == 0 || pow2((n - 1) as nat) <= v)
}

/// The number of bits needed to write one limb.
pub fn limb_bit_len(x: u64) -> (n: u64)
    ensures
        n <= 64,
        is_bit_length(x as nat, n as nat),
{
    let mut n: u64 = 0;
    let mut y: u64 = x;
    proof { vstd::arithmetic::power2::lemma2_to64(); }
    while y != 0
        invariant
            n <= 64,
            y == x as nat / pow2(n as nat),
            n > 0 ==> pow2((n - 1) as nat) <= x,
        decreases y,
    {
        proof {
            lemma_pow2_pos(n as nat);
            lemma_div_zero_iff(x as nat, pow2(n as nat));
            if n == 64 {
                vstd::arithmetic::power2::lemma2_to64();
            }
            lemma_u64_shr_is_div(y, 1);
            vstd::arithmetic::power2::lemma2_to64();
            lemma_div_denominator(x as int, pow2(n as nat) as int, 2);
            lemma_pow2_adds(n as nat, 1);
        }
        y = y >> 1;
        n = n + 1;
    }
    proof {
        lemma_pow2_pos(n as nat);
        lemma_div_zero_iff(x as nat, pow2(n as nat));
    }
    n
}

proof fn lemma_top_limb_bits(v: nat, lower: nat, l: nat, w: nat, bl: nat)
    requires
        v == lower + l * pow2(w),
        lower < pow2(w),
        is_bit_length(l, bl),
        l > 0,
    ensures
        is_bit_length(v, w + bl),
{
    lemma_pow2_adds(w, bl);
    lemma_pow2_pos(w);
    assert(bl > 0) by {
        if bl == 0 {
            vstd::arithmetic::power2::lemma2_to64();
        }
    }
    lemma_pow2_adds(w, (bl - 1) as nat);
    let p = pow2(w);
    assert(v < pow2(w) * pow2(bl)) by (nonlinear_arith)
        requires v == lower + l * p, lower < p, l < pow2(bl), p == pow2(w);
    assert(pow2(w) * pow2((bl - 1) as nat) <= v) by (nonlinear_arith)
        requires v == lower + l * p, pow2((bl - 1) as nat) <= l, p == pow2(w);
    assert((w + bl - 1) as nat == w + (bl - 1) as nat);
}

/// The number of bits needed to write the value of a limb array.
pub fn bit_len_limbs(a: [u64; 4]) -> (n: usize)
    ensures
        n <= 256,
        is_bit_length(val4(a), n as nat),
{
    proof { lemma_pow2_limb_weights(); vstd::arithmetic::power2::lemma2_to64(); }
    if a[3] != 0 {
        let n = limb_bit_len(a[3]);
        proof { lemma_top_limb_bits(val4(a), (a[0] + a[1] * b1() + a[2] * b2()) as nat, a[3] as nat, 192, n as nat); }
        192 + n as usize
    } else if a[2] != 0 {
        let n = limb_bit_len(a[2]);
        proof { lemma_top_limb_bits(val4(a), (a[0] + a[1] * b1()) as nat, a[2] as nat, 128, n as nat); }
        128 + n as usize
    } else if a[1] != 0 {
        let n = limb_bit_len(a[1]);
        proof { lemma_top_limb_bits(val4(a), a[0] as nat, a[1] as nat, 64, n as nat); }
        64 + n as usize
    } else {
        let n = limb_bit_len(a[0]);
        n as usize
    }
}


proof fn lemma_shifted_divisor_fits(vb: nat, bl: nat, i: nat)
    requires
        vb < pow2(bl),
        i + bl <= 256,
    ensures
        vb * pow2(i) < modulus(),
{
    lemma_pow2_limb_weights();
    lemma_pow2_adds(bl, i);
    lemma_pow2_pos(i);
    if i + bl < 256 {
        lemma_pow2_strictly_increases(i + bl, 256);
    }
    assert(vb * pow2(i) < pow2(bl) * pow2(i)) by (nonlinear_arith)
        requires vb < pow2(bl), pow2(i) > 0;
}

proof fn lemma_div_step(va: int, vq: int, vb: int, vr: int, p: int)
    by (nonlinear_arith)
    requires
        va == vq * vb + vr,
        vr < vb * (2 * p),
        vb * p <= vr,
        p > 0,
        vb > 0,
        vq >= 0,
    ensures
        va == (vq + p) * vb + (vr - vb * p),
        vr - vb * p < vb * p,
        vq + p <= (vq + p) * vb,
{
}

/// Quotient and remainder of `a` by a nonzero `b`, by restoring binary long division.
pub fn div_rem_limbs(a: [u64; 4], b: [u64; 4]) -> (res: ([u64; 4], [u64; 4]))
    requires
        val4(b) != 0,
    ensures
        val4(res.0) == val4(a) / val4(b),
        val4(res.1) == val4(a) % val4(b),
{
    let bl = bit_len_limbs(b);
    let ghost va = val4(a) as int;
    let ghost vb = val4(b) as int;
    let mut q: [u64; 4] = [0, 0, 0, 0];
    let mut r: [u64; 4] = a;
    let mut i: usize = 257 - bl;
    proof {
        lemma_pow2_limb_weights();
        assert(bl >= 1) by {
            if bl == 0 { vstd::arithmetic::power2::lemma2_to64(); }
        }
        lemma_pow2_adds((bl - 1) as nat, (257 - bl) as nat);
        assert(vb * pow2(i as nat) >= modulus()) by (nonlinear_arith)
            requires vb >= pow2((bl - 1) as nat), pow2((bl - 1) as nat) * pow2(i as nat) == modulus();
        assert(val4(q) == 0);
        assert(val4(q) * vb == 0) by (nonlinear_arith) requires val4(q) == 0;
    }
    while i > 0
        invariant
            1 <= bl <= 256,
            i <= 257 - bl,
            va == val4(a),
            vb == val4(b),
            is_bit_length(vb as nat, bl as nat),
            va == val4(q) * vb + val4(r),
            val4(r) < vb * pow2(i as nat),
        decreases i,
    {
        i = i - 1;
        proof {
            lemma_shifted_divisor_fits(vb as nat, bl as nat, i as nat);
            lemma_small_mod((vb * pow2(i as nat)) as nat, modulus());
            lemma_pow2_adds(i as nat, 1);
            vstd::arithmetic::power2::lemma2_to64();
            lemma_pow2_pos(i as nat);
        }
        let d = shl_limbs(b, i);
        let (diff, borrow) = sub_limbs(r, d);
        if !borrow {
            let p = shl_limbs([1, 0, 0, 0], i);
            proof {
                lemma_div_step(va, val4(q) as int, vb, val4(r) as int, pow2(i as nat) as int);
                assert(val4([1u64, 0u64, 0u64, 0u64]) == 1);
                lemma_pow2_strictly_increases(i as nat, 256);
                lemma_small_mod(pow2(i as nat), modulus());
                assert(val4([1u64, 0u64, 0u64, 0u64]) * pow2(i as nat) == pow2(i as nat));
                assert(val4(p) == pow2(i as nat));
            }
            let ghost vq = val4(q) as int;
            let ghost pi = pow2(i as nat) as int;
            let (nq, carry) = add_limbs(q, p);
            proof {
                assert(val4(p) == pi);
                assert(val4(diff) == val4(r) - vb * pi);
                assert(vq + pi <= (vq + pi) * vb);
                assert((vq + pi) * vb + (val4(r) - vb * pi) == va);
                assert(vq + pi < modulus());
                assert(!carry);
                assert(val4(nq) == vq + pi);
            }
            q = nq;
            r = diff;
        }
    }
    proof {
        vstd::arithmetic::power2::lemma2_to64();
        assert(vb * pow2(0) == vb);
        lemma_fundamental_div_mod_converse(va, vb, val4(q) as int, val4(r) as int);
    }
    (q, r)
}


/// The low half of the product: multiplication modulo 2^256.
pub fn mul_low(a: [u64; 4], b: [u64; 4]) -> (r: [u64; 4])
    ensures
        val4(r) == (val4(a) * val4(b)) % modulus(),
{
    let (lo, hi) = mul_wide(a, b);
    proof {
        lemma_fundamental_div_mod_converse((val4(a) * val4(b)) as int, modulus() as int, val4(hi) as int, val4(lo) as int);
    }
    lo
}

/// The product modulo 2^256, and whether the exact product reaches 2^256.
pub fn mul_overflowing(a: [u64; 4], b: [u64; 4]) -> (res: ([u64; 4], bool))
    ensures
        val4(res.0) == (val4(a) * val4(b)) % modulus(),
        res.1 == (val4(a) * val4(b) >= modulus()),
{
    let (lo, hi) = mul_wide(a, b);
    proof {
        lemma_fundamental_div_mod_converse((val4(a) * val4(b)) as int, modulus() as int, val4(hi) as int, val4(lo) as int);
    }
    let over = hi[0] != 0 || hi[1] != 0 || hi[2] != 0 || hi[3] != 0;
    (lo, over)
}

/// The value modulo a divisor of 2^64 is the lowest limb modulo that divisor.
pub proof fn lemma_val4_low_digit(t: [u64; 4], d: int, c: int)
    requires
        d > 0,
        c > 0,
        d * c == b1(),
    ensures
        (val4(t) as int) % d == (t[0] as int) % d,
{
    let k = c * t[1] + c * b1() * t[2] + c * b2() * t[3];
    assert(val4(t) == t[0] + d * k) by (nonlinear_arith)
        requires d * c == b1(), k == c * t[1] + c * b1() * t[2] + c * b2() * t[3], b2() == b1() * b1(), b3() == b2() * b1(),
            val4(t) == t[0] + t[1] * b1() + t[2] * b2() + t[3] * b3();
    let t0 = t[0] as int;
    lemma_fundamental_div_mod(t0, d);
    vstd::arithmetic::div_mod::lemma_mod_bound(t0, d);
    assert(val4(t) == d * (t0 / d + k) + t0 % d) by (nonlinear_arith)
        requires val4(t) == t0 + d * k, t0 == d * (t0 / d) + t0 % d;
    lemma_fundamental_div_mod_converse(val4(t) as int, d, t0 / d + k, t0 % d);
}

/// Whether the value is odd.
pub fn low_bit(a: [u64; 4]) -> (r: bool)
    ensures
        r == (val4(a) % 2 == 1),
{
    let x: u64 = a[0] & 1;
    proof {
        let a0 = a[0];
        assert(a0 & 1 == a0 % 2) by (bit_vector);
        lemma_val4_low_digit(a, 2, 0x8000_0000_0000_0000);
    }
    x == 1
}

proof fn lemma_halving(e: nat, i: nat)
    ensures
        e / pow2(i) == 2 * (e / pow2(i + 1)) + (e / pow2(i)) % 2,
{
    lemma_pow2_pos(i);
    lemma_pow2_adds(i, 1);
    vstd::arithmetic::power2::lemma2_to64();
    lemma_div_denominator(e as int, pow2(i) as int, 2);
    lemma_fundamental_div_mod((e / pow2(i)) as int, 2);
}

proof fn lemma_pow_step(b: int, e: nat, bit: nat, acc: int, m: int)
    requires
        m > 0,
        acc == pow(b, e) % m,
        bit < 2,
    ensures
        (if bit == 1 { (((acc * acc) % m) * b) % m } else { (acc * acc) % m }) == pow(b, 2 * e + bit) % m,
{
    lemma_pow_adds(b, e, e);
    lemma_mul_mod_noop(pow(b, e), pow(b, e), m);
    if bit == 1 {
        lemma_pow_adds(b, 2 * e, 1);
        lemma_pow1(b);
        lemma_mul_mod_noop_left(pow(b, e) * pow(b, e), b, m);
        assert((2 * e + bit) as nat == 2 * e + 1);
    } else {
        assert((2 * e + bit) as nat == e + e);
    }
}

/// `base` raised to `exp`, modulo 2^256, by square-and-multiply over the bits of `exp`.
pub fn pow_limbs(base: [u64; 4], exp: [u64; 4]) -> (r: [u64; 4])
    ensures
        val4(r) == pow(val4(base) as int, val4(exp)) % (modulus() as int),
{
    let n = bit_len_limbs(exp);
    let ghost vb = val4(base) as int;
    let ghost ve = val4(exp);
    let mut acc: [u64; 4] = [1, 0, 0, 0];
    let mut i: usize = n;
    proof {
        lemma_pow2_pos(n as nat);
        lemma_basic_div(ve as int, pow2(n as nat) as int);
        lemma_pow0(vb);
        lemma_small_mod(1, modulus());
    }
    while i > 0
        invariant
            i <= n <= 256,
            vb == val4(base),
            ve == val4(exp),
            val4(acc) == pow(vb, ve / pow2(i as nat)) % (modulus() as int),
        decreases i,
    {
        i = i - 1;
        proof {
            lemma_halving(ve, i as nat);
            assert((i + 1) as nat == i as nat + 1);
        }
        let t = shr_limbs(exp, i);
        let bit = low_bit(t);
        let sq = mul_low(acc, acc);
        if bit {
            acc = mul_low(sq, base);
        } else {
            acc = sq;
        }
        proof {
            let e = ve / pow2((i + 1) as nat);
            let bt: nat = if bit { 1 } else { 0 };
            lemma_pow_step(vb, e, bt, pow(vb, e) % (modulus() as int), modulus() as int);
            assert(ve / pow2(i as nat) == 2 * e + bt);
        }
    }
    proof {
        vstd::arithmetic::power2::lemma2_to64();
        assert(ve / pow2(0) == ve);
    }
    acc
}

/// `(x + y) mod m` for operands already below a nonzero `m`.
pub fn add_mod_reduced(x: [u64; 4], y: [u64; 4], m: [u64; 4]) -> (r: [u64; 4])
    requires
        val4(x) < val4(m),
        val4(y) < val4(m),
    ensures
        val4(r) == (val4(x) + val4(y)) % val4(m),
        val4(r) < val4(m),
{
    let (s, carry) = add_limbs(x, y);
    let (d, borrow) = sub_limbs(s, m);
    let ghost t = val4(x) + val4(y);
    if carry || !borrow {
        proof { lemma_fundamental_div_mod_converse(t as int, val4(m) as int, 1, t - val4(m)); }
        d
    } else {
        proof { lemma_fundamental_div_mod_converse(t as int, val4(m) as int, 0, t as int); }
        s
    }
}

/// `(a + b) mod m`, computed without losing the carry; zero when `m` is zero.
pub fn add_mod_limbs(a: [u64; 4], b: [u64; 4], m: [u64; 4]) -> (r: [u64; 4])
    ensures
        val4(m) == 0 ==> val4(r) == 0,
        val4(m) != 0 ==> val4(r) == (val4(a) + val4(b)) % val4(m),
{
    if m[0] == 0 && m[1] == 0 && m[2] == 0 && m[3] == 0 {
        [0, 0, 0, 0]
    } else {
        let (_qa, ra) = div_rem_limbs(a, m);
        let (_qb, rb) = div_rem_limbs(b, m);
        proof {
            lemma_add_mod_noop(val4(a) as int, val4(b) as int, val4(m) as int);
        }
        add_mod_reduced(ra, rb, m)
    }
}

proof fn lemma_mul_mod_step(x: int, e: nat, bit: nat, acc: int, m: int)
    requires
        m > 0,
        0 <= x < m,
        acc == (x * e) % m,
        bit < 2,
    ensures
        (if bit == 1 { ((acc + acc) % m + x) % m } else { (acc + acc) % m }) == (x * (2 * e + bit)) % m,
{
    lemma_add_mod_noop(x * e, x * e, m);
    lemma_small_mod(x as nat, m as nat);
    assert(x * e + x * e == x * (2 * e)) by (nonlinear_arith);
    if bit == 1 {
        lemma_add_mod_noop(x * (2 * e), x, m);
        lemma_small_mod(((x * (2 * e)) % m) as nat, m as nat);
        assert(x * (2 * e) + x == x * (2 * e + 1)) by (nonlinear_arith);
    }
}

/// `(a * b) mod m`, by doubling and adding over the bits of `b`; zero when `m` is zero.
pub fn mul_mod_limbs(a: [u64; 4], b: [u64; 4], m: [u64; 4]) -> (r: [u64; 4])
    ensures
        val4(m) == 0 ==> val4(r) == 0,
        val4(m) != 0 ==> val4(r) == (val4(a) * val4(b)) % val4(m),
{
    if m[0] == 0 && m[1] == 0 && m[2] == 0 && m[3] == 0 {
        return [0, 0, 0, 0];
    }
    let (_qa, x) = div_rem_limbs(a, m);
    let n = bit_len_limbs(b);
    let ghost vm = val4(m) as int;
    let ghost vx = val4(x) as int;
    let ghost vb = val4(b);
    let mut acc: [u64; 4] = [0, 0, 0, 0];
    let mut i: usize = n;
    proof {
        lemma_pow2_pos(n as nat);
        lemma_basic_div(vb as int, pow2(n as nat) as int);
        assert(vx * 0 == 0);
        lemma_small_mod(0, vm as nat);
    }
    while i > 0
        invariant
            i <= n <= 256,
            vm == val4(m),
            vm > 0,
            vx == val4(x),
            vx < vm,
            vb == val4(b),
            val4(acc) == (vx * (vb / pow2(i as nat))) % vm,
            val4(acc) < vm,
        decreases i,
    {
        i = i - 1;
        proof {
            lemma_halving(vb, i as nat);
            assert((i + 1) as nat == i as nat + 1);
        }
        let t = shr_limbs(b, i);
        let bit = low_bit(t);
        let dbl = add_mod_reduced(acc, acc, m);
        if bit {
            acc = add_mod_reduced(dbl, x, m);
        } else {
            acc = dbl;
        }
        proof {
            let e = vb / pow2((i + 1) as nat);
            let bt: nat = if bit { 1 } else { 0 };
            lemma_mul_mod_step(vx, e, bt, (vx * e) % vm, vm);
            assert(vb / pow2(i as nat) == 2 * e + bt);
        }
    }
    proof {
        vstd::arithmetic::power2::lemma2_to64();
        lemma_mul_mod_noop_left(val4(a) as int, vb as int, vm);
        assert(vb / pow2(0) == vb);
    }
    acc
}

/// Bitwise complement of every limb.
pub fn not_limbs(a: [u64; 4]) -> (r: [u64; 4])
    ensures
        val4(r) == modulus() - 1 - val4(a),
        r[0] == !a[0],
        r[1] == !a[1],
        r[2] == !a[2],
        r[3] == !a[3],
{
    proof {
        let (a0, a1, a2, a3) = (a[0], a[1], a[2], a[3]);
        assert(!a0 == 0xffff_ffff_ffff_ffffu64 - a0) by (bit_vector);
        assert(!a1 == 0xffff_ffff_ffff_ffffu64 - a1) by (bit_vector);
        assert(!a2 == 0xffff_ffff_ffff_ffffu64 - a2) by (bit_vector);
        assert(!a3 == 0xffff_ffff_ffff_ffffu64 - a3) by (bit_vector);
    }
    [!a[0], !a[1], !a[2], !a[3]]
}

/// The value read as a two's-complement signed integer.
pub open spec fn signed_val(v: nat) -> int {
    if v >= modulus() / 2 {
        v - modulus()
    } else {
        v as int
    }
}

proof fn lemma_floor_div_complement(y: int, d: int, m: int)
    requires
        d > 0,
        0 <= y < m,
    ensures
        ((-1 - y) / d) % m == m - 1 - y / d,
{
    let q = y / d;
    let rm = y % d;
    lemma_fundamental_div_mod(y, d);
    vstd::arithmetic::div_mod::lemma_mod_bound(y, d);
    assert(-1 - y == d * (-1 - q) + (d - 1 - rm)) by (nonlinear_arith)
        requires y == d * q + rm;
    lemma_fundamental_div_mod_converse(-1 - y, d, -1 - q, d - 1 - rm);
    vstd::arithmetic::div_mod::lemma_div_pos_is_pos(y, d);
    vstd::arithmetic::div_mod::lemma_div_is_ordered_by_denominator(y, 1, d);
    vstd::arithmetic::div_mod::lemma_div_basics(y);
    lemma_fundamental_div_mod_converse(-1 - q, m, -1, m - 1 - q);
}

proof fn lemma_floor_div_small(v: int, d: int, m: int)
    requires
        d > 0,
        0 <= v < m,
    ensures
        (v / d) % m == v / d,
{
    vstd::arithmetic::div_mod::lemma_div_pos_is_pos(v, d);
    vstd::arithmetic::div_mod::lemma_div_is_ordered_by_denominator(v, 1, d);
    vstd::arithmetic::div_mod::lemma_div_basics(v);
    lemma_small_mod((v / d) as nat, m as nat);
}

/// Shifts right by `s`, filling with copies of the top bit: floor division of the
/// two's-complement value by 2^s, taken modulo 2^256.
pub fn arithmetic_shr_limbs(a: [u64; 4], s: usize) -> (r: [u64; 4])
    ensures
        val4(r) == (signed_val(val4(a)) / pow2(s as nat) as int) % (modulus() as int),
{
    let top: u64 = a[3] >> 63;
    proof {
        let a3 = a[3];
        assert((a3 >> 63u64 == 1u64) == (a3 >= 0x8000_0000_0000_0000u64)) by (bit_vector);
        assert(a3 >> 63u64 <= 1u64) by (bit_vector);
        lemma_pow2_pos(s as nat);
    }
    if top == 0 {
        let r = shr_limbs(a, s);
        proof {
            lemma_floor_div_small(val4(a) as int, pow2(s as nat) as int, modulus() as int);
        }
        r
    } else {
        let na = not_limbs(a);
        let z = shr_limbs(na, s);
        let r = not_limbs(z);
        proof {
            lemma_floor_div_complement(val4(na) as int, pow2(s as nat) as int, modulus() as int);
        }
        r
    }
}

} // verus!
