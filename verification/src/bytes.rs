//! Big-endian byte encodings of 256-bit values.
use vstd::prelude::*;
use vstd::arithmetic::power2::{pow2, lemma_pow2_adds, lemma_pow2_pos, lemma_pow2_strictly_increases};
use vstd::arithmetic::div_mod::{lemma_div_denominator, lemma_fundamental_div_mod, lemma_fundamental_div_mod_converse, lemma_small_mod, lemma_basic_div};
use crate::spec::{modulus, val4, lemma_pow2_limb_weights};
use crate::limbs::{shr_limbs, shl_limbs, add_limbs, lemma_val4_low_digit};

verus! {

/// The number written by the first `k` bytes of `s`, most significant first.
pub open spec fn be_prefix(s: Seq<u8>, k: nat) -> nat
    decreases k,
{
    if k == 0 {
        0
    } else {
        be_prefix(s, (k - 1) as nat) * 256 + s[k - 1] as nat
    }
}

/// The number written by a big-endian byte string.
pub open spec fn be_value(s: Seq<u8>) -> nat {
    be_prefix(s, s.len())
}

/// Byte `j` (counting from the most significant) of the 32-byte big-endian encoding of `n`.
pub open spec fn be_byte(n: nat, j: int) -> u8 {
    ((n / pow2((8 * (31 - j)) as nat)) % 256) as u8
}

/// The 32-byte big-endian encoding of `n`.
pub open spec fn nat_to_be_bytes(n: nat) -> Seq<u8> {
    Seq::new(32, |j: int| be_byte(n, j))
}

/// The byte of `n` at little-endian position `i`.
pub open spec fn le_byte(n: nat, i: nat) -> nat {
    (n / pow2(8 * i)) % 256
}

/// A prefix of `k` bytes writes a number below 2^(8k).
pub proof fn lemma_be_prefix_bound(s: Seq<u8>, k: nat)
    requires
        k <= s.len(),
    ensures
        be_prefix(s, k) < pow2(8 * k),
    decreases k,
{
    vstd::arithmetic::power2::lemma2_to64();
    if k > 0 {
        lemma_be_prefix_bound(s, (k - 1) as nat);
        lemma_pow2_adds(8 * (k - 1) as nat, 8);
        let p = pow2(8 * (k - 1) as nat);
        assert(be_prefix(s, (k - 1) as nat) * 256 + (s[k - 1] as nat) < p * 256) by (nonlinear_arith)
            requires be_prefix(s, (k - 1) as nat) < p, s[k - 1] < 256;
        assert(8 * (k - 1) as nat + 8 == 8 * k);
    }
}

proof fn lemma_next_digit(n: nat, e: nat)
    ensures
        (n / pow2(e + 8)) * 256 + (n / pow2(e)) % 256 == n / pow2(e),
{
    vstd::arithmetic::power2::lemma2_to64();
    lemma_pow2_pos(e);
    lemma_pow2_adds(e, 8);
    lemma_div_denominator(n as int, pow2(e) as int, 256);
    lemma_fundamental_div_mod((n / pow2(e)) as int, 256);
}

proof fn lemma_be_prefix_of_encoding(n: nat, k: nat)
    requires
        n < modulus(),
        k <= 32,
    ensures
        be_prefix(nat_to_be_bytes(n), k) == n / pow2(8 * (32 - k) as nat),
    decreases k,
{
    if k == 0 {
        lemma_pow2_limb_weights();
        lemma_basic_div(n as int, modulus() as int);
    } else {
        lemma_be_prefix_of_encoding(n, (k - 1) as nat);
        let e = 8 * (32 - k) as nat;
        lemma_next_digit(n, e);
        assert(8 * (32 - (k - 1)) as nat == e + 8);
        assert(nat_to_be_bytes(n)[k - 1] == be_byte(n, k - 1));
        assert((8 * (31 - (k - 1))) as nat == e);
    }
}

/// Reading back the encoding of a value gives the value.
pub proof fn lemma_be_value_of_encoding(n: nat)
    requires
        n < modulus(),
    ensures
        be_value(nat_to_be_bytes(n)) == n,
{
    lemma_be_prefix_of_encoding(n, 32);
    vstd::arithmetic::power2::lemma2_to64();
    assert(nat_to_be_bytes(n).len() == 32);
    assert(n / pow2(0) == n);
}

proof fn lemma_be_prefix_shift(s: Seq<u8>, n: nat, k: nat)
    requires
        k <= n <= s.len(),
    ensures
        be_prefix(s, n) / pow2(8 * (n - k) as nat) == be_prefix(s, k),
    decreases n,
{
    vstd::arithmetic::power2::lemma2_to64();
    if n == k {
        assert(be_prefix(s, n) / pow2(0) == be_prefix(s, n));
        assert(8 * (n - k) as nat == 0);
    } else {
        let m = (n - 1) as nat;
        lemma_be_prefix_shift(s, m, k);
        let p = be_prefix(s, m);
        let e = 8 * (m - k) as nat;
        assert(be_prefix(s, m) / pow2(e) == be_prefix(s, k));
        assert(be_prefix(s, n) == p * 256 + s[m as int] as nat);
        lemma_fundamental_div_mod_converse(be_prefix(s, n) as int, 256, p as int, s[m as int] as int);
        lemma_pow2_pos(e);
        lemma_pow2_adds(8, e);
        lemma_div_denominator(be_prefix(s, n) as int, 256, pow2(e) as int);
        assert(8 + e == 8 * (n - k) as nat);
    }
}

/// Encoding the value of a 32-byte string gives back the string.
pub proof fn lemma_encoding_of_be_value(s: Seq<u8>)
    requires
        s.len() == 32,
    ensures
        nat_to_be_bytes(be_value(s)) == s,
{
    assert forall|j: int| 0 <= j < 32 implies #[trigger] nat_to_be_bytes(be_value(s))[j] == s[j] by {
        lemma_be_prefix_shift(s, 32, (j + 1) as nat);
        assert((8 * (31 - j)) as nat == 8 * (32 - (j + 1)) as nat);
        let p = be_prefix(s, j as nat);
        assert(be_prefix(s, (j + 1) as nat) == p * 256 + s[j] as nat);
        lemma_fundamental_div_mod_converse(be_prefix(s, (j + 1) as nat) as int, 256, p as int, s[j] as int);
    }
    assert(nat_to_be_bytes(be_value(s)) =~= s);
}

/// The byte of the value at little-endian position `i`, for `i < 32`.
pub fn byte_at(a: [u64; 4], i: usize) -> (r: u8)
    requires
        i < 32,
    ensures
        r == le_byte(val4(a), i as nat),
{
    let t = shr_limbs(a, 8 * i);
    let x: u64 = t[0] & 0xff;
    proof {
        let t0 = t[0];
        assert(t0 & 0xff == t0 % 256) by (bit_vector);
        lemma_val4_low_digit(t, 256, 0x100_0000_0000_0000);
    }
    x as u8
}

/// The 32-byte big-endian encoding of a limb array.
pub fn to_be_bytes_limbs(a: [u64; 4]) -> (r: [u8; 32])
    ensures
        r@ == nat_to_be_bytes(val4(a)),
{
    let mut r: [u8; 32] = [0u8; 32];
    let mut j: usize = 0;
    while j < 32
        invariant
            j <= 32,
            forall|k: int| 0 <= k < j ==> r@[k] == be_byte(val4(a), k),
        decreases 32 - j,
    {
        let b = byte_at(a, 31 - j);
        r[j] = b;
        j = j + 1;
    }
    assert(r@ =~= nat_to_be_bytes(val4(a)));
    r
}

/// The limb array whose value a 32-byte big-endian string writes.
pub fn from_be_bytes_limbs(bytes: [u8; 32]) -> (r: [u64; 4])
    ensures
        val4(r) == be_value(bytes@),
{
    let mut acc: [u64; 4] = [0, 0, 0, 0];
    let mut k: usize = 0;
    proof { lemma_pow2_limb_weights(); }
    while k < 32
        invariant
            k <= 32,
            val4(acc) == be_prefix(bytes@, k as nat),
        decreases 32 - k,
    {
        proof {
            lemma_be_prefix_bound(bytes@, k as nat);
            lemma_be_prefix_bound(bytes@, (k + 1) as nat);
            vstd::arithmetic::power2::lemma2_to64();
            lemma_pow2_adds(8 * k as nat, 8);
            assert(8 * k as nat + 8 == 8 * (k + 1) as nat);
            if k + 1 < 32 {
                lemma_pow2_strictly_increases(8 * (k + 1) as nat, 256);
            }
            lemma_pow2_limb_weights();
            lemma_small_mod(val4(acc) * 256, modulus());
        }
        let t = shl_limbs(acc, 8);
        let (s, _carry) = add_limbs(t, [bytes[k] as u64, 0, 0, 0]);
        acc = s;
        k = k + 1;
    }
    acc
}

} // verus!
