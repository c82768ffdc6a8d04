//! Text conversions: parsing through ruint's `FromStr`, and decimal rendering.
use vstd::prelude::*;
use core::str::FromStr;
use crate::spec::{val4, modulus};
use crate::uint::U256;

verus! {

/// ruint's parse error, carried through opaquely.
#[verifier::external_type_specification]
#[verifier::external_body]
pub struct ExParseError(ruint::ParseError);

/// The value of an ASCII digit or letter (`0`-`9`, then `a`-`z` or `A`-`Z` from 10);
/// `None` for any other character.
pub open spec fn char_digit(c: char) -> Option<nat> {
    let n = c as int;
    if 48 <= n <= 57 {
        Some((n - 48) as nat)
    } else if 97 <= n <= 122 {
        Some((n - 87) as nat)
    } else if 65 <= n <= 90 {
        Some((n - 55) as nat)
    } else {
        None
    }
}

/// The number written by the digits of `s` in base `radix`, most significant
/// first, with `_` skipped; `None` if some other character is not a digit below
/// `radix`. An empty string writes 0.
pub open spec fn digits_value(s: Seq<char>, radix: nat) -> Option<nat>
    decreases s.len(),
{
    if s.len() == 0 {
        Some(0)
    } else {
        match digits_value(s.drop_last(), radix) {
            None => None,
            Some(v) => if s.last() == '_' {
                Some(v)
            } else {
                match char_digit(s.last()) {
                    Some(d) => if d < radix { Some(v * radix + d) } else { None },
                    None => None,
                }
            },
        }
    }
}

/// The base a numeral is read in, and its digits: `0x`/`0X` selects 16,
/// `0o`/`0O` 8, `0b`/`0B` 2, and anything else is decimal.
pub open spec fn radix_and_digits(s: Seq<char>) -> (nat, Seq<char>) {
    if s.len() >= 2 && s[0] == '0' && (s[1] == 'x' || s[1] == 'X') {
        (16, s.skip(2))
    } else if s.len() >= 2 && s[0] == '0' && (s[1] == 'o' || s[1] == 'O') {
        (8, s.skip(2))
    } else if s.len() >= 2 && s[0] == '0' && (s[1] == 'b' || s[1] == 'B') {
        (2, s.skip(2))
    } else {
        (10, s)
    }
}

/// The number a string denotes as ruint's `FromStr` reads it, or `None` when
/// it holds a character that is not a digit of its base or `_`, or the number
/// does not fit in 256 bits.
pub open spec fn parse_numeral(s: Seq<char>) -> Option<nat> {
    let (radix, digits) = radix_and_digits(s);
    match digits_value(digits, radix) {
        Some(v) => if v < modulus() { Some(v) } else { None },
        None => None,
    }
}

/// Calls `FromStr::from_str` of `alloy_primitives::U256` (ruint's `Uint<256, 4>`)
/// and hands back its limbs. Claimed: the call succeeds exactly when
/// `parse_numeral` of the string is `Some`, and then the limbs denote that
/// number. What the error value holds is not stated.
#[verifier::external_body]
fn ruint_from_str(s: &str) -> (r: Result<[u64; 4], ruint::ParseError>)
    ensures
        r is Ok <==> parse_numeral(s@) is Some,
        r matches Ok(l) ==> parse_numeral(s@) == Some(val4(l)),
{
    match alloy_primitives::U256::from_str(s) {
        Ok(v) => Ok(*v.as_limbs()),
        Err(e) => Err(e),
    }
}

/// The error of parsing a 256-bit value from text: ruint's own description of the failure.
#[derive(Debug)]
pub struct ParseU256Error(pub ruint::ParseError);

impl U256 {
    /// Parses a decimal string, or a hexadecimal, octal or binary one after a
    /// `0x`, `0o` or `0b` prefix, as ruint does.
    pub fn from_str(s: &str) -> (r: Result<U256, ParseU256Error>)
        ensures
            r is Ok <==> parse_numeral(s@) is Some,
            r matches Ok(v) ==> parse_numeral(s@) == Some(v@),
    {
        match ruint_from_str(s) {
            Ok(limbs) => Ok(U256::from_limbs(limbs)),
            Err(e) => Err(ParseU256Error(e)),
        }
    }
}

impl FromStr for U256 {
    type Err = ParseU256Error;

    fn from_str(s: &str) -> (r: Result<Self, Self::Err>)
        ensures
            r is Ok <==> parse_numeral(s@) is Some,
            r matches Ok(v) ==> parse_numeral(s@) == Some(v@),
    {
        U256::from_str(s)
    }
}


/// `String::push` appends the given character to the end of the string.
pub assume_specification[ String::push ](s: &mut String, ch: char)
    ensures
        final(s)@ == old(s)@.push(ch),
;

/// The ASCII character of a digit below 36: `0`-`9`, then letters in the chosen case.
pub open spec fn digit_char(d: nat, upper: bool) -> char {
    if d < 10 {
        (d + 48) as char
    } else if upper {
        (d + 55) as char
    } else {
        (d + 87) as char
    }
}

/// The numeral of `n` in base `radix`, most significant digit first, without
/// leading zeros ("0" for zero).
pub open spec fn numeral(n: nat, radix: nat, upper: bool) -> Seq<char>
    decreases n,
{
    if radix < 2 || n < radix {
        seq![digit_char(n, upper)]
    } else {
        proof {
            vstd::arithmetic::div_mod::lemma_div_decreases(n as int, radix as int);
        }
        numeral(n / radix, radix, upper).push(digit_char(n % radix, upper))
    }
}

/// Digits stored least significant first, read most significant first.
spec fn digits_msb_first(ds: Seq<u8>, upper: bool) -> Seq<char> {
    Seq::new(ds.len(), |i: int| digit_char(ds[ds.len() - 1 - i] as nat, upper))
}

fn digit_to_char(d: u8, upper: bool) -> (c: char)
    requires
        d < 16,
    ensures
        c == digit_char(d as nat, upper),
{
    if d < 10 {
        (d + 48) as char
    } else if upper {
        (d + 55) as char
    } else {
        (d + 87) as char
    }
}

/// The numeral of `x` in base `radix` (10 or 16).
fn radix_string(x: U256, radix: u64, upper: bool) -> (r: String)
    requires
        radix == 10 || radix == 16,
    ensures
        r@ == numeral(x@, radix as nat, upper),
{
    let base = U256::from_limbs([radix, 0, 0, 0]);
    let ghost n = x@;
    let mut x: U256 = x;
    let mut ds: Vec<u8> = Vec::new();
    assert(digits_msb_first(ds@, upper) =~= Seq::<char>::empty());
    assert(numeral(n, radix as nat, upper) =~= numeral(x@, radix as nat, upper) + digits_msb_first(ds@, upper));
    while !(x < base)
        invariant
            base@ == radix,
            radix == 10 || radix == 16,
            numeral(n, radix as nat, upper) == numeral(x@, radix as nat, upper) + digits_msb_first(ds@, upper),
            forall|k: int| 0 <= k < ds@.len() ==> ds@[k] < radix,
        decreases x@,
    {
        let q = x.wrapping_div(base);
        let r = x.wrapping_rem(base);
        let d: u8 = r.as_limbs()[0] as u8;
        assert(d as nat == x@ % (radix as nat));
        let ghost old_ds = ds@;
        ds.push(d);
        assert(digits_msb_first(ds@, upper) =~= seq![digit_char(d as nat, upper)] + digits_msb_first(old_ds, upper));
        assert(numeral(x@, radix as nat, upper) == numeral(q@, radix as nat, upper).push(digit_char(x@ % (radix as nat), upper)));
        assert(numeral(q@, radix as nat, upper) + digits_msb_first(ds@, upper) =~= numeral(q@, radix as nat, upper).push(
            digit_char(x@ % (radix as nat), upper),
        ) + digits_msb_first(old_ds, upper));
        x = q;
    }
    let mut s = String::new();
    let d0: u8 = x.as_limbs()[0] as u8;
    assert(d0 as nat == x@);
    s.push(digit_to_char(d0, upper));
    let len = ds.len();
    let mut i: usize = len;
    assert(s@ =~= numeral(x@, radix as nat, upper) + digits_msb_first(ds@, upper).subrange(0, 0));
    while i > 0
        invariant
            i <= len,
            len == ds@.len(),
            radix == 10 || radix == 16,
            numeral(n, radix as nat, upper) == numeral(x@, radix as nat, upper) + digits_msb_first(ds@, upper),
            s@ == numeral(x@, radix as nat, upper) + digits_msb_first(ds@, upper).subrange(0, (len - i) as int),
            forall|k: int| 0 <= k < ds@.len() ==> ds@[k] < radix,
        decreases i,
    {
        i = i - 1;
        let c = ds[i];
        s.push(digit_to_char(c, upper));
        assert(digits_msb_first(ds@, upper)[(len - 1 - i) as int] == digit_char(c as nat, upper));
        assert(s@ =~= numeral(x@, radix as nat, upper) + digits_msb_first(ds@, upper).subrange(0, (len - i) as int));
    }
    assert(digits_msb_first(ds@, upper).subrange(0, len as int) =~= digits_msb_first(ds@, upper));
    s
}

impl U256 {
    /// The decimal representation of the value.
    pub fn to_string(&self) -> (r: String)
        ensures
            r@ == numeral(self@, 10, false),
    {
        radix_string(*self, 10, false)
    }

    /// The hexadecimal representation in lower case, without prefix.
    pub fn to_lower_hex_string(&self) -> (r: String)
        ensures
            r@ == numeral(self@, 16, false),
    {
        radix_string(*self, 16, false)
    }

    /// The hexadecimal representation in upper case, without prefix.
    pub fn to_upper_hex_string(&self) -> (r: String)
        ensures
            r@ == numeral(self@, 16, true),
    {
        radix_string(*self, 16, true)
    }
}


proof fn lemma_digit_char_reads_back(d: nat, upper: bool)
    requires
        d < 16,
    ensures
        char_digit(digit_char(d, upper)) == Some(d),
        digit_char(d, upper) != '_',
{
}

proof fn lemma_numeral_digits_value(n: nat, radix: nat, upper: bool)
    requires
        radix == 10 || radix == 16,
    ensures
        digits_value(numeral(n, radix, upper), radix) == Some(n),
    decreases n,
{
    if n < radix {
        lemma_digit_char_reads_back(n, upper);
        let s = numeral(n, radix, upper);
        assert(s =~= seq![digit_char(n, upper)]);
        assert(s.drop_last() =~= Seq::<char>::empty());
        assert(digits_value(s.drop_last(), radix) == Some(0nat));
        assert(s.last() == digit_char(n, upper));
    } else {
        vstd::arithmetic::div_mod::lemma_div_decreases(n as int, radix as int);
        lemma_numeral_digits_value(n / radix, radix, upper);
        vstd::arithmetic::div_mod::lemma_mod_bound(n as int, radix as int);
        lemma_digit_char_reads_back(n % radix, upper);
        let s = numeral(n, radix, upper);
        assert(s.drop_last() =~= numeral(n / radix, radix, upper));
        assert(s.last() == digit_char(n % radix, upper));
        vstd::arithmetic::div_mod::lemma_fundamental_div_mod(n as int, radix as int);
        assert((n / radix) * radix + n % radix == n) by (nonlinear_arith)
            requires n == radix * (n / radix) + n % radix;
    }
}

proof fn lemma_decimal_chars_are_digits(n: nat)
    ensures
        forall|i: int| 0 <= i < numeral(n, 10, false).len() ==> 48 <= #[trigger] (numeral(n, 10, false)[i] as int) <= 57,
    decreases n,
{
    if n >= 10 {
        vstd::arithmetic::div_mod::lemma_div_decreases(n as int, 10);
        lemma_decimal_chars_are_digits(n / 10);
        vstd::arithmetic::div_mod::lemma_mod_bound(n as int, 10);
        let s = numeral(n, 10, false);
        let t = numeral(n / 10, 10, false);
        assert forall|i: int| 0 <= i < s.len() implies 48 <= #[trigger] (s[i] as int) <= 57 by {
            if i < t.len() {
                assert(s[i] == t[i]);
            }
        }
    }
}

/// Reading back the decimal string of a value gives the value:
/// `from_str(&x.to_string())` is `Ok(x)`.
pub proof fn law_parse_decimal_string(x: U256)
    ensures
        parse_numeral(numeral(x@, 10, false)) == Some(x@),
{
    U256::lemma_bound(x);
    lemma_numeral_digits_value(x@, 10, false);
    lemma_decimal_chars_are_digits(x@);
    let s = numeral(x@, 10, false);
    if s.len() >= 2 {
        assert(48 <= (s[1] as int) <= 57);
    }
    assert(radix_and_digits(s) == (10nat, s));
}

/// Reading back `0x` followed by the hexadecimal string of a value gives the value.
pub proof fn law_parse_hex_string(x: U256, upper: bool)
    ensures
        parse_numeral(seq!['0', 'x'] + numeral(x@, 16, upper)) == Some(x@),
{
    U256::lemma_bound(x);
    lemma_numeral_digits_value(x@, 16, upper);
    let s = seq!['0', 'x'] + numeral(x@, 16, upper);
    assert(s.skip(2) =~= numeral(x@, 16, upper));
}

} // verus!
