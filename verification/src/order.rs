//! Equality and ordering of 256-bit values, both by the numbers they denote.
use vstd::prelude::*;
use core::cmp::Ordering;
use crate::spec::{val4, lemma_val4_injective};
use crate::uint::U256;

verus! {

/// The ordering of two numbers.
pub open spec fn compare_nat(a: nat, b: nat) -> Ordering {
    if a < b {
        Ordering::Less
    } else if a == b {
        Ordering::Equal
    } else {
        Ordering::Greater
    }
}

impl U256 {
    /// Three-way comparison, from the most significant limb downward.
    pub fn cmp(&self, other: &Self) -> (r: Ordering)
        ensures
            r == compare_nat(self@, other@),
            (r == Ordering::Less) == (self@ < other@),
            (r == Ordering::Equal) == (self@ == other@),
            (r == Ordering::Greater) == (self@ > other@),
    {
        let a = self.as_limbs();
        let b = other.as_limbs();
        proof {
            if val4(*a) == val4(*b) {
                lemma_val4_injective(*a, *b);
            }
        }
        if a[3] != b[3] {
            if a[3] < b[3] { Ordering::Less } else { Ordering::Greater }
        } else if a[2] != b[2] {
            if a[2] < b[2] { Ordering::Less } else { Ordering::Greater }
        } else if a[1] != b[1] {
            if a[1] < b[1] { Ordering::Less } else { Ordering::Greater }
        } else if a[0] != b[0] {
            if a[0] < b[0] { Ordering::Less } else { Ordering::Greater }
        } else {
            Ordering::Equal
        }
    }
}

impl PartialEq for U256 {
    fn eq(&self, other: &Self) -> (r: bool) {
        let a = self.as_limbs();
        let b = other.as_limbs();
        proof {
            if val4(*a) == val4(*b) {
                lemma_val4_injective(*a, *b);
            }
        }
        a[0] == b[0] && a[1] == b[1] && a[2] == b[2] && a[3] == b[3]
    }
}

impl vstd::std_specs::cmp::PartialEqSpecImpl for U256 {
    open spec fn obeys_eq_spec() -> bool {
        true
    }

    open spec fn eq_spec(&self, other: &U256) -> bool {
        self@ == other@
    }
}

impl Eq for U256 {
}

impl PartialOrd for U256 {
    fn partial_cmp(&self, other: &Self) -> (r: Option<Ordering>) {
        Some(self.cmp(other))
    }
}

impl vstd::std_specs::cmp::PartialOrdSpecImpl for U256 {
    open spec fn obeys_partial_cmp_spec() -> bool {
        true
    }

    open spec fn partial_cmp_spec(&self, other: &U256) -> Option<Ordering> {
        Some(compare_nat(self@, other@))
    }
}


/// Comparison is antisymmetric: `a < b` exactly when `b > a`, and equality is symmetric.
pub proof fn law_cmp_antisymmetric(a: U256, b: U256)
    ensures
        (compare_nat(a@, b@) == Ordering::Less) == (compare_nat(b@, a@) == Ordering::Greater),
        (compare_nat(a@, b@) == Ordering::Equal) == (compare_nat(b@, a@) == Ordering::Equal),
{
}

/// Comparison is transitive.
pub proof fn law_cmp_transitive(a: U256, b: U256, c: U256)
    requires
        compare_nat(a@, b@) == Ordering::Less,
        compare_nat(b@, c@) == Ordering::Less,
    ensures
        compare_nat(a@, c@) == Ordering::Less,
{
}

/// Two values compare equal exactly when they are the same value, limb for limb.
pub proof fn law_cmp_equal_is_identity(a: U256, b: U256)
    ensures
        (compare_nat(a@, b@) == Ordering::Equal) == (a == b),
        (a == b) == (a.limbs() == b.limbs()),
{
    U256::lemma_view_injective(a, b);
    U256::lemma_limbs(a);
    U256::lemma_limbs(b);
}


/// Comparison is the order of the numbers the values denote: `Less` exactly when
/// the first is smaller, `Equal` exactly when they are equal, `Greater` exactly when
/// the first is larger.
pub proof fn law_cmp_is_numeric_order(a: U256, b: U256)
    ensures
        (compare_nat(a@, b@) == Ordering::Less) == (a@ < b@),
        (compare_nat(a@, b@) == Ordering::Equal) == (a@ == b@),
        (compare_nat(a@, b@) == Ordering::Greater) == (a@ > b@),
{
}

} // verus!
