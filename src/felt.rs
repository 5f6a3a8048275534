//! Elements of the Stark prime field, as the virtual machine's memory cells hold them.
use vstd::prelude::*;
use vstd::arithmetic::power2::pow2;
use crate::bignum::{digits_value, digits_from_u128, lemma_digits_push_zero};

verus! {

/// The field's modulus: 2^251 + 17 * 2^192 + 1.
pub open spec fn field_prime() -> nat {
    pow2(251) + 17 * pow2(192) + 1
}

/// A field element, read as the natural number below the modulus that it stands for.
/// Its digits carry no trailing zero, so equal elements have equal digits.
#[derive(Clone, Debug, PartialEq, Eq)]
pub struct Felt {
    pub digits: Vec<u32>,
}

impl View for Felt {
    type V = nat;

    open spec fn view(&self) -> nat {
        digits_value(self.digits@)
    }
}

impl Felt {
    pub open spec fn wf(&self) -> bool {
        &&& self@ < field_prime()
        &&& (self.digits@.len() > 0 ==> self.digits@.last() != 0)
    }

    /// The element that `digits` stand for, which must lie below the modulus.
    pub fn from_digits(digits: Vec<u32>) -> (r: Felt)
        requires
            digits_value(digits@) < field_prime(),
        ensures
            r.wf(),
            r@ == digits_value(digits@),
    {
        let mut d = digits;
        while d.len() > 0 && d[d.len() - 1] == 0
            invariant
                digits_value(d@) == digits_value(digits@),
            decreases d.len(),
        {
            let ghost before = d@;
            d.pop();
            proof {
                assert(before == d@.push(0));
                lemma_digits_push_zero(d@);
            }
        }
        Felt { digits: d }
    }

    /// The element with the value of a 128-bit natural.
    pub fn from_u128(x: u128) -> (r: Felt)
        ensures
            r.wf(),
            r@ == x as nat,
    {
        let d = digits_from_u128(x);
        proof {
            vstd::arithmetic::power2::lemma_pow2_strictly_increases(128, 251);
            vstd::arithmetic::power2::lemma_pow2_pos(192);
            vstd::arithmetic::power2::lemma2_to64();
            vstd::arithmetic::power2::lemma_pow2_adds(64, 64);
            assert(pow2(128) == 0x1_0000_0000_0000_0000 * 0x1_0000_0000_0000_0000nat);
        }
        Felt::from_digits(d)
    }

    /// The element's value as base 2^32 digits.
    pub fn to_digits(&self) -> (r: Vec<u32>)
        ensures
            digits_value(r@) == self@,
    {
        self.digits.clone()
    }

    /// A copy of the element.
    pub fn duplicate(&self) -> (r: Felt)
        ensures
            r.digits@ == self.digits@,
    {
        Felt { digits: self.digits.clone() }
    }

    /// Whether two elements are the same.
    pub fn same(&self, other: &Felt) -> (r: bool)
        ensures
            r == (self@ == other@),
    {
        crate::bignum::big_eq(&self.digits, &other.digits)
    }
}

} // verus!
