//! Arbitrary-precision naturals held as little-endian base 2^32 digits.
//! The arithmetic itself is done by num-bigint.
use vstd::prelude::*;
use vstd::arithmetic::power2::pow2;
use num_bigint::BigUint;
use num_integer::Integer;
use num_traits::Zero;

verus! {

/// The natural number that little-endian base 2^32 digits stand for.
pub open spec fn digits_value(s: Seq<u32>) -> nat
    decreases s.len(),
{
    if s.len() == 0 {
        0
    } else {
        digits_value(s.drop_last()) + s.last() as nat * pow2((32 * (s.len() - 1)) as nat)
    }
}

/// Relies on `Add` for `BigUint` (num-bigint): the exact sum.
#[verifier::external_body]
pub(crate) fn big_add(a: &Vec<u32>, b: &Vec<u32>) -> (r: Vec<u32>)
    ensures
        digits_value(r@) == digits_value(a@) + digits_value(b@),
{
    (BigUint::from_slice(a) + BigUint::from_slice(b)).to_u32_digits()
}

/// Relies on `Shl<usize>` for `BigUint` (num-bigint): multiplication by 2^n.
#[verifier::external_body]
pub(crate) fn big_shl(a: &Vec<u32>, n: usize) -> (r: Vec<u32>)
    ensures
        digits_value(r@) == digits_value(a@) * pow2(n as nat),
{
    (BigUint::from_slice(a) << n).to_u32_digits()
}

/// Relies on `Integer::div_mod_floor` for `BigUint` (num-integer, implemented in
/// num-bigint): floored quotient and remainder; it panics on a zero divisor.
#[verifier::external_body]
pub(crate) fn big_div_mod_floor(a: &Vec<u32>, d: &Vec<u32>) -> (r: (Vec<u32>, Vec<u32>))
    requires
        digits_value(d@) > 0,
    ensures
        digits_value(r.0@) == digits_value(a@) / digits_value(d@),
        digits_value(r.1@) == digits_value(a@) % digits_value(d@),
{
    let (q, m) = BigUint::from_slice(a).div_mod_floor(&BigUint::from_slice(d));
    (q.to_u32_digits(), m.to_u32_digits())
}

/// Relies on `Zero::is_zero` for `BigUint` (num-traits, implemented in num-bigint).
#[verifier::external_body]
pub(crate) fn big_is_zero(a: &Vec<u32>) -> (r: bool)
    ensures
        r == (digits_value(a@) == 0),
{
    BigUint::from_slice(a).is_zero()
}

/// Relies on `PartialEq` for `BigUint` (num-bigint): equality of the numbers.
#[verifier::external_body]
pub(crate) fn big_eq(a: &Vec<u32>, b: &Vec<u32>) -> (r: bool)
    ensures
        r == (digits_value(a@) == digits_value(b@)),
{
    BigUint::from_slice(a) == BigUint::from_slice(b)
}

/// A trailing zero digit does not change the value.
pub proof fn lemma_digits_push_zero(s: Seq<u32>)
    ensures
        digits_value(s.push(0)) == digits_value(s),
{
    assert(s.push(0).drop_last() =~= s);
    assert(s.push(0).last() == 0);
    assert(digits_value(s.push(0)) == digits_value(s.push(0).drop_last()) + 0nat * pow2((32 * s.len()) as nat));
}

/// Appending a digit adds it at the next position.
pub proof fn lemma_digits_push(s: Seq<u32>, d: u32)
    ensures
        digits_value(s.push(d)) == digits_value(s) + d as nat * pow2((32 * s.len()) as nat),
{
    assert(s.push(d).drop_last() =~= s);
}

/// Digits of a natural that fits 128 bits.
pub fn digits_from_u128(x: u128) -> (r: Vec<u32>)
    ensures
        digits_value(r@) == x as nat,
{
    let mut r: Vec<u32> = Vec::new();
    let mut rest: u128 = x;
    proof {
        vstd::arithmetic::power2::lemma2_to64();
        assert(r@.len() == 0);
        assert(digits_value(r@) == 0);
        assert((32 * r.len()) as nat == 0);
    }
    while rest > 0
        invariant
            x as nat == digits_value(r@) + rest as nat * pow2((32 * r.len()) as nat),
        decreases rest,
    {
        let d: u32 = (rest % 0x1_0000_0000) as u32;
        let next: u128 = rest / 0x1_0000_0000;
        proof {
            lemma_digits_push(r@, d);
            vstd::arithmetic::power2::lemma_pow2_adds((32 * r.len()) as nat, 32);
            vstd::arithmetic::power2::lemma2_to64();
            let p = pow2((32 * r.len()) as nat);
            assert(rest as nat == d as nat + 0x1_0000_0000 * next as nat);
            assert(rest as nat * p == d as nat * p + next as nat * (p * 0x1_0000_0000)) by (nonlinear_arith)
                requires rest as nat == d as nat + 0x1_0000_0000 * next as nat;
            assert((32 * r@.push(d).len()) as nat == (32 * r.len()) as nat + 32);
        }
        r.push(d);
        rest = next;
    }
    proof {
        vstd::arithmetic::power2::lemma_pow2_pos((32 * r.len()) as nat);
    }
    r
}

} // verus!
