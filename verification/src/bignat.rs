//! Natural numbers of any size.
//!
//! A [`BigNat`] holds its base-2^32 digits; the arithmetic is
//! `num_bigint::BigUint`'s, called on those digits. `BigUint::new` takes the digits,
//! least significant first, with or without leading zeros, and `to_u32_digits` gives
//! them back without.

use num_bigint::BigUint;
use vstd::prelude::*;

use crate::bytes::be_value;

verus! {

/// The number whose base-2^32 digits, least significant first, are `digits`.
pub open spec fn digits_value(digits: Seq<u32>) -> nat
    decreases digits.len(),
{
    if digits.len() == 0 {
        0
    } else {
        digits[0] as nat + 0x1_0000_0000 * digits_value(digits.drop_first())
    }
}

/// The bytes of `n`, most significant first, with no byte to spare.
pub open spec fn minimal_bytes(n: nat) -> Seq<u8>
    decreases n,
{
    if n < 256 {
        seq![n as u8]
    } else {
        minimal_bytes(n / 256).push((n % 256) as u8)
    }
}

/// A number is read back from its bytes.
pub proof fn lemma_minimal_bytes_value(n: nat)
    ensures
        be_value(minimal_bytes(n)) == n,
    decreases n,
{
    let bytes = minimal_bytes(n);
    if n < 256 {
        assert(bytes.drop_last() =~= Seq::empty());
        assert(be_value(bytes.drop_last()) == 0);
    } else {
        lemma_minimal_bytes_value(n / 256);
        assert(bytes.drop_last() =~= minimal_bytes(n / 256));
    }
}

/// `2^256`.
pub open spec fn two_pow_256() -> nat {
    0x1_0000_0000_0000_0000_0000_0000_0000_0000_0000_0000_0000_0000_0000_0000_0000_0000nat
}

/// `BigUint + &BigUint`: the digits of the sum.
#[verifier::external_body]
fn digits_sum(a: &Vec<u32>, b: &Vec<u32>) -> (r: Vec<u32>)
    ensures
        digits_value(r@) == digits_value(a@) + digits_value(b@),
{
    (BigUint::new(a.clone()) + &BigUint::new(b.clone())).to_u32_digits()
}

/// `BigUint - &BigUint`: the digits of the difference. The outside subtraction
/// panics where the second operand is the larger one.
#[verifier::external_body]
fn digits_difference(a: &Vec<u32>, b: &Vec<u32>) -> (r: Vec<u32>)
    requires
        digits_value(b@) <= digits_value(a@),
    ensures
        digits_value(r@) == digits_value(a@) - digits_value(b@),
{
    (BigUint::new(a.clone()) - &BigUint::new(b.clone())).to_u32_digits()
}

/// `BigUint / u32`: the digits of the quotient, rounded down. The outside
/// division panics on a zero divisor.
#[verifier::external_body]
fn digits_quotient(a: &Vec<u32>, d: u32) -> (r: Vec<u32>)
    requires
        d > 0,
    ensures
        digits_value(r@) == digits_value(a@) / (d as nat),
{
    (BigUint::new(a.clone()) / d).to_u32_digits()
}

/// `BigUint < BigUint`: whether the first number is the smaller one.
#[verifier::external_body]
fn digits_less(a: &Vec<u32>, b: &Vec<u32>) -> (r: bool)
    ensures
        r == (digits_value(a@) < digits_value(b@)),
{
    BigUint::new(a.clone()) < BigUint::new(b.clone())
}

/// `BigUint::from(u128)`: the digits of `n`.
#[verifier::external_body]
fn digits_of(n: u128) -> (r: Vec<u32>)
    ensures
        digits_value(r@) == n,
{
    BigUint::from(n).to_u32_digits()
}

/// `u128::try_from(&BigUint)`: the number, if it is below `2^128`.
#[verifier::external_body]
fn digits_to_u128(a: &Vec<u32>) -> (r: Option<u128>)
    ensures
        match r {
            Some(n) => n == digits_value(a@),
            None => digits_value(a@) > u128::MAX,
        },
{
    u128::try_from(&BigUint::new(a.clone())).ok()
}

/// `BigUint::to_bytes_be`: the bytes of the number, most significant first,
/// without leading zeros; zero is one zero byte.
#[verifier::external_body]
fn digits_to_bytes(a: &Vec<u32>) -> (r: Vec<u8>)
    ensures
        r@ == minimal_bytes(digits_value(a@)),
{
    BigUint::new(a.clone()).to_bytes_be()
}

/// A natural number.
#[derive(Debug)]
pub struct BigNat {
    /// The base-2^32 digits, least significant first.
    pub digits: Vec<u32>,
}

impl View for BigNat {
    type V = nat;

    open spec fn view(&self) -> nat {
        digits_value(self.digits@)
    }
}

impl BigNat {
    /// Zero.
    pub fn zero() -> (r: BigNat)
        ensures
            r@ == 0,
    {
        BigNat { digits: Vec::new() }
    }

    /// The number `n`.
    pub fn from_u128(n: u128) -> (r: BigNat)
        ensures
            r@ == n,
    {
        BigNat { digits: digits_of(n) }
    }

    /// The number as a `u128`, if it fits.
    pub fn to_u128(&self) -> (r: Option<u128>)
        ensures
            match r {
                Some(n) => n == self@,
                None => self@ > u128::MAX,
            },
    {
        digits_to_u128(&self.digits)
    }

    /// A copy.
    pub fn copy(&self) -> (r: BigNat)
        ensures
            r@ == self@,
    {
        let digits: Vec<u32> = self.digits.clone();
        assert(digits@ =~= self.digits@);
        BigNat { digits }
    }

    /// `self + other`.
    pub fn plus(&self, other: &BigNat) -> (r: BigNat)
        ensures
            r@ == self@ + other@,
    {
        BigNat { digits: digits_sum(&self.digits, &other.digits) }
    }

    /// `self - other`, where that is not negative.
    pub fn minus(&self, other: &BigNat) -> (r: Option<BigNat>)
        ensures
            match r {
                Some(n) => n@ == self@ - other@,
                None => self@ < other@,
            },
    {
        if digits_less(&self.digits, &other.digits) {
            None
        } else {
            Some(BigNat { digits: digits_difference(&self.digits, &other.digits) })
        }
    }

    /// `self / d`, rounded down.
    pub fn over(&self, d: u32) -> (r: BigNat)
        requires
            d > 0,
        ensures
            r@ == self@ / (d as nat),
    {
        BigNat { digits: digits_quotient(&self.digits, d) }
    }

    /// Whether `self < other`.
    pub fn less(&self, other: &BigNat) -> (r: bool)
        ensures
            r == (self@ < other@),
    {
        digits_less(&self.digits, &other.digits)
    }

    /// Whether the two numbers are equal.
    pub fn same(&self, other: &BigNat) -> (r: bool)
        ensures
            r == (self@ == other@),
    {
        !self.less(other) && !other.less(self)
    }

    /// Whether the number fits in 256 bits.
    pub fn fits_256(&self) -> (r: bool)
        ensures
            r == (self@ < two_pow_256()),
    {
        let bound: Vec<u32> = vec![0, 0, 0, 0, 0, 0, 0, 0, 1];
        proof {
            let d: Seq<u32> = seq![0, 0, 0, 0, 0, 0, 0, 0, 1];
            assert(bound@ =~= d);
            reveal_with_fuel(digits_value, 10);
        }
        digits_less(&self.digits, &bound)
    }

    /// The bytes of the number, most significant first.
    pub fn to_bytes(&self) -> (r: Vec<u8>)
        ensures
            r@ == minimal_bytes(self@),
    {
        digits_to_bytes(&self.digits)
    }
}

} // verus!
