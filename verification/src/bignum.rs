//! Trusted boundary to `num_bigint::BigUint`, the arbitrary-precision
//! unsigned integer this crate computes with. Every operation is stated over
//! `big_val`, the mathematical value a `BigUint` holds; all reasoning above
//! this module is verified against these contracts.

use vstd::prelude::*;
use num_bigint::BigUint;
use crate::arith::{be_val, bits_of, dec_str_of, pow_nat, u64_le_val};

verus! {

#[verifier::external_type_specification]
#[verifier::external_body]
pub struct ExBigUint(BigUint);

/// The natural number a `BigUint` holds.
pub uninterp spec fn big_val(b: BigUint) -> nat;

/// Relies on `BigUint: From<u64>`: conversion is value-preserving.
#[verifier::external_body]
pub(crate) fn big_from_u64(x: u64) -> (r: BigUint)
    ensures
        big_val(r) == x as nat,
{
    BigUint::from(x)
}

/// Relies on `BigUint: Clone`: a clone holds the same value.
#[verifier::external_body]
pub(crate) fn big_clone(a: &BigUint) -> (r: BigUint)
    ensures
        big_val(r) == big_val(*a),
{
    a.clone()
}

/// Relies on `Add for &BigUint`: exact arbitrary-precision addition.
#[verifier::external_body]
pub(crate) fn big_add(a: &BigUint, b: &BigUint) -> (r: BigUint)
    ensures
        big_val(r) == big_val(*a) + big_val(*b),
{
    a + b
}

/// Relies on `Sub for &BigUint`: exact subtraction, which panics on
/// underflow; the precondition rules that out.
#[verifier::external_body]
pub(crate) fn big_sub(a: &BigUint, b: &BigUint) -> (r: BigUint)
    requires
        big_val(*b) <= big_val(*a),
    ensures
        big_val(r) == big_val(*a) - big_val(*b),
{
    a - b
}

/// Relies on `Mul for &BigUint`: exact multiplication.
#[verifier::external_body]
pub(crate) fn big_mul(a: &BigUint, b: &BigUint) -> (r: BigUint)
    ensures
        big_val(r) == big_val(*a) * big_val(*b),
{
    a * b
}

/// Relies on `Div for &BigUint`: truncating division, which panics on a zero
/// divisor; the precondition rules that out.
#[verifier::external_body]
pub(crate) fn big_div(a: &BigUint, d: &BigUint) -> (r: BigUint)
    requires
        big_val(*d) > 0,
    ensures
        big_val(r) == big_val(*a) / big_val(*d),
{
    a / d
}

/// Relies on `Rem for &BigUint`: Euclidean remainder, which panics on a zero
/// divisor; the precondition rules that out.
#[verifier::external_body]
pub(crate) fn big_rem(a: &BigUint, m: &BigUint) -> (r: BigUint)
    requires
        big_val(*m) > 0,
    ensures
        big_val(r) == big_val(*a) % big_val(*m),
{
    a % m
}

/// Relies on `Shr<u32> for &BigUint`: a right shift by one discards the low
/// bit, halving the value.
#[verifier::external_body]
pub(crate) fn big_shr1(a: &BigUint) -> (r: BigUint)
    ensures
        big_val(r) == big_val(*a) / 2,
{
    a >> 1u32
}

/// Relies on `PartialEq for BigUint`: equality of the held values.
#[verifier::external_body]
pub(crate) fn big_eq(a: &BigUint, b: &BigUint) -> (r: bool)
    ensures
        r == (big_val(*a) == big_val(*b)),
{
    a == b
}

/// Relies on `PartialOrd for BigUint`: ordering of the held values.
#[verifier::external_body]
pub(crate) fn big_lt(a: &BigUint, b: &BigUint) -> (r: bool)
    ensures
        r == (big_val(*a) < big_val(*b)),
{
    a < b
}

/// Relies on `BigUint::bit`: bit zero is the least significant binary digit,
/// so it is set exactly on odd values.
#[verifier::external_body]
pub(crate) fn big_is_odd(a: &BigUint) -> (r: bool)
    ensures
        r == (big_val(*a) % 2 == 1),
{
    a.bit(0)
}

/// Relies on `BigUint::bits`: the fewest bits necessary to express the value.
#[verifier::external_body]
pub(crate) fn big_bits(a: &BigUint) -> (r: u64)
    ensures
        r as nat == bits_of(big_val(*a)),
{
    a.bits()
}

/// Relies on `BigUint::modpow`: returns `(self ^ exponent) % modulus` and
/// panics on a zero modulus; the precondition rules that out.
#[verifier::external_body]
pub(crate) fn big_modpow(base: &BigUint, exponent: &BigUint, modulus: &BigUint) -> (r: BigUint)
    requires
        big_val(*modulus) > 0,
    ensures
        big_val(r) == pow_nat(big_val(*base), big_val(*exponent)) % big_val(*modulus),
{
    base.modpow(exponent, modulus)
}

/// Relies on OpenSSL's `BN_mod_exp` through `BigNum::mod_exp`: places
/// `base ^ exponent mod modulus` in the result, failing only on a zero
/// modulus, which the precondition rules out. The operands cross to OpenSSL
/// and back as big-endian bytes (`BigUint::to_bytes_be`, `BN_bin2bn`,
/// `BN_bn2bin`, `BigUint::from_bytes_be`). Same contract as `big_modpow`;
/// this path is kept for the candidate search, where the exponentiation is
/// the dominant cost.
#[verifier::external_body]
pub(crate) fn big_modpow_accel(base: &BigUint, exponent: &BigUint, modulus: &BigUint) -> (r:
    BigUint)
    requires
        big_val(*modulus) > 0,
    ensures
        big_val(r) == pow_nat(big_val(*base), big_val(*exponent)) % big_val(*modulus),
{
    let b = openssl::bn::BigNum::from_slice(&base.to_bytes_be()).unwrap();
    let e = openssl::bn::BigNum::from_slice(&exponent.to_bytes_be()).unwrap();
    let m = openssl::bn::BigNum::from_slice(&modulus.to_bytes_be()).unwrap();
    let mut ctx = openssl::bn::BigNumContext::new().unwrap();
    let mut out = openssl::bn::BigNum::new().unwrap();
    out.mod_exp(&b, &e, &m, &mut ctx).unwrap();
    BigUint::from_bytes_be(&out.to_vec())
}

/// Relies on `BigUint::from_bytes_be`: the bytes are read in big-endian
/// order.
#[verifier::external_body]
pub(crate) fn big_from_bytes_be(bytes: &[u8]) -> (r: BigUint)
    ensures
        big_val(r) == be_val(bytes@),
{
    BigUint::from_bytes_be(bytes)
}

/// Relies on `BigUint::to_u64_digits`: little-endian 64-bit digits of the
/// value, with no trailing zero digit (empty for zero).
#[verifier::external_body]
pub(crate) fn big_to_u64_digits(a: &BigUint) -> (r: Vec<u64>)
    ensures
        u64_le_val(r@) == big_val(*a),
        r@.len() > 0 ==> r@.last() != 0u64,
        big_val(*a) == 0 ==> r@.len() == 0,
{
    a.to_u64_digits()
}

/// Relies on `Display for BigUint` through `ToString`: the plain decimal
/// representation of the value, without leading zeros.
#[verifier::external_body]
pub(crate) fn big_to_string(a: &BigUint) -> (r: String)
    ensures
        r@ == dec_str_of(big_val(*a)),
{
    a.to_string()
}

} // verus!
