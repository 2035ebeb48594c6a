//! Extension trait for the big-integer type: bit length, parity, trailing
//! zeros, 64-bit digit conversion, modular exponentiation and Hamming weight.

use vstd::prelude::*;
use num_bigint::BigUint;
use crate::arith::{bits_of, pop_count_of, pow_nat, trailing_zeros_of, u64_le_val};
use crate::bignum::{
    big_add, big_bits, big_clone, big_eq, big_from_u64, big_is_odd, big_lt, big_modpow, big_mul,
    big_shr1, big_to_u64_digits, big_val,
};

verus! {

/// Extension methods on the big-integer type with additional cryptographic
/// utilities. The spec method `bval` gives the mathematical value the
/// receiver holds.
pub trait BigIntExt: Sized {
    spec fn bval(&self) -> nat;

    /// The number of significant bits (zero for zero).
    fn bit_length(&self) -> (r: u64)
        ensures
            r as nat == bits_of(self.bval()),
    ;

    /// Whether the value is even.
    fn is_even(&self) -> (r: bool)
        ensures
            r == (self.bval() % 2 == 0),
    ;

    /// Whether the value is odd.
    fn is_odd(&self) -> (r: bool)
        ensures
            r == (self.bval() % 2 == 1),
    ;

    /// The number of trailing zero bits (zero for zero). The count must fit
    /// in the result type.
    fn trailing_zeros(&self) -> (r: u32)
        requires
            trailing_zeros_of(self.bval()) <= u32::MAX,
        ensures
            r as nat == trailing_zeros_of(self.bval()),
    ;

    /// The value as little-endian 64-bit digits, without trailing zeros.
    fn to_u64_digits(&self) -> (r: Vec<u64>)
        ensures
            u64_le_val(r@) == self.bval(),
            r@.len() > 0 ==> r@.last() != 0u64,
            self.bval() == 0 ==> r@.len() == 0,
    ;

    /// Rebuilds a value from little-endian 64-bit digits.
    fn from_u64_digits(digits: &[u64]) -> (r: Self)
        ensures
            r.bval() == u64_le_val(digits@),
    ;

    /// Fast modular exponentiation.
    fn mod_pow(&self, exp: &BigUint, modulus: &BigUint) -> (r: BigUint)
        requires
            big_val(*modulus) > 0,
        ensures
            big_val(r) == pow_nat(self.bval(), big_val(*exp)) % big_val(*modulus),
    ;

    /// The number of one bits. The count must fit in the result type.
    fn hamming_weight(&self) -> (r: u32)
        requires
            pop_count_of(self.bval()) <= u32::MAX,
        ensures
            r as nat == pop_count_of(self.bval()),
    ;
}

impl BigIntExt for BigUint {
    open spec fn bval(&self) -> nat {
        big_val(*self)
    }

    fn bit_length(&self) -> (r: u64) {
        big_bits(self)
    }

    fn is_even(&self) -> (r: bool) {
        !big_is_odd(self)
    }

    fn is_odd(&self) -> (r: bool) {
        big_is_odd(self)
    }

    fn trailing_zeros(&self) -> (r: u32) {
        let zero = big_from_u64(0);
        if big_eq(self, &zero) {
            return 0;
        }
        let mut count: u32 = 0;
        let mut m = big_clone(self);
        while !big_is_odd(&m)
            invariant
                big_val(m) >= 1,
                count + trailing_zeros_of(big_val(m)) == trailing_zeros_of(big_val(*self)),
                trailing_zeros_of(big_val(*self)) <= u32::MAX,
            decreases big_val(m),
        {
            m = big_shr1(&m);
            count = count + 1;
        }
        count
    }

    fn to_u64_digits(&self) -> (r: Vec<u64>) {
        big_to_u64_digits(self)
    }

    fn from_u64_digits(digits: &[u64]) -> (r: BigUint) {
        let two_32 = big_from_u64(0x1_0000_0000u64);
        let two_64 = big_mul(&two_32, &two_32);
        let mut acc = big_from_u64(0);
        let mut i: usize = digits.len();
        while i > 0
            invariant
                i <= digits@.len(),
                big_val(two_64) == 0x1_0000_0000_0000_0000,
                big_val(acc) == u64_le_val(digits@.subrange(i as int, digits@.len() as int)),
            decreases i,
        {
            i = i - 1;
            let shifted = big_mul(&acc, &two_64);
            let digit = big_from_u64(digits[i]);
            acc = big_add(&shifted, &digit);
            proof {
                let tail = digits@.subrange(i as int, digits@.len() as int);
                assert(tail.first() == digits@[i as int]);
                assert(tail.drop_first() =~= digits@.subrange(i + 1, digits@.len() as int));
                assert(u64_le_val(tail) == (tail.first() + u64_le_val(tail.drop_first())
                    * 0x1_0000_0000_0000_0000) as nat);
            }
        }
        proof {
            assert(digits@.subrange(0, digits@.len() as int) =~= digits@);
        }
        acc
    }

    fn mod_pow(&self, exp: &BigUint, modulus: &BigUint) -> (r: BigUint) {
        big_modpow(self, exp, modulus)
    }

    fn hamming_weight(&self) -> (r: u32) {
        let zero = big_from_u64(0);
        let mut count: u32 = 0;
        let mut m = big_clone(self);
        while big_lt(&zero, &m)
            invariant
                big_val(zero) == 0,
                count + pop_count_of(big_val(m)) == pop_count_of(big_val(*self)),
                pop_count_of(big_val(*self)) <= u32::MAX,
            decreases big_val(m),
        {
            if big_is_odd(&m) {
                count = count + 1;
            }
            m = big_shr1(&m);
        }
        count
    }
}

} // verus!
