//! GCD engine: binary GCD (Stein's algorithm), least common multiple and the
//! coprimality test, proved against the Euclidean `gcd_nat`.

use vstd::prelude::*;
use num_bigint::BigUint;
use crate::arith::{
    gcd_nat, lcm_nat, lemma_divides_to_mod_zero, lemma_gcd_commutes, lemma_gcd_divides,
    lemma_gcd_even_even, lemma_gcd_even_odd, lemma_gcd_subtract, lemma_gcd_zero,
};
use crate::bignum::{big_clone, big_div, big_eq, big_from_u64, big_lt, big_is_odd, big_mul, big_shr1, big_sub};
use crate::bignum::big_val;

verus! {

/// Compute the greatest common divisor by the binary (Stein) algorithm:
/// common factors of two are stripped and accumulated, remaining factors of
/// two are discarded, and the odd residues are reduced by subtraction.
pub fn gcd(a: &BigUint, b: &BigUint) -> (r: BigUint)
    ensures
        big_val(r) == gcd_nat(big_val(*a), big_val(*b)),
{
    let zero = big_from_u64(0);
    if big_eq(a, &zero) {
        proof {
            lemma_gcd_zero(big_val(*a), big_val(*b));
        }
        return big_clone(b);
    }
    if big_eq(b, &zero) {
        return big_clone(a);
    }

    let mut u = big_clone(a);
    let mut v = big_clone(b);
    let mut scale = big_from_u64(1);

    // Strip the common factors of two, accumulating them in `scale`.
    while !big_is_odd(&u) && !big_is_odd(&v)
        invariant
            big_val(u) > 0,
            big_val(v) > 0,
            gcd_nat(big_val(*a), big_val(*b)) == big_val(scale) * gcd_nat(big_val(u), big_val(v)),
        decreases big_val(u),
    {
        proof {
            lemma_gcd_even_even(big_val(u), big_val(v));
            let s = big_val(scale);
            let g = gcd_nat(big_val(u) / 2, big_val(v) / 2);
            assert(s * (2 * g) == (s * 2) * g) by (nonlinear_arith);
        }
        u = big_shr1(&u);
        v = big_shr1(&v);
        let two = big_from_u64(2);
        scale = big_mul(&scale, &two);
    }

    // Discard the remaining factors of two of `u`; `v` is odd here whenever
    // `u` is even, so the gcd is unchanged.
    while !big_is_odd(&u)
        invariant
            big_val(u) > 0,
            big_val(v) > 0,
            big_val(u) % 2 == 1 || big_val(v) % 2 == 1,
            gcd_nat(big_val(*a), big_val(*b)) == big_val(scale) * gcd_nat(big_val(u), big_val(v)),
        decreases big_val(u),
    {
        proof {
            lemma_gcd_commutes(big_val(u), big_val(v));
            lemma_gcd_even_odd(big_val(u), big_val(v));
            lemma_gcd_commutes(big_val(u) / 2, big_val(v));
        }
        u = big_shr1(&u);
    }

    // Subtraction loop on the odd residues.
    loop
        invariant_except_break
            big_val(u) > 0,
            big_val(u) % 2 == 1,
        invariant
            big_val(v) > 0,
            big_val(zero) == 0,
            gcd_nat(big_val(*a), big_val(*b)) == big_val(scale) * gcd_nat(big_val(u), big_val(v)),
        ensures
            big_val(u) == 0,
        decreases big_val(u) + big_val(v),
    {
        let ghost v_entry = big_val(v);
        while !big_is_odd(&v)
            invariant
                big_val(u) > 0,
                big_val(v) > 0,
                big_val(v) <= v_entry,
                big_val(u) % 2 == 1,
                gcd_nat(big_val(*a), big_val(*b)) == big_val(scale) * gcd_nat(
                    big_val(u),
                    big_val(v),
                ),
            decreases big_val(v),
        {
            proof {
                lemma_gcd_commutes(big_val(u), big_val(v));
                lemma_gcd_even_odd(big_val(v), big_val(u));
                lemma_gcd_commutes(big_val(v) / 2, big_val(u));
            }
            v = big_shr1(&v);
        }

        if big_lt(&u, &v) {
            proof {
                lemma_gcd_commutes(big_val(u), big_val(v));
            }
            std::mem::swap(&mut u, &mut v);
        }

        proof {
            lemma_gcd_subtract(big_val(u), big_val(v));
        }
        u = big_sub(&u, &v);

        if big_eq(&u, &zero) {
            break;
        }

        // Both operands were odd, so the difference is even: strip its
        // factors of two right away to keep the iteration count logarithmic.
        let ghost u_after_sub = big_val(u);
        while !big_is_odd(&u)
            invariant
                big_val(u) > 0,
                big_val(u) <= u_after_sub,
                big_val(v) > 0,
                big_val(v) % 2 == 1,
                gcd_nat(big_val(*a), big_val(*b)) == big_val(scale) * gcd_nat(
                    big_val(u),
                    big_val(v),
                ),
            decreases big_val(u),
        {
            proof {
                lemma_gcd_commutes(big_val(u), big_val(v));
                lemma_gcd_even_odd(big_val(u), big_val(v));
                lemma_gcd_commutes(big_val(u) / 2, big_val(v));
            }
            u = big_shr1(&u);
        }
    }

    proof {
        lemma_gcd_zero(big_val(v), big_val(v));
        assert(gcd_nat(0, big_val(v)) == big_val(v));
    }
    big_mul(&scale, &v)
}

/// Least common multiple: zero when either input is zero, otherwise
/// `a * (b / gcd(a, b))`, dividing before the final multiply to keep the
/// intermediate magnitude down.
pub fn lcm(a: &BigUint, b: &BigUint) -> (r: BigUint)
    ensures
        big_val(r) == lcm_nat(big_val(*a), big_val(*b)),
{
    let zero = big_from_u64(0);
    if big_eq(a, &zero) || big_eq(b, &zero) {
        return zero;
    }
    let gcd_val = gcd(a, b);
    proof {
        lemma_gcd_zero(big_val(*a), big_val(*b));
    }
    let b_div_gcd = big_div(b, &gcd_val);
    big_mul(a, &b_div_gcd)
}

/// Two numbers are coprime exactly when their gcd is one.
pub fn are_coprime(a: &BigUint, b: &BigUint) -> (r: bool)
    ensures
        r == (gcd_nat(big_val(*a), big_val(*b)) == 1),
{
    let g = gcd(a, b);
    let one = big_from_u64(1);
    big_eq(&g, &one)
}

/// Each operand is a multiple of the gcd.
pub proof fn lemma_gcd_divides_operands(a: nat, b: nat)
    ensures
        gcd_nat(a, b) > 0 ==> a % gcd_nat(a, b) == 0,
        gcd_nat(a, b) > 0 ==> b % gcd_nat(a, b) == 0,
        gcd_nat(a, b) == 0 ==> a == 0 && b == 0,
{
    lemma_gcd_divides(a, b);
    lemma_gcd_zero(a, b);
    if gcd_nat(a, b) > 0 {
        lemma_divides_to_mod_zero(gcd_nat(a, b), a);
        lemma_divides_to_mod_zero(gcd_nat(a, b), b);
    }
}

/// The product of the gcd and the lcm of two nonzero numbers is the product
/// of the numbers; the lcm with zero is zero.
pub proof fn lemma_gcd_lcm_product(a: nat, b: nat)
    ensures
        a != 0 && b != 0 ==> gcd_nat(a, b) * lcm_nat(a, b) == a * b,
        lcm_nat(a, 0) == 0,
        lcm_nat(0, b) == 0,
{
    if a != 0 && b != 0 {
        let g = gcd_nat(a, b);
        lemma_gcd_zero(a, b);
        lemma_gcd_divides(a, b);
        let k = choose|k: nat| b == #[trigger] (g * k);
        assert(b / g == k) by (nonlinear_arith)
            requires
                g > 0,
                b == g * k,
        ;
        assert(g * (a * k) == a * (g * k)) by (nonlinear_arith);
    }
}

} // verus!
