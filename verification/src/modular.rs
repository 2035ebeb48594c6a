//! Modular arithmetic engine: exponentiation, multiplication, addition and
//! subtraction modulo a positive modulus, the extended-Euclidean modular
//! inverse, the quadratic-residue test, and the power-of-two helper.

use vstd::prelude::*;
use num_bigint::BigUint;
use vstd::arithmetic::power2::pow2;
use crate::arith::{gcd_nat, odd_part, pow_nat, power_of_two_above_one};
use crate::bignum::{
    big_clone, big_div, big_eq, big_from_u64, big_is_odd, big_lt, big_modpow, big_mul, big_rem,
    big_add, big_shr1, big_sub, big_val,
};

verus! {

/// The value `mod_sub` computes: `(a - b) mod m` for `a >= b`, otherwise
/// `m - ((b - a) mod m)`, staying within non-negative arithmetic.
pub open spec fn mod_sub_spec(a: nat, b: nat, m: nat) -> nat {
    if a >= b {
        (((a - b) as nat) % m) as nat
    } else {
        (m - ((b - a) as nat) % m) as nat
    }
}

/// The verdict of the quadratic-residue test: zero is always a residue; for
/// an odd modulus Euler's criterion decides; for a modulus that is a power of
/// two at least eight, only values congruent to one modulo eight pass. The
/// remaining even moduli - powers of two below eight and general even
/// composites - are not implemented and report "not a residue", a known
/// approximation.
pub open spec fn quadratic_residue_spec(a: nat, m: nat) -> bool {
    if a == 0 {
        true
    } else if m <= 1 {
        false
    } else if m % 2 == 1 {
        pow_nat(a, ((m - 1) as nat) / 2) % m == 1
    } else if power_of_two_above_one(m) && m >= 8 {
        a % 8 == 1
    } else {
        false
    }
}

/// A power of two above one has odd part one.
proof fn lemma_odd_part_pow2(k: nat)
    requires
        k >= 1,
    ensures
        odd_part(pow2(k)) == 1,
    decreases k,
{
    vstd::arithmetic::power2::lemma_pow2_unfold(k);
    vstd::arithmetic::power2::lemma_pow2_pos((k - 1) as nat);
    if k == 1 {
        assert(pow2(0) == 1) by {
            vstd::arithmetic::power2::lemma2_to64();
        }
        assert(odd_part(2) == odd_part(1));
    } else {
        lemma_odd_part_pow2((k - 1) as nat);
    }
}

/// A number at least two with odd part one is a power of two above one.
proof fn lemma_odd_part_one_pow2(n: nat)
    requires
        n >= 2,
        odd_part(n) == 1,
    ensures
        power_of_two_above_one(n),
    decreases n,
{
    if n % 2 == 1 {
        assert(odd_part(n) == n);
    } else if n / 2 == 1 {
        assert(n == pow2(1)) by {
            vstd::arithmetic::power2::lemma2_to64();
        }
    } else {
        lemma_odd_part_one_pow2(n / 2);
        let k = choose|k: nat| k >= 1 && n / 2 == #[trigger] pow2(k);
        vstd::arithmetic::power2::lemma_pow2_unfold((k + 1) as nat);
        assert(n == pow2(k + 1));
    }
}

/// `n` is a power of two above one exactly when it is at least two and its
/// odd part is one.
proof fn lemma_power_of_two_odd_part(n: nat)
    ensures
        power_of_two_above_one(n) <==> (n >= 2 && odd_part(n) == 1),
{
    if power_of_two_above_one(n) {
        let k = choose|k: nat| k >= 1 && n == #[trigger] pow2(k);
        lemma_odd_part_pow2(k);
        assert(pow2(0) == 1) by {
            vstd::arithmetic::power2::lemma2_to64();
        }
        vstd::arithmetic::power2::lemma_pow2_strictly_increases(0, k);
    } else if n >= 2 && odd_part(n) == 1 {
        lemma_odd_part_one_pow2(n);
    }
}

/// Checks whether a number is a power of two strictly above one, by
/// stripping its factors of two.
pub fn is_power_of_two(n: &BigUint) -> (r: bool)
    ensures
        r == power_of_two_above_one(big_val(*n)),
{
    let one = big_from_u64(1);
    proof {
        lemma_power_of_two_odd_part(big_val(*n));
    }
    if !big_lt(&one, n) {
        return false;
    }
    let mut m = big_clone(n);
    while !big_is_odd(&m)
        invariant
            big_val(m) >= 1,
            odd_part(big_val(*n)) == odd_part(big_val(m)),
        decreases big_val(m),
    {
        m = big_shr1(&m);
    }
    assert(odd_part(big_val(*n)) == big_val(m));
    let r = big_eq(&m, &one);
    proof {
        lemma_power_of_two_odd_part(big_val(*n));
    }
    r
}

/// Extended Euclidean algorithm. Returns the gcd of the operands together
/// with the modular inverse of `a` modulo `b`, which exists exactly when the
/// gcd is one and the modulus exceeds one; the inverse is reduced into
/// `[0, b)`.
pub fn extended_gcd(a: &BigUint, b: &BigUint) -> (r: (BigUint, Option<BigUint>))
    ensures
        big_val(r.0) == gcd_nat(big_val(*a), big_val(*b)),
        r.1 is Some <==> (gcd_nat(big_val(*a), big_val(*b)) == 1 && big_val(*b) > 1),
        r.1 is Some ==> big_val(r.1.unwrap()) < big_val(*b) && (big_val(*a) * big_val(
            r.1.unwrap(),
        )) % big_val(*b) == 1,
{
    let zero = big_from_u64(0);
    let one = big_from_u64(1);
    if big_eq(a, &zero) {
        proof {
            crate::arith::lemma_gcd_zero(big_val(*a), big_val(*b));
        }
        return (big_clone(b), None);
    }
    if big_eq(b, &zero) {
        return (big_clone(a), None);
    }
    if big_eq(b, &one) {
        proof {
            assert(big_val(*a) % 1nat == 0);
            assert(gcd_nat(big_val(*a), 1) == gcd_nat(1, 0));
        }
        return (one, None);
    }

    let ghost av = big_val(*a);
    let ghost bv = big_val(*b);

    let mut r0 = big_clone(a);
    let mut r1 = big_clone(b);
    let mut s0 = big_from_u64(1);
    let mut s1 = big_from_u64(0);

    proof {
        vstd::arithmetic::div_mod::lemma_mod_self_0(bv as int);
        assert((av * 1nat) == av) by (nonlinear_arith);
        assert((av * 0nat) == 0) by (nonlinear_arith);
    }

    while !big_eq(&r1, &zero)
        invariant
            av == big_val(*a),
            bv == big_val(*b),
            av > 0,
            bv > 1,
            big_val(zero) == 0,
            gcd_nat(big_val(r0), big_val(r1)) == gcd_nat(av, bv),
            (av * big_val(s0)) % bv == big_val(r0) % bv,
            (av * big_val(s1)) % bv == big_val(r1) % bv,
            big_val(s0) <= bv,
            big_val(s1) <= bv,
        decreases big_val(r1),
    {
        let ghost x0 = big_val(r0);
        let ghost x1 = big_val(r1);
        let ghost c0 = big_val(s0);
        let ghost c1 = big_val(s1);

        let q = big_div(&r0, &r1);
        let ghost qv = big_val(q);
        let qr = big_mul(&q, &r1);
        proof {
            vstd::arithmetic::div_mod::lemma_fundamental_div_mod(x0 as int, x1 as int);
            assert(x0 == x1 * (x0 / x1) + x0 % x1);
            assert(x1 * qv == qv * x1) by (nonlinear_arith);
        }
        let r2 = big_sub(&r0, &qr);
        proof {
            assert(big_val(r2) == x0 % x1);
            assert(gcd_nat(x0, x1) == gcd_nat(x1, x0 % x1));
        }

        let qs = big_mul(&q, &s1);
        let s2 = if !big_lt(&s0, &qs) {
            big_sub(&s0, &qs)
        } else {
            let d = big_sub(&qs, &s0);
            let dm = big_rem(&d, b);
            big_sub(b, &dm)
        };

        proof {
            let m = bv as int;
            let sv = big_val(s2) as int;
            // In both branches the new coefficient is congruent to
            // c0 - q * c1 modulo the modulus.
            if qv * c1 <= c0 {
                assert(sv % m == (c0 - qv * c1) % m);
            } else {
                let t = (qv * c1 - c0) as int;
                assert(sv == m - t % m);
                vstd::arithmetic::div_mod::lemma_mod_bound(t, m);
                vstd::arithmetic::div_mod::lemma_mod_twice(t, m);
                vstd::arithmetic::div_mod::lemma_sub_mod_noop(m, t, m);
                vstd::arithmetic::div_mod::lemma_mod_self_0(m);
                assert((0 - t % m) % m == (m - t) % m);
                vstd::arithmetic::div_mod::lemma_mod_multiples_vanish(1, 0 - t % m, m);
                assert(m * 1 + (0 - t % m) == m - t % m);
                assert((m - t % m) % m == (m - t) % m);
                vstd::arithmetic::div_mod::lemma_mod_multiples_vanish(1, -t, m);
                assert((m - t) % m == (-t) % m);
                assert(sv % m == (c0 - qv * c1) % m) by {
                    if sv == m {
                        vstd::arithmetic::div_mod::lemma_mod_self_0(m);
                        assert(t % m == 0);
                        vstd::arithmetic::div_mod::lemma_mod_multiples_vanish(1, c0 - qv * c1, m);
                        assert((m + (c0 - qv * c1)) % m == (c0 - qv * c1) % m);
                        assert(m + (c0 - qv * c1) == m - t);
                        assert((m - t) % m == 0) by {
                            vstd::arithmetic::div_mod::lemma_mod_multiples_vanish(1, -t, m);
                        }
                    } else {
                        vstd::arithmetic::div_mod::lemma_mod_bound(sv, m);
                        vstd::arithmetic::div_mod::lemma_small_mod(sv as nat, m as nat);
                        assert(sv % m == (-t) % m);
                        assert(-t == c0 - qv * c1);
                    }
                }
            }
            // Multiply the two congruence invariants through.
            vstd::arithmetic::div_mod::lemma_mul_mod_noop_right(qv as int, (av * c1) as int, m);
            vstd::arithmetic::div_mod::lemma_mul_mod_noop_right(qv as int, x1 as int, m);
            assert(((qv * (av * c1)) as int) % m == ((qv * x1) as int) % m) by {
                assert(qv as int * (((av * c1) as int) % m) == qv as int * ((x1 as int) % m));
            }
            vstd::arithmetic::div_mod::lemma_sub_mod_noop(
                (av * c0) as int,
                (qv * (av * c1)) as int,
                m,
            );
            vstd::arithmetic::div_mod::lemma_sub_mod_noop(x0 as int, (qv * x1) as int, m);
            assert((av * c0 - qv * (av * c1)) % m == (x0 - qv * x1) % m);
            // A * s2 is congruent to A * (c0 - q c1).
            vstd::arithmetic::div_mod::lemma_mul_mod_noop_right(av as int, sv, m);
            vstd::arithmetic::div_mod::lemma_mul_mod_noop_right(av as int, (c0 - qv * c1) as int, m);
            assert((av as int * sv) % m == (av as int * ((c0 - qv * c1) as int)) % m) by {
                assert(av as int * (sv % m) == av as int * (((c0 - qv * c1) as int) % m));
            }
            assert(av as int * ((c0 - qv * c1) as int) == av * c0 - qv * (av * c1))
                by (nonlinear_arith);
            // And x0 - q x1 is exactly the new remainder.
            assert(x0 - qv * x1 == x0 % x1) by {
                assert(x1 * qv == qv * x1) by (nonlinear_arith);
            }
            assert((av as int * sv) % m == (x0 % x1) as int % m);
        }

        r0 = r1;
        r1 = r2;
        s0 = s1;
        s1 = s2;
    }

    let g_is_one = big_eq(&r0, &one);
    if g_is_one {
        let inv = big_rem(&s0, b);
        proof {
            let m = bv as int;
            vstd::arithmetic::div_mod::lemma_mul_mod_noop_right(av as int, big_val(s0) as int, m);
            assert(av as int * ((big_val(s0) as int) % m) == av as int * (big_val(inv) as int));
            vstd::arithmetic::div_mod::lemma_small_mod(1, bv);
            vstd::arithmetic::div_mod::lemma_mod_bound(big_val(s0) as int, m);
        }
        (r0, Some(inv))
    } else {
        (r0, None)
    }
}

/// Trait-style modular arithmetic on the big-integer type. The spec method
/// `mval` gives the mathematical value the receiver holds.
pub trait ModularArithmetic: Sized {
    spec fn mval(&self) -> nat;

    /// Modular exponentiation: `(self ^ exp) mod modulus`.
    fn mod_pow(&self, exp: &BigUint, modulus: &BigUint) -> (r: BigUint)
        requires
            big_val(*modulus) > 0,
        ensures
            big_val(r) == pow_nat(self.mval(), big_val(*exp)) % big_val(*modulus),
    ;

    /// Modular multiplication: `(self * other) mod modulus`.
    fn mod_mul(&self, other: &BigUint, modulus: &BigUint) -> (r: BigUint)
        requires
            big_val(*modulus) > 0,
        ensures
            big_val(r) == (self.mval() * big_val(*other)) % big_val(*modulus),
    ;

    /// Modular addition: `(self + other) mod modulus`.
    fn mod_add(&self, other: &BigUint, modulus: &BigUint) -> (r: BigUint)
        requires
            big_val(*modulus) > 0,
        ensures
            big_val(r) == (self.mval() + big_val(*other)) % big_val(*modulus),
    ;

    /// Modular subtraction in non-negative arithmetic.
    fn mod_sub(&self, other: &BigUint, modulus: &BigUint) -> (r: BigUint)
        requires
            big_val(*modulus) > 0,
        ensures
            big_val(r) == mod_sub_spec(self.mval(), big_val(*other), big_val(*modulus)),
    ;

    /// Modular inverse by the extended Euclidean algorithm: present exactly
    /// when the receiver is coprime to a modulus above one, and then reduced
    /// into `[0, modulus)` with `(self * inverse) mod modulus == 1`.
    fn mod_inverse(&self, modulus: &BigUint) -> (r: Option<BigUint>)
        ensures
            r is Some <==> (gcd_nat(self.mval(), big_val(*modulus)) == 1 && big_val(*modulus) > 1),
            r is Some ==> big_val(r.unwrap()) < big_val(*modulus) && (self.mval() * big_val(
                r.unwrap(),
            )) % big_val(*modulus) == 1,
    ;

    /// Quadratic-residue test, as `quadratic_residue_spec` states it.
    fn is_quadratic_residue(&self, modulus: &BigUint) -> (r: bool)
        ensures
            r == quadratic_residue_spec(self.mval(), big_val(*modulus)),
    ;
}

impl ModularArithmetic for BigUint {
    open spec fn mval(&self) -> nat {
        big_val(*self)
    }

    fn mod_pow(&self, exp: &BigUint, modulus: &BigUint) -> (r: BigUint) {
        big_modpow(self, exp, modulus)
    }

    fn mod_mul(&self, other: &BigUint, modulus: &BigUint) -> (r: BigUint) {
        let p = big_mul(self, other);
        big_rem(&p, modulus)
    }

    fn mod_add(&self, other: &BigUint, modulus: &BigUint) -> (r: BigUint) {
        let s = big_add(self, other);
        big_rem(&s, modulus)
    }

    fn mod_sub(&self, other: &BigUint, modulus: &BigUint) -> (r: BigUint) {
        if !big_lt(self, other) {
            let d = big_sub(self, other);
            big_rem(&d, modulus)
        } else {
            let d = big_sub(other, self);
            let dm = big_rem(&d, modulus);
            big_sub(modulus, &dm)
        }
    }

    fn mod_inverse(&self, modulus: &BigUint) -> (r: Option<BigUint>) {
        extended_gcd(self, modulus).1
    }

    fn is_quadratic_residue(&self, modulus: &BigUint) -> (r: bool) {
        let zero = big_from_u64(0);
        let one = big_from_u64(1);
        if big_eq(self, &zero) {
            return true;
        }
        if !big_lt(&one, modulus) {
            return false;
        }
        let two = big_from_u64(2);
        let m_mod_two = big_rem(modulus, &two);
        if big_eq(&m_mod_two, &one) {
            let m_minus_one = big_sub(modulus, &one);
            let exp = big_shr1(&m_minus_one);
            let result = big_modpow(self, &exp, modulus);
            big_eq(&result, &one)
        } else {
            if is_power_of_two(modulus) {
                let eight = big_from_u64(8);
                if !big_lt(modulus, &eight) {
                    let r8 = big_rem(self, &eight);
                    big_eq(&r8, &one)
                } else {
                    false
                }
            } else {
                false
            }
        }
    }
}

} // verus!
