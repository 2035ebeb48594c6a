//! Shared mathematical model: the spec-level functions that the contracts of
//! the whole crate speak of, together with the basic lemmas about them.

use vstd::prelude::*;
use vstd::arithmetic::power::pow;
use vstd::arithmetic::power2::pow2;

verus! {

/// `b` raised to `e`, as a natural number.
pub open spec fn pow_nat(b: nat, e: nat) -> nat {
    pow(b as int, e) as nat
}

/// The fewest binary digits needed to write `n`; zero needs none.
pub open spec fn bits_of(n: nat) -> nat
    decreases n,
{
    if n == 0 {
        0
    } else {
        (1 + bits_of(n / 2)) as nat
    }
}

/// Value of a big-endian byte string.
pub open spec fn be_val(s: Seq<u8>) -> nat
    decreases s.len(),
{
    if s.len() == 0 {
        0
    } else {
        (be_val(s.drop_last()) * 256 + s.last()) as nat
    }
}

/// Value of a little-endian sequence of 64-bit digits.
pub open spec fn u64_le_val(s: Seq<u64>) -> nat
    decreases s.len(),
{
    if s.len() == 0 {
        0
    } else {
        (s.first() + u64_le_val(s.drop_first()) * 0x1_0000_0000_0000_0000) as nat
    }
}

/// The decimal digit character for `d < 10`.
pub open spec fn dec_digit_char(d: nat) -> char {
    if d == 0 {
        '0'
    } else if d == 1 {
        '1'
    } else if d == 2 {
        '2'
    } else if d == 3 {
        '3'
    } else if d == 4 {
        '4'
    } else if d == 5 {
        '5'
    } else if d == 6 {
        '6'
    } else if d == 7 {
        '7'
    } else if d == 8 {
        '8'
    } else {
        '9'
    }
}

/// The decimal representation of `n`, without leading zeros ("0" for zero).
pub open spec fn dec_str_of(n: nat) -> Seq<char>
    decreases n,
{
    if n < 10 {
        seq![dec_digit_char(n)]
    } else {
        dec_str_of(n / 10).push(dec_digit_char(n % 10))
    }
}

/// `d` divides `n`.
pub open spec fn divides(d: nat, n: nat) -> bool {
    exists|k: nat| n == #[trigger] (d * k)
}

/// Greatest common divisor, by the Euclidean recursion.
pub open spec fn gcd_nat(a: nat, b: nat) -> nat
    decreases b,
{
    if b == 0 {
        a
    } else {
        gcd_nat(b, a % b)
    }
}

/// Least common multiple; zero when either operand is zero.
pub open spec fn lcm_nat(a: nat, b: nat) -> nat {
    if a == 0 || b == 0 {
        0
    } else {
        a * (b / gcd_nat(a, b))
    }
}

/// The largest odd divisor of `n` (zero for zero).
pub open spec fn odd_part(n: nat) -> nat
    decreases n,
{
    if n == 0 {
        0
    } else if n % 2 == 1 {
        n
    } else {
        odd_part(n / 2)
    }
}

/// Number of trailing zero bits (zero for zero).
pub open spec fn trailing_zeros_of(n: nat) -> nat
    decreases n,
{
    if n == 0 {
        0
    } else if n % 2 == 1 {
        0
    } else {
        (1 + trailing_zeros_of(n / 2)) as nat
    }
}

/// Number of one bits in the binary representation.
pub open spec fn pop_count_of(n: nat) -> nat
    decreases n,
{
    if n == 0 {
        0
    } else {
        (n % 2 + pop_count_of(n / 2)) as nat
    }
}

/// Absolute difference.
pub open spec fn dist_nat(a: nat, b: nat) -> nat {
    if a >= b {
        (a - b) as nat
    } else {
        (b - a) as nat
    }
}

/// `n` is `2^k` for some `k >= 1`.
pub open spec fn power_of_two_above_one(n: nat) -> bool {
    exists|k: nat| k >= 1 && n == #[trigger] pow2(k)
}

/// A number in `[2^(k-1), 2^k)` has exactly `k` significant bits.
pub proof fn lemma_bits_of_bounds(n: nat, k: nat)
    requires
        k >= 1,
        pow2((k - 1) as nat) <= n < pow2(k),
    ensures
        bits_of(n) == k,
    decreases k,
{
    vstd::arithmetic::power2::lemma_pow2_unfold(k);
    if k == 1 {
        assert(pow2(0) == 1) by {
            vstd::arithmetic::power2::lemma2_to64();
        }
        assert(n == 1);
        assert(bits_of(1) == 1 + bits_of(0));
        assert(bits_of(0) == 0);
    } else {
        vstd::arithmetic::power2::lemma_pow2_unfold((k - 1) as nat);
        vstd::arithmetic::power2::lemma_pow2_pos((k - 2) as nat);
        assert(pow2((k - 2) as nat) <= n / 2 < pow2((k - 1) as nat));
        lemma_bits_of_bounds(n / 2, (k - 1) as nat);
        assert(n > 0) by {
            vstd::arithmetic::power2::lemma_pow2_pos((k - 1) as nat);
        }
    }
}

/// Divisibility survives taking a remainder by a common multiple's partner.
pub proof fn lemma_divides_mod(d: nat, a: nat, b: nat)
    requires
        b > 0,
        divides(d, a),
        divides(d, b),
    ensures
        divides(d, a % b),
{
    let j = choose|j: nat| a == #[trigger] (d * j);
    let k = choose|k: nat| b == #[trigger] (d * k);
    if d == 0 {
        assert(b == 0 * k);
    }
    let q = (a / b) as int;
    vstd::arithmetic::div_mod::lemma_fundamental_div_mod(a as int, b as int);
    assert(a % b == a - q * b);
    let m = j - q * k;
    assert(a - q * b == d * m) by (nonlinear_arith)
        requires
            a == d * j,
            b == d * k,
            m == j - q * k,
    ;
    assert(d * m >= 0);
    assert(m >= 0) by (nonlinear_arith)
        requires
            d * m >= 0,
            d > 0,
    ;
    assert(a % b == d * (m as nat));
}

/// Divisibility of a remainder and the divisor gives divisibility of the dividend.
pub proof fn lemma_divides_unmod(d: nat, a: nat, b: nat)
    requires
        b > 0,
        divides(d, a % b),
        divides(d, b),
    ensures
        divides(d, a),
{
    let j = choose|j: nat| a % b == #[trigger] (d * j);
    let k = choose|k: nat| b == #[trigger] (d * k);
    let q = (a / b) as int;
    vstd::arithmetic::div_mod::lemma_fundamental_div_mod(a as int, b as int);
    assert(q >= 0);
    let m = j + q * k;
    assert(a == d * m) by (nonlinear_arith)
        requires
            a % b == d * j,
            b == d * k,
            m == j + q * k,
            a == q * b + a % b,
    ;
    assert(m >= 0) by (nonlinear_arith)
        requires
            j >= 0,
            q >= 0,
            k >= 0,
            m == j + q * k,
    ;
    assert(a == d * (m as nat));
}

/// The gcd divides both of its operands.
pub proof fn lemma_gcd_divides(a: nat, b: nat)
    ensures
        divides(gcd_nat(a, b), a),
        divides(gcd_nat(a, b), b),
    decreases b,
{
    if b == 0 {
        assert(a == a * 1);
        assert(b == a * 0);
    } else {
        lemma_gcd_divides(b, a % b);
        lemma_divides_unmod(gcd_nat(b, a % b), a, b);
    }
}

/// Any common divisor of the operands divides the gcd.
pub proof fn lemma_gcd_greatest(a: nat, b: nat, d: nat)
    requires
        divides(d, a),
        divides(d, b),
    ensures
        divides(d, gcd_nat(a, b)),
    decreases b,
{
    if b == 0 {
    } else {
        lemma_divides_mod(d, a, b);
        lemma_gcd_greatest(b, a % b, d);
    }
}

/// Two naturals that divide each other are equal.
pub proof fn lemma_divides_antisymmetric(x: nat, y: nat)
    requires
        divides(x, y),
        divides(y, x),
    ensures
        x == y,
{
    let k = choose|k: nat| y == #[trigger] (x * k);
    let m = choose|m: nat| x == #[trigger] (y * m);
    assert(x == y) by (nonlinear_arith)
        requires
            y == x * k,
            x == y * m,
    ;
}

/// The gcd is zero exactly when both operands are.
pub proof fn lemma_gcd_zero(a: nat, b: nat)
    ensures
        gcd_nat(a, 0) == a,
        gcd_nat(0, b) == b,
        gcd_nat(a, b) == 0 ==> a == 0 && b == 0,
{
    if b != 0 {
        assert(0nat % b == 0);
        assert(gcd_nat(0, b) == gcd_nat(b, 0));
    }
    lemma_gcd_divides(a, b);
    if gcd_nat(a, b) == 0 {
        let k = choose|k: nat| a == #[trigger] (gcd_nat(a, b) * k);
        assert(a == 0 * k);
        let m = choose|m: nat| b == #[trigger] (gcd_nat(a, b) * m);
        assert(b == 0 * m);
    }
}

/// The gcd is symmetric in its operands.
pub proof fn lemma_gcd_commutes(a: nat, b: nat)
    ensures
        gcd_nat(a, b) == gcd_nat(b, a),
{
    lemma_gcd_divides(a, b);
    lemma_gcd_divides(b, a);
    lemma_gcd_greatest(b, a, gcd_nat(a, b));
    lemma_gcd_greatest(a, b, gcd_nat(b, a));
    lemma_divides_antisymmetric(gcd_nat(a, b), gcd_nat(b, a));
}

/// Subtracting the smaller operand from the larger keeps the gcd.
pub proof fn lemma_gcd_subtract(a: nat, b: nat)
    requires
        b <= a,
    ensures
        gcd_nat((a - b) as nat, b) == gcd_nat(a, b),
{
    let c = (a - b) as nat;
    let g = gcd_nat(a, b);
    let h = gcd_nat(c, b);
    lemma_gcd_divides(a, b);
    lemma_gcd_divides(c, b);
    // g divides a and b, hence divides a - b.
    let j = choose|j: nat| a == #[trigger] (g * j);
    let k = choose|k: nat| b == #[trigger] (g * k);
    assert(c == g * ((j - k) as nat)) by (nonlinear_arith)
        requires
            a == g * j,
            b == g * k,
            b <= a,
            c == a - b,
    ;
    lemma_gcd_greatest(c, b, g);
    // h divides a - b and b, hence divides a.
    let x = choose|x: nat| c == #[trigger] (h * x);
    let y = choose|y: nat| b == #[trigger] (h * y);
    assert(a == h * (x + y)) by (nonlinear_arith)
        requires
            c == h * x,
            b == h * y,
            a == c + b,
    ;
    lemma_gcd_greatest(a, b, h);
    lemma_divides_antisymmetric(h, g);
}

/// Halving two even operands halves the gcd.
pub proof fn lemma_gcd_even_even(a: nat, b: nat)
    requires
        a % 2 == 0,
        b % 2 == 0,
    ensures
        gcd_nat(a, b) == 2 * gcd_nat(a / 2, b / 2),
{
    let g = gcd_nat(a, b);
    let h = gcd_nat(a / 2, b / 2);
    lemma_gcd_divides(a, b);
    lemma_gcd_divides(a / 2, b / 2);
    // 2h divides a and b.
    let x = choose|x: nat| a / 2 == #[trigger] (h * x);
    let y = choose|y: nat| b / 2 == #[trigger] (h * y);
    assert(a == (2 * h) * x && b == (2 * h) * y) by (nonlinear_arith)
        requires
            a / 2 == h * x,
            b / 2 == h * y,
            a == 2 * (a / 2),
            b == 2 * (b / 2),
    ;
    lemma_gcd_greatest(a, b, 2 * h);
    // 2 divides g, and g / 2 divides a / 2 and b / 2.
    let j = choose|j: nat| a == #[trigger] (2 * j);
    let k = choose|k: nat| b == #[trigger] (2 * k);
    lemma_gcd_greatest(a, b, 2);
    let w = choose|w: nat| g == #[trigger] (2 * w);
    let p = choose|p: nat| a == #[trigger] (g * p);
    let q = choose|q: nat| b == #[trigger] (g * q);
    assert(a / 2 == w * p && b / 2 == w * q) by (nonlinear_arith)
        requires
            g == 2 * w,
            a == g * p,
            b == g * q,
            a % 2 == 0,
            b % 2 == 0,
            a == 2 * (a / 2),
            b == 2 * (b / 2),
    ;
    lemma_gcd_greatest(a / 2, b / 2, w);
    // So g == 2w divides 2h, and 2h divides g.
    let u = choose|u: nat| h == #[trigger] (w * u);
    assert(2 * h == g * u) by (nonlinear_arith)
        requires
            h == w * u,
            g == 2 * w,
    ;
    lemma_divides_antisymmetric(g, 2 * h);
}

/// An odd number dividing an even number divides its half.
proof fn lemma_odd_divides_half(d: nat, a: nat)
    requires
        d % 2 == 1,
        a % 2 == 0,
        divides(d, a),
    ensures
        divides(d, a / 2),
{
    let k = choose|k: nat| a == #[trigger] (d * k);
    if k % 2 == 1 {
        let i = d / 2;
        let j = k / 2;
        assert(d == 2 * i + 1 && k == 2 * j + 1);
        assert(d * k == 2 * (2 * i * j + i + j) + 1) by (nonlinear_arith)
            requires
                d == 2 * i + 1,
                k == 2 * j + 1,
        ;
        assert((d * k) % 2 == 1);
    }
    assert(a / 2 == d * (k / 2)) by (nonlinear_arith)
        requires
            a == d * k,
            k % 2 == 0,
            a % 2 == 0,
    ;
}

/// Halving an even operand keeps the gcd when the other operand is odd.
pub proof fn lemma_gcd_even_odd(a: nat, b: nat)
    requires
        a % 2 == 0,
        b % 2 == 1,
    ensures
        gcd_nat(a / 2, b) == gcd_nat(a, b),
{
    let g = gcd_nat(a, b);
    let h = gcd_nat(a / 2, b);
    lemma_gcd_divides(a, b);
    lemma_gcd_divides(a / 2, b);
    // g divides odd b, so g is odd, so g divides a / 2.
    let k = choose|k: nat| b == #[trigger] (g * k);
    if g % 2 == 0 {
        let i = g / 2;
        assert(g == 2 * i);
        assert(g * k == 2 * (i * k)) by (nonlinear_arith)
            requires
                g == 2 * i,
        ;
        assert((g * k) % 2 == 0);
    }
    lemma_odd_divides_half(g, a);
    lemma_gcd_greatest(a / 2, b, g);
    // h divides a / 2, so h divides a.
    let x = choose|x: nat| a / 2 == #[trigger] (h * x);
    assert(a == h * (2 * x)) by (nonlinear_arith)
        requires
            a / 2 == h * x,
            a == 2 * (a / 2),
    ;
    lemma_gcd_greatest(a, b, h);
    lemma_divides_antisymmetric(g, h);
}

/// A positive divisor yields remainder zero.
pub proof fn lemma_divides_to_mod_zero(d: nat, n: nat)
    requires
        d > 0,
        divides(d, n),
    ensures
        n % d == 0,
{
    let k = choose|k: nat| n == #[trigger] (d * k);
    vstd::arithmetic::div_mod::lemma_mod_multiples_basic(k as int, d as int);
    assert(k * d == d * k) by (nonlinear_arith);
}

} // verus!
