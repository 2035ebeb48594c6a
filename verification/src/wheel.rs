//! Wheel sieve: residue tables modulo a small primorial (30 or 210) and a
//! cursor that enumerates candidates above a starting point, skipping
//! multiples of the wheel's base primes.

use vstd::prelude::*;
use crate::arith::gcd_nat;

verus! {

/// An explicit wheel identifier: the 30-wheel (base primes 2, 3, 5) or the
/// 210-wheel (base primes 2, 3, 5, 7).
#[derive(Clone, Copy, PartialEq, Eq, Structural, Debug)]
pub enum WheelKind {
    Wheel30,
    Wheel210,
}

impl WheelKind {
    /// The wheel's modulus.
    pub open spec fn modulus_spec(&self) -> u64 {
        match self {
            WheelKind::Wheel30 => 30,
            WheelKind::Wheel210 => 210,
        }
    }
}

/// Coprimality to the wheel's base prime factors; a modulus that is not a
/// wheel modulus has no base factors, so everything passes.
pub open spec fn wheel_coprime(n: u32, m: u32) -> bool {
    if m == 30 {
        n % 2 != 0 && n % 3 != 0 && n % 5 != 0
    } else if m == 210 {
        n % 2 != 0 && n % 3 != 0 && n % 5 != 0 && n % 7 != 0
    } else {
        true
    }
}

/// The base prime factors of a wheel modulus.
pub open spec fn wheel_factors_spec(m: u32) -> Seq<u32> {
    if m == 30 {
        seq![2u32, 3u32, 5u32]
    } else if m == 210 {
        seq![2u32, 3u32, 5u32, 7u32]
    } else {
        Seq::empty()
    }
}

/// A well-formed residue table for modulus `m`: strictly increasing values in
/// `[1, m)`, all coprime to the wheel's base primes, and containing every
/// such value.
pub open spec fn residues_ok(s: Seq<u32>, m: u32) -> bool {
    &&& forall|j: int| 0 <= j < s.len() ==> 1 <= #[trigger] s[j] < m && wheel_coprime(s[j], m)
    &&& forall|j: int| 0 <= j && j + 1 < s.len() ==> #[trigger] s[j] < s[j + 1]
    &&& forall|v: u32| 1 <= v < m && wheel_coprime(v, m) ==> s.contains(v)
}

/// `n` lands on the wheel of modulus `m`: its residue class modulo `m` is
/// coprime to the wheel's base primes.
pub open spec fn wheel_candidate(n: int, m: u32) -> bool {
    wheel_coprime((n % (m as int)) as u32, m)
}

/// Returns the prime factors used to construct a given wheel size.
pub fn wheel_prime_factors(wheel_size: u32) -> (r: Vec<u32>)
    ensures
        r@ == wheel_factors_spec(wheel_size),
{
    if wheel_size == 30 {
        let r = vec![2u32, 3u32, 5u32];
        proof {
            assert(r@ =~= wheel_factors_spec(30));
        }
        r
    } else if wheel_size == 210 {
        let r = vec![2u32, 3u32, 5u32, 7u32];
        proof {
            assert(r@ =~= wheel_factors_spec(210));
        }
        r
    } else {
        let r: Vec<u32> = Vec::new();
        proof {
            assert(r@ =~= wheel_factors_spec(wheel_size));
        }
        r
    }
}

/// Checks coprimality of `n` against the wheel's base prime factors.
pub fn is_coprime_to_wheel_primes(n: u32, wheel_size: u32) -> (r: bool)
    ensures
        r == wheel_coprime(n, wheel_size),
{
    let primes = wheel_prime_factors(wheel_size);
    let mut i: usize = 0;
    while i < primes.len()
        invariant
            i <= primes@.len(),
            primes@ == wheel_factors_spec(wheel_size),
            forall|j: int| 0 <= j < i ==> n % #[trigger] primes@[j] != 0,
        decreases primes@.len() - i,
    {
        if n % primes[i] == 0 {
            return false;
        }
        i = i + 1;
    }
    true
}

/// Generates the wheel residues for a modulus: every value in `[1, modulus)`
/// coprime to the wheel's base primes, in increasing order.
pub fn generate_wheel_residues(modulus: u32) -> (r: Vec<u32>)
    ensures
        residues_ok(r@, modulus),
{
    let mut residues: Vec<u32> = Vec::new();
    let mut i: u32 = 1;
    if modulus == 0 {
        return residues;
    }
    while i < modulus
        invariant
            1 <= i <= modulus,
            forall|j: int| 0 <= j < residues@.len() ==> 1 <= #[trigger] residues@[j] < i
                && wheel_coprime(residues@[j], modulus),
            forall|j: int| 0 <= j && j + 1 < residues@.len() ==> #[trigger] residues@[j]
                < residues@[j + 1],
            forall|v: u32| 1 <= v < i && wheel_coprime(v, modulus) ==> residues@.contains(v),
        decreases modulus - i,
    {
        let ghost prev = residues@;
        if is_coprime_to_wheel_primes(i, modulus) {
            residues.push(i);
            proof {
                assert forall|v: u32| 1 <= v < i + 1 && wheel_coprime(v, modulus) implies
                    residues@.contains(v) by {
                    if v == i {
                        assert(residues@[residues@.len() - 1] == i);
                    } else {
                        assert(prev.contains(v));
                        let j = choose|j: int| 0 <= j < prev.len() && prev[j] == v;
                        assert(residues@[j] == v);
                    }
                }
            }
        }
        i = i + 1;
    }
    residues
}

/// Selects the wheel for a target bit length: the 210-wheel for lengths in
/// `(512, 2048]`, otherwise the 30-wheel, and returns its residue table.
pub fn select_optimal_wheel(bit_length: u32) -> (r: Vec<u32>)
    ensures
        512 < bit_length <= 2048 ==> residues_ok(r@, 210),
        !(512 < bit_length <= 2048) ==> residues_ok(r@, 30),
{
    if bit_length > 512 && bit_length <= 2048 {
        generate_wheel_residues(210)
    } else {
        generate_wheel_residues(30)
    }
}

/// A remainder of zero by a positive number is divisibility.
proof fn lemma_mod_zero_to_divides(d: nat, n: nat)
    requires
        d > 0,
        n % d == 0,
    ensures
        crate::arith::divides(d, n),
{
    vstd::arithmetic::div_mod::lemma_fundamental_div_mod(n as int, d as int);
    assert(n == d * (n / d));
}

/// Divisibility is transitive.
proof fn lemma_divides_transitive(a: nat, b: nat, c: nat)
    requires
        crate::arith::divides(a, b),
        crate::arith::divides(b, c),
    ensures
        crate::arith::divides(a, c),
{
    let j = choose|j: nat| b == #[trigger] (a * j);
    let k = choose|k: nat| c == #[trigger] (b * k);
    assert(c == a * (j * k)) by (nonlinear_arith)
        requires
            b == a * j,
            c == b * k,
    ;
}

/// A positive number is at least as large as each of its divisors.
proof fn lemma_divides_le(d: nat, n: nat)
    requires
        n > 0,
        crate::arith::divides(d, n),
    ensures
        0 < d <= n,
{
    let k = choose|k: nat| n == #[trigger] (d * k);
    assert(d <= n && d > 0) by (nonlinear_arith)
        requires
            n == d * k,
            n > 0,
    ;
}

/// Every residue of the 30-wheel is coprime to 30, and every residue of the
/// 210-wheel is coprime to 210: a common divisor above one would carry one of
/// the wheel's base primes, which the residue avoids.
pub proof fn lemma_wheel_residues_coprime(v: u32, m: u32)
    requires
        m == 30 || m == 210,
        1 <= v < m,
        wheel_coprime(v, m),
    ensures
        gcd_nat(v as nat, m as nat) == 1,
{
    let g = gcd_nat(v as nat, m as nat);
    crate::arith::lemma_gcd_divides(v as nat, m as nat);
    crate::arith::lemma_gcd_zero(v as nat, m as nat);
    lemma_divides_le(g, m as nat);
    crate::arith::lemma_divides_to_mod_zero(g, m as nat);
    let gu = g as u32;
    if m == 30 {
        assert(gu == 1 || gu % 2 == 0 || gu % 3 == 0 || gu % 5 == 0) by (bit_vector)
            requires
                1 <= gu <= 30,
                30u32 % gu == 0,
        ;
    } else {
        assert(gu == 1 || gu % 2 == 0 || gu % 3 == 0 || gu % 5 == 0 || gu % 7 == 0) by (bit_vector)
            requires
                1 <= gu <= 210,
                210u32 % gu == 0,
        ;
    }
    if g != 1 {
        let f: nat = if g % 2 == 0 {
            2
        } else if g % 3 == 0 {
            3
        } else if g % 5 == 0 {
            5
        } else {
            7
        };
        lemma_mod_zero_to_divides(f, g);
        lemma_divides_transitive(f, g, v as nat);
        crate::arith::lemma_divides_to_mod_zero(f, v as nat);
    }
}

/// Strict adjacent increase gives strict increase between any two indexes.
proof fn lemma_sorted_pair(s: Seq<u32>, j: int, k: int)
    requires
        forall|t: int| 0 <= t && t + 1 < s.len() ==> #[trigger] s[t] < s[t + 1],
        0 <= j < k < s.len(),
    ensures
        s[j] < s[k],
    decreases k - j,
{
    if j + 1 < k {
        lemma_sorted_pair(s, j + 1, k);
    }
}

/// A multiple of a positive number added to a value does not change its
/// remainder by that number.
proof fn lemma_multiple_plus_mod(b: nat, r: nat, f: nat)
    requires
        f > 0,
        b % f == 0,
    ensures
        (b + r) % f == r % f,
{
    vstd::arithmetic::div_mod::lemma_fundamental_div_mod(b as int, f as int);
    vstd::arithmetic::div_mod::lemma_mod_multiples_vanish((b / f) as int, r as int, f as int);
    assert(f as int * ((b / f) as int) == (b / f) as int * (f as int)) by (nonlinear_arith);
}

/// Divisibility chains through a divisor of the modulus.
proof fn lemma_mod_zero_through(b: nat, m: nat, f: nat)
    requires
        f > 0,
        m > 0,
        b % m == 0,
        m % f == 0,
    ensures
        b % f == 0,
{
    vstd::arithmetic::div_mod::lemma_fundamental_div_mod(b as int, m as int);
    vstd::arithmetic::div_mod::lemma_fundamental_div_mod(m as int, f as int);
    let q = (b / m) as int;
    let k = (m / f) as int;
    assert(b == f * (k * q)) by (nonlinear_arith)
        requires
            b == m as int * q + 0,
            m == f as int * k + 0,
    ;
    vstd::arithmetic::div_mod::lemma_mod_multiples_basic(k * q, f as int);
    assert(f as int * (k * q) == (k * q) * f as int) by (nonlinear_arith);
}

/// An offset below the modulus, added to a multiple of the modulus, is its
/// own residue class.
proof fn lemma_block_offset(base: int, d: int, m: u32)
    requires
        m > 0,
        base >= 0,
        base % (m as int) == 0,
        0 <= d < m as int,
    ensures
        (base + d) % (m as int) == d,
{
    let mi = m as int;
    vstd::arithmetic::div_mod::lemma_fundamental_div_mod(base, mi);
    assert(base == mi * (base / mi));
    vstd::arithmetic::div_mod::lemma_mod_multiples_vanish(base / mi, d, mi);
    vstd::arithmetic::div_mod::lemma_small_mod(d as nat, m as nat);
}

/// The first entry of a wheel residue table is one.
proof fn lemma_first_residue_one(s: Seq<u32>, m: u32)
    requires
        residues_ok(s, m),
        m == 30 || m == 210,
    ensures
        s.len() > 0,
        s[0] == 1,
{
    assert(wheel_coprime(1, m));
    assert(s.contains(1u32));
    let j = choose|j: int| 0 <= j < s.len() && s[j] == 1u32;
    if j > 0 {
        lemma_sorted_pair(s, 0, j);
    }
}

/// The wheel cursor: enumerates `base + residues[index]`, advancing the base
/// by the wheel modulus on wraparound, an infinite strictly increasing
/// sequence of candidates coprime to the wheel's base primes.
pub struct WheelIterator {
    base: u64,
    residues: Vec<u32>,
    index: usize,
    wheel_size: u64,
}

impl WheelIterator {
    /// The cursor's structural invariant.
    pub closed spec fn wf(&self) -> bool {
        &&& (self.wheel_size == 30 || self.wheel_size == 210)
        &&& self.index < self.residues@.len()
        &&& (self.base as nat) % (self.wheel_size as nat) == 0
        &&& residues_ok(self.residues@, self.wheel_size as u32)
    }

    /// The wheel modulus.
    pub closed spec fn modulus_val(&self) -> u64 {
        self.wheel_size
    }

    /// The base multiple of the modulus the cursor stands on.
    pub closed spec fn base_val(&self) -> u64 {
        self.base
    }

    /// The candidate the cursor will yield next.
    pub closed spec fn current(&self) -> int {
        self.base + self.residues@[self.index as int]
    }

    /// Positions a cursor at the first wheel candidate at or above `start`:
    /// the current candidate is on the wheel, and nothing on the wheel lies
    /// in between.
    pub fn new(start: u64, wheel: WheelKind) -> (r: WheelIterator)
        requires
            start <= u64::MAX - 210,
        ensures
            r.wf(),
            r.modulus_val() == wheel.modulus_spec(),
            start <= r.current(),
            r.base_val() <= start,
            wheel_candidate(r.current(), wheel.modulus_spec() as u32),
            forall|c: int| start <= c < r.current() ==> !(#[trigger] wheel_candidate(
                c,
                wheel.modulus_spec() as u32,
            )),
    {
        let wheel_size = infer_wheel_size(&wheel);
        let residues = generate_wheel_residues(wheel_size as u32);

        let base = start - start % wheel_size;
        proof {
            vstd::arithmetic::div_mod::lemma_fundamental_div_mod(start as int, wheel_size as int);
            vstd::arithmetic::div_mod::lemma_mod_multiples_basic(
                (start as int) / (wheel_size as int),
                wheel_size as int,
            );
            // The top residue of either wheel is its modulus less one, so a
            // candidate at or above `start` always exists in this block.
            if wheel_size == 30 {
                assert(wheel_coprime(29, 30));
            } else {
                assert(wheel_coprime(209, 210));
            }
            let s = residues@;
            let top = (wheel_size - 1) as u32;
            assert(s.contains(top));
            let j = choose|j: int| 0 <= j < s.len() && s[j] == top;
            if j < s.len() - 1 {
                lemma_sorted_pair(s, j, s.len() - 1);
            }
            assert(s[s.len() - 1] == top);
        }

        let n = residues.len();
        let mut index: usize = 0;
        let mut i: usize = 0;
        loop
            invariant_except_break
                i < n,
                forall|j2: int| 0 <= j2 < i ==> base + #[trigger] residues@[j2] < start,
            invariant
                n == residues@.len(),
                n > 0,
                residues@[n - 1] as int == wheel_size - 1,
                base <= start <= u64::MAX - 210,
                base + wheel_size > start,
                wheel_size == 30 || wheel_size == 210,
                forall|j: int| 0 <= j < residues@.len() ==> 1 <= #[trigger] residues@[j]
                    < wheel_size,
            ensures
                index < n,
                base + residues@[index as int] >= start,
                forall|j2: int| 0 <= j2 < index ==> base + #[trigger] residues@[j2] < start,
            decreases n - i,
        {
            if base + (residues[i] as u64) >= start {
                index = i;
                break;
            }
            i = i + 1;
            if i >= n {
                // Unreachable: the top residue always qualifies.
                assert(false);
            }
        }

        proof {
            let s = residues@;
            let m = wheel_size as u32;
            let bi = base as int;
            let cur = bi + s[index as int];
            lemma_block_offset(bi, s[index as int] as int, m);
            assert(wheel_candidate(cur, m));
            assert forall|c: int| start <= c < cur implies !wheel_candidate(c, m) by {
                if wheel_candidate(c, m) {
                    let d = c - bi;
                    assert(0 <= d < m as int);
                    lemma_block_offset(bi, d, m);
                    assert(wheel_coprime(d as u32, m));
                    assert(d >= 1);
                    assert(s.contains(d as u32));
                    let j = choose|j: int| 0 <= j < s.len() && s[j] == d as u32;
                    assert(bi + s[j] == c);
                    assert(j >= index);
                    if j > index {
                        lemma_sorted_pair(s, index as int, j);
                    }
                    assert(false);
                }
            }
        }
        WheelIterator { base, residues, index, wheel_size }
    }

    /// Yields the cursor's current candidate and steps past it: the output is
    /// on the wheel, strictly increasing across calls, and no wheel candidate
    /// lies between the yielded value and the cursor's next one.
    pub fn advance(&mut self) -> (r: u64)
        requires
            old(self).wf(),
            old(self).base_val() + 2 * old(self).modulus_val() <= u64::MAX,
        ensures
            final(self).wf(),
            r == old(self).current(),
            final(self).current() > r,
            final(self).modulus_val() == old(self).modulus_val(),
            final(self).base_val() <= old(self).base_val() + old(self).modulus_val(),
            r % 2 != 0 && r % 3 != 0 && r % 5 != 0,
            final(self).modulus_val() == 210 ==> r % 7 != 0,
            wheel_candidate(r as int, old(self).modulus_val() as u32),
            wheel_candidate(final(self).current(), old(self).modulus_val() as u32),
            forall|c: int| r < c < final(self).current() ==> !(#[trigger] wheel_candidate(
                c,
                old(self).modulus_val() as u32,
            )),
    {
        let ghost s0 = self.residues@;
        let ghost i0 = self.index as int;
        let ghost b0 = self.base as int;
        let ghost m0 = self.wheel_size as u32;
        let result = self.base + (self.residues[self.index] as u64);

        proof {
            let res = self.residues@[self.index as int] as nat;
            let m = self.wheel_size as nat;
            let bs = self.base as nat;
            assert(wheel_coprime(self.residues@[self.index as int], m as u32));
            lemma_mod_zero_through(bs, m, 2);
            lemma_multiple_plus_mod(bs, res, 2);
            lemma_mod_zero_through(bs, m, 3);
            lemma_multiple_plus_mod(bs, res, 3);
            lemma_mod_zero_through(bs, m, 5);
            lemma_multiple_plus_mod(bs, res, 5);
            if m == 210 {
                lemma_mod_zero_through(bs, m, 7);
                lemma_multiple_plus_mod(bs, res, 7);
            }
        }

        let n = self.residues.len();
        self.index = self.index + 1;
        if self.index >= n {
            self.index = 0;
            proof {
                vstd::arithmetic::div_mod::lemma_mod_add_multiples_vanish(
                    self.base as int,
                    self.wheel_size as int,
                );
            }
            self.base = self.base + self.wheel_size;
        }
        proof {
            if self.index > 0 {
                lemma_sorted_pair(self.residues@, self.index - 1, self.index as int);
            }
            lemma_block_offset(b0, s0[i0] as int, m0);
            assert(wheel_candidate(result as int, m0));
            lemma_block_offset(
                self.base as int,
                self.residues@[self.index as int] as int,
                m0,
            );
            assert(wheel_candidate(self.current(), m0));
            let curv = self.current();
            assert forall|c: int| result < c < curv implies !wheel_candidate(c, m0) by {
                if wheel_candidate(c, m0) {
                    if c < b0 + m0 as int {
                        let d = c - b0;
                        assert(0 <= d < m0 as int);
                        lemma_block_offset(b0, d, m0);
                        assert(wheel_coprime(d as u32, m0));
                        assert(s0.contains(d as u32));
                        let j = choose|j: int| 0 <= j < s0.len() && s0[j] == d as u32;
                        assert(s0[j] > s0[i0]);
                        if j < i0 {
                            lemma_sorted_pair(s0, j, i0);
                        }
                        assert(j > i0);
                        if self.index == 0 {
                            // Wrapped, so i0 was the last index: nothing above it.
                            assert(j <= s0.len() - 1);
                            assert(false);
                        } else {
                            assert(self.index as int == i0 + 1);
                            assert(d < s0[i0 + 1]);
                            if j > i0 + 1 {
                                lemma_sorted_pair(s0, i0 + 1, j);
                            }
                            assert(s0[j] >= s0[i0 + 1]);
                            assert(false);
                        }
                    } else {
                        // Past the block: only the wrap's next candidate is
                        // above it, and the block boundary itself is a
                        // multiple of the modulus.
                        assert(self.index == 0);
                        lemma_first_residue_one(s0, m0);
                        assert(curv == b0 + m0 as int + 1);
                        assert(c == b0 + m0 as int);
                        assert((b0 + m0 as int) % (m0 as int) == 0) by {
                            vstd::arithmetic::div_mod::lemma_mod_add_multiples_vanish(
                                b0,
                                m0 as int,
                            );
                        }
                        assert(!wheel_coprime(0u32, m0));
                        assert(false);
                    }
                }
            }
        }
        result
    }
}

/// Infers the modulus of a wheel from its identifier.
pub fn infer_wheel_size(wheel: &WheelKind) -> (r: u64)
    ensures
        r == wheel.modulus_spec(),
{
    match wheel {
        WheelKind::Wheel30 => 30,
        WheelKind::Wheel210 => 210,
    }
}

} // verus!

