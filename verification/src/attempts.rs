//! Attempt budget estimator: the heuristic retry ceiling
//! `floor(100 * bit_length^1.4)`. Since `1.4 == 7/5`, that value is exactly
//! the integer fifth root of `100^5 * bit_length^7`, which is computed here
//! in plain integer arithmetic.

use vstd::prelude::*;

verus! {

/// `x` to the fifth power.
pub open spec fn pow5(x: nat) -> nat {
    x * x * x * x * x
}

/// `x` to the seventh power.
pub open spec fn pow7(x: nat) -> nat {
    x * x * x * x * x * x * x
}

/// The number whose integer fifth root is the attempt budget:
/// `100^5 * bit_length^7`.
pub open spec fn attempts_radicand(b: nat) -> nat {
    10000000000 * pow7(b)
}

/// Calculates the maximum number of allowed attempts to generate a prime,
/// dynamically scaling with the requested bit length: the integer part of
/// `100 * bit_length^1.4`, pinned down as the integer fifth root of
/// `100^5 * bit_length^7`.
pub fn calculate_max_attempts(bit_length: u32) -> (r: u32)
    requires
        bit_length <= 4096,
    ensures
        pow5(r as nat) <= attempts_radicand(bit_length as nat),
        attempts_radicand(bit_length as nat) < pow5((r + 1) as nat),
{
    let b: u128 = bit_length as u128;
    proof {
        assert(b * b <= 0x1000000) by (nonlinear_arith)
            requires
                b <= 4096,
        ;
    }
    let b2: u128 = b * b;
    proof {
        assert(b2 * b2 <= 0x1000000000000) by (nonlinear_arith)
            requires
                b2 <= 0x1000000,
        ;
    }
    let b4: u128 = b2 * b2;
    proof {
        assert(b4 * b2 <= 0x1000000000000000000) by (nonlinear_arith)
            requires
                b4 <= 0x1000000000000,
                b2 <= 0x1000000,
        ;
    }
    let b6: u128 = b4 * b2;
    proof {
        assert(b6 * b <= 0x1000000000000000000000) by (nonlinear_arith)
            requires
                b6 <= 0x1000000000000000000,
                b <= 4096,
        ;
    }
    let b7: u128 = b6 * b;
    proof {
        assert(b7 as nat == pow7(b as nat)) by (nonlinear_arith)
            requires
                b2 == b * b,
                b4 == b2 * b2,
                b6 == b4 * b2,
                b7 == b6 * b,
        ;
        assert(10000000000 * b7 < 0x1000000000000000000000000000000) by (nonlinear_arith)
            requires
                b7 <= 0x1000000000000000000000,
        ;
    }
    let radicand: u128 = 10000000000u128 * b7;

    let mut lo: u128 = 0;
    let mut hi: u128 = 0x1000000;
    proof {
        assert(pow5(0x1000000) == 0x1000000000000000000000000000000) by (nonlinear_arith);
    }
    while lo + 1 < hi
        invariant
            lo < hi <= 0x1000000,
            pow5(lo as nat) <= radicand as nat,
            (radicand as nat) < pow5(hi as nat),
            radicand as nat == attempts_radicand(bit_length as nat),
        decreases hi - lo,
    {
        let mid: u128 = lo + (hi - lo) / 2;
        proof {
            assert(mid * mid <= 0x1000000000000) by (nonlinear_arith)
                requires
                    mid <= 0x1000000,
            ;
        }
        let m2: u128 = mid * mid;
        proof {
            assert(m2 * m2 <= 0x1000000000000000000000000) by (nonlinear_arith)
                requires
                    m2 <= 0x1000000000000,
            ;
        }
        let m4: u128 = m2 * m2;
        proof {
            assert(m4 * mid <= 0x1000000000000000000000000000000 && m4 * mid == pow5(mid as nat))
                by (nonlinear_arith)
                requires
                    m4 <= 0x1000000000000000000000000,
                    mid <= 0x1000000,
                    m2 == mid * mid,
                    m4 == m2 * m2,
            ;
        }
        let m5: u128 = m4 * mid;
        if m5 <= radicand {
            lo = mid;
        } else {
            hi = mid;
        }
    }
    proof {
        assert(lo + 1 == hi);
        assert(lo < 0x100000000);
    }
    lo as u32
}

} // verus!
