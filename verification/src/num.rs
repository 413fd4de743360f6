//! Fixed-point scalar arithmetic: the unit scale, truncating division and
//! clamping, shared by the reducers and the coordinate transforms.

use vstd::arithmetic::div_mod::lemma_div_is_ordered;
use vstd::arithmetic::div_mod::lemma_div_multiples_vanish;
use vstd::arithmetic::div_mod::lemma_div_pos_is_pos;
use vstd::arithmetic::div_mod::lemma_fundamental_div_mod;
use vstd::arithmetic::mul::lemma_mul_is_distributive_add;
use vstd::arithmetic::mul::lemma_mul_unary_negation;
use vstd::arithmetic::mul::lemma_mul_upper_bound;
use vstd::prelude::*;

verus! {

/// Number of fixed-point units in one pixel and in one unit of amplitude.
/// An amplitude of `ONE` stands for the full-scale signal value `1.0`; a
/// coordinate of `ONE` stands for one pixel.
pub const ONE: i64 = 65536;

/// Largest magnitude a rectangle coordinate or side may have, in units.
pub const MAX_COORD: i64 = 0x1_0000_0000;

/// Largest magnitude accepted for a constant line's level, in amplitude units.
pub const MAX_AMP: i64 = 0x1_0000_0000;

/// Largest sample count a reducer accepts.
pub const MAX_SAMPLES: u64 = 0x1_0000_0000;

/// Division rounding toward zero, for a positive divisor: the rounding the
/// executable fixed-point arithmetic uses.
pub open spec fn tdiv(a: int, d: int) -> int {
    if a >= 0 {
        a / d
    } else {
        -((-a) / d)
    }
}

/// `v` forced into the closed interval `[lo, hi]`.
pub open spec fn clamp_spec(v: int, lo: int, hi: int) -> int {
    if v < lo {
        lo
    } else if v > hi {
        hi
    } else {
        v
    }
}

/// Truncating division on wide integers; the divisor must be positive.
pub fn div_fix(a: i128, d: i128) -> (r: i128)
    requires
        d > 0,
    ensures
        r == tdiv(a as int, d as int),
{
    let q = a.checked_div(d);
    q.unwrap()
}

/// An amplitude forced into the full-scale range `[-ONE, ONE]`.
pub fn clamp_amp(v: i128) -> (r: i64)
    ensures
        r == clamp_spec(v as int, -ONE as int, ONE as int),
{
    if v < -(ONE as i128) {
        -ONE
    } else if v > ONE as i128 {
        ONE
    } else {
        v as i64
    }
}

/// Truncating division stays between `lo` and `hi` whenever the dividend
/// stays between `d * lo` and `d * hi`.
pub proof fn lemma_tdiv_bounds(a: int, d: int, lo: int, hi: int)
    requires
        d > 0,
        lo <= 0 <= hi,
        d * lo <= a <= d * hi,
    ensures
        lo <= tdiv(a, d) <= hi,
{
    if a >= 0 {
        lemma_div_pos_is_pos(a, d);
        lemma_div_is_ordered(a, d * hi, d);
        lemma_div_multiples_vanish(hi, d);
    } else {
        lemma_mul_unary_negation(d, lo);
        assert(-a <= d * (-lo));
        lemma_div_pos_is_pos(-a, d);
        lemma_div_is_ordered(-a, d * (-lo), d);
        lemma_div_multiples_vanish(-lo, d);
    }
}

/// Flooring division is superadditive: dividing a sum never gives less
/// than the sum of the divided parts.
pub proof fn lemma_div_superadditive(a: int, b: int, d: int)
    requires
        d > 0,
    ensures
        a / d + b / d <= (a + b) / d,
{
    lemma_fundamental_div_mod(a, d);
    lemma_fundamental_div_mod(b, d);
    lemma_mul_is_distributive_add(d, a / d, b / d);
    assert(d * (a / d + b / d) <= a + b);
    lemma_div_is_ordered(d * (a / d + b / d), a + b, d);
    lemma_div_multiples_vanish(a / d + b / d, d);
}

/// The quotient is pinned down by bracketing the dividend between two
/// adjacent multiples of the divisor.
pub proof fn lemma_div_range(x: int, d: int, q: int)
    requires
        d > 0,
        d * q <= x < d * (q + 1),
    ensures
        x / d == q,
{
    lemma_fundamental_div_mod(x, d);
    let qq = x / d;
    if qq < q {
        vstd::arithmetic::mul::lemma_mul_inequality(qq + 1, q, d);
        assert(d * qq + d <= d * q) by {
            lemma_mul_is_distributive_add(d, qq, 1);
            vstd::arithmetic::mul::lemma_mul_is_commutative(qq + 1, d);
            vstd::arithmetic::mul::lemma_mul_is_commutative(q, d);
        }
        assert(false);
    }
    if qq > q {
        vstd::arithmetic::mul::lemma_mul_inequality(q + 1, qq, d);
        assert(d * (q + 1) <= d * qq) by {
            vstd::arithmetic::mul::lemma_mul_is_commutative(q + 1, d);
            vstd::arithmetic::mul::lemma_mul_is_commutative(qq, d);
        }
        assert(false);
    }
}

/// Truncating division agrees with flooring division up to one unit:
/// it floors for a nonnegative dividend and rounds up for a negative one.
pub proof fn lemma_tdiv_vs_floor(x: int, d: int)
    requires
        d > 0,
    ensures
        x / d <= tdiv(x, d) <= x / d + 1,
{
    if x >= 0 {
    } else {
        lemma_fundamental_div_mod(x, d);
        let q = x / d;
        let r = x % d;
        if r == 0 {
            assert(-x == d * (-q)) by {
                lemma_mul_unary_negation(d, q);
            }
            lemma_div_multiples_vanish(-q, d);
        } else {
            assert(d * (-q - 1) <= -x < d * (-q - 1 + 1)) by {
                lemma_mul_unary_negation(d, q);
                lemma_mul_is_distributive_add(d, -q, -1);
                assert(d * -1 == -d) by {
                    lemma_mul_unary_negation(d, 1);
                    vstd::arithmetic::mul::lemma_mul_basics(d);
                }
            }
            lemma_div_range(-x, d, -q - 1);
        }
    }
}

/// The fifth power of an integer.
pub open spec fn pow5(r: int) -> int {
    r * r * r * r * r
}

/// Fifth powers respect the order of nonnegative integers.
pub proof fn lemma_pow5_increases(a: int, b: int)
    requires
        0 <= a <= b,
    ensures
        pow5(a) <= pow5(b),
{
    assert(pow5(a) <= pow5(b)) by (nonlinear_arith)
        requires
            0 <= a <= b,
    ;
}

/// Fifth powers respect strict order of nonnegative integers.
pub proof fn lemma_pow5_strictly_increases(a: int, b: int)
    requires
        0 <= a < b,
    ensures
        pow5(a) < pow5(b),
{
    assert(pow5(a) < pow5(b)) by (nonlinear_arith)
        requires
            0 <= a < b,
    ;
}

/// The integer fifth root: the largest `r` whose fifth power does not
/// exceed `x`. Used to model the perceptual brightness falloff of the
/// layered envelope draw.
pub fn fifth_root(x: u128) -> (r: u64)
    requires
        x <= pow5(ONE as int),
    ensures
        r <= ONE,
        pow5(r as int) <= x < pow5(r as int + 1),
{
    let mut lo: u64 = 0;
    let mut hi: u64 = 65537;
    proof {
        assert(pow5(0) == 0);
        lemma_pow5_strictly_increases(ONE as int, 65537);
    }
    while lo + 1 < hi
        invariant
            lo < hi <= 65537,
            pow5(lo as int) <= x,
            x < pow5(hi as int),
        decreases hi - lo,
    {
        let mid: u64 = lo + (hi - lo) / 2;
        let m: u128 = mid as u128;
        proof {
            lemma_mul_upper_bound(m as int, 65537, m as int, 65537);
        }
        let m2: u128 = m * m;
        proof {
            lemma_mul_upper_bound(m2 as int, (65537 * 65537) as int, m2 as int, (65537 * 65537) as int);
        }
        let m4: u128 = m2 * m2;
        proof {
            lemma_mul_upper_bound(m4 as int, (65537 * 65537 * 65537 * 65537) as int, m as int, 65537);
        }
        let m5: u128 = m4 * m;
        proof {
            assert(m5 == pow5(mid as int)) by (nonlinear_arith)
                requires
                    m == mid,
                    m2 == m * m,
                    m4 == m2 * m2,
                    m5 == m4 * m,
            ;
        }
        if m5 <= x {
            lo = mid;
        } else {
            hi = mid;
        }
    }
    proof {
        assert(hi == lo + 1);
    }
    lo
}

} // verus!
