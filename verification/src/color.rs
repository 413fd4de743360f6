//! Color intensity transform for the layered envelope draw: each channel
//! is rescaled by the fifth root of the layer scale, a non-linear
//! brightness falloff for the fainter inner layer.

use crate::geom::Rgb;
use crate::num::ONE;
use crate::num::fifth_root;
use crate::num::lemma_pow5_strictly_increases;
use crate::num::pow5;
use vstd::arithmetic::div_mod::lemma_div_is_ordered;
use vstd::arithmetic::div_mod::lemma_div_multiples_vanish;
use vstd::arithmetic::div_mod::lemma_div_pos_is_pos;
use vstd::arithmetic::mul::lemma_mul_upper_bound;
use vstd::prelude::*;

verus! {

/// The integer fifth root of a nonnegative integer: the largest `r` with
/// `pow5(r) <= x`.
pub open spec fn root5_spec(x: int) -> int
    decreases x,
{
    if x <= 0 {
        0
    } else {
        let r = root5_spec(x - 1);
        if pow5(r + 1) <= x {
            r + 1
        } else {
            r
        }
    }
}

/// [`root5_spec`] satisfies the defining bracket of the fifth root.
pub proof fn lemma_root5_spec_correct(x: int)
    requires
        x >= 0,
    ensures
        0 <= root5_spec(x),
        pow5(root5_spec(x)) <= x < pow5(root5_spec(x) + 1),
    decreases x,
{
    if x == 0 {
        assert(pow5(0) == 0);
        assert(pow5(1) == 1);
    } else {
        lemma_root5_spec_correct(x - 1);
        let r = root5_spec(x - 1);
        if pow5(r + 1) <= x {
            assert(x == pow5(r + 1));
            lemma_pow5_strictly_increases(r + 1, r + 2);
        }
    }
}

/// The fifth-root bracket pins the root down uniquely.
pub proof fn lemma_root5_unique(x: int, r: int)
    requires
        0 <= r,
        pow5(r) <= x < pow5(r + 1),
    ensures
        r == root5_spec(x),
{
    lemma_root5_spec_correct(x);
    let s = root5_spec(x);
    if r < s {
        lemma_pow5_strictly_increases(r, s);
        crate::num::lemma_pow5_increases(r + 1, s);
        assert(false);
    }
    if r > s {
        crate::num::lemma_pow5_increases(s + 1, r);
        assert(false);
    }
}

/// One channel rescaled for a layer drawn at `scale`: the channel times
/// the fifth root of the scale, in fixed-point units.
pub open spec fn scaled_channel_spec(c: u8, scale: int) -> int {
    (c * root5_spec(scale * (ONE * ONE * ONE * ONE))) / (ONE as int)
}

/// A color rescaled for a layer drawn at `scale`.
pub open spec fn scale_color_spec(color: Rgb, scale: int) -> Rgb {
    Rgb {
        r: scaled_channel_spec(color.r, scale) as u8,
        g: scaled_channel_spec(color.g, scale) as u8,
        b: scaled_channel_spec(color.b, scale) as u8,
    }
}

/// One channel of the executable color transform.
fn scale_channel(c: u8, r5: u64) -> (r: u8)
    requires
        r5 <= ONE,
    ensures
        r == (c * r5 as int) / ONE as int,
{
    proof {
        lemma_mul_upper_bound(c as int, 255, r5 as int, ONE as int);
        lemma_div_is_ordered(c as int * r5 as int, 255 * ONE as int, ONE as int);
        assert((ONE as int * 255) / ONE as int == 255) by {
            lemma_div_multiples_vanish(255, ONE as int);
        }
        vstd::arithmetic::mul::lemma_mul_nonnegative(c as int, r5 as int);
        lemma_div_pos_is_pos(c as int * r5 as int, ONE as int);
    }
    let wide: u64 = (c as u64) * r5;
    let q: u64 = wide / (ONE as u64);
    q as u8
}

/// Executable counterpart of [`scale_color_spec`]. A full-scale layer
/// keeps the color unchanged.
pub fn scale_color(color: &Rgb, scale: i64) -> (r: Rgb)
    requires
        0 <= scale <= ONE,
    ensures
        r == scale_color_spec(*color, scale as int),
        scale == ONE ==> r == *color,
{
    let x0: u128 = scale as u128;
    proof {
        lemma_mul_upper_bound(x0 as int, ONE as int, 0x1_0000_0000_0000_0000, 0x1_0000_0000_0000_0000);
        lemma_mul_upper_bound(x0 as int, ONE as int, ONE as int, ONE as int);
        lemma_mul_upper_bound((x0 * (ONE as u128)) as int, (ONE * ONE) as int, ONE as int, ONE as int);
        lemma_mul_upper_bound(
            (x0 * (ONE as u128) * (ONE as u128)) as int,
            (ONE * ONE * ONE) as int,
            ONE as int,
            ONE as int,
        );
        lemma_mul_upper_bound(
            (x0 * (ONE as u128) * (ONE as u128) * (ONE as u128)) as int,
            (ONE * ONE * ONE * ONE) as int,
            ONE as int,
            ONE as int,
        );
    }
    let x: u128 = x0 * (ONE as u128) * (ONE as u128) * (ONE as u128) * (ONE as u128);
    proof {
        assert(pow5(ONE as int) == 0x1_0000_0000_0000_0000_0000) by (nonlinear_arith);
        assert(x <= pow5(ONE as int));
    }
    let r5: u64 = fifth_root(x);
    proof {
        lemma_root5_unique(x as int, r5 as int);
        if scale == ONE {
            assert(x == pow5(ONE as int));
            lemma_pow5_strictly_increases(ONE as int, ONE + 1);
            lemma_root5_unique(x as int, ONE as int);
            lemma_div_multiples_vanish(color.r as int, ONE as int);
            vstd::arithmetic::mul::lemma_mul_is_commutative(color.r as int, ONE as int);
            lemma_div_multiples_vanish(color.g as int, ONE as int);
            vstd::arithmetic::mul::lemma_mul_is_commutative(color.g as int, ONE as int);
            lemma_div_multiples_vanish(color.b as int, ONE as int);
            vstd::arithmetic::mul::lemma_mul_is_commutative(color.b as int, ONE as int);
        }
    }
    Rgb {
        r: scale_channel(color.r, r5),
        g: scale_channel(color.g, r5),
        b: scale_channel(color.b, r5),
    }
}

} // verus!
