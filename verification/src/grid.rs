//! The grid generator: evenly spaced reference lines over the plot area,
//! `x_divisions + 1` vertical and `y_divisions + 1` horizontal lines,
//! inclusive of both edges.

use crate::geom::PathEl;
use crate::geom::Point;
use crate::geom::Rect;
use crate::num::lemma_div_range;
use vstd::arithmetic::div_mod::lemma_div_is_ordered;
use vstd::arithmetic::div_mod::lemma_div_multiples_vanish;
use vstd::arithmetic::div_mod::lemma_fundamental_div_mod;
use vstd::arithmetic::mul::lemma_mul_inequality;
use vstd::arithmetic::mul::lemma_mul_is_associative;
use vstd::arithmetic::mul::lemma_mul_is_commutative;
use vstd::arithmetic::mul::lemma_mul_is_distributive_add_other_way;
use vstd::prelude::*;

verus! {

/// Largest accepted number of grid divisions along either axis.
pub const MAX_DIVS: u32 = 0x1000_0000;

/// Horizontal position of vertical grid line `i` out of `d` divisions.
pub open spec fn grid_x_spec(rect: Rect, d: int, i: int) -> int {
    rect.x + (i * rect.w) / d
}

/// Vertical position of horizontal grid line `i` out of `d` divisions.
pub open spec fn grid_y_spec(rect: Rect, d: int, i: int) -> int {
    rect.y + (i * rect.h) / d
}

/// The whole grid path: for each vertical line a move to its top and a
/// line to its bottom, then for each horizontal line a move to its left
/// end and a line to its right end.
pub open spec fn grid_path_spec(rect: Rect, xd: int, yd: int) -> Seq<PathEl> {
    Seq::new(
        (2 * (xd + 1) + 2 * (yd + 1)) as nat,
        |k: int|
            if k < 2 * (xd + 1) {
                let i = k / 2;
                if k % 2 == 0 {
                    PathEl::MoveTo(Point { x: grid_x_spec(rect, xd, i) as i64, y: rect.y })
                } else {
                    PathEl::LineTo(
                        Point {
                            x: grid_x_spec(rect, xd, i) as i64,
                            y: (rect.y + rect.h) as i64,
                        },
                    )
                }
            } else {
                let i = (k - 2 * (xd + 1)) / 2;
                if k % 2 == 0 {
                    PathEl::MoveTo(Point { x: rect.x, y: grid_y_spec(rect, yd, i) as i64 })
                } else {
                    PathEl::LineTo(
                        Point {
                            x: (rect.x + rect.w) as i64,
                            y: grid_y_spec(rect, yd, i) as i64,
                        },
                    )
                }
            },
    )
}

/// Division positions stay within the rectangle's side.
proof fn lemma_grid_pos_in_range(side: int, d: int, i: int)
    requires
        0 < side,
        1 <= d,
        0 <= i <= d,
    ensures
        0 <= (i * side) / d <= side,
{
    lemma_mul_inequality(i, d, side);
    lemma_div_is_ordered(i * side, d * side, d);
    lemma_mul_is_commutative(d, side);
    lemma_div_multiples_vanish(side, d);
    vstd::arithmetic::div_mod::lemma_div_pos_is_pos(i * side, d);
    vstd::arithmetic::mul::lemma_mul_nonnegative(i, side);
}

/// Executable grid path builder.
pub fn grid_path(rect: &Rect, xd: u32, yd: u32) -> (r: Vec<PathEl>)
    requires
        rect.valid(),
        1 <= xd <= MAX_DIVS,
        1 <= yd <= MAX_DIVS,
    ensures
        r@ == grid_path_spec(*rect, xd as int, yd as int),
        r@.len() == 2 * (xd + 1) + 2 * (yd + 1),
{
    let ghost gspec = grid_path_spec(*rect, xd as int, yd as int);
    let mut r: Vec<PathEl> = Vec::new();
    let mut i: u32 = 0;
    while i <= xd
        invariant
            rect.valid(),
            1 <= xd <= MAX_DIVS,
            1 <= yd <= MAX_DIVS,
            i <= xd + 1,
            r@.len() == 2 * i,
            gspec == grid_path_spec(*rect, xd as int, yd as int),
            forall|k: int| 0 <= k < r@.len() ==> r@[k] == gspec[k],
        decreases xd - i + 1,
    {
        proof {
            vstd::arithmetic::mul::lemma_mul_upper_bound(
                i as int,
                MAX_DIVS as int,
                rect.w as int,
                crate::num::MAX_COORD as int,
            );
        }
        let t: u128 = (i as u128) * (rect.w as u128);
        let q: u128 = t / (xd as u128);
        proof {
            lemma_grid_pos_in_range(rect.w as int, xd as int, i as int);
        }
        let gx: i64 = rect.x + (q as i64);
        proof {
            assert(gspec[2 * i as int] == PathEl::MoveTo(Point { x: gx, y: rect.y }));
            assert(gspec[2 * i + 1] == PathEl::LineTo(
                Point { x: gx, y: (rect.y + rect.h) as i64 },
            ));
        }
        r.push(PathEl::MoveTo(Point { x: gx, y: rect.y }));
        r.push(PathEl::LineTo(Point { x: gx, y: rect.y + rect.h }));
        i = i + 1;
    }
    let ghost base = 2 * (xd + 1) as int;
    let mut j: u32 = 0;
    while j <= yd
        invariant
            rect.valid(),
            1 <= xd <= MAX_DIVS,
            1 <= yd <= MAX_DIVS,
            j <= yd + 1,
            base == 2 * (xd + 1),
            r@.len() == base + 2 * j,
            gspec == grid_path_spec(*rect, xd as int, yd as int),
            forall|k: int| 0 <= k < r@.len() ==> r@[k] == gspec[k],
        decreases yd - j + 1,
    {
        proof {
            vstd::arithmetic::mul::lemma_mul_upper_bound(
                j as int,
                MAX_DIVS as int,
                rect.h as int,
                crate::num::MAX_COORD as int,
            );
        }
        let t: u128 = (j as u128) * (rect.h as u128);
        let q: u128 = t / (yd as u128);
        proof {
            lemma_grid_pos_in_range(rect.h as int, yd as int, j as int);
        }
        let gy: i64 = rect.y + (q as i64);
        proof {
            assert((base + 2 * j) % 2 == 0 && (base + 2 * j) / 2 == xd + 1 + j) by {
                lemma_div_range(base + 2 * j, 2, xd + 1 + j as int);
                lemma_fundamental_div_mod(base + 2 * j, 2);
            }
            assert((base + 2 * j + 1) % 2 == 1 && (base + 2 * j + 1) / 2 == xd + 1 + j) by {
                lemma_div_range(base + 2 * j + 1, 2, xd + 1 + j as int);
                lemma_fundamental_div_mod(base + 2 * j + 1, 2);
            }
            assert(gspec[base + 2 * j] == PathEl::MoveTo(Point { x: rect.x, y: gy }));
            assert(gspec[base + 2 * j + 1] == PathEl::LineTo(
                Point { x: (rect.x + rect.w) as i64, y: gy },
            ));
        }
        r.push(PathEl::MoveTo(Point { x: rect.x, y: gy }));
        r.push(PathEl::LineTo(Point { x: rect.x + rect.w, y: gy }));
        j = j + 1;
    }
    proof {
        assert(r@ =~= gspec);
    }
    r
}

/// Grid symmetry at the edges: with `d` divisions there are `d + 1`
/// division positions, the first at the rectangle's near edge and the
/// last exactly at its far edge.
pub proof fn lemma_grid_endpoints(rect: Rect, d: int)
    requires
        rect.valid(),
        1 <= d,
    ensures
        grid_x_spec(rect, d, 0) == rect.x,
        grid_x_spec(rect, d, d) == rect.x + rect.w,
        grid_y_spec(rect, d, 0) == rect.y,
        grid_y_spec(rect, d, d) == rect.y + rect.h,
{
    assert((0 * rect.w) / d == 0) by {
        vstd::arithmetic::div_mod::lemma_div_of0(d);
    }
    assert((0 * rect.h) / d == 0) by {
        vstd::arithmetic::div_mod::lemma_div_of0(d);
    }
    assert((d * rect.w) / d == rect.w) by {
        lemma_div_multiples_vanish(rect.w as int, d);
    }
    assert((d * rect.h) / d == rect.h) by {
        lemma_div_multiples_vanish(rect.h as int, d);
    }
}

/// Grid lines are evenly spaced: adjacent division positions differ by
/// the side divided by `d`, up to one unit of rounding, and exactly when
/// `d` divides the side.
pub proof fn lemma_grid_spacing(side: int, d: int, i: int)
    requires
        0 < side,
        1 <= d,
        0 <= i < d,
    ensures
        side / d <= ((i + 1) * side) / d - (i * side) / d <= side / d + 1,
        side % d == 0 ==> ((i + 1) * side) / d - (i * side) / d == side / d,
{
    let lo = (i * side) / d;
    let hi = ((i + 1) * side) / d;
    lemma_fundamental_div_mod(i * side, d);
    lemma_fundamental_div_mod(side, d);
    assert((i + 1) * side == i * side + side) by {
        lemma_mul_is_distributive_add_other_way(side, i, 1);
    }
    // lower bound by superadditivity of flooring division
    crate::num::lemma_div_superadditive(i * side, side, d);
    // upper bound: (i + 1) * side < d * (lo + side / d + 2)
    assert(d * (lo + side / d + 2) == d * lo + d * (side / d) + 2 * d) by {
        vstd::arithmetic::mul::lemma_mul_is_distributive_add(d, lo, side / d + 2);
        vstd::arithmetic::mul::lemma_mul_is_distributive_add(d, side / d, 2);
    }
    assert(i * side + side < d * (lo + side / d + 2));
    assert(hi <= lo + side / d + 1) by {
        if hi > lo + side / d + 1 {
            lemma_mul_inequality(lo + side / d + 2, hi, d);
            lemma_mul_is_commutative(lo + side / d + 2, d);
            lemma_mul_is_commutative(hi, d);
            vstd::arithmetic::div_mod::lemma_remainder_lower(i * side + side, d);
            assert(d * hi <= i * side + side);
            assert(false);
        }
    }
    if side % d == 0 {
        assert(hi <= lo + side / d) by {
            if hi > lo + side / d {
                lemma_mul_inequality(lo + side / d + 1, hi, d);
                lemma_mul_is_commutative(lo + side / d + 1, d);
                lemma_mul_is_commutative(hi, d);
                vstd::arithmetic::div_mod::lemma_remainder_lower(i * side + side, d);
                assert(d * (lo + side / d + 1) == d * lo + d * (side / d) + d) by {
                    vstd::arithmetic::mul::lemma_mul_is_distributive_add(d, lo, side / d + 1);
                    vstd::arithmetic::mul::lemma_mul_is_distributive_add(d, side / d, 1);
                }
                assert(i * side + side == d * lo + (i * side) % d + d * (side / d));
                assert(d * hi <= i * side + side);
                assert(false);
            }
        }
    }
}

} // verus!
