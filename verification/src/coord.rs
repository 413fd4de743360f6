//! The coordinate mapper: pure numeric transforms from amplitude values
//! to vertical pixel offsets inside a bounding rectangle.
//!
//! Two distinct vertical conventions are kept deliberately, as the scope's
//! line types document them: the constant-line mapping offsets from the
//! midline without inverting the sign, while the audio-envelope mapping
//! inverts the clamped amplitude and applies a layer scale.

use crate::geom::Rect;
use crate::num::MAX_AMP;
use crate::num::MAX_COORD;
use crate::num::ONE;
use crate::num::clamp_amp;
use crate::num::clamp_spec;
use crate::num::div_fix;
use crate::num::lemma_div_superadditive;
use crate::num::lemma_tdiv_bounds;
use crate::num::lemma_tdiv_vs_floor;
use crate::num::tdiv;
use vstd::arithmetic::div_mod::lemma_div_is_ordered;
use vstd::prelude::*;

verus! {

/// Vertical position of a clamped amplitude `v` for a signal line: the
/// midline plus `v` halves of the rectangle height, positive amplitudes
/// growing downward.
pub open spec fn signal_y_spec(rect: Rect, v: int) -> int {
    rect.y + tdiv(clamp_spec(v, -ONE as int, ONE as int) * rect.h, 2 * ONE) + rect.h / 2
}

/// Vertical position of a clamped amplitude `v` for an audio envelope
/// layer drawn at `scale`: inverted, so positive amplitudes grow upward.
pub open spec fn audio_y_spec(rect: Rect, scale: int, v: int) -> int {
    rect.y - tdiv(scale * clamp_spec(v, -ONE as int, ONE as int) * rect.h, 2 * ONE * ONE) + rect.h
        / 2
}

/// Offset of a constant line from the midline: `constant` halves of the
/// rectangle height, not clamped.
pub open spec fn const_offset_spec(c: int, h: int) -> int {
    tdiv(c * h, 2 * ONE)
}

/// Amplitude difference below which an envelope bucket is considered too
/// thin to be visible: two pixel-heights' worth of amplitude.
pub open spec fn thin_limit_spec(h: int) -> int {
    (2 * ONE * ONE) / h
}

/// Amplitude added to a too-thin bucket's maximum: four pixel-heights'
/// worth of amplitude.
pub open spec fn bump_spec(h: int) -> int {
    (4 * ONE * ONE) / h
}

/// Half the rectangle height, in units.
pub fn half_height(rect: &Rect) -> (r: i64)
    requires
        rect.valid(),
    ensures
        r == rect.h as int / 2,
{
    let r = div_fix(rect.h as i128, 2);
    r as i64
}

/// Executable counterpart of [`signal_y_spec`].
pub fn signal_y(rect: &Rect, v: i128) -> (y: i64)
    requires
        rect.valid(),
    ensures
        y == signal_y_spec(*rect, v as int),
        rect.y - 2 * MAX_COORD <= y <= rect.y + 2 * MAX_COORD,
{
    let c = clamp_amp(v);
    let cw: i128 = c as i128;
    let hw: i128 = rect.h as i128;
    proof {
        assert(-(ONE * MAX_COORD) <= cw * hw <= ONE * MAX_COORD) by (nonlinear_arith)
            requires
                -ONE <= cw <= ONE,
                0 < hw <= MAX_COORD,
        ;
    }
    let prod: i128 = cw * hw;
    proof {
        lemma_tdiv_bounds(prod as int, 2 * ONE as int, -MAX_COORD as int, MAX_COORD as int);
    }
    let off = div_fix(prod, 2 * (ONE as i128));
    rect.y + (off as i64) + half_height(rect)
}

/// Executable counterpart of [`audio_y_spec`].
pub fn audio_y(rect: &Rect, scale: i64, v: i128) -> (y: i64)
    requires
        rect.valid(),
        0 <= scale <= ONE,
    ensures
        y == audio_y_spec(*rect, scale as int, v as int),
        rect.y - 2 * MAX_COORD <= y <= rect.y + 2 * MAX_COORD,
{
    let c = clamp_amp(v);
    let sw: i128 = scale as i128;
    let cw: i128 = c as i128;
    let hw: i128 = rect.h as i128;
    proof {
        assert(-(ONE * ONE) <= sw * cw <= ONE * ONE) by (nonlinear_arith)
            requires
                -ONE <= cw <= ONE,
                0 <= sw <= ONE,
        ;
    }
    let sc: i128 = sw * cw;
    proof {
        assert(-(ONE * ONE * MAX_COORD) <= sc * hw <= ONE * ONE * MAX_COORD) by (nonlinear_arith)
            requires
                -(ONE * ONE) <= sc <= ONE * ONE,
                0 < hw <= MAX_COORD,
        ;
    }
    let prod: i128 = sc * hw;
    proof {
        lemma_tdiv_bounds(prod as int, 2 * ONE * ONE as int, -MAX_COORD as int, MAX_COORD as int);
    }
    let off = div_fix(prod, 2 * (ONE as i128) * (ONE as i128));
    rect.y - (off as i64) + half_height(rect)
}

/// Executable counterpart of [`const_offset_spec`].
pub fn const_offset(c: i64, h: i64) -> (off: i64)
    requires
        -MAX_AMP <= c <= MAX_AMP,
        0 < h <= MAX_COORD,
    ensures
        off == const_offset_spec(c as int, h as int),
        -0x8000_0000_0000 <= off <= 0x8000_0000_0000,
{
    let cw: i128 = c as i128;
    let hw: i128 = h as i128;
    proof {
        assert(-(MAX_AMP * MAX_COORD) <= cw * hw <= MAX_AMP * MAX_COORD) by (nonlinear_arith)
            requires
                -MAX_AMP <= cw <= MAX_AMP,
                0 < hw <= MAX_COORD,
        ;
    }
    let prod: i128 = cw * hw;
    proof {
        lemma_tdiv_bounds(prod as int, 2 * ONE as int, -0x8000_0000_0000, 0x8000_0000_0000);
    }
    let off = div_fix(prod, 2 * (ONE as i128));
    off as i64
}

/// Executable counterpart of [`thin_limit_spec`].
pub fn thin_limit(h: i64) -> (r: i64)
    requires
        0 < h,
    ensures
        r == thin_limit_spec(h as int),
{
    let r = div_fix(2 * (ONE as i128) * (ONE as i128), h as i128);
    proof {
        lemma_tdiv_bounds(2 * ONE * ONE as int, h as int, 0, 2 * ONE * ONE as int);
    }
    r as i64
}

/// Executable counterpart of [`bump_spec`].
pub fn bump(h: i64) -> (r: i64)
    requires
        0 < h,
    ensures
        r == bump_spec(h as int),
{
    let r = div_fix(4 * (ONE as i128) * (ONE as i128), h as i128);
    proof {
        lemma_tdiv_bounds(4 * ONE * ONE as int, h as int, 0, 4 * ONE * ONE as int);
    }
    r as i64
}

/// Clamping is idempotent.
pub proof fn lemma_clamp_idempotent(v: int, lo: int, hi: int)
    requires
        lo <= hi,
    ensures
        clamp_spec(clamp_spec(v, lo, hi), lo, hi) == clamp_spec(v, lo, hi),
{
}

/// Clamp idempotence of the vertical mappings: mapping an out-of-range
/// amplitude and mapping its clamped value give the same pixel position,
/// for both vertical conventions.
pub proof fn lemma_map_clamp_idempotent(rect: Rect, scale: int, v: int)
    ensures
        signal_y_spec(rect, clamp_spec(v, -ONE as int, ONE as int)) == signal_y_spec(rect, v),
        audio_y_spec(rect, scale, clamp_spec(v, -ONE as int, ONE as int)) == audio_y_spec(
            rect,
            scale,
            v,
        ),
{
}

/// The minimum-thickness guarantee: when a bucket's envelope is thinner
/// than [`thin_limit_spec`] and its bumped maximum still lies in range,
/// the rendered segment from the bumped maximum down to the minimum spans
/// at least the bump's worth of pixels, short at most one unit of
/// rounding.
pub proof fn lemma_min_thickness(rect: Rect, scale: int, mn: int, mx: int)
    requires
        rect.valid(),
        0 <= scale <= ONE,
        -ONE <= mn <= mx,
        mx + bump_spec(rect.h as int) <= ONE,
    ensures
        audio_y_spec(rect, scale, mn) - audio_y_spec(rect, scale, mx + bump_spec(rect.h as int))
            >= tdiv(scale * bump_spec(rect.h as int) * rect.h, 2 * ONE * ONE) - 1,
{
    let h = rect.h as int;
    let d = 2 * ONE * ONE as int;
    let b = bump_spec(h);
    let a1 = scale * clamp_spec(mx + b, -ONE as int, ONE as int) * h;
    let a0 = scale * clamp_spec(mn, -ONE as int, ONE as int) * h;
    assert(clamp_spec(mx + b, -ONE as int, ONE as int) == mx + b);
    assert(clamp_spec(mn, -ONE as int, ONE as int) == mn);
    assert(b >= 0) by {
        vstd::arithmetic::div_mod::lemma_div_pos_is_pos(4 * ONE * ONE as int, h);
    }
    assert(a1 - a0 >= scale * b * h) by (nonlinear_arith)
        requires
            a1 == scale * (mx + b) * h,
            a0 == scale * mn * h,
            mn <= mx,
            0 <= scale,
            0 < h,
            0 <= b,
    ;
    assert(scale * b * h >= 0) by (nonlinear_arith)
        requires
            0 <= scale,
            0 <= b,
            0 < h,
    ;
    // tdiv(a1) - tdiv(a0) >= floor(a1) - floor(a0) - 1 >= floor(a1 - a0) - 1
    lemma_tdiv_vs_floor(a1, d);
    lemma_tdiv_vs_floor(a0, d);
    lemma_div_superadditive(a1 - a0, a0, d);
    lemma_div_is_ordered(scale * b * h, a1 - a0, d);
    assert(tdiv(a1, d) - tdiv(a0, d) >= (scale * b * h) / d - 1);
    assert((scale * b * h) / d == tdiv(scale * b * h, d));
}

} // verus!
