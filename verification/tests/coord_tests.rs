use vizia_scope::coord::audio_y;
use vizia_scope::coord::bump;
use vizia_scope::coord::const_offset;
use vizia_scope::coord::signal_y;
use vizia_scope::coord::thin_limit;
use vizia_scope::geom::Rect;
use vizia_scope::num::ONE;

fn square100() -> Rect {
    Rect { x: 0, y: 0, w: 100 * ONE, h: 100 * ONE }
}

#[test]
fn audio_y_full_scale_extents() {
    let rect = square100();
    // -1.0 maps to the bottom edge, +1.0 to the top edge (inverted axis)
    assert_eq!(audio_y(&rect, ONE, -(ONE as i128)), 100 * ONE);
    assert_eq!(audio_y(&rect, ONE, ONE as i128), 0);
    assert_eq!(audio_y(&rect, ONE, 0), 50 * ONE);
}

#[test]
fn audio_y_half_scale_layer() {
    let rect = square100();
    assert_eq!(audio_y(&rect, ONE / 2, -(ONE as i128)), 75 * ONE);
    assert_eq!(audio_y(&rect, ONE / 2, ONE as i128), 25 * ONE);
}

#[test]
fn audio_y_clamps_out_of_range() {
    let rect = square100();
    // mapping v and mapping clamp(v, -1, 1) give the same pixel
    assert_eq!(audio_y(&rect, ONE, 10 * ONE as i128), audio_y(&rect, ONE, ONE as i128));
    assert_eq!(
        audio_y(&rect, ONE, -100 * ONE as i128),
        audio_y(&rect, ONE, -(ONE as i128)),
    );
    assert_eq!(audio_y(&rect, ONE, i64::MAX as i128), audio_y(&rect, ONE, ONE as i128));
}

#[test]
fn signal_y_is_not_inverted() {
    let rect = square100();
    // the signal convention offsets downward for positive amplitudes
    assert_eq!(signal_y(&rect, ONE as i128), 100 * ONE);
    assert_eq!(signal_y(&rect, -(ONE as i128)), 0);
    assert_eq!(signal_y(&rect, 0), 50 * ONE);
    assert_eq!(signal_y(&rect, (ONE / 2) as i128), 75 * ONE);
}

#[test]
fn signal_y_clamps_out_of_range() {
    let rect = square100();
    assert_eq!(signal_y(&rect, 7 * ONE as i128), signal_y(&rect, ONE as i128));
    assert_eq!(signal_y(&rect, -3 * ONE as i128), signal_y(&rect, -(ONE as i128)));
}

#[test]
fn const_offset_is_half_height_scaled() {
    // 0.5 of a 100-pixel height: 25 pixels from the midline
    assert_eq!(const_offset(ONE / 2, 100 * ONE), 25 * ONE);
    assert_eq!(const_offset(-(ONE / 2), 100 * ONE), -25 * ONE);
    // the constant is not clamped: 2.0 gives a full height offset
    assert_eq!(const_offset(2 * ONE, 100 * ONE), 100 * ONE);
}

#[test]
fn thin_limit_and_bump_formulas() {
    // two and four pixel-heights' worth of amplitude over 100 pixels
    assert_eq!(thin_limit(100 * ONE), 1310);
    assert_eq!(bump(100 * ONE), 2621);
    assert_eq!(thin_limit(2 * ONE), 65536);
    assert_eq!(bump(2 * ONE), 2 * 65536);
}
